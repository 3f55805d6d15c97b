//! The chart vocabulary shared by the layout engine and its renderers: chart
//! modes, node identities and kinds, the card content a person node carries,
//! and the lifespan label on it. (Node geometry is computed and rendered by
//! the application.)

use vstd::prelude::*;
use crate::enums::Sex;
use crate::ids::{FamilyId, MediaId, PersonId};
use crate::num::{int_text, push_int};
use crate::text::{push_str, string_from_chars};
use crate::gedcom::lexer::opt_view;

verus! {

/// Which chart to draw around a root person.
#[derive(Debug, Clone, Copy, PartialEq, Eq, Hash, Structural)]
pub enum ChartMode {
    /// The root's ancestors.
    Ancestors,
    /// The root's descendants.
    Descendants,
    /// Ancestors above and descendants below.
    Hourglass,
    /// The whole connected family graph.
    Network,
}

/// The colour theme of an exported chart.
#[derive(Debug, Clone, Copy, PartialEq, Eq, Hash, Structural)]
pub enum Theme {
    /// Dark text on a light page.
    Light,
    /// Light text on a dark page.
    Dark,
}

/// A layout-local node identity (a person repeated in a pedigree is two
/// nodes), minted in traversal order.
#[derive(Debug, Clone, Copy, PartialEq, Eq, Hash, PartialOrd, Ord, Structural)]
pub struct NodeId(u32);

impl NodeId {
    /// The index a node id wraps.
    pub closed spec fn index(self) -> u32 {
        self.0
    }

    /// Wraps a raw layout-local index.
    pub fn new(id: u32) -> (r: Self)
        ensures
            r.index() == id,
    {
        NodeId(id)
    }

    /// Returns the underlying index.
    pub fn get(self) -> (r: u32)
        ensures
            r == self.index(),
    {
        self.0
    }
}

/// Whether a node draws a person card or a union joiner.
#[derive(Debug, Clone, Copy, PartialEq, Eq, Structural)]
pub enum NodeKind {
    /// A person card.
    Person,
    /// A union (family) joiner.
    Union,
}

/// The row a layout node stands for.
#[derive(Debug, Clone, Copy, PartialEq, Eq, Structural)]
pub enum NodeEntity {
    /// An individual.
    Person(PersonId),
    /// A family.
    Union(FamilyId),
}

/// Whether a link joins a union to a child or a person to a union.
#[derive(Debug, Clone, Copy, PartialEq, Eq, Structural)]
pub enum LinkKind {
    /// Union → child.
    Descent,
    /// Person ↔ union.
    Partner,
}

/// The card data a person node carries.
#[derive(Debug, Clone, PartialEq, Eq)]
pub struct NodeContent {
    /// "Given Surname"-style label.
    pub display_name: String,
    /// Lifespan label (`1887–1956`, `b. 1990`), when a year is known.
    pub lifespan: Option<String>,
    /// Recorded sex.
    pub sex: Sex,
    /// Privacy flag.
    pub living: bool,
    /// The person's portrait, if any.
    pub portrait: Option<MediaId>,
}

/// The lifespan label of best-estimate years: both → `1887–1956`; birth only
/// and living → `b. 1990`; birth only otherwise → `1887–`; death only →
/// `–1956`; neither → nothing. The dash is an en dash.
pub open spec fn spec_lifespan(birth: Option<i32>, death: Option<i32>, living: bool) -> Option<
    Seq<char>,
> {
    match (birth, death) {
        (Some(b), Some(d)) => Some(int_text(b as int) + seq!['\u{2013}'] + int_text(d as int)),
        (Some(b), None) => if living {
            Some("b. "@ + int_text(b as int))
        } else {
            Some(int_text(b as int) + seq!['\u{2013}'])
        },
        (None, Some(d)) => Some(seq!['\u{2013}'] + int_text(d as int)),
        (None, None) => None,
    }
}

/// Formats a lifespan label from best-estimate years (see [`spec_lifespan`]).
pub fn lifespan(birth: Option<i32>, death: Option<i32>, living: bool) -> (r: Option<String>)
    ensures
        opt_view(r) == spec_lifespan(birth, death, living),
{
    let mut out: Vec<char> = Vec::new();
    match (birth, death) {
        (Some(b), Some(d)) => {
            push_int(&mut out, b as i64);
            out.push('\u{2013}');
            push_int(&mut out, d as i64);
        },
        (Some(b), None) => {
            if living {
                push_str(&mut out, "b. ");
                push_int(&mut out, b as i64);
            } else {
                push_int(&mut out, b as i64);
                out.push('\u{2013}');
            }
        },
        (None, Some(d)) => {
            out.push('\u{2013}');
            push_int(&mut out, d as i64);
        },
        (None, None) => {
            return None;
        },
    }
    assert(Some(out@) == spec_lifespan(birth, death, living));
    Some(string_from_chars(out))
}

} // verus!
