//! The relationship graph a walk around one person produces — persons,
//! unions (a family's partners) and the edges between them, in the walk's own
//! order — and the indented text tree it is printed as.
//!
//! The tree is walked from the focal person by following the edges in order:
//! up through the unions a person is a child of (ancestors), or down through
//! the unions a person is a partner in, showing the other partner as a
//! `+ spouse` line and the union's children below (descendants). Persons are
//! looked up by node, the last entry for a node counting. A walk goes no
//! deeper than there are persons, which on a graph without cycles it never
//! reaches.

use vstd::prelude::*;
use crate::layout::ChartMode;
use crate::output::{person_line, PersonNode};
use crate::num::int_text;
use crate::text::{push_str, string_from_chars};

verus! {

/// A node of a walk's graph: a person or a union.
#[derive(Debug, Clone, Copy, PartialEq, Eq, Hash, Structural)]
pub struct NodeRef(pub u64);

/// A union in a walk's graph and the partners it joins.
#[derive(Debug, Clone, PartialEq, Eq)]
pub struct UnionNode {
    /// The union's node.
    pub node: NodeRef,
    /// Its partners' nodes, in order.
    pub partners: Vec<NodeRef>,
}

/// An edge of a walk's graph.
#[derive(Debug, Clone, Copy, PartialEq, Eq)]
pub enum RelEdge {
    /// A person is a partner in a union.
    Partner {
        /// The partner.
        person: NodeRef,
        /// The union.
        union: NodeRef,
    },
    /// A union has a child.
    Descent {
        /// The union.
        union: NodeRef,
        /// The child.
        child: NodeRef,
    },
}

/// The graph a relationship walk produces, in a deterministic order.
#[derive(Debug, Clone, PartialEq, Eq)]
pub struct RelativeGraph {
    /// Which way the walk went.
    pub mode: ChartMode,
    /// The persons reached (one of them focal).
    pub persons: Vec<PersonNode>,
    /// The unions reached.
    pub unions: Vec<UnionNode>,
    /// The edges, in walk order.
    pub edges: Vec<RelEdge>,
}

/// The last person with node `n`.
pub open spec fn find_person(ps: Seq<PersonNode>, n: NodeRef) -> Option<PersonNode>
    decreases ps.len(),
{
    if ps.len() == 0 {
        None
    } else if ps.last().node == n {
        Some(ps.last())
    } else {
        find_person(ps.drop_last(), n)
    }
}

/// The partners of the last union with node `u` (none when there is no such
/// union).
pub open spec fn find_partners(us: Seq<UnionNode>, u: NodeRef) -> Seq<NodeRef>
    decreases us.len(),
{
    if us.len() == 0 {
        seq![]
    } else if us.last().node == u {
        us.last().partners@
    } else {
        find_partners(us.drop_last(), u)
    }
}

/// The unions `n` is a child of, in edge order.
pub open spec fn child_unions(edges: Seq<RelEdge>, n: NodeRef) -> Seq<NodeRef>
    decreases edges.len(),
{
    if edges.len() == 0 {
        seq![]
    } else {
        let rest = child_unions(edges.drop_last(), n);
        match edges.last() {
            RelEdge::Descent { union, child } if child == n => rest.push(union),
            _ => rest,
        }
    }
}

/// The unions `n` is a partner in, in edge order.
pub open spec fn partner_unions(edges: Seq<RelEdge>, n: NodeRef) -> Seq<NodeRef>
    decreases edges.len(),
{
    if edges.len() == 0 {
        seq![]
    } else {
        let rest = partner_unions(edges.drop_last(), n);
        match edges.last() {
            RelEdge::Partner { person, union } if person == n => rest.push(union),
            _ => rest,
        }
    }
}

/// The children of union `u`, in edge order.
pub open spec fn union_children(edges: Seq<RelEdge>, u: NodeRef) -> Seq<NodeRef>
    decreases edges.len(),
{
    if edges.len() == 0 {
        seq![]
    } else {
        let rest = union_children(edges.drop_last(), u);
        match edges.last() {
            RelEdge::Descent { union, child } if union == u => rest.push(child),
            _ => rest,
        }
    }
}

/// Two spaces per level.
pub open spec fn indent(depth: nat) -> Seq<char> {
    Seq::new(2 * depth, |_i: int| ' ')
}

/// A person's tree line text: the name, and the lifespan when a year is
/// known.
pub open spec fn line_text(p: PersonNode) -> Seq<char> {
    match crate::output::spec_node_lifespan(p.birth_year, p.death_year) {
        Some(span) => p.display_name@ + " ("@ + span + seq![')'],
        None => p.display_name@,
    }
}

/// A person and their ancestors, parents one level further in.
pub open spec fn ancestor_text(g: RelativeGraph, node: NodeRef, depth: nat, fuel: nat) -> Seq<char>
    decreases fuel, 2nat, 0nat,
{
    match find_person(g.persons@, node) {
        None => seq![],
        Some(p) => indent(depth) + line_text(p) + seq!['\n'] + ancestor_unions(
            g,
            child_unions(g.edges@, node),
            depth,
            fuel,
        ),
    }
}

/// The parents of each of `us`, in order.
pub open spec fn ancestor_unions(g: RelativeGraph, us: Seq<NodeRef>, depth: nat, fuel: nat) -> Seq<char>
    decreases fuel, 1nat, us.len(),
{
    if us.len() == 0 {
        seq![]
    } else {
        ancestor_unions(g, us.drop_last(), depth, fuel) + ancestor_parents(
            g,
            find_partners(g.unions@, us.last()),
            depth + 1,
            fuel,
        )
    }
}

/// Each of `ps` with their ancestors, in order.
pub open spec fn ancestor_parents(g: RelativeGraph, ps: Seq<NodeRef>, depth: nat, fuel: nat) -> Seq<char>
    decreases fuel, 0nat, ps.len(),
{
    if ps.len() == 0 {
        seq![]
    } else {
        ancestor_parents(g, ps.drop_last(), depth, fuel) + if fuel == 0 {
            seq![]
        } else {
            ancestor_text(g, ps.last(), depth, (fuel - 1) as nat)
        }
    }
}

/// The `+ spouse` lines of a union for `node`: each other partner that is a
/// person of the graph.
pub open spec fn spouse_lines(g: RelativeGraph, ps: Seq<NodeRef>, node: NodeRef, depth: nat) -> Seq<char>
    decreases ps.len(),
{
    if ps.len() == 0 {
        seq![]
    } else {
        spouse_lines(g, ps.drop_last(), node, depth) + if ps.last() != node {
            match find_person(g.persons@, ps.last()) {
                Some(s) => indent(depth) + "+ "@ + line_text(s) + seq!['\n'],
                None => seq![],
            }
        } else {
            seq![]
        }
    }
}

/// A person and their descendants: per union, the spouse one level in and the
/// children two levels in.
pub open spec fn descendant_text(g: RelativeGraph, node: NodeRef, depth: nat, fuel: nat) -> Seq<char>
    decreases fuel, 2nat, 0nat,
{
    match find_person(g.persons@, node) {
        None => seq![],
        Some(p) => indent(depth) + line_text(p) + seq!['\n'] + descendant_unions(
            g,
            partner_unions(g.edges@, node),
            node,
            depth,
            fuel,
        ),
    }
}

/// The spouses and children of each of `us`, in order.
pub open spec fn descendant_unions(
    g: RelativeGraph,
    us: Seq<NodeRef>,
    node: NodeRef,
    depth: nat,
    fuel: nat,
) -> Seq<char>
    decreases fuel, 1nat, us.len(),
{
    if us.len() == 0 {
        seq![]
    } else {
        descendant_unions(g, us.drop_last(), node, depth, fuel) + spouse_lines(
            g,
            find_partners(g.unions@, us.last()),
            node,
            depth + 1,
        ) + descendant_children(g, union_children(g.edges@, us.last()), depth + 2, fuel)
    }
}

/// Each of `cs` with their descendants, in order.
pub open spec fn descendant_children(g: RelativeGraph, cs: Seq<NodeRef>, depth: nat, fuel: nat) -> Seq<char>
    decreases fuel, 0nat, cs.len(),
{
    if cs.len() == 0 {
        seq![]
    } else {
        descendant_children(g, cs.drop_last(), depth, fuel) + if fuel == 0 {
            seq![]
        } else {
            descendant_text(g, cs.last(), depth, (fuel - 1) as nat)
        }
    }
}

/// The first focal person.
pub open spec fn first_focal(ps: Seq<PersonNode>) -> Option<PersonNode>
    decreases ps.len(),
{
    if ps.len() == 0 {
        None
    } else if ps[0].focal {
        Some(ps[0])
    } else {
        first_focal(ps.drop_first())
    }
}

/// How deep a walk may go: as deep as there are persons.
pub open spec fn walk_fuel(n: nat) -> nat {
    if n <= usize::MAX / 8 {
        n
    } else {
        (usize::MAX / 8) as nat
    }
}

/// The text tree of a walk's graph: `(empty)` without a focal person, else the
/// ancestors of the focus for an ancestors walk and its descendants for any
/// other.
pub open spec fn graph_text(g: RelativeGraph) -> Seq<char> {
    match first_focal(g.persons@) {
        None => "(empty)"@ + seq!['\n'],
        Some(f) => if g.mode == ChartMode::Ancestors {
            ancestor_text(g, f.node, 0, walk_fuel(g.persons@.len()))
        } else {
            descendant_text(g, f.node, 0, walk_fuel(g.persons@.len()))
        },
    }
}

/// The last person with node `n`.
fn person_of(ps: &Vec<PersonNode>, n: NodeRef) -> (r: Option<&PersonNode>)
    ensures
        match r {
            Some(p) => find_person(ps@, n) == Some(*p),
            None => find_person(ps@, n) is None,
        },
{
    let mut i: usize = ps.len();
    assert(ps@.take(i as int) =~= ps@);
    while i > 0
        invariant
            i <= ps.len(),
            find_person(ps@, n) == find_person(ps@.take(i as int), n),
        decreases i,
    {
        assert(ps@.take(i as int).drop_last() =~= ps@.take(i - 1));
        if ps[i - 1].node == n {
            return Some(&ps[i - 1]);
        }
        i = i - 1;
    }
    None
}

/// The last union with node `u`.
fn union_of(us: &Vec<UnionNode>, u: NodeRef) -> (r: Option<&UnionNode>)
    ensures
        match r {
            Some(x) => x.partners@ == find_partners(us@, u),
            None => find_partners(us@, u).len() == 0,
        },
{
    let mut i: usize = us.len();
    assert(us@.take(i as int) =~= us@);
    while i > 0
        invariant
            i <= us.len(),
            find_partners(us@, u) == find_partners(us@.take(i as int), u),
        decreases i,
    {
        assert(us@.take(i as int).drop_last() =~= us@.take(i - 1));
        if us[i - 1].node == u {
            return Some(&us[i - 1]);
        }
        i = i - 1;
    }
    None
}

/// Which edges to follow from a node.
enum Follow {
    /// Up to the unions it is a child of.
    ChildOf,
    /// Down to the unions it is a partner in.
    PartnerIn,
    /// Down to the children of a union.
    ChildrenOf,
}

/// The nodes the edges lead to from `n`, in edge order.
fn follow(edges: &Vec<RelEdge>, n: NodeRef, how: Follow) -> (r: Vec<NodeRef>)
    ensures
        r@ == match how {
            Follow::ChildOf => child_unions(edges@, n),
            Follow::PartnerIn => partner_unions(edges@, n),
            Follow::ChildrenOf => union_children(edges@, n),
        },
{
    let ghost want = |es: Seq<RelEdge>|
        match how {
            Follow::ChildOf => child_unions(es, n),
            Follow::PartnerIn => partner_unions(es, n),
            Follow::ChildrenOf => union_children(es, n),
        };
    let mut r: Vec<NodeRef> = Vec::new();
    let mut k: usize = 0;
    while k < edges.len()
        invariant
            k <= edges.len(),
            r@ == want(edges@.take(k as int)),
            want == (|es: Seq<RelEdge>|
                match how {
                    Follow::ChildOf => child_unions(es, n),
                    Follow::PartnerIn => partner_unions(es, n),
                    Follow::ChildrenOf => union_children(es, n),
                }),
        decreases edges.len() - k,
    {
        assert(edges@.take(k + 1).drop_last() =~= edges@.take(k as int));
        assert(edges@.take(k + 1).last() == edges@[k as int]);
        match (&how, edges[k]) {
            (Follow::ChildOf, RelEdge::Descent { union, child }) => {
                if child == n {
                    r.push(union);
                }
            },
            (Follow::PartnerIn, RelEdge::Partner { person, union }) => {
                if person == n {
                    r.push(union);
                }
            },
            (Follow::ChildrenOf, RelEdge::Descent { union, child }) => {
                if union == n {
                    r.push(child);
                }
            },
            _ => {},
        }
        k = k + 1;
    }
    assert(edges@.take(edges.len() as int) =~= edges@);
    r
}

/// Appends two spaces per level.
fn push_indent(out: &mut Vec<char>, depth: usize)
    requires
        2 * depth <= usize::MAX,
    ensures
        final(out)@ == old(out)@ + indent(depth as nat),
{
    let mut k: usize = 0;
    while k < 2 * depth
        invariant
            k <= 2 * depth,
            2 * depth <= usize::MAX,
            out@ == old(out)@ + Seq::new(k as nat, |_i: int| ' '),
        decreases 2 * depth - k,
    {
        out.push(' ');
        k = k + 1;
        assert(out@ =~= old(out)@ + Seq::new(k as nat, |_i: int| ' '));
    }
}

/// Appends a person's tree line and a newline.
fn push_person_line(out: &mut Vec<char>, p: &PersonNode, depth: usize)
    requires
        2 * depth <= usize::MAX,
    ensures
        final(out)@ == old(out)@ + indent(depth as nat) + line_text(*p) + seq!['\n'],
{
    push_indent(out, depth);
    let l = person_line(p);
    push_str(out, l.as_str());
    out.push('\n');
    assert(out@ =~= old(out)@ + indent(depth as nat) + line_text(*p) + seq!['\n']);
}

/// Appends a person and their ancestors (see [`ancestor_text`]).
fn push_ancestors(out: &mut Vec<char>, g: &RelativeGraph, node: NodeRef, depth: usize, fuel: usize)
    requires
        2 * depth + 4 * fuel + 4 <= usize::MAX,
    ensures
        final(out)@ == old(out)@ + ancestor_text(*g, node, depth as nat, fuel as nat),
    decreases fuel,
{
    match person_of(&g.persons, node) {
        None => {
            assert(out@ =~= old(out)@ + ancestor_text(*g, node, depth as nat, fuel as nat));
        },
        Some(p) => {
            push_person_line(out, p, depth);
            let us = follow(&g.edges, node, Follow::ChildOf);
            let ghost start = out@;
            let mut k: usize = 0;
            while k < us.len()
                invariant
                    k <= us.len(),
                    2 * depth + 4 * fuel + 4 <= usize::MAX,
                    out@ == start + ancestor_unions(*g, us@.take(k as int), depth as nat, fuel as nat),
                decreases us.len() - k,
            {
                let ghost mid = out@;
                let ghost ps = find_partners(g.unions@, us@[k as int]);
                match union_of(&g.unions, us[k]) {
                    None => {
                        assert(ps.len() == 0);
                        assert(out@ =~= mid + ancestor_parents(*g, ps, (depth + 1) as nat, fuel as nat));
                    },
                    Some(u) => {
                        let mut j: usize = 0;
                        while j < u.partners.len()
                            invariant
                                j <= u.partners.len(),
                                u.partners@ == ps,
                                2 * depth + 4 * fuel + 4 <= usize::MAX,
                                out@ == mid + ancestor_parents(*g, ps.take(j as int), (depth + 1) as nat, fuel as nat),
                            decreases u.partners.len() - j,
                        {
                            assert(ps.take(j + 1).drop_last() =~= ps.take(j as int));
                            if fuel > 0 {
                                push_ancestors(out, g, u.partners[j], depth + 1, fuel - 1);
                            }
                            j = j + 1;
                        }
                        assert(ps.take(ps.len() as int) =~= ps);
                    },
                }
                proof {
                    assert(us@.take(k + 1).drop_last() =~= us@.take(k as int));
                }
                k = k + 1;
            }
            assert(us@.take(us.len() as int) =~= us@);
        },
    }
}

/// Appends the `+ spouse` lines of a union (see [`spouse_lines`]).
fn push_spouses(out: &mut Vec<char>, g: &RelativeGraph, ps: &Vec<NodeRef>, node: NodeRef, depth: usize)
    requires
        2 * depth <= usize::MAX,
    ensures
        final(out)@ == old(out)@ + spouse_lines(*g, ps@, node, depth as nat),
{
    let mut j: usize = 0;
    while j < ps.len()
        invariant
            j <= ps.len(),
            2 * depth <= usize::MAX,
            out@ == old(out)@ + spouse_lines(*g, ps@.take(j as int), node, depth as nat),
        decreases ps.len() - j,
    {
        assert(ps@.take(j + 1).drop_last() =~= ps@.take(j as int));
        let ghost before = out@;
        if ps[j] != node {
            match person_of(&g.persons, ps[j]) {
                Some(s) => {
                    push_indent(out, depth);
                    push_str(out, "+ ");
                    let l = person_line(s);
                    push_str(out, l.as_str());
                    out.push('\n');
                    assert(out@ =~= before + indent(depth as nat) + "+ "@ + line_text(*s) + seq!['\n']);
                },
                None => {},
            }
        }
        j = j + 1;
    }
    assert(ps@.take(ps.len() as int) =~= ps@);
}

/// Appends a person and their descendants (see [`descendant_text`]).
fn push_descendants(out: &mut Vec<char>, g: &RelativeGraph, node: NodeRef, depth: usize, fuel: usize)
    requires
        2 * depth + 4 * fuel + 4 <= usize::MAX,
    ensures
        final(out)@ == old(out)@ + descendant_text(*g, node, depth as nat, fuel as nat),
    decreases fuel,
{
    match person_of(&g.persons, node) {
        None => {
            assert(out@ =~= old(out)@ + descendant_text(*g, node, depth as nat, fuel as nat));
        },
        Some(p) => {
            push_person_line(out, p, depth);
            let us = follow(&g.edges, node, Follow::PartnerIn);
            let ghost start = out@;
            let mut k: usize = 0;
            while k < us.len()
                invariant
                    k <= us.len(),
                    2 * depth + 4 * fuel + 4 <= usize::MAX,
                    out@ == start + descendant_unions(*g, us@.take(k as int), node, depth as nat, fuel as nat),
                decreases us.len() - k,
            {
                let ghost mid = out@;
                let ghost ps = find_partners(g.unions@, us@[k as int]);
                match union_of(&g.unions, us[k]) {
                    None => {
                        assert(spouse_lines(*g, ps, node, (depth + 1) as nat) =~= seq![]);
                    },
                    Some(u) => {
                        push_spouses(out, g, &u.partners, node, depth + 1);
                    },
                }
                let ghost mid2 = out@;
                let cs = follow(&g.edges, us[k], Follow::ChildrenOf);
                let mut j: usize = 0;
                while j < cs.len()
                    invariant
                        j <= cs.len(),
                        2 * depth + 4 * fuel + 4 <= usize::MAX,
                        out@ == mid2 + descendant_children(*g, cs@.take(j as int), (depth + 2) as nat, fuel as nat),
                    decreases cs.len() - j,
                {
                    assert(cs@.take(j + 1).drop_last() =~= cs@.take(j as int));
                    if fuel > 0 {
                        push_descendants(out, g, cs[j], depth + 2, fuel - 1);
                    }
                    j = j + 1;
                }
                proof {
                    assert(cs@.take(cs.len() as int) =~= cs@);
                    assert(us@.take(k + 1).drop_last() =~= us@.take(k as int));
                }
                k = k + 1;
            }
            assert(us@.take(us.len() as int) =~= us@);
        },
    }
}

/// The first focal person.
fn focal_of(ps: &Vec<PersonNode>) -> (r: Option<&PersonNode>)
    ensures
        match r {
            Some(p) => first_focal(ps@) == Some(*p),
            None => first_focal(ps@) is None,
        },
{
    let mut i: usize = 0;
    assert(ps@.skip(0) =~= ps@);
    while i < ps.len()
        invariant
            i <= ps.len(),
            first_focal(ps@) == first_focal(ps@.skip(i as int)),
        decreases ps.len() - i,
    {
        assert(ps@.skip(i as int).drop_first() =~= ps@.skip(i + 1));
        assert(ps@.skip(i as int)[0] == ps@[i as int]);
        if ps[i].focal {
            return Some(&ps[i]);
        }
        i = i + 1;
    }
    assert(ps@.skip(i as int).len() == 0);
    None
}

/// The text tree of a walk's graph (see [`graph_text`]).
pub fn relative_graph_text(g: &RelativeGraph) -> (r: String)
    ensures
        r@ == graph_text(*g),
{
    let mut out: Vec<char> = Vec::new();
    match focal_of(&g.persons) {
        None => {
            push_str(&mut out, "(empty)");
            out.push('\n');
        },
        Some(f) => {
            let n = g.persons.len();
            let fuel = if n <= usize::MAX / 8 {
                n
            } else {
                usize::MAX / 8
            };
            if g.mode == ChartMode::Ancestors {
                push_ancestors(&mut out, g, f.node, 0, fuel);
            } else {
                push_descendants(&mut out, g, f.node, 0, fuel);
            }
        },
    }
    assert(out@ =~= graph_text(*g));
    string_from_chars(out)
}

} // verus!
