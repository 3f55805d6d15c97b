//! The GEDCOM tag ↔ domain mappings shared by the writer and the mapper.
//!
//! These are GEDCOM's own tags (`BIRT`), not the database codes (`birth`)
//! that [`EventKind::as_str`](crate::enums::EventKind::as_str) gives.

use vstd::prelude::*;
use crate::enums::{ChildRelation, Confidence, EventKind, NameKind};
use crate::gedcom::lexer::opt_view;
use crate::text::{chars_of, lit_eq};

verus! {

/// The view of an optional string slice.
pub open spec fn opt_str(o: Option<&str>) -> Option<Seq<char>> {
    match o {
        Some(s) => Some(s@),
        None => None,
    }
}

/// The fixed event kind a GEDCOM tag names, if any.
pub open spec fn fixed_kind_for_tag(t: Seq<char>) -> Option<EventKind> {
    if t == "BIRT"@ {
        Some(EventKind::Birth)
    } else if t == "DEAT"@ {
        Some(EventKind::Death)
    } else if t == "MARR"@ {
        Some(EventKind::Marriage)
    } else if t == "DIV"@ {
        Some(EventKind::Divorce)
    } else if t == "BAPM"@ {
        Some(EventKind::Baptism)
    } else if t == "BURI"@ {
        Some(EventKind::Burial)
    } else if t == "RESI"@ {
        Some(EventKind::Residence)
    } else if t == "OCCU"@ {
        Some(EventKind::Occupation)
    } else {
        None
    }
}

/// Whether `r` is the kind an event tag (and its optional `TYPE` value) maps
/// to: a fixed kind for its tag; for a generic `EVEN`, an `Other` kind holding
/// the `TYPE` value (`EVEN` without one); otherwise an `Other` kind holding
/// the tag.
pub open spec fn kind_for_tag_is(t: Seq<char>, type_value: Option<Seq<char>>, r: EventKind) -> bool {
    match fixed_kind_for_tag(t) {
        Some(k) => r == k,
        None => r is Other && r.code() == if t == "EVEN"@ {
            match type_value {
                Some(v) => v,
                None => "EVEN"@,
            }
        } else {
            t
        },
    }
}

/// A GEDCOM event tag (and optional `TYPE` value) → [`EventKind`]. An unknown
/// tag, or a generic `EVEN`, is kept in [`EventKind::Other`].
pub fn event_kind_for_tag(tag: &str, type_value: Option<&str>) -> (r: EventKind)
    ensures
        kind_for_tag_is(tag@, opt_str(type_value), r),
{
    let c = chars_of(tag);
    if lit_eq(c.as_slice(), "BIRT") {
        EventKind::Birth
    } else if lit_eq(c.as_slice(), "DEAT") {
        EventKind::Death
    } else if lit_eq(c.as_slice(), "MARR") {
        EventKind::Marriage
    } else if lit_eq(c.as_slice(), "DIV") {
        EventKind::Divorce
    } else if lit_eq(c.as_slice(), "BAPM") {
        EventKind::Baptism
    } else if lit_eq(c.as_slice(), "BURI") {
        EventKind::Burial
    } else if lit_eq(c.as_slice(), "RESI") {
        EventKind::Residence
    } else if lit_eq(c.as_slice(), "OCCU") {
        EventKind::Occupation
    } else if lit_eq(c.as_slice(), "EVEN") {
        match type_value {
            Some(v) => EventKind::Other(v.to_owned()),
            None => EventKind::Other("EVEN".to_owned()),
        }
    } else {
        EventKind::Other(tag.to_owned())
    }
}

/// The GEDCOM tag (and `TYPE` value) written for a kind.
pub open spec fn spec_tag_for_event_kind(k: EventKind) -> (Seq<char>, Option<Seq<char>>) {
    match k {
        EventKind::Birth => ("BIRT"@, None),
        EventKind::Death => ("DEAT"@, None),
        EventKind::Marriage => ("MARR"@, None),
        EventKind::Divorce => ("DIV"@, None),
        EventKind::Baptism => ("BAPM"@, None),
        EventKind::Burial => ("BURI"@, None),
        EventKind::Residence => ("RESI"@, None),
        EventKind::Occupation => ("OCCU"@, None),
        EventKind::Other(s) => ("EVEN"@, Some(s@)),
    }
}

/// [`EventKind`] → (GEDCOM tag, optional `TYPE` value); an `Other` kind is
/// written as `EVEN` with a `TYPE` carrying its text.
pub fn tag_for_event_kind(kind: &EventKind) -> (r: (&'static str, Option<&str>))
    ensures
        (r.0@, opt_str(r.1)) == spec_tag_for_event_kind(*kind),
{
    match kind {
        EventKind::Birth => ("BIRT", None),
        EventKind::Death => ("DEAT", None),
        EventKind::Marriage => ("MARR", None),
        EventKind::Divorce => ("DIV", None),
        EventKind::Baptism => ("BAPM", None),
        EventKind::Burial => ("BURI", None),
        EventKind::Residence => ("RESI", None),
        EventKind::Occupation => ("OCCU", None),
        EventKind::Other(s) => ("EVEN", Some(s.as_str())),
    }
}

/// Reading back the tag written for a kind gives the kind (an `Other` kind
/// with the same text).
pub proof fn law_event_tag_round_trip(k: EventKind, r: EventKind)
    requires
        kind_for_tag_is(spec_tag_for_event_kind(k).0, spec_tag_for_event_kind(k).1, r),
    ensures
        !(k is Other) ==> r == k,
        k is Other ==> r is Other && r.code() == k.code(),
{
    reveal_strlit("BIRT");
    reveal_strlit("DEAT");
    reveal_strlit("MARR");
    reveal_strlit("DIV");
    reveal_strlit("BAPM");
    reveal_strlit("BURI");
    reveal_strlit("RESI");
    reveal_strlit("OCCU");
    reveal_strlit("EVEN");
    let t = spec_tag_for_event_kind(k).0;
    assert(t.len() == 3 || t.len() == 4);
    if t != "BIRT"@ {
        assert(t[0] != 'B' || t[1] != 'I');
    }
    if t != "BAPM"@ {
        assert(t[0] != 'B' || t[1] != 'A');
    }
    if t != "BURI"@ {
        assert(t[0] != 'B' || t[1] != 'U');
    }
}

/// The relation a child's `PEDI` value names (absent or unknown → birth).
pub open spec fn spec_relation_for_pedi(pedi: Option<Seq<char>>) -> ChildRelation {
    match pedi {
        Some(p) => if p == "adopted"@ {
            ChildRelation::Adopted
        } else if p == "foster"@ {
            ChildRelation::Foster
        } else {
            ChildRelation::Birth
        },
        None => ChildRelation::Birth,
    }
}

/// A child's `PEDI` value → [`ChildRelation`] (absent or unknown → `Birth`).
pub fn child_relation_for_pedi(pedi: Option<&str>) -> (r: ChildRelation)
    ensures
        r == spec_relation_for_pedi(opt_str(pedi)),
{
    match pedi {
        Some(p) => {
            let c = chars_of(p);
            if lit_eq(c.as_slice(), "adopted") {
                ChildRelation::Adopted
            } else if lit_eq(c.as_slice(), "foster") {
                ChildRelation::Foster
            } else {
                ChildRelation::Birth
            }
        },
        None => ChildRelation::Birth,
    }
}

/// The `PEDI` value written for a relation (none for birth, the default, and
/// for step, which GEDCOM 5.5.1 has no value for).
pub open spec fn spec_pedi_for(rel: ChildRelation) -> Option<Seq<char>> {
    match rel {
        ChildRelation::Birth | ChildRelation::Step => None,
        ChildRelation::Adopted => Some("adopted"@),
        ChildRelation::Foster => Some("foster"@),
    }
}

/// [`ChildRelation`] → the `PEDI` value to write, or `None` to omit it.
pub fn pedi_for_child_relation(rel: ChildRelation) -> (r: Option<&'static str>)
    ensures
        opt_str(r) == spec_pedi_for(rel),
{
    match rel {
        ChildRelation::Birth | ChildRelation::Step => None,
        ChildRelation::Adopted => Some("adopted"),
        ChildRelation::Foster => Some("foster"),
    }
}

/// Every relation but step reads back from its `PEDI` value; step reads back
/// as birth.
pub proof fn law_pedi_round_trip(rel: ChildRelation)
    ensures
        rel != ChildRelation::Step ==> spec_relation_for_pedi(spec_pedi_for(rel)) == rel,
        rel == ChildRelation::Step ==> spec_relation_for_pedi(spec_pedi_for(rel))
            == ChildRelation::Birth,
{
    reveal_strlit("adopted");
    reveal_strlit("foster");
    assert("foster"@.len() != "adopted"@.len());
}

/// The name kind a `NAME.TYPE` value names (absent or unknown → aka).
pub open spec fn spec_name_kind_for_type(t: Option<Seq<char>>) -> NameKind {
    match t {
        Some(v) => if v == "birth"@ {
            NameKind::Birth
        } else if v == "married"@ {
            NameKind::Married
        } else if v == "religious"@ {
            NameKind::Religious
        } else {
            NameKind::Aka
        },
        None => NameKind::Aka,
    }
}

/// A `NAME.TYPE` value → [`NameKind`] (absent or unknown → `Aka`).
pub fn name_kind_for_type(type_value: Option<&str>) -> (r: NameKind)
    ensures
        r == spec_name_kind_for_type(opt_str(type_value)),
{
    match type_value {
        Some(v) => {
            let c = chars_of(v);
            if lit_eq(c.as_slice(), "birth") {
                NameKind::Birth
            } else if lit_eq(c.as_slice(), "married") {
                NameKind::Married
            } else if lit_eq(c.as_slice(), "religious") {
                NameKind::Religious
            } else {
                NameKind::Aka
            }
        },
        None => NameKind::Aka,
    }
}

/// The `NAME.TYPE` value written for a name kind.
pub open spec fn spec_type_for_name_kind(k: NameKind) -> Seq<char> {
    match k {
        NameKind::Birth => "birth"@,
        NameKind::Married => "married"@,
        NameKind::Aka => "aka"@,
        NameKind::Religious => "religious"@,
    }
}

/// [`NameKind`] → the `NAME.TYPE` value written for an alternate name.
pub fn type_for_name_kind(kind: NameKind) -> (r: &'static str)
    ensures
        r@ == spec_type_for_name_kind(kind),
{
    match kind {
        NameKind::Birth => "birth",
        NameKind::Married => "married",
        NameKind::Aka => "aka",
        NameKind::Religious => "religious",
    }
}

/// Every name kind reads back from its `TYPE` value.
pub proof fn law_name_type_round_trip(k: NameKind)
    ensures
        spec_name_kind_for_type(Some(spec_type_for_name_kind(k))) == k,
{
    reveal_strlit("birth");
    reveal_strlit("married");
    reveal_strlit("religious");
    reveal_strlit("aka");
    assert("birth"@.len() == 5 && "married"@.len() == 7 && "religious"@.len() == 9);
    assert("aka"@.len() == 3);
}

/// The confidence a citation `QUAY` value names: `3` primary, `2` secondary,
/// `0`/`1` questionable; anything else unspecified.
pub open spec fn spec_confidence_for_quay(q: Option<Seq<char>>) -> Option<Confidence> {
    match q {
        Some(v) => if v == "3"@ {
            Some(Confidence::Primary)
        } else if v == "2"@ {
            Some(Confidence::Secondary)
        } else if v == "0"@ || v == "1"@ {
            Some(Confidence::Questionable)
        } else {
            None
        },
        None => None,
    }
}

/// A citation `QUAY` value → [`Confidence`] (absent or unknown → `None`).
pub fn confidence_for_quay(quay: Option<&str>) -> (r: Option<Confidence>)
    ensures
        r == spec_confidence_for_quay(opt_str(quay)),
{
    match quay {
        Some(v) => {
            let c = chars_of(v);
            if lit_eq(c.as_slice(), "3") {
                Some(Confidence::Primary)
            } else if lit_eq(c.as_slice(), "2") {
                Some(Confidence::Secondary)
            } else if lit_eq(c.as_slice(), "0") || lit_eq(c.as_slice(), "1") {
                Some(Confidence::Questionable)
            } else {
                None
            }
        },
        None => None,
    }
}

/// The `QUAY` value written for a confidence.
pub open spec fn spec_quay_for(c: Confidence) -> Seq<char> {
    match c {
        Confidence::Primary => "3"@,
        Confidence::Secondary => "2"@,
        Confidence::Questionable => "1"@,
    }
}

/// [`Confidence`] → the `QUAY` value written: `3`, `2`, `1`.
pub fn quay_for_confidence(c: Confidence) -> (r: &'static str)
    ensures
        r@ == spec_quay_for(c),
{
    match c {
        Confidence::Primary => "3",
        Confidence::Secondary => "2",
        Confidence::Questionable => "1",
    }
}

/// Every confidence reads back from its `QUAY` value (`0` reads as
/// questionable and is written back as `1`).
pub proof fn law_quay_round_trip(c: Confidence)
    ensures
        spec_confidence_for_quay(Some(spec_quay_for(c))) == Some(c),
{
    reveal_strlit("3");
    reveal_strlit("2");
    reveal_strlit("1");
    reveal_strlit("0");
    assert("3"@[0] == '3' && "2"@[0] == '2' && "1"@[0] == '1');
}

} // verus!
