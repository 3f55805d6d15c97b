//! Writing the database out as a GEDCOM 5.5.1 document.
//!
//! The writer works on a [`GedcomSnapshot`]: the records the database holds,
//! each with what belongs to it (names, events, memberships, media pointers,
//! citations), read beforehand. The output is deterministic: no timestamp,
//! individuals in ascending-id order, families, media and sources in the order
//! given (ascending id as the database lists them), xrefs derived from row
//! ids, and repository records numbered by the first source that names them.

use vstd::prelude::*;
use crate::date::gedcom_text;
use crate::enums::ChildRelation;
use crate::gedcom::lexer::opt_view;
use crate::gedcom::tags::{
    pedi_for_child_relation, quay_for_confidence, spec_pedi_for, spec_quay_for,
    spec_tag_for_event_kind, spec_type_for_name_kind, tag_for_event_kind, type_for_name_kind,
};
use crate::ids::{FamilyId, MediaId, PersonId};
use crate::num::{int_text, nat_digits, push_int, push_nat};
use crate::records::{ChildLink, Citation, Event, Family, Individual, Media, Name, Source};
use crate::text::{chars_of, push_chars, push_str, split_char, split_on, string_from_chars, views};

verus! {

// ---------------------------------------------------------------------------
// Lines
// ---------------------------------------------------------------------------

/// A line with a value: `{level} {tag} {value}` and a newline (an empty value
/// leaves the space after the tag).
pub open spec fn tagged(level: int, tag: Seq<char>, value: Seq<char>) -> Seq<char> {
    int_text(level) + seq![' '] + tag + seq![' '] + value + seq!['\n']
}

/// A line without a value: `{level} {tag}` and a newline.
pub open spec fn bare(level: int, tag: Seq<char>) -> Seq<char> {
    int_text(level) + seq![' '] + tag + seq!['\n']
}

/// A cross-reference `@{prefix}{id}@`.
pub open spec fn xref(prefix: char, id: int) -> Seq<char> {
    seq!['@', prefix] + int_text(id) + seq!['@']
}

/// A value line when the value is present, nothing otherwise.
pub open spec fn opt_line(level: int, tag: Seq<char>, value: Option<Seq<char>>) -> Seq<char> {
    match value {
        Some(v) => tagged(level, tag, v),
        None => seq![],
    }
}

/// The `CONT` lines of the pieces after the first.
pub open spec fn cont_lines(pieces: Seq<Seq<char>>, level: int) -> Seq<char>
    decreases pieces.len(),
{
    if pieces.len() <= 1 {
        seq![]
    } else {
        cont_lines(pieces.drop_last(), level) + tagged(level, "CONT"@, pieces.last())
    }
}

/// `{level} {tag} {first line}`, then each further line of `text` as a `CONT`
/// one level deeper.
pub open spec fn continued(level: int, tag: Seq<char>, text: Seq<char>) -> Seq<char> {
    let pieces = split_char(text, '\n');
    tagged(level, tag, pieces[0]) + cont_lines(pieces, level + 1)
}

/// Appends `{level} {tag} ` (the start of a value line).
fn push_head(out: &mut Vec<char>, level: u8, tag: &str)
    ensures
        final(out)@ == old(out)@ + int_text(level as int) + seq![' '] + tag@ + seq![' '],
{
    push_nat(out, level as u64);
    out.push(' ');
    push_str(out, tag);
    out.push(' ');
    assert(out@ =~= old(out)@ + int_text(level as int) + seq![' '] + tag@ + seq![' ']);
}

/// Appends a value line.
fn push_tagged(out: &mut Vec<char>, level: u8, tag: &str, value: &str)
    ensures
        final(out)@ == old(out)@ + tagged(level as int, tag@, value@),
{
    push_head(out, level, tag);
    push_str(out, value);
    out.push('\n');
    assert(out@ =~= old(out)@ + tagged(level as int, tag@, value@));
}

/// Appends a value line whose value is given as characters.
fn push_tagged_chars(out: &mut Vec<char>, level: u8, tag: &str, value: &[char])
    ensures
        final(out)@ == old(out)@ + tagged(level as int, tag@, value@),
{
    push_head(out, level, tag);
    push_chars(out, value);
    out.push('\n');
    assert(out@ =~= old(out)@ + tagged(level as int, tag@, value@));
}

/// Appends a line without a value.
fn push_bare(out: &mut Vec<char>, level: u8, tag: &str)
    ensures
        final(out)@ == old(out)@ + bare(level as int, tag@),
{
    push_nat(out, level as u64);
    out.push(' ');
    push_str(out, tag);
    out.push('\n');
    assert(out@ =~= old(out)@ + bare(level as int, tag@));
}

/// Appends a line whose value is a cross-reference.
fn push_pointer(out: &mut Vec<char>, level: u8, tag: &str, prefix: char, id: i64)
    ensures
        final(out)@ == old(out)@ + tagged(level as int, tag@, xref(prefix, id as int)),
{
    push_head(out, level, tag);
    out.push('@');
    out.push(prefix);
    push_int(out, id);
    out.push('@');
    out.push('\n');
    assert(out@ =~= old(out)@ + tagged(level as int, tag@, xref(prefix, id as int)));
}

/// Appends the first line of a record: `0 @{prefix}{id}@ {tag}`.
fn push_record(out: &mut Vec<char>, prefix: char, id: i64, tag: &str)
    ensures
        final(out)@ == old(out)@ + tagged(0, xref(prefix, id as int), tag@),
{
    push_str(out, "0 @");
    out.push(prefix);
    push_int(out, id);
    push_str(out, "@ ");
    push_str(out, tag);
    out.push('\n');
    proof {
        reveal_strlit("0 @");
        reveal_strlit("@ ");
        assert(int_text(0) =~= seq!['0']);
    }
    assert(out@ =~= old(out)@ + tagged(0, xref(prefix, id as int), tag@));
}

/// Appends a value line when the value is present.
fn push_opt(out: &mut Vec<char>, level: u8, tag: &str, value: &Option<String>)
    ensures
        final(out)@ == old(out)@ + opt_line(level as int, tag@, opt_view(*value)),
{
    match value {
        Some(v) => push_tagged(out, level, tag, v.as_str()),
        None => {
            assert(out@ =~= old(out)@ + opt_line(level as int, tag@, opt_view(*value)));
        },
    }
}

/// Appends `text` as a `{level} {tag}` line with `CONT` lines for its further
/// lines.
fn push_continued(out: &mut Vec<char>, level: u8, tag: &str, text: &str)
    requires
        level < 255,
    ensures
        final(out)@ == old(out)@ + continued(level as int, tag@, text@),
{
    let chars = chars_of(text);
    let pieces = split_on(&chars, '\n');
    let ghost ps = split_char(text@, '\n');
    proof {
        crate::text::lemma_split_char_len(text@, '\n');
    }
    push_tagged_chars(out, level, tag, &pieces[0]);
    let ghost start = out@;
    let mut k: usize = 1;
    proof {
        assert(ps.take(1).len() == 1);
        assert(cont_lines(ps.take(1), level + 1) =~= Seq::<char>::empty());
    }
    while k < pieces.len()
        invariant
            1 <= k <= pieces.len(),
            level < 255,
            views(pieces@) == ps,
            ps.len() >= 1,
            out@ == start + cont_lines(ps.take(k as int), level + 1),
        decreases pieces.len() - k,
    {
        push_tagged_chars(out, level + 1, "CONT", &pieces[k]);
        proof {
            assert(ps.take(k + 1).drop_last() =~= ps.take(k as int));
            assert(ps.take(k + 1).last() == pieces@[k as int]@);
            reveal_strlit("CONT");
        }
        k = k + 1;
    }
    proof {
        assert(ps.take(pieces.len() as int) =~= ps);
        assert(pieces@[0]@ == ps[0]);
    }
    assert(out@ =~= old(out)@ + continued(level as int, tag@, text@));
}

// ---------------------------------------------------------------------------
// Citations and names
// ---------------------------------------------------------------------------

/// A citation pointer at `level` with its `PAGE`, `QUAY` and `DATA`/`TEXT`.
pub open spec fn citation_text(c: Citation, level: int) -> Seq<char> {
    tagged(level, "SOUR"@, xref('S', c.source.0 as int)) + opt_line(level + 1, "PAGE"@, opt_view(c.page))
        + match c.confidence {
        Some(q) => tagged(level + 1, "QUAY"@, spec_quay_for(q)),
        None => seq![],
    } + match c.detail {
        Some(d) => bare(level + 1, "DATA"@) + continued(level + 2, "TEXT"@, d@),
        None => seq![],
    }
}

/// The citation pointers of a list, in order.
pub open spec fn citations_text(cs: Seq<Citation>, level: int) -> Seq<char>
    decreases cs.len(),
{
    if cs.len() == 0 {
        seq![]
    } else {
        citations_text(cs.drop_last(), level) + citation_text(cs.last(), level)
    }
}

/// Appends a citation pointer.
fn push_citation(out: &mut Vec<char>, c: &Citation, level: u8)
    requires
        level <= 2,
    ensures
        final(out)@ == old(out)@ + citation_text(*c, level as int),
{
    push_pointer(out, level, "SOUR", 'S', c.source.0);
    push_opt(out, level + 1, "PAGE", &c.page);
    let ghost a = out@;
    match c.confidence {
        Some(q) => push_tagged(out, level + 1, "QUAY", quay_for_confidence(q)),
        None => {},
    }
    let ghost b = out@;
    match &c.detail {
        Some(d) => {
            push_bare(out, level + 1, "DATA");
            push_continued(out, level + 2, "TEXT", d.as_str());
        },
        None => {},
    }
    assert(out@ =~= old(out)@ + citation_text(*c, level as int));
}

/// Appends the citation pointers of a list.
fn push_citations(out: &mut Vec<char>, cs: &Vec<Citation>, level: u8)
    requires
        level <= 2,
    ensures
        final(out)@ == old(out)@ + citations_text(cs@, level as int),
{
    let mut i: usize = 0;
    while i < cs.len()
        invariant
            i <= cs.len(),
            level <= 2,
            out@ == old(out)@ + citations_text(cs@.take(i as int), level as int),
        decreases cs.len() - i,
    {
        push_citation(out, &cs[i], level);
        proof {
            assert(cs@.take(i + 1).drop_last() =~= cs@.take(i as int));
        }
        i = i + 1;
    }
    assert(cs@.take(cs.len() as int) =~= cs@);
}

/// The `NAME` value: `given /surname/`; the slashes only with a surname, the
/// space only between a non-empty given part and a surname.
pub open spec fn name_value(given: Option<Seq<char>>, surname: Option<Seq<char>>) -> Seq<char> {
    let g = match given {
        Some(g) => g,
        None => seq![],
    };
    match surname {
        Some(s) => (if g.len() > 0 {
            g + seq![' ']
        } else {
            g
        }) + seq!['/'] + s + seq!['/'],
        None => g,
    }
}

/// The `GIVN`/`SURN`/`NPFX`/`NSFX`/`NICK` lines of the parts present.
pub open spec fn name_parts(
    given: Option<Seq<char>>,
    surname: Option<Seq<char>>,
    prefix: Option<Seq<char>>,
    suffix: Option<Seq<char>>,
    nickname: Option<Seq<char>>,
) -> Seq<char> {
    opt_line(2, "GIVN"@, given) + opt_line(2, "SURN"@, surname) + opt_line(2, "NPFX"@, prefix)
        + opt_line(2, "NSFX"@, suffix) + opt_line(2, "NICK"@, nickname)
}

/// The primary name of an individual, or nothing when it has no name part.
pub open spec fn primary_name_text(i: Individual) -> Seq<char> {
    if i.given_name is None && i.surname is None && i.name_prefix is None && i.name_suffix is None
        && i.nickname is None {
        seq![]
    } else {
        tagged(1, "NAME"@, name_value(opt_view(i.given_name), opt_view(i.surname))) + name_parts(
            opt_view(i.given_name),
            opt_view(i.surname),
            opt_view(i.name_prefix),
            opt_view(i.name_suffix),
            opt_view(i.nickname),
        )
    }
}

/// An alternate name with its `TYPE` and parts.
pub open spec fn alternate_name_text(n: Name) -> Seq<char> {
    tagged(1, "NAME"@, name_value(opt_view(n.given_name), opt_view(n.surname))) + tagged(
        2,
        "TYPE"@,
        spec_type_for_name_kind(n.kind),
    ) + name_parts(
        opt_view(n.given_name),
        opt_view(n.surname),
        opt_view(n.name_prefix),
        opt_view(n.name_suffix),
        None,
    )
}

/// The alternate names of a list, in order.
pub open spec fn names_text(ns: Seq<Name>) -> Seq<char>
    decreases ns.len(),
{
    if ns.len() == 0 {
        seq![]
    } else {
        names_text(ns.drop_last()) + alternate_name_text(ns.last())
    }
}

/// Builds the `NAME` value (see [`name_value`]).
fn build_name_value(given: &Option<String>, surname: &Option<String>) -> (r: Vec<char>)
    ensures
        r@ == name_value(opt_view(*given), opt_view(*surname)),
{
    let mut s: Vec<char> = Vec::new();
    match given {
        Some(g) => push_str(&mut s, g.as_str()),
        None => {},
    }
    match surname {
        Some(sn) => {
            if s.len() > 0 {
                s.push(' ');
            }
            s.push('/');
            push_str(&mut s, sn.as_str());
            s.push('/');
        },
        None => {},
    }
    assert(s@ =~= name_value(opt_view(*given), opt_view(*surname)));
    s
}

/// Appends the part lines of a name.
fn push_name_parts(
    out: &mut Vec<char>,
    given: &Option<String>,
    surname: &Option<String>,
    prefix: &Option<String>,
    suffix: &Option<String>,
    nickname: &Option<String>,
)
    ensures
        final(out)@ == old(out)@ + name_parts(
            opt_view(*given),
            opt_view(*surname),
            opt_view(*prefix),
            opt_view(*suffix),
            opt_view(*nickname),
        ),
{
    push_opt(out, 2, "GIVN", given);
    push_opt(out, 2, "SURN", surname);
    push_opt(out, 2, "NPFX", prefix);
    push_opt(out, 2, "NSFX", suffix);
    push_opt(out, 2, "NICK", nickname);
    assert(out@ =~= old(out)@ + name_parts(
        opt_view(*given),
        opt_view(*surname),
        opt_view(*prefix),
        opt_view(*suffix),
        opt_view(*nickname),
    ));
}

/// Appends an individual's primary name.
fn push_primary_name(out: &mut Vec<char>, i: &Individual)
    ensures
        final(out)@ == old(out)@ + primary_name_text(*i),
{
    if i.given_name.is_none() && i.surname.is_none() && i.name_prefix.is_none()
        && i.name_suffix.is_none() && i.nickname.is_none() {
        assert(out@ =~= old(out)@ + primary_name_text(*i));
        return;
    }
    let v = build_name_value(&i.given_name, &i.surname);
    push_tagged_chars(out, 1, "NAME", &v);
    push_name_parts(out, &i.given_name, &i.surname, &i.name_prefix, &i.name_suffix, &i.nickname);
    assert(out@ =~= old(out)@ + primary_name_text(*i));
}

/// Appends an alternate name.
fn push_alternate_name(out: &mut Vec<char>, n: &Name)
    ensures
        final(out)@ == old(out)@ + alternate_name_text(*n),
{
    let v = build_name_value(&n.given_name, &n.surname);
    push_tagged_chars(out, 1, "NAME", &v);
    push_tagged(out, 2, "TYPE", type_for_name_kind(n.kind));
    let none: Option<String> = None;
    push_name_parts(out, &n.given_name, &n.surname, &n.name_prefix, &n.name_suffix, &none);
    assert(out@ =~= old(out)@ + alternate_name_text(*n));
}

/// Appends the alternate names of a list.
fn push_names(out: &mut Vec<char>, ns: &Vec<Name>)
    ensures
        final(out)@ == old(out)@ + names_text(ns@),
{
    let mut i: usize = 0;
    while i < ns.len()
        invariant
            i <= ns.len(),
            out@ == old(out)@ + names_text(ns@.take(i as int)),
        decreases ns.len() - i,
    {
        push_alternate_name(out, &ns[i]);
        proof {
            assert(ns@.take(i + 1).drop_last() =~= ns@.take(i as int));
        }
        i = i + 1;
    }
    assert(ns@.take(ns.len() as int) =~= ns@);
}


// ---------------------------------------------------------------------------
// The snapshot
// ---------------------------------------------------------------------------

/// An event with what its lines need besides the row: the name of its place
/// and its citations.
#[derive(Debug, Clone, PartialEq, Eq)]
pub struct EventEntry {
    /// The event row.
    pub event: Event,
    /// The name of the event's place, when it has one.
    pub place_name: Option<String>,
    /// The event's citations, ascending citation id.
    pub citations: Vec<Citation>,
}

/// An individual with everything its record carries.
#[derive(Debug, Clone, PartialEq, Eq)]
pub struct IndividualEntry {
    /// The individual row (primary name inline).
    pub individual: Individual,
    /// Alternate names, in their listing order.
    pub names: Vec<Name>,
    /// Events, in their listing order.
    pub events: Vec<EventEntry>,
    /// Families the individual is a child in.
    pub child_of: Vec<FamilyId>,
    /// Families the individual is a partner in.
    pub partner_in: Vec<FamilyId>,
    /// Linked media, ascending media id.
    pub media: Vec<MediaId>,
    /// Record-level citations, ascending citation id.
    pub citations: Vec<Citation>,
}

/// A family with everything its record carries.
#[derive(Debug, Clone, PartialEq, Eq)]
pub struct FamilyEntry {
    /// The family row.
    pub family: Family,
    /// Child memberships, in birth order.
    pub children: Vec<ChildLink>,
    /// Events, in their listing order.
    pub events: Vec<EventEntry>,
    /// Linked media, ascending media id.
    pub media: Vec<MediaId>,
    /// Record-level citations, ascending citation id.
    pub citations: Vec<Citation>,
}

/// Everything a GEDCOM export writes.
#[derive(Debug, Clone, PartialEq, Eq)]
pub struct GedcomSnapshot {
    /// All individuals (any order: they are written by ascending id).
    pub individuals: Vec<IndividualEntry>,
    /// All families, ascending id.
    pub families: Vec<FamilyEntry>,
    /// All media, ascending id.
    pub media: Vec<Media>,
    /// All sources, ascending id.
    pub sources: Vec<Source>,
}

// ---------------------------------------------------------------------------
// Events
// ---------------------------------------------------------------------------

/// An event's lines: its tag (and `TYPE`), `DATE`, `PLAC`, `NOTE`, then its
/// citations one level down.
pub open spec fn event_text(e: EventEntry) -> Seq<char> {
    let (tag, type_value) = spec_tag_for_event_kind(e.event.kind);
    bare(1, tag) + opt_line(2, "TYPE"@, type_value) + match e.event.date {
        Some(d) => tagged(2, "DATE"@, gedcom_text(d)),
        None => seq![],
    } + opt_line(2, "PLAC"@, opt_view(e.place_name)) + match e.event.notes {
        Some(n) => continued(2, "NOTE"@, n@),
        None => seq![],
    } + citations_text(e.citations@, 2)
}

/// The events of a list, in order.
pub open spec fn events_text(es: Seq<EventEntry>) -> Seq<char>
    decreases es.len(),
{
    if es.len() == 0 {
        seq![]
    } else {
        events_text(es.drop_last()) + event_text(es.last())
    }
}

/// Appends an event's lines.
fn push_event(out: &mut Vec<char>, e: &EventEntry)
    ensures
        final(out)@ == old(out)@ + event_text(*e),
{
    let (tag, type_value) = tag_for_event_kind(&e.event.kind);
    push_bare(out, 1, tag);
    let ghost a = out@;
    match type_value {
        Some(t) => push_tagged(out, 2, "TYPE", t),
        None => {},
    }
    let ghost b = out@;
    match &e.event.date {
        Some(d) => {
            let text = d.format_gedcom();
            push_tagged(out, 2, "DATE", text.as_str());
        },
        None => {},
    }
    push_opt(out, 2, "PLAC", &e.place_name);
    let ghost c = out@;
    match &e.event.notes {
        Some(n) => push_continued(out, 2, "NOTE", n.as_str()),
        None => {},
    }
    push_citations(out, &e.citations, 2);
    assert(out@ =~= old(out)@ + event_text(*e));
}

/// Appends the events of a list.
fn push_events(out: &mut Vec<char>, es: &Vec<EventEntry>)
    ensures
        final(out)@ == old(out)@ + events_text(es@),
{
    let mut i: usize = 0;
    while i < es.len()
        invariant
            i <= es.len(),
            out@ == old(out)@ + events_text(es@.take(i as int)),
        decreases es.len() - i,
    {
        push_event(out, &es[i]);
        proof {
            assert(es@.take(i + 1).drop_last() =~= es@.take(i as int));
        }
        i = i + 1;
    }
    assert(es@.take(es.len() as int) =~= es@);
}

/// Pointer lines `{level} {tag} @{prefix}{id}@`, one per id, in order.
pub open spec fn pointers_text(level: int, tag: Seq<char>, prefix: char, ids: Seq<i64>) -> Seq<char>
    decreases ids.len(),
{
    if ids.len() == 0 {
        seq![]
    } else {
        pointers_text(level, tag, prefix, ids.drop_last()) + tagged(level, tag, xref(prefix, ids.last() as int))
    }
}

/// Appends pointer lines, one per id.
fn push_pointers(out: &mut Vec<char>, level: u8, tag: &str, prefix: char, ids: &Vec<i64>)
    ensures
        final(out)@ == old(out)@ + pointers_text(level as int, tag@, prefix, ids@),
{
    let mut i: usize = 0;
    while i < ids.len()
        invariant
            i <= ids.len(),
            out@ == old(out)@ + pointers_text(level as int, tag@, prefix, ids@.take(i as int)),
        decreases ids.len() - i,
    {
        push_pointer(out, level, tag, prefix, ids[i]);
        proof {
            assert(ids@.take(i + 1).drop_last() =~= ids@.take(i as int));
        }
        i = i + 1;
    }
    assert(ids@.take(ids.len() as int) =~= ids@);
}

/// The row ids of a list of family ids.
pub open spec fn family_ids(v: Seq<FamilyId>) -> Seq<i64> {
    Seq::new(v.len(), |i: int| v[i].0)
}

/// The row ids of a list of media ids.
pub open spec fn media_ids(v: Seq<MediaId>) -> Seq<i64> {
    Seq::new(v.len(), |i: int| v[i].0)
}

/// The row ids of the children of a family.
pub open spec fn child_ids(v: Seq<ChildLink>) -> Seq<i64> {
    Seq::new(v.len(), |i: int| v[i].child_id.0)
}

/// Copies out the row ids of family ids.
fn family_id_values(v: &Vec<FamilyId>) -> (r: Vec<i64>)
    ensures
        r@ == family_ids(v@),
{
    let mut r: Vec<i64> = Vec::new();
    let mut i: usize = 0;
    while i < v.len()
        invariant
            i <= v.len(),
            r@ == family_ids(v@.take(i as int)),
        decreases v.len() - i,
    {
        r.push(v[i].0);
        i = i + 1;
        assert(r@ =~= family_ids(v@.take(i as int)));
    }
    assert(v@.take(v.len() as int) =~= v@);
    r
}

/// Copies out the row ids of media ids.
fn media_id_values(v: &Vec<MediaId>) -> (r: Vec<i64>)
    ensures
        r@ == media_ids(v@),
{
    let mut r: Vec<i64> = Vec::new();
    let mut i: usize = 0;
    while i < v.len()
        invariant
            i <= v.len(),
            r@ == media_ids(v@.take(i as int)),
        decreases v.len() - i,
    {
        r.push(v[i].0);
        i = i + 1;
        assert(r@ =~= media_ids(v@.take(i as int)));
    }
    assert(v@.take(v.len() as int) =~= v@);
    r
}

/// Copies out the child row ids of child memberships.
fn child_id_values(v: &Vec<ChildLink>) -> (r: Vec<i64>)
    ensures
        r@ == child_ids(v@),
{
    let mut r: Vec<i64> = Vec::new();
    let mut i: usize = 0;
    while i < v.len()
        invariant
            i <= v.len(),
            r@ == child_ids(v@.take(i as int)),
        decreases v.len() - i,
    {
        r.push(v[i].child_id.0);
        i = i + 1;
        assert(r@ =~= child_ids(v@.take(i as int)));
    }
    assert(v@.take(v.len() as int) =~= v@);
    r
}

// ---------------------------------------------------------------------------
// Individuals and families
// ---------------------------------------------------------------------------

/// The index of the first family entry with row id `f`.
pub open spec fn find_family(fs: Seq<FamilyEntry>, f: i64) -> Option<int>
    decreases fs.len(),
{
    if fs.len() == 0 {
        None
    } else {
        match find_family(fs.drop_last(), f) {
            Some(i) => Some(i),
            None => if fs.last().family.id.0 == f {
                Some((fs.len() - 1) as int)
            } else {
                None
            },
        }
    }
}

/// The relation of the first membership of `child` in `links`; birth when
/// there is none.
pub open spec fn link_relation(links: Seq<ChildLink>, child: i64) -> ChildRelation
    decreases links.len(),
{
    if links.len() == 0 {
        ChildRelation::Birth
    } else if links[0].child_id.0 == child {
        links[0].relation
    } else {
        link_relation(links.drop_first(), child)
    }
}

/// A child's relation in family `f` (for its `PEDI`): read from the family's
/// memberships, birth when the family or the membership is missing.
pub open spec fn child_relation_in(fs: Seq<FamilyEntry>, f: i64, child: i64) -> ChildRelation {
    match find_family(fs, f) {
        Some(i) => link_relation(fs[i].children@, child),
        None => ChildRelation::Birth,
    }
}

/// The `FAMC` lines of an individual, each with the `PEDI` of its relation.
pub open spec fn famc_text(fams: Seq<FamilyId>, child: i64, fs: Seq<FamilyEntry>) -> Seq<char>
    decreases fams.len(),
{
    if fams.len() == 0 {
        seq![]
    } else {
        let f = fams.last().0;
        famc_text(fams.drop_last(), child, fs) + tagged(1, "FAMC"@, xref('F', f as int)) + opt_line(
            2,
            "PEDI"@,
            spec_pedi_for(child_relation_in(fs, f, child)),
        )
    }
}

/// The notes of a record at level 1, when it has some.
pub open spec fn notes_text(level: int, notes: Option<String>) -> Seq<char> {
    match notes {
        Some(n) => continued(level, "NOTE"@, n@),
        None => seq![],
    }
}

/// The first part of an individual's record: the record line, names, `SEX`
/// and events.
pub open spec fn individual_head_text(e: IndividualEntry) -> Seq<char> {
    let i = e.individual;
    tagged(0, xref('I', i.id.0 as int), "INDI"@) + primary_name_text(i) + names_text(e.names@)
        + tagged(1, "SEX"@, i.sex.code()) + events_text(e.events@)
}

/// The rest of an individual's record: family memberships, media pointers,
/// citations and notes.
pub open spec fn individual_links_text(e: IndividualEntry, fs: Seq<FamilyEntry>) -> Seq<char> {
    let i = e.individual;
    famc_text(e.child_of@, i.id.0, fs) + pointers_text(1, "FAMS"@, 'F', family_ids(e.partner_in@))
        + pointers_text(1, "OBJE"@, 'M', media_ids(e.media@)) + citations_text(e.citations@, 1)
        + notes_text(1, i.notes)
}

/// An individual's record.
pub open spec fn individual_text(e: IndividualEntry, fs: Seq<FamilyEntry>) -> Seq<char> {
    individual_head_text(e) + individual_links_text(e, fs)
}

/// A family's record.
pub open spec fn family_text(e: FamilyEntry) -> Seq<char> {
    let f = e.family;
    tagged(0, xref('F', f.id.0 as int), "FAM"@) + match f.partner1 {
        Some(p) => tagged(1, "HUSB"@, xref('I', p.0 as int)),
        None => seq![],
    } + match f.partner2 {
        Some(p) => tagged(1, "WIFE"@, xref('I', p.0 as int)),
        None => seq![],
    } + pointers_text(1, "CHIL"@, 'I', child_ids(e.children@)) + events_text(e.events@)
        + pointers_text(1, "OBJE"@, 'M', media_ids(e.media@)) + citations_text(e.citations@, 1)
        + notes_text(1, f.notes)
}

/// Finds the family entry with row id `f`.
fn find_family_index(fs: &Vec<FamilyEntry>, f: i64) -> (r: Option<usize>)
    ensures
        match r {
            Some(i) => find_family(fs@, f) == Some(i as int) && i < fs.len(),
            None => find_family(fs@, f) is None,
        },
{
    let mut i: usize = 0;
    while i < fs.len()
        invariant
            i <= fs.len(),
            find_family(fs@.take(i as int), f) is None,
        decreases fs.len() - i,
    {
        proof {
            assert(fs@.take(i + 1).drop_last() =~= fs@.take(i as int));
        }
        if fs[i].family.id.0 == f {
            proof {
                lemma_find_family_prefix(fs@, f, i + 1);
            }
            return Some(i);
        }
        i = i + 1;
    }
    assert(fs@.take(fs.len() as int) =~= fs@);
    None
}

/// A match in a prefix is the match in the whole list.
proof fn lemma_find_family_prefix(fs: Seq<FamilyEntry>, f: i64, k: int)
    requires
        0 <= k <= fs.len(),
        find_family(fs.take(k), f) is Some,
    ensures
        find_family(fs, f) == find_family(fs.take(k), f),
    decreases fs.len() - k,
{
    if k < fs.len() {
        assert(fs.take(k + 1).drop_last() =~= fs.take(k));
        lemma_find_family_prefix(fs, f, k + 1);
    } else {
        assert(fs.take(k) =~= fs);
    }
}

/// The relation of `child`'s first membership in `links` (birth if none).
fn relation_of(links: &Vec<ChildLink>, child: i64) -> (r: ChildRelation)
    ensures
        r == link_relation(links@, child),
{
    let mut i: usize = 0;
    assert(links@.skip(0) =~= links@);
    while i < links.len()
        invariant
            i <= links.len(),
            link_relation(links@, child) == link_relation(links@.skip(i as int), child),
        decreases links.len() - i,
    {
        proof {
            assert(links@.skip(i as int).drop_first() =~= links@.skip(i + 1));
        }
        if links[i].child_id.0 == child {
            return links[i].relation;
        }
        i = i + 1;
    }
    ChildRelation::Birth
}

/// Appends the `FAMC` lines of an individual.
fn push_famc(out: &mut Vec<char>, fams: &Vec<FamilyId>, child: i64, fs: &Vec<FamilyEntry>)
    ensures
        final(out)@ == old(out)@ + famc_text(fams@, child, fs@),
{
    let mut k: usize = 0;
    while k < fams.len()
        invariant
            k <= fams.len(),
            out@ == old(out)@ + famc_text(fams@.take(k as int), child, fs@),
        decreases fams.len() - k,
    {
        let f = fams[k].0;
        push_pointer(out, 1, "FAMC", 'F', f);
        let rel = match find_family_index(fs, f) {
            Some(i) => relation_of(&fs[i].children, child),
            None => ChildRelation::Birth,
        };
        match pedi_for_child_relation(rel) {
            Some(p) => push_tagged(out, 2, "PEDI", p),
            None => {},
        }
        proof {
            assert(fams@.take(k + 1).drop_last() =~= fams@.take(k as int));
            assert(fams@.take(k + 1).last() == fams@[k as int]);
        }
        k = k + 1;
        assert(out@ =~= old(out)@ + famc_text(fams@.take(k as int), child, fs@));
    }
    assert(fams@.take(fams.len() as int) =~= fams@);
}

/// Appends a record's notes.
fn push_notes(out: &mut Vec<char>, notes: &Option<String>)
    ensures
        final(out)@ == old(out)@ + notes_text(1, *notes),
{
    match notes {
        Some(n) => push_continued(out, 1, "NOTE", n.as_str()),
        None => {
            assert(out@ =~= old(out)@ + notes_text(1, *notes));
        },
    }
}

/// Appends the first part of an individual's record.
fn push_individual_head(out: &mut Vec<char>, e: &IndividualEntry)
    ensures
        final(out)@ == old(out)@ + individual_head_text(*e),
{
    let i = &e.individual;
    push_record(out, 'I', i.id.0, "INDI");
    push_primary_name(out, i);
    push_names(out, &e.names);
    push_tagged(out, 1, "SEX", i.sex.as_str());
    push_events(out, &e.events);
    assert(out@ =~= old(out)@ + individual_head_text(*e));
}

/// Appends the rest of an individual's record.
fn push_individual_links(out: &mut Vec<char>, e: &IndividualEntry, fs: &Vec<FamilyEntry>)
    ensures
        final(out)@ == old(out)@ + individual_links_text(*e, fs@),
{
    let i = &e.individual;
    push_famc(out, &e.child_of, i.id.0, fs);
    let fams = family_id_values(&e.partner_in);
    push_pointers(out, 1, "FAMS", 'F', &fams);
    let media = media_id_values(&e.media);
    push_pointers(out, 1, "OBJE", 'M', &media);
    push_citations(out, &e.citations, 1);
    push_notes(out, &i.notes);
    assert(out@ =~= old(out)@ + individual_links_text(*e, fs@));
}

/// Appends an individual's record.
fn push_individual(out: &mut Vec<char>, e: &IndividualEntry, fs: &Vec<FamilyEntry>)
    ensures
        final(out)@ == old(out)@ + individual_text(*e, fs@),
{
    push_individual_head(out, e);
    push_individual_links(out, e, fs);
    assert(out@ =~= old(out)@ + individual_text(*e, fs@));
}

/// Appends a family's record.
#[verifier::rlimit(60)]
fn push_family(out: &mut Vec<char>, e: &FamilyEntry)
    ensures
        final(out)@ == old(out)@ + family_text(*e),
{
    let f = &e.family;
    push_record(out, 'F', f.id.0, "FAM");
    let ghost a = out@;
    match f.partner1 {
        Some(p) => push_pointer(out, 1, "HUSB", 'I', p.0),
        None => {},
    }
    let ghost b = out@;
    match f.partner2 {
        Some(p) => push_pointer(out, 1, "WIFE", 'I', p.0),
        None => {},
    }
    let children = child_id_values(&e.children);
    push_pointers(out, 1, "CHIL", 'I', &children);
    push_events(out, &e.events);
    let media = media_id_values(&e.media);
    push_pointers(out, 1, "OBJE", 'M', &media);
    push_citations(out, &e.citations, 1);
    push_notes(out, &f.notes);
    assert(out@ =~= old(out)@ + family_text(*e));
}


// ---------------------------------------------------------------------------
// Media, sources, repositories
// ---------------------------------------------------------------------------

/// A multimedia record: `FILE` (with its `FORM`) and `TITL`.
pub open spec fn object_text(m: Media) -> Seq<char> {
    tagged(0, xref('M', m.id.0 as int), "OBJE"@) + tagged(1, "FILE"@, m.path@) + opt_line(
        2,
        "FORM"@,
        opt_view(m.mime),
    ) + opt_line(1, "TITL"@, opt_view(m.caption))
}

/// The multimedia records of a list, in order.
pub open spec fn objects_text(ms: Seq<Media>) -> Seq<char>
    decreases ms.len(),
{
    if ms.len() == 0 {
        seq![]
    } else {
        objects_text(ms.drop_last()) + object_text(ms.last())
    }
}

/// The index of the first occurrence of `r` in `names`.
pub open spec fn first_index(names: Seq<Seq<char>>, r: Seq<char>) -> Option<int>
    decreases names.len(),
{
    if names.len() == 0 {
        None
    } else {
        match first_index(names.drop_last(), r) {
            Some(i) => Some(i),
            None => if names.last() == r {
                Some((names.len() - 1) as int)
            } else {
                None
            },
        }
    }
}

/// The distinct non-empty repository names of the sources, in order of first
/// use; the `n`-th (from 1) is written as `@R{n}@`.
pub open spec fn repositories(sources: Seq<Source>) -> Seq<Seq<char>>
    decreases sources.len(),
{
    if sources.len() == 0 {
        seq![]
    } else {
        let p = repositories(sources.drop_last());
        match sources.last().repository {
            Some(r) => if r@.len() > 0 && first_index(p, r@) is None {
                p.push(r@)
            } else {
                p
            },
            None => p,
        }
    }
}

/// A source record: `TITL` (when not empty), `AUTH`, `PUBL`, the pointer to
/// its repository's record, and `NOTE`.
pub open spec fn source_text(s: Source, repos: Seq<Seq<char>>) -> Seq<char> {
    tagged(0, xref('S', s.id.0 as int), "SOUR"@) + (if s.title@.len() > 0 {
        tagged(1, "TITL"@, s.title@)
    } else {
        seq![]
    }) + opt_line(1, "AUTH"@, opt_view(s.author)) + opt_line(1, "PUBL"@, opt_view(s.publication))
        + match s.repository {
        Some(r) => match first_index(repos, r@) {
            Some(n) => tagged(1, "REPO"@, xref('R', n + 1)),
            None => seq![],
        },
        None => seq![],
    } + notes_text(1, s.notes)
}

/// The source records of a list, in order.
pub open spec fn sources_text(ss: Seq<Source>, repos: Seq<Seq<char>>) -> Seq<char>
    decreases ss.len(),
{
    if ss.len() == 0 {
        seq![]
    } else {
        sources_text(ss.drop_last(), repos) + source_text(ss.last(), repos)
    }
}

/// The repository records `@R1@`, `@R2@`, … of the first `k` names.
pub open spec fn repos_text(repos: Seq<Seq<char>>, k: nat) -> Seq<char>
    decreases k,
{
    if k == 0 {
        seq![]
    } else {
        repos_text(repos, (k - 1) as nat) + tagged(0, xref('R', k as int), "REPO"@) + tagged(
            1,
            "NAME"@,
            repos[k - 1],
        )
    }
}

/// Appends a multimedia record.
fn push_object(out: &mut Vec<char>, m: &Media)
    ensures
        final(out)@ == old(out)@ + object_text(*m),
{
    push_record(out, 'M', m.id.0, "OBJE");
    push_tagged(out, 1, "FILE", m.path.as_str());
    push_opt(out, 2, "FORM", &m.mime);
    push_opt(out, 1, "TITL", &m.caption);
    assert(out@ =~= old(out)@ + object_text(*m));
}

/// The views of a list of strings.
pub open spec fn string_views(v: Seq<String>) -> Seq<Seq<char>> {
    Seq::new(v.len(), |i: int| v[i]@)
}

/// Finds the first occurrence of `r` among `names`.
fn find_name(names: &Vec<String>, r: &String) -> (i: Option<usize>)
    ensures
        match i {
            Some(i) => first_index(string_views(names@), r@) == Some(i as int) && i < names.len(),
            None => first_index(string_views(names@), r@) is None,
        },
{
    let mut i: usize = 0;
    while i < names.len()
        invariant
            i <= names.len(),
            first_index(string_views(names@).take(i as int), r@) is None,
        decreases names.len() - i,
    {
        proof {
            assert(string_views(names@).take(i + 1).drop_last() =~= string_views(names@).take(i as int));
        }
        if names[i] == *r {
            proof {
                lemma_first_index_prefix(string_views(names@), r@, i + 1);
            }
            return Some(i);
        }
        i = i + 1;
    }
    assert(string_views(names@).take(names.len() as int) =~= string_views(names@));
    None
}

/// A match in a prefix is the match in the whole list.
proof fn lemma_first_index_prefix(names: Seq<Seq<char>>, r: Seq<char>, k: int)
    requires
        0 <= k <= names.len(),
        first_index(names.take(k), r) is Some,
    ensures
        first_index(names, r) == first_index(names.take(k), r),
    decreases names.len() - k,
{
    if k < names.len() {
        assert(names.take(k + 1).drop_last() =~= names.take(k));
        lemma_first_index_prefix(names, r, k + 1);
    } else {
        assert(names.take(k) =~= names);
    }
}

/// Collects the repository names (see [`repositories`]).
fn repository_registry(sources: &Vec<Source>) -> (r: Vec<String>)
    ensures
        string_views(r@) == repositories(sources@),
{
    let mut names: Vec<String> = Vec::new();
    let mut i: usize = 0;
    while i < sources.len()
        invariant
            i <= sources.len(),
            string_views(names@) == repositories(sources@.take(i as int)),
        decreases sources.len() - i,
    {
        proof {
            assert(sources@.take(i + 1).drop_last() =~= sources@.take(i as int));
            assert(sources@.take(i + 1).last() == sources@[i as int]);
        }
        match &sources[i].repository {
            Some(r) => {
                if !r.as_str().is_empty() {
                    if find_name(&names, r).is_none() {
                        let ghost before = names@;
                        names.push(r.clone());
                        assert(string_views(names@) =~= string_views(before).push(r@));
                    }
                }
            },
            None => {},
        }
        i = i + 1;
    }
    assert(sources@.take(sources.len() as int) =~= sources@);
    names
}

/// Appends a source record.
fn push_source(out: &mut Vec<char>, s: &Source, repos: &Vec<String>)
    ensures
        final(out)@ == old(out)@ + source_text(*s, string_views(repos@)),
{
    push_record(out, 'S', s.id.0, "SOUR");
    let ghost a = out@;
    if !s.title.as_str().is_empty() {
        push_tagged(out, 1, "TITL", s.title.as_str());
    }
    let ghost b = out@;
    push_opt(out, 1, "AUTH", &s.author);
    push_opt(out, 1, "PUBL", &s.publication);
    let ghost c = out@;
    match &s.repository {
        Some(r) => match find_name(repos, r) {
            Some(n) => {
                push_head(out, 1, "REPO");
                out.push('@');
                out.push('R');
                push_nat(out, n as u64 + 1);
                out.push('@');
                out.push('\n');
                assert(out@ =~= c + tagged(1, "REPO"@, xref('R', n + 1)));
            },
            None => {},
        },
        None => {},
    }
    push_notes(out, &s.notes);
    assert(out@ =~= old(out)@ + source_text(*s, string_views(repos@)));
}

/// Appends the repository records.
fn push_repositories(out: &mut Vec<char>, repos: &Vec<String>)
    ensures
        final(out)@ == old(out)@ + repos_text(string_views(repos@), repos.len() as nat),
{
    let mut k: usize = 0;
    while k < repos.len()
        invariant
            k <= repos.len(),
            out@ == old(out)@ + repos_text(string_views(repos@), k as nat),
        decreases repos.len() - k,
    {
        let ghost before = out@;
        push_str(out, "0 @R");
        push_nat(out, k as u64 + 1);
        push_str(out, "@ REPO\n");
        push_tagged(out, 1, "NAME", repos[k].as_str());
        proof {
            reveal_strlit("0 @R");
            reveal_strlit("@ REPO\n");
            reveal_strlit("REPO");
            assert(int_text(0) =~= seq!['0']);
            assert(string_views(repos@)[k as int] == repos@[k as int]@);
        }
        k = k + 1;
        assert(out@ =~= old(out)@ + repos_text(string_views(repos@), k as nat));
    }
}

// ---------------------------------------------------------------------------
// Order of individuals
// ---------------------------------------------------------------------------

/// The position at which an entry with `key` goes into `order`: after every
/// leading entry whose id is at most `key`.
pub open spec fn first_after(order: Seq<int>, ids: Seq<i64>, key: i64) -> nat
    decreases order.len(),
{
    if order.len() == 0 {
        0
    } else if ids[order[0]] > key {
        0
    } else {
        1 + first_after(order.drop_first(), ids, key)
    }
}

/// The indices `0..n` of `ids` ordered by id (equal ids keep their order).
pub open spec fn id_order_upto(ids: Seq<i64>, n: nat) -> Seq<int>
    decreases n,
{
    if n == 0 {
        seq![]
    } else {
        let o = id_order_upto(ids, (n - 1) as nat);
        o.insert(first_after(o, ids, ids[n - 1]) as int, n - 1)
    }
}

/// The indices of `ids` ordered by id.
pub open spec fn id_order(ids: Seq<i64>) -> Seq<int> {
    id_order_upto(ids, ids.len())
}

/// The row ids of a list of individual entries.
pub open spec fn entry_ids(es: Seq<IndividualEntry>) -> Seq<i64> {
    Seq::new(es.len(), |i: int| es[i].individual.id.0)
}

/// The integers of a list of indices.
pub open spec fn indices(v: Seq<usize>) -> Seq<int> {
    Seq::new(v.len(), |i: int| v[i] as int)
}

/// Where `first_after` stops.
proof fn lemma_first_after(order: Seq<int>, ids: Seq<i64>, key: i64)
    requires
        forall|k: int| 0 <= k < order.len() ==> 0 <= #[trigger] order[k] < ids.len(),
    ensures
        first_after(order, ids, key) <= order.len(),
        forall|k: int| 0 <= k < first_after(order, ids, key) ==> ids[#[trigger] order[k]] <= key,
        first_after(order, ids, key) < order.len() ==> ids[order[first_after(order, ids, key) as int]]
            > key,
    decreases order.len(),
{
    if order.len() > 0 && ids[order[0]] <= key {
        let t = order.drop_first();
        assert forall|k: int| 0 <= k < t.len() implies 0 <= #[trigger] t[k] < ids.len() by {
            assert(t[k] == order[k + 1]);
        }
        lemma_first_after(t, ids, key);
        assert forall|k: int| 0 <= k < first_after(order, ids, key) implies ids[#[trigger] order[k]] <= key by {
            if k > 0 {
                assert(order[k] == t[k - 1]);
            }
        }
    }
}

/// Whether `x` occurs in `o`.
pub open spec fn appears(o: Seq<int>, x: int) -> bool {
    exists|k: int| 0 <= k < o.len() && #[trigger] o[k] == x
}

/// The individual order: each index once, ids never decreasing along it.
pub open spec fn is_id_order(o: Seq<int>, ids: Seq<i64>, n: int) -> bool {
    &&& o.len() == n
    &&& forall|k: int| 0 <= k < o.len() ==> 0 <= #[trigger] o[k] < n
    &&& forall|a: int, b: int| 0 <= a < b < o.len() ==> #[trigger] o[a] != #[trigger] o[b]
    &&& forall|x: int| 0 <= x < n ==> #[trigger] appears(o, x)
    &&& forall|a: int, b: int| 0 <= a <= b < o.len() ==> ids[#[trigger] o[a]] <= ids[#[trigger] o[b]]
}

/// Individuals are written each exactly once and in ascending-id order (ties
/// in the order they were listed).
pub proof fn law_individual_order(ids: Seq<i64>, n: nat)
    requires
        n <= ids.len(),
    ensures
        is_id_order(id_order_upto(ids, n), ids, n as int),
    decreases n,
{
    if n > 0 {
        let m = (n - 1) as nat;
        law_individual_order(ids, m);
        let o = id_order_upto(ids, m);
        let key = ids[m as int];
        lemma_first_after(o, ids, key);
        let p = first_after(o, ids, key) as int;
        let o2 = o.insert(p, m as int);
        assert(o2 == id_order_upto(ids, n));
        assert forall|k: int| 0 <= k < o2.len() implies 0 <= #[trigger] o2[k] < n by {
            if k < p {
                assert(o2[k] == o[k]);
            } else if k > p {
                assert(o2[k] == o[k - 1]);
            }
        }
        assert forall|a: int, b: int| 0 <= a < b < o2.len() implies #[trigger] o2[a] != #[trigger] o2[b] by {
            if a < p && b < p {
                assert(o2[a] == o[a] && o2[b] == o[b]);
            } else if a < p && b == p {
                assert(o2[a] == o[a]);
            } else if a < p && b > p {
                assert(o2[a] == o[a] && o2[b] == o[b - 1]);
            } else if a == p {
                assert(o2[b] == o[b - 1]);
            } else {
                assert(o2[a] == o[a - 1] && o2[b] == o[b - 1]);
            }
        }
        assert forall|x: int| 0 <= x < n implies #[trigger] appears(o2, x) by {
            if x == m {
                assert(o2[p] == x);
            } else {
                assert(appears(o, x));
                let k = choose|k: int| 0 <= k < o.len() && #[trigger] o[k] == x;
                if k < p {
                    assert(o2[k] == x);
                } else {
                    assert(o2[k + 1] == x);
                }
            }
        }
        assert forall|a: int, b: int| 0 <= a <= b < o2.len() implies ids[#[trigger] o2[a]]
            <= ids[#[trigger] o2[b]] by {
            if a < p && b < p {
                assert(o2[a] == o[a] && o2[b] == o[b]);
            } else if a < p && b == p {
                assert(o2[a] == o[a]);
            } else if a < p && b > p {
                assert(o2[a] == o[a] && o2[b] == o[b - 1]);
                assert(ids[o[a]] <= key);
                assert(ids[o[p]] > key);
                assert(ids[o[p]] <= ids[o[b - 1]]);
            } else if a == p && b > p {
                assert(o2[b] == o[b - 1]);
                assert(ids[o[p]] <= ids[o[b - 1]]);
            } else if a > p {
                assert(o2[a] == o[a - 1] && o2[b] == o[b - 1]);
            }
        }
    }
}

/// Computes [`id_order`] of the entries.
fn individual_order(es: &Vec<IndividualEntry>) -> (r: Vec<usize>)
    ensures
        indices(r@) == id_order(entry_ids(es@)),
        forall|k: int| 0 <= k < r.len() ==> #[trigger] r@[k] < es.len(),
{
    let ghost ids = entry_ids(es@);
    let mut order: Vec<usize> = Vec::new();
    let mut n: usize = 0;
    while n < es.len()
        invariant
            n <= es.len(),
            ids == entry_ids(es@),
            indices(order@) == id_order_upto(ids, n as nat),
            forall|k: int| 0 <= k < order.len() ==> #[trigger] order@[k] < n,
        decreases es.len() - n,
    {
        let key = es[n].individual.id.0;
        let ghost o = indices(order@);
        let mut p: usize = 0;
        assert(o.skip(0) =~= o);
        while p < order.len() && es[order[p]].individual.id.0 <= key
            invariant
                p <= order.len(),
                o == indices(order@),
                ids == entry_ids(es@),
                n < es.len(),
                key == ids[n as int],
                forall|k: int| 0 <= k < order.len() ==> #[trigger] order@[k] < n,
                first_after(o, ids, key) == p + first_after(o.skip(p as int), ids, key),
            decreases order.len() - p,
        {
            proof {
                assert(o.skip(p as int)[0] == order@[p as int] as int);
                assert(o.skip(p as int).drop_first() =~= o.skip(p + 1));
            }
            p = p + 1;
        }
        proof {
            if p < order.len() {
                assert(o.skip(p as int)[0] == order@[p as int] as int);
            }
            assert(first_after(o, ids, key) == p);
        }
        let ghost before = order@;
        order.insert(p, n);
        proof {
            assert(indices(order@) =~= o.insert(p as int, n as int));
            assert forall|k: int| 0 <= k < order.len() implies #[trigger] order@[k] < n + 1 by {
                if k < p {
                    assert(order@[k] == before[k]);
                } else if k > p {
                    assert(order@[k] == before[k - 1]);
                }
            }
        }
        n = n + 1;
    }
    order
}

// ---------------------------------------------------------------------------
// The document
// ---------------------------------------------------------------------------

/// The `HEAD` record: the producing program and its version, GEDCOM 5.5.1
/// lineage-linked, UTF-8; no date.
pub open spec fn header_text(version: Seq<char>) -> Seq<char> {
    bare(0, "HEAD"@) + tagged(1, "SOUR"@, "Kith"@) + tagged(2, "VERS"@, version) + tagged(
        2,
        "NAME"@,
        "Kith"@,
    ) + bare(1, "GEDC"@) + tagged(2, "VERS"@, "5.5.1"@) + tagged(2, "FORM"@, "LINEAGE-LINKED"@)
        + tagged(1, "CHAR"@, "UTF-8"@)
}

/// The records of the individuals at the given indices, in that order.
pub open spec fn individuals_text(es: Seq<IndividualEntry>, order: Seq<int>, fs: Seq<FamilyEntry>) -> Seq<char>
    decreases order.len(),
{
    if order.len() == 0 {
        seq![]
    } else {
        individuals_text(es, order.drop_last(), fs) + individual_text(es[order.last()], fs)
    }
}

/// The family records of a list, in order.
pub open spec fn families_text(fs: Seq<FamilyEntry>) -> Seq<char>
    decreases fs.len(),
{
    if fs.len() == 0 {
        seq![]
    } else {
        families_text(fs.drop_last()) + family_text(fs.last())
    }
}

/// The whole document: header, individuals by ascending id, families, media,
/// sources, repositories, trailer.
pub open spec fn document_text(s: GedcomSnapshot, version: Seq<char>) -> Seq<char> {
    let repos = repositories(s.sources@);
    header_text(version) + individuals_text(
        s.individuals@,
        id_order(entry_ids(s.individuals@)),
        s.families@,
    ) + families_text(s.families@) + objects_text(s.media@) + sources_text(s.sources@, repos)
        + repos_text(repos, repos.len()) + bare(0, "TRLR"@)
}

/// Appends the header.
fn push_header(out: &mut Vec<char>, version: &str)
    ensures
        final(out)@ == old(out)@ + header_text(version@),
{
    push_bare(out, 0, "HEAD");
    push_tagged(out, 1, "SOUR", "Kith");
    push_tagged(out, 2, "VERS", version);
    push_tagged(out, 2, "NAME", "Kith");
    push_bare(out, 1, "GEDC");
    push_tagged(out, 2, "VERS", "5.5.1");
    push_tagged(out, 2, "FORM", "LINEAGE-LINKED");
    push_tagged(out, 1, "CHAR", "UTF-8");
    assert(out@ =~= old(out)@ + header_text(version@));
}

/// Appends the individuals' records by ascending id.
fn push_individuals(out: &mut Vec<char>, es: &Vec<IndividualEntry>, fs: &Vec<FamilyEntry>)
    ensures
        final(out)@ == old(out)@ + individuals_text(es@, id_order(entry_ids(es@)), fs@),
{
    let order = individual_order(es);
    let mut k: usize = 0;
    while k < order.len()
        invariant
            k <= order.len(),
            forall|x: int| 0 <= x < order.len() ==> #[trigger] order@[x] < es.len(),
            out@ == old(out)@ + individuals_text(es@, indices(order@).take(k as int), fs@),
        decreases order.len() - k,
    {
        push_individual(out, &es[order[k]], fs);
        proof {
            assert(indices(order@).take(k + 1).drop_last() =~= indices(order@).take(k as int));
            assert(indices(order@).take(k + 1).last() == order@[k as int] as int);
        }
        k = k + 1;
    }
    assert(indices(order@).take(order.len() as int) =~= indices(order@));
}

/// Appends the family records.
fn push_families(out: &mut Vec<char>, fs: &Vec<FamilyEntry>)
    ensures
        final(out)@ == old(out)@ + families_text(fs@),
{
    let mut i: usize = 0;
    while i < fs.len()
        invariant
            i <= fs.len(),
            out@ == old(out)@ + families_text(fs@.take(i as int)),
        decreases fs.len() - i,
    {
        push_family(out, &fs[i]);
        assert(fs@.take(i + 1).drop_last() =~= fs@.take(i as int));
        i = i + 1;
    }
    assert(fs@.take(fs.len() as int) =~= fs@);
}

/// Appends the multimedia records.
fn push_objects(out: &mut Vec<char>, ms: &Vec<Media>)
    ensures
        final(out)@ == old(out)@ + objects_text(ms@),
{
    let mut j: usize = 0;
    while j < ms.len()
        invariant
            j <= ms.len(),
            out@ == old(out)@ + objects_text(ms@.take(j as int)),
        decreases ms.len() - j,
    {
        push_object(out, &ms[j]);
        assert(ms@.take(j + 1).drop_last() =~= ms@.take(j as int));
        j = j + 1;
    }
    assert(ms@.take(ms.len() as int) =~= ms@);
}

/// Appends the source records and then the repository records.
fn push_sources(out: &mut Vec<char>, ss: &Vec<Source>)
    ensures
        final(out)@ == old(out)@ + sources_text(ss@, repositories(ss@)) + repos_text(
            repositories(ss@),
            repositories(ss@).len(),
        ),
{
    let repos = repository_registry(ss);
    let mut t: usize = 0;
    while t < ss.len()
        invariant
            t <= ss.len(),
            out@ == old(out)@ + sources_text(ss@.take(t as int), string_views(repos@)),
        decreases ss.len() - t,
    {
        push_source(out, &ss[t], &repos);
        assert(ss@.take(t + 1).drop_last() =~= ss@.take(t as int));
        t = t + 1;
    }
    assert(ss@.take(ss.len() as int) =~= ss@);
    let ghost d = out@;
    push_repositories(out, &repos);
    assert(string_views(repos@).len() == repos.len());
    assert(out@ =~= old(out)@ + sources_text(ss@, repositories(ss@)) + repos_text(
        repositories(ss@),
        repositories(ss@).len(),
    ));
}

/// The database as a GEDCOM 5.5.1 document (see [`document_text`]);
/// `version` is the producing program's version, written under `HEAD.SOUR`.
pub fn export(snapshot: &GedcomSnapshot, version: &str) -> (r: String)
    ensures
        r@ == document_text(*snapshot, version@),
{
    let mut out: Vec<char> = Vec::new();
    push_header(&mut out, version);
    push_individuals(&mut out, &snapshot.individuals, &snapshot.families);
    push_families(&mut out, &snapshot.families);
    push_objects(&mut out, &snapshot.media);
    push_sources(&mut out, &snapshot.sources);
    push_bare(&mut out, 0, "TRLR");
    assert(out@ =~= document_text(*snapshot, version@));
    string_from_chars(out)
}

/// An exported document is a header (`0 HEAD`, the producing program, GEDCOM
/// 5.5.1 lineage-linked, `1 CHAR UTF-8`, and no date), then the individuals
/// by ascending id, the families, objects, sources and repositories, then the
/// trailer: it starts with `0 HEAD` and ends with `0 TRLR`.
#[verifier::spinoff_prover]
pub proof fn law_export_shape(s: GedcomSnapshot, version: Seq<char>)
    ensures
        document_text(s, version) == header_text(version) + individuals_text(
            s.individuals@,
            id_order(entry_ids(s.individuals@)),
            s.families@,
        ) + families_text(s.families@) + objects_text(s.media@) + sources_text(
            s.sources@,
            repositories(s.sources@),
        ) + repos_text(repositories(s.sources@), repositories(s.sources@).len()) + bare(0, "TRLR"@),
        header_text(version) == bare(0, "HEAD"@) + tagged(1, "SOUR"@, "Kith"@) + tagged(2, "VERS"@, version)
            + tagged(2, "NAME"@, "Kith"@) + bare(1, "GEDC"@) + tagged(2, "VERS"@, "5.5.1"@) + tagged(
            2,
            "FORM"@,
            "LINEAGE-LINKED"@,
        ) + tagged(1, "CHAR"@, "UTF-8"@),
        document_text(s, version).take(7) == "0 HEAD\n"@,
        document_text(s, version).skip(document_text(s, version).len() - 7) == "0 TRLR\n"@,
{
    reveal_strlit("HEAD");
    reveal_strlit("TRLR");
    reveal_strlit("0 HEAD\n");
    reveal_strlit("0 TRLR\n");
    assert(int_text(0) =~= seq!['0']);
    let h = bare(0, "HEAD"@);
    assert(h =~= "0 HEAD\n"@);
    let t = bare(0, "TRLR"@);
    assert(t =~= "0 TRLR\n"@);
    let hd = header_text(version);
    assert(hd.take(7) =~= h);
    let repos = repositories(s.sources@);
    let x1 = hd + individuals_text(s.individuals@, id_order(entry_ids(s.individuals@)), s.families@);
    let x2 = x1 + families_text(s.families@);
    let x3 = x2 + objects_text(s.media@);
    let x4 = x3 + sources_text(s.sources@, repos);
    let x5 = x4 + repos_text(repos, repos.len());
    let d = document_text(s, version);
    assert(d == x5 + t);
    lemma_take_prefix(x5, t, 7);
    lemma_take_prefix(x4, repos_text(repos, repos.len()), 7);
    lemma_take_prefix(x3, sources_text(s.sources@, repos), 7);
    lemma_take_prefix(x2, objects_text(s.media@), 7);
    lemma_take_prefix(x1, families_text(s.families@), 7);
    lemma_take_prefix(hd, individuals_text(s.individuals@, id_order(entry_ids(s.individuals@)), s.families@), 7);
    lemma_ends_with(x5, t, d);
}

/// A prefix of `p` stays a prefix after appending `q`.
proof fn lemma_take_prefix(p: Seq<char>, q: Seq<char>, n: int)
    requires
        0 <= n <= p.len(),
    ensures
        (p + q).take(n) == p.take(n),
{
    assert((p + q).take(n) =~= p.take(n));
}

/// A sequence made of `a` then `b` ends with `b`.
proof fn lemma_ends_with(a: Seq<char>, b: Seq<char>, d: Seq<char>)
    requires
        d == a + b,
    ensures
        d.skip(d.len() - b.len()) == b,
{
    assert(d.skip(d.len() - b.len()) =~= b);
}

} // verus!
