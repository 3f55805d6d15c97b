//! The import plan: the writes a validated document turns into, in order.
//!
//! Records are read in passes — sources, then individuals (with their
//! alternate names, events and citations), then families, then media and
//! their links, then children — and each write is a step. A step names the
//! rows it depends on by the index of the earlier step that creates them, so
//! the plan can be carried out in one transaction by whoever holds the
//! database, and a document that cannot be read produces no plan (and so no
//! writes) at all.

use vstd::prelude::*;
use crate::date::GenealogicalDate;
use crate::enums::{ChildRelation, Confidence, EventKind, NameKind, UnionType};
use crate::gedcom::map::{
    check_encoding, child_value, draft_fields, encoding_message, encoding_ok, first_dangling, media_fields, pair_views, primary_of,
    primary_index, refs_ok, relation_in, source_fields, spec_citation_detail, spec_given, spec_surname,
    validate,
};
use crate::gedcom::lexer::{lex, lex_spec, line_views, LineView};
use crate::gedcom::tree::{build, first_bad_line, nesting_message, records_view, roots_from, well_nested};
use crate::error::CoreError;
use crate::gedcom::lexer::opt_view;
use crate::gedcom::map::{
    child_of, child_string, individual_draft, lookup, media_draft, name_parts, pointer_of,
    record_pointer, relation_of_child, source_draft, split_names, tag_is, value_of,
};
use crate::date::parse_date;
use crate::gedcom::tree::tagged;
use crate::gedcom::tags::{
    confidence_for_quay, event_kind_for_tag, kind_for_tag_is, name_kind_for_type,
    spec_confidence_for_quay, spec_name_kind_for_type,
};
use crate::gedcom::tree::GedcomRecord;
use crate::num::push_int;
use crate::records::{NewIndividual, NewMedia, NewSource};
use crate::text::{
    chars_eq, chars_of, debug_quoted, push_chars, push_str, slice_chars, string_from_chars,
};

verus! {

/// Options for an import.
#[derive(Debug, Clone, Default, PartialEq, Eq)]
pub struct ImportOptions {
    /// `true` appends into an existing database (fresh ids, no dedup); `false`
    /// (the default) requires an empty one.
    pub merge: bool,
}

/// What an import wrote.
#[derive(Debug, Clone, Default, PartialEq, Eq)]
pub struct ImportSummary {
    /// Individuals created.
    pub individuals: usize,
    /// Families created.
    pub families: usize,
    /// Events created (individual and family).
    pub events: usize,
    /// Alternate names created.
    pub names: usize,
    /// Distinct places created (deduplicated by name).
    pub places: usize,
    /// Media files created: top-level objects and inline ones.
    pub media: usize,
    /// Sources created from top-level records.
    pub sources: usize,
    /// Citations created from source pointers.
    pub citations: usize,
    /// Unsupported top-level records skipped, by tag, with their counts, in
    /// order of first appearance.
    pub skipped_tags: Vec<(String, usize)>,
}

/// The subject of a planned event, citation or media link: the row created by
/// the step at the given index.
#[derive(Debug, Clone, Copy, PartialEq, Eq, Structural)]
pub enum PlanSubject {
    /// An individual.
    Individual(usize),
    /// A family.
    Family(usize),
    /// An event.
    Event(usize),
}

/// One write of an import.
#[derive(Debug, Clone, PartialEq, Eq)]
pub enum ImportStep {
    /// Create a source.
    CreateSource(NewSource),
    /// Create an individual.
    CreateIndividual(NewIndividual),
    /// Add an alternate name to an individual.
    AddName {
        /// The individual.
        individual: usize,
        /// The name's kind.
        kind: NameKind,
        /// Given name(s).
        given_name: Option<String>,
        /// Surname.
        surname: Option<String>,
        /// Prefix.
        name_prefix: Option<String>,
        /// Suffix.
        name_suffix: Option<String>,
        /// Display order.
        sort_order: i64,
    },
    /// Create a place with this name.
    CreatePlace(String),
    /// Add an event.
    AddEvent {
        /// Whose event it is (an individual or a family).
        subject: PlanSubject,
        /// What happened.
        kind: EventKind,
        /// When.
        date: Option<GenealogicalDate>,
        /// Where: the place created by that step.
        place: Option<usize>,
        /// Notes.
        notes: Option<String>,
    },
    /// Add a citation.
    AddCitation {
        /// The cited source.
        source: usize,
        /// What it supports.
        subject: PlanSubject,
        /// Page.
        page: Option<String>,
        /// Detail.
        detail: Option<String>,
        /// Confidence.
        confidence: Option<Confidence>,
    },
    /// Create a family.
    CreateFamily {
        /// First partner.
        partner1: Option<usize>,
        /// Second partner.
        partner2: Option<usize>,
        /// Union type.
        union_type: UnionType,
        /// Notes.
        notes: Option<String>,
    },
    /// Create a media file.
    CreateMedia(NewMedia),
    /// Link a media file to an individual or a family.
    LinkMedia {
        /// The media file.
        media: usize,
        /// What it depicts.
        subject: PlanSubject,
        /// Whether it is the subject's primary image.
        is_primary: bool,
    },
    /// Add a child to a family.
    AddChild {
        /// The family.
        family: usize,
        /// The child.
        child: usize,
        /// The child's relation to the family.
        relation: ChildRelation,
        /// Birth order.
        sort_order: i64,
    },
}

/// The writes an import performs, and the summary it reports.
#[derive(Debug, Clone, PartialEq, Eq)]
pub struct ImportPlan {
    /// The writes, in order.
    pub steps: Vec<ImportStep>,
    /// What they write.
    pub summary: ImportSummary,
}

/// The kinds of row a step can create.
#[derive(Debug, Clone, Copy, PartialEq, Eq, Structural)]
pub enum Entity {
    /// A source.
    Source,
    /// An individual.
    Individual,
    /// A place.
    Place,
    /// An event.
    Event,
    /// A family.
    Family,
    /// A media file.
    Media,
}

/// The kind of row a step creates, if any.
pub open spec fn creates(s: ImportStep) -> Option<Entity> {
    match s {
        ImportStep::CreateSource(_) => Some(Entity::Source),
        ImportStep::CreateIndividual(_) => Some(Entity::Individual),
        ImportStep::CreatePlace(_) => Some(Entity::Place),
        ImportStep::AddEvent { .. } => Some(Entity::Event),
        ImportStep::CreateFamily { .. } => Some(Entity::Family),
        ImportStep::CreateMedia(_) => Some(Entity::Media),
        _ => None,
    }
}

/// Whether `r` names a row of kind `e` created by a step before step `i`.
pub open spec fn is_ref(steps: Seq<ImportStep>, i: int, r: usize, e: Entity) -> bool {
    r < i && i <= steps.len() && creates(steps[r as int]) == Some(e)
}

/// Whether a subject names a row created before step `i`.
pub open spec fn subject_ok(steps: Seq<ImportStep>, i: int, s: PlanSubject) -> bool {
    match s {
        PlanSubject::Individual(r) => is_ref(steps, i, r, Entity::Individual),
        PlanSubject::Family(r) => is_ref(steps, i, r, Entity::Family),
        PlanSubject::Event(r) => is_ref(steps, i, r, Entity::Event),
    }
}

/// Whether step `i` refers only to rows created by earlier steps, each of the
/// kind the reference expects.
pub open spec fn step_ok(steps: Seq<ImportStep>, i: int) -> bool {
    match steps[i] {
        ImportStep::AddName { individual, .. } => is_ref(steps, i, individual, Entity::Individual),
        ImportStep::AddEvent { subject, place, .. } => {
            &&& !(subject is Event)
            &&& subject_ok(steps, i, subject)
            &&& (place matches Some(p) ==> is_ref(steps, i, p, Entity::Place))
        },
        ImportStep::AddCitation { source, subject, .. } => is_ref(steps, i, source, Entity::Source)
            && subject_ok(steps, i, subject),
        ImportStep::CreateFamily { partner1, partner2, .. } => {
            &&& (partner1 matches Some(p) ==> is_ref(steps, i, p, Entity::Individual))
            &&& (partner2 matches Some(p) ==> is_ref(steps, i, p, Entity::Individual))
        },
        ImportStep::LinkMedia { media, subject, .. } => {
            &&& is_ref(steps, i, media, Entity::Media)
            &&& !(subject is Event)
            &&& subject_ok(steps, i, subject)
        },
        ImportStep::AddChild { family, child, .. } => is_ref(steps, i, family, Entity::Family)
            && is_ref(steps, i, child, Entity::Individual),
        _ => true,
    }
}

/// Whether every step of a plan refers only to rows created before it.
pub open spec fn plan_wf(steps: Seq<ImportStep>) -> bool {
    forall|i: int| 0 <= i < steps.len() ==> #[trigger] step_ok(steps, i)
}

/// A small number naming each kind of step.
pub open spec fn step_kind(s: ImportStep) -> int {
    match s {
        ImportStep::CreateSource(_) => 0,
        ImportStep::CreateIndividual(_) => 1,
        ImportStep::AddName { .. } => 2,
        ImportStep::CreatePlace(_) => 3,
        ImportStep::AddEvent { .. } => 4,
        ImportStep::AddCitation { .. } => 5,
        ImportStep::CreateFamily { .. } => 6,
        ImportStep::CreateMedia(_) => 7,
        ImportStep::LinkMedia { .. } => 8,
        ImportStep::AddChild { .. } => 9,
    }
}

/// The number of steps of kind `k`.
pub open spec fn count_kind(steps: Seq<ImportStep>, k: int) -> nat
    decreases steps.len(),
{
    if steps.len() == 0 {
        0
    } else {
        count_kind(steps.drop_last(), k) + if step_kind(steps.last()) == k {
            1nat
        } else {
            0nat
        }
    }
}

/// Whether a summary counts the steps of a plan.
pub open spec fn summary_counts(s: ImportSummary, steps: Seq<ImportStep>) -> bool {
    &&& s.sources == count_kind(steps, 0)
    &&& s.individuals == count_kind(steps, 1)
    &&& s.names == count_kind(steps, 2)
    &&& s.places == count_kind(steps, 3)
    &&& s.events == count_kind(steps, 4)
    &&& s.citations == count_kind(steps, 5)
    &&& s.families == count_kind(steps, 6)
    &&& s.media == count_kind(steps, 7)
}

/// The steps of kind `k`, in order.
pub open spec fn steps_of_kind(steps: Seq<ImportStep>, k: int) -> Seq<ImportStep>
    decreases steps.len(),
{
    if steps.len() == 0 {
        seq![]
    } else if step_kind(steps.last()) == k {
        steps_of_kind(steps.drop_last(), k).push(steps.last())
    } else {
        steps_of_kind(steps.drop_last(), k)
    }
}

/// Whether the sources a plan creates are, in order, the drafts of the `SOUR`
/// records of `records`, with repositories named from `repos`.
pub open spec fn sources_drafted(
    records: Seq<GedcomRecord>,
    repos: Seq<(Seq<char>, Seq<char>)>,
    steps: Seq<ImportStep>,
) -> bool {
    let c = steps_of_kind(steps, 0);
    let sr = tagged(records, "SOUR"@);
    &&& c.len() == sr.len()
    &&& forall|k: int|
        0 <= k < c.len() ==> (#[trigger] c[k] matches ImportStep::CreateSource(d) && source_fields(
            sr[k],
            repos,
            d,
        ))
}

/// Whether the individuals a plan creates are, in order, the drafts of the
/// `INDI` records of `records`, each named by the record's primary name.
pub open spec fn individuals_drafted(records: Seq<GedcomRecord>, steps: Seq<ImportStep>) -> bool {
    let c = steps_of_kind(steps, 1);
    let ir = tagged(records, "INDI"@);
    &&& c.len() == ir.len()
    &&& forall|k: int|
        0 <= k < c.len() ==> (#[trigger] c[k] matches ImportStep::CreateIndividual(d) && draft_fields(
            ir[k],
            primary_of(ir[k]),
            d,
        ))
}

/// Whether the first media files a plan creates are, in order, the drafts of
/// the top-level `OBJE` records of `records` (those after them are objects
/// written inline under an individual or a family).
pub open spec fn media_drafted(records: Seq<GedcomRecord>, steps: Seq<ImportStep>) -> bool {
    let c = steps_of_kind(steps, 7);
    let mr = tagged(records, "OBJE"@);
    &&& mr.len() <= c.len()
    &&& forall|k: int|
        0 <= k < mr.len() ==> (#[trigger] c[k] matches ImportStep::CreateMedia(d) && media_fields(mr[k], d))
}

/// The `(xref, NAME)` pairs of the repository records that have both, in order.
pub open spec fn repo_pairs(records: Seq<GedcomRecord>) -> Seq<(Seq<char>, Seq<char>)>
    decreases records.len(),
{
    if records.len() == 0 {
        seq![]
    } else {
        let rec = records.last();
        match (rec.xref, child_value(rec, "NAME"@)) {
            (Some(x), Some(n)) if rec.tag@ == "REPO"@ => repo_pairs(records.drop_last()).push((x@, n)),
            _ => repo_pairs(records.drop_last()),
        }
    }
}

/// Whether `s` creates the individual the `INDI` record `rec`, with xref
/// `x`, describes.
pub open spec fn drafts_indi(rec: GedcomRecord, x: Seq<char>, s: ImportStep) -> bool {
    &&& rec.tag@ == "INDI"@
    &&& rec.xref matches Some(y) && y@ == x
    &&& s matches ImportStep::CreateIndividual(d) && draft_fields(rec, primary_of(rec), d)
}

/// Whether step `h` creates the individual of an `INDI` record of `records`
/// with xref `x`.
pub open spec fn indi_step(steps: Seq<ImportStep>, records: Seq<GedcomRecord>, x: Seq<char>, h: usize) -> bool {
    &&& h < steps.len()
    &&& exists|j: int| 0 <= j < records.len() && #[trigger] drafts_indi(records[j], x, steps[h as int])
}

/// Whether each individual handle names the step that creates the individual
/// of an `INDI` record with the handle's xref.
pub open spec fn persons_drafted(
    m: Seq<(Vec<char>, usize)>,
    steps: Seq<ImportStep>,
    records: Seq<GedcomRecord>,
) -> bool {
    forall|k: int| 0 <= k < m.len() ==> indi_step(steps, records, m[k].0@, #[trigger] m[k].1)
}

/// The pointer a record's first `t` sub-record holds.
pub open spec fn partner_pointer(rec: GedcomRecord, t: Seq<char>) -> Option<Seq<char>> {
    match child_of(rec, t) {
        Some(c) => pointer_of(value_of(c)),
        None => None,
    }
}

/// Whether a family's partner slot names the individual its `t` pointer
/// names, and is empty without one.
pub open spec fn partner_slot_ok(
    steps: Seq<ImportStep>,
    records: Seq<GedcomRecord>,
    rec: GedcomRecord,
    t: Seq<char>,
    slot: Option<usize>,
) -> bool {
    match partner_pointer(rec, t) {
        None => slot is None,
        Some(x) => slot matches Some(h) && indi_step(steps, records, x, h),
    }
}

/// Whether `s` creates the family the `FAM` record `rec` describes: partners
/// from `HUSB` and `WIFE`, a marriage when it has `MARR` (else of unknown
/// type), and notes from `NOTE`.
pub open spec fn family_fields(
    rec: GedcomRecord,
    records: Seq<GedcomRecord>,
    steps: Seq<ImportStep>,
    s: ImportStep,
) -> bool {
    match s {
        ImportStep::CreateFamily { partner1, partner2, union_type, notes } => {
            &&& partner_slot_ok(steps, records, rec, "HUSB"@, partner1)
            &&& partner_slot_ok(steps, records, rec, "WIFE"@, partner2)
            &&& union_type == if child_of(rec, "MARR"@) is Some {
                UnionType::Marriage
            } else {
                UnionType::Unknown
            }
            &&& opt_view(notes) == child_value(rec, "NOTE"@)
        },
        _ => false,
    }
}

/// Whether the families a plan creates are, in order, those the `FAM`
/// records of `fams` describe, their partners resolved among `records`.
pub open spec fn families_drafted(
    fams: Seq<GedcomRecord>,
    records: Seq<GedcomRecord>,
    steps: Seq<ImportStep>,
) -> bool {
    let c = steps_of_kind(steps, 6);
    let fr = tagged(fams, "FAM"@);
    &&& c.len() == fr.len()
    &&& forall|k: int| 0 <= k < c.len() ==> family_fields(fr[k], records, steps, #[trigger] c[k])
}

/// Whether `s` creates the family the `FAM` record `rec`, with xref `x`,
/// describes.
pub open spec fn drafts_fam(
    rec: GedcomRecord,
    x: Seq<char>,
    records: Seq<GedcomRecord>,
    steps: Seq<ImportStep>,
    s: ImportStep,
) -> bool {
    &&& rec.tag@ == "FAM"@
    &&& rec.xref matches Some(y) && y@ == x
    &&& family_fields(rec, records, steps, s)
}

/// Whether step `h` creates the family of a `FAM` record of `records` with
/// xref `x`.
pub open spec fn fam_step(steps: Seq<ImportStep>, records: Seq<GedcomRecord>, x: Seq<char>, h: usize) -> bool {
    &&& h < steps.len()
    &&& exists|j: int| 0 <= j < records.len() && #[trigger] drafts_fam(records[j], x, records, steps, steps[h as int])
}

/// Whether each family handle names the step that creates the family of a
/// `FAM` record with the handle's xref.
pub open spec fn families_handled(
    m: Seq<(Vec<char>, usize)>,
    steps: Seq<ImportStep>,
    records: Seq<GedcomRecord>,
) -> bool {
    forall|k: int| 0 <= k < m.len() ==> fam_step(steps, records, m[k].0@, #[trigger] m[k].1)
}

/// The child links of the family records: for each `FAM` record with an
/// xref, in order, each of its `CHIL` sub-records with its position.
pub open spec fn child_links(records: Seq<GedcomRecord>) -> Seq<(GedcomRecord, GedcomRecord, int)>
    decreases records.len(),
{
    if records.len() == 0 {
        seq![]
    } else {
        let rec = records.last();
        child_links(records.drop_last()) + if rec.tag@ == "FAM"@ && rec.xref is Some {
            record_links(rec)
        } else {
            seq![]
        }
    }
}

/// A family record's `CHIL` sub-records, each with its position.
pub open spec fn record_links(rec: GedcomRecord) -> Seq<(GedcomRecord, GedcomRecord, int)> {
    let cs = tagged(rec.children@, "CHIL"@);
    Seq::new(cs.len(), |j: int| (rec, cs[j], j))
}

/// Whether `s` adds the child a link names to its family: the family's step,
/// the step of the individual the `CHIL` pointer names, the relation the
/// child's record gives, and the link's position as the order.
pub open spec fn child_fields(
    link: (GedcomRecord, GedcomRecord, int),
    records: Seq<GedcomRecord>,
    steps: Seq<ImportStep>,
    s: ImportStep,
) -> bool {
    match (s, link.0.xref, pointer_of(value_of(link.1))) {
        (ImportStep::AddChild { family, child, relation, sort_order }, Some(fx), Some(x)) => {
            &&& fam_step(steps, records, fx@, family)
            &&& indi_step(steps, records, x, child)
            &&& relation == child_relation(records, x, fx@)
            &&& sort_order == if link.2 <= i64::MAX {
                link.2
            } else {
                i64::MAX as int
            }
        },
        _ => false,
    }
}

/// Whether the children a plan adds are, in order, those `links` name.
pub open spec fn children_drafted(
    links: Seq<(GedcomRecord, GedcomRecord, int)>,
    records: Seq<GedcomRecord>,
    steps: Seq<ImportStep>,
) -> bool {
    let c = steps_of_kind(steps, 9);
    &&& c.len() == links.len()
    &&& forall|k: int| 0 <= k < c.len() ==> child_fields(links[k], records, steps, #[trigger] c[k])
}

/// The sub-records of `cs` whose tags name events, in order.
pub open spec fn events_of(cs: Seq<GedcomRecord>, family: bool) -> Seq<GedcomRecord>
    decreases cs.len(),
{
    if cs.len() == 0 {
        seq![]
    } else {
        events_of(cs.drop_last(), family) + if spec_is_event_tag(cs.last().tag@, family) {
            seq![cs.last()]
        } else {
            seq![]
        }
    }
}

/// Whether `place` names the step that creates the place named `name`, and
/// is empty without a name.
pub open spec fn place_ok(steps: Seq<ImportStep>, name: Option<Seq<char>>, place: Option<usize>) -> bool {
    match (name, place) {
        (Some(n), Some(h)) => place_step(steps, n, h),
        (None, None) => true,
        _ => false,
    }
}

/// Whether `s` adds the event the sub-record `ev` describes to `subject`: its
/// kind from the tag (and `TYPE`), its parsed `DATE`, its `PLAC`, its
/// `NOTE`.
pub open spec fn event_fields(ev: GedcomRecord, subject: PlanSubject, steps: Seq<ImportStep>, s: ImportStep) -> bool {
    match s {
        ImportStep::AddEvent { subject: sj, kind, date, place, notes } => {
            &&& sj == subject
            &&& kind_for_tag_is(ev.tag@, child_value(ev, "TYPE"@), kind)
            &&& date == match child_value(ev, "DATE"@) {
                Some(v) => parse_date(v),
                None => None,
            }
            &&& place_ok(steps, child_value(ev, "PLAC"@), place)
            &&& opt_view(notes) == child_value(ev, "NOTE"@)
        },
        _ => false,
    }
}

/// Whether the events of `b` are those of `a` followed by one per sub-record
/// of `evs`, for `subject`.
pub open spec fn events_added(
    a: Seq<ImportStep>,
    b: Seq<ImportStep>,
    evs: Seq<GedcomRecord>,
    subject: PlanSubject,
) -> bool {
    let ca = steps_of_kind(a, 4);
    let cb = steps_of_kind(b, 4);
    &&& cb.len() == ca.len() + evs.len()
    &&& cb.take(ca.len() as int) == ca
    &&& forall|j: int| 0 <= j < evs.len() ==> event_fields(evs[j], subject, b, #[trigger] cb.skip(ca.len() as int)[j])
}

/// An event step keeps describing its sub-record as steps are appended.
proof fn lemma_event_fields_extends(
    ev: GedcomRecord,
    subject: PlanSubject,
    a: Seq<ImportStep>,
    b: Seq<ImportStep>,
    s: ImportStep,
)
    requires
        extends(a, b),
        event_fields(ev, subject, a, s),
    ensures
        event_fields(ev, subject, b, s),
{
    if let ImportStep::AddEvent { place: Some(h), .. } = s {
        assert(b[h as int] == a[h as int]);
    }
}

/// Added events stay in place as steps without a new event are appended.
proof fn lemma_events_added_extends(
    a: Seq<ImportStep>,
    b: Seq<ImportStep>,
    b2: Seq<ImportStep>,
    evs: Seq<GedcomRecord>,
    subject: PlanSubject,
)
    requires
        events_added(a, b, evs, subject),
        extends(b, b2),
        steps_of_kind(b2, 4) == steps_of_kind(b, 4),
    ensures
        events_added(a, b2, evs, subject),
{
    let ca = steps_of_kind(a, 4);
    let cb = steps_of_kind(b, 4);
    assert forall|j: int| 0 <= j < evs.len() implies event_fields(
        evs[j],
        subject,
        b2,
        #[trigger] cb.skip(ca.len() as int)[j],
    ) by {
        lemma_event_fields_extends(evs[j], subject, b, b2, cb.skip(ca.len() as int)[j]);
    }
}

/// One more event added, for one more event sub-record.
proof fn lemma_events_added_step(
    a: Seq<ImportStep>,
    b: Seq<ImportStep>,
    evs: Seq<GedcomRecord>,
    subject: PlanSubject,
    ev: GedcomRecord,
    s: ImportStep,
)
    requires
        events_added(a, b, evs, subject),
        s is AddEvent,
        event_fields(ev, subject, b.push(s), s),
    ensures
        events_added(a, b.push(s), evs.push(ev), subject),
{
    let b2 = b.push(s);
    let ca = steps_of_kind(a, 4);
    let cb = steps_of_kind(b, 4);
    assert(b2.drop_last() =~= b);
    let cb2 = steps_of_kind(b2, 4);
    assert(cb2 == cb.push(s));
    assert(extends(b, b2));
    assert(cb2.take(ca.len() as int) =~= ca);
    let e2 = evs.push(ev);
    assert forall|j: int| 0 <= j < e2.len() implies event_fields(
        e2[j],
        subject,
        b2,
        #[trigger] cb2.skip(ca.len() as int)[j],
    ) by {
        if j < evs.len() {
            assert(cb2.skip(ca.len() as int)[j] == cb.skip(ca.len() as int)[j]);
            lemma_event_fields_extends(evs[j], subject, b, b2, cb.skip(ca.len() as int)[j]);
        } else {
            assert(cb2.skip(ca.len() as int)[j] == s);
        }
    }
}

/// The records of `cs` that point somewhere, in order.
pub open spec fn with_pointer(cs: Seq<GedcomRecord>) -> Seq<GedcomRecord>
    decreases cs.len(),
{
    if cs.len() == 0 {
        seq![]
    } else {
        with_pointer(cs.drop_last()) + if pointer_of(value_of(cs.last())) is Some {
            seq![cs.last()]
        } else {
            seq![]
        }
    }
}

/// The `SOUR` sub-records of a record that point to a source, in order.
pub open spec fn cited_of(rec: GedcomRecord) -> Seq<GedcomRecord> {
    with_pointer(tagged(rec.children@, "SOUR"@))
}

/// Whether `s` cites the source the `SOUR` sub-record `c` points to (as
/// `srcs` resolves it), with its page, detail and confidence: for `owner`
/// itself, or, given `ev`, for the event step that describes `ev` for
/// `owner`.
pub open spec fn cite_ok(
    c: GedcomRecord,
    ev: Option<GedcomRecord>,
    owner: PlanSubject,
    srcs: Seq<(Vec<char>, usize)>,
    steps: Seq<ImportStep>,
    s: ImportStep,
) -> bool {
    match (s, pointer_of(value_of(c))) {
        (ImportStep::AddCitation { source, subject, page, detail, confidence }, Some(x)) => {
            &&& match ev {
                None => subject == owner,
                Some(e) => subject matches PlanSubject::Event(h) && h < steps.len() && event_fields(
                    e,
                    owner,
                    steps,
                    steps[h as int],
                ),
            }
            &&& lookup(handle_views(srcs), x) == Some(source)
            &&& opt_view(page) == child_value(c, "PAGE"@)
            &&& opt_view(detail) == spec_citation_detail(c)
            &&& confidence == spec_confidence_for_quay(child_value(c, "QUAY"@))
        },
        _ => false,
    }
}

/// Whether the citations of `b` are those of `a` followed by one per link.
pub open spec fn cites_added(
    a: Seq<ImportStep>,
    b: Seq<ImportStep>,
    links: Seq<(GedcomRecord, Option<GedcomRecord>)>,
    owner: PlanSubject,
    srcs: Seq<(Vec<char>, usize)>,
) -> bool {
    let ca = steps_of_kind(a, 5);
    let cb = steps_of_kind(b, 5);
    &&& cb.len() == ca.len() + links.len()
    &&& cb.take(ca.len() as int) == ca
    &&& forall|j: int|
        0 <= j < links.len() ==> cite_ok(links[j].0, links[j].1, owner, srcs, b, #[trigger] cb.skip(ca.len() as int)[j])
}

/// The links of a record's own citations.
pub open spec fn own_cites(rec: GedcomRecord) -> Seq<(GedcomRecord, Option<GedcomRecord>)> {
    Seq::new(cited_of(rec).len(), |j: int| (cited_of(rec)[j], None))
}

/// The links of the citations of each of `evs`, in order.
pub open spec fn event_cites(evs: Seq<GedcomRecord>) -> Seq<(GedcomRecord, Option<GedcomRecord>)>
    decreases evs.len(),
{
    if evs.len() == 0 {
        seq![]
    } else {
        event_cites(evs.drop_last()) + Seq::new(
            cited_of(evs.last()).len(),
            |j: int| (cited_of(evs.last())[j], Some(evs.last())),
        )
    }
}

/// A citation step keeps describing its link as steps are appended.
proof fn lemma_cite_ok_extends(
    c: GedcomRecord,
    ev: Option<GedcomRecord>,
    owner: PlanSubject,
    srcs: Seq<(Vec<char>, usize)>,
    a: Seq<ImportStep>,
    b: Seq<ImportStep>,
    s: ImportStep,
)
    requires
        extends(a, b),
        cite_ok(c, ev, owner, srcs, a, s),
    ensures
        cite_ok(c, ev, owner, srcs, b, s),
{
    if let (ImportStep::AddCitation { subject: PlanSubject::Event(h), .. }, Some(e)) = (s, ev) {
        assert(b[h as int] == a[h as int]);
        lemma_event_fields_extends(e, owner, a, b, a[h as int]);
    }
}

/// Added citations stay in place as steps without a new citation are
/// appended.
proof fn lemma_cites_added_extends(
    a: Seq<ImportStep>,
    b: Seq<ImportStep>,
    b2: Seq<ImportStep>,
    links: Seq<(GedcomRecord, Option<GedcomRecord>)>,
    owner: PlanSubject,
    srcs: Seq<(Vec<char>, usize)>,
)
    requires
        cites_added(a, b, links, owner, srcs),
        extends(b, b2),
        steps_of_kind(b2, 5) == steps_of_kind(b, 5),
    ensures
        cites_added(a, b2, links, owner, srcs),
{
    let ca = steps_of_kind(a, 5);
    let cb = steps_of_kind(b, 5);
    assert forall|j: int| 0 <= j < links.len() implies cite_ok(
        links[j].0,
        links[j].1,
        owner,
        srcs,
        b2,
        #[trigger] cb.skip(ca.len() as int)[j],
    ) by {
        lemma_cite_ok_extends(links[j].0, links[j].1, owner, srcs, b, b2, cb.skip(ca.len() as int)[j]);
    }
}

/// One more citation added, for one more link.
proof fn lemma_cites_added_step(
    a: Seq<ImportStep>,
    b: Seq<ImportStep>,
    links: Seq<(GedcomRecord, Option<GedcomRecord>)>,
    owner: PlanSubject,
    srcs: Seq<(Vec<char>, usize)>,
    link: (GedcomRecord, Option<GedcomRecord>),
    s: ImportStep,
)
    requires
        cites_added(a, b, links, owner, srcs),
        s is AddCitation,
        cite_ok(link.0, link.1, owner, srcs, b.push(s), s),
    ensures
        cites_added(a, b.push(s), links.push(link), owner, srcs),
{
    let b2 = b.push(s);
    let ca = steps_of_kind(a, 5);
    let cb = steps_of_kind(b, 5);
    assert(b2.drop_last() =~= b);
    let cb2 = steps_of_kind(b2, 5);
    assert(cb2 == cb.push(s));
    assert(extends(b, b2));
    assert(cb2.take(ca.len() as int) =~= ca);
    let l2 = links.push(link);
    assert forall|j: int| 0 <= j < l2.len() implies cite_ok(
        l2[j].0,
        l2[j].1,
        owner,
        srcs,
        b2,
        #[trigger] cb2.skip(ca.len() as int)[j],
    ) by {
        if j < links.len() {
            assert(cb2.skip(ca.len() as int)[j] == cb.skip(ca.len() as int)[j]);
            lemma_cite_ok_extends(links[j].0, links[j].1, owner, srcs, b, b2, cb.skip(ca.len() as int)[j]);
        } else {
            assert(cb2.skip(ca.len() as int)[j] == s);
        }
    }
}

/// Citations added in two runs are added in one.
proof fn lemma_cites_added_concat(
    a: Seq<ImportStep>,
    b: Seq<ImportStep>,
    c: Seq<ImportStep>,
    l1: Seq<(GedcomRecord, Option<GedcomRecord>)>,
    l2: Seq<(GedcomRecord, Option<GedcomRecord>)>,
    owner: PlanSubject,
    srcs: Seq<(Vec<char>, usize)>,
)
    requires
        cites_added(a, b, l1, owner, srcs),
        cites_added(b, c, l2, owner, srcs),
        extends(b, c),
    ensures
        cites_added(a, c, l1 + l2, owner, srcs),
{
    let ca = steps_of_kind(a, 5);
    let cb = steps_of_kind(b, 5);
    let cc = steps_of_kind(c, 5);
    let l = l1 + l2;
    assert(cc.take(ca.len() as int) =~= ca) by {
        assert forall|k: int| 0 <= k < ca.len() implies cc.take(ca.len() as int)[k] == ca[k] by {
            assert(cc[k] == cc.take(cb.len() as int)[k]);
            assert(cb[k] == cb.take(ca.len() as int)[k]);
        }
    }
    assert forall|j: int| 0 <= j < l.len() implies cite_ok(
        l[j].0,
        l[j].1,
        owner,
        srcs,
        c,
        #[trigger] cc.skip(ca.len() as int)[j],
    ) by {
        if j < l1.len() {
            assert(cc.skip(ca.len() as int)[j] == cc[ca.len() + j]);
            assert(cc[ca.len() + j] == cc.take(cb.len() as int)[ca.len() + j]);
            assert(cb.skip(ca.len() as int)[j] == cb[ca.len() + j]);
            lemma_cite_ok_extends(l1[j].0, l1[j].1, owner, srcs, b, c, cb.skip(ca.len() as int)[j]);
        } else {
            let j2 = j - l1.len();
            assert(cc.skip(ca.len() as int)[j] == cc.skip(cb.len() as int)[j2]);
            assert(l[j] == l2[j2]);
        }
    }
}

/// Citations for an event, recorded for the event step `h` itself, are
/// citations of that event for its owner.
proof fn lemma_cites_for_event(
    a: Seq<ImportStep>,
    b: Seq<ImportStep>,
    ev: GedcomRecord,
    h: usize,
    owner: PlanSubject,
    srcs: Seq<(Vec<char>, usize)>,
)
    requires
        cites_added(a, b, own_cites(ev), PlanSubject::Event(h), srcs),
        h < b.len(),
        event_fields(ev, owner, b, b[h as int]),
    ensures
        cites_added(
            a,
            b,
            Seq::new(cited_of(ev).len(), |j: int| (cited_of(ev)[j], Some(ev))),
            owner,
            srcs,
        ),
{
    let ca = steps_of_kind(a, 5);
    let cb = steps_of_kind(b, 5);
    let l = Seq::new(cited_of(ev).len(), |j: int| (cited_of(ev)[j], Some(ev)));
    assert forall|j: int| 0 <= j < l.len() implies cite_ok(
        l[j].0,
        l[j].1,
        owner,
        srcs,
        b,
        #[trigger] cb.skip(ca.len() as int)[j],
    ) by {
        assert(cite_ok(own_cites(ev)[j].0, own_cites(ev)[j].1, PlanSubject::Event(h), srcs, b, cb.skip(ca.len() as int)[j]));
    }
}

/// Whether `s` creates the source the `SOUR` record `rec`, with xref `x`,
/// describes.
pub open spec fn drafts_source(rec: GedcomRecord, x: Seq<char>, records: Seq<GedcomRecord>, s: ImportStep) -> bool {
    &&& rec.tag@ == "SOUR"@
    &&& rec.xref matches Some(y) && y@ == x
    &&& s matches ImportStep::CreateSource(d) && source_fields(rec, repo_pairs(records), d)
}

/// Whether step `h` creates the source of a `SOUR` record of `records` with
/// xref `x`.
pub open spec fn source_step(steps: Seq<ImportStep>, records: Seq<GedcomRecord>, x: Seq<char>, h: usize) -> bool {
    &&& h < steps.len()
    &&& exists|j: int| 0 <= j < records.len() && #[trigger] drafts_source(records[j], x, records, steps[h as int])
}

/// Whether each source handle names the step that creates the source of a
/// `SOUR` record with the handle's xref.
pub open spec fn sources_handled(
    m: Seq<(Vec<char>, usize)>,
    steps: Seq<ImportStep>,
    records: Seq<GedcomRecord>,
) -> bool {
    forall|k: int| 0 <= k < m.len() ==> source_step(steps, records, m[k].0@, #[trigger] m[k].1)
}

/// Whether `s` cites the source the `SOUR` sub-record `link.1` points to,
/// with its page, detail and confidence, for the row the record `link.0`
/// creates or, given an event sub-record `link.2`, for the event step that
/// describes it for that row.
pub open spec fn citation_fields(
    link: (GedcomRecord, GedcomRecord, Option<GedcomRecord>),
    records: Seq<GedcomRecord>,
    steps: Seq<ImportStep>,
    s: ImportStep,
) -> bool {
    match (s, pointer_of(value_of(link.1))) {
        (ImportStep::AddCitation { source, subject, page, detail, confidence }, Some(x)) => {
            &&& source_step(steps, records, x, source)
            &&& match link.2 {
                None => owner_ok(link.0, records, steps, subject),
                Some(e) => subject matches PlanSubject::Event(h) && h < steps.len() && (
                steps[h as int] matches ImportStep::AddEvent { subject: os, .. } && owner_ok(
                    link.0,
                    records,
                    steps,
                    os,
                ) && event_fields(e, os, steps, steps[h as int])),
            }
            &&& opt_view(page) == child_value(link.1, "PAGE"@)
            &&& opt_view(detail) == spec_citation_detail(link.1)
            &&& confidence == spec_confidence_for_quay(child_value(link.1, "QUAY"@))
        },
        _ => false,
    }
}

/// Whether the citations a plan adds are, in order, those `links` name.
pub open spec fn citations_drafted(
    links: Seq<(GedcomRecord, GedcomRecord, Option<GedcomRecord>)>,
    records: Seq<GedcomRecord>,
    steps: Seq<ImportStep>,
) -> bool {
    let c = steps_of_kind(steps, 5);
    &&& c.len() == links.len()
    &&& forall|k: int| 0 <= k < c.len() ==> citation_fields(links[k], records, steps, #[trigger] c[k])
}

/// A record's citations: those of its events, in order, then its own.
pub open spec fn record_cites(rec: GedcomRecord) -> Seq<(GedcomRecord, GedcomRecord, Option<GedcomRecord>)> {
    let l = event_cites(events_of(rec.children@, rec.tag@ == "FAM"@)) + own_cites(rec);
    Seq::new(l.len(), |j: int| (rec, l[j].0, l[j].1))
}

/// The citations of the records tagged `t`, in order.
pub open spec fn cite_links(records: Seq<GedcomRecord>, t: Seq<char>) -> Seq<(GedcomRecord, GedcomRecord, Option<GedcomRecord>)>
    decreases records.len(),
{
    if records.len() == 0 {
        seq![]
    } else {
        cite_links(records.drop_last(), t) + if records.last().tag@ == t {
            record_cites(records.last())
        } else {
            seq![]
        }
    }
}

/// A source step keeps creating its source as steps are appended.
proof fn lemma_source_step_extends(
    a: Seq<ImportStep>,
    b: Seq<ImportStep>,
    records: Seq<GedcomRecord>,
    x: Seq<char>,
    h: usize,
)
    requires
        extends(a, b),
        source_step(a, records, x, h),
    ensures
        source_step(b, records, x, h),
{
    let j = choose|j: int| 0 <= j < records.len() && #[trigger] drafts_source(records[j], x, records, a[h as int]);
    assert(b[h as int] == a[h as int]);
    assert(drafts_source(records[j], x, records, b[h as int]));
}

/// Source handles stay valid as steps are appended.
proof fn lemma_sources_handled_extends(
    m: Seq<(Vec<char>, usize)>,
    a: Seq<ImportStep>,
    b: Seq<ImportStep>,
    records: Seq<GedcomRecord>,
)
    requires
        extends(a, b),
        sources_handled(m, a, records),
    ensures
        sources_handled(m, b, records),
{
    assert forall|k: int| 0 <= k < m.len() implies source_step(b, records, m[k].0@, #[trigger] m[k].1) by {
        lemma_source_step_extends(a, b, records, m[k].0@, m[k].1);
    }
}

/// A citation step keeps describing its link as steps are appended.
proof fn lemma_citation_fields_extends(
    link: (GedcomRecord, GedcomRecord, Option<GedcomRecord>),
    records: Seq<GedcomRecord>,
    a: Seq<ImportStep>,
    b: Seq<ImportStep>,
    s: ImportStep,
)
    requires
        extends(a, b),
        citation_fields(link, records, a, s),
    ensures
        citation_fields(link, records, b, s),
{
    if let (ImportStep::AddCitation { source, subject, .. }, Some(x)) = (s, pointer_of(value_of(link.1))) {
        lemma_source_step_extends(a, b, records, x, source);
        match link.2 {
            None => lemma_owner_extends(link.0, records, a, b, subject),
            Some(e) => {
                if let PlanSubject::Event(h) = subject {
                    assert(b[h as int] == a[h as int]);
                    if let ImportStep::AddEvent { subject: os, .. } = a[h as int] {
                        lemma_owner_extends(link.0, records, a, b, os);
                        lemma_event_fields_extends(e, os, a, b, a[h as int]);
                    }
                }
            },
        }
    }
}

/// The citations a plan adds keep describing their links as steps without a
/// new citation are appended.
proof fn lemma_citations_drafted_extends(
    links: Seq<(GedcomRecord, GedcomRecord, Option<GedcomRecord>)>,
    records: Seq<GedcomRecord>,
    a: Seq<ImportStep>,
    b: Seq<ImportStep>,
)
    requires
        extends(a, b),
        steps_of_kind(b, 5) == steps_of_kind(a, 5),
        citations_drafted(links, records, a),
    ensures
        citations_drafted(links, records, b),
{
    let c = steps_of_kind(a, 5);
    assert forall|k: int| 0 <= k < c.len() implies citation_fields(links[k], records, b, #[trigger] c[k]) by {
        lemma_citation_fields_extends(links[k], records, a, b, c[k]);
    }
}

/// Citations added for the row a record creates follow the citations already
/// drafted.
proof fn lemma_citations_append(
    links: Seq<(GedcomRecord, GedcomRecord, Option<GedcomRecord>)>,
    records: Seq<GedcomRecord>,
    a: Seq<ImportStep>,
    b: Seq<ImportStep>,
    rec: GedcomRecord,
    owner: PlanSubject,
    hl: Seq<(GedcomRecord, Option<GedcomRecord>)>,
    srcs: Seq<(Vec<char>, usize)>,
)
    requires
        extends(a, b),
        citations_drafted(links, records, a),
        cites_added(a, b, hl, owner, srcs),
        owner_ok(rec, records, a, owner),
        sources_handled(srcs, a, records),
    ensures
        citations_drafted(links + Seq::new(hl.len(), |j: int| (rec, hl[j].0, hl[j].1)), records, b),
{
    let ca = steps_of_kind(a, 5);
    let cb = steps_of_kind(b, 5);
    let nl = Seq::new(hl.len(), |j: int| (rec, hl[j].0, hl[j].1));
    let ln = links + nl;
    lemma_owner_extends(rec, records, a, b, owner);
    lemma_sources_handled_extends(srcs, a, b, records);
    assert forall|k: int| 0 <= k < cb.len() implies citation_fields(ln[k], records, b, #[trigger] cb[k]) by {
        if k < ca.len() {
            assert(cb[k] == cb.take(ca.len() as int)[k]);
            assert(ln[k] == links[k]);
            lemma_citation_fields_extends(links[k], records, a, b, ca[k]);
        } else {
            let j = k - ca.len();
            assert(cb.skip(ca.len() as int)[j] == cb[k]);
            assert(cite_ok(hl[j].0, hl[j].1, owner, srcs, b, cb[k]));
            assert(ln[k] == nl[j]);
            if let (ImportStep::AddCitation { source, .. }, Some(x)) = (cb[k], pointer_of(value_of(hl[j].0))) {
                lemma_lookup_entry(srcs, x, source);
                let kk = choose|kk: int| 0 <= kk < srcs.len() && srcs[kk].0@ == x && #[trigger] srcs[kk].1 == source;
                assert(source_step(b, records, srcs[kk].0@, srcs[kk].1));
            }
        }
    }
}

/// The subject a media link step links, if it is one.
pub open spec fn link_subject(s: ImportStep) -> Option<PlanSubject> {
    match s {
        ImportStep::LinkMedia { subject, .. } => Some(subject),
        _ => None,
    }
}

/// Whether the `k`-th of `c` is the first to link its subject.
pub open spec fn first_link(c: Seq<ImportStep>, k: int) -> bool {
    forall|k2: int| 0 <= k2 < k ==> link_subject(#[trigger] c[k2]) != link_subject(c[k])
}

/// Whether `s` links to `subject` the media file of the `OBJE` sub-record
/// `o`: the object its pointer names (as `mm` resolves it), or the file an
/// inline object creates; primary as `primary` says.
pub open spec fn link_ok(
    o: GedcomRecord,
    subject: PlanSubject,
    mm: Seq<(Vec<char>, usize)>,
    steps: Seq<ImportStep>,
    s: ImportStep,
    primary: bool,
) -> bool {
    match s {
        ImportStep::LinkMedia { media, subject: sj, is_primary } => {
            &&& sj == subject
            &&& is_primary == primary
            &&& media < steps.len()
            &&& match pointer_of(value_of(o)) {
                Some(x) => lookup(handle_views(mm), x) == Some(media),
                None => steps[media as int] matches ImportStep::CreateMedia(d) && media_fields(o, d),
            }
        },
        _ => false,
    }
}

/// Whether the media links of `b` are those of `a` followed by one per
/// object of `objs` for `subject`, the first primary unless `seen`.
pub open spec fn links_added(
    a: Seq<ImportStep>,
    b: Seq<ImportStep>,
    objs: Seq<GedcomRecord>,
    subject: PlanSubject,
    mm: Seq<(Vec<char>, usize)>,
    seen: bool,
) -> bool {
    let ca = steps_of_kind(a, 8);
    let cb = steps_of_kind(b, 8);
    &&& cb.len() == ca.len() + objs.len()
    &&& cb.take(ca.len() as int) == ca
    &&& forall|j: int|
        0 <= j < objs.len() ==> link_ok(objs[j], subject, mm, b, #[trigger] cb.skip(ca.len() as int)[j], j == 0 && !seen)
}

/// A link step keeps describing its object as steps are appended.
proof fn lemma_link_ok_extends(
    o: GedcomRecord,
    subject: PlanSubject,
    mm: Seq<(Vec<char>, usize)>,
    a: Seq<ImportStep>,
    b: Seq<ImportStep>,
    s: ImportStep,
    primary: bool,
)
    requires
        extends(a, b),
        link_ok(o, subject, mm, a, s, primary),
    ensures
        link_ok(o, subject, mm, b, s, primary),
{
    if let ImportStep::LinkMedia { media, .. } = s {
        assert(b[media as int] == a[media as int]);
    }
}

/// Added links stay in place as steps without a new link are appended.
proof fn lemma_links_added_extends(
    a: Seq<ImportStep>,
    b: Seq<ImportStep>,
    b2: Seq<ImportStep>,
    objs: Seq<GedcomRecord>,
    subject: PlanSubject,
    mm: Seq<(Vec<char>, usize)>,
    seen: bool,
)
    requires
        links_added(a, b, objs, subject, mm, seen),
        extends(b, b2),
        steps_of_kind(b2, 8) == steps_of_kind(b, 8),
    ensures
        links_added(a, b2, objs, subject, mm, seen),
{
    let ca = steps_of_kind(a, 8);
    let cb = steps_of_kind(b, 8);
    assert forall|j: int| 0 <= j < objs.len() implies link_ok(
        objs[j],
        subject,
        mm,
        b2,
        #[trigger] cb.skip(ca.len() as int)[j],
        j == 0 && !seen,
    ) by {
        lemma_link_ok_extends(objs[j], subject, mm, b, b2, cb.skip(ca.len() as int)[j], j == 0 && !seen);
    }
}

/// One more link added, for one more object.
proof fn lemma_links_added_step(
    a: Seq<ImportStep>,
    b: Seq<ImportStep>,
    objs: Seq<GedcomRecord>,
    subject: PlanSubject,
    mm: Seq<(Vec<char>, usize)>,
    seen: bool,
    o: GedcomRecord,
    s: ImportStep,
)
    requires
        links_added(a, b, objs, subject, mm, seen),
        s is LinkMedia,
        link_ok(o, subject, mm, b.push(s), s, objs.len() == 0 && !seen),
    ensures
        links_added(a, b.push(s), objs.push(o), subject, mm, seen),
{
    let b2 = b.push(s);
    let ca = steps_of_kind(a, 8);
    let cb = steps_of_kind(b, 8);
    assert(b2.drop_last() =~= b);
    let cb2 = steps_of_kind(b2, 8);
    assert(cb2 == cb.push(s));
    assert(extends(b, b2));
    assert(cb2.take(ca.len() as int) =~= ca);
    let o2 = objs.push(o);
    assert forall|j: int| 0 <= j < o2.len() implies link_ok(
        o2[j],
        subject,
        mm,
        b2,
        #[trigger] cb2.skip(ca.len() as int)[j],
        j == 0 && !seen,
    ) by {
        if j < objs.len() {
            assert(cb2.skip(ca.len() as int)[j] == cb.skip(ca.len() as int)[j]);
            lemma_link_ok_extends(objs[j], subject, mm, b, b2, cb.skip(ca.len() as int)[j], j == 0 && !seen);
        } else {
            assert(cb2.skip(ca.len() as int)[j] == s);
        }
    }
}

/// Whether `s` creates the media file the top-level `OBJE` record `rec`,
/// with xref `x`, describes.
pub open spec fn drafts_media(rec: GedcomRecord, x: Seq<char>, s: ImportStep) -> bool {
    &&& rec.tag@ == "OBJE"@
    &&& rec.xref matches Some(y) && y@ == x
    &&& s matches ImportStep::CreateMedia(d) && media_fields(rec, d)
}

/// Whether step `h` creates the media file of a top-level `OBJE` record of
/// `records` with xref `x`.
pub open spec fn media_step(steps: Seq<ImportStep>, records: Seq<GedcomRecord>, x: Seq<char>, h: usize) -> bool {
    &&& h < steps.len()
    &&& exists|j: int| 0 <= j < records.len() && #[trigger] drafts_media(records[j], x, steps[h as int])
}

/// Whether each media handle names the step that creates the media file of
/// an `OBJE` record with the handle's xref.
pub open spec fn media_handled(m: Seq<(Vec<char>, usize)>, steps: Seq<ImportStep>, records: Seq<GedcomRecord>) -> bool {
    forall|k: int| 0 <= k < m.len() ==> media_step(steps, records, m[k].0@, #[trigger] m[k].1)
}

/// A record's `OBJE` sub-records, each with the record.
pub open spec fn record_objects(rec: GedcomRecord) -> Seq<(GedcomRecord, GedcomRecord)> {
    let os = tagged(rec.children@, "OBJE"@);
    Seq::new(os.len(), |j: int| (rec, os[j]))
}

/// The `OBJE` sub-records of the individual and family records with an
/// xref, in record order, each with its record.
pub open spec fn object_links(records: Seq<GedcomRecord>) -> Seq<(GedcomRecord, GedcomRecord)>
    decreases records.len(),
{
    if records.len() == 0 {
        seq![]
    } else {
        let rec = records.last();
        object_links(records.drop_last()) + if (rec.tag@ == "INDI"@ || rec.tag@ == "FAM"@) && rec.xref is Some {
            record_objects(rec)
        } else {
            seq![]
        }
    }
}

/// Whether `s` links the media file of the `OBJE` sub-record `link.1` to the
/// row of its record `link.0`: the object its pointer names, or the file an
/// inline object creates.
pub open spec fn link_fields(
    link: (GedcomRecord, GedcomRecord),
    records: Seq<GedcomRecord>,
    steps: Seq<ImportStep>,
    s: ImportStep,
) -> bool {
    match s {
        ImportStep::LinkMedia { media, subject, .. } => {
            &&& match (subject, link.0.xref) {
                (PlanSubject::Individual(h), Some(x)) => link.0.tag@ == "INDI"@ && indi_step(steps, records, x@, h),
                (PlanSubject::Family(h), Some(x)) => link.0.tag@ == "FAM"@ && fam_step(steps, records, x@, h),
                _ => false,
            }
            &&& media < steps.len()
            &&& match pointer_of(value_of(link.1)) {
                Some(x) => media_step(steps, records, x, media),
                None => steps[media as int] matches ImportStep::CreateMedia(d) && media_fields(link.1, d),
            }
        },
        _ => false,
    }
}

/// Whether the media links a plan adds are, in order, those `links` name,
/// each primary exactly when it is the first for its subject.
pub open spec fn links_drafted(
    links: Seq<(GedcomRecord, GedcomRecord)>,
    records: Seq<GedcomRecord>,
    steps: Seq<ImportStep>,
) -> bool {
    let c = steps_of_kind(steps, 8);
    &&& c.len() == links.len()
    &&& forall|k: int|
        0 <= k < c.len() ==> link_fields(links[k], records, steps, #[trigger] c[k]) && (c[k] matches ImportStep::LinkMedia {
            is_primary,
            ..
        } && is_primary == first_link(c, k))
}

/// Whether the subjects marked primary are exactly those linked so far.
pub open spec fn primaried_ok(prim: Seq<PlanSubject>, steps: Seq<ImportStep>) -> bool {
    let c = steps_of_kind(steps, 8);
    forall|subj: PlanSubject| #[trigger] prim.contains(subj) == exists|k: int| 0 <= k < c.len() && link_subject(c[k]) == Some(subj)
}

/// A media step keeps creating its file as steps are appended.
proof fn lemma_media_step_extends(
    a: Seq<ImportStep>,
    b: Seq<ImportStep>,
    records: Seq<GedcomRecord>,
    x: Seq<char>,
    h: usize,
)
    requires
        extends(a, b),
        media_step(a, records, x, h),
    ensures
        media_step(b, records, x, h),
{
    let j = choose|j: int| 0 <= j < records.len() && #[trigger] drafts_media(records[j], x, a[h as int]);
    assert(b[h as int] == a[h as int]);
    assert(drafts_media(records[j], x, b[h as int]));
}

/// Media handles stay valid as steps are appended.
proof fn lemma_media_handled_extends(
    m: Seq<(Vec<char>, usize)>,
    a: Seq<ImportStep>,
    b: Seq<ImportStep>,
    records: Seq<GedcomRecord>,
)
    requires
        extends(a, b),
        media_handled(m, a, records),
    ensures
        media_handled(m, b, records),
{
    assert forall|k: int| 0 <= k < m.len() implies media_step(b, records, m[k].0@, #[trigger] m[k].1) by {
        lemma_media_step_extends(a, b, records, m[k].0@, m[k].1);
    }
}

/// A link step keeps describing its object as steps are appended.
proof fn lemma_link_fields_extends(
    link: (GedcomRecord, GedcomRecord),
    records: Seq<GedcomRecord>,
    a: Seq<ImportStep>,
    b: Seq<ImportStep>,
    s: ImportStep,
)
    requires
        extends(a, b),
        link_fields(link, records, a, s),
    ensures
        link_fields(link, records, b, s),
{
    if let ImportStep::LinkMedia { media, subject, .. } = s {
        assert(b[media as int] == a[media as int]);
        match (subject, link.0.xref) {
            (PlanSubject::Individual(h), Some(x)) => lemma_indi_step_extends(a, b, records, x@, h),
            (PlanSubject::Family(h), Some(x)) => lemma_fam_step_extends(a, b, records, x@, h),
            _ => {},
        }
        if let Some(x) = pointer_of(value_of(link.1)) {
            lemma_media_step_extends(a, b, records, x, media);
        }
    }
}

/// The media links a plan adds keep describing their objects as steps
/// without a new link are appended.
proof fn lemma_links_drafted_extends(
    links: Seq<(GedcomRecord, GedcomRecord)>,
    records: Seq<GedcomRecord>,
    a: Seq<ImportStep>,
    b: Seq<ImportStep>,
)
    requires
        extends(a, b),
        steps_of_kind(b, 8) == steps_of_kind(a, 8),
        links_drafted(links, records, a),
    ensures
        links_drafted(links, records, b),
{
    let c = steps_of_kind(a, 8);
    assert forall|k: int| 0 <= k < c.len() implies link_fields(links[k], records, b, #[trigger] c[k]) by {
        lemma_link_fields_extends(links[k], records, a, b, c[k]);
    }
}

/// A record's media links, added for its row, follow the links already
/// drafted; the subjects marked primary now include its row when it had any.
#[verifier::spinoff_prover]
#[verifier::rlimit(50)]
proof fn lemma_links_append(
    links: Seq<(GedcomRecord, GedcomRecord)>,
    records: Seq<GedcomRecord>,
    a: Seq<ImportStep>,
    b: Seq<ImportStep>,
    rec: GedcomRecord,
    subject: PlanSubject,
    mm: Seq<(Vec<char>, usize)>,
    prim: Seq<PlanSubject>,
)
    requires
        extends(a, b),
        links_drafted(links, records, a),
        primaried_ok(prim, a),
        links_added(a, b, tagged(rec.children@, "OBJE"@), subject, mm, prim.contains(subject)),
        media_handled(mm, a, records),
        match (subject, rec.xref) {
            (PlanSubject::Individual(h), Some(x)) => rec.tag@ == "INDI"@ && indi_step(a, records, x@, h),
            (PlanSubject::Family(h), Some(x)) => rec.tag@ == "FAM"@ && fam_step(a, records, x@, h),
            _ => false,
        },
    ensures
        links_drafted(links + record_objects(rec), records, b),
        primaried_ok(
            if tagged(rec.children@, "OBJE"@).len() > 0 && !prim.contains(subject) {
                prim.push(subject)
            } else {
                prim
            },
            b,
        ),
{
    let ca = steps_of_kind(a, 8);
    let cb = steps_of_kind(b, 8);
    let os = tagged(rec.children@, "OBJE"@);
    let ro = record_objects(rec);
    let ln = links + ro;
    let seen = prim.contains(subject);
    lemma_media_handled_extends(mm, a, b, records);
    match (subject, rec.xref) {
        (PlanSubject::Individual(h), Some(x)) => lemma_indi_step_extends(a, b, records, x@, h),
        (PlanSubject::Family(h), Some(x)) => lemma_fam_step_extends(a, b, records, x@, h),
        _ => {},
    }
    assert forall|k: int| 0 <= k < cb.len() implies link_fields(ln[k], records, b, #[trigger] cb[k]) && (
    cb[k] matches ImportStep::LinkMedia { is_primary, .. } && is_primary == first_link(cb, k)) by {
        if k < ca.len() {
            assert(cb[k] == cb.take(ca.len() as int)[k]);
            assert(cb[k] == ca[k]);
            assert(ln[k] == links[k]);
            lemma_link_fields_extends(links[k], records, a, b, ca[k]);
            assert forall|k2: int| 0 <= k2 < k implies #[trigger] cb[k2] == ca[k2] by {
                assert(cb[k2] == cb.take(ca.len() as int)[k2]);
            }
            assert(first_link(cb, k) == first_link(ca, k));
        } else {
            let j = k - ca.len();
            assert(cb.skip(ca.len() as int)[j] == cb[k]);
            assert(link_ok(os[j], subject, mm, b, cb[k], j == 0 && !seen));
            assert(ln[k] == ro[j]);
            if let ImportStep::LinkMedia { media, .. } = cb[k] {
                if let Some(x) = pointer_of(value_of(os[j])) {
                    lemma_lookup_entry(mm, x, media);
                    let kk = choose|kk: int| 0 <= kk < mm.len() && mm[kk].0@ == x && #[trigger] mm[kk].1 == media;
                    assert(media_step(b, records, mm[kk].0@, mm[kk].1));
                }
            }
            if j == 0 {
                if seen {
                    let kk = choose|kk: int| 0 <= kk < ca.len() && link_subject(ca[kk]) == Some(subject);
                    assert(cb[kk] == cb.take(ca.len() as int)[kk]);
                    assert(link_subject(cb[kk]) == link_subject(cb[k]));
                } else {
                    assert forall|k2: int| 0 <= k2 < k implies link_subject(#[trigger] cb[k2]) != link_subject(cb[k]) by {
                        assert(cb[k2] == cb.take(ca.len() as int)[k2]);
                        assert(!(exists|kk: int| 0 <= kk < ca.len() && link_subject(ca[kk]) == Some(subject)));
                        assert(link_subject(ca[k2]) != Some(subject));
                    }
                }
            } else {
                let k0 = ca.len() as int;
                assert(cb.skip(ca.len() as int)[0] == cb[k0]);
                assert(link_ok(os[0], subject, mm, b, cb[k0], !seen));
                assert(link_subject(cb[k0]) == link_subject(cb[k]));
            }
        }
    }
    let np = if os.len() > 0 && !seen {
        prim.push(subject)
    } else {
        prim
    };
    assert forall|subj: PlanSubject| #[trigger] np.contains(subj) == exists|k: int|
        0 <= k < cb.len() && link_subject(cb[k]) == Some(subj) by {
        if np.contains(subj) {
            if prim.contains(subj) {
                let kk = choose|kk: int| 0 <= kk < ca.len() && link_subject(ca[kk]) == Some(subj);
                assert(cb[kk] == cb.take(ca.len() as int)[kk]);
            } else {
                assert(subj == subject);
                let k0 = ca.len() as int;
                assert(cb.skip(ca.len() as int)[0] == cb[k0]);
                assert(link_ok(os[0], subject, mm, b, cb[k0], !seen));
                assert(link_subject(cb[k0]) == Some(subj));
            }
        } else {
            assert(!prim.contains(subj)) by {
                if prim.contains(subj) {
                    let i = choose|i: int| 0 <= i < prim.len() && prim[i] == subj;
                    if os.len() > 0 && !seen {
                        assert(np[i] == subj);
                    }
                }
            }
            assert(!(exists|kk: int| 0 <= kk < ca.len() && link_subject(ca[kk]) == Some(subj)));
            assert forall|k: int| 0 <= k < cb.len() implies link_subject(cb[k]) != Some(subj) by {
                if k < ca.len() {
                    assert(cb[k] == cb.take(ca.len() as int)[k]);
                    assert(link_subject(ca[k]) != Some(subj));
                } else {
                    let j = k - ca.len();
                    assert(cb.skip(ca.len() as int)[j] == cb[k]);
                    assert(link_ok(os[j], subject, mm, b, cb[k], j == 0 && !seen));
                    assert(link_subject(cb[k]) == Some(subject));
                    if os.len() > 0 && !seen {
                        assert(np[np.len() - 1] == subject);
                        assert(np.contains(subject));
                    } else {
                        assert(prim.contains(subject));
                    }
                    assert(subj != subject);
                }
            }
        }
    }
}

/// Whether `subject` names the step that creates the record `owner`.
pub open spec fn owner_ok(
    owner: GedcomRecord,
    records: Seq<GedcomRecord>,
    steps: Seq<ImportStep>,
    subject: PlanSubject,
) -> bool {
    match (subject, owner.xref) {
        (PlanSubject::Individual(h), Some(x)) => h < steps.len() && drafts_indi(owner, x@, steps[h as int]),
        (PlanSubject::Family(h), Some(x)) => h < steps.len() && drafts_fam(
            owner,
            x@,
            records,
            steps,
            steps[h as int],
        ),
        _ => false,
    }
}

/// A record's event sub-records, each with the record.
pub open spec fn record_events(rec: GedcomRecord) -> Seq<(GedcomRecord, GedcomRecord)> {
    let evs = events_of(rec.children@, rec.tag@ == "FAM"@);
    Seq::new(evs.len(), |j: int| (rec, evs[j]))
}

/// The event sub-records of the records tagged `t`, in order, each with its
/// record.
pub open spec fn event_links(records: Seq<GedcomRecord>, t: Seq<char>) -> Seq<(GedcomRecord, GedcomRecord)>
    decreases records.len(),
{
    if records.len() == 0 {
        seq![]
    } else {
        event_links(records.drop_last(), t) + if records.last().tag@ == t {
            record_events(records.last())
        } else {
            seq![]
        }
    }
}

/// Whether the events a plan adds are, in order, those `links` name, each
/// for the row its record creates.
pub open spec fn events_drafted(
    links: Seq<(GedcomRecord, GedcomRecord)>,
    records: Seq<GedcomRecord>,
    steps: Seq<ImportStep>,
) -> bool {
    let c = steps_of_kind(steps, 4);
    &&& c.len() == links.len()
    &&& forall|k: int|
        0 <= k < c.len() ==> (#[trigger] c[k] matches ImportStep::AddEvent { subject, .. } && owner_ok(
            links[k].0,
            records,
            steps,
            subject,
        ) && event_fields(links[k].1, subject, steps, c[k]))
}

/// An owner keeps naming its row as steps are appended.
proof fn lemma_owner_extends(
    owner: GedcomRecord,
    records: Seq<GedcomRecord>,
    a: Seq<ImportStep>,
    b: Seq<ImportStep>,
    subject: PlanSubject,
)
    requires
        extends(a, b),
        owner_ok(owner, records, a, subject),
    ensures
        owner_ok(owner, records, b, subject),
{
    match subject {
        PlanSubject::Individual(h) => {
            assert(b[h as int] == a[h as int]);
        },
        PlanSubject::Family(h) => {
            assert(b[h as int] == a[h as int]);
            lemma_family_fields_extends(owner, records, a, b, a[h as int]);
        },
        _ => {},
    }
}

/// The events a plan adds keep describing their links as steps without a
/// new event are appended.
proof fn lemma_events_drafted_extends(
    links: Seq<(GedcomRecord, GedcomRecord)>,
    records: Seq<GedcomRecord>,
    a: Seq<ImportStep>,
    b: Seq<ImportStep>,
)
    requires
        extends(a, b),
        steps_of_kind(b, 4) == steps_of_kind(a, 4),
        events_drafted(links, records, a),
    ensures
        events_drafted(links, records, b),
{
    let c = steps_of_kind(a, 4);
    assert forall|k: int| 0 <= k < c.len() implies (#[trigger] c[k] matches ImportStep::AddEvent { subject, .. }
        && owner_ok(links[k].0, records, b, subject) && event_fields(links[k].1, subject, b, c[k])) by {
        if let ImportStep::AddEvent { subject, .. } = c[k] {
            lemma_owner_extends(links[k].0, records, a, b, subject);
            lemma_event_fields_extends(links[k].1, subject, a, b, c[k]);
        }
    }
}

/// A record's events, added for the row it creates, follow the events
/// already drafted.
proof fn lemma_events_drafted_append(
    links: Seq<(GedcomRecord, GedcomRecord)>,
    records: Seq<GedcomRecord>,
    a: Seq<ImportStep>,
    b: Seq<ImportStep>,
    rec: GedcomRecord,
    subject: PlanSubject,
)
    requires
        extends(a, b),
        events_drafted(links, records, a),
        events_added(a, b, events_of(rec.children@, rec.tag@ == "FAM"@), subject),
        owner_ok(rec, records, a, subject),
    ensures
        events_drafted(links + record_events(rec), records, b),
{
    let ca = steps_of_kind(a, 4);
    let cb = steps_of_kind(b, 4);
    let evs = events_of(rec.children@, rec.tag@ == "FAM"@);
    let re = record_events(rec);
    let ln = links + re;
    lemma_owner_extends(rec, records, a, b, subject);
    assert forall|k: int| 0 <= k < cb.len() implies (#[trigger] cb[k] matches ImportStep::AddEvent { subject, .. }
        && owner_ok(ln[k].0, records, b, subject) && event_fields(ln[k].1, subject, b, cb[k])) by {
        if k < ca.len() {
            assert(cb[k] == cb.take(ca.len() as int)[k]);
            assert(cb[k] == ca[k]);
            assert(ln[k] == links[k]);
            if let ImportStep::AddEvent { subject: sj, .. } = ca[k] {
                lemma_owner_extends(links[k].0, records, a, b, sj);
                lemma_event_fields_extends(links[k].1, sj, a, b, ca[k]);
            }
        } else {
            let j = k - ca.len();
            assert(cb.skip(ca.len() as int)[j] == cb[k]);
            assert(event_fields(evs[j], subject, b, cb.skip(ca.len() as int)[j]));
            assert(ln[k] == re[j]);
        }
    }
}

/// A record's alternate names: its `NAME` sub-records but the primary one.
pub open spec fn alternate_names(rec: GedcomRecord) -> Seq<GedcomRecord> {
    let names = tagged(rec.children@, "NAME"@);
    if names.len() == 0 {
        seq![]
    } else {
        names.remove(primary_index(names))
    }
}

/// An individual record's alternate names, each with its position.
pub open spec fn record_names(rec: GedcomRecord) -> Seq<(GedcomRecord, GedcomRecord, int)> {
    let alts = alternate_names(rec);
    Seq::new(alts.len(), |j: int| (rec, alts[j], j))
}

/// The alternate names of the individual records, in order.
pub open spec fn name_links(records: Seq<GedcomRecord>) -> Seq<(GedcomRecord, GedcomRecord, int)>
    decreases records.len(),
{
    if records.len() == 0 {
        seq![]
    } else {
        name_links(records.drop_last()) + if records.last().tag@ == "INDI"@ {
            record_names(records.last())
        } else {
            seq![]
        }
    }
}

/// Whether `s` adds the alternate name a link names to the individual its
/// record creates: its kind from `TYPE`, its parts, and its position as the
/// order.
pub open spec fn name_fields(
    link: (GedcomRecord, GedcomRecord, int),
    steps: Seq<ImportStep>,
    s: ImportStep,
) -> bool {
    match (s, link.0.xref) {
        (
            ImportStep::AddName {
                individual,
                kind,
                given_name,
                surname,
                name_prefix,
                name_suffix,
                sort_order,
            },
            Some(x),
        ) => {
            &&& individual < steps.len()
            &&& drafts_indi(link.0, x@, steps[individual as int])
            &&& kind == spec_name_kind_for_type(child_value(link.1, "TYPE"@))
            &&& opt_view(given_name) == spec_given(link.1)
            &&& opt_view(surname) == spec_surname(link.1)
            &&& opt_view(name_prefix) == child_value(link.1, "NPFX"@)
            &&& opt_view(name_suffix) == child_value(link.1, "NSFX"@)
            &&& sort_order == if link.2 <= i64::MAX {
                link.2
            } else {
                i64::MAX as int
            }
        },
        _ => false,
    }
}

/// Whether the alternate names a plan adds are, in order, those `links` name.
pub open spec fn names_drafted(links: Seq<(GedcomRecord, GedcomRecord, int)>, steps: Seq<ImportStep>) -> bool {
    let c = steps_of_kind(steps, 2);
    &&& c.len() == links.len()
    &&& forall|k: int| 0 <= k < c.len() ==> name_fields(links[k], steps, #[trigger] c[k])
}

/// A name step keeps naming its link as steps are appended.
proof fn lemma_name_fields_extends(
    link: (GedcomRecord, GedcomRecord, int),
    a: Seq<ImportStep>,
    b: Seq<ImportStep>,
    s: ImportStep,
)
    requires
        extends(a, b),
        name_fields(link, a, s),
    ensures
        name_fields(link, b, s),
{
    if let ImportStep::AddName { individual, .. } = s {
        assert(b[individual as int] == a[individual as int]);
    }
}

/// The names a plan adds keep naming their links as steps without a new name
/// are appended.
proof fn lemma_names_extends(links: Seq<(GedcomRecord, GedcomRecord, int)>, a: Seq<ImportStep>, b: Seq<ImportStep>)
    requires
        extends(a, b),
        steps_of_kind(b, 2) == steps_of_kind(a, 2),
        names_drafted(links, a),
    ensures
        names_drafted(links, b),
{
    let c = steps_of_kind(a, 2);
    assert forall|k: int| 0 <= k < c.len() implies name_fields(links[k], b, #[trigger] c[k]) by {
        lemma_name_fields_extends(links[k], a, b, c[k]);
    }
}

/// A step keeps creating the same family as steps are appended.
proof fn lemma_fam_step_extends(
    a: Seq<ImportStep>,
    b: Seq<ImportStep>,
    records: Seq<GedcomRecord>,
    x: Seq<char>,
    h: usize,
)
    requires
        extends(a, b),
        fam_step(a, records, x, h),
    ensures
        fam_step(b, records, x, h),
{
    let j = choose|j: int| 0 <= j < records.len() && #[trigger] drafts_fam(records[j], x, records, a, a[h as int]);
    assert(b[h as int] == a[h as int]);
    lemma_family_fields_extends(records[j], records, a, b, a[h as int]);
    assert(drafts_fam(records[j], x, records, b, b[h as int]));
}

/// Family handles stay valid as steps are appended.
proof fn lemma_families_handled_extends(
    m: Seq<(Vec<char>, usize)>,
    a: Seq<ImportStep>,
    b: Seq<ImportStep>,
    records: Seq<GedcomRecord>,
)
    requires
        extends(a, b),
        families_handled(m, a, records),
    ensures
        families_handled(m, b, records),
{
    assert forall|k: int| 0 <= k < m.len() implies fam_step(b, records, m[k].0@, #[trigger] m[k].1) by {
        lemma_fam_step_extends(a, b, records, m[k].0@, m[k].1);
    }
}

/// A child step keeps naming its link as steps are appended.
proof fn lemma_child_fields_extends(
    link: (GedcomRecord, GedcomRecord, int),
    records: Seq<GedcomRecord>,
    a: Seq<ImportStep>,
    b: Seq<ImportStep>,
    s: ImportStep,
)
    requires
        extends(a, b),
        child_fields(link, records, a, s),
    ensures
        child_fields(link, records, b, s),
{
    if let (ImportStep::AddChild { family, child, .. }, Some(fx), Some(x)) = (s, link.0.xref, pointer_of(value_of(link.1))) {
        lemma_fam_step_extends(a, b, records, fx@, family);
        lemma_indi_step_extends(a, b, records, x, child);
    }
}

/// A step keeps creating the same individual as steps are appended.
proof fn lemma_indi_step_extends(
    a: Seq<ImportStep>,
    b: Seq<ImportStep>,
    records: Seq<GedcomRecord>,
    x: Seq<char>,
    h: usize,
)
    requires
        extends(a, b),
        indi_step(a, records, x, h),
    ensures
        indi_step(b, records, x, h),
{
    let j = choose|j: int| 0 <= j < records.len() && #[trigger] drafts_indi(records[j], x, a[h as int]);
    assert(b[h as int] == a[h as int]);
    assert(drafts_indi(records[j], x, b[h as int]));
}

/// Individual handles stay valid as steps are appended.
proof fn lemma_persons_extends(
    m: Seq<(Vec<char>, usize)>,
    a: Seq<ImportStep>,
    b: Seq<ImportStep>,
    records: Seq<GedcomRecord>,
)
    requires
        extends(a, b),
        persons_drafted(m, a, records),
    ensures
        persons_drafted(m, b, records),
{
    assert forall|k: int| 0 <= k < m.len() implies indi_step(b, records, m[k].0@, #[trigger] m[k].1) by {
        lemma_indi_step_extends(a, b, records, m[k].0@, m[k].1);
    }
}

/// A family step keeps describing its record as steps are appended.
proof fn lemma_family_fields_extends(
    rec: GedcomRecord,
    records: Seq<GedcomRecord>,
    a: Seq<ImportStep>,
    b: Seq<ImportStep>,
    s: ImportStep,
)
    requires
        extends(a, b),
        family_fields(rec, records, a, s),
    ensures
        family_fields(rec, records, b, s),
{
    if let ImportStep::CreateFamily { partner1, partner2, .. } = s {
        if let (Some(x), Some(h)) = (partner_pointer(rec, "HUSB"@), partner1) {
            lemma_indi_step_extends(a, b, records, x, h);
        }
        if let (Some(x), Some(h)) = (partner_pointer(rec, "WIFE"@), partner2) {
            lemma_indi_step_extends(a, b, records, x, h);
        }
    }
}

/// The families a plan creates keep describing their records as steps
/// without a new family are appended.
proof fn lemma_families_extends(
    fams: Seq<GedcomRecord>,
    records: Seq<GedcomRecord>,
    a: Seq<ImportStep>,
    b: Seq<ImportStep>,
)
    requires
        extends(a, b),
        count_kind(a, 6) == count_kind(b, 6),
        families_drafted(fams, records, a),
    ensures
        families_drafted(fams, records, b),
{
    lemma_kind_framed(a, b, 6);
    let c = steps_of_kind(a, 6);
    let fr = tagged(fams, "FAM"@);
    assert forall|k: int| 0 <= k < c.len() implies family_fields(fr[k], records, b, #[trigger] c[k]) by {
        lemma_family_fields_extends(fr[k], records, a, b, c[k]);
    }
}

/// The step a found xref names is the last entry for it.
proof fn lemma_lookup_entry(m: Seq<(Vec<char>, usize)>, x: Seq<char>, h: usize)
    requires
        lookup(handle_views(m), x) == Some(h),
    ensures
        exists|k: int| 0 <= k < m.len() && m[k].0@ == x && #[trigger] m[k].1 == h,
    decreases m.len(),
{
    let hv = handle_views(m);
    if hv.last().0 == x {
        assert(m[m.len() - 1].1 == h);
    } else {
        assert(hv.drop_last() =~= handle_views(m.drop_last()));
        lemma_lookup_entry(m.drop_last(), x, h);
        let k = choose|k: int| 0 <= k < m.drop_last().len() && m.drop_last()[k].0@ == x && #[trigger] m.drop_last()[k].1 == h;
        assert(m[k] == m.drop_last()[k]);
    }
}

/// A resolved partner slot names the individual its pointer names.
proof fn lemma_partner_slot(
    m: Seq<(Vec<char>, usize)>,
    steps: Seq<ImportStep>,
    records: Seq<GedcomRecord>,
    rec: GedcomRecord,
    t: Seq<char>,
    slot: Option<usize>,
)
    requires
        persons_drafted(m, steps, records),
        partner_found(m, rec, t),
        slot == match partner_pointer(rec, t) {
            Some(x) => lookup(handle_views(m), x),
            None => None,
        },
    ensures
        partner_slot_ok(steps, records, rec, t, slot),
{
    if let Some(x) = partner_pointer(rec, t) {
        let h = slot->0;
        lemma_lookup_entry(m, x, h);
        let k = choose|k: int| 0 <= k < m.len() && m[k].0@ == x && #[trigger] m[k].1 == h;
        assert(indi_step(steps, records, m[k].0@, m[k].1));
    }
}

/// One step of kind `k` per step counted as `k`.
pub(crate) proof fn lemma_kind_len(steps: Seq<ImportStep>, k: int)
    ensures
        steps_of_kind(steps, k).len() == count_kind(steps, k),
    decreases steps.len(),
{
    if steps.len() > 0 {
        lemma_kind_len(steps.drop_last(), k);
    }
}

/// Appending steps keeps the steps of each kind so far, in place.
pub(crate) proof fn lemma_kind_prefix(a: Seq<ImportStep>, b: Seq<ImportStep>, k: int)
    requires
        extends(a, b),
    ensures
        steps_of_kind(a, k).len() <= steps_of_kind(b, k).len(),
        forall|j: int| 0 <= j < steps_of_kind(a, k).len() ==>
            #[trigger] steps_of_kind(b, k)[j] == steps_of_kind(a, k)[j],
    decreases b.len(),
{
    if b.len() == a.len() {
        assert(b =~= a);
    } else {
        let c = b.drop_last();
        assert(extends(a, c));
        lemma_kind_prefix(a, c, k);
    }
}

/// Steps appended without one of kind `k` leave the steps of kind `k` as they
/// were.
pub(crate) proof fn lemma_kind_framed(a: Seq<ImportStep>, b: Seq<ImportStep>, k: int)
    requires
        extends(a, b),
        count_kind(a, k) == count_kind(b, k),
    ensures
        steps_of_kind(b, k) == steps_of_kind(a, k),
{
    lemma_kind_len(a, k);
    lemma_kind_len(b, k);
    lemma_kind_prefix(a, b, k);
    assert(steps_of_kind(b, k) =~= steps_of_kind(a, k));
}

/// A framed planner creates the same sources, individuals and media.
proof fn lemma_framed_created(a: Planner, b: Planner)
    requires
        a.inv(),
        b.inv(),
        Planner::framed(a, b),
    ensures
        steps_of_kind(b.steps@, 0) == steps_of_kind(a.steps@, 0),
        steps_of_kind(b.steps@, 1) == steps_of_kind(a.steps@, 1),
        steps_of_kind(b.steps@, 7) == steps_of_kind(a.steps@, 7),
{
    lemma_kind_framed(a.steps@, b.steps@, 0);
    lemma_kind_framed(a.steps@, b.steps@, 1);
    lemma_kind_framed(a.steps@, b.steps@, 7);
}

/// A planner that only linked media creates the same sources and individuals,
/// and the media files it created before, in place.
proof fn lemma_linked_created(a: Planner, b: Planner)
    requires
        a.inv(),
        b.inv(),
        Planner::framed_links(a, b),
    ensures
        steps_of_kind(b.steps@, 0) == steps_of_kind(a.steps@, 0),
        steps_of_kind(b.steps@, 1) == steps_of_kind(a.steps@, 1),
        steps_of_kind(a.steps@, 7).len() <= steps_of_kind(b.steps@, 7).len(),
        forall|j: int| 0 <= j < steps_of_kind(a.steps@, 7).len() ==>
            #[trigger] steps_of_kind(b.steps@, 7)[j] == steps_of_kind(a.steps@, 7)[j],
{
    lemma_kind_framed(a.steps@, b.steps@, 0);
    lemma_kind_framed(a.steps@, b.steps@, 1);
    lemma_kind_prefix(a.steps@, b.steps@, 7);
}

/// No kind has more steps than the plan.
proof fn lemma_count_bound(steps: Seq<ImportStep>, k: int)
    ensures
        count_kind(steps, k) <= steps.len(),
    decreases steps.len(),
{
    if steps.len() > 0 {
        lemma_count_bound(steps.drop_last(), k);
    }
}

/// Appends a step, counting it in the summary.
fn push_step(steps: &mut Vec<ImportStep>, summary: &mut ImportSummary, s: ImportStep)
    requires
        summary_counts(*old(summary), old(steps)@),
    ensures
        final(steps)@ == old(steps)@.push(s),
        summary_counts(*final(summary), final(steps)@),
        final(summary).skipped_tags@ == old(summary).skipped_tags@,
        final(summary).sources == old(summary).sources + if step_kind(s) == 0 { 1int } else { 0int },
        final(summary).individuals == old(summary).individuals + if step_kind(s) == 1 { 1int } else { 0int },
        final(summary).families == old(summary).families + if step_kind(s) == 6 { 1int } else { 0int },
        final(summary).media == old(summary).media + if step_kind(s) == 7 { 1int } else { 0int },
{
    let ghost before = steps@;
    let k = match &s {
        ImportStep::CreateSource(_) => 0u8,
        ImportStep::CreateIndividual(_) => 1,
        ImportStep::AddName { .. } => 2,
        ImportStep::CreatePlace(_) => 3,
        ImportStep::AddEvent { .. } => 4,
        ImportStep::AddCitation { .. } => 5,
        ImportStep::CreateFamily { .. } => 6,
        ImportStep::CreateMedia(_) => 7,
        ImportStep::LinkMedia { .. } => 8,
        ImportStep::AddChild { .. } => 9,
    };
    assert(k == step_kind(s));
    proof {
        lemma_count_bound(before, k as int);
    }
    steps.push(s);
    let n = steps.len();
    assert(n == before.len() + 1);
    assert(steps@.drop_last() =~= before);
    if k == 0 {
        summary.sources = summary.sources + 1;
    } else if k == 1 {
        summary.individuals = summary.individuals + 1;
    } else if k == 2 {
        summary.names = summary.names + 1;
    } else if k == 3 {
        summary.places = summary.places + 1;
    } else if k == 4 {
        summary.events = summary.events + 1;
    } else if k == 5 {
        summary.citations = summary.citations + 1;
    } else if k == 6 {
        summary.families = summary.families + 1;
    } else if k == 7 {
        summary.media = summary.media + 1;
    }
}

/// Whether every handle of a name → step map names a row of kind `e`.
pub open spec fn handles_ok(m: Seq<(Vec<char>, usize)>, steps: Seq<ImportStep>, e: Entity) -> bool {
    forall|i: int| 0 <= i < m.len() ==> is_ref(steps, steps.len() as int, #[trigger] m[i].1, e)
}

/// Whether step `h` creates a place named `name`.
pub open spec fn place_step(steps: Seq<ImportStep>, name: Seq<char>, h: usize) -> bool {
    &&& h < steps.len()
    &&& steps[h as int] matches ImportStep::CreatePlace(pn) && pn@ == name
}

/// Whether each place handle names the step that creates a place of that
/// name.
pub open spec fn places_named(m: Seq<(Vec<char>, usize)>, steps: Seq<ImportStep>) -> bool {
    forall|i: int| 0 <= i < m.len() ==> place_step(steps, m[i].0@, #[trigger] m[i].1)
}

/// Whether the place map has one entry per name, and one for every place
/// step.
#[verifier::opaque]
pub open spec fn places_indexed(m: Seq<(Vec<char>, usize)>, steps: Seq<ImportStep>) -> bool {
    &&& forall|i: int, j: int| 0 <= i < j < m.len() ==> (#[trigger] m[i]).0@ != (#[trigger] m[j]).0@
    &&& forall|h: int|
        0 <= h < steps.len() && (#[trigger] steps[h]) is CreatePlace ==> exists|i: int|
            0 <= i < m.len() && m[i].1 == h
}

/// Whether each place step that is not the last is the place of the event
/// step right after it.
#[verifier::opaque]
pub open spec fn places_follow(steps: Seq<ImportStep>) -> bool {
    forall|h: int|
        0 <= h && h + 1 < steps.len() && (#[trigger] steps[h]) is CreatePlace ==> (steps[h + 1] matches ImportStep::AddEvent {
            place: Some(q),
            ..
        } && q == h)
}

/// Whether the last step, if any, is no place.
pub open spec fn settled(steps: Seq<ImportStep>) -> bool {
    steps.len() == 0 || !(steps.last() is CreatePlace)
}

/// Whether a plan creates each place once: no two place steps share a name,
/// and each place step is the place of an event (the one right after it).
/// With every event pointing at the place step of its own place name, this
/// is one place per distinct place name the events give.
pub open spec fn places_once(steps: Seq<ImportStep>) -> bool {
    &&& forall|h1: int, h2: int|
        0 <= h1 < h2 < steps.len() && (#[trigger] steps[h1]) is CreatePlace && (#[trigger] steps[h2]) is CreatePlace
            ==> steps[h1]->CreatePlace_0@ != steps[h2]->CreatePlace_0@
    &&& forall|h: int|
        0 <= h < steps.len() && (#[trigger] steps[h]) is CreatePlace ==> h + 1 < steps.len() && (steps[h
            + 1] matches ImportStep::AddEvent { place: Some(q), .. } && q == h)
}

/// A settled plan creates each place once.
pub(crate) proof fn lemma_places_once(p: Planner)
    requires
        p.inv(),
    ensures
        places_once(p.steps@),
{
    reveal(places_indexed);
    reveal(places_follow);
    let st = p.steps@;
    let m = p.places@;
    assert forall|h1: int, h2: int|
        0 <= h1 < h2 < st.len() && (#[trigger] st[h1]) is CreatePlace && (#[trigger] st[h2]) is CreatePlace implies st[h1]->CreatePlace_0@
        != st[h2]->CreatePlace_0@ by {
        let i1 = choose|i: int| 0 <= i < m.len() && m[i].1 == h1;
        let i2 = choose|i: int| 0 <= i < m.len() && m[i].1 == h2;
        assert(place_step(st, m[i1].0@, m[i1].1));
        assert(place_step(st, m[i2].0@, m[i2].1));
        if i1 < i2 {
            assert(m[i1].0@ != m[i2].0@);
        } else {
            assert(m[i2].0@ != m[i1].0@);
        }
    }
    assert forall|h: int| 0 <= h < st.len() && (#[trigger] st[h]) is CreatePlace implies h + 1 < st.len() && (st[h
        + 1] matches ImportStep::AddEvent { place: Some(q), .. } && q == h) by {
        if h + 1 >= st.len() {
            assert(st.last() == st[h]);
        }
    }
}

/// No entry of a map has key `x` when looking `x` up finds nothing.
proof fn lemma_lookup_absent(m: Seq<(Vec<char>, usize)>, x: Seq<char>)
    requires
        lookup(handle_views(m), x) is None,
    ensures
        forall|k: int| 0 <= k < m.len() ==> (#[trigger] m[k]).0@ != x,
    decreases m.len(),
{
    if m.len() > 0 {
        let hv = handle_views(m);
        assert(hv.last().0 != x);
        assert(hv.drop_last() =~= handle_views(m.drop_last()));
        lemma_lookup_absent(m.drop_last(), x);
        assert forall|k: int| 0 <= k < m.len() implies (#[trigger] m[k]).0@ != x by {
            if k < m.len() - 1 {
                assert(m[k] == m.drop_last()[k]);
            } else {
                assert(hv[k].0 == m[k].0@);
            }
        }
    }
}

/// The key views of a name → step map.
pub open spec fn handle_views(m: Seq<(Vec<char>, usize)>) -> Seq<(Seq<char>, usize)> {
    Seq::new(m.len(), |i: int| (m[i].0@, m[i].1))
}

/// The step the last entry for `k` names.
pub(crate) fn lookup_handle(m: &Vec<(Vec<char>, usize)>, k: &[char]) -> (r: Option<usize>)
    ensures
        r == lookup(handle_views(m@), k@),
        r matches Some(h) ==> exists|i: int| 0 <= i < m.len() && #[trigger] m@[i].1 == h,
{
    let ghost hv = handle_views(m@);
    let mut i: usize = m.len();
    assert(hv.take(i as int) =~= hv);
    while i > 0
        invariant
            i <= m.len(),
            hv == handle_views(m@),
            lookup(hv, k@) == lookup(hv.take(i as int), k@),
        decreases i,
    {
        assert(hv.take(i as int).drop_last() =~= hv.take(i - 1));
        assert(hv.take(i as int).last() == hv[i - 1]);
        if chars_eq(m[i - 1].0.as_slice(), k) {
            assert(m@[i - 1].1 == m[i - 1].1);
            return Some(m[i - 1].1);
        }
        i = i - 1;
    }
    None
}

/// The import plan being built: the steps so far, their summary, and the
/// rows created so far by xref (places by name).
pub(crate) struct Planner {
    pub(crate) steps: Vec<ImportStep>,
    pub(crate) summary: ImportSummary,
    pub(crate) sources: Vec<(Vec<char>, usize)>,
    pub(crate) persons: Vec<(Vec<char>, usize)>,
    pub(crate) families: Vec<(Vec<char>, usize)>,
    pub(crate) media: Vec<(Vec<char>, usize)>,
    pub(crate) places: Vec<(Vec<char>, usize)>,
    pub(crate) primaried: Vec<PlanSubject>,
}

impl Planner {
    /// The steps are well formed and counted, and every handle names a row of
    /// the kind its map holds.
    pub(crate) open spec fn inv(&self) -> bool {
        &&& self.inv_open()
        &&& settled(self.steps@)
    }

    /// [`Planner::inv`] save that the last step may be a place its event has
    /// yet to follow.
    pub(crate) open spec fn inv_open(&self) -> bool {
        &&& self.inv_core()
        &&& places_indexed(self.places@, self.steps@)
        &&& places_follow(self.steps@)
    }

    /// The steps are well formed and counted, and every handle names a row of
    /// the kind its map holds.
    pub(crate) open spec fn inv_core(&self) -> bool {
        &&& plan_wf(self.steps@)
        &&& summary_counts(self.summary, self.steps@)
        &&& handles_ok(self.sources@, self.steps@, Entity::Source)
        &&& handles_ok(self.persons@, self.steps@, Entity::Individual)
        &&& handles_ok(self.families@, self.steps@, Entity::Family)
        &&& handles_ok(self.media@, self.steps@, Entity::Media)
        &&& handles_ok(self.places@, self.steps@, Entity::Place)
        &&& places_named(self.places@, self.steps@)
    }

    /// Appends a step whose references are all to earlier rows.
    pub(crate) fn add(&mut self, s: ImportStep)
        requires
            old(self).inv_open(),
            settled(old(self).steps@) || (s matches ImportStep::AddEvent { place: Some(q), .. } && q + 1
                == old(self).steps@.len()),
            step_ok(old(self).steps@.push(s), old(self).steps@.len() as int),
        ensures
            final(self).inv_core(),
            step_kind(s) != 3 ==> final(self).inv(),
            final(self).steps@ == old(self).steps@.push(s),
            final(self).sources == old(self).sources,
            final(self).persons == old(self).persons,
            final(self).families == old(self).families,
            final(self).media == old(self).media,
            final(self).places == old(self).places,
            final(self).primaried == old(self).primaried,
            final(self).summary.skipped_tags@ == old(self).summary.skipped_tags@,
            final(self).summary.sources == old(self).summary.sources + if step_kind(s) == 0 { 1int } else { 0int },
            final(self).summary.individuals == old(self).summary.individuals + if step_kind(s) == 1 { 1int } else { 0int },
            final(self).summary.families == old(self).summary.families + if step_kind(s) == 6 { 1int } else { 0int },
            final(self).summary.media == old(self).summary.media + if step_kind(s) == 7 { 1int } else { 0int },
            forall|k: int| #[trigger] steps_of_kind(final(self).steps@, k) == if step_kind(s) == k {
                steps_of_kind(old(self).steps@, k).push(s)
            } else {
                steps_of_kind(old(self).steps@, k)
            },
    {
        let ghost before = self.steps@;
        push_step(&mut self.steps, &mut self.summary, s);
        proof {
            let after = self.steps@;
            assert(after.drop_last() =~= before);
            assert forall|i: int| 0 <= i < after.len() implies #[trigger] step_ok(after, i) by {
                if i < before.len() {
                    assert(step_ok(before, i));
                    assert forall|r: usize| r < i implies after[r as int] == before[r as int] by {}
                    assert(after[i] == before[i]);
                }
            }
            assert forall|r: usize, e: Entity| is_ref(before, before.len() as int, r, e) implies
                #[trigger] is_ref(after, after.len() as int, r, e) by {
                assert(after[r as int] == before[r as int]);
            }
            assert(handles_ok(self.sources@, after, Entity::Source)) by {
                assert forall|i: int| 0 <= i < self.sources@.len() implies is_ref(
                    after,
                    after.len() as int,
                    #[trigger] self.sources@[i].1,
                    Entity::Source,
                ) by {
                    assert(is_ref(before, before.len() as int, self.sources@[i].1, Entity::Source));
                }
            }
            assert(handles_ok(self.persons@, after, Entity::Individual)) by {
                assert forall|i: int| 0 <= i < self.persons@.len() implies is_ref(
                    after,
                    after.len() as int,
                    #[trigger] self.persons@[i].1,
                    Entity::Individual,
                ) by {
                    assert(is_ref(before, before.len() as int, self.persons@[i].1, Entity::Individual));
                }
            }
            assert(handles_ok(self.families@, after, Entity::Family)) by {
                assert forall|i: int| 0 <= i < self.families@.len() implies is_ref(
                    after,
                    after.len() as int,
                    #[trigger] self.families@[i].1,
                    Entity::Family,
                ) by {
                    assert(is_ref(before, before.len() as int, self.families@[i].1, Entity::Family));
                }
            }
            assert(handles_ok(self.media@, after, Entity::Media)) by {
                assert forall|i: int| 0 <= i < self.media@.len() implies is_ref(
                    after,
                    after.len() as int,
                    #[trigger] self.media@[i].1,
                    Entity::Media,
                ) by {
                    assert(is_ref(before, before.len() as int, self.media@[i].1, Entity::Media));
                }
            }
            assert(places_named(self.places@, after)) by {
                assert forall|i: int| 0 <= i < self.places@.len() implies place_step(
                    after,
                    self.places@[i].0@,
                    #[trigger] self.places@[i].1,
                ) by {
                    assert(place_step(before, self.places@[i].0@, self.places@[i].1));
                    assert(after[self.places@[i].1 as int] == before[self.places@[i].1 as int]);
                }
            }
            assert(handles_ok(self.places@, after, Entity::Place)) by {
                assert forall|i: int| 0 <= i < self.places@.len() implies is_ref(
                    after,
                    after.len() as int,
                    #[trigger] self.places@[i].1,
                    Entity::Place,
                ) by {
                    assert(is_ref(before, before.len() as int, self.places@[i].1, Entity::Place));
                }
            }
            if step_kind(s) != 3 {
                reveal(places_indexed);
                reveal(places_follow);
                assert forall|h: int| 0 <= h < after.len() && (#[trigger] after[h]) is CreatePlace implies exists|i: int|
                    0 <= i < self.places@.len() && self.places@[i].1 == h by {
                    assert(after[h] == before[h]);
                }
                assert forall|h: int| 0 <= h && h + 1 < after.len() && (#[trigger] after[h]) is CreatePlace implies (after[h
                    + 1] matches ImportStep::AddEvent { place: Some(q), .. } && q == h) by {
                    assert(after[h] == before[h]);
                    if h + 1 < before.len() {
                        assert(after[h + 1] == before[h + 1]);
                    }
                }
            }
        }
    }
}

/// Whether `b` is `a` with more steps appended.
pub open spec fn extends(a: Seq<ImportStep>, b: Seq<ImportStep>) -> bool {
    a.len() <= b.len() && forall|i: int| 0 <= i < a.len() ==> #[trigger] b[i] == a[i]
}

/// A reference to a row stays valid as steps are appended.
pub(crate) proof fn lemma_ref_extends(a: Seq<ImportStep>, b: Seq<ImportStep>, r: usize, e: Entity)
    requires
        extends(a, b),
        is_ref(a, a.len() as int, r, e),
    ensures
        is_ref(b, b.len() as int, r, e),
{
    assert(b[r as int] == a[r as int]);
}

/// A subject stays valid as steps are appended.
pub(crate) proof fn lemma_subject_extends(a: Seq<ImportStep>, b: Seq<ImportStep>, s: PlanSubject)
    requires
        extends(a, b),
        subject_ok(a, a.len() as int, s),
    ensures
        subject_ok(b, b.len() as int, s),
{
    match s {
        PlanSubject::Individual(r) => lemma_ref_extends(a, b, r, Entity::Individual),
        PlanSubject::Family(r) => lemma_ref_extends(a, b, r, Entity::Family),
        PlanSubject::Event(r) => lemma_ref_extends(a, b, r, Entity::Event),
    }
}

/// Whether a tag names an event: `BIRT`, `DEAT`, `BAPM`, `BURI`, `RESI`,
/// `OCCU` or `EVEN` under an individual; `MARR`, `DIV` or `EVEN` under a
/// family.
pub open spec fn spec_is_event_tag(t: Seq<char>, family: bool) -> bool {
    if family {
        t == "MARR"@ || t == "DIV"@ || t == "EVEN"@
    } else {
        t == "BIRT"@ || t == "DEAT"@ || t == "BAPM"@ || t == "BURI"@ || t == "RESI"@ || t
            == "OCCU"@ || t == "EVEN"@
    }
}

/// Whether a record's tag names an event for its owner.
fn is_event_tag(rec: &GedcomRecord, family: bool) -> (b: bool)
    ensures
        b == spec_is_event_tag(rec.tag@, family),
{
    if family {
        tag_is(rec, "MARR") || tag_is(rec, "DIV") || tag_is(rec, "EVEN")
    } else {
        tag_is(rec, "BIRT") || tag_is(rec, "DEAT") || tag_is(rec, "BAPM") || tag_is(rec, "BURI")
            || tag_is(rec, "RESI") || tag_is(rec, "OCCU") || tag_is(rec, "EVEN")
    }
}

/// A validation error `line N: ` followed by `what` and an `@id@` pointer.
fn pointer_error(line_no: u32, what: &str, id: &[char]) -> (e: CoreError)
    ensures
        e is Validation,
{
    let mut m: Vec<char> = Vec::new();
    push_str(&mut m, "line ");
    push_int(&mut m, line_no as i64);
    push_str(&mut m, what);
    m.push('@');
    push_chars(&mut m, id);
    m.push('@');
    CoreError::Validation(string_from_chars(m))
}

/// A validation error `line N: ` followed by `what`.
fn line_message(line_no: u32, what: &str) -> (e: CoreError)
    ensures
        e is Validation,
{
    let mut m: Vec<char> = Vec::new();
    push_str(&mut m, "line ");
    push_int(&mut m, line_no as i64);
    push_str(&mut m, what);
    CoreError::Validation(string_from_chars(m))
}

/// A record position as a sort order (saturating at `i64::MAX`).
pub(crate) fn order_of(i: usize) -> (r: i64)
    ensures
        r == if i <= i64::MAX {
            i as i64
        } else {
            i64::MAX
        },
{
    if (i as u64) <= 9223372036854775807u64 {
        i as i64
    } else {
        9223372036854775807
    }
}

impl Planner {
    /// An empty plan.
    pub(crate) fn new() -> (p: Planner)
        ensures
            p.inv(),
            p.steps@.len() == 0,
            p.summary.skipped_tags@.len() == 0,
            p.primaried@.len() == 0,
            p.sources@.len() == 0,
            p.persons@.len() == 0,
            p.families@.len() == 0,
            p.media@.len() == 0,
            p.places@.len() == 0,
    {
        let p = Planner {
            steps: Vec::new(),
            summary: ImportSummary {
                individuals: 0,
                families: 0,
                events: 0,
                names: 0,
                places: 0,
                media: 0,
                sources: 0,
                citations: 0,
                skipped_tags: Vec::new(),
            },
            sources: Vec::new(),
            persons: Vec::new(),
            families: Vec::new(),
            media: Vec::new(),
            places: Vec::new(),
            primaried: Vec::new(),
        };
        assert(count_kind(p.steps@, 0) == 0);
        assert(places_indexed(p.places@, p.steps@)) by {
            reveal(places_indexed);
        }
        assert(places_follow(p.steps@)) by {
            reveal(places_follow);
        }
        p
    }

    /// Whether `b` is `a` with steps appended and the same xref maps and
    /// counts of sources, individuals and families.
    pub(crate) open spec fn framed_steps(a: Planner, b: Planner) -> bool {
        &&& extends(a.steps@, b.steps@)
        &&& b.sources == a.sources
        &&& b.persons == a.persons
        &&& b.families == a.families
        &&& b.media == a.media
        &&& b.summary.skipped_tags@ == a.summary.skipped_tags@
        &&& b.summary.sources == a.summary.sources
        &&& b.summary.individuals == a.summary.individuals
        &&& b.summary.families == a.summary.families
    }

    /// Framed as in [`Planner::framed_steps`], with no alternate name and no
    /// child added.
    pub(crate) open spec fn framed_links(a: Planner, b: Planner) -> bool {
        &&& Planner::framed_steps(a, b)
        &&& steps_of_kind(b.steps@, 2) == steps_of_kind(a.steps@, 2)
        &&& steps_of_kind(b.steps@, 9) == steps_of_kind(a.steps@, 9)
    }

    /// Framed as in [`Planner::framed_links`], with no media file or link
    /// added.
    pub(crate) open spec fn framed(a: Planner, b: Planner) -> bool {
        &&& Planner::framed_links(a, b)
        &&& b.summary.media == a.summary.media
        &&& b.primaried == a.primaried
        &&& steps_of_kind(b.steps@, 8) == steps_of_kind(a.steps@, 8)
    }

    /// The place named `name`, created the first time a name is seen.
    pub(crate) fn place_for(&mut self, name: &String) -> (r: usize)
        requires
            old(self).inv(),
        ensures
            final(self).inv_open(),
            settled(final(self).steps@) || r + 1 == final(self).steps@.len(),
            Planner::framed(*old(self), *final(self)),
            is_ref(final(self).steps@, final(self).steps@.len() as int, r, Entity::Place),
            place_step(final(self).steps@, name@, r),
            steps_of_kind(final(self).steps@, 4) == steps_of_kind(old(self).steps@, 4),
            steps_of_kind(final(self).steps@, 5) == steps_of_kind(old(self).steps@, 5),
    {
        let key = chars_of(name.as_str());
        match lookup_handle(&self.places, key.as_slice()) {
            Some(h) => {
                proof {
                    let i = choose|i: int| 0 <= i < self.places@.len() && #[trigger] self.places@[i].1 == h;
                    assert(is_ref(self.steps@, self.steps@.len() as int, self.places@[i].1, Entity::Place));
                    lemma_lookup_entry(self.places@, key@, h);
                    let k = choose|k: int| 0 <= k < self.places@.len() && self.places@[k].0@ == key@ && #[trigger] self.places@[k].1 == h;
                    assert(place_step(self.steps@, self.places@[k].0@, self.places@[k].1));
                }
                h
            },
            None => {
                let idx = self.steps.len();
                let pname = name.clone();
                let ghost s_old = self.steps@;
                proof {
                    lemma_lookup_absent(self.places@, key@);
                    reveal(places_indexed);
                    reveal(places_follow);
                }
                self.add(ImportStep::CreatePlace(pname));
                let ghost before_places = self.places@;
                let ghost st = self.steps@;
                self.places.push((key, idx));
                proof {
                    assert forall|i: int, j: int| 0 <= i < j < self.places@.len() implies (#[trigger] self.places@[i]).0@
                        != (#[trigger] self.places@[j]).0@ by {
                        assert(self.places@[i] == before_places[i]);
                        if j < before_places.len() {
                            assert(self.places@[j] == before_places[j]);
                        }
                    }
                    assert forall|h: int| 0 <= h < st.len() && (#[trigger] st[h]) is CreatePlace implies exists|i: int|
                        0 <= i < self.places@.len() && self.places@[i].1 == h by {
                        if h < s_old.len() {
                            assert(st[h] == s_old[h]);
                            let i = choose|i: int| 0 <= i < before_places.len() && before_places[i].1 == h;
                            assert(self.places@[i] == before_places[i]);
                        } else {
                            assert(self.places@[before_places.len() as int].1 == h);
                        }
                    }
                    assert forall|h: int| 0 <= h && h + 1 < st.len() && (#[trigger] st[h]) is CreatePlace implies (st[h
                        + 1] matches ImportStep::AddEvent { place: Some(q), .. } && q == h) by {
                        assert(st[h] == s_old[h]);
                        if h + 1 < s_old.len() {
                            assert(st[h + 1] == s_old[h + 1]);
                        } else {
                            assert(s_old.last() == s_old[h]);
                        }
                    }
                    assert forall|i: int| 0 <= i < self.places@.len() implies place_step(
                        self.steps@,
                        self.places@[i].0@,
                        #[trigger] self.places@[i].1,
                    ) by {
                        if i < before_places.len() {
                            assert(self.places@[i] == before_places[i]);
                        }
                    }
                    assert forall|i: int| 0 <= i < self.places@.len() implies is_ref(
                        self.steps@,
                        self.steps@.len() as int,
                        #[trigger] self.places@[i].1,
                        Entity::Place,
                    ) by {
                        if i < before_places.len() {
                            assert(self.places@[i] == before_places[i]);
                        }
                    }
                }
                idx
            },
        }
    }

    /// Plans a citation for every source pointer directly under `rec`
    /// (an inline `SOUR` without a pointer is not a citation).
    fn add_citations(&mut self, rec: &GedcomRecord, subject: PlanSubject) -> (r: Result<(), CoreError>)
        requires
            old(self).inv(),
            subject_ok(old(self).steps@, old(self).steps@.len() as int, subject),
        ensures
            r is Ok ==> final(self).inv() && Planner::framed(*old(self), *final(self)),
            r is Ok ==> steps_of_kind(final(self).steps@, 4) == steps_of_kind(old(self).steps@, 4),
            r is Ok ==> cites_added(old(self).steps@, final(self).steps@, own_cites(*rec), subject, old(self).sources@),
            r matches Err(e) ==> e is Validation,
            r is Ok <==> pointers_found(old(self).sources@, *rec, "SOUR"@),
    {
        let sours = rec.children_with("SOUR");
        let ghost start = *self;
        let ghost ts = tagged(rec.children@, "SOUR"@);
        let mut i: usize = 0;
        assert(ts.take(0) =~= Seq::<GedcomRecord>::empty());
        assert(steps_of_kind(start.steps@, 5).take(steps_of_kind(start.steps@, 5).len() as int) =~= steps_of_kind(
            start.steps@,
            5,
        ));
        assert(Seq::new(with_pointer(ts.take(0)).len(), |j: int| (with_pointer(ts.take(0))[j], None::<GedcomRecord>))
            =~= Seq::<(GedcomRecord, Option<GedcomRecord>)>::empty());
        while i < sours.len()
            invariant
                i <= sours.len(),
                self.inv(),
                Planner::framed(start, *self),
                steps_of_kind(self.steps@, 4) == steps_of_kind(start.steps@, 4),
                ts == tagged(rec.children@, "SOUR"@),
                cites_added(
                    start.steps@,
                    self.steps@,
                    Seq::new(with_pointer(ts.take(i as int)).len(), |j: int| (with_pointer(ts.take(i as int))[j], None)),
                    subject,
                    start.sources@,
                ),
                subject_ok(start.steps@, start.steps@.len() as int, subject),
                start == *old(self),
                sours.len() == tagged(rec.children@, "SOUR"@).len(),
                forall|j: int| 0 <= j < sours.len() ==> *sours@[j] == tagged(rec.children@, "SOUR"@)[j],
                forall|j: int| #![trigger tagged(rec.children@, "SOUR"@)[j]]
                    0 <= j < i ==> match pointer_of(value_of(tagged(rec.children@, "SOUR"@)[j])) {
                        Some(p) => has_key(start.sources@, p),
                        None => true,
                    },
            decreases sours.len() - i,
        {
            let sour = sours[i];
            let ghost wp0 = with_pointer(ts.take(i as int));
            let ghost l0 = Seq::new(wp0.len(), |j: int| (wp0[j], None::<GedcomRecord>));
            proof {
                assert(ts.take(i + 1).drop_last() =~= ts.take(i as int));
                assert(ts.take(i + 1).last() == *sour);
            }
            match record_pointer(sour) {
                None => {
                    assert(with_pointer(ts.take(i + 1)) == wp0);
                },
                Some(ptr) => {
                    let source = match lookup_handle(&self.sources, ptr.as_slice()) {
                        Some(h) => h,
                        None => {
                            assert(tagged(rec.children@, "SOUR"@)[i as int] == *sour);
                            assert(!has_key(start.sources@, ptr@));
                            assert(!pointers_found(start.sources@, *rec, "SOUR"@));
                            return Err(
                                pointer_error(sour.line_no, ": SOUR points to undefined source ", ptr.as_slice()),
                            );
                        },
                    };
                    proof {
                        let k = choose|k: int| 0 <= k < self.sources@.len() && #[trigger] self.sources@[k].1 == source;
                        assert(is_ref(self.steps@, self.steps@.len() as int, self.sources@[k].1, Entity::Source));
                        lemma_subject_extends(start.steps@, self.steps@, subject);
                    }
                    let page = child_string(sour, "PAGE");
                    let detail = crate::gedcom::map::citation_detail(sour);
                    let quay = child_string(sour, "QUAY");
                    let confidence = match &quay {
                        Some(q) => confidence_for_quay(Some(q.as_str())),
                        None => confidence_for_quay(None),
                    };
                    let ghost before = self.steps@;
                    let cstep = ImportStep::AddCitation { source, subject, page, detail, confidence };
                    let ghost cs = cstep;
                    self.add(cstep);
                    assert(extends(before, self.steps@));
                    proof {
                        assert(cite_ok(*sour, None, subject, start.sources@, before.push(cs), cs));
                        lemma_cites_added_step(start.steps@, before, l0, subject, start.sources@, (*sour, None), cs);
                        assert(with_pointer(ts.take(i + 1)) == wp0.push(*sour));
                        assert(Seq::new(with_pointer(ts.take(i + 1)).len(), |j: int| (with_pointer(ts.take(i + 1))[j], None::<GedcomRecord>))
                            =~= l0.push((*sour, None)));
                    }
                },
            }
            i = i + 1;
        }
        assert(ts.take(sours.len() as int) =~= ts);
        Ok(())
    }
}

impl Planner {
    /// Plans an event for every sub-record of `rec` whose tag names an event
    /// (see [`spec_is_event_tag`]), with its kind, parsed date, place (created
    /// once per name), notes, and citations.
    fn add_events(&mut self, rec: &GedcomRecord, subject: PlanSubject, family: bool) -> (r: Result<
        (),
        CoreError,
    >)
        requires
            old(self).inv(),
            subject_ok(old(self).steps@, old(self).steps@.len() as int, subject),
            !(subject is Event),
        ensures
            r is Ok ==> final(self).inv() && Planner::framed(*old(self), *final(self)),
            r is Ok ==> events_added(old(self).steps@, final(self).steps@, events_of(rec.children@, family), subject),
            r is Ok ==> cites_added(
                old(self).steps@,
                final(self).steps@,
                event_cites(events_of(rec.children@, family)),
                subject,
                old(self).sources@,
            ),
            r matches Err(e) ==> e is Validation,
            r is Ok <==> events_found(old(self).sources@, *rec, family),
    {
        let ghost start = *self;
        let mut i: usize = 0;
        assert(rec.children@.take(0) =~= Seq::<GedcomRecord>::empty());
        assert(steps_of_kind(start.steps@, 4).take(steps_of_kind(start.steps@, 4).len() as int) =~= steps_of_kind(
            start.steps@,
            4,
        ));
        assert(steps_of_kind(start.steps@, 5).take(steps_of_kind(start.steps@, 5).len() as int) =~= steps_of_kind(
            start.steps@,
            5,
        ));
        while i < rec.children.len()
            invariant
                i <= rec.children.len(),
                self.inv(),
                Planner::framed(start, *self),
                events_added(start.steps@, self.steps@, events_of(rec.children@.take(i as int), family), subject),
                cites_added(
                    start.steps@,
                    self.steps@,
                    event_cites(events_of(rec.children@.take(i as int), family)),
                    subject,
                    start.sources@,
                ),
                subject_ok(start.steps@, start.steps@.len() as int, subject),
                !(subject is Event),
                start == *old(self),
                forall|j: int| #![trigger rec.children@[j]]
                    0 <= j < i && spec_is_event_tag(rec.children@[j].tag@, family) ==> date_ok(rec.children@[j])
                        && pointers_found(start.sources@, rec.children@[j], "SOUR"@),
            decreases rec.children.len() - i,
        {
            let child = &rec.children[i];
            assert(*child == rec.children@[i as int]);
            let ghost evs0 = events_of(rec.children@.take(i as int), family);
            proof {
                assert(rec.children@.take(i + 1).drop_last() =~= rec.children@.take(i as int));
                assert(rec.children@.take(i + 1).last() == rec.children@[i as int]);
            }
            if is_event_tag(child, family) {
                let tv = child_string(child, "TYPE");
                let kind = match &tv {
                    Some(t) => event_kind_for_tag(child.tag.as_str(), Some(t.as_str())),
                    None => event_kind_for_tag(child.tag.as_str(), None),
                };
                let date = match child.child("DATE") {
                    Some(d) => match &d.value {
                        Some(v) => match GenealogicalDate::parse(v.as_str()) {
                            Ok(x) => Some(x),
                            Err(e) => {
                                let mut m: Vec<char> = Vec::new();
                                push_str(&mut m, "line ");
                                push_int(&mut m, d.line_no as i64);
                                push_str(&mut m, ": ");
                                let inner = e.message();
                                push_str(&mut m, inner.as_str());
                                assert(!date_ok(rec.children@[i as int]));
                                return Err(CoreError::Validation(string_from_chars(m)));
                            },
                        },
                        None => None,
                    },
                    None => None,
                };
                let ghost s0 = self.steps@;
                let place = match child_string(child, "PLAC") {
                    Some(name) => Some(self.place_for(&name)),
                    None => None,
                };
                proof {
                    lemma_subject_extends(start.steps@, self.steps@, subject);
                    lemma_events_added_extends(start.steps@, s0, self.steps@, evs0, subject);
                    lemma_cites_added_extends(start.steps@, s0, self.steps@, event_cites(evs0), subject, start.sources@);
                }
                let notes = child_string(child, "NOTE");
                let idx = self.steps.len();
                let ghost s1 = self.steps@;
                let estep = ImportStep::AddEvent { subject, kind, date, place, notes };
                let ghost es = estep;
                self.add(estep);
                assert(extends(s1, self.steps@));
                assert(creates(self.steps@[idx as int]) == Some(Entity::Event));
                proof {
                    if let Some(h) = place {
                        assert(self.steps@[h as int] == s1[h as int]);
                    }
                    assert(event_fields(*child, subject, s1.push(es), es));
                    lemma_events_added_step(start.steps@, s1, evs0, subject, *child, es);
                    assert(events_of(rec.children@.take(i + 1), family) == evs0.push(*child));
                    lemma_cites_added_extends(start.steps@, s1, self.steps@, event_cites(evs0), subject, start.sources@);
                }
                let ghost s2 = *self;
                assert(date_ok(rec.children@[i as int]));
                match self.add_citations(child, PlanSubject::Event(idx)) {
                    Ok(()) => {},
                    Err(e) => {
                        assert(!pointers_found(start.sources@, rec.children@[i as int], "SOUR"@));
                        return Err(e);
                    },
                }
                assert(extends(s2.steps@, self.steps@));
                assert(extends(start.steps@, self.steps@));
                proof {
                    lemma_events_added_extends(start.steps@, s2.steps@, self.steps@, events_of(rec.children@.take(i + 1), family), subject);
                    assert(self.steps@[idx as int] == s2.steps@[idx as int]);
                    lemma_event_fields_extends(*child, subject, s1.push(es), self.steps@, es);
                    lemma_cites_for_event(s2.steps@, self.steps@, *child, idx, subject, start.sources@);
                    let nl = Seq::new(cited_of(*child).len(), |j: int| (cited_of(*child)[j], Some(*child)));
                    lemma_cites_added_concat(start.steps@, s2.steps@, self.steps@, event_cites(evs0), nl, subject, start.sources@);
                    assert(event_cites(evs0.push(*child)) == event_cites(evs0) + nl) by {
                        assert(evs0.push(*child).drop_last() =~= evs0);
                    }
                }
            } else {
                assert(events_of(rec.children@.take(i + 1), family) == evs0);
            }
            i = i + 1;
        }
        assert(rec.children@.take(rec.children.len() as int) =~= rec.children@);
        Ok(())
    }

    /// Links every `OBJE` sub-record of `rec` to `subject`: a pointer resolves
    /// to the object created for it, an inline object creates its own media
    /// file. The first link of each subject is its primary one.
    fn link_media(&mut self, rec: &GedcomRecord, subject: PlanSubject) -> (r: Result<(), CoreError>)
        requires
            old(self).inv(),
            subject_ok(old(self).steps@, old(self).steps@.len() as int, subject),
            !(subject is Event),
        ensures
            r is Ok ==> final(self).inv() && Planner::framed_links(*old(self), *final(self)),
            r is Ok ==> steps_of_kind(final(self).steps@, 4) == steps_of_kind(old(self).steps@, 4),
            r is Ok ==> steps_of_kind(final(self).steps@, 5) == steps_of_kind(old(self).steps@, 5),
            r is Ok ==> links_added(
                old(self).steps@,
                final(self).steps@,
                tagged(rec.children@, "OBJE"@),
                subject,
                old(self).media@,
                old(self).primaried@.contains(subject),
            ),
            r is Ok ==> final(self).primaried@ == if tagged(rec.children@, "OBJE"@).len() > 0
                && !old(self).primaried@.contains(subject) {
                old(self).primaried@.push(subject)
            } else {
                old(self).primaried@
            },
            r matches Err(e) ==> e is Validation,
            r is Ok <==> pointers_found(old(self).media@, *rec, "OBJE"@),
    {
        let objes = rec.children_with("OBJE");
        let ghost start = *self;
        let ghost os = tagged(rec.children@, "OBJE"@);
        let ghost seen0 = start.primaried@.contains(subject);
        let mut i: usize = 0;
        assert(os.take(0) =~= Seq::<GedcomRecord>::empty());
        assert(steps_of_kind(start.steps@, 8).take(steps_of_kind(start.steps@, 8).len() as int) =~= steps_of_kind(
            start.steps@,
            8,
        ));
        while i < objes.len()
            invariant
                i <= objes.len(),
                self.inv(),
                Planner::framed_links(start, *self),
                os == tagged(rec.children@, "OBJE"@),
                seen0 == start.primaried@.contains(subject),
                links_added(start.steps@, self.steps@, os.take(i as int), subject, start.media@, seen0),
                self.primaried@ == if i > 0 && !seen0 {
                    start.primaried@.push(subject)
                } else {
                    start.primaried@
                },
                steps_of_kind(self.steps@, 4) == steps_of_kind(start.steps@, 4),
                steps_of_kind(self.steps@, 5) == steps_of_kind(start.steps@, 5),
                subject_ok(start.steps@, start.steps@.len() as int, subject),
                !(subject is Event),
                start == *old(self),
                objes.len() == tagged(rec.children@, "OBJE"@).len(),
                forall|j: int| 0 <= j < objes.len() ==> *objes@[j] == tagged(rec.children@, "OBJE"@)[j],
                forall|j: int| #![trigger tagged(rec.children@, "OBJE"@)[j]]
                    0 <= j < i ==> match pointer_of(value_of(tagged(rec.children@, "OBJE"@)[j])) {
                        Some(p) => has_key(start.media@, p),
                        None => true,
                    },
            decreases objes.len() - i,
        {
            let obje = objes[i];
            assert(tagged(rec.children@, "OBJE"@)[i as int] == *obje);
            let media_id = match record_pointer(obje) {
                Some(ptr) => match lookup_handle(&self.media, ptr.as_slice()) {
                    Some(h) => {
                        proof {
                            let k = choose|k: int| 0 <= k < self.media@.len() && #[trigger] self.media@[k].1 == h;
                            assert(is_ref(self.steps@, self.steps@.len() as int, self.media@[k].1, Entity::Media));
                        }
                        h
                    },
                    None => {
                        assert(!has_key(start.media@, ptr@));
                        assert(!pointers_found(start.media@, *rec, "OBJE"@));
                        return Err(
                            pointer_error(obje.line_no, ": OBJE points to undefined object ", ptr.as_slice()),
                        );
                    },
                },
                None => {
                    let idx = self.steps.len();
                    let ghost s0 = self.steps@;
                    self.add(ImportStep::CreateMedia(media_draft(obje)));
                    assert(creates(self.steps@[idx as int]) == Some(Entity::Media));
                    proof {
                        assert(extends(s0, self.steps@));
                        lemma_links_added_extends(start.steps@, s0, self.steps@, os.take(i as int), subject, start.media@, seen0);
                    }
                    idx
                },
            };
            let ghost before_link = self.steps@;
            proof {
                lemma_subject_extends(start.steps@, self.steps@, subject);
            }
            let mut seen = false;
            let mut k: usize = 0;
            while k < self.primaried.len()
                invariant
                    k <= self.primaried.len(),
                    seen == exists|k2: int| 0 <= k2 < k && self.primaried@[k2] == subject,
                decreases self.primaried.len() - k,
            {
                if self.primaried[k] == subject {
                    seen = true;
                }
                k = k + 1;
            }
            assert(seen == self.primaried@.contains(subject));
            proof {
                if i > 0 && !seen0 {
                    assert(self.primaried@[self.primaried@.len() - 1] == subject);
                }
            }
            if !seen {
                self.primaried.push(subject);
            }
            let ghost s1 = self.steps@;
            let lstep = ImportStep::LinkMedia { media: media_id, subject, is_primary: !seen };
            let ghost ls = lstep;
            self.add(lstep);
            assert(extends(s1, self.steps@));
            proof {
                assert(tagged(rec.children@, "OBJE"@)[i as int] == *obje);
                if pointer_of(value_of(*obje)) is None {
                    assert(s1[media_id as int] == before_link[media_id as int]);
                }
                assert(link_ok(*obje, subject, start.media@, s1.push(ls), ls, os.take(i as int).len() == 0 && !seen0));
                lemma_links_added_step(start.steps@, s1, os.take(i as int), subject, start.media@, seen0, *obje, ls);
                assert(os.take(i + 1) =~= os.take(i as int).push(*obje));
            }
            i = i + 1;
        }
        assert(os.take(objes.len() as int) =~= os);
        Ok(())
    }

    /// The individual a family's first `HUSB`/`WIFE` sub-record points to.
    fn resolve_partner(&self, rec: &GedcomRecord, tag: &str) -> (r: Result<Option<usize>, CoreError>)
        requires
            self.inv(),
        ensures
            r matches Ok(Some(p)) ==> is_ref(self.steps@, self.steps@.len() as int, p, Entity::Individual),
            r matches Ok(slot) ==> slot == match partner_pointer(*rec, tag@) {
                Some(x) => lookup(handle_views(self.persons@), x),
                None => None,
            },
            r matches Err(e) ==> e is Validation,
            r is Ok <==> partner_found(self.persons@, *rec, tag@),
    {
        match rec.child(tag) {
            None => Ok(None),
            Some(c) => match &c.value {
                None => Ok(None),
                Some(v) => match record_pointer(c) {
                    None => {
                        let mut m: Vec<char> = Vec::new();
                        push_str(&mut m, "line ");
                        push_int(&mut m, rec.line_no as i64);
                        push_str(&mut m, ": ");
                        push_str(&mut m, tag);
                        push_str(&mut m, " value ");
                        let q = debug_quoted(v.as_str());
                        push_str(&mut m, q.as_str());
                        push_str(&mut m, " is not an @xref@ pointer");
                        Err(CoreError::Validation(string_from_chars(m)))
                    },
                    Some(ptr) => match lookup_handle(&self.persons, ptr.as_slice()) {
                        Some(h) => {
                            proof {
                                let k = choose|k: int| 0 <= k < self.persons@.len() && #[trigger] self.persons@[k].1 == h;
                                assert(is_ref(self.steps@, self.steps@.len() as int, self.persons@[k].1, Entity::Individual));
                            }
                            Ok(Some(h))
                        },
                        None => {
                            let mut m: Vec<char> = Vec::new();
                            push_str(&mut m, "line ");
                            push_int(&mut m, rec.line_no as i64);
                            push_str(&mut m, ": ");
                            push_str(&mut m, tag);
                            push_str(&mut m, " points to undefined individual ");
                            push_str(&mut m, v.as_str());
                            Err(CoreError::Validation(string_from_chars(m)))
                        },
                    },
                },
            },
        }
    }
}

/// Whether a record with tag `t` carries the xref `x`.
pub open spec fn defines(records: Seq<GedcomRecord>, t: Seq<char>, x: Seq<char>) -> bool {
    exists|k: int| 0 <= k < records.len() && #[trigger] records[k].tag@ == t && opt_view(records[k].xref) == Some(x)
}

/// Whether `x` is a key of a handle map.
pub open spec fn has_key(m: Seq<(Vec<char>, usize)>, x: Seq<char>) -> bool {
    lookup(handle_views(m), x) is Some
}

/// The keys of a handle map are exactly the xrefs of the records with tag `t`.
pub open spec fn keys_are(m: Seq<(Vec<char>, usize)>, records: Seq<GedcomRecord>, t: Seq<char>) -> bool {
    forall|x: Seq<char>| #![trigger has_key(m, x)] #![trigger defines(records, t, x)]
        has_key(m, x) <==> defines(records, t, x)
}

/// Every pointer among the sub-records of `rec` tagged `t` is a key of `m`.
pub open spec fn pointers_found(m: Seq<(Vec<char>, usize)>, rec: GedcomRecord, t: Seq<char>) -> bool {
    forall|j: int| #![trigger tagged(rec.children@, t)[j]]
        0 <= j < tagged(rec.children@, t).len() ==> match pointer_of(value_of(tagged(rec.children@, t)[j])) {
            Some(p) => has_key(m, p),
            None => true,
        }
}

/// Every pointer among the sub-records of `rec` tagged `t` names a record
/// tagged `target`.
pub open spec fn pointers_resolve(records: Seq<GedcomRecord>, rec: GedcomRecord, t: Seq<char>, target: Seq<char>) -> bool {
    forall|j: int| #![trigger tagged(rec.children@, t)[j]]
        0 <= j < tagged(rec.children@, t).len() ==> match pointer_of(value_of(tagged(rec.children@, t)[j])) {
            Some(p) => defines(records, target, p),
            None => true,
        }
}

/// An event sub-record's first `DATE`, when it has a value, parses.
pub open spec fn date_ok(c: GedcomRecord) -> bool {
    match child_of(c, "DATE"@) {
        Some(d) => match value_of(d) {
            Some(v) => parse_date(v) is Some,
            None => true,
        },
        None => true,
    }
}

/// Every event sub-record of `rec` has a parseable date and citations whose
/// sources are keys of `m`.
pub open spec fn events_found(m: Seq<(Vec<char>, usize)>, rec: GedcomRecord, family: bool) -> bool {
    forall|j: int| #![trigger rec.children@[j]]
        0 <= j < rec.children.len() && spec_is_event_tag(rec.children@[j].tag@, family) ==> date_ok(rec.children@[j])
            && pointers_found(m, rec.children@[j], "SOUR"@)
}

/// Every event sub-record of `rec` has a parseable date and citations of
/// defined sources.
pub open spec fn events_resolve(records: Seq<GedcomRecord>, rec: GedcomRecord, family: bool) -> bool {
    forall|j: int| #![trigger rec.children@[j]]
        0 <= j < rec.children.len() && spec_is_event_tag(rec.children@[j].tag@, family) ==> date_ok(rec.children@[j])
            && pointers_resolve(records, rec.children@[j], "SOUR"@, "SOUR"@)
}

/// A family's first partner sub-record tagged `t`, when it has a value,
/// points to a key of `m`.
pub open spec fn partner_found(m: Seq<(Vec<char>, usize)>, rec: GedcomRecord, t: Seq<char>) -> bool {
    match child_of(rec, t) {
        Some(c) => match value_of(c) {
            Some(_) => match pointer_of(value_of(c)) {
                Some(p) => has_key(m, p),
                None => false,
            },
            None => true,
        },
        None => true,
    }
}

/// A family's first partner sub-record tagged `t`, when it has a value,
/// points to a defined individual.
pub open spec fn partner_resolves(records: Seq<GedcomRecord>, rec: GedcomRecord, t: Seq<char>) -> bool {
    match child_of(rec, t) {
        Some(c) => match value_of(c) {
            Some(_) => match pointer_of(value_of(c)) {
                Some(p) => defines(records, "INDI"@, p),
                None => false,
            },
            None => true,
        },
        None => true,
    }
}

/// Every `CHIL` of a family is a pointer to a defined individual.
pub open spec fn children_resolve(records: Seq<GedcomRecord>, rec: GedcomRecord) -> bool {
    forall|j: int| #![trigger tagged(rec.children@, "CHIL"@)[j]]
        0 <= j < tagged(rec.children@, "CHIL"@).len() ==> match pointer_of(value_of(tagged(rec.children@, "CHIL"@)[j])) {
            Some(p) => defines(records, "INDI"@, p),
            None => false,
        }
}

/// An individual has an xref, parseable event dates, and source pointers
/// that name sources of the document.
pub open spec fn indi_resolves(records: Seq<GedcomRecord>, rec: GedcomRecord) -> bool {
    &&& rec.xref is Some
    &&& events_resolve(records, rec, false)
    &&& pointers_resolve(records, rec, "SOUR"@, "SOUR"@)
}

/// A family has an xref, partners that name individuals of the document,
/// parseable event dates, and source pointers that name sources.
pub open spec fn fam_resolves(records: Seq<GedcomRecord>, rec: GedcomRecord) -> bool {
    &&& rec.xref is Some
    &&& partner_resolves(records, rec, "HUSB"@)
    &&& partner_resolves(records, rec, "WIFE"@)
    &&& events_resolve(records, rec, true)
    &&& pointers_resolve(records, rec, "SOUR"@, "SOUR"@)
}

/// What the planner needs of one top-level record: an individual or family
/// has an xref, parseable event dates, and source, object, partner and
/// child pointers that name records of the document.
pub open spec fn record_plannable(records: Seq<GedcomRecord>, rec: GedcomRecord) -> bool {
    &&& rec.tag@ == "INDI"@ ==> indi_resolves(records, rec) && pointers_resolve(records, rec, "OBJE"@, "OBJE"@)
    &&& rec.tag@ == "FAM"@ ==> {
        &&& fam_resolves(records, rec)
        &&& pointers_resolve(records, rec, "OBJE"@, "OBJE"@)
        &&& children_resolve(records, rec)
    }
}

/// The individuals among the first `n` records resolve.
pub open spec fn indis_resolve(records: Seq<GedcomRecord>, n: int) -> bool {
    forall|k: int| 0 <= k < n && (#[trigger] records[k]).tag@ == "INDI"@ ==> indi_resolves(records, records[k])
}

/// The families among the first `n` records resolve.
pub open spec fn fams_resolve(records: Seq<GedcomRecord>, n: int) -> bool {
    forall|k: int| 0 <= k < n && (#[trigger] records[k]).tag@ == "FAM"@ ==> fam_resolves(records, records[k])
}

/// The object pointers of the individuals and families among the first `n`
/// records resolve.
pub open spec fn links_resolve(records: Seq<GedcomRecord>, n: int) -> bool {
    forall|k: int| 0 <= k < n && ((#[trigger] records[k]).tag@ == "INDI"@ || records[k].tag@ == "FAM"@)
        ==> pointers_resolve(records, records[k], "OBJE"@, "OBJE"@)
}

/// The children of the families among the first `n` records resolve.
pub open spec fn chil_resolve(records: Seq<GedcomRecord>, n: int) -> bool {
    forall|k: int| 0 <= k < n && (#[trigger] records[k]).tag@ == "FAM"@ ==> children_resolve(records, records[k])
}

/// Whether every record of a document can be planned.
pub open spec fn plannable(records: Seq<GedcomRecord>) -> bool {
    forall|k: int| 0 <= k < records.len() ==> record_plannable(records, #[trigger] records[k])
}

/// The number of records of `records` with tag `t`.
pub open spec fn count_tag(records: Seq<GedcomRecord>, t: Seq<char>) -> nat
    decreases records.len(),
{
    if records.len() == 0 {
        0
    } else {
        count_tag(records.drop_last(), t) + if records.last().tag@ == t {
            1nat
        } else {
            0nat
        }
    }
}

/// Whether a top-level tag is read into the model (the rest are skipped).
pub open spec fn is_mapped_tag(t: Seq<char>) -> bool {
    t == "HEAD"@ || t == "TRLR"@ || t == "INDI"@ || t == "FAM"@ || t == "OBJE"@ || t == "SOUR"@
        || t == "REPO"@
}

/// Whether `entries` counts the skipped records of `records`: one entry per
/// unmapped tag that occurs, holding how often it occurs.
pub open spec fn skipped_counts(entries: Seq<(Seq<char>, usize)>, records: Seq<GedcomRecord>) -> bool {
    &&& forall|k: int|
        0 <= k < entries.len() ==> !is_mapped_tag(#[trigger] entries[k].0) && entries[k].1
            == count_tag(records, entries[k].0)
    &&& forall|j: int|
        0 <= j < records.len() && !is_mapped_tag(#[trigger] records[j].tag@) ==> exists|k: int|
            0 <= k < entries.len() && entries[k].0 == records[j].tag@
    &&& forall|a: int, b: int|
        0 <= a < b < entries.len() ==> #[trigger] entries[a].0 != #[trigger] entries[b].0
}

/// The views of skipped-tag entries.
pub open spec fn entry_views(s: Seq<(String, usize)>) -> Seq<(Seq<char>, usize)> {
    Seq::new(s.len(), |i: int| (s[i].0@, s[i].1))
}

/// A tag that occurs nowhere in a prefix is counted zero there.
proof fn lemma_count_absent(records: Seq<GedcomRecord>, n: int, t: Seq<char>)
    requires
        0 <= n <= records.len(),
        forall|j: int| 0 <= j < n ==> #[trigger] records[j].tag@ != t,
    ensures
        count_tag(records.take(n), t) == 0,
    decreases n,
{
    if n > 0 {
        assert(records.take(n).drop_last() =~= records.take(n - 1));
        lemma_count_absent(records, n - 1, t);
    }
}

/// A prefix never counts more than its length.
proof fn lemma_count_tag_bound(records: Seq<GedcomRecord>, t: Seq<char>)
    ensures
        count_tag(records, t) <= records.len(),
    decreases records.len(),
{
    if records.len() > 0 {
        lemma_count_tag_bound(records.drop_last(), t);
    }
}

/// Counts the skipped (unmapped) top-level records by tag, in order of first
/// appearance.
fn skipped_tags(records: &Vec<GedcomRecord>) -> (r: Vec<(String, usize)>)
    ensures
        skipped_counts(entry_views(r@), records@),
{
    let mut keys: Vec<Vec<char>> = Vec::new();
    let mut counts: Vec<usize> = Vec::new();
    let mut i: usize = 0;
    while i < records.len()
        invariant
            i <= records.len(),
            keys.len() == counts.len(),
            forall|k: int|
                0 <= k < keys.len() ==> !is_mapped_tag(#[trigger] keys@[k]@) && counts@[k]
                    == count_tag(records@.take(i as int), keys@[k]@),
            forall|j: int|
                0 <= j < i && !is_mapped_tag(#[trigger] records@[j].tag@) ==> exists|k: int|
                    0 <= k < keys.len() && keys@[k]@ == records@[j].tag@,
            forall|a: int, b: int|
                0 <= a < b < keys.len() ==> #[trigger] keys@[a]@ != #[trigger] keys@[b]@,
        decreases records.len() - i,
    {
        let rec = &records[i];
        let ghost t = rec.tag@;
        proof {
            assert(records@.take(i + 1).drop_last() =~= records@.take(i as int));
            assert(records@.take(i + 1).last() == *rec);
        }
        let mapped = tag_is(rec, "HEAD") || tag_is(rec, "TRLR") || tag_is(rec, "INDI") || tag_is(
            rec,
            "FAM",
        ) || tag_is(rec, "OBJE") || tag_is(rec, "SOUR") || tag_is(rec, "REPO");
        let ghost old_keys = keys@;
        if !mapped {
            let tc = chars_of(rec.tag.as_str());
            let mut k: usize = 0;
            while k < keys.len() && !chars_eq(keys[k].as_slice(), tc.as_slice())
                invariant
                    k <= keys.len(),
                    tc@ == t,
                    forall|m: int| 0 <= m < k ==> keys@[m]@ != t,
                decreases keys.len() - k,
            {
                k = k + 1;
            }
            if k < keys.len() {
                proof {
                    lemma_count_tag_bound(records@.take(i as int), t);
                }
                let c = counts[k];
                counts.set(k, c + 1);
                proof {
                    assert forall|j: int|
                        0 <= j < i + 1 && !is_mapped_tag(#[trigger] records@[j].tag@) implies exists|
                            m: int,
                        | 0 <= m < keys.len() && keys@[m]@ == records@[j].tag@ by {
                        if j == i {
                            assert(keys@[k as int]@ == records@[j].tag@);
                        }
                    }
                }
            } else {
                proof {
                    assert forall|j: int| 0 <= j < i implies #[trigger] records@[j].tag@ != t by {
                        if records@[j].tag@ == t {
                            let kk = choose|kk: int|
                                0 <= kk < keys.len() && keys@[kk]@ == records@[j].tag@;
                        }
                    }
                    lemma_count_absent(records@, i as int, t);
                    assert(records@.take(i as int) =~= records@.take(i as int).take(i as int));
                }
                keys.push(tc);
                counts.push(1);
                proof {
                    assert forall|j: int|
                        0 <= j < i + 1 && !is_mapped_tag(#[trigger] records@[j].tag@) implies exists|
                            m: int,
                        | 0 <= m < keys.len() && keys@[m]@ == records@[j].tag@ by {
                        if j == i {
                            assert(keys@[keys.len() - 1]@ == records@[j].tag@);
                        } else {
                            let kk = choose|kk: int|
                                0 <= kk < old_keys.len() && old_keys[kk]@ == records@[j].tag@;
                            assert(keys@[kk]@ == records@[j].tag@);
                        }
                    }
                }
            }
        }
        i = i + 1;
    }
    assert(records@.take(records.len() as int) =~= records@);
    let mut out: Vec<(String, usize)> = Vec::new();
    let mut k: usize = 0;
    while k < keys.len()
        invariant
            k <= keys.len(),
            keys.len() == counts.len(),
            out.len() == k,
            forall|m: int| 0 <= m < k ==> (#[trigger] out@[m]).0@ == keys@[m]@ && out@[m].1 == counts@[m],
        decreases keys.len() - k,
    {
        let key = slice_chars(keys[k].as_slice(), 0, keys[k].len());
        assert(key@ =~= keys@[k as int]@);
        out.push((string_from_chars(key), counts[k]));
        k = k + 1;
    }
    proof {
        let ev = entry_views(out@);
        assert forall|m: int| 0 <= m < ev.len() implies ev[m] == (keys@[m]@, counts@[m]) by {
            assert(out@[m].0@ == keys@[m]@);
        }
        assert forall|j: int|
            0 <= j < records@.len() && !is_mapped_tag(#[trigger] records@[j].tag@) implies exists|
                m: int,
            | 0 <= m < ev.len() && ev[m].0 == records@[j].tag@ by {
            let kk = choose|kk: int| 0 <= kk < keys.len() && keys@[kk]@ == records@[j].tag@;
            assert(ev[kk].0 == keys@[kk]@);
        }
    }
    out
}

/// The last `INDI` record of `records` with xref `x`.
pub open spec fn last_indi(records: Seq<GedcomRecord>, x: Seq<char>) -> Option<GedcomRecord>
    decreases records.len(),
{
    if records.len() == 0 {
        None
    } else {
        let rec = records.last();
        if rec.tag@ == "INDI"@ && (rec.xref matches Some(rx) && rx@ == x) {
            Some(rec)
        } else {
            last_indi(records.drop_last(), x)
        }
    }
}

/// A child's relation in the family with xref `fx`: what the last `INDI`
/// record with the child's xref `x` says of it in its `FAMC.PEDI`, birth when
/// there is no such record.
pub open spec fn child_relation(records: Seq<GedcomRecord>, x: Seq<char>, fx: Seq<char>) -> ChildRelation {
    match last_indi(records, x) {
        Some(r) => relation_in(tagged(r.children@, "FAMC"@), fx),
        None => ChildRelation::Birth,
    }
}

/// The last `INDI` record with xref `x`.
fn find_indi<'a>(records: &'a Vec<GedcomRecord>, x: &[char]) -> (r: Option<&'a GedcomRecord>)
    ensures
        match r {
            Some(rec) => last_indi(records@, x@) == Some(*rec),
            None => last_indi(records@, x@) is None,
        },
{
    let mut i: usize = records.len();
    assert(records@.take(i as int) =~= records@);
    while i > 0
        invariant
            i <= records.len(),
            last_indi(records@, x@) == last_indi(records@.take(i as int), x@),
        decreases i,
    {
        assert(records@.take(i as int).drop_last() =~= records@.take(i - 1));
        let rec = &records[i - 1];
        if tag_is(rec, "INDI") {
            match &rec.xref {
                Some(rx) => {
                    let c = chars_of(rx.as_str());
                    if chars_eq(c.as_slice(), x) {
                        return Some(rec);
                    }
                },
                None => {},
            }
        }
        i = i - 1;
    }
    None
}

/// One more record counted.
proof fn lemma_count_step(records: Seq<GedcomRecord>, i: int, t: Seq<char>)
    requires
        0 <= i < records.len(),
    ensures
        count_tag(records.take(i + 1), t) == count_tag(records.take(i), t) + if records[i].tag@
            == t {
            1int
        } else {
            0int
        },
{
    assert(records.take(i + 1).drop_last() =~= records.take(i));
    assert(records.take(i + 1).last() == records[i]);
}

/// A pushed entry is a key; the earlier keys stay.
proof fn lemma_has_key_push(m: Seq<(Vec<char>, usize)>, e: (Vec<char>, usize), y: Seq<char>)
    ensures
        has_key(m.push(e), y) == (e.0@ == y || has_key(m, y)),
{
    assert(handle_views(m.push(e)).drop_last() =~= handle_views(m));
    assert(handle_views(m.push(e)).last() == (e.0@, e.1));
}

/// `defines` over a prefix one record longer.
proof fn lemma_defines_step(records: Seq<GedcomRecord>, i: int, t: Seq<char>, y: Seq<char>)
    requires
        0 <= i < records.len(),
    ensures
        defines(records.take(i + 1), t, y) == (defines(records.take(i), t, y) || (records[i].tag@ == t
            && opt_view(records[i].xref) == Some(y))),
{
    let a = records.take(i);
    let b = records.take(i + 1);
    if defines(b, t, y) {
        let k = choose|k: int| 0 <= k < b.len() && #[trigger] b[k].tag@ == t && opt_view(b[k].xref) == Some(y);
        if k < i {
            assert(a[k] == b[k]);
        } else {
            assert(b[k] == records[i]);
        }
    }
    if defines(a, t, y) {
        let k = choose|k: int| 0 <= k < a.len() && #[trigger] a[k].tag@ == t && opt_view(a[k].xref) == Some(y);
        assert(b[k] == a[k]);
    }
    if records[i].tag@ == t && opt_view(records[i].xref) == Some(y) {
        assert(b[i] == records[i]);
    }
}

/// Entering a record with tag `t` and xref `x` keeps the keys exact.
proof fn lemma_keys_push(
    m: Seq<(Vec<char>, usize)>,
    e: (Vec<char>, usize),
    records: Seq<GedcomRecord>,
    i: int,
    t: Seq<char>,
)
    requires
        keys_are(m, records.take(i), t),
        0 <= i < records.len(),
        records[i].tag@ == t,
        opt_view(records[i].xref) == Some(e.0@),
    ensures
        keys_are(m.push(e), records.take(i + 1), t),
{
    assert forall|y: Seq<char>| #[trigger] has_key(m.push(e), y) <==> defines(records.take(i + 1), t, y) by {
        lemma_has_key_push(m, e, y);
        lemma_defines_step(records, i, t, y);
    }
}

/// Passing a record without tag `t` or without an xref keeps the keys exact.
proof fn lemma_keys_same(m: Seq<(Vec<char>, usize)>, records: Seq<GedcomRecord>, i: int, t: Seq<char>)
    requires
        keys_are(m, records.take(i), t),
        0 <= i < records.len(),
        !(records[i].tag@ == t && records[i].xref is Some),
    ensures
        keys_are(m, records.take(i + 1), t),
{
    assert forall|y: Seq<char>| #[trigger] has_key(m, y) <==> defines(records.take(i + 1), t, y) by {
        lemma_defines_step(records, i, t, y);
    }
}

/// With exact keys, found pointers are resolving pointers.
proof fn lemma_found_resolve(
    m: Seq<(Vec<char>, usize)>,
    records: Seq<GedcomRecord>,
    rec: GedcomRecord,
    t: Seq<char>,
    target: Seq<char>,
)
    requires
        keys_are(m, records, target),
    ensures
        pointers_found(m, rec, t) == pointers_resolve(records, rec, t, target),
{
    let ts = tagged(rec.children@, t);
    if pointers_found(m, rec, t) {
        assert forall|j: int| 0 <= j < ts.len() implies match pointer_of(value_of(#[trigger] ts[j])) {
            Some(p) => defines(records, target, p),
            None => true,
        } by {
            if let Some(p) = pointer_of(value_of(ts[j])) {
                assert(has_key(m, p));
            }
        }
    } else {
        let j = choose|j: int| 0 <= j < ts.len() && !(match pointer_of(value_of(#[trigger] ts[j])) {
            Some(p) => has_key(m, p),
            None => true,
        });
        if let Some(p) = pointer_of(value_of(ts[j])) {
            assert(!defines(records, target, p));
        }
    }
}

/// With exact source keys, found events are resolving events.
proof fn lemma_events_resolve(m: Seq<(Vec<char>, usize)>, records: Seq<GedcomRecord>, rec: GedcomRecord, family: bool)
    requires
        keys_are(m, records, "SOUR"@),
    ensures
        events_found(m, rec, family) == events_resolve(records, rec, family),
{
    assert forall|j: int| 0 <= j < rec.children.len() implies pointers_found(m, #[trigger] rec.children@[j], "SOUR"@)
        == pointers_resolve(records, rec.children@[j], "SOUR"@, "SOUR"@) by {
        lemma_found_resolve(m, records, rec.children@[j], "SOUR"@, "SOUR"@);
    }
}

/// With exact individual keys, a found partner is a resolving partner.
proof fn lemma_partner_resolves(m: Seq<(Vec<char>, usize)>, records: Seq<GedcomRecord>, rec: GedcomRecord, t: Seq<char>)
    requires
        keys_are(m, records, "INDI"@),
    ensures
        partner_found(m, rec, t) == partner_resolves(records, rec, t),
{
    if let Some(c) = child_of(rec, t) {
        if let Some(p) = pointer_of(value_of(c)) {
            assert(has_key(m, p) == defines(records, "INDI"@, p));
        }
    }
}

/// Plans the import of a document's records: the writes, in order, that
/// create its sources, individuals (with alternate names, events, places and
/// citations), families, media and their links, and children, and the summary
/// of what they create. `store_empty` tells whether the database holds no
/// individuals yet.
///
/// # Errors
/// [`CoreError::Validation`] for a non-merge import into a non-empty
/// database (`database is not empty; pass merge to append`), and citing the
/// line for an individual or family without an xref, an event date that does
/// not parse, or a pointer that names nothing.
#[verifier::spinoff_prover]
#[verifier::rlimit(80)]
pub fn plan_records(records: &Vec<GedcomRecord>, options: &ImportOptions, store_empty: bool) -> (r:
    Result<ImportPlan, CoreError>)
    ensures
        !options.merge && !store_empty ==> (r matches Err(e) && e is Validation
            && e->Validation_0@ == "database is not empty; pass merge to append"@),
        r matches Ok(p) ==> {
            &&& plan_wf(p.steps@)
            &&& summary_counts(p.summary, p.steps@)
            &&& places_once(p.steps@)
            &&& p.summary.individuals == count_tag(records@, "INDI"@)
            &&& p.summary.families == count_tag(records@, "FAM"@)
            &&& p.summary.sources == count_tag(records@, "SOUR"@)
            &&& skipped_counts(entry_views(p.summary.skipped_tags@), records@)
            &&& sources_drafted(records@, repo_pairs(records@), p.steps@)
            &&& individuals_drafted(records@, p.steps@)
            &&& families_drafted(records@, records@, p.steps@)
            &&& media_drafted(records@, p.steps@)
            &&& children_drafted(child_links(records@), records@, p.steps@)
            &&& names_drafted(name_links(records@), p.steps@)
            &&& events_drafted(event_links(records@, "INDI"@) + event_links(records@, "FAM"@), records@, p.steps@)
            &&& citations_drafted(cite_links(records@, "INDI"@) + cite_links(records@, "FAM"@), records@, p.steps@)
            &&& links_drafted(object_links(records@), records@, p.steps@)
        },
        r matches Err(e) ==> e is Validation,
        r is Ok <==> (options.merge || store_empty) && plannable(records@),
{
    if !options.merge && !store_empty {
        let mut m: Vec<char> = Vec::new();
        push_str(&mut m, "database is not empty; pass merge to append");
        return Err(CoreError::Validation(string_from_chars(m)));
    }
    let mut p = Planner::new();
    assert(records@.take(0) =~= Seq::<GedcomRecord>::empty());
    assert(keys_are(p.sources@, records@.take(0), "SOUR"@)) by {
        assert forall|y: Seq<char>| !(#[trigger] has_key(p.sources@, y)) by {
            assert(handle_views(p.sources@).len() == 0);
        }
    }

    assert(steps_of_kind(p.steps@, 0).len() == 0);
    assert(steps_of_kind(p.steps@, 1).len() == 0);
    assert(steps_of_kind(p.steps@, 7).len() == 0);
    assert(steps_of_kind(p.steps@, 9).len() == 0);
    assert(steps_of_kind(p.steps@, 2).len() == 0);
    assert(steps_of_kind(p.steps@, 4).len() == 0);
    assert(steps_of_kind(p.steps@, 5).len() == 0);
    assert(steps_of_kind(p.steps@, 8).len() == 0);

    // Repository names by xref, for the sources that point to them.
    let mut repo_names: Vec<(Vec<char>, Vec<char>)> = Vec::new();
    let mut i: usize = 0;
    while i < records.len()
        invariant
            i <= records.len(),
            pair_views(repo_names@) == repo_pairs(records@.take(i as int)),
        decreases records.len() - i,
    {
        let rec = &records[i];
        let ghost rn0 = repo_names@;
        proof {
            assert(records@.take(i + 1).drop_last() =~= records@.take(i as int));
        }
        if tag_is(rec, "REPO") {
            match (&rec.xref, child_string(rec, "NAME")) {
                (Some(x), Some(n)) => {
                    repo_names.push((chars_of(x.as_str()), chars_of(n.as_str())));
                    assert(pair_views(repo_names@) =~= pair_views(rn0).push((x@, n@)));
                },
                _ => {},
            }
        }
        i = i + 1;
    }
    assert(records@.take(records.len() as int) =~= records@);

    // Sources first, so every later record can cite them.
    let mut i: usize = 0;
    while i < records.len()
        invariant
            i <= records.len(),
            p.inv(),
            options.merge || store_empty,
            p.summary.sources == count_tag(records@.take(i as int), "SOUR"@),
            p.summary.individuals == 0,
            p.summary.families == 0,
            p.summary.skipped_tags@.len() == 0,
            keys_are(p.sources@, records@.take(i as int), "SOUR"@),
            pair_views(repo_names@) == repo_pairs(records@),
            sources_drafted(records@.take(i as int), repo_pairs(records@), p.steps@),
            steps_of_kind(p.steps@, 1).len() == 0,
            steps_of_kind(p.steps@, 7).len() == 0,
            steps_of_kind(p.steps@, 9).len() == 0,
            steps_of_kind(p.steps@, 2).len() == 0,
            steps_of_kind(p.steps@, 4).len() == 0,
            steps_of_kind(p.steps@, 5).len() == 0,
            steps_of_kind(p.steps@, 8).len() == 0,
            p.primaried@.len() == 0,
            sources_handled(p.sources@, p.steps@, records@),
            p.persons@.len() == 0,
            p.families@.len() == 0,
            p.media@.len() == 0,
        decreases records.len() - i,
    {
        let rec = &records[i];
        let ghost src0 = p.sources@;
        let ghost c0 = steps_of_kind(p.steps@, 0);
        let ghost t0 = records@.take(i as int);
        let ghost t1 = records@.take(i + 1);
        proof {
            lemma_count_step(records@, i as int, "SOUR"@);
            assert(t1.drop_last() =~= t0);
            assert(t1.last() == records@[i as int]);
        }
        if tag_is(rec, "SOUR") {
            let idx = p.steps.len();
            let draft = source_draft(rec, &repo_names);
            let ghost st_s = p.steps@;
            p.add(ImportStep::CreateSource(draft));
            proof {
                assert(extends(st_s, p.steps@));
                lemma_sources_handled_extends(p.sources@, st_s, p.steps@, records@);
                let c = steps_of_kind(p.steps@, 0);
                assert(c == c0.push(ImportStep::CreateSource(draft)));
                assert(tagged(t1, "SOUR"@) == tagged(t0, "SOUR"@).push(records@[i as int]));
                assert forall|k: int| 0 <= k < c.len() implies (#[trigger] c[k] matches ImportStep::CreateSource(d)
                    && source_fields(tagged(t1, "SOUR"@)[k], repo_pairs(records@), d)) by {
                    if k < c0.len() {
                        assert(c[k] == c0[k]);
                        assert(tagged(t1, "SOUR"@)[k] == tagged(t0, "SOUR"@)[k]);
                    }
                }
            }
            match &rec.xref {
                Some(x) => {
                    let ghost before = p.sources@;
                    let sx = chars_of(x.as_str());
                    p.sources.push((sx, idx));
                    proof {
                        assert forall|k: int| 0 <= k < p.sources@.len() implies is_ref(
                            p.steps@,
                            p.steps@.len() as int,
                            #[trigger] p.sources@[k].1,
                            Entity::Source,
                        ) by {
                            if k < before.len() {
                                assert(p.sources@[k] == before[k]);
                            }
                        }
                        assert(drafts_source(records@[i as int], sx@, records@, p.steps@[idx as int]));
                        assert forall|k: int| 0 <= k < p.sources@.len() implies source_step(
                            p.steps@,
                            records@,
                            p.sources@[k].0@,
                            #[trigger] p.sources@[k].1,
                        ) by {
                            if k < before.len() {
                                assert(p.sources@[k] == before[k]);
                            }
                        }
                    }
                },
                None => {},
            }
        } else {
            assert(tagged(t1, "SOUR"@) == tagged(t0, "SOUR"@));
        }
        proof {
            if records@[i as int].tag@ == "SOUR"@ && records@[i as int].xref is Some {
                assert(p.sources@ =~= src0.push(p.sources@.last()));
                lemma_keys_push(src0, p.sources@.last(), records@, i as int, "SOUR"@);
            } else {
                lemma_keys_same(src0, records@, i as int, "SOUR"@);
            }
        }
        i = i + 1;
    }
    assert(records@.take(records.len() as int) =~= records@);
    assert(p.persons@.len() == 0);
    assert(records@.take(0) =~= Seq::<GedcomRecord>::empty());
    assert(keys_are(p.persons@, records@.take(0), "INDI"@)) by {
        assert forall|y: Seq<char>| !(#[trigger] has_key(p.persons@, y)) by {
            assert(handle_views(p.persons@).len() == 0);
        }
    }

    // Individuals, with their alternate names, events and citations.
    let mut i: usize = 0;
    while i < records.len()
        invariant
            i <= records.len(),
            p.inv(),
            options.merge || store_empty,
            p.summary.sources == count_tag(records@, "SOUR"@),
            p.summary.individuals == count_tag(records@.take(i as int), "INDI"@),
            p.summary.families == 0,
            p.summary.skipped_tags@.len() == 0,
            keys_are(p.sources@, records@, "SOUR"@),
            keys_are(p.persons@, records@.take(i as int), "INDI"@),
            indis_resolve(records@, i as int),
            individuals_drafted(records@.take(i as int), p.steps@),
            sources_drafted(records@, repo_pairs(records@), p.steps@),
            persons_drafted(p.persons@, p.steps@, records@),
            names_drafted(name_links(records@.take(i as int)), p.steps@),
            events_drafted(event_links(records@.take(i as int), "INDI"@), records@, p.steps@),
            citations_drafted(cite_links(records@.take(i as int), "INDI"@), records@, p.steps@),
            sources_handled(p.sources@, p.steps@, records@),
            steps_of_kind(p.steps@, 8).len() == 0,
            p.primaried@.len() == 0,
            steps_of_kind(p.steps@, 7).len() == 0,
            steps_of_kind(p.steps@, 9).len() == 0,
            p.families@.len() == 0,
            p.media@.len() == 0,
        decreases records.len() - i,
    {
        let rec = &records[i];
        let ghost per0 = p.persons@;
        let ghost c0 = steps_of_kind(p.steps@, 1);
        let ghost nl0 = name_links(records@.take(i as int));
        let ghost el0 = event_links(records@.take(i as int), "INDI"@);
        let ghost cl0 = cite_links(records@.take(i as int), "INDI"@);
        let ghost k0 = steps_of_kind(p.steps@, 0);
        let ghost m0 = steps_of_kind(p.steps@, 7);
        let ghost mut dg = arbitrary::<ImportStep>();
        proof {
            lemma_count_step(records@, i as int, "INDI"@);
        }
        if tag_is(rec, "INDI") {
            let x = match &rec.xref {
                Some(x) => x,
                None => {
                    assert(!record_plannable(records@, records@[i as int]));
                    return Err(line_message(rec.line_no, ": INDI record without an @xref@"));
                },
            };
            let (primary, alternates) = split_names(rec);
            let draft = individual_draft(rec, primary);
            proof {
                dg = ImportStep::CreateIndividual(draft);
            }
            let idx = p.steps.len();
            let ghost st_a = p.steps@;
            p.add(ImportStep::CreateIndividual(draft));
            let ghost before = p.persons@;
            let xc = chars_of(x.as_str());
            p.persons.push((xc, idx));
            proof {
                assert forall|k: int| 0 <= k < p.persons@.len() implies is_ref(
                    p.steps@,
                    p.steps@.len() as int,
                    #[trigger] p.persons@[k].1,
                    Entity::Individual,
                ) by {
                    if k < before.len() {
                        assert(p.persons@[k] == before[k]);
                    }
                }
                assert(extends(st_a, p.steps@));
                lemma_persons_extends(before, st_a, p.steps@, records@);
                assert(draft_fields(*rec, primary_of(*rec), draft));
                assert(drafts_indi(records@[i as int], xc@, p.steps@[idx as int]));
                assert forall|k: int| 0 <= k < p.persons@.len() implies indi_step(
                    p.steps@,
                    records@,
                    p.persons@[k].0@,
                    #[trigger] p.persons@[k].1,
                ) by {
                    if k < before.len() {
                        assert(p.persons@[k] == before[k]);
                    }
                }
            }
            let ghost s0 = p;
            let ghost rn = record_names(*rec);
            proof {
                lemma_names_extends(nl0, st_a, p.steps@);
                lemma_events_drafted_extends(el0, records@, st_a, p.steps@);
                lemma_citations_drafted_extends(cl0, records@, st_a, p.steps@);
                lemma_sources_handled_extends(p.sources@, st_a, p.steps@, records@);
                assert(nl0 + rn.take(0) =~= nl0);
            }
            let mut order: usize = 0;
            while order < alternates.len()
                invariant
                    order <= alternates.len(),
                    p.inv(),
                    options.merge || store_empty,
                    persons_drafted(p.persons@, p.steps@, records@),
                    idx < p.steps@.len(),
                    drafts_indi(*rec, xc@, p.steps@[idx as int]),
                    rec.xref == Some(*x),
                    xc@ == x@,
                    rn == record_names(*rec),
                    alternates.len() == alternate_names(*rec).len(),
                    forall|j: int| 0 <= j < alternates.len() ==> *alternates@[j] == alternate_names(*rec)[j],
                    names_drafted(nl0 + rn.take(order as int), p.steps@),
                    steps_of_kind(p.steps@, 4) == steps_of_kind(s0.steps@, 4),
                    steps_of_kind(p.steps@, 5) == steps_of_kind(s0.steps@, 5),
                    steps_of_kind(p.steps@, 8).len() == 0,
                    p.primaried@.len() == 0,
                    Planner::framed_steps(s0, p),
                    steps_of_kind(p.steps@, 1) == c0.push(dg),
                    steps_of_kind(p.steps@, 0) == k0,
                    steps_of_kind(p.steps@, 7) == m0,
                    steps_of_kind(p.steps@, 9).len() == 0,
                    is_ref(s0.steps@, s0.steps@.len() as int, idx, Entity::Individual),
                decreases alternates.len() - order,
            {
                let name_rec = alternates[order];
                let parts = name_parts(name_rec);
                let tv = child_string(name_rec, "TYPE");
                let kind = match &tv {
                    Some(t) => name_kind_for_type(Some(t.as_str())),
                    None => name_kind_for_type(None),
                };
                proof {
                    lemma_ref_extends(s0.steps@, p.steps@, idx, Entity::Individual);
                }
                let ghost s1 = p.steps@;
                let nstep = ImportStep::AddName {
                    individual: idx,
                    kind,
                    given_name: parts.given,
                    surname: parts.surname,
                    name_prefix: parts.prefix,
                    name_suffix: parts.suffix,
                    sort_order: order_of(order),
                };
                let ghost ns = nstep;
                let ghost c_old = steps_of_kind(p.steps@, 2);
                proof {
                    assert(rn[order as int] == (*rec, *name_rec, order as int));
                    assert(name_fields(rn[order as int], s1, ns));
                }
                p.add(nstep);
                assert(extends(s1, p.steps@));
                proof {
                    lemma_persons_extends(p.persons@, s1, p.steps@, records@);
                    assert(p.steps@[idx as int] == s1[idx as int]);
                    lemma_name_fields_extends(rn[order as int], s1, p.steps@, ns);
                    let lo = nl0 + rn.take(order as int);
                    let ln = nl0 + rn.take(order + 1);
                    assert(ln =~= lo.push(rn[order as int]));
                    let cn = steps_of_kind(p.steps@, 2);
                    assert(cn == c_old.push(ns));
                    assert forall|k: int| 0 <= k < cn.len() implies name_fields(ln[k], p.steps@, #[trigger] cn[k]) by {
                        if k < c_old.len() {
                            assert(cn[k] == c_old[k]);
                            assert(ln[k] == lo[k]);
                            lemma_name_fields_extends(lo[k], s1, p.steps@, c_old[k]);
                        }
                    }
                }
                order = order + 1;
            }
            proof {
                lemma_ref_extends(s0.steps@, p.steps@, idx, Entity::Individual);
                assert(rn.take(order as int) =~= rn);
                lemma_events_drafted_extends(el0, records@, s0.steps@, p.steps@);
                lemma_citations_drafted_extends(cl0, records@, s0.steps@, p.steps@);
                lemma_sources_handled_extends(p.sources@, s0.steps@, p.steps@, records@);
            }
            proof {
                lemma_events_resolve(p.sources@, records@, *rec, false);
                lemma_found_resolve(p.sources@, records@, *rec, "SOUR"@, "SOUR"@);
            }
            let ghost s2 = p;
            match p.add_events(rec, PlanSubject::Individual(idx), false) {
                Ok(()) => {},
                Err(e) => {
                    assert(!record_plannable(records@, records@[i as int]));
                    return Err(e);
                },
            }
            proof {
                lemma_framed_created(s2, p);
                lemma_persons_extends(p.persons@, s2.steps@, p.steps@, records@);
                lemma_names_extends(nl0 + rn, s2.steps@, p.steps@);
                assert(owner_ok(*rec, records@, s2.steps@, PlanSubject::Individual(idx)));
                assert(rec.tag@ == "INDI"@);
                reveal_strlit("INDI");
                reveal_strlit("FAM");
                assert(rec.tag@.len() == 4);
                assert("FAM"@.len() == 3);
                assert(rec.tag@ != "FAM"@);
                lemma_events_drafted_append(el0, records@, s2.steps@, p.steps@, *rec, PlanSubject::Individual(idx));
                lemma_citations_append(
                    cl0,
                    records@,
                    s2.steps@,
                    p.steps@,
                    *rec,
                    PlanSubject::Individual(idx),
                    event_cites(events_of(rec.children@, false)),
                    s2.sources@,
                );
                lemma_sources_handled_extends(p.sources@, s2.steps@, p.steps@, records@);
                lemma_owner_extends(*rec, records@, s2.steps@, p.steps@, PlanSubject::Individual(idx));
                lemma_ref_extends(s0.steps@, p.steps@, idx, Entity::Individual);
            }
            let ghost s3 = p;
            match p.add_citations(rec, PlanSubject::Individual(idx)) {
                Ok(()) => {},
                Err(e) => {
                    assert(!record_plannable(records@, records@[i as int]));
                    return Err(e);
                },
            }
            proof {
                lemma_framed_created(s3, p);
                lemma_persons_extends(p.persons@, s3.steps@, p.steps@, records@);
                lemma_names_extends(nl0 + rn, s3.steps@, p.steps@);
                lemma_events_drafted_extends(el0 + record_events(*rec), records@, s3.steps@, p.steps@);
                let ec = event_cites(events_of(rec.children@, false));
                let mec = Seq::new(ec.len(), |j: int| (*rec, ec[j].0, ec[j].1));
                lemma_citations_append(
                    cl0 + mec,
                    records@,
                    s3.steps@,
                    p.steps@,
                    *rec,
                    PlanSubject::Individual(idx),
                    own_cites(*rec),
                    s3.sources@,
                );
                lemma_sources_handled_extends(p.sources@, s3.steps@, p.steps@, records@);
                let moc = Seq::new(own_cites(*rec).len(), |j: int| (*rec, own_cites(*rec)[j].0, own_cites(*rec)[j].1));
                assert(record_cites(*rec) =~= mec + moc);
                assert(cl0 + mec + moc =~= cl0 + record_cites(*rec));
                assert(dg matches ImportStep::CreateIndividual(d) && draft_fields(*rec, primary_of(*rec), d));
            }
            assert(indi_resolves(records@, records@[i as int]));
        }
        proof {
            let t0 = records@.take(i as int);
            let t1 = records@.take(i + 1);
            assert(t1.drop_last() =~= t0);
            assert(t1.last() == records@[i as int]);
            if records@[i as int].tag@ == "INDI"@ {
                assert(name_links(t1) == nl0 + record_names(records@[i as int]));
                assert(event_links(t1, "INDI"@) == el0 + record_events(records@[i as int]));
                assert(cite_links(t1, "INDI"@) == cl0 + record_cites(records@[i as int]));
                assert(tagged(t1, "INDI"@) == tagged(t0, "INDI"@).push(records@[i as int]));
                let c = steps_of_kind(p.steps@, 1);
                assert(c == c0.push(dg));
                assert forall|k: int| 0 <= k < c.len() implies (#[trigger] c[k] matches ImportStep::CreateIndividual(d)
                    && draft_fields(tagged(t1, "INDI"@)[k], primary_of(tagged(t1, "INDI"@)[k]), d)) by {
                    if k < c0.len() {
                        assert(c[k] == c0[k]);
                        assert(tagged(t1, "INDI"@)[k] == tagged(t0, "INDI"@)[k]);
                    }
                }
            } else {
                assert(name_links(t1) =~= nl0);
                assert(event_links(t1, "INDI"@) =~= el0);
                assert(cite_links(t1, "INDI"@) =~= cl0);
                assert(tagged(t1, "INDI"@) == tagged(t0, "INDI"@));
            }
        }
        proof {
            if records@[i as int].tag@ == "INDI"@ && records@[i as int].xref is Some {
                assert(p.persons@ =~= per0.push(p.persons@[per0.len() as int]));
                lemma_keys_push(per0, p.persons@[per0.len() as int], records@, i as int, "INDI"@);
            } else {
                lemma_keys_same(per0, records@, i as int, "INDI"@);
            }
        }
        i = i + 1;
    }

    assert(records@.take(records.len() as int) =~= records@);
    assert(keys_are(p.families@, records@.take(0), "FAM"@)) by {
        assert forall|y: Seq<char>| !(#[trigger] has_key(p.families@, y)) by {
            assert(handle_views(p.families@).len() == 0);
        }
    }

    // Families, with partners resolved, events and citations.
    proof {
        lemma_kind_len(p.steps@, 6);
        assert(event_links(records@, "INDI"@) + event_links(records@.take(0), "FAM"@) =~= event_links(
            records@,
            "INDI"@,
        ));
        assert(cite_links(records@, "INDI"@) + cite_links(records@.take(0), "FAM"@) =~= cite_links(
            records@,
            "INDI"@,
        ));
    }
    let mut i: usize = 0;
    while i < records.len()
        invariant
            i <= records.len(),
            p.inv(),
            options.merge || store_empty,
            p.summary.sources == count_tag(records@, "SOUR"@),
            p.summary.individuals == count_tag(records@, "INDI"@),
            p.summary.families == count_tag(records@.take(i as int), "FAM"@),
            p.summary.skipped_tags@.len() == 0,
            keys_are(p.sources@, records@, "SOUR"@),
            keys_are(p.persons@, records@, "INDI"@),
            keys_are(p.families@, records@.take(i as int), "FAM"@),
            indis_resolve(records@, records@.len() as int),
            fams_resolve(records@, i as int),
            individuals_drafted(records@, p.steps@),
            sources_drafted(records@, repo_pairs(records@), p.steps@),
            persons_drafted(p.persons@, p.steps@, records@),
            families_drafted(records@.take(i as int), records@, p.steps@),
            families_handled(p.families@, p.steps@, records@),
            events_drafted(
                event_links(records@, "INDI"@) + event_links(records@.take(i as int), "FAM"@),
                records@,
                p.steps@,
            ),
            citations_drafted(
                cite_links(records@, "INDI"@) + cite_links(records@.take(i as int), "FAM"@),
                records@,
                p.steps@,
            ),
            sources_handled(p.sources@, p.steps@, records@),
            steps_of_kind(p.steps@, 8).len() == 0,
            p.primaried@.len() == 0,
            names_drafted(name_links(records@), p.steps@),
            steps_of_kind(p.steps@, 7).len() == 0,
            steps_of_kind(p.steps@, 9).len() == 0,
            p.media@.len() == 0,
        decreases records.len() - i,
    {
        let rec = &records[i];
        let ghost fam0 = p.families@;
        let ghost st0 = p.steps@;
        let ghost c0 = steps_of_kind(p.steps@, 6);
        let ghost ef0 = event_links(records@.take(i as int), "FAM"@);
        let ghost ei = event_links(records@, "INDI"@);
        let ghost cf0 = cite_links(records@.take(i as int), "FAM"@);
        let ghost ci = cite_links(records@, "INDI"@);
        let ghost t0 = records@.take(i as int);
        let ghost t1 = records@.take(i + 1);
        proof {
            assert(t1.drop_last() =~= t0);
            assert(t1.last() == records@[i as int]);
            lemma_count_step(records@, i as int, "FAM"@);
            lemma_events_resolve(p.sources@, records@, *rec, true);
            lemma_found_resolve(p.sources@, records@, *rec, "SOUR"@, "SOUR"@);
            lemma_partner_resolves(p.persons@, records@, *rec, "HUSB"@);
            lemma_partner_resolves(p.persons@, records@, *rec, "WIFE"@);
        }
        if tag_is(rec, "FAM") {
            let x = match &rec.xref {
                Some(x) => x,
                None => {
                    assert(!record_plannable(records@, records@[i as int]));
                    return Err(line_message(rec.line_no, ": FAM record without an @xref@"));
                },
            };
            let partner1 = match p.resolve_partner(rec, "HUSB") {
                Ok(v) => v,
                Err(e) => {
                    assert(!record_plannable(records@, records@[i as int]));
                    return Err(e);
                },
            };
            let partner2 = match p.resolve_partner(rec, "WIFE") {
                Ok(v) => v,
                Err(e) => {
                    assert(!record_plannable(records@, records@[i as int]));
                    return Err(e);
                },
            };
            let union_type = if rec.child("MARR").is_some() {
                UnionType::Marriage
            } else {
                UnionType::Unknown
            };
            let notes = child_string(rec, "NOTE");
            let idx = p.steps.len();
            let fstep = ImportStep::CreateFamily { partner1, partner2, union_type, notes };
            let ghost fs = fstep;
            proof {
                lemma_partner_slot(p.persons@, st0, records@, *rec, "HUSB"@, partner1);
                lemma_partner_slot(p.persons@, st0, records@, *rec, "WIFE"@, partner2);
                assert(family_fields(*rec, records@, st0, fs));
            }
            p.add(fstep);
            proof {
                let st1 = p.steps@;
                assert(extends(st0, st1));
                lemma_events_drafted_extends(ei + ef0, records@, st0, st1);
                lemma_citations_drafted_extends(ci + cf0, records@, st0, st1);
                lemma_sources_handled_extends(p.sources@, st0, st1, records@);
                lemma_persons_extends(p.persons@, st0, st1, records@);
                lemma_family_fields_extends(*rec, records@, st0, st1, fs);
                let c = steps_of_kind(st1, 6);
                assert(c == c0.push(fs));
                assert(tagged(t1, "FAM"@) == tagged(t0, "FAM"@).push(records@[i as int]));
                assert forall|k: int| 0 <= k < c.len() implies family_fields(
                    tagged(t1, "FAM"@)[k],
                    records@,
                    st1,
                    #[trigger] c[k],
                ) by {
                    if k < c0.len() {
                        assert(c[k] == c0[k]);
                        assert(tagged(t1, "FAM"@)[k] == tagged(t0, "FAM"@)[k]);
                        lemma_family_fields_extends(tagged(t0, "FAM"@)[k], records@, st0, st1, c0[k]);
                    }
                }
            }
            let ghost before = p.families@;
            let fx = chars_of(x.as_str());
            p.families.push((fx, idx));
            proof {
                assert forall|k: int| 0 <= k < p.families@.len() implies is_ref(
                    p.steps@,
                    p.steps@.len() as int,
                    #[trigger] p.families@[k].1,
                    Entity::Family,
                ) by {
                    if k < before.len() {
                        assert(p.families@[k] == before[k]);
                    }
                }
                lemma_families_handled_extends(before, st0, p.steps@, records@);
                lemma_names_extends(name_links(records@), st0, p.steps@);
                assert(p.steps@[idx as int] == fs);
                assert(drafts_fam(records@[i as int], fx@, records@, p.steps@, p.steps@[idx as int]));
                assert forall|k: int| 0 <= k < p.families@.len() implies fam_step(
                    p.steps@,
                    records@,
                    p.families@[k].0@,
                    #[trigger] p.families@[k].1,
                ) by {
                    if k < before.len() {
                        assert(p.families@[k] == before[k]);
                    }
                }
            }
            let ghost s0 = p;
            match p.add_events(rec, PlanSubject::Family(idx), true) {
                Ok(()) => {},
                Err(e) => {
                    assert(!record_plannable(records@, records@[i as int]));
                    return Err(e);
                },
            }
            proof {
                lemma_framed_created(s0, p);
                lemma_kind_len(s0.steps@, 6);
                assert(rec.tag@ == "FAM"@);
                assert(owner_ok(*rec, records@, s0.steps@, PlanSubject::Family(idx)));
                lemma_events_drafted_append(ei + ef0, records@, s0.steps@, p.steps@, *rec, PlanSubject::Family(idx));
                lemma_citations_append(
                    ci + cf0,
                    records@,
                    s0.steps@,
                    p.steps@,
                    *rec,
                    PlanSubject::Family(idx),
                    event_cites(events_of(rec.children@, true)),
                    s0.sources@,
                );
                lemma_sources_handled_extends(p.sources@, s0.steps@, p.steps@, records@);
                lemma_owner_extends(*rec, records@, s0.steps@, p.steps@, PlanSubject::Family(idx));
                lemma_families_extends(t1, records@, s0.steps@, p.steps@);
                lemma_families_handled_extends(p.families@, s0.steps@, p.steps@, records@);
                lemma_names_extends(name_links(records@), s0.steps@, p.steps@);
                lemma_persons_extends(p.persons@, s0.steps@, p.steps@, records@);
                lemma_ref_extends(s0.steps@, p.steps@, idx, Entity::Family);
            }
            let ghost s1 = p;
            match p.add_citations(rec, PlanSubject::Family(idx)) {
                Ok(()) => {},
                Err(e) => {
                    assert(!record_plannable(records@, records@[i as int]));
                    return Err(e);
                },
            }
            proof {
                lemma_framed_created(s1, p);
                lemma_events_drafted_extends(ei + ef0 + record_events(*rec), records@, s1.steps@, p.steps@);
                let ec = event_cites(events_of(rec.children@, true));
                let mec = Seq::new(ec.len(), |j: int| (*rec, ec[j].0, ec[j].1));
                lemma_citations_append(
                    ci + cf0 + mec,
                    records@,
                    s1.steps@,
                    p.steps@,
                    *rec,
                    PlanSubject::Family(idx),
                    own_cites(*rec),
                    s1.sources@,
                );
                lemma_sources_handled_extends(p.sources@, s1.steps@, p.steps@, records@);
                let moc = Seq::new(own_cites(*rec).len(), |j: int| (*rec, own_cites(*rec)[j].0, own_cites(*rec)[j].1));
                assert(record_cites(*rec) =~= mec + moc);
                assert(ci + cf0 + mec + moc =~= ci + cf0 + record_cites(*rec));
                lemma_families_extends(t1, records@, s1.steps@, p.steps@);
                lemma_families_handled_extends(p.families@, s1.steps@, p.steps@, records@);
                lemma_names_extends(name_links(records@), s1.steps@, p.steps@);
                lemma_persons_extends(p.persons@, s1.steps@, p.steps@, records@);
            }
            assert(fam_resolves(records@, records@[i as int]));
            assert(event_links(t1, "FAM"@) == ef0 + record_events(records@[i as int]));
            assert(ei + event_links(t1, "FAM"@) =~= ei + ef0 + record_events(records@[i as int]));
            assert(cite_links(t1, "FAM"@) == cf0 + record_cites(records@[i as int]));
            assert(ci + cite_links(t1, "FAM"@) =~= ci + cf0 + record_cites(records@[i as int]));
        } else {
            assert(tagged(t1, "FAM"@) == tagged(t0, "FAM"@));
            assert(event_links(t1, "FAM"@) =~= ef0);
            assert(cite_links(t1, "FAM"@) =~= cf0);
        }
        proof {
            if records@[i as int].tag@ == "FAM"@ && records@[i as int].xref is Some {
                assert(p.families@ =~= fam0.push(p.families@[fam0.len() as int]));
                lemma_keys_push(fam0, p.families@[fam0.len() as int], records@, i as int, "FAM"@);
            } else {
                lemma_keys_same(fam0, records@, i as int, "FAM"@);
            }
        }
        i = i + 1;
    }
    assert(records@.take(records.len() as int) =~= records@);

    assert(keys_are(p.media@, records@.take(0), "OBJE"@)) by {
        assert forall|y: Seq<char>| !(#[trigger] has_key(p.media@, y)) by {
            assert(handle_views(p.media@).len() == 0);
        }
    }

    // Top-level objects, then the links to them.
    let mut i: usize = 0;
    while i < records.len()
        invariant
            i <= records.len(),
            p.inv(),
            options.merge || store_empty,
            p.summary.sources == count_tag(records@, "SOUR"@),
            p.summary.individuals == count_tag(records@, "INDI"@),
            p.summary.families == count_tag(records@, "FAM"@),
            p.summary.skipped_tags@.len() == 0,
            keys_are(p.persons@, records@, "INDI"@),
            keys_are(p.families@, records@, "FAM"@),
            keys_are(p.media@, records@.take(i as int), "OBJE"@),
            indis_resolve(records@, records@.len() as int),
            fams_resolve(records@, records@.len() as int),
            individuals_drafted(records@, p.steps@),
            sources_drafted(records@, repo_pairs(records@), p.steps@),
            media_drafted(records@.take(i as int), p.steps@),
            families_drafted(records@, records@, p.steps@),
            steps_of_kind(p.steps@, 7).len() == tagged(records@.take(i as int), "OBJE"@).len(),
            steps_of_kind(p.steps@, 8).len() == 0,
            p.primaried@.len() == 0,
            media_handled(p.media@, p.steps@, records@),
            steps_of_kind(p.steps@, 9).len() == 0,
            persons_drafted(p.persons@, p.steps@, records@),
            families_handled(p.families@, p.steps@, records@),
            names_drafted(name_links(records@), p.steps@),
            events_drafted(event_links(records@, "INDI"@) + event_links(records@, "FAM"@), records@, p.steps@),
            citations_drafted(cite_links(records@, "INDI"@) + cite_links(records@, "FAM"@), records@, p.steps@),
        decreases records.len() - i,
    {
        let rec = &records[i];
        let ghost med0 = p.media@;
        let ghost c0 = steps_of_kind(p.steps@, 7);
        let ghost t0 = records@.take(i as int);
        let ghost t1 = records@.take(i + 1);
        proof {
            assert(t1.drop_last() =~= t0);
            assert(t1.last() == records@[i as int]);
        }
        if tag_is(rec, "OBJE") {
            let idx = p.steps.len();
            let draft = media_draft(rec);
            let ghost stm = p.steps@;
            p.add(ImportStep::CreateMedia(draft));
            proof {
                assert(extends(stm, p.steps@));
                lemma_media_handled_extends(p.media@, stm, p.steps@, records@);
                lemma_families_extends(records@, records@, stm, p.steps@);
                lemma_persons_extends(p.persons@, stm, p.steps@, records@);
                lemma_families_handled_extends(p.families@, stm, p.steps@, records@);
                lemma_names_extends(name_links(records@), stm, p.steps@);
                lemma_events_drafted_extends(event_links(records@, "INDI"@) + event_links(records@, "FAM"@), records@, stm, p.steps@);
                lemma_citations_drafted_extends(cite_links(records@, "INDI"@) + cite_links(records@, "FAM"@), records@, stm, p.steps@);
                let c = steps_of_kind(p.steps@, 7);
                assert(c == c0.push(ImportStep::CreateMedia(draft)));
                assert(tagged(t1, "OBJE"@) == tagged(t0, "OBJE"@).push(records@[i as int]));
                assert forall|k: int| 0 <= k < c.len() implies (#[trigger] c[k] matches ImportStep::CreateMedia(d)
                    && media_fields(tagged(t1, "OBJE"@)[k], d)) by {
                    if k < c0.len() {
                        assert(c[k] == c0[k]);
                        assert(tagged(t1, "OBJE"@)[k] == tagged(t0, "OBJE"@)[k]);
                    }
                }
            }
            match &rec.xref {
                Some(x) => {
                    let ghost before = p.media@;
                    let mx = chars_of(x.as_str());
                    p.media.push((mx, idx));
                    proof {
                        assert forall|k: int| 0 <= k < p.media@.len() implies is_ref(
                            p.steps@,
                            p.steps@.len() as int,
                            #[trigger] p.media@[k].1,
                            Entity::Media,
                        ) by {
                            if k < before.len() {
                                assert(p.media@[k] == before[k]);
                            }
                        }
                        assert(drafts_media(records@[i as int], mx@, p.steps@[idx as int]));
                        assert forall|k: int| 0 <= k < p.media@.len() implies media_step(
                            p.steps@,
                            records@,
                            p.media@[k].0@,
                            #[trigger] p.media@[k].1,
                        ) by {
                            if k < before.len() {
                                assert(p.media@[k] == before[k]);
                            }
                        }
                    }
                },
                None => {},
            }
        } else {
            assert(tagged(t1, "OBJE"@) == tagged(t0, "OBJE"@));
        }
        proof {
            if records@[i as int].tag@ == "OBJE"@ && records@[i as int].xref is Some {
                assert(p.media@ =~= med0.push(p.media@[med0.len() as int]));
                lemma_keys_push(med0, p.media@[med0.len() as int], records@, i as int, "OBJE"@);
            } else {
                lemma_keys_same(med0, records@, i as int, "OBJE"@);
            }
        }
        i = i + 1;
    }
    assert(records@.take(records.len() as int) =~= records@);
    let mut i: usize = 0;
    while i < records.len()
        invariant
            i <= records.len(),
            p.inv(),
            options.merge || store_empty,
            p.summary.sources == count_tag(records@, "SOUR"@),
            p.summary.individuals == count_tag(records@, "INDI"@),
            p.summary.families == count_tag(records@, "FAM"@),
            p.summary.skipped_tags@.len() == 0,
            keys_are(p.persons@, records@, "INDI"@),
            keys_are(p.families@, records@, "FAM"@),
            keys_are(p.media@, records@, "OBJE"@),
            indis_resolve(records@, records@.len() as int),
            fams_resolve(records@, records@.len() as int),
            links_resolve(records@, i as int),
            steps_of_kind(p.steps@, 9).len() == 0,
            links_drafted(object_links(records@.take(i as int)), records@, p.steps@),
            primaried_ok(p.primaried@, p.steps@),
            media_handled(p.media@, p.steps@, records@),
            persons_drafted(p.persons@, p.steps@, records@),
            families_handled(p.families@, p.steps@, records@),
            names_drafted(name_links(records@), p.steps@),
            events_drafted(event_links(records@, "INDI"@) + event_links(records@, "FAM"@), records@, p.steps@),
            citations_drafted(cite_links(records@, "INDI"@) + cite_links(records@, "FAM"@), records@, p.steps@),
            individuals_drafted(records@, p.steps@),
            sources_drafted(records@, repo_pairs(records@), p.steps@),
            media_drafted(records@, p.steps@),
            families_drafted(records@, records@, p.steps@),
        decreases records.len() - i,
    {
        let rec = &records[i];
        let ghost ol0 = object_links(records@.take(i as int));
        proof {
            lemma_found_resolve(p.media@, records@, *rec, "OBJE"@, "OBJE"@);
            assert(records@.take(i + 1).drop_last() =~= records@.take(i as int));
            assert(records@.take(i + 1).last() == records@[i as int]);
        }
        let is_indi = tag_is(rec, "INDI");
        let is_fam = tag_is(rec, "FAM");
        if is_indi || is_fam {
            match &rec.xref {
                Some(x) => {
                    let xc = chars_of(x.as_str());
                    proof {
                        if is_indi {
                            assert(defines(records@, "INDI"@, xc@));
                        } else {
                            assert(defines(records@, "FAM"@, xc@));
                        }
                    }
                    let found = if is_indi {
                        lookup_handle(&p.persons, xc.as_slice())
                    } else {
                        lookup_handle(&p.families, xc.as_slice())
                    };
                    match found {
                        Some(h) => {
                            let subject = if is_indi {
                                proof {
                                    let k = choose|k: int| 0 <= k < p.persons@.len() && #[trigger] p.persons@[k].1 == h;
                                    assert(is_ref(p.steps@, p.steps@.len() as int, p.persons@[k].1, Entity::Individual));
                                    lemma_lookup_entry(p.persons@, xc@, h);
                                    let k2 = choose|k: int| 0 <= k < p.persons@.len() && p.persons@[k].0@ == xc@ && #[trigger] p.persons@[k].1 == h;
                                    assert(indi_step(p.steps@, records@, p.persons@[k2].0@, p.persons@[k2].1));
                                }
                                PlanSubject::Individual(h)
                            } else {
                                proof {
                                    let k = choose|k: int| 0 <= k < p.families@.len() && #[trigger] p.families@[k].1 == h;
                                    assert(is_ref(p.steps@, p.steps@.len() as int, p.families@[k].1, Entity::Family));
                                    lemma_lookup_entry(p.families@, xc@, h);
                                    let k2 = choose|k: int| 0 <= k < p.families@.len() && p.families@[k].0@ == xc@ && #[trigger] p.families@[k].1 == h;
                                    assert(fam_step(p.steps@, records@, p.families@[k2].0@, p.families@[k2].1));
                                }
                                PlanSubject::Family(h)
                            };
                            let ghost s0 = p;
                            match p.link_media(rec, subject) {
                                Ok(()) => {},
                                Err(e) => {
                                    assert(!record_plannable(records@, records@[i as int]));
                                    return Err(e);
                                },
                            }
                            proof {
                                lemma_linked_created(s0, p);
                                lemma_families_extends(records@, records@, s0.steps@, p.steps@);
                                lemma_persons_extends(p.persons@, s0.steps@, p.steps@, records@);
                                lemma_families_handled_extends(p.families@, s0.steps@, p.steps@, records@);
                                lemma_names_extends(name_links(records@), s0.steps@, p.steps@);
                                lemma_events_drafted_extends(event_links(records@, "INDI"@) + event_links(records@, "FAM"@), records@, s0.steps@, p.steps@);
                                lemma_citations_drafted_extends(cite_links(records@, "INDI"@) + cite_links(records@, "FAM"@), records@, s0.steps@, p.steps@);
                                lemma_links_append(ol0, records@, s0.steps@, p.steps@, *rec, subject, s0.media@, s0.primaried@);
                                lemma_media_handled_extends(p.media@, s0.steps@, p.steps@, records@);
                                assert(object_links(records@.take(i + 1)) == ol0 + record_objects(*rec));
                            }
                        },
                        None => {
                            proof {
                                if is_indi {
                                    assert(has_key(p.persons@, xc@));
                                } else {
                                    assert(has_key(p.families@, xc@));
                                }
                            }
                        },
                    }
                },
                None => {},
            }
        }
        proof {
            let r = records@[i as int];
            if !((r.tag@ == "INDI"@ || r.tag@ == "FAM"@) && r.xref is Some) {
                assert(object_links(records@.take(i + 1)) =~= ol0);
            }
        }
        i = i + 1;
    }
    assert(records@.take(records.len() as int) =~= records@);

    // Children, with their relation read from the child's own FAMC.PEDI.
    assert(records@.take(0) =~= Seq::<GedcomRecord>::empty());
    let mut i: usize = 0;
    while i < records.len()
        invariant
            i <= records.len(),
            p.inv(),
            options.merge || store_empty,
            p.summary.sources == count_tag(records@, "SOUR"@),
            p.summary.individuals == count_tag(records@, "INDI"@),
            p.summary.families == count_tag(records@, "FAM"@),
            p.summary.skipped_tags@.len() == 0,
            keys_are(p.persons@, records@, "INDI"@),
            keys_are(p.families@, records@, "FAM"@),
            indis_resolve(records@, records@.len() as int),
            fams_resolve(records@, records@.len() as int),
            links_resolve(records@, records@.len() as int),
            chil_resolve(records@, i as int),
            persons_drafted(p.persons@, p.steps@, records@),
            families_handled(p.families@, p.steps@, records@),
            names_drafted(name_links(records@), p.steps@),
            events_drafted(event_links(records@, "INDI"@) + event_links(records@, "FAM"@), records@, p.steps@),
            citations_drafted(cite_links(records@, "INDI"@) + cite_links(records@, "FAM"@), records@, p.steps@),
            links_drafted(object_links(records@), records@, p.steps@),
            children_drafted(child_links(records@.take(i as int)), records@, p.steps@),
            individuals_drafted(records@, p.steps@),
            sources_drafted(records@, repo_pairs(records@), p.steps@),
            media_drafted(records@, p.steps@),
            families_drafted(records@, records@, p.steps@),
        decreases records.len() - i,
    {
        let rec = &records[i];
        let ghost links0 = child_links(records@.take(i as int));
        proof {
            assert(records@.take(i + 1).drop_last() =~= records@.take(i as int));
            assert(records@.take(i + 1).last() == records@[i as int]);
        }
        if tag_is(rec, "FAM") {
            match &rec.xref {
                None => {},
                Some(x) => {
                    let fam_xref = chars_of(x.as_str());
                    assert(defines(records@, "FAM"@, fam_xref@));
                    match lookup_handle(&p.families, fam_xref.as_slice()) {
                        None => {
                            assert(has_key(p.families@, fam_xref@));
                        },
                        Some(fam_id) => {
                            proof {
                                let k = choose|k: int| 0 <= k < p.families@.len() && #[trigger] p.families@[k].1 == fam_id;
                                assert(is_ref(p.steps@, p.steps@.len() as int, p.families@[k].1, Entity::Family));
                                lemma_lookup_entry(p.families@, fam_xref@, fam_id);
                                let k2 = choose|k: int| 0 <= k < p.families@.len() && p.families@[k].0@ == fam_xref@ && #[trigger] p.families@[k].1 == fam_id;
                                assert(fam_step(p.steps@, records@, p.families@[k2].0@, p.families@[k2].1));
                            }
                            let ghost rl = record_links(*rec);
                            let chil = rec.children_with("CHIL");
                            let ghost s0 = p;
                            let mut order: usize = 0;
                            while order < chil.len()
                                invariant
                                    order <= chil.len(),
                                    p.inv(),
                                    options.merge || store_empty,
                                    Planner::framed_steps(s0, p),
                                    is_ref(s0.steps@, s0.steps@.len() as int, fam_id, Entity::Family),
                                    *rec == records@[i as int],
                                    i < records.len(),
                                    records@[i as int].tag@ == "FAM"@,
                                    keys_are(p.persons@, records@, "INDI"@),
                                    individuals_drafted(records@, p.steps@),
                                    sources_drafted(records@, repo_pairs(records@), p.steps@),
                                    media_drafted(records@, p.steps@),
                                    families_drafted(records@, records@, p.steps@),
                                    persons_drafted(p.persons@, p.steps@, records@),
                                    families_handled(p.families@, p.steps@, records@),
                                    names_drafted(name_links(records@), p.steps@),
                                    events_drafted(event_links(records@, "INDI"@) + event_links(records@, "FAM"@), records@, p.steps@),
                                    citations_drafted(cite_links(records@, "INDI"@) + cite_links(records@, "FAM"@), records@, p.steps@),
                                    links_drafted(object_links(records@), records@, p.steps@),
                                    fam_step(p.steps@, records@, fam_xref@, fam_id),
                                    fam_xref@ == x@,
                                    rec.xref == Some(*x),
                                    rl == record_links(*rec),
                                    links0 == child_links(records@.take(i as int)),
                                    children_drafted(links0 + rl.take(order as int), records@, p.steps@),
                                    chil.len() == tagged(rec.children@, "CHIL"@).len(),
                                    forall|j: int| 0 <= j < chil.len() ==> *chil@[j] == tagged(rec.children@, "CHIL"@)[j],
                                    forall|j: int| #![trigger tagged(rec.children@, "CHIL"@)[j]]
                                        0 <= j < order ==> match pointer_of(value_of(tagged(rec.children@, "CHIL"@)[j])) {
                                            Some(q) => defines(records@, "INDI"@, q),
                                            None => false,
                                        },
                                decreases chil.len() - order,
                            {
                                let c = chil[order];
                                assert(tagged(rec.children@, "CHIL"@)[order as int] == *c);
                                let ptr = match record_pointer(c) {
                                    Some(ptr) => ptr,
                                    None => {
                                        assert(!children_resolve(records@, records@[i as int]));
                                        assert(!record_plannable(records@, records@[i as int]));
                                        return Err(line_message(c.line_no, ": CHIL has no @xref@ pointer"));
                                    },
                                };
                                let child_id = match lookup_handle(&p.persons, ptr.as_slice()) {
                                    Some(h) => h,
                                    None => {
                                        assert(!has_key(p.persons@, ptr@));
                                        assert(!children_resolve(records@, records@[i as int]));
                                        assert(!record_plannable(records@, records@[i as int]));
                                        return Err(pointer_error(c.line_no, ": CHIL points to undefined individual ", ptr.as_slice()));
                                    },
                                };
                                assert(has_key(p.persons@, ptr@));
                                proof {
                                    let k = choose|k: int| 0 <= k < p.persons@.len() && #[trigger] p.persons@[k].1 == child_id;
                                    assert(is_ref(p.steps@, p.steps@.len() as int, p.persons@[k].1, Entity::Individual));
                                    lemma_ref_extends(s0.steps@, p.steps@, fam_id, Entity::Family);
                                    lemma_lookup_entry(p.persons@, ptr@, child_id);
                                    let k2 = choose|k: int| 0 <= k < p.persons@.len() && p.persons@[k].0@ == ptr@ && #[trigger] p.persons@[k].1 == child_id;
                                    assert(indi_step(p.steps@, records@, p.persons@[k2].0@, p.persons@[k2].1));
                                }
                                let relation = match find_indi(records, ptr.as_slice()) {
                                    Some(indi) => relation_of_child(indi, fam_xref.as_slice()),
                                    None => ChildRelation::Birth,
                                };
                                let cstep = ImportStep::AddChild {
                                    family: fam_id,
                                    child: child_id,
                                    relation,
                                    sort_order: order_of(order),
                                };
                                let ghost cs = cstep;
                                let ghost s1 = p.steps@;
                                let ghost c_old = steps_of_kind(p.steps@, 9);
                                proof {
                                    assert(rl[order as int] == (*rec, *c, order as int));
                                    assert(child_fields(rl[order as int], records@, s1, cs));
                                }
                                p.add(cstep);
                                assert(extends(s1, p.steps@));
                                proof {
                                    lemma_families_extends(records@, records@, s1, p.steps@);
                                    lemma_persons_extends(p.persons@, s1, p.steps@, records@);
                                    lemma_families_handled_extends(p.families@, s1, p.steps@, records@);
                                    lemma_names_extends(name_links(records@), s1, p.steps@);
                                    lemma_events_drafted_extends(event_links(records@, "INDI"@) + event_links(records@, "FAM"@), records@, s1, p.steps@);
                                    lemma_citations_drafted_extends(cite_links(records@, "INDI"@) + cite_links(records@, "FAM"@), records@, s1, p.steps@);
                                    lemma_links_drafted_extends(object_links(records@), records@, s1, p.steps@);
                                    lemma_fam_step_extends(s1, p.steps@, records@, fam_xref@, fam_id);
                                    lemma_child_fields_extends(rl[order as int], records@, s1, p.steps@, cs);
                                    let lo = links0 + rl.take(order as int);
                                    let ln = links0 + rl.take(order + 1);
                                    assert(ln =~= lo.push(rl[order as int]));
                                    let cn = steps_of_kind(p.steps@, 9);
                                    assert(cn == c_old.push(cs));
                                    assert forall|k: int| 0 <= k < cn.len() implies child_fields(
                                        ln[k],
                                        records@,
                                        p.steps@,
                                        #[trigger] cn[k],
                                    ) by {
                                        if k < c_old.len() {
                                            assert(cn[k] == c_old[k]);
                                            assert(ln[k] == lo[k]);
                                            lemma_child_fields_extends(lo[k], records@, s1, p.steps@, c_old[k]);
                                        }
                                    }
                                }
                                order = order + 1;
                            }
                            assert(children_resolve(records@, records@[i as int]));
                            assert(rl.take(order as int) =~= rl);
                        },
                    }
                },
            }
        }
        proof {
            if records@[i as int].tag@ == "FAM"@ && records@[i as int].xref is Some {
                assert(child_links(records@.take(i + 1)) == links0 + record_links(records@[i as int]));
            } else {
                assert(child_links(records@.take(i + 1)) =~= links0);
            }
        }
        i = i + 1;
    }
    proof {
        assert forall|k: int| 0 <= k < records@.len() implies record_plannable(records@, #[trigger] records@[k]) by {
            if records@[k].tag@ == "FAM"@ {
                assert(fam_resolves(records@, records@[k]));
            }
        }
    }

    proof {
        lemma_places_once(p);
    }
    p.summary.skipped_tags = skipped_tags(records);
    Ok(ImportPlan { steps: p.steps, summary: p.summary })
}

/// Reads a GEDCOM document and plans its import: lexes it into lines, folds
/// them into records, rejects a declared non-UTF-8 encoding and any dangling
/// cross-reference, then plans the writes (see [`plan_records`]). Nothing is
/// planned for a document that fails any of these.
///
/// # Errors
/// [`CoreError::Validation`], citing the line where there is one, for the
/// first failure: a malformed line, a line that does not nest, a declared
/// encoding other than UTF-8, a dangling pointer, a non-merge import into a
/// non-empty database, or a record the planner cannot read.
pub fn plan_import(source: &str, options: &ImportOptions, store_empty: bool) -> (r: Result<
    ImportPlan,
    CoreError,
>)
    ensures
        r matches Ok(p) ==> {
            &&& lex_spec(source@) is Ok
            &&& well_nested(lex_spec(source@)->Ok_0)
            &&& plan_wf(p.steps@)
            &&& summary_counts(p.summary, p.steps@)
            &&& places_once(p.steps@)
            &&& options.merge || store_empty
            &&& exists|rs: Seq<GedcomRecord>| #[trigger] records_view(rs) == roots_from(lex_spec(source@)->Ok_0, 0)
                && encoding_ok(rs) && refs_ok(rs) && plannable(rs)
                && sources_drafted(rs, repo_pairs(rs), p.steps@) && individuals_drafted(rs, p.steps@)
                && families_drafted(rs, rs, p.steps@) && media_drafted(rs, p.steps@)
                && children_drafted(child_links(rs), rs, p.steps@) && names_drafted(name_links(rs), p.steps@)
                && events_drafted(event_links(rs, "INDI"@) + event_links(rs, "FAM"@), rs, p.steps@)
                && citations_drafted(cite_links(rs, "INDI"@) + cite_links(rs, "FAM"@), rs, p.steps@)
                && links_drafted(object_links(rs), rs, p.steps@)
        },
        ({
            &&& lex_spec(source@) is Ok
            &&& well_nested(lex_spec(source@)->Ok_0)
            &&& options.merge || store_empty
            &&& forall|rs: Seq<GedcomRecord>| #[trigger] records_view(rs) == roots_from(lex_spec(source@)->Ok_0, 0)
                ==> encoding_ok(rs) && refs_ok(rs) && plannable(rs)
        }) ==> r is Ok,
        lex_spec(source@) is Err ==> r is Err,
        r matches Err(e) ==> e is Validation,
        match lex_spec(source@) {
            Err(m) => (r matches Err(e) && e->Validation_0@ == m),
            Ok(ls) => if !well_nested(ls) {
                (r matches Err(e) && exists|j: int|
                    first_bad_line(ls, 0, j) && e->Validation_0@ == nesting_message(ls, j))
            } else {
                exists|rs: Seq<GedcomRecord>|
                    #[trigger] records_view(rs) == roots_from(ls, 0) && (encoding_message(rs) is Some ==> (r matches Err(
                        e,
                    ) && Some(e->Validation_0@) == encoding_message(rs))) && (encoding_ok(rs) && first_dangling(rs, rs) is Some
                        ==> (r matches Err(e) && Some(e->Validation_0@) == first_dangling(rs, rs)))
            },
        },
{
    let lines = match lex(source) {
        Ok(l) => l,
        Err(e) => return Err(e),
    };
    let records = match build(&lines) {
        Ok(rs) => rs,
        Err(e) => return Err(e),
    };
    assert(records_view(records@) == roots_from(lex_spec(source@)->Ok_0, 0));
    match check_encoding(&records) {
        Ok(()) => {},
        Err(e) => return Err(e),
    }
    match validate(&records) {
        Ok(()) => {},
        Err(e) => return Err(e),
    }
    let r = plan_records(&records, options, store_empty);
    proof {
        if r is Ok {
            assert(records_view(records@) == roots_from(lex_spec(source@)->Ok_0, 0));
        }
    }
    r
}

} // verus!
