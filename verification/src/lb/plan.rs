//! Validating an LB document and planning its import: individuals with their
//! birth and death events, one family per distinct parent pair (children in
//! input order), and one couple family per spouse pointer not already a
//! couple.

use vstd::prelude::*;
use crate::enums::{ChildRelation, EventKind, Sex, UnionType};
use crate::error::CoreError;
use crate::gedcom::lexer::opt_view;
use crate::gedcom::plan::{
    creates, count_kind, extends, is_ref, lemma_kind_framed, lemma_kind_len, lemma_places_once, lemma_ref_extends, place_ok, place_step,
    places_once,
    plan_wf, step_ok, steps_of_kind, summary_counts, Entity, ImportOptions, ImportPlan, ImportStep,
    PlanSubject, Planner,
};
use crate::date::GenealogicalDate;
use crate::lb::record::{
    infer_living, non_empty, parse_lb_date, pointer, reconcile_birth, spec_infer_living, spec_non_empty,
    spec_parse_lb_date, spec_reconcile_birth, LbPerson,
};
use crate::num::{int_text, push_int};
use crate::gedcom::map::or_else;
use crate::records::NewIndividual;
use crate::text::{push_str, string_from_chars};

verus! {

/// The ids of the records, in order.
pub open spec fn lb_ids(people: Seq<LbPerson>) -> Seq<i64> {
    Seq::new(people.len(), |i: int| people[i].id)
}

/// Whether every id is non-zero and unique.
pub open spec fn ids_ok(people: Seq<LbPerson>) -> bool {
    &&& forall|i: int| 0 <= i < people.len() ==> (#[trigger] people[i]).id != 0
    &&& forall|i: int, j: int|
        0 <= i < j < people.len() ==> (#[trigger] people[i]).id != (#[trigger] people[j]).id
}

/// Whether a pointer is `0` (none) or a present id.
pub open spec fn ptr_ok(people: Seq<LbPerson>, x: i64) -> bool {
    x == 0 || lb_ids(people).contains(x)
}

/// Whether every parent and spouse pointer of a record resolves.
pub open spec fn person_refs_ok(people: Seq<LbPerson>, p: LbPerson) -> bool {
    &&& ptr_ok(people, p.father_id)
    &&& ptr_ok(people, p.mother_id)
    &&& ptr_ok(people, p.spouse_id)
    &&& (p.spouse_list matches Some(l) ==> forall|k: int|
        0 <= k < l@.len() ==> ptr_ok(people, #[trigger] l@[k]))
}

/// Whether an LB document is importable: unique non-zero ids, and pointers
/// that all resolve.
pub open spec fn lb_valid(people: Seq<LbPerson>) -> bool {
    &&& ids_ok(people)
    &&& forall|i: int| 0 <= i < people.len() ==> person_refs_ok(people, #[trigger] people[i])
}

/// Whether `d` is the individual an LB record describes: its non-blank
/// names and notes, its sex by code (unknown for any other gender), and
/// living as the vital facts tell.
pub open spec fn lb_draft_fields(p: LbPerson, current_year: i32, d: NewIndividual) -> bool {
    let death = spec_parse_lb_date(p.death_date@, current_year);
    let birth = spec_reconcile_birth(spec_parse_lb_date(p.birth_date@, current_year), death);
    &&& opt_view(d.given_name) == spec_non_empty(p.first_name@)
    &&& opt_view(d.surname) == spec_non_empty(p.last_name@)
    &&& d.name_prefix is None
    &&& d.name_suffix is None
    &&& d.nickname is None
    &&& (d.sex.code() == p.gender@ || ((forall|v: Sex| v.code() != p.gender@) && d.sex == Sex::Unknown))
    &&& d.living == spec_infer_living(
        birth,
        death is Some,
        spec_non_empty(p.death_place@) is Some,
        current_year,
    )
    &&& opt_view(d.notes) == spec_non_empty(p.notes@)
}

/// Whether the individuals a plan creates are, in order, those the LB
/// records describe.
pub open spec fn lb_individuals_drafted(people: Seq<LbPerson>, current_year: i32, steps: Seq<ImportStep>) -> bool {
    let c = steps_of_kind(steps, 1);
    &&& c.len() == people.len()
    &&& forall|k: int|
        0 <= k < c.len() ==> (#[trigger] c[k] matches ImportStep::CreateIndividual(d) && lb_draft_fields(
            people[k],
            current_year,
            d,
        ))
}

/// An LB record's death date, if it holds one.
pub open spec fn lb_death(p: LbPerson, current_year: i32) -> Option<GenealogicalDate> {
    spec_parse_lb_date(p.death_date@, current_year)
}

/// An LB record's birth date, if it holds one not after its death.
pub open spec fn lb_birth(p: LbPerson, current_year: i32) -> Option<GenealogicalDate> {
    spec_reconcile_birth(spec_parse_lb_date(p.birth_date@, current_year), lb_death(p, current_year))
}

/// The vital events an LB record gives: a birth, then a death, each when its
/// date or its place is known.
pub open spec fn lb_vitals(p: LbPerson, current_year: i32) -> Seq<(LbPerson, EventKind)> {
    (if lb_birth(p, current_year) is Some || spec_non_empty(p.birth_place@) is Some {
        seq![(p, EventKind::Birth)]
    } else {
        seq![]
    }) + (if lb_death(p, current_year) is Some || spec_non_empty(p.death_place@) is Some {
        seq![(p, EventKind::Death)]
    } else {
        seq![]
    })
}

/// The vital events of the LB records, in order.
pub open spec fn lb_event_links(people: Seq<LbPerson>, current_year: i32) -> Seq<(LbPerson, EventKind)>
    decreases people.len(),
{
    if people.len() == 0 {
        seq![]
    } else {
        lb_event_links(people.drop_last(), current_year) + lb_vitals(people.last(), current_year)
    }
}

/// Whether step `h` creates the individual the LB record `p` describes.
#[verifier::opaque]
pub open spec fn lb_person_step(steps: Seq<ImportStep>, p: LbPerson, current_year: i32, h: usize) -> bool {
    &&& h < steps.len()
    &&& steps[h as int] matches ImportStep::CreateIndividual(d) && lb_draft_fields(p, current_year, d)
}

/// Whether `s` adds the vital event of kind `kind` an LB record gives, to the
/// individual it creates: its date and its (non-blank) place.
pub open spec fn lb_event_fields(
    link: (LbPerson, EventKind),
    current_year: i32,
    steps: Seq<ImportStep>,
    s: ImportStep,
) -> bool {
    let (p, k) = link;
    match s {
        ImportStep::AddEvent { subject: PlanSubject::Individual(h), kind, date, place, notes } => {
            &&& lb_person_step(steps, p, current_year, h)
            &&& kind == k
            &&& date == if k == EventKind::Birth {
                lb_birth(p, current_year)
            } else {
                lb_death(p, current_year)
            }
            &&& place_ok(
                steps,
                spec_non_empty(
                    if k == EventKind::Birth {
                        p.birth_place@
                    } else {
                        p.death_place@
                    },
                ),
                place,
            )
            &&& notes is None
        },
        _ => false,
    }
}

/// Whether the events a plan adds are, in order, the vital events of the LB
/// records.
#[verifier::opaque]
pub open spec fn lb_events_drafted(links: Seq<(LbPerson, EventKind)>, current_year: i32, steps: Seq<ImportStep>) -> bool {
    let c = steps_of_kind(steps, 4);
    &&& c.len() == links.len()
    &&& forall|k: int| 0 <= k < c.len() ==> lb_event_fields(links[k], current_year, steps, #[trigger] c[k])
}

/// The LB records with a father or a mother, in order.
pub open spec fn with_parents(people: Seq<LbPerson>) -> Seq<LbPerson>
    decreases people.len(),
{
    if people.len() == 0 {
        seq![]
    } else {
        with_parents(people.drop_last()) + if people.last().father_id != 0 || people.last().mother_id != 0 {
            seq![people.last()]
        } else {
            seq![]
        }
    }
}

/// Whether `partner` is the individual a parent pointer names: none for no
/// pointer, else the step that creates the record with that id.
pub open spec fn lb_partner(
    people: Seq<LbPerson>,
    current_year: i32,
    steps: Seq<ImportStep>,
    ptr: Option<i64>,
    partner: Option<usize>,
) -> bool {
    match ptr {
        None => partner is None,
        Some(x) => partner matches Some(h) && exists|k: int|
            0 <= k < people.len() && (#[trigger] people[k]).id == x && lb_person_step(steps, people[k], current_year, h),
    }
}

/// Whether step `h` creates the family of the parent pair `(father, mother)`:
/// its partners are the individuals those pointers name.
#[verifier::opaque]
pub open spec fn lb_parents_family(
    people: Seq<LbPerson>,
    current_year: i32,
    steps: Seq<ImportStep>,
    father: Option<i64>,
    mother: Option<i64>,
    h: usize,
) -> bool {
    &&& h < steps.len()
    &&& steps[h as int] matches ImportStep::CreateFamily { partner1, partner2, .. } && lb_partner(
        people,
        current_year,
        steps,
        father,
        partner1,
    ) && lb_partner(people, current_year, steps, mother, partner2)
}

/// The number of children `steps` adds to the family created at step `fam`.
pub open spec fn family_children(steps: Seq<ImportStep>, fam: usize) -> nat
    decreases steps.len(),
{
    if steps.len() == 0 {
        0
    } else {
        family_children(steps.drop_last(), fam) + if steps.last() matches ImportStep::AddChild { family, .. }
            && family == fam {
            1nat
        } else {
            0nat
        }
    }
}

/// A position as a sort order, saturating at the largest `i64`.
pub open spec fn saturated_order(n: nat) -> i64 {
    if n < i64::MAX {
        n as i64
    } else {
        i64::MAX
    }
}

/// Whether `s` adds the individual of the LB record `p` as a birth child of
/// the family of its parents, after the children in `before`: its sort order
/// is the number of those in the same family.
pub open spec fn lb_child_fields(
    all: Seq<LbPerson>,
    p: LbPerson,
    current_year: i32,
    steps: Seq<ImportStep>,
    before: Seq<ImportStep>,
    s: ImportStep,
) -> bool {
    &&& s matches ImportStep::AddChild { family, child, relation, sort_order }
    &&& relation == ChildRelation::Birth
    &&& lb_person_step(steps, p, current_year, child)
    &&& lb_parents_family(all, current_year, steps, pointer(p.father_id), pointer(p.mother_id), family)
    &&& sort_order == saturated_order(family_children(before, family))
}

/// Whether the children a plan adds are, in order, the individuals of the
/// records of `people` with a parent, each a birth child of the family of its
/// parents (pointers resolved among `all`), numbered within that family in
/// input order.
#[verifier::opaque]
pub open spec fn lb_children_drafted(
    all: Seq<LbPerson>,
    people: Seq<LbPerson>,
    current_year: i32,
    steps: Seq<ImportStep>,
) -> bool {
    let c = steps_of_kind(steps, 9);
    let wp = with_parents(people);
    &&& c.len() == wp.len()
    &&& forall|k: int|
        0 <= k < c.len() ==> lb_child_fields(all, wp[k], current_year, steps, c.take(k), #[trigger] c[k])
}

/// An LB event step keeps describing its record as steps are appended.
proof fn lemma_lb_event_extends(
    link: (LbPerson, EventKind),
    current_year: i32,
    a: Seq<ImportStep>,
    b: Seq<ImportStep>,
    s: ImportStep,
)
    requires
        extends(a, b),
        lb_event_fields(link, current_year, a, s),
    ensures
        lb_event_fields(link, current_year, b, s),
{
    reveal(lb_person_step);
    if let ImportStep::AddEvent { subject: PlanSubject::Individual(h), place, .. } = s {
        assert(b[h as int] == a[h as int]);
        if let Some(q) = place {
            assert(b[q as int] == a[q as int]);
        }
    }
}

/// The LB events a plan adds keep describing their records as steps without a
/// new event are appended.
proof fn lemma_lb_events_extends(
    links: Seq<(LbPerson, EventKind)>,
    current_year: i32,
    a: Seq<ImportStep>,
    b: Seq<ImportStep>,
)
    requires
        extends(a, b),
        steps_of_kind(b, 4) == steps_of_kind(a, 4),
        lb_events_drafted(links, current_year, a),
    ensures
        lb_events_drafted(links, current_year, b),
{
    reveal(lb_events_drafted);
    let c = steps_of_kind(a, 4);
    assert forall|k: int| 0 <= k < c.len() implies lb_event_fields(links[k], current_year, b, #[trigger] c[k]) by {
        lemma_lb_event_extends(links[k], current_year, a, b, c[k]);
    }
}

/// A parent pointer keeps naming its individual as steps are appended.
proof fn lemma_partner_extends(
    people: Seq<LbPerson>,
    current_year: i32,
    a: Seq<ImportStep>,
    b: Seq<ImportStep>,
    ptr: Option<i64>,
    partner: Option<usize>,
)
    requires
        extends(a, b),
        lb_partner(people, current_year, a, ptr, partner),
    ensures
        lb_partner(people, current_year, b, ptr, partner),
{
    if let Some(x) = ptr {
        let h = partner->0;
        let k = choose|k: int|
            0 <= k < people.len() && (#[trigger] people[k]).id == x && lb_person_step(a, people[k], current_year, h);
        lemma_person_step_extends(a, b, people[k], current_year, h);
    }
}

/// A parent-pair family keeps its partners as steps are appended.
proof fn lemma_parents_family_extends(
    people: Seq<LbPerson>,
    current_year: i32,
    a: Seq<ImportStep>,
    b: Seq<ImportStep>,
    father: Option<i64>,
    mother: Option<i64>,
    h: usize,
)
    requires
        extends(a, b),
        lb_parents_family(people, current_year, a, father, mother, h),
    ensures
        lb_parents_family(people, current_year, b, father, mother, h),
{
    reveal(lb_parents_family);
    assert(b[h as int] == a[h as int]);
    if let ImportStep::CreateFamily { partner1, partner2, .. } = a[h as int] {
        lemma_partner_extends(people, current_year, a, b, father, partner1);
        lemma_partner_extends(people, current_year, a, b, mother, partner2);
    }
}

/// A child step keeps describing its record as steps are appended.
proof fn lemma_child_fields_extends(
    all: Seq<LbPerson>,
    p: LbPerson,
    current_year: i32,
    a: Seq<ImportStep>,
    b: Seq<ImportStep>,
    before: Seq<ImportStep>,
    s: ImportStep,
)
    requires
        extends(a, b),
        lb_child_fields(all, p, current_year, a, before, s),
    ensures
        lb_child_fields(all, p, current_year, b, before, s),
{
    lemma_person_step_extends(a, b, p, current_year, s->child);
    lemma_parents_family_extends(all, current_year, a, b, pointer(p.father_id), pointer(p.mother_id), s->family);
}

/// The LB children a plan adds keep naming their individuals and families as
/// steps without a new child are appended.
proof fn lemma_lb_children_extends(
    all: Seq<LbPerson>,
    people: Seq<LbPerson>,
    current_year: i32,
    a: Seq<ImportStep>,
    b: Seq<ImportStep>,
)
    requires
        extends(a, b),
        steps_of_kind(b, 9) == steps_of_kind(a, 9),
        lb_children_drafted(all, people, current_year, a),
    ensures
        lb_children_drafted(all, people, current_year, b),
{
    reveal(lb_children_drafted);
    let c = steps_of_kind(a, 9);
    let wp = with_parents(people);
    assert forall|k: int| 0 <= k < c.len() implies lb_child_fields(all, wp[k], current_year, b, c.take(k), #[trigger] c[k]) by {
        lemma_child_fields_extends(all, wp[k], current_year, a, b, c.take(k), c[k]);
    }
}

/// Appending one event step that describes `link` extends the drafted LB
/// events by that link.
proof fn lemma_lb_events_push(
    links: Seq<(LbPerson, EventKind)>,
    link: (LbPerson, EventKind),
    current_year: i32,
    a: Seq<ImportStep>,
    b: Seq<ImportStep>,
)
    requires
        extends(a, b),
        lb_events_drafted(links, current_year, a),
        steps_of_kind(b, 4).len() == steps_of_kind(a, 4).len() + 1,
        steps_of_kind(b, 4).take(steps_of_kind(a, 4).len() as int) == steps_of_kind(a, 4),
        lb_event_fields(link, current_year, b, steps_of_kind(b, 4).last()),
    ensures
        lb_events_drafted(links.push(link), current_year, b),
{
    reveal(lb_events_drafted);
    let ca = steps_of_kind(a, 4);
    let cb = steps_of_kind(b, 4);
    let l2 = links.push(link);
    assert forall|k: int| 0 <= k < cb.len() implies lb_event_fields(l2[k], current_year, b, #[trigger] cb[k]) by {
        if k < ca.len() {
            assert(cb[k] == cb.take(ca.len() as int)[k]);
            assert(l2[k] == links[k]);
            lemma_lb_event_extends(links[k], current_year, a, b, ca[k]);
        }
    }
}

/// A step keeps creating the individual of an LB record as steps are
/// appended.
proof fn lemma_person_step_extends(a: Seq<ImportStep>, b: Seq<ImportStep>, p: LbPerson, current_year: i32, h: usize)
    requires
        extends(a, b),
        lb_person_step(a, p, current_year, h),
    ensures
        lb_person_step(b, p, current_year, h),
{
    reveal(lb_person_step);
    assert(b[h as int] == a[h as int]);
}

/// Appending a birth child of the individual of `p`, in the family of its
/// parents, extends the drafted LB children by `p`.
proof fn lemma_lb_children_push(
    all: Seq<LbPerson>,
    people: Seq<LbPerson>,
    p: LbPerson,
    current_year: i32,
    a: Seq<ImportStep>,
    s: ImportStep,
)
    requires
        lb_children_drafted(all, people, current_year, a),
        p.father_id != 0 || p.mother_id != 0,
        lb_child_fields(all, p, current_year, a, steps_of_kind(a, 9), s),
        steps_of_kind(a.push(s), 9) == steps_of_kind(a, 9).push(s),
    ensures
        lb_children_drafted(all, people.push(p), current_year, a.push(s)),
{
    reveal(lb_children_drafted);
    let b = a.push(s);
    let ca = steps_of_kind(a, 9);
    let cb = steps_of_kind(b, 9);
    assert(people.push(p).drop_last() =~= people);
    let wp = with_parents(people.push(p));
    let w0 = with_parents(people);
    assert(wp =~= w0.push(p));
    assert forall|k: int| 0 <= k < cb.len() implies lb_child_fields(all, wp[k], current_year, b, cb.take(k), #[trigger] cb[k]) by {
        if k < ca.len() {
            assert(cb[k] == ca[k]);
            assert(cb.take(k) =~= ca.take(k));
            lemma_child_fields_extends(all, w0[k], current_year, a, b, ca.take(k), ca[k]);
        } else {
            assert(cb.take(k) =~= ca);
            lemma_child_fields_extends(all, p, current_year, a, b, ca, s);
        }
    }
}

/// Adding one step to a sequence counts it among its family's children.
proof fn lemma_family_children_push(c: Seq<ImportStep>, s: ImportStep, fam: usize)
    ensures
        family_children(c.push(s), fam) == family_children(c, fam) + if s matches ImportStep::AddChild { family, .. }
            && family == fam {
            1nat
        } else {
            0nat
        },
{
    assert(c.push(s).drop_last() =~= c);
}

/// The message refusing record `p` for its id, given the records `before`
/// it: a zero id, or one already taken.
pub open spec fn id_message(p: LbPerson, before: Seq<LbPerson>) -> Option<Seq<char>> {
    if p.id == 0 {
        Some("LB record has id 0, the reserved \"none\" pointer value"@)
    } else if lb_ids(before).contains(p.id) {
        Some("duplicate LB record id "@ + int_text(p.id as int))
    } else {
        None
    }
}

/// The message for the first record with a zero or repeated id.
pub open spec fn first_id_error(people: Seq<LbPerson>) -> Option<Seq<char>>
    decreases people.len(),
{
    if people.len() == 0 {
        None
    } else {
        or_else(first_id_error(people.drop_last()), id_message(people.last(), people.drop_last()))
    }
}

/// The message for a non-zero pointer of record `owner` naming no id.
pub open spec fn pointer_message(ids: Seq<i64>, kind: Seq<char>, pointer: i64, owner: i64) -> Option<Seq<char>> {
    if pointer != 0 && !ids.contains(pointer) {
        Some("LB record "@ + int_text(owner as int) + " references a "@ + kind + " id "@ + int_text(pointer as int)
            + " that is not present"@)
    } else {
        None
    }
}

/// The message for the first dangling pointer of a spouse list.
pub open spec fn first_list_error(ids: Seq<i64>, l: Seq<i64>, owner: i64) -> Option<Seq<char>>
    decreases l.len(),
{
    if l.len() == 0 {
        None
    } else {
        or_else(first_list_error(ids, l.drop_last(), owner), pointer_message(ids, "spouse"@, l.last(), owner))
    }
}

/// The message for a record's first dangling pointer: father, mother,
/// spouse, then the spouse list.
pub open spec fn person_pointer_error(ids: Seq<i64>, p: LbPerson) -> Option<Seq<char>> {
    or_else(
        pointer_message(ids, "father"@, p.father_id, p.id),
        or_else(
            pointer_message(ids, "mother"@, p.mother_id, p.id),
            or_else(
                pointer_message(ids, "spouse"@, p.spouse_id, p.id),
                match p.spouse_list {
                    Some(l) => first_list_error(ids, l@, p.id),
                    None => None,
                },
            ),
        ),
    )
}

/// The message for the first record with a dangling pointer.
pub open spec fn first_pointer_error(ids: Seq<i64>, people: Seq<LbPerson>) -> Option<Seq<char>>
    decreases people.len(),
{
    if people.len() == 0 {
        None
    } else {
        or_else(first_pointer_error(ids, people.drop_last()), person_pointer_error(ids, people.last()))
    }
}

/// The message validation refuses a document with: its first bad id, else
/// its first dangling pointer.
pub open spec fn lb_validation_message(people: Seq<LbPerson>) -> Option<Seq<char>> {
    or_else(first_id_error(people), first_pointer_error(lb_ids(people), people))
}

/// A message found in a prefix is the first of the whole list.
proof fn lemma_first_id_prefix(people: Seq<LbPerson>, k: int)
    requires
        0 <= k <= people.len(),
        first_id_error(people.take(k)) is Some,
    ensures
        first_id_error(people) == first_id_error(people.take(k)),
    decreases people.len(),
{
    if k == people.len() {
        assert(people.take(k) =~= people);
    } else {
        assert(people.drop_last().take(k) =~= people.take(k));
        lemma_first_id_prefix(people.drop_last(), k);
    }
}

/// A message found in a prefix is the first of the whole list.
proof fn lemma_first_pointer_prefix(ids: Seq<i64>, people: Seq<LbPerson>, k: int)
    requires
        0 <= k <= people.len(),
        first_pointer_error(ids, people.take(k)) is Some,
    ensures
        first_pointer_error(ids, people) == first_pointer_error(ids, people.take(k)),
    decreases people.len(),
{
    if k == people.len() {
        assert(people.take(k) =~= people);
    } else {
        assert(people.drop_last().take(k) =~= people.take(k));
        lemma_first_pointer_prefix(ids, people.drop_last(), k);
    }
}

/// A message found in a prefix is the first of the whole list.
proof fn lemma_first_list_prefix(ids: Seq<i64>, l: Seq<i64>, owner: i64, k: int)
    requires
        0 <= k <= l.len(),
        first_list_error(ids, l.take(k), owner) is Some,
    ensures
        first_list_error(ids, l, owner) == first_list_error(ids, l.take(k), owner),
    decreases l.len(),
{
    if k == l.len() {
        assert(l.take(k) =~= l);
    } else {
        assert(l.drop_last().take(k) =~= l.take(k));
        lemma_first_list_prefix(ids, l.drop_last(), owner, k);
    }
}

/// Whether step `h` creates the `k`-th individual of a plan.
pub open spec fn individual_at(steps: Seq<ImportStep>, k: int, h: usize) -> bool {
    &&& h < steps.len()
    &&& steps[h as int] is CreateIndividual
    &&& count_kind(steps.take(h as int), 1) == k
}

/// The step that creates the `k`-th individual of a plan.
pub open spec fn individual_step(steps: Seq<ImportStep>, k: int) -> usize {
    choose|h: usize| individual_at(steps, k, h)
}

/// Each record's id beside the step creating its individual.
pub open spec fn id_handles(people: Seq<LbPerson>, steps: Seq<ImportStep>) -> Seq<(i64, usize)> {
    Seq::new(people.len(), |k: int| (people[k].id, individual_step(steps, k)))
}

/// The individual a parent or spouse pointer names, by the last id entry.
pub open spec fn handle_of(m: Seq<(i64, usize)>, ptr: Option<i64>) -> Option<usize> {
    match ptr {
        None => None,
        Some(x) => last_handle(m, x),
    }
}

/// A couple's two individuals, ordered.
pub open spec fn couple_of(a: usize, b: usize) -> (usize, usize) {
    if a <= b {
        (a, b)
    } else {
        (b, a)
    }
}

/// The families planned so far: their partners, the parent pairs that have
/// one, and the couples that have one.
pub struct LbFamilies {
    /// Each family's two partners, in order.
    pub fams: Seq<(Option<usize>, Option<usize>)>,
    /// The parent pairs with a family.
    pub pairs: Seq<(Option<i64>, Option<i64>)>,
    /// The couples with a family.
    pub couples: Seq<(usize, usize)>,
}

/// The families after record `p`'s parents: a new family for a parent pair
/// not seen before, whose couple (when both are known) now has a family.
pub open spec fn parent_step(m: Seq<(i64, usize)>, st: LbFamilies, p: LbPerson) -> LbFamilies {
    let pair = (pointer(p.father_id), pointer(p.mother_id));
    if (pair.0 is None && pair.1 is None) || st.pairs.contains(pair) {
        st
    } else {
        let p1 = handle_of(m, pair.0);
        let p2 = handle_of(m, pair.1);
        LbFamilies {
            fams: st.fams.push((p1, p2)),
            pairs: st.pairs.push(pair),
            couples: match (p1, p2) {
                (Some(a), Some(b)) => if st.couples.contains(couple_of(a, b)) {
                    st.couples
                } else {
                    st.couples.push(couple_of(a, b))
                },
                _ => st.couples,
            },
        }
    }
}

/// The parent-pair families of the records `ps`, in order.
pub open spec fn parent_phase(m: Seq<(i64, usize)>, ps: Seq<LbPerson>) -> LbFamilies
    decreases ps.len(),
{
    if ps.len() == 0 {
        LbFamilies { fams: seq![], pairs: seq![], couples: seq![] }
    } else {
        parent_step(m, parent_phase(m, ps.drop_last()), ps.last())
    }
}

/// The families after the spouse `s` of the individual at step `a`: a couple
/// family when the couple has none yet.
pub open spec fn spouse_step(m: Seq<(i64, usize)>, st: LbFamilies, a: usize, s: i64) -> LbFamilies {
    match last_handle(m, s) {
        Some(b) => {
            let key = couple_of(a, b);
            if st.couples.contains(key) {
                st
            } else {
                LbFamilies {
                    fams: st.fams.push((Some(key.0), Some(key.1))),
                    pairs: st.pairs,
                    couples: st.couples.push(key),
                }
            }
        },
        None => st,
    }
}

/// The families after the spouses `ss`, in order.
pub open spec fn spouse_phase(m: Seq<(i64, usize)>, st: LbFamilies, a: usize, ss: Seq<i64>) -> LbFamilies
    decreases ss.len(),
{
    if ss.len() == 0 {
        st
    } else {
        spouse_step(m, spouse_phase(m, st, a, ss.drop_last()), a, ss.last())
    }
}

/// The families after the spouse pointers of the records `ps`, in order.
pub open spec fn couple_phase(m: Seq<(i64, usize)>, st: LbFamilies, ps: Seq<LbPerson>) -> LbFamilies
    decreases ps.len(),
{
    if ps.len() == 0 {
        st
    } else {
        let st1 = couple_phase(m, st, ps.drop_last());
        match last_handle(m, ps.last().id) {
            Some(a) => spouse_phase(m, st1, a, crate::lb::record::spec_spouses(ps.last())),
            None => st1,
        }
    }
}

/// A family step with the given partners, of unknown union type and without
/// notes.
pub open spec fn family_step(f: (Option<usize>, Option<usize>)) -> ImportStep {
    ImportStep::CreateFamily { partner1: f.0, partner2: f.1, union_type: UnionType::Unknown, notes: None }
}

/// The family steps of a list of partner pairs.
pub open spec fn family_steps(fs: Seq<(Option<usize>, Option<usize>)>) -> Seq<ImportStep> {
    Seq::new(fs.len(), |k: int| family_step(fs[k]))
}

/// The families an LB plan creates: one per distinct (father, mother) pair
/// in the order first seen, partners the individuals of those records; then
/// one per spouse couple without a family yet (the parent families count),
/// partners ordered by step.
pub open spec fn lb_families(people: Seq<LbPerson>, steps: Seq<ImportStep>) -> Seq<(Option<usize>, Option<usize>)> {
    let m = id_handles(people, steps);
    couple_phase(m, parent_phase(m, people), people).fams
}

/// Whether the families a plan creates are, in order, those of
/// [`lb_families`].
#[verifier::opaque]
pub open spec fn lb_families_drafted(people: Seq<LbPerson>, steps: Seq<ImportStep>) -> bool {
    steps_of_kind(steps, 6) == family_steps(lb_families(people, steps))
}

/// Whether the planner's parent-pair index, couple index and family steps
/// are those of `st`.
pub open spec fn families_match(
    st: LbFamilies,
    pf: Seq<(Option<i64>, Option<i64>, usize)>,
    couples: Seq<(usize, usize)>,
    steps: Seq<ImportStep>,
) -> bool {
    &&& pf.len() == st.pairs.len()
    &&& forall|j: int| 0 <= j < pf.len() ==> ((#[trigger] pf[j]).0, pf[j].1) == st.pairs[j]
    &&& couples == st.couples
    &&& steps_of_kind(steps, 6) == family_steps(st.fams)
}

/// A new parent-pair family keeps the planner's indexes and family steps
/// those of the families so far.
proof fn lemma_parent_family_new(
    m: Seq<(i64, usize)>,
    st: LbFamilies,
    p: LbPerson,
    pf: Seq<(Option<i64>, Option<i64>, usize)>,
    s0: Seq<ImportStep>,
    s1: Seq<ImportStep>,
    cs1: Seq<(usize, usize)>,
    h: usize,
)
    requires
        families_match(st, pf, st.couples, s0),
        !(pointer(p.father_id) is None && pointer(p.mother_id) is None),
        !st.pairs.contains((pointer(p.father_id), pointer(p.mother_id))),
        steps_of_kind(s1, 6) == steps_of_kind(s0, 6).push(
            family_step((handle_of(m, pointer(p.father_id)), handle_of(m, pointer(p.mother_id)))),
        ),
        cs1 == parent_step(m, st, p).couples,
    ensures
        families_match(parent_step(m, st, p), pf.push((pointer(p.father_id), pointer(p.mother_id), h)), cs1, s1),
{
    let f = (handle_of(m, pointer(p.father_id)), handle_of(m, pointer(p.mother_id)));
    lemma_family_steps_push(st.fams, f);
    let pf2 = pf.push((pointer(p.father_id), pointer(p.mother_id), h));
    let st2 = parent_step(m, st, p);
    assert forall|j: int| 0 <= j < pf2.len() implies ((#[trigger] pf2[j]).0, pf2[j].1) == st2.pairs[j] by {
        if j < pf.len() {
            assert(pf2[j] == pf[j]);
        }
    }
}

/// The id entries built while creating the individuals are the plan's id
/// handles.
proof fn lemma_handles_final(people: Seq<LbPerson>, sl: Seq<ImportStep>, steps: Seq<ImportStep>, m: Seq<(i64, usize)>)
    requires
        extends(sl, steps),
        m.len() == people.len(),
        forall|k: int| 0 <= k < people.len() ==> (#[trigger] m[k]).0 == people[k].id,
        forall|k: int| 0 <= k < people.len() ==> individual_at(sl, k, (#[trigger] m[k]).1),
    ensures
        id_handles(people, steps) == m,
{
    assert forall|k: int| 0 <= k < people.len() implies (#[trigger] id_handles(people, steps)[k]) == m[k] by {
        assert(individual_at(sl, k, m[k].1));
        lemma_individual_at_extends(sl, steps, k, m[k].1);
        assert(exists|w: usize| individual_at(steps, k, w));
        let h = individual_step(steps, k);
        assert(individual_at(steps, k, h));
        lemma_individual_unique(steps, k, h, m[k].1);
    }
    assert(id_handles(people, steps) =~= m);
}

/// Family steps built from the id handles are the drafted families.
proof fn lemma_families_final(people: Seq<LbPerson>, steps: Seq<ImportStep>, m: Seq<(i64, usize)>)
    requires
        id_handles(people, steps) == m,
        steps_of_kind(steps, 6) == family_steps(couple_phase(m, parent_phase(m, people), people).fams),
    ensures
        lb_families_drafted(people, steps),
{
    reveal(lb_families_drafted);
}

/// A step stays the `k`-th individual as steps are appended.
proof fn lemma_individual_at_extends(a: Seq<ImportStep>, b: Seq<ImportStep>, k: int, h: usize)
    requires
        extends(a, b),
        individual_at(a, k, h),
    ensures
        individual_at(b, k, h),
{
    assert(b.take(h as int) =~= a.take(h as int));
}

/// More steps count no fewer of a kind.
proof fn lemma_count_take_grows(s: Seq<ImportStep>, i: int, j: int)
    requires
        0 <= i <= j <= s.len(),
    ensures
        count_kind(s.take(i), 1) <= count_kind(s.take(j), 1),
    decreases j - i,
{
    if i < j {
        lemma_count_take_grows(s, i, j - 1);
        assert(s.take(j).drop_last() =~= s.take(j - 1));
    }
}

/// Only one step creates the `k`-th individual.
proof fn lemma_individual_unique(s: Seq<ImportStep>, k: int, h1: usize, h2: usize)
    requires
        individual_at(s, k, h1),
        individual_at(s, k, h2),
    ensures
        h1 == h2,
{
    if h1 < h2 {
        lemma_count_take_grows(s, h1 + 1, h2 as int);
        assert(s.take(h1 + 1).drop_last() =~= s.take(h1 as int));
    } else if h2 < h1 {
        lemma_count_take_grows(s, h2 + 1, h1 as int);
        assert(s.take(h2 + 1).drop_last() =~= s.take(h2 as int));
    }
}

/// The family steps of one more family.
proof fn lemma_family_steps_push(fs: Seq<(Option<usize>, Option<usize>)>, f: (Option<usize>, Option<usize>))
    ensures
        family_steps(fs.push(f)) == family_steps(fs).push(family_step(f)),
{
    assert(family_steps(fs.push(f)) =~= family_steps(fs).push(family_step(f)));
}

/// Whether `x` is one of `ids`.
fn contains_id(ids: &Vec<i64>, x: i64) -> (b: bool)
    ensures
        b == ids@.contains(x),
{
    let mut i: usize = 0;
    while i < ids.len()
        invariant
            i <= ids.len(),
            forall|j: int| 0 <= j < i ==> ids@[j] != x,
        decreases ids.len() - i,
    {
        if ids[i] == x {
            assert(ids@[i as int] == x);
            return true;
        }
        i = i + 1;
    }
    false
}

/// Checks that a non-zero pointer names a present record.
fn check_pointer(ids: &Vec<i64>, kind: &str, pointer: i64, owner: i64) -> (r: Result<(), CoreError>)
    ensures
        r is Ok <==> (pointer == 0 || ids@.contains(pointer)),
        r matches Err(e) ==> e is Validation,
        match r {
            Ok(()) => pointer_message(ids@, kind@, pointer, owner) is None,
            Err(e) => pointer_message(ids@, kind@, pointer, owner) == Some(e->Validation_0@),
        },
{
    if pointer != 0 && !contains_id(ids, pointer) {
        let mut m: Vec<char> = Vec::new();
        push_str(&mut m, "LB record ");
        push_int(&mut m, owner);
        push_str(&mut m, " references a ");
        push_str(&mut m, kind);
        push_str(&mut m, " id ");
        push_int(&mut m, pointer);
        push_str(&mut m, " that is not present");
        assert(m@ =~= "LB record "@ + int_text(owner as int) + " references a "@ + kind@ + " id "@ + int_text(
            pointer as int,
        ) + " that is not present"@);
        return Err(CoreError::Validation(string_from_chars(m)));
    }
    Ok(())
}

/// Validates the records without writing anything: every id non-zero and
/// unique, every parent and spouse pointer resolving.
///
/// # Errors
/// [`CoreError::Validation`] for the first zero or duplicate id, else the
/// first dangling pointer; exactly when [`lb_valid`] fails.
pub fn validate(people: &Vec<LbPerson>) -> (r: Result<(), CoreError>)
    ensures
        r is Ok <==> lb_valid(people@),
        r matches Err(e) ==> e is Validation,
        match r {
            Ok(()) => lb_validation_message(people@) is None,
            Err(e) => lb_validation_message(people@) == Some(e->Validation_0@),
        },
{
    let mut ids: Vec<i64> = Vec::new();
    let mut i: usize = 0;
    while i < people.len()
        invariant
            i <= people.len(),
            ids@ == lb_ids(people@).take(i as int),
            forall|k: int| 0 <= k < i ==> (#[trigger] people@[k]).id != 0,
            forall|a: int, b: int|
                0 <= a < b < i ==> (#[trigger] people@[a]).id != (#[trigger] people@[b]).id,
            first_id_error(people@.take(i as int)) is None,
        decreases people.len() - i,
    {
        let p = &people[i];
        proof {
            assert(people@.take(i + 1).drop_last() =~= people@.take(i as int));
            assert(lb_ids(people@.take(i as int)) =~= lb_ids(people@).take(i as int));
        }
        if p.id == 0 {
            let mut m: Vec<char> = Vec::new();
            push_str(&mut m, "LB record has id 0, the reserved \"none\" pointer value");
            proof {
                lemma_first_id_prefix(people@, i + 1);
            }
            return Err(CoreError::Validation(string_from_chars(m)));
        }
        if contains_id(&ids, p.id) {
            proof {
                let k = choose|k: int| 0 <= k < ids@.len() && ids@[k] == p.id;
                assert(people@[k].id == people@[i as int].id);
            }
            let mut m: Vec<char> = Vec::new();
            push_str(&mut m, "duplicate LB record id ");
            push_int(&mut m, p.id);
            proof {
                lemma_first_id_prefix(people@, i + 1);
            }
            return Err(CoreError::Validation(string_from_chars(m)));
        }
        proof {
            assert forall|a: int| 0 <= a < i implies people@[a].id != people@[i as int].id by {
                assert(ids@[a] == people@[a].id);
            }
        }
        ids.push(p.id);
        assert(ids@ =~= lb_ids(people@).take(i + 1));
        i = i + 1;
    }
    assert(ids@ =~= lb_ids(people@));
    assert(people@.take(people.len() as int) =~= people@);
    let mut i: usize = 0;
    while i < people.len()
        invariant
            i <= people.len(),
            ids@ == lb_ids(people@),
            forall|k: int| 0 <= k < i ==> person_refs_ok(people@, #[trigger] people@[k]),
            first_id_error(people@) is None,
            first_pointer_error(ids@, people@.take(i as int)) is None,
        decreases people.len() - i,
    {
        let p = &people[i];
        proof {
            assert(people@.take(i + 1).drop_last() =~= people@.take(i as int));
        }
        match check_pointer(&ids, "father", p.father_id, p.id) {
            Ok(()) => {},
            Err(e) => {
                proof {
                    lemma_first_pointer_prefix(ids@, people@, i + 1);
                }
                return Err(e);
            },
        }
        match check_pointer(&ids, "mother", p.mother_id, p.id) {
            Ok(()) => {},
            Err(e) => {
                proof {
                    lemma_first_pointer_prefix(ids@, people@, i + 1);
                }
                return Err(e);
            },
        }
        match check_pointer(&ids, "spouse", p.spouse_id, p.id) {
            Ok(()) => {},
            Err(e) => {
                proof {
                    lemma_first_pointer_prefix(ids@, people@, i + 1);
                }
                return Err(e);
            },
        }
        match &p.spouse_list {
            Some(list) => {
                let mut k: usize = 0;
                while k < list.len()
                    invariant
                        k <= list.len(),
                        ids@ == lb_ids(people@),
                        i < people.len(),
                        people@[i as int].spouse_list == Some(*list),
                        forall|j: int| 0 <= j < k ==> ptr_ok(people@, #[trigger] list@[j]),
                        first_id_error(people@) is None,
                        first_pointer_error(ids@, people@.take(i as int)) is None,
                        people@.take(i + 1).drop_last() == people@.take(i as int),
                        pointer_message(ids@, "father"@, p.father_id, p.id) is None,
                        pointer_message(ids@, "mother"@, p.mother_id, p.id) is None,
                        pointer_message(ids@, "spouse"@, p.spouse_id, p.id) is None,
                        p == people@[i as int],
                        first_list_error(ids@, list@.take(k as int), p.id) is None,
                    decreases list.len() - k,
                {
                    assert(list@.take(k + 1).drop_last() =~= list@.take(k as int));
                    match check_pointer(&ids, "spouse", list[k], p.id) {
                        Ok(()) => {},
                        Err(e) => {
                            assert(!ptr_ok(people@, list@[k as int]));
                            let ghost l = people@[i as int].spouse_list->0;
                            assert(l@[k as int] == list@[k as int]);
                            assert(!ptr_ok(people@, l@[k as int]));
                            assert(!person_refs_ok(people@, people@[i as int]));
                            proof {
                                lemma_first_list_prefix(ids@, list@, p.id, k + 1);
                                lemma_first_pointer_prefix(ids@, people@, i + 1);
                            }
                            return Err(e);
                        },
                    }
                    k = k + 1;
                }
                assert(list@.take(list.len() as int) =~= list@);
            },
            None => {},
        }
        i = i + 1;
    }
    assert(people@.take(people.len() as int) =~= people@);
    Ok(())
}

/// The step of the last entry of `m` for id `x`, if any.
pub open spec fn last_handle(m: Seq<(i64, usize)>, x: i64) -> Option<usize>
    decreases m.len(),
{
    if m.len() == 0 {
        None
    } else if m.last().0 == x {
        Some(m.last().1)
    } else {
        last_handle(m.drop_last(), x)
    }
}

/// The step the last entry for `k` names, if any.
fn lookup_id(m: &Vec<(i64, usize)>, k: i64) -> (r: Option<usize>)
    ensures
        r is None <==> !(exists|i: int| 0 <= i < m.len() && (#[trigger] m@[i]).0 == k),
        r matches Some(h) ==> exists|i: int| 0 <= i < m.len() && (#[trigger] m@[i]).0 == k && m@[i].1 == h,
        r == last_handle(m@, k),
{
    let mut i: usize = m.len();
    assert(m@.take(m.len() as int) =~= m@);
    while i > 0
        invariant
            i <= m.len(),
            forall|j: int| i <= j < m.len() ==> (#[trigger] m@[j]).0 != k,
            last_handle(m@, k) == last_handle(m@.take(i as int), k),
        decreases i,
    {
        assert(m@.take(i as int).drop_last() =~= m@.take(i - 1));
        if m[i - 1].0 == k {
            assert(m@[i - 1].0 == k);
            return Some(m[i - 1].1);
        }
        i = i - 1;
    }
    None
}

/// The family step of the last entry with parent pair `(f, mo)`, if any.
fn lookup_parents(m: &Vec<(Option<i64>, Option<i64>, usize)>, f: Option<i64>, mo: Option<i64>) -> (r: Option<usize>)
    ensures
        r is None <==> !(exists|i: int| 0 <= i < m.len() && (#[trigger] m@[i]).0 == f && m@[i].1 == mo),
        r matches Some(h) ==> exists|i: int|
            0 <= i < m.len() && (#[trigger] m@[i]).2 == h && m@[i].0 == f && m@[i].1 == mo
                && forall|j: int| i < j < m.len() ==> !((#[trigger] m@[j]).0 == f && m@[j].1 == mo),
{
    let mut i: usize = m.len();
    while i > 0
        invariant
            i <= m.len(),
            forall|j: int| i <= j < m.len() ==> !((#[trigger] m@[j]).0 == f && m@[j].1 == mo),
        decreases i,
    {
        let e = &m[i - 1];
        if e.0 == f && e.1 == mo {
            assert(m@[i - 1].2 == e.2);
            return Some(e.2);
        }
        i = i - 1;
    }
    None
}

/// Whether the couple index holds the pair `(a, b)`.
fn has_couple(m: &Vec<(usize, usize)>, a: usize, b: usize) -> (r: bool)
    ensures
        r <==> exists|i: int| 0 <= i < m.len() && (#[trigger] m@[i]) == (a, b),
{
    let mut i: usize = 0;
    while i < m.len()
        invariant
            i <= m.len(),
            forall|j: int| 0 <= j < i ==> (#[trigger] m@[j]) != (a, b),
        decreases m.len() - i,
    {
        if m[i].0 == a && m[i].1 == b {
            assert(m@[i as int] == (a, b));
            return true;
        }
        i = i + 1;
    }
    false
}

/// The two partners of a couple ordered by the step that created them, so
/// A↔B and B↔A are the same couple.
pub fn couple_key(a: usize, b: usize) -> (r: (usize, usize))
    ensures
        r == if a <= b {
            (a, b)
        } else {
            (b, a)
        },
{
    if a <= b {
        (a, b)
    } else {
        (b, a)
    }
}

/// Whether every entry of an id → step map names an individual.
pub open spec fn id_handles_ok(m: Seq<(i64, usize)>, steps: Seq<ImportStep>) -> bool {
    forall|i: int| 0 <= i < m.len() ==> is_ref(steps, steps.len() as int, (#[trigger] m[i]).1, Entity::Individual)
}

/// Whether every entry of a parent-pair map names a family.
pub open spec fn parent_handles_ok(m: Seq<(Option<i64>, Option<i64>, usize)>, steps: Seq<ImportStep>) -> bool {
    forall|i: int| 0 <= i < m.len() ==> is_ref(steps, steps.len() as int, (#[trigger] m[i]).2, Entity::Family)
}

/// An internal error for an id that was never created (unreachable for a
/// validated document).
fn missing_id(lb_id: i64) -> (e: CoreError)
    ensures
        e is Validation,
{
    let mut m: Vec<char> = Vec::new();
    push_str(&mut m, "internal: LB id ");
    push_int(&mut m, lb_id);
    push_str(&mut m, " was not created (unreachable after validation)");
    CoreError::Validation(string_from_chars(m))
}

/// Plans a birth or death event: only when a date or a place is known; the
/// place is created once per name.
fn add_vital_event(
    p: &mut Planner,
    person: usize,
    kind: EventKind,
    date: Option<crate::date::GenealogicalDate>,
    place_str: &str,
)
    requires
        old(p).inv(),
        is_ref(old(p).steps@, old(p).steps@.len() as int, person, Entity::Individual),
    ensures
        final(p).inv(),
        Planner::framed(*old(p), *final(p)),
        ({
            let c0 = steps_of_kind(old(p).steps@, 4);
            let c1 = steps_of_kind(final(p).steps@, 4);
            if date is Some || spec_non_empty(place_str@) is Some {
                &&& c1.len() == c0.len() + 1
                &&& c1.take(c0.len() as int) == c0
                &&& c1.last() matches ImportStep::AddEvent { subject, kind: k2, date: d2, place, notes }
                &&& subject == PlanSubject::Individual(person)
                &&& k2 == kind
                &&& d2 == date
                &&& notes is None
                &&& place_ok(final(p).steps@, spec_non_empty(place_str@), place)
            } else {
                c1 == c0
            }
        }),
{
    let ghost s0 = p.steps@;
    let ghost c0 = steps_of_kind(p.steps@, 4);
    let place = match non_empty(place_str) {
        Some(name) => Some(p.place_for(&name)),
        None => None,
    };
    if date.is_none() && place.is_none() {
        return;
    }
    proof {
        lemma_ref_extends(s0, p.steps@, person, Entity::Individual);
    }
    let ghost s1 = p.steps@;
    let estep = ImportStep::AddEvent {
        subject: PlanSubject::Individual(person),
        kind,
        date,
        place,
        notes: None,
    };
    let ghost es = estep;
    p.add(estep);
    assert(extends(s1, p.steps@));
    proof {
        let c1 = steps_of_kind(p.steps@, 4);
        assert(c1 == c0.push(es));
        assert(c1.take(c0.len() as int) =~= c0);
        if let Some(q) = place {
            assert(p.steps@[q as int] == s1[q as int]);
        }
    }
}

/// Validates an LB document and plans its import: each person with the birth
/// and death events something is known of (a birth after the death is
/// dropped, and the living flag is inferred from the vital facts); then one
/// family per distinct `(father, mother)` pair with its children in input
/// order; then one couple family per spouse pointer whose couple has no
/// family yet. `store_empty` tells whether the database holds no individuals
/// yet; `current_year` guards against placeholder future dates.
///
/// # Errors
/// [`CoreError::Validation`] for a document that fails [`validate`], then for
/// a non-merge import into a non-empty database (`database is not empty; pass
/// merge to append`); never otherwise.
#[verifier::spinoff_prover]
#[verifier::rlimit(100)]
pub fn plan_lb(people: &Vec<LbPerson>, options: &ImportOptions, store_empty: bool, current_year: i32) -> (r: Result<ImportPlan, CoreError>)
    ensures
        lb_valid(people@) && !options.merge && !store_empty ==> (r matches Err(e) && e is Validation
            && e->Validation_0@ == "database is not empty; pass merge to append"@),
        r is Ok <==> (options.merge || store_empty) && lb_valid(people@),
        r matches Ok(p) ==> {
            &&& plan_wf(p.steps@)
            &&& places_once(p.steps@)
            &&& summary_counts(p.summary, p.steps@)
            &&& p.summary.individuals == people.len()
            &&& p.summary.skipped_tags@.len() == 0
            &&& lb_individuals_drafted(people@, current_year, p.steps@)
            &&& lb_events_drafted(lb_event_links(people@, current_year), current_year, p.steps@)
            &&& lb_children_drafted(people@, people@, current_year, p.steps@)
            &&& lb_families_drafted(people@, p.steps@)
        },
        r matches Err(e) ==> e is Validation,
{
    match validate(people) {
        Ok(()) => {},
        Err(e) => return Err(e),
    }
    if !options.merge && !store_empty {
        let mut m: Vec<char> = Vec::new();
        push_str(&mut m, "database is not empty; pass merge to append");
        return Err(CoreError::Validation(string_from_chars(m)));
    }
    let mut p = Planner::new();
    let mut id_map: Vec<(i64, usize)> = Vec::new();
    assert(lb_events_drafted(lb_event_links(people@.take(0), current_year), current_year, p.steps@)) by {
        reveal(lb_events_drafted);
    }

    // Individuals and their birth and death events.
    let mut i: usize = 0;
    while i < people.len()
        invariant
            i <= people.len(),
            p.inv(),
            options.merge || store_empty,
            p.summary.individuals == i,
            p.summary.skipped_tags@.len() == 0,
            lb_individuals_drafted(people@.take(i as int), current_year, p.steps@),
            lb_events_drafted(lb_event_links(people@.take(i as int), current_year), current_year, p.steps@),
            steps_of_kind(p.steps@, 9).len() == 0,
            id_map.len() == i,
            forall|k: int| 0 <= k < i ==> (#[trigger] id_map@[k]).0 == people@[k].id,
            forall|k: int| 0 <= k < i ==> lb_person_step(p.steps@, people@[k], current_year, (#[trigger] id_map@[k]).1),
            forall|k: int| 0 <= k < i ==> individual_at(p.steps@, k, (#[trigger] id_map@[k]).1),
            p.summary.families == 0,
            id_handles_ok(id_map@, p.steps@),
        decreases people.len() - i,
    {
        let person = &people[i];
        let death = parse_lb_date(person.death_date.as_str(), current_year);
        let birth = reconcile_birth(parse_lb_date(person.birth_date.as_str(), current_year), death.as_ref());
        let has_death_place = non_empty(person.death_place.as_str()).is_some();
        let living = infer_living(birth.as_ref(), death.as_ref(), has_death_place, current_year);
        let sex = match Sex::parse(person.gender.as_str()) {
            Ok(s) => s,
            Err(_) => Sex::Unknown,
        };
        let draft = NewIndividual {
            given_name: non_empty(person.first_name.as_str()),
            surname: non_empty(person.last_name.as_str()),
            name_prefix: None,
            name_suffix: None,
            nickname: None,
            sex,
            living,
            notes: non_empty(person.notes.as_str()),
        };
        let idx = p.steps.len();
        let ghost s0 = p.steps@;
        let ghost c0 = steps_of_kind(p.steps@, 1);
        let ghost dg = draft;
        proof {
            assert(lb_draft_fields(people@[i as int], current_year, dg));
        }
        p.add(ImportStep::CreateIndividual(draft));
        assert(creates(p.steps@[idx as int]) == Some(Entity::Individual));
        let ghost person_g = people@[i as int];
        let ghost l0 = lb_event_links(people@.take(i as int), current_year);
        proof {
            let c = steps_of_kind(p.steps@, 1);
            assert(c == c0.push(ImportStep::CreateIndividual(dg)));
            assert(people@.take(i + 1) =~= people@.take(i as int).push(people@[i as int]));
            assert(lb_individuals_drafted(people@.take(i + 1), current_year, p.steps@));
            assert(steps_of_kind(p.steps@, 4) == steps_of_kind(s0, 4));
            assert(steps_of_kind(p.steps@, 9) == steps_of_kind(s0, 9));
            lemma_lb_events_extends(l0, current_year, s0, p.steps@);
            assert(lb_person_step(p.steps@, person_g, current_year, idx)) by {
                reveal(lb_person_step);
            }
            assert forall|k: int| 0 <= k < id_map@.len() implies is_ref(
                p.steps@,
                p.steps@.len() as int,
                (#[trigger] id_map@[k]).1,
                Entity::Individual,
            ) by {
                lemma_ref_extends(s0, p.steps@, id_map@[k].1, Entity::Individual);
            }
            assert forall|k: int| 0 <= k < i implies lb_person_step(p.steps@, people@[k], current_year, (#[trigger] id_map@[k]).1) by {
                lemma_person_step_extends(s0, p.steps@, people@[k], current_year, id_map@[k].1);
            }
            assert(p.steps@.take(idx as int) =~= s0);
            assert(individual_at(p.steps@, i as int, idx));
            assert forall|k: int| 0 <= k < i implies individual_at(p.steps@, k, (#[trigger] id_map@[k]).1) by {
                lemma_individual_at_extends(s0, p.steps@, k, id_map@[k].1);
            }
        }
        let ghost before = id_map@;
        id_map.push((person.id, idx));
        let ghost s1 = p;
        add_vital_event(&mut p, idx, EventKind::Birth, birth, person.birth_place.as_str());
        let ghost l1 = if lb_birth(person_g, current_year) is Some || spec_non_empty(person_g.birth_place@) is Some {
            l0.push((person_g, EventKind::Birth))
        } else {
            l0
        };
        proof {
            lemma_ref_extends(s1.steps@, p.steps@, idx, Entity::Individual);
            lemma_kind_framed(s1.steps@, p.steps@, 1);
            lemma_person_step_extends(s1.steps@, p.steps@, person_g, current_year, idx);
            if lb_birth(person_g, current_year) is Some || spec_non_empty(person_g.birth_place@) is Some {
                lemma_lb_events_push(l0, (person_g, EventKind::Birth), current_year, s1.steps@, p.steps@);
            } else {
                lemma_lb_events_extends(l0, current_year, s1.steps@, p.steps@);
            }
        }
        let ghost s2 = p;
        add_vital_event(&mut p, idx, EventKind::Death, death, person.death_place.as_str());
        let ghost l2 = if lb_death(person_g, current_year) is Some || spec_non_empty(person_g.death_place@) is Some {
            l1.push((person_g, EventKind::Death))
        } else {
            l1
        };
        proof {
            lemma_kind_framed(s2.steps@, p.steps@, 1);
            lemma_person_step_extends(s2.steps@, p.steps@, person_g, current_year, idx);
            if lb_death(person_g, current_year) is Some || spec_non_empty(person_g.death_place@) is Some {
                lemma_lb_events_push(l1, (person_g, EventKind::Death), current_year, s2.steps@, p.steps@);
            } else {
                lemma_lb_events_extends(l1, current_year, s2.steps@, p.steps@);
            }
            assert(people@.take(i + 1).drop_last() =~= people@.take(i as int));
            assert(l2 =~= l0 + lb_vitals(person_g, current_year));
            assert(lb_event_links(people@.take(i + 1), current_year) == l2);
            assert forall|k: int| 0 <= k < id_map@.len() implies is_ref(
                p.steps@,
                p.steps@.len() as int,
                (#[trigger] id_map@[k]).1,
                Entity::Individual,
            ) by {
                if k < before.len() {
                    assert(id_map@[k] == before[k]);
                }
                lemma_ref_extends(s0.push(ImportStep::CreateIndividual(draft)), s1.steps@, id_map@[k].1, Entity::Individual);
                lemma_ref_extends(s1.steps@, p.steps@, id_map@[k].1, Entity::Individual);
            }
            assert forall|k: int| 0 <= k < i + 1 implies individual_at(p.steps@, k, (#[trigger] id_map@[k]).1) by {
                if k < i {
                    assert(id_map@[k] == before[k]);
                }
                lemma_individual_at_extends(s1.steps@, s2.steps@, k, id_map@[k].1);
                lemma_individual_at_extends(s2.steps@, p.steps@, k, id_map@[k].1);
            }
            assert forall|k: int| 0 <= k < i + 1 implies lb_person_step(p.steps@, people@[k], current_year, (#[trigger] id_map@[k]).1) by {
                if k < i {
                    assert(id_map@[k] == before[k]);
                    lemma_person_step_extends(s1.steps@, s2.steps@, people@[k], current_year, id_map@[k].1);
                    lemma_person_step_extends(s2.steps@, p.steps@, people@[k], current_year, id_map@[k].1);
                }
            }
        }
        i = i + 1;
    }
    proof {
        assert(people@.take(people.len() as int) =~= people@);
        assert forall|x: i64| x != 0 && lb_ids(people@).contains(x) implies exists|k: int|
            0 <= k < id_map.len() && (#[trigger] id_map@[k]).0 == x by {
            let j = choose|j: int| 0 <= j < lb_ids(people@).len() && lb_ids(people@)[j] == x;
            assert(id_map@[j].0 == x);
        }
    }

    assert(lb_children_drafted(people@, people@.take(0), current_year, p.steps@)) by {
        reveal(lb_children_drafted);
    }
    assert(steps_of_kind(p.steps@, 9) =~= Seq::<ImportStep>::empty());
    assert forall|f: usize| #[trigger] family_children(steps_of_kind(p.steps@, 9), f) == 0 by {
    }

    // One family per distinct (father, mother) pair, children in input order.
    let ghost sl = p.steps@;
    proof {
        lemma_kind_len(p.steps@, 6);
        assert(steps_of_kind(p.steps@, 6) =~= family_steps(Seq::empty()));
        assert(people@.take(0) =~= Seq::<LbPerson>::empty());
    }
    let mut parent_family: Vec<(Option<i64>, Option<i64>, usize)> = Vec::new();
    let mut couples: Vec<(usize, usize)> = Vec::new();
    let mut child_order: Vec<(usize, i64)> = Vec::new();
    let mut i: usize = 0;
    while i < people.len()
        invariant
            i <= people.len(),
            p.inv(),
            options.merge || store_empty,
            p.summary.individuals == people.len(),
            p.summary.skipped_tags@.len() == 0,
            lb_individuals_drafted(people@, current_year, p.steps@),
            id_map.len() == people.len(),
            forall|k: int| 0 <= k < people.len() ==> (#[trigger] id_map@[k]).0 == people@[k].id,
            id_handles_ok(id_map@, p.steps@),
            parent_handles_ok(parent_family@, p.steps@),
            lb_events_drafted(lb_event_links(people@, current_year), current_year, p.steps@),
            lb_children_drafted(people@, people@.take(i as int), current_year, p.steps@),
            extends(sl, p.steps@),
            forall|k: int| 0 <= k < people.len() ==> individual_at(sl, k, (#[trigger] id_map@[k]).1),
            families_match(parent_phase(id_map@, people@.take(i as int)), parent_family@, couples@, p.steps@),
            forall|j: int| 0 <= j < parent_family.len() ==> lb_parents_family(
                people@,
                current_year,
                p.steps@,
                (#[trigger] parent_family@[j]).0,
                parent_family@[j].1,
                parent_family@[j].2,
            ),
            forall|j: int|
                0 <= j < child_order.len() ==> (#[trigger] child_order@[j]).1 == saturated_order(
                    family_children(steps_of_kind(p.steps@, 9), child_order@[j].0),
                ),
            forall|j1: int, j2: int|
                0 <= j1 < j2 < child_order.len() ==> (#[trigger] child_order@[j1]).0 != (#[trigger] child_order@[j2]).0,
            forall|f: usize|
                #[trigger] family_children(steps_of_kind(p.steps@, 9), f) > 0 ==> exists|j: int|
                    0 <= j < child_order.len() && child_order@[j].0 == f,
            forall|k: int| 0 <= k < people.len() ==> lb_person_step(p.steps@, people@[k], current_year, (#[trigger] id_map@[k]).1),
            forall|x: i64| x != 0 && lb_ids(people@).contains(x) ==> exists|k: int|
                0 <= k < id_map.len() && (#[trigger] id_map@[k]).0 == x,
        decreases people.len() - i,
    {
        let person = &people[i];
        let father = person.father();
        let mother = person.mother();
        let ghost st0 = parent_phase(id_map@, people@.take(i as int));
        proof {
            assert(people@.take(i + 1).drop_last() =~= people@.take(i as int));
            assert(people@.take(i + 1).last() == people@[i as int]);
        }
        if father.is_some() || mother.is_some() {
            let fam_id = match lookup_parents(&parent_family, father, mother) {
                Some(h) => {
                    proof {
                        let k = choose|k: int|
                            0 <= k < parent_family.len() && (#[trigger] parent_family@[k]).2 == h
                                && parent_family@[k].0 == father && parent_family@[k].1 == mother;
                        assert(is_ref(p.steps@, p.steps@.len() as int, parent_family@[k].2, Entity::Family));
                        assert(lb_parents_family(people@, current_year, p.steps@, father, mother, h));
                        assert(st0.pairs[k] == (father, mother));
                        assert(st0.pairs.contains((father, mother)));
                        assert(parent_phase(id_map@, people@.take(i + 1)) == st0);
                    }
                    h
                },
                None => {
                    let partner1 = match father {
                        Some(f) => match lookup_id(&id_map, f) {
                            Some(h) => Some(h),
                            None => {
                                proof {
                                    if lb_valid(people@) {
                                        assert(person_refs_ok(people@, people@[i as int]));
                                    }
                                }
                                return Err(missing_id(f));
                            },
                        },
                        None => None,
                    };
                    let partner2 = match mother {
                        Some(mo) => match lookup_id(&id_map, mo) {
                            Some(h) => Some(h),
                            None => {
                                proof {
                                    if lb_valid(people@) {
                                        assert(person_refs_ok(people@, people@[i as int]));
                                    }
                                }
                                return Err(missing_id(mo));
                            },
                        },
                        None => None,
                    };
                    proof {
                        if let Some(h) = partner1 {
                            let k = choose|k: int| 0 <= k < id_map.len() && (#[trigger] id_map@[k]).0 == father->0 && id_map@[k].1 == h;
                            assert(is_ref(p.steps@, p.steps@.len() as int, id_map@[k].1, Entity::Individual));
                            assert(lb_person_step(p.steps@, people@[k], current_year, id_map@[k].1));
                        }
                        if let Some(h) = partner2 {
                            let k = choose|k: int| 0 <= k < id_map.len() && (#[trigger] id_map@[k]).0 == mother->0 && id_map@[k].1 == h;
                            assert(is_ref(p.steps@, p.steps@.len() as int, id_map@[k].1, Entity::Individual));
                            assert(lb_person_step(p.steps@, people@[k], current_year, id_map@[k].1));
                        }
                        assert(lb_partner(people@, current_year, p.steps@, father, partner1));
                        assert(lb_partner(people@, current_year, p.steps@, mother, partner2));
                        if st0.pairs.contains((father, mother)) {
                            let j = choose|j: int| 0 <= j < st0.pairs.len() && st0.pairs[j] == (father, mother);
                            assert((parent_family@[j].0, parent_family@[j].1) == st0.pairs[j]);
                        }
                        assert(partner1 == handle_of(id_map@, father));
                        assert(partner2 == handle_of(id_map@, mother));
                    }
                    let ghost cs0 = couples@;
                    let idx = p.steps.len();
                    let ghost s0 = p.steps@;
                    p.add(ImportStep::CreateFamily {
                        partner1,
                        partner2,
                        union_type: crate::enums::UnionType::Unknown,
                        notes: None,
                    });
                    assert(creates(p.steps@[idx as int]) == Some(Entity::Family));
                    let ghost pf = parent_family@;
                    parent_family.push((father, mother, idx));
                    proof {
                        assert forall|k: int| 0 <= k < id_map@.len() implies is_ref(
                            p.steps@,
                            p.steps@.len() as int,
                            (#[trigger] id_map@[k]).1,
                            Entity::Individual,
                        ) by {
                            lemma_ref_extends(s0, p.steps@, id_map@[k].1, Entity::Individual);
                        }
                        assert forall|k: int| 0 <= k < parent_family@.len() implies is_ref(
                            p.steps@,
                            p.steps@.len() as int,
                            (#[trigger] parent_family@[k]).2,
                            Entity::Family,
                        ) by {
                            if k < pf.len() {
                                assert(parent_family@[k] == pf[k]);
                                lemma_ref_extends(s0, p.steps@, pf[k].2, Entity::Family);
                            }
                        }
                        assert(steps_of_kind(p.steps@, 4) == steps_of_kind(s0, 4));
                        assert(steps_of_kind(p.steps@, 9) == steps_of_kind(s0, 9));
                        lemma_lb_events_extends(lb_event_links(people@, current_year), current_year, s0, p.steps@);
                        lemma_lb_children_extends(people@, people@.take(i as int), current_year, s0, p.steps@);
                        assert forall|k: int| 0 <= k < people.len() implies lb_person_step(
                            p.steps@,
                            people@[k],
                            current_year,
                            (#[trigger] id_map@[k]).1,
                        ) by {
                            lemma_person_step_extends(s0, p.steps@, people@[k], current_year, id_map@[k].1);
                        }
                        lemma_partner_extends(people@, current_year, s0, p.steps@, father, partner1);
                        lemma_partner_extends(people@, current_year, s0, p.steps@, mother, partner2);
                        assert(lb_parents_family(people@, current_year, p.steps@, father, mother, idx)) by {
                            reveal(lb_parents_family);
                        }
                        assert forall|j: int| 0 <= j < parent_family.len() implies lb_parents_family(
                            people@,
                            current_year,
                            p.steps@,
                            (#[trigger] parent_family@[j]).0,
                            parent_family@[j].1,
                            parent_family@[j].2,
                        ) by {
                            if j < pf.len() {
                                assert(parent_family@[j] == pf[j]);
                                lemma_parents_family_extends(people@, current_year, s0, p.steps@, pf[j].0, pf[j].1, pf[j].2);
                            }
                        }
                    }
                    match (partner1, partner2) {
                        (Some(a), Some(b)) => {
                            let key = couple_key(a, b);
                            if !has_couple(&couples, key.0, key.1) {
                                couples.push(key);
                            }
                        },
                        _ => {},
                    }
                    proof {
                        assert(steps_of_kind(p.steps@, 6) == steps_of_kind(s0, 6).push(
                            family_step((partner1, partner2)),
                        ));
                        assert(couples@ == parent_step(id_map@, st0, people@[i as int]).couples);
                        lemma_parent_family_new(id_map@, st0, people@[i as int], pf, s0, p.steps@, couples@, idx);
                        assert(parent_phase(id_map@, people@.take(i + 1)) == parent_step(id_map@, st0, people@[i as int]));
                    }
                    idx
                },
            };
            // Ids are unique, so the record's own entry is the one at `i`.
            let child = id_map[i].1;
            proof {
                assert(is_ref(p.steps@, p.steps@.len() as int, id_map@[i as int].1, Entity::Individual));
                assert(lb_person_step(p.steps@, people@[i as int], current_year, child));
            }
            let mut order: i64 = 0;
            let mut k: usize = 0;
            let mut found = false;
            let ghost old_co = child_order@;
            let ghost mut jf: int = 0;
            while k < child_order.len()
                invariant
                    k <= child_order.len(),
                    child_order.len() == old_co.len(),
                    !found ==> child_order@ == old_co && order == 0,
                    !found ==> forall|j: int| 0 <= j < k ==> (#[trigger] old_co[j]).0 != fam_id,
                    found ==> 0 <= jf < k && old_co[jf].0 == fam_id && order == old_co[jf].1,
                    found ==> child_order@ == old_co.update(
                        jf,
                        (
                            fam_id,
                            if order < 9223372036854775807 {
                                (order + 1) as i64
                            } else {
                                order
                            },
                        ),
                    ),
                decreases child_order.len() - k,
            {
                if child_order[k].0 == fam_id && !found {
                    order = child_order[k].1;
                    found = true;
                    proof {
                        jf = k as int;
                    }
                    let next = if order < 9223372036854775807 { order + 1 } else { order };
                    child_order.set(k, (fam_id, next));
                }
                k = k + 1;
            }
            let ghost co1 = child_order@;
            if !found {
                child_order.push((fam_id, 1));
            }
            assert(families_match(parent_phase(id_map@, people@.take(i + 1)), parent_family@, couples@, p.steps@));
            let ghost s0 = p.steps@;
            let ghost cs = ImportStep::AddChild {
                family: fam_id,
                child,
                relation: ChildRelation::Birth,
                sort_order: order,
            };
            p.add(ImportStep::AddChild {
                family: fam_id,
                child,
                relation: ChildRelation::Birth,
                sort_order: order,
            });
            proof {
                assert(p.steps@ == s0.push(cs));
                assert(steps_of_kind(p.steps@, 6) == steps_of_kind(s0, 6));
                assert(steps_of_kind(p.steps@, 4) == steps_of_kind(s0, 4));
                assert(steps_of_kind(p.steps@, 9) == steps_of_kind(s0, 9).push(cs));
                lemma_lb_events_extends(lb_event_links(people@, current_year), current_year, s0, p.steps@);
                let c0 = steps_of_kind(s0, 9);
                let c1 = steps_of_kind(p.steps@, 9);
                assert forall|f: usize| #[trigger] family_children(c1, f) == family_children(c0, f) + if f == fam_id {
                    1nat
                } else {
                    0nat
                } by {
                    lemma_family_children_push(c0, cs, f);
                }
                if found {
                    assert(child_order@ == old_co.update(jf, (fam_id, child_order@[jf].1)));
                    assert forall|j: int| 0 <= j < child_order.len() && j != jf implies (#[trigger] child_order@[j]).0 != fam_id by {
                        assert(child_order@[j] == old_co[j]);
                        if j < jf {
                            assert(old_co[j].0 != old_co[jf].0);
                        } else {
                            assert(old_co[jf].0 != old_co[j].0);
                        }
                    }
                } else {
                    assert forall|j: int| 0 <= j < old_co.len() implies (#[trigger] old_co[j]).0 != fam_id by {
                    }
                    if family_children(c0, fam_id) > 0 {
                        let j = choose|j: int| 0 <= j < old_co.len() && old_co[j].0 == fam_id;
                        assert(old_co[j].0 != fam_id);
                    }
                    assert(child_order@ == old_co.push((fam_id, 1i64)));
                }
                assert(lb_child_fields(people@, people@[i as int], current_year, s0, c0, cs));
                lemma_lb_children_push(people@, people@.take(i as int), people@[i as int], current_year, s0, cs);
                assert forall|j: int| 0 <= j < child_order.len() implies (#[trigger] child_order@[j]).1 == saturated_order(
                    family_children(c1, child_order@[j].0),
                ) by {
                    if found {
                        if j != jf {
                            assert(child_order@[j] == old_co[j]);
                        }
                    } else {
                        if j < old_co.len() {
                            assert(child_order@[j] == old_co[j]);
                        }
                    }
                }
                assert forall|j1: int, j2: int| 0 <= j1 < j2 < child_order.len() implies (#[trigger] child_order@[j1]).0
                    != (#[trigger] child_order@[j2]).0 by {
                    if !found && j2 == old_co.len() {
                        assert(child_order@[j1] == old_co[j1]);
                    } else if found {
                        assert(child_order@[j1].0 == old_co[j1].0);
                        assert(child_order@[j2].0 == old_co[j2].0);
                    } else {
                        assert(child_order@[j1] == old_co[j1]);
                        assert(child_order@[j2] == old_co[j2]);
                    }
                }
                assert forall|f: usize| #[trigger] family_children(c1, f) > 0 implies exists|j: int|
                    0 <= j < child_order.len() && child_order@[j].0 == f by {
                    if f == fam_id {
                        if found {
                            assert(child_order@[jf].0 == f);
                        } else {
                            assert(child_order@[old_co.len() as int].0 == f);
                        }
                    } else {
                        assert(family_children(c0, f) > 0);
                        let j = choose|j: int| 0 <= j < old_co.len() && old_co[j].0 == f;
                        assert(child_order@[j].0 == f);
                    }
                }
                assert forall|j: int| 0 <= j < parent_family.len() implies lb_parents_family(
                    people@,
                    current_year,
                    p.steps@,
                    (#[trigger] parent_family@[j]).0,
                    parent_family@[j].1,
                    parent_family@[j].2,
                ) by {
                    lemma_parents_family_extends(
                        people@,
                        current_year,
                        s0,
                        p.steps@,
                        parent_family@[j].0,
                        parent_family@[j].1,
                        parent_family@[j].2,
                    );
                }
                assert(people@.take(i + 1) =~= people@.take(i as int).push(people@[i as int]));
                assert forall|k: int| 0 <= k < people.len() implies lb_person_step(
                    p.steps@,
                    people@[k],
                    current_year,
                    (#[trigger] id_map@[k]).1,
                ) by {
                    lemma_person_step_extends(s0, p.steps@, people@[k], current_year, id_map@[k].1);
                }
                assert forall|k: int| 0 <= k < id_map@.len() implies is_ref(
                    p.steps@,
                    p.steps@.len() as int,
                    (#[trigger] id_map@[k]).1,
                    Entity::Individual,
                ) by {
                    lemma_ref_extends(s0, p.steps@, id_map@[k].1, Entity::Individual);
                }
                assert forall|k: int| 0 <= k < parent_family@.len() implies is_ref(
                    p.steps@,
                    p.steps@.len() as int,
                    (#[trigger] parent_family@[k]).2,
                    Entity::Family,
                ) by {
                    lemma_ref_extends(s0, p.steps@, parent_family@[k].2, Entity::Family);
                }
            }
        } else {
            proof {
                assert(people@.take(i + 1).drop_last() =~= people@.take(i as int));
                assert(with_parents(people@.take(i + 1)) =~= with_parents(people@.take(i as int)));
                assert(parent_phase(id_map@, people@.take(i + 1)) == st0);
                assert(lb_children_drafted(people@, people@.take(i + 1), current_year, p.steps@)) by {
                    reveal(lb_children_drafted);
                }
            }
        }
        i = i + 1;
    }
    proof {
        assert(people@.take(people.len() as int) =~= people@);
    }

    // Couple families from spouse pointers, once per couple.
    let ghost stp = parent_phase(id_map@, people@);
    assert(people@.take(people.len() as int) =~= people@);
    assert(people@.take(0) =~= Seq::<LbPerson>::empty());
    let mut i: usize = 0;
    while i < people.len()
        invariant
            i <= people.len(),
            p.inv(),
            options.merge || store_empty,
            p.summary.individuals == people.len(),
            p.summary.skipped_tags@.len() == 0,
            lb_individuals_drafted(people@, current_year, p.steps@),
            id_map.len() == people.len(),
            forall|k: int| 0 <= k < people.len() ==> (#[trigger] id_map@[k]).0 == people@[k].id,
            id_handles_ok(id_map@, p.steps@),
            forall|x: i64| x != 0 && lb_ids(people@).contains(x) ==> exists|k: int|
                0 <= k < id_map.len() && (#[trigger] id_map@[k]).0 == x,
            lb_events_drafted(lb_event_links(people@, current_year), current_year, p.steps@),
            lb_children_drafted(people@, people@, current_year, p.steps@),
            extends(sl, p.steps@),
            forall|k: int| 0 <= k < people.len() ==> individual_at(sl, k, (#[trigger] id_map@[k]).1),
            stp == parent_phase(id_map@, people@),
            couples@ == couple_phase(id_map@, stp, people@.take(i as int)).couples,
            steps_of_kind(p.steps@, 6) == family_steps(couple_phase(id_map@, stp, people@.take(i as int)).fams),
        decreases people.len() - i,
    {
        let person = &people[i];
        let ghost sti = couple_phase(id_map@, stp, people@.take(i as int));
        proof {
            assert(people@.take(i + 1).drop_last() =~= people@.take(i as int));
            assert(people@.take(i + 1).last() == people@[i as int]);
        }
        let a = match lookup_id(&id_map, person.id) {
            Some(h) => h,
            None => {
                proof {
                    assert(id_map@[i as int].0 == person.id);
                }
                return Err(missing_id(person.id));
            },
        };
        proof {
            let k = choose|k: int| 0 <= k < id_map.len() && (#[trigger] id_map@[k]).0 == person.id && id_map@[k].1 == a;
            assert(is_ref(p.steps@, p.steps@.len() as int, id_map@[k].1, Entity::Individual));
        }
        let spouses = person.spouses();
        let ghost s_start = p.steps@;
        let mut j: usize = 0;
        assert(spouses@.take(0) =~= Seq::<i64>::empty());
        while j < spouses.len()
            invariant
                j <= spouses.len(),
                p.inv(),
                options.merge || store_empty,
                p.summary.individuals == people.len(),
                p.summary.skipped_tags@.len() == 0,
                lb_individuals_drafted(people@, current_year, p.steps@),
                i < people.len(),
                person == &people@[i as int],
                spouses@ == crate::lb::record::spec_spouses(people@[i as int]),
                id_map.len() == people.len(),
                id_handles_ok(id_map@, p.steps@),
                is_ref(p.steps@, p.steps@.len() as int, a, Entity::Individual),
                forall|x: i64| x != 0 && lb_ids(people@).contains(x) ==> exists|k: int|
                    0 <= k < id_map.len() && (#[trigger] id_map@[k]).0 == x,
                lb_events_drafted(lb_event_links(people@, current_year), current_year, p.steps@),
                lb_children_drafted(people@, people@, current_year, p.steps@),
                extends(sl, p.steps@),
                forall|k: int| 0 <= k < people.len() ==> individual_at(sl, k, (#[trigger] id_map@[k]).1),
                stp == parent_phase(id_map@, people@),
                sti == couple_phase(id_map@, stp, people@.take(i as int)),
                Some(a) == last_handle(id_map@, people@[i as int].id),
                couples@ == spouse_phase(id_map@, sti, a, spouses@.take(j as int)).couples,
                steps_of_kind(p.steps@, 6) == family_steps(spouse_phase(id_map@, sti, a, spouses@.take(j as int)).fams),
            decreases spouses.len() - j,
        {
            let s = spouses[j];
            let ghost stj = spouse_phase(id_map@, sti, a, spouses@.take(j as int));
            proof {
                assert(spouses@.take(j + 1).drop_last() =~= spouses@.take(j as int));
                assert(spouses@.take(j + 1).last() == s);
            }
            let b = match lookup_id(&id_map, s) {
                Some(h) => h,
                None => {
                    proof {
                        if lb_valid(people@) {
                            assert(person_refs_ok(people@, people@[i as int]));
                            lemma_spouse_ok(people@, people@[i as int], j as int);
                        }
                    }
                    return Err(missing_id(s));
                },
            };
            proof {
                let k = choose|k: int| 0 <= k < id_map.len() && (#[trigger] id_map@[k]).0 == s && id_map@[k].1 == b;
                assert(is_ref(p.steps@, p.steps@.len() as int, id_map@[k].1, Entity::Individual));
            }
            let key = couple_key(a, b);
            if !has_couple(&couples, key.0, key.1) {
                let ghost s0 = p.steps@;
                proof {
                    if stj.couples.contains(key) {
                        let w = choose|w: int| 0 <= w < stj.couples.len() && stj.couples[w] == key;
                        assert(couples@[w] == key);
                    }
                }
                p.add(ImportStep::CreateFamily {
                    partner1: Some(key.0),
                    partner2: Some(key.1),
                    union_type: crate::enums::UnionType::Unknown,
                    notes: None,
                });
                couples.push(key);
                proof {
                    assert forall|k: int| 0 <= k < id_map@.len() implies is_ref(
                        p.steps@,
                        p.steps@.len() as int,
                        (#[trigger] id_map@[k]).1,
                        Entity::Individual,
                    ) by {
                        lemma_ref_extends(s0, p.steps@, id_map@[k].1, Entity::Individual);
                    }
                    lemma_ref_extends(s0, p.steps@, a, Entity::Individual);
                    assert(steps_of_kind(p.steps@, 4) == steps_of_kind(s0, 4));
                    assert(steps_of_kind(p.steps@, 9) == steps_of_kind(s0, 9));
                    lemma_lb_events_extends(lb_event_links(people@, current_year), current_year, s0, p.steps@);
                    lemma_lb_children_extends(people@, people@, current_year, s0, p.steps@);
                    assert(steps_of_kind(p.steps@, 6) == steps_of_kind(s0, 6).push(family_step((Some(key.0), Some(key.1)))));
                    lemma_family_steps_push(stj.fams, (Some(key.0), Some(key.1)));
                    assert(spouse_phase(id_map@, sti, a, spouses@.take(j + 1)) == spouse_step(id_map@, stj, a, s));
                }
            } else {
                proof {
                    let w = choose|w: int| 0 <= w < couples@.len() && couples@[w] == key;
                    assert(stj.couples[w] == key);
                    assert(spouse_phase(id_map@, sti, a, spouses@.take(j + 1)) == stj);
                }
            }
            j = j + 1;
        }
        proof {
            assert(spouses@.take(spouses.len() as int) =~= spouses@);
            assert(couple_phase(id_map@, stp, people@.take(i + 1)) == spouse_phase(id_map@, sti, a, spouses@));
        }
        i = i + 1;
    }
    proof {
        lemma_handles_final(people@, sl, p.steps@, id_map@);
        lemma_families_final(people@, p.steps@, id_map@);
        lemma_places_once(p);
    }
    Ok(ImportPlan { steps: p.steps, summary: p.summary })
}

/// Every spouse pointer of a valid record resolves.
proof fn lemma_spouse_ok(people: Seq<LbPerson>, person: LbPerson, j: int)
    requires
        person_refs_ok(people, person),
        0 <= j < crate::lb::record::spec_spouses(person).len(),
    ensures
        crate::lb::record::spec_spouses(person)[j] != 0,
        lb_ids(people).contains(crate::lb::record::spec_spouses(person)[j]),
{
    let head: Seq<i64> = if person.spouse_id != 0 {
        seq![person.spouse_id]
    } else {
        seq![]
    };
    if j < head.len() {
        assert(crate::lb::record::spec_spouses(person)[j] == person.spouse_id);
    } else {
        let l = person.spouse_list->0;
        let t = crate::lb::record::non_zero(l@);
        assert(crate::lb::record::spec_spouses(person)[j] == t[j - head.len()]);
        lemma_non_zero_from(l@, j - head.len());
        let k = choose|k: int| 0 <= k < l@.len() && l@[k] == t[j - head.len()];
        assert(ptr_ok(people, l@[k]));
    }
}

/// Every element of `non_zero(l)` is a non-zero element of `l`.
proof fn lemma_non_zero_from(l: Seq<i64>, j: int)
    requires
        0 <= j < crate::lb::record::non_zero(l).len(),
    ensures
        crate::lb::record::non_zero(l)[j] != 0,
        exists|k: int| 0 <= k < l.len() && l[k] == crate::lb::record::non_zero(l)[j],
    decreases l.len(),
{
    let t = crate::lb::record::non_zero(l);
    if l.len() > 0 {
        let p = crate::lb::record::non_zero(l.drop_last());
        if l.last() != 0 && j == p.len() {
            assert(l[l.len() - 1] == t[j]);
        } else {
            assert(t[j] == p[j]);
            lemma_non_zero_from(l.drop_last(), j);
            let k = choose|k: int| 0 <= k < l.drop_last().len() && l.drop_last()[k] == p[j];
            assert(l[k] == p[j]);
        }
    }
}

} // verus!
