//! The decisions the command handlers make around their database calls: the
//! drafts they build from arguments, the edits they overlay on a loaded
//! record, the family guards, the default child order, the surname filter,
//! the place an event gets, and the overwrite guard.

use vstd::prelude::*;
use crate::cli::{EventEditArgs, FamilyNewArgs, PersonAddArgs, PersonEditArgs, SourceEditArgs};
use crate::date::GenealogicalDate;
use crate::enums::{EventKind, EventSubject};
use crate::error::CoreError;
use crate::gedcom::lexer::opt_view;
use crate::ids::{PersonId, PlaceId};
use crate::num::{int_text, nat_digits, push_int, push_nat};
use crate::records::{Event, Family, Individual, NewEvent, NewFamily, NewIndividual, NewSource, Source};
use crate::text::{chars_of, push_str, string_from_chars};

verus! {

/// An exact copy of an optional text.
fn dup(o: &Option<String>) -> (r: Option<String>)
    ensures
        r == *o,
{
    match o {
        Some(s) => Some(s.clone()),
        None => None,
    }
}

// ---------------------------------------------------------------------------
// Families
// ---------------------------------------------------------------------------

/// The message of a `family new` with too many partners.
pub open spec fn too_many_partners_message(n: nat) -> Seq<char> {
    "a family has at most two partners, but "@ + nat_digits(n) + " were given"@
}

/// The draft of a new family: up to two partners, in the order given.
///
/// # Errors
/// [`CoreError::Validation`] when more than two partners are given.
pub fn family_draft(args: &FamilyNewArgs) -> (r: Result<NewFamily, CoreError>)
    ensures
        args.partner.len() > 2 <==> r is Err,
        match r {
            Ok(f) => {
                &&& f.partner1 == (if args.partner.len() > 0 {
                    Some(PersonId(args.partner@[0]))
                } else {
                    None
                })
                &&& f.partner2 == (if args.partner.len() > 1 {
                    Some(PersonId(args.partner@[1]))
                } else {
                    None
                })
                &&& f.union_type == args.union_type
                &&& f.notes == args.notes
            },
            Err(e) => e matches CoreError::Validation(m) && m@ == too_many_partners_message(
                args.partner.len() as nat,
            ),
        },
{
    let n = args.partner.len();
    if n > 2 {
        let mut m: Vec<char> = Vec::new();
        push_str(&mut m, "a family has at most two partners, but ");
        push_nat(&mut m, n as u64);
        push_str(&mut m, " were given");
        assert(m@ =~= too_many_partners_message(n as nat));
        return Err(CoreError::Validation(string_from_chars(m)));
    }
    let partner1 = if n > 0 {
        Some(PersonId(args.partner[0]))
    } else {
        None
    };
    let partner2 = if n > 1 {
        Some(PersonId(args.partner[1]))
    } else {
        None
    };
    Ok(NewFamily { partner1, partner2, union_type: args.union_type, notes: dup(&args.notes) })
}

/// The message of an `add-partner` on a family whose slots are both taken.
pub open spec fn full_family_message(family: i64) -> Seq<char> {
    "family "@ + int_text(family as int) + " already has two partners"@
}

/// Puts `person` into the first empty partner slot of `family`.
///
/// # Errors
/// [`CoreError::Validation`] when both slots are taken; the family is then
/// unchanged.
pub fn fill_partner_slot(family: &mut Family, person: PersonId) -> (r: Result<(), CoreError>)
    ensures
        old(family).partner1 is None ==> r is Ok && *final(family) == (Family {
            partner1: Some(person),
            ..*old(family)
        }),
        old(family).partner1 is Some && old(family).partner2 is None ==> r is Ok && *final(family)
            == (Family { partner2: Some(person), ..*old(family) }),
        old(family).partner1 is Some && old(family).partner2 is Some ==> (r matches Err(
            CoreError::Validation(m),
        ) && m@ == full_family_message(old(family).id.0)) && *final(family) == *old(family),
{
    if family.partner1.is_none() {
        family.partner1 = Some(person);
        Ok(())
    } else if family.partner2.is_none() {
        family.partner2 = Some(person);
        Ok(())
    } else {
        let mut m: Vec<char> = Vec::new();
        push_str(&mut m, "family ");
        push_int(&mut m, family.id.0);
        push_str(&mut m, " already has two partners");
        assert(m@ =~= full_family_message(family.id.0));
        Err(CoreError::Validation(string_from_chars(m)))
    }
}

/// The sort order a new child gets: the one asked for, else after the
/// family's `count` existing children (saturating at `i64::MAX`).
pub fn child_order(requested: Option<i64>, count: usize) -> (r: i64)
    ensures
        r == match requested {
            Some(n) => n as int,
            None => if count <= i64::MAX {
                count as int
            } else {
                i64::MAX as int
            },
        },
{
    match requested {
        Some(n) => n,
        None => {
            if count as u64 <= i64::MAX as u64 {
                count as i64
            } else {
                i64::MAX
            }
        },
    }
}

// ---------------------------------------------------------------------------
// Individuals
// ---------------------------------------------------------------------------

/// The draft of a new individual from `person add`'s arguments.
pub fn person_draft(args: &PersonAddArgs) -> (r: NewIndividual)
    ensures
        r == (NewIndividual {
            given_name: args.given,
            surname: args.surname,
            name_prefix: args.prefix,
            name_suffix: args.suffix,
            nickname: args.nickname,
            sex: args.sex,
            living: args.living,
            notes: args.notes,
        }),
{
    NewIndividual {
        given_name: dup(&args.given),
        surname: dup(&args.surname),
        name_prefix: dup(&args.prefix),
        name_suffix: dup(&args.suffix),
        nickname: dup(&args.nickname),
        sex: args.sex,
        living: args.living,
        notes: dup(&args.notes),
    }
}

/// A dated vital event of an individual, with no place or notes.
pub open spec fn vital_event(person: PersonId, kind: EventKind, date: GenealogicalDate) -> NewEvent {
    NewEvent {
        subject: EventSubject::Individual(person),
        kind,
        date: Some(date),
        place: None,
        notes: None,
    }
}

/// The birth and death events `person add` records: one per date given,
/// birth first.
pub open spec fn spec_vital_events(
    person: PersonId,
    birth: Option<GenealogicalDate>,
    death: Option<GenealogicalDate>,
) -> Seq<NewEvent> {
    (match birth {
        Some(b) => seq![vital_event(person, EventKind::Birth, b)],
        None => seq![],
    }) + (match death {
        Some(d) => seq![vital_event(person, EventKind::Death, d)],
        None => seq![],
    })
}

/// The birth and death events to record for a new individual (see
/// [`spec_vital_events`]).
pub fn vital_events(
    person: PersonId,
    birth: Option<GenealogicalDate>,
    death: Option<GenealogicalDate>,
) -> (r: Vec<NewEvent>)
    ensures
        r@ == spec_vital_events(person, birth, death),
{
    let mut r: Vec<NewEvent> = Vec::new();
    match birth {
        Some(b) => r.push(
            NewEvent {
                subject: EventSubject::Individual(person),
                kind: EventKind::Birth,
                date: Some(b),
                place: None,
                notes: None,
            },
        ),
        None => {},
    }
    match death {
        Some(d) => r.push(
            NewEvent {
                subject: EventSubject::Individual(person),
                kind: EventKind::Death,
                date: Some(d),
                place: None,
                notes: None,
            },
        ),
        None => {},
    }
    assert(r@ =~= spec_vital_events(person, birth, death));
    r
}

/// `new` when given, else `old`.
pub open spec fn overlay<T>(old_value: T, new_value: Option<T>) -> T {
    match new_value {
        Some(v) => v,
        None => old_value,
    }
}

/// `Some(new)` when given, else `old`.
pub open spec fn overlay_opt<T>(old_value: Option<T>, new_value: Option<T>) -> Option<T> {
    match new_value {
        Some(v) => Some(v),
        None => old_value,
    }
}

/// Overlays the fields `person edit` was given on a loaded individual; the
/// others keep their values.
pub fn apply_person_edit(ind: &mut Individual, args: &PersonEditArgs)
    ensures
        *final(ind) == (Individual {
            id: old(ind).id,
            given_name: overlay_opt(old(ind).given_name, args.given),
            surname: overlay_opt(old(ind).surname, args.surname),
            name_prefix: overlay_opt(old(ind).name_prefix, args.prefix),
            name_suffix: overlay_opt(old(ind).name_suffix, args.suffix),
            nickname: overlay_opt(old(ind).nickname, args.nickname),
            sex: overlay(old(ind).sex, args.sex),
            living: overlay(old(ind).living, args.living),
            notes: overlay_opt(old(ind).notes, args.notes),
        }),
{
    if args.given.is_some() {
        ind.given_name = dup(&args.given);
    }
    if args.surname.is_some() {
        ind.surname = dup(&args.surname);
    }
    if args.prefix.is_some() {
        ind.name_prefix = dup(&args.prefix);
    }
    if args.suffix.is_some() {
        ind.name_suffix = dup(&args.suffix);
    }
    if args.nickname.is_some() {
        ind.nickname = dup(&args.nickname);
    }
    match args.sex {
        Some(v) => ind.sex = v,
        None => {},
    }
    match args.living {
        Some(v) => ind.living = v,
        None => {},
    }
    if args.notes.is_some() {
        ind.notes = dup(&args.notes);
    }
}

// ---------------------------------------------------------------------------
// Surname filter
// ---------------------------------------------------------------------------

/// What `str::to_lowercase` gives for a text (full Unicode lower-casing).
pub uninterp spec fn unicode_lower(s: Seq<char>) -> Seq<char>;

/// `str::to_lowercase`: the Unicode lower-case form of `s`. Its result
/// depends on `s` alone; what it is, character by character, is left to
/// the standard library and not stated here.
#[verifier::external_body]
fn to_lowercase(s: &str) -> (r: String)
    ensures
        r@ == unicode_lower(s@),
{
    s.to_lowercase()
}

/// Whether `needle` occurs in `hay` as a contiguous run.
pub open spec fn occurs_in(hay: Seq<char>, needle: Seq<char>) -> bool {
    exists|i: int| 0 <= i <= hay.len() - needle.len() && #[trigger] hay.subrange(i, i + needle.len()) == needle
}

/// Whether `needle` occurs in `hay` starting at `i`.
fn occurs_at(hay: &[char], needle: &[char], i: usize) -> (r: bool)
    requires
        i + needle.len() <= hay.len(),
    ensures
        r == (hay@.subrange(i as int, i + needle.len()) == needle@),
{
    let mut k: usize = 0;
    while k < needle.len()
        invariant
            k <= needle.len(),
            i + needle.len() <= hay.len(),
            forall|x: int| 0 <= x < k ==> hay@[i + x] == needle@[x],
        decreases needle.len() - k,
    {
        if hay[i + k] != needle[k] {
            assert(hay@.subrange(i as int, i + needle.len())[k as int] != needle@[k as int]);
            return false;
        }
        k = k + 1;
    }
    assert(hay@.subrange(i as int, i + needle.len()) =~= needle@);
    true
}

/// Whether `needle` occurs in `hay` (see [`occurs_in`]).
fn contains_run(hay: &[char], needle: &[char]) -> (r: bool)
    ensures
        r == occurs_in(hay@, needle@),
{
    if needle.len() > hay.len() {
        return false;
    }
    if needle.len() == 0 {
        assert(hay@.subrange(0, 0 + needle@.len() as int) =~= needle@);
        return true;
    }
    let last = hay.len() - needle.len();
    let mut i: usize = 0;
    while i <= last
        invariant
            last == hay.len() - needle.len(),
            needle.len() > 0,
            i <= last + 1,
            forall|x: int| 0 <= x < i ==> #[trigger] hay@.subrange(x, x + needle.len()) != needle@,
        decreases last + 1 - i,
    {
        if occurs_at(hay, needle, i) {
            return true;
        }
        i = i + 1;
    }
    false
}

/// Whether an individual's surname, lower-cased, contains the lower-cased
/// needle (no surname never matches).
pub open spec fn surname_matches(p: Individual, needle_lower: Seq<char>) -> bool {
    match p.surname {
        Some(s) => occurs_in(unicode_lower(s@), needle_lower),
        None => false,
    }
}

/// The individuals whose surname matches, in their order.
pub open spec fn keep_surname(people: Seq<Individual>, needle_lower: Seq<char>) -> Seq<Individual>
    decreases people.len(),
{
    if people.len() == 0 {
        seq![]
    } else {
        (if surname_matches(people[0], needle_lower) {
            seq![people[0]]
        } else {
            seq![]
        }) + keep_surname(people.drop_first(), needle_lower)
    }
}

/// `person list --surname`: the individuals whose surname contains `needle`,
/// compared case-insensitively (both sides lower-cased), in their order.
pub fn filter_by_surname(people: Vec<Individual>, needle: &str) -> (r: Vec<Individual>)
    ensures
        r@ == keep_surname(people@, unicode_lower(needle@)),
{
    let lower = to_lowercase(needle);
    let want = chars_of(lower.as_str());
    let ghost all = people@;
    let mut rest = people;
    let mut out: Vec<Individual> = Vec::new();
    while rest.len() > 0
        invariant
            want@ == unicode_lower(needle@),
            out@ + keep_surname(rest@, want@) == keep_surname(all, want@),
        decreases rest.len(),
    {
        let ghost r0 = rest@;
        let p = rest.remove(0);
        proof {
            assert(rest@ =~= r0.drop_first());
        }
        let keep = match &p.surname {
            Some(s) => {
                let ls = to_lowercase(s.as_str());
                let hay = chars_of(ls.as_str());
                contains_run(&hay, &want)
            },
            None => false,
        };
        let ghost before = out@;
        if keep {
            out.push(p);
            assert(out@ + keep_surname(rest@, want@) =~= before + keep_surname(r0, want@));
        } else {
            assert(out@ + keep_surname(rest@, want@) =~= before + keep_surname(r0, want@));
        }
    }
    assert(out@ + keep_surname(rest@, want@) =~= out@);
    out
}

/// `person list --surname` keeps an individual whenever the lower-cased
/// needle occurs in its lower-cased surname at any offset (not only at the
/// start: `smith` keeps `Goldsmith`).
pub proof fn law_surname_filter_keeps_any_offset(people: Seq<Individual>, needle: Seq<char>, k: int, i: int)
    requires
        0 <= k < people.len(),
        people[k].surname is Some,
        0 <= i,
        i + unicode_lower(needle).len() <= unicode_lower(people[k].surname->0@).len(),
        unicode_lower(people[k].surname->0@).subrange(i, i + unicode_lower(needle).len()) == unicode_lower(
            needle,
        ),
    ensures
        keep_surname(people, unicode_lower(needle)).contains(people[k]),
    decreases people.len(),
{
    let n = unicode_lower(needle);
    let rest = keep_surname(people.drop_first(), n);
    if k == 0 {
        let h = unicode_lower(people[0].surname->0@);
        assert(h.subrange(i, i + n.len()) == n);
        assert(surname_matches(people[0], n));
        assert(keep_surname(people, n) == seq![people[0]] + rest);
        assert((seq![people[0]] + rest)[0] == people[0]);
    } else {
        assert(people.drop_first()[k - 1] == people[k]);
        law_surname_filter_keeps_any_offset(people.drop_first(), needle, k - 1, i);
        let w = choose|w: int| 0 <= w < rest.len() && rest[w] == people[k];
        let head = if surname_matches(people[0], n) {
            seq![people[0]]
        } else {
            seq![]
        };
        assert(keep_surname(people, n) == head + rest);
        assert((head + rest)[head.len() + w] == people[k]);
    }
}

/// `person list --surname` keeps only individuals of the list whose
/// lower-cased surname holds the lower-cased needle at some offset.
pub proof fn law_surname_filter_keeps_only_matches(people: Seq<Individual>, needle: Seq<char>, x: Individual)
    requires
        keep_surname(people, unicode_lower(needle)).contains(x),
    ensures
        people.contains(x),
        x.surname is Some,
        exists|i: int|
            0 <= i && i + unicode_lower(needle).len() <= unicode_lower(x.surname->0@).len()
                && #[trigger] unicode_lower(x.surname->0@).subrange(i, i + unicode_lower(needle).len())
                == unicode_lower(needle),
    decreases people.len(),
{
    let n = unicode_lower(needle);
    let rest = keep_surname(people.drop_first(), n);
    let head = if surname_matches(people[0], n) {
        seq![people[0]]
    } else {
        seq![]
    };
    assert(people.len() > 0);
    assert(keep_surname(people, n) == head + rest);
    let w = choose|w: int| 0 <= w < (head + rest).len() && (head + rest)[w] == x;
    if w < head.len() {
        assert(x == people[0]);
        assert(surname_matches(people[0], n));
        let h = unicode_lower(people[0].surname->0@);
        let i = choose|i: int| 0 <= i <= h.len() - n.len() && #[trigger] h.subrange(i, i + n.len()) == n;
        assert(h.subrange(i, i + n.len()) == n);
    } else {
        assert(rest[w - head.len()] == x);
        law_surname_filter_keeps_only_matches(people.drop_first(), needle, x);
        let v = choose|v: int| 0 <= v < people.drop_first().len() && people.drop_first()[v] == x;
        assert(people[v + 1] == x);
    }
}

/// Filtering a list made of two parts keeps the kept individuals of the
/// first part, then those of the second: the order of the list is kept.
pub proof fn law_surname_filter_keeps_order(people: Seq<Individual>, more: Seq<Individual>, needle: Seq<char>)
    ensures
        keep_surname(people + more, unicode_lower(needle)) == keep_surname(people, unicode_lower(needle))
            + keep_surname(more, unicode_lower(needle)),
    decreases people.len(),
{
    let n = unicode_lower(needle);
    if people.len() == 0 {
        assert(people + more =~= more);
        assert(keep_surname(people, n) + keep_surname(more, n) =~= keep_surname(more, n));
    } else {
        assert((people + more).drop_first() =~= people.drop_first() + more);
        assert((people + more)[0] == people[0]);
        law_surname_filter_keeps_order(people.drop_first(), more, needle);
        let head = if surname_matches(people[0], n) {
            seq![people[0]]
        } else {
            seq![]
        };
        assert(head + (keep_surname(people.drop_first(), n) + keep_surname(more, n)) =~= (head
            + keep_surname(people.drop_first(), n)) + keep_surname(more, n));
    }
}

/// A one-person list keeps its person exactly when the lower-cased needle
/// occurs in the person's lower-cased surname at some offset.
pub proof fn law_surname_filter_single(p: Individual, needle: Seq<char>)
    ensures
        keep_surname(seq![p], unicode_lower(needle)) == if p.surname is Some && exists|i: int|
            0 <= i && i + unicode_lower(needle).len() <= unicode_lower(p.surname->0@).len()
                && #[trigger] unicode_lower(p.surname->0@).subrange(i, i + unicode_lower(needle).len())
                == unicode_lower(needle) {
            seq![p]
        } else {
            seq![]
        },
{
    let n = unicode_lower(needle);
    assert(seq![p].drop_first() =~= Seq::<Individual>::empty());
    assert(seq![p][0] == p);
    assert(keep_surname(seq![p].drop_first(), n) =~= Seq::<Individual>::empty());
    if surname_matches(p, n) {
        assert(keep_surname(seq![p], n) =~= seq![p]);
    } else {
        assert(keep_surname(seq![p], n) =~= Seq::<Individual>::empty());
        if p.surname is Some {
            let h = unicode_lower(p.surname->0@);
            assert forall|i: int| 0 <= i && i + n.len() <= h.len() implies #[trigger] h.subrange(i, i + n.len())
                != n by {
                if h.subrange(i, i + n.len()) == n {
                    assert(occurs_in(h, n));
                }
            }
        }
    }
}

// ---------------------------------------------------------------------------
// Events
// ---------------------------------------------------------------------------

/// The place an `event add`/`edit` gives an event.
#[derive(Debug, Clone, PartialEq, Eq)]
pub enum PlaceChoice {
    /// An existing place, by id.
    Existing(PlaceId),
    /// A new place with this name (created each time; no reuse).
    New(String),
    /// No place.
    Unset,
}

/// An existing `--place-id` wins; otherwise `--place` creates a new place;
/// neither gives no place.
pub fn place_choice(place: &Option<String>, place_id: Option<i64>) -> (r: PlaceChoice)
    ensures
        r == match place_id {
            Some(id) => PlaceChoice::Existing(PlaceId(id)),
            None => match *place {
                Some(name) => PlaceChoice::New(name),
                None => PlaceChoice::Unset,
            },
        },
{
    match place_id {
        Some(id) => PlaceChoice::Existing(PlaceId(id)),
        None => match place {
            Some(name) => PlaceChoice::New(name.clone()),
            None => PlaceChoice::Unset,
        },
    }
}

/// Overlays the fields `event edit` was given on a loaded event; `place` is
/// the resolved place, if one was given. The subject never changes.
pub fn apply_event_edit(event: &mut Event, args: &EventEditArgs, place: Option<PlaceId>)
    ensures
        *final(event) == (Event {
            id: old(event).id,
            subject: old(event).subject,
            kind: overlay(old(event).kind, args.kind),
            date: overlay_opt(old(event).date, args.date),
            place: overlay_opt(old(event).place, place),
            notes: overlay_opt(old(event).notes, args.notes),
        }),
{
    match &args.kind {
        Some(k) => event.kind = k.copy(),
        None => {},
    }
    match args.date {
        Some(d) => event.date = Some(d),
        None => {},
    }
    match place {
        Some(p) => event.place = Some(p),
        None => {},
    }
    if args.notes.is_some() {
        event.notes = dup(&args.notes);
    }
}

// ---------------------------------------------------------------------------
// Sources
// ---------------------------------------------------------------------------

/// The updated fields of a source after `source edit`: each given field
/// replaces the loaded one.
pub fn apply_source_edit(existing: &Source, args: &SourceEditArgs) -> (r: NewSource)
    ensures
        r == (NewSource {
            title: overlay(existing.title, args.title),
            author: overlay_opt(existing.author, args.author),
            publication: overlay_opt(existing.publication, args.publication),
            repository: overlay_opt(existing.repository, args.repository),
            notes: overlay_opt(existing.notes, args.notes),
        }),
{
    let title = match &args.title {
        Some(t) => t.clone(),
        None => existing.title.clone(),
    };
    NewSource {
        title,
        author: if args.author.is_some() {
            dup(&args.author)
        } else {
            dup(&existing.author)
        },
        publication: if args.publication.is_some() {
            dup(&args.publication)
        } else {
            dup(&existing.publication)
        },
        repository: if args.repository.is_some() {
            dup(&args.repository)
        } else {
            dup(&existing.repository)
        },
        notes: if args.notes.is_some() {
            dup(&args.notes)
        } else {
            dup(&existing.notes)
        },
    }
}

// ---------------------------------------------------------------------------
// Overwrite guard
// ---------------------------------------------------------------------------

/// The message of a refused overwrite.
pub open spec fn overwrite_message(what: Seq<char>, path: Seq<char>) -> Seq<char> {
    what + " already exists: "@ + path + " (use --force to overwrite)"@
}

/// The overwrite policy of `export`, `db backup` and `db restore`: a
/// destination that exists is only replaced with `--force`.
///
/// # Errors
/// [`CoreError::Validation`] when `exists` and not `force`.
pub fn guard_overwrite(exists: bool, force: bool, what: &str, path: &str) -> (r: Result<(), CoreError>)
    ensures
        (exists && !force) <==> r is Err,
        r is Err ==> (r matches Err(CoreError::Validation(m)) && m@ == overwrite_message(what@, path@)),
{
    if exists && !force {
        let mut m: Vec<char> = Vec::new();
        push_str(&mut m, what);
        push_str(&mut m, " already exists: ");
        push_str(&mut m, path);
        push_str(&mut m, " (use --force to overwrite)");
        assert(m@ =~= overwrite_message(what@, path@));
        return Err(CoreError::Validation(string_from_chars(m)));
    }
    Ok(())
}

} // verus!
