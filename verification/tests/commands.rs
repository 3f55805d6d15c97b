use kith::cli::{EventEditArgs, FamilyNewArgs, PersonAddArgs, PersonEditArgs, SourceEditArgs};
use kith::commands::{
    apply_event_edit, apply_person_edit, apply_source_edit, child_order, family_draft,
    fill_partner_slot, filter_by_surname, guard_overwrite, person_draft, place_choice, vital_events,
    PlaceChoice,
};
use kith::date::{DateModifier, GenealogicalDate, PartialDate};
use kith::enums::{EventKind, EventSubject, Sex, UnionType};
use kith::error::CoreError;
use kith::ids::{EventId, FamilyId, PersonId, PlaceId, SourceId};
use kith::records::{Event, Family, Individual, Source};

fn year(y: i32) -> GenealogicalDate {
    GenealogicalDate::Single { modifier: DateModifier::Exact, date: PartialDate { year: y, month: None, day: None } }
}

fn individual(id: i64, surname: Option<&str>) -> Individual {
    Individual {
        id: PersonId::new(id),
        given_name: Some("Ada".to_owned()),
        surname: surname.map(|s| s.to_owned()),
        name_prefix: None,
        name_suffix: None,
        nickname: None,
        sex: Sex::Female,
        living: false,
        notes: None,
    }
}

fn family(p1: Option<i64>, p2: Option<i64>) -> Family {
    Family {
        id: FamilyId::new(5),
        partner1: p1.map(PersonId::new),
        partner2: p2.map(PersonId::new),
        union_type: UnionType::Marriage,
        notes: None,
    }
}

#[test]
fn family_new_rejects_more_than_two_partners() {
    let args = FamilyNewArgs { partner: vec![1, 2, 3], union_type: UnionType::Unknown, notes: None };
    let err = family_draft(&args).expect_err("three partners");
    assert_eq!(err, CoreError::Validation("a family has at most two partners, but 3 were given".to_owned()));
}

#[test]
fn family_new_fills_partners_in_order() {
    let args = FamilyNewArgs { partner: vec![4, 9], union_type: UnionType::Partnership, notes: Some("n".to_owned()) };
    let draft = family_draft(&args).expect("two partners");
    assert_eq!(draft.partner1, Some(PersonId::new(4)));
    assert_eq!(draft.partner2, Some(PersonId::new(9)));
    assert_eq!(draft.union_type, UnionType::Partnership);
    assert_eq!(draft.notes.as_deref(), Some("n"));
    let one = family_draft(&FamilyNewArgs { partner: vec![4], union_type: UnionType::Unknown, notes: None })
        .expect("one partner");
    assert_eq!(one.partner1, Some(PersonId::new(4)));
    assert_eq!(one.partner2, None);
}

#[test]
fn family_add_partner_to_a_full_family_exits_validation() {
    let mut f = family(Some(1), Some(2));
    let err = fill_partner_slot(&mut f, PersonId::new(3)).expect_err("full");
    assert_eq!(err, CoreError::Validation("family 5 already has two partners".to_owned()));
    assert_eq!(err.exit_code(), 4);
    assert_eq!(f, family(Some(1), Some(2)));
}

#[test]
fn add_partner_fills_the_first_empty_slot() {
    let mut f = family(None, None);
    fill_partner_slot(&mut f, PersonId::new(3)).expect("slot one");
    assert_eq!(f, family(Some(3), None));
    fill_partner_slot(&mut f, PersonId::new(8)).expect("slot two");
    assert_eq!(f, family(Some(3), Some(8)));
    let mut g = family(None, Some(2));
    fill_partner_slot(&mut g, PersonId::new(7)).expect("slot one again");
    assert_eq!(g, family(Some(7), Some(2)));
}

#[test]
fn child_order_defaults_to_appending() {
    assert_eq!(child_order(Some(-2), 10), -2);
    assert_eq!(child_order(None, 3), 3);
    assert_eq!(child_order(None, 0), 0);
}

#[test]
fn person_add_records_birth_then_death_events() {
    let args = PersonAddArgs {
        given: Some("Ada".to_owned()),
        surname: None,
        prefix: None,
        suffix: None,
        nickname: None,
        sex: Sex::Female,
        living: true,
        notes: None,
        birth: Some(year(1815)),
        death: Some(year(1852)),
    };
    let draft = person_draft(&args);
    assert_eq!(draft.given_name.as_deref(), Some("Ada"));
    assert!(draft.living);
    let events = vital_events(PersonId::new(2), args.birth, args.death);
    assert_eq!(events.len(), 2);
    assert_eq!(events[0].kind, EventKind::Birth);
    assert_eq!(events[0].date, Some(year(1815)));
    assert_eq!(events[0].subject, EventSubject::Individual(PersonId::new(2)));
    assert_eq!(events[1].kind, EventKind::Death);
    assert!(vital_events(PersonId::new(2), None, None).is_empty());
    let only_death = vital_events(PersonId::new(2), None, Some(year(1900)));
    assert_eq!(only_death.len(), 1);
    assert_eq!(only_death[0].kind, EventKind::Death);
}

#[test]
fn person_edit_changes_only_named_fields() {
    let mut ind = individual(1, Some("Lovelace"));
    let args = PersonEditArgs {
        id: 1,
        given: None,
        surname: Some("King".to_owned()),
        prefix: None,
        suffix: None,
        nickname: None,
        sex: None,
        living: Some(true),
        notes: None,
    };
    apply_person_edit(&mut ind, &args);
    let mut expected = individual(1, Some("King"));
    expected.living = true;
    assert_eq!(ind, expected);
}

#[test]
fn event_edit_changes_only_the_date() {
    let mut ev = Event {
        id: EventId::new(3),
        subject: EventSubject::Individual(PersonId::new(1)),
        kind: EventKind::Birth,
        date: Some(year(1850)),
        place: Some(PlaceId::new(4)),
        notes: Some("n".to_owned()),
    };
    let args = EventEditArgs { id: 3, kind: None, date: Some(year(1851)), place: None, place_id: None, notes: None };
    apply_event_edit(&mut ev, &args, None);
    assert_eq!(ev.date, Some(year(1851)));
    assert_eq!(ev.kind, EventKind::Birth);
    assert_eq!(ev.place, Some(PlaceId::new(4)));
    assert_eq!(ev.notes.as_deref(), Some("n"));
}

#[test]
fn a_place_id_wins_over_a_place_name() {
    assert_eq!(place_choice(&Some("Oslo".to_owned()), Some(9)), PlaceChoice::Existing(PlaceId::new(9)));
    assert_eq!(place_choice(&Some("Oslo".to_owned()), None), PlaceChoice::New("Oslo".to_owned()));
    assert_eq!(place_choice(&None, None), PlaceChoice::Unset);
}

#[test]
fn source_edit_overlays_given_fields() {
    let existing = Source {
        id: SourceId::new(1),
        title: "Register".to_owned(),
        author: Some("A".to_owned()),
        publication: None,
        repository: Some("Archive".to_owned()),
        notes: None,
    };
    let args = SourceEditArgs {
        id: 1,
        title: None,
        author: None,
        publication: Some("1901".to_owned()),
        repository: None,
        notes: Some("x".to_owned()),
    };
    let s = apply_source_edit(&existing, &args);
    assert_eq!(s.title, "Register");
    assert_eq!(s.author.as_deref(), Some("A"));
    assert_eq!(s.publication.as_deref(), Some("1901"));
    assert_eq!(s.repository.as_deref(), Some("Archive"));
    assert_eq!(s.notes.as_deref(), Some("x"));
}

#[test]
fn surname_filter_is_case_insensitive_and_keeps_order() {
    let people = vec![
        individual(1, Some("Smithson")),
        individual(2, None),
        individual(3, Some("Jones")),
        individual(4, Some("SMITH")),
    ];
    let kept = filter_by_surname(people, "smith");
    let ids: Vec<i64> = kept.iter().map(|p| p.id.get()).collect();
    assert_eq!(ids, vec![1, 4]);
    let unicode = filter_by_surname(vec![individual(5, Some("ÅSEN"))], "åsen");
    assert_eq!(unicode.len(), 1);
}

#[test]
fn overwrite_guard_needs_force() {
    assert!(guard_overwrite(false, false, "export destination", "/tmp/x.html").is_ok());
    assert!(guard_overwrite(true, true, "export destination", "/tmp/x.html").is_ok());
    let err = guard_overwrite(true, false, "backup destination", "/tmp/b.db").expect_err("exists");
    assert_eq!(
        err,
        CoreError::Validation("backup destination already exists: /tmp/b.db (use --force to overwrite)".to_owned())
    );
}
