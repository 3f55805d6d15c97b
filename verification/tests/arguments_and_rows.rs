use kith::cli::{parse_confidence, parse_event_kind, parse_sex, parse_subject, parse_citation_subject};
use kith::date::{DateModifier, GenealogicalDate, PartialDate};
use kith::db::event::{derive_date_columns, row_to_event, vital_years};
use kith::db::media::{media_root_for, mime_for_extension};
use kith::enums::{CitationSubject, Confidence, EventKind, EventSubject, Sex};
use kith::gedcom::plan::{ImportOptions, ImportStep, PlanSubject};
use kith::ids::{EventId, FamilyId, PersonId, PlaceId};
use kith::lb::plan::{plan_lb, validate};
use kith::lb::record::LbPerson;

fn lb(id: i64, father: i64, mother: i64, spouse: i64, birth: &str) -> LbPerson {
    LbPerson {
        id,
        father_id: father,
        mother_id: mother,
        spouse_id: spouse,
        spouse_list: None,
        gender: "M".to_owned(),
        first_name: "N".to_owned(),
        last_name: "L".to_owned(),
        birth_place: String::new(),
        death_place: String::new(),
        birth_date: birth.to_owned(),
        death_date: String::new(),
        notes: String::new(),
    }
}

#[test]
fn closed_codes_parse_and_unknown_ones_are_refused_with_a_quoted_message() {
    assert_eq!(parse_sex("F"), Ok(Sex::Female));
    assert_eq!(parse_sex("female"), Err("unknown Sex code \"female\"".to_owned()));
    assert_eq!(parse_confidence("secondary"), Ok(Confidence::Secondary));
    assert_eq!(parse_event_kind("graduation"), Ok(EventKind::Other("graduation".to_owned())));
    assert_eq!(parse_event_kind("birth"), Ok(EventKind::Birth));
}

#[test]
fn subjects_parse_from_kind_and_id() {
    assert_eq!(parse_subject("person:7"), Ok(EventSubject::Individual(PersonId::new(7))));
    assert_eq!(parse_subject("family:-2"), Ok(EventSubject::Family(FamilyId::new(-2))));
    assert_eq!(
        parse_subject("person7"),
        Err("expected `person:<id>` or `family:<id>`, got \"person7\"".to_owned())
    );
    assert_eq!(parse_subject("person:x"), Err("subject id must be an integer, got \"x\"".to_owned()));
    assert!(parse_subject("event:1").is_err());
    assert_eq!(parse_citation_subject("event:3"), Ok(CitationSubject::Event(EventId::new(3))));
}

#[test]
fn date_columns_of_a_date_and_of_none() {
    let d = GenealogicalDate::Single {
        modifier: DateModifier::About,
        date: PartialDate { year: 1850, month: Some(3), day: None },
    };
    let cols = derive_date_columns(Some(d));
    assert_eq!(cols.0.as_deref(), Some("about Mar 1850"));
    assert_eq!(cols.1, Some("about"));
    assert_eq!(cols.2, d.sort_key());
    assert_eq!(cols.3, Some(1850));
    assert_eq!(cols.4, Some(3));
    assert_eq!(cols.5, None);
    let none = derive_date_columns(None);
    assert_eq!(none, (None, None, None, None, None, None));
}

#[test]
fn vital_years_take_the_first_birth_and_death_row() {
    let rows = vec![
        ("birth".to_owned(), 1850),
        ("birth".to_owned(), 1851),
        ("death".to_owned(), 1910),
    ];
    assert_eq!(vital_years(&rows), (Some(1850), Some(1910)));
    assert_eq!(vital_years(&vec![]), (None, None));
}

#[test]
fn the_media_folder_sits_beside_the_database() {
    assert_eq!(media_root_for("/data/family.kith"), "/data/family.media");
    assert_eq!(media_root_for("family"), "family.media");
    assert_eq!(media_root_for("/a.b/c.tar.gz"), "/a.b/c.tar.media");
    assert_eq!(media_root_for("a/kith.db/"), "a/kith.media");
    assert_eq!(media_root_for("/"), "/.media");
    assert_eq!(media_root_for(".."), "../.media");
    assert_eq!(media_root_for("a/."), "a.media");
    assert_eq!(media_root_for("a/kith.db/."), "a/kith.media");
    assert_eq!(media_root_for("a/.."), "a/../.media");
    assert_eq!(media_root_for(""), ".media");
    assert_eq!(media_root_for("/kith.db"), "/kith.media");
    assert_eq!(mime_for_extension("JPG"), Some("image/jpeg"));
    assert_eq!(mime_for_extension("webp"), Some("image/webp"));
    assert_eq!(mime_for_extension("tiff"), None);
}

#[test]
fn a_legacy_export_with_a_dangling_parent_is_refused() {
    let people = vec![lb(1, 0, 0, 0, ""), lb(2, 1, 9, 0, "")];
    assert!(validate(&people).is_err());
    assert!(validate(&vec![lb(1, 0, 0, 0, ""), lb(1, 0, 0, 0, "")]).is_err());
    assert!(validate(&vec![lb(1, 0, 0, 0, ""), lb(2, 1, 0, 0, "")]).is_ok());
}

#[test]
fn a_legacy_export_plans_one_individual_per_person() {
    let people = vec![lb(1, 0, 0, 2, "01.02.1900"), lb(2, 0, 0, 1, ""), lb(3, 1, 2, 0, "")];
    let plan = plan_lb(&people, &ImportOptions { merge: false }, true, 2026).expect("plan");
    assert_eq!(plan.summary.individuals, 3);
    let created = plan.steps.iter().filter(|s| matches!(s, ImportStep::CreateIndividual(_))).count();
    assert_eq!(created, 3);
    assert!(plan_lb(&people, &ImportOptions { merge: false }, false, 2026).is_err());
}

#[test]
fn a_stored_date_reads_back_from_its_row() {
    let d = GenealogicalDate::Range {
        from: PartialDate { year: 1850, month: None, day: None },
        to: PartialDate { year: 1860, month: Some(1), day: Some(2) },
    };
    let cols = derive_date_columns(Some(d));
    let e = row_to_event(EventId::new(1), Some(PersonId::new(2)), None, EventKind::Birth, cols.0, Some(PlaceId::new(3)), None)
        .expect("row");
    assert_eq!(e.date, Some(d));
    assert_eq!(e.subject, EventSubject::Individual(PersonId::new(2)));
    assert!(row_to_event(EventId::new(1), None, None, EventKind::Birth, None, None, None).is_err());
    assert!(row_to_event(EventId::new(1), Some(PersonId::new(2)), None, EventKind::Birth, Some("garbage".to_owned()), None, None)
        .is_err());
}

#[test]
fn a_legacy_record_becomes_its_individual() {
    let mut a = lb(1, 0, 0, 0, "");
    a.first_name = "  ".to_owned();
    a.last_name = "Berg".to_owned();
    a.gender = "x".to_owned();
    a.notes = "farmer".to_owned();
    a.death_place = "Oslo".to_owned();
    let b = lb(2, 0, 0, 0, "01.02.1990");
    let plan = plan_lb(&vec![a, b], &ImportOptions { merge: false }, true, 2026).expect("plan");
    let drafts: Vec<_> = plan
        .steps
        .iter()
        .filter_map(|s| match s {
            ImportStep::CreateIndividual(d) => Some(d.clone()),
            _ => None,
        })
        .collect();
    assert_eq!(drafts.len(), 2);
    assert_eq!(drafts[0].given_name, None);
    assert_eq!(drafts[0].surname.as_deref(), Some("Berg"));
    assert_eq!(drafts[0].sex, Sex::Unknown);
    assert_eq!(drafts[0].notes.as_deref(), Some("farmer"));
    assert!(!drafts[0].living, "a death place means not living");
    assert_eq!(drafts[1].given_name.as_deref(), Some("N"));
    assert_eq!(drafts[1].sex, Sex::Male);
    assert!(drafts[1].living, "born recently with no death facts");
}

#[test]
fn legacy_vital_events_and_children_follow_their_records() {
    let mut father = lb(1, 0, 0, 2, "");
    father.death_place = "Oslo".to_owned();
    let mut mother = lb(2, 0, 0, 1, "01.02.1950");
    mother.gender = "F".to_owned();
    mother.birth_place = "  ".to_owned();
    let c1 = lb(3, 1, 2, 0, "");
    let c2 = lb(4, 1, 2, 0, "");
    let people = vec![father, mother, c1, c2];
    let plan = plan_lb(&people, &ImportOptions { merge: false }, true, 2026).expect("plan");
    let individual_rows: Vec<usize> = plan
        .steps
        .iter()
        .enumerate()
        .filter_map(|(h, s)| match s {
            ImportStep::CreateIndividual(_) => Some(h),
            _ => None,
        })
        .collect();
    assert_eq!(individual_rows.len(), 4);
    let events: Vec<(PlanSubject, EventKind, Option<usize>)> = plan
        .steps
        .iter()
        .filter_map(|s| match s {
            ImportStep::AddEvent { subject, kind, place, .. } => Some((subject.clone(), kind.clone(), *place)),
            _ => None,
        })
        .collect();
    assert_eq!(events.len(), 2, "the father's death (a place) and the mother's birth (a date)");
    assert_eq!(events[0].0, PlanSubject::Individual(individual_rows[0]));
    assert_eq!(events[0].1, EventKind::Death);
    let place = events[0].2.expect("a death place");
    assert!(matches!(&plan.steps[place], ImportStep::CreatePlace(name) if name == "Oslo"));
    assert_eq!(events[1].0, PlanSubject::Individual(individual_rows[1]));
    assert_eq!(events[1].1, EventKind::Birth);
    assert_eq!(events[1].2, None, "a blank place is no place");
    let children: Vec<(usize, usize, i64)> = plan
        .steps
        .iter()
        .filter_map(|s| match s {
            ImportStep::AddChild { family, child, relation, sort_order } => {
                assert_eq!(*relation, kith::enums::ChildRelation::Birth);
                Some((*family, *child, *sort_order))
            },
            _ => None,
        })
        .collect();
    assert_eq!(children.len(), 2);
    assert_eq!(children[0].1, individual_rows[2]);
    assert_eq!(children[1].1, individual_rows[3]);
    assert_eq!(children[0].0, children[1].0, "one family per parent pair");
    assert_eq!((children[0].2, children[1].2), (0, 1), "numbered in input order");
    match &plan.steps[children[0].0] {
        ImportStep::CreateFamily { partner1, partner2, .. } => {
            assert_eq!(*partner1, Some(individual_rows[0]));
            assert_eq!(*partner2, Some(individual_rows[1]));
        },
        other => panic!("not a family: {:?}", other),
    }
}

#[test]
fn legacy_validation_names_the_first_bad_id_or_pointer() {
    let msg = |people: Vec<LbPerson>| match validate(&people) {
        Err(kith::error::CoreError::Validation(m)) => m,
        other => panic!("expected a validation error, got {:?}", other),
    };
    assert_eq!(msg(vec![lb(0, 0, 0, 0, "")]), "LB record has id 0, the reserved \"none\" pointer value");
    assert_eq!(msg(vec![lb(1, 0, 0, 0, ""), lb(1, 0, 0, 0, "")]), "duplicate LB record id 1");
    assert_eq!(
        msg(vec![lb(1, 0, 0, 0, ""), lb(2, 1, 7, 9, "")]),
        "LB record 2 references a mother id 7 that is not present"
    );
    let mut p = lb(1, 0, 0, 0, "");
    p.spouse_list = Some(vec![5]);
    assert_eq!(msg(vec![p]), "LB record 1 references a spouse id 5 that is not present");
}

#[test]
fn legacy_families_are_one_per_parent_pair_then_one_per_new_couple() {
    let people = vec![
        lb(1, 0, 0, 2, ""),
        lb(2, 0, 0, 1, ""),
        lb(3, 1, 2, 0, ""),
        lb(4, 0, 0, 5, ""),
        lb(5, 0, 0, 0, ""),
        lb(6, 1, 2, 0, ""),
    ];
    let plan = plan_lb(&people, &ImportOptions { merge: false }, true, 2026).expect("plan");
    let rows: Vec<usize> = plan
        .steps
        .iter()
        .enumerate()
        .filter_map(|(h, s)| match s {
            ImportStep::CreateIndividual(_) => Some(h),
            _ => None,
        })
        .collect();
    let families: Vec<(Option<usize>, Option<usize>)> = plan
        .steps
        .iter()
        .filter_map(|s| match s {
            ImportStep::CreateFamily { partner1, partner2, union_type, notes } => {
                assert_eq!(*union_type, kith::enums::UnionType::Unknown);
                assert_eq!(*notes, None);
                Some((*partner1, *partner2))
            },
            _ => None,
        })
        .collect();
    assert_eq!(
        families,
        vec![(Some(rows[0]), Some(rows[1])), (Some(rows[3]), Some(rows[4]))],
        "the couple 1-2 already has its parent family; 4-5 gets a couple family"
    );
    assert_eq!(plan.summary.families, 2);
}
