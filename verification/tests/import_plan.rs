use kith::error::CoreError;
use kith::date::GenealogicalDate;
use kith::enums::EventKind;
use kith::gedcom::plan::{plan_import, ImportOptions, ImportStep, PlanSubject};

const SAMPLE: &str = "0 HEAD\n1 CHAR UTF-8\n\
0 @I1@ INDI\n1 NAME John /Doe/\n1 SEX M\n1 BIRT\n2 DATE ABT 1850\n2 PLAC Bergen\n\
0 @I2@ INDI\n1 NAME Jane /Roe/\n1 SEX F\n\
0 @F1@ FAM\n1 HUSB @I1@\n1 WIFE @I2@\n1 MARR\n2 PLAC Bergen\n\
0 @N1@ NOTE shared\n\
0 TRLR\n";

#[test]
fn a_small_document_plans_its_rows() {
    let plan = plan_import(SAMPLE, &ImportOptions { merge: false }, true).expect("plan");
    assert_eq!(plan.summary.individuals, 2);
    assert_eq!(plan.summary.families, 1);
    assert_eq!(plan.summary.events, 2);
    assert_eq!(plan.summary.places, 1, "places are deduplicated by name");
    assert_eq!(plan.summary.skipped_tags, vec![("NOTE".to_owned(), 1)]);
    let individuals = plan.steps.iter().filter(|s| matches!(s, ImportStep::CreateIndividual(_))).count();
    assert_eq!(individuals, 2);
}

#[test]
fn import_into_a_populated_database_without_merge_is_refused() {
    let err = plan_import(SAMPLE, &ImportOptions { merge: false }, false).expect_err("not empty");
    assert_eq!(err, CoreError::Validation("database is not empty; pass merge to append".to_owned()));
    assert!(plan_import(SAMPLE, &ImportOptions { merge: true }, false).is_ok());
}

#[test]
fn import_malformed_gedcom_is_a_validation_not_a_panic() {
    let err = plan_import("this is not gedcom\n", &ImportOptions { merge: false }, true).expect_err("bad");
    assert!(matches!(err, CoreError::Validation(_)));
    let err = plan_import("0 HEAD\n2 CHAR UTF-8\n", &ImportOptions { merge: false }, true).expect_err("jump");
    assert!(matches!(err, CoreError::Validation(_)));
}

#[test]
fn a_dangling_pointer_is_rejected() {
    let doc = "0 HEAD\n0 @F1@ FAM\n1 HUSB @I9@\n0 TRLR\n";
    let err = plan_import(doc, &ImportOptions { merge: false }, true).expect_err("dangling");
    assert!(matches!(err, CoreError::Validation(_)));
}

#[test]
fn created_rows_follow_their_records_in_order() {
    let doc = "0 HEAD\n1 CHAR UTF-8\n\
0 @R1@ REPO\n1 NAME State Archive\n\
0 @S1@ SOUR\n1 TITL Parish book\n1 REPO @R1@\n\
0 @I2@ INDI\n1 NAME Jane /Roe/\n1 SEX F\n\
0 @I1@ INDI\n1 NAME John /Doe/\n1 SEX M\n1 OBJE\n2 FILE inline.jpg\n\
0 @O1@ OBJE\n1 FILE scan.png\n1 TITL Scan\n\
0 TRLR\n";
    let plan = plan_import(doc, &ImportOptions { merge: false }, true).expect("plan");
    let sources: Vec<_> = plan
        .steps
        .iter()
        .filter_map(|s| match s {
            ImportStep::CreateSource(d) => Some(d.clone()),
            _ => None,
        })
        .collect();
    assert_eq!(sources.len(), 1);
    assert_eq!(sources[0].title, "Parish book");
    assert_eq!(sources[0].repository.as_deref(), Some("State Archive"));
    let surnames: Vec<_> = plan
        .steps
        .iter()
        .filter_map(|s| match s {
            ImportStep::CreateIndividual(d) => d.surname.clone(),
            _ => None,
        })
        .collect();
    assert_eq!(surnames, vec!["Roe".to_owned(), "Doe".to_owned()]);
    let paths: Vec<_> = plan
        .steps
        .iter()
        .filter_map(|s| match s {
            ImportStep::CreateMedia(d) => Some(d.path.clone()),
            _ => None,
        })
        .collect();
    assert_eq!(paths, vec!["scan.png".to_owned(), "inline.jpg".to_owned()]);
}

#[test]
fn a_family_names_the_steps_that_create_its_partners() {
    let doc = "0 HEAD\n1 CHAR UTF-8\n\
0 @I1@ INDI\n1 NAME John /Doe/\n\
0 @I2@ INDI\n1 NAME Jane /Roe/\n\
0 @F1@ FAM\n1 WIFE @I2@\n1 HUSB @I1@\n1 MARR\n1 NOTE eloped\n\
0 @F2@ FAM\n1 HUSB @I2@\n\
0 TRLR\n";
    let plan = plan_import(doc, &ImportOptions { merge: false }, true).expect("plan");
    let surname_at = |i: usize| match &plan.steps[i] {
        ImportStep::CreateIndividual(d) => d.surname.clone(),
        _ => None,
    };
    let families: Vec<_> = plan
        .steps
        .iter()
        .filter_map(|s| match s {
            ImportStep::CreateFamily { partner1, partner2, union_type, notes } => {
                Some((*partner1, *partner2, *union_type, notes.clone()))
            }
            _ => None,
        })
        .collect();
    assert_eq!(families.len(), 2);
    let (p1, p2, union_type, notes) = families[0].clone();
    assert_eq!(surname_at(p1.expect("husband")), Some("Doe".to_owned()));
    assert_eq!(surname_at(p2.expect("wife")), Some("Roe".to_owned()));
    assert_eq!(union_type, kith::enums::UnionType::Marriage);
    assert_eq!(notes.as_deref(), Some("eloped"));
    let (q1, q2, union_type, notes) = families[1].clone();
    assert_eq!(surname_at(q1.expect("partner")), Some("Roe".to_owned()));
    assert_eq!(q2, None);
    assert_eq!(union_type, kith::enums::UnionType::Unknown);
    assert_eq!(notes, None);
}

#[test]
fn children_follow_their_family_in_order_with_their_pedigree() {
    let doc = "0 HEAD\n1 CHAR UTF-8\n\
0 @I1@ INDI\n1 NAME Ann /Doe/\n1 FAMC @F1@\n2 PEDI adopted\n\
0 @I2@ INDI\n1 NAME Ben /Doe/\n\
0 @F1@ FAM\n1 CHIL @I2@\n1 CHIL @I1@\n\
0 TRLR\n";
    let plan = plan_import(doc, &ImportOptions { merge: false }, true).expect("plan");
    let surname_of = |i: usize| match &plan.steps[i] {
        ImportStep::CreateIndividual(d) => d.given_name.clone(),
        _ => None,
    };
    let family_step = plan
        .steps
        .iter()
        .position(|s| matches!(s, ImportStep::CreateFamily { .. }))
        .expect("family");
    let children: Vec<_> = plan
        .steps
        .iter()
        .filter_map(|s| match s {
            ImportStep::AddChild { family, child, relation, sort_order } => {
                Some((*family, surname_of(*child), *relation, *sort_order))
            }
            _ => None,
        })
        .collect();
    assert_eq!(
        children,
        vec![
            (family_step, Some("Ben".to_owned()), kith::enums::ChildRelation::Birth, 0),
            (family_step, Some("Ann".to_owned()), kith::enums::ChildRelation::Adopted, 1),
        ]
    );
}

#[test]
fn alternate_names_belong_to_their_individual_in_order() {
    let doc = "0 HEAD\n1 CHAR UTF-8\n\
0 @I1@ INDI\n1 NAME Jane /Roe/\n2 TYPE married\n1 NAME Jane /Doe/\n1 NAME Janie /Doe/\n2 TYPE aka\n\
0 TRLR\n";
    let plan = plan_import(doc, &ImportOptions { merge: false }, true).expect("plan");
    let person = plan
        .steps
        .iter()
        .position(|s| matches!(s, ImportStep::CreateIndividual(_)))
        .expect("individual");
    match &plan.steps[person] {
        ImportStep::CreateIndividual(d) => assert_eq!(d.surname.as_deref(), Some("Doe")),
        _ => unreachable!(),
    }
    let names: Vec<_> = plan
        .steps
        .iter()
        .filter_map(|s| match s {
            ImportStep::AddName { individual, kind, given_name, surname, sort_order, .. } => {
                Some((*individual, *kind, given_name.clone(), surname.clone(), *sort_order))
            }
            _ => None,
        })
        .collect();
    assert_eq!(
        names,
        vec![
            (person, kith::enums::NameKind::Married, Some("Jane".to_owned()), Some("Roe".to_owned()), 0),
            (person, kith::enums::NameKind::Aka, Some("Janie".to_owned()), Some("Doe".to_owned()), 1),
        ]
    );
}

#[test]
fn events_follow_their_records_and_share_places_by_name() {
    let doc = "0 HEAD\n1 CHAR UTF-8\n\
0 @I1@ INDI\n1 NAME John /Doe/\n1 BIRT\n2 DATE ABT 1850\n2 PLAC Bergen\n1 EVEN\n2 TYPE Emigration\n\
0 @I2@ INDI\n1 NAME Jane /Roe/\n1 DEAT\n2 PLAC Bergen\n2 NOTE at sea\n\
0 @F1@ FAM\n1 HUSB @I1@\n1 MARR\n2 DATE 1875\n\
0 TRLR\n";
    let plan = plan_import(doc, &ImportOptions { merge: false }, true).expect("plan");
    let events: Vec<_> = plan
        .steps
        .iter()
        .filter_map(|s| match s {
            ImportStep::AddEvent { subject, kind, date, place, notes } => {
                Some((*subject, kind.clone(), *date, *place, notes.clone()))
            }
            _ => None,
        })
        .collect();
    assert_eq!(events.len(), 4);
    let place = events[0].3.expect("a place");
    assert!(matches!(&plan.steps[place], ImportStep::CreatePlace(n) if n == "Bergen"));
    assert_eq!(events[0].1, EventKind::Birth);
    assert_eq!(events[0].2, Some(GenealogicalDate::parse("ABT 1850").expect("date")));
    assert_eq!(events[1].1, EventKind::Other("Emigration".to_owned()));
    assert_eq!(events[1].3, None);
    assert_eq!(events[2].1, EventKind::Death);
    assert_eq!(events[2].3, Some(place), "the same name is the same place");
    assert_eq!(events[2].4.as_deref(), Some("at sea"));
    assert_eq!(events[3].1, EventKind::Marriage);
    assert!(matches!(events[3].0, PlanSubject::Family(_)));
    assert!(matches!(events[0].0, PlanSubject::Individual(_)));
}

#[test]
fn citations_cite_their_source_for_the_event_or_the_record() {
    let doc = "0 HEAD\n1 CHAR UTF-8\n\
0 @S1@ SOUR\n1 TITL Census\n\
0 @I1@ INDI\n1 NAME John /Doe/\n1 BIRT\n2 DATE 1850\n2 SOUR @S1@\n3 PAGE p. 4\n1 SOUR @S1@\n2 QUAY 3\n\
0 TRLR\n";
    let plan = plan_import(doc, &ImportOptions { merge: false }, true).expect("plan");
    let source = plan
        .steps
        .iter()
        .position(|s| matches!(s, ImportStep::CreateSource(_)))
        .expect("source");
    let event = plan
        .steps
        .iter()
        .position(|s| matches!(s, ImportStep::AddEvent { .. }))
        .expect("event");
    let person = plan
        .steps
        .iter()
        .position(|s| matches!(s, ImportStep::CreateIndividual(_)))
        .expect("individual");
    let cites: Vec<_> = plan
        .steps
        .iter()
        .filter_map(|s| match s {
            ImportStep::AddCitation { source, subject, page, confidence, .. } => {
                Some((*source, *subject, page.clone(), *confidence))
            }
            _ => None,
        })
        .collect();
    assert_eq!(
        cites,
        vec![
            (source, PlanSubject::Event(event), Some("p. 4".to_owned()), None),
            (source, PlanSubject::Individual(person), None, Some(kith::enums::Confidence::Primary)),
        ]
    );
}

#[test]
fn media_links_name_their_object_and_the_first_is_primary() {
    let doc = "0 HEAD\n1 CHAR UTF-8\n\
0 @I1@ INDI\n1 NAME John /Doe/\n1 OBJE @O1@\n1 OBJE\n2 FILE inline.jpg\n\
0 @O1@ OBJE\n1 FILE scan.png\n\
0 TRLR\n";
    let plan = plan_import(doc, &ImportOptions { merge: false }, true).expect("plan");
    let person = plan
        .steps
        .iter()
        .position(|s| matches!(s, ImportStep::CreateIndividual(_)))
        .expect("individual");
    let links: Vec<_> = plan
        .steps
        .iter()
        .filter_map(|s| match s {
            ImportStep::LinkMedia { media, subject, is_primary } => Some((*media, *subject, *is_primary)),
            _ => None,
        })
        .collect();
    assert_eq!(links.len(), 2);
    let path_at = |i: usize| match &plan.steps[i] {
        ImportStep::CreateMedia(d) => d.path.clone(),
        _ => String::new(),
    };
    assert_eq!(path_at(links[0].0), "scan.png");
    assert_eq!(links[0].1, PlanSubject::Individual(person));
    assert!(links[0].2);
    assert_eq!(path_at(links[1].0), "inline.jpg");
    assert!(!links[1].2);
}

#[test]
fn each_place_name_is_created_once_and_shared_by_its_events() {
    let src = "0 @I1@ INDI\n1 BIRT\n2 PLAC London\n1 DEAT\n2 PLAC Paris\n\
0 @I2@ INDI\n1 BIRT\n2 PLAC London\n1 BURI\n2 PLAC Paris\n";
    let plan = plan_import(src, &ImportOptions { merge: false }, true).expect("plan");
    assert_eq!(plan.summary.places, 2);
    let places: Vec<(usize, String)> = plan
        .steps
        .iter()
        .enumerate()
        .filter_map(|(h, s)| match s {
            ImportStep::CreatePlace(n) => Some((h, n.clone())),
            _ => None,
        })
        .collect();
    assert_eq!(places.iter().map(|p| p.1.as_str()).collect::<Vec<_>>(), vec!["London", "Paris"]);
    let event_places: Vec<Option<usize>> = plan
        .steps
        .iter()
        .filter_map(|s| match s {
            ImportStep::AddEvent { place, .. } => Some(*place),
            _ => None,
        })
        .collect();
    let (london, paris) = (Some(places[0].0), Some(places[1].0));
    assert_eq!(event_places, vec![london, paris, london, paris]);
}

#[test]
fn a_line_the_lexer_refuses_fails_the_import_with_its_line() {
    let err = plan_import("0 HEAD\nNOTALEVEL garbage\n", &ImportOptions { merge: false }, true).expect_err("lex");
    assert!(matches!(&err, CoreError::Validation(m) if m.starts_with("line 2:")), "got {err:?}");
}
