use kith::db::source::row_to_citation;
use kith::enums::{
    ChildRelation, CitationSubject, Confidence, EventKind, EventSubject, MediaSubject, NameKind, Sex,
    UnionType,
};
use kith::error::CoreError;
use kith::ids::{CitationId, EventId, FamilyId, PersonId, SourceId};

fn sqlite_text_round_trip(code: &str) -> String {
    let conn = rusqlite::Connection::open_in_memory().expect("open in-memory");
    conn.execute_batch("CREATE TABLE t (x TEXT);").expect("create table");
    conn.execute("INSERT INTO t (x) VALUES (?1);", [code]).expect("insert");
    conn.query_row("SELECT x FROM t;", [], |row| row.get::<_, String>(0)).expect("read back")
}

#[test]
fn closed_enums_round_trip_through_text_and_sqlite() {
    for v in [Sex::Male, Sex::Female, Sex::Other, Sex::Unknown] {
        let parsed: Sex = v.as_str().parse().expect("parse own code");
        assert_eq!(parsed, v);
        let back: Sex = sqlite_text_round_trip(v.as_str()).parse().expect("read back");
        assert_eq!(back, v);
    }
    for v in [ChildRelation::Birth, ChildRelation::Adopted, ChildRelation::Step, ChildRelation::Foster] {
        let parsed: ChildRelation = v.as_str().parse().expect("parse own code");
        assert_eq!(parsed, v);
        let back: ChildRelation = sqlite_text_round_trip(v.as_str()).parse().expect("read back");
        assert_eq!(back, v);
    }
    for v in [UnionType::Marriage, UnionType::Partnership, UnionType::Unknown] {
        let parsed: UnionType = v.as_str().parse().expect("parse own code");
        assert_eq!(parsed, v);
        let back: UnionType = sqlite_text_round_trip(v.as_str()).parse().expect("read back");
        assert_eq!(back, v);
    }
    for v in [NameKind::Birth, NameKind::Married, NameKind::Aka, NameKind::Religious] {
        let parsed: NameKind = v.as_str().parse().expect("parse own code");
        assert_eq!(parsed, v);
        let back: NameKind = sqlite_text_round_trip(v.as_str()).parse().expect("read back");
        assert_eq!(back, v);
    }
    for v in [Confidence::Primary, Confidence::Secondary, Confidence::Questionable] {
        let parsed: Confidence = v.as_str().parse().expect("parse own code");
        assert_eq!(parsed, v);
        let back: Confidence = sqlite_text_round_trip(v.as_str()).parse().expect("read back");
        assert_eq!(back, v);
    }
}

#[test]
fn citation_subject_exposes_the_matching_column_only() {
    let individual = CitationSubject::Individual(PersonId::new(7));
    assert_eq!(individual.individual_id(), Some(PersonId::new(7)));
    assert_eq!(individual.family_id(), None);
    assert_eq!(individual.event_id(), None);

    let family = CitationSubject::Family(FamilyId::new(3));
    assert_eq!(family.family_id(), Some(FamilyId::new(3)));
    assert_eq!(family.individual_id(), None);
    assert_eq!(family.event_id(), None);

    let event = CitationSubject::Event(EventId::new(9));
    assert_eq!(event.event_id(), Some(EventId::new(9)));
    assert_eq!(event.individual_id(), None);
    assert_eq!(event.family_id(), None);
}

#[test]
fn unknown_code_maps_to_validation_error() {
    let err = "Q".parse::<Sex>().expect_err("Q is not a Sex code");
    assert!(matches!(err, CoreError::Validation(_)), "got {err:?}");
    let err = "spouse".parse::<ChildRelation>().expect_err("not a relation");
    assert!(matches!(err, CoreError::Validation(_)), "got {err:?}");
}

#[test]
fn unknown_code_message_quotes_the_code() {
    let err = "Q".parse::<Sex>().expect_err("Q is not a Sex code");
    assert_eq!(err.message(), "unknown Sex code \"Q\"");
    let err = Confidence::parse("maybe").expect_err("not a confidence");
    assert_eq!(err.message(), "unknown Confidence code \"maybe\"");
}

#[test]
fn event_kind_known_codes_map_both_ways() {
    for (code, kind) in [
        ("birth", EventKind::Birth),
        ("death", EventKind::Death),
        ("marriage", EventKind::Marriage),
        ("divorce", EventKind::Divorce),
        ("baptism", EventKind::Baptism),
        ("burial", EventKind::Burial),
        ("residence", EventKind::Residence),
        ("occupation", EventKind::Occupation),
    ] {
        assert_eq!(EventKind::from(code), kind);
        assert_eq!(kind.as_str(), code);
    }
}

#[test]
fn event_kind_other_round_trips_verbatim() {
    let kind = EventKind::Other("residence-ish".to_owned());
    assert_eq!(EventKind::from("residence-ish"), kind);
    assert_eq!(kind.as_str(), "residence-ish");
    let back = EventKind::from(sqlite_text_round_trip(kind.as_str()).as_str());
    assert_eq!(back, kind);
}

#[test]
fn event_subject_exposes_the_matching_column_only() {
    let individual = EventSubject::Individual(PersonId::new(7));
    assert_eq!(individual.individual_id(), Some(PersonId::new(7)));
    assert_eq!(individual.family_id(), None);

    let family = EventSubject::Family(FamilyId::new(3));
    assert_eq!(family.family_id(), Some(FamilyId::new(3)));
    assert_eq!(family.individual_id(), None);
}

#[test]
fn media_subject_exposes_the_matching_column_only() {
    let individual = MediaSubject::Individual(PersonId::new(7));
    assert_eq!(individual.individual_id(), Some(PersonId::new(7)));
    assert_eq!(individual.family_id(), None);
    assert_eq!(individual.event_id(), None);

    let family = MediaSubject::Family(FamilyId::new(3));
    assert_eq!(family.family_id(), Some(FamilyId::new(3)));
    assert_eq!(family.individual_id(), None);
    assert_eq!(family.event_id(), None);

    let event = MediaSubject::Event(EventId::new(9));
    assert_eq!(event.event_id(), Some(EventId::new(9)));
    assert_eq!(event.individual_id(), None);
    assert_eq!(event.family_id(), None);
}

#[test]
fn entity_label_is_exposed_for_error_messages() {
    assert_eq!(PersonId::ENTITY, "individual");
    assert_eq!(FamilyId::ENTITY, "family");
}

#[test]
fn a_two_subject_citation_row_is_a_validation_not_a_panic() {
    let err = row_to_citation(
        CitationId::new(1),
        SourceId::new(1),
        None,
        Some(PersonId::new(1)),
        Some(FamilyId::new(1)),
        None,
        None,
        None,
    )
    .expect_err("a two-subject row must be rejected");
    assert!(matches!(err, CoreError::Validation(_)), "got {err:?}");
}

#[test]
fn a_citation_row_with_no_subject_is_rejected_and_one_subject_reads_back() {
    assert!(row_to_citation(CitationId::new(1), SourceId::new(2), None, None, None, None, None, None)
        .is_err());
    let c = row_to_citation(
        CitationId::new(4),
        SourceId::new(2),
        Some(EventId::new(8)),
        None,
        None,
        Some("p. 3".to_owned()),
        None,
        Some(Confidence::Primary),
    )
    .expect("one subject");
    assert_eq!(c.subject, CitationSubject::Event(EventId::new(8)));
    assert_eq!(c.page.as_deref(), Some("p. 3"));
}

#[test]
fn error_kinds_and_exit_codes() {
    let nf = CoreError::NotFound { entity: "individual", id: 3 };
    assert_eq!(nf.kind(), "not_found");
    assert_eq!(nf.exit_code(), 3);
    let v = CoreError::Validation("bad".to_owned());
    assert_eq!(v.exit_code(), 4);
    assert_eq!(CoreError::Io("gone".to_owned()).exit_code(), 5);
    assert_eq!(CoreError::Database("x".to_owned()).exit_code(), 6);
}
