use kith::date::{DateModifier, GenealogicalDate, PartialDate};
use kith::enums::{ChildRelation, CitationSubject, Confidence, EventKind, EventSubject, NameKind, Sex, UnionType};
use kith::gedcom::lexer::lex;
use kith::gedcom::tree::build;
use kith::gedcom::writer::{export, EventEntry, FamilyEntry, GedcomSnapshot, IndividualEntry};
use kith::ids::{CitationId, EventId, FamilyId, MediaId, NameId, PersonId, SourceId};
use kith::records::{ChildLink, Citation, Event, Family, Individual, Media, Name, Source};

fn person(id: i64, given: Option<&str>, surname: Option<&str>) -> IndividualEntry {
    IndividualEntry {
        individual: Individual {
            id: PersonId::new(id),
            given_name: given.map(|s| s.to_owned()),
            surname: surname.map(|s| s.to_owned()),
            name_prefix: None,
            name_suffix: None,
            nickname: None,
            sex: Sex::Unknown,
            living: false,
            notes: None,
        },
        names: vec![],
        events: vec![],
        child_of: vec![],
        partner_in: vec![],
        media: vec![],
        citations: vec![],
    }
}

fn empty() -> GedcomSnapshot {
    GedcomSnapshot { individuals: vec![], families: vec![], media: vec![], sources: vec![] }
}

const HEADER: &str = "0 HEAD\n1 SOUR Kith\n2 VERS 1.2.3\n2 NAME Kith\n1 GEDC\n2 VERS 5.5.1\n2 FORM LINEAGE-LINKED\n1 CHAR UTF-8\n";

#[test]
fn an_empty_database_is_a_header_and_a_trailer() {
    assert_eq!(export(&empty(), "1.2.3"), format!("{HEADER}0 TRLR\n"));
}

#[test]
fn individuals_are_written_by_ascending_id() {
    let mut s = empty();
    s.individuals = vec![person(3, Some("C"), None), person(1, None, Some("A")), person(2, Some("B"), Some("Bee"))];
    let doc = export(&s, "1.2.3");
    let expected = format!(
        "{HEADER}0 @I1@ INDI\n1 NAME /A/\n2 SURN A\n1 SEX U\n\
         0 @I2@ INDI\n1 NAME B /Bee/\n2 GIVN B\n2 SURN Bee\n1 SEX U\n\
         0 @I3@ INDI\n1 NAME C\n2 GIVN C\n1 SEX U\n0 TRLR\n"
    );
    assert_eq!(doc, expected);
}

#[test]
fn an_unnamed_individual_has_no_name_line() {
    let mut s = empty();
    s.individuals = vec![person(7, None, None)];
    assert_eq!(export(&s, "1.2.3"), format!("{HEADER}0 @I7@ INDI\n1 SEX U\n0 TRLR\n"));
}

#[test]
fn a_full_individual_record() {
    let mut p = person(1, Some("Ada"), Some("Lovelace"));
    p.individual.sex = Sex::Female;
    p.individual.nickname = Some("Ada".to_owned());
    p.individual.notes = Some("first line\nsecond line".to_owned());
    p.names = vec![Name {
        id: NameId::new(1),
        individual_id: PersonId::new(1),
        kind: NameKind::Birth,
        given_name: Some("Augusta Ada".to_owned()),
        surname: Some("Byron".to_owned()),
        name_prefix: None,
        name_suffix: None,
        sort_order: 0,
    }];
    p.events = vec![EventEntry {
        event: Event {
            id: EventId::new(1),
            subject: EventSubject::Individual(PersonId::new(1)),
            kind: EventKind::Birth,
            date: Some(GenealogicalDate::Single {
                modifier: DateModifier::Exact,
                date: PartialDate { year: 1815, month: Some(12), day: Some(10) },
            }),
            notes: None,
            place: None,
        },
        place_name: Some("London".to_owned()),
        citations: vec![Citation {
            id: CitationId::new(1),
            source: SourceId::new(4),
            subject: CitationSubject::Event(EventId::new(1)),
            page: Some("p. 3".to_owned()),
            detail: None,
            confidence: Some(Confidence::Primary),
        }],
    }];
    p.child_of = vec![FamilyId::new(2)];
    p.partner_in = vec![FamilyId::new(9)];
    p.media = vec![MediaId::new(6)];
    let fam = FamilyEntry {
        family: Family {
            id: FamilyId::new(2),
            partner1: None,
            partner2: None,
            union_type: UnionType::Unknown,
            notes: None,
        },
        children: vec![ChildLink {
            family_id: FamilyId::new(2),
            child_id: PersonId::new(1),
            relation: ChildRelation::Adopted,
            sort_order: 0,
        }],
        events: vec![],
        media: vec![],
        citations: vec![],
    };
    let mut s = empty();
    s.individuals = vec![p];
    s.families = vec![fam];
    let doc = export(&s, "1.2.3");
    let expected = format!(
        "{HEADER}0 @I1@ INDI\n1 NAME Ada /Lovelace/\n2 GIVN Ada\n2 SURN Lovelace\n2 NICK Ada\n\
         1 NAME Augusta Ada /Byron/\n2 TYPE birth\n2 GIVN Augusta Ada\n2 SURN Byron\n1 SEX F\n\
         1 BIRT\n2 DATE 10 DEC 1815\n2 PLAC London\n2 SOUR @S4@\n3 PAGE p. 3\n3 QUAY 3\n\
         1 FAMC @F2@\n2 PEDI adopted\n1 FAMS @F9@\n1 OBJE @M6@\n1 NOTE first line\n2 CONT second line\n\
         0 @F2@ FAM\n1 CHIL @I1@\n0 TRLR\n"
    );
    assert_eq!(doc, expected);
}

#[test]
fn repositories_are_numbered_by_first_use_and_empty_ones_skipped() {
    let src = |id: i64, title: &str, repo: Option<&str>| Source {
        id: SourceId::new(id),
        title: title.to_owned(),
        author: None,
        publication: None,
        repository: repo.map(|r| r.to_owned()),
        notes: None,
    };
    let mut s = empty();
    s.sources = vec![
        src(1, "A", Some("State Archive")),
        src(2, "", Some("")),
        src(3, "C", Some("Church")),
        src(4, "D", Some("State Archive")),
    ];
    let doc = export(&s, "1.2.3");
    let expected = format!(
        "{HEADER}0 @S1@ SOUR\n1 TITL A\n1 REPO @R1@\n0 @S2@ SOUR\n0 @S3@ SOUR\n1 TITL C\n1 REPO @R2@\n\
         0 @S4@ SOUR\n1 TITL D\n1 REPO @R1@\n0 @R1@ REPO\n1 NAME State Archive\n0 @R2@ REPO\n1 NAME Church\n0 TRLR\n"
    );
    assert_eq!(doc, expected);
}

#[test]
fn a_family_and_a_media_object() {
    let mut s = empty();
    s.families = vec![FamilyEntry {
        family: Family {
            id: FamilyId::new(1),
            partner1: Some(PersonId::new(1)),
            partner2: Some(PersonId::new(2)),
            union_type: UnionType::Marriage,
            notes: None,
        },
        children: vec![],
        events: vec![EventEntry {
            event: Event {
                id: EventId::new(5),
                subject: EventSubject::Family(FamilyId::new(1)),
                kind: EventKind::Other("engagement".to_owned()),
                date: None,
                place: None,
                notes: None,
            },
            place_name: None,
            citations: vec![],
        }],
        media: vec![MediaId::new(3)],
        citations: vec![],
    }];
    s.media = vec![Media {
        id: MediaId::new(3),
        path: "img/a.jpg".to_owned(),
        caption: Some("Wedding".to_owned()),
        mime: Some("image/jpeg".to_owned()),
    }];
    let doc = export(&s, "1.2.3");
    let expected = format!(
        "{HEADER}0 @F1@ FAM\n1 HUSB @I1@\n1 WIFE @I2@\n1 EVEN\n2 TYPE engagement\n1 OBJE @M3@\n\
         0 @M3@ OBJE\n1 FILE img/a.jpg\n2 FORM image/jpeg\n1 TITL Wedding\n0 TRLR\n"
    );
    assert_eq!(doc, expected);
}

#[test]
fn the_written_document_reads_back() {
    let mut s = empty();
    s.individuals = vec![person(2, Some("B"), Some("Bee")), person(1, Some("A"), None)];
    let doc = export(&s, "1.2.3");
    let roots = build(&lex(&doc).expect("lex")).expect("build");
    assert_eq!(roots.len(), 4);
    assert_eq!(roots[1].xref.as_deref(), Some("I1"));
    assert_eq!(roots[2].child("NAME").and_then(|n| n.value_str()), Some("B /Bee/"));
}

#[test]
fn a_note_written_with_continuation_lines_reads_back_unchanged() {
    for text in ["one line", "first\nsecond", "\nstarts empty", "ends empty\n", "a\n\n  spaced  \nz", "\n"] {
        let mut p = person(1, None, None);
        p.individual.notes = Some(text.to_owned());
        let mut s = empty();
        s.individuals = vec![p];
        let doc = export(&s, "1.2.3");
        let records = build(&lex(&doc).expect("lexes")).expect("builds");
        let indi = records.iter().find(|r| r.tag == "INDI").expect("individual");
        let note = indi.child("NOTE").expect("note");
        assert_eq!(note.value.as_deref(), Some(text));
        assert!(note.children.is_empty());
    }
}
