use kith::date::GenealogicalDate;
use kith::db::maintenance::check_restore_source;
use kith::error::CoreError;
use kith::enums::{ChildRelation, CitationSubject, Confidence, EventKind, EventSubject, NameKind, Sex, UnionType};
use kith::gedcom::plan::ImportSummary;
use kith::ids::{CitationId, EventId, FamilyId, MediaId, NameId, PersonId, SourceId};
use kith::db::search::SearchHit;
use kith::records::{
    ChildLink, Citation, CitationItem, Event, Family, Individual, Media, MediaItem, Name, Source,
};
use kith::tables::{citation_table, family_table, media_table, name_table, search_hit_table, source_table};
use kith::views::{event_view_text, family_view_text, import_report_text, person_view_text, source_view_text};

fn person(id: i64, given: &str, surname: &str) -> Individual {
    Individual {
        id: PersonId::new(id),
        given_name: Some(given.to_owned()),
        surname: Some(surname.to_owned()),
        name_prefix: None,
        name_suffix: None,
        nickname: None,
        sex: Sex::Female,
        living: false,
        notes: None,
    }
}

fn birth(id: i64, date: &str) -> Event {
    Event {
        id: EventId::new(id),
        subject: EventSubject::Individual(PersonId::new(1)),
        kind: EventKind::Birth,
        date: Some(GenealogicalDate::parse(date).expect("date")),
        place: None,
        notes: None,
    }
}

fn source() -> Source {
    Source {
        id: SourceId::new(4),
        title: "Parish book".to_owned(),
        author: Some("Clerk".to_owned()),
        publication: None,
        repository: Some("Archive".to_owned()),
        notes: None,
    }
}

#[test]
fn the_person_detail_block() {
    let mut p = person(1, "Ada", "King");
    p.notes = Some("mathematician".to_owned());
    let names = vec![Name {
        id: NameId::new(2),
        individual_id: PersonId::new(1),
        kind: NameKind::Birth,
        given_name: Some("Augusta".to_owned()),
        surname: Some("Byron".to_owned()),
        name_prefix: None,
        name_suffix: None,
        sort_order: 0,
    }];
    let events = vec![birth(5, "10 DEC 1815")];
    let text = person_view_text(&p, &names, &events, &[3, 8], &[]);
    assert_eq!(
        text,
        "Individual 1\n  Name:    Ada King\n  Sex:     F\n  Living:  no\n  Notes:   mathematician\n  Names:\n    [birth] Augusta Byron\n  Events:\n    birth      10 Dec 1815\n  Partner in: 3, 8\n  Child in:   (none)\n"
    );
}

#[test]
fn an_undated_event_shows_a_dash() {
    let mut e = birth(5, "1815");
    e.date = None;
    let text = person_view_text(&person(1, "Ada", "King"), &[], &[e], &[], &[7]);
    assert!(text.contains("  Events:\n    birth      \u{2014}\n"));
    assert!(text.ends_with("  Partner in: (none)\n  Child in:   7\n"));
}

#[test]
fn the_family_detail_block() {
    let f = Family {
        id: FamilyId::new(9),
        partner1: Some(PersonId::new(1)),
        partner2: None,
        union_type: UnionType::Marriage,
        notes: None,
    };
    let child = person(3, "Byron", "King");
    let link = ChildLink {
        family_id: FamilyId::new(9),
        child_id: PersonId::new(3),
        relation: ChildRelation::Birth,
        sort_order: 0,
    };
    let p1 = person(1, "Ada", "King");
    let text = family_view_text(&f, Some(&p1), None, &[(link, child)], &[]);
    assert_eq!(
        text,
        "Family 9\n  Type:     marriage\n  Partner1: 1: Ada King\n  Partner2: \u{2014}\n  Children:\n    0. Byron King [birth]\n"
    );
    let empty = family_view_text(&f, None, None, &[], &[]);
    assert!(empty.contains("  Children: (none)\n"));
}

#[test]
fn the_event_detail_block() {
    let mut e = birth(5, "ABT 1850");
    e.notes = Some("from the census".to_owned());
    let text = event_view_text(&e, &Some((2, "Bergen".to_owned())));
    assert_eq!(
        text,
        "Event 5\n  Subject: person:1\n  Kind:    birth\n  Date:    about 1850\n  Place:   2: Bergen\n  Notes:   from the census\n"
    );
    let unplaced = event_view_text(&birth(6, "1850"), &None);
    assert!(unplaced.contains("  Place:   \u{2014}\n"));
}

#[test]
fn the_source_detail_block() {
    let c = Citation {
        id: CitationId::new(11),
        source: SourceId::new(4),
        subject: CitationSubject::Individual(PersonId::new(1)),
        page: Some("p. 12".to_owned()),
        detail: None,
        confidence: None,
    };
    let text = source_view_text(&source(), &[c]);
    assert_eq!(
        text,
        "Source 4\n  Title:       Parish book\n  Author:      Clerk\n  Repository:  Archive\n  Cited by:\n    citation 11 \u{2192} person:1 (p. 12)\n"
    );
    assert!(source_view_text(&source(), &[]).ends_with("  Cited by:    (none)\n"));
}

#[test]
fn the_import_report() {
    let mut s = ImportSummary {
        individuals: 2,
        families: 1,
        events: 3,
        names: 0,
        places: 1,
        media: 0,
        sources: 0,
        citations: 0,
        skipped_tags: vec![],
    };
    assert_eq!(import_report_text(&s), "Imported 2 individuals, 1 families, 3 events, 0 names, 1 places\n");
    s.skipped_tags = vec![("NOTE".to_owned(), 2), ("_UID".to_owned(), 1)];
    assert_eq!(
        import_report_text(&s),
        "Imported 2 individuals, 1 families, 3 events, 0 names, 1 places\nSkipped unsupported records: NOTE\u{d7}2, _UID\u{d7}1\n"
    );
}

#[test]
fn the_list_tables() {
    let names = vec![Name {
        id: NameId::new(2),
        individual_id: PersonId::new(1),
        kind: NameKind::Married,
        given_name: None,
        surname: Some("King".to_owned()),
        name_prefix: None,
        name_suffix: None,
        sort_order: 1,
    }];
    assert_eq!(name_table(&names), "ID  KIND     NAME  ORDER\n2   married  King  1\n");
    let families = vec![Family {
        id: FamilyId::new(9),
        partner1: Some(PersonId::new(1)),
        partner2: None,
        union_type: UnionType::Unknown,
        notes: None,
    }];
    assert_eq!(family_table(&families), "ID  PARTNER1  PARTNER2  TYPE\n9   1         \u{2014}         unknown\n");
    let items = vec![MediaItem {
        media: Media { id: MediaId::new(3), path: "a.jpg".to_owned(), caption: None, mime: Some("image/jpeg".to_owned()) },
        is_primary: true,
    }];
    assert_eq!(media_table(&items), "ID  PRIMARY  MIME        PATH   CAPTION\n3   yes      image/jpeg  a.jpg\n");
    assert_eq!(source_table(&[source()]), "ID  TITLE        AUTHOR  REPOSITORY\n4   Parish book  Clerk   Archive\n");
    let cited = vec![CitationItem {
        citation: Citation {
            id: CitationId::new(11),
            source: SourceId::new(4),
            subject: CitationSubject::Individual(PersonId::new(1)),
            page: None,
            detail: None,
            confidence: Some(Confidence::Primary),
        },
        source: source(),
    }];
    assert_eq!(
        citation_table(&cited),
        "ID  SOURCE  TITLE        PAGE  CONFIDENCE\n11  4       Parish book        primary\n"
    );
    let hits = vec![SearchHit { individual: person(1, "Ada", "King"), context: None }];
    assert_eq!(search_hit_table(&hits), "ID  NAME      WHY-MATCHED\n1   Ada King\n");
}

#[test]
fn restore_sources_must_be_kith_databases() {
    assert_eq!(check_restore_source(true, Some(2), Some(true), "b.db"), Ok(()));
    assert_eq!(
        check_restore_source(false, None, None, "b.db"),
        Err(CoreError::Validation("restore source does not exist: b.db".to_owned()))
    );
    let invalid = Err(CoreError::Validation("restore source is not a valid Kith database: b.db".to_owned()));
    assert_eq!(check_restore_source(true, None, None, "b.db"), invalid);
    assert_eq!(check_restore_source(true, Some(0), Some(true), "b.db"), invalid);
    assert_eq!(check_restore_source(true, Some(1), Some(false), "b.db"), invalid);
}
