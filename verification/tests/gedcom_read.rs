use kith::enums::{ChildRelation, Confidence, EventKind, NameKind};
use kith::error::CoreError;
use kith::gedcom::lexer::{lex, Line};
use kith::gedcom::tags::{
    child_relation_for_pedi, confidence_for_quay, event_kind_for_tag, name_kind_for_type,
    pedi_for_child_relation, quay_for_confidence, tag_for_event_kind, type_for_name_kind,
};
use kith::gedcom::map::{check_encoding, validate};
use kith::gedcom::tree::{build, GedcomRecord};

fn lex_ok(src: &str) -> Vec<Line> {
    lex(src).expect("lex")
}

fn build_ok(src: &str) -> Vec<GedcomRecord> {
    build(&lex(src).expect("lex")).expect("build")
}

#[test]
fn lexes_level_xref_tag_and_value() {
    let lines = lex_ok("0 @I1@ INDI\n1 NAME John /Doe/\n1 BIRT\n");
    assert_eq!(lines.len(), 3);

    assert_eq!(lines[0].line_no, 1);
    assert_eq!(lines[0].level, 0);
    assert_eq!(lines[0].xref.as_deref(), Some("I1"));
    assert_eq!(lines[0].tag, "INDI");
    assert_eq!(lines[0].value, None);

    assert_eq!(lines[1].level, 1);
    assert_eq!(lines[1].xref, None);
    assert_eq!(lines[1].tag, "NAME");
    assert_eq!(lines[1].value.as_deref(), Some("John /Doe/"));

    assert_eq!(lines[2].tag, "BIRT");
    assert_eq!(lines[2].value, None);
}

#[test]
fn strips_bom_and_skips_blank_lines_while_counting_them() {
    let lines = lex_ok("\u{feff}0 HEAD\n\n1 CHAR UTF-8\n");
    assert_eq!(lines.len(), 2);
    assert_eq!(lines[0].tag, "HEAD");
    assert_eq!(lines[1].tag, "CHAR");
    assert_eq!(lines[1].line_no, 3, "line numbers count the blank line");
}

#[test]
fn strips_carriage_returns_from_crlf_files() {
    let lines = lex_ok("0 HEAD\r\n1 CHAR UTF-8\r\n");
    assert_eq!(lines[1].value.as_deref(), Some("UTF-8"));
}

#[test]
fn a_non_numeric_level_is_a_line_cited_validation() {
    let err = lex("X HEAD\n").expect_err("bad level");
    assert!(matches!(err, CoreError::Validation(_)));
    assert!(err.message().contains("line 1"), "got {err:?}");
}

#[test]
fn a_line_with_only_a_level_is_missing_its_tag() {
    let err = lex("0\n").expect_err("missing tag");
    assert!(err.message().contains("missing tag"), "got {err:?}");
}

#[test]
fn an_unterminated_xref_is_rejected() {
    let err = lex("0 @I1 INDI\n").expect_err("unterminated xref");
    assert!(err.message().contains("xref"), "got {err:?}");
}

#[test]
fn event_tag_table_round_trips_every_known_kind() {
    let kinds = [
        EventKind::Birth,
        EventKind::Death,
        EventKind::Marriage,
        EventKind::Divorce,
        EventKind::Baptism,
        EventKind::Burial,
        EventKind::Residence,
        EventKind::Occupation,
        EventKind::Other("graduation".to_owned()),
    ];
    for kind in kinds {
        let (tag, type_value) = tag_for_event_kind(&kind);
        assert_eq!(event_kind_for_tag(tag, type_value), kind, "round-trip {kind:?}");
    }
    assert_eq!(tag_for_event_kind(&EventKind::Birth).0, "BIRT");
    assert_ne!(EventKind::Birth.as_str(), "BIRT");
}

#[test]
fn pedi_table_round_trips_supported_relations() {
    for rel in [ChildRelation::Birth, ChildRelation::Adopted, ChildRelation::Foster] {
        assert_eq!(child_relation_for_pedi(pedi_for_child_relation(rel)), rel);
    }
    assert_eq!(pedi_for_child_relation(ChildRelation::Step), None);
    assert_eq!(
        child_relation_for_pedi(pedi_for_child_relation(ChildRelation::Step)),
        ChildRelation::Birth
    );
}

#[test]
fn quay_table_round_trips_every_confidence_and_folds_zero() {
    for c in [Confidence::Primary, Confidence::Secondary, Confidence::Questionable] {
        assert_eq!(confidence_for_quay(Some(quay_for_confidence(c))), Some(c));
    }
    assert_eq!(confidence_for_quay(Some("0")), Some(Confidence::Questionable));
    assert_eq!(confidence_for_quay(None), None);
    assert_eq!(confidence_for_quay(Some("9")), None);
}

#[test]
fn name_type_table_round_trips_every_kind() {
    for kind in [NameKind::Birth, NameKind::Married, NameKind::Religious, NameKind::Aka] {
        assert_eq!(name_kind_for_type(Some(type_for_name_kind(kind))), kind);
    }
    assert_eq!(name_kind_for_type(None), NameKind::Aka);
}

#[test]
fn folds_a_record_with_nested_children() {
    let roots = build_ok("0 @I1@ INDI\n1 NAME John /Doe/\n2 GIVN John\n1 SEX M\n");
    assert_eq!(roots.len(), 1);
    let indi = &roots[0];
    assert_eq!(indi.tag, "INDI");
    assert_eq!(indi.xref.as_deref(), Some("I1"));
    let name = indi.child("NAME").expect("NAME child");
    assert_eq!(name.value_str(), Some("John /Doe/"));
    assert_eq!(name.child("GIVN").and_then(|g| g.value_str()), Some("John"));
    assert_eq!(indi.child("SEX").and_then(|s| s.value_str()), Some("M"));
}

#[test]
fn conc_concatenates_and_cont_adds_a_newline() {
    let roots = build_ok("0 @I1@ INDI\n1 NOTE Line one\n2 CONC  continued\n2 CONT Line two\n");
    let note = roots[0].child("NOTE").expect("NOTE");
    assert_eq!(note.value_str(), Some("Line one continued\nLine two"));
    assert!(note.children.is_empty(), "CONC/CONT never become children");
}

#[test]
fn repeated_tags_are_all_kept() {
    let roots = build_ok("0 @I1@ INDI\n1 NAME A /One/\n1 NAME B /Two/\n");
    let names = roots[0].children_with("NAME");
    assert_eq!(names.len(), 2);
    assert_eq!(names[0].value_str(), Some("A /One/"));
    assert_eq!(names[1].value_str(), Some("B /Two/"));
}

#[test]
fn a_level_jump_is_a_line_cited_validation() {
    let err = build(&lex("0 HEAD\n2 CHAR UTF-8\n").expect("lex")).expect_err("jump");
    assert!(matches!(err, CoreError::Validation(_)));
    assert!(err.message().contains("line 2"), "got {err:?}");
}

#[test]
fn a_top_level_continuation_has_no_preceding_record() {
    let err = build(&lex("0 CONT orphan\n").expect("lex")).expect_err("orphan cont");
    assert!(err.message().contains("no preceding record"), "got {err:?}");
}

#[test]
fn a_level_beyond_a_byte_is_rejected() {
    assert!(lex("256 HEAD\n").is_err());
    assert!(lex("255 HEAD\n").is_ok());
}

#[test]
fn an_other_kind_with_a_known_tag_reads_as_that_kind() {
    assert_eq!(event_kind_for_tag("BIRT", None), EventKind::Birth);
    assert_eq!(event_kind_for_tag("EVEN", Some("graduation")), EventKind::Other("graduation".to_owned()));
}

#[test]
fn validation_cites_the_first_dangling_pointer_by_line_tag_kind_and_xref() {
    let wife = build_ok("0 @I1@ INDI\n0 @F1@ FAM\n1 HUSB @I1@\n1 WIFE @I9@\n");
    assert_eq!(
        validate(&wife),
        Err(CoreError::Validation("line 4: WIFE points to individual @I9@ which is not defined".to_owned()))
    );
    let nested = build_ok("0 @I1@ INDI\n1 BIRT\n2 SOUR @S9@\n");
    let err = validate(&nested).expect_err("dangling source");
    assert!(err.message().starts_with("line 3: SOUR points to source @S9@"), "got {err:?}");
    let inline = build_ok("0 @I1@ INDI\n1 OBJE\n2 FILE a.jpg\n1 SOUR\n2 TEXT inline\n");
    assert_eq!(validate(&inline), Ok(()));
    let ansel = build_ok("0 HEAD\n1 CHAR ANSEL\n");
    let err = check_encoding(&ansel).expect_err("ansel");
    assert!(err.message().starts_with("line 2: "), "got {err:?}");
    assert_eq!(check_encoding(&build_ok("0 HEAD\n")), Ok(()));
}

#[test]
fn a_first_line_below_level_zero_is_refused_by_its_line() {
    let err = build(&lex("1 NAME x\n").expect("lex")).expect_err("not level 0");
    assert_eq!(err, CoreError::Validation("line 1: expected a level-0 record".to_owned()));
}
