use kith::enums::{CitationSubject, EventSubject, NameKind, Sex};
use kith::error::CoreError;
use kith::ids::{EventId, FamilyId, NameId, PersonId};
use kith::output::{
    citation_subject_label, code_for, display_name, error_kind, individual_table, name_label,
    partner_label, person_line, person_summary, subject_label, table, PersonNode,
};
use kith::records::{Individual, Name};
use kith::walk::NodeRef;

fn individual(id: i64, given: Option<&str>, surname: Option<&str>, sex: Sex, living: bool) -> Individual {
    Individual {
        id: PersonId::new(id),
        given_name: given.map(|s| s.to_owned()),
        surname: surname.map(|s| s.to_owned()),
        name_prefix: None,
        name_suffix: None,
        nickname: None,
        sex,
        living,
        notes: None,
    }
}

#[test]
fn display_names_fall_back_to_unnamed() {
    assert_eq!(display_name(&individual(1, Some("Ada"), Some("Lovelace"), Sex::Female, false)), "Ada Lovelace");
    assert_eq!(display_name(&individual(1, Some("Ada"), None, Sex::Female, false)), "Ada");
    assert_eq!(display_name(&individual(1, None, Some("Lovelace"), Sex::Female, false)), "Lovelace");
    assert_eq!(display_name(&individual(1, None, None, Sex::Female, false)), "(unnamed)");
    let n = Name {
        id: NameId::new(1),
        individual_id: PersonId::new(1),
        kind: NameKind::Married,
        given_name: None,
        surname: Some("King".to_owned()),
        name_prefix: None,
        name_suffix: None,
        sort_order: 0,
    };
    assert_eq!(name_label(&n), "King");
}

#[test]
fn labels_of_partners_subjects_and_summaries() {
    let p = individual(7, Some("Ada"), Some("King"), Sex::Female, false);
    assert_eq!(partner_label(Some(&p)), "7: Ada King");
    assert_eq!(partner_label(None), "\u{2014}");
    assert_eq!(person_summary(&p), "individual 7: Ada King");
    assert_eq!(subject_label(EventSubject::Family(FamilyId::new(3))), "family:3");
    assert_eq!(subject_label(EventSubject::Individual(PersonId::new(2))), "person:2");
    assert_eq!(citation_subject_label(CitationSubject::Event(EventId::new(9))), "event:9");
}

#[test]
fn tree_lines_carry_a_lifespan_when_a_year_is_known() {
    let node = PersonNode { node: NodeRef(1), focal: false, display_name: "Ada King".to_owned(), birth_year: Some(1815), death_year: Some(1852) };
    assert_eq!(person_line(&node), "Ada King (1815\u{2013}1852)");
    let bare = PersonNode { node: NodeRef(1), focal: false, display_name: "Ada King".to_owned(), birth_year: None, death_year: None };
    assert_eq!(person_line(&bare), "Ada King");
    let born = PersonNode { node: NodeRef(1), focal: false, display_name: "X".to_owned(), birth_year: Some(1990), death_year: None };
    assert_eq!(person_line(&born), "X (1990\u{2013})");
}

#[test]
fn tables_pad_to_the_widest_cell_and_trim_trailing_space() {
    let rows = vec![
        vec!["1".to_owned(), "Ada Lovelace".to_owned(), "F".to_owned()],
        vec!["12".to_owned(), "Bo".to_owned(), "".to_owned()],
    ];
    let t = table(&["ID", "NAME", "SEX"], &rows);
    assert_eq!(t, "ID  NAME          SEX\n1   Ada Lovelace  F\n12  Bo\n");
}

#[test]
fn table_widths_are_measured_in_bytes() {
    let rows = vec![vec!["Åse".to_owned(), "x".to_owned()]];
    let t = table(&["A", "B"], &rows);
    assert_eq!(t, "A     B\nÅse   x\n");
}

#[test]
fn a_short_row_only_fills_its_own_columns() {
    let rows = vec![vec!["longer-cell".to_owned()]];
    let t = table(&["A", "B"], &rows);
    assert_eq!(t, "A            B\nlonger-cell\n");
}

#[test]
fn the_individual_list_table() {
    let people = vec![
        individual(1, Some("Ada"), Some("King"), Sex::Female, false),
        individual(10, None, None, Sex::Unknown, true),
    ];
    let t = individual_table(&people);
    assert_eq!(t, "ID  NAME       SEX  LIVING\n1   Ada King   F    no\n10  (unnamed)  U    yes\n");
}

#[test]
fn error_categories_and_exit_codes() {
    let nf = CoreError::NotFound { entity: "family", id: 2 };
    assert_eq!(error_kind(Some(&nf)), "not_found");
    assert_eq!(code_for(Some(&nf)), 3);
    assert_eq!(error_kind(None), "error");
    assert_eq!(code_for(None), 1);
    assert_eq!(code_for(Some(&CoreError::Io("x".to_owned()))), 5);
}
