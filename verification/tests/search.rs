use kith::db::search::{clean_snippet, to_match_expr};

#[test]
fn match_expr_quotes_and_prefixes_each_term() {
    assert_eq!(to_match_expr("Ada Lov").as_deref(), Some("\"Ada\"* \"Lov\"*"));
}

#[test]
fn match_expr_escapes_embedded_quotes_and_drops_punctuation_only_terms() {
    assert_eq!(to_match_expr("a\"b !!! c").as_deref(), Some("\"a\"\"b\"* \"c\"*"));
}

#[test]
fn match_expr_is_none_for_empty_or_punctuation_only_queries() {
    assert!(to_match_expr("").is_none());
    assert!(to_match_expr("   ").is_none());
    assert!(to_match_expr("*** ???").is_none());
}

#[test]
fn match_expr_keeps_non_ascii_letters_and_digits() {
    assert_eq!(to_match_expr("Åse 1850").as_deref(), Some("\"Åse\"* \"1850\"*"));
    assert_eq!(to_match_expr("«»").as_deref(), None);
}

#[test]
fn snippets_are_trimmed_and_blank_ones_dropped() {
    assert_eq!(clean_snippet(Some("  born in [Bergen] ".to_owned())).as_deref(), Some("born in [Bergen]"));
    assert_eq!(clean_snippet(Some("   ".to_owned())), None);
    assert_eq!(clean_snippet(None), None);
}
