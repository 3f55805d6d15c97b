use kith::date::{DateModifier, GenealogicalDate, PartialDate};

fn pd(year: i32, month: Option<u8>, day: Option<u8>) -> PartialDate {
    PartialDate { year, month, day }
}

fn single(modifier: DateModifier, date: PartialDate) -> GenealogicalDate {
    GenealogicalDate::Single { modifier, date }
}

fn parse(s: &str) -> GenealogicalDate {
    s.parse::<GenealogicalDate>().expect("parse")
}

#[test]
fn parses_the_example_table() {
    let cases = [
        ("1887", single(DateModifier::Exact, pd(1887, None, None))),
        ("Mar 1887", single(DateModifier::Exact, pd(1887, Some(3), None))),
        ("12 Mar 1887", single(DateModifier::Exact, pd(1887, Some(3), Some(12)))),
        ("ABT 1887", single(DateModifier::About, pd(1887, None, None))),
        ("BEF 1900", single(DateModifier::Before, pd(1900, None, None))),
        ("AFT 1850", single(DateModifier::After, pd(1850, None, None))),
        ("EST 1860", single(DateModifier::Estimated, pd(1860, None, None))),
        ("CAL 1860", single(DateModifier::Calculated, pd(1860, None, None))),
        (
            "BET 1850 AND 1860",
            GenealogicalDate::Range { from: pd(1850, None, None), to: pd(1860, None, None) },
        ),
    ];
    for (input, expected) in cases {
        let parsed: GenealogicalDate = input.parse().expect("parse example");
        assert_eq!(parsed, expected, "parsing {input:?}");
    }
}

#[test]
fn parsing_is_case_insensitive_for_keywords_and_months() {
    assert_eq!(parse("abt 1850"), single(DateModifier::About, pd(1850, None, None)));
    assert_eq!(parse("12 mar 1887"), single(DateModifier::Exact, pd(1887, Some(3), Some(12))));
}

#[test]
fn long_form_keywords_re_parse() {
    for input in ["about 1887", "before 1900", "after 1850", "estimated 1860"] {
        let d = parse(input);
        assert_eq!(d.to_display_string(), input);
    }
    let r = parse("between 1850 and 1860");
    assert_eq!(r, GenealogicalDate::Range { from: pd(1850, None, None), to: pd(1860, None, None) });
}

#[test]
fn formats_long_and_short_forms() {
    let exact_full = single(DateModifier::Exact, pd(1887, Some(3), Some(12)));
    assert_eq!(exact_full.to_display_string(), "12 Mar 1887");
    assert_eq!(exact_full.format_short(), "12 Mar 1887");

    assert_eq!(single(DateModifier::About, pd(1887, None, None)).to_display_string(), "about 1887");
    assert_eq!(single(DateModifier::About, pd(1887, None, None)).format_short(), "c. 1887");
    assert_eq!(single(DateModifier::Before, pd(1900, None, None)).to_display_string(), "before 1900");
    assert_eq!(single(DateModifier::Before, pd(1900, None, None)).format_short(), "b. 1900");
    assert_eq!(single(DateModifier::After, pd(1850, None, None)).to_display_string(), "after 1850");
    assert_eq!(single(DateModifier::After, pd(1850, None, None)).format_short(), "a. 1850");
    assert_eq!(
        single(DateModifier::Estimated, pd(1860, None, None)).to_display_string(),
        "estimated 1860"
    );
    assert_eq!(single(DateModifier::Estimated, pd(1860, None, None)).format_short(), "est. 1860");
    assert_eq!(
        single(DateModifier::Calculated, pd(1860, None, None)).to_display_string(),
        "calculated 1860"
    );
    assert_eq!(single(DateModifier::Calculated, pd(1860, None, None)).format_short(), "cal. 1860");

    let range = GenealogicalDate::Range { from: pd(1850, None, None), to: pd(1860, None, None) };
    assert_eq!(range.to_display_string(), "between 1850 and 1860");
    assert_eq!(range.format_short(), "1850\u{2013}1860");
}

#[test]
fn date_modifier_codes_match_the_schema_comment() {
    assert_eq!(DateModifier::Exact.as_str(), "exact");
    assert_eq!(DateModifier::About.as_str(), "about");
    assert_eq!(DateModifier::Before.as_str(), "before");
    assert_eq!(DateModifier::After.as_str(), "after");
    assert_eq!(DateModifier::Between.as_str(), "between");
    assert_eq!(DateModifier::Estimated.as_str(), "estimated");
    assert_eq!(DateModifier::Calculated.as_str(), "calculated");
}

#[test]
fn abt_1850_parses_with_a_populated_sort_key() {
    let d = parse("ABT 1850");
    assert_eq!(d, single(DateModifier::About, pd(1850, None, None)));
    assert!(d.sort_key().is_some(), "ABT 1850 must have a sort key");
}

#[test]
fn sort_key_orders_dates_chronologically() {
    let key = |s: &str| parse(s).sort_key().expect("sort key");
    assert!(key("1849") < key("Mar 1850"));
    assert!(key("Mar 1850") < key("12 Mar 1850"));
    assert!(key("12 Mar 1850") < key("1851"));
    assert_eq!(key("BET 1850 AND 1860"), key("1850"));
    let feb31 = parse("31 Feb 1850");
    assert!(feb31.sort_key().is_some());
}

#[test]
fn rejects_unparseable_input() {
    for bad in ["", "   ", "not a date", "Foo 1887", "BET 1850", "1 2 3 1887"] {
        assert!(bad.parse::<GenealogicalDate>().is_err(), "expected {bad:?} to be rejected");
    }
    assert!("12 1887".parse::<GenealogicalDate>().is_err());
}

#[test]
fn format_gedcom_canonical_spellings() {
    let cases = [
        ("12 MAR 1887", "12 Mar 1887"),
        ("MAR 1887", "Mar 1887"),
        ("ABT 1850", "ABT 1850"),
        ("BEF 1900", "BEF 1900"),
        ("AFT 1850", "AFT 1850"),
        ("EST 1860", "EST 1860"),
        ("CAL 1860", "CAL 1860"),
        ("BET 1850 AND 1860", "BET 1850 AND 1860"),
    ];
    for (gedcom, parseable) in cases {
        let d = parse(parseable);
        assert_eq!(d.format_gedcom(), gedcom, "format_gedcom of {parseable:?}");
    }
}

#[test]
fn sort_key_is_the_day_number_from_the_unix_epoch() {
    assert_eq!(parse("1970").sort_key(), Some(0));
    assert_eq!(parse("2 Jan 1970").sort_key(), Some(1));
    assert_eq!(parse("1969").sort_key(), Some(-365));
    assert_eq!(parse("1 Mar 2000").sort_key(), Some(11017));
    assert_eq!(parse("29 Feb 2001").sort_key(), parse("Feb 2001").sort_key());
}

#[test]
fn sort_key_agrees_with_jiff() {
    let epoch = jiff::civil::date(1970, 1, 1);
    for (y, m, d) in [(1850i16, 3i8, 12i8), (1600, 12, 31), (-44, 3, 15), (2024, 2, 29)] {
        let days = jiff::civil::date(y, m, d).since(epoch).expect("span").get_days();
        let date = single(DateModifier::Exact, pd(y as i32, Some(m as u8), Some(d as u8)));
        assert_eq!(date.sort_key(), Some(days as i64));
    }
}

#[test]
fn gedcom_form_round_trips_through_the_parser() {
    for text in ["12 Mar 1887", "about 1850", "BET 1850 AND 1860", "Feb 1700"] {
        let d = parse(text);
        assert_eq!(parse(&d.format_gedcom()), d);
        assert_eq!(parse(&d.to_display_string()), d);
    }
}

#[test]
fn a_lone_keyword_is_rejected() {
    assert!("ABT".parse::<GenealogicalDate>().is_err());
    assert!("BET 1850 AND".parse::<GenealogicalDate>().is_err());
}

#[test]
fn an_oversized_month_or_day_falls_back_instead_of_losing_the_key() {
    let key = |p: PartialDate| single(DateModifier::Exact, p).sort_key();
    assert_eq!(key(pd(1850, Some(200), Some(3))), key(pd(1850, None, None)));
    assert_eq!(key(pd(1850, Some(2), Some(200))), key(pd(1850, Some(2), None)));
    assert_eq!(key(pd(1850, Some(2), Some(31))), key(pd(1850, Some(2), None)));
    assert!(key(pd(1850, Some(200), Some(200))).is_some());
    assert_eq!(key(pd(10000, Some(1), Some(1))), None);
}

#[test]
fn gedcom_and_short_forms_are_keyword_then_payload() {
    let f = pd(1850, Some(3), Some(12));
    let t = pd(1860, None, None);
    let range = GenealogicalDate::Range { from: f, to: t };
    assert_eq!(range.format_gedcom(), "BET 12 MAR 1850 AND 1860");
    assert_eq!(range.format_short(), "12 Mar 1850\u{2013}1860");
    assert_eq!(single(DateModifier::Calculated, f).format_gedcom(), "CAL 12 MAR 1850");
    assert_eq!(single(DateModifier::Estimated, t).format_short(), "est. 1860");
    assert!(!range.format_gedcom().chars().any(|c| c.is_ascii_lowercase()));
}
