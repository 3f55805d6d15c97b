use kith::date::{DateModifier, GenealogicalDate, PartialDate};
use kith::layout::lifespan;
use kith::lb::record::{infer_living, non_empty, parse_lb_date, reconcile_birth, LbPerson, MAX_PLAUSIBLE_LIFESPAN};

const NOW: i32 = 2026;

fn exact(year: i32, month: Option<u8>, day: Option<u8>) -> GenealogicalDate {
    GenealogicalDate::Single { modifier: DateModifier::Exact, date: PartialDate { year, month, day } }
}

fn person(spouse_id: i64, spouse_list: Option<Vec<i64>>) -> LbPerson {
    LbPerson {
        id: 1,
        father_id: 0,
        mother_id: 0,
        spouse_id,
        spouse_list,
        gender: "M".to_owned(),
        first_name: String::new(),
        last_name: String::new(),
        birth_place: String::new(),
        death_place: String::new(),
        birth_date: String::new(),
        death_date: String::new(),
        notes: String::new(),
    }
}

#[test]
fn unknown_sentinels_and_blank_are_no_date() {
    for sentinel in ["01.01.1753", "05.01.2021", "03.01.2021", "01.01.2023"] {
        assert_eq!(parse_lb_date(sentinel, NOW), None, "sentinel {sentinel}");
    }
    assert_eq!(parse_lb_date(" 05.01.2021 ", NOW), None);
    assert_eq!(parse_lb_date("", NOW), None);
    assert_eq!(parse_lb_date("   ", NOW), None);
}

#[test]
fn future_years_are_dropped_but_the_current_year_is_kept() {
    assert_eq!(parse_lb_date("01.01.2027", NOW), None);
    assert_eq!(parse_lb_date("31.12.3000", NOW), None);
    assert_eq!(parse_lb_date("01.01.2026", NOW), Some(exact(2026, Some(1), Some(1))));
    assert_eq!(parse_lb_date("15.01.2022", NOW), Some(exact(2022, Some(1), Some(15))));
}

#[test]
fn full_date_parses_as_an_exact_point() {
    assert_eq!(parse_lb_date("24.08.1818", NOW), Some(exact(1818, Some(8), Some(24))));
    assert_eq!(parse_lb_date(" 12.05.1820 ", NOW), Some(exact(1820, Some(5), Some(12))));
}

#[test]
fn zero_components_degrade_to_a_partial_date() {
    assert_eq!(parse_lb_date("00.00.1790", NOW), Some(exact(1790, None, None)));
    assert_eq!(parse_lb_date("13.00.1790", NOW), Some(exact(1790, None, None)));
    assert_eq!(parse_lb_date("00.05.1790", NOW), Some(exact(1790, Some(5), None)));
}

#[test]
fn unparseable_input_is_lenient_none() {
    for bad in ["garbage", "1850", "12/05/1820", "12.05.1820.1", "ab.cd.efgh"] {
        assert_eq!(parse_lb_date(bad, NOW), None, "expected {bad:?} -> None");
    }
    assert_eq!(parse_lb_date("01.13.1850", NOW), Some(exact(1850, None, None)));
}

#[test]
fn reconcile_birth_drops_a_birth_after_the_death() {
    let stamp_birth = exact(2022, Some(1), Some(1));
    let real_death = exact(1787, Some(1), Some(1));
    assert_eq!(reconcile_birth(Some(stamp_birth), Some(&real_death)), None);

    let birth = exact(1750, None, None);
    let death = exact(1800, None, None);
    assert_eq!(reconcile_birth(Some(birth), Some(&death)), Some(birth));

    let b = exact(1850, Some(11), Some(2));
    let d = exact(1850, Some(3), Some(5));
    assert_eq!(reconcile_birth(Some(b), Some(&d)), Some(b));

    assert_eq!(reconcile_birth(Some(birth), None), Some(birth));
    assert_eq!(reconcile_birth(None, Some(&death)), None);
}

#[test]
fn infer_living_follows_death_evidence_then_a_recent_birth() {
    let recent_birth = exact(1945, Some(2), Some(23));
    let ancient_birth = exact(1820, Some(5), Some(12));
    let death = exact(1890, Some(4), Some(3));

    assert!(!infer_living(Some(&recent_birth), Some(&death), false, NOW));
    assert!(!infer_living(Some(&recent_birth), None, true, NOW));
    assert!(infer_living(Some(&recent_birth), None, false, NOW));
    assert!(!infer_living(Some(&ancient_birth), None, false, NOW));
    assert!(!infer_living(None, None, false, NOW));

    let boundary = exact(NOW - 110, None, None);
    let inside = exact(NOW - 109, None, None);
    assert!(!infer_living(Some(&boundary), None, false, NOW));
    assert!(infer_living(Some(&inside), None, false, NOW));
    assert_eq!(MAX_PLAUSIBLE_LIFESPAN, 110);
}

#[test]
fn non_empty_trims_and_nulls_blanks() {
    assert_eq!(non_empty(""), None);
    assert_eq!(non_empty("   "), None);
    assert_eq!(non_empty("  Bergen "), Some("Bergen".to_owned()));
}

#[test]
fn spouses_merges_scalar_and_list_dropping_zeros() {
    let p = person(7, Some(vec![0, 9, 11]));
    assert_eq!(p.spouses(), vec![7, 9, 11]);
}

#[test]
fn parents_are_none_for_a_zero_id() {
    let mut p = person(0, None);
    assert_eq!(p.father(), None);
    assert_eq!(p.mother(), None);
    assert_eq!(p.spouses(), Vec::<i64>::new());
    p.father_id = 4;
    p.mother_id = 5;
    assert_eq!(p.father(), Some(4));
    assert_eq!(p.mother(), Some(5));
}

#[test]
fn lifespan_both_years_uses_an_en_dash_range() {
    let label = lifespan(Some(1887), Some(1956), false);
    assert_eq!(label.as_deref(), Some("1887\u{2013}1956"));
}

#[test]
fn lifespan_birth_only_living_reads_as_born_in() {
    assert_eq!(lifespan(Some(1990), None, true).as_deref(), Some("b. 1990"));
}

#[test]
fn lifespan_birth_only_not_living_is_open_ended() {
    assert_eq!(lifespan(Some(1887), None, false).as_deref(), Some("1887\u{2013}"));
}

#[test]
fn lifespan_death_only_is_a_leading_dash() {
    assert_eq!(lifespan(None, Some(1956), false).as_deref(), Some("\u{2013}1956"));
}

#[test]
fn lifespan_no_years_is_none() {
    assert_eq!(lifespan(None, None, false), None);
    assert_eq!(lifespan(None, None, true), None);
}

#[test]
fn lifespan_of_negative_years() {
    assert_eq!(lifespan(Some(-44), Some(12), false).as_deref(), Some("-44\u{2013}12"));
}
