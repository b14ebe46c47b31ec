use es_retention::calendar::{current_month, months_between, YearMonth};
use es_retention::pattern::{build_matcher, NamingConvention};
use es_retention::selection::{
    age_in_months, assess_names, plan_deletions, select_for_deletion, Candidate, RangeError,
};
use es_retention::text::chars_of;
use es_retention::threshold::{parse_months, ParseError};

fn ym(year: i32, month: u32) -> YearMonth {
    YearMonth { year, month }
}

fn cand(name: &str, age: i32) -> Candidate {
    Candidate { name: name.to_string(), age_months: age }
}

fn names_ages(plan: &[Candidate]) -> Vec<(String, i32)> {
    plan.iter().map(|c| (c.name.clone(), c.age_months)).collect()
}

#[test]
fn threshold_accepts_documented_forms() {
    assert_eq!(parse_months("25m"), Ok(25));
    assert_eq!(parse_months(" 12 months "), Ok(12));
    assert_eq!(parse_months("0m"), Ok(0));
}

#[test]
fn threshold_rejects_malformed_text() {
    assert_eq!(parse_months("abc"), Err(ParseError::Malformed));
    assert_eq!(parse_months("-1m"), Err(ParseError::Malformed));
    assert_eq!(parse_months("25"), Err(ParseError::Malformed));
    assert_eq!(parse_months(""), Err(ParseError::Malformed));
    assert_eq!(parse_months("m"), Err(ParseError::Malformed));
    assert_eq!(parse_months("12 mon"), Err(ParseError::Malformed));
    assert_eq!(parse_months("12 monthss"), Err(ParseError::Malformed));
    assert_eq!(parse_months("1 2m"), Err(ParseError::Malformed));
    assert_eq!(parse_months("12 m x"), Err(ParseError::Malformed));
}

#[test]
fn threshold_is_case_insensitive_and_trims_spaces() {
    assert_eq!(parse_months("12 MONTHS"), Ok(12));
    assert_eq!(parse_months("3 Month"), Ok(3));
    assert_eq!(parse_months("\t7\n m \r\n"), Ok(7));
    assert_eq!(parse_months("007M"), Ok(7));
    assert_eq!(parse_months("5\u{a0}monthſ"), Ok(5));
}

#[test]
fn threshold_too_large_is_refused() {
    assert_eq!(parse_months("2147483647m"), Ok(2147483647));
    assert_eq!(parse_months("2147483648m"), Err(ParseError::Negative));
    assert_eq!(parse_months("99999999999999999999999m"), Err(ParseError::Negative));
}

#[test]
fn months_between_counts_calendar_months() {
    assert_eq!(months_between(ym(2025, 3), ym(2025, 1)), 2);
    assert_eq!(months_between(ym(2025, 3), ym(2023, 1)), 26);
    assert_eq!(months_between(ym(2025, 1), ym(2024, 12)), 1);
    assert_eq!(months_between(ym(2025, 3), ym(2025, 5)), -2);
}

#[test]
fn month_age_relative_to_reference() {
    let r = ym(2025, 3);
    assert_eq!(age_in_months(NamingConvention::Month, 2025, 1, r), Ok(2));
    assert_eq!(age_in_months(NamingConvention::Month, 2025, 3, r), Ok(0));
    assert_eq!(age_in_months(NamingConvention::Month, 2025, 6, r), Ok(-3));
}

#[test]
fn week_age_goes_through_monday_month() {
    let r = ym(2025, 3);
    // ISO week 1 of 2025 starts on Monday 2024-12-30.
    assert_eq!(age_in_months(NamingConvention::Week, 2025, 1, r), Ok(3));
    // Week 2 starts on 2025-01-06.
    assert_eq!(age_in_months(NamingConvention::Week, 2025, 2, r), Ok(2));
    // 2020 has 53 ISO weeks; week 53 starts on 2020-12-28.
    assert_eq!(age_in_months(NamingConvention::Week, 2020, 53, r), Ok(51));
}

#[test]
fn week_part_out_of_range() {
    let r = ym(2025, 3);
    assert_eq!(age_in_months(NamingConvention::Week, 2025, 0, r), Err(RangeError::WeekOutOfRange));
    assert_eq!(age_in_months(NamingConvention::Week, 2025, 54, r), Err(RangeError::WeekOutOfRange));
    // 2025 has only 52 ISO weeks.
    assert_eq!(age_in_months(NamingConvention::Week, 2025, 53, r), Err(RangeError::WeekOutOfRange));
}

#[test]
fn month_part_out_of_range() {
    let r = ym(2025, 3);
    assert_eq!(age_in_months(NamingConvention::Month, 2025, 0, r), Err(RangeError::MonthOutOfRange));
    assert_eq!(age_in_months(NamingConvention::Month, 2025, 13, r), Err(RangeError::MonthOutOfRange));
}

#[test]
fn later_month_is_never_older() {
    let r = ym(2025, 3);
    let mut last = i32::MAX;
    for year in 2019..=2027 {
        for month in 1..=12u32 {
            let age = age_in_months(NamingConvention::Month, year, month, r).unwrap();
            assert!(age <= last);
            last = age;
        }
    }
}

#[test]
fn month_matcher_shapes() {
    let m = build_matcher(NamingConvention::Month, "foo-");
    assert_eq!(m.match_name("foo-2025-03"), Some((2025, 3)));
    assert_eq!(m.match_name("foo-2025.03"), Some((2025, 3)));
    assert_eq!(m.match_name("foo-2025-3"), None);
    assert_eq!(m.match_name("foo-2025-033"), None);
    assert_eq!(m.match_name("xfoo-2025-03"), None);
    assert_eq!(m.match_name("foo-2025_03"), None);
    assert_eq!(m.match_name("bar-2025-03"), None);
    assert_eq!(m.match_name("foo-2025-13"), Some((2025, 13)));
}

#[test]
fn week_matcher_shapes() {
    let m = build_matcher(NamingConvention::Week, "foo-");
    assert_eq!(m.match_name("foo-2025-1"), Some((2025, 1)));
    assert_eq!(m.match_name("foo-2025-12"), Some((2025, 12)));
    assert_eq!(m.match_name("foo-2025-123"), None);
    assert_eq!(m.match_name("foo-2025.12"), None);
    assert_eq!(m.match_name("foo-2025-"), None);
}

#[test]
fn prefix_is_literal() {
    let m = build_matcher(NamingConvention::Month, "a.b+");
    assert_eq!(m.match_name("a.b+2024-06"), Some((2024, 6)));
    assert_eq!(m.match_name("axb+2024-06"), None);
    assert_eq!(m.match_name("a.bb2024-06"), None);
    let empty = build_matcher(NamingConvention::Month, "");
    assert_eq!(empty.match_name("2024.06"), Some((2024, 6)));
}

#[test]
fn selection_keeps_only_old_enough() {
    let candidates = vec![cand("p-2023-01", 26), cand("p-2024-06", 9), cand("p-2025-02", 1)];
    let plan = select_for_deletion(&candidates, 12);
    assert_eq!(names_ages(&plan), vec![("p-2023-01".to_string(), 26)]);
}

#[test]
fn selection_is_repeatable() {
    let candidates = vec![cand("a", 30), cand("b", 12), cand("c", 5), cand("d", 12), cand("e", 14)];
    let first = select_for_deletion(&candidates, 12);
    let second = select_for_deletion(&candidates, 12);
    assert_eq!(names_ages(&first), names_ages(&second));
}

#[test]
fn selection_orders_by_age_and_keeps_ties() {
    let candidates = vec![cand("a", 30), cand("b", 12), cand("c", 5), cand("d", 12), cand("e", 14)];
    let plan = select_for_deletion(&candidates, 12);
    assert_eq!(
        names_ages(&plan),
        vec![
            ("b".to_string(), 12),
            ("d".to_string(), 12),
            ("e".to_string(), 14),
            ("a".to_string(), 30),
        ]
    );
}

#[test]
fn selection_edge_cases() {
    assert!(select_for_deletion(&Vec::new(), 0).is_empty());
    let candidates = vec![cand("future", -2), cand("now", 0)];
    let plan = select_for_deletion(&candidates, 0);
    assert_eq!(names_ages(&plan), vec![("now".to_string(), 0)]);
}

#[test]
fn assess_skips_misses_and_out_of_range() {
    let m = build_matcher(NamingConvention::Month, "p-");
    let names: Vec<String> = vec!["p-2024-06", "other-2020-01", "p-2024-13", "p-2023.01"]
        .into_iter()
        .map(String::from)
        .collect();
    let c = assess_names(&m, &names, ym(2025, 3));
    assert_eq!(
        names_ages(&c),
        vec![("p-2024-06".to_string(), 9), ("p-2023.01".to_string(), 26)]
    );
}

#[test]
fn plan_from_listing() {
    let m = build_matcher(NamingConvention::Month, "p-");
    let names: Vec<String> = vec!["p-2025-02", "p-2023-01", "junk", "p-2024-06", "p-2022.12"]
        .into_iter()
        .map(String::from)
        .collect();
    let plan = plan_deletions(&m, &names, ym(2025, 3), 12);
    assert_eq!(
        names_ages(&plan),
        vec![("p-2023-01".to_string(), 26), ("p-2022.12".to_string(), 27)]
    );
}

#[test]
fn plan_from_week_listing() {
    let m = build_matcher(NamingConvention::Week, "w-");
    let names: Vec<String> = vec!["w-2025-1", "w-2025-2", "w-2025-53", "w-2024-0", "w-2024-52"]
        .into_iter()
        .map(String::from)
        .collect();
    let plan = plan_deletions(&m, &names, ym(2025, 3), 3);
    assert_eq!(
        names_ages(&plan),
        vec![("w-2025-1".to_string(), 3), ("w-2024-52".to_string(), 3)]
    );
}

#[test]
fn current_month_is_a_calendar_month() {
    let now = current_month();
    assert!((1..=12).contains(&now.month));
    assert!(now.year >= 2024);
}

#[test]
fn chars_of_keeps_every_character() {
    assert_eq!(chars_of("añb"), vec!['a', 'ñ', 'b']);
    assert!(chars_of("").is_empty());
}
