//! Tests of the online exposure check's computational half: range-query
//! splitting and response parsing.

use medic::collect_breached_entries;
use medic::count_appearances;
use medic::entries::build_entry;
use medic::entries::Entry;
use medic::online::parse_count;
use medic::online_range_parts;
use medic::split_response_lines;

fn entry(username: &str, pass: &str) -> Entry {
    build_entry(String::new(), String::new(), username.to_string(), pass.to_string())
        .expect("non-empty password must yield an entry")
}

#[test]
fn range_parts_split_the_digest_after_five_characters() {
    let (prefix, suffix) = online_range_parts("hunter2");
    assert_eq!(prefix, "F3BBB");
    assert_eq!(suffix, "D66A63D4BF1747940578EC3D0103530E21D");
    assert_eq!(prefix.len(), 5);
    assert_eq!(suffix.len(), 35);
}

#[test]
fn split_lines_handles_crlf_and_trailing_newline() {
    let lines = split_response_lines("AAA\r\nBBB\nCCC");
    assert_eq!(lines, vec!["AAA".to_string(), "BBB".to_string(), "CCC".to_string()]);
    let lines = split_response_lines("AAA\n");
    assert_eq!(lines, vec!["AAA".to_string()]);
    let lines = split_response_lines("");
    assert!(lines.is_empty());
    let lines = split_response_lines("A\n\nB");
    assert_eq!(lines, vec!["A".to_string(), "".to_string(), "B".to_string()]);
}

#[test]
fn parse_count_reads_exactly_decimal_digit_strings() {
    assert_eq!(parse_count("123"), Some(123));
    assert_eq!(parse_count("0"), Some(0));
    assert_eq!(parse_count(""), None);
    assert_eq!(parse_count("12a"), None);
    assert_eq!(parse_count("-3"), None);
    assert_eq!(parse_count("99999999999999999999999999999"), None);
}

#[test]
fn appearances_come_from_the_matching_suffix_record() {
    let suffix = "D66A63D4BF1747940578EC3D0103530E21D";
    let body = format!(
        "0000000000000000000000000000000000A:12\r\n{}:17629\r\nFFFFFFFFFFFFFFFFFFFFFFFFFFFFFFFFFFF:1\r\n",
        suffix
    );
    let lines = split_response_lines(&body);
    assert_eq!(count_appearances(&lines, suffix), 17629);
}

#[test]
fn absent_suffix_means_zero_appearances() {
    let lines = split_response_lines("0000000000000000000000000000000000A:12\r\n");
    assert_eq!(
        count_appearances(&lines, "D66A63D4BF1747940578EC3D0103530E21D"),
        0
    );
}

#[test]
fn unreadable_count_still_reports_at_least_one_appearance() {
    let suffix = "D66A63D4BF1747940578EC3D0103530E21D";
    let body = format!("{}:not-a-number\r\n", suffix);
    let lines = split_response_lines(&body);
    assert_eq!(count_appearances(&lines, suffix), 1);
}

#[test]
fn entries_with_positive_counts_are_breached() {
    let a = entry("a", "pw1");
    let b = entry("b", "pw2");
    let c = entry("c", "pw3");
    let breached = collect_breached_entries(&[a, b, c], &[0, 17629, 1]);
    let names: Vec<&str> = breached.iter().map(|e| e.username.as_str()).collect();
    assert_eq!(names, vec!["b", "c"]);
}
