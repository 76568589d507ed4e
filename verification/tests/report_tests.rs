//! Tests of report rendering: breached-entries lines and the weak-password
//! check, the latter exercising the real scoring library.

use medic::check_for_and_display_weak_passwords;
use medic::entries::build_entry;
use medic::entries::Entry;
use medic::present_breached_entries;
use medic::text::str_eq;

fn entry(title: &str, username: &str, pass: &str) -> Entry {
    build_entry(title.to_string(), String::new(), username.to_string(), pass.to_string())
        .expect("non-empty password must yield an entry")
}

#[test]
fn breached_report_lists_each_breached_entry() {
    let a = entry("Bank", "alice", "hunter2");
    let b = entry("Mail", "bob", "hunter2");
    let lines = present_breached_entries(&[a, b]);
    assert_eq!(
        lines[0],
        "The following entries have passwords contained in the list of breached passwords:"
    );
    assert_eq!(lines[1], "   - alice on Bank");
    assert_eq!(lines[2], "   - bob on Mail");
    assert_eq!(lines.len(), 3);
}

#[test]
fn empty_breached_report_is_the_all_clear_line() {
    let lines = present_breached_entries(&[]);
    assert_eq!(
        lines,
        vec!["I didn't find any of your passwords on the breached passwords list".to_string()]
    );
}

#[test]
fn weak_password_is_reported_with_feedback() {
    let weak = entry("Bank", "alice", "hunter2");
    let lines = check_for_and_display_weak_passwords(&[weak]);
    assert_eq!(lines[0], "\n--------------------------------");
    assert!(lines
        .iter()
        .any(|l| l == "Your password for alice on Bank is weak."));
}

#[test]
fn strong_password_produces_no_weak_report_lines() {
    let strong = entry("Bank", "alice", "kV9#xQ2$mL8@wRz5!pT3&nH6");
    let lines = check_for_and_display_weak_passwords(&[strong]);
    assert_eq!(lines, vec!["\n--------------------------------".to_string()]);
}

#[test]
fn str_eq_compares_character_for_character() {
    assert!(str_eq("abc", "abc"));
    assert!(!str_eq("abc", "abd"));
    assert!(!str_eq("abc", "abcd"));
    assert!(str_eq("", ""));
}
