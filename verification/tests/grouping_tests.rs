//! Tests of the credential model and the digest grouper.

use medic::entries::build_entry;
use medic::entries::Entry;
use medic::make_digest_map;
use medic::present_duplicated_entries;

fn entry(title: &str, url: &str, username: &str, pass: &str) -> Entry {
    build_entry(
        title.to_string(),
        url.to_string(),
        username.to_string(),
        pass.to_string(),
    )
    .expect("non-empty password must yield an entry")
}

#[test]
fn digest_is_uppercase_hex_sha1_of_password() {
    let e = entry("site", "https://example.com", "alice", "hunter2");
    assert_eq!(e.digest, "F3BBBD66A63D4BF1747940578EC3D0103530E21D");
    assert_eq!(e.digest.len(), 40);
}

#[test]
fn empty_password_entries_are_rejected() {
    let none = build_entry(
        "t".to_string(),
        "u".to_string(),
        "n".to_string(),
        String::new(),
    );
    assert!(none.is_none());
}

#[test]
fn digest_map_groups_equal_passwords_and_separates_distinct_ones() {
    let a = entry("a", "", "ua", "x");
    let b = entry("b", "", "ub", "x");
    let c = entry("c", "", "uc", "y");
    let map = make_digest_map(&[a, b, c]);

    assert_eq!(map.groups.len(), 2);
    assert_eq!(map.groups[0].digest, "11F6AD8EC52A2984ABAAFD7C3B516503785C2072");
    assert_eq!(map.groups[0].members.len(), 2);
    assert_eq!(map.groups[0].members[0].title, "a");
    assert_eq!(map.groups[0].members[1].title, "b");
    assert_eq!(map.groups[1].digest, "95CB0BFD2977C761298D9624E4B4D4C72A39974A");
    assert_eq!(map.groups[1].members.len(), 1);
    assert_eq!(map.groups[1].members[0].title, "c");
}

#[test]
fn every_entry_lands_in_exactly_one_group() {
    let entries = vec![
        entry("a", "", "u1", "x"),
        entry("b", "", "u2", "y"),
        entry("c", "", "u3", "x"),
        entry("d", "", "u4", "password123"),
    ];
    let map = make_digest_map(&entries);
    for e in &entries {
        let holders: Vec<_> = map
            .groups
            .iter()
            .filter(|g| g.members.iter().any(|m| m.username == e.username))
            .collect();
        assert_eq!(holders.len(), 1);
        assert_eq!(holders[0].digest, e.digest);
    }
}

#[test]
fn duplicate_report_fires_once_for_one_shared_group() {
    let a = entry("a", "", "ua", "x");
    let b = entry("b", "", "ub", "x");
    let c = entry("c", "", "uc", "y");
    let map = make_digest_map(&[a, b, c]);
    let lines = present_duplicated_entries(&map);

    let headers = lines
        .iter()
        .filter(|l| l.starts_with("The following entries have the same password:"))
        .count();
    assert_eq!(headers, 1);
    assert!(lines.iter().any(|l| l.contains("Re-using passwords")));
    assert!(lines.contains(&"   - ua on a".to_string()));
    assert!(lines.contains(&"   - ub on b".to_string()));
    assert!(!lines.iter().any(|l| l.contains("uc")));
}

#[test]
fn clean_vault_reports_no_reuse() {
    let a = entry("a", "", "ua", "x");
    let c = entry("c", "", "uc", "y");
    let map = make_digest_map(&[a, c]);
    let lines = present_duplicated_entries(&map);
    assert_eq!(lines, vec!["\nGood job -- no password reuse detected!".to_string()]);
}

#[test]
fn display_label_prefers_title_then_url() {
    let with_title = entry("Bank", "https://bank.example", "alice", "p");
    assert_eq!(with_title.display_string(), "alice on Bank");
    let with_url = entry("", "https://bank.example", "alice", "p");
    assert_eq!(with_url.display_string(), "alice for https://bank.example");
    let bare = entry("", "", "alice", "p");
    assert_eq!(bare.display_string(), "alice");
}
