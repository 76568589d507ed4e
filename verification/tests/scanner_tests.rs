//! Tests of the offline corpus scanner: chunking, trailing-chunk handling,
//! bounded buffering, and both comparison modes.

use medic::entries::build_entry;
use medic::entries::Entry;
use medic::check_this_chunk;
use medic::BreachedPasswordState;
use medic::CorpusScanner;

fn entry(username: &str, pass: &str) -> Entry {
    build_entry(String::new(), String::new(), username.to_string(), pass.to_string())
        .expect("non-empty password must yield an entry")
}

fn scan(
    entries: Vec<Entry>,
    mode: BreachedPasswordState,
    threshold: usize,
    lines: &[&str],
) -> Vec<Entry> {
    let mut scanner = CorpusScanner::new(entries, mode, threshold);
    for line in lines {
        scanner.push_line(line.to_string());
    }
    scanner.finish()
}

#[test]
fn digest_mode_finds_entry_whose_digest_heads_a_line() {
    // One corpus line: the digest of "hunter2" followed by ":5".
    let e = entry("alice", "hunter2");
    let line = "F3BBBD66A63D4BF1747940578EC3D0103530E21D:5";
    let found = scan(vec![e], BreachedPasswordState::Sha1, 1_000_000, &[line]);
    assert_eq!(found.len(), 1);
    assert_eq!(found[0].username, "alice");
}

#[test]
fn cleartext_mode_finds_only_the_entry_with_that_password() {
    let d = entry("dora", "opensesame");
    let other = entry("eve", "different");
    let found = scan(
        vec![d, other],
        BreachedPasswordState::Clear,
        1_000_000,
        &["opensesame"],
    );
    assert_eq!(found.len(), 1);
    assert_eq!(found[0].username, "dora");
}

#[test]
fn empty_corpus_matches_nothing() {
    let e = entry("alice", "hunter2");
    let found = scan(vec![e], BreachedPasswordState::Sha1, 1_000_000, &[]);
    assert!(found.is_empty());
}

#[test]
fn trailing_chunk_below_threshold_is_still_scanned() {
    // The threshold is far larger than the corpus, so no drain ever happens
    // before the end of the stream: every match must come from the trailing
    // chunk.
    let e = entry("alice", "hunter2");
    let mut scanner = CorpusScanner::new(
        vec![e],
        BreachedPasswordState::Sha1,
        1_000_000_000,
    );
    let drained = scanner.push_line("F3BBBD66A63D4BF1747940578EC3D0103530E21D:5".to_string());
    assert!(!drained);
    assert_eq!(scanner.buffered_lines(), 1);
    let found = scanner.finish();
    assert_eq!(found.len(), 1);
}

#[test]
fn matches_found_in_earlier_chunks_survive_later_drains() {
    // Threshold of 96 bytes at 48 bytes per line: a drain after every second
    // line.
    let e = entry("alice", "hunter2");
    let hit = "F3BBBD66A63D4BF1747940578EC3D0103530E21D:5";
    let miss = "0000000000000000000000000000000000000000:1";
    let found = scan(
        vec![e],
        BreachedPasswordState::Sha1,
        96,
        &[hit, miss, miss, miss, hit],
    );
    assert_eq!(found.len(), 2);
}

#[test]
fn duplicate_corpus_lines_yield_duplicate_matches() {
    let e = entry("alice", "hunter2");
    let hit = "F3BBBD66A63D4BF1747940578EC3D0103530E21D:5";
    let found = scan(vec![e], BreachedPasswordState::Sha1, 1_000_000, &[hit, hit]);
    assert_eq!(found.len(), 2);
}

#[test]
fn short_lines_are_skipped_in_digest_mode() {
    let e = entry("alice", "hunter2");
    let found = scan(
        vec![e],
        BreachedPasswordState::Sha1,
        1_000_000,
        &["too short", ""],
    );
    assert!(found.is_empty());
}

#[test]
fn peak_buffered_lines_is_independent_of_corpus_size() {
    let threshold = 96; // two 48-byte records
    let miss = "0000000000000000000000000000000000000000:1";

    let peak_of = |n: usize| -> usize {
        let e = entry("alice", "hunter2");
        let mut scanner =
            CorpusScanner::new(vec![e], BreachedPasswordState::Sha1, threshold);
        let mut peak = 0;
        for _ in 0..n {
            scanner.push_line(miss.to_string());
            peak = peak.max(scanner.buffered_lines());
        }
        peak
    };

    let small = peak_of(10);
    let large = peak_of(1000);
    assert_eq!(small, large);
    assert!(large * 48 <= threshold);
}

#[test]
fn drain_happens_exactly_when_the_threshold_is_exceeded() {
    let e = entry("alice", "hunter2");
    let miss = "0000000000000000000000000000000000000000:1";
    let mut scanner = CorpusScanner::new(vec![e], BreachedPasswordState::Sha1, 48);
    // One 48-byte record does not exceed 48; the second does.
    assert!(!scanner.push_line(miss.to_string()));
    assert!(scanner.push_line(miss.to_string()));
    assert_eq!(scanner.buffered_lines(), 0);
}

#[test]
fn check_this_chunk_is_line_major_and_keeps_vault_order() {
    let a = entry("a", "x");
    let b = entry("b", "x");
    let chunk = vec![
        "11F6AD8EC52A2984ABAAFD7C3B516503785C2072:3".to_string(),
        "11F6AD8EC52A2984ABAAFD7C3B516503785C2072:3".to_string(),
    ];
    let found = check_this_chunk(&[a, b], &chunk, &BreachedPasswordState::Sha1);
    let names: Vec<&str> = found.iter().map(|e| e.username.as_str()).collect();
    assert_eq!(names, vec!["a", "b", "a", "b"]);
}

#[test]
fn cleartext_mode_does_not_match_digest_lines() {
    let e = entry("alice", "hunter2");
    let found = scan(
        vec![e],
        BreachedPasswordState::Clear,
        1_000_000,
        &["F3BBBD66A63D4BF1747940578EC3D0103530E21D:5"],
    );
    assert!(found.is_empty());
}
