//! The offline corpus scanner: streams an arbitrarily large file of breach
//! records in bounded-size chunks and reports which entries appear in it.
//!
//! The caller owns the line source and the progress indicator; it feeds lines
//! one by one with [`CorpusScanner::push_line`] and closes the scan with
//! [`CorpusScanner::finish`], which also drains the trailing partial chunk.

use vstd::prelude::*;
use vstd::string::*;

use crate::entries::Entry;
use crate::text::str_eq;
use crate::BreachedPasswordState;

verus! {

/// Approximate width, in bytes, that chunk accounting charges per buffered
/// line. Matching correctness never depends on this estimate.
pub const RECORD_WIDTH: usize = 48;

/// Default chunk threshold: bounds peak buffered bytes (approximately) to a
/// few hundred megabytes regardless of corpus size.
pub const CHUNK_SIZE: usize = 500_000_000;

/// Whether one corpus line matches one entry. In `Sha1` mode the first 40
/// characters of the line are compared against the entry's digest; in `Clear`
/// mode the whole line is compared against the entry's password. A line too
/// short to hold a digest matches nothing and is thereby skipped.
pub open spec fn line_matches(line: Seq<char>, e: Entry, mode: BreachedPasswordState) -> bool {
    match mode {
        BreachedPasswordState::Sha1 => line.len() >= 40 && line.subrange(0, 40) == e.digest@,
        BreachedPasswordState::Clear => line == e.pass@,
    }
}

/// The entries one line matches, in vault order.
pub open spec fn line_hits(
    entries: Seq<Entry>,
    line: Seq<char>,
    mode: BreachedPasswordState,
) -> Seq<Entry> {
    entries.filter(|e: Entry| line_matches(line, e, mode))
}

/// The match result of scanning the given lines in order: every line is
/// compared against every entry, and matches are appended, not deduplicated.
pub open spec fn scan_matches(
    entries: Seq<Entry>,
    lines: Seq<Seq<char>>,
    mode: BreachedPasswordState,
) -> Seq<Entry>
    decreases lines.len(),
{
    if lines.len() == 0 {
        Seq::empty()
    } else {
        scan_matches(entries, lines.drop_last(), mode) + line_hits(entries, lines.last(), mode)
    }
}

/// The views of a buffer of lines.
pub open spec fn lines_view(chunk: Seq<String>) -> Seq<Seq<char>> {
    chunk.map_values(|s: String| s@)
}

proof fn lemma_line_hits_push(
    entries: Seq<Entry>,
    x: Entry,
    line: Seq<char>,
    mode: BreachedPasswordState,
)
    ensures
        line_hits(entries.push(x), line, mode) == if line_matches(line, x, mode) {
            line_hits(entries, line, mode).push(x)
        } else {
            line_hits(entries, line, mode)
        },
{
    reveal(Seq::filter);
    assert(entries.push(x).drop_last() =~= entries);
    assert(entries.push(x).last() == x);
}

proof fn lemma_line_hits_contains(
    entries: Seq<Entry>,
    line: Seq<char>,
    mode: BreachedPasswordState,
    i: int,
)
    requires
        0 <= i < entries.len(),
        line_matches(line, entries[i], mode),
    ensures
        line_hits(entries, line, mode).contains(entries[i]),
    decreases entries.len(),
{
    reveal(Seq::filter);
    let hits = line_hits(entries, line, mode);
    if i == entries.len() - 1 {
        assert(entries.last() == entries[i]);
        assert(hits.last() == entries[i]);
        assert(hits[hits.len() - 1] == entries[i]);
    } else {
        lemma_line_hits_contains(entries.drop_last(), line, mode, i);
        let sub = line_hits(entries.drop_last(), line, mode);
        let j = choose|j: int| 0 <= j < sub.len() && sub[j] == entries[i];
        assert(hits[j] == entries[i]);
    }
}

proof fn lemma_scan_matches_push(
    entries: Seq<Entry>,
    lines: Seq<Seq<char>>,
    line: Seq<char>,
    mode: BreachedPasswordState,
)
    ensures
        scan_matches(entries, lines.push(line), mode) == scan_matches(entries, lines, mode)
            + line_hits(entries, line, mode),
{
    assert(lines.push(line).drop_last() =~= lines);
    assert(lines.push(line).last() == line);
}

/// Law: scanning lines chunk by chunk loses nothing — however the corpus is
/// split, the matches of the whole are the matches of the parts, in order.
/// In particular a trailing chunk smaller than the threshold contributes its
/// matches like any other.
pub proof fn lemma_scan_matches_concat(
    entries: Seq<Entry>,
    a: Seq<Seq<char>>,
    b: Seq<Seq<char>>,
    mode: BreachedPasswordState,
)
    ensures
        scan_matches(entries, a + b, mode) == scan_matches(entries, a, mode) + scan_matches(
            entries,
            b,
            mode,
        ),
    decreases b.len(),
{
    if b.len() == 0 {
        assert(a + b =~= a);
        assert(scan_matches(entries, a, mode) + scan_matches(entries, b, mode) =~= scan_matches(
            entries,
            a,
            mode,
        ));
    } else {
        lemma_scan_matches_concat(entries, a, b.drop_last(), mode);
        assert((a + b).drop_last() =~= a + b.drop_last());
        assert((a + b).last() == b.last());
        assert(scan_matches(entries, a, mode) + (scan_matches(entries, b.drop_last(), mode)
            + line_hits(entries, b.last(), mode)) =~= (scan_matches(entries, a, mode)
            + scan_matches(entries, b.drop_last(), mode)) + line_hits(entries, b.last(), mode));
    }
}

/// Law: if the corpus contains a line equal to an entry's digest, a
/// digest-mode scan reports that entry at least once.
pub proof fn lemma_digest_line_is_found(
    entries: Seq<Entry>,
    lines: Seq<Seq<char>>,
    i: int,
    j: int,
)
    requires
        0 <= i < entries.len(),
        0 <= j < lines.len(),
        lines[j] == entries[i].digest@,
        entries[i].digest@.len() == 40,
    ensures
        scan_matches(entries, lines, BreachedPasswordState::Sha1).contains(entries[i]),
    decreases lines.len(),
{
    let mode = BreachedPasswordState::Sha1;
    let all = scan_matches(entries, lines, mode);
    let front = scan_matches(entries, lines.drop_last(), mode);
    let hits = line_hits(entries, lines.last(), mode);
    if j == lines.len() - 1 {
        assert(lines.last().subrange(0, 40) =~= entries[i].digest@);
        assert(line_matches(lines.last(), entries[i], mode));
        lemma_line_hits_contains(entries, lines.last(), mode, i);
        let m = choose|m: int| 0 <= m < hits.len() && hits[m] == entries[i];
        assert(all[front.len() + m] == entries[i]);
    } else {
        lemma_digest_line_is_found(entries, lines.drop_last(), i, j);
        let m = choose|m: int| 0 <= m < front.len() && front[m] == entries[i];
        assert(all[m] == entries[i]);
    }
}

/// Whether one buffered line matches one entry, in the given mode.
fn entry_matches_line(line: &String, e: &Entry, mode: &BreachedPasswordState) -> (r: bool)
    ensures
        r == line_matches(line@, *e, *mode),
{
    match mode {
        BreachedPasswordState::Sha1 => {
            let n = line.as_str().unicode_len();
            if n < 40 {
                false
            } else {
                let head = line.as_str().substring_char(0, 40);
                str_eq(head, e.digest.as_str())
            }
        },
        BreachedPasswordState::Clear => str_eq(line.as_str(), e.pass.as_str()),
    }
}

/// Compares every buffered line against every entry and returns the matching
/// entries, line-major, duplicates kept. Cannot fail.
pub fn check_this_chunk(
    entries: &[Entry],
    chunk: &[String],
    breached_password_state: &BreachedPasswordState,
) -> (r: Vec<Entry>)
    ensures
        r@ == scan_matches(entries@, lines_view(chunk@), *breached_password_state),
{
    let mut breached: Vec<Entry> = Vec::new();
    let mut li: usize = 0;
    proof {
        assert(lines_view(chunk@.subrange(0, 0)) =~= Seq::<Seq<char>>::empty());
    }
    while li < chunk.len()
        invariant
            li <= chunk@.len(),
            breached@ == scan_matches(
                entries@,
                lines_view(chunk@.subrange(0, li as int)),
                *breached_password_state,
            ),
        decreases chunk@.len() - li,
    {
        let line = &chunk[li];
        let ghost base = breached@;
        let mut ei: usize = 0;
        while ei < entries.len()
            invariant
                ei <= entries@.len(),
                breached@ == base + line_hits(
                    entries@.subrange(0, ei as int),
                    line@,
                    *breached_password_state,
                ),
            decreases entries@.len() - ei,
        {
            proof {
                assert(entries@.subrange(0, ei as int + 1).drop_last() =~= entries@.subrange(
                    0,
                    ei as int,
                ));
                lemma_line_hits_push(
                    entries@.subrange(0, ei as int),
                    entries@[ei as int],
                    line@,
                    *breached_password_state,
                );
                assert(entries@.subrange(0, ei as int).push(entries@[ei as int])
                    =~= entries@.subrange(0, ei as int + 1));
            }
            if entry_matches_line(line, &entries[ei], breached_password_state) {
                breached.push(entries[ei].clone());
            }
            ei += 1;
        }
        proof {
            assert(entries@.subrange(0, entries@.len() as int) =~= entries@);
            assert(lines_view(chunk@.subrange(0, li as int)).push(line@) =~= lines_view(
                chunk@.subrange(0, li as int + 1),
            ));
            lemma_scan_matches_push(
                entries@,
                lines_view(chunk@.subrange(0, li as int)),
                line@,
                *breached_password_state,
            );
        }
        li += 1;
    }
    proof {
        assert(chunk@.subrange(0, chunk@.len() as int) =~= chunk@);
    }
    breached
}

/// The chunk-accumulate/drain state machine of an offline scan.
///
/// Lines are buffered until their approximate byte size
/// (`buffered lines * RECORD_WIDTH`) exceeds the chunk threshold; the buffer
/// is then drained: every buffered line is compared against every entry and
/// the matches are appended to the running result. `finish` drains whatever
/// remains, so a trailing chunk smaller than the threshold is never lost.
///
/// If the caller's line source fails mid-stream, the caller is expected to
/// drop the scanner and report the failure: no partial result is returned.
pub struct CorpusScanner {
    entries: Vec<Entry>,
    mode: BreachedPasswordState,
    chunk_threshold: usize,
    chunk: Vec<String>,
    found: Vec<Entry>,
    drained: Ghost<Seq<Seq<char>>>,
}

impl CorpusScanner {
    /// The entry collection the scan compares against.
    pub closed spec fn entries_seq(&self) -> Seq<Entry> {
        self.entries@
    }

    /// The comparison mode, fixed for the whole scan.
    pub closed spec fn mode_spec(&self) -> BreachedPasswordState {
        self.mode
    }

    /// The configured chunk threshold.
    pub closed spec fn threshold_spec(&self) -> usize {
        self.chunk_threshold
    }

    /// How many lines are currently buffered.
    pub closed spec fn buffered(&self) -> nat {
        self.chunk@.len()
    }

    /// Every line pushed so far, in order.
    pub closed spec fn lines(&self) -> Seq<Seq<char>> {
        self.drained@ + lines_view(self.chunk@)
    }

    /// Internal consistency: the matches found so far are exactly those of the
    /// already-drained lines, and the buffer never holds more than the
    /// threshold's worth of lines.
    pub closed spec fn wf(&self) -> bool {
        &&& self.found@ == scan_matches(self.entries@, self.drained@, self.mode)
        &&& self.chunk@.len() * RECORD_WIDTH <= self.chunk_threshold
        &&& self.chunk_threshold <= usize::MAX - RECORD_WIDTH
    }

    /// Starts a scan over the given entries in the given mode.
    pub fn new(entries: Vec<Entry>, mode: BreachedPasswordState, chunk_threshold: usize) -> (s:
        Self)
        requires
            chunk_threshold <= usize::MAX - RECORD_WIDTH,
        ensures
            s.wf(),
            s.entries_seq() == entries@,
            s.mode_spec() == mode,
            s.threshold_spec() == chunk_threshold,
            s.lines() == Seq::<Seq<char>>::empty(),
            s.buffered() == 0,
    {
        let s = CorpusScanner {
            entries,
            mode,
            chunk_threshold,
            chunk: Vec::new(),
            found: Vec::new(),
            drained: Ghost(Seq::empty()),
        };
        proof {
            assert(s.lines() =~= Seq::<Seq<char>>::empty());
        }
        s
    }

    /// Buffers one corpus line; drains the buffer if its approximate size now
    /// exceeds the threshold. Returns whether a drain happened, so the caller
    /// can advance its progress indicator at chunk boundaries. The buffered
    /// line count stays bounded by the threshold, independent of corpus size.
    pub fn push_line(&mut self, line: String) -> (drained: bool)
        requires
            old(self).wf(),
        ensures
            final(self).wf(),
            final(self).entries_seq() == old(self).entries_seq(),
            final(self).mode_spec() == old(self).mode_spec(),
            final(self).threshold_spec() == old(self).threshold_spec(),
            final(self).lines() == old(self).lines().push(line@),
            drained == ((old(self).buffered() + 1) * RECORD_WIDTH > old(self).threshold_spec()),
            drained ==> final(self).buffered() == 0,
            !drained ==> final(self).buffered() == old(self).buffered() + 1,
            final(self).buffered() * RECORD_WIDTH <= final(self).threshold_spec(),
    {
        let ghost lines0 = self.lines();
        self.chunk.push(line);
        proof {
            assert(lines_view(old(self).chunk@).push(line@) =~= lines_view(self.chunk@));
            assert(self.lines() =~= lines0.push(line@));
        }
        let drained = self.chunk.len() * RECORD_WIDTH > self.chunk_threshold;
        if drained {
            let mut more = check_this_chunk(
                self.entries.as_slice(),
                self.chunk.as_slice(),
                &self.mode,
            );
            let ghost buffered_lines = lines_view(self.chunk@);
            self.found.append(&mut more);
            self.chunk.clear();
            proof {
                lemma_scan_matches_concat(self.entries@, self.drained@, buffered_lines, self.mode);
            }
            self.drained = Ghost(self.drained@ + buffered_lines);
            proof {
                assert(self.lines() =~= self.drained@);
                assert(self.lines() =~= lines0.push(line@));
            }
        }
        drained
    }

    /// Ends the scan: compares any remaining buffered lines — the trailing
    /// chunk that never reached the threshold — and returns the matches of
    /// every line pushed since the scan began, in order, duplicates kept.
    pub fn finish(self) -> (r: Vec<Entry>)
        requires
            self.wf(),
        ensures
            r@ == scan_matches(self.entries_seq(), self.lines(), self.mode_spec()),
    {
        let mut s = self;
        let mut more = check_this_chunk(s.entries.as_slice(), s.chunk.as_slice(), &s.mode);
        s.found.append(&mut more);
        proof {
            lemma_scan_matches_concat(s.entries@, s.drained@, lines_view(s.chunk@), s.mode);
        }
        s.found
    }

    /// How many lines are buffered right now; what a memory bound observes.
    pub fn buffered_lines(&self) -> (n: usize)
        ensures
            n == self.buffered(),
    {
        self.chunk.len()
    }
}

} // verus!
