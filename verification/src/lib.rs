//! Auditing of a password vault: grouping entries by password digest,
//! scanning an arbitrarily large breach corpus in bounded-size chunks,
//! and parsing k-anonymity range-lookup responses.

use vstd::prelude::*;

pub mod digest;
pub mod entries;
pub mod groups;
pub mod online;
pub mod report;
pub mod scanner;
pub mod text;

pub use crate::groups::make_digest_map;
pub use crate::groups::DigestGroup;
pub use crate::groups::DigestGroups;
pub use crate::online::collect_breached_entries;
pub use crate::online::count_appearances;
pub use crate::online::online_range_parts;
pub use crate::online::split_response_lines;
pub use crate::report::check_for_and_display_weak_passwords;
pub use crate::report::present_breached_entries;
pub use crate::report::present_duplicated_entries;
pub use crate::scanner::check_this_chunk;
pub use crate::scanner::CorpusScanner;
pub use crate::scanner::CHUNK_SIZE;

verus! {

/// Where report lines are to be sent: the terminal, or a named file.
/// The writing itself is done by the caller; the library only carries the choice.
#[derive(Debug)]
pub enum Destination {
    Terminal,
    FilePath(String),
}

/// Whether a progress indicator should be shown during an offline scan.
/// Progress reporting never affects matching results.
#[derive(Debug, PartialEq, Clone)]
pub enum VisibilityPreference {
    Show,
    Hide,
}

/// How a corpus line is compared against an entry: `Sha1` compares the first
/// 40 characters of the line against the entry's digest; `Clear` compares the
/// whole line against the entry's password. Both are case-sensitive.
#[derive(Debug, PartialEq, Clone)]
pub enum BreachedPasswordState {
    Sha1,
    Clear,
}

} // verus!
