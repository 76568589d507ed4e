//! The online exposure check's computational half: splitting a digest for a
//! k-anonymity range lookup, and parsing the newline-delimited
//! `SUFFIX:COUNT` response body. The network round-trip itself belongs to the
//! caller.

use vstd::prelude::*;
use vstd::string::*;

use crate::digest::sha1_hex;
use crate::digest::sha1_hex_digest;
use crate::entries::Entry;
use crate::scanner::lines_view;
use crate::text::str_eq;

verus! {

/// The position of the first newline in `s`, or `s.len()` if there is none.
pub open spec fn first_newline(s: Seq<char>) -> nat
    decreases s.len(),
{
    if s.len() == 0 {
        0
    } else if s[0] == '\n' {
        0
    } else {
        1 + first_newline(s.drop_first())
    }
}

proof fn lemma_first_newline(s: Seq<char>)
    ensures
        first_newline(s) <= s.len(),
        forall|k: int| 0 <= k < first_newline(s) ==> s[k] != '\n',
        first_newline(s) < s.len() ==> s[first_newline(s) as int] == '\n',
    decreases s.len(),
{
    if s.len() > 0 && s[0] != '\n' {
        let t = s.drop_first();
        lemma_first_newline(t);
        assert(forall|k: int| 1 <= k < s.len() ==> s[k] == t[k - 1]);
    }
}

proof fn lemma_first_newline_is(s: Seq<char>, m: nat)
    requires
        m <= s.len(),
        forall|k: int| 0 <= k < m ==> s[k] != '\n',
        m < s.len() ==> s[m as int] == '\n',
    ensures
        first_newline(s) == m,
    decreases s.len(),
{
    if s.len() > 0 && s[0] != '\n' {
        assert(m > 0) by {
            if m == 0 {
                assert(s[0] == '\n');
            }
        }
        let t = s.drop_first();
        assert(forall|k: int| 0 <= k < m - 1 ==> t[k] == s[k + 1] && t[k] != '\n');
        lemma_first_newline_is(t, (m - 1) as nat);
    }
}

/// One trailing carriage return is not part of a record.
pub open spec fn strip_cr(s: Seq<char>) -> Seq<char> {
    if s.len() > 0 && s.last() == '\r' {
        s.drop_last()
    } else {
        s
    }
}

/// The records of a newline-delimited text: split at every newline, one
/// trailing carriage return per record dropped, no empty trailing record
/// after a final newline.
pub open spec fn split_lines_spec(s: Seq<char>) -> Seq<Seq<char>>
    decreases s.len(),
{
    if s.len() == 0 {
        Seq::empty()
    } else {
        let i = first_newline(s);
        if i >= s.len() {
            seq![strip_cr(s)]
        } else {
            seq![strip_cr(s.subrange(0, i as int))] + split_lines_spec(
                s.subrange(i as int + 1, s.len() as int),
            )
        }
    }
}

/// The records not yet collected: those of the body from `start` on, or none
/// once the whole body is consumed.
spec fn remaining_lines(body: Seq<char>, start: int) -> Seq<Seq<char>> {
    if start <= body.len() {
        split_lines_spec(body.subrange(start, body.len() as int))
    } else {
        Seq::empty()
    }
}

/// Splits a response body into its records.
pub fn split_response_lines(body: &str) -> (r: Vec<String>)
    ensures
        lines_view(r@) == split_lines_spec(body@),
{
    let n = body.unicode_len();
    let mut out: Vec<String> = Vec::new();
    let mut start: usize = 0;
    proof {
        assert(body@.subrange(0, n as int) =~= body@);
        assert(lines_view(out@) + remaining_lines(body@, 0) =~= split_lines_spec(body@));
    }
    while start < n
        invariant
            n == body@.len(),
            start <= n,
            lines_view(out@) + remaining_lines(body@, start as int) == split_lines_spec(body@),
        decreases n - start,
    {
        let ghost rest = body@.subrange(start as int, n as int);
        let ghost out0 = out@;
        let mut end: usize = start;
        loop
            invariant_except_break
                start <= end <= n,
                n == body@.len(),
                forall|k: int| start <= k < end ==> body@[k] != '\n',
            ensures
                start <= end <= n,
                forall|k: int| start <= k < end ==> body@[k] != '\n',
                end < n ==> body@[end as int] == '\n',
            decreases n - end,
        {
            if end >= n {
                break;
            }
            if body.get_char(end) == '\n' {
                break;
            }
            end += 1;
        }
        proof {
            assert(forall|k: int| 0 <= k < end - start ==> rest[k] == body@[start + k]);
            lemma_first_newline_is(rest, (end - start) as nat);
        }
        let line_end = if end > start && body.get_char(end - 1) == '\r' {
            end - 1
        } else {
            end
        };
        let seg = body.substring_char(start, line_end);
        out.push(String::from_str(seg));
        proof {
            let head = rest.subrange(0, (end - start) as int);
            assert(head =~= body@.subrange(start as int, end as int));
            assert(strip_cr(head) =~= body@.subrange(start as int, line_end as int));
            assert(seg@ == strip_cr(head));
            assert(lines_view(out@) =~= lines_view(out0).push(seg@));
            if end < n {
                assert(rest.subrange((end - start) as int + 1, rest.len() as int) =~= body@.subrange(
                    end as int + 1,
                    n as int,
                ));
                assert(split_lines_spec(rest) == seq![seg@] + remaining_lines(
                    body@,
                    end as int + 1,
                ));
            } else {
                assert(head =~= rest);
                assert(split_lines_spec(rest) == seq![seg@]);
                assert(remaining_lines(body@, n as int) == Seq::<Seq<char>>::empty()) by {
                    assert(body@.subrange(n as int, n as int).len() == 0);
                }
                assert(split_lines_spec(rest) =~= seq![seg@] + remaining_lines(body@, n as int));
            }
        }
        if end < n {
            proof {
                assert(lines_view(out@) + remaining_lines(body@, end as int + 1) =~= lines_view(
                    out0,
                ) + split_lines_spec(rest));
            }
            start = end + 1;
        } else {
            proof {
                assert(lines_view(out@) + remaining_lines(body@, n as int) =~= lines_view(out0)
                    + split_lines_spec(rest));
            }
            start = n;
        }
    }
    proof {
        if start == n {
            assert(body@.subrange(n as int, n as int).len() == 0);
            assert(remaining_lines(body@, n as int) =~= Seq::<Seq<char>>::empty());
        }
        assert(lines_view(out@) =~= split_lines_spec(body@));
    }
    out
}

pub open spec fn is_dec_digit(c: char) -> bool {
    48 <= c as u32 <= 57
}

pub open spec fn dec_digit_val(c: char) -> nat
    recommends
        is_dec_digit(c),
{
    if is_dec_digit(c) {
        (c as u32 - 48) as nat
    } else {
        0
    }
}

/// The value of a string of decimal digits, most significant first.
pub open spec fn dec_value(s: Seq<char>) -> nat
    decreases s.len(),
{
    if s.len() == 0 {
        0
    } else {
        dec_value(s.drop_last()) * 10 + dec_digit_val(s.last())
    }
}

/// A nonempty string of decimal digits and nothing else.
pub open spec fn all_dec_digits(s: Seq<char>) -> bool {
    s.len() > 0 && forall|i: int| 0 <= i < s.len() ==> is_dec_digit(#[trigger] s[i])
}

proof fn lemma_dec_value_prefix_le(s: Seq<char>, i: int, j: int)
    requires
        0 <= i <= j <= s.len(),
    ensures
        dec_value(s.subrange(0, i)) <= dec_value(s.subrange(0, j)),
    decreases j - i,
{
    if i < j {
        lemma_dec_value_prefix_le(s, i, j - 1);
        let p = s.subrange(0, j - 1);
        assert(s.subrange(0, j).drop_last() =~= p);
        assert(dec_value(s.subrange(0, j)) == dec_value(p) * 10 + dec_digit_val(s[j - 1]));
        assert(dec_value(p) * 10 >= dec_value(p)) by (nonlinear_arith);
    }
}

/// Reads an unsigned decimal integer. Returns the value exactly when the
/// string is one or more decimal digits, and nothing else, whose value fits
/// the machine word; returns nothing otherwise.
pub fn parse_count(s: &str) -> (r: Option<usize>)
    ensures
        r matches Some(v) <==> (all_dec_digits(s@) && dec_value(s@) <= usize::MAX),
        r matches Some(v) ==> v == dec_value(s@),
{
    let n = s.unicode_len();
    if n == 0 {
        return None;
    }
    let mut acc: usize = 0;
    let mut i: usize = 0;
    proof {
        assert(s@.subrange(0, 0) =~= Seq::<char>::empty());
    }
    while i < n
        invariant
            i <= n,
            n == s@.len(),
            n > 0,
            forall|j: int| 0 <= j < i ==> is_dec_digit(#[trigger] s@[j]),
            acc == dec_value(s@.subrange(0, i as int)),
        decreases n - i,
    {
        let c = s.get_char(i);
        let v = c as u32;
        if v < 48 || v > 57 {
            return None;
        }
        let d = (v - 48) as usize;
        proof {
            assert(s@.subrange(0, i as int + 1).drop_last() =~= s@.subrange(0, i as int));
            assert(s@.subrange(0, i as int + 1).last() == s@[i as int]);
        }
        let next = match acc.checked_mul(10) {
            Some(m) => m.checked_add(d),
            None => None,
        };
        match next {
            Some(m) => {
                acc = m;
            },
            None => {
                proof {
                    assert(dec_value(s@.subrange(0, i as int + 1)) > usize::MAX);
                    lemma_dec_value_prefix_le(s@, i as int + 1, n as int);
                    assert(s@.subrange(0, n as int) =~= s@);
                }
                return None;
            },
        }
        i += 1;
    }
    proof {
        assert(s@.subrange(0, n as int) =~= s@);
    }
    Some(acc)
}

/// What one response record contributes for a given local suffix: nothing if
/// the record is for another suffix (or too short to hold one); otherwise the
/// record's count, read from the text after the separator, or one when that
/// text is not a readable count — a parse failure must not be mistaken for
/// zero appearances.
pub open spec fn line_count_for_suffix(line: Seq<char>, suffix: Seq<char>) -> Option<nat> {
    if line.len() >= 35 && line.subrange(0, 35) == suffix {
        if line.len() >= 37 && all_dec_digits(line.subrange(36, line.len() as int)) && dec_value(
            line.subrange(36, line.len() as int),
        ) <= usize::MAX {
            Some(dec_value(line.subrange(36, line.len() as int)))
        } else {
            Some(1)
        }
    } else {
        None
    }
}

/// The appearance count reported by a response: that of the first record
/// carrying the local suffix, or zero if no record does.
pub open spec fn response_appearances(lines: Seq<Seq<char>>, suffix: Seq<char>) -> nat
    decreases lines.len(),
{
    if lines.len() == 0 {
        0
    } else {
        match line_count_for_suffix(lines[0], suffix) {
            Some(c) => c,
            None => response_appearances(lines.drop_first(), suffix),
        }
    }
}

proof fn lemma_response_appearances_skip(lines: Seq<Seq<char>>, suffix: Seq<char>, j: int)
    requires
        0 <= j <= lines.len(),
        forall|k: int| 0 <= k < j ==> line_count_for_suffix(#[trigger] lines[k], suffix) is None,
    ensures
        response_appearances(lines, suffix) == response_appearances(lines.skip(j), suffix),
    decreases j,
{
    if j > 0 {
        assert(line_count_for_suffix(lines[0], suffix) is None);
        assert(forall|k: int|
            0 <= k < j - 1 ==> line_count_for_suffix(
                #[trigger] lines.drop_first()[k],
                suffix,
            ) is None);
        lemma_response_appearances_skip(lines.drop_first(), suffix, j - 1);
        assert(lines.drop_first().skip(j - 1) =~= lines.skip(j));
    } else {
        assert(lines.skip(0) =~= lines);
    }
}

/// Finds, in the split response records, the appearance count for the local
/// suffix: the count of the first record carrying it, or zero if none does.
pub fn count_appearances(response_lines: &Vec<String>, suffix: &str) -> (r: usize)
    ensures
        r == response_appearances(lines_view(response_lines@), suffix@),
{
    let ghost all = lines_view(response_lines@);
    let mut i: usize = 0;
    while i < response_lines.len()
        invariant
            i <= response_lines@.len(),
            all == lines_view(response_lines@),
            forall|k: int| 0 <= k < i ==> line_count_for_suffix(#[trigger] all[k], suffix@) is None,
        decreases response_lines@.len() - i,
    {
        let line = &response_lines[i];
        let n = line.as_str().unicode_len();
        if n >= 35 {
            let head = line.as_str().substring_char(0, 35);
            if str_eq(head, suffix) {
                proof {
                    assert(line@.subrange(0, 35) == suffix@);
                    lemma_response_appearances_skip(all, suffix@, i as int);
                    assert(all.skip(i as int)[0] == all[i as int]);
                    assert(all[i as int] == line@);
                }
                if n >= 37 {
                    let tail = line.as_str().substring_char(36, n);
                    match parse_count(tail) {
                        Some(c) => {
                            return c;
                        },
                        None => {
                            return 1;
                        },
                    }
                } else {
                    return 1;
                }
            }
        }
        proof {
            assert(line_count_for_suffix(all[i as int], suffix@) is None) by {
                assert(all[i as int] == line@);
                if line@.len() >= 35 {
                    assert(line@.subrange(0, 35) != suffix@);
                }
            }
        }
        i += 1;
    }
    proof {
        lemma_response_appearances_skip(all, suffix@, all.len() as int);
        assert(all.skip(all.len() as int).len() == 0);
    }
    0
}

/// The digest halves of a k-anonymity range lookup: the 5-character prefix
/// sent to the service and the 35-character suffix compared locally.
pub fn hibp_prefix_and_suffix(digest: &str) -> (r: (String, String))
    requires
        digest@.len() == 40,
    ensures
        r.0@ == digest@.subrange(0, 5),
        r.1@ == digest@.subrange(5, 40),
{
    let p = digest.substring_char(0, 5);
    let s = digest.substring_char(5, 40);
    (String::from_str(p), String::from_str(s))
}

/// Computes the range-lookup halves straight from a password: the first five
/// and the last thirty-five characters of its uppercase hex SHA-1 digest.
pub fn online_range_parts(pass: &str) -> (r: (String, String))
    ensures
        r.0@ == sha1_hex(pass@).subrange(0, 5),
        r.1@ == sha1_hex(pass@).subrange(5, 40),
{
    let d = sha1_hex_digest(pass);
    hibp_prefix_and_suffix(d.as_str())
}

/// The entries whose appearance count is positive, in vault order.
pub open spec fn breached_by_counts(entries: Seq<Entry>, counts: Seq<usize>) -> Seq<Entry>
    recommends
        entries.len() == counts.len(),
    decreases entries.len(),
{
    if entries.len() == 0 {
        Seq::empty()
    } else {
        breached_by_counts(entries.drop_last(), counts.drop_last()) + if counts.len() > 0
            && counts.last() > 0 {
            seq![entries.last()]
        } else {
            Seq::empty()
        }
    }
}

/// The decision step of the online check: given each entry's appearance
/// count, an entry is breached exactly when its count is positive.
pub fn collect_breached_entries(entries: &[Entry], counts: &[usize]) -> (r: Vec<Entry>)
    requires
        entries@.len() == counts@.len(),
    ensures
        r@ == breached_by_counts(entries@, counts@),
{
    let mut breached: Vec<Entry> = Vec::new();
    let mut i: usize = 0;
    proof {
        assert(breached_by_counts(entries@.subrange(0, 0), counts@.subrange(0, 0))
            =~= Seq::<Entry>::empty());
    }
    while i < entries.len()
        invariant
            i <= entries@.len(),
            entries@.len() == counts@.len(),
            breached@ == breached_by_counts(
                entries@.subrange(0, i as int),
                counts@.subrange(0, i as int),
            ),
        decreases entries@.len() - i,
    {
        proof {
            let ep = entries@.subrange(0, i as int + 1);
            let cp = counts@.subrange(0, i as int + 1);
            assert(ep.drop_last() =~= entries@.subrange(0, i as int));
            assert(cp.drop_last() =~= counts@.subrange(0, i as int));
            assert(ep.last() == entries@[i as int]);
            assert(cp.last() == counts@[i as int]);
        }
        if counts[i] > 0 {
            breached.push(entries[i].clone());
            proof {
                assert(breached@ =~= breached_by_counts(
                    entries@.subrange(0, i as int),
                    counts@.subrange(0, i as int),
                ) + seq![entries@[i as int]]);
            }
        }
        i += 1;
    }
    proof {
        assert(entries@.subrange(0, entries@.len() as int) =~= entries@);
        assert(counts@.subrange(0, counts@.len() as int) =~= counts@);
    }
    breached
}

} // verus!
