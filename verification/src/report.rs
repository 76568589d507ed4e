//! Rendering of findings as plain text lines. The caller decides where the
//! lines go (terminal or file) and writes them; the library only produces
//! them.

use vstd::prelude::*;
use vstd::string::*;

use crate::entries::display_spec;
use crate::entries::Entry;
use crate::groups::DigestGroup;
use crate::groups::DigestGroups;
use crate::scanner::lines_view;

verus! {

/// One indented report line naming an entry.
pub open spec fn bullet_line(e: Entry) -> Seq<char> {
    "   - "@ + display_spec(e)
}

/// The indented lines naming each entry of a list, in order.
pub open spec fn entry_bullet_lines(entries: Seq<Entry>) -> Seq<Seq<char>> {
    entries.map_values(|e: Entry| bullet_line(e))
}

/// The breached-entries report: a header and one line per breached entry,
/// or a single all-clear line when nothing was found.
pub open spec fn breached_report_spec(breached: Seq<Entry>) -> Seq<Seq<char>> {
    if breached.len() > 0 {
        seq![
            "The following entries have passwords contained in the list of breached passwords:"@,
        ] + entry_bullet_lines(breached)
    } else {
        seq!["I didn't find any of your passwords on the breached passwords list"@]
    }
}

fn concat2(a: &str, b: &str) -> (r: String)
    ensures
        r@ == a@ + b@,
{
    let mut s = String::from_str(a);
    s.append(b);
    proof {
        assert(s@ =~= a@ + b@);
    }
    s
}

fn concat3(a: &str, b: &str, c: &str) -> (r: String)
    ensures
        r@ == a@ + b@ + c@,
{
    let mut s = String::from_str(a);
    s.append(b);
    s.append(c);
    proof {
        assert(s@ =~= a@ + b@ + c@);
    }
    s
}

/// One indented line per entry of the list, in order.
fn push_entry_bullets(out: &mut Vec<String>, list: &[Entry])
    ensures
        lines_view(final(out)@) == lines_view(old(out)@) + entry_bullet_lines(list@),
{
    let ghost base = out@;
    let mut i: usize = 0;
    proof {
        assert(lines_view(out@) =~~= lines_view(base) + entry_bullet_lines(list@.subrange(0, 0)));
    }
    while i < list.len()
        invariant
            i <= list@.len(),
            lines_view(out@) == lines_view(base) + entry_bullet_lines(list@.subrange(0, i as int)),
        decreases list@.len() - i,
    {
        let e = &list[i];
        let ghost out0 = out@;
        let label = e.display_string();
        let line = concat2("   - ", label.as_str());
        proof {
            assert(*e == list@[i as int]);
            assert(line@ == bullet_line(list@[i as int]));
        }
        proof {
            assert(lines_view(out0.push(line)) =~~= lines_view(out0).push(line@));
            assert((lines_view(base) + entry_bullet_lines(list@.subrange(0, i as int))).push(line@)
                =~~= lines_view(base) + entry_bullet_lines(list@.subrange(0, i as int)).push(
                line@,
            ));
        }
        out.push(line);
        proof {
            assert(out@ == out0.push(line));
            assert(entry_bullet_lines(list@.subrange(0, i as int + 1)) =~= entry_bullet_lines(
                list@.subrange(0, i as int),
            ).push(bullet_line(list@[i as int])));
            assert(lines_view(out@) =~~= lines_view(base) + entry_bullet_lines(
                list@.subrange(0, i as int + 1),
            ));
        }
        i += 1;
    }
    proof {
        assert(list@.subrange(0, list@.len() as int) =~= list@);
    }
}

/// Renders the offline or online check's findings: which entries have
/// passwords on the breached-passwords list.
pub fn present_breached_entries(breached_entries: &[Entry]) -> (r: Vec<String>)
    ensures
        lines_view(r@) == breached_report_spec(breached_entries@),
{
    let mut out: Vec<String> = Vec::new();
    if !breached_entries.is_empty() {
        out.push(String::from_str(
            "The following entries have passwords contained in the list of breached passwords:",
        ));
        push_entry_bullets(&mut out, breached_entries);
        proof {
            assert(lines_view(out@) =~~= breached_report_spec(breached_entries@));
        }
    } else {
        out.push(String::from_str(
            "I didn't find any of your passwords on the breached passwords list",
        ));
        proof {
            assert(lines_view(out@) =~~= breached_report_spec(breached_entries@));
        }
    }
    out
}

/// The lines reporting one group of entries sharing a password.
pub open spec fn duplicate_group_lines(g: DigestGroup) -> Seq<Seq<char>> {
    seq!["The following entries have the same password:\n"@] + entry_bullet_lines(g.members@)
}

/// Whether any group shows password reuse.
pub open spec fn has_duplicates(groups: Seq<DigestGroup>) -> bool {
    exists|k: int| 0 <= k < groups.len() && (#[trigger] groups[k]).members@.len() > 1
}

/// The report lines of every group with more than one member, in order.
pub open spec fn duplicate_body_spec(groups: Seq<DigestGroup>) -> Seq<Seq<char>>
    decreases groups.len(),
{
    if groups.len() == 0 {
        Seq::empty()
    } else {
        duplicate_body_spec(groups.drop_last()) + if groups.last().members@.len() > 1 {
            duplicate_group_lines(groups.last())
        } else {
            Seq::empty()
        }
    }
}

/// The duplicate-passwords report: the lines of every group showing reuse,
/// then a warning if any did, else an all-clear line.
pub open spec fn duplicated_report_spec(groups: Seq<DigestGroup>) -> Seq<Seq<char>> {
    duplicate_body_spec(groups) + if has_duplicates(groups) {
        seq![
            "\nRe-using passwords for multiple accounts is potentially dangerous. Recommend you change passwords until you have no duplicates.\n--------------------------------\n"@,
        ]
    } else {
        seq!["\nGood job -- no password reuse detected!"@]
    }
}

/// Renders the duplicate-passwords report: any group with more than one
/// member is password reuse across the listed entries; a vault with no such
/// group is reported clean.
pub fn present_duplicated_entries(digest_map: &DigestGroups) -> (r: Vec<String>)
    ensures
        lines_view(r@) == duplicated_report_spec(digest_map.groups@),
{
    let groups = &digest_map.groups;
    let mut out: Vec<String> = Vec::new();
    let mut has_duplicated_entries = false;
    let mut i: usize = 0;
    proof {
        assert(lines_view(out@) =~~= duplicate_body_spec(groups@.subrange(0, 0)));
        assert(!has_duplicates(groups@.subrange(0, 0)));
    }
    while i < groups.len()
        invariant
            i <= groups@.len(),
            lines_view(out@) == duplicate_body_spec(groups@.subrange(0, i as int)),
            has_duplicated_entries == has_duplicates(groups@.subrange(0, i as int)),
        decreases groups@.len() - i,
    {
        let ghost pre = groups@.subrange(0, i as int);
        let ghost next = groups@.subrange(0, i as int + 1);
        proof {
            assert(next.drop_last() =~= pre);
            assert(next.last() == groups@[i as int]);
        }
        let g = &groups[i];
        if g.members.len() > 1 {
            out.push(String::from_str("The following entries have the same password:\n"));
            push_entry_bullets(&mut out, g.members.as_slice());
            has_duplicated_entries = true;
            proof {
                assert(lines_view(out@) =~~= duplicate_body_spec(next));
                assert(next[i as int].members@.len() > 1);
                assert(has_duplicates(next));
            }
        } else {
            proof {
                assert(lines_view(out@) =~~= duplicate_body_spec(next));
                assert(has_duplicates(next) == has_duplicates(pre)) by {
                    if has_duplicates(next) {
                        let k = choose|k: int|
                            0 <= k < next.len() && (#[trigger] next[k]).members@.len() > 1;
                        assert(k < pre.len() && pre[k].members@.len() > 1);
                    }
                    if has_duplicates(pre) {
                        let k = choose|k: int|
                            0 <= k < pre.len() && (#[trigger] pre[k]).members@.len() > 1;
                        assert(next[k].members@.len() > 1);
                    }
                }
            }
        }
        i += 1;
    }
    proof {
        assert(groups@.subrange(0, groups@.len() as int) =~= groups@);
    }
    if has_duplicated_entries {
        out.push(String::from_str(
            "\nRe-using passwords for multiple accounts is potentially dangerous. Recommend you change passwords until you have no duplicates.\n--------------------------------\n",
        ));
    } else {
        out.push(String::from_str("\nGood job -- no password reuse detected!"));
    }
    proof {
        assert(lines_view(out@) =~~= duplicated_report_spec(groups@));
    }
    out
}

/// The scoring library's verbal feedback on a weak password, as plain values.
pub struct WeakFeedback {
    pub warning: Option<String>,
    pub suggestions: Vec<String>,
}

/// A password-strength estimate: an overall score from 0 to 4 (anything below
/// 4 is reported as weak) and, for low scores, verbal feedback.
pub struct StrengthEstimate {
    pub score: u8,
    pub feedback: Option<WeakFeedback>,
}

/// Relies on `zxcvbn::zxcvbn`: the overall strength score is between 0 and 4;
/// a blank password yields an error rather than an estimate.
#[verifier::external_body]
fn strength_estimate(pass: &str, title: &str, username: &str) -> (r: Option<StrengthEstimate>)
    ensures
        r matches Some(est) ==> est.score <= 4,
{
    match zxcvbn::zxcvbn(pass, &[title, username]) {
        Ok(e) => {
            let feedback = e.feedback().as_ref().map(|f| WeakFeedback {
                warning: f.warning().map(|w| format!("{}", w)),
                suggestions: f.suggestions().iter().map(|s| format!("{}", s)).collect(),
            });
            Some(StrengthEstimate { score: e.score(), feedback })
        },
        Err(_) => None,
    }
}

/// One indented report line per string of a list, in order.
pub open spec fn string_bullet_lines(ss: Seq<Seq<char>>) -> Seq<Seq<char>> {
    ss.map_values(|s: Seq<char>| "   - "@ + s)
}

/// The lines rendering the feedback on one weak password.
pub open spec fn feedback_lines(fb: Option<WeakFeedback>) -> Seq<Seq<char>> {
    match fb {
        Some(f) => (match f.warning {
            Some(w) => seq!["Warning: "@ + w@ + "\n"@],
            None => Seq::<Seq<char>>::empty(),
        }) + seq!["Suggestions:"@] + string_bullet_lines(lines_view(f.suggestions@)),
        None => seq!["No suggestions."@],
    }
}

/// The lines reporting one entry's estimate: nothing for a strong password,
/// else a warning line, the feedback, and a separator.
pub open spec fn weak_entry_lines(e: Entry, est: StrengthEstimate) -> Seq<Seq<char>> {
    if est.score < 4 {
        seq!["Your password for "@ + display_spec(e) + " is weak."@] + feedback_lines(est.feedback)
            + seq!["\n--------------------------------"@]
    } else {
        Seq::<Seq<char>>::empty()
    }
}

/// The weak-password report body: for each entry, in order, the lines its
/// estimate calls for; an entry without an estimate contributes nothing.
pub open spec fn weak_body_spec(
    entries: Seq<Entry>,
    ests: Seq<Option<StrengthEstimate>>,
) -> Seq<Seq<char>>
    recommends
        entries.len() == ests.len(),
    decreases entries.len(),
{
    if entries.len() == 0 || ests.len() != entries.len() {
        Seq::empty()
    } else {
        weak_body_spec(entries.drop_last(), ests.drop_last()) + match ests.last() {
            Some(est) => weak_entry_lines(entries.last(), est),
            None => Seq::<Seq<char>>::empty(),
        }
    }
}

/// The whole weak-password report: a separator, then the body.
pub open spec fn weak_report_spec(
    entries: Seq<Entry>,
    ests: Seq<Option<StrengthEstimate>>,
) -> Seq<Seq<char>> {
    seq!["\n--------------------------------"@] + weak_body_spec(entries, ests)
}

/// One indented line per string of the list, in order.
fn push_string_bullets(out: &mut Vec<String>, list: &[String])
    ensures
        lines_view(final(out)@) == lines_view(old(out)@) + string_bullet_lines(lines_view(list@)),
{
    let ghost base = out@;
    let mut i: usize = 0;
    proof {
        assert(lines_view(out@) =~~= lines_view(base) + string_bullet_lines(
            lines_view(list@.subrange(0, 0)),
        ));
    }
    while i < list.len()
        invariant
            i <= list@.len(),
            lines_view(out@) == lines_view(base) + string_bullet_lines(
                lines_view(list@.subrange(0, i as int)),
            ),
        decreases list@.len() - i,
    {
        let s = &list[i];
        let ghost out0 = out@;
        let line = concat2("   - ", s.as_str());
        proof {
            assert(lines_view(out0.push(line)) =~~= lines_view(out0).push(line@));
            assert((lines_view(base) + string_bullet_lines(
                lines_view(list@.subrange(0, i as int)),
            )).push(line@) =~~= lines_view(base) + string_bullet_lines(
                lines_view(list@.subrange(0, i as int)),
            ).push(line@));
        }
        out.push(line);
        proof {
            assert(out@ == out0.push(line));
            assert(string_bullet_lines(lines_view(list@.subrange(0, i as int + 1)))
                =~= string_bullet_lines(lines_view(list@.subrange(0, i as int))).push(line@));
            assert(lines_view(out@) =~~= lines_view(base) + string_bullet_lines(
                lines_view(list@.subrange(0, i as int + 1)),
            ));
        }
        i += 1;
    }
    proof {
        assert(list@.subrange(0, list@.len() as int) =~= list@);
    }
}

/// Renders the feedback part of a weak-password report.
fn feedback_report(fb: &Option<WeakFeedback>) -> (r: Vec<String>)
    ensures
        lines_view(r@) == feedback_lines(*fb),
{
    let mut out: Vec<String> = Vec::new();
    match fb {
        Some(f) => {
            match &f.warning {
                Some(w) => {
                    out.push(concat3("Warning: ", w.as_str(), "\n"));
                },
                None => {},
            }
            out.push(String::from_str("Suggestions:"));
            push_string_bullets(&mut out, f.suggestions.as_slice());
            proof {
                assert(lines_view(out@) =~~= feedback_lines(*fb));
            }
        },
        None => {
            out.push(String::from_str("No suggestions."));
            proof {
                assert(lines_view(out@) =~~= feedback_lines(*fb));
            }
        },
    }
    out
}

/// Renders the report lines one entry's estimate calls for.
pub fn weak_password_lines(e: &Entry, est: &StrengthEstimate) -> (r: Vec<String>)
    ensures
        lines_view(r@) == weak_entry_lines(*e, *est),
{
    let mut out: Vec<String> = Vec::new();
    if est.score < 4 {
        let label = e.display_string();
        let head = concat3("Your password for ", label.as_str(), " is weak.");
        let ghost h = head@;
        out.push(head);
        let mut fb_lines = feedback_report(&est.feedback);
        proof {
            assert(lines_view(out@ + fb_lines@) =~~= lines_view(out@) + lines_view(fb_lines@));
        }
        out.append(&mut fb_lines);
        proof {
            assert(lines_view(out@) =~~= seq![h] + feedback_lines(est.feedback));
        }
        let ghost out1 = out@;
        let sep = String::from_str("\n--------------------------------");
        let ghost sv = sep@;
        out.push(sep);
        proof {
            assert(lines_view(out@) =~~= lines_view(out1).push(sv));
            assert((seq![h] + feedback_lines(est.feedback)).push(sv) =~~= seq![h] + feedback_lines(
                est.feedback,
            ) + seq![sv]);
            assert(lines_view(out@) =~~= weak_entry_lines(*e, *est));
        }
    }
    proof {
        assert(lines_view(out@) =~~= weak_entry_lines(*e, *est));
    }
    out
}

/// Estimates every entry's password strength and renders the report: each
/// entry whose score falls below 4 is reported weak, with the estimate's
/// feedback. The scores themselves come from the scoring library; whatever it
/// returns, the report follows it line for line.
pub fn check_for_and_display_weak_passwords(entries: &[Entry]) -> (r: Vec<String>)
    ensures
        exists|ests: Seq<Option<StrengthEstimate>>|
            ests.len() == entries@.len() && lines_view(r@) == weak_report_spec(entries@, ests),
{
    let mut out: Vec<String> = Vec::new();
    out.push(String::from_str("\n--------------------------------"));
    let ghost mut ests: Seq<Option<StrengthEstimate>> = Seq::empty();
    let mut i: usize = 0;
    proof {
        assert(lines_view(out@) =~~= weak_report_spec(entries@.subrange(0, 0), ests));
    }
    while i < entries.len()
        invariant
            i <= entries@.len(),
            ests.len() == i,
            lines_view(out@) == weak_report_spec(entries@.subrange(0, i as int), ests),
        decreases entries@.len() - i,
    {
        let e = &entries[i];
        let ghost ests0 = ests;
        let ghost out0 = out@;
        let est = strength_estimate(e.pass.as_str(), e.title.as_str(), e.username.as_str());
        match est {
            Some(est) => {
                let mut lines = weak_password_lines(e, &est);
                proof {
                    ests = ests0.push(Some(est));
                    assert(lines_view(out0 + lines@) =~~= lines_view(out0) + lines_view(lines@));
                }
                out.append(&mut lines);
            },
            None => {
                proof {
                    ests = ests0.push(None);
                }
            },
        }
        proof {
            let pre = entries@.subrange(0, i as int);
            let next = entries@.subrange(0, i as int + 1);
            assert(next.drop_last() =~= pre);
            assert(ests.drop_last() =~= ests0);
            assert(next.last() == entries@[i as int]);
            assert(weak_body_spec(next, ests) == weak_body_spec(pre, ests0) + match ests.last() {
                Some(es) => weak_entry_lines(entries@[i as int], es),
                None => Seq::<Seq<char>>::empty(),
            });
            assert(lines_view(out@) =~~= weak_report_spec(next, ests));
        }
        i += 1;
    }
    proof {
        assert(entries@.subrange(0, entries@.len() as int) =~= entries@);
        assert(lines_view(out@) == weak_report_spec(entries@, ests));
    }
    out
}

} // verus!
