//! Duplicate-password detection: a mapping from password digest to the ordered
//! list of entries sharing it, built fresh per audit run.

use vstd::prelude::*;

use crate::entries::Entry;

verus! {

/// One group: a digest and, in vault order, every entry whose password has it.
/// A group with more than one member indicates password reuse.
pub struct DigestGroup {
    pub digest: String,
    pub members: Vec<Entry>,
}

/// The mapping from digest to the entries producing it. Every entry of the
/// vault appears in exactly one group: the one keyed by its own digest.
pub struct DigestGroups {
    pub groups: Vec<DigestGroup>,
}

/// The entries carrying a given digest, in vault order.
pub open spec fn entries_with_digest(entries: Seq<Entry>, d: Seq<char>) -> Seq<Entry> {
    entries.filter(|e: Entry| e.digest@ == d)
}

/// The digests occurring in the vault, each once, in order of first appearance.
pub open spec fn distinct_digests(entries: Seq<Entry>) -> Seq<Seq<char>>
    decreases entries.len(),
{
    if entries.len() == 0 {
        Seq::empty()
    } else {
        let prefix = distinct_digests(entries.drop_last());
        if prefix.contains(entries.last().digest@) {
            prefix
        } else {
            prefix.push(entries.last().digest@)
        }
    }
}

pub open spec fn group_digests(groups: Seq<DigestGroup>) -> Seq<Seq<char>> {
    groups.map_values(|g: DigestGroup| g.digest@)
}

/// What `make_digest_map` returns: one group per distinct digest, in order of
/// first appearance, each holding exactly the entries carrying its digest.
pub open spec fn groups_match(entries: Seq<Entry>, groups: Seq<DigestGroup>) -> bool {
    &&& group_digests(groups) == distinct_digests(entries)
    &&& forall|k: int|
        0 <= k < groups.len() ==> (#[trigger] groups[k]).members@ == entries_with_digest(
            entries,
            groups[k].digest@,
        )
}

proof fn lemma_entries_with_digest_push(s: Seq<Entry>, x: Entry, d: Seq<char>)
    ensures
        entries_with_digest(s.push(x), d) == if x.digest@ == d {
            entries_with_digest(s, d).push(x)
        } else {
            entries_with_digest(s, d)
        },
{
    reveal(Seq::filter);
    assert(s.push(x).drop_last() =~= s);
    assert(s.push(x).last() == x);
}

proof fn lemma_entries_with_digest_none(s: Seq<Entry>, d: Seq<char>)
    requires
        forall|m: int| 0 <= m < s.len() ==> (#[trigger] s[m]).digest@ != d,
    ensures
        entries_with_digest(s, d) == Seq::<Entry>::empty(),
    decreases s.len(),
{
    reveal(Seq::filter);
    if s.len() > 0 {
        assert(forall|m: int|
            0 <= m < s.drop_last().len() ==> (#[trigger] s.drop_last()[m]).digest@ != d);
        lemma_entries_with_digest_none(s.drop_last(), d);
        assert(s.last().digest@ != d);
    }
}

proof fn lemma_distinct_digests_contains(entries: Seq<Entry>, d: Seq<char>)
    ensures
        distinct_digests(entries).contains(d) <==> exists|i: int|
            0 <= i < entries.len() && (#[trigger] entries[i]).digest@ == d,
    decreases entries.len(),
{
    if entries.len() > 0 {
        let prefix = entries.drop_last();
        let dd = distinct_digests(entries);
        let dp = distinct_digests(prefix);
        lemma_distinct_digests_contains(prefix, d);
        if entries.last().digest@ == d {
            assert(entries[entries.len() - 1].digest@ == d);
            if !dp.contains(d) {
                assert(dd[dp.len() as int] == d);
                assert(dd.contains(d));
            }
        }
        if dd.contains(d) {
            let j = choose|j: int| 0 <= j < dd.len() && dd[j] == d;
            if j < dp.len() {
                assert(dp[j] == d);
                assert(dp.contains(d));
            } else {
                assert(entries[entries.len() - 1].digest@ == d);
            }
        }
        if exists|i: int| 0 <= i < entries.len() && (#[trigger] entries[i]).digest@ == d {
            let i = choose|i: int| 0 <= i < entries.len() && (#[trigger] entries[i]).digest@ == d;
            if i < entries.len() - 1 {
                assert(prefix[i].digest@ == d);
                assert(dp.contains(d));
                let j = choose|j: int| 0 <= j < dp.len() && dp[j] == d;
                assert(dd[j] == d);
                assert(dd.contains(d));
            }
        }
    }
}

proof fn lemma_distinct_digests_no_dup(entries: Seq<Entry>)
    ensures
        forall|k1: int, k2: int|
            0 <= k1 < k2 < distinct_digests(entries).len() ==> distinct_digests(entries)[k1]
                != distinct_digests(entries)[k2],
    decreases entries.len(),
{
    if entries.len() > 0 {
        lemma_distinct_digests_no_dup(entries.drop_last());
        let prefix = distinct_digests(entries.drop_last());
        if !prefix.contains(entries.last().digest@) {
            assert forall|k1: int, k2: int|
                0 <= k1 < k2 < distinct_digests(entries).len() implies distinct_digests(
                entries,
            )[k1] != distinct_digests(entries)[k2] by {
                if k2 == prefix.len() {
                    assert(prefix[k1] != entries.last().digest@);
                }
            }
        }
    }
}

/// Law: grouping partitions the vault by digest.
/// Every entry appears in a group carrying its own digest; every member of a
/// group carries that group's digest (so entries with distinct digests never
/// share a group); and no two groups share a digest (so the group holding a
/// given entry is unique, and entries with equal digests land in that one
/// shared group).
pub proof fn lemma_grouping_partitions(entries: Seq<Entry>, groups: Seq<DigestGroup>)
    requires
        groups_match(entries, groups),
    ensures
        forall|i: int|
            #![trigger entries[i]]
            0 <= i < entries.len() ==> exists|k: int|
                0 <= k < groups.len() && (#[trigger] groups[k]).digest@ == entries[i].digest@
                    && groups[k].members@.contains(entries[i]),
        forall|k: int, m: int|
            0 <= k < groups.len() && 0 <= m < groups[k].members@.len() ==> (
            #[trigger] groups[k].members@[m]).digest@ == groups[k].digest@,
        forall|k1: int, k2: int|
            0 <= k1 < k2 < groups.len() ==> groups[k1].digest@ != groups[k2].digest@,
{
    lemma_distinct_digests_no_dup(entries);
    assert forall|k1: int, k2: int| 0 <= k1 < k2 < groups.len() implies groups[k1].digest@
        != groups[k2].digest@ by {
        assert(group_digests(groups)[k1] == groups[k1].digest@);
        assert(group_digests(groups)[k2] == groups[k2].digest@);
    }
    assert forall|k: int, m: int|
        0 <= k < groups.len() && 0 <= m < groups[k].members@.len() implies (
    #[trigger] groups[k].members@[m]).digest@ == groups[k].digest@ by {
        let pred = |e: Entry| e.digest@ == groups[k].digest@;
        entries.lemma_filter_pred(pred, m);
    }
    assert forall|i: int| #![trigger entries[i]] 0 <= i < entries.len() implies exists|k: int|
        0 <= k < groups.len() && (#[trigger] groups[k]).digest@ == entries[i].digest@
            && groups[k].members@.contains(entries[i]) by {
        lemma_distinct_digests_contains(entries, entries[i].digest@);
        assert(distinct_digests(entries).contains(entries[i].digest@));
        let k = choose|k: int|
            0 <= k < group_digests(groups).len() && group_digests(groups)[k] == entries[i].digest@;
        assert(groups[k].digest@ == entries[i].digest@);
        let pred = |e: Entry| e.digest@ == groups[k].digest@;
        entries.lemma_filter_contains(pred, i);
        assert(groups[k].members@.contains(entries[i]));
    }
}

/// Builds the digest-to-entries mapping: for each entry in vault order, append
/// it to the group keyed by its digest, creating the group at first sight of
/// that digest. Cannot fail.
pub fn make_digest_map(entries: &[Entry]) -> (r: DigestGroups)
    ensures
        groups_match(entries@, r.groups@),
{
    let mut groups: Vec<DigestGroup> = Vec::new();
    let mut i: usize = 0;
    proof {
        assert(entries@.subrange(0, 0) =~= Seq::<Entry>::empty());
        assert(group_digests(groups@) =~= distinct_digests(entries@.subrange(0, 0)));
    }
    while i < entries.len()
        invariant
            i <= entries@.len(),
            groups_match(entries@.subrange(0, i as int), groups@),
        decreases entries@.len() - i,
    {
        let e = &entries[i];
        let ghost prefix = entries@.subrange(0, i as int);
        let ghost gs0 = groups@;
        let mut j: usize = 0;
        let mut found: Option<usize> = None;
        while j < groups.len()
            invariant
                j <= groups@.len(),
                groups@ == gs0,
                found is None ==> forall|jj: int|
                    0 <= jj < j ==> (#[trigger] groups@[jj]).digest@ != e.digest@,
                found matches Some(f) ==> f < groups@.len() && groups@[f as int].digest@
                    == e.digest@,
            decreases groups@.len() - j,
        {
            if found.is_none() && groups[j].digest == e.digest {
                found = Some(j);
            }
            j += 1;
        }
        proof {
            assert(entries@.subrange(0, i as int + 1).drop_last() =~= prefix);
            assert(entries@.subrange(0, i as int + 1).last() == entries@[i as int]);
            lemma_distinct_digests_no_dup(prefix);
        }
        match found {
            Some(j) => {
                let mut g = groups.remove(j);
                g.members.push(e.clone());
                let ghost gnew = g;
                groups.insert(j, g);
                proof {
                    let next = entries@.subrange(0, i as int + 1);
                    assert(next =~= prefix.push(entries@[i as int]));
                    assert(group_digests(gs0)[j as int] == gs0[j as int].digest@);
                    assert(distinct_digests(prefix).contains(e.digest@));
                    assert(distinct_digests(next) == distinct_digests(prefix));
                    assert(groups@ =~= gs0.update(j as int, gnew));
                    assert(group_digests(groups@) =~= group_digests(gs0));
                    assert forall|k: int|
                        0 <= k < groups@.len() implies (#[trigger] groups@[k]).members@
                        == entries_with_digest(next, groups@[k].digest@) by {
                        let d = groups@[k].digest@;
                        let x = entries@[i as int];
                        lemma_entries_with_digest_push(prefix, x, d);
                        assert(prefix.push(x) == next);
                        if k != j {
                            assert(groups@[k] == gs0[k]);
                            assert(group_digests(gs0)[k] == gs0[k].digest@);
                            assert(group_digests(gs0)[j as int] == gs0[j as int].digest@);
                            assert(x.digest@ != d);
                            assert(gs0[k].members@ == entries_with_digest(prefix, d));
                        } else {
                            assert(x.digest@ == d);
                            assert(gs0[j as int].members@ == entries_with_digest(prefix, d));
                            assert(groups@[k].members@ =~= gs0[j as int].members@.push(x));
                        }
                    }
                }
            },
            None => {
                let mut members: Vec<Entry> = Vec::new();
                members.push(e.clone());
                groups.push(DigestGroup { digest: e.digest.clone(), members });
                proof {
                    let next = entries@.subrange(0, i as int + 1);
                    assert(next =~= prefix.push(entries@[i as int]));
                    assert forall|k: int| 0 <= k < gs0.len() implies distinct_digests(prefix)[k]
                        != e.digest@ by {
                        assert(group_digests(gs0)[k] == gs0[k].digest@);
                    }
                    assert(!distinct_digests(prefix).contains(e.digest@));
                    assert(distinct_digests(next) == distinct_digests(prefix).push(e.digest@));
                    assert(group_digests(groups@) =~= distinct_digests(next));
                    lemma_distinct_digests_contains(prefix, e.digest@);
                    assert forall|k: int|
                        0 <= k < groups@.len() implies (#[trigger] groups@[k]).members@
                        == entries_with_digest(next, groups@[k].digest@) by {
                        let d = groups@[k].digest@;
                        let x = entries@[i as int];
                        lemma_entries_with_digest_push(prefix, x, d);
                        assert(prefix.push(x) == next);
                        if k < gs0.len() {
                            assert(groups@[k] == gs0[k]);
                            assert(group_digests(gs0)[k] == gs0[k].digest@);
                            assert(x.digest@ != d);
                            assert(gs0[k].members@ == entries_with_digest(prefix, d));
                        } else {
                            assert(x.digest@ == d);
                            assert(forall|m: int|
                                0 <= m < prefix.len() ==> (#[trigger] prefix[m]).digest@ != d);
                            lemma_entries_with_digest_none(prefix, d);
                            assert(groups@[k].members@ =~= Seq::<Entry>::empty().push(x));
                        }
                    }
                }
            },
        }
        i += 1;
    }
    proof {
        assert(entries@.subrange(0, entries@.len() as int) =~= entries@);
    }
    DigestGroups { groups }
}

} // verus!
