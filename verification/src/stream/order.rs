//! Ordered insertion of segments into a direction's list, and the laws that
//! make reassembly canonical: the list is kept strictly ascending by
//! sequence number, a duplicate sequence number is dropped, and the final
//! list is the same for every arrival order of the same distinct segments.

use vstd::prelude::*;
use crate::wire::Segment;

verus! {

/// Strictly ascending by sequence number: non-decreasing with no duplicate
/// sequence numbers.
pub open spec fn sorted_by_seq(s: Seq<Segment>) -> bool {
    forall|i: int, j: int| 0 <= i < j < s.len() ==> s[i].seq < s[j].seq
}

/// Some stored segment carries sequence number `n`.
pub open spec fn has_seq(s: Seq<Segment>, n: u32) -> bool {
    exists|i: int| 0 <= i < s.len() && s[i].seq == n
}

/// No two offered segments share a sequence number.
pub open spec fn distinct_seqs(s: Seq<Segment>) -> bool {
    forall|i: int, j: int| 0 <= i < j < s.len() ==> s[i].seq != s[j].seq
}

/// What one offered segment does to a direction's list: nothing when its
/// sequence number is already stored (duplicate), and otherwise the segment
/// lands immediately after the last stored segment with a smaller sequence
/// number.
pub open spec fn spec_insert(s: Seq<Segment>, seg: Segment) -> Seq<Segment>
    decreases s.len(),
{
    if s.len() == 0 {
        seq![seg]
    } else if s.last().seq == seg.seq {
        s
    } else if s.last().seq < seg.seq {
        s.push(seg)
    } else {
        spec_insert(s.drop_last(), seg).push(s.last())
    }
}

/// The list a worker's direction holds after the given segments were
/// offered in that order, starting from nothing.
pub open spec fn reassemble(deliveries: Seq<Segment>) -> Seq<Segment>
    decreases deliveries.len(),
{
    if deliveries.len() == 0 {
        Seq::empty()
    } else {
        spec_insert(reassemble(deliveries.drop_last()), deliveries.last())
    }
}

/// What `spec_insert` does to a strictly sorted list: the order stays
/// strict, a duplicate changes nothing, a new sequence number adds exactly
/// the offered segment, and the stored sequence numbers afterwards are the
/// stored ones before plus the offered one.
pub proof fn lemma_spec_insert_props(s: Seq<Segment>, seg: Segment)
    requires
        sorted_by_seq(s),
    ensures
        sorted_by_seq(spec_insert(s, seg)),
        has_seq(s, seg.seq) ==> spec_insert(s, seg) == s,
        !has_seq(s, seg.seq) ==> spec_insert(s, seg).to_multiset() == s.to_multiset().insert(seg),
        forall|n: u32| has_seq(spec_insert(s, seg), n) <==> has_seq(s, n) || n == seg.seq,
    decreases s.len(),
{
    broadcast use vstd::seq_lib::group_to_multiset_ensures;

    let r = spec_insert(s, seg);
    if s.len() == 0 {
        assert(r == Seq::<Segment>::empty().push(seg));
        assert(r.to_multiset() =~= s.to_multiset().insert(seg));
        assert(r[0] == seg);
        assert forall|n: u32| has_seq(r, n) implies n == seg.seq by {
            let i = choose|i: int| 0 <= i < r.len() && r[i].seq == n;
            assert(r[i] == seg);
        }
    } else if s.last().seq == seg.seq {
        assert(has_seq(s, seg.seq));
    } else if s.last().seq < seg.seq {
        assert(r == s.push(seg));
        assert forall|i: int| 0 <= i < s.len() implies (#[trigger] s[i]).seq < seg.seq by {
            if i < s.len() - 1 {
                assert(s[i].seq < s.last().seq);
            }
        }
        assert(!has_seq(s, seg.seq));
        assert(sorted_by_seq(r)) by {
            assert(forall|i: int| 0 <= i < s.len() ==> r[i] == s[i]);
            assert(r[s.len() as int] == seg);
        }
        assert forall|n: u32| has_seq(r, n) implies has_seq(s, n) || n == seg.seq by {
            let i = choose|i: int| 0 <= i < r.len() && r[i].seq == n;
            if i < s.len() {
                assert(s[i].seq == n);
            }
        }
        assert forall|n: u32| has_seq(s, n) implies has_seq(r, n) by {
            let i = choose|i: int| 0 <= i < s.len() && s[i].seq == n;
            assert(r[i].seq == n);
        }
        assert(has_seq(r, seg.seq)) by {
            assert(r[s.len() as int].seq == seg.seq);
        }
    } else {
        let dl = s.drop_last();
        assert(sorted_by_seq(dl)) by {
            assert(forall|i: int| 0 <= i < dl.len() ==> dl[i] == s[i]);
        }
        lemma_spec_insert_props(dl, seg);
        let t = spec_insert(dl, seg);
        assert(r == t.push(s.last()));
        assert(s =~= dl.push(s.last()));
        // every stored sequence number in `t` is below the old last one
        assert forall|i: int| 0 <= i < t.len() implies (#[trigger] t[i]).seq < s.last().seq by {
            assert(has_seq(t, t[i].seq));
            if has_seq(dl, t[i].seq) {
                let j = choose|j: int| 0 <= j < dl.len() && dl[j].seq == t[i].seq;
                assert(s[j].seq < s.last().seq);
            }
        }
        assert(sorted_by_seq(r)) by {
            assert(forall|i: int| 0 <= i < t.len() ==> r[i] == t[i]);
            assert(r[t.len() as int] == s.last());
        }
        assert forall|n: u32| has_seq(r, n) implies has_seq(s, n) || n == seg.seq by {
            let i = choose|i: int| 0 <= i < r.len() && r[i].seq == n;
            if i < t.len() {
                assert(has_seq(t, t[i].seq));
                if has_seq(dl, n) {
                    let j = choose|j: int| 0 <= j < dl.len() && dl[j].seq == n;
                    assert(s[j].seq == n);
                }
            } else {
                assert(r[i] == s.last());
                assert(s.last().seq == n);
            }
        }
        assert forall|n: u32| has_seq(s, n) || n == seg.seq implies has_seq(r, n) by {
            if has_seq(s, n) {
                let i = choose|i: int| 0 <= i < s.len() && s[i].seq == n;
                if i < dl.len() {
                    assert(has_seq(dl, n));
                    assert(has_seq(t, n));
                    let j = choose|j: int| 0 <= j < t.len() && t[j].seq == n;
                    assert(r[j].seq == n);
                } else {
                    assert(r[t.len() as int].seq == n);
                }
            } else {
                assert(has_seq(t, seg.seq));
                let j = choose|j: int| 0 <= j < t.len() && t[j].seq == seg.seq;
                assert(r[j].seq == seg.seq);
            }
        }
        if has_seq(s, seg.seq) {
            // the duplicate sits strictly inside, so the recursion hits it
            assert(has_seq(dl, seg.seq)) by {
                let i = choose|i: int| 0 <= i < s.len() && s[i].seq == seg.seq;
                assert(i < dl.len() || s.last().seq == seg.seq);
                if i < dl.len() {
                    assert(dl[i].seq == seg.seq);
                }
            }
            assert(t == dl);
            assert(r =~= s);
        } else {
            assert(!has_seq(dl, seg.seq)) by {
                if has_seq(dl, seg.seq) {
                    let i = choose|i: int| 0 <= i < dl.len() && dl[i].seq == seg.seq;
                    assert(s[i].seq == seg.seq);
                }
            }
            assert(t.to_multiset() == dl.to_multiset().insert(seg));
            assert(r.to_multiset() =~= t.to_multiset().insert(s.last()));
            assert(s.to_multiset() =~= dl.to_multiset().insert(s.last()));
            assert(r.to_multiset() =~= s.to_multiset().insert(seg));
        }
    }
}

/// Insert one segment into a strictly sorted list, scanning from the tail
/// backward: a stored equal sequence number means duplicate (dropped), and
/// otherwise the segment lands immediately after the last stored segment
/// with a smaller sequence number.
pub fn insert_segment(list: &mut Vec<Segment>, seg: Segment)
    requires
        sorted_by_seq(old(list)@),
    ensures
        sorted_by_seq(final(list)@),
        final(list)@ == spec_insert(old(list)@, seg),
{
    let ghost s0 = old(list)@;
    let mut i: usize = list.len();
    proof {
        assert(s0.subrange(0, s0.len() as int) =~= s0);
        assert(s0.subrange(s0.len() as int, s0.len() as int) =~= Seq::<Segment>::empty());
        assert(spec_insert(s0, seg) =~= spec_insert(s0, seg) + Seq::<Segment>::empty());
    }
    while 0 < i
        invariant
            s0 == old(list)@,
            i <= list@.len(),
            list@ == s0,
            sorted_by_seq(s0),
            forall|j: int| i <= j < s0.len() ==> s0[j].seq > seg.seq,
            spec_insert(s0, seg) == spec_insert(s0.subrange(0, i as int), seg) + s0.subrange(
                i as int,
                s0.len() as int,
            ),
        decreases i,
    {
        let ghost prefix = s0.subrange(0, i as int);
        let stored_seq = list[i - 1].seq;
        if stored_seq == seg.seq {
            // duplicate sequence number: the offered segment is dropped
            assert(has_seq(s0, seg.seq));
            proof {
                assert(prefix.last().seq == seg.seq);
                assert(spec_insert(prefix, seg) == prefix);
                assert(list@ =~= prefix + s0.subrange(i as int, s0.len() as int));
            }
            return ;
        }
        if stored_seq < seg.seq {
            list.insert(i, seg);
            assert(list@ == s0.insert(i as int, seg));
            proof {
                assert(prefix.last().seq < seg.seq);
                assert(spec_insert(prefix, seg) == prefix.push(seg));
                assert(list@ =~= prefix.push(seg) + s0.subrange(i as int, s0.len() as int));
                lemma_spec_insert_props(s0, seg);
            }
            return ;
        }
        proof {
            assert(prefix.last().seq > seg.seq);
            assert(prefix.drop_last() =~= s0.subrange(0, i - 1));
            assert(spec_insert(prefix, seg) == spec_insert(s0.subrange(0, i - 1), seg).push(
                prefix.last(),
            ));
            assert(spec_insert(s0.subrange(0, i - 1), seg).push(prefix.last()) + s0.subrange(
                i as int,
                s0.len() as int,
            ) =~= spec_insert(s0.subrange(0, i - 1), seg) + s0.subrange(i - 1, s0.len() as int));
        }
        i = i - 1;
    }
    proof {
        assert(s0.subrange(0, 0) =~= Seq::<Segment>::empty());
        assert(spec_insert(s0.subrange(0, 0), seg) == seq![seg]);
    }
    list.insert(0, seg);
    proof {
        assert(list@ =~= seq![seg] + s0.subrange(0, s0.len() as int));
        assert(s0.subrange(0, s0.len() as int) =~= s0);
        lemma_spec_insert_props(s0, seg);
    }
}

/// Duplicate idempotence law: a strictly sorted list stores at most one
/// segment per sequence number, so delivering a sequence number twice
/// leaves exactly one stored segment for it.
pub proof fn lemma_at_most_one_per_seq(s: Seq<Segment>, i: int, j: int)
    requires
        sorted_by_seq(s),
        0 <= i < s.len(),
        0 <= j < s.len(),
        s[i].seq == s[j].seq,
    ensures
        i == j,
{
}

/// Two strictly sorted lists holding the same multiset of segments are the
/// same list: a strictly sorted list is determined by what it holds.
pub proof fn lemma_sorted_reassembly_unique(s1: Seq<Segment>, s2: Seq<Segment>)
    requires
        sorted_by_seq(s1),
        sorted_by_seq(s2),
        s1.to_multiset() == s2.to_multiset(),
    ensures
        s1 == s2,
    decreases s1.len(),
{
    broadcast use vstd::seq_lib::group_to_multiset_ensures;

    if s1.len() == 0 {
        assert(s2.to_multiset().len() == 0);
        assert(s1 =~= s2);
    } else {
        assert(s1.contains(s1[0]));
        assert(s2.to_multiset().count(s1[0]) > 0);
        assert(s2.contains(s1[0]));
        let j = choose|j: int| 0 <= j < s2.len() && s2[j] == s1[0];
        assert(s2.contains(s2[0]));
        assert(s1.to_multiset().count(s2[0]) > 0);
        assert(s1.contains(s2[0]));
        let k = choose|k: int| 0 <= k < s1.len() && s1[k] == s2[0];
        // the heads carry the minimal sequence numbers, so they are equal
        assert(s2[0].seq <= s2[j].seq);
        assert(s1[0].seq <= s1[k].seq);
        assert(s1[0].seq == s2[0].seq);
        lemma_at_most_one_per_seq(s2, 0, j);
        assert(s1[0] == s2[0]);
        // the tails hold the same multiset and stay sorted
        let t1 = s1.remove(0);
        let t2 = s2.remove(0);
        assert(t1.to_multiset() == s1.to_multiset().remove(s1[0]));
        assert(t2.to_multiset() == s2.to_multiset().remove(s2[0]));
        assert(sorted_by_seq(t1)) by {
            assert(forall|x: int, y: int|
                0 <= x < y < t1.len() ==> t1[x] == s1[x + 1] && t1[y] == s1[y + 1]);
        }
        assert(sorted_by_seq(t2)) by {
            assert(forall|x: int, y: int|
                0 <= x < y < t2.len() ==> t2[x] == s2[x + 1] && t2[y] == s2[y + 1]);
        }
        lemma_sorted_reassembly_unique(t1, t2);
        assert(s1 =~= s2) by {
            assert(forall|x: int| 1 <= x < s1.len() ==> s1[x] == t1[x - 1] && s2[x] == t2[x - 1]);
        }
    }
}

/// What reassembling a whole delivery order yields: a strictly sorted list
/// whose stored sequence numbers are exactly the delivered ones, and — when
/// the delivered sequence numbers are distinct — whose segments are exactly
/// the delivered segments.
pub proof fn lemma_reassemble_props(deliveries: Seq<Segment>)
    ensures
        sorted_by_seq(reassemble(deliveries)),
        forall|n: u32| has_seq(reassemble(deliveries), n) <==> has_seq(deliveries, n),
        distinct_seqs(deliveries) ==> reassemble(deliveries).to_multiset()
            == deliveries.to_multiset(),
    decreases deliveries.len(),
{
    broadcast use vstd::seq_lib::group_to_multiset_ensures;

    let r = reassemble(deliveries);
    if deliveries.len() == 0 {
        assert(r.to_multiset() =~= deliveries.to_multiset());
        assert forall|n: u32| !has_seq(r, n) && !has_seq(deliveries, n) by {
        }
    } else {
        let dl = deliveries.drop_last();
        let last = deliveries.last();
        lemma_reassemble_props(dl);
        let p = reassemble(dl);
        lemma_spec_insert_props(p, last);
        assert(deliveries =~= dl.push(last));
        assert(r == spec_insert(p, last));
        assert forall|n: u32| has_seq(deliveries, n) implies has_seq(r, n) by {
            let i = choose|i: int| 0 <= i < deliveries.len() && deliveries[i].seq == n;
            if i < dl.len() {
                assert(dl[i].seq == n);
                assert(has_seq(dl, n));
                assert(has_seq(p, n));
                assert(has_seq(spec_insert(p, last), n));
            } else {
                assert(deliveries[i] == last);
                assert(n == last.seq);
                assert(has_seq(spec_insert(p, last), n));
            }
        }
        assert forall|n: u32| has_seq(r, n) implies has_seq(deliveries, n) by {
            if has_seq(dl, n) {
                let i = choose|i: int| 0 <= i < dl.len() && dl[i].seq == n;
                assert(deliveries[i].seq == n);
            } else {
                assert(n == last.seq);
                assert(deliveries[deliveries.len() - 1].seq == n);
            }
        }
        if distinct_seqs(deliveries) {
            assert(distinct_seqs(dl)) by {
                assert(forall|i: int| 0 <= i < dl.len() ==> dl[i] == deliveries[i]);
            }
            assert(!has_seq(dl, last.seq)) by {
                if has_seq(dl, last.seq) {
                    let i = choose|i: int| 0 <= i < dl.len() && dl[i].seq == last.seq;
                    assert(deliveries[i].seq == deliveries[deliveries.len() - 1].seq);
                }
            }
            assert(!has_seq(p, last.seq));
            assert(r.to_multiset() == p.to_multiset().insert(last));
            assert(deliveries.to_multiset() =~= dl.to_multiset().insert(last));
        }
    }
}

/// Reordering law: offering the same segments with distinct sequence
/// numbers in any two arrival orders leaves the same final list — the
/// ascending-by-sequence-number order of those segments.
pub proof fn lemma_reordering_reassembly(d1: Seq<Segment>, d2: Seq<Segment>)
    requires
        distinct_seqs(d1),
        distinct_seqs(d2),
        d1.to_multiset() == d2.to_multiset(),
    ensures
        reassemble(d1) == reassemble(d2),
{
    lemma_reassemble_props(d1);
    lemma_reassemble_props(d2);
    lemma_sorted_reassembly_unique(reassemble(d1), reassemble(d2));
}

} // verus!
