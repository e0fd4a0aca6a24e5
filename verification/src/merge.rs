//! Merging the two event partitions.
//!
//! Ordinary transactions and priority operations are stored in two
//! independently-ordered partitions sharing one global order key: the
//! (block number, intra-block position) pair. This module defines the
//! mathematical merge of the two partitions and the facts pagination rests
//! on: the merge of two sorted, key-disjoint sequences is sorted, holds
//! exactly the union of entries, and is the unique such sequence.

use vstd::prelude::*;

use crate::records::{PriorityOpRecord, TxRecord};
use crate::schema::key_lt;

verus! {

/// One entry of the merged event stream: a record of either partition.
pub enum LedgerEntry {
    Tx(TxRecord),
    Pop(PriorityOpRecord),
}

/// The block number of an entry.
pub open spec fn entry_block(e: LedgerEntry) -> int {
    match e {
        LedgerEntry::Tx(r) => r.block_number as int,
        LedgerEntry::Pop(r) => r.block_number as int,
    }
}

/// The intra-block position of an entry.
pub open spec fn entry_index(e: LedgerEntry) -> int {
    match e {
        LedgerEntry::Tx(r) => r.block_index as int,
        LedgerEntry::Pop(r) => r.block_index as int,
    }
}

/// The creation timestamp of an entry.
pub open spec fn entry_created(e: LedgerEntry) -> int {
    match e {
        LedgerEntry::Tx(r) => r.created_at as int,
        LedgerEntry::Pop(r) => r.created_at as int,
    }
}

/// Strict order on entries by order key.
pub open spec fn entry_lt(a: LedgerEntry, b: LedgerEntry) -> bool {
    key_lt(entry_block(a), entry_index(a), entry_block(b), entry_index(b))
}

/// Equal order keys.
pub open spec fn entry_key_eq(a: LedgerEntry, b: LedgerEntry) -> bool {
    entry_block(a) == entry_block(b) && entry_index(a) == entry_index(b)
}

/// Strictly ascending by order key.
pub open spec fn sorted_asc(s: Seq<LedgerEntry>) -> bool {
    forall|i: int, j: int| #![trigger s[i], s[j]] 0 <= i < j < s.len() ==> entry_lt(s[i], s[j])
}

/// Strictly descending by order key.
pub open spec fn sorted_desc(s: Seq<LedgerEntry>) -> bool {
    forall|i: int, j: int| #![trigger s[i], s[j]] 0 <= i < j < s.len() ==> entry_lt(s[j], s[i])
}

/// No order key occurs in both sequences.
pub open spec fn cross_distinct(a: Seq<LedgerEntry>, b: Seq<LedgerEntry>) -> bool {
    forall|i: int, j: int| #![trigger a[i], b[j]] 0 <= i < a.len() && 0 <= j < b.len()
        ==> !entry_key_eq(a[i], b[j])
}

/// The merge of two sequences ascending by order key: repeatedly take the
/// smaller head, preferring the first sequence when neither head is
/// smaller.
pub open spec fn merge_asc(a: Seq<LedgerEntry>, b: Seq<LedgerEntry>) -> Seq<LedgerEntry>
    decreases a.len() + b.len(),
{
    if a.len() == 0 {
        b
    } else if b.len() == 0 {
        a
    } else if entry_lt(b[0], a[0]) {
        seq![b[0]] + merge_asc(a, b.drop_first())
    } else {
        seq![a[0]] + merge_asc(a.drop_first(), b)
    }
}

/// Membership in a sequence with one element prepended.
proof fn lemma_cons_contains(e: LedgerEntry, s: Seq<LedgerEntry>, x: LedgerEntry)
    ensures
        (seq![e] + s).contains(x) <==> (x == e || s.contains(x)),
{
    let t = seq![e] + s;
    if t.contains(x) {
        let i = choose|i: int| 0 <= i < t.len() && t[i] == x;
        if i == 0 {
        } else {
            assert(s[i - 1] == x);
        }
    }
    if x == e {
        assert(t[0] == x);
    }
    if s.contains(x) {
        let i = choose|i: int| 0 <= i < s.len() && s[i] == x;
        assert(t[i + 1] == x);
    }
}

/// Every element of a sorted sequence is bounded below by the head.
proof fn lemma_sorted_head_min(s: Seq<LedgerEntry>, x: LedgerEntry)
    requires
        sorted_asc(s),
        s.len() > 0,
        s.contains(x),
    ensures
        x == s[0] || entry_lt(s[0], x),
{
    let i = choose|i: int| 0 <= i < s.len() && s[i] == x;
    if i > 0 {
        assert(entry_lt(s[0], s[i]));
    }
}

/// The merge of two sorted, key-disjoint sequences: as long as both, sorted,
/// and holding exactly the union of the entries.
pub proof fn lemma_merge_asc_props(a: Seq<LedgerEntry>, b: Seq<LedgerEntry>)
    requires
        sorted_asc(a),
        sorted_asc(b),
        cross_distinct(a, b),
    ensures
        merge_asc(a, b).len() == a.len() + b.len(),
        sorted_asc(merge_asc(a, b)),
        forall|x: LedgerEntry| #[trigger] merge_asc(a, b).contains(x) <==> (a.contains(x)
            || b.contains(x)),
    decreases a.len() + b.len(),
{
    let m = merge_asc(a, b);
    if a.len() == 0 || b.len() == 0 {
    } else if entry_lt(b[0], a[0]) {
        let bt = b.drop_first();
        assert(sorted_asc(bt));
        assert(cross_distinct(a, bt)) by {
            assert forall|i: int, j: int| 0 <= i < a.len() && 0 <= j < bt.len() implies !entry_key_eq(
                #[trigger] a[i],
                #[trigger] bt[j],
            ) by {
                assert(bt[j] == b[j + 1]);
            }
        }
        lemma_merge_asc_props(a, bt);
        let m1 = merge_asc(a, bt);
        assert forall|x: LedgerEntry| #[trigger] m.contains(x) <==> (a.contains(x) || b.contains(
            x,
        )) by {
            lemma_cons_contains(b[0], m1, x);
            assert(b.contains(x) <==> (x == b[0] || bt.contains(x))) by {
                if b.contains(x) {
                    let i = choose|i: int| 0 <= i < b.len() && b[i] == x;
                    if i > 0 {
                        assert(bt[i - 1] == x);
                    }
                }
                if bt.contains(x) {
                    let i = choose|i: int| 0 <= i < bt.len() && bt[i] == x;
                    assert(b[i + 1] == x);
                }
                assert(b[0] == b[0]);
                assert(b.contains(b[0]));
            }
        }
        assert(sorted_asc(m)) by {
            assert forall|i: int, j: int| #![trigger m[i], m[j]] 0 <= i < j < m.len() implies entry_lt(
                m[i],
                m[j],
            ) by {
                if i == 0 {
                    assert(m[j] == m1[j - 1]);
                    assert(m1.contains(m1[j - 1]));
                    let x = m1[j - 1];
                    if a.contains(x) {
                        lemma_sorted_head_min(a, x);
                        assert(entry_lt(b[0], a[0]));
                    } else {
                        assert(bt.contains(x));
                        let k = choose|k: int| 0 <= k < bt.len() && bt[k] == x;
                        assert(b[k + 1] == x);
                        assert(entry_lt(b[0], b[k + 1]));
                    }
                } else {
                    assert(m[i] == m1[i - 1]);
                    assert(m[j] == m1[j - 1]);
                }
            }
        }
    } else {
        let at = a.drop_first();
        assert(sorted_asc(at));
        assert(cross_distinct(at, b)) by {
            assert forall|i: int, j: int| 0 <= i < at.len() && 0 <= j < b.len() implies !entry_key_eq(
                #[trigger] at[i],
                #[trigger] b[j],
            ) by {
                assert(at[i] == a[i + 1]);
            }
        }
        lemma_merge_asc_props(at, b);
        let m1 = merge_asc(at, b);
        assert forall|x: LedgerEntry| #[trigger] m.contains(x) <==> (a.contains(x) || b.contains(
            x,
        )) by {
            lemma_cons_contains(a[0], m1, x);
            assert(a.contains(x) <==> (x == a[0] || at.contains(x))) by {
                if a.contains(x) {
                    let i = choose|i: int| 0 <= i < a.len() && a[i] == x;
                    if i > 0 {
                        assert(at[i - 1] == x);
                    }
                }
                if at.contains(x) {
                    let i = choose|i: int| 0 <= i < at.len() && at[i] == x;
                    assert(a[i + 1] == x);
                }
                assert(a.contains(a[0]));
            }
        }
        assert(sorted_asc(m)) by {
            assert forall|i: int, j: int| #![trigger m[i], m[j]] 0 <= i < j < m.len() implies entry_lt(
                m[i],
                m[j],
            ) by {
                if i == 0 {
                    assert(m[j] == m1[j - 1]);
                    assert(m1.contains(m1[j - 1]));
                    let x = m1[j - 1];
                    if at.contains(x) {
                        let k = choose|k: int| 0 <= k < at.len() && at[k] == x;
                        assert(a[k + 1] == x);
                        assert(entry_lt(a[0], a[k + 1]));
                    } else {
                        assert(b.contains(x));
                        lemma_sorted_head_min(b, x);
                        // the heads are key-distinct, so not lt means gt
                        assert(!entry_key_eq(a[0], b[0]));
                        assert(entry_lt(a[0], b[0]));
                    }
                } else {
                    assert(m[i] == m1[i - 1]);
                    assert(m[j] == m1[j - 1]);
                }
            }
        }
    }
}

/// Two strictly sorted sequences holding the same entries are equal.
pub proof fn lemma_sorted_asc_unique(s1: Seq<LedgerEntry>, s2: Seq<LedgerEntry>)
    requires
        sorted_asc(s1),
        sorted_asc(s2),
        forall|x: LedgerEntry| #[trigger] s1.contains(x) <==> #[trigger] s2.contains(x),
    ensures
        s1 == s2,
    decreases s1.len(),
{
    if s1.len() == 0 {
        if s2.len() > 0 {
            assert(s2.contains(s2[0]));
            assert(s1.contains(s2[0]));
        }
        assert(s1 =~= s2);
    } else {
        assert(s1.contains(s1[0]));
        assert(s2.contains(s1[0]));
        assert(s2.len() > 0);
        assert(s2.contains(s2[0]));
        assert(s1.contains(s2[0]));
        lemma_sorted_head_min(s2, s1[0]);
        lemma_sorted_head_min(s1, s2[0]);
        assert(s1[0] == s2[0]);
        let t1 = s1.drop_first();
        let t2 = s2.drop_first();
        assert(sorted_asc(t1));
        assert(sorted_asc(t2));
        assert forall|x: LedgerEntry| #[trigger] t1.contains(x) <==> #[trigger] t2.contains(
            x,
        ) by {
            lemma_tail_contains(s1, x);
            lemma_tail_contains(s2, x);
        }
        lemma_sorted_asc_unique(t1, t2);
        assert(s1 =~= seq![s1[0]] + t1);
        assert(s2 =~= seq![s2[0]] + t2);
        assert(s1 =~= s2);
    }
}

/// In a strictly sorted sequence, membership in the tail is membership in
/// the whole other than the head.
proof fn lemma_tail_contains(s: Seq<LedgerEntry>, x: LedgerEntry)
    requires
        sorted_asc(s),
        s.len() > 0,
    ensures
        s.drop_first().contains(x) <==> (s.contains(x) && x != s[0]),
{
    let t = s.drop_first();
    if t.contains(x) {
        let i = choose|i: int| 0 <= i < t.len() && t[i] == x;
        assert(s[i + 1] == x);
        assert(entry_lt(s[0], s[i + 1]));
    }
    if s.contains(x) && x != s[0] {
        let i = choose|i: int| 0 <= i < s.len() && s[i] == x;
        assert(i > 0);
        assert(t[i - 1] == x);
    }
}

/// Merging is symmetric on sorted, key-disjoint sequences.
pub proof fn lemma_merge_asc_comm(a: Seq<LedgerEntry>, b: Seq<LedgerEntry>)
    requires
        sorted_asc(a),
        sorted_asc(b),
        cross_distinct(a, b),
    ensures
        merge_asc(a, b) == merge_asc(b, a),
{
    assert(cross_distinct(b, a)) by {
        assert forall|i: int, j: int| 0 <= i < b.len() && 0 <= j < a.len() implies !entry_key_eq(
            #[trigger] b[i],
            #[trigger] a[j],
        ) by {
            assert(!entry_key_eq(a[j], b[i]));
        }
    }
    lemma_merge_asc_props(a, b);
    lemma_merge_asc_props(b, a);
    lemma_sorted_asc_unique(merge_asc(a, b), merge_asc(b, a));
}

/// Peeling the largest entry: when the first sequence ends with the overall
/// largest entry, the merge is the merge without it, with it appended.
pub proof fn lemma_merge_asc_peel(a: Seq<LedgerEntry>, b: Seq<LedgerEntry>)
    requires
        sorted_asc(a),
        sorted_asc(b),
        cross_distinct(a, b),
        a.len() > 0,
        b.len() > 0 ==> entry_lt(b.last(), a.last()),
    ensures
        merge_asc(a, b) == merge_asc(a.drop_last(), b).push(a.last()),
{
    let ad = a.drop_last();
    assert(sorted_asc(ad));
    assert(cross_distinct(ad, b)) by {
        assert forall|i: int, j: int| 0 <= i < ad.len() && 0 <= j < b.len() implies !entry_key_eq(
            #[trigger] ad[i],
            #[trigger] b[j],
        ) by {
            assert(ad[i] == a[i]);
        }
    }
    lemma_merge_asc_props(a, b);
    lemma_merge_asc_props(ad, b);
    let lhs = merge_asc(a, b);
    let m = merge_asc(ad, b);
    let rhs = m.push(a.last());
    assert(sorted_asc(rhs)) by {
        assert forall|i: int, j: int| #![trigger rhs[i], rhs[j]] 0 <= i < j < rhs.len() implies entry_lt(
            rhs[i],
            rhs[j],
        ) by {
            if j < rhs.len() - 1 {
                assert(rhs[i] == m[i]);
                assert(rhs[j] == m[j]);
            } else {
                assert(rhs[j] == a.last());
                assert(rhs[i] == m[i]);
                assert(m.contains(m[i]));
                let x = m[i];
                if ad.contains(x) {
                    let k = choose|k: int| 0 <= k < ad.len() && ad[k] == x;
                    assert(a[k] == x);
                    assert(entry_lt(a[k], a[a.len() - 1]));
                } else {
                    assert(b.contains(x));
                    let k = choose|k: int| 0 <= k < b.len() && b[k] == x;
                    if k < b.len() - 1 {
                        assert(entry_lt(b[k], b[b.len() - 1]));
                    }
                }
            }
        }
    }
    assert forall|x: LedgerEntry| #[trigger] lhs.contains(x) <==> #[trigger] rhs.contains(x) by {
        assert(lhs.contains(x) <==> (a.contains(x) || b.contains(x)));
        assert(rhs.contains(x) <==> (m.contains(x) || x == a.last())) by {
            if rhs.contains(x) {
                let i = choose|i: int| 0 <= i < rhs.len() && rhs[i] == x;
                if i < rhs.len() - 1 {
                    assert(m[i] == x);
                }
            }
            if m.contains(x) {
                let i = choose|i: int| 0 <= i < m.len() && m[i] == x;
                assert(rhs[i] == x);
            }
            if x == a.last() {
                assert(rhs[rhs.len() - 1] == x);
            }
        }
        assert(a.contains(x) <==> (ad.contains(x) || x == a.last())) by {
            if a.contains(x) {
                let i = choose|i: int| 0 <= i < a.len() && a[i] == x;
                if i < a.len() - 1 {
                    assert(ad[i] == x);
                }
            }
            if ad.contains(x) {
                let i = choose|i: int| 0 <= i < ad.len() && ad[i] == x;
                assert(a[i] == x);
            }
        }
    }
    lemma_sorted_asc_unique(lhs, rhs);
}

/// Peeling the largest entry from the second sequence.
pub proof fn lemma_merge_asc_peel_second(a: Seq<LedgerEntry>, b: Seq<LedgerEntry>)
    requires
        sorted_asc(a),
        sorted_asc(b),
        cross_distinct(a, b),
        b.len() > 0,
        a.len() > 0 ==> entry_lt(a.last(), b.last()),
    ensures
        merge_asc(a, b) == merge_asc(a, b.drop_last()).push(b.last()),
{
    assert(cross_distinct(b, a)) by {
        assert forall|i: int, j: int| 0 <= i < b.len() && 0 <= j < a.len() implies !entry_key_eq(
            #[trigger] b[i],
            #[trigger] a[j],
        ) by {
            assert(!entry_key_eq(a[j], b[i]));
        }
    }
    lemma_merge_asc_comm(a, b);
    lemma_merge_asc_peel(b, a);
    let bd = b.drop_last();
    assert(sorted_asc(bd));
    assert(cross_distinct(a, bd)) by {
        assert forall|i: int, j: int| 0 <= i < a.len() && 0 <= j < bd.len() implies !entry_key_eq(
            #[trigger] a[i],
            #[trigger] bd[j],
        ) by {
            assert(bd[j] == b[j]);
        }
    }
    lemma_merge_asc_comm(a, bd);
}

} // verus!
