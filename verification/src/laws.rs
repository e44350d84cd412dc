//! Proved laws of the histogram: the counts account for every position of
//! the input, a constant input concentrates them in one slot, and an input
//! that exhausts the alphabet spreads them uniformly.

use vstd::prelude::*;
use crate::histogram::{occurrences, positives};

verus! {

/// The sum of the occurrence counts of the byte values below `k`.
pub open spec fn total_count(s: Seq<u8>, k: int) -> nat
    decreases k,
{
    if k <= 0 {
        0
    } else {
        total_count(s, k - 1) + occurrences(s, (k - 1) as u8)
    }
}

proof fn lemma_total_count_empty(s: Seq<u8>, k: int)
    requires
        s.len() == 0,
    ensures
        total_count(s, k) == 0,
    decreases k,
{
    if k > 0 {
        lemma_total_count_empty(s, k - 1);
    }
}

proof fn lemma_total_count_drop_last(s: Seq<u8>, k: int)
    requires
        s.len() > 0,
        0 <= k <= 256,
    ensures
        total_count(s, k) == total_count(s.drop_last(), k) + if (s.last() as int) < k {
            1int
        } else {
            0int
        },
    decreases k,
{
    if k > 0 {
        lemma_total_count_drop_last(s, k - 1);
    }
}

/// Every position of the input is counted exactly once: the occurrence
/// counts of the 256 byte values sum to the length of the sequence.
pub proof fn lemma_counts_sum_to_length(s: Seq<u8>)
    ensures
        total_count(s, 256) == s.len(),
    decreases s.len(),
{
    if s.len() == 0 {
        lemma_total_count_empty(s, 256);
    } else {
        lemma_counts_sum_to_length(s.drop_last());
        lemma_total_count_drop_last(s, 256);
    }
}

/// The sum of the entries of a slot array.
pub open spec fn slot_sum(h: Seq<usize>) -> nat
    decreases h.len(),
{
    if h.len() == 0 {
        0
    } else {
        slot_sum(h.drop_last()) + h.last() as nat
    }
}

proof fn lemma_slot_sum_section(h: Seq<usize>, s: Seq<u8>, k: int)
    requires
        0 <= k <= h.len(),
        forall|v: int| 0 <= v < h.len() ==> h[v] == occurrences(s, v as u8),
        h.len() == 256,
    ensures
        slot_sum(h.take(k)) == total_count(s, k),
    decreases k,
{
    if k > 0 {
        lemma_slot_sum_section(h, s, k - 1);
        assert(h.take(k).drop_last() =~= h.take(k - 1));
        assert(h.take(k).last() == h[k - 1]);
    }
}

/// The histogram invariant in its own terms: a slot array that records
/// the occurrence count of every byte value sums to the input's length.
pub proof fn lemma_histogram_sums_to_length(h: Seq<usize>, s: Seq<u8>)
    requires
        h.len() == 256,
        forall|v: int| 0 <= v < 256 ==> h[v] == occurrences(s, v as u8),
    ensures
        slot_sum(h) == s.len(),
{
    lemma_slot_sum_section(h, s, 256);
    assert(h.take(256) =~= h);
    lemma_counts_sum_to_length(s);
}

/// Selecting the positive entries drops only empty slots: the total
/// count, and with it every counted position, is kept.
pub proof fn lemma_positives_keep_sum(h: Seq<usize>)
    ensures
        slot_sum(positives(h)) == slot_sum(h),
    decreases h.len(),
{
    if h.len() > 0 {
        lemma_positives_keep_sum(h.drop_last());
        if h.last() > 0 {
            let p = positives(h.drop_last());
            assert(p.push(h.last()).drop_last() =~= p);
            assert(p.push(h.last()).last() == h.last());
        }
    }
}

proof fn lemma_positives_entries_positive(h: Seq<usize>)
    ensures
        forall|k: int| 0 <= k < positives(h).len() ==> positives(h)[k] > 0,
    decreases h.len(),
{
    if h.len() > 0 {
        lemma_positives_entries_positive(h.drop_last());
        if h.last() > 0 {
            let p = positives(h.drop_last());
            assert forall|k: int| 0 <= k < positives(h).len() implies positives(h)[k] > 0 by {
                if k < p.len() {
                    assert(positives(h)[k] == p[k]);
                } else {
                    assert(positives(h)[k] == h.last());
                }
            }
        }
    }
}

proof fn lemma_positives_within_sum(h: Seq<usize>)
    ensures
        forall|k: int| 0 <= k < positives(h).len() ==> positives(h)[k] <= slot_sum(h),
    decreases h.len(),
{
    if h.len() > 0 {
        lemma_positives_within_sum(h.drop_last());
        let p = positives(h.drop_last());
        assert forall|k: int| 0 <= k < positives(h).len() implies positives(h)[k] <= slot_sum(
            h,
        ) by {
            if h.last() > 0 && k == p.len() {
                assert(positives(h)[k] == h.last());
            } else {
                assert(positives(h)[k] == p[k]);
                assert(p[k] <= slot_sum(h.drop_last()));
            }
        }
    }
}

proof fn lemma_some_positive_nonempty(h: Seq<usize>, i: int)
    requires
        0 <= i < h.len(),
        h[i] > 0,
    ensures
        positives(h).len() > 0,
    decreases h.len(),
{
    if i < h.len() - 1 {
        lemma_some_positive_nonempty(h.drop_last(), i);
    }
}

/// A non-empty input always leaves the reduction at least one term, and
/// every term's count lies between one and the input's length: the ratios
/// handed on to the logarithm are positive and at most one.
pub proof fn lemma_reduction_domain(h: Seq<usize>, s: Seq<u8>)
    requires
        h.len() == 256,
        forall|v: int| 0 <= v < 256 ==> h[v] == occurrences(s, v as u8),
        s.len() > 0,
    ensures
        positives(h).len() > 0,
        forall|k: int| 0 <= k < positives(h).len() ==> 1 <= #[trigger] positives(h)[k] <= s.len(),
{
    lemma_histogram_sums_to_length(h, s);
    lemma_positives_entries_positive(h);
    lemma_positives_within_sum(h);
    assert(occurrences(s, s.last()) > 0);
    assert(h[s.last() as int] > 0);
    lemma_some_positive_nonempty(h, s.last() as int);
}

/// A constant input concentrates the histogram: the repeated value is
/// counted once per position, and every other value not at all.
pub proof fn lemma_constant_sequence_counts(s: Seq<u8>, v: u8)
    requires
        forall|i: int| 0 <= i < s.len() ==> s[i] == v,
    ensures
        occurrences(s, v) == s.len(),
        forall|w: u8| w != v ==> occurrences(s, w) == 0,
    decreases s.len(),
{
    if s.len() > 0 {
        lemma_constant_sequence_counts(s.drop_last(), v);
        assert forall|w: u8| w != v implies occurrences(s, w) == 0 by {
            assert(occurrences(s.drop_last(), w) == 0);
        }
    }
}

proof fn lemma_positives_all_zero(h: Seq<usize>)
    requires
        forall|i: int| 0 <= i < h.len() ==> h[i] == 0,
    ensures
        positives(h) == Seq::<usize>::empty(),
    decreases h.len(),
{
    if h.len() > 0 {
        lemma_positives_all_zero(h.drop_last());
    }
}

/// A histogram whose weight sits in a single slot yields a single
/// non-zero count: that slot's, alone.
pub proof fn lemma_single_nonzero_slot(h: Seq<usize>, j: int)
    requires
        0 <= j < h.len(),
        h[j] > 0,
        forall|i: int| 0 <= i < h.len() && i != j ==> h[i] == 0,
    ensures
        positives(h) =~= seq![h[j]],
    decreases h.len(),
{
    if j == h.len() - 1 {
        lemma_positives_all_zero(h.drop_last());
    } else {
        lemma_single_nonzero_slot(h.drop_last(), j);
    }
}

/// A value is counted at all exactly when it stands at some position.
pub proof fn lemma_occurrence_iff_present(s: Seq<u8>, v: u8)
    ensures
        occurrences(s, v) > 0 <==> exists|i: int| 0 <= i < s.len() && s[i] == v,
    decreases s.len(),
{
    if s.len() > 0 {
        lemma_occurrence_iff_present(s.drop_last(), v);
        if s.last() == v {
            assert(s[s.len() - 1] == v);
        } else {
            if exists|i: int| 0 <= i < s.len() && s[i] == v {
                let i = choose|i: int| 0 <= i < s.len() && s[i] == v;
                assert(s.drop_last()[i] == v);
            }
        }
    }
}

proof fn lemma_distinct_le_one(s: Seq<u8>, v: u8)
    requires
        forall|i: int, j: int| 0 <= i < j < s.len() ==> s[i] != s[j],
    ensures
        occurrences(s, v) <= 1,
    decreases s.len(),
{
    if s.len() > 0 {
        let t = s.drop_last();
        assert forall|i: int, j: int| 0 <= i < j < t.len() implies t[i] != t[j] by {
            assert(s[i] != s[j]);
        }
        lemma_distinct_le_one(t, v);
        if s.last() == v {
            lemma_occurrence_iff_present(t, v);
            if occurrences(t, v) > 0 {
                let i = choose|i: int| 0 <= i < t.len() && t[i] == v;
                assert(s[i] == s[s.len() - 1]);
            }
        }
    }
}

proof fn lemma_total_count_missing(s: Seq<u8>, k: int, v0: u8)
    requires
        0 <= k <= 256,
        forall|v: u8| occurrences(s, v) <= 1,
        occurrences(s, v0) == 0,
    ensures
        total_count(s, k) <= k,
        (v0 as int) < k ==> total_count(s, k) <= k - 1,
    decreases k,
{
    if k > 0 {
        lemma_total_count_missing(s, k - 1, v0);
        assert(occurrences(s, (k - 1) as u8) <= 1);
    }
}

/// An input that carries each of the 256 byte values at a pairwise
/// distinct position counts every value exactly once.
pub proof fn lemma_distinct_full_alphabet(s: Seq<u8>)
    requires
        s.len() == 256,
        forall|i: int, j: int| 0 <= i < j < s.len() ==> s[i] != s[j],
    ensures
        forall|v: u8| occurrences(s, v) == 1,
{
    lemma_counts_sum_to_length(s);
    assert forall|v: u8| occurrences(s, v) == 1 by {
        lemma_distinct_le_one(s, v);
        if occurrences(s, v) == 0 {
            assert forall|w: u8| occurrences(s, w) <= 1 by {
                lemma_distinct_le_one(s, w);
            }
            lemma_total_count_missing(s, 256, v);
        }
    }
}

/// A histogram with no empty slot is handed on whole: selecting its
/// positive entries changes nothing.
pub proof fn lemma_all_slots_positive(h: Seq<usize>)
    requires
        forall|i: int| 0 <= i < h.len() ==> h[i] > 0,
    ensures
        positives(h) == h,
    decreases h.len(),
{
    if h.len() > 0 {
        lemma_all_slots_positive(h.drop_last());
        assert(positives(h.drop_last()).push(h.last()) =~= h);
    }
}

} // verus!
