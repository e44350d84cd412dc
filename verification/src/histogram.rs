//! A fixed 256-slot occurrence histogram over the byte alphabet.

use vstd::prelude::*;

verus! {

/// How many times the value `v` occurs in the sequence `s`.
pub open spec fn occurrences(s: Seq<u8>, v: u8) -> nat
    decreases s.len(),
{
    if s.len() == 0 {
        0
    } else {
        occurrences(s.drop_last(), v) + if s.last() == v {
            1nat
        } else {
            0nat
        }
    }
}

/// A value occurs no more often than the sequence is long.
pub proof fn lemma_occurrences_le_len(s: Seq<u8>, v: u8)
    ensures
        occurrences(s, v) <= s.len(),
    decreases s.len(),
{
    if s.len() > 0 {
        lemma_occurrences_le_len(s.drop_last(), v);
    }
}

/// The subsequence of the strictly positive entries of `s`, in slot order.
pub open spec fn positives(s: Seq<usize>) -> Seq<usize>
    decreases s.len(),
{
    if s.len() == 0 {
        Seq::empty()
    } else if s.last() > 0 {
        positives(s.drop_last()).push(s.last())
    } else {
        positives(s.drop_last())
    }
}

/// An occurrence-count histogram with one slot per possible byte value,
/// held in a fixed stack-resident array.
pub struct Histogram {
    counts: [usize; 256],
}

impl View for Histogram {
    type V = Seq<usize>;

    closed spec fn view(&self) -> Seq<usize> {
        self.counts@
    }
}

impl Histogram {
    /// Build the histogram of a byte slice in one linear pass: slot `v`
    /// ends up holding the number of positions of `bytes` that carry `v`.
    pub fn from_bytes(bytes: &[u8]) -> (h: Histogram)
        ensures
            h@.len() == 256,
            forall|v: int| 0 <= v < 256 ==> h@[v] == occurrences(bytes@, v as u8),
    {
        let mut counts: [usize; 256] = [0usize; 256];
        let mut i: usize = 0;
        while i < bytes.len()
            invariant
                i <= bytes@.len(),
                counts@.len() == 256,
                forall|v: int| 0 <= v < 256 ==> counts@[v] == occurrences(bytes@.take(i as int), v as u8),
            decreases bytes@.len() - i,
        {
            let b = bytes[i];
            proof {
                lemma_occurrences_le_len(bytes@.take(i as int), b);
            }
            counts[b as usize] = counts[b as usize] + 1;
            i = i + 1;
            proof {
                assert forall|v: int| 0 <= v < 256 implies counts@[v] == occurrences(
                    bytes@.take(i as int),
                    v as u8,
                ) by {
                    assert(bytes@.take(i as int).drop_last() =~= bytes@.take(i as int - 1));
                    assert(bytes@.take(i as int).last() == bytes@[i as int - 1]);
                }
            }
        }
        proof {
            assert(bytes@.take(i as int) =~= bytes@);
        }
        Histogram { counts }
    }

    /// The counts of the slots that were hit at all, in slot order. An
    /// entropy reduction must skip the empty slots rather than fold a
    /// zero count into a logarithm, so the selection is made here, once.
    pub fn nonzero_counts(&self) -> (cs: Vec<usize>)
        ensures
            cs@ == positives(self@),
            forall|k: int| 0 <= k < cs@.len() ==> cs@[k] > 0,
    {
        let mut cs: Vec<usize> = Vec::new();
        let mut i: usize = 0;
        while i < 256
            invariant
                i <= 256,
                self@.len() == 256,
                cs@ == positives(self@.take(i as int)),
                forall|k: int| 0 <= k < cs@.len() ==> cs@[k] > 0,
            decreases 256 - i,
        {
            let c = self.counts[i];
            if c > 0 {
                cs.push(c);
            }
            i = i + 1;
            proof {
                assert(self@.take(i as int).drop_last() =~= self@.take(i as int - 1));
                assert(self@.take(i as int).last() == self@[i as int - 1]);
            }
        }
        proof {
            assert(self@.take(256) =~= self@);
        }
        cs
    }

    /// The occurrence count recorded for the byte value `v`.
    pub fn count(&self, v: u8) -> (c: usize)
        ensures
            c == self@[v as int],
    {
        self.counts[v as usize]
    }
}

} // verus!
