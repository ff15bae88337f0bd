//! Counting the adjacent pairs of a token sequence.

use vstd::prelude::*;
use crate::bpe::tokenizer::BPETokenizer;
use crate::bpe::pair_counts::PairCounts;

verus! {

/// How often `p` occurs as two adjacent ids of `s`.
pub open spec fn window_count(s: Seq<u32>, p: (u32, u32)) -> nat
    decreases s.len(),
{
    if s.len() < 2 {
        0
    } else {
        window_count(s.drop_last(), p) + if s[s.len() - 2] == p.0 && s.last() == p.1 {
            1nat
        } else {
            0nat
        }
    }
}

/// The pairs counted for merging: adjacent pairs whose ids are both at least `special`
/// (no special token), each with how often it occurs.
pub open spec fn counted_pairs(s: Seq<u32>, special: u32) -> Map<(u32, u32), usize> {
    Map::new(
        |p: (u32, u32)| p.0 >= special && p.1 >= special && window_count(s, p) > 0,
        |p: (u32, u32)| window_count(s, p) as usize,
    )
}

/// A sequence has fewer windows than elements.
pub proof fn lemma_window_count_bound(s: Seq<u32>, p: (u32, u32))
    ensures
        window_count(s, p) <= if s.len() == 0 { 0 } else { s.len() - 1 },
    decreases s.len(),
{
    if s.len() >= 2 {
        lemma_window_count_bound(s.drop_last(), p);
    }
}

/// A pair that occurs stands at some position.
pub proof fn lemma_window_count_witness(s: Seq<u32>, p: (u32, u32))
    requires
        window_count(s, p) > 0,
    ensures
        exists|j: int| 0 <= j && j + 1 < s.len() && #[trigger] s[j] == p.0 && s[j + 1] == p.1,
    decreases s.len(),
{
    if s[s.len() - 2] == p.0 && s.last() == p.1 {
        assert(s[s.len() - 2] == p.0 && s[s.len() - 2 + 1] == p.1);
    } else {
        lemma_window_count_witness(s.drop_last(), p);
        let t = s.drop_last();
        let j = choose|j: int| 0 <= j && j + 1 < t.len() && #[trigger] t[j] == p.0 && t[j + 1] == p.1;
        assert(s[j] == p.0 && s[j + 1] == p.1);
    }
}

/// Counting over a concatenation: each part, and the window across the seam.
pub proof fn lemma_window_count_concat(x: Seq<u32>, y: Seq<u32>, p: (u32, u32))
    ensures
        window_count(x + y, p) == window_count(x, p) + window_count(y, p) + if x.len() > 0
            && y.len() > 0 && x.last() == p.0 && y[0] == p.1 {
            1nat
        } else {
            0nat
        },
    decreases y.len(),
{
    if y.len() == 0 {
        assert(x + y =~= x);
    } else if y.len() == 1 {
        if x.len() > 0 {
            assert((x + y).drop_last() =~= x);
        } else {
            assert(x + y =~= y);
        }
    } else {
        lemma_window_count_concat(x, y.drop_last(), p);
        assert((x + y).drop_last() =~= x + y.drop_last());
        assert(y.drop_last()[0] == y[0]);
    }
}

/// Only finitely many pairs are counted.
pub proof fn lemma_counted_pairs_finite(s: Seq<u32>, special: u32)
    ensures
        counted_pairs(s, special).dom().finite(),
    decreases s.len(),
{
    if s.len() < 2 {
        assert(counted_pairs(s, special).dom() =~= Set::<(u32, u32)>::empty());
    } else {
        lemma_counted_pairs_finite(s.drop_last(), special);
        let p = (s[s.len() - 2], s.last());
        let big = counted_pairs(s.drop_last(), special).dom().insert(p);
        assert(counted_pairs(s, special).dom().subset_of(big));
        vstd::set_lib::lemma_set_subset_finite(big, counted_pairs(s, special).dom());
    }
}

/// Counts how often each pair of adjacent ids occurs, leaving out every pair that holds a
/// special token (an id below `special_token_count`); requested tokens may be merged.
pub fn bpe_create_pair_counts_map(tokenizer: &BPETokenizer, token_sequence: &[u32]) -> (r: PairCounts)
    ensures
        r@ == counted_pairs(token_sequence@, tokenizer.special_token_count),
{
    let special = tokenizer.special_token_count;
    let ghost s = token_sequence@;
    let mut counts = PairCounts::new();
    if token_sequence.len() < 2 {
        assert(counts@ =~= counted_pairs(s, special));
        return counts;
    }
    let mut i: usize = 1;
    assert(counts@ =~= counted_pairs(s.subrange(0, 1), special));
    while i < token_sequence.len()
        invariant
            1 <= i <= s.len(),
            s == token_sequence@,
            special == tokenizer.special_token_count,
            counts@ == counted_pairs(s.subrange(0, i as int), special),
        decreases s.len() - i,
    {
        let a = token_sequence[i - 1];
        let b = token_sequence[i];
        let ghost before = s.subrange(0, i as int);
        let ghost after = s.subrange(0, i + 1);
        assert(after.drop_last() =~= before);
        if a >= special && b >= special {
            proof {
                lemma_window_count_bound(before, (a, b));
            }
            counts.increment((a, b));
        }
        assert(counts@ =~= counted_pairs(after, special));
        i = i + 1;
    }
    assert(s.subrange(0, s.len() as int) =~= s);
    counts
}

} // verus!
