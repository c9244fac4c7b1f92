//! Pair-greedy heuristic over two-item bundles.
//!
//! Forms the two-item bundles of the instance, ranks the first bundles by
//! combined value-to-weight ratio (ascending), and greedily accounts for the
//! bundles that still fit the capacity. The candidate set it packs is never
//! extended, so the emitted solution is always the empty packing; the
//! contract records that faithfully.

use vstd::prelude::*;

use crate::knapsack::{Challenge, Solution};
use crate::ranking::{sort_ranked_desc, Ranked};

verus! {

pub fn solve_challenge(challenge: &Challenge) -> (r: Option<Solution>)
    requires
        challenge.wf(),
        challenge.difficulty.num_items == 0 || challenge.difficulty.num_items >= 3,
    ensures
        r matches Some(s) && s.items@.len() == 0,
{
    let n = challenge.difficulty.num_items;
    let mut pairs: Vec<(usize, usize)> = Vec::new();
    let mut i: usize = 0;
    while i < n
        invariant
            challenge.wf(),
            n == challenge.difficulty.num_items,
            0 <= i <= n,
            forall|k: int|
                0 <= k < pairs@.len() ==> (#[trigger] pairs@[k]).0 < n && pairs@[k].1 < n,
            i >= 1 ==> pairs@.len() >= n - 1,
            i >= 2 ==> pairs@.len() >= 2 * n - 3,
        decreases n - i,
    {
        let ghost entry_len = pairs@.len();
        let mut j: usize = i + 1;
        while j < n
            invariant
                challenge.wf(),
                n == challenge.difficulty.num_items,
                0 <= i < n,
                i + 1 <= j <= n,
                forall|k: int|
                    0 <= k < pairs@.len() ==> (#[trigger] pairs@[k]).0 < n && pairs@[k].1 < n,
                pairs@.len() == entry_len + j - (i + 1),
            decreases n - j,
        {
            pairs.push((i, j));
            j = j + 1;
        }
        i = i + 1;
    }

    // Rank the first `n` bundles by ascending combined ratio: a negated
    // numerator under the shared descending sort.
    let mut ranked: Vec<Ranked> = Vec::new();
    let mut idx: usize = 0;
    while idx < n
        invariant
            challenge.wf(),
            n == challenge.difficulty.num_items,
            n == 0 || pairs@.len() >= n,
            forall|k: int|
                0 <= k < pairs@.len() ==> (#[trigger] pairs@[k]).0 < n && pairs@[k].1 < n,
            0 <= idx <= n,
            ranked@.len() == idx,
            forall|k: int|
                0 <= k < ranked@.len() ==> (#[trigger] ranked@[k]).den > 0 && ranked@[k].index < n,
        decreases n - idx,
    {
        let p = pairs[idx];
        let pair_weight = challenge.weights[p.0] + challenge.weights[p.1];
        let pair_value = (challenge.values[p.0] as u64) + (challenge.values[p.1] as u64);
        ranked.push(Ranked { num: -(pair_value as i64), den: pair_weight, index: idx });
        idx = idx + 1;
    }
    let ghost ranked0 = ranked@;
    let sorted = sort_ranked_desc(ranked);
    proof {
        assert forall|k: int|
            0 <= k < sorted@.len() implies (#[trigger] sorted@[k]).index < n by {
            assert(ranked0.contains(sorted@[k]));
            let j = choose|j: int| 0 <= j < ranked0.len() && ranked0[j] == sorted@[k];
        }
    }

    // Greedy accounting: both members of an untouched bundle would be new,
    // so a bundle contributes its full weight when it fits.
    let mut total_weight_packed: u64 = 0;
    let max_weight = challenge.max_weight as u64;
    let mut t: usize = 0;
    while t < sorted.len()
        invariant
            challenge.wf(),
            n == challenge.difficulty.num_items,
            n == 0 || pairs@.len() >= n,
            forall|k: int|
                0 <= k < pairs@.len() ==> (#[trigger] pairs@[k]).0 < n && pairs@[k].1 < n,
            forall|k: int| 0 <= k < sorted@.len() ==> (#[trigger] sorted@[k]).index < n,
            0 <= t <= sorted@.len(),
            max_weight == challenge.max_weight as u64,
            total_weight_packed <= max_weight,
        decreases sorted.len() - t,
    {
        let p = pairs[sorted[t].index];
        let additional_weight = (challenge.weights[p.0] as u64) + (challenge.weights[p.1] as u64);
        if total_weight_packed + additional_weight <= max_weight {
            total_weight_packed = total_weight_packed + additional_weight;
        }
        t = t + 1;
    }

    Some(Solution { items: Vec::new() })
}

} // verus!
