//! Reachable-weight bitset walk over ratio-ranked items.
//!
//! After a quick greedy feasibility screen, the solver tracks in a packed
//! bitset which residual weights are reachable and keeps the best value and
//! weight seen, stopping as soon as the threshold is reached. The packing is
//! re-derived from the bitset; that walk is heuristic, so the contract
//! promises valid items within capacity.

use vstd::prelude::*;

use crate::knapsack::{fits_capacity, total_weight, Challenge, Solution, MAX_UNIT};
use crate::ranking::{sort_ranked_desc, Ranked};

verus! {

pub fn solve_challenge(challenge: &Challenge) -> (r: Option<Solution>)
    requires
        challenge.wf(),
    ensures
        r matches Some(s) ==> fits_capacity(*challenge, s),
{
    let max_weight = challenge.max_weight as usize;
    let min_value = challenge.min_value as u64;
    let num_items = challenge.difficulty.num_items;

    let mut ranked: Vec<Ranked> = Vec::new();
    let mut i: usize = 0;
    while i < num_items
        invariant
            challenge.wf(),
            num_items == challenge.difficulty.num_items,
            0 <= i <= num_items,
            ranked@.len() == i,
            forall|k: int|
                0 <= k < ranked@.len() ==> (#[trigger] ranked@[k]).den > 0 && ranked@[k].index
                    < num_items,
        decreases num_items - i,
    {
        ranked.push(
            Ranked { num: challenge.values[i] as i64, den: challenge.weights[i], index: i },
        );
        i = i + 1;
    }
    let ghost ranked0 = ranked@;
    let sorted = sort_ranked_desc(ranked);
    proof {
        assert forall|k: int|
            0 <= k < sorted@.len() implies (#[trigger] sorted@[k]).index < num_items by {
            assert(ranked0.contains(sorted@[k]));
            let j = choose|j: int| 0 <= j < ranked0.len() && ranked0[j] == sorted@[k];
        }
    }

    // Quick screen: the leading run of individually fitting items must
    // already reach the threshold.
    let mut quick_sum: u64 = 0;
    let mut t: usize = 0;
    let mut leading: usize = 1;
    while t < sorted.len() && leading == 1
        invariant
            challenge.wf(),
            num_items == challenge.difficulty.num_items,
            sorted@.len() == num_items,
            forall|k: int| 0 <= k < sorted@.len() ==> (#[trigger] sorted@[k]).index < num_items,
            0 <= t <= sorted@.len(),
            quick_sum <= (t as int) * (MAX_UNIT as int),
            leading <= 1,
        decreases sorted.len() - t, leading,
    {
        let index = sorted[t].index;
        if (challenge.weights[index] as usize) <= max_weight {
            quick_sum = quick_sum + challenge.values[index] as u64;
            t = t + 1;
        } else {
            leading = 0;
        }
    }
    if quick_sum < min_value {
        return None;
    }

    // Packed reachable-weight bitset, one bit per residual weight.
    let mut dp: Vec<u64> = vec![0u64; max_weight / 64 + 1];
    dp.set(0, 1);

    let mut best_value: u64 = 0;
    let mut best_weight: usize = 0;
    let mut t: usize = 0;
    while t < sorted.len() && best_value < min_value
        invariant
            challenge.wf(),
            max_weight == challenge.max_weight as usize,
            num_items == challenge.difficulty.num_items,
            sorted@.len() == num_items,
            forall|k: int| 0 <= k < sorted@.len() ==> (#[trigger] sorted@[k]).index < num_items,
            0 <= t <= sorted@.len(),
            dp@.len() == max_weight / 64 + 1,
            best_value <= (t as int) * (MAX_UNIT as int),
            best_weight <= max_weight,
        decreases sorted.len() - t,
    {
        let index = sorted[t].index;
        let weight = challenge.weights[index] as usize;
        let value = challenge.values[index] as u64;

        let mut new_value = best_value;
        let mut new_weight = best_weight;
        let mut w: usize = max_weight + 1;
        while w > weight
            invariant
                challenge.wf(),
                max_weight == challenge.max_weight as usize,
                num_items == challenge.difficulty.num_items,
                sorted@.len() == num_items,
                0 <= t < sorted@.len(),
                weight >= 1,
                w <= max_weight + 1,
                dp@.len() == max_weight / 64 + 1,
                best_value <= (t as int) * (MAX_UNIT as int),
                value <= MAX_UNIT as u64,
                new_value <= (t as int + 1) * (MAX_UNIT as int),
                new_weight <= max_weight,
            decreases w,
        {
            w = w - 1;
            let reach_bit = w - weight;
            if (dp[reach_bit / 64] & (1u64 << ((reach_bit % 64) as u64))) != 0 {
                dp.set(w / 64, dp[w / 64] | (1u64 << ((w % 64) as u64)));
                let candidate = best_value + value;
                if candidate > new_value {
                    new_value = candidate;
                    new_weight = w;
                }
            }
        }

        best_value = new_value;
        best_weight = new_weight;
        t = t + 1;
    }

    if best_value < min_value {
        return None;
    }

    let mut items: Vec<usize> = Vec::new();
    let mut remaining_weight: usize = best_weight;
    let mut remaining_value: u64 = best_value;
    let ghost start_weight = best_weight;
    let mut t: usize = sorted.len();
    while t > 0
        invariant
            challenge.wf(),
            max_weight == challenge.max_weight as usize,
            num_items == challenge.difficulty.num_items,
            sorted@.len() == num_items,
            forall|k: int| 0 <= k < sorted@.len() ==> (#[trigger] sorted@[k]).index < num_items,
            dp@.len() == max_weight / 64 + 1,
            0 <= t <= sorted@.len(),
            start_weight <= max_weight,
            remaining_weight <= start_weight,
            forall|k: int| 0 <= k < items@.len() ==> (#[trigger] items@[k]) < num_items,
            total_weight(*challenge, items@) + remaining_weight == start_weight,
        decreases t,
    {
        t = t - 1;
        let index = sorted[t].index;
        let weight = challenge.weights[index] as usize;
        let value = challenge.values[index] as u64;
        if remaining_weight >= weight {
            let reach_bit = remaining_weight - weight;
            if (dp[reach_bit / 64] & (1u64 << ((reach_bit % 64) as u64))) != 0 {
                let ghost prev = items@;
                items.push(index);
                proof {
                    assert(prev.push(index).drop_last() =~= prev);
                }
                remaining_weight = remaining_weight - weight;
                if remaining_value <= value {
                    remaining_value = 0;
                    break;
                }
                remaining_value = remaining_value - value;
            }
        }
    }

    Some(Solution { items })
}

} // verus!
