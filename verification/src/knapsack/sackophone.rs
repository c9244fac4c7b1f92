//! Value table over ranked items with an interleaved relaxation bound.
//!
//! Items are ranked by a coarse integer density key; while the table fills,
//! the exact greedy fractional bound is accumulated and the solver gives up
//! as soon as the bound shows the threshold is unreachable. Decision rows
//! are kept per ranked position and replayed backwards for the packing.

use vstd::prelude::*;

use crate::knapsack::{
    fits_capacity, lemma_fractional_share_bound, lemma_unit_product_bound, total_weight,
    Challenge, Solution, MAX_UNIT,
};
use crate::ranking::{sort_ranked_desc, Ranked};

verus! {

pub fn solve_challenge(challenge: &Challenge) -> (r: Option<Solution>)
    requires
        challenge.wf(),
    ensures
        r matches Some(s) ==> fits_capacity(*challenge, s),
{
    let max_weight = challenge.max_weight as usize;
    let min_value = challenge.min_value as u64;
    let num_items = challenge.difficulty.num_items;

    let mut ranked: Vec<Ranked> = Vec::new();
    let mut i: usize = 0;
    while i < num_items
        invariant
            challenge.wf(),
            num_items == challenge.difficulty.num_items,
            0 <= i <= num_items,
            ranked@.len() == i,
            forall|k: int|
                0 <= k < ranked@.len() ==> (#[trigger] ranked@[k]).den > 0 && ranked@[k].index
                    < num_items,
        decreases num_items - i,
    {
        proof {
            lemma_unit_product_bound(challenge.values@[i as int] as u64, 1000);
        }
        let key = (challenge.values[i] as u64) * 1000 / (challenge.weights[i] as u64);
        ranked.push(Ranked { num: key as i64, den: 1, index: i });
        i = i + 1;
    }
    let ghost ranked0 = ranked@;
    let sorted = sort_ranked_desc(ranked);
    proof {
        assert forall|k: int|
            0 <= k < sorted@.len() implies (#[trigger] sorted@[k]).index < num_items by {
            assert(ranked0.contains(sorted@[k]));
            let j = choose|j: int| 0 <= j < ranked0.len() && ranked0[j] == sorted@[k];
        }
    }

    let mut dp: Vec<u64> = vec![0u64; max_weight + 1];
    proof {
        assert(forall|w: int| 0 <= w < dp@.len() ==> #[trigger] dp@[w] == 0);
    }
    let mut keep: Vec<Vec<bool>> = Vec::new();
    let mut t: usize = 0;
    while t < num_items
        invariant
            0 <= t <= num_items,
            max_weight <= MAX_UNIT as usize,
            keep@.len() == t,
            forall|k: int| 0 <= k < t ==> (#[trigger] keep@[k])@.len() == max_weight + 1,
            forall|k: int, w: int|
                #![trigger keep@[k]@[w]]
                0 <= k < t && 0 <= w < max_weight + 1 ==> !keep@[k]@[w],
        decreases num_items - t,
    {
        let row: Vec<bool> = vec![false; max_weight + 1];
        proof {
            assert(forall|w: int| 0 <= w < row@.len() ==> !(#[trigger] row@[w]));
        }
        keep.push(row);
        t = t + 1;
    }

    let mut upper_bound: u64 = 0;
    let mut remaining_weight: u64 = max_weight as u64;
    let mut t: usize = 0;
    while t < sorted.len() && dp[max_weight] < min_value
        invariant
            challenge.wf(),
            max_weight == challenge.max_weight as usize,
            min_value == challenge.min_value as u64,
            num_items == challenge.difficulty.num_items,
            0 <= t <= sorted@.len(),
            sorted@.len() == num_items,
            forall|k: int| 0 <= k < sorted@.len() ==> (#[trigger] sorted@[k]).index < num_items,
            dp@.len() == max_weight + 1,
            forall|w: int|
                0 <= w < dp@.len() ==> #[trigger] dp@[w] <= (t as int) * (MAX_UNIT as int),
            keep@.len() == num_items,
            forall|k: int|
                0 <= k < num_items ==> (#[trigger] keep@[k])@.len() == max_weight + 1,
            forall|k: int, w: int|
                #![trigger keep@[k]@[w]]
                0 <= k < num_items && 0 <= w < max_weight + 1 && keep@[k]@[w]
                    ==> challenge.weights@[sorted@[k].index as int] <= w,
            remaining_weight <= MAX_UNIT as u64,
            upper_bound <= (t as int + 1) * (MAX_UNIT as int),
        decreases sorted.len() - t,
    {
        let index = sorted[t].index;
        let weight = challenge.weights[index] as usize;
        let value = challenge.values[index] as u64;

        if weight as u64 <= remaining_weight {
            upper_bound = upper_bound + value;
            remaining_weight = remaining_weight - weight as u64;
        } else {
            proof {
                lemma_unit_product_bound(value, remaining_weight);
                lemma_fractional_share_bound(
                    value as int,
                    remaining_weight as int,
                    weight as int,
                );
            }
            let mut fractional = value * remaining_weight / (weight as u64);
            if fractional > value {
                fractional = value;
            }
            upper_bound = upper_bound + fractional;
            if upper_bound < min_value {
                return None;
            }
            remaining_weight = 0;
        }

        let ghost dp_entry = dp@;
        let mut w: usize = max_weight + 1;
        while w > weight
            invariant
                challenge.wf(),
                max_weight == challenge.max_weight as usize,
                num_items == challenge.difficulty.num_items,
                index < num_items,
                index == sorted@[t as int].index,
                weight == challenge.weights@[index as int] as usize,
                value == challenge.values@[index as int] as u64,
                w <= max_weight + 1,
                dp@.len() == max_weight + 1,
                dp_entry.len() == max_weight + 1,
                0 <= t < sorted@.len(),
                sorted@.len() == num_items,
                forall|v: int|
                    0 <= v < dp@.len() ==> #[trigger] dp@[v] <= (t as int + 1) * (MAX_UNIT as int),
                forall|v: int| 0 <= v < w ==> #[trigger] dp@[v] == dp_entry[v],
                forall|v: int|
                    0 <= v < dp@.len() ==> #[trigger] dp_entry[v] <= (t as int) * (
                    MAX_UNIT as int),
                keep@.len() == num_items,
                forall|k: int|
                    0 <= k < num_items ==> (#[trigger] keep@[k])@.len() == max_weight + 1,
                forall|k: int, v: int|
                    #![trigger keep@[k]@[v]]
                    0 <= k < num_items && 0 <= v < max_weight + 1 && keep@[k]@[v]
                        ==> challenge.weights@[sorted@[k].index as int] <= v,
            decreases w,
        {
            w = w - 1;
            let new_value = dp[w - weight] + value;
            if new_value > dp[w] {
                dp.set(w, new_value);
                let mut row = keep.remove(t);
                row.set(w, true);
                keep.insert(t, row);
            }
        }
        t = t + 1;
    }

    if dp[max_weight] < min_value {
        return None;
    }

    let mut items: Vec<usize> = Vec::new();
    let mut w: usize = max_weight;
    let mut t: usize = num_items;
    while t > 0
        invariant
            challenge.wf(),
            max_weight == challenge.max_weight as usize,
            num_items == challenge.difficulty.num_items,
            sorted@.len() == num_items,
            forall|k: int| 0 <= k < sorted@.len() ==> (#[trigger] sorted@[k]).index < num_items,
            0 <= t <= num_items,
            0 <= w <= max_weight,
            keep@.len() == num_items,
            forall|k: int|
                0 <= k < num_items ==> (#[trigger] keep@[k])@.len() == max_weight + 1,
            forall|k: int, v: int|
                #![trigger keep@[k]@[v]]
                0 <= k < num_items && 0 <= v < max_weight + 1 && keep@[k]@[v]
                    ==> challenge.weights@[sorted@[k].index as int] <= v,
            forall|k: int| 0 <= k < items@.len() ==> (#[trigger] items@[k]) < num_items,
            total_weight(*challenge, items@) + w == max_weight,
        decreases t,
    {
        t = t - 1;
        if keep[t][w] {
            let index = sorted[t].index;
            let ghost prev = items@;
            items.push(index);
            proof {
                assert(prev.push(index).drop_last() =~= prev);
            }
            w = w - challenge.weights[index] as usize;
        }
        if w == 0 {
            break;
        }
    }

    Some(Solution { items })
}

} // verus!
