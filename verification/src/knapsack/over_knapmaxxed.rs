//! Single-table dynamic program with early exits.
//!
//! Takes the whole instance when everything fits, otherwise bounds the best
//! achievable value by the exact greedy fractional relaxation and gives up
//! early when even the bound misses the threshold. The table walk stops as
//! soon as the threshold is reached, and the packing is re-derived from the
//! table; the walk may misattribute cells, so the contract promises valid
//! items within capacity.

use vstd::prelude::*;

use crate::knapsack::{fits_capacity, total_value, total_weight, Challenge, Solution, MAX_UNIT};
use crate::ranking::{sort_ranked_desc, Ranked};

verus! {

pub fn solve_challenge(challenge: &Challenge) -> (r: Option<Solution>)
    requires
        challenge.wf(),
    ensures
        r matches Some(s) ==> fits_capacity(*challenge, s),
{
    let max_weight = challenge.max_weight as usize;
    let min_value = challenge.min_value as u64;
    let num_items = challenge.difficulty.num_items;

    // Everything fits: take it all if it passes the threshold.
    let mut all_items: Vec<usize> = Vec::new();
    let mut sum_weights: u64 = 0;
    let mut sum_values: u64 = 0;
    let mut i: usize = 0;
    while i < num_items
        invariant
            challenge.wf(),
            num_items == challenge.difficulty.num_items,
            0 <= i <= num_items,
            all_items@.len() == i,
            forall|k: int| 0 <= k < i ==> #[trigger] all_items@[k] == k,
            sum_weights == total_weight(*challenge, all_items@),
            sum_values == total_value(*challenge, all_items@),
            sum_weights <= (i as int) * (MAX_UNIT as int),
            sum_values <= (i as int) * (MAX_UNIT as int),
        decreases num_items - i,
    {
        let ghost prev = all_items@;
        all_items.push(i);
        proof {
            assert(prev.push(i as usize).drop_last() =~= prev);
        }
        sum_weights = sum_weights + challenge.weights[i] as u64;
        sum_values = sum_values + challenge.values[i] as u64;
        i = i + 1;
    }
    if sum_weights <= max_weight as u64 && sum_values >= min_value {
        proof {
            assert forall|a: int, b: int|
                0 <= a < all_items@.len() && 0 <= b < all_items@.len() && a != b implies
                all_items@[a] != all_items@[b] by {}
        }
        return Some(Solution { items: all_items });
    }

    let mut ranked: Vec<Ranked> = Vec::new();
    let mut i: usize = 0;
    while i < num_items
        invariant
            challenge.wf(),
            num_items == challenge.difficulty.num_items,
            0 <= i <= num_items,
            ranked@.len() == i,
            forall|k: int|
                0 <= k < ranked@.len() ==> {
                    let e = #[trigger] ranked@[k];
                    e.den > 0 && e.index < num_items && e.den == challenge.weights@[
                        e.index as int
                    ] && e.num == challenge.values@[e.index as int]
                },
        decreases num_items - i,
    {
        ranked.push(
            Ranked { num: challenge.values[i] as i64, den: challenge.weights[i], index: i },
        );
        i = i + 1;
    }
    let ghost ranked0 = ranked@;
    let sorted = sort_ranked_desc(ranked);
    proof {
        assert forall|k: int|
            0 <= k < sorted@.len() implies {
            let e = #[trigger] sorted@[k];
            e.index < num_items && e.den == challenge.weights@[e.index as int] && e.num
                == challenge.values@[e.index as int]
        } by {
            assert(ranked0.contains(sorted@[k]));
            let j = choose|j: int| 0 <= j < ranked0.len() && ranked0[j] == sorted@[k];
        }
    }

    // Exact greedy fractional bound on the best achievable value.
    let mut upper_bound: u64 = 0;
    let mut remaining_weight: u64 = max_weight as u64;
    let mut t: usize = 0;
    let mut filling: usize = 1;
    while t < sorted.len() && filling == 1
        invariant
            challenge.wf(),
            num_items == challenge.difficulty.num_items,
            sorted@.len() == num_items,
            forall|k: int|
                0 <= k < sorted@.len() ==> {
                    let e = #[trigger] sorted@[k];
                    e.index < num_items && e.den == challenge.weights@[e.index as int] && e.num
                        == challenge.values@[e.index as int]
                },
            0 <= t <= sorted@.len(),
            remaining_weight <= MAX_UNIT as u64,
            upper_bound <= (t as int + 1) * (MAX_UNIT as int),
            filling <= 1,
        decreases sorted.len() - t,
    {
        let item_index = sorted[t].index;
        let item_weight = challenge.weights[item_index] as u64;
        let item_value = challenge.values[item_index] as u64;
        if item_weight <= remaining_weight {
            upper_bound = upper_bound + item_value;
            remaining_weight = remaining_weight - item_weight;
        } else {
            proof {
                crate::knapsack::lemma_unit_product_bound(item_value, remaining_weight);
                crate::knapsack::lemma_fractional_share_bound(
                    item_value as int,
                    remaining_weight as int,
                    item_weight as int,
                );
            }
            upper_bound = upper_bound + item_value * remaining_weight / item_weight;
            filling = 0;
        }
        t = t + 1;
    }
    if upper_bound < min_value {
        return None;
    }

    // Table walk with an early stop once the threshold is reached.
    let mut dp: Vec<u64> = vec![0u64; max_weight + 1];
    proof {
        assert(forall|w: int| 0 <= w < dp@.len() ==> #[trigger] dp@[w] == 0);
    }
    let mut max_value: u64 = 0;
    let mut t: usize = 0;
    while t < sorted.len() && max_value < min_value
        invariant
            challenge.wf(),
            max_weight == challenge.max_weight as usize,
            min_value == challenge.min_value as u64,
            num_items == challenge.difficulty.num_items,
            0 <= t <= sorted@.len(),
            sorted@.len() == num_items,
            forall|k: int|
                0 <= k < sorted@.len() ==> {
                    let e = #[trigger] sorted@[k];
                    e.index < num_items && e.den == challenge.weights@[e.index as int] && e.num
                        == challenge.values@[e.index as int]
                },
            dp@.len() == max_weight + 1,
            forall|w: int|
                0 <= w < dp@.len() ==> #[trigger] dp@[w] <= (t as int) * (MAX_UNIT as int),
            max_value <= (t as int) * (MAX_UNIT as int),
        decreases sorted.len() - t,
    {
        let item_index = sorted[t].index;
        let weight = challenge.weights[item_index] as usize;
        let value = challenge.values[item_index] as u64;
        let ghost dp_entry = dp@;
        let mut w: usize = max_weight + 1;
        while w > weight
            invariant
                challenge.wf(),
                max_weight == challenge.max_weight as usize,
                num_items == challenge.difficulty.num_items,
                item_index < num_items,
                weight == challenge.weights@[item_index as int] as usize,
                value == challenge.values@[item_index as int] as u64,
                w <= max_weight + 1,
                dp@.len() == max_weight + 1,
                dp_entry.len() == max_weight + 1,
                0 <= t < sorted@.len(),
                sorted@.len() == num_items,
                forall|v: int|
                    0 <= v < dp@.len() ==> #[trigger] dp@[v] <= (t as int + 1) * (MAX_UNIT as int),
                forall|v: int| 0 <= v < w ==> #[trigger] dp@[v] == dp_entry[v],
                forall|v: int|
                    0 <= v < dp@.len() ==> #[trigger] dp_entry[v] <= (t as int) * (
                    MAX_UNIT as int),
                max_value <= (t as int + 1) * (MAX_UNIT as int),
            decreases w,
        {
            w = w - 1;
            let candidate = dp[w - weight] + value;
            if candidate > dp[w] {
                dp.set(w, candidate);
            }
            if dp[w] > max_value {
                max_value = dp[w];
            }
        }
        t = t + 1;
    }

    if max_value < min_value {
        return None;
    }

    // Re-derive a packing from the table, best-ranked items last.
    let mut items: Vec<usize> = Vec::new();
    let mut w: usize = max_weight;
    let mut t: usize = sorted.len();
    while t > 0
        invariant
            challenge.wf(),
            max_weight == challenge.max_weight as usize,
            num_items == challenge.difficulty.num_items,
            sorted@.len() == num_items,
            forall|k: int|
                0 <= k < sorted@.len() ==> {
                    let e = #[trigger] sorted@[k];
                    e.index < num_items && e.den == challenge.weights@[e.index as int] && e.num
                        == challenge.values@[e.index as int]
                },
            dp@.len() == max_weight + 1,
            forall|v: int|
                0 <= v < dp@.len() ==> #[trigger] dp@[v] <= (num_items as int) * (
                MAX_UNIT as int),
            0 <= t <= sorted@.len(),
            0 <= w <= max_weight,
            forall|k: int| 0 <= k < items@.len() ==> (#[trigger] items@[k]) < num_items,
            total_weight(*challenge, items@) + w == max_weight,
        decreases t,
    {
        t = t - 1;
        if w == 0 || items.len() == num_items {
            break;
        }
        let item_index = sorted[t].index;
        let item_weight = challenge.weights[item_index] as usize;
        let item_value = challenge.values[item_index] as u64;
        if w >= item_weight && dp[w] != dp[w - item_weight] + item_value {
            let ghost prev = items@;
            items.push(item_index);
            proof {
                assert(prev.push(item_index).drop_last() =~= prev);
            }
            w = w - item_weight;
        }
    }

    Some(Solution { items })
}

} // verus!
