//! Tabulated knapsack solver proved against the Bellman optimum.
//!
//! Fills the full decision table of [`knap_opt`] and reads the packing back
//! off it. The contract is exact: a solution comes out if and only if the
//! optimum reaches the threshold, and the packing's value is that optimum,
//! which bounds every feasible packing.

use vstd::prelude::*;

use crate::knapsack::{
    items_valid, knap_opt, lemma_knap_opt_bounds, packs_within_capacity, total_value,
    total_weight, Challenge, Solution,
};

verus! {

pub fn solve_challenge(challenge: &Challenge) -> (r: Option<Solution>)
    requires
        challenge.wf(),
    ensures
        r matches Some(s) ==> packs_within_capacity(*challenge, s) && total_value(
            *challenge,
            s.items@,
        ) == knap_opt(
            *challenge,
            challenge.difficulty.num_items as int,
            challenge.max_weight as int,
        ) && total_value(*challenge, s.items@) >= challenge.min_value,
        r is None ==> knap_opt(
            *challenge,
            challenge.difficulty.num_items as int,
            challenge.max_weight as int,
        ) < challenge.min_value,
{
    let max_weight = challenge.max_weight as usize;
    let num_items = challenge.difficulty.num_items;

    // Row 0: no items, value zero everywhere.
    let mut memo: Vec<Vec<u64>> = Vec::new();
    let first_row: Vec<u64> = vec![0u64; max_weight + 1];
    proof {
        assert(forall|w: int| 0 <= w < first_row@.len() ==> #[trigger] first_row@[w] == 0);
    }
    memo.push(first_row);

    let mut k: usize = 1;
    while k <= num_items
        invariant
            challenge.wf(),
            max_weight == challenge.max_weight as usize,
            num_items == challenge.difficulty.num_items,
            1 <= k <= num_items + 1,
            memo@.len() == k,
            forall|r: int| 0 <= r < k ==> (#[trigger] memo@[r])@.len() == max_weight + 1,
            forall|r: int, w: int|
                #![trigger memo@[r]@[w]]
                0 <= r < k && 0 <= w < max_weight + 1 ==> memo@[r]@[w] == knap_opt(
                    *challenge,
                    r,
                    w,
                ),
        decreases num_items + 1 - k,
    {
        let weight = challenge.weights[k - 1] as usize;
        let value = challenge.values[k - 1] as u64;
        let mut row: Vec<u64> = Vec::new();
        let mut w: usize = 0;
        while w < max_weight + 1
            invariant
                challenge.wf(),
                max_weight == challenge.max_weight as usize,
                num_items == challenge.difficulty.num_items,
                1 <= k <= num_items,
                weight == challenge.weights@[k - 1] as usize,
                value == challenge.values@[k - 1] as u64,
                0 <= w <= max_weight + 1,
                memo@.len() == k,
                forall|r: int| 0 <= r < k ==> (#[trigger] memo@[r])@.len() == max_weight + 1,
                forall|r: int, v: int|
                    #![trigger memo@[r]@[v]]
                    0 <= r < k && 0 <= v < max_weight + 1 ==> memo@[r]@[v] == knap_opt(
                        *challenge,
                        r,
                        v,
                    ),
                row@.len() == w,
                forall|v: int|
                    0 <= v < w ==> #[trigger] row@[v] == knap_opt(*challenge, k as int, v),
            decreases max_weight + 1 - w,
        {
            proof {
                lemma_knap_opt_bounds(*challenge, k - 1, w as int);
                lemma_knap_opt_bounds(*challenge, k - 1, w - weight as int);
            }
            let cell: u64 = if weight > w {
                memo[k - 1][w]
            } else {
                let skip = memo[k - 1][w];
                let take = value + memo[k - 1][w - weight];
                if take > skip {
                    take
                } else {
                    skip
                }
            };
            row.push(cell);
            w = w + 1;
        }
        memo.push(row);
        k = k + 1;
    }

    proof {
        lemma_knap_opt_bounds(*challenge, num_items as int, max_weight as int);
    }
    let max_value = memo[num_items][max_weight];
    if max_value < challenge.min_value as u64 {
        return None;
    }

    // Walk the table decisions backwards.
    let mut items: Vec<usize> = Vec::new();
    let mut remaining_weight: usize = max_weight;
    let mut i: usize = num_items;
    while i > 0
        invariant
            challenge.wf(),
            max_weight == challenge.max_weight as usize,
            num_items == challenge.difficulty.num_items,
            0 <= i <= num_items,
            0 <= remaining_weight <= max_weight,
            memo@.len() == num_items + 1,
            forall|r: int| 0 <= r < memo@.len() ==> (#[trigger] memo@[r])@.len() == max_weight + 1,
            forall|r: int, v: int|
                #![trigger memo@[r]@[v]]
                0 <= r < memo@.len() && 0 <= v < max_weight + 1 ==> memo@[r]@[v] == knap_opt(
                    *challenge,
                    r,
                    v,
                ),
            items_valid(items@, num_items as int),
            forall|a: int| 0 <= a < items@.len() ==> i <= #[trigger] items@[a],
            items@.no_duplicates(),
            total_weight(*challenge, items@) + remaining_weight == max_weight,
            total_value(*challenge, items@) + knap_opt(*challenge, i as int, remaining_weight as int)
                == knap_opt(*challenge, num_items as int, max_weight as int),
        decreases i,
    {
        i = i - 1;
        let here = memo[i + 1][remaining_weight];
        let above = memo[i][remaining_weight];
        if here != above {
            let weight = challenge.weights[i] as usize;
            let ghost prev = items@;
            items.push(i);
            proof {
                assert(prev.push(i as usize).drop_last() =~= prev);
            }
            remaining_weight = remaining_weight - weight;
        }
    }

    Some(Solution { items })
}

} // verus!
