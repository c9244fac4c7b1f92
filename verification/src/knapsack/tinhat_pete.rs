//! Dynamic-programming knapsack solver over a dense value table.
//!
//! Fills a table of the best achievable value per residual capacity,
//! remembering per item and capacity whether the item improved the cell, and
//! reconstructs the packing by walking the decisions backwards.

use vstd::prelude::*;

use crate::knapsack::{
    items_valid, knap_opt, lemma_knap_opt_bounds, lemma_reverse_packing, packs_within_capacity,
    reversed, total_value, total_weight, Challenge, Solution, MAX_UNIT,
};

verus! {

pub fn solve_challenge(challenge: &Challenge) -> (r: Option<Solution>)
    requires
        challenge.wf(),
    ensures
        r matches Some(s) ==> packs_within_capacity(*challenge, s) && total_value(
            *challenge,
            s.items@,
        ) == knap_opt(
            *challenge,
            challenge.difficulty.num_items as int,
            challenge.max_weight as int,
        ) && total_value(*challenge, s.items@) >= challenge.min_value,
        r is Some <==> knap_opt(
            *challenge,
            challenge.difficulty.num_items as int,
            challenge.max_weight as int,
        ) >= challenge.min_value,
{
    let max_weight = challenge.max_weight as usize;
    let num_items = challenge.difficulty.num_items;

    let mut dp: Vec<u64> = vec![0u64; max_weight + 1];
    proof {
        assert(forall|w: int| 0 <= w < dp@.len() ==> #[trigger] dp@[w] == 0);
    }
    let mut keep: Vec<Vec<bool>> = Vec::new();
    let mut i: usize = 0;
    while i < num_items
        invariant
            0 <= i <= num_items,
            max_weight <= MAX_UNIT as usize,
            keep@.len() == i,
            forall|k: int|
                0 <= k < i ==> (#[trigger] keep@[k])@.len() == max_weight + 1,
            forall|k: int, w: int|
                #![trigger keep@[k]@[w]]
                0 <= k < i && 0 <= w < max_weight + 1 ==> !keep@[k]@[w],
        decreases num_items - i,
    {
        let row: Vec<bool> = vec![false; max_weight + 1];
        proof {
            assert(forall|w: int| 0 <= w < row@.len() ==> !(#[trigger] row@[w]));
        }
        keep.push(row);
        i = i + 1;
    }

    let mut i: usize = 0;
    while i < num_items
        invariant
            challenge.wf(),
            max_weight == challenge.max_weight as usize,
            num_items == challenge.difficulty.num_items,
            0 <= i <= num_items,
            dp@.len() == max_weight + 1,
            keep@.len() == num_items,
            forall|k: int|
                0 <= k < num_items ==> (#[trigger] keep@[k])@.len() == max_weight + 1,
            forall|w: int|
                0 <= w < dp@.len() ==> #[trigger] dp@[w] == knap_opt(*challenge, i as int, w),
            forall|k: int, w: int|
                #![trigger keep@[k]@[w]]
                0 <= k < i && 0 <= w < max_weight + 1 ==> (keep@[k]@[w] <==> knap_opt(
                    *challenge,
                    k + 1,
                    w,
                ) != knap_opt(*challenge, k, w)),
            forall|k: int, w: int|
                #![trigger keep@[k]@[w]]
                i <= k < num_items && 0 <= w < max_weight + 1 ==> !keep@[k]@[w],
        decreases num_items - i,
    {
        let item_weight = challenge.weights[i] as usize;
        let item_value = challenge.values[i] as u64;
        let mut w: usize = max_weight + 1;
        while w > item_weight
            invariant
                challenge.wf(),
                max_weight == challenge.max_weight as usize,
                num_items == challenge.difficulty.num_items,
                0 <= i < num_items,
                item_weight == challenge.weights@[i as int] as usize,
                item_value == challenge.values@[i as int] as u64,
                w <= max_weight + 1,
                dp@.len() == max_weight + 1,
                keep@.len() == num_items,
                forall|k: int|
                    0 <= k < num_items ==> (#[trigger] keep@[k])@.len() == max_weight + 1,
                forall|v: int|
                    w <= v < dp@.len() ==> #[trigger] dp@[v] == knap_opt(
                        *challenge,
                        i as int + 1,
                        v,
                    ),
                forall|v: int|
                    0 <= v < w ==> #[trigger] dp@[v] == knap_opt(*challenge, i as int, v),
                forall|k: int, v: int|
                    #![trigger keep@[k]@[v]]
                    0 <= k < i && 0 <= v < max_weight + 1 ==> (keep@[k]@[v] <==> knap_opt(
                        *challenge,
                        k + 1,
                        v,
                    ) != knap_opt(*challenge, k, v)),
                forall|v: int|
                    #![trigger keep@[i as int]@[v]]
                    w <= v < max_weight + 1 ==> (keep@[i as int]@[v] <==> knap_opt(
                        *challenge,
                        i as int + 1,
                        v,
                    ) != knap_opt(*challenge, i as int, v)),
                forall|v: int|
                    #![trigger keep@[i as int]@[v]]
                    0 <= v < w ==> !keep@[i as int]@[v],
                forall|k: int, v: int|
                    #![trigger keep@[k]@[v]]
                    i < k < num_items && 0 <= v < max_weight + 1 ==> !keep@[k]@[v],
            decreases w,
        {
            w = w - 1;
            proof {
                lemma_knap_opt_bounds(*challenge, i as int, w - item_weight as int);
            }
            let candidate = dp[w - item_weight] + item_value;
            if candidate > dp[w] {
                dp.set(w, candidate);
                let mut row = keep.remove(i);
                row.set(w, true);
                keep.insert(i, row);
            }
        }
        proof {
            assert forall|v: int| 0 <= v < dp@.len() && v < item_weight implies dp@[v]
                == knap_opt(*challenge, i as int + 1, v) by {
                assert(knap_opt(*challenge, i as int + 1, v) == knap_opt(*challenge, i as int, v));
            }
            assert forall|v: int| 0 <= v < max_weight + 1 implies (keep@[i as int]@[v]
                <==> knap_opt(*challenge, i as int + 1, v) != knap_opt(
                *challenge,
                i as int,
                v,
            )) by {
                if v < item_weight {
                    assert(knap_opt(*challenge, i as int + 1, v) == knap_opt(
                        *challenge,
                        i as int,
                        v,
                    ));
                }
            }
        }
        i = i + 1;
    }

    let optimal_value = dp[max_weight];
    if optimal_value < challenge.min_value as u64 {
        return None;
    }

    let mut picked: Vec<usize> = Vec::new();
    let mut w: usize = max_weight;
    let mut i: usize = num_items;
    proof {
        assert(total_weight(*challenge, Seq::<usize>::empty()) == 0);
        assert(total_value(*challenge, Seq::<usize>::empty()) == 0);
    }
    while i > 0
        invariant
            challenge.wf(),
            max_weight == challenge.max_weight as usize,
            num_items == challenge.difficulty.num_items,
            0 <= i <= num_items,
            0 <= w <= max_weight,
            keep@.len() == num_items,
            forall|k: int|
                0 <= k < num_items ==> (#[trigger] keep@[k])@.len() == max_weight + 1,
            forall|k: int, v: int|
                #![trigger keep@[k]@[v]]
                0 <= k < num_items && 0 <= v < max_weight + 1 ==> (keep@[k]@[v] <==> knap_opt(
                    *challenge,
                    k + 1,
                    v,
                ) != knap_opt(*challenge, k, v)),
            items_valid(picked@, num_items as int),
            forall|k: int| 0 <= k < picked@.len() ==> i <= #[trigger] picked@[k],
            picked@.no_duplicates(),
            total_weight(*challenge, picked@) + w == max_weight,
            total_value(*challenge, picked@) + knap_opt(*challenge, i as int, w as int)
                == knap_opt(*challenge, num_items as int, max_weight as int),
        decreases i,
    {
        i = i - 1;
        if keep[i][w] {
            proof {
                assert(knap_opt(*challenge, i as int + 1, w as int) != knap_opt(
                    *challenge,
                    i as int,
                    w as int,
                ));
                assert(challenge.weights@[i as int] <= w as int);
                assert(knap_opt(*challenge, i as int + 1, w as int) == challenge.values@[
                    i as int
                ] + knap_opt(*challenge, i as int, w - challenge.weights@[i as int]));
            }
            let ghost prev = picked@;
            picked.push(i);
            proof {
                assert(prev.push(i as usize).drop_last() =~= prev);
            }
            w = w - challenge.weights[i] as usize;
        }
    }

    let items = reversed(&picked);
    proof {
        lemma_reverse_packing(*challenge, picked@);
        assert(forall|k: int|
            0 <= k < items@.len() ==> (#[trigger] items@[k]) == picked@[picked@.len() - 1 - k]);
    }
    Some(Solution { items })
}

} // verus!
