//! Flat dynamic program over ratio-ranked items.
//!
//! Ranks items by exact value-to-weight ratio and folds them into a single
//! value table, returning a one-item packing as soon as an item alone
//! reaches the threshold. Otherwise it greedily re-derives a packing from
//! the final table; that walk is heuristic and may revisit an item, so the
//! emitted packing is measured against the threshold before it is emitted:
//! a solution comes out only when it fits the capacity and carries at least
//! the threshold value.

use vstd::prelude::*;

use crate::knapsack::{
    fits_capacity, lemma_totals_bound, measure_value, total_value, total_weight, Challenge,
    Solution, MAX_UNIT,
};
use crate::ranking::{sort_ranked_desc, Ranked};

verus! {

pub fn solve_challenge(challenge: &Challenge) -> (r: Option<Solution>)
    requires
        challenge.wf(),
    ensures
        r matches Some(s) ==> fits_capacity(*challenge, s) && total_value(*challenge, s.items@)
            >= challenge.min_value,
{
    let max_weight = challenge.max_weight as usize;
    let min_value = challenge.min_value as u64;
    let num_items = challenge.difficulty.num_items;

    let mut ranked: Vec<Ranked> = Vec::new();
    let mut i: usize = 0;
    while i < num_items
        invariant
            challenge.wf(),
            num_items == challenge.difficulty.num_items,
            0 <= i <= num_items,
            ranked@.len() == i,
            forall|k: int|
                0 <= k < ranked@.len() ==> {
                    let e = #[trigger] ranked@[k];
                    e.den > 0 && e.index < num_items && e.den == challenge.weights@[
                        e.index as int
                    ] && e.num == challenge.values@[e.index as int]
                },
        decreases num_items - i,
    {
        ranked.push(
            Ranked { num: challenge.values[i] as i64, den: challenge.weights[i], index: i },
        );
        i = i + 1;
    }
    let ghost ranked0 = ranked@;
    let sorted = sort_ranked_desc(ranked);
    proof {
        assert forall|k: int|
            0 <= k < sorted@.len() implies {
            let e = #[trigger] sorted@[k];
            e.index < num_items && e.den == challenge.weights@[e.index as int] && e.num
                == challenge.values@[e.index as int]
        } by {
            assert(ranked0.contains(sorted@[k]));
            let j = choose|j: int| 0 <= j < ranked0.len() && ranked0[j] == sorted@[k];
        }
    }

    let mut dp: Vec<u64> = vec![0u64; max_weight + 1];
    proof {
        assert(forall|w: int| 0 <= w < dp@.len() ==> #[trigger] dp@[w] == 0);
    }
    let mut t: usize = 0;
    while t < sorted.len()
        invariant
            challenge.wf(),
            max_weight == challenge.max_weight as usize,
            min_value == challenge.min_value as u64,
            num_items == challenge.difficulty.num_items,
            0 <= t <= sorted@.len(),
            sorted@.len() == num_items,
            forall|k: int|
                0 <= k < sorted@.len() ==> {
                    let e = #[trigger] sorted@[k];
                    e.index < num_items && e.den == challenge.weights@[e.index as int] && e.num
                        == challenge.values@[e.index as int]
                },
            dp@.len() == max_weight + 1,
            forall|w: int|
                0 <= w < dp@.len() ==> #[trigger] dp@[w] <= (t as int) * (MAX_UNIT as int),
        decreases sorted.len() - t,
    {
        let item_index = sorted[t].index;
        let weight = challenge.weights[item_index] as usize;
        let value = challenge.values[item_index] as u64;
        let ghost dp_entry = dp@;
        let mut w: usize = max_weight + 1;
        while w > weight
            invariant
                challenge.wf(),
                max_weight == challenge.max_weight as usize,
                min_value == challenge.min_value as u64,
                num_items == challenge.difficulty.num_items,
                item_index < num_items,
                weight == challenge.weights@[item_index as int] as usize,
                value == challenge.values@[item_index as int] as u64,
                w <= max_weight + 1,
                dp@.len() == max_weight + 1,
                dp_entry.len() == max_weight + 1,
                0 <= t < sorted@.len(),
                sorted@.len() == num_items,
                forall|v: int|
                    0 <= v < dp@.len() ==> #[trigger] dp@[v] <= (t as int + 1) * (MAX_UNIT as int),
                forall|v: int| 0 <= v < w ==> #[trigger] dp@[v] == dp_entry[v],
                forall|v: int|
                    0 <= v < dp@.len() ==> #[trigger] dp_entry[v] <= (t as int) * (
                    MAX_UNIT as int),
            decreases w,
        {
            w = w - 1;
            let candidate = dp[w - weight] + value;
            if candidate > dp[w] {
                dp.set(w, candidate);
            }
            if dp[w] >= min_value && value >= min_value {
                let mut items: Vec<usize> = Vec::new();
                items.push(item_index);
                proof {
                    assert(items@.drop_last() =~= Seq::<usize>::empty());
                    assert(total_weight(*challenge, Seq::<usize>::empty()) == 0);
                    assert(total_value(*challenge, Seq::<usize>::empty()) == 0);
                    assert(total_weight(*challenge, items@) == challenge.weights@[
                        item_index as int
                    ]);
                    assert(total_value(*challenge, items@) == challenge.values@[
                        item_index as int
                    ]);
                }
                return Some(Solution { items });
            }
        }
        t = t + 1;
    }

    let mut items: Vec<usize> = Vec::new();
    let mut w: usize = max_weight;
    let mut live: usize = 1;
    while live == 1 && w > 0
        invariant
            challenge.wf(),
            max_weight == challenge.max_weight as usize,
            num_items == challenge.difficulty.num_items,
            sorted@.len() == num_items,
            forall|k: int|
                0 <= k < sorted@.len() ==> {
                    let e = #[trigger] sorted@[k];
                    e.index < num_items && e.den == challenge.weights@[e.index as int] && e.num
                        == challenge.values@[e.index as int]
                },
            dp@.len() == max_weight + 1,
            forall|v: int|
                0 <= v < dp@.len() ==> #[trigger] dp@[v] <= (num_items as int) * (
                MAX_UNIT as int),
            0 <= w <= max_weight,
            live <= 1,
            forall|k: int| 0 <= k < items@.len() ==> (#[trigger] items@[k]) < num_items,
            total_weight(*challenge, items@) + w == max_weight,
        decreases live, w,
    {
        // First ranked item that fits and explains the current table cell.
        let mut sel: usize = num_items;
        let mut k: usize = 0;
        while k < num_items && sel == num_items
            invariant
                challenge.wf(),
                num_items == challenge.difficulty.num_items,
                sorted@.len() == num_items,
                forall|j: int|
                    0 <= j < sorted@.len() ==> {
                        let e = #[trigger] sorted@[j];
                        e.index < num_items && e.den == challenge.weights@[e.index as int]
                            && e.num == challenge.values@[e.index as int]
                    },
                0 < w <= max_weight,
                max_weight == challenge.max_weight as usize,
                dp@.len() == max_weight + 1,
                forall|v: int|
                    0 <= v < dp@.len() ==> #[trigger] dp@[v] <= (num_items as int) * (
                    MAX_UNIT as int),
                0 <= k <= num_items,
                sel == num_items || (sel < num_items && challenge.weights@[
                    sorted@[sel as int].index as int
                ] <= w),
            decreases num_items - k,
        {
            let e_index = sorted[k].index;
            let e_weight = challenge.weights[e_index] as usize;
            let e_value = challenge.values[e_index] as u64;
            if e_weight <= w && dp[w] == dp[w - e_weight] + e_value {
                sel = k;
            }
            k = k + 1;
        }
        if sel < num_items {
            let e_index = sorted[sel].index;
            let e_weight = challenge.weights[e_index] as usize;
            let ghost prev = items@;
            items.push(e_index);
            proof {
                assert(prev.push(e_index).drop_last() =~= prev);
            }
            w = w - e_weight;
        } else {
            live = 0;
        }
    }

    proof {
        lemma_totals_bound(*challenge, items@);
    }
    let packed_value = measure_value(challenge, &items);
    if dp[max_weight] >= challenge.min_value as u64 && packed_value >= challenge.min_value as u64 {
        Some(Solution { items })
    } else {
        None
    }
}

} // verus!
