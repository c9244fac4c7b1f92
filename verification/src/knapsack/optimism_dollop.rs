//! Table dynamic program gated by a blended optimistic estimate.
//!
//! Estimates the reachable value by blending two exact fractional greedy
//! limits (computed in exact integer arithmetic and combined by a rounded-up
//! weighted average), gives up early when the estimate misses the threshold,
//! and otherwise fills a value table whose cells carry their packing. Any
//! emitted solution is a distinct valid packing within capacity worth at
//! least the threshold.

use vstd::prelude::*;

use crate::knapsack::{
    clone_items, items_valid, packs_within_capacity, total_value, total_weight, Challenge,
    Solution, MAX_UNIT,
};
use crate::ranking::{sort_ranked_desc, Ranked};

verus! {

pub fn solve_challenge(challenge: &Challenge) -> (r: Option<Solution>)
    requires
        challenge.wf(),
    ensures
        r matches Some(s) ==> packs_within_capacity(*challenge, s) && total_value(
            *challenge,
            s.items@,
        ) >= challenge.min_value,
{
    let capacity = challenge.max_weight as usize;
    let passing_value = challenge.min_value as u64;
    let n = challenge.difficulty.num_items;

    let mut ranked: Vec<Ranked> = Vec::new();
    let mut i: usize = 0;
    while i < n
        invariant
            challenge.wf(),
            n == challenge.difficulty.num_items,
            0 <= i <= n,
            ranked@.len() == i,
            forall|k: int|
                0 <= k < ranked@.len() ==> (#[trigger] ranked@[k]).den > 0 && ranked@[k].index
                    < n,
        decreases n - i,
    {
        ranked.push(
            Ranked { num: challenge.values[i] as i64, den: challenge.weights[i], index: i },
        );
        i = i + 1;
    }
    let ghost ranked0 = ranked@;
    let sorted = sort_ranked_desc(ranked);
    proof {
        assert forall|k: int|
            0 <= k < sorted@.len() implies (#[trigger] sorted@[k]).index < n by {
            assert(ranked0.contains(sorted@[k]));
            let j = choose|j: int| 0 <= j < ranked0.len() && ranked0[j] == sorted@[k];
        }
    }

    // Optimistic estimate: two fractional greedy limits, kept as exact
    // fractions (numerator over the item's weight), blended 62:38 and
    // rounded up.
    let mut greedy_value: u64 = 0;
    let mut limit1_num: i128 = 0;
    let mut limit1_den: i128 = 1;
    let mut limit1_open = true;
    let mut limit2_num: i128 = 0;
    let mut limit2_den: i128 = 1;
    let mut limit2_run: u64 = 0;
    let mut remaining: u64 = capacity as u64;
    let mut t: usize = 0;
    while t < n
        invariant
            challenge.wf(),
            n == challenge.difficulty.num_items,
            sorted@.len() == n,
            forall|k: int| 0 <= k < sorted@.len() ==> (#[trigger] sorted@[k]).index < n,
            0 <= t <= n,
            remaining <= challenge.max_weight as u64,
            greedy_value <= (t as int) * (MAX_UNIT as int),
            1 <= limit1_den <= 0x10_0000,
            0 <= limit1_num <= 0x100_0000_0000_0000_0000,
            1 <= limit2_den <= 0x10_0000,
            0 <= limit2_num <= 0x100_0000_0000_0000_0000,
            limit2_run <= t as u64,
        decreases n - t,
    {
        let item = sorted[t].index;
        let item_weight = challenge.weights[item] as u64;
        let item_value = challenge.values[item] as u64;

        if item_weight > remaining {
            if limit1_open && t > 0 {
                let last = sorted[t - 1].index;
                let last_weight = challenge.weights[last] as i128;
                let last_value = challenge.values[last] as i128;
                proof {
                    crate::knapsack::lemma_mul_le(
                        greedy_value as int,
                        last_weight as int,
                        0x1_0000_0000_0000,
                        0x10_0000,
                    );
                    crate::knapsack::lemma_mul_le(
                        remaining as int,
                        last_value as int,
                        0x10_0000,
                        0x10_0000,
                    );
                }
                limit1_num = (greedy_value as i128) * last_weight + (remaining as i128)
                    * last_value;
                limit1_den = last_weight;
                limit1_open = false;
                t = t + 1;
                continue ;
            }
            limit2_run = limit2_run + 1;
            if limit2_run == 1 {
                let w128 = item_weight as i128;
                let v128 = item_value as i128;
                proof {
                    crate::knapsack::lemma_mul_le(
                        greedy_value as int,
                        w128 as int,
                        0x1_0000_0000_0000,
                        0x10_0000,
                    );
                    crate::knapsack::lemma_mul_le(remaining as int, v128 as int, 0x10_0000, 0x10_0000);
                }
                limit2_num = (greedy_value as i128) * w128 + (remaining as i128) * v128;
                limit2_den = w128;
            }
            t = t + 1;
            continue ;
        }

        limit2_run = 0;
        greedy_value = greedy_value + item_value;
        remaining = remaining - item_weight;
        t = t + 1;
    }

    // estimate = ceil(0.62 * limit1 + 0.38 * limit2), over the common
    // denominator 100 * limit1_den * limit2_den.
    proof {
        crate::knapsack::lemma_mul_le(
            limit1_num as int,
            limit2_den as int,
            0x100_0000_0000_0000_0000,
            0x10_0000,
        );
        crate::knapsack::lemma_mul_le(
            limit2_num as int,
            limit1_den as int,
            0x100_0000_0000_0000_0000,
            0x10_0000,
        );
        crate::knapsack::lemma_mul_le(
            limit1_den as int,
            limit2_den as int,
            0x10_0000,
            0x10_0000,
        );
        assert(limit1_den * limit2_den >= 1) by (nonlinear_arith)
            requires
                limit1_den >= 1,
                limit2_den >= 1,
        ;
    }
    let blended_num = 62 * (limit1_num * limit2_den) + 38 * (limit2_num * limit1_den);
    let blended_den = 100 * (limit1_den * limit2_den);
    let estimate = (blended_num + blended_den - 1) / blended_den;

    if estimate < passing_value as i128 {
        return None;
    }

    // Value table whose cells carry the packing that produced them.
    let mut dp: Vec<u64> = vec![0u64; capacity + 1];
    proof {
        assert(forall|w: int| 0 <= w < dp@.len() ==> #[trigger] dp@[w] == 0);
    }
    let mut cells: Vec<Vec<usize>> = Vec::new();
    let mut c: usize = 0;
    while c < capacity + 1
        invariant
            challenge.wf(),
            capacity == challenge.max_weight as usize,
            0 <= c <= capacity + 1,
            cells@.len() == c,
            forall|j: int| 0 <= j < c ==> (#[trigger] cells@[j])@.len() == 0,
        decreases capacity + 1 - c,
    {
        cells.push(Vec::new());
        c = c + 1;
    }

    let mut i: usize = 0;
    while i < n
        invariant
            challenge.wf(),
            capacity == challenge.max_weight as usize,
            n == challenge.difficulty.num_items,
            0 <= i <= n,
            dp@.len() == capacity + 1,
            cells@.len() == capacity + 1,
            forall|j: int|
                #![trigger cells@[j]]
                0 <= j < cells@.len() ==> {
                    let cell = cells@[j]@;
                    &&& items_valid(cell, i as int)
                    &&& cell.no_duplicates()
                    &&& cell.len() <= i
                    &&& total_weight(*challenge, cell) <= j
                    &&& total_value(*challenge, cell) == dp@[j]
                },
        decreases n - i,
    {
        let w_i = challenge.weights[i] as usize;
        let v_i = challenge.values[i] as u64;
        let mut c: usize = capacity + 1;
        while c > w_i
            invariant
                challenge.wf(),
                capacity == challenge.max_weight as usize,
                n == challenge.difficulty.num_items,
                0 <= i < n,
                w_i == challenge.weights@[i as int] as usize,
                v_i == challenge.values@[i as int] as u64,
                w_i >= 1,
                c <= capacity + 1,
                dp@.len() == capacity + 1,
                cells@.len() == capacity + 1,
                forall|j: int|
                    #![trigger cells@[j]]
                    0 <= j < cells@.len() ==> {
                        let cell = cells@[j]@;
                        &&& items_valid(cell, i as int + 1)
                        &&& cell.no_duplicates()
                        &&& cell.len() <= i + 1
                        &&& total_weight(*challenge, cell) <= j
                        &&& total_value(*challenge, cell) == dp@[j]
                    },
                forall|j: int|
                    #![trigger cells@[j]]
                    0 <= j < c ==> items_valid(cells@[j]@, i as int) && cells@[j]@.len() <= i,
            decreases c,
        {
            c = c - 1;
            proof {
                assert(cells@[c - w_i as int]@.len() <= i);
                crate::knapsack::lemma_totals_bound(*challenge, cells@[c - w_i as int]@);
            }
            let take = dp[c - w_i] + v_i;
            if dp[c] < take {
                dp.set(c, take);
                let mut cell = clone_items(&cells[c - w_i]);
                let ghost prev = cell@;
                cell.push(i);
                proof {
                    assert(prev.push(i as usize).drop_last() =~= prev);
                    assert forall|a: int, b: int|
                        0 <= a < cell@.len() && 0 <= b < cell@.len() && a != b implies cell@[a]
                        != cell@[b] by {
                        if a == prev.len() {
                            assert(prev[b] < i);
                        } else if b == prev.len() {
                            assert(prev[a] < i);
                        }
                    }
                }
                cells.set(c, cell);
            }
        }
        i = i + 1;
    }

    if dp[capacity] >= passing_value {
        let items = clone_items(&cells[capacity]);
        Some(Solution { items })
    } else {
        None
    }
}

} // verus!
