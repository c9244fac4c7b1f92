//! Interaction-aware greedy with swap local search.
//!
//! Ranks items by potential profit density (value plus all interactions,
//! over weight), packs greedily, then repeatedly swaps a packed item for an
//! unpacked one whenever that fits and the exact objective delta is
//! positive. The accounting is exact for instances whose interaction matrix
//! is symmetric with a zero diagonal, which the contract requires: the
//! running value always equals the quadratic objective of the current
//! selection, which also bounds the search. Any emitted solution is a
//! distinct, valid packing within capacity whose quadratic objective reaches
//! the threshold.

use vstd::prelude::*;

use crate::knapsack::{
    interactions_symmetric, inter_sum, lemma_inter_sum_bounds, lemma_quad_bounds,
    lemma_quad_insert, lemma_quad_none, lemma_sel_bounds, lemma_sel_member, lemma_sel_none,
    lemma_sel_update, lemma_selected_quad, lemma_selected_sums, packs_within_capacity, quad_total,
    quad_value, sel_weight, selected_indices, Challenge, Solution, MAX_UNIT,
};
use crate::ranking::{sort_ranked_desc, Ranked};

verus! {

/// The quadratic objective of any selection stays within this budget on a
/// well-formed instance.
const SEARCH_CEILING: i64 = 0x20_0000_0000_0000;

/// Exact objective delta of swapping packed item `i` for unpacked item `j`:
/// the value difference plus the interaction differences against every other
/// packed item.
fn swap_delta(challenge: &Challenge, sel: &Vec<bool>, i: usize, j: usize) -> (d: i64)
    requires
        challenge.wf(),
        interactions_symmetric(*challenge),
        sel@.len() == challenge.difficulty.num_items,
        i < challenge.difficulty.num_items,
        j < challenge.difficulty.num_items,
        sel@[i as int] && !sel@[j as int],
    ensures
        -0x40_0000_0000 <= d <= 0x40_0000_0000,
        d as int == quad_value(
            *challenge,
            sel@.update(i as int, false).update(j as int, true),
            challenge.difficulty.num_items as int,
        ) - quad_value(*challenge, sel@, challenge.difficulty.num_items as int),
{
    let n = challenge.difficulty.num_items;
    let ghost sel0 = sel@;
    let ghost mid = sel0.update(i as int, false);
    let mut delta: i64 = (challenge.values[j] as i64) - (challenge.values[i] as i64);
    let mut k: usize = 0;
    while k < n
        invariant
            challenge.wf(),
            n == challenge.difficulty.num_items,
            sel@ == sel0,
            mid == sel0.update(i as int, false),
            sel0[i as int] && !sel0[j as int],
            sel@.len() == n,
            i < n,
            j < n,
            0 <= k <= n,
            -((k as int + 1) * 2 * (MAX_UNIT as int)) <= delta <= (k as int + 1) * 2 * (
            MAX_UNIT as int),
            delta as int == challenge.values@[j as int] - challenge.values@[i as int] + inter_sum(
                *challenge,
                j as int,
                mid,
                k as int,
            ) - inter_sum(*challenge, i as int, mid, k as int),
        decreases n - k,
    {
        if k != i && k != j && sel[k] {
            delta = delta + (challenge.interaction_values[j][k] as i64) - (
            challenge.interaction_values[i][k] as i64);
        }
        k = k + 1;
    }
    proof {
        assert(mid.update(i as int, true) =~= sel0);
        lemma_quad_insert(*challenge, mid, i as int, n as int);
        lemma_quad_insert(*challenge, mid, j as int, n as int);
    }
    delta
}

pub fn solve_challenge(challenge: &Challenge) -> (r: Option<Solution>)
    requires
        challenge.wf(),
        interactions_symmetric(*challenge),
    ensures
        r matches Some(s) ==> packs_within_capacity(*challenge, s) && quad_total(
            *challenge,
            s.items@,
        ) >= challenge.min_value,
{
    let n = challenge.difficulty.num_items;
    let max_weight = challenge.max_weight as u64;

    // Potential profit density of each item.
    let mut ranked: Vec<Ranked> = Vec::new();
    let mut i: usize = 0;
    while i < n
        invariant
            challenge.wf(),
            n == challenge.difficulty.num_items,
            0 <= i <= n,
            ranked@.len() == i,
            forall|k: int|
                0 <= k < ranked@.len() ==> (#[trigger] ranked@[k]).den > 0 && ranked@[k].index
                    < n,
        decreases n - i,
    {
        let mut potential: i64 = challenge.values[i] as i64;
        let mut j: usize = 0;
        while j < n
            invariant
                challenge.wf(),
                n == challenge.difficulty.num_items,
                0 <= i < n,
                0 <= j <= n,
                -((j as int + 1) * (MAX_UNIT as int)) <= potential <= (j as int + 1) * (
                MAX_UNIT as int),
            decreases n - j,
        {
            potential = potential + challenge.interaction_values[i][j] as i64;
            j = j + 1;
        }
        ranked.push(Ranked { num: potential, den: challenge.weights[i], index: i });
        i = i + 1;
    }
    let ghost ranked0 = ranked@;
    let sorted = sort_ranked_desc(ranked);
    proof {
        assert forall|k: int|
            0 <= k < sorted@.len() implies (#[trigger] sorted@[k]).index < n by {
            assert(ranked0.contains(sorted@[k]));
            let w = choose|w: int| 0 <= w < ranked0.len() && ranked0[w] == sorted@[k];
        }
    }

    // Greedy packing by descending potential density.
    let mut sel: Vec<bool> = vec![false; n];
    proof {
        assert(forall|k: int| 0 <= k < sel@.len() ==> !(#[trigger] sel@[k]));
        lemma_sel_none(*challenge, sel@, n as int);
        lemma_quad_none(*challenge, sel@, n as int);
    }
    let mut total_w: u64 = 0;
    let mut total_value: i64 = 0;
    let mut t: usize = 0;
    while t < sorted.len()
        invariant
            challenge.wf(),
            interactions_symmetric(*challenge),
            n == challenge.difficulty.num_items,
            max_weight == challenge.max_weight as u64,
            sorted@.len() == n,
            forall|k: int| 0 <= k < sorted@.len() ==> (#[trigger] sorted@[k]).index < n,
            0 <= t <= n,
            sel@.len() == n,
            total_w == sel_weight(*challenge, sel@, n as int),
            total_w <= max_weight,
            total_value as int == quad_value(*challenge, sel@, n as int),
        decreases sorted.len() - t,
    {
        let item = sorted[t].index;
        let item_weight = challenge.weights[item] as u64;
        if !sel[item] && total_w + item_weight <= max_weight {
            let ghost before = sel@;
            sel.set(item, true);
            proof {
                lemma_sel_update(*challenge, before, item as int, true, n as int);
                lemma_quad_insert(*challenge, before, item as int, n as int);
                lemma_quad_bounds(*challenge, before, n as int);
            }
            total_w = total_w + item_weight;
            total_value = total_value + challenge.values[item] as i64;
            let ghost quad_before = quad_value(*challenge, before, n as int);
            let mut k: usize = 0;
            while k < n
                invariant
                    challenge.wf(),
                    interactions_symmetric(*challenge),
                    n == challenge.difficulty.num_items,
                    0 <= k <= n,
                    0 <= t < n,
                    item < n,
                    sel@.len() == n,
                    before.len() == n,
                    !before[item as int],
                    sel@ == before.update(item as int, true),
                    -SEARCH_CEILING <= quad_before <= SEARCH_CEILING as int,
                    total_value as int == quad_before + challenge.values@[item as int] + inter_sum(
                        *challenge,
                        item as int,
                        before,
                        k as int,
                    ),
                decreases n - k,
            {
                proof {
                    lemma_inter_sum_bounds(*challenge, item as int, before, k as int);
                }
                if sel[k] && k != item {
                    total_value = total_value + challenge.interaction_values[item][k] as i64;
                }
                k = k + 1;
            }
        }
        t = t + 1;
    }

    // Swap local search; the objective strictly improves on every accepted
    // swap and is bounded, so the search terminates.
    proof {
        lemma_quad_bounds(*challenge, sel@, n as int);
    }
    let mut improved: usize = 1;
    while improved == 1
        invariant
            challenge.wf(),
            interactions_symmetric(*challenge),
            n == challenge.difficulty.num_items,
            max_weight == challenge.max_weight as u64,
            sel@.len() == n,
            total_w == sel_weight(*challenge, sel@, n as int),
            total_w <= max_weight,
            total_value as int == quad_value(*challenge, sel@, n as int),
            total_value <= SEARCH_CEILING,
            improved <= 1,
        decreases SEARCH_CEILING - total_value, improved,
    {
        improved = 0;
        let ghost round_entry = total_value;
        let mut i: usize = 0;
        while i < n
            invariant
                challenge.wf(),
                interactions_symmetric(*challenge),
                n == challenge.difficulty.num_items,
                max_weight == challenge.max_weight as u64,
                sel@.len() == n,
                0 <= i <= n,
                total_w == sel_weight(*challenge, sel@, n as int),
                total_w <= max_weight,
                total_value as int == quad_value(*challenge, sel@, n as int),
                total_value <= SEARCH_CEILING,
                improved <= 1,
                improved == 1 ==> total_value > round_entry,
                total_value >= round_entry,
            decreases n - i,
        {
            let mut j: usize = 0;
            while j < n
                invariant
                    challenge.wf(),
                    interactions_symmetric(*challenge),
                    n == challenge.difficulty.num_items,
                    max_weight == challenge.max_weight as u64,
                    sel@.len() == n,
                    0 <= i < n,
                    0 <= j <= n,
                    total_w == sel_weight(*challenge, sel@, n as int),
                    total_w <= max_weight,
                    total_value as int == quad_value(*challenge, sel@, n as int),
                    total_value <= SEARCH_CEILING,
                    improved <= 1,
                    improved == 1 ==> total_value > round_entry,
                    total_value >= round_entry,
                decreases n - j,
            {
                if i != j && sel[i] && !sel[j] {
                    let w_out = challenge.weights[i] as u64;
                    let w_in = challenge.weights[j] as u64;
                    proof {
                        lemma_sel_member(*challenge, sel@, i as int, n as int);
                        lemma_sel_bounds(*challenge, sel@, i as int);
                    }
                    let candidate_w = total_w - w_out + w_in;
                    if candidate_w <= max_weight {
                        let value_diff = swap_delta(challenge, &sel, i, j);
                        proof {
                            lemma_quad_bounds(*challenge, sel@, n as int);
                        }
                        if value_diff > 0 {
                            let ghost before = sel@;
                            sel.set(i, false);
                            proof {
                                lemma_sel_update(*challenge, before, i as int, false, n as int);
                            }
                            let ghost middle = sel@;
                            sel.set(j, true);
                            proof {
                                lemma_sel_update(*challenge, middle, j as int, true, n as int);
                                assert(sel@ =~= before.update(i as int, false).update(
                                    j as int,
                                    true,
                                ));
                                lemma_quad_bounds(*challenge, sel@, n as int);
                            }
                            total_w = candidate_w;
                            total_value = total_value + value_diff;
                            improved = 1;
                        }
                    }
                }
                j = j + 1;
            }
            i = i + 1;
        }
    }

    if total_value >= challenge.min_value as i64 {
        let items = selected_indices(&sel);
        proof {
            lemma_selected_sums(*challenge, sel@, n as int);
            lemma_selected_quad(*challenge, sel@, n as int);
        }
        Some(Solution { items })
    } else {
        None
    }
}

} // verus!
