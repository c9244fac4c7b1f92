//! Quadratic greedy packing refined by a swap search toward the threshold.
//!
//! Packs by potential profit density, then, if the quadratic objective still
//! misses the threshold, runs a swap search that accepts a swap only when it
//! fits and strictly improves the best objective seen, stopping early once
//! the threshold is reached. The accounting is exact for instances whose
//! interaction matrix is symmetric with a zero diagonal, which the contracts
//! require: the running value always equals the quadratic objective of the
//! current selection, which also bounds the search. Any emitted solution is
//! a distinct, valid packing within capacity whose quadratic objective
//! reaches the threshold.

use vstd::prelude::*;

use crate::knapsack::{
    interactions_symmetric, inter_sum, lemma_inter_sum_bounds, lemma_quad_bounds,
    lemma_quad_insert, lemma_quad_none, lemma_sel_bounds, lemma_sel_count_update,
    lemma_sel_member, lemma_sel_none,
    lemma_sel_update, lemma_selected_quad, lemma_selected_sums, packs_within_capacity, quad_total,
    quad_value, sel_count, sel_weight, selected_indices, Challenge, Solution, MAX_UNIT,
};
use crate::ranking::{sort_ranked_desc, Ranked};

verus! {

/// The quadratic objective of any selection stays within this budget on a
/// well-formed instance.
pub const QUAD_CEILING: i64 = 0x20_0000_0000_0000;

/// Exact objective delta of exchanging the packed one of `i`, `j` for the
/// other: the value difference plus the interaction differences against
/// every other packed item. Zero when the pair cannot be exchanged.
pub fn calculate_delta_value(challenge: &Challenge, solution: &Vec<bool>, i: usize, j: usize) -> (d:
    i64)
    requires
        challenge.wf(),
        interactions_symmetric(*challenge),
        solution@.len() == challenge.difficulty.num_items,
        i < challenge.difficulty.num_items,
        j < challenge.difficulty.num_items,
    ensures
        -0x40_0000_0000 <= d <= 0x40_0000_0000,
        solution@[i as int] == solution@[j as int] ==> d == 0,
        solution@[i as int] != solution@[j as int] ==> d as int == quad_value(
            *challenge,
            solution@.update(i as int, solution@[j as int]).update(j as int, solution@[i as int]),
            challenge.difficulty.num_items as int,
        ) - quad_value(*challenge, solution@, challenge.difficulty.num_items as int),
{
    let n = challenge.difficulty.num_items;
    let ghost sel0 = solution@;
    let mut delta: i64 = 0;
    if solution[i] && !solution[j] {
        let ghost mid = sel0.update(i as int, false);
        delta = (challenge.values[j] as i64) - (challenge.values[i] as i64);
        let mut k: usize = 0;
        while k < n
            invariant
                challenge.wf(),
                n == challenge.difficulty.num_items,
                solution@ == sel0,
                mid == sel0.update(i as int, false),
                sel0[i as int] && !sel0[j as int],
                solution@.len() == n,
                i < n,
                j < n,
                0 <= k <= n,
                -((k as int + 1) * 2 * (MAX_UNIT as int)) <= delta <= (k as int + 1) * 2 * (
                MAX_UNIT as int),
                delta as int == challenge.values@[j as int] - challenge.values@[i as int]
                    + inter_sum(*challenge, j as int, mid, k as int) - inter_sum(
                    *challenge,
                    i as int,
                    mid,
                    k as int,
                ),
            decreases n - k,
        {
            if k != i && k != j && solution[k] {
                delta = delta + (challenge.interaction_values[j][k] as i64) - (
                challenge.interaction_values[i][k] as i64);
            }
            k = k + 1;
        }
        proof {
            assert(mid.update(i as int, true) =~= sel0);
            lemma_quad_insert(*challenge, mid, i as int, n as int);
            lemma_quad_insert(*challenge, mid, j as int, n as int);
            assert(mid.update(j as int, true) =~= sel0.update(i as int, sel0[j as int]).update(
                j as int,
                sel0[i as int],
            ));
        }
    } else if !solution[i] && solution[j] {
        let ghost mid = sel0.update(j as int, false);
        delta = (challenge.values[i] as i64) - (challenge.values[j] as i64);
        let mut k: usize = 0;
        while k < n
            invariant
                challenge.wf(),
                n == challenge.difficulty.num_items,
                solution@ == sel0,
                mid == sel0.update(j as int, false),
                !sel0[i as int] && sel0[j as int],
                solution@.len() == n,
                i < n,
                j < n,
                0 <= k <= n,
                -((k as int + 1) * 2 * (MAX_UNIT as int)) <= delta <= (k as int + 1) * 2 * (
                MAX_UNIT as int),
                delta as int == challenge.values@[i as int] - challenge.values@[j as int]
                    + inter_sum(*challenge, i as int, mid, k as int) - inter_sum(
                    *challenge,
                    j as int,
                    mid,
                    k as int,
                ),
            decreases n - k,
        {
            if k != i && k != j && solution[k] {
                delta = delta + (challenge.interaction_values[i][k] as i64) - (
                challenge.interaction_values[j][k] as i64);
            }
            k = k + 1;
        }
        proof {
            assert(mid.update(j as int, true) =~= sel0);
            lemma_quad_insert(*challenge, mid, j as int, n as int);
            lemma_quad_insert(*challenge, mid, i as int, n as int);
            assert(mid.update(i as int, true) =~= sel0.update(i as int, sel0[j as int]).update(
                j as int,
                sel0[i as int],
            ));
        }
    }
    delta
}

/// Swap search: exchanges a packed and an unpacked item whenever the result
/// still fits and strictly beats the best objective seen, until the
/// threshold is reached or no swap improves. The selection stays within
/// capacity, keeps its size, and the returned best never falls below the
/// input value and always equals the objective of the final selection.
pub fn optimize_solution(
    challenge: &Challenge,
    solution: &mut Vec<bool>,
    total_weight_in: u64,
    total_value_in: i64,
) -> (best: i64)
    requires
        challenge.wf(),
        interactions_symmetric(*challenge),
        old(solution)@.len() == challenge.difficulty.num_items,
        total_weight_in == sel_weight(
            *challenge,
            old(solution)@,
            challenge.difficulty.num_items as int,
        ),
        total_weight_in <= challenge.max_weight as u64,
        total_value_in as int == quad_value(
            *challenge,
            old(solution)@,
            challenge.difficulty.num_items as int,
        ),
    ensures
        final(solution)@.len() == challenge.difficulty.num_items,
        sel_weight(*challenge, final(solution)@, challenge.difficulty.num_items as int)
            <= challenge.max_weight,
        sel_count(final(solution)@, challenge.difficulty.num_items as int) == sel_count(
            old(solution)@,
            challenge.difficulty.num_items as int,
        ),
        best as int == quad_value(
            *challenge,
            final(solution)@,
            challenge.difficulty.num_items as int,
        ),
        best >= total_value_in,
{
    let n = challenge.difficulty.num_items;
    let max_weight = challenge.max_weight as u64;
    let min_value = challenge.min_value as i64;

    let mut best_value: i64 = total_value_in;
    let mut current_weight: u64 = total_weight_in;

    proof {
        lemma_quad_bounds(*challenge, solution@, n as int);
    }
    let mut improved: usize = 1;
    while improved == 1
        invariant
            challenge.wf(),
            interactions_symmetric(*challenge),
            n == challenge.difficulty.num_items,
            max_weight == challenge.max_weight as u64,
            solution@.len() == n,
            current_weight == sel_weight(*challenge, solution@, n as int),
            current_weight <= max_weight,
            sel_count(solution@, n as int) == sel_count(old(solution)@, n as int),
            best_value as int == quad_value(*challenge, solution@, n as int),
            best_value >= total_value_in,
            best_value <= QUAD_CEILING,
            improved <= 1,
        decreases QUAD_CEILING - best_value, improved,
    {
        improved = 0;
        let mut i: usize = 0;
        let ghost round_entry = best_value;
        while i < n
            invariant
                challenge.wf(),
                interactions_symmetric(*challenge),
                n == challenge.difficulty.num_items,
                max_weight == challenge.max_weight as u64,
                solution@.len() == n,
                0 <= i <= n,
                current_weight == sel_weight(*challenge, solution@, n as int),
                current_weight <= max_weight,
                sel_count(solution@, n as int) == sel_count(old(solution)@, n as int),
                best_value as int == quad_value(*challenge, solution@, n as int),
                best_value >= total_value_in,
                best_value <= QUAD_CEILING,
                improved <= 1,
                improved == 1 ==> best_value > round_entry,
                best_value >= round_entry,
            decreases n - i,
        {
            let mut j: usize = i + 1;
            while j < n
                invariant
                    challenge.wf(),
                    interactions_symmetric(*challenge),
                    n == challenge.difficulty.num_items,
                    max_weight == challenge.max_weight as u64,
                    solution@.len() == n,
                    0 <= i < n,
                    i < j <= n,
                    current_weight == sel_weight(*challenge, solution@, n as int),
                    current_weight <= max_weight,
                    sel_count(solution@, n as int) == sel_count(old(solution)@, n as int),
                    best_value as int == quad_value(*challenge, solution@, n as int),
                    best_value >= total_value_in,
                    best_value <= QUAD_CEILING,
                    improved <= 1,
                    improved == 1 ==> best_value > round_entry,
                    best_value >= round_entry,
                decreases n - j,
            {
                if solution[i] != solution[j] {
                    let w_i = challenge.weights[i] as u64;
                    let w_j = challenge.weights[j] as u64;
                    let mut fits = false;
                    let mut new_weight: u64 = 0;
                    if solution[i] {
                        proof {
                            lemma_sel_member(*challenge, solution@, i as int, n as int);
                            lemma_sel_bounds(*challenge, solution@, i as int);
                        }
                        new_weight = current_weight - w_i + w_j;
                        fits = new_weight <= max_weight;
                    } else {
                        proof {
                            lemma_sel_member(*challenge, solution@, j as int, n as int);
                            lemma_sel_bounds(*challenge, solution@, j as int);
                        }
                        new_weight = current_weight - w_j + w_i;
                        fits = new_weight <= max_weight;
                    }
                    if fits {
                        let delta_value = calculate_delta_value(challenge, solution, i, j);
                        proof {
                            lemma_quad_bounds(*challenge, solution@, n as int);
                        }
                        let new_value = best_value + delta_value;
                        if new_value > best_value {
                            let was_i = solution[i];
                            let was_j = solution[j];
                            let ghost before = solution@;
                            solution.set(i, was_j);
                            proof {
                                lemma_sel_update(*challenge, before, i as int, was_j, n as int);
                                lemma_sel_count_update(before, i as int, was_j, n as int);
                            }
                            let ghost middle = solution@;
                            solution.set(j, was_i);
                            proof {
                                lemma_sel_update(*challenge, middle, j as int, was_i, n as int);
                                lemma_sel_count_update(middle, j as int, was_i, n as int);
                                assert(solution@ =~= before.update(i as int, was_j).update(
                                    j as int,
                                    was_i,
                                ));
                                lemma_quad_bounds(*challenge, solution@, n as int);
                            }
                            best_value = new_value;
                            current_weight = new_weight;
                            improved = 1;
                            if best_value >= min_value {
                                return best_value;
                            }
                        }
                    }
                }
                j = j + 1;
            }
            i = i + 1;
        }
    }

    best_value
}

pub fn solve_challenge(challenge: &Challenge) -> (r: Option<Solution>)
    requires
        challenge.wf(),
        interactions_symmetric(*challenge),
    ensures
        r matches Some(s) ==> packs_within_capacity(*challenge, s) && quad_total(
            *challenge,
            s.items@,
        ) >= challenge.min_value,
{
    let n = challenge.difficulty.num_items;
    let max_weight = challenge.max_weight as u64;

    let mut ranked: Vec<Ranked> = Vec::new();
    let mut i: usize = 0;
    while i < n
        invariant
            challenge.wf(),
            n == challenge.difficulty.num_items,
            0 <= i <= n,
            ranked@.len() == i,
            forall|k: int|
                0 <= k < ranked@.len() ==> (#[trigger] ranked@[k]).den > 0 && ranked@[k].index
                    < n,
        decreases n - i,
    {
        let mut potential: i64 = challenge.values[i] as i64;
        let mut j: usize = 0;
        while j < n
            invariant
                challenge.wf(),
                n == challenge.difficulty.num_items,
                0 <= i < n,
                0 <= j <= n,
                -((j as int + 1) * (MAX_UNIT as int)) <= potential <= (j as int + 1) * (
                MAX_UNIT as int),
            decreases n - j,
        {
            potential = potential + challenge.interaction_values[i][j] as i64;
            j = j + 1;
        }
        ranked.push(Ranked { num: potential, den: challenge.weights[i], index: i });
        i = i + 1;
    }
    let ghost ranked0 = ranked@;
    let sorted = sort_ranked_desc(ranked);
    proof {
        assert forall|k: int|
            0 <= k < sorted@.len() implies (#[trigger] sorted@[k]).index < n by {
            assert(ranked0.contains(sorted@[k]));
            let w = choose|w: int| 0 <= w < ranked0.len() && ranked0[w] == sorted@[k];
        }
    }

    let mut sel: Vec<bool> = vec![false; n];
    proof {
        assert(forall|k: int| 0 <= k < sel@.len() ==> !(#[trigger] sel@[k]));
        lemma_sel_none(*challenge, sel@, n as int);
        lemma_quad_none(*challenge, sel@, n as int);
    }
    let mut total_w: u64 = 0;
    let mut total_value: i64 = 0;
    let mut t: usize = 0;
    while t < sorted.len()
        invariant
            challenge.wf(),
            interactions_symmetric(*challenge),
            n == challenge.difficulty.num_items,
            max_weight == challenge.max_weight as u64,
            sorted@.len() == n,
            forall|k: int| 0 <= k < sorted@.len() ==> (#[trigger] sorted@[k]).index < n,
            0 <= t <= n,
            sel@.len() == n,
            total_w == sel_weight(*challenge, sel@, n as int),
            total_w <= max_weight,
            total_value as int == quad_value(*challenge, sel@, n as int),
        decreases sorted.len() - t,
    {
        let item = sorted[t].index;
        let item_weight = challenge.weights[item] as u64;
        if !sel[item] && total_w + item_weight <= max_weight {
            let ghost before = sel@;
            sel.set(item, true);
            proof {
                lemma_sel_update(*challenge, before, item as int, true, n as int);
                lemma_quad_insert(*challenge, before, item as int, n as int);
                lemma_quad_bounds(*challenge, before, n as int);
            }
            total_w = total_w + item_weight;
            total_value = total_value + challenge.values[item] as i64;
            let ghost quad_before = quad_value(*challenge, before, n as int);
            let mut k: usize = 0;
            while k < n
                invariant
                    challenge.wf(),
                    interactions_symmetric(*challenge),
                    n == challenge.difficulty.num_items,
                    0 <= k <= n,
                    0 <= t < n,
                    item < n,
                    sel@.len() == n,
                    sel@ == before.update(item as int, true),
                    -(QUAD_CEILING as int) <= quad_before <= QUAD_CEILING as int,
                    total_value as int == quad_before + challenge.values@[item as int]
                        + inter_sum(*challenge, item as int, sel@, k as int),
                decreases n - k,
            {
                proof {
                    lemma_inter_sum_bounds(*challenge, item as int, sel@, k as int);
                }
                if sel[k] {
                    total_value = total_value + challenge.interaction_values[item][k] as i64;
                }
                k = k + 1;
            }
            proof {
                crate::knapsack::lemma_inter_sum_flip(
                    *challenge,
                    item as int,
                    before,
                    item as int,
                    true,
                    n as int,
                );
                assert(challenge.interaction_values@[item as int]@[item as int] == 0);
            }
        }
        t = t + 1;
    }

    let mut final_value = total_value;
    if final_value < challenge.min_value as i64 {
        final_value = optimize_solution(challenge, &mut sel, total_w, total_value);
    }

    if final_value >= challenge.min_value as i64 {
        let items = selected_indices(&sel);
        proof {
            lemma_selected_sums(*challenge, sel@, n as int);
            lemma_selected_quad(*challenge, sel@, n as int);
        }
        Some(Solution { items })
    } else {
        None
    }
}

} // verus!
