//! Branch and bound over an explicit packing stack.
//!
//! Walks take/skip decisions in ranked order, carrying the packing as a
//! stack of item indices, recording an incumbent only once it beats both the
//! previous incumbent and the threshold, and pruning branches whose exact
//! fractional relaxation cannot improve on either. The relaxation is
//! admissible over the exact ratio order, so pruning loses nothing: a
//! solution comes out if and only if the Bellman optimum reaches the
//! threshold, and any emitted solution is a distinct, valid packing within
//! capacity worth at least the threshold.

use vstd::prelude::*;

use crate::knapsack::{
    clone_items, frac_bound, items_valid, knap_opt, knap_wit, lemma_frac_admissible,
    lemma_fractional_share_bound, lemma_knap_opt_achieved, lemma_packing_below_pos_opt,
    lemma_unit_product_bound, packs_within_capacity, pos_opt, ratio_ranked, total_value,
    total_weight, Challenge, Solution, MAX_UNIT,
};
use crate::ranking::{lemma_sorted_indices_distinct, sort_ranked_desc, Ranked};

verus! {

/// One ranked entry per item, all items valid, no item ranked twice.
spec fn ranking_ok(c: Challenge, sorted: Seq<Ranked>) -> bool {
    &&& sorted.len() == c.difficulty.num_items
    &&& forall|k: int|
        0 <= k < sorted.len() ==> (#[trigger] sorted[k]).index < c.difficulty.num_items
    &&& forall|a: int, b: int|
        0 <= a < sorted.len() && 0 <= b < sorted.len() && a != b ==> (#[trigger] sorted[a]).index
            != (#[trigger] sorted[b]).index
}

/// The packing stack holds items ranked before position `index`, each once.
spec fn stack_ok(c: Challenge, sorted: Seq<Ranked>, stack: Seq<usize>, index: int) -> bool {
    &&& items_valid(stack, c.difficulty.num_items as int)
    &&& stack.no_duplicates()
    &&& forall|a: int|
        0 <= a < stack.len() ==> exists|j: int|
            0 <= j < index && #[trigger] stack[a] == (#[trigger] sorted[j]).index
}

fn branch_and_bound(
    challenge: &Challenge,
    sorted: &Vec<Ranked>,
    index: usize,
    current_weight: u64,
    current_value: u64,
    best_value: &mut u64,
    best_solution: &mut Vec<usize>,
    current_solution: &mut Vec<usize>,
)
    requires
        challenge.wf(),
        ranking_ok(*challenge, sorted@),
        ratio_ranked(*challenge, sorted@),
        index <= sorted@.len(),
        stack_ok(*challenge, sorted@, old(current_solution)@, index as int),
        current_weight == total_weight(*challenge, old(current_solution)@),
        current_weight <= challenge.max_weight as u64,
        current_value == total_value(*challenge, old(current_solution)@),
        current_value <= (index as int) * (MAX_UNIT as int),
        items_valid(old(best_solution)@, challenge.difficulty.num_items as int),
        old(best_solution)@.no_duplicates(),
        total_weight(*challenge, old(best_solution)@) <= challenge.max_weight,
        *old(best_value) == total_value(*challenge, old(best_solution)@),
    ensures
        final(current_solution)@ == old(current_solution)@,
        items_valid(final(best_solution)@, challenge.difficulty.num_items as int),
        final(best_solution)@.no_duplicates(),
        total_weight(*challenge, final(best_solution)@) <= challenge.max_weight,
        *final(best_value) == total_value(*challenge, final(best_solution)@),
        *final(best_value) >= *old(best_value),
        *final(best_value) == *old(best_value) || *final(best_value)
            >= challenge.min_value as u64,
        current_value + pos_opt(*challenge, sorted@, index as int, challenge.max_weight - current_weight)
            >= challenge.min_value ==> *final(best_value) >= challenge.min_value as u64,
    decreases sorted@.len() - index,
{
    if current_value > *best_value && current_value >= challenge.min_value as u64 {
        *best_value = current_value;
        *best_solution = clone_items(current_solution);
    }

    if index >= sorted.len() {
        return ;
    }

    // Exact fractional relaxation of what this branch can still reach.
    let ghost rem0 = challenge.max_weight - current_weight;
    let mut upper_bound = current_value;
    let mut remaining_weight = challenge.max_weight as u64 - current_weight;
    let mut k = index;
    let mut filling: usize = 1;
    while k < sorted.len() && filling == 1
        invariant
            challenge.wf(),
            ranking_ok(*challenge, sorted@),
            index <= k <= sorted@.len(),
            remaining_weight <= challenge.max_weight as u64,
            current_value <= (sorted@.len() as int) * (MAX_UNIT as int),
            upper_bound >= current_value,
            upper_bound <= current_value + (k - index as int + 1 + (1 - filling as int)) * (
            MAX_UNIT as int),
            filling <= 1,
            filling == 1 ==> (upper_bound - current_value) + frac_bound(
                *challenge,
                sorted@,
                k as int,
                remaining_weight as int,
            ) == frac_bound(*challenge, sorted@, index as int, rem0),
            filling == 0 ==> upper_bound as int == current_value + frac_bound(
                *challenge,
                sorted@,
                index as int,
                rem0,
            ),
        decreases sorted.len() - k, filling,
    {
        let item = sorted[k];
        let value = challenge.values[item.index] as u64;
        let weight = challenge.weights[item.index] as u64;
        if weight <= remaining_weight {
            upper_bound = upper_bound + value;
            remaining_weight = remaining_weight - weight;
            k = k + 1;
        } else {
            proof {
                lemma_unit_product_bound(value, remaining_weight);
                lemma_fractional_share_bound(value as int, remaining_weight as int, weight as int);
            }
            upper_bound = upper_bound + value * remaining_weight / weight;
            filling = 0;
        }
    }
    proof {
        lemma_frac_admissible(*challenge, sorted@, index as int, rem0);
    }
    if upper_bound <= *best_value || upper_bound < challenge.min_value as u64 {
        return ;
    }

    let item = sorted[index];
    let item_weight = challenge.weights[item.index] as u64;
    let item_value = challenge.values[item.index] as u64;
    if current_weight + item_weight <= challenge.max_weight as u64 {
        let ghost before = current_solution@;
        current_solution.push(item.index);
        proof {
            assert(before.push(item.index).drop_last() =~= before);
            assert forall|a: int, b: int|
                0 <= a < current_solution@.len() && 0 <= b < current_solution@.len() && a != b
                    implies current_solution@[a] != current_solution@[b] by {
                if a == before.len() {
                    let j = choose|j: int|
                        0 <= j < index && before[b] == (#[trigger] sorted@[j]).index;
                    assert(current_solution@[a] == sorted@[index as int].index);
                } else if b == before.len() {
                    let j = choose|j: int|
                        0 <= j < index && before[a] == (#[trigger] sorted@[j]).index;
                    assert(current_solution@[b] == sorted@[index as int].index);
                }
            }
            assert forall|a: int| 0 <= a < current_solution@.len() implies exists|j: int|
                0 <= j < index as int + 1 && #[trigger] current_solution@[a] == (
            #[trigger] sorted@[j]).index by {
                if a < before.len() {
                    let j = choose|j: int|
                        0 <= j < index && before[a] == (#[trigger] sorted@[j]).index;
                    assert(0 <= j < index as int + 1 && current_solution@[a] == sorted@[j].index);
                } else {
                    assert(current_solution@[a] == sorted@[index as int].index);
                }
            }
        }
        branch_and_bound(
            challenge,
            sorted,
            index + 1,
            current_weight + item_weight,
            current_value + item_value,
            best_value,
            best_solution,
            current_solution,
        );
        let _last = current_solution.pop();
        proof {
            assert(current_solution@ =~= before);
        }
    }

    let ghost best_mid = *best_value;
    proof {
        assert forall|a: int| 0 <= a < current_solution@.len() implies exists|j: int|
            0 <= j < index as int + 1 && #[trigger] current_solution@[a] == (
        #[trigger] sorted@[j]).index by {
            let j = choose|j: int|
                0 <= j < index && current_solution@[a] == (#[trigger] sorted@[j]).index;
            assert(0 <= j < index as int + 1 && current_solution@[a] == sorted@[j].index);
        }
    }
    branch_and_bound(
        challenge,
        sorted,
        index + 1,
        current_weight,
        current_value,
        best_value,
        best_solution,
        current_solution,
    );
    proof {
        let cap = challenge.max_weight - current_weight;
        let wk = challenge.weights@[item.index as int] as int;
        let vk = challenge.values@[item.index as int] as int;
        if current_value + pos_opt(*challenge, sorted@, index as int, cap)
            >= challenge.min_value {
            if wk <= cap {
                let take = vk + pos_opt(*challenge, sorted@, index as int + 1, cap - wk);
                let skip = pos_opt(*challenge, sorted@, index as int + 1, cap);
                if take > skip {
                    assert(current_value + vk + pos_opt(
                        *challenge,
                        sorted@,
                        index as int + 1,
                        cap - wk,
                    ) >= challenge.min_value);
                    assert(best_mid >= challenge.min_value as u64);
                } else {
                    assert(current_value + pos_opt(*challenge, sorted@, index as int + 1, cap)
                        >= challenge.min_value);
                }
            } else {
                assert(pos_opt(*challenge, sorted@, index as int, cap) == pos_opt(
                    *challenge,
                    sorted@,
                    index as int + 1,
                    cap,
                ));
            }
        }
    }
}

pub fn solve_challenge(challenge: &Challenge) -> (r: Option<Solution>)
    requires
        challenge.wf(),
    ensures
        r matches Some(s) ==> packs_within_capacity(*challenge, s) && total_value(
            *challenge,
            s.items@,
        ) >= challenge.min_value,
        r is None ==> knap_opt(
            *challenge,
            challenge.difficulty.num_items as int,
            challenge.max_weight as int,
        ) < challenge.min_value,
{
    let num_items = challenge.difficulty.num_items;

    let mut ranked: Vec<Ranked> = Vec::new();
    let mut i: usize = 0;
    while i < num_items
        invariant
            challenge.wf(),
            num_items == challenge.difficulty.num_items,
            0 <= i <= num_items,
            ranked@.len() == i,
            forall|k: int|
                0 <= k < ranked@.len() ==> {
                    let e = #[trigger] ranked@[k];
                    e.den > 0 && e.index == k && e.num == challenge.values@[k] as i64 && e.den
                        == challenge.weights@[k]
                },
        decreases num_items - i,
    {
        ranked.push(
            Ranked { num: challenge.values[i] as i64, den: challenge.weights[i], index: i },
        );
        i = i + 1;
    }
    let ghost ranked0 = ranked@;
    let sorted = sort_ranked_desc(ranked);
    proof {
        assert forall|k: int|
            0 <= k < sorted@.len() implies {
            let e = #[trigger] sorted@[k];
            e.index < num_items && e.num == challenge.values@[e.index as int] as i64 && e.den
                == challenge.weights@[e.index as int]
        } by {
            assert(ranked0.contains(sorted@[k]));
            let j = choose|j: int| 0 <= j < ranked0.len() && ranked0[j] == sorted@[k];
        }
        lemma_sorted_indices_distinct(ranked0, sorted@);
        assert(ranking_ok(*challenge, sorted@));
        assert forall|k: int, l: int|
            0 <= k <= l < sorted@.len() implies (challenge.values@[
            (#[trigger] sorted@[k]).index as int
        ] as int) * (challenge.weights@[(#[trigger] sorted@[l]).index as int] as int) >= (
        challenge.values@[sorted@[l].index as int] as int) * (challenge.weights@[
            sorted@[k].index as int
        ] as int) by {
            assert(crate::ranking::ratio_ge(sorted@[k], sorted@[l]));
        }
        assert(ratio_ranked(*challenge, sorted@));
    }

    let mut best_value: u64 = 0;
    let mut best_solution: Vec<usize> = Vec::new();
    let mut current_solution: Vec<usize> = Vec::new();
    proof {
        assert(total_weight(*challenge, Seq::<usize>::empty()) == 0);
        assert(total_value(*challenge, Seq::<usize>::empty()) == 0);
    }

    branch_and_bound(
        challenge,
        &sorted,
        0,
        0,
        0,
        &mut best_value,
        &mut best_solution,
        &mut current_solution,
    );

    if best_value >= challenge.min_value as u64 {
        Some(Solution { items: best_solution })
    } else {
        proof {
            // The search is complete over the ranked positions, so no
            // packing reached the threshold; the Bellman witness is such a
            // packing, hence the optimum itself is below the threshold.
            lemma_knap_opt_achieved(*challenge, num_items as int, challenge.max_weight as int);
            let wit = knap_wit(*challenge, num_items as int, challenge.max_weight as int);
            assert forall|a: int| 0 <= a < wit.len() implies exists|j: int|
                0 <= j < sorted@.len() && #[trigger] wit[a] == (#[trigger] sorted@[j]).index by {
                let idx = wit[a] as int;
                assert(ranked0[idx].index == wit[a]);
                assert(ranked0.contains(ranked0[idx]));
                vstd::seq_lib::to_multiset_contains(ranked0, ranked0[idx]);
                vstd::seq_lib::to_multiset_contains(sorted@, ranked0[idx]);
                assert(sorted@.contains(ranked0[idx]));
                let j = choose|j: int| 0 <= j < sorted@.len() && sorted@[j] == ranked0[idx];
                assert(0 <= j < sorted@.len() && wit[a] == sorted@[j].index);
            }
            lemma_packing_below_pos_opt(
                *challenge,
                sorted@,
                0,
                challenge.max_weight as int,
                wit,
            );
        }
        None
    }
}

} // verus!
