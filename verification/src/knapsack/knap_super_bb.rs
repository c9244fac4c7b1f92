//! Depth-first branch and bound over ratio-ranked items.
//!
//! Explores take/skip decisions in ranked order, pruning any branch whose
//! exact fractional relaxation cannot beat the incumbent or reach the
//! threshold. The relaxation is admissible over the exact ratio order, so
//! pruning loses nothing: a solution comes out if and only if the Bellman
//! optimum reaches the threshold, and any emitted solution is a distinct,
//! valid packing worth at least the threshold.

use vstd::prelude::*;

use crate::knapsack::{
    clone_flags, frac_bound, knap_opt, knap_wit, lemma_frac_admissible,
    lemma_fractional_share_bound, lemma_knap_opt_achieved, lemma_packing_below_pos_opt,
    lemma_sel_bounds, lemma_sel_none, lemma_sel_update, lemma_selected_sums,
    lemma_unit_product_bound, packs_within_capacity, pos_opt, ratio_ranked, sel_value, sel_weight,
    selected_indices, total_value, Challenge, Solution, MAX_UNIT,
};
use crate::ranking::{lemma_sorted_indices_distinct, sort_ranked_desc, Ranked};

verus! {

/// The ranked view of the instance the search walks over: one entry per
/// item, each ranking a distinct valid item.
spec fn ranked_view_ok(c: Challenge, sorted: Seq<Ranked>) -> bool {
    &&& sorted.len() == c.difficulty.num_items
    &&& forall|k: int|
        0 <= k < sorted.len() ==> (#[trigger] sorted[k]).index < c.difficulty.num_items
    &&& forall|a: int, b: int|
        0 <= a < sorted.len() && 0 <= b < sorted.len() && a != b ==> (#[trigger] sorted[a]).index
            != (#[trigger] sorted[b]).index
}

/// Exact fractional relaxation of the best profit reachable from ranked
/// position `i` with `w` packed weight and `p` packed profit.
fn calculate_upper_bound(challenge: &Challenge, sorted: &Vec<Ranked>, i: usize, w: u64, p: u64) ->
    (ub: u64)
    requires
        challenge.wf(),
        ranked_view_ok(*challenge, sorted@),
        i <= sorted@.len(),
        w <= challenge.max_weight as u64,
        p <= (sorted@.len() as int) * (MAX_UNIT as int),
    ensures
        ub >= p,
        ub as int == p + frac_bound(
            *challenge,
            sorted@,
            i as int,
            challenge.max_weight - w,
        ),
{
    let ghost rem0 = challenge.max_weight - w;
    let mut ub = p;
    let mut remaining_weight = challenge.max_weight as u64 - w;
    let mut k = i;
    let mut filling: usize = 1;
    while k < sorted.len() && filling == 1
        invariant
            challenge.wf(),
            ranked_view_ok(*challenge, sorted@),
            i <= k <= sorted@.len(),
            remaining_weight <= challenge.max_weight as u64,
            p <= (sorted@.len() as int) * (MAX_UNIT as int),
            ub >= p,
            ub <= p + (k - i as int + 1 + (1 - filling as int)) * (MAX_UNIT as int),
            filling <= 1,
            filling == 1 ==> (ub - p) + frac_bound(
                *challenge,
                sorted@,
                k as int,
                remaining_weight as int,
            ) == frac_bound(*challenge, sorted@, i as int, rem0),
            filling == 0 ==> ub as int == p + frac_bound(*challenge, sorted@, i as int, rem0),
        decreases sorted.len() - k, filling,
    {
        let index = sorted[k].index;
        let value = challenge.values[index] as u64;
        let weight = challenge.weights[index] as u64;
        if weight <= remaining_weight {
            remaining_weight = remaining_weight - weight;
            ub = ub + value;
            k = k + 1;
        } else {
            proof {
                lemma_unit_product_bound(value, remaining_weight);
                lemma_fractional_share_bound(value as int, remaining_weight as int, weight as int);
            }
            ub = ub + value * remaining_weight / weight;
            filling = 0;
        }
    }
    ub
}

/// One take/skip search step. The current selection holds exactly weight `w`
/// and profit `p` and touches no item ranked at or after `i`; the incumbent
/// stays a within-capacity selection worth exactly the incumbent profit,
/// which never decreases.
fn branch_and_bound(
    challenge: &Challenge,
    sorted: &Vec<Ranked>,
    i: usize,
    w: u64,
    p: u64,
    current: &mut Vec<bool>,
    best: &mut Vec<bool>,
    best_profit: &mut u64,
)
    requires
        challenge.wf(),
        ranked_view_ok(*challenge, sorted@),
        i <= sorted@.len(),
        old(current)@.len() == challenge.difficulty.num_items,
        old(best)@.len() == challenge.difficulty.num_items,
        w == sel_weight(*challenge, old(current)@, challenge.difficulty.num_items as int),
        w <= challenge.max_weight as u64,
        p == sel_value(*challenge, old(current)@, challenge.difficulty.num_items as int),
        forall|k: int|
            i <= k < sorted@.len() ==> !old(current)@[sorted@[k].index as int],
        sel_weight(*challenge, old(best)@, challenge.difficulty.num_items as int)
            <= challenge.max_weight,
        *old(best_profit) == sel_value(
            *challenge,
            old(best)@,
            challenge.difficulty.num_items as int,
        ),
        ratio_ranked(*challenge, sorted@),
    ensures
        final(current)@ == old(current)@,
        final(best)@.len() == challenge.difficulty.num_items,
        sel_weight(*challenge, final(best)@, challenge.difficulty.num_items as int)
            <= challenge.max_weight,
        *final(best_profit) == sel_value(
            *challenge,
            final(best)@,
            challenge.difficulty.num_items as int,
        ),
        *final(best_profit) >= *old(best_profit),
        p + pos_opt(*challenge, sorted@, i as int, challenge.max_weight - w)
            >= challenge.min_value ==> *final(best_profit) >= challenge.min_value as u64,
    decreases sorted@.len() - i,
{
    let ghost n = challenge.difficulty.num_items as int;
    proof {
        lemma_sel_bounds(*challenge, current@, n);
    }
    let ub = calculate_upper_bound(challenge, sorted, i, w, p);
    proof {
        lemma_frac_admissible(*challenge, sorted@, i as int, challenge.max_weight - w);
    }
    if ub <= *best_profit || ub < challenge.min_value as u64 {
        return ;
    }

    if p > *best_profit {
        *best_profit = p;
        *best = clone_flags(current);
    }

    if i < sorted.len() {
        let item_index = sorted[i].index;
        let value = challenge.values[item_index] as u64;
        let weight = challenge.weights[item_index] as u64;
        let mut took = false;
        if w + weight <= challenge.max_weight as u64 {
            let ghost before = current@;
            current.set(item_index, true);
            proof {
                lemma_sel_update(*challenge, before, item_index as int, true, n);
            }
            branch_and_bound(
                challenge,
                sorted,
                i + 1,
                w + weight,
                p + value,
                current,
                best,
                best_profit,
            );
            current.set(item_index, false);
            proof {
                assert(current@ =~= before);
            }
            took = true;
        }
        let ghost best_mid = *best_profit;
        let ghost took_reached = took && best_mid >= challenge.min_value as u64;
        branch_and_bound(challenge, sorted, i + 1, w, p, current, best, best_profit);
        proof {
            let cap = challenge.max_weight - w;
            let wk = challenge.weights@[item_index as int] as int;
            let vk = challenge.values@[item_index as int] as int;
            if p + pos_opt(*challenge, sorted@, i as int, cap) >= challenge.min_value {
                if wk <= cap {
                    let take = vk + pos_opt(*challenge, sorted@, i as int + 1, cap - wk);
                    let skip = pos_opt(*challenge, sorted@, i as int + 1, cap);
                    if take > skip {
                        assert(p + vk + pos_opt(*challenge, sorted@, i as int + 1, cap - wk)
                            >= challenge.min_value);
                        assert(best_mid >= challenge.min_value as u64);
                    } else {
                        assert(p + pos_opt(*challenge, sorted@, i as int + 1, cap)
                            >= challenge.min_value);
                    }
                } else {
                    assert(pos_opt(*challenge, sorted@, i as int, cap) == pos_opt(
                        *challenge,
                        sorted@,
                        i as int + 1,
                        cap,
                    ));
                }
            }
        }
    }
}

pub fn solve_challenge(challenge: &Challenge) -> (r: Option<Solution>)
    requires
        challenge.wf(),
    ensures
        r matches Some(s) ==> packs_within_capacity(*challenge, s) && total_value(
            *challenge,
            s.items@,
        ) >= challenge.min_value,
        r is None ==> knap_opt(
            *challenge,
            challenge.difficulty.num_items as int,
            challenge.max_weight as int,
        ) < challenge.min_value,
{
    let num_items = challenge.difficulty.num_items;

    let mut ranked: Vec<Ranked> = Vec::new();
    let mut i: usize = 0;
    while i < num_items
        invariant
            challenge.wf(),
            num_items == challenge.difficulty.num_items,
            0 <= i <= num_items,
            ranked@.len() == i,
            forall|k: int|
                0 <= k < ranked@.len() ==> {
                    let e = #[trigger] ranked@[k];
                    e.den > 0 && e.index == k && e.num == challenge.values@[k] as i64 && e.den
                        == challenge.weights@[k]
                },
        decreases num_items - i,
    {
        ranked.push(
            Ranked { num: challenge.values[i] as i64, den: challenge.weights[i], index: i },
        );
        i = i + 1;
    }
    let ghost ranked0 = ranked@;
    let sorted = sort_ranked_desc(ranked);
    proof {
        assert forall|k: int|
            0 <= k < sorted@.len() implies {
            let e = #[trigger] sorted@[k];
            e.index < num_items && e.num == challenge.values@[e.index as int] as i64 && e.den
                == challenge.weights@[e.index as int]
        } by {
            assert(ranked0.contains(sorted@[k]));
            let j = choose|j: int| 0 <= j < ranked0.len() && ranked0[j] == sorted@[k];
        }
        lemma_sorted_indices_distinct(ranked0, sorted@);
        assert(ranked_view_ok(*challenge, sorted@));
        assert forall|k: int, l: int|
            0 <= k <= l < sorted@.len() implies (challenge.values@[
            (#[trigger] sorted@[k]).index as int
        ] as int) * (challenge.weights@[(#[trigger] sorted@[l]).index as int] as int) >= (
        challenge.values@[sorted@[l].index as int] as int) * (challenge.weights@[
            sorted@[k].index as int
        ] as int) by {
            assert(crate::ranking::ratio_ge(sorted@[k], sorted@[l]));
        }
        assert(ratio_ranked(*challenge, sorted@));
    }

    let current: Vec<bool> = vec![false; num_items];
    let best: Vec<bool> = vec![false; num_items];
    proof {
        assert(forall|j: int| 0 <= j < current@.len() ==> !(#[trigger] current@[j]));
        assert(forall|j: int| 0 <= j < best@.len() ==> !(#[trigger] best@[j]));
        lemma_sel_none(*challenge, current@, num_items as int);
        lemma_sel_none(*challenge, best@, num_items as int);
    }
    let mut current = current;
    let mut best = best;
    let mut best_profit: u64 = 0;

    branch_and_bound(challenge, &sorted, 0, 0, 0, &mut current, &mut best, &mut best_profit);

    if best_profit >= challenge.min_value as u64 {
        let items = selected_indices(&best);
        proof {
            lemma_selected_sums(*challenge, best@, num_items as int);
        }
        Some(Solution { items })
    } else {
        proof {
            // The search is complete over the ranked positions, so no
            // packing reached the threshold; the Bellman witness is such a
            // packing, hence the optimum itself is below the threshold.
            lemma_knap_opt_achieved(*challenge, num_items as int, challenge.max_weight as int);
            let wit = knap_wit(*challenge, num_items as int, challenge.max_weight as int);
            assert forall|a: int| 0 <= a < wit.len() implies exists|j: int|
                0 <= j < sorted@.len() && #[trigger] wit[a] == (#[trigger] sorted@[j]).index by {
                let idx = wit[a] as int;
                assert(ranked0[idx].index == wit[a]);
                assert(ranked0.contains(ranked0[idx]));
                vstd::seq_lib::to_multiset_contains(ranked0, ranked0[idx]);
                vstd::seq_lib::to_multiset_contains(sorted@, ranked0[idx]);
                assert(sorted@.contains(ranked0[idx]));
                let j = choose|j: int| 0 <= j < sorted@.len() && sorted@[j] == ranked0[idx];
                assert(0 <= j < sorted@.len() && wit[a] == sorted@[j].index);
            }
            lemma_packing_below_pos_opt(
                *challenge,
                sorted@,
                0,
                challenge.max_weight as int,
                wit,
            );
        }
        None
    }
}

} // verus!
