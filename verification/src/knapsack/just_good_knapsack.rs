//! Interaction-aware greedy by live exact densities.
//!
//! Keeps one exact density per unpacked item — its value plus all
//! interactions earned from items already packed, over its weight — packs
//! the densest item that still fits, and folds that item's interactions into
//! the remaining densities. Always emits a packing: a distinct, valid
//! selection within capacity.

use vstd::prelude::*;

use crate::knapsack::{
    lemma_sel_update, lemma_selected_sums, packs_within_capacity, sel_weight, selected_indices,
    Challenge, Solution, MAX_UNIT,
};
use crate::ranking::{ratio_ge_exec, Ranked};

verus! {

pub fn solve_challenge(challenge: &Challenge) -> (r: Option<Solution>)
    requires
        challenge.wf(),
    ensures
        r matches Some(s) && packs_within_capacity(*challenge, s),
{
    let n = challenge.difficulty.num_items;
    let max_weight = challenge.max_weight as u64;

    let mut nums: Vec<i64> = Vec::new();
    let mut i: usize = 0;
    while i < n
        invariant
            challenge.wf(),
            n == challenge.difficulty.num_items,
            0 <= i <= n,
            nums@.len() == i,
            forall|j: int|
                0 <= j < i ==> -(MAX_UNIT as int) <= #[trigger] nums@[j] <= MAX_UNIT as int,
        decreases n - i,
    {
        nums.push(challenge.values[i] as i64);
        i = i + 1;
    }
    let mut alive: Vec<bool> = vec![true; n];
    let mut sel: Vec<bool> = vec![false; n];
    proof {
        assert(forall|j: int| 0 <= j < sel@.len() ==> !(#[trigger] sel@[j]));
        crate::knapsack::lemma_sel_none(*challenge, sel@, n as int);
    }
    let mut total_w: u64 = 0;

    let mut t: usize = 0;
    while t < n
        invariant
            challenge.wf(),
            n == challenge.difficulty.num_items,
            max_weight == challenge.max_weight as u64,
            0 <= t <= n,
            nums@.len() == n,
            alive@.len() == n,
            sel@.len() == n,
            total_w == sel_weight(*challenge, sel@, n as int),
            total_w <= max_weight,
            forall|j: int| 0 <= j < n && #[trigger] sel@[j] ==> !alive@[j],
            forall|j: int|
                0 <= j < n ==> -((t as int + 1) * (MAX_UNIT as int)) <= #[trigger] nums@[j] <= (
                t as int + 1) * (MAX_UNIT as int),
        decreases n - t,
    {
        // Densest still-live item; exact fractional comparison.
        let mut best: usize = n;
        let mut j: usize = 0;
        while j < n
            invariant
                0 <= j <= n,
                nums@.len() == n,
                alive@.len() == n,
                n == challenge.difficulty.num_items,
                challenge.wf(),
                best == n || (best < n && alive@[best as int]),
            decreases n - j,
        {
            if alive[j] {
                if best == n {
                    best = j;
                } else {
                    let a = Ranked { num: nums[j], den: challenge.weights[j], index: j };
                    let b = Ranked { num: nums[best], den: challenge.weights[best], index: best };
                    if ratio_ge_exec(&a, &b) && !ratio_ge_exec(&b, &a) {
                        best = j;
                    }
                }
            }
            j = j + 1;
        }
        if best == n {
            break ;
        }

        alive.set(best, false);
        let w_best = challenge.weights[best] as u64;
        if total_w + w_best <= max_weight {
            let ghost before = sel@;
            sel.set(best, true);
            proof {
                lemma_sel_update(*challenge, before, best as int, true, n as int);
            }
            total_w = total_w + w_best;
            let mut j: usize = 0;
            while j < n
                invariant
                    challenge.wf(),
                    n == challenge.difficulty.num_items,
                    0 <= j <= n,
                    best < n,
                    nums@.len() == n,
                    alive@.len() == n,
                    0 <= t < n,
                    forall|k: int|
                        0 <= k < j ==> -((t as int + 2) * (MAX_UNIT as int)) <= #[trigger] nums@[k]
                            <= (t as int + 2) * (MAX_UNIT as int),
                    forall|k: int|
                        j <= k < n ==> -((t as int + 1) * (MAX_UNIT as int)) <= #[trigger] nums@[k]
                            <= (t as int + 1) * (MAX_UNIT as int),
                decreases n - j,
            {
                if alive[j] {
                    let updated = nums[j] + challenge.interaction_values[best][j] as i64;
                    nums.set(j, updated);
                }
                j = j + 1;
            }
        }
        t = t + 1;
    }

    let items = selected_indices(&sel);
    proof {
        lemma_selected_sums(*challenge, sel@, n as int);
    }
    Some(Solution { items })
}

} // verus!
