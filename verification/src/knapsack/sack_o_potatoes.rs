//! Dynamic program that carries the packing alongside every table cell.
//!
//! A fast exact fractional relaxation first decides whether the threshold is
//! reachable at all; a failing screen is conclusive, since the relaxation
//! over the exact ratio order bounds every packing (see
//! [`lemma_screen_conclusive`]). Then a value table is filled over the
//! ranked items, each cell keeping the distinct packing that produced its
//! value, so the answer can be read off the capacity cell directly. Any
//! emitted solution provably is a distinct valid packing within the capacity
//! worth at least the threshold.

use vstd::prelude::*;

use crate::knapsack::{
    clone_items, frac_bound, items_valid, lemma_frac_admissible, lemma_frac_nonneg,
    lemma_packing_below_pos_opt, lemma_totals_bound, packs_within_capacity, pos_opt,
    ratio_ranked, total_value, total_weight, Challenge, Solution, MAX_UNIT,
};
use crate::ranking::{lemma_sorted_indices_distinct, sort_ranked_desc, Ranked};

verus! {

/// The greedy fractional relaxation over ranked items, starting from item
/// `k` with `remaining` capacity and `acc` value gathered so far: whether it
/// reaches the instance's threshold.
pub open spec fn spec_bound_reaches(
    c: Challenge,
    s: Seq<Ranked>,
    k: int,
    remaining: int,
    acc: int,
) -> bool
    decreases s.len() - k,
{
    if k < 0 || k >= s.len() {
        acc >= c.min_value
    } else {
        let w = c.weights@[s[k].index as int] as int;
        let v = c.values@[s[k].index as int] as int;
        if w <= remaining {
            if acc + v >= c.min_value {
                true
            } else {
                spec_bound_reaches(c, s, k + 1, remaining - w, acc + v)
            }
        } else {
            acc + v * remaining / w >= c.min_value
        }
    }
}

/// The scan decides exactly whether the accumulated value plus the greedy
/// fractional relaxation of the rest reaches the threshold.
proof fn lemma_bound_reaches_iff_frac(c: Challenge, s: Seq<Ranked>, k: int, rem: int, acc: int)
    requires
        c.wf(),
        forall|j: int| 0 <= j < s.len() ==> (#[trigger] s[j]).index < c.difficulty.num_items,
        0 <= k <= s.len(),
        rem >= 0,
    ensures
        spec_bound_reaches(c, s, k, rem, acc) <==> acc + frac_bound(c, s, k, rem)
            >= c.min_value,
    decreases s.len() - k,
{
    if k < s.len() {
        let wk = c.weights@[s[k].index as int] as int;
        let vk = c.values@[s[k].index as int] as int;
        if wk <= rem {
            lemma_bound_reaches_iff_frac(c, s, k + 1, rem - wk, acc + vk);
            lemma_frac_nonneg(c, s, k + 1, rem - wk);
        }
    }
}

/// Law: a failing relaxation screen is conclusive. When the greedy
/// fractional bound over a ranking in exact non-increasing ratio order, with
/// each item ranked once, misses the threshold, then no distinct valid
/// packing within the capacity reaches the threshold either.
pub proof fn lemma_screen_conclusive(c: Challenge, s: Seq<Ranked>, items: Seq<usize>)
    requires
        c.wf(),
        forall|j: int| 0 <= j < s.len() ==> (#[trigger] s[j]).index < c.difficulty.num_items,
        forall|a: int, b: int|
            0 <= a < s.len() && 0 <= b < s.len() && a != b ==> (#[trigger] s[a]).index != (
            #[trigger] s[b]).index,
        ratio_ranked(c, s),
        !spec_bound_reaches(c, s, 0, c.max_weight as int, 0),
        items_valid(items, c.difficulty.num_items as int),
        items.no_duplicates(),
        total_weight(c, items) <= c.max_weight,
        forall|a: int|
            0 <= a < items.len() ==> exists|j: int|
                0 <= j < s.len() && #[trigger] items[a] == (#[trigger] s[j]).index,
    ensures
        total_value(c, items) < c.min_value,
{
    lemma_bound_reaches_iff_frac(c, s, 0, c.max_weight as int, 0);
    lemma_frac_admissible(c, s, 0, c.max_weight as int);
    lemma_packing_below_pos_opt(c, s, 0, c.max_weight as int, items);
}

/// Whether the greedy fractional relaxation of the instance reaches the
/// threshold; a cheap and exact go/no-go check before the table is filled.
pub fn is_solution_possible(challenge: &Challenge, sorted: &Vec<Ranked>) -> (r: bool)
    requires
        challenge.wf(),
        sorted@.len() <= crate::knapsack::MAX_ITEMS,
        forall|k: int|
            0 <= k < sorted@.len() ==> (#[trigger] sorted@[k]).index
                < challenge.difficulty.num_items,
    ensures
        r == spec_bound_reaches(
            *challenge,
            sorted@,
            0,
            challenge.max_weight as int,
            0,
        ),
{
    let mut remaining: u64 = challenge.max_weight as u64;
    let mut total: u64 = 0;
    let mut k: usize = 0;
    while k < sorted.len()
        invariant
            challenge.wf(),
            forall|j: int|
                0 <= j < sorted@.len() ==> (#[trigger] sorted@[j]).index
                    < challenge.difficulty.num_items,
            0 <= k <= sorted@.len(),
            sorted@.len() <= crate::knapsack::MAX_ITEMS,
            remaining <= challenge.max_weight as u64,
            total <= (k as int) * (MAX_UNIT as int),
            spec_bound_reaches(*challenge, sorted@, 0, challenge.max_weight as int, 0)
                == spec_bound_reaches(
                *challenge,
                sorted@,
                k as int,
                remaining as int,
                total as int,
            ),
        decreases sorted.len() - k,
    {
        let index = sorted[k].index;
        let weight = challenge.weights[index] as u64;
        let value = challenge.values[index] as u64;
        if weight <= remaining {
            total = total + value;
            remaining = remaining - weight;
            if total >= challenge.min_value as u64 {
                return true;
            }
        } else {
            proof {
                crate::knapsack::lemma_unit_product_bound(value, remaining);
            }
            let fractional_value = value * remaining / weight;
            return total + fractional_value >= challenge.min_value as u64;
        }
        k = k + 1;
    }
    total >= challenge.min_value as u64
}

pub fn solve_challenge(challenge: &Challenge) -> (r: Option<Solution>)
    requires
        challenge.wf(),
    ensures
        r matches Some(s) ==> packs_within_capacity(*challenge, s) && total_value(
            *challenge,
            s.items@,
        ) >= challenge.min_value,
{
    let max_weight = challenge.max_weight as usize;
    let min_value = challenge.min_value as u64;
    let num_items = challenge.difficulty.num_items;

    let mut ranked: Vec<Ranked> = Vec::new();
    let mut i: usize = 0;
    while i < num_items
        invariant
            challenge.wf(),
            num_items == challenge.difficulty.num_items,
            0 <= i <= num_items,
            ranked@.len() == i,
            forall|k: int|
                0 <= k < ranked@.len() ==> {
                    let e = #[trigger] ranked@[k];
                    e.den > 0 && e.index == k && e.num == challenge.values@[k] as i64 && e.den
                        == challenge.weights@[k]
                },
        decreases num_items - i,
    {
        ranked.push(
            Ranked { num: challenge.values[i] as i64, den: challenge.weights[i], index: i },
        );
        i = i + 1;
    }
    let ghost ranked0 = ranked@;
    let sorted = sort_ranked_desc(ranked);
    proof {
        assert forall|k: int|
            0 <= k < sorted@.len() implies {
            let e = #[trigger] sorted@[k];
            e.index < num_items && e.num == challenge.values@[e.index as int] as i64 && e.den
                == challenge.weights@[e.index as int]
        } by {
            assert(ranked0.contains(sorted@[k]));
            let j = choose|j: int| 0 <= j < ranked0.len() && ranked0[j] == sorted@[k];
        }
        lemma_sorted_indices_distinct(ranked0, sorted@);
        assert forall|k: int, l: int|
            0 <= k <= l < sorted@.len() implies (challenge.values@[
            (#[trigger] sorted@[k]).index as int
        ] as int) * (challenge.weights@[(#[trigger] sorted@[l]).index as int] as int) >= (
        challenge.values@[sorted@[l].index as int] as int) * (challenge.weights@[
            sorted@[k].index as int
        ] as int) by {
            assert(crate::ranking::ratio_ge(sorted@[k], sorted@[l]));
        }
        assert(ratio_ranked(*challenge, sorted@));
    }

    if !is_solution_possible(challenge, &sorted) {
        // A failing screen is conclusive; see `lemma_screen_conclusive`.
        return None;
    }

    let mut dp: Vec<u64> = vec![0u64; max_weight + 1];
    let mut cells: Vec<Vec<usize>> = Vec::new();
    let mut c: usize = 0;
    while c < max_weight + 1
        invariant
            challenge.wf(),
            max_weight == challenge.max_weight as usize,
            0 <= c <= max_weight + 1,
            cells@.len() == c,
            forall|j: int| 0 <= j < c ==> (#[trigger] cells@[j])@.len() == 0,
        decreases max_weight + 1 - c,
    {
        cells.push(Vec::new());
        c = c + 1;
    }
    proof {
        assert(forall|w: int| 0 <= w < dp@.len() ==> #[trigger] dp@[w] == 0);
    }

    let mut t: usize = 0;
    while t < sorted.len()
        invariant
            challenge.wf(),
            max_weight == challenge.max_weight as usize,
            min_value == challenge.min_value as u64,
            num_items == challenge.difficulty.num_items,
            0 <= t <= sorted@.len(),
            sorted@.len() == num_items,
            forall|k: int| 0 <= k < sorted@.len() ==> (#[trigger] sorted@[k]).index < num_items,
            dp@.len() == max_weight + 1,
            cells@.len() == max_weight + 1,
            forall|a: int, b: int|
                0 <= a < sorted@.len() && 0 <= b < sorted@.len() && a != b ==> (
                #[trigger] sorted@[a]).index != (#[trigger] sorted@[b]).index,
            forall|j: int|
                #![trigger cells@[j]]
                0 <= j < cells@.len() ==> {
                    let cell = cells@[j]@;
                    &&& items_valid(cell, num_items as int)
                    &&& cell.no_duplicates()
                    &&& cell.len() <= t
                    &&& total_weight(*challenge, cell) <= j
                    &&& total_value(*challenge, cell) == dp@[j]
                },
            forall|j: int, a: int|
                #![trigger cells@[j]@[a]]
                0 <= j < cells@.len() && 0 <= a < cells@[j]@.len() ==> exists|p: int|
                    0 <= p < t && #[trigger] cells@[j]@[a] == (#[trigger] sorted@[p]).index,
        decreases sorted.len() - t,
    {
        let index = sorted[t].index;
        let weight = challenge.weights[index] as usize;
        let value = challenge.values[index] as u64;
        let mut w: usize = max_weight + 1;
        while w > weight
            invariant
                challenge.wf(),
                max_weight == challenge.max_weight as usize,
                num_items == challenge.difficulty.num_items,
                index < num_items,
                weight == challenge.weights@[index as int] as usize,
                value == challenge.values@[index as int] as u64,
                weight >= 1,
                w <= max_weight + 1,
                dp@.len() == max_weight + 1,
                cells@.len() == max_weight + 1,
                0 <= t < sorted@.len(),
                sorted@.len() == num_items,
                forall|a: int, b: int|
                    0 <= a < sorted@.len() && 0 <= b < sorted@.len() && a != b ==> (
                    #[trigger] sorted@[a]).index != (#[trigger] sorted@[b]).index,
                index == sorted@[t as int].index,
                forall|j: int|
                    #![trigger cells@[j]]
                    0 <= j < cells@.len() ==> {
                        let cell = cells@[j]@;
                        &&& items_valid(cell, num_items as int)
                        &&& cell.no_duplicates()
                        &&& cell.len() <= t + 1
                        &&& total_weight(*challenge, cell) <= j
                        &&& total_value(*challenge, cell) == dp@[j]
                    },
                forall|j: int, a: int|
                    #![trigger cells@[j]@[a]]
                    0 <= j < cells@.len() && 0 <= a < cells@[j]@.len() ==> exists|p: int|
                        0 <= p < t + 1 && #[trigger] cells@[j]@[a] == (#[trigger] sorted@[p]).index,
                forall|j: int, a: int|
                    #![trigger cells@[j]@[a]]
                    0 <= j < w && 0 <= a < cells@[j]@.len() ==> exists|p: int|
                        0 <= p < t && #[trigger] cells@[j]@[a] == (#[trigger] sorted@[p]).index,
                forall|j: int|
                    #![trigger cells@[j]]
                    0 <= j < w ==> cells@[j]@.len() <= t,
            decreases w,
        {
            w = w - 1;
            proof {
                assert(cells@[w - weight as int]@.len() <= t);
                lemma_totals_bound(*challenge, cells@[w - weight as int]@);
            }
            let new_value = dp[w - weight] + value;
            if new_value > dp[w] {
                dp.set(w, new_value);
                let mut cell = clone_items(&cells[w - weight]);
                let ghost prev = cell@;
                cell.push(index);
                proof {
                    assert(prev.push(index).drop_last() =~= prev);
                    assert forall|a: int| 0 <= a < prev.len() implies prev[a] != index by {
                        let p = choose|p: int|
                            0 <= p < t && #[trigger] prev[a] == (#[trigger] sorted@[p]).index;
                        assert(sorted@[p].index != sorted@[t as int].index);
                    }
                    assert forall|a: int, b: int|
                        0 <= a < cell@.len() && 0 <= b < cell@.len() && a != b implies cell@[a]
                        != cell@[b] by {
                        if a == prev.len() {
                            assert(cell@[b] == prev[b]);
                        } else if b == prev.len() {
                            assert(cell@[a] == prev[a]);
                        }
                    }
                    assert forall|a: int| 0 <= a < cell@.len() implies exists|p: int|
                        0 <= p < t + 1 && #[trigger] cell@[a] == (#[trigger] sorted@[p]).index by {
                        if a < prev.len() {
                            let p = choose|p: int|
                                0 <= p < t && #[trigger] prev[a] == (#[trigger] sorted@[p]).index;
                            assert(0 <= p < t + 1 && cell@[a] == sorted@[p].index);
                        } else {
                            assert(cell@[a] == sorted@[t as int].index);
                        }
                    }
                }
                cells.set(w, cell);
            }
        }
        t = t + 1;
    }

    if dp[max_weight] >= min_value {
        let items = clone_items(&cells[max_weight]);
        Some(Solution { items })
    } else {
        None
    }
}

} // verus!
