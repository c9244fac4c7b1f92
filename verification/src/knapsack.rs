//! The quadratic knapsack challenge family and its solver collection.
//!
//! A challenge instance carries item weights and values, pairwise
//! interaction values, a weight capacity and a value threshold. Each solver
//! is a pure function from an instance to an optional [`Solution`]; solvers
//! are swappable collaborators of the protocol and only their shared
//! interface matters to the core. Every solver here is deterministic, and
//! its contract states what it guarantees of any solution it emits.

use vstd::prelude::*;

use crate::ranking::Ranked;

pub mod better_in_twos;
pub mod better_knapp;
pub mod flat_dp;
pub mod genetic;
pub mod ironhat_pete;
pub mod just_good_knapsack;
pub mod knap_super_bb;
pub mod knap_zilla;
pub mod lightning_knapsack;
pub mod optimism_dollop;
pub mod over_knapmaxxed;
pub mod qknap_optimize;
pub mod quadratic_greedy;
pub mod sack_o_potatoes;
pub mod sackophone;
pub mod tinhat_pete;

verus! {

/// Largest instance size a solver accepts.
pub const MAX_ITEMS: usize = 0x10000;

/// Largest single weight, value, interaction magnitude or capacity a solver
/// accepts. Together with [`MAX_ITEMS`] this keeps every intermediate sum
/// far from machine limits.
pub const MAX_UNIT: u32 = 0x10_0000;

/// Instance-size parameters of a challenge.
pub struct Difficulty {
    pub num_items: usize,
    /// Quality threshold relative to a baseline solver, in basis points.
    pub better_than_baseline: u32,
}

/// One challenge instance.
pub struct Challenge {
    /// Seed the instance was generated from; solvers that randomize derive
    /// their randomness from it so that reruns are identical.
    pub seed: Vec<u8>,
    pub difficulty: Difficulty,
    pub weights: Vec<u32>,
    pub values: Vec<u32>,
    /// Pairwise interaction values; entry `[i][j]` is earned when items `i`
    /// and `j` are packed together.
    pub interaction_values: Vec<Vec<i32>>,
    /// Weight capacity of the knapsack.
    pub max_weight: u32,
    /// Value a solution must reach to pass.
    pub min_value: u32,
}

/// The indices of the items a solver packs.
pub struct Solution {
    pub items: Vec<usize>,
}

impl Challenge {
    /// Well-formedness of an instance: consistent dimensions, positive
    /// weights (density scores divide by them) and magnitudes small enough
    /// that no sum a solver forms can overflow.
    pub open spec fn wf(self) -> bool {
        let n = self.difficulty.num_items;
        &&& self.weights@.len() == n
        &&& self.values@.len() == n
        &&& self.interaction_values@.len() == n
        &&& forall|i: int|
            0 <= i < n ==> (#[trigger] self.interaction_values@[i])@.len() == n
        &&& n <= MAX_ITEMS
        &&& forall|i: int|
            0 <= i < n ==> 1 <= #[trigger] self.weights@[i] <= MAX_UNIT
        &&& forall|i: int| 0 <= i < n ==> #[trigger] self.values@[i] <= MAX_UNIT
        &&& forall|i: int, j: int|
            0 <= i < n && 0 <= j < n ==> -(MAX_UNIT as int)
                <= #[trigger] self.interaction_values@[i]@[j] <= MAX_UNIT as int
        &&& self.max_weight <= MAX_UNIT
    }
}

/// Every packed index refers to an item of the instance.
pub open spec fn items_valid(items: Seq<usize>, n: int) -> bool {
    forall|k: int| 0 <= k < items.len() ==> (#[trigger] items[k]) < n
}

/// Total weight of the packed items (with multiplicity).
pub open spec fn total_weight(c: Challenge, items: Seq<usize>) -> int
    decreases items.len(),
{
    if items.len() == 0 {
        0
    } else {
        total_weight(c, items.drop_last()) + c.weights@[items.last() as int]
    }
}

/// Total linear value of the packed items (with multiplicity), ignoring
/// interactions.
pub open spec fn total_value(c: Challenge, items: Seq<usize>) -> int
    decreases items.len(),
{
    if items.len() == 0 {
        0
    } else {
        total_value(c, items.drop_last()) + c.values@[items.last() as int]
    }
}

/// What every emitted solution must satisfy: distinct valid items within the
/// weight capacity.
pub open spec fn packs_within_capacity(c: Challenge, s: Solution) -> bool {
    &&& items_valid(s.items@, c.difficulty.num_items as int)
    &&& s.items@.no_duplicates()
    &&& total_weight(c, s.items@) <= c.max_weight
}

/// Weaker guarantee for solvers whose reconstruction may list an item more
/// than once: valid items whose listed weights still fit the capacity.
pub open spec fn fits_capacity(c: Challenge, s: Solution) -> bool {
    &&& items_valid(s.items@, c.difficulty.num_items as int)
    &&& total_weight(c, s.items@) <= c.max_weight
}

/// Weight of the selected items among the first `k` of a selection vector.
pub open spec fn sel_weight(c: Challenge, sel: Seq<bool>, k: int) -> int
    decreases k,
{
    if k <= 0 {
        0
    } else {
        sel_weight(c, sel, k - 1) + if sel[k - 1] {
            c.weights@[k - 1]
        } else {
            0
        }
    }
}

/// Linear value of the selected items among the first `k` of a selection
/// vector.
pub open spec fn sel_value(c: Challenge, sel: Seq<bool>, k: int) -> int
    decreases k,
{
    if k <= 0 {
        0
    } else {
        sel_value(c, sel, k - 1) + if sel[k - 1] {
            c.values@[k - 1]
        } else {
            0
        }
    }
}

/// Interactions are reported once per unordered pair: the matrix is
/// symmetric with a zero diagonal. The swap accounting of the quadratic
/// solvers is exact only for matrices of this shape.
pub open spec fn interactions_symmetric(c: Challenge) -> bool {
    let n = c.difficulty.num_items;
    &&& forall|i: int, j: int|
        0 <= i < n && 0 <= j < n ==> #[trigger] c.interaction_values@[i]@[j]
            == c.interaction_values@[j]@[i]
    &&& forall|i: int| 0 <= i < n ==> #[trigger] c.interaction_values@[i]@[i] == 0
}

/// Interactions of item `i` against the selected entries among the first
/// `m`.
pub open spec fn inter_sum(c: Challenge, i: int, sel: Seq<bool>, m: int) -> int
    decreases m,
{
    if m <= 0 {
        0
    } else {
        inter_sum(c, i, sel, m - 1) + if sel[m - 1] {
            c.interaction_values@[i]@[m - 1]
        } else {
            0
        }
    }
}

/// Quadratic value of a selection: each selected item's value plus each
/// selected pair's interaction, counted once from the higher index.
pub open spec fn quad_value(c: Challenge, sel: Seq<bool>, k: int) -> int
    decreases k,
{
    if k <= 0 {
        0
    } else {
        quad_value(c, sel, k - 1) + if sel[k - 1] {
            c.values@[k - 1] + inter_sum(c, k - 1, sel, k - 1)
        } else {
            0
        }
    }
}

/// An empty selection has a zero quadratic value.
pub proof fn lemma_quad_none(c: Challenge, sel: Seq<bool>, k: int)
    requires
        0 <= k <= sel.len(),
        forall|j: int| 0 <= j < k ==> !sel[j],
    ensures
        quad_value(c, sel, k) == 0,
    decreases k,
{
    if k > 0 {
        lemma_quad_none(c, sel, k - 1);
    }
}

/// Selections that agree on a prefix have the same interaction sums over it.
pub proof fn lemma_inter_sum_agree(c: Challenge, i: int, s1: Seq<bool>, s2: Seq<bool>, m: int)
    requires
        0 <= m <= s1.len(),
        m <= s2.len(),
        forall|j: int| 0 <= j < m ==> s1[j] == s2[j],
    ensures
        inter_sum(c, i, s1, m) == inter_sum(c, i, s2, m),
    decreases m,
{
    if m > 0 {
        lemma_inter_sum_agree(c, i, s1, s2, m - 1);
    }
}

/// Flipping one entry of a selection changes an interaction sum by exactly
/// that entry's interaction.
pub proof fn lemma_inter_sum_flip(c: Challenge, i: int, sel: Seq<bool>, p: int, b: bool, m: int)
    requires
        0 <= p < sel.len(),
        0 <= m <= sel.len(),
    ensures
        inter_sum(c, i, sel.update(p, b), m) == inter_sum(c, i, sel, m) - (if p < m && sel[p] {
            c.interaction_values@[i]@[p]
        } else {
            0
        }) + (if p < m && b {
            c.interaction_values@[i]@[p]
        } else {
            0
        }),
    decreases m,
{
    if m > 0 {
        lemma_inter_sum_flip(c, i, sel, p, b, m - 1);
    }
}

/// Interaction sums grow at most one unit per entry, in either direction.
pub proof fn lemma_inter_sum_bounds(c: Challenge, i: int, sel: Seq<bool>, m: int)
    requires
        c.wf(),
        0 <= i < c.difficulty.num_items,
        0 <= m <= c.difficulty.num_items,
        m <= sel.len(),
    ensures
        -(m * (MAX_UNIT as int)) <= inter_sum(c, i, sel, m) <= m * (MAX_UNIT as int),
    decreases m,
{
    if m > 0 {
        lemma_inter_sum_bounds(c, i, sel, m - 1);
    }
}

/// The quadratic value grows by at most a fixed budget per entry.
pub proof fn lemma_quad_bounds(c: Challenge, sel: Seq<bool>, k: int)
    requires
        c.wf(),
        0 <= k <= c.difficulty.num_items,
        k <= sel.len(),
    ensures
        -(k * 0x20_0000_0000) <= quad_value(c, sel, k) <= k * 0x20_0000_0000,
    decreases k,
{
    if k > 0 {
        lemma_quad_bounds(c, sel, k - 1);
        if sel[k - 1] {
            lemma_inter_sum_bounds(c, k - 1, sel, k - 1);
        }
    }
}

/// Newly selecting entry `p` adds its value and its interactions against the
/// previously selected entries; prefixes up to `p` are untouched.
pub proof fn lemma_quad_insert(c: Challenge, sel: Seq<bool>, p: int, k: int)
    requires
        c.wf(),
        interactions_symmetric(c),
        0 <= p < sel.len(),
        sel.len() == c.difficulty.num_items,
        !sel[p],
        0 <= k <= sel.len(),
    ensures
        k <= p ==> quad_value(c, sel.update(p, true), k) == quad_value(c, sel, k),
        k > p ==> quad_value(c, sel.update(p, true), k) == quad_value(c, sel, k) + c.values@[p]
            + inter_sum(c, p, sel, k),
    decreases k,
{
    let sel2 = sel.update(p, true);
    if k > 0 {
        lemma_quad_insert(c, sel, p, k - 1);
        if k - 1 < p {
            if sel[k - 1] {
                lemma_inter_sum_agree(c, k - 1, sel2, sel, k - 1);
            }
        } else if k - 1 == p {
            lemma_inter_sum_agree(c, p, sel2, sel, p);
            assert(inter_sum(c, p, sel, k) == inter_sum(c, p, sel, p) + if sel[p] {
                c.interaction_values@[p]@[p]
            } else {
                0
            });
        } else {
            if sel[k - 1] {
                lemma_inter_sum_flip(c, k - 1, sel, p, true, k - 1);
                assert(c.interaction_values@[k - 1]@[p] == c.interaction_values@[p]@[k - 1]);
            }
        }
    }
}

/// How many entries of the first `k` are selected.
pub open spec fn sel_count(sel: Seq<bool>, k: int) -> int
    decreases k,
{
    if k <= 0 {
        0
    } else {
        sel_count(sel, k - 1) + if sel[k - 1] {
            1int
        } else {
            0
        }
    }
}

/// Flipping one entry changes the selection count by exactly one.
pub proof fn lemma_sel_count_update(sel: Seq<bool>, p: int, b: bool, k: int)
    requires
        0 <= p < k <= sel.len(),
    ensures
        sel_count(sel.update(p, b), k) == sel_count(sel, k) - (if sel[p] {
            1int
        } else {
            0
        }) + (if b {
            1int
        } else {
            0
        }),
    decreases k,
{
    if p == k - 1 {
        lemma_sel_count_agree(sel.update(p, b), sel, k - 1);
    } else {
        lemma_sel_count_update(sel, p, b, k - 1);
    }
}

/// Selections that agree on a prefix count the same over it.
pub proof fn lemma_sel_count_agree(s1: Seq<bool>, s2: Seq<bool>, k: int)
    requires
        0 <= k <= s1.len(),
        k <= s2.len(),
        forall|j: int| 0 <= j < k ==> s1[j] == s2[j],
    ensures
        sel_count(s1, k) == sel_count(s2, k),
    decreases k,
{
    if k > 0 {
        lemma_sel_count_agree(s1, s2, k - 1);
    }
}

/// Interactions of item `i` against a packed list.
pub open spec fn items_inter(c: Challenge, i: int, items: Seq<usize>) -> int
    decreases items.len(),
{
    if items.len() == 0 {
        0
    } else {
        items_inter(c, i, items.drop_last()) + c.interaction_values@[i]@[items.last() as int]
    }
}

/// Pairwise interactions of a packing, each pair counted once.
pub open spec fn pairs_value(c: Challenge, items: Seq<usize>) -> int
    decreases items.len(),
{
    if items.len() == 0 {
        0
    } else {
        pairs_value(c, items.drop_last()) + items_inter(
            c,
            items.last() as int,
            items.drop_last(),
        )
    }
}

/// Quadratic objective of a packing: item values plus pairwise interactions.
pub open spec fn quad_total(c: Challenge, items: Seq<usize>) -> int {
    total_value(c, items) + pairs_value(c, items)
}

/// An interaction sum over a selection equals the interactions against its
/// collected index list.
pub proof fn lemma_inter_sum_selected(c: Challenge, i: int, sel: Seq<bool>, m: int)
    requires
        0 <= m <= sel.len(),
        m <= usize::MAX,
    ensures
        inter_sum(c, i, sel, m) == items_inter(c, i, spec_selected(sel, m)),
    decreases m,
{
    if m > 0 {
        lemma_inter_sum_selected(c, i, sel, m - 1);
        if sel[m - 1] {
            let prev = spec_selected(sel, m - 1);
            assert(prev.push((m - 1) as usize).drop_last() =~= prev);
        }
    }
}

/// The quadratic value of a selection equals the quadratic objective of its
/// collected index list.
pub proof fn lemma_selected_quad(c: Challenge, sel: Seq<bool>, k: int)
    requires
        0 <= k <= sel.len(),
        k <= usize::MAX,
    ensures
        quad_value(c, sel, k) == quad_total(c, spec_selected(sel, k)),
    decreases k,
{
    if k > 0 {
        lemma_selected_quad(c, sel, k - 1);
        if sel[k - 1] {
            let prev = spec_selected(sel, k - 1);
            assert(prev.push((k - 1) as usize).drop_last() =~= prev);
            lemma_inter_sum_selected(c, k - 1, sel, k - 1);
        }
    }
}

/// Selection sums are nonnegative and grow at most one unit per entry.
pub proof fn lemma_sel_bounds(c: Challenge, sel: Seq<bool>, k: int)
    requires
        c.wf(),
        0 <= k <= sel.len(),
        k <= c.difficulty.num_items,
    ensures
        0 <= sel_weight(c, sel, k) <= k * (MAX_UNIT as int),
        0 <= sel_value(c, sel, k) <= k * (MAX_UNIT as int),
    decreases k,
{
    if k > 0 {
        lemma_sel_bounds(c, sel, k - 1);
    }
}

/// A selected entry's weight is part of the selection's weight.
pub proof fn lemma_sel_member(c: Challenge, sel: Seq<bool>, i: int, k: int)
    requires
        0 <= i < k <= sel.len(),
        sel[i],
    ensures
        sel_weight(c, sel, k) >= sel_weight(c, sel, i + 1) >= c.weights@[i] as int + sel_weight(
            c,
            sel,
            i,
        ),
    decreases k,
{
    if k > i + 1 {
        lemma_sel_member(c, sel, i, k - 1);
    }
}

/// An empty selection sums to zero.
pub proof fn lemma_sel_none(c: Challenge, sel: Seq<bool>, k: int)
    requires
        0 <= k <= sel.len(),
        forall|j: int| 0 <= j < k ==> !sel[j],
    ensures
        sel_weight(c, sel, k) == 0,
        sel_value(c, sel, k) == 0,
    decreases k,
{
    if k > 0 {
        lemma_sel_none(c, sel, k - 1);
    }
}

/// Flipping one entry of a selection changes the sums by exactly that
/// entry's weight and value.
pub proof fn lemma_sel_update(c: Challenge, sel: Seq<bool>, j: int, b: bool, k: int)
    requires
        0 <= j < k <= sel.len(),
    ensures
        sel_weight(c, sel.update(j, b), k) == sel_weight(c, sel, k) - (if sel[j] {
            c.weights@[j] as int
        } else {
            0
        }) + (if b {
            c.weights@[j] as int
        } else {
            0
        }),
        sel_value(c, sel.update(j, b), k) == sel_value(c, sel, k) - (if sel[j] {
            c.values@[j] as int
        } else {
            0
        }) + (if b {
            c.values@[j] as int
        } else {
            0
        }),
    decreases k,
{
    if j == k - 1 {
        assert(sel_weight(c, sel.update(j, b), k - 1) == sel_weight(c, sel, k - 1)) by {
            lemma_sel_agree(c, sel.update(j, b), sel, k - 1);
        }
        assert(sel_value(c, sel.update(j, b), k - 1) == sel_value(c, sel, k - 1)) by {
            lemma_sel_agree(c, sel.update(j, b), sel, k - 1);
        }
    } else {
        lemma_sel_update(c, sel, j, b, k - 1);
    }
}

/// Selections that agree on a prefix have the same sums over it.
pub proof fn lemma_sel_agree(c: Challenge, s1: Seq<bool>, s2: Seq<bool>, k: int)
    requires
        0 <= k <= s1.len(),
        k <= s2.len(),
        forall|j: int| 0 <= j < k ==> s1[j] == s2[j],
    ensures
        sel_weight(c, s1, k) == sel_weight(c, s2, k),
        sel_value(c, s1, k) == sel_value(c, s2, k),
    decreases k,
{
    if k > 0 {
        lemma_sel_agree(c, s1, s2, k - 1);
    }
}

/// The indices selected among the first `k` entries, in ascending order.
pub open spec fn spec_selected(sel: Seq<bool>, k: int) -> Seq<usize>
    decreases k,
{
    if k <= 0 {
        Seq::empty()
    } else if sel[k - 1] {
        spec_selected(sel, k - 1).push((k - 1) as usize)
    } else {
        spec_selected(sel, k - 1)
    }
}

/// The collected indices are valid, ascending (hence distinct), and their
/// weight and value sums equal those of the selection vector.
pub proof fn lemma_selected_sums(c: Challenge, sel: Seq<bool>, k: int)
    requires
        0 <= k <= sel.len(),
        k <= usize::MAX,
    ensures
        items_valid(spec_selected(sel, k), k),
        spec_selected(sel, k).no_duplicates(),
        total_weight(c, spec_selected(sel, k)) == sel_weight(c, sel, k),
        total_value(c, spec_selected(sel, k)) == sel_value(c, sel, k),
    decreases k,
{
    if k > 0 {
        lemma_selected_sums(c, sel, k - 1);
        if sel[k - 1] {
            let prev = spec_selected(sel, k - 1);
            let x = (k - 1) as usize;
            assert(prev.push(x).drop_last() =~= prev);
            assert(prev.push(x).last() == x);
            assert(x as int == k - 1);
            assert forall|a: int, b: int|
                0 <= a < prev.push(x).len() && 0 <= b < prev.push(x).len() && a != b implies prev.push(
                x,
            )[a] != prev.push(x)[b] by {
                if a == prev.len() {
                    assert(prev.push(x)[a] == x);
                    assert(prev.push(x)[b] == prev[b]);
                    assert(prev[b] < k - 1);
                } else if b == prev.len() {
                    assert(prev.push(x)[b] == x);
                    assert(prev.push(x)[a] == prev[a]);
                    assert(prev[a] < k - 1);
                } else {
                    assert(prev.push(x)[a] == prev[a]);
                    assert(prev.push(x)[b] == prev[b]);
                }
            }
        }
    }
}

/// Totals of a valid packing are nonnegative and grow at most one unit per
/// item; since weights are positive, the weight also bounds the number of
/// packed items.
pub proof fn lemma_totals_bound(c: Challenge, items: Seq<usize>)
    requires
        c.wf(),
        items_valid(items, c.difficulty.num_items as int),
    ensures
        items.len() <= total_weight(c, items) <= items.len() * (MAX_UNIT as int),
        0 <= total_value(c, items) <= items.len() * (MAX_UNIT as int),
    decreases items.len(),
{
    if items.len() > 0 {
        assert(items_valid(items.drop_last(), c.difficulty.num_items as int));
        lemma_totals_bound(c, items.drop_last());
    }
}

/// Computes the total value of a packing, for a final check of an emitted
/// solution against the instance's threshold.
pub fn measure_value(challenge: &Challenge, items: &Vec<usize>) -> (r: u64)
    requires
        challenge.wf(),
        items_valid(items@, challenge.difficulty.num_items as int),
        items@.len() <= MAX_UNIT as int,
    ensures
        r as int == total_value(*challenge, items@),
{
    let mut sum: u64 = 0;
    let mut k: usize = 0;
    while k < items.len()
        invariant
            challenge.wf(),
            items_valid(items@, challenge.difficulty.num_items as int),
            items@.len() <= MAX_UNIT as int,
            0 <= k <= items@.len(),
            sum as int == total_value(*challenge, items@.take(k as int)),
            sum <= (k as int) * (MAX_UNIT as int),
        decreases items.len() - k,
    {
        proof {
            assert(items@.take(k as int + 1).drop_last() =~= items@.take(k as int));
            assert(items@.take(k as int + 1).last() == items@[k as int]);
        }
        sum = sum + challenge.values[items[k]] as u64;
        k = k + 1;
    }
    proof {
        assert(items@.take(items@.len() as int) =~= items@);
    }
    sum
}

/// Copies an index list.
pub fn clone_items(v: &Vec<usize>) -> (r: Vec<usize>)
    ensures
        r@ == v@,
{
    let mut out: Vec<usize> = Vec::new();
    let mut i: usize = 0;
    while i < v.len()
        invariant
            0 <= i <= v.len(),
            out@ =~= v@.take(i as int),
        decreases v.len() - i,
    {
        out.push(v[i]);
        proof {
            assert(out@ =~= v@.take(i as int + 1));
        }
        i = i + 1;
    }
    proof {
        assert(v@.take(v@.len() as int) =~= v@);
    }
    out
}

/// Copies a selection vector.
pub fn clone_flags(v: &Vec<bool>) -> (r: Vec<bool>)
    ensures
        r@ == v@,
{
    let mut out: Vec<bool> = Vec::new();
    let mut i: usize = 0;
    while i < v.len()
        invariant
            0 <= i <= v.len(),
            out@ =~= v@.take(i as int),
        decreases v.len() - i,
    {
        out.push(v[i]);
        proof {
            assert(out@ =~= v@.take(i as int + 1));
        }
        i = i + 1;
    }
    proof {
        assert(v@.take(v@.len() as int) =~= v@);
    }
    out
}

/// The product of two unit-bounded quantities stays far inside 64 bits.
pub proof fn lemma_unit_product_bound(a: u64, b: u64)
    requires
        a <= MAX_UNIT as u64,
        b <= MAX_UNIT as u64,
    ensures
        a * b <= 0x100_0000_0000u64,
{
    assert(a * b <= 0x100_0000_0000u64) by (nonlinear_arith)
        requires
            a <= 0x10_0000u64,
            b <= 0x10_0000u64,
    ;
}

/// Products of nonnegative bounded factors are bounded by the product of
/// the bounds.
pub proof fn lemma_mul_le(a: int, b: int, ca: int, cb: int)
    requires
        0 <= a <= ca,
        0 <= b <= cb,
    ensures
        0 <= a * b <= ca * cb,
{
    assert(0 <= a * b <= ca * cb) by (nonlinear_arith)
        requires
            0 <= a <= ca,
            0 <= b <= cb,
    ;
}

/// A fractional share of a value never exceeds the value itself.
pub proof fn lemma_fractional_share_bound(v: int, r: int, w: int)
    requires
        0 <= v,
        0 <= r <= w,
        0 < w,
    ensures
        v * r / w <= v,
{
    assert(v * r <= v * w) by (nonlinear_arith)
        requires
            r <= w,
            v >= 0,
    ;
    vstd::arithmetic::div_mod::lemma_div_is_ordered(v * r, v * w, w);
    vstd::arithmetic::div_mod::lemma_div_multiples_vanish(v, w);
    vstd::arithmetic::mul::lemma_mul_is_commutative(v, w);
    assert(v * w / w == v);
}

/// The best total value achievable with distinct items drawn from the first
/// `n` items of the instance within capacity `cap`: the Bellman recursion.
pub open spec fn knap_opt(c: Challenge, n: int, cap: int) -> int
    decreases n,
{
    if n <= 0 {
        0
    } else if c.weights@[n - 1] > cap {
        knap_opt(c, n - 1, cap)
    } else {
        let skip = knap_opt(c, n - 1, cap);
        let take = c.values@[n - 1] + knap_opt(c, n - 1, cap - c.weights@[n - 1]);
        if take > skip {
            take
        } else {
            skip
        }
    }
}

/// The optimum is nonnegative and grows at most one unit per item.
pub proof fn lemma_knap_opt_bounds(c: Challenge, n: int, cap: int)
    requires
        c.wf(),
        0 <= n <= c.difficulty.num_items,
    ensures
        0 <= knap_opt(c, n, cap) <= n * (MAX_UNIT as int),
    decreases n,
{
    if n > 0 {
        lemma_knap_opt_bounds(c, n - 1, cap);
        lemma_knap_opt_bounds(c, n - 1, cap - c.weights@[n - 1]);
    }
}

/// Law: the Bellman optimum really bounds every feasible packing — any
/// distinct selection of valid items whose weight fits the capacity is worth
/// at most `knap_opt`.
pub proof fn lemma_knap_opt_is_optimal(c: Challenge, items: Seq<usize>, n: int, cap: int)
    requires
        c.wf(),
        0 <= n <= c.difficulty.num_items,
        items_valid(items, n),
        items.no_duplicates(),
        total_weight(c, items) <= cap,
    ensures
        total_value(c, items) <= knap_opt(c, n, cap),
    decreases n,
{
    if n == 0 {
        if items.len() > 0 {
            assert(items[0] < 0);
        }
    } else {
        if items.contains(((n - 1) as usize)) {
            let pos = choose|pos: int| 0 <= pos < items.len() && items[pos] == (n - 1) as usize;
            let rest = items.remove(pos);
            lemma_total_weight_remove(c, items, pos);
            lemma_total_value_remove(c, items, pos);
            assert(items_valid(rest, n - 1)) by {
                assert forall|k: int| 0 <= k < rest.len() implies (#[trigger] rest[k]) < n - 1 by {
                    if k < pos {
                        assert(rest[k] == items[k]);
                        assert(items[k] != items[pos]);
                    } else {
                        assert(rest[k] == items[k + 1]);
                        assert(items[k + 1] != items[pos]);
                    }
                }
            }
            assert(rest.no_duplicates()) by {
                assert forall|a: int, b: int|
                    0 <= a < rest.len() && 0 <= b < rest.len() && a != b implies rest[a]
                    != rest[b] by {
                    let a0: int = if a < pos {
                        a
                    } else {
                        a + 1
                    };
                    let b0: int = if b < pos {
                        b
                    } else {
                        b + 1
                    };
                    assert(rest[a] == items[a0] && rest[b] == items[b0]);
                }
            }
            assert(c.weights@[n - 1] <= cap) by {
                lemma_knap_opt_bounds(c, n - 1, cap);
                lemma_totals_bound(c, rest);
            }
            lemma_knap_opt_is_optimal(c, rest, n - 1, cap - c.weights@[n - 1]);
        } else {
            assert(items_valid(items, n - 1)) by {
                assert forall|k: int| 0 <= k < items.len() implies (#[trigger] items[k]) < n
                    - 1 by {
                    if items[k] == n - 1 {
                        assert(items.contains(((n - 1) as usize)));
                    }
                }
            }
            lemma_knap_opt_is_optimal(c, items, n - 1, cap);
            lemma_knap_opt_bounds(c, n - 1, cap);
            lemma_knap_opt_bounds(c, n - 1, cap - c.weights@[n - 1]);
        }
    }
}

/// A packing of the first `n` items achieving [`knap_opt`]: the take/skip
/// choices of the recursion, collected.
pub open spec fn knap_wit(c: Challenge, n: int, cap: int) -> Seq<usize>
    decreases n,
{
    if n <= 0 {
        Seq::empty()
    } else if c.weights@[n - 1] > cap {
        knap_wit(c, n - 1, cap)
    } else {
        let skip = knap_opt(c, n - 1, cap);
        let take = c.values@[n - 1] + knap_opt(c, n - 1, cap - c.weights@[n - 1]);
        if take > skip {
            knap_wit(c, n - 1, cap - c.weights@[n - 1]).push((n - 1) as usize)
        } else {
            knap_wit(c, n - 1, cap)
        }
    }
}

/// The Bellman optimum is achieved: its witness is a distinct valid packing
/// within the capacity worth exactly the optimum.
pub proof fn lemma_knap_opt_achieved(c: Challenge, n: int, cap: int)
    requires
        c.wf(),
        0 <= n <= c.difficulty.num_items,
        0 <= cap,
    ensures
        items_valid(knap_wit(c, n, cap), n),
        knap_wit(c, n, cap).no_duplicates(),
        total_weight(c, knap_wit(c, n, cap)) <= cap,
        total_value(c, knap_wit(c, n, cap)) == knap_opt(c, n, cap),
    decreases n,
{
    if n > 0 {
        let w = c.weights@[n - 1];
        lemma_knap_opt_achieved(c, n - 1, cap);
        if w <= cap {
            let skip = knap_opt(c, n - 1, cap);
            let take = c.values@[n - 1] + knap_opt(c, n - 1, cap - w);
            lemma_knap_opt_achieved(c, n - 1, cap - w);
            if take > skip {
                let prev = knap_wit(c, n - 1, cap - w);
                let x = (n - 1) as usize;
                assert(prev.push(x).drop_last() =~= prev);
                assert(prev.push(x).last() == x);
                assert forall|a: int, b: int|
                    0 <= a < prev.push(x).len() && 0 <= b < prev.push(x).len() && a != b implies prev.push(
                    x,
                )[a] != prev.push(x)[b] by {
                    if a == prev.len() {
                        assert(prev.push(x)[b] == prev[b]);
                        assert(prev[b] < n - 1);
                    } else if b == prev.len() {
                        assert(prev.push(x)[a] == prev[a]);
                        assert(prev[a] < n - 1);
                    } else {
                        assert(prev.push(x)[a] == prev[a]);
                        assert(prev.push(x)[b] == prev[b]);
                    }
                }
            }
        }
    }
}

/// The ranking is ordered by non-increasing exact value-to-weight ratio of
/// the items it refers to.
pub open spec fn ratio_ranked(c: Challenge, s: Seq<Ranked>) -> bool {
    forall|k: int, l: int|
        0 <= k <= l < s.len() ==> (c.values@[(#[trigger] s[k]).index as int] as int)
            * (c.weights@[(#[trigger] s[l]).index as int] as int) >= (c.values@[
            s[l].index as int
        ] as int) * (c.weights@[s[k].index as int] as int)
}

/// Best value achievable from ranked position `k` on within capacity `cap`,
/// taking each ranked item at most once.
pub open spec fn pos_opt(c: Challenge, s: Seq<Ranked>, k: int, cap: int) -> int
    decreases s.len() - k,
{
    if k < 0 || k >= s.len() {
        0
    } else {
        let w = c.weights@[s[k].index as int] as int;
        let v = c.values@[s[k].index as int] as int;
        let skip = pos_opt(c, s, k + 1, cap);
        if w > cap {
            skip
        } else {
            let take = v + pos_opt(c, s, k + 1, cap - w);
            if take > skip {
                take
            } else {
                skip
            }
        }
    }
}

/// The exact greedy fractional relaxation from ranked position `k` with
/// `rem` capacity: items taken whole until the first that does not fit,
/// which contributes its proportional share, rounded down.
pub open spec fn frac_bound(c: Challenge, s: Seq<Ranked>, k: int, rem: int) -> int
    decreases s.len() - k,
{
    if k < 0 || k >= s.len() {
        0
    } else {
        let w = c.weights@[s[k].index as int] as int;
        let v = c.values@[s[k].index as int] as int;
        if w <= rem {
            v + frac_bound(c, s, k + 1, rem - w)
        } else {
            v * rem / w
        }
    }
}

/// The fractional relaxation is never negative.
pub proof fn lemma_frac_nonneg(c: Challenge, s: Seq<Ranked>, k: int, rem: int)
    requires
        c.wf(),
        forall|j: int| 0 <= j < s.len() ==> (#[trigger] s[j]).index < c.difficulty.num_items,
        0 <= k <= s.len(),
        rem >= 0,
    ensures
        frac_bound(c, s, k, rem) >= 0,
    decreases s.len() - k,
{
    if k < s.len() {
        let wk = c.weights@[s[k].index as int] as int;
        let vk = c.values@[s[k].index as int] as int;
        if wk <= rem {
            lemma_frac_nonneg(c, s, k + 1, rem - wk);
        } else {
            assert(vk * rem >= 0) by (nonlinear_arith)
                requires
                    vk >= 0,
                    rem >= 0,
            ;
            vstd::arithmetic::div_mod::lemma_div_pos_is_pos(vk * rem, wk);
        }
    }
}

/// Euclidean division facts used by the relaxation arguments.
proof fn lemma_div_below(a: int, b: int)
    requires
        a >= 0,
        b > 0,
    ensures
        0 <= (a / b) * b <= a,
{
    vstd::arithmetic::div_mod::lemma_fundamental_div_mod(a, b);
    vstd::arithmetic::div_mod::lemma_mod_bound(a, b);
    vstd::arithmetic::div_mod::lemma_div_pos_is_pos(a, b);
    assert((a / b) * b == b * (a / b)) by (nonlinear_arith);
    assert((a / b) * b >= 0) by (nonlinear_arith)
        requires
            a / b >= 0,
            b > 0,
    ;
}

proof fn lemma_le_div(x: int, y: int, b: int)
    requires
        x * b <= y,
        b > 0,
    ensures
        x <= y / b,
{
    vstd::arithmetic::div_mod::lemma_div_is_ordered(x * b, y, b);
    vstd::arithmetic::div_mod::lemma_div_multiples_vanish(x, b);
    vstd::arithmetic::mul::lemma_mul_is_commutative(x, b);
}

/// Any packing from positions at or after `k` is worth at most the exact
/// ratio of a dominating item times the available capacity (scaled to avoid
/// fractions).
proof fn lemma_pos_opt_dominated(c: Challenge, s: Seq<Ranked>, k: int, cap: int, v: int, w: int)
    requires
        c.wf(),
        0 <= k <= s.len(),
        forall|j: int| 0 <= j < s.len() ==> (#[trigger] s[j]).index < c.difficulty.num_items,
        forall|j: int|
            k <= j < s.len() ==> (c.values@[(#[trigger] s[j]).index as int] as int) * w <= v * (
            c.weights@[s[j].index as int] as int),
        w > 0,
        v >= 0,
        cap >= 0,
    ensures
        pos_opt(c, s, k, cap) * w <= v * cap,
        pos_opt(c, s, k, cap) >= 0,
    decreases s.len() - k,
{
    if k < s.len() {
        let wk = c.weights@[s[k].index as int] as int;
        let vk = c.values@[s[k].index as int] as int;
        lemma_pos_opt_dominated(c, s, k + 1, cap, v, w);
        if wk <= cap {
            lemma_pos_opt_dominated(c, s, k + 1, cap - wk, v, w);
            let rest = pos_opt(c, s, k + 1, cap - wk);
            assert((vk + rest) * w == vk * w + rest * w) by (nonlinear_arith);
            assert(v * (cap - wk) == v * cap - v * wk) by (nonlinear_arith);
        }
    } else {
        assert(0 * w == 0) by (nonlinear_arith);
        assert(v * cap >= 0) by (nonlinear_arith)
            requires
                v >= 0,
                cap >= 0,
        ;
    }
}

/// The fractional relaxation is likewise dominated by any item whose ratio
/// is at least every remaining ratio.
proof fn lemma_frac_dominated(c: Challenge, s: Seq<Ranked>, k: int, rem: int, v: int, w: int)
    requires
        c.wf(),
        0 <= k <= s.len(),
        forall|j: int| 0 <= j < s.len() ==> (#[trigger] s[j]).index < c.difficulty.num_items,
        forall|j: int|
            k <= j < s.len() ==> (c.values@[(#[trigger] s[j]).index as int] as int) * w <= v * (
            c.weights@[s[j].index as int] as int),
        w > 0,
        v >= 0,
        rem >= 0,
    ensures
        frac_bound(c, s, k, rem) * w <= v * rem,
        frac_bound(c, s, k, rem) >= 0,
    decreases s.len() - k,
{
    if k < s.len() {
        let wk = c.weights@[s[k].index as int] as int;
        let vk = c.values@[s[k].index as int] as int;
        if wk <= rem {
            lemma_frac_dominated(c, s, k + 1, rem - wk, v, w);
            let rest = frac_bound(c, s, k + 1, rem - wk);
            assert((vk + rest) * w == vk * w + rest * w) by (nonlinear_arith);
            assert(v * (rem - wk) == v * rem - v * wk) by (nonlinear_arith);
        } else {
            let q = vk * rem / wk;
            assert(vk * rem >= 0) by (nonlinear_arith)
                requires
                    vk >= 0,
                    rem >= 0,
            ;
            lemma_div_below(vk * rem, wk);
            assert(q * w * wk <= v * rem * wk) by (nonlinear_arith)
                requires
                    q * wk <= vk * rem,
                    vk * w <= v * wk,
                    w >= 0,
                    wk > 0,
                    rem >= 0,
                    q >= 0,
                    v >= 0,
                    vk >= 0,
            ;
            assert(q * w <= v * rem) by (nonlinear_arith)
                requires
                    q * w * wk <= v * rem * wk,
                    wk > 0,
            ;
        }
    } else {
        assert(0 * w == 0) by (nonlinear_arith);
        assert(v * rem >= 0) by (nonlinear_arith)
            requires
                v >= 0,
                rem >= 0,
        ;
    }
}

/// Shrinking the available capacity by the weight of a dominating item costs
/// the relaxation at most that item's value.
proof fn lemma_frac_shrink(c: Challenge, s: Seq<Ranked>, k: int, rem: int, v: int, w: int)
    requires
        c.wf(),
        0 <= k <= s.len(),
        forall|j: int| 0 <= j < s.len() ==> (#[trigger] s[j]).index < c.difficulty.num_items,
        ratio_ranked(c, s),
        forall|j: int|
            k <= j < s.len() ==> (c.values@[(#[trigger] s[j]).index as int] as int) * w <= v * (
            c.weights@[s[j].index as int] as int),
        w > 0,
        v >= 0,
        0 <= w <= rem,
    ensures
        frac_bound(c, s, k, rem) <= v + frac_bound(c, s, k, rem - w),
    decreases s.len() - k,
{
    if k < s.len() {
        let wk = c.weights@[s[k].index as int] as int;
        let vk = c.values@[s[k].index as int] as int;
        if wk <= rem - w {
            lemma_frac_shrink(c, s, k + 1, rem - wk, v, w);
        } else if wk <= rem {
            // The head item fits only before the shrink; afterwards it is
            // truncated.
            assert forall|j: int|
                k + 1 <= j < s.len() implies (c.values@[(#[trigger] s[j]).index as int] as int)
                * wk <= vk * (c.weights@[s[j].index as int] as int) by {
                assert((c.values@[s[k].index as int] as int) * (c.weights@[
                    s[j].index as int
                ] as int) >= (c.values@[s[j].index as int] as int) * (c.weights@[
                    s[k].index as int
                ] as int));
            }
            lemma_frac_dominated(c, s, k + 1, rem - wk, vk, wk);
            let rest = frac_bound(c, s, k + 1, rem - wk);
            let z = vk + rest;
            assert(z * wk == vk * wk + rest * wk) by (nonlinear_arith)
                requires
                    z == vk + rest,
            ;
            assert(rest * wk <= vk * (rem - wk));
            assert(vk * wk + vk * (rem - wk) == vk * rem) by (nonlinear_arith);
            assert((z - v) * wk == z * wk - v * wk) by (nonlinear_arith);
            assert(vk * rem - v * wk <= vk * rem - vk * w) by (nonlinear_arith)
                requires
                    vk * w <= v * wk,
            ;
            assert(vk * rem - vk * w == vk * (rem - w)) by (nonlinear_arith);
            lemma_le_div(z - v, vk * (rem - w), wk);
        } else {
            // Truncated on both sides.
            let q1 = vk * rem / wk;
            let q2 = vk * (rem - w) / wk;
            assert(vk * rem >= 0) by (nonlinear_arith)
                requires
                    vk >= 0,
                    rem >= 0,
            ;
            lemma_div_below(vk * rem, wk);
            assert((q1 - v) * wk == q1 * wk - v * wk) by (nonlinear_arith);
            assert(q1 * wk - v * wk <= vk * rem - vk * w) by (nonlinear_arith)
                requires
                    q1 * wk <= vk * rem,
                    vk * w <= v * wk,
            ;
            assert(vk * rem - vk * w == vk * (rem - w)) by (nonlinear_arith);
            lemma_le_div(q1 - v, vk * (rem - w), wk);
        }
    }
}

/// Admissibility: the exact greedy fractional relaxation over a
/// ratio-ordered ranking bounds every packing of the remaining positions.
pub proof fn lemma_frac_admissible(c: Challenge, s: Seq<Ranked>, k: int, rem: int)
    requires
        c.wf(),
        forall|j: int| 0 <= j < s.len() ==> (#[trigger] s[j]).index < c.difficulty.num_items,
        ratio_ranked(c, s),
        0 <= k <= s.len(),
        rem >= 0,
    ensures
        pos_opt(c, s, k, rem) <= frac_bound(c, s, k, rem),
    decreases s.len() - k,
{
    if k < s.len() {
        let wk = c.weights@[s[k].index as int] as int;
        let vk = c.values@[s[k].index as int] as int;
        if wk > rem {
            lemma_pos_opt_dominated(c, s, k + 1, rem, vk, wk);
            lemma_le_div(pos_opt(c, s, k + 1, rem), vk * rem, wk);
        } else {
            lemma_frac_admissible(c, s, k + 1, rem - wk);
            lemma_frac_admissible(c, s, k + 1, rem);
            lemma_frac_shrink(c, s, k + 1, rem, vk, wk);
        }
    }
}

/// Any distinct valid packing drawn from positions at or after `k` within
/// the capacity is worth at most the best position packing.
pub proof fn lemma_packing_below_pos_opt(
    c: Challenge,
    s: Seq<Ranked>,
    k: int,
    cap: int,
    items: Seq<usize>,
)
    requires
        c.wf(),
        forall|j: int| 0 <= j < s.len() ==> (#[trigger] s[j]).index < c.difficulty.num_items,
        forall|a: int, b: int|
            0 <= a < s.len() && 0 <= b < s.len() && a != b ==> (#[trigger] s[a]).index != (
            #[trigger] s[b]).index,
        0 <= k <= s.len(),
        items_valid(items, c.difficulty.num_items as int),
        items.no_duplicates(),
        total_weight(c, items) <= cap,
        forall|a: int|
            0 <= a < items.len() ==> exists|j: int|
                k <= j < s.len() && #[trigger] items[a] == (#[trigger] s[j]).index,
    ensures
        total_value(c, items) <= pos_opt(c, s, k, cap),
    decreases s.len() - k,
{
    lemma_totals_bound(c, items);
    if k >= s.len() {
        if items.len() > 0 {
            assert(exists|j: int|
                k <= j < s.len() && #[trigger] items[0] == (#[trigger] s[j]).index);
            assert(false);
        }
        assert(total_value(c, items) == 0);
    } else {
        let idx_k = s[k].index;
        let wk = c.weights@[idx_k as int] as int;
        let vk = c.values@[idx_k as int] as int;
        if items.contains(idx_k) {
            let pos = choose|pos: int| 0 <= pos < items.len() && items[pos] == idx_k;
            let rest = items.remove(pos);
            lemma_total_weight_remove(c, items, pos);
            lemma_total_value_remove(c, items, pos);
            assert(items_valid(rest, c.difficulty.num_items as int)) by {
                assert forall|a: int| 0 <= a < rest.len() implies (#[trigger] rest[a])
                    < c.difficulty.num_items by {
                    if a < pos {
                        assert(rest[a] == items[a]);
                    } else {
                        assert(rest[a] == items[a + 1]);
                    }
                }
            }
            assert(rest.no_duplicates()) by {
                assert forall|a: int, b: int|
                    0 <= a < rest.len() && 0 <= b < rest.len() && a != b implies rest[a]
                    != rest[b] by {
                    let a0: int = if a < pos {
                        a
                    } else {
                        a + 1
                    };
                    let b0: int = if b < pos {
                        b
                    } else {
                        b + 1
                    };
                    assert(rest[a] == items[a0] && rest[b] == items[b0]);
                }
            }
            lemma_totals_bound(c, rest);
            assert forall|a: int| 0 <= a < rest.len() implies exists|j: int|
                k + 1 <= j < s.len() && #[trigger] rest[a] == (#[trigger] s[j]).index by {
                let a0: int = if a < pos {
                    a
                } else {
                    a + 1
                };
                assert(rest[a] == items[a0]);
                assert(items[a0] != items[pos]);
                let j = choose|j: int|
                    k <= j < s.len() && #[trigger] items[a0] == (#[trigger] s[j]).index;
                if j == k {
                    assert(items[a0] == idx_k);
                }
                assert(k + 1 <= j < s.len() && rest[a] == s[j].index);
            }
            lemma_packing_below_pos_opt(c, s, k + 1, cap - wk, rest);
        } else {
            assert forall|a: int| 0 <= a < items.len() implies exists|j: int|
                k + 1 <= j < s.len() && #[trigger] items[a] == (#[trigger] s[j]).index by {
                let j = choose|j: int|
                    k <= j < s.len() && #[trigger] items[a] == (#[trigger] s[j]).index;
                if j == k {
                    assert(items.contains(idx_k));
                }
                assert(k + 1 <= j < s.len() && items[a] == s[j].index);
            }
            lemma_packing_below_pos_opt(c, s, k + 1, cap, items);
        }
    }
}

/// Removing one entry subtracts exactly its weight from the packed total.
pub proof fn lemma_total_weight_remove(c: Challenge, s: Seq<usize>, j: int)
    requires
        0 <= j < s.len(),
    ensures
        total_weight(c, s) == total_weight(c, s.remove(j)) + c.weights@[s[j] as int],
    decreases s.len(),
{
    if j == s.len() - 1 {
        assert(s.remove(j) =~= s.drop_last());
    } else {
        assert(s.remove(j).drop_last() =~= s.drop_last().remove(j));
        assert(s.remove(j).last() == s.last());
        lemma_total_weight_remove(c, s.drop_last(), j);
    }
}

/// Removing one entry subtracts exactly its value from the packed total.
pub proof fn lemma_total_value_remove(c: Challenge, s: Seq<usize>, j: int)
    requires
        0 <= j < s.len(),
    ensures
        total_value(c, s) == total_value(c, s.remove(j)) + c.values@[s[j] as int],
    decreases s.len(),
{
    if j == s.len() - 1 {
        assert(s.remove(j) =~= s.drop_last());
    } else {
        assert(s.remove(j).drop_last() =~= s.drop_last().remove(j));
        assert(s.remove(j).last() == s.last());
        lemma_total_value_remove(c, s.drop_last(), j);
    }
}

/// Packings with the same items in any order have the same weight and value.
pub proof fn lemma_totals_permutation(c: Challenge, s1: Seq<usize>, s2: Seq<usize>)
    requires
        s1.to_multiset() == s2.to_multiset(),
    ensures
        total_weight(c, s1) == total_weight(c, s2),
        total_value(c, s1) == total_value(c, s2),
    decreases s1.len(),
{
    vstd::seq_lib::to_multiset_len(s1);
    vstd::seq_lib::to_multiset_len(s2);
    if s1.len() > 0 {
        let x = s1.last();
        assert(s1.contains(x));
        vstd::seq_lib::to_multiset_contains(s1, x);
        vstd::seq_lib::to_multiset_contains(s2, x);
        assert(s2.contains(x));
        let j = choose|j: int| 0 <= j < s2.len() && s2[j] == x;
        vstd::seq_lib::to_multiset_remove(s2, j);
        vstd::seq_lib::to_multiset_remove(s1, s1.len() - 1);
        assert(s1.remove(s1.len() - 1) =~= s1.drop_last());
        assert(s1.drop_last().to_multiset() =~= s2.remove(j).to_multiset());
        lemma_totals_permutation(c, s1.drop_last(), s2.remove(j));
        lemma_total_weight_remove(c, s2, j);
        lemma_total_value_remove(c, s2, j);
    }
}

/// Reversing a packing changes neither its totals nor its distinctness.
pub proof fn lemma_reverse_packing(c: Challenge, s: Seq<usize>)
    ensures
        total_weight(c, s.reverse()) == total_weight(c, s),
        total_value(c, s.reverse()) == total_value(c, s),
        s.no_duplicates() ==> s.reverse().no_duplicates(),
{
    s.lemma_reverse_to_multiset();
    lemma_totals_permutation(c, s.reverse(), s);
    if s.no_duplicates() {
        s.lemma_multiset_has_no_duplicates();
        s.reverse().lemma_multiset_has_no_duplicates_conv();
    }
}

/// Reverses an index list.
pub fn reversed(v: &Vec<usize>) -> (r: Vec<usize>)
    ensures
        r@ == v@.reverse(),
{
    let mut out: Vec<usize> = Vec::new();
    let mut k: usize = 0;
    while k < v.len()
        invariant
            0 <= k <= v.len(),
            out@.len() == k,
            forall|j: int| 0 <= j < k ==> #[trigger] out@[j] == v@[v@.len() - 1 - j],
        decreases v.len() - k,
    {
        out.push(v[v.len() - 1 - k]);
        k = k + 1;
    }
    proof {
        assert(out@ =~= v@.reverse());
    }
    out
}

/// Collects the selected indices of a selection vector, in ascending order.
pub fn selected_indices(sel: &Vec<bool>) -> (r: Vec<usize>)
    ensures
        r@ == spec_selected(sel@, sel@.len() as int),
{
    let mut out: Vec<usize> = Vec::new();
    let mut i: usize = 0;
    while i < sel.len()
        invariant
            0 <= i <= sel.len(),
            out@ == spec_selected(sel@, i as int),
        decreases sel.len() - i,
    {
        if sel[i] {
            out.push(i);
        }
        i = i + 1;
    }
    out
}

} // verus!
