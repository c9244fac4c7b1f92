//! Ranking of items by exact fractional keys.
//!
//! Solvers order candidate items by scores such as value-to-weight ratios or
//! merge savings. A score is kept as an exact fraction (numerator over a
//! positive denominator) and compared by cross-multiplication, so the order
//! is a total preorder computed exactly in integers. An integer key ranks
//! with denominator one.

use vstd::multiset::Multiset;
use vstd::prelude::*;

verus! {

/// An item index together with its exact fractional score.
#[derive(Clone, Copy, PartialEq, Eq, Structural)]
pub struct Ranked {
    /// Numerator of the score.
    pub num: i64,
    /// Denominator of the score; must be positive.
    pub den: u32,
    /// Index of the underlying item.
    pub index: usize,
}

/// Exact comparison of fractional scores: `a` scores at least as high as
/// `b`. Meaningful only for positive denominators.
pub open spec fn ratio_ge(a: Ranked, b: Ranked) -> bool {
    a.num * b.den >= b.num * a.den
}

/// Descending order by score.
pub open spec fn sorted_desc(s: Seq<Ranked>) -> bool {
    forall|i: int, j: int| 0 <= i <= j < s.len() ==> ratio_ge(#[trigger] s[i], #[trigger] s[j])
}

/// With positive denominators the score comparison is transitive.
pub proof fn lemma_ratio_ge_trans(a: Ranked, b: Ranked, c: Ranked)
    requires
        a.den > 0,
        b.den > 0,
        c.den > 0,
        ratio_ge(a, b),
        ratio_ge(b, c),
    ensures
        ratio_ge(a, c),
{
    assert(a.num * c.den >= c.num * a.den) by (nonlinear_arith)
        requires
            a.den > 0,
            b.den > 0,
            c.den > 0,
            a.num * b.den >= b.num * a.den,
            b.num * c.den >= c.num * b.den,
    ;
}

/// The cross product of a 64-bit numerator and a 32-bit denominator stays
/// far inside the 128-bit range.
proof fn lemma_cross_product_bound(x: i128, y: i128)
    requires
        -0x8000_0000_0000_0000 <= x < 0x8000_0000_0000_0000,
        0 <= y < 0x1_0000_0000,
    ensures
        -0x8000_0000_0000_0000_0000_0000 <= x * y <= 0x8000_0000_0000_0000_0000_0000,
{
    assert(-0x8000_0000_0000_0000_0000_0000 <= x * y <= 0x8000_0000_0000_0000_0000_0000)
        by (nonlinear_arith)
        requires
            -0x8000_0000_0000_0000 <= x < 0x8000_0000_0000_0000,
            0 <= y < 0x1_0000_0000,
    ;
}

/// Executable form of [`ratio_ge`]; exact because the cross products cannot
/// overflow a 128-bit integer.
pub fn ratio_ge_exec(a: &Ranked, b: &Ranked) -> (r: bool)
    ensures
        r == ratio_ge(*a, *b),
{
    let an = a.num as i128;
    let ad = a.den as i128;
    let bn = b.num as i128;
    let bd = b.den as i128;
    proof {
        lemma_cross_product_bound(an, bd);
        lemma_cross_product_bound(bn, ad);
    }
    an * bd >= bn * ad
}

/// When a ranking holds exactly one entry per item index, any rearrangement
/// of it still ranks each item at most once.
pub proof fn lemma_sorted_indices_distinct(input: Seq<Ranked>, sorted: Seq<Ranked>)
    requires
        input.to_multiset() == sorted.to_multiset(),
        forall|k: int| 0 <= k < input.len() ==> (#[trigger] input[k]).index == k,
    ensures
        forall|a: int, b: int|
            0 <= a < sorted.len() && 0 <= b < sorted.len() && a != b ==> (
            #[trigger] sorted[a]).index != (#[trigger] sorted[b]).index,
{
    vstd::seq_lib::to_multiset_len(input);
    vstd::seq_lib::to_multiset_len(sorted);
    assert(input.no_duplicates());
    input.lemma_multiset_has_no_duplicates();
    sorted.lemma_multiset_has_no_duplicates_conv();
    assert forall|a: int, b: int|
        0 <= a < sorted.len() && 0 <= b < sorted.len() && a != b implies (
    #[trigger] sorted[a]).index != (#[trigger] sorted[b]).index by {
        if sorted[a].index == sorted[b].index {
            vstd::seq_lib::to_multiset_contains(sorted, sorted[a]);
            vstd::seq_lib::to_multiset_contains(sorted, sorted[b]);
            vstd::seq_lib::to_multiset_contains(input, sorted[a]);
            vstd::seq_lib::to_multiset_contains(input, sorted[b]);
            assert(input.contains(sorted[a]));
            assert(input.contains(sorted[b]));
            let j1 = choose|j: int| 0 <= j < input.len() && input[j] == sorted[a];
            let j2 = choose|j: int| 0 <= j < input.len() && input[j] == sorted[b];
            assert(j1 == sorted[a].index && j2 == sorted[b].index);
            assert(sorted[a] == sorted[b]);
        }
    }
}

/// Sorts items by descending score, exactly. The result is a rearrangement
/// of the input: same multiset of entries, so in particular every entry of
/// the result is an entry of the input.
pub fn sort_ranked_desc(input: Vec<Ranked>) -> (r: Vec<Ranked>)
    requires
        forall|i: int| 0 <= i < input@.len() ==> (#[trigger] input@[i]).den > 0,
    ensures
        r@.to_multiset() == input@.to_multiset(),
        r@.len() == input@.len(),
        sorted_desc(r@),
        forall|i: int| 0 <= i < r@.len() ==> input@.contains(#[trigger] r@[i]),
{
    broadcast use vstd::seq_lib::group_to_multiset_ensures;
    broadcast use vstd::multiset::group_multiset_axioms;

    let mut rest = input;
    let mut out: Vec<Ranked> = Vec::new();
    proof {
        assert(out@.to_multiset().add(rest@.to_multiset()) =~= input@.to_multiset());
    }
    while rest.len() > 0
        invariant
            out@.to_multiset().add(rest@.to_multiset()) == input@.to_multiset(),
            out@.len() + rest@.len() == input@.len(),
            sorted_desc(out@),
            forall|i: int, j: int|
                0 <= i < out@.len() && 0 <= j < rest@.len() ==> ratio_ge(
                    #[trigger] out@[i],
                    #[trigger] rest@[j],
                ),
            forall|i: int| 0 <= i < rest@.len() ==> (#[trigger] rest@[i]).den > 0,
            forall|i: int| 0 <= i < out@.len() ==> (#[trigger] out@[i]).den > 0,
            forall|i: int| 0 <= i < out@.len() ==> input@.contains(#[trigger] out@[i]),
            forall|i: int| 0 <= i < rest@.len() ==> input@.contains(#[trigger] rest@[i]),
        decreases rest.len(),
    {
        let mut best: usize = 0;
        let mut k: usize = 1;
        while k < rest.len()
            invariant
                rest@.len() > 0,
                0 <= best < k <= rest@.len(),
                forall|j: int| 0 <= j < k ==> ratio_ge(rest@[best as int], #[trigger] rest@[j]),
                forall|i: int| 0 <= i < rest@.len() ==> (#[trigger] rest@[i]).den > 0,
            decreases rest.len() - k,
        {
            if !ratio_ge_exec(&rest[best], &rest[k]) {
                proof {
                    assert(ratio_ge(rest@[k as int], rest@[best as int]));
                    assert forall|j: int| 0 <= j < k + 1 implies ratio_ge(
                        rest@[k as int],
                        #[trigger] rest@[j],
                    ) by {
                        if j < k {
                            lemma_ratio_ge_trans(rest@[k as int], rest@[best as int], rest@[j]);
                        }
                    }
                }
                best = k;
            }
            k = k + 1;
        }
        let ghost prev_out = out@;
        let ghost prev_rest = rest@;
        let picked = rest.remove(best);
        out.push(picked);
        proof {
            assert(prev_rest[best as int] == picked);
            assert(prev_rest.contains(picked));
            vstd::seq_lib::to_multiset_contains(prev_rest, picked);
            vstd::seq_lib::to_multiset_build(prev_out, picked);
            vstd::seq_lib::to_multiset_remove(prev_rest, best as int);
            assert(out@.to_multiset() =~= prev_out.to_multiset().insert(picked));
            assert(rest@.to_multiset() =~= prev_rest.to_multiset().remove(picked));
            assert(out@.to_multiset().add(rest@.to_multiset()) =~= prev_out.to_multiset().add(
                prev_rest.to_multiset(),
            ));
            assert(forall|j: int|
                0 <= j < rest@.len() ==> #[trigger] rest@[j] == if j < best {
                    prev_rest[j]
                } else {
                    prev_rest[j + 1]
                });
        }
    }
    proof {
        assert(rest@.to_multiset() =~= Multiset::<Ranked>::empty());
        assert(out@.to_multiset().add(Multiset::<Ranked>::empty()) =~= out@.to_multiset());
    }
    out
}

} // verus!
