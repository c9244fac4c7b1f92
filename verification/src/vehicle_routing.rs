//! The capacitated vehicle-routing challenge family and its solvers.
//!
//! A challenge instance carries a distance matrix over nodes (node zero is
//! the depot), per-node demands, a vehicle capacity and a total-distance
//! target. A solver emits routes, each starting and ending at the depot and
//! visiting customer nodes in between.

use vstd::prelude::*;

pub mod cw_test_wasm;

verus! {

/// Largest instance size a solver accepts.
pub const MAX_NODES: usize = 0x10000;

/// Largest single distance, demand or capacity a solver accepts; keeps every
/// sum a solver forms far from machine limits.
pub const MAX_MAGNITUDE: i32 = 0x10_0000;

/// Instance-size parameters of a challenge.
pub struct Difficulty {
    pub num_nodes: usize,
    /// Quality threshold relative to a baseline solver, in basis points.
    pub better_than_baseline: u32,
}

/// One challenge instance.
pub struct Challenge {
    /// Seed the instance was generated from.
    pub seed: Vec<u8>,
    pub difficulty: Difficulty,
    /// Demand of each node; the depot's entry is unused.
    pub demands: Vec<i32>,
    /// Pairwise travel distances; entry `[i][j]` is the cost from `i` to
    /// `j`.
    pub distance_matrix: Vec<Vec<i32>>,
    /// Total distance a solution must not exceed to pass.
    pub max_total_distance: i32,
    /// Carrying capacity of each vehicle.
    pub max_capacity: i32,
}

/// The routes a solver emits; each visits customers between two depot
/// stops.
pub struct Solution {
    pub routes: Vec<Vec<usize>>,
}

impl Challenge {
    /// Well-formedness of an instance: consistent dimensions, at least the
    /// depot, and magnitudes small enough that no sum a solver forms can
    /// overflow.
    pub open spec fn wf(self) -> bool {
        let n = self.difficulty.num_nodes;
        &&& self.demands@.len() == n
        &&& self.distance_matrix@.len() == n
        &&& forall|i: int|
            0 <= i < n ==> (#[trigger] self.distance_matrix@[i])@.len() == n
        &&& 1 <= n <= MAX_NODES
        &&& forall|i: int| 0 <= i < n ==> 0 <= #[trigger] self.demands@[i] <= MAX_MAGNITUDE
        &&& forall|i: int, j: int|
            0 <= i < n && 0 <= j < n ==> 0 <= #[trigger] self.distance_matrix@[i]@[j]
                <= MAX_MAGNITUDE
        &&& 0 <= self.max_total_distance <= MAX_MAGNITUDE
        &&& 0 <= self.max_capacity <= MAX_MAGNITUDE
    }
}

/// A route is well-formed when it leaves the depot, visits at least one
/// valid customer, and returns to the depot.
pub open spec fn route_well_formed(route: Seq<usize>, n: int) -> bool {
    &&& route.len() >= 3
    &&& route[0] == 0
    &&& route[route.len() - 1] == 0
    &&& forall|k: int| 0 < k < route.len() - 1 ==> 1 <= #[trigger] route[k] < n
}

/// Total distance of the first `k` entries of the depot's matrix row; the
/// yardstick the savings solver screens the distance target against.
pub open spec fn depot_row_total(c: Challenge, k: int) -> int
    decreases k,
{
    if k <= 0 {
        0
    } else {
        depot_row_total(c, k - 1) + c.distance_matrix@[0]@[k - 1]
    }
}

/// Total demand of a chain of customers.
pub open spec fn chain_demand(c: Challenge, chain: Seq<usize>) -> int
    decreases chain.len(),
{
    if chain.len() == 0 {
        0
    } else {
        chain_demand(c, chain.drop_last()) + c.demands@[chain.last() as int]
    }
}

/// Removing one customer subtracts exactly its demand.
pub proof fn lemma_chain_demand_remove(c: Challenge, chain: Seq<usize>, j: int)
    requires
        0 <= j < chain.len(),
    ensures
        chain_demand(c, chain) == chain_demand(c, chain.remove(j)) + c.demands@[chain[j] as int],
    decreases chain.len(),
{
    if j == chain.len() - 1 {
        assert(chain.remove(j) =~= chain.drop_last());
    } else {
        assert(chain.remove(j).drop_last() =~= chain.drop_last().remove(j));
        assert(chain.remove(j).last() == chain.last());
        lemma_chain_demand_remove(c, chain.drop_last(), j);
    }
}

/// Chains with the same customers in any order have the same demand.
pub proof fn lemma_chain_demand_permutation(c: Challenge, s1: Seq<usize>, s2: Seq<usize>)
    requires
        s1.to_multiset() == s2.to_multiset(),
    ensures
        chain_demand(c, s1) == chain_demand(c, s2),
    decreases s1.len(),
{
    vstd::seq_lib::to_multiset_len(s1);
    vstd::seq_lib::to_multiset_len(s2);
    if s1.len() > 0 {
        let x = s1.last();
        assert(s1.contains(x));
        vstd::seq_lib::to_multiset_contains(s1, x);
        vstd::seq_lib::to_multiset_contains(s2, x);
        assert(s2.contains(x));
        let j = choose|j: int| 0 <= j < s2.len() && s2[j] == x;
        vstd::seq_lib::to_multiset_remove(s2, j);
        vstd::seq_lib::to_multiset_remove(s1, s1.len() - 1);
        assert(s1.remove(s1.len() - 1) =~= s1.drop_last());
        assert(s1.drop_last().to_multiset() =~= s2.remove(j).to_multiset());
        lemma_chain_demand_permutation(c, s1.drop_last(), s2.remove(j));
        lemma_chain_demand_remove(c, s2, j);
    }
}

/// Reversing a chain does not change its demand.
pub proof fn lemma_chain_demand_reverse(c: Challenge, chain: Seq<usize>)
    ensures
        chain_demand(c, chain.reverse()) == chain_demand(c, chain),
{
    chain.lemma_reverse_to_multiset();
    lemma_chain_demand_permutation(c, chain.reverse(), chain);
}

/// Joining two chains adds their demands.
pub proof fn lemma_chain_demand_concat(c: Challenge, a: Seq<usize>, b: Seq<usize>)
    ensures
        chain_demand(c, a + b) == chain_demand(c, a) + chain_demand(c, b),
    decreases b.len(),
{
    if b.len() == 0 {
        assert(a + b =~= a);
    } else {
        assert((a + b).drop_last() =~= a + b.drop_last());
        assert((a + b).last() == b.last());
        lemma_chain_demand_concat(c, a, b.drop_last());
    }
}

/// The customers a solution visits, in emission order: the interiors of its
/// routes, concatenated.
pub open spec fn visited_customers(routes: Seq<Vec<usize>>) -> Seq<usize>
    decreases routes.len(),
{
    if routes.len() == 0 {
        Seq::empty()
    } else {
        let last = routes.last()@;
        visited_customers(routes.drop_last()) + last.subrange(1, last.len() - 1)
    }
}

/// Every customer is served by exactly one route: no customer is visited
/// twice across the solution and none is left out.
pub open spec fn serves_each_customer_once(c: Challenge, s: Solution) -> bool {
    &&& visited_customers(s.routes@).no_duplicates()
    &&& forall|idx: int|
        1 <= idx < c.difficulty.num_nodes ==> #[trigger] visited_customers(s.routes@).contains(
            (idx as usize),
        )
}

/// Every route of the solution is well-formed for the instance, and every
/// route serving more than one customer carries at most the vehicle
/// capacity. A lone customer whose demand alone exceeds the capacity still
/// gets its own route.
pub open spec fn routes_well_formed(c: Challenge, s: Solution) -> bool {
    forall|r: int|
        0 <= r < s.routes@.len() ==> {
            let route = (#[trigger] s.routes@[r])@;
            &&& route_well_formed(route, c.difficulty.num_nodes as int)
            &&& (route.len() > 3 ==> chain_demand(c, route.subrange(1, route.len() - 1))
                <= c.max_capacity)
        }
}

} // verus!
