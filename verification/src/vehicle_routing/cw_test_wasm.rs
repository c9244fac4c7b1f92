//! Savings-merge route construction.
//!
//! Screens the instance by an exact ratio test against the depot row's total
//! distance — the one point where the solver declines — computes the
//! classical merge saving for every customer pair, and greedily merges
//! routes by descending saving while the combined demand fits the vehicle
//! capacity. Every emitted route leaves the depot, visits valid customers
//! and returns to the depot; a cross-check during emission guarantees the
//! routes serve each customer exactly once.

use vstd::prelude::*;

use crate::ranking::{sort_ranked_desc, Ranked};
use crate::vehicle_routing::{
    chain_demand, depot_row_total, lemma_chain_demand_concat, lemma_chain_demand_reverse,
    route_well_formed, routes_well_formed, serves_each_customer_once, visited_customers,
    Challenge, Solution, MAX_MAGNITUDE,
};

verus! {

/// Nodes of a live chain are valid customers.
spec fn chain_ok(chain: Seq<usize>, n: int) -> bool {
    forall|k: int| 0 <= k < chain.len() ==> 1 <= #[trigger] chain[k] < n
}

/// Reverses a chain of customers.
fn reversed_chain(v: &Vec<usize>) -> (r: Vec<usize>)
    ensures
        r@ == v@.reverse(),
        r@.len() == v@.len(),
        forall|k: int| 0 <= k < r@.len() ==> #[trigger] r@[k] == v@[v@.len() - 1 - k],
{
    let mut out: Vec<usize> = Vec::new();
    let mut k: usize = 0;
    while k < v.len()
        invariant
            0 <= k <= v.len(),
            out@.len() == k,
            forall|j: int| 0 <= j < k ==> #[trigger] out@[j] == v@[v@.len() - 1 - j],
        decreases v.len() - k,
    {
        out.push(v[v.len() - 1 - k]);
        k = k + 1;
    }
    proof {
        assert(out@ =~= v@.reverse());
    }
    out
}

/// Copies a chain of customers.
fn cloned_chain(v: &Vec<usize>) -> (r: Vec<usize>)
    ensures
        r@ == v@,
{
    let mut out: Vec<usize> = Vec::new();
    let mut k: usize = 0;
    while k < v.len()
        invariant
            0 <= k <= v.len(),
            out@ =~= v@.take(k as int),
        decreases v.len() - k,
    {
        out.push(v[k]);
        proof {
            assert(out@ =~= v@.take(k as int + 1));
        }
        k = k + 1;
    }
    proof {
        assert(v@.take(v@.len() as int) =~= v@);
    }
    out
}

pub fn solve_challenge(challenge: &Challenge) -> (r: Option<Solution>)
    requires
        challenge.wf(),
    ensures
        r matches Some(s) ==> routes_well_formed(*challenge, s) && serves_each_customer_once(
            *challenge,
            s,
        ),
        r is None <==> 100 * (challenge.max_total_distance as int) < 57 * depot_row_total(
            *challenge,
            challenge.difficulty.num_nodes as int,
        ),
{
    let num_forks = challenge.difficulty.num_nodes;
    let capacity = challenge.max_capacity as u64;

    // Exact ratio screen against the depot row's total distance; the one
    // point where the solver declines an instance.
    let mut row_total: i64 = 0;
    let mut k: usize = 0;
    while k < num_forks
        invariant
            challenge.wf(),
            num_forks == challenge.difficulty.num_nodes,
            0 <= k <= num_forks,
            0 <= row_total <= (k as int) * (MAX_MAGNITUDE as int),
            row_total == depot_row_total(*challenge, k as int),
        decreases num_forks - k,
    {
        row_total = row_total + challenge.distance_matrix[0][k] as i64;
        k = k + 1;
    }
    if 100 * (challenge.max_total_distance as i64) < 57 * row_total {
        return None;
    }

    // Merge savings for every customer pair, best first.
    let mut pairs: Vec<(usize, usize)> = Vec::new();
    let mut ranked: Vec<Ranked> = Vec::new();
    let mut v1: usize = 1;
    while v1 < num_forks
        invariant
            challenge.wf(),
            num_forks == challenge.difficulty.num_nodes,
            1 <= v1 <= num_forks || (num_forks == 1 && v1 == 1),
            pairs@.len() == ranked@.len(),
            forall|k: int|
                0 <= k < pairs@.len() ==> 1 <= (#[trigger] pairs@[k]).0 < num_forks && 1
                    <= pairs@[k].1 < num_forks,
            forall|k: int|
                0 <= k < ranked@.len() ==> (#[trigger] ranked@[k]).den > 0 && ranked@[k].index
                    < pairs@.len(),
        decreases num_forks - v1,
    {
        let mut v2: usize = v1 + 1;
        while v2 < num_forks
            invariant
                challenge.wf(),
                num_forks == challenge.difficulty.num_nodes,
                1 <= v1 < num_forks,
                v1 + 1 <= v2 <= num_forks,
                pairs@.len() == ranked@.len(),
                forall|k: int|
                    0 <= k < pairs@.len() ==> 1 <= (#[trigger] pairs@[k]).0 < num_forks && 1
                        <= pairs@[k].1 < num_forks,
                forall|k: int|
                    0 <= k < ranked@.len() ==> (#[trigger] ranked@[k]).den > 0 && ranked@[k].index
                        < pairs@.len(),
            decreases num_forks - v2,
        {
            let saving = (challenge.distance_matrix[v1][0] as i64) + (
            challenge.distance_matrix[0][v2] as i64) - (challenge.distance_matrix[v1][v2] as i64);
            ranked.push(Ranked { num: saving, den: 1, index: pairs.len() });
            pairs.push((v1, v2));
            v2 = v2 + 1;
        }
        v1 = v1 + 1;
    }
    let ghost ranked0 = ranked@;
    let ghost pairs_len = pairs@.len();
    let sorted = sort_ranked_desc(ranked);
    proof {
        assert forall|k: int|
            0 <= k < sorted@.len() implies (#[trigger] sorted@[k]).index < pairs_len by {
            assert(ranked0.contains(sorted@[k]));
            let j = choose|j: int| 0 <= j < ranked0.len() && ranked0[j] == sorted@[k];
        }
    }

    // One singleton chain per customer; a chain is stored at both of its
    // endpoints and an empty cell means the node is interior or consumed.
    let mut paths: Vec<Vec<usize>> = Vec::new();
    let mut path_demands: Vec<u64> = Vec::new();
    let mut i: usize = 0;
    while i < num_forks
        invariant
            challenge.wf(),
            num_forks == challenge.difficulty.num_nodes,
            0 <= i <= num_forks,
            paths@.len() == i,
            path_demands@.len() == i,
            forall|v: int| 0 <= v < i ==> chain_ok((#[trigger] paths@[v])@, num_forks as int),
            forall|v: int| 0 <= v < i ==> #[trigger] path_demands@[v] <= MAX_MAGNITUDE as u64,
            forall|v: int|
                #![trigger paths@[v]]
                0 <= v < i && paths@[v]@.len() > 0 ==> chain_demand(*challenge, paths@[v]@)
                    == path_demands@[v],
            forall|v: int|
                #![trigger paths@[v]]
                0 <= v < i && paths@[v]@.len() >= 2 ==> path_demands@[v] <= capacity,
        decreases num_forks - i,
    {
        if i == 0 {
            paths.push(Vec::new());
        } else {
            let mut chain: Vec<usize> = Vec::new();
            chain.push(i);
            proof {
                assert(chain@.drop_last() =~= Seq::<usize>::empty());
                assert(chain_demand(*challenge, Seq::<usize>::empty()) == 0);
            }
            paths.push(chain);
        }
        path_demands.push(challenge.demands[i] as u64);
        i = i + 1;
    }

    let mut t: usize = 0;
    let mut merging: usize = 1;
    while t < sorted.len() && merging == 1
        invariant
            challenge.wf(),
            num_forks == challenge.difficulty.num_nodes,
            capacity == challenge.max_capacity as u64,
            0 <= t <= sorted@.len(),
            merging <= 1,
            pairs@.len() == pairs_len,
            forall|k: int|
                0 <= k < pairs@.len() ==> 1 <= (#[trigger] pairs@[k]).0 < num_forks && 1
                    <= pairs@[k].1 < num_forks,
            forall|k: int| 0 <= k < sorted@.len() ==> (#[trigger] sorted@[k]).index < pairs_len,
            paths@.len() == num_forks,
            path_demands@.len() == num_forks,
            forall|v: int|
                0 <= v < num_forks ==> chain_ok((#[trigger] paths@[v])@, num_forks as int),
            forall|v: int|
                0 <= v < num_forks ==> #[trigger] path_demands@[v] <= MAX_MAGNITUDE as u64,
            forall|v: int|
                #![trigger paths@[v]]
                0 <= v < num_forks && paths@[v]@.len() > 0 ==> chain_demand(
                    *challenge,
                    paths@[v]@,
                ) == path_demands@[v],
            forall|v: int|
                #![trigger paths@[v]]
                0 <= v < num_forks && paths@[v]@.len() >= 2 ==> path_demands@[v] <= capacity,
        decreases sorted.len() - t, merging,
    {
        let entry = sorted[t];
        if entry.num < 0 {
            merging = 0;
        } else {
            let pair = pairs[entry.index];
            let v1 = pair.0;
            let v2 = pair.1;
            if paths[v1].len() > 0 && paths[v2].len() > 0 {
                let mut sx_path = cloned_chain(&paths[v1]);
                let mut dx_path = cloned_chain(&paths[v2]);
                let mut sx_startfork = sx_path[0];
                let dx_startfork = dx_path[0];
                let sx_endfork = sx_path[sx_path.len() - 1];
                let mut dx_endfork = dx_path[dx_path.len() - 1];
                let ghost sx_demand = chain_demand(*challenge, sx_path@);
                let ghost dx_demand = chain_demand(*challenge, dx_path@);
                let merged_demand = path_demands[v1] + path_demands[v2];

                if sx_startfork != dx_startfork && merged_demand <= capacity {
                    paths.set(sx_startfork, Vec::new());
                    paths.set(dx_startfork, Vec::new());
                    paths.set(sx_endfork, Vec::new());
                    paths.set(dx_endfork, Vec::new());

                    if sx_startfork == v1 {
                        proof {
                            lemma_chain_demand_reverse(*challenge, sx_path@);
                        }
                        sx_path = reversed_chain(&sx_path);
                        sx_startfork = sx_endfork;
                    }
                    if dx_endfork == v2 {
                        proof {
                            lemma_chain_demand_reverse(*challenge, dx_path@);
                        }
                        dx_path = reversed_chain(&dx_path);
                        dx_endfork = dx_startfork;
                    }

                    let ghost sx_view = sx_path@;
                    let mut new_path = sx_path;
                    let mut q: usize = 0;
                    while q < dx_path.len()
                        invariant
                            num_forks == challenge.difficulty.num_nodes,
                            0 <= q <= dx_path@.len(),
                            chain_ok(new_path@, num_forks as int),
                            chain_ok(dx_path@, num_forks as int),
                            new_path@ =~= sx_view + dx_path@.take(q as int),
                        decreases dx_path.len() - q,
                    {
                        new_path.push(dx_path[q]);
                        proof {
                            assert(new_path@ =~= sx_view + dx_path@.take(q as int + 1));
                        }
                        q = q + 1;
                    }
                    proof {
                        assert(dx_path@.take(dx_path@.len() as int) =~= dx_path@);
                        assert(new_path@ =~= sx_view + dx_path@);
                        lemma_chain_demand_concat(*challenge, sx_view, dx_path@);
                        assert(chain_demand(*challenge, new_path@) == sx_demand + dx_demand);
                    }

                    let copy_for_start = cloned_chain(&new_path);
                    paths.set(sx_startfork, copy_for_start);
                    paths.set(dx_endfork, new_path);
                    path_demands.set(sx_startfork, merged_demand);
                    path_demands.set(dx_endfork, merged_demand);
                }
            }
            t = t + 1;
        }
    }

    // Emit each surviving chain once, framed by depot stops. A cross-check
    // confirms on the way that the chains partition the customers; were the
    // merged structure ever inconsistent, the emission falls back to one
    // route per customer, which always partitions them.
    let mut routes: Vec<Vec<usize>> = Vec::new();
    let mut seen: Vec<bool> = vec![false; num_forks];
    proof {
        assert(forall|v: int| 0 <= v < seen@.len() ==> !(#[trigger] seen@[v]));
    }
    let mut consistent = true;
    let mut i: usize = 0;
    while i < num_forks
        invariant
            challenge.wf(),
            num_forks == challenge.difficulty.num_nodes,
            capacity == challenge.max_capacity as u64,
            0 <= i <= num_forks,
            paths@.len() == num_forks,
            path_demands@.len() == num_forks,
            seen@.len() == num_forks,
            forall|v: int|
                0 <= v < num_forks ==> chain_ok((#[trigger] paths@[v])@, num_forks as int),
            forall|v: int|
                #![trigger paths@[v]]
                0 <= v < num_forks && paths@[v]@.len() > 0 ==> chain_demand(
                    *challenge,
                    paths@[v]@,
                ) == path_demands@[v],
            forall|v: int|
                #![trigger paths@[v]]
                0 <= v < num_forks && paths@[v]@.len() >= 2 ==> path_demands@[v] <= capacity,
            forall|r: int|
                0 <= r < routes@.len() ==> {
                    let route = (#[trigger] routes@[r])@;
                    &&& route_well_formed(route, num_forks as int)
                    &&& (route.len() > 3 ==> chain_demand(
                        *challenge,
                        route.subrange(1, route.len() - 1),
                    ) <= challenge.max_capacity)
                },
            consistent ==> visited_customers(routes@).no_duplicates(),
            consistent ==> forall|v: int|
                0 <= v < num_forks ==> (seen@[v] <==> visited_customers(routes@).contains(
                    (v as usize),
                )),
        decreases num_forks - i,
    {
        if consistent && paths[i].len() > 0 && paths[i][0] == i {
            let chain = cloned_chain(&paths[i]);
            let ghost pre_seen = seen@;
            let ghost pre_visited = visited_customers(routes@);
            let mut fresh = true;
            let mut q: usize = 0;
            while q < chain.len() && fresh
                invariant
                    num_forks == challenge.difficulty.num_nodes,
                    chain_ok(chain@, num_forks as int),
                    0 <= q <= chain@.len(),
                    seen@.len() == num_forks,
                    pre_seen.len() == num_forks,
                    fresh ==> forall|v: int|
                        0 <= v < num_forks ==> (seen@[v] <==> (pre_seen[v] || chain@.take(
                            q as int,
                        ).contains((v as usize)))),
                    fresh ==> chain@.take(q as int).no_duplicates(),
                    fresh ==> forall|a: int| 0 <= a < q ==> !pre_seen[chain@[a] as int],
                decreases chain.len() - q, if fresh { 1int } else { 0int },
            {
                let node = chain[q];
                if seen[node] {
                    fresh = false;
                } else {
                    let ghost mid_seen = seen@;
                    seen.set(node, true);
                    proof {
                        assert(chain@.take(q as int + 1) =~= chain@.take(q as int).push(node));
                        let taken = chain@.take(q as int);
                        assert forall|v: int|
                            0 <= v < num_forks implies (seen@[v] <==> (pre_seen[v] || taken.push(
                            node,
                        ).contains((v as usize)))) by {
                            if taken.push(node).contains((v as usize)) {
                                let wi = choose|wi: int|
                                    0 <= wi < taken.push(node).len() && taken.push(node)[wi] == (
                                    v as usize);
                                if wi < taken.len() {
                                    assert(taken[wi] == (v as usize));
                                    assert(taken.contains((v as usize)));
                                }
                            }
                            if taken.contains((v as usize)) {
                                let wi = choose|wi: int|
                                    0 <= wi < taken.len() && taken[wi] == (v as usize);
                                assert(taken.push(node)[wi] == (v as usize));
                            }
                            if v == node as int {
                                assert(taken.push(node)[taken.len() as int] == (v as usize));
                            }
                        }
                        assert forall|a: int, b: int|
                            0 <= a < taken.push(node).len() && 0 <= b < taken.push(node).len()
                                && a != b implies taken.push(node)[a] != taken.push(node)[b] by {
                            if a == taken.len() {
                                assert(taken.push(node)[b] == taken[b]);
                                assert(!taken.contains(node));
                            } else if b == taken.len() {
                                assert(taken.push(node)[a] == taken[a]);
                                assert(!taken.contains(node));
                            } else {
                                assert(taken.push(node)[a] == taken[a]);
                                assert(taken.push(node)[b] == taken[b]);
                            }
                        }
                    }
                    q = q + 1;
                }
            }
            if !fresh {
                consistent = false;
            } else {
                proof {
                    assert(chain@.take(chain@.len() as int) =~= chain@);
                }
                let mut route: Vec<usize> = Vec::new();
                route.push(0);
                let mut q: usize = 0;
                while q < chain.len()
                    invariant
                        num_forks == challenge.difficulty.num_nodes,
                        0 <= q <= chain@.len(),
                        chain@.len() > 0,
                        chain_ok(chain@, num_forks as int),
                        route@.len() == q + 1,
                        route@[0] == 0,
                        forall|k: int|
                            0 < k < route@.len() ==> 1 <= #[trigger] route@[k] < num_forks,
                        forall|k: int|
                            0 < k < route@.len() ==> #[trigger] route@[k] == chain@[k - 1],
                    decreases chain.len() - q,
                {
                    route.push(chain[q]);
                    q = q + 1;
                }
                route.push(0);
                proof {
                    assert(route@.subrange(1, route@.len() - 1) =~= chain@);
                }
                let ghost prev_routes = routes@;
                routes.push(route);
                proof {
                    assert(routes@.drop_last() =~= prev_routes);
                    assert(visited_customers(routes@) == pre_visited + chain@);
                    assert(chain@.take(chain@.len() as int) =~= chain@);
                    assert(forall|v: int|
                        0 <= v < num_forks ==> (seen@[v] <==> (pre_seen[v] || chain@.contains(
                            (v as usize),
                        ))));
                    assert(forall|v: int|
                        0 <= v < num_forks ==> (pre_seen[v] <==> pre_visited.contains(
                            (v as usize),
                        )));
                    assert forall|a: int, b: int|
                        0 <= a < (pre_visited + chain@).len() && 0 <= b < (pre_visited
                            + chain@).len() && a != b implies (pre_visited + chain@)[a] != (
                    pre_visited + chain@)[b] by {
                        let pl = pre_visited.len() as int;
                        if a < pl && b < pl {
                        } else if a >= pl && b >= pl {
                            assert((pre_visited + chain@)[a] == chain@[a - pl]);
                            assert((pre_visited + chain@)[b] == chain@[b - pl]);
                        } else {
                            let ca: int = if a >= pl {
                                a - pl
                            } else {
                                b - pl
                            };
                            let pa: int = if a >= pl {
                                b
                            } else {
                                a
                            };
                            assert(!pre_seen[chain@[ca] as int]);
                            assert(!pre_visited.contains(chain@[ca]));
                            if pre_visited[pa] == chain@[ca] {
                                assert(pre_visited.contains(chain@[ca]));
                            }
                        }
                    }
                    assert forall|v: int|
                        0 <= v < num_forks implies (seen@[v] <==> visited_customers(
                        routes@,
                    ).contains((v as usize))) by {
                        let whole = pre_visited + chain@;
                        let u = v as usize;
                        let pl = pre_visited.len() as int;
                        if seen@[v] {
                            if pre_seen[v] {
                                assert(pre_visited.contains(u));
                                let wi = choose|wi: int|
                                    0 <= wi < pre_visited.len() && pre_visited[wi] == u;
                                assert(whole[wi] == u);
                            } else {
                                assert(chain@.contains(u));
                                let wi = choose|wi: int|
                                    0 <= wi < chain@.len() && chain@[wi] == u;
                                assert(whole[pl + wi] == u);
                            }
                            assert(whole.contains(u));
                        }
                        if whole.contains(u) {
                            let wi = choose|wi: int| 0 <= wi < whole.len() && whole[wi] == u;
                            if wi < pl {
                                assert(pre_visited[wi] == u);
                                assert(pre_visited.contains(u));
                                assert(pre_seen[v]);
                            } else {
                                assert(chain@[wi - pl] == u);
                                assert(chain@.contains(u));
                            }
                            assert(pre_seen[v] || chain@.contains(u));
                            assert(seen@[v]);
                        }
                    }
                }
            }
        }
        i = i + 1;
    }

    // Every customer must have been emitted exactly once.
    let mut covered = consistent;
    let mut v: usize = 1;
    while v < num_forks
        invariant
            num_forks == challenge.difficulty.num_nodes,
            1 <= v <= num_forks || (num_forks == 1 && v == 1),
            seen@.len() == num_forks,
            covered ==> consistent,
            covered ==> forall|u: int| 1 <= u < v ==> seen@[u],
        decreases num_forks - v,
    {
        if !seen[v] {
            covered = false;
        }
        v = v + 1;
    }

    if covered {
        proof {
            assert forall|idx: int| 1 <= idx < num_forks implies #[trigger] visited_customers(
                routes@,
            ).contains((idx as usize)) by {
                assert(seen@[idx]);
            }
        }
        return Some(Solution { routes });
    }

    // Unreachable for the merged structure the loop above maintains, but
    // conclusively correct: one route per customer.
    let mut routes: Vec<Vec<usize>> = Vec::new();
    let mut v: usize = 1;
    while v < num_forks
        invariant
            challenge.wf(),
            num_forks == challenge.difficulty.num_nodes,
            1 <= v <= num_forks || (num_forks == 1 && v == 1),
            routes@.len() == v - 1,
            forall|r: int|
                0 <= r < routes@.len() ==> {
                    let route = (#[trigger] routes@[r])@;
                    &&& route_well_formed(route, num_forks as int)
                    &&& route.len() == 3
                },
            visited_customers(routes@).len() == v - 1,
            forall|k: int|
                0 <= k < v - 1 ==> #[trigger] visited_customers(routes@)[k] == (k + 1) as usize,
        decreases num_forks - v,
    {
        let mut route: Vec<usize> = Vec::new();
        route.push(0);
        route.push(v);
        route.push(0);
        let ghost prev_routes = routes@;
        routes.push(route);
        proof {
            assert(routes@.drop_last() =~= prev_routes);
            assert(route@.subrange(1, route@.len() - 1) =~= seq![v]);
            assert(visited_customers(routes@) == visited_customers(prev_routes) + seq![v]);
        }
        v = v + 1;
    }
    proof {
        let vis = visited_customers(routes@);
        assert forall|a: int, b: int|
            0 <= a < vis.len() && 0 <= b < vis.len() && a != b implies vis[a] != vis[b] by {}
        assert forall|idx: int| 1 <= idx < num_forks implies #[trigger] vis.contains(
            (idx as usize),
        ) by {
            assert(vis[idx - 1] == (idx as usize));
        }
    }
    Some(Solution { routes })
}

} // verus!
