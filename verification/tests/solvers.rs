//! Concrete instances for the solver collection.

use tig_core::knapsack::genetic::Individual;
use tig_core::knapsack::{Challenge, Difficulty, Solution};
use tig_core::vehicle_routing;

fn instance(weights: Vec<u32>, values: Vec<u32>, max_weight: u32, min_value: u32) -> Challenge {
    let n = weights.len();
    Challenge {
        seed: vec![0; 32],
        difficulty: Difficulty {
            num_items: n,
            better_than_baseline: 0,
        },
        weights,
        values,
        interaction_values: vec![vec![0; n]; n],
        max_weight,
        min_value,
    }
}

/// weights [2,3,4,5], values [10,40,30,50], capacity 10: the optimum packs
/// items 0, 1 and 3 for weight 10 and value 100.
fn small() -> Challenge {
    instance(vec![2, 3, 4, 5], vec![10, 40, 30, 50], 10, 100)
}

fn weight_of(c: &Challenge, s: &Solution) -> u64 {
    s.items.iter().map(|&i| c.weights[i] as u64).sum()
}

fn value_of(c: &Challenge, s: &Solution) -> u64 {
    s.items.iter().map(|&i| c.values[i] as u64).sum()
}

fn assert_distinct(s: &Solution) {
    let mut seen = s.items.clone();
    seen.sort();
    seen.dedup();
    assert_eq!(seen.len(), s.items.len(), "duplicate items in packing");
}

#[test]
fn better_knapp_finds_the_optimum() {
    let c = small();
    let s = tig_core::knapsack::better_knapp::solve_challenge(&c).expect("optimum reachable");
    assert_distinct(&s);
    assert_eq!(value_of(&c, &s), 100);
    assert!(weight_of(&c, &s) <= 10);

    let strict = instance(vec![2, 3, 4, 5], vec![10, 40, 30, 50], 10, 101);
    assert!(tig_core::knapsack::better_knapp::solve_challenge(&strict).is_none());
}

#[test]
fn knap_super_bb_solves_exactly_when_the_optimum_passes() {
    let c = small();
    let s = tig_core::knapsack::knap_super_bb::solve_challenge(&c).expect("solution");
    assert_distinct(&s);
    assert!(value_of(&c, &s) >= 100);
    assert!(weight_of(&c, &s) <= 10);

    let strict = instance(vec![2, 3, 4, 5], vec![10, 40, 30, 50], 10, 101);
    assert!(tig_core::knapsack::knap_super_bb::solve_challenge(&strict).is_none());
}

#[test]
fn knap_zilla_reaches_the_threshold() {
    let c = small();
    let s = tig_core::knapsack::knap_zilla::solve_challenge(&c).expect("solution");
    assert_distinct(&s);
    assert!(value_of(&c, &s) >= 100);
    assert!(weight_of(&c, &s) <= 10);

    let strict = instance(vec![2, 3, 4, 5], vec![10, 40, 30, 50], 10, 101);
    assert!(tig_core::knapsack::knap_zilla::solve_challenge(&strict).is_none());
}

#[test]
fn tinhat_pete_solves_exactly_when_the_optimum_passes() {
    let c = small();
    let s = tig_core::knapsack::tinhat_pete::solve_challenge(&c).expect("solution");
    assert_distinct(&s);
    assert!(weight_of(&c, &s) <= 10);
    assert_eq!(s.items, vec![0, 1, 3]);

    let strict = instance(vec![2, 3, 4, 5], vec![10, 40, 30, 50], 10, 101);
    assert!(tig_core::knapsack::tinhat_pete::solve_challenge(&strict).is_none());
}

#[test]
fn ironhat_pete_solves_exactly_when_the_optimum_passes() {
    let c = small();
    let s = tig_core::knapsack::ironhat_pete::solve_challenge(&c).expect("solution");
    assert_distinct(&s);
    assert!(weight_of(&c, &s) <= 10);

    let strict = instance(vec![2, 3, 4, 5], vec![10, 40, 30, 50], 10, 101);
    assert!(tig_core::knapsack::ironhat_pete::solve_challenge(&strict).is_none());
}

#[test]
fn flat_dp_emits_valid_items_within_capacity() {
    let c = small();
    if let Some(s) = tig_core::knapsack::flat_dp::solve_challenge(&c) {
        assert!(s.items.iter().all(|&i| i < 4));
        assert!(weight_of(&c, &s) <= 10);
    } else {
        panic!("threshold is reachable");
    }
}

#[test]
fn over_knapmaxxed_takes_everything_when_it_fits() {
    let c = instance(vec![1, 2, 3], vec![5, 6, 7], 10, 18);
    let s = tig_core::knapsack::over_knapmaxxed::solve_challenge(&c).expect("all items fit");
    assert_eq!(s.items, vec![0, 1, 2]);

    let tight = small();
    if let Some(s) = tig_core::knapsack::over_knapmaxxed::solve_challenge(&tight) {
        assert!(weight_of(&tight, &s) <= 10);
    }
}

#[test]
fn sack_o_potatoes_reaches_the_threshold_exactly() {
    let c = small();
    let s = tig_core::knapsack::sack_o_potatoes::solve_challenge(&c).expect("solution");
    assert!(weight_of(&c, &s) <= 10);
    assert!(value_of(&c, &s) >= 100);

    let strict = instance(vec![2, 3, 4, 5], vec![10, 40, 30, 50], 10, 131);
    assert!(tig_core::knapsack::sack_o_potatoes::solve_challenge(&strict).is_none());
}

#[test]
fn sackophone_packs_within_capacity() {
    let c = small();
    let s = tig_core::knapsack::sackophone::solve_challenge(&c).expect("solution");
    assert!(s.items.iter().all(|&i| i < 4));
    assert!(weight_of(&c, &s) <= 10);
}

#[test]
fn lightning_knapsack_packs_within_capacity() {
    let c = instance(vec![2, 3, 4, 5], vec![10, 40, 30, 50], 10, 40);
    if let Some(s) = tig_core::knapsack::lightning_knapsack::solve_challenge(&c) {
        assert!(s.items.iter().all(|&i| i < 4));
        assert!(weight_of(&c, &s) <= 10);
    }
}

#[test]
fn optimism_dollop_respects_its_estimate_gate() {
    // The blended estimate on this instance is 69: ceil(0.62 * 110), with the
    // second limit left at zero. Thresholds above it are declined outright;
    // thresholds below it are solved.
    let gated = small();
    assert!(tig_core::knapsack::optimism_dollop::solve_challenge(&gated).is_none());

    let reachable = instance(vec![2, 3, 4, 5], vec![10, 40, 30, 50], 10, 60);
    let s = tig_core::knapsack::optimism_dollop::solve_challenge(&reachable).expect("solution");
    assert_distinct(&s);
    assert!(weight_of(&reachable, &s) <= 10);
    assert!(value_of(&reachable, &s) >= 60);
}

#[test]
fn better_in_twos_packs_nothing() {
    let c = small();
    let s = tig_core::knapsack::better_in_twos::solve_challenge(&c).expect("always a packing");
    assert!(s.items.is_empty());
}

#[test]
fn just_good_knapsack_always_packs_within_capacity() {
    let mut c = instance(vec![2, 3, 4, 5], vec![10, 40, 30, 50], 7, 0);
    c.interaction_values = vec![
        vec![0, 5, -2, 1],
        vec![5, 0, 3, -1],
        vec![-2, 3, 0, 2],
        vec![1, -1, 2, 0],
    ];
    let s = tig_core::knapsack::just_good_knapsack::solve_challenge(&c).expect("always packs");
    assert_distinct(&s);
    assert!(s.items.iter().all(|&i| i < 4));
    assert!(weight_of(&c, &s) <= 7);
}

#[test]
fn quadratic_greedy_packs_within_capacity() {
    let mut c = instance(vec![2, 3, 4, 5], vec![10, 40, 30, 50], 10, 60);
    c.interaction_values = vec![
        vec![0, 4, 0, 0],
        vec![4, 0, 0, 0],
        vec![0, 0, 0, 6],
        vec![0, 0, 6, 0],
    ];
    if let Some(s) = tig_core::knapsack::quadratic_greedy::solve_challenge(&c) {
        assert_distinct(&s);
        assert!(weight_of(&c, &s) <= 10);
    } else {
        panic!("threshold is reachable");
    }
}

#[test]
fn qknap_optimize_reaches_the_quadratic_threshold() {
    let c = small();
    let s = tig_core::knapsack::qknap_optimize::solve_challenge(&c).expect("solution");
    assert_distinct(&s);
    assert!(weight_of(&c, &s) <= 10);
    assert!(value_of(&c, &s) >= 100);
}

#[test]
fn qknap_delta_is_the_exact_objective_change() {
    let mut c = instance(vec![2, 3, 4, 5], vec![10, 40, 30, 50], 10, 60);
    c.interaction_values = vec![
        vec![0, 4, 0, 0],
        vec![4, 0, 0, 0],
        vec![0, 0, 0, 6],
        vec![0, 0, 6, 0],
    ];
    let sel = vec![true, true, false, false];
    // Swapping out item 1 (value 40, interaction 4 with item 0) for item 2
    // (value 30, no interaction with item 0) changes the objective by
    // 30 - 40 - 4 = -14.
    let d = tig_core::knapsack::qknap_optimize::calculate_delta_value(&c, &sel, 1, 2);
    assert_eq!(d, -14);
    // Equal memberships cannot be exchanged.
    let d0 = tig_core::knapsack::qknap_optimize::calculate_delta_value(&c, &sel, 2, 3);
    assert_eq!(d0, 0);
}

#[test]
fn genetic_fitness_is_value_when_weight_fits() {
    let mut ind = Individual::new(vec![true, false, true], 0);
    ind.calculate_fitness(&vec![5, 6, 7], &vec![1, 2, 3], 4);
    assert_eq!(ind.fitness, 12);
    ind.calculate_fitness(&vec![5, 6, 7], &vec![1, 2, 3], 3);
    assert_eq!(ind.fitness, 0);
}

#[test]
fn savings_merge_routes_start_and_end_at_the_depot() {
    let c = vehicle_routing::Challenge {
        seed: vec![0; 32],
        difficulty: vehicle_routing::Difficulty {
            num_nodes: 4,
            better_than_baseline: 0,
        },
        demands: vec![0, 3, 4, 5],
        distance_matrix: vec![
            vec![0, 10, 12, 14],
            vec![10, 0, 5, 8],
            vec![12, 5, 0, 6],
            vec![14, 8, 6, 0],
        ],
        max_total_distance: 30,
        max_capacity: 10,
    };
    let s = vehicle_routing::cw_test_wasm::solve_challenge(&c).expect("routes");
    assert!(!s.routes.is_empty());
    for route in &s.routes {
        assert!(route.len() >= 3);
        assert_eq!(*route.first().unwrap(), 0);
        assert_eq!(*route.last().unwrap(), 0);
        assert!(route[1..route.len() - 1].iter().all(|&v| v >= 1 && v < 4));
    }
    // Every customer appears in exactly one route, and no multi-customer
    // route exceeds the vehicle capacity.
    let mut visited: Vec<usize> = s
        .routes
        .iter()
        .flat_map(|r| r[1..r.len() - 1].iter().copied())
        .collect();
    visited.sort();
    assert_eq!(visited, vec![1, 2, 3]);
    for route in &s.routes {
        if route.len() > 3 {
            let demand: i32 = route[1..route.len() - 1].iter().map(|&v| c.demands[v]).sum();
            assert!(demand <= c.max_capacity);
        }
    }
}

#[test]
fn savings_merge_declines_hopeless_distance_targets() {
    let c = vehicle_routing::Challenge {
        seed: vec![0; 32],
        difficulty: vehicle_routing::Difficulty {
            num_nodes: 4,
            better_than_baseline: 0,
        },
        demands: vec![0, 3, 4, 5],
        distance_matrix: vec![
            vec![0, 10, 12, 14],
            vec![10, 0, 5, 8],
            vec![12, 5, 0, 6],
            vec![14, 8, 6, 0],
        ],
        max_total_distance: 10,
        max_capacity: 10,
    };
    assert!(vehicle_routing::cw_test_wasm::solve_challenge(&c).is_none());
}
