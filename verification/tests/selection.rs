use ant_colony::coordinates::Coordinate;
use ant_colony::fixed::ONE;
use ant_colony::natural_selection::{
    blx_bounds, blx_count_bounds, blx_whole_bounds, count_step, jitter, round_sqrt, run_one,
    saturate_u64, saturate_usize, within, GeneticSelector,
};
use ant_colony::params::{clamp_u64, clamp_usize, draw_u64, draw_usize, Parameters, ParametersRange};
use ant_colony::ranking::rank;
use ant_colony::tsp::SymmetricTSP;
use rand::rngs::SmallRng;
use rand::SeedableRng;
use std::cell::Cell;

fn instance() -> SymmetricTSP {
    let one = ONE as i64;
    SymmetricTSP::new(vec![
        Coordinate::new(0, 0),
        Coordinate::new(one, 0),
        Coordinate::new(one, one),
        Coordinate::new(0, one),
        Coordinate::new(3 * one, 7 * one),
    ])
}

fn range() -> ParametersRange {
    ParametersRange {
        ants: 1..=20,
        initial_pheromone_level: 0..=ONE,
        alpha: 0..=(ONE - ONE / 10),
        beta: 0..=(20 * ONE),
        tau0: 0..=(5 * ONE),
        p_of_take_best_path: 0..=ONE,
        iterations: 1..=4,
    }
}

fn member(ants: usize) -> Parameters {
    Parameters {
        ants,
        initial_pheromone_level: ONE / 2,
        alpha: ONE / 2,
        beta: ONE,
        tau0: ONE,
        p_of_take_best_path: ONE / 2,
        iterations: 2,
    }
}

fn selector_with(members: usize, top_n: usize, seed: u64) -> GeneticSelector {
    let mut gs = GeneticSelector::new(range(), top_n, members, instance());
    let mut rng = SmallRng::seed_from_u64(seed);
    gs.create_first_generation(&mut rng);
    gs
}

#[test]
fn default_parameters_are_all_zero() {
    let p = Parameters::default();
    assert_eq!(p, Parameters {
        ants: 0,
        initial_pheromone_level: 0,
        alpha: 0,
        beta: 0,
        tau0: 0,
        p_of_take_best_path: 0,
        iterations: 0,
    });
    assert!(!p.is_valid());
    assert!(member(1).is_valid());
    let mut q = member(1);
    q.alpha = ONE + 1;
    assert!(!q.is_valid());
    q.alpha = ONE;
    q.p_of_take_best_path = ONE + 1;
    assert!(!q.is_valid());
}

#[test]
fn ranges_know_whether_they_are_empty() {
    assert!(range().is_valid());
    assert!(range().is_admissible());
    let mut r = range();
    r.beta = 5..=4;
    assert!(!r.is_valid());
    assert!(!r.is_admissible());
    let mut r = range();
    r.ants = 0..=4;
    assert!(r.is_valid());
    assert!(!r.is_admissible());
    let mut r = range();
    r.alpha = 0..=(ONE + 1);
    assert!(!r.is_admissible());
    let mut r = range();
    r.p_of_take_best_path = 0..=(2 * ONE);
    assert!(!r.is_admissible());
    let copy = range().clone();
    assert_eq!(copy.ants, range().ants);
    assert_eq!(copy.iterations, range().iterations);
    assert_eq!(copy.tau0, range().tau0);
}

#[test]
fn clamp_moves_to_the_nearer_bound() {
    assert_eq!(clamp_u64(5, 10, 20), 10);
    assert_eq!(clamp_u64(25, 10, 20), 20);
    assert_eq!(clamp_u64(15, 10, 20), 15);
    assert_eq!(clamp_u64(10, 10, 20), 10);
    assert_eq!(clamp_u64(20, 10, 20), 20);
    assert_eq!(clamp_usize(0, 1, 1), 1);
    assert_eq!(clamp_usize(9, 1, 1), 1);
    let mut p = Parameters {
        ants: 0,
        initial_pheromone_level: 2 * ONE,
        alpha: ONE,
        beta: 21 * ONE,
        tau0: 3 * ONE,
        p_of_take_best_path: ONE + 1,
        iterations: 9,
    };
    range().clamp(&mut p);
    assert_eq!(p, Parameters {
        ants: 1,
        initial_pheromone_level: ONE,
        alpha: ONE - ONE / 10,
        beta: 20 * ONE,
        tau0: 3 * ONE,
        p_of_take_best_path: ONE,
        iterations: 4,
    });
    assert!(within(&range(), &p));
    let mut q = member(7);
    range().clamp(&mut q);
    assert_eq!(q, member(7));
}

#[test]
fn spans_are_the_widths_of_the_ranges() {
    assert_eq!(range().spans(), (19, ONE, ONE - ONE / 10, 20 * ONE, 5 * ONE, ONE));
    let mut r = range();
    r.ants = 4..=4;
    r.tau0 = ONE..=(ONE + 7);
    assert_eq!(r.spans(), (0, ONE, ONE - ONE / 10, 20 * ONE, 7, ONE));
}

#[test]
fn samples_lie_within_the_ranges() {
    let mut rng = SmallRng::seed_from_u64(8);
    for _ in 0..200 {
        let p = range().random(&mut rng);
        assert!(within(&range(), &p));
        assert!(p.is_valid());
        let q = range().sample(&mut rng);
        assert!(within(&range(), &q));
    }
    for _ in 0..50 {
        assert_eq!(draw_u64(&mut rng, 9, 9), 9);
        assert_eq!(draw_usize(&mut rng, 4, 4), 4);
        let d = draw_u64(&mut rng, 100, 103);
        assert!((100..=103).contains(&d));
    }
}

#[test]
fn a_range_of_one_ant_gives_one_ant() {
    let mut r = range();
    r.ants = 1..=1;
    let mut rng = SmallRng::seed_from_u64(21);
    for _ in 0..100 {
        assert_eq!(r.clone().random(&mut rng).ants, 1);
    }
    let mut gs = GeneticSelector::new(r, 2, 6, instance());
    gs.create_first_generation(&mut rng);
    for _ in 0..100 {
        let child = gs.blx_crossover(&member(1), &member(1), 3 * ONE / 10, &mut rng);
        assert_eq!(child.ants, 1);
        let child = gs.blx_crossover(&member(9), &member(400), 3 * ONE / 10, &mut rng);
        assert_eq!(child.ants, 1);
        let mut mutant = member(1);
        gs.mutate(&mut mutant, &mut rng);
        assert_eq!(mutant.ants, 1);
        assert_eq!(gs.make_child(&mut rng).ants, 1);
    }
}

#[test]
fn rounded_roots_and_steps() {
    assert_eq!(round_sqrt(0), 0);
    assert_eq!(round_sqrt(1), 1);
    assert_eq!(round_sqrt(2), 1);
    assert_eq!(round_sqrt(3), 2);
    assert_eq!(round_sqrt(6), 2);
    assert_eq!(round_sqrt(7), 3);
    assert_eq!(round_sqrt(199), 14);
    assert_eq!(round_sqrt(usize::MAX), 1 << (usize::BITS / 2));
    assert_eq!(count_step(0), 1);
    assert_eq!(count_step(1), 1);
    assert_eq!(count_step(199), 14);
    assert_eq!(jitter(ONE / 10, 5 * ONE), ONE / 2);
    assert_eq!(jitter(ONE / 10, 0), 1);
    assert_eq!(jitter(ONE / 10, 9), 1);
    assert_eq!(jitter(ONE / 10, 20), 2);
}

#[test]
fn blend_intervals_reach_beyond_the_parents() {
    let alpha = 3 * ONE / 10;
    assert_eq!(blx_bounds(ONE, 3 * ONE, alpha), (4 * ONE as i128 / 10, 36 * ONE as i128 / 10));
    assert_eq!(blx_bounds(3 * ONE, ONE, alpha), (4 * ONE as i128 / 10, 36 * ONE as i128 / 10));
    assert_eq!(blx_bounds(0, ONE, alpha), (-3 * ONE as i128 / 10, 13 * ONE as i128 / 10));
    assert_eq!(blx_bounds(7, 7, alpha), (7, 7));
    assert_eq!(blx_count_bounds(10, 20, alpha), (7, 23));
    assert_eq!(blx_count_bounds(20, 10, alpha), (7, 23));
    assert_eq!(blx_count_bounds(5, 5, alpha), (5, 5));
    assert_eq!(blx_count_bounds(5, 5, ONE / 2), (4, 6));
    assert_eq!(blx_count_bounds(0, 2, ONE), (-2, 4));
    assert_eq!(blx_whole_bounds(100, 105, alpha), (98, 106));
    assert_eq!(blx_whole_bounds(105, 100, alpha), (98, 106));
    assert_eq!(blx_whole_bounds(100, 110, alpha), (97, 113));
    assert_eq!(blx_whole_bounds(3, 3, alpha), (3, 3));
    assert_eq!(saturate_u64(-1), 0);
    assert_eq!(saturate_u64(17), 17);
    assert_eq!(saturate_u64(i128::MAX), u64::MAX);
    assert_eq!(saturate_usize(-9), 0);
    assert_eq!(saturate_usize(9), 9);
    assert_eq!(saturate_usize(i128::MAX), usize::MAX);
}

#[test]
fn crossover_stays_within_the_ranges() {
    let gs = selector_with(4, 2, 1);
    let mut rng = SmallRng::seed_from_u64(77);
    let low = Parameters {
        ants: 1,
        initial_pheromone_level: 0,
        alpha: 0,
        beta: 0,
        tau0: 0,
        p_of_take_best_path: 0,
        iterations: 1,
    };
    let high = Parameters {
        ants: 20,
        initial_pheromone_level: ONE,
        alpha: ONE - ONE / 10,
        beta: 20 * ONE,
        tau0: 5 * ONE,
        p_of_take_best_path: ONE,
        iterations: 4,
    };
    let wild = Parameters {
        ants: usize::MAX,
        initial_pheromone_level: u64::MAX,
        alpha: u64::MAX,
        beta: u64::MAX,
        tau0: u64::MAX,
        p_of_take_best_path: u64::MAX,
        iterations: usize::MAX,
    };
    for _ in 0..200 {
        assert!(within(&range(), &gs.blx_crossover(&low, &high, 3 * ONE / 10, &mut rng)));
        assert!(within(&range(), &gs.blx_crossover(&high, &low, ONE, &mut rng)));
        assert!(within(&range(), &gs.blx_crossover(&low, &wild, u64::MAX, &mut rng)));
        assert!(within(&range(), &gs.blx_crossover(&wild, &wild, 0, &mut rng)));
    }
}

#[test]
fn crossover_of_equal_parents_without_reach_is_the_parent() {
    let gs = selector_with(4, 2, 1);
    let mut rng = SmallRng::seed_from_u64(3);
    for _ in 0..20 {
        let child = gs.blx_crossover(&member(5), &member(5), 0, &mut rng);
        assert!(child.ants >= 4 && child.ants <= 6);
        assert_eq!(child.alpha, ONE / 2);
        assert_eq!(child.beta, ONE);
        assert_eq!(child.tau0, ONE);
        assert_eq!(child.iterations, 2);
    }
}

#[test]
fn mutation_stays_within_the_ranges_and_within_reach() {
    let gs = selector_with(4, 2, 1);
    let mut rng = SmallRng::seed_from_u64(13);
    let mut touched = false;
    for _ in 0..300 {
        let mut p = member(10);
        gs.mutate(&mut p, &mut rng);
        assert!(within(&range(), &p));
        assert!(p.ants >= 6 && p.ants <= 14);
        assert!(p.beta >= 0 && p.beta <= 3 * ONE);
        assert!(p.tau0 >= ONE / 2 && p.tau0 <= ONE + ONE / 2);
        assert!(p.alpha >= ONE / 2 - 9 * ONE / 100 && p.alpha <= ONE / 2 + 9 * ONE / 100);
        assert_eq!(p.iterations, 2);
        touched = touched || p != member(10);
    }
    assert!(touched);
    let mut wild = Parameters {
        ants: usize::MAX,
        initial_pheromone_level: u64::MAX,
        alpha: u64::MAX,
        beta: u64::MAX,
        tau0: u64::MAX,
        p_of_take_best_path: u64::MAX,
        iterations: usize::MAX,
    };
    gs.mutate(&mut wild, &mut rng);
    assert!(within(&range(), &wild));
    assert_eq!(wild.iterations, 4);
}

#[test]
fn rank_orders_the_present_scores() {
    let scores = [Some(30), None, Some(10), Some(30), Some(5), None, Some(10)];
    assert_eq!(rank(&scores, 7), vec![(5, 4), (10, 2), (10, 6), (30, 0), (30, 3)]);
    assert_eq!(rank(&scores, 3), vec![(10, 2), (30, 0)]);
    assert_eq!(rank(&scores, 0), vec![]);
    assert_eq!(rank(&[None, None], 2), vec![]);
}

#[test]
fn equal_members_share_a_key() {
    assert_eq!(GeneticSelector::hash_params(&member(3)), GeneticSelector::hash_params(&member(3)));
    let mut other = member(3);
    other.iterations = 3;
    assert_ne!(GeneticSelector::hash_params(&member(3)), GeneticSelector::hash_params(&other));
    assert_ne!(GeneticSelector::hash_params(&member(3)), GeneticSelector::hash_params(&member(4)));
    let mut other = member(3);
    other.tau0 += 1;
    assert_ne!(GeneticSelector::hash_params(&member(3)), GeneticSelector::hash_params(&other));
    let mut swapped = member(3);
    swapped.alpha = member(3).beta;
    swapped.beta = member(3).alpha;
    assert_ne!(GeneticSelector::hash_params(&member(3)), GeneticSelector::hash_params(&swapped));
}

#[test]
fn a_new_selector_is_empty() {
    let gs = GeneticSelector::new(range(), 3, 10, instance());
    assert!(gs.is_valid());
    assert!(gs.members().is_empty());
    assert_eq!(gs.generation_idx(), 0);
    assert_eq!(gs.cached_fitness(&member(1)), None);
    let mut bad = range();
    bad.ants = 0..=3;
    assert!(!GeneticSelector::new(bad, 3, 10, instance()).is_valid());
    assert!(!GeneticSelector::new(range(), 3, 10, SymmetricTSP::new(vec![])).is_valid());
}

#[test]
fn the_first_generation_has_the_target_size() {
    let gs = selector_with(12, 3, 5);
    assert_eq!(gs.members().len(), 12);
    assert!(gs.is_valid());
    for p in gs.members() {
        assert!(within(&range(), p));
    }
}

#[test]
fn the_cull_keeps_the_best_in_ascending_order() {
    let mut gs = selector_with(6, 3, 5);
    let before = gs.members().clone();
    let scores = [Some(40), None, Some(10), Some(30), Some(20), Some(10)];
    gs.kill_dump(&scores);
    assert_eq!(gs.members(), &vec![before[2], before[5], before[4]]);
    assert_eq!(gs.cached_fitness(&before[2]), Some(10));
    assert_eq!(gs.cached_fitness(&before[4]), Some(20));
    assert_eq!(gs.cached_fitness(&before[3]), None);
    assert_eq!(gs.cached_fitness(&before[0]), None);
    assert_eq!(gs.cached_fitness(&before[1]), None);
    assert!(gs.is_valid());
    assert_eq!(gs.generation_idx(), 0);
}

#[test]
fn the_cull_keeps_no_more_than_have_a_score() {
    let mut gs = selector_with(5, 4, 6);
    let before = gs.members().clone();
    gs.kill_dump(&[None, Some(7), None, Some(3), None]);
    assert_eq!(gs.members(), &vec![before[3], before[1]]);
    let mut gs = selector_with(5, 0, 6);
    gs.kill_dump(&[Some(1), Some(2), Some(3), Some(4), Some(5)]);
    assert!(gs.members().is_empty());
    let mut gs = selector_with(5, 9, 6);
    let before = gs.members().clone();
    gs.kill_dump(&[Some(2), Some(1)]);
    assert_eq!(gs.members(), &vec![before[1], before[0]]);
    let mut gs = selector_with(2, 9, 6);
    let before = gs.members().clone();
    gs.kill_dump(&[Some(2), Some(1), Some(0), Some(0)]);
    assert_eq!(gs.members(), &vec![before[1], before[0]]);
}

#[test]
fn the_cull_size_is_the_smaller_of_top_n_and_valid() {
    for top_n in 0..8 {
        for valid in 1..7 {
            let mut gs = selector_with(6, top_n, 40 + valid as u64);
            let mut scores: Vec<Option<u128>> = Vec::new();
            for i in 0..6 {
                scores.push(if i < valid { Some(((i * 7) % 5) as u128) } else { None });
            }
            gs.kill_dump(&scores);
            assert_eq!(gs.members().len(), top_n.min(valid));
            let kept: Vec<u128> =
                gs.members().iter().map(|p| gs.cached_fitness(p).unwrap()).collect();
            for pair in kept.windows(2) {
                assert!(pair[0] <= pair[1]);
            }
        }
    }
}

#[test]
fn known_members_are_not_run_again() {
    let mut gs = selector_with(6, 2, 9);
    let calls = Cell::new(0usize);
    let first = gs.evaluate_generation_with(|p: &Parameters| {
        calls.set(calls.get() + 1);
        Some(p.ants as u128 * 1000 + p.iterations as u128)
    });
    assert_eq!(calls.get(), 6);
    gs.kill_dump(&first);
    let elite = gs.members().clone();
    assert_eq!(elite.len(), 2);
    let mut rng = SmallRng::seed_from_u64(10);
    gs.sex(&mut rng);
    assert_eq!(gs.members().len(), 6);
    assert_eq!(&gs.members()[..2], &elite[..]);
    let fresh = gs.members()[2..].iter().filter(|p| gs.cached_fitness(p).is_none()).count();
    let seen: Cell<Vec<Parameters>> = Cell::new(Vec::new());
    calls.set(0);
    let second = gs.evaluate_generation_with(|p: &Parameters| {
        calls.set(calls.get() + 1);
        let mut so_far = seen.take();
        so_far.push(*p);
        seen.set(so_far);
        Some(p.ants as u128 * 1000 + p.iterations as u128)
    });
    assert_eq!(calls.get(), fresh);
    assert!(calls.get() <= 4);
    for p in seen.take() {
        assert!(!elite.contains(&p));
    }
    assert_eq!(second[0], first.iter().flatten().min().copied());
    assert_eq!(second[0], gs.cached_fitness(&elite[0]));
    assert_eq!(second[1], gs.cached_fitness(&elite[1]));
}

#[test]
fn evaluation_uses_the_cache_before_the_colony() {
    let mut gs = selector_with(3, 3, 2);
    let before = gs.members().clone();
    gs.kill_dump(&[Some(3), Some(1), Some(2)]);
    let mut rng = SmallRng::seed_from_u64(2);
    assert_eq!(gs.evaluate_generation(&mut rng), vec![Some(1), Some(2), Some(3)]);
    assert_eq!(gs.evaluate_one(&before[0], &mut rng), Some(3));
    let t = instance();
    let mut unknown = member(2);
    unknown.iterations = 0;
    assert_eq!(gs.evaluate_one(&unknown, &mut rng), None);
    assert_eq!(run_one(&unknown, &t, &mut rng), None);
    let lenght = gs.evaluate_one(&member(2), &mut rng).unwrap();
    assert!(lenght >= 4 * ONE as u128);
    assert!(run_one(&member(2), &t, &mut rng).unwrap() >= 4 * ONE as u128);
}

#[test]
fn a_whole_generation_is_evaluated_in_order() {
    let mut gs = selector_with(5, 2, 2);
    let mut rng = SmallRng::seed_from_u64(4);
    let scores = gs.evaluate_generation(&mut rng);
    assert_eq!(scores.len(), 5);
    for score in scores.iter() {
        assert!(score.unwrap() >= 4 * ONE as u128);
    }
    assert_eq!(gs.members().len(), 5);
}

#[test]
fn a_tournament_is_won_by_the_cheapest_candidate() {
    let mut gs = selector_with(5, 4, 3);
    let before = gs.members().clone();
    gs.kill_dump(&[Some(50), Some(40), Some(30), Some(20), Some(10)]);
    assert_eq!(gs.members(), &vec![before[4], before[3], before[2], before[1]]);
    assert_eq!(gs.best_of(&vec![]), None);
    assert_eq!(gs.best_of(&vec![2]), Some(2));
    assert_eq!(gs.best_of(&vec![3, 1, 2]), Some(1));
    assert_eq!(gs.best_of(&vec![3, 0, 2, 0]), Some(0));
    let mut rng = SmallRng::seed_from_u64(3);
    gs.sex(&mut rng);
    assert_eq!(gs.members().len(), 5);
    let elite = &gs.members()[..4];
    for _ in 0..100 {
        let parent = gs.tournament_select(&mut rng);
        assert!(elite.contains(parent));
        assert!(*parent != before[1] || elite[3] == before[1]);
        let any = gs.get_random_one(&mut rng);
        assert!(gs.members().contains(any));
    }
}

#[test]
fn a_tournament_never_returns_the_worst_of_more_than_its_places() {
    let mut gs = selector_with(6, 6, 3);
    let before = gs.members().clone();
    gs.kill_dump(&[Some(1), Some(2), Some(3), Some(4), Some(5), Some(6)]);
    let mut rng = SmallRng::seed_from_u64(30);
    let mut winners = [false; 6];
    for _ in 0..400 {
        let parent = gs.tournament_select(&mut rng);
        let place = before.iter().position(|p| p == parent).unwrap();
        winners[place] = true;
    }
    assert!(winners[0]);
    assert!(!winners[4] || before[4] == before[3] || before[4] == before[2]);
    assert!(!winners[5] || before[..5].contains(&before[5]));
}

#[test]
fn a_member_without_known_fitness_loses_the_tournament() {
    let mut gs = selector_with(4, 2, 3);
    let before = gs.members().clone();
    gs.kill_dump(&[Some(9), None, Some(8), None]);
    let mut rng = SmallRng::seed_from_u64(1);
    gs.sex(&mut rng);
    assert_eq!(&gs.members()[..2], &[before[2], before[0]]);
    let unknown: Vec<usize> =
        (2..4).filter(|i| gs.cached_fitness(&gs.members()[*i]).is_none()).collect();
    for i in unknown {
        assert_eq!(gs.best_of(&vec![i, 1]), Some(1));
        assert_eq!(gs.best_of(&vec![i]), Some(i));
    }
}

#[test]
fn a_tournament_over_the_whole_elite_is_won_by_its_best() {
    let mut gs = selector_with(5, 3, 3);
    let before = gs.members().clone();
    gs.kill_dump(&[Some(50), Some(40), Some(30), Some(20), Some(10)]);
    assert_eq!(gs.members(), &vec![before[4], before[3], before[2]]);
    let mut rng = SmallRng::seed_from_u64(8);
    for _ in 0..100 {
        let parent = *gs.tournament_select(&mut rng);
        let known = gs.cached_fitness(&parent).unwrap();
        for member in gs.members() {
            assert!(known <= gs.cached_fitness(member).unwrap());
        }
    }
}

#[test]
fn breeding_fills_the_population_and_keeps_the_elite() {
    let mut gs = selector_with(8, 3, 14);
    let mut rng = SmallRng::seed_from_u64(15);
    let scores = gs.evaluate_generation(&mut rng);
    gs.kill_dump(&scores);
    let elite = gs.members().clone();
    assert_eq!(elite.len(), 3);
    gs.sex(&mut rng);
    assert_eq!(gs.generation_idx(), 1);
    assert_eq!(gs.members().len(), 8);
    assert_eq!(&gs.members()[..3], &elite[..]);
    assert!(gs.is_valid());
    for p in gs.members() {
        assert!(within(&range(), p));
    }
    gs.sex(&mut rng);
    assert_eq!(gs.generation_idx(), 2);
    assert_eq!(gs.members().len(), 8);
}

#[test]
fn two_generations_improve_or_hold_the_best() {
    let mut gs = selector_with(6, 2, 33);
    let mut rng = SmallRng::seed_from_u64(34);
    let scores = gs.evaluate_generation(&mut rng);
    gs.kill_dump(&scores);
    let best = gs.cached_fitness(&gs.members()[0]).unwrap();
    assert_eq!(Some(best), scores.iter().flatten().min().copied());
    gs.sex(&mut rng);
    let scores = gs.evaluate_generation(&mut rng);
    assert_eq!(scores[0], Some(best));
    gs.kill_dump(&scores);
    assert!(gs.cached_fitness(&gs.members()[0]).unwrap() <= best);
}
