use ant_colony::ant::{get_set_of_not_visited, last_maximum, Ant};
use ant_colony::colony::{iterate, run, shortest, Progress};
use ant_colony::ant::AntPath;
use ant_colony::coordinates::Coordinate;
use ant_colony::fixed::{power, scale, ONE};
use ant_colony::params::Parameters;
use ant_colony::pheromone_trail::PheromoneTrails;
use ant_colony::tsp::SymmetricTSP;
use rand::rngs::SmallRng;
use rand::SeedableRng;

fn unit_square() -> SymmetricTSP {
    let one = ONE as i64;
    SymmetricTSP::new(vec![
        Coordinate::new(0, 0),
        Coordinate::new(one, 0),
        Coordinate::new(one, one),
        Coordinate::new(0, one),
    ])
}

fn line(n: usize) -> SymmetricTSP {
    let mut cities = Vec::new();
    for i in 0..n {
        cities.push(Coordinate::new((i * i) as i64 * ONE as i64, 0));
    }
    SymmetricTSP::new(cities)
}

fn parameters() -> Parameters {
    Parameters {
        ants: 3,
        initial_pheromone_level: ONE / 10,
        alpha: ONE / 2,
        beta: 2 * ONE,
        tau0: 2 * ONE,
        p_of_take_best_path: ONE / 4,
        iterations: 5,
    }
}

fn tour_length(t: &SymmetricTSP, path: &[usize]) -> u128 {
    let mut total: u128 = 0;
    for pair in path.windows(2) {
        total += t.distance_between(pair[0], pair[1]) as u128;
    }
    if let (Some(first), Some(last)) = (path.first(), path.last()) {
        total += t.distance_between(*last, *first) as u128;
    }
    total
}

fn is_permutation(path: &[usize], n: usize) -> bool {
    let mut seen = vec![false; n];
    for city in path {
        if *city >= n || seen[*city] {
            return false;
        }
        seen[*city] = true;
    }
    path.len() == n
}

#[test]
fn instance_reports_cities_and_distances() {
    let t = unit_square();
    assert_eq!(t.city_count(), 4);
    assert_eq!(t.distance_between(0, 1), ONE);
    assert_eq!(t.distance_between(1, 0), ONE);
    assert_eq!(t.distance_between(0, 2), 1_414_213_563);
    assert_eq!(t.distance_between(3, 3), 0);
}

#[test]
fn fresh_store_holds_the_initial_level() {
    let p = parameters();
    let pt = PheromoneTrails::new(&p, 5);
    for i in 0..5 {
        for j in 0..5 {
            if i != j {
                assert_eq!(pt.get((i, j)), ONE / 10);
            }
        }
    }
}

#[test]
fn edge_order_does_not_matter() {
    let p = parameters();
    let mut pt = PheromoneTrails::new(&p, 4);
    pt.local_update(3, 1);
    pt.local_update(0, 2);
    pt.local_update(2, 0);
    for i in 0..4 {
        for j in 0..4 {
            if i != j {
                assert_eq!(pt.get((i, j)), pt.get((j, i)));
                assert_eq!(pt.get_or_create((i, j)), pt.get_or_create((j, i)));
                assert_eq!(pt.get_or_create((i, j)), pt.get((i, j)));
            }
        }
    }
}

#[test]
fn local_update_pulls_towards_tau0() {
    let mut p = parameters();
    p.initial_pheromone_level = 0;
    let mut pt = PheromoneTrails::new(&p, 3);
    pt.local_update(0, 1);
    assert_eq!(pt.get((0, 1)), ONE);
    assert_eq!(pt.get((1, 0)), ONE);
    assert_eq!(pt.get((0, 2)), 0);
    assert_eq!(pt.get((1, 2)), 0);
    pt.local_update(1, 0);
    assert_eq!(pt.get((0, 1)), ONE + ONE / 2);
}

#[test]
fn global_update_pulls_towards_the_reciprocal_length() {
    let mut p = parameters();
    p.initial_pheromone_level = 0;
    let mut pt = PheromoneTrails::new(&p, 4);
    pt.global_update(&[0, 3, 2, 1], 4 * ONE as u128);
    assert_eq!(pt.get((0, 3)), ONE / 8);
    assert_eq!(pt.get((3, 2)), ONE / 8);
    assert_eq!(pt.get((2, 1)), ONE / 8);
    assert_eq!(pt.get((1, 0)), 0);
    assert_eq!(pt.get((0, 2)), 0);
    assert_eq!(pt.get((1, 3)), 0);
}

#[test]
fn global_update_counts_an_edge_as_often_as_it_is_walked() {
    let mut p = parameters();
    p.initial_pheromone_level = 0;
    let mut pt = PheromoneTrails::new(&p, 2);
    pt.global_update(&[0, 1, 0], 4 * ONE as u128);
    assert_eq!(pt.get((0, 1)), ONE / 8 + ONE / 16);
    pt.global_update(&[1], 4 * ONE as u128);
    pt.global_update(&[], 4 * ONE as u128);
    assert_eq!(pt.get((0, 1)), ONE / 8 + ONE / 16);
}

#[test]
fn global_update_keeps_levels_between_old_and_target() {
    let lengths: [u128; 5] = [0, 1, ONE as u128, 4 * ONE as u128, u128::MAX];
    let alphas = [0, 1, ONE / 3, ONE];
    for lenght in lengths {
        for alpha in alphas {
            let mut p = parameters();
            p.alpha = alpha;
            p.initial_pheromone_level = ONE / 3;
            let mut pt = PheromoneTrails::new(&p, 4);
            let target = ant_colony::fixed::recip(lenght);
            pt.global_update(&[2, 0, 3, 1], lenght);
            for i in 0..4 {
                for j in 0..i {
                    let level = pt.get((i, j));
                    assert!((ONE / 3).min(target) <= level && level <= (ONE / 3).max(target));
                }
            }
        }
    }
}

#[test]
fn the_set_of_cities_is_complete_and_ascending() {
    assert_eq!(get_set_of_not_visited(0), Vec::<usize>::new());
    assert_eq!(get_set_of_not_visited(1), vec![0]);
    assert_eq!(get_set_of_not_visited(5), vec![0, 1, 2, 3, 4]);
}

#[test]
fn last_maximum_takes_the_last_of_equals() {
    assert_eq!(last_maximum(&vec![]), None);
    assert_eq!(last_maximum(&vec![(7, 0)]), Some(0));
    assert_eq!(last_maximum(&vec![(7, 3), (8, 5), (9, 5), (4, 1)]), Some(2));
    assert_eq!(last_maximum(&vec![(7, 9), (8, 5), (9, 5)]), Some(0));
    assert_eq!(last_maximum(&vec![(1, 0), (2, 0), (3, 0)]), Some(2));
}

#[test]
fn an_ant_starts_with_every_other_city_ahead() {
    let t = line(5);
    let p = parameters();
    let ant = Ant::with_start(&t, &p, 2);
    assert_eq!(ant.path_arr, vec![2]);
    assert_eq!(ant.visited(), &vec![2]);
    assert_eq!(ant.get_path_lenght(), 0);
    let pt = PheromoneTrails::new(&p, 5);
    let cities: Vec<usize> = ant.get_all_path_scores(&pt).iter().map(|s| s.0).collect();
    assert_eq!(cities, vec![0, 1, 3, 4]);
}

#[test]
fn a_random_start_is_a_city() {
    let t = line(6);
    let p = parameters();
    let mut rng = SmallRng::seed_from_u64(11);
    let mut seen = [false; 6];
    for _ in 0..200 {
        let ant = Ant::with_random_start(&t, &p, &mut rng);
        assert_eq!(ant.path_arr.len(), 1);
        assert!(ant.path_arr[0] < 6);
        seen[ant.path_arr[0]] = true;
    }
    assert!(seen.iter().all(|s| *s));
}

#[test]
fn step_score_is_distance_times_level_to_the_beta() {
    let t = line(4);
    let mut p = parameters();
    p.initial_pheromone_level = 3 * ONE;
    p.beta = 2 * ONE;
    let ant = Ant::with_start(&t, &p, 0);
    let pt = PheromoneTrails::new(&p, 4);
    assert_eq!(ant.get_step_score(1, &pt), 9 * ONE as u128);
    assert_eq!(ant.get_step_score(2, &pt), 36 * ONE as u128);
    assert_eq!(ant.get_step_score(3, &pt), 81 * ONE as u128);
    assert_eq!(
        ant.get_step_score(3, &pt),
        scale(t.distance_between(0, 3), power(3 * ONE, 2 * ONE))
    );
    assert_eq!(
        ant.get_all_path_scores(&pt),
        vec![(1, 9 * ONE as u128), (2, 36 * ONE as u128), (3, 81 * ONE as u128)]
    );
}

#[test]
fn the_best_step_has_the_greatest_score() {
    let t = line(4);
    let mut p = parameters();
    p.initial_pheromone_level = ONE;
    let pt = PheromoneTrails::new(&p, 4);
    let ant = Ant::with_start(&t, &p, 0);
    assert_eq!(ant.choose_the_best(&pt), Some(3));
    let ant = Ant::with_start(&t, &p, 3);
    assert_eq!(ant.choose_the_best(&pt), Some(0));
}

#[test]
fn the_best_step_among_equal_scores_is_the_last() {
    let t = unit_square();
    let mut p = parameters();
    p.initial_pheromone_level = 0;
    let pt = PheromoneTrails::new(&p, 4);
    assert_eq!(Ant::with_start(&t, &p, 0).choose_the_best(&pt), Some(3));
    assert_eq!(Ant::with_start(&t, &p, 3).choose_the_best(&pt), Some(2));
}

#[test]
fn a_weighted_draw_never_takes_a_step_without_weight() {
    let t = SymmetricTSP::new(vec![
        Coordinate::new(0, 0),
        Coordinate::new(0, 0),
        Coordinate::new(5, 5),
        Coordinate::new(0, 0),
    ]);
    let mut p = parameters();
    p.initial_pheromone_level = ONE;
    let pt = PheromoneTrails::new(&p, 4);
    let ant = Ant::with_start(&t, &p, 0);
    let mut rng = SmallRng::seed_from_u64(5);
    for _ in 0..100 {
        assert_eq!(ant.choose_probabilistic(&pt, &mut rng), 2);
    }
}

#[test]
fn a_draw_without_any_weight_falls_back_to_all_cities() {
    let t = unit_square();
    let mut p = parameters();
    p.initial_pheromone_level = 0;
    let pt = PheromoneTrails::new(&p, 4);
    let ant = Ant::with_start(&t, &p, 1);
    let mut rng = SmallRng::seed_from_u64(5);
    let mut seen = [false; 4];
    for _ in 0..200 {
        seen[ant.choose_probabilistic(&pt, &mut rng)] = true;
    }
    assert_eq!(seen, [true, false, true, true]);
}

#[test]
fn certain_exploitation_always_takes_the_best_step() {
    let t = line(5);
    let mut p = parameters();
    p.initial_pheromone_level = ONE;
    p.p_of_take_best_path = ONE;
    let pt = PheromoneTrails::new(&p, 5);
    let ant = Ant::with_start(&t, &p, 0);
    let mut rng = SmallRng::seed_from_u64(3);
    for _ in 0..100 {
        assert_eq!(ant.choose_next_coord(&pt, &mut rng), Some(4));
    }
}

#[test]
fn a_walk_visits_every_city_once() {
    let t = line(7);
    let p = parameters();
    for seed in 0..20 {
        let mut rng = SmallRng::seed_from_u64(seed);
        let mut pt = PheromoneTrails::new(&p, 7);
        let mut ant = Ant::with_random_start(&t, &p, &mut rng);
        for step in 1..7 {
            assert_eq!(ant.move_ant(&mut pt, &mut rng), Ok(()));
            assert_eq!(ant.path_arr.len(), step + 1);
        }
        assert!(is_permutation(&ant.path_arr, 7));
        assert_eq!(ant.get_path_lenght(), tour_length(&t, &ant.path_arr));
        let tour = ant.to_path();
        assert_eq!(tour.path, ant.path_arr);
        assert_eq!(tour.lenght, ant.get_path_lenght());
    }
}

#[test]
fn a_finished_ant_cannot_move() {
    let t = unit_square();
    let p = parameters();
    let mut rng = SmallRng::seed_from_u64(1);
    let mut pt = PheromoneTrails::new(&p, 4);
    let mut ant = Ant::with_start(&t, &p, 0);
    for _ in 1..4 {
        assert!(ant.move_ant(&mut pt, &mut rng).is_ok());
    }
    let before = ant.path_arr.clone();
    let level = pt.get((0, 1));
    assert_eq!(ant.move_ant(&mut pt, &mut rng), Err("no more coords"));
    assert_eq!(ant.path_arr, before);
    assert_eq!(pt.get((0, 1)), level);
    assert_eq!(ant.choose_next_coord(&pt, &mut rng), None);
    assert_eq!(ant.choose_the_best(&pt), None);
}

#[test]
fn a_lone_city_is_a_finished_walk() {
    let t = line(1);
    let p = parameters();
    let mut rng = SmallRng::seed_from_u64(1);
    let mut pt = PheromoneTrails::new(&p, 1);
    let mut ant = Ant::with_random_start(&t, &p, &mut rng);
    assert_eq!(ant.path_arr, vec![0]);
    assert_eq!(ant.get_path_lenght(), 0);
    assert!(ant.move_ant(&mut pt, &mut rng).is_err());
}

#[test]
fn a_step_updates_the_crossed_edge_only() {
    let t = line(4);
    let mut p = parameters();
    p.initial_pheromone_level = ONE;
    p.tau0 = 3 * ONE;
    p.p_of_take_best_path = ONE;
    let mut rng = SmallRng::seed_from_u64(1);
    let mut pt = PheromoneTrails::new(&p, 4);
    let mut ant = Ant::with_start(&t, &p, 0);
    assert!(ant.move_ant(&mut pt, &mut rng).is_ok());
    assert_eq!(ant.path_arr, vec![0, 3]);
    assert_eq!(pt.get((0, 3)), 2 * ONE);
    assert_eq!(pt.get((0, 1)), ONE);
    assert_eq!(pt.get((1, 3)), ONE);
    assert_eq!(ant.get_path_lenght(), 18 * ONE as u128);
}

#[test]
fn the_shortest_ant_is_the_first_of_equals() {
    let t = line(3);
    let p = parameters();
    let ants = vec![
        Ant::with_start(&t, &p, 0),
        Ant::with_start(&t, &p, 1),
        Ant::with_start(&t, &p, 2),
    ];
    assert_eq!(shortest(&ants), 0);
    let mut rng = SmallRng::seed_from_u64(9);
    let mut pt = PheromoneTrails::new(&p, 3);
    let mut walked = Ant::with_start(&t, &p, 0);
    walked.move_ant(&mut pt, &mut rng).unwrap();
    let ants = vec![walked, Ant::with_start(&t, &p, 1), Ant::with_start(&t, &p, 2)];
    assert_eq!(shortest(&ants), 1);
}

#[test]
fn progress_keeps_the_shorter_tour() {
    let mut progress = Progress::new();
    assert!(progress.best.is_none());
    assert!(!progress.stalled(0));
    progress.record(AntPath { path: vec![0, 1], lenght: 10 });
    assert_eq!(progress.best.as_ref().unwrap().lenght, 10);
    assert_eq!(progress.with_out_improvement, 0);
    progress.record(AntPath { path: vec![1, 0], lenght: 10 });
    assert_eq!(progress.best.as_ref().unwrap().path, vec![0, 1]);
    assert_eq!(progress.with_out_improvement, 1);
    assert!(progress.stalled(0));
    assert!(!progress.stalled(1));
    progress.record(AntPath { path: vec![1, 0], lenght: 12 });
    assert_eq!(progress.with_out_improvement, 2);
    assert!(progress.stalled(1));
    progress.record(AntPath { path: vec![1, 0], lenght: 9 });
    assert_eq!(progress.best.as_ref().unwrap().lenght, 9);
    assert_eq!(progress.best.as_ref().unwrap().path, vec![1, 0]);
    assert_eq!(progress.with_out_improvement, 0);
}

#[test]
fn an_iteration_returns_a_tour_and_reinforces_it() {
    let t = line(5);
    let mut p = parameters();
    p.initial_pheromone_level = 0;
    p.tau0 = 0;
    let mut rng = SmallRng::seed_from_u64(4);
    let mut pt = PheromoneTrails::new(&p, 5);
    let best = iterate(&p, &t, &mut pt, &mut rng);
    assert!(is_permutation(&best.path, 5));
    assert_eq!(best.lenght, tour_length(&t, &best.path));
    let target = ant_colony::fixed::recip(best.lenght);
    for pair in best.path.windows(2) {
        assert_eq!(pt.get((pair[0], pair[1])), target / 2);
    }
}

#[test]
fn unit_square_run_follows_the_scores() {
    let t = unit_square();
    let p = Parameters {
        ants: 1,
        initial_pheromone_level: 0,
        alpha: ONE / 2,
        beta: 2 * ONE,
        tau0: 0,
        p_of_take_best_path: ONE,
        iterations: 1,
    };
    let side = 4 * ONE as u128;
    let crossed = 2 * ONE as u128 + 2 * 1_414_213_563;
    for seed in 0..40 {
        let mut rng = SmallRng::seed_from_u64(seed);
        let best = run(&p, &t, 0, &mut rng).unwrap();
        assert!(is_permutation(&best.path, 4));
        assert_eq!(best.lenght, tour_length(&t, &best.path));
        let expected: (Vec<usize>, u128) = match best.path[0] {
            0 => (vec![0, 3, 2, 1], side),
            1 => (vec![1, 3, 2, 0], crossed),
            2 => (vec![2, 3, 1, 0], crossed),
            _ => (vec![3, 2, 1, 0], side),
        };
        assert_eq!(best.path, expected.0);
        assert_eq!(best.lenght, expected.1);
    }
}

#[test]
fn unit_square_run_without_pheromone_weight_takes_the_diagonals() {
    let t = unit_square();
    let p = Parameters {
        ants: 1,
        initial_pheromone_level: 0,
        alpha: ONE / 2,
        beta: 0,
        tau0: 0,
        p_of_take_best_path: ONE,
        iterations: 1,
    };
    for seed in 0..40 {
        let mut rng = SmallRng::seed_from_u64(seed);
        let best = run(&p, &t, 0, &mut rng).unwrap();
        assert_eq!(best.lenght, 2 * ONE as u128 + 2 * 1_414_213_563);
        let mut rng = SmallRng::seed_from_u64(seed);
        assert_eq!(
            ant_colony::natural_selection::run_one(&p, &t, &mut rng),
            Some(2 * ONE as u128 + 2 * 1_414_213_563)
        );
    }
}

#[test]
fn a_weighted_draw_takes_a_step_with_weight_where_there_is_one() {
    let t = line(6);
    let mut p = parameters();
    p.initial_pheromone_level = ONE;
    let pt = PheromoneTrails::new(&p, 6);
    let ant = Ant::with_start(&t, &p, 0);
    let mut rng = SmallRng::seed_from_u64(17);
    let mut seen = [false; 6];
    for _ in 0..400 {
        let next = ant.choose_probabilistic(&pt, &mut rng);
        assert!(ant.get_step_score(next, &pt) > 0);
        seen[next] = true;
    }
    assert_eq!(seen, [false, true, true, true, true, true]);
}

#[test]
fn a_run_without_iterations_finds_nothing() {
    let t = unit_square();
    let mut p = parameters();
    p.iterations = 0;
    let mut rng = SmallRng::seed_from_u64(2);
    assert!(run(&p, &t, 10, &mut rng).is_none());
}

#[test]
fn a_run_returns_its_best_tour() {
    let t = line(6);
    let p = parameters();
    for seed in 0..10 {
        let mut rng = SmallRng::seed_from_u64(seed);
        let best = run(&p, &t, 2, &mut rng).unwrap();
        assert!(is_permutation(&best.path, 6));
        assert_eq!(best.lenght, tour_length(&t, &best.path));
        assert!(best.lenght >= 50 * ONE as u128);
    }
}
