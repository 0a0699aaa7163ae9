use evo::breeder::{Breeder, FloatBreeder};
use evo::fixed::UNIT;
use evo::neat::breeder::NeatBreeder;
use evo::neat::network::NeatNetwork;
use evo::pool::{Pool, Ratios};
use evo::quota::{quota_of, round_div};
use evo::ratios::{counted_of, portion_of};
use evo::species::{best_index, mean_score, sort_descending, Species};
use evo::steps::{reversed, MIGRATION_CHANCE};
use evo::utils::random;

fn fixed(x: f64) -> i64 {
    (x * 1_000_000.0).round() as i64
}

#[test]
fn test_new_pool() {
    let mut pool = Pool::new(100, FloatBreeder::default());
    for _ in 0..100 {
        let (id, f): (i32, i64) = pool.next();
        assert_eq!(id, 0);
        pool.report(0, f, random());
    }
    assert_eq!(pool.generations(), 1);
}

fn respond(network: &NeatNetwork, inputs: [f64; 2]) -> f64 {
    let side = network.genome.len();
    let weights = network.get_weights();
    let mut state = vec![0.0f64; side];
    state[0] = inputs[0];
    state[1] = inputs[1];
    for _ in 0..3 {
        let mut next = state.clone();
        for target in 2..side {
            let mut sum = 0.0;
            for source in 0..side {
                sum += weights[target * side + source] as f64 / 1_000_000.0 * state[source];
            }
            next[target] = sum.tanh();
        }
        state = next;
    }
    state[2]
}

#[test]
fn test_xor() {
    let mut pool = Pool::new(150, NeatBreeder::new(2, 1));
    pool.set_ratios(Ratios { top: fixed(0.1), mutate: fixed(0.4), cross: fixed(0.4), random: fixed(0.1) });

    for _ in 0..10000 {
        let (id, genome) = pool.next();
        let n = NeatNetwork::from((id, genome));
        let mut d = 0.0f64;
        d += (1.0 - respond(&n, [0.0, 0.0])).powi(2);
        d += (1.0 - respond(&n, [1.0, 1.0])).powi(2);
        d += (0.0 - respond(&n, [1.0, 0.0])).powi(2);
        d += (0.0 - respond(&n, [0.0, 1.0])).powi(2);
        let fitness = 16f64 / (1f64 + d);
        assert!(pool.has_species(id));
        pool.report(id, n.genome, fixed(fitness));
    }
    assert!(pool.generations() > 0);
    assert!(pool.champion().is_some());
}

#[test]
fn a_pool_of_ten_closes_generations_and_keeps_the_champion() {
    let mut pool = Pool::new(10, NeatBreeder::new(2, 1));
    let mut closed = 0;
    for _ in 0..100 {
        let (id, genome) = pool.next();
        assert!(pool.has_species(id));
        if pool.report(id, genome, UNIT) {
            closed += 1;
        }
    }
    assert!(pool.generations() > 0);
    assert_eq!(pool.generations(), closed);
    let champion = pool.champion().as_ref().unwrap();
    assert_eq!(champion.0, UNIT);
    assert_eq!(pool.mean_score(), UNIT);
    assert_eq!(pool.last_best(), UNIT);
    assert_eq!(pool.gens_without_improvement(), pool.generations() - 1);
}

#[test]
fn a_new_pool_has_one_species_and_its_candidates() {
    let pool = Pool::new(7, FloatBreeder::default());
    assert_eq!(pool.size(), 7);
    assert_eq!(pool.waiting(), 7);
    assert_eq!(pool.species_count(), 1);
    assert!(pool.has_species(0));
    assert!(!pool.has_species(1));
    assert_eq!(pool.find_species(0), Some(0));
    assert_eq!(pool.find_species(-1), None);
    assert_eq!(pool.generations(), 0);
    assert_eq!(pool.mean_score(), 0);
    assert_eq!(pool.last_best(), fixed(-9999.0));
    assert_eq!(pool.gens_without_improvement(), 0);
    assert!(pool.champion().is_none());
    let ratios = pool.ratios();
    assert_eq!((ratios.top, ratios.mutate, ratios.cross, ratios.random), (fixed(0.05), fixed(0.45), fixed(0.45), fixed(0.05)));
    assert_eq!(pool.breeder().delta, fixed(0.1));
}

#[test]
fn a_report_closes_the_generation_when_nobody_waits() {
    let mut pool = Pool::new(3, FloatBreeder::default());
    let (a, first) = pool.next();
    assert_eq!(pool.waiting(), 2);
    assert!(!pool.report(a, first, fixed(1.0)));
    assert_eq!(pool.generations(), 0);
    let (b, second) = pool.next();
    assert!(!pool.report(b, second, fixed(3.0)));
    let (c, third) = pool.next();
    assert_eq!(pool.waiting(), 0);
    assert!(pool.report(c, third, fixed(5.0)));
    assert_eq!(pool.generations(), 1);
    assert_eq!(pool.mean_score(), fixed(3.0));
    assert_eq!(pool.last_best(), fixed(5.0));
    assert_eq!(pool.champion().as_ref().unwrap().0, fixed(5.0));
    assert_eq!(pool.champion().as_ref().unwrap().1, third);
    assert_eq!(pool.gens_without_improvement(), 0);
    assert_eq!(pool.waiting(), 3);
    assert!(pool.has_species(0));
}

#[test]
fn the_champion_stays_until_a_better_score_comes() {
    let mut pool = Pool::new(1, FloatBreeder::default());
    let scores = vec![fixed(4.0), fixed(2.0), fixed(4.0), fixed(4.5), fixed(1.0), fixed(9.0)];
    let mut seen = Vec::new();
    for score in scores {
        let (id, genome) = pool.next();
        assert!(pool.report(id, genome, score));
        seen.push((pool.champion().as_ref().unwrap().0, pool.gens_without_improvement(), pool.last_best()));
    }
    assert_eq!(
        seen,
        vec![
            (fixed(4.0), 0, fixed(4.0)),
            (fixed(4.0), 1, fixed(2.0)),
            (fixed(4.0), 2, fixed(4.0)),
            (fixed(4.5), 0, fixed(4.5)),
            (fixed(4.5), 1, fixed(1.0)),
            (fixed(9.0), 0, fixed(9.0)),
        ]
    );
    assert_eq!(pool.generations(), 6);
}

#[test]
fn a_pull_from_an_empty_pool_is_a_new_genome_of_the_first_species() {
    let mut pool = Pool::new(0, FloatBreeder::default());
    assert_eq!(pool.waiting(), 0);
    let (id, genome) = pool.next();
    assert_eq!(id, 0);
    assert!(fixed(-1.0) <= genome && genome < fixed(1.0));
    assert_eq!(pool.waiting(), 0);
    assert!(pool.report(id, genome, 5));
    assert_eq!(pool.generations(), 1);
    assert_eq!(pool.waiting(), 0);
}

#[test]
fn a_species_without_reports_is_gone_after_the_generation() {
    let breeder = FloatBreeder { min: fixed(-1000.0), max: fixed(1000.0), delta: 50 };
    let mut pool = Pool::new(20, breeder);
    for _ in 0..20 {
        let (id, genome) = pool.next();
        pool.report(id, genome, fixed(1.0));
    }
    assert_eq!(pool.generations(), 1);
    let mut pulled = Vec::new();
    while pool.waiting() > 0 {
        pulled.push(pool.next());
    }
    let mut ids: Vec<i32> = pulled.iter().map(|candidate| candidate.0).collect();
    ids.sort();
    ids.dedup();
    assert!(ids.len() >= 2);
    for id in ids.iter() {
        assert!(pool.has_species(*id));
    }
    let (id, genome) = pulled[0];
    assert!(pool.report(id, genome, fixed(2.0)));
    assert_eq!(pool.generations(), 2);
    assert!(pool.has_species(id));
    for other in ids.iter() {
        if *other != id {
            assert!(!pool.has_species(*other));
        }
    }
    assert_eq!(pool.mean_score(), fixed(2.0));
}

#[test]
fn every_candidate_belongs_to_a_live_species() {
    let breeder = FloatBreeder { min: fixed(-10.0), max: fixed(10.0), delta: fixed(0.5) };
    let mut pool = Pool::new(30, breeder);
    for round in 0..300 {
        let (id, genome) = pool.next();
        assert!(pool.has_species(id));
        assert!(fixed(-10.0) <= genome && genome <= fixed(10.0));
        pool.report(id, genome, genome + round);
        assert!(pool.waiting() <= 30);
        assert!(pool.species_count() >= 1);
    }
    assert_eq!(pool.generations(), 10);
}

#[test]
fn ratios_become_whole_numbers() {
    let ratios = Ratios { top: fixed(0.05), mutate: fixed(0.45), cross: fixed(0.45), random: fixed(0.05) };
    let counts = ratios.to_int(100);
    assert_eq!((counts.top, counts.mutate, counts.cross, counts.random), (5, 45, 45, 5));
    let counts = ratios.to_int(10);
    assert_eq!((counts.top, counts.mutate, counts.cross, counts.random), (0, 4, 4, 2));
    let counts = ratios.to_int(1);
    assert_eq!((counts.top, counts.mutate, counts.cross, counts.random), (0, 0, 0, 1));
    let counts = ratios.to_int(0);
    assert_eq!((counts.top, counts.mutate, counts.cross, counts.random), (0, 0, 0, 0));
    let double = Ratios { top: fixed(1.0), mutate: fixed(1.0), cross: fixed(1.0), random: fixed(1.0) };
    let counts = double.to_int(10);
    assert_eq!((counts.top, counts.mutate, counts.cross, counts.random), (2, 2, 2, 4));
    let odd = Ratios { top: -5, mutate: 0, cross: 0, random: 0 };
    let counts = odd.to_int(9);
    assert_eq!((counts.top, counts.mutate, counts.cross, counts.random), (0, 0, 0, 9));
    let tops = Ratios { top: 3, mutate: -1, cross: 0, random: 0 };
    let counts = tops.to_int(usize::MAX);
    assert_eq!((counts.top, counts.mutate, counts.cross, counts.random), (usize::MAX, 0, 0, 0));
    assert_eq!(portion_of(10, 1, 3), 3);
    assert_eq!(portion_of(usize::MAX, 7, 7), usize::MAX);
    assert_eq!(counted_of(-4), 0);
    assert_eq!(counted_of(4), 4);
}

#[test]
fn ratios_add_up() {
    let ratios = Ratios { top: 1u32, mutate: 2, cross: 3, random: 4 };
    let sums = ratios.cumulative();
    assert_eq!((sums.top, sums.mutate, sums.cross, sums.random), (1, 3, 6, 10));
    let ratios = Ratios { top: fixed(0.05), mutate: fixed(0.45), cross: fixed(0.45), random: fixed(0.05) };
    let sums = ratios.cumulative();
    assert_eq!((sums.top, sums.mutate, sums.cross, sums.random), (fixed(0.05), fixed(0.5), fixed(0.95), fixed(1.0)));
    let copy = ratios.clone();
    assert_eq!(copy.mutate, fixed(0.45));
}

#[test]
fn quotas_follow_the_means() {
    assert_eq!(quota_of(fixed(1.0), fixed(1.0), 10, 1), 10);
    assert_eq!(quota_of(fixed(1.0), fixed(1.0), 10, 3), 3);
    assert_eq!(quota_of(fixed(2.0), fixed(1.0), 10, 4), 5);
    assert_eq!(quota_of(fixed(3.0), fixed(2.0), 10, 4), 4);
    assert_eq!(quota_of(fixed(1.0), fixed(2.0), 10, 4), 1);
    assert_eq!(quota_of(fixed(1.0), fixed(2.0), 12, 4), 2);
    assert_eq!(quota_of(fixed(0.001), fixed(5.0), 10, 2), 1);
    assert_eq!(quota_of(fixed(100.0), fixed(1.0), 10, 2), 10);
    assert_eq!(quota_of(fixed(-1.0), fixed(1.0), 10, 2), 1);
    assert_eq!(quota_of(fixed(-1.0), fixed(-1.0), 10, 2), 5);
    assert_eq!(quota_of(fixed(1.0), fixed(-1.0), 10, 2), 1);
    assert_eq!(quota_of(0, fixed(1.0), 10, 2), 1);
    assert_eq!(quota_of(fixed(1.0), fixed(1.0), 0, 2), 1);
    assert_eq!(quota_of(i64::MAX, 1, usize::MAX, 1), usize::MAX);
    assert_eq!(quota_of(i64::MIN, i64::MIN, usize::MAX, usize::MAX), 1);
}

#[test]
fn a_zero_mean_gives_every_species_the_same_share() {
    assert_eq!(quota_of(0, 0, 10, 3), 3);
    assert_eq!(quota_of(fixed(5.0), 0, 10, 4), 3);
    assert_eq!(quota_of(fixed(-5.0), 0, 9, 2), 5);
    assert_eq!(quota_of(0, 0, 10, 40), 1);
    assert_eq!(quota_of(0, 0, 0, 3), 1);
}

#[test]
fn divisions_round_to_the_nearest() {
    assert_eq!(round_div(7, 2), 4);
    assert_eq!(round_div(5, 2), 3);
    assert_eq!(round_div(4, 3), 1);
    assert_eq!(round_div(5, 3), 2);
    assert_eq!(round_div(0, 3), 0);
    assert_eq!(round_div(1, 3), 0);
    assert_eq!(round_div(u128::MAX >> 1, u128::MAX >> 1), 1);
}

#[test]
fn migration_is_rare() {
    assert_eq!(MIGRATION_CHANCE, fixed(0.01));
}

#[test]
fn reports_are_sorted_the_best_first() {
    let mut reports = vec![(3, 'a'), (9, 'b'), (-2, 'c'), (9, 'd'), (0, 'e')];
    assert_eq!(mean_score(&reports), 3);
    assert_eq!(best_index(&reports), 1);
    sort_descending(&mut reports);
    let scores: Vec<i64> = reports.iter().map(|report| report.0).collect();
    assert_eq!(scores, vec![9, 9, 3, 0, -2]);
    let mut names: Vec<char> = reports.iter().map(|report| report.1).collect();
    assert_eq!(names[2..], ['a', 'e', 'c']);
    names.sort();
    assert_eq!(names, vec!['a', 'b', 'c', 'd', 'e']);
    let mut none: Vec<(i64, u8)> = vec![];
    sort_descending(&mut none);
    assert!(none.is_empty());
    assert_eq!(mean_score(&vec![(-7, 0u8), (2, 0u8)]), -2);
    assert_eq!(mean_score(&vec![(i64::MAX, 0u8), (i64::MAX, 0u8)]), i64::MAX);
    assert_eq!(reversed(vec![1, 2, 3]), vec![3, 2, 1]);
    assert_eq!(reversed(Vec::<u8>::new()), Vec::<u8>::new());
}

#[test]
fn a_species_settles_its_generation() {
    let mut species = Species::new(4, 10i64);
    assert_eq!((species.id, species.gens_empty, species.last_mean), (4, 0, 0));
    assert!(species.champion.is_none());
    species.report(fixed(1.0), 11);
    species.report(fixed(4.0), 12);
    species.report(fixed(2.5), 13);
    species.settle();
    assert_eq!(species.gens_empty, 0);
    assert_eq!(species.last_mean, fixed(2.5));
    assert_eq!(species.champion, Some((fixed(4.0), 12)));
    assert_eq!(species.reported, vec![(fixed(4.0), 12), (fixed(2.5), 13), (fixed(1.0), 11)]);
    assert!(species.model == 11 || species.model == 12 || species.model == 13);
    species.clear();
    assert!(species.reported.is_empty());
    assert_eq!(species.champion, Some((fixed(4.0), 12)));
    species.report(fixed(3.0), 14);
    species.settle();
    assert_eq!(species.champion, Some((fixed(4.0), 12)));
    assert_eq!(species.last_mean, fixed(3.0));
    assert_eq!(species.model, 14);
    species.clear();
    species.report(fixed(4.0), 15);
    species.settle();
    assert_eq!(species.champion, Some((fixed(4.0), 12)));
    species.clear();
    species.report(fixed(4.000001), 16);
    species.settle();
    assert_eq!(species.champion, Some((fixed(4.000001), 16)));
}

#[test]
fn a_species_counts_its_empty_generations() {
    let mut species = Species::new(0, 'm');
    species.settle();
    assert_eq!(species.gens_empty, 1);
    assert_eq!(species.model, 'm');
    species.settle();
    assert_eq!(species.gens_empty, 2);
    species.report(7, 'x');
    species.settle();
    assert_eq!(species.gens_empty, 0);
    assert_eq!(species.model, 'x');
    species.gens_empty = u32::MAX;
    species.clear();
    species.settle();
    assert_eq!(species.gens_empty, u32::MAX);
}

#[test]
fn offspring_come_in_the_numbers_of_the_ratios() {
    let breeder = FloatBreeder { min: fixed(-5.0), max: fixed(5.0), delta: fixed(0.001) };
    let mut species = Species::new(0, 0i64);
    species.report(fixed(9.0), fixed(3.0));
    species.report(fixed(8.0), fixed(-3.0));
    let all = vec![species];
    let ratios = Ratios { top: fixed(0.5), mutate: fixed(0.5), cross: 0, random: 0 };
    let out = Pool::<FloatBreeder>::offspring_of(&breeder, &all, 0, 8, &ratios);
    assert_eq!(out.len(), 8);
    assert_eq!(out[..4], [fixed(3.0), fixed(-3.0), fixed(3.0), fixed(-3.0)]);
    for child in out[4..].iter() {
        let near_first = (child - fixed(3.0)).abs() <= fixed(0.001);
        let near_second = (child + fixed(3.0)).abs() <= fixed(0.001);
        assert!(near_first || near_second);
    }
    let crossing = Ratios { top: 0, mutate: 0, cross: fixed(1.0), random: 0 };
    let out = Pool::<FloatBreeder>::offspring_of(&breeder, &all, 0, 5, &crossing);
    assert_eq!(out.len(), 5);
    for child in out {
        assert!(fixed(-3.0) <= child && child <= fixed(3.0));
    }
    let none = Pool::<FloatBreeder>::offspring_of(&breeder, &all, 0, 0, &crossing);
    assert!(none.is_empty());
    let fresh = Ratios { top: 0, mutate: 0, cross: 0, random: fixed(1.0) };
    let out = Pool::<FloatBreeder>::offspring_of(&breeder, &all, 0, 6, &fresh);
    assert_eq!(out.len(), 6);
    assert_eq!(Pool::<FloatBreeder>::any_report(&all).0, 0);
    assert!(Pool::<FloatBreeder>::any_report(&all).1 < 2);
}

#[test]
fn reports_are_counted_through_species_by_species() {
    let mut a = Species::new(0, 0i64);
    a.report(1, 10);
    a.report(2, 11);
    let mut b = Species::new(1, 0i64);
    b.report(3, 12);
    let mut c = Species::new(2, 0i64);
    c.report(4, 13);
    c.report(5, 14);
    c.report(6, 15);
    let all = vec![a, b, c];
    let places: Vec<(usize, usize)> = (0..6).map(|k| Pool::<FloatBreeder>::report_at(&all, k)).collect();
    assert_eq!(places, vec![(0, 0), (0, 1), (1, 0), (2, 0), (2, 1), (2, 2)]);
    let mut seen = Vec::new();
    for _ in 0..300 {
        let place = Pool::<FloatBreeder>::any_report(&all);
        assert!(places.contains(&place));
        if !seen.contains(&place) {
            seen.push(place);
        }
    }
    assert!(seen.len() > 1);
}

#[test]
fn every_species_breeds_its_quota() {
    let breeder = FloatBreeder { min: fixed(-5.0), max: fixed(5.0), delta: fixed(0.001) };
    let mut a = Species::new(0, 0i64);
    a.report(fixed(6.0), fixed(1.0));
    a.last_mean = fixed(6.0);
    let mut b = Species::new(1, 0i64);
    b.report(fixed(2.0), fixed(-1.0));
    b.last_mean = fixed(2.0);
    let all = vec![a, b];
    let copies = Ratios { top: fixed(1.0), mutate: 0, cross: 0, random: 0 };
    let pooled = Pool::<FloatBreeder>::breed_all(&breeder, &all, fixed(4.0), 8, &copies);
    assert_eq!(pooled, vec![fixed(1.0); 6].into_iter().chain(vec![fixed(-1.0); 2]).collect::<Vec<i64>>());
    let none: Vec<Species<i64>> = vec![];
    assert!(Pool::<FloatBreeder>::breed_all(&breeder, &none, 0, 8, &copies).is_empty());
}

#[test]
fn clearing_takes_the_reports_and_nothing_else() {
    let breeder = FloatBreeder::default();
    let mut a = Species::new(3, 7i64);
    a.report(fixed(1.0), 8);
    a.settle();
    let b = Species::new(5, 9i64);
    let cleared = Pool::<FloatBreeder>::clear_all(&breeder, vec![a, b]);
    assert_eq!(cleared.len(), 2);
    assert_eq!((cleared[0].id, cleared[0].model, cleared[0].champion, cleared[0].last_mean), (3, 8, Some((fixed(1.0), 8)), fixed(1.0)));
    assert!(cleared[0].reported.is_empty());
    assert_eq!((cleared[1].id, cleared[1].model, cleared[1].champion), (5, 9, None));
}

#[test]
fn a_pull_changes_no_species_and_a_report_is_kept() {
    let mut pool = Pool::new(2, FloatBreeder::default());
    let (id, genome) = pool.next();
    assert_eq!(pool.species_count(), 1);
    assert!(!pool.report(id, genome, fixed(3.0)));
    assert_eq!(pool.waiting(), 1);
    let (id, second) = pool.next();
    assert!(pool.report(id, second, fixed(5.0)));
    assert_eq!(pool.champion(), &Some((fixed(5.0), second)));
    assert_eq!(pool.mean_score(), fixed(4.0));
}

#[test]
fn a_genome_joins_the_first_species_that_takes_it() {
    let breeder = FloatBreeder { min: fixed(-5.0), max: fixed(5.0), delta: fixed(0.5) };
    let mut species = vec![Species::new(0, fixed(0.0)), Species::new(3, fixed(0.8)), Species::new(4, fixed(3.0))];
    let mut next_id = 5;
    assert_eq!(Pool::<FloatBreeder>::classify(&breeder, &mut species, &mut next_id, &fixed(0.5)), 0);
    assert_eq!(Pool::<FloatBreeder>::classify(&breeder, &mut species, &mut next_id, &fixed(1.2)), 3);
    assert_eq!(Pool::<FloatBreeder>::classify(&breeder, &mut species, &mut next_id, &fixed(2.5)), 4);
    assert_eq!((species.len(), next_id), (3, 5));
    assert_eq!(Pool::<FloatBreeder>::classify(&breeder, &mut species, &mut next_id, &fixed(-4.0)), 5);
    assert_eq!((species.len(), next_id), (4, 6));
    assert_eq!(species[3].id, 5);
    assert_eq!(species[3].model, fixed(-4.0));
    assert_eq!(Pool::<FloatBreeder>::classify(&breeder, &mut species, &mut next_id, &fixed(-4.5)), 5);
    let mut full = i32::MAX;
    assert_eq!(Pool::<FloatBreeder>::classify(&breeder, &mut species, &mut full, &fixed(-2.0)), 5);
    assert_eq!((species.len(), full), (4, i32::MAX));
    let labelled = Pool::<FloatBreeder>::classify_all(&breeder, &mut species, &mut next_id, vec![fixed(0.1), fixed(-2.0), fixed(-1.9), fixed(3.1)]);
    assert_eq!(labelled, vec![(0, fixed(0.1)), (6, fixed(-2.0)), (6, fixed(-1.9)), (4, fixed(3.1))]);
    assert_eq!(next_id, 7);
}

#[test]
fn settling_all_keeps_the_species_with_reports() {
    let breeder = FloatBreeder::default();
    let mut a = Species::new(0, 1i64);
    a.report(fixed(1.0), 2);
    a.report(fixed(2.0), 3);
    let b = Species::new(1, 4i64);
    let mut c = Species::new(5, 5i64);
    c.report(fixed(7.0), 6);
    let (kept, best) = Pool::<FloatBreeder>::settle_all(&breeder, vec![a, b, c]);
    assert_eq!(kept.len(), 2);
    assert_eq!((kept[0].id, kept[1].id), (0, 5));
    assert_eq!((kept[0].last_mean, kept[1].last_mean), (fixed(1.5), fixed(7.0)));
    assert_eq!(best, Some((fixed(7.0), 1)));
    assert_eq!(Pool::<FloatBreeder>::mean_of_means(&kept), fixed(4.25));
    let (kept, best) = Pool::<FloatBreeder>::settle_all(&breeder, vec![Species::new(0, 1i64)]);
    assert!(kept.is_empty());
    assert_eq!(best, None);
}
