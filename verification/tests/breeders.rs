use evo::breeder::{Breeder, FloatBreeder, VecBreeder};
use evo::derived::{Pair, PairGenome, Weighted};
use evo::fixed::UNIT;
use evo::neat::breeder::NeatBreeder;
use evo::neat::genome::NeatGenome;
use evo::nested_breeder::{find_entry, NestedBreeder, NestedBreederGenome};

fn fixed(x: f64) -> i64 {
    (x * 1_000_000.0).round() as i64
}

#[test]
fn float_breeder_defaults() {
    let breeder = FloatBreeder::default();
    assert_eq!((breeder.min, breeder.max, breeder.delta), (fixed(-1.0), fixed(1.0), fixed(0.1)));
}

#[test]
fn float_breeder_moves_and_holds() {
    let breeder = FloatBreeder { min: fixed(0.0), max: fixed(1.0), delta: fixed(0.2) };
    assert_eq!(breeder.mutate_by(fixed(0.5), 0), fixed(0.3));
    assert_eq!(breeder.mutate_by(fixed(0.5), 750_000), fixed(0.6));
    assert_eq!(breeder.mutate_by(fixed(0.1), 0), fixed(0.0));
    assert_eq!(breeder.mutate_by(fixed(0.95), 999_999), fixed(1.0));
    assert_eq!(breeder.mutate_by(fixed(7.0), 500_000), fixed(1.0));
    for _ in 0..200 {
        let child = breeder.mutate(&fixed(0.5));
        assert!(fixed(0.3) <= child && child <= fixed(0.7));
        let child = breeder.mutate(&fixed(0.9));
        assert!(fixed(0.7) <= child && child <= fixed(1.0));
    }
}

#[test]
fn float_breeder_blends_its_parents() {
    let breeder = FloatBreeder::default();
    assert_eq!(breeder.breed_by(fixed(1.0), fixed(3.0), 0), fixed(3.0));
    assert_eq!(breeder.breed_by(fixed(1.0), fixed(3.0), 250_000), fixed(2.5));
    assert_eq!(breeder.breed_by(fixed(1.0), fixed(3.0), 999_999), 1_000_002);
    assert_eq!(breeder.breed_by(fixed(-2.0), fixed(2.0), 500_000), 0);
    for _ in 0..200 {
        let child = breeder.breed(&fixed(1.0), &fixed(3.0));
        assert!(fixed(1.0) <= child && child <= fixed(3.0));
    }
}

#[test]
fn float_breeder_draws_from_its_range() {
    let breeder = FloatBreeder { min: fixed(2.0), max: fixed(5.0), delta: fixed(0.1) };
    let mut seen = Vec::new();
    for _ in 0..200 {
        let genome = breeder.random();
        assert!(fixed(2.0) <= genome && genome < fixed(5.0));
        if !seen.contains(&genome) {
            seen.push(genome);
        }
    }
    assert!(seen.len() > 1);
}

#[test]
fn float_breeder_takes_near_numbers_for_the_same() {
    let breeder = FloatBreeder::default();
    assert!(breeder.is_same(&fixed(0.5), &fixed(0.5)));
    assert!(breeder.is_same(&fixed(0.5), &fixed(0.699999)));
    assert!(!breeder.is_same(&fixed(0.5), &fixed(0.7)));
    assert!(breeder.is_same(&fixed(0.5), &fixed(0.300001)));
    assert!(!breeder.is_same(&fixed(0.5), &fixed(0.3)));
    assert!(!breeder.is_same(&i64::MIN, &i64::MAX));
    let still = FloatBreeder { min: 0, max: 1, delta: 0 };
    assert!(!still.is_same(&5, &5));
}

#[test]
fn vec_breeder_defaults() {
    let breeder = VecBreeder::default();
    assert_eq!(breeder.size, 100);
    assert_eq!((breeder.min, breeder.max, breeder.delta), (0, fixed(1.0), fixed(0.5)));
    assert_eq!((breeder.mutate_rate, breeder.flip_rate, breeder.is_same_threshold), (fixed(2.0), fixed(1.0), fixed(0.5)));
    assert_eq!(breeder.chance(breeder.mutate_rate), 20_000);
    assert_eq!(breeder.chance(breeder.flip_rate), 10_000);
}

fn small() -> VecBreeder {
    VecBreeder {
        size: 4,
        min: 0,
        max: fixed(1.0),
        delta: fixed(0.5),
        mutate_rate: fixed(2.0),
        flip_rate: fixed(1.0),
        is_same_threshold: fixed(0.5),
    }
}

#[test]
fn vec_breeder_moves_elements() {
    let breeder = small();
    assert_eq!(breeder.perturb(fixed(0.5), 0), 0);
    assert_eq!(breeder.perturb(fixed(0.5), 600_000), fixed(0.6));
    assert_eq!(breeder.perturb(fixed(0.9), 999_999), fixed(1.0));
    let gene = vec![fixed(0.5); 4];
    let mut moved = false;
    let mut kept = false;
    for _ in 0..100 {
        let child = breeder.mutate(&gene);
        assert_eq!(child.len(), 4);
        for x in child {
            assert!(0 <= x && x <= fixed(1.0));
            if x == fixed(0.5) {
                kept = true;
            } else {
                moved = true;
            }
        }
    }
    assert!(moved && kept);
    let never = VecBreeder { mutate_rate: 0, ..small() };
    assert_eq!(never.mutate(&gene), gene);
    let always = VecBreeder { mutate_rate: fixed(4.0), delta: fixed(10.0), min: fixed(-100.0), max: fixed(100.0), ..small() };
    let child = always.mutate(&vec![fixed(50.0); 4]);
    for x in child {
        assert!(fixed(40.0) <= x && x <= fixed(60.0));
    }
}

#[test]
fn vec_breeder_crosses_in_runs() {
    let breeder = small();
    let first = vec![1, 2, 3, 4];
    let second = vec![10, 20, 30, 40];
    assert_eq!(breeder.breed_by(&first, &second, &vec![false, false, false, false]), vec![1, 2, 3, 4]);
    assert_eq!(breeder.breed_by(&first, &second, &vec![true, false, false, false]), vec![10, 20, 30, 40]);
    assert_eq!(breeder.breed_by(&first, &second, &vec![false, true, false, true]), vec![1, 20, 30, 4]);
    assert_eq!(breeder.breed_by(&first, &second, &vec![true, true, true, true]), vec![10, 2, 30, 4]);
    assert_eq!(breeder.breed_by(&first, &second, &vec![false, true]), vec![1, 20]);
    for _ in 0..100 {
        let child = breeder.breed(&first, &second);
        assert_eq!(child.len(), 4);
        let mut changes = 0;
        let mut side = false;
        for i in 0..4 {
            let here = child[i] == second[i];
            assert!(here || child[i] == first[i]);
            if here != side {
                changes += 1;
                side = here;
            }
        }
        assert!(changes <= 4);
    }
    let never = VecBreeder { flip_rate: 0, ..small() };
    assert_eq!(never.breed(&first, &second), first);
    let always = VecBreeder { flip_rate: fixed(4.0), ..small() };
    assert_eq!(always.breed(&first, &second), vec![10, 2, 30, 4]);
}

#[test]
fn vec_breeder_draws_lists_of_its_size() {
    let breeder = VecBreeder { min: fixed(2.0), max: fixed(3.0), ..small() };
    let genome = breeder.random();
    assert_eq!(genome.len(), 4);
    for x in genome {
        assert!(fixed(2.0) <= x && x < fixed(3.0));
    }
    assert_eq!(VecBreeder::default().random().len(), 100);
}

#[test]
fn vec_breeder_compares_by_mean_squared_distance() {
    let breeder = small();
    let zero = vec![0, 0, 0, 0];
    let one = vec![fixed(1.0); 4];
    let half = vec![fixed(0.5); 4];
    assert!(breeder.is_same(&zero, &zero));
    assert!(breeder.is_same(&zero, &half));
    assert!(!breeder.is_same(&zero, &one));
    let mixed = vec![fixed(1.0), fixed(1.0), 0, 0];
    assert!(!breeder.is_same(&zero, &mixed));
    let nearly = vec![fixed(1.0), fixed(0.999999), 0, 0];
    assert!(breeder.is_same(&zero, &nearly));
    let wide = VecBreeder { min: fixed(-1.0), max: fixed(1.0), ..small() };
    assert!(wide.is_same(&zero, &one));
    let strict = VecBreeder { is_same_threshold: 1, ..small() };
    assert!(strict.is_same(&zero, &zero));
    assert!(!strict.is_same(&zero, &vec![fixed(0.002), 0, 0, 0]));
}

#[test]
fn vec_breeder_works_without_width_or_elements() {
    let flat = VecBreeder { min: fixed(0.5), max: fixed(0.5), ..small() };
    let gene = vec![fixed(0.5); 4];
    assert_eq!(flat.random(), gene);
    assert_eq!(flat.mutate(&gene).len(), 4);
    assert_eq!(flat.breed(&gene, &gene), gene);
    assert!(!flat.is_same(&gene, &gene));
    let turned = VecBreeder { min: fixed(1.0), max: fixed(0.0), ..small() };
    for x in turned.random() {
        assert!(0 <= x && x <= fixed(1.0));
    }
    assert!(turned.is_same(&gene, &gene));
    let none = VecBreeder { size: 0, ..small() };
    let empty: Vec<i64> = vec![];
    assert_eq!(none.random(), empty);
    assert_eq!(none.mutate(&empty), empty);
    assert_eq!(none.breed(&empty, &empty), empty);
    assert!(!none.is_same(&empty, &empty));
    assert_eq!(none.chance(fixed(2.0)), 0);
}

#[test]
fn derive() {
    let m = Pair {
        first: Weighted { breeder: FloatBreeder::default(), weight: fixed(0.5) },
        second: Weighted { breeder: VecBreeder::default(), weight: fixed(0.5) },
    };
    let genome = m.random();
    assert!(fixed(-1.0) <= genome.first && genome.first < fixed(1.0));
    assert_eq!(genome.second.len(), 100);
    let child = m.mutate(&genome);
    assert_eq!(child.second.len(), 100);
    let child = m.breed(&genome, &child);
    assert_eq!(child.second.len(), 100);
    assert!(m.is_same(&genome, &genome));
}

#[test]
fn a_field_without_weight_is_passed_on() {
    let field = Weighted { breeder: FloatBreeder::default(), weight: 0 };
    for _ in 0..50 {
        assert_eq!(field.mutate(&fixed(0.25)), fixed(0.25));
        let child = field.breed(&fixed(0.25), &fixed(0.75));
        assert!(child == fixed(0.25) || child == fixed(0.75));
    }
    let mut first = false;
    let mut second = false;
    for _ in 0..200 {
        if field.breed(&fixed(0.25), &fixed(0.75)) == fixed(0.25) {
            first = true;
        } else {
            second = true;
        }
    }
    assert!(first && second);
}

#[test]
fn a_field_with_full_weight_is_always_bred() {
    let field = Weighted { breeder: FloatBreeder { min: fixed(-9.0), max: fixed(9.0), delta: fixed(1.0) }, weight: UNIT };
    let mut moved = false;
    for _ in 0..50 {
        let child = field.mutate(&fixed(5.0));
        assert!(fixed(4.0) <= child && child <= fixed(6.0));
        if child != fixed(5.0) {
            moved = true;
        }
        let child = field.breed(&fixed(1.0), &fixed(2.0));
        assert!(fixed(1.0) <= child && child <= fixed(2.0));
    }
    assert!(moved);
    let genome = field.random();
    assert!(fixed(-9.0) <= genome && genome < fixed(9.0));
}

#[test]
fn a_pair_is_the_same_when_both_parts_are() {
    let pair = Pair { first: FloatBreeder::default(), second: FloatBreeder::default() };
    let a = PairGenome { first: fixed(0.1), second: fixed(0.1) };
    let b = PairGenome { first: fixed(0.2), second: fixed(0.2) };
    let c = PairGenome { first: fixed(0.2), second: fixed(0.9) };
    let d = PairGenome { first: fixed(0.9), second: fixed(0.2) };
    assert!(pair.is_same(&a, &b));
    assert!(!pair.is_same(&a, &c));
    assert!(!pair.is_same(&a, &d));
    let copy = a.clone();
    assert_eq!((copy.first, copy.second), (a.first, a.second));
}

fn nested() -> NestedBreeder {
    let named: Vec<(String, NestedBreeder)> = vec![
        ("foo".to_string(), VecBreeder::default().into()),
        ("net".to_string(), NeatBreeder::new(2, 1).into()),
    ];
    let list: Vec<NestedBreeder> = vec![
        VecBreeder::default().into(),
        FloatBreeder { min: 0, max: fixed(1.0), delta: fixed(0.1) }.into(),
        named.into(),
    ];
    list.into()
}

fn shape(genome: &NestedBreederGenome) -> String {
    match genome {
        NestedBreederGenome::Vec(v) => format!("v{}", v.len()),
        NestedBreederGenome::Float(_) => "f".to_string(),
        NestedBreederGenome::Network(_) => "n".to_string(),
        NestedBreederGenome::List(l) => format!("[{}]", l.iter().map(shape).collect::<Vec<String>>().join(",")),
        NestedBreederGenome::Named(m) => format!(
            "{{{}}}",
            m.iter().map(|(k, g)| format!("{}:{}", k, shape(g))).collect::<Vec<String>>().join(",")
        ),
    }
}

#[test]
fn a_nested_breeder_breeds_part_by_part() {
    let breeder = nested();
    let a = breeder.random();
    let b = breeder.random();
    assert_eq!(shape(&a), "[v100,f,{foo:v100,net:n}]");
    assert_eq!(shape(&breeder.mutate(&a)), "[v100,f,{foo:v100,net:n}]");
    assert_eq!(shape(&breeder.breed(&a, &b)), "[v100,f,{foo:v100,net:n}]");
    assert_eq!(shape(&a.clone()), "[v100,f,{foo:v100,net:n}]");
    assert!(breeder.is_same(&a, &a));
}

#[test]
fn a_nested_breeder_finds_named_parts_in_any_order() {
    let names: Vec<(String, NestedBreeder)> = vec![
        ("x".to_string(), FloatBreeder { min: 0, max: fixed(1.0), delta: 0 }.into()),
        ("y".to_string(), FloatBreeder { min: 0, max: fixed(1.0), delta: fixed(0.1) }.into()),
    ];
    let breeder: NestedBreeder = names.into();
    let genome = NestedBreederGenome::Named(vec![
        ("y".to_string(), NestedBreederGenome::Float(fixed(0.5))),
        ("other".to_string(), NestedBreederGenome::Float(fixed(0.9))),
        ("x".to_string(), NestedBreederGenome::Float(fixed(0.25))),
    ]);
    let child = breeder.mutate(&genome);
    let entries = child.unwrap_map();
    assert_eq!(entries.len(), 2);
    assert_eq!(entries[0].0, "x");
    assert_eq!(*entries[0].1.unwrap_float(), fixed(0.25));
    assert_eq!(entries[1].0, "y");
    let y = *entries[1].1.unwrap_float();
    assert!(fixed(0.4) <= y && y <= fixed(0.6));
    let fields = genome.unwrap_map();
    assert_eq!(find_entry(fields, &"x".to_string()), Some(2));
    assert_eq!(find_entry(fields, &"y".to_string()), Some(0));
    assert_eq!(find_entry(fields, &"z".to_string()), None);
    assert!(!breeder.is_same(&genome, &genome));
}

#[test]
fn a_list_breeds_as_far_as_its_parts_have_partners() {
    let parts: Vec<NestedBreeder> = vec![
        FloatBreeder::default().into(),
        FloatBreeder::default().into(),
        FloatBreeder::default().into(),
    ];
    let breeder: NestedBreeder = parts.into();
    let short = NestedBreederGenome::List(vec![NestedBreederGenome::Float(0), NestedBreederGenome::Float(5)]);
    let long = NestedBreederGenome::List(vec![
        NestedBreederGenome::Float(1),
        NestedBreederGenome::Float(6),
        NestedBreederGenome::Float(fixed(0.9)),
    ]);
    assert_eq!(breeder.mutate(&short).unwrap_list().len(), 2);
    assert_eq!(breeder.breed(&short, &long).unwrap_list().len(), 2);
    assert_eq!(breeder.random().unwrap_list().len(), 3);
    assert!(breeder.is_same(&short, &long));
    let off = NestedBreederGenome::List(vec![NestedBreederGenome::Float(fixed(0.5))]);
    assert!(!breeder.is_same(&off, &long));
}

#[test]
fn nested_genomes_unwrap_to_their_kind() {
    assert_eq!(*NestedBreederGenome::Float(7).unwrap_float(), 7);
    assert_eq!(*NestedBreederGenome::Vec(vec![1, 2]).unwrap_vec(), vec![1, 2]);
    assert_eq!(NestedBreederGenome::Network(NeatGenome::default()).unwrap_network().total_genes(), 0);
    assert_eq!(NestedBreederGenome::List(vec![]).unwrap_list().len(), 0);
    assert_eq!(NestedBreederGenome::Named(vec![]).unwrap_map().len(), 0);
}
