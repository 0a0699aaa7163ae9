use evo::breeder::Breeder;
use evo::fixed::UNIT;
use evo::neat::breeder::NeatBreeder;
use evo::neat::gene::Gene;
use evo::neat::genome::NeatGenome;
use evo::neat::mutation::Mutation;
use evo::neat::network::NeatNetwork;
use std::cmp::Ordering;

fn g(n_in: usize, n_out: usize) -> Gene {
    Gene::new(n_in, n_out, 250_000, true, 0)
}

fn genome_of(genes: Vec<Gene>) -> NeatGenome {
    let mut genome = NeatGenome::default();
    for gene in genes {
        assert!(genome.accepts(&gene));
        genome.add_gene(gene);
    }
    genome
}

fn links(genome: &NeatGenome) -> Vec<(usize, usize)> {
    genome.get_genes().iter().map(|gene| (gene.in_neuron_id, gene.out_neuron_id)).collect()
}

fn strictly_sorted(genome: &NeatGenome) -> bool {
    let all = links(genome);
    all.windows(2).all(|pair| pair[0] < pair[1])
}

#[test]
fn should_be_able_to_binary_search_for_a_gene() {
    let genome = genome_of(vec![g(0, 1), g(0, 2), g(3, 2), g(2, 3), g(1, 5)]);
    assert_eq!(genome.search(&g(0, 1)), Ok(0));
    assert_eq!(genome.search(&g(0, 2)), Ok(1));
    assert_eq!(genome.search(&g(1, 5)), Ok(2));
    assert_eq!(genome.search(&g(2, 3)), Ok(3));
    assert_eq!(genome.search(&g(3, 2)), Ok(4));
}

#[test]
fn search_says_where_a_missing_gene_would_stand() {
    let genome = genome_of(vec![g(0, 1), g(0, 3), g(2, 0)]);
    assert_eq!(genome.search(&g(0, 0)), Err(0));
    assert_eq!(genome.search(&g(0, 2)), Err(1));
    assert_eq!(genome.search(&g(1, 9)), Err(2));
    assert_eq!(genome.search(&g(2, 1)), Err(3));
    assert_eq!(NeatGenome::default().search(&g(0, 0)), Err(0));
}

#[test]
fn mutate_toggle_gene_should_toggle() {
    let mut gene = Gene::new(0, 1, UNIT, false, 0);

    <dyn Mutation>::toggle_expression(&mut gene);
    assert!(gene.enabled);

    <dyn Mutation>::toggle_expression(&mut gene);
    assert!(!gene.enabled);
}

#[test]
fn genes_compare_by_their_links_only() {
    let a = Gene::new(1, 2, 5, true, 7);
    let b = Gene::new(1, 2, -9, false, 0);
    let c = Gene::new(1, 3, 5, true, 7);
    let d = Gene::new(0, 9, 5, true, 7);
    assert!(a == b);
    assert!(a != c);
    assert_eq!(a.cmp(&b), Ordering::Equal);
    assert_eq!(a.cmp(&c), Ordering::Less);
    assert_eq!(c.cmp(&a), Ordering::Greater);
    assert_eq!(a.cmp(&d), Ordering::Greater);
    assert_eq!(d.cmp(&a), Ordering::Less);
    assert_eq!(a.partial_cmp(&c), Some(Ordering::Less));
    assert!(d < a);
}

#[test]
fn gene_constructors() {
    let gene = Gene::new(3, 4, 17, false, -2);
    assert_eq!((gene.in_neuron_id, gene.out_neuron_id, gene.weight, gene.enabled, gene.bias), (3, 4, 17, false, -2));
    let link = Gene::new_connection(5, 6);
    assert_eq!((link.in_neuron_id, link.out_neuron_id, link.enabled, link.bias), (5, 6, true, 0));
    assert!(-UNIT <= link.weight && link.weight < UNIT);
    let usual = Gene::default();
    assert_eq!((usual.in_neuron_id, usual.out_neuron_id, usual.enabled, usual.bias), (1, 1, true, 0));
    assert!(-UNIT <= usual.weight && usual.weight < UNIT);
    let mut flipped = gene;
    flipped.toggle();
    assert!(flipped.enabled);
    assert_eq!(flipped.weight, 17);
}

#[test]
fn generated_weights_lie_between_minus_one_and_one_and_vary() {
    let mut seen = Vec::new();
    for _ in 0..200 {
        let w = Gene::generate_weight();
        assert!(-UNIT <= w && w < UNIT);
        assert_eq!(w % 2, 0);
        if !seen.contains(&w) {
            seen.push(w);
        }
    }
    assert!(seen.len() > 1);
}

#[test]
fn a_link_that_is_inserted_twice_is_stored_once() {
    let mut genome = NeatGenome::default();
    genome.add_gene(Gene::new(0, 1, 100, true, 5));
    genome.add_gene(Gene::new(0, 1, 900, true, 9));
    assert_eq!(genome.total_genes(), 1);
    let stored = genome.get_genes()[0];
    assert!(stored.enabled);
    assert_eq!(stored.weight, 100);
    assert_eq!(stored.bias, 5);
}

#[test]
fn a_link_inserted_twice_is_enabled_if_either_gene_is() {
    for (first, second) in vec![(false, false), (false, true), (true, false), (true, true)] {
        let mut genome = NeatGenome::default();
        genome.add_gene(Gene::new(0, 1, 100, first, 0));
        genome.add_gene(Gene::new(0, 1, 200, second, 0));
        assert_eq!(genome.total_genes(), 1);
        assert_eq!(genome.get_genes()[0].enabled, first || second);
    }
}

#[test]
fn insertions_keep_the_genes_sorted_and_searchable() {
    let order = vec![(4, 4), (0, 3), (2, 1), (0, 0), (3, 3), (1, 4), (0, 3), (4, 0), (2, 2), (1, 1), (2, 1)];
    let mut genome = NeatGenome::default();
    genome.add_gene(g(0, 4));
    for (a, b) in order.iter() {
        let gene = g(*a, *b);
        assert!(genome.accepts(&gene));
        genome.add_gene(gene);
        assert!(strictly_sorted(&genome));
    }
    assert_eq!(genome.total_genes(), 10);
    for (a, b) in order.iter() {
        let place = genome.search(&g(*a, *b)).unwrap();
        assert_eq!(links(&genome)[place], (*a, *b));
    }
    assert_eq!(genome.last_neuron_id(), 4);
}

#[test]
fn add_gene_raises_the_last_neuron_id() {
    let mut genome = NeatGenome::default();
    assert_eq!(genome.last_neuron_id(), 0);
    assert_eq!(genome.len(), 1);
    assert!(!genome.is_empty());
    genome.add_gene(g(0, 7));
    assert_eq!(genome.last_neuron_id(), 7);
    genome.add_gene(g(3, 2));
    assert_eq!(genome.last_neuron_id(), 7);
    genome.add_gene(g(9, 2));
    assert_eq!(genome.last_neuron_id(), 9);
    assert_eq!(genome.len(), 10);
}

#[test]
fn a_self_link_on_a_neuron_that_is_not_there_is_not_accepted() {
    let genome = genome_of(vec![g(0, 1)]);
    assert!(genome.accepts(&g(0, 0)));
    assert!(genome.accepts(&g(1, 1)));
    assert!(!genome.accepts(&g(2, 2)));
    assert!(!genome.accepts(&g(3, 3)));
    assert!(NeatGenome::default().accepts(&g(0, 0)));
    assert!(!NeatGenome::default().accepts(&g(1, 1)));
    assert!(genome.accepts(&g(3, 7)));
    assert!(!genome.accepts(&g(usize::MAX, 0)));
}

#[test]
fn new_initialized_connects_every_input_to_every_output() {
    let genome = NeatGenome::new_initialized(2, 3);
    assert_eq!(genome.last_neuron_id(), 4);
    assert_eq!(genome.total_genes(), 6);
    assert_eq!(genome.len(), 5);
    assert_eq!(links(&genome), vec![(0, 2), (0, 3), (0, 4), (1, 2), (1, 3), (1, 4)]);
    for gene in genome.get_genes() {
        assert!(gene.enabled);
        assert_eq!(gene.bias, 0);
        assert!(-UNIT <= gene.weight && gene.weight < UNIT);
    }
    assert_eq!(NeatGenome::new_initialized(0, 3).total_genes(), 0);
    assert_eq!(NeatGenome::new_initialized(0, 3).last_neuron_id(), 0);
    assert_eq!(NeatGenome::new_initialized(3, 0).total_genes(), 0);
}

#[test]
fn mutate_add_neuron_splits_the_only_gene() {
    let w = 730_000;
    let mut genome = genome_of(vec![Gene::new(0, 1, w, true, 0)]);
    genome.mutate_add_neuron();
    assert_eq!(genome.last_neuron_id(), 2);
    let genes = genome.get_genes();
    assert_eq!(genes.len(), 3);
    assert_eq!(links(&genome), vec![(0, 1), (0, 2), (2, 1)]);
    assert!(!genes[0].enabled);
    assert_eq!(genes[0].weight, w);
    assert!(genes[1].enabled);
    assert_eq!(genes[1].weight, UNIT);
    assert_eq!(genes[1].bias, 0);
    assert!(genes[2].enabled);
    assert_eq!(genes[2].weight, w);
    assert_eq!(genes[2].bias, 0);
}

#[test]
fn split_gene_puts_a_neuron_on_the_chosen_link() {
    let mut genome = genome_of(vec![Gene::new(0, 1, 10, true, 0), Gene::new(1, 2, 20, true, 3)]);
    genome.split_gene(1);
    assert_eq!(genome.last_neuron_id(), 3);
    assert_eq!(links(&genome), vec![(0, 1), (1, 2), (1, 3), (3, 2)]);
    let genes = genome.get_genes();
    assert!(genes[0].enabled);
    assert!(!genes[1].enabled);
    assert_eq!(genes[1].bias, 3);
    assert_eq!((genes[2].weight, genes[2].enabled), (UNIT, true));
    assert_eq!((genes[3].weight, genes[3].enabled), (20, true));
}

#[test]
fn add_neuron_operator_returns_the_two_halves() {
    let mut gene = Gene::new(4, 6, -300, true, 11);
    let (first, second) = <dyn Mutation>::add_neuron(&mut gene, 9);
    assert!(!gene.enabled);
    assert_eq!((first.in_neuron_id, first.out_neuron_id, first.weight, first.enabled, first.bias), (4, 9, UNIT, true, 0));
    assert_eq!((second.in_neuron_id, second.out_neuron_id, second.weight, second.enabled, second.bias), (9, 6, -300, true, 0));
}

#[test]
fn weight_and_bias_operators_perturb_or_replace() {
    for _ in 0..50 {
        let mut gene = Gene::new(0, 1, 40 * UNIT, true, -40 * UNIT);
        <dyn Mutation>::connection_weight(&mut gene, true);
        assert!(39 * UNIT <= gene.weight && gene.weight <= 41 * UNIT);
        <dyn Mutation>::connection_weight(&mut gene, false);
        assert!(-UNIT <= gene.weight && gene.weight < UNIT);
        <dyn Mutation>::connection_bias(&mut gene, true);
        assert!(-41 * UNIT <= gene.bias && gene.bias <= -39 * UNIT);
        <dyn Mutation>::connection_bias(&mut gene, false);
        assert!(-UNIT <= gene.bias && gene.bias <= UNIT);
        assert_eq!((gene.in_neuron_id, gene.out_neuron_id, gene.enabled), (0, 1, true));
    }
    let link = <dyn Mutation>::add_connection(7, 8);
    assert_eq!((link.in_neuron_id, link.out_neuron_id, link.enabled, link.bias), (7, 8, true, 0));
}

#[test]
fn renew_adds_with_saturation() {
    assert_eq!(evo::neat::mutation::renew(10, 5, true), 15);
    assert_eq!(evo::neat::mutation::renew(10, 5, false), 5);
    assert_eq!(evo::neat::mutation::renew(i64::MAX, 5, true), i64::MAX);
    assert_eq!(evo::neat::mutation::renew(i64::MIN, -5, true), i64::MIN);
}

#[test]
fn mutate_connection_weight_draws_every_weight_anew() {
    let mut genome = genome_of(vec![Gene::new(0, 1, 50 * UNIT, true, 0), Gene::new(0, 2, -50 * UNIT, false, 4)]);
    genome.mutate_connection_weight(UNIT);
    assert_eq!(links(&genome), vec![(0, 1), (0, 2)]);
    assert!(49 * UNIT <= genome.get_genes()[0].weight && genome.get_genes()[0].weight <= 51 * UNIT);
    assert!(-51 * UNIT <= genome.get_genes()[1].weight && genome.get_genes()[1].weight <= -49 * UNIT);
    genome.mutate_connection_weight(0);
    for gene in genome.get_genes() {
        assert!(-UNIT <= gene.weight && gene.weight < UNIT);
    }
    assert!(!genome.get_genes()[1].enabled);
    assert_eq!(genome.get_genes()[1].bias, 4);
}

#[test]
fn mutate_toggle_expression_flips_one_flag() {
    let mut genome = genome_of(vec![g(0, 1), g(0, 2), g(1, 2)]);
    genome.mutate_toggle_expression();
    let off = genome.get_genes().iter().filter(|gene| !gene.enabled).count();
    assert_eq!(off, 1);
    let mut single = genome_of(vec![g(0, 1)]);
    single.mutate_toggle_expression();
    assert!(!single.get_genes()[0].enabled);
    single.toggle_gene(0);
    assert!(single.get_genes()[0].enabled);
}

#[test]
fn mutate_bias_changes_one_bias() {
    let mut genome = genome_of(vec![Gene::new(0, 1, 5, true, 30 * UNIT), Gene::new(0, 2, 6, true, 30 * UNIT)]);
    genome.mutate_bias(0);
    let changed: Vec<&Gene> = genome.get_genes().iter().filter(|gene| gene.bias != 30 * UNIT).collect();
    assert_eq!(changed.len(), 1);
    assert!(-UNIT <= changed[0].bias && changed[0].bias <= UNIT);
    assert_eq!(genome.get_genes()[0].weight, 5);
    assert_eq!(genome.get_genes()[1].weight, 6);
}

#[test]
fn mutate_add_connection_connects_neurons_in_use() {
    let mut empty = NeatGenome::default();
    empty.mutate_add_connection();
    assert_eq!(links(&empty), vec![(0, 0)]);
    assert_eq!(empty.last_neuron_id(), 0);
    for _ in 0..50 {
        let mut genome = genome_of(vec![g(0, 3)]);
        genome.mutate_add_connection();
        assert!(strictly_sorted(&genome));
        assert_eq!(genome.last_neuron_id(), 3);
        assert!(genome.total_genes() == 1 || genome.total_genes() == 2);
        for (a, b) in links(&genome) {
            assert!(a <= 3 && b <= 3);
        }
    }
    let mut genome = genome_of(vec![g(0, 3)]);
    genome.add_connection(2, 1);
    assert_eq!(links(&genome), vec![(0, 3), (2, 1)]);
    assert!(genome.get_genes()[1].enabled);
}

#[test]
fn total_weights_adds_up() {
    let genome = genome_of(vec![Gene::new(0, 1, 250_000, true, 0), Gene::new(0, 2, -1_000_000, false, 0), Gene::new(1, 2, 3, true, 0)]);
    assert_eq!(genome.total_weights(), -749_997);
    assert_eq!(NeatGenome::default().total_weights(), 0);
    let big = genome_of(vec![Gene::new(0, 1, i64::MAX, true, 0), Gene::new(0, 2, i64::MAX, true, 0)]);
    assert_eq!(big.total_weights(), i64::MAX);
}

#[test]
fn compatibility_distance_follows_the_formula() {
    let a = genome_of(vec![Gene::new(0, 1, UNIT, true, 0), Gene::new(0, 2, 500_000, true, 0)]);
    let b = genome_of(vec![Gene::new(0, 1, 0, true, 0)]);
    assert_eq!(a.compatibility_distance(&b), 700_000);
    assert_eq!(b.compatibility_distance(&a), 700_000);
    let none = NeatGenome::default();
    assert_eq!(none.compatibility_distance(&NeatGenome::default()), 0);
    assert_eq!(a.compatibility_distance(&none), 1_200_000);
    let c = genome_of(vec![Gene::new(5, 1, UNIT, true, 0), Gene::new(5, 2, UNIT, true, 0), Gene::new(5, 3, UNIT, true, 0)]);
    assert_eq!(a.compatibility_distance(&c), 1_866_666);
}

#[test]
fn every_genome_is_of_its_own_species() {
    let breeder = NeatBreeder::new(3, 2);
    assert!(breeder.is_same(&NeatGenome::default(), &NeatGenome::default()));
    let fixed = genome_of(vec![Gene::new(0, 1, i64::MAX, true, 0), Gene::new(2, 1, i64::MIN, false, 0)]);
    assert!(breeder.is_same(&fixed, &fixed));
    assert_eq!(fixed.compatibility_distance(&fixed), 0);
    for _ in 0..20 {
        let genome = breeder.random();
        assert!(breeder.is_same(&genome, &genome));
    }
}

#[test]
fn species_are_told_apart_by_weights_and_topology() {
    let breeder = NeatBreeder::default();
    let a = genome_of(vec![Gene::new(0, 2, 100_000, true, 0), Gene::new(1, 2, -200_000, true, 0)]);
    let near = genome_of(vec![Gene::new(0, 2, 150_000, true, 0), Gene::new(1, 2, -350_000, true, 0)]);
    assert_eq!(a.compatibility_distance(&near), 20_000);
    assert!(breeder.is_same(&a, &near));
    let far = genome_of(vec![Gene::new(0, 2, 6 * UNIT, true, 0), Gene::new(1, 2, -5 * UNIT, true, 0)]);
    assert_eq!(a.compatibility_distance(&far), 1_070_000);
    assert!(!breeder.is_same(&a, &far));
    let edge = genome_of(vec![Gene::new(0, 2, 5_100_000, true, 0), Gene::new(1, 2, 4_800_000, true, 0)]);
    assert_eq!(a.compatibility_distance(&edge), UNIT);
    assert!(!breeder.is_same(&a, &edge));
    let below = genome_of(vec![Gene::new(0, 2, 5_100_000, true, 0), Gene::new(1, 2, 4_799_998, true, 0)]);
    assert_eq!(a.compatibility_distance(&below), 999_999);
    assert!(breeder.is_same(&a, &below));
    let other = genome_of(vec![Gene::new(0, 3, 100_000, true, 0), Gene::new(1, 3, -200_000, true, 0)]);
    assert_eq!(a.compatibility_distance(&other), 2_200_000);
    assert!(!breeder.is_same(&a, &other));
}

#[test]
fn crossing_never_takes_a_link_from_the_second_parent() {
    let a1 = Gene::new(0, 1, 111, true, 1);
    let b1 = Gene::new(0, 2, 222, true, 2);
    let a2 = Gene::new(0, 1, 999, false, 9);
    let c2 = Gene::new(1, 2, 888, true, 8);
    let g1 = genome_of(vec![a1, b1]);
    let g2 = genome_of(vec![a2, c2]);
    let breeder = NeatBreeder::default();
    let mut from_first = false;
    let mut from_second = false;
    for _ in 0..200 {
        let child = breeder.breed(&g1, &g2);
        assert_eq!(links(&child), vec![(0, 1), (0, 2)]);
        let a = child.get_genes()[0];
        let b = child.get_genes()[1];
        assert_eq!((b.weight, b.enabled, b.bias), (222, true, 2));
        if (a.weight, a.enabled, a.bias) == (111, true, 1) {
            from_first = true;
        } else {
            assert_eq!((a.weight, a.enabled, a.bias), (999, false, 9));
            from_second = true;
        }
        assert_eq!(child.last_neuron_id(), 2);
    }
    assert!(from_first && from_second);
}

#[test]
fn cross_by_follows_the_coins() {
    let g1 = genome_of(vec![Gene::new(0, 1, 1, true, 0), Gene::new(0, 2, 2, true, 0), Gene::new(3, 0, 3, true, 0)]);
    let g2 = genome_of(vec![Gene::new(0, 1, 10, true, 0), Gene::new(3, 0, 30, false, 0), Gene::new(0, 9, 90, true, 0), Gene::new(4, 4, 40, true, 0)]);
    let child = NeatGenome::cross_by(&g1, &g2, &vec![false, false, true]);
    let weights: Vec<i64> = child.get_genes().iter().map(|gene| gene.weight).collect();
    assert_eq!(weights, vec![10, 2, 3]);
    assert_eq!(child.last_neuron_id(), 3);
    let child = NeatGenome::cross_by(&g1, &g2, &vec![true, true, false]);
    let weights: Vec<i64> = child.get_genes().iter().map(|gene| gene.weight).collect();
    assert_eq!(weights, vec![1, 2, 30]);
    assert!(!child.get_genes()[2].enabled);
    let none = NeatGenome::cross_by(&NeatGenome::default(), &g2, &vec![]);
    assert_eq!(none.total_genes(), 0);
    assert_eq!(none.last_neuron_id(), 0);
}

#[test]
fn breeder_settings() {
    let usual = NeatBreeder::default();
    assert_eq!((usual.inputs, usual.outputs), (2, 2));
    assert_eq!(usual.mutate_connection_weight, 900_000);
    assert_eq!(usual.mutate_connection_bias, 500_000);
    assert_eq!(usual.mutate_add_connection, 20_000);
    assert_eq!(usual.mutate_add_neuron, 20_000);
    assert_eq!(usual.mutate_toggle_expression, 20_000);
    assert_eq!(usual.mutate_perturb_prob, 900_000);
    let sized = NeatBreeder::new(5, 3);
    assert_eq!((sized.inputs, sized.outputs), (5, 3));
    assert_eq!(sized.mutate_connection_weight, 900_000);
}

fn breeder_with(chance: i64) -> NeatBreeder {
    NeatBreeder {
        inputs: 2,
        outputs: 1,
        mutate_connection_weight: chance,
        mutate_add_connection: chance,
        mutate_add_neuron: chance,
        mutate_toggle_expression: chance,
        mutate_perturb_prob: chance,
        mutate_connection_bias: chance,
    }
}

#[test]
fn a_mutation_without_chances_changes_nothing_but_an_empty_genome() {
    let breeder = breeder_with(0);
    let genome = genome_of(vec![Gene::new(0, 2, 5, true, 1), Gene::new(1, 2, 6, false, 2)]);
    let child = breeder.mutate(&genome);
    assert_eq!(links(&child), links(&genome));
    for (a, b) in child.get_genes().iter().zip(genome.get_genes()) {
        assert_eq!((a.weight, a.enabled, a.bias), (b.weight, b.enabled, b.bias));
    }
    let child = breeder.mutate(&NeatGenome::default());
    assert_eq!(links(&child), vec![(0, 0)]);
}

#[test]
fn a_mutation_with_every_chance_applies_every_operator() {
    let breeder = breeder_with(UNIT);
    for _ in 0..30 {
        let genome = genome_of(vec![Gene::new(0, 2, 70 * UNIT, true, 0)]);
        let child = breeder.mutate(&genome);
        assert!(strictly_sorted(&child));
        assert_eq!(child.last_neuron_id(), 3);
        assert!(child.total_genes() == 3 || child.total_genes() == 4);
        assert!(child.search(&g(0, 2)).is_ok());
        let id = 3;
        let into = child.get_genes().iter().filter(|gene| gene.out_neuron_id == id && gene.in_neuron_id != id).count();
        let out_of = child.get_genes().iter().filter(|gene| gene.in_neuron_id == id && gene.out_neuron_id != id).count();
        assert_eq!((into, out_of), (1, 1));
    }
}

#[test]
fn a_random_genome_has_the_first_genome_in_it() {
    let breeder = NeatBreeder::new(2, 1);
    for _ in 0..30 {
        let genome = breeder.random();
        assert!(strictly_sorted(&genome));
        assert!(genome.total_genes() >= 2);
        assert!(genome.search(&g(0, 2)).is_ok());
        assert!(genome.search(&g(1, 2)).is_ok());
        assert!(genome.last_neuron_id() >= 2 && genome.last_neuron_id() <= 7);
        for gene in genome.get_genes() {
            assert!(gene.in_neuron_id <= genome.last_neuron_id());
            assert!(gene.out_neuron_id <= genome.last_neuron_id());
        }
    }
}

#[test]
fn a_clone_has_the_same_genes() {
    let genome = genome_of(vec![Gene::new(0, 2, 5, true, 1), Gene::new(1, 2, 6, false, 2)]);
    let copy = genome.clone();
    assert_eq!(links(&copy), links(&genome));
    assert_eq!(copy.last_neuron_id(), genome.last_neuron_id());
    assert_eq!(copy.get_genes()[1].weight, 6);
}

#[test]
fn a_network_keeps_its_genome_and_species() {
    let network = NeatNetwork::random(2, 2);
    assert_eq!(network.species, -1);
    assert_eq!(network.genome.total_genes(), 4);
    let genome = genome_of(vec![g(0, 1)]);
    let network = NeatNetwork::new(genome.clone());
    assert_eq!(network.species, -1);
    assert_eq!(links(&network.genome), vec![(0, 1)]);
    let network = NeatNetwork::from((7, genome.clone()));
    assert_eq!(network.species, 7);
    let network: NeatNetwork = genome.into();
    assert_eq!(network.species, -1);
    let copy = network.clone();
    let back: NeatGenome = network.into();
    assert_eq!(links(&back), vec![(0, 1)]);
    assert_eq!(links(&copy.genome), vec![(0, 1)]);
}

#[test]
fn a_network_lays_out_weights_and_biases() {
    let genome = genome_of(vec![
        Gene::new(0, 2, 11, true, 0),
        Gene::new(1, 2, 22, false, 5),
        Gene::new(2, 0, 33, true, -1),
        Gene::new(2, 2, 44, true, 0),
        Gene::new(1, 0, 55, true, 9),
    ]);
    let network = NeatNetwork::new(genome);
    assert_eq!(network.get_weights(), vec![0, 55, 33, 0, 0, 0, 11, 0, 44]);
    assert_eq!(network.get_bias(), vec![0, 2 * UNIT, UNIT]);
}
