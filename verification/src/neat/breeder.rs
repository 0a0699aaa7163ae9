//! The breeder of graph genomes.
use vstd::prelude::*;
use super::gene::Gene;
use super::distance::{distance, lemma_distance_self};
use super::genes::{has_link, highest, sorted};
use super::genome::{
    NeatGenome, all_reweighted, connected, crossed, grown_from, initial, lemma_grown_on,
    lemma_inserted_len, lemma_operators_grow, lemma_split_len, lemma_toggled_len, one_rebiased,
    one_split, one_toggled,
};
use crate::breeder::Breeder;
use crate::fixed::UNIT;
use crate::utils::random;

verus! {

/// What a genome holds: its genes and the highest neuron id.
pub struct Shape {
    pub genes: Seq<Gene>,
    pub last: usize,
}

/// Whether a step that is taken with the chance `probability`, or in any
/// case when `forced`, can have led to what is seen: `applied` says that the
/// step's outcome is seen, `kept` that its input is.
pub open spec fn by_chance(probability: i64, forced: bool, applied: bool, kept: bool) -> bool {
    (applied && (forced || probability > 0)) || (kept && !forced && probability < UNIT)
}

/// Breeds graph genomes: the sizes of the first genome and the chance of
/// each mutation operator.
pub struct NeatBreeder {
    pub inputs: usize,
    pub outputs: usize,
    pub mutate_connection_weight: i64,
    pub mutate_add_connection: i64,
    pub mutate_add_neuron: i64,
    pub mutate_toggle_expression: i64,
    pub mutate_perturb_prob: i64,
    pub mutate_connection_bias: i64,
}

impl NeatBreeder {
    /// The shape of a genome.
    pub open spec fn shape(genome: &NeatGenome) -> Shape {
        Shape { genes: genome@, last: genome.last() }
    }

    /// First step of a mutation: two neurons are connected, with the chance
    /// `mutate_add_connection`, and in any case where there is no gene yet.
    pub open spec fn step_connection(&self, a: Shape, b: Shape) -> bool {
        by_chance(
            self.mutate_add_connection,
            a.genes.len() == 0,
            connected(a.genes, a.last, b.genes) && b.last == a.last,
            b == a,
        )
    }

    /// Second step: a neuron is put on a link, with the chance
    /// `mutate_add_neuron`. A genome whose neuron ids are used up stays as it
    /// is.
    pub open spec fn step_neuron(&self, a: Shape, b: Shape) -> bool {
        if a.last + 1 < usize::MAX {
            by_chance(
                self.mutate_add_neuron,
                false,
                one_split(a.genes, a.last, b.genes) && b.last == a.last + 1,
                b == a,
            )
        } else {
            b == a
        }
    }

    /// Third step: every weight is drawn anew, with the chance
    /// `mutate_connection_weight`.
    pub open spec fn step_weight(&self, a: Shape, b: Shape) -> bool {
        by_chance(
            self.mutate_connection_weight,
            false,
            all_reweighted(a.genes, b.genes, self.mutate_perturb_prob) && b.last == a.last,
            b == a,
        )
    }

    /// Fourth step: one gene is switched on or off, with the chance
    /// `mutate_toggle_expression`.
    pub open spec fn step_toggle(&self, a: Shape, b: Shape) -> bool {
        by_chance(
            self.mutate_toggle_expression,
            false,
            one_toggled(a.genes, b.genes) && b.last == a.last,
            b == a,
        )
    }

    /// Fifth step: one bias is drawn anew, with the chance
    /// `mutate_connection_bias`.
    pub open spec fn step_bias(&self, a: Shape, b: Shape) -> bool {
        by_chance(
            self.mutate_connection_bias,
            false,
            one_rebiased(a.genes, b.genes, self.mutate_perturb_prob) && b.last == a.last,
            b == a,
        )
    }

    /// Whether a mutation can lead from `a` to `e`: the five steps in their
    /// order, each working on what the one before left.
    pub open spec fn mutated(&self, a: Shape, e: Shape) -> bool {
        exists|b: Shape, c: Shape, d: Shape, f: Shape|
            {
                &&& #[trigger] self.step_connection(a, b)
                &&& #[trigger] self.step_neuron(b, c)
                &&& #[trigger] self.step_weight(c, d)
                &&& #[trigger] self.step_toggle(d, f)
                &&& self.step_bias(f, e)
            }
    }

    /// Whether `times` mutations in a row can lead from `a` to `e`.
    pub open spec fn mutated_times(&self, a: Shape, e: Shape, times: nat) -> bool
        decreases times,
    {
        if times == 0 {
            a == e
        } else {
            exists|m: Shape| #[trigger]
                self.mutated(a, m) && self.mutated_times(m, e, (times - 1) as nat)
        }
    }

    /// A breeder for genomes of the given sizes, with the usual chances.
    pub fn new(inputs: usize, outputs: usize) -> (breeder: Self)
        ensures
            breeder == (NeatBreeder { inputs, outputs, ..Self::usual() }),
    {
        let usual = NeatBreeder::default();
        NeatBreeder {
            inputs,
            outputs,
            mutate_connection_weight: usual.mutate_connection_weight,
            mutate_add_connection: usual.mutate_add_connection,
            mutate_add_neuron: usual.mutate_add_neuron,
            mutate_toggle_expression: usual.mutate_toggle_expression,
            mutate_perturb_prob: usual.mutate_perturb_prob,
            mutate_connection_bias: usual.mutate_connection_bias,
        }
    }

    /// The usual settings: two inputs, two outputs; weights change in nine
    /// mutations of ten, a bias in every other one, the structure in two of
    /// a hundred; nine changes of ten are perturbations.
    pub open spec fn usual() -> NeatBreeder {
        NeatBreeder {
            inputs: 2,
            outputs: 2,
            mutate_connection_weight: 900_000,
            mutate_connection_bias: 500_000,
            mutate_add_connection: 20_000,
            mutate_add_neuron: 20_000,
            mutate_toggle_expression: 20_000,
            mutate_perturb_prob: 900_000,
        }
    }
}

impl Default for NeatBreeder {
    fn default() -> (breeder: Self)
        ensures
            breeder == Self::usual(),
    {
        NeatBreeder {
            inputs: 2,
            outputs: 2,
            mutate_connection_weight: 900_000,
            mutate_connection_bias: 500_000,
            mutate_add_connection: 20_000,
            mutate_add_neuron: 20_000,
            mutate_toggle_expression: 20_000,
            mutate_perturb_prob: 900_000,
        }
    }
}

impl Breeder for NeatBreeder {
    type Genome = NeatGenome;

    /// The first genome must not use up the neuron ids.
    open spec fn wf(&self) -> bool {
        self.inputs + self.outputs < usize::MAX
    }

    open spec fn fits(&self, genome: &NeatGenome) -> bool {
        genome.wf()
    }

    /// Two genomes are of one species when their compatibility distance is
    /// below one.
    open spec fn same(&self, gene1: &NeatGenome, gene2: &NeatGenome) -> bool {
        distance(gene1@, gene2@) < UNIT
    }

    /// A mutation applies the mutation operators in their order, each with
    /// its chance: a connection (in any case when there is no gene), a
    /// neuron, the weights, a flag, a bias.
    open spec fn mutation(&self, gene: &NeatGenome, child: &NeatGenome) -> bool {
        self.mutated(Self::shape(gene), Self::shape(child))
    }

    /// The child of a crossing has the links of `gene1`, the fitter parent;
    /// a gene that `gene2` has too comes from either parent with equal
    /// chance. Genes that only `gene2` has are left out.
    open spec fn crossing(&self, gene1: &NeatGenome, gene2: &NeatGenome, child: &NeatGenome) -> bool {
        &&& crossed(gene1@, gene2@, child@)
        &&& child.last() == highest(gene1@)
    }

    /// A new genome is the fully connected genome of the breeder's sizes,
    /// mutated five times over.
    open spec fn fresh(&self, genome: &NeatGenome) -> bool {
        exists|first: Shape| #[trigger]
            initial(first.genes, self.inputs, self.outputs) && first.last == (if self.inputs > 0
                && self.outputs > 0 {
                (self.inputs + self.outputs - 1) as usize
            } else {
                0
            }) && self.mutated_times(first, Self::shape(genome), 5)
    }

    fn mutate(&self, gene: &NeatGenome) -> (child: NeatGenome) {
        let mut gene = gene.clone();
        let ghost a = Self::shape(&gene);
        if random() < self.mutate_add_connection || gene.total_genes() == 0 {
            gene.mutate_add_connection();
        }
        let ghost b = Self::shape(&gene);
        assert(self.step_connection(a, b));
        proof {
            lemma_inserted_len(a.genes, b.genes, a.last);
        }
        if random() < self.mutate_add_neuron && gene.last_neuron_id() < usize::MAX - 1 {
            gene.mutate_add_neuron();
        }
        let ghost c = Self::shape(&gene);
        assert(self.step_neuron(b, c));
        if random() < self.mutate_connection_weight {
            gene.mutate_connection_weight(self.mutate_perturb_prob);
        }
        let ghost d = Self::shape(&gene);
        assert(self.step_weight(c, d));
        proof {
            lemma_split_len(b.genes, c.genes, b.last);
        }
        if random() < self.mutate_toggle_expression {
            gene.mutate_toggle_expression();
        }
        let ghost f = Self::shape(&gene);
        assert(self.step_toggle(d, f));
        proof {
            lemma_toggled_len(d.genes, f.genes);
        }
        if random() < self.mutate_connection_bias {
            gene.mutate_bias(self.mutate_perturb_prob);
        }
        assert(self.step_bias(f, Self::shape(&gene)));
        gene
    }

    fn breed(&self, gene1: &NeatGenome, gene2: &NeatGenome) -> (child: NeatGenome)
        ensures
            forall|g: Gene| has_link(child@, g) <==> has_link(gene1@, g),
    {
        NeatGenome::cross(gene1, gene2)
    }

    fn random(&self) -> (genome: NeatGenome) {
        let mut g = NeatGenome::new_initialized(self.inputs, self.outputs);
        let ghost first = Self::shape(&g);
        let mut i: usize = 0;
        while i < 5
            invariant
                0 <= i <= 5,
                g.wf(),
                self.wf(),
                forall|e: Shape| #[trigger]
                    self.mutated_times(Self::shape(&g), e, (5 - i) as nat) ==> self.mutated_times(
                        first,
                        e,
                        5,
                    ),
            decreases 5 - i,
        {
            let ghost here = Self::shape(&g);
            let next = self.mutate(&g);
            proof {
                assert forall|e: Shape| #[trigger]
                    self.mutated_times(Self::shape(&next), e, (5 - (i + 1)) as nat) implies self.mutated_times(
                    first,
                    e,
                    5,
                ) by {
                    assert(self.mutated(here, Self::shape(&next)));
                    assert(self.mutated_times(here, e, (5 - i) as nat));
                }
            }
            g = next;
            i += 1;
        }
        proof {
            let e = Self::shape(&g);
            assert(self.mutated_times(e, e, (5 - i) as nat));
            assert(self.mutated_times(first, e, 5));
            assert(initial(first.genes, self.inputs, self.outputs));
        }
        g
    }

    fn is_same(&self, gene1: &NeatGenome, gene2: &NeatGenome) -> (r: bool) {
        gene1.compatibility_distance(gene2) < UNIT
    }

    proof fn fits_cloned(&self, source: NeatGenome, copy: NeatGenome) {
    }
}

/// A mutation only adds to a genome: what comes of it is sorted and has a
/// gene, keeps every link that was there, is no shorter, and its last neuron
/// id is the old one or the next.
pub proof fn law_mutation_keeps(breeder: NeatBreeder, a: Shape, e: Shape)
    requires
        sorted(a.genes),
        breeder.mutated(a, e),
    ensures
        grown_from(a.genes, e.genes),
        e.genes.len() > 0,
        e.last == a.last || e.last == a.last + 1,
{
    let (b, c, d, f) = choose|b: Shape, c: Shape, d: Shape, f: Shape|
        {
            &&& #[trigger] breeder.step_connection(a, b)
            &&& #[trigger] breeder.step_neuron(b, c)
            &&& #[trigger] breeder.step_weight(c, d)
            &&& #[trigger] breeder.step_toggle(d, f)
            &&& breeder.step_bias(f, e)
        };
    if b != a {
        lemma_operators_grow(a.genes, a.last, b.genes, 0);
    }
    lemma_inserted_len(a.genes, b.genes, a.last);
    if c != b {
        lemma_operators_grow(b.genes, b.last, c.genes, 0);
    }
    lemma_grown_on(a.genes, b.genes, c.genes);
    if d != c {
        lemma_operators_grow(c.genes, c.last, d.genes, breeder.mutate_perturb_prob);
    }
    lemma_grown_on(a.genes, c.genes, d.genes);
    if f != d {
        lemma_operators_grow(d.genes, d.last, f.genes, 0);
    }
    lemma_grown_on(a.genes, d.genes, f.genes);
    if e != f {
        lemma_operators_grow(f.genes, f.last, e.genes, breeder.mutate_perturb_prob);
    }
    lemma_grown_on(a.genes, f.genes, e.genes);
}

/// Every genome is of its own species.
pub proof fn is_same_reflexive(breeder: NeatBreeder, genome: NeatGenome)
    requires
        genome.wf(),
    ensures
        breeder.same(&genome, &genome),
{
    lemma_distance_self(genome@);
}

} // verus!
