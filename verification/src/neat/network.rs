//! The network: a genome together with the species it was pulled under.
use vstd::prelude::*;
use vstd::std_specs::convert::FromSpecImpl;
use super::gene::Gene;
use super::genome::NeatGenome;
use crate::fixed::{UNIT, sat};

verus! {

/// The weight that the genes put on the cell `cell` of a square matrix of
/// side `side`: that of the last enabled gene whose link is the cell, the
/// row being the target neuron and the column the source; zero without one.
pub open spec fn weight_at(genes: Seq<Gene>, side: int, cell: int) -> i64
    decreases genes.len(),
{
    if genes.len() == 0 {
        0
    } else if genes.last().enabled && genes.last().out_neuron_id * side + genes.last().in_neuron_id
        == cell {
        genes.last().weight
    } else {
        weight_at(genes.drop_last(), side, cell)
    }
}

/// The bias of the neuron `neuron`: one for every gene that leaves it and
/// carries a bias.
pub open spec fn bias_at(genes: Seq<Gene>, neuron: int) -> i64
    decreases genes.len(),
{
    if genes.len() == 0 {
        0
    } else {
        let rest = bias_at(genes.drop_last(), neuron);
        if genes.last().bias != 0 && genes.last().in_neuron_id == neuron {
            sat(rest + UNIT)
        } else {
            rest
        }
    }
}

/// A list of `n` zeros.
pub fn zeros(n: usize) -> (list: Vec<i64>)
    ensures
        list@.len() == n,
        forall|i: int| 0 <= i < n ==> list@[i] == 0,
{
    let mut list: Vec<i64> = Vec::with_capacity(n);
    let mut i: usize = 0;
    while i < n
        invariant
            0 <= i <= n,
            list@.len() == i,
            forall|k: int| 0 <= k < i ==> list@[k] == 0,
        decreases n - i,
    {
        list.push(0);
        i += 1;
    }
    list
}

/// An network is a NeatGenome with the id of its species.
#[derive(Debug)]
pub struct NeatNetwork {
    pub genome: NeatGenome,
    pub species: i32,
}

impl Clone for NeatNetwork {
    fn clone(&self) -> (copy: NeatNetwork)
        ensures
            copy.genome@ == self.genome@,
            copy.genome.last() == self.genome.last(),
            copy.species == self.species,
    {
        NeatNetwork { genome: self.genome.clone(), species: self.species }
    }
}

impl NeatNetwork {
    /// Create a new organmism form a single genome.
    pub fn new(genome: NeatGenome) -> (network: NeatNetwork)
        ensures
            network.genome == genome,
            network.species == -1,
    {
        NeatNetwork { species: -1, genome }
    }

    /// The network of the fully connected genome.
    pub fn random(inputs: usize, outputs: usize) -> (network: NeatNetwork)
        requires
            inputs + outputs < usize::MAX,
        ensures
            network.species == -1,
            network.genome.wf(),
            crate::neat::genome::initial(network.genome@, inputs, outputs),
    {
        NeatNetwork { species: -1, genome: NeatGenome::new_initialized(inputs, outputs) }
    }

    /// The weights as a square matrix, row by row: the weight of an enabled
    /// gene stands in the row of its target and the column of its source.
    pub fn get_weights(&self) -> (matrix: Vec<i64>)
        requires
            self.genome.wf(),
            (self.genome.last() + 1) * (self.genome.last() + 1) <= usize::MAX,
        ensures
            matrix@.len() == (self.genome.last() + 1) * (self.genome.last() + 1),
            forall|cell: int|
                0 <= cell < matrix@.len() ==> #[trigger] matrix@[cell] == weight_at(
                    self.genome@,
                    self.genome.last() + 1,
                    cell,
                ),
    {
        let neurons_len: usize = self.genome.len();
        let genes = self.genome.get_genes();
        let mut matrix = zeros(neurons_len * neurons_len);
        let n: usize = genes.len();
        let mut i: usize = 0;
        while i < n
            invariant
                0 <= i <= n,
                n == genes@.len(),
                genes@ == self.genome@,
                self.genome.wf(),
                neurons_len == self.genome.last() + 1,
                neurons_len * neurons_len <= usize::MAX,
                matrix@.len() == neurons_len * neurons_len,
                forall|cell: int|
                    0 <= cell < matrix@.len() ==> #[trigger] matrix@[cell] == weight_at(
                        genes@.take(i as int),
                        neurons_len as int,
                        cell,
                    ),
            decreases n - i,
        {
            let gene: Gene = genes[i];
            proof {
                assert(genes@.take(i + 1).drop_last() =~= genes@.take(i as int));
                assert(self.genome@[i as int].in_neuron_id <= self.genome.last());
                let o = gene.out_neuron_id as int;
                let a = gene.in_neuron_id as int;
                let s = neurons_len as int;
                assert(0 <= o * s + a < s * s) by (nonlinear_arith)
                    requires
                        0 <= o < s,
                        0 <= a < s,
                ;
            }
            if gene.enabled {
                matrix[gene.out_neuron_id * neurons_len + gene.in_neuron_id] = gene.weight;
            }
            i += 1;
        }
        proof {
            assert(genes@.take(n as int) =~= genes@);
        }
        matrix
    }

    /// The bias of every neuron: one for each gene that leaves it and
    /// carries a bias.
    pub fn get_bias(&self) -> (list: Vec<i64>)
        requires
            self.genome.wf(),
        ensures
            list@.len() == self.genome.last() + 1,
            forall|neuron: int|
                0 <= neuron < list@.len() ==> #[trigger] list@[neuron] == bias_at(
                    self.genome@,
                    neuron,
                ),
    {
        let neurons_len: usize = self.genome.len();
        let genes = self.genome.get_genes();
        let mut list = zeros(neurons_len);
        let n: usize = genes.len();
        let mut i: usize = 0;
        while i < n
            invariant
                0 <= i <= n,
                n == genes@.len(),
                genes@ == self.genome@,
                self.genome.wf(),
                neurons_len == self.genome.last() + 1,
                list@.len() == neurons_len,
                forall|neuron: int|
                    0 <= neuron < list@.len() ==> #[trigger] list@[neuron] == bias_at(
                        genes@.take(i as int),
                        neuron,
                    ),
            decreases n - i,
        {
            let gene: Gene = genes[i];
            proof {
                assert(genes@.take(i + 1).drop_last() =~= genes@.take(i as int));
                assert(self.genome@[i as int].in_neuron_id <= self.genome.last());
            }
            if gene.bias != 0 {
                let now: i64 = list[gene.in_neuron_id];
                list[gene.in_neuron_id] = crate::fixed::fx_add(now, UNIT);
            }
            i += 1;
        }
        proof {
            assert(genes@.take(n as int) =~= genes@);
        }
        list
    }
}

/// Convert from a tuple
impl From<(i32, NeatGenome)> for NeatNetwork {
    fn from(pair: (i32, NeatGenome)) -> (network: Self) {
        Self { species: pair.0, genome: pair.1 }
    }
}

impl FromSpecImpl<(i32, NeatGenome)> for NeatNetwork {
    open spec fn obeys_from_spec() -> bool {
        true
    }

    open spec fn from_spec(pair: (i32, NeatGenome)) -> Self {
        NeatNetwork { species: pair.0, genome: pair.1 }
    }
}

impl From<NeatGenome> for NeatNetwork {
    fn from(g: NeatGenome) -> (network: Self) {
        Self { species: -1, genome: g }
    }
}

impl FromSpecImpl<NeatGenome> for NeatNetwork {
    open spec fn obeys_from_spec() -> bool {
        true
    }

    open spec fn from_spec(g: NeatGenome) -> Self {
        NeatNetwork { species: -1i32, genome: g }
    }
}

impl From<NeatNetwork> for NeatGenome {
    fn from(val: NeatNetwork) -> (genome: Self) {
        val.genome
    }
}

impl FromSpecImpl<NeatNetwork> for NeatGenome {
    open spec fn obeys_from_spec() -> bool {
        true
    }

    open spec fn from_spec(val: NeatNetwork) -> Self {
        val.genome
    }
}

} // verus!
