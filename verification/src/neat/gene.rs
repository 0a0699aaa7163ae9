//! The connection gene.
use vstd::prelude::*;
use vstd::std_specs::cmp::{PartialEqSpecImpl, PartialOrdSpecImpl};
use core::cmp::Ordering;
use crate::fixed::UNIT;
use crate::utils::{lemma_spread_unit, random_d, spread};

verus! {

/// A connection gene: a directed link between two neurons with its payload.
///
/// The link, that is the pair of neuron ids, is the gene's identity: two
/// genes are equal when they join the same neurons in the same direction,
/// whatever their weights, and genes are ordered by the pair.
#[derive(Debug, Copy, Clone)]
pub struct Gene {
    pub in_neuron_id: usize,
    pub out_neuron_id: usize,
    pub weight: i64,
    pub enabled: bool,
    pub bias: i64,
}

impl Gene {
    /// The gene's identity: the neuron it leaves and the neuron it enters.
    pub open spec fn link(self) -> (usize, usize) {
        (self.in_neuron_id, self.out_neuron_id)
    }

    /// Whether two genes join the same neurons in the same direction.
    pub open spec fn same_link(self, other: Gene) -> bool {
        self.in_neuron_id == other.in_neuron_id && self.out_neuron_id == other.out_neuron_id
    }

    /// Whether this gene's link comes before the other's, taking the source
    /// neuron first and the target neuron second.
    pub open spec fn before(self, other: Gene) -> bool {
        self.in_neuron_id < other.in_neuron_id || (self.in_neuron_id == other.in_neuron_id
            && self.out_neuron_id < other.out_neuron_id)
    }

    /// How this gene's link compares with the other's.
    pub open spec fn order(self, other: Gene) -> Ordering {
        if self.same_link(other) {
            Ordering::Equal
        } else if self.before(other) {
            Ordering::Less
        } else {
            Ordering::Greater
        }
    }

    /// This gene with its `enabled` flag replaced.
    pub open spec fn with_enabled(self, enabled: bool) -> Gene {
        Gene { enabled, ..self }
    }

    /// This gene with its weight replaced.
    pub open spec fn with_weight(self, weight: i64) -> Gene {
        Gene { weight, ..self }
    }

    /// This gene with its bias replaced.
    pub open spec fn with_bias(self, bias: i64) -> Gene {
        Gene { bias, ..self }
    }

    /// The enabled gene without bias on the given link.
    pub open spec fn new_link(in_neuron_id: usize, out_neuron_id: usize, weight: i64) -> Gene {
        Gene { in_neuron_id, out_neuron_id, weight, enabled: true, bias: 0 }
    }

    /// Create a new gene
    pub fn new(
        in_neuron_id: usize,
        out_neuron_id: usize,
        weight: i64,
        enabled: bool,
        bias: i64,
    ) -> (gene: Gene)
        ensures
            gene == (Gene { in_neuron_id, out_neuron_id, weight, enabled, bias }),
    {
        Gene { in_neuron_id, out_neuron_id, weight, enabled, bias }
    }

    /// Create a new gene with a specific connection: enabled, without bias,
    /// with a freshly drawn weight.
    pub fn new_connection(in_neuron_id: usize, out_neuron_id: usize) -> (gene: Gene)
        ensures
            gene.in_neuron_id == in_neuron_id,
            gene.out_neuron_id == out_neuron_id,
            gene.enabled,
            gene.bias == 0,
            -UNIT <= gene.weight < UNIT,
    {
        Gene { in_neuron_id, out_neuron_id, weight: Gene::generate_weight(), enabled: true, bias: 0 }
    }

    /// Generate a weight: the offset that a random fraction selects around zero.
    pub fn generate_weight() -> (weight: i64)
        ensures
            exists|u: i64| 0 <= u < UNIT && weight == #[trigger] spread(u, UNIT),
            -UNIT <= weight < UNIT,
    {
        let weight: i64 = random_d(UNIT);
        proof {
            let u = choose|u: i64| 0 <= u < UNIT && weight == spread(u, UNIT);
            lemma_spread_unit(u);
        }
        weight
    }

    /// Flips the `enabled` flag.
    pub fn toggle(&mut self)
        ensures
            *final(self) == old(self).with_enabled(!old(self).enabled),
    {
        self.enabled = !self.enabled;
    }

    /// Compares two genes by their links.
    pub fn cmp(&self, other: &Gene) -> (r: Ordering)
        ensures
            r == self.order(*other),
    {
        if self.in_neuron_id == other.in_neuron_id && self.out_neuron_id == other.out_neuron_id {
            Ordering::Equal
        } else if self.in_neuron_id == other.in_neuron_id {
            if self.out_neuron_id > other.out_neuron_id {
                Ordering::Greater
            } else {
                Ordering::Less
            }
        } else if self.in_neuron_id > other.in_neuron_id {
            Ordering::Greater
        } else {
            Ordering::Less
        }
    }
}

impl PartialEq for Gene {
    fn eq(&self, other: &Gene) -> (r: bool) {
        self.in_neuron_id == other.in_neuron_id && self.out_neuron_id == other.out_neuron_id
    }
}

impl PartialEqSpecImpl for Gene {
    open spec fn obeys_eq_spec() -> bool {
        true
    }

    open spec fn eq_spec(&self, other: &Gene) -> bool {
        self.in_neuron_id == other.in_neuron_id && self.out_neuron_id == other.out_neuron_id
    }
}

impl Eq for Gene {

}

impl PartialOrd for Gene {
    fn partial_cmp(&self, other: &Gene) -> (r: Option<Ordering>) {
        Some(self.cmp(other))
    }
}

impl PartialOrdSpecImpl for Gene {
    open spec fn obeys_partial_cmp_spec() -> bool {
        true
    }

    open spec fn partial_cmp_spec(&self, other: &Gene) -> Option<Ordering> {
        Some(self.order(*other))
    }
}

impl Default for Gene {
    /// A self-link on neuron one: enabled, without bias, with a freshly drawn
    /// weight.
    fn default() -> (gene: Gene)
        ensures
            gene.in_neuron_id == 1,
            gene.out_neuron_id == 1,
            gene.enabled,
            gene.bias == 0,
            -UNIT <= gene.weight < UNIT,
    {
        Gene { in_neuron_id: 1, out_neuron_id: 1, weight: Gene::generate_weight(), enabled: true, bias: 0 }
    }
}

} // verus!
