//! The mutation operators on single genes.
use vstd::prelude::*;
use super::gene::Gene;
use crate::fixed::{UNIT, sat, fx_add};

verus! {

/// The value that replaces `current`: the fresh draw added to it when the
/// change is a perturbation, the fresh draw alone otherwise.
pub open spec fn renewed(current: i64, fresh: i64, perturbation: bool) -> i64 {
    if perturbation {
        sat(current + fresh)
    } else {
        fresh
    }
}

/// Computes `renewed(current, fresh, perturbation)`.
pub fn renew(current: i64, fresh: i64, perturbation: bool) -> (r: i64)
    ensures
        r == renewed(current, fresh, perturbation),
{
    if perturbation {
        fx_add(current, fresh)
    } else {
        fresh
    }
}

/// The two genes that take the place of `gene` when the neuron `new_neuron_id`
/// is put on its link: the first leads into the new neuron with weight one,
/// the second leads out of it with the old weight.
pub open spec fn halves(gene: Gene, new_neuron_id: usize) -> (Gene, Gene) {
    (
        Gene {
            in_neuron_id: gene.in_neuron_id,
            out_neuron_id: new_neuron_id,
            weight: UNIT,
            enabled: true,
            bias: 0,
        },
        Gene {
            in_neuron_id: new_neuron_id,
            out_neuron_id: gene.out_neuron_id,
            weight: gene.weight,
            enabled: true,
            bias: 0,
        },
    )
}

/// The operators that change a gene.
pub trait Mutation {

}

impl dyn Mutation {
    /// Draws a new weight for the gene; a perturbation adds it to the old one.
    pub fn connection_weight(gene: &mut Gene, perturbation: bool)
        ensures
            exists|fresh: i64|
                -UNIT <= fresh < UNIT && *final(gene) == old(gene).with_weight(
                    #[trigger] renewed(old(gene).weight, fresh, perturbation),
                ),
    {
        let fresh: i64 = Gene::generate_weight();
        gene.weight = renew(gene.weight, fresh, perturbation);
    }

    /// Draws a new bias for the gene; a perturbation adds it to the old one.
    pub fn connection_bias(gene: &mut Gene, perturbation: bool)
        ensures
            exists|fresh: i64|
                -UNIT <= fresh < UNIT && *final(gene) == old(gene).with_bias(
                    #[trigger] renewed(old(gene).bias, fresh, perturbation),
                ),
    {
        let fresh: i64 = Gene::generate_weight();
        gene.bias = renew(gene.bias, fresh, perturbation);
    }

    /// A new enabled connection without bias, with a freshly drawn weight.
    pub fn add_connection(in_neuron_id: usize, out_neuron_id: usize) -> (gene: Gene)
        ensures
            gene.in_neuron_id == in_neuron_id,
            gene.out_neuron_id == out_neuron_id,
            gene.enabled,
            gene.bias == 0,
            -UNIT <= gene.weight < UNIT,
    {
        Gene::new(in_neuron_id, out_neuron_id, Gene::generate_weight(), true, 0)
    }

    /// Puts the neuron `new_neuron_id` on the gene's link: the gene is
    /// disabled, and the two genes that replace it are returned.
    pub fn add_neuron(gene: &mut Gene, new_neuron_id: usize) -> (pair: (Gene, Gene))
        ensures
            *final(gene) == old(gene).with_enabled(false),
            pair == halves(*old(gene), new_neuron_id),
    {
        gene.enabled = false;
        let gen1 = Gene::new(gene.in_neuron_id, new_neuron_id, UNIT, true, 0);
        let gen2 = Gene::new(new_neuron_id, gene.out_neuron_id, gene.weight, true, 0);
        (gen1, gen2)
    }

    /// Flips the gene's `enabled` flag.
    pub fn toggle_expression(gene: &mut Gene)
        ensures
            *final(gene) == old(gene).with_enabled(!old(gene).enabled),
    {
        if gene.enabled {
            gene.enabled = false
        } else {
            gene.enabled = true
        }
    }
}

} // verus!
