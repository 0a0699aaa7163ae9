//! Breeders put together from other breeders, field by field.
use vstd::prelude::*;
use crate::breeder::Breeder;
use crate::fixed::UNIT;
use crate::utils::random;

verus! {

/// A breeder together with the chance that it is put to work: the field of
/// a struct that breeds field by field.
pub struct Weighted<B> {
    pub breeder: B,
    pub weight: i64,
}

impl<B: Breeder> Breeder for Weighted<B> {
    type Genome = B::Genome;

    open spec fn wf(&self) -> bool {
        self.breeder.wf()
    }

    open spec fn fits(&self, genome: &B::Genome) -> bool {
        self.breeder.fits(genome)
    }

    open spec fn same(&self, gene1: &B::Genome, gene2: &B::Genome) -> bool {
        self.breeder.same(gene1, gene2)
    }

    /// With the chance `weight` the inner breeder mutates the genome;
    /// otherwise the genome is passed on as it is.
    open spec fn mutation(&self, gene: &B::Genome, child: &B::Genome) -> bool {
        ||| (self.weight > 0 && self.breeder.mutation(gene, child))
        ||| (self.weight < UNIT && cloned(*gene, *child))
    }

    /// With the chance `weight` the inner breeder breeds the two genomes;
    /// otherwise the child is one of the parents, either with the same
    /// chance.
    open spec fn crossing(&self, gene1: &B::Genome, gene2: &B::Genome, child: &B::Genome) -> bool {
        ||| (self.weight > 0 && self.breeder.crossing(gene1, gene2, child))
        ||| (self.weight < UNIT && (cloned(*gene1, *child) || cloned(*gene2, *child)))
    }

    open spec fn fresh(&self, genome: &B::Genome) -> bool {
        self.breeder.fresh(genome)
    }

    fn mutate(&self, gene: &B::Genome) -> (child: B::Genome) {
        if random() < self.weight {
            self.breeder.mutate(gene)
        } else {
            let copy = gene.clone();
            proof {
                self.breeder.fits_cloned(*gene, copy);
            }
            copy
        }
    }

    fn breed(&self, gene1: &B::Genome, gene2: &B::Genome) -> (child: B::Genome) {
        if random() < self.weight {
            self.breeder.breed(gene1, gene2)
        } else if random() < 500_000 {
            let copy = gene1.clone();
            proof {
                self.breeder.fits_cloned(*gene1, copy);
            }
            copy
        } else {
            let copy = gene2.clone();
            proof {
                self.breeder.fits_cloned(*gene2, copy);
            }
            copy
        }
    }

    fn random(&self) -> (genome: B::Genome) {
        self.breeder.random()
    }

    fn is_same(&self, gene1: &B::Genome, gene2: &B::Genome) -> (r: bool) {
        self.breeder.is_same(gene1, gene2)
    }

    proof fn fits_cloned(&self, source: B::Genome, copy: B::Genome) {
        self.breeder.fits_cloned(source, copy);
    }
}

/// Two breeders side by side: a struct of two fields that breeds field by
/// field. A struct of more fields is a pair whose second part is a pair.
pub struct Pair<A, B> {
    pub first: A,
    pub second: B,
}

/// The genome of a pair of breeders: one genome of each.
#[derive(Debug)]
pub struct PairGenome<X, Y> {
    pub first: X,
    pub second: Y,
}

impl<X: Clone, Y: Clone> Clone for PairGenome<X, Y> {
    fn clone(&self) -> (copy: Self)
        ensures
            cloned(self.first, copy.first),
            cloned(self.second, copy.second),
    {
        PairGenome { first: self.first.clone(), second: self.second.clone() }
    }
}

impl<A: Breeder, B: Breeder> Breeder for Pair<A, B> {
    type Genome = PairGenome<A::Genome, B::Genome>;

    open spec fn wf(&self) -> bool {
        self.first.wf() && self.second.wf()
    }

    open spec fn fits(&self, genome: &Self::Genome) -> bool {
        self.first.fits(&genome.first) && self.second.fits(&genome.second)
    }

    /// Two genomes are the same when both parts are.
    open spec fn same(&self, gene1: &Self::Genome, gene2: &Self::Genome) -> bool {
        self.first.same(&gene1.first, &gene2.first) && self.second.same(
            &gene1.second,
            &gene2.second,
        )
    }

    open spec fn mutation(&self, gene: &Self::Genome, child: &Self::Genome) -> bool {
        self.first.mutation(&gene.first, &child.first) && self.second.mutation(
            &gene.second,
            &child.second,
        )
    }

    open spec fn crossing(&self, gene1: &Self::Genome, gene2: &Self::Genome, child: &Self::Genome) -> bool {
        self.first.crossing(&gene1.first, &gene2.first, &child.first) && self.second.crossing(
            &gene1.second,
            &gene2.second,
            &child.second,
        )
    }

    open spec fn fresh(&self, genome: &Self::Genome) -> bool {
        self.first.fresh(&genome.first) && self.second.fresh(&genome.second)
    }

    fn mutate(&self, gene: &Self::Genome) -> (child: Self::Genome) {
        PairGenome {
            first: self.first.mutate(&gene.first),
            second: self.second.mutate(&gene.second),
        }
    }

    fn breed(&self, gene1: &Self::Genome, gene2: &Self::Genome) -> (child: Self::Genome) {
        PairGenome {
            first: self.first.breed(&gene1.first, &gene2.first),
            second: self.second.breed(&gene1.second, &gene2.second),
        }
    }

    fn random(&self) -> (genome: Self::Genome) {
        PairGenome { first: self.first.random(), second: self.second.random() }
    }

    fn is_same(&self, gene1: &Self::Genome, gene2: &Self::Genome) -> (r: bool) {
        self.first.is_same(&gene1.first, &gene2.first) && self.second.is_same(
            &gene1.second,
            &gene2.second,
        )
    }

    proof fn fits_cloned(&self, source: Self::Genome, copy: Self::Genome) {
        self.first.fits_cloned(source.first, copy.first);
        self.second.fits_cloned(source.second, copy.second);
    }
}

} // verus!
