//! The breeder contract and the breeders of plain numbers.
use vstd::prelude::*;
use crate::fixed::{
    UNIT, fx_add, fx_div, fx_div_spec, fx_mul, fx_mul_spec, fx_sub, magnitude, quotient, sat, tquot,
};
use crate::utils::{along, along_of, random, spread, spread_of};

verus! {

/// Provides methods to create new and mix Genes
pub trait Breeder {
    type Genome: Clone + core::fmt::Debug;

    /// Whether the breeder's own settings are usable.
    spec fn wf(&self) -> bool;

    /// Whether `genome` is one that this breeder can work on.
    spec fn fits(&self, genome: &Self::Genome) -> bool;

    /// Whether the breeder takes the two genomes for members of one species.
    spec fn same(&self, gene1: &Self::Genome, gene2: &Self::Genome) -> bool;

    /// Whether a mutation of `gene` can give `child`.
    spec fn mutation(&self, gene: &Self::Genome, child: &Self::Genome) -> bool;

    /// Whether breeding `gene1` with `gene2` can give `child`.
    spec fn crossing(&self, gene1: &Self::Genome, gene2: &Self::Genome, child: &Self::Genome) -> bool;

    /// Whether `genome` can be made from nothing.
    spec fn fresh(&self, genome: &Self::Genome) -> bool;

    /// A changed copy of `gene`.
    fn mutate(&self, gene: &Self::Genome) -> (child: Self::Genome)
        requires
            self.wf(),
            self.fits(gene),
        ensures
            self.fits(&child),
            self.mutation(gene, &child),
    ;

    /// A child of two parents, the fitter one first.
    fn breed(&self, gene1: &Self::Genome, gene2: &Self::Genome) -> (child: Self::Genome)
        requires
            self.wf(),
            self.fits(gene1),
            self.fits(gene2),
        ensures
            self.fits(&child),
            self.crossing(gene1, gene2, &child),
    ;

    /// A genome made from nothing.
    fn random(&self) -> (genome: Self::Genome)
        requires
            self.wf(),
        ensures
            self.fits(&genome),
            self.fresh(&genome),
    ;

    /// Whether the two genomes belong to one species.
    fn is_same(&self, gene1: &Self::Genome, gene2: &Self::Genome) -> (r: bool)
        requires
            self.wf(),
            self.fits(gene1),
            self.fits(gene2),
        ensures
            r == self.same(gene1, gene2),
    ;

    /// A clone of a genome that fits the breeder fits it too.
    proof fn fits_cloned(&self, source: Self::Genome, copy: Self::Genome)
        requires
            self.fits(&source),
            cloned(source, copy),
        ensures
            self.fits(&copy),
    ;
}

/// `x` held between `min` and `max`.
pub open spec fn held(x: i64, min: i64, max: i64) -> i64 {
    if x < min {
        min
    } else if x > max {
        max
    } else {
        x
    }
}

/// The point between two numbers that the fraction `r` selects:
/// `a * r + b * (1 - r)`.
pub open spec fn blend(a: i64, b: i64, r: i64) -> i64 {
    sat(fx_mul_spec(a, r) + fx_mul_spec(b, (UNIT - r) as i64))
}

/// The chance, as a fixed-point number, that belongs to one of `size`
/// elements when `rate` changes are wanted in all; zero where there is no
/// element.
pub open spec fn share(rate: i64, size: usize) -> i64 {
    if size == 0 {
        0
    } else {
        sat(tquot(rate as int, size as int))
    }
}

/// Float Breeder: breeds single numbers between `min` and `max`.
pub struct FloatBreeder {
    pub min: i64,
    pub max: i64,
    pub delta: i64,
}

impl FloatBreeder {
    /// The number that a mutation makes of `gene` when it draws the
    /// fraction `u`: `gene` moved by up to `delta` and held in the range.
    pub open spec fn moved(&self, gene: i64, u: i64) -> i64 {
        held(sat(gene + spread(u, self.delta)), self.min, self.max)
    }

    /// Computes `moved(gene, u)`.
    pub fn mutate_by(&self, gene: i64, u: i64) -> (child: i64)
        requires
            0 <= u < UNIT,
        ensures
            child == self.moved(gene, u),
    {
        let x: i64 = fx_add(gene, spread_of(u, self.delta));
        if x < self.min {
            self.min
        } else if x > self.max {
            self.max
        } else {
            x
        }
    }

    /// Computes `blend(gene1, gene2, r)`.
    pub fn breed_by(&self, gene1: i64, gene2: i64, r: i64) -> (child: i64)
        requires
            0 <= r < UNIT,
        ensures
            child == blend(gene1, gene2, r),
    {
        fx_add(fx_mul(gene1, r), fx_mul(gene2, UNIT - r))
    }
}

impl Breeder for FloatBreeder {
    type Genome = i64;

    /// The range must not be upside down.
    open spec fn wf(&self) -> bool {
        self.min <= self.max
    }

    open spec fn fits(&self, genome: &i64) -> bool {
        true
    }

    /// Two numbers are the same when they are less than two `delta` apart.
    open spec fn same(&self, gene1: &i64, gene2: &i64) -> bool {
        magnitude(*gene1 - *gene2) < 2 * self.delta
    }

    /// A mutation moves the number by a random offset of up to `delta` and
    /// holds it in the range.
    open spec fn mutation(&self, gene: &i64, child: &i64) -> bool {
        exists|u: i64| 0 <= u < UNIT && *child == #[trigger] self.moved(*gene, u)
    }

    /// A child is a random point between its parents.
    open spec fn crossing(&self, gene1: &i64, gene2: &i64, child: &i64) -> bool {
        exists|r: i64| 0 <= r < UNIT && *child == #[trigger] blend(*gene1, *gene2, r)
    }

    /// A new number is a random point of the range.
    open spec fn fresh(&self, genome: &i64) -> bool {
        exists|u: i64| 0 <= u < UNIT && *genome == #[trigger] along(u, self.min, self.max)
    }

    fn mutate(&self, gene: &i64) -> (child: i64)
        ensures
            self.min <= child <= self.max,
    {
        let u: i64 = random();
        self.mutate_by(*gene, u)
    }

    fn breed(&self, gene1: &i64, gene2: &i64) -> (child: i64) {
        let r: i64 = random();
        self.breed_by(*gene1, *gene2, r)
    }

    fn random(&self) -> (genome: i64)
        ensures
            self.min <= genome <= self.max,
    {
        let u: i64 = random();
        along_of(u, self.min, self.max)
    }

    fn is_same(&self, gene1: &i64, gene2: &i64) -> (r: bool) {
        let apart: i128 = *gene1 as i128 - *gene2 as i128;
        let size: u128 = crate::fixed::magnitude_of(apart);
        self.delta > 0 && size < 2 * (self.delta as u128)
    }

    proof fn fits_cloned(&self, source: i64, copy: i64) {
    }
}

impl Default for FloatBreeder {
    /// Numbers between minus one and one, moved by up to a tenth.
    fn default() -> (breeder: Self)
        ensures
            breeder == (FloatBreeder { min: -1_000_000i64, max: 1_000_000, delta: 100_000 }),
    {
        FloatBreeder { min: -1_000_000, max: 1_000_000, delta: 100_000 }
    }
}

/// Breeder that breeds lists of numbers
pub struct VecBreeder {
    pub size: usize,
    pub min: i64,
    pub max: i64,
    pub delta: i64,
    pub mutate_rate: i64,
    pub flip_rate: i64,
    pub is_same_threshold: i64,
}

/// Whether the element at `i` of a crossing comes from the second parent:
/// the side changes wherever `flips` says so, starting from the first
/// parent.
pub open spec fn from_second(flips: Seq<bool>, i: int) -> bool
    decreases i + 1,
{
    if i < 0 || i >= flips.len() {
        false
    } else {
        from_second(flips, i - 1) != flips[i]
    }
}

/// The child of a crossing in runs: element `i` is that of the second
/// parent where `from_second(flips, i)`, and that of the first otherwise.
pub open spec fn run_crossed(first: Seq<i64>, second: Seq<i64>, flips: Seq<bool>) -> Seq<i64> {
    Seq::new(
        flips.len(),
        |i: int|
            if from_second(flips, i) {
                second[i]
            } else {
                first[i]
            },
    )
}

impl VecBreeder {
    /// The width of the range.
    pub open spec fn range(&self) -> i64 {
        sat(self.max - self.min)
    }

    /// The number that a mutation makes of the element `x` when it draws the
    /// fraction `u`: `x` moved by up to `delta` and held in the range.
    pub open spec fn moved(&self, x: i64, u: i64) -> i64 {
        held(sat(x + spread(u, self.delta)), self.min, self.max)
    }

    /// Whether a mutation can turn the element `before` into `after`: each
    /// element is moved with the chance `mutate_rate / size`.
    pub open spec fn element_mutated(&self, before: i64, after: i64) -> bool {
        ||| (after == before && share(self.mutate_rate, self.size) < UNIT)
        ||| (share(self.mutate_rate, self.size) > 0 && exists|u: i64|
            0 <= u < UNIT && after == #[trigger] self.moved(before, u))
    }

    /// The squared distance of two elements as a share of the squared
    /// width of the range.
    pub open spec fn term(&self, x: i64, y: i64) -> i64 {
        fx_div_spec(fx_div_spec(fx_mul_spec(sat(x - y), sat(x - y)), self.range()), self.range())
    }

    /// The sum of the terms of the elements that both lists have.
    pub open spec fn terms_sum(&self, a: Seq<i64>, b: Seq<i64>, n: int) -> i64
        decreases n,
    {
        if n <= 0 {
            0
        } else {
            sat(self.terms_sum(a, b, n - 1) + self.term(a[n - 1], b[n - 1]))
        }
    }

    /// The mean squared distance of two lists in units of the range.
    pub open spec fn spread_between(&self, a: Seq<i64>, b: Seq<i64>) -> i64 {
        let n = if a.len() <= b.len() {
            a.len()
        } else {
            b.len()
        };
        sat(tquot(self.terms_sum(a, b, n as int) as int, self.size as int))
    }

    /// Whether `x` can be drawn from the range: it is the point that some
    /// fraction selects on the way from `min` to `max`.
    pub open spec fn drawn(&self, x: i64) -> bool {
        exists|u: i64| 0 <= u < UNIT && x == #[trigger] along(u, self.min, self.max)
    }

    /// Computes `share(rate, self.size)`.
    pub fn chance(&self, rate: i64) -> (r: i64)
        ensures
            r == share(rate, self.size),
    {
        if self.size == 0 {
            return 0;
        }
        quotient(rate as i128, self.size as i128)
    }

    /// Computes `moved(x, u)`.
    pub fn perturb(&self, x: i64, u: i64) -> (r: i64)
        requires
            0 <= u < UNIT,
        ensures
            r == self.moved(x, u),
    {
        let y: i64 = fx_add(x, spread_of(u, self.delta));
        if y < self.min {
            self.min
        } else if y > self.max {
            self.max
        } else {
            y
        }
    }

    /// Crosses two lists in runs as `flips` says.
    pub fn breed_by(&self, gene1: &Vec<i64>, gene2: &Vec<i64>, flips: &Vec<bool>) -> (child: Vec<i64>)
        requires
            flips@.len() <= gene1@.len(),
            flips@.len() <= gene2@.len(),
        ensures
            child@ == run_crossed(gene1@, gene2@, flips@),
    {
        let n: usize = flips.len();
        let mut child: Vec<i64> = Vec::with_capacity(n);
        let mut flip: bool = false;
        let mut i: usize = 0;
        while i < n
            invariant
                0 <= i <= n,
                n == flips@.len(),
                n <= gene1@.len(),
                n <= gene2@.len(),
                flip == from_second(flips@, i - 1),
                child@ == run_crossed(gene1@, gene2@, flips@).take(i as int),
            decreases n - i,
        {
            if flips[i] {
                flip = !flip;
            }
            if flip {
                child.push(gene2[i]);
            } else {
                child.push(gene1[i]);
            }
            proof {
                let all = run_crossed(gene1@, gene2@, flips@);
                assert(all.take(i + 1) =~= all.take(i as int).push(all[i as int]));
            }
            i += 1;
        }
        proof {
            let all = run_crossed(gene1@, gene2@, flips@);
            assert(all.take(n as int) =~= all);
        }
        child
    }
}

impl Default for VecBreeder {
    /// A hundred numbers between zero and one; two are moved in a mutation,
    /// by up to a half, and a crossing changes sides once.
    fn default() -> (breeder: Self)
        ensures
            breeder == (VecBreeder {
                size: 100,
                min: 0,
                max: 1_000_000,
                delta: 500_000,
                mutate_rate: 2_000_000,
                flip_rate: 1_000_000,
                is_same_threshold: 500_000,
            }),
    {
        VecBreeder {
            size: 100,
            min: 0,
            max: 1_000_000,
            delta: 500_000,
            mutate_rate: 2_000_000,
            flip_rate: 1_000_000,
            is_same_threshold: 500_000,
        }
    }
}

impl Breeder for VecBreeder {
    type Genome = Vec<i64>;

    /// Every setting is usable.
    open spec fn wf(&self) -> bool {
        true
    }

    /// A genome has `size` elements.
    open spec fn fits(&self, genome: &Vec<i64>) -> bool {
        genome@.len() == self.size
    }

    /// Two lists are the same when their mean squared distance, in units of
    /// the range, is below the threshold. Without elements, or with a range
    /// that has no width, there is no such distance, and no two lists are the
    /// same.
    open spec fn same(&self, gene1: &Vec<i64>, gene2: &Vec<i64>) -> bool {
        self.size > 0 && self.range() != 0 && self.spread_between(gene1@, gene2@)
            < self.is_same_threshold
    }

    /// A mutation moves each element with the chance `mutate_rate / size`.
    open spec fn mutation(&self, gene: &Vec<i64>, child: &Vec<i64>) -> bool {
        &&& child@.len() == gene@.len()
        &&& forall|i: int|
            0 <= i < gene@.len() ==> self.element_mutated(gene@[i], #[trigger] child@[i])
    }

    /// A crossing goes in runs: the child follows the first parent and
    /// changes sides before each element with the chance `flip_rate / size`,
    /// so that neighbours mostly come from one parent.
    open spec fn crossing(&self, gene1: &Vec<i64>, gene2: &Vec<i64>, child: &Vec<i64>) -> bool {
        exists|flips: Seq<bool>|
            {
                &&& flips.len() == self.size
                &&& forall|i: int|
                    0 <= i < flips.len() ==> (if #[trigger] flips[i] {
                        share(self.flip_rate, self.size) > 0
                    } else {
                        share(self.flip_rate, self.size) < UNIT
                    })
                &&& child@ == #[trigger] run_crossed(gene1@, gene2@, flips)
            }
    }

    /// A new list holds random points of the range.
    open spec fn fresh(&self, genome: &Vec<i64>) -> bool {
        forall|i: int|
            0 <= i < genome@.len() ==> self.drawn(#[trigger] genome@[i])
    }

    fn mutate(&self, gene: &Vec<i64>) -> (child: Vec<i64>) {
        let n: usize = gene.len();
        let chance: i64 = self.chance(self.mutate_rate);
        let mut child: Vec<i64> = Vec::with_capacity(n);
        let mut i: usize = 0;
        while i < n
            invariant
                0 <= i <= n,
                n == gene@.len(),
                child@.len() == i,
                chance == share(self.mutate_rate, self.size),
                forall|k: int|
                    0 <= k < i ==> self.element_mutated(gene@[k], #[trigger] child@[k]),
            decreases n - i,
        {
            let x: i64 = gene[i];
            if random() < chance {
                let u: i64 = random();
                let y: i64 = self.perturb(x, u);
                assert(self.element_mutated(x, y));
                child.push(y);
            } else {
                child.push(x);
            }
            i += 1;
        }
        child
    }

    fn breed(&self, gene1: &Vec<i64>, gene2: &Vec<i64>) -> (child: Vec<i64>) {
        let n: usize = gene1.len();
        let chance: i64 = self.chance(self.flip_rate);
        let mut flips: Vec<bool> = Vec::with_capacity(n);
        let mut i: usize = 0;
        while i < n
            invariant
                0 <= i <= n,
                flips@.len() == i,
                chance == share(self.flip_rate, self.size),
                forall|k: int|
                    0 <= k < i ==> (if #[trigger] flips@[k] {
                        share(self.flip_rate, self.size) > 0
                    } else {
                        share(self.flip_rate, self.size) < UNIT
                    }),
            decreases n - i,
        {
            flips.push(random() < chance);
            i += 1;
        }
        self.breed_by(gene1, gene2, &flips)
    }

    fn random(&self) -> (genome: Vec<i64>) {
        let mut genome: Vec<i64> = Vec::with_capacity(self.size);
        let mut i: usize = 0;
        while i < self.size
            invariant
                0 <= i <= self.size,
                genome@.len() == i,
                forall|k: int| 0 <= k < i ==> self.drawn(#[trigger] genome@[k]),
            decreases self.size - i,
        {
            let u: i64 = random();
            let x: i64 = along_of(u, self.min, self.max);
            assert(self.drawn(x));
            genome.push(x);
            i += 1;
        }
        genome
    }

    fn is_same(&self, gene1: &Vec<i64>, gene2: &Vec<i64>) -> (r: bool) {
        let n: usize = if gene1.len() <= gene2.len() {
            gene1.len()
        } else {
            gene2.len()
        };
        let range: i64 = fx_sub(self.max, self.min);
        if self.size == 0 || range == 0 {
            return false;
        }
        let mut sum: i64 = 0;
        let mut i: usize = 0;
        while i < n
            invariant
                0 <= i <= n,
                n <= gene1@.len(),
                n <= gene2@.len(),
                range == self.range(),
                range != 0,
                sum == self.terms_sum(gene1@, gene2@, i as int),
            decreases n - i,
        {
            let apart: i64 = fx_sub(gene1[i], gene2[i]);
            let square: i64 = fx_mul(apart, apart);
            let term: i64 = fx_div(fx_div(square, range), range);
            sum = fx_add(sum, term);
            i += 1;
        }
        quotient(sum as i128, self.size as i128) < self.is_same_threshold
    }

    proof fn fits_cloned(&self, source: Vec<i64>, copy: Vec<i64>) {
    }
}

} // verus!
