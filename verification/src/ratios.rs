//! The ratios of the breeding methods.
use vstd::prelude::*;
use vstd::std_specs::ops::AddSpec;

verus! {

/// Define ratio of different breed strategies
/// Templated for easy convertion
#[derive(Debug)]
#[verifier::reject_recursive_types(T)]
pub struct Ratios<T> where T: Clone + Copy {
    pub top: T,
    pub mutate: T,
    pub cross: T,
    pub random: T,
}

impl<T: Clone + Copy> Clone for Ratios<T> {
    fn clone(&self) -> (copy: Self)
        ensures
            copy == *self,
    {
        Ratios { top: self.top, mutate: self.mutate, cross: self.cross, random: self.random }
    }
}

impl<T: Clone + Copy> Copy for Ratios<T> {

}

/// A ratio that counts: a negative one counts as zero.
pub open spec fn counted(ratio: i64) -> int {
    if ratio < 0 {
        0
    } else {
        ratio as int
    }
}

/// The part of `max` that belongs to a ratio of `part` in `total`, rounded
/// down.
pub open spec fn portion(max: usize, part: int, total: int) -> int {
    (max * part) / total
}

/// The whole numbers that the ratios make of `max`: each of the first three
/// gets its part of `max`, rounded down, and `random` gets the rest. Without
/// any positive ratio all goes to `random`.
pub open spec fn shares(ratios: Ratios<i64>, max: usize) -> Ratios<usize> {
    let total = counted(ratios.top) + counted(ratios.mutate) + counted(ratios.cross) + counted(
        ratios.random,
    );
    if total == 0 {
        Ratios { top: 0, mutate: 0, cross: 0, random: max }
    } else {
        let top = portion(max, counted(ratios.top), total);
        let mutate = portion(max, counted(ratios.mutate), total);
        let cross = portion(max, counted(ratios.cross), total);
        Ratios {
            top: top as usize,
            mutate: mutate as usize,
            cross: cross as usize,
            random: (max - top - mutate - cross) as usize,
        }
    }
}

/// A part of `max` is not negative and, rounded down, no more than its
/// exact share.
pub proof fn lemma_portion_bound(max: usize, part: int, total: int)
    requires
        0 <= part <= total,
        0 < total,
    ensures
        0 <= portion(max, part, total) <= max,
        portion(max, part, total) * total <= max * part,
{
    let m = max as int;
    let q = (m * part) / total;
    assert(0 <= m * part <= m * total) by (nonlinear_arith)
        requires
            0 <= m,
            0 <= part <= total,
    ;
    assert(q * total <= m * part && 0 <= q) by (nonlinear_arith)
        requires
            q == (m * part) / total,
            0 < total,
            0 <= m * part,
    {
        assert(m * part == total * ((m * part) / total) + (m * part) % total);
    }
    assert(q <= m) by (nonlinear_arith)
        requires
            q * total <= m * part,
            m * part <= m * total,
            0 < total,
            0 <= q,
            0 <= m,
    ;
}

/// The three parts of `max` that are rounded down leave a rest that is not
/// negative.
pub proof fn lemma_portions_fit(max: usize, a: int, b: int, c: int, total: int)
    requires
        0 <= a,
        0 <= b,
        0 <= c,
        a + b + c <= total,
        0 < total,
    ensures
        portion(max, a, total) + portion(max, b, total) + portion(max, c, total) <= max,
{
    lemma_portion_bound(max, a, total);
    lemma_portion_bound(max, b, total);
    lemma_portion_bound(max, c, total);
    let qa = portion(max, a, total);
    let qb = portion(max, b, total);
    let qc = portion(max, c, total);
    let m = max as int;
    assert(qa + qb + qc <= m) by (nonlinear_arith)
        requires
            qa * total <= m * a,
            qb * total <= m * b,
            qc * total <= m * c,
            a + b + c <= total,
            0 < total,
            0 <= m,
            0 <= a,
            0 <= b,
            0 <= c,
    {
        assert((qa + qb + qc) * total <= m * (a + b + c));
        assert(m * (a + b + c) <= m * total);
    }
}

/// Computes `portion(max, part, total)`.
pub fn portion_of(max: usize, part: u128, total: u128) -> (r: usize)
    requires
        part <= total,
        0 < total,
        part <= 0x7fff_ffff_ffff_ffff,
    ensures
        r == portion(max, part as int, total as int),
{
    proof {
        lemma_portion_bound(max, part as int, total as int);
        assert(max * part <= 0xffff_ffff_ffff_ffff * 0x7fff_ffff_ffff_ffff) by (nonlinear_arith)
            requires
                0 <= max <= 0xffff_ffff_ffff_ffff,
                0 <= part <= 0x7fff_ffff_ffff_ffff,
        ;
    }
    let q: u128 = (max as u128 * part) / total;
    q as usize
}

/// A ratio that counts, as an unsigned number.
pub fn counted_of(ratio: i64) -> (r: u128)
    ensures
        r == counted(ratio),
        r <= 0x7fff_ffff_ffff_ffff,
{
    if ratio < 0 {
        0
    } else {
        ratio as u128
    }
}

impl Ratios<i64> {
    /// Convert into integer ratios
    pub fn to_int(&self, max: usize) -> (counts: Ratios<usize>)
        ensures
            counts == shares(*self, max),
            counts.top + counts.mutate + counts.cross + counts.random == max,
    {
        let top: u128 = counted_of(self.top);
        let mutate: u128 = counted_of(self.mutate);
        let cross: u128 = counted_of(self.cross);
        let random: u128 = counted_of(self.random);
        let total: u128 = top + mutate + cross + random;
        if total == 0 {
            return Ratios { top: 0, mutate: 0, cross: 0, random: max };
        }
        proof {
            lemma_portions_fit(max, top as int, mutate as int, cross as int, total as int);
            lemma_portion_bound(max, top as int, total as int);
            lemma_portion_bound(max, mutate as int, total as int);
            lemma_portion_bound(max, cross as int, total as int);
        }
        let t: usize = portion_of(max, top, total);
        let m: usize = portion_of(max, mutate, total);
        let c: usize = portion_of(max, cross, total);
        Ratios { top: t, mutate: m, cross: c, random: max - t - m - c }
    }
}

impl<T> Ratios<T> where T: core::ops::Add<T, Output = T> + Copy + Clone {
    /// Whether the three sums of `cumulative` can be formed.
    pub open spec fn summable(&self) -> bool {
        &&& self.top.add_req(self.mutate)
        &&& self.top.add_spec(self.mutate).add_req(self.cross)
        &&& self.top.add_spec(self.mutate).add_spec(self.cross).add_req(self.random)
    }

    /// The running sums of the ratios: each field holds the sum of the
    /// ratios up to and including its own.
    pub fn cumulative(&self) -> (sums: Self)
        requires
            T::obeys_add_spec(),
            self.summable(),
        ensures
            sums.top == self.top,
            sums.mutate == self.top.add_spec(self.mutate),
            sums.cross == self.top.add_spec(self.mutate).add_spec(self.cross),
            sums.random == self.top.add_spec(self.mutate).add_spec(self.cross).add_spec(
                self.random,
            ),
    {
        Self {
            top: self.top,
            mutate: self.top + self.mutate,
            cross: self.top + self.mutate + self.cross,
            random: self.top + self.mutate + self.cross + self.random,
        }
    }
}

} // verus!
