//! The number of offspring that falls to a species.
use vstd::prelude::*;
use crate::fixed::{magnitude, magnitude_of};
use crate::species::SpeciesView;

verus! {

/// `num / den` rounded to the nearest whole number, halves upwards.
pub open spec fn rounded(num: int, den: int) -> int
    recommends
        num >= 0,
        den > 0,
{
    num / den + if 2 * (num % den) >= den {
        1int
    } else {
        0int
    }
}

/// `x` held between one and `cap`, or one where `cap` is zero.
pub open spec fn at_least_one(x: int, cap: usize) -> usize {
    if x < 1 || cap < 1 {
        1
    } else if x > cap {
        cap
    } else {
        x as usize
    }
}

/// The number of offspring that a species is to have: its mean score as a
/// share of the mean over all species, times the share of the target size
/// that falls to one of `count` species, rounded; at least one. Where the
/// mean over all species is zero, every species gets the same share of the
/// target size.
///
/// No quota is above the target size: the offspring of all species are cut
/// to the target size in any case, so a larger quota would only breed
/// genomes that are thrown away. The quotas of all species together can
/// fall short of the target size by what the rounding takes; the pool then
/// holds fewer candidates than its target until the next generation.
pub open spec fn quota(mean: i64, global_mean: i64, target: usize, count: usize) -> usize
    recommends
        count > 0,
{
    let num = mean * target;
    let den = global_mean * count;
    let wanted = if den == 0 {
        rounded(target as int, count as int)
    } else if num != 0 && (num > 0) == (den > 0) {
        rounded(magnitude(num), magnitude(den))
    } else {
        0
    };
    at_least_one(wanted, target)
}

/// Computes `rounded(num, den)`.
pub fn round_div(num: u128, den: u128) -> (r: u128)
    requires
        den > 0,
        num <= 0x7fff_ffff_ffff_ffff_ffff_ffff_ffff_ffff,
        den <= 0x7fff_ffff_ffff_ffff_ffff_ffff_ffff_ffff,
    ensures
        r == rounded(num as int, den as int),
{
    let q: u128 = num / den;
    let rest: u128 = num % den;
    assert(q <= num) by (nonlinear_arith)
        requires
            q == num / den,
            den >= 1,
            num >= 0,
    ;
    if 2 * rest >= den {
        q + 1
    } else {
        q
    }
}

/// Computes `quota(mean, global_mean, target, count)`.
pub fn quota_of(mean: i64, global_mean: i64, target: usize, count: usize) -> (q: usize)
    requires
        count > 0,
    ensures
        q == quota(mean, global_mean, target, count),
        1 <= q,
        q <= target || q == 1,
{
    let cap: u128 = target as u128;
    assert(-0x8000_0000_0000_0000 * 0xffff_ffff_ffff_ffff <= mean * target
        <= 0x7fff_ffff_ffff_ffff * 0xffff_ffff_ffff_ffff && -0x8000_0000_0000_0000
        * 0xffff_ffff_ffff_ffff <= global_mean * count <= 0x7fff_ffff_ffff_ffff
        * 0xffff_ffff_ffff_ffff && (global_mean * count == 0 <==> global_mean == 0)) by (nonlinear_arith)
        requires
            -0x8000_0000_0000_0000 <= mean <= 0x7fff_ffff_ffff_ffff,
            -0x8000_0000_0000_0000 <= global_mean <= 0x7fff_ffff_ffff_ffff,
            0 <= target <= 0xffff_ffff_ffff_ffff,
            0 < count <= 0xffff_ffff_ffff_ffff,
    ;
    let num: i128 = (mean as i128) * (target as i128);
    let den: i128 = (global_mean as i128) * (count as i128);
    let wanted: u128 = if den == 0 {
        round_div(target as u128, count as u128)
    } else if num != 0 && (num > 0) == (den > 0) {
        round_div(magnitude_of(num), magnitude_of(den))
    } else {
        0
    };
    if wanted < 1 || cap < 1 {
        1
    } else if wanted > cap {
        target
    } else {
        wanted as usize
    }
}

/// The offspring that the first `upto` species are to have in all.
pub open spec fn quotas(species: Seq<SpeciesView>, global_mean: i64, target: usize, upto: int) -> int
    decreases upto,
{
    if upto <= 0 {
        0
    } else {
        quotas(species, global_mean, target, upto - 1) + quota(
            species[upto - 1].last_mean,
            global_mean,
            target,
            species.len() as usize,
        )
    }
}

} // verus!
