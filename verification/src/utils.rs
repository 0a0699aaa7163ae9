//! Random draws and small helpers on vectors.
use vstd::prelude::*;
use vstd::std_specs::cmp::PartialOrdSpec;
use crate::fixed::{UNIT, fx_add, fx_mul, fx_mul_spec, fx_sub, magnitude, quotient, sat, saturate, tquot, wide_product};

verus! {

/// A machine word from the thread's generator: `rand::random::<usize>()`.
/// Nothing is claimed of the word that comes back.
#[verifier::external_body]
fn random_word() -> usize {
    rand::random::<usize>()
}

/// One draw with `rand::Rng::sample` from the thread's generator,
/// `rand::thread_rng()`, by `rand::distributions::Uniform::new_inclusive(low,
/// high)`. The distribution is built on the closed range from `low` to
/// `high` and refuses an empty one; the draw lies in that range.
#[verifier::external_body]
fn uniform_inclusive(low: usize, high: usize) -> (r: usize)
    requires
        low <= high,
    ensures
        low <= r <= high,
{
    rand::Rng::sample(&mut rand::thread_rng(), rand::distributions::Uniform::new_inclusive(low, high))
}

/// The index below `max` that a machine word selects; zero when `max` is zero.
pub open spec fn index_of_word(word: usize, max: usize) -> usize {
    if max == 0 {
        0
    } else {
        (word % max) as usize
    }
}

/// Reduces a machine word to an index below `max`.
pub fn word_to_index(word: usize, max: usize) -> (r: usize)
    ensures
        r == index_of_word(word, max),
        max > 0 ==> r < max,
{
    if max == 0 {
        return 0;
    }
    word % max
}

/// A random index below `max`, or zero when `max` is zero.
pub fn random_i(max: usize) -> (r: usize)
    ensures
        max == 0 ==> r == 0,
        max > 0 ==> r < max,
{
    word_to_index(random_word(), max)
}

/// A random index between `low` and `high`, both included.
pub fn random_between(low: usize, high: usize) -> (r: usize)
    requires
        low <= high,
    ensures
        low <= r <= high,
{
    uniform_inclusive(low, high)
}

/// A random fraction: at least zero and below one.
pub fn random() -> (r: i64)
    ensures
        0 <= r < UNIT,
{
    let i: usize = random_i(1_000_000);
    i as i64
}

/// The offset that the fraction `u` selects between `-delta` and `delta`:
/// `(u - 1/2) * 2 * delta`.
pub open spec fn spread(u: i64, delta: i64) -> i64 {
    sat(tquot((2 * u - UNIT) * delta, UNIT as int))
}

/// Computes `spread(u, delta)`.
pub fn spread_of(u: i64, delta: i64) -> (r: i64)
    requires
        0 <= u < UNIT,
    ensures
        r == spread(u, delta),
        -magnitude(delta as int) <= r <= magnitude(delta as int),
{
    let centred: i64 = 2 * u - UNIT;
    let p: i128 = wide_product(centred, delta);
    let r: i64 = quotient(p, UNIT as i128);
    proof {
        lemma_spread_bound(centred as int, delta as int);
    }
    r
}

/// A product with a factor of at most one unit, divided by the unit, is no
/// further from zero than the other factor.
pub proof fn lemma_spread_bound(c: int, delta: int)
    requires
        -UNIT <= c <= UNIT,
    ensures
        -magnitude(delta) <= tquot(c * delta, UNIT as int) <= magnitude(delta),
{
    let m: int = magnitude(c * delta);
    let d: int = magnitude(delta);
    assert(m <= d * UNIT) by (nonlinear_arith)
        requires
            -UNIT <= c <= UNIT,
            m == magnitude(c * delta),
            d == magnitude(delta),
    ;
    assert(m / (UNIT as int) <= d) by (nonlinear_arith)
        requires
            m <= d * UNIT,
            UNIT == 1_000_000,
    ;
    assert(0 <= m / (UNIT as int)) by (nonlinear_arith)
        requires
            m >= 0,
            UNIT == 1_000_000,
    ;
}

/// A random offset between `-delta` and `delta`.
pub fn random_d(delta: i64) -> (r: i64)
    ensures
        exists|u: i64| 0 <= u < UNIT && r == spread(u, delta),
        -magnitude(delta as int) <= r <= magnitude(delta as int),
{
    let u: i64 = random();
    spread_of(u, delta)
}

/// The point that the fraction `u` selects on the way from `min` to `max`:
/// `u * (max - min) + min`.
pub open spec fn along(u: i64, min: i64, max: i64) -> i64 {
    sat(min + tquot(u * (max - min), UNIT as int))
}

/// Computes `along(u, min, max)`.
pub fn along_of(u: i64, min: i64, max: i64) -> (r: i64)
    requires
        0 <= u < UNIT,
    ensures
        r == along(u, min, max),
        min <= max ==> min <= r <= max,
        min < max ==> r < max,
        max <= min ==> max <= r <= min,
{
    let width: i128 = max as i128 - min as i128;
    assert(-0x1_0000_0000_0000_0000 * 1_000_000 <= u * width <= 0x1_0000_0000_0000_0000 * 1_000_000
        && (width >= 0 ==> 0 <= u * width <= width * 999_999) && (width <= 0 ==> width * 999_999 <= u
        * width <= 0)) by (nonlinear_arith)
        requires
            0 <= u < 1_000_000,
            -0x1_0000_0000_0000_0000 <= width <= 0x1_0000_0000_0000_0000,
    ;
    let p: i128 = (u as i128) * width;
    let mp: u128 = crate::fixed::magnitude_of(p);
    let mq: u128 = mp / 1_000_000u128;
    let step: i128 = if p >= 0 {
        mq as i128
    } else {
        -(mq as i128)
    };
    assert(step == tquot(p as int, UNIT as int));
    saturate(min as i128 + step)
}

/// A random number from `min` up to, not including, `max`.
pub fn random_clamp(min: i64, max: i64) -> (r: i64)
    ensures
        exists|u: i64| 0 <= u < UNIT && r == along(u, min, max),
        min <= max ==> min <= r <= max,
        min < max ==> r < max,
        max <= min ==> max <= r <= min,
{
    let u: i64 = random();
    along_of(u, min, max)
}

/// `num` held between `min` and `max`: `min` where `num` is below it,
/// `max` where `num` is above it, and `num` itself otherwise.
pub open spec fn clamped<T: PartialOrd<T>>(num: T, min: T, max: T) -> T {
    if num.partial_cmp_spec(&min) == Some(core::cmp::Ordering::Less) {
        min
    } else if num.partial_cmp_spec(&max) == Some(core::cmp::Ordering::Greater) {
        max
    } else {
        num
    }
}

/// Holds `num` between `min` and `max`.
pub fn clamp<T>(num: T, min: T, max: T) -> (r: T) where T: PartialOrd<T>
    ensures
        T::obeys_partial_cmp_spec() ==> r == clamped(num, min, max),
{
    if num < min {
        min
    } else if num > max {
        max
    } else {
        num
    }
}

/// Helpers on lists.
pub trait VecUtils {
    type Item;

    /// What the list holds.
    spec fn items(&self) -> Seq<Self::Item>;

    /// Adds `size` items made by `f` at the end.
    fn append_with<F>(&mut self, size: usize, f: F) where F: Fn() -> Self::Item
        requires
            f.requires(()),
        ensures
            final(self).items().len() == old(self).items().len() + size,
            final(self).items().take(old(self).items().len() as int) == old(self).items(),
            forall|i: int|
                old(self).items().len() <= i < final(self).items().len() ==> f.ensures(
                    (),
                    #[trigger] final(self).items()[i],
                ),
    ;

    /// A list of `size` items made by `f`.
    fn fill<F>(size: usize, f: F) -> (list: Vec<Self::Item>) where F: Fn() -> Self::Item
        requires
            f.requires(()),
        ensures
            list@.len() == size,
            forall|i: int| 0 <= i < list@.len() ==> f.ensures((), #[trigger] list@[i]),
    ;

    /// One item of the list, chosen at random.
    fn sample(&self) -> (item: &Self::Item)
        requires
            self.items().len() > 0,
        ensures
            self.items().contains(*item),
    ;

    /// Puts the items into a random order.
    fn shuffle(&mut self)
        ensures
            final(self).items().to_multiset() == old(self).items().to_multiset(),
    ;
}

impl<T> VecUtils for Vec<T> {
    type Item = T;

    open spec fn items(&self) -> Seq<T> {
        self@
    }

    fn fill<F>(size: usize, f: F) -> (list: Vec<T>) where F: Fn() -> T {
        let mut v = Vec::<T>::new();
        v.append_with(size, f);
        v
    }

    fn append_with<F>(&mut self, size: usize, f: F) where F: Fn() -> T {
        let mut i: usize = 0;
        while i < size
            invariant
                0 <= i <= size,
                f.requires(()),
                self@.len() == old(self)@.len() + i,
                self@.take(old(self)@.len() as int) == old(self)@,
                forall|k: int| old(self)@.len() <= k < self@.len() ==> f.ensures((), #[trigger] self@[k]),
            decreases size - i,
        {
            let ghost before = self@;
            let item = f();
            self.push(item);
            proof {
                assert(self@.take(old(self)@.len() as int) =~= before.take(old(self)@.len() as int));
            }
            i += 1;
        }
    }

    fn sample(&self) -> (item: &T) {
        let i: usize = random_i(self.len());
        &self[i]
    }

    fn shuffle(&mut self)
        ensures
            exists|picks: Seq<usize>|
                fitting(picks, old(self)@.len()) && final(self)@ == #[trigger] arranged(
                    old(self)@,
                    picks,
                ),
    {
        let n: usize = self.len();
        let mut picks: Vec<usize> = Vec::with_capacity(n);
        let mut j: usize = 0;
        while j < n
            invariant
                0 <= j <= n,
                picks@.len() == j,
                forall|k: int| 0 <= k < j ==> (#[trigger] picks@[k]) < n - k,
            decreases n - j,
        {
            picks.push(random_i(n - j));
            j += 1;
        }
        arrange(self, &picks);
    }
}

/// Whether the picks can arrange a list of `n` items: there is one pick for
/// every item, and each names a place among the items that are still left
/// when its turn comes.
pub open spec fn fitting(picks: Seq<usize>, n: nat) -> bool {
    &&& picks.len() == n
    &&& forall|j: int| 0 <= j < picks.len() ==> (#[trigger] picks[j]) < n - j
}

/// The order that the picks give to the items: the item at the first pick
/// comes first and is taken out, and the other picks arrange what is left.
pub open spec fn arranged<T>(items: Seq<T>, picks: Seq<usize>) -> Seq<T>
    decreases picks.len(),
{
    if picks.len() == 0 || items.len() == 0 {
        Seq::empty()
    } else {
        seq![items[picks[0] as int]] + arranged(
            items.remove(picks[0] as int),
            picks.drop_first(),
        )
    }
}

/// The picks only change the order: what they arrange holds the same items
/// as often as before.
pub proof fn lemma_arranged_permutes<T>(items: Seq<T>, picks: Seq<usize>)
    requires
        fitting(picks, items.len()),
    ensures
        arranged(items, picks).to_multiset() == items.to_multiset(),
        arranged(items, picks).len() == items.len(),
    decreases picks.len(),
{
    broadcast use vstd::multiset::group_multiset_axioms;

    if picks.len() == 0 {
        assert(items =~= Seq::<T>::empty());
    } else {
        let p = picks[0] as int;
        let left = items.remove(p);
        let rest = picks.drop_first();
        assert forall|j: int| 0 <= j < rest.len() implies (#[trigger] rest[j]) < left.len() - j by {
            assert(rest[j] == picks[j + 1]);
        }
        lemma_arranged_permutes(left, rest);
        let first = seq![items[p]];
        let tail = arranged(left, rest);
        vstd::seq_lib::lemma_multiset_commutative(first, tail);
        vstd::seq_lib::to_multiset_remove(items, p);
        assert(first =~= Seq::<T>::empty().push(items[p]));
        vstd::seq_lib::to_multiset_build(Seq::<T>::empty(), items[p]);
        Seq::<T>::empty().to_multiset_ensures();
        items.to_multiset_ensures();
        assert(items.contains(items[p]));
        assert(items.to_multiset().count(items[p]) > 0);
        assert(first.to_multiset().add(tail.to_multiset()) =~= items.to_multiset());
    }
}

/// Puts the items into the order that the picks give them.
pub fn arrange<T>(list: &mut Vec<T>, picks: &Vec<usize>)
    requires
        fitting(picks@, old(list)@.len()),
    ensures
        final(list)@ == arranged(old(list)@, picks@),
        final(list)@.to_multiset() == old(list)@.to_multiset(),
{
    let n: usize = picks.len();
    let mut left: Vec<T> = Vec::new();
    core::mem::swap(list, &mut left);
    proof {
        assert(list@ =~= Seq::<T>::empty());
        assert(picks@.skip(0) =~= picks@);
        assert(list@ + arranged(left@, picks@.skip(0)) =~= arranged(old(list)@, picks@));
    }
    let mut j: usize = 0;
    while j < n
        invariant
            0 <= j <= n,
            n == picks@.len(),
            left@.len() == n - j,
            forall|k: int| 0 <= k < n ==> (#[trigger] picks@[k]) < n - k,
            list@ + arranged(left@, picks@.skip(j as int)) == arranged(old(list)@, picks@),
        decreases n - j,
    {
        let ghost before = left@;
        let ghost done = list@;
        let ghost ahead = picks@.skip(j as int);
        let item = left.remove(picks[j]);
        list.push(item);
        proof {
            assert(ahead[0] == picks@[j as int]);
            assert(ahead.drop_first() =~= picks@.skip(j + 1));
            assert(arranged(before, ahead) == seq![item] + arranged(left@, picks@.skip(j + 1)));
            assert(list@ + arranged(left@, picks@.skip(j + 1)) =~= done + arranged(before, ahead));
        }
        j += 1;
    }
    proof {
        assert(picks@.skip(n as int) =~= Seq::<usize>::empty());
        assert(list@ + arranged(left@, picks@.skip(n as int)) =~= list@);
        lemma_arranged_permutes(old(list)@, picks@);
    }
}

/// Between minus one and one, a fraction selects twice its distance from a
/// half.
pub proof fn lemma_spread_unit(u: i64)
    requires
        0 <= u < UNIT,
    ensures
        spread(u, UNIT) == 2 * u - UNIT,
{
    let c: int = 2 * u - UNIT;
    assert(magnitude(c * UNIT) == magnitude(c) * UNIT && (c >= 0 <==> c * UNIT >= 0)) by (nonlinear_arith)
        requires
            UNIT == 1_000_000,
    ;
    assert((magnitude(c) * UNIT) / (UNIT as int) == magnitude(c)) by (nonlinear_arith)
        requires
            UNIT == 1_000_000,
    ;
}

/// The sum of the numbers.
pub open spec fn sum_of(values: Seq<i64>) -> int
    decreases values.len(),
{
    if values.len() == 0 {
        0
    } else {
        sum_of(values.drop_last()) + values.last()
    }
}

/// The mean of the numbers, rounded towards zero; zero for no numbers.
pub open spec fn mean_value(values: Seq<i64>) -> i64 {
    if values.len() == 0 {
        0
    } else {
        sat(tquot(sum_of(values), values.len() as int))
    }
}

/// The sum of the squared distances of the first `n` numbers from `mean`,
/// in fixed-point arithmetic.
pub open spec fn squares_sum(values: Seq<i64>, mean: i64, n: int) -> i64
    decreases n,
{
    if n <= 0 {
        0
    } else {
        let apart = sat(values[n - 1] - mean);
        sat(squares_sum(values, mean, n - 1) + fx_mul_spec(apart, apart))
    }
}

/// The mean squared distance of the numbers from their mean; zero for no
/// numbers.
pub open spec fn variance(values: Seq<i64>) -> i64 {
    if values.len() == 0 {
        0
    } else {
        sat(tquot(squares_sum(values, mean_value(values), values.len() as int) as int, values.len() as int))
    }
}

/// Whether `root` is the square root of `x`, rounded down.
pub open spec fn is_root(root: int, x: int) -> bool {
    0 <= root && root * root <= x < (root + 1) * (root + 1)
}

/// Whether `root` is the fixed-point square root of the fixed-point number
/// `x`, rounded down; the root of a negative number counts as zero.
pub open spec fn is_fixed_root(root: i64, x: i64) -> bool {
    if x <= 0 {
        root == 0
    } else {
        is_root(root as int, x * UNIT)
    }
}

/// The square root of `x`, rounded down.
pub fn integer_root(x: u128) -> (root: u128)
    requires
        x < 0x1_0000_0000_0000_0000_0000_0000,
    ensures
        is_root(root as int, x as int),
        root < 0x1_0000_0000_0000,
{
    let mut low: u128 = 0;
    let mut high: u128 = 0x1_0000_0000_0000;
    assert(0x1_0000_0000_0000 * 0x1_0000_0000_0000 == 0x1_0000_0000_0000_0000_0000_0000) by (nonlinear_arith);
    while high - low > 1
        invariant
            0 <= low < high <= 0x1_0000_0000_0000,
            low * low <= x < high * high,
        decreases high - low,
    {
        let mid: u128 = low + (high - low) / 2;
        assert(mid * mid < 0x1_0000_0000_0000 * 0x1_0000_0000_0000) by (nonlinear_arith)
            requires
                0 <= mid < 0x1_0000_0000_0000,
        ;
        if mid * mid <= x {
            low = mid;
        } else {
            high = mid;
        }
    }
    low
}

/// Sums, means and deviations of numbers.
pub trait Sum<T> {
    /// The numbers.
    spec fn values(&self) -> Seq<T>;

    fn sum(&self) -> T;

    fn mean(&self) -> T;

    fn std_dev(&self) -> (T, T);
}

impl Sum<i64> for Vec<i64> {
    open spec fn values(&self) -> Seq<i64> {
        self@
    }

    /// The sum of the numbers; it stops at the ends of `i64`.
    fn sum(&self) -> (total: i64)
        ensures
            total == sat(sum_of(self@)),
    {
        saturate(wide_sum(self))
    }

    /// The mean of the numbers, rounded towards zero; zero for no numbers.
    fn mean(&self) -> (mean: i64)
        ensures
            mean == mean_value(self@),
    {
        if self.len() == 0 {
            return 0;
        }
        quotient(wide_sum(self), self.len() as i128)
    }

    /// The mean of the numbers and their standard deviation: the square
    /// root, rounded down, of the mean squared distance from the mean.
    fn std_dev(&self) -> (pair: (i64, i64))
        ensures
            pair.0 == mean_value(self@),
            is_fixed_root(pair.1, variance(self@)),
    {
        let n: usize = self.len();
        if n == 0 {
            return (0, 0);
        }
        let mean: i64 = quotient(wide_sum(self), n as i128);
        let mut squares: i64 = 0;
        let mut i: usize = 0;
        while i < n
            invariant
                0 <= i <= n,
                n == self@.len(),
                squares == squares_sum(self@, mean, i as int),
            decreases n - i,
        {
            let apart: i64 = fx_sub(self[i], mean);
            squares = fx_add(squares, fx_mul(apart, apart));
            i += 1;
        }
        let spread: i64 = quotient(squares as i128, n as i128);
        if spread <= 0 {
            return (mean, 0);
        }
        let scaled: i128 = wide_product(spread, UNIT);
        assert(0 < scaled < 0x1_0000_0000_0000_0000_0000_0000) by (nonlinear_arith)
            requires
                scaled == spread * UNIT,
                0 < spread <= 0x7fff_ffff_ffff_ffff,
                UNIT == 1_000_000,
        ;
        let root: u128 = integer_root(scaled as u128);
        (mean, root as i64)
    }
}

/// The exact sum of the numbers.
pub fn wide_sum(values: &Vec<i64>) -> (total: i128)
    ensures
        total == sum_of(values@),
        -0x8000_0000_0000_0000 * values@.len() <= total <= 0x8000_0000_0000_0000 * values@.len(),
{
    let n: usize = values.len();
    let mut sum: i128 = 0;
    let mut i: usize = 0;
    while i < n
        invariant
            0 <= i <= n,
            n == values@.len(),
            sum == sum_of(values@.take(i as int)),
            -0x8000_0000_0000_0000 * i <= sum <= 0x8000_0000_0000_0000 * i,
        decreases n - i,
    {
        proof {
            assert(values@.take(i + 1).drop_last() =~= values@.take(i as int));
        }
        sum = sum + values[i] as i128;
        i += 1;
    }
    proof {
        assert(values@.take(n as int) =~= values@);
    }
    sum
}

} // verus!
