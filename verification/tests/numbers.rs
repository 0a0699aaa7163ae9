use evo::fixed::{fx_add, fx_div, fx_mul, fx_sub, magnitude_of, quotient, saturate, wide_product, UNIT};
use evo::geometry::{Config, Rect, RectBase};
use evo::utils::{
    along_of, arrange, clamp, integer_root, random, random_between, random_clamp, random_d, random_i, spread_of,
    wide_sum, word_to_index, Sum, VecUtils,
};

fn fixed(x: f64) -> i64 {
    (x * 1_000_000.0).round() as i64
}

#[test]
fn the_unit_is_a_million() {
    assert_eq!(UNIT, 1_000_000);
    assert_eq!(fixed(1.0), UNIT);
    assert_eq!(fixed(-0.25), -250_000);
}

#[test]
fn sums_and_differences_saturate() {
    assert_eq!(fx_add(3, 4), 7);
    assert_eq!(fx_add(i64::MAX, 1), i64::MAX);
    assert_eq!(fx_add(i64::MIN, -1), i64::MIN);
    assert_eq!(fx_sub(3, 4), -1);
    assert_eq!(fx_sub(i64::MIN, 1), i64::MIN);
    assert_eq!(fx_sub(i64::MAX, -1), i64::MAX);
    assert_eq!(saturate(1 << 100), i64::MAX);
    assert_eq!(saturate(-(1 << 100)), i64::MIN);
    assert_eq!(saturate(-17), -17);
    assert_eq!(magnitude_of(-17), 17);
    assert_eq!(magnitude_of(17), 17);
}

#[test]
fn products_and_quotients_round_towards_zero() {
    assert_eq!(fx_mul(fixed(1.5), fixed(2.0)), fixed(3.0));
    assert_eq!(fx_mul(fixed(-1.5), fixed(2.0)), fixed(-3.0));
    assert_eq!(fx_mul(1, 999_999), 0);
    assert_eq!(fx_mul(-1, 999_999), 0);
    assert_eq!(fx_mul(3, 500_000), 1);
    assert_eq!(fx_mul(-3, 500_000), -1);
    assert_eq!(fx_mul(i64::MAX, i64::MAX), i64::MAX);
    assert_eq!(fx_mul(i64::MAX, i64::MIN), i64::MIN);
    assert_eq!(fx_div(fixed(3.0), fixed(2.0)), fixed(1.5));
    assert_eq!(fx_div(fixed(1.0), fixed(3.0)), 333_333);
    assert_eq!(fx_div(fixed(-1.0), fixed(3.0)), -333_333);
    assert_eq!(fx_div(fixed(1.0), fixed(-3.0)), -333_333);
    assert_eq!(fx_div(fixed(-1.0), fixed(-3.0)), 333_333);
    assert_eq!(fx_div(i64::MAX, 1), i64::MAX);
    assert_eq!(fx_div(i64::MIN, 1), i64::MIN);
    assert_eq!(quotient(7, 2), 3);
    assert_eq!(quotient(-7, 2), -3);
    assert_eq!(quotient(7, -2), -3);
    assert_eq!(quotient(-7, -2), 3);
    assert_eq!(wide_product(i64::MIN, i64::MIN), 1i128 << 126);
    assert_eq!(wide_product(-3, 5), -15);
}

#[test]
fn clamp_holds_a_number_in_its_range() {
    assert_eq!(clamp(5, 7, 9), 7);
    assert_eq!(clamp(11, 7, 9), 9);
    assert_eq!(clamp(8, 7, 9), 8);
    assert_eq!(clamp(7, 7, 9), 7);
    assert_eq!(clamp(9, 7, 9), 9);
    assert_eq!(clamp(0.5, 0.0, 1.0), 0.5);
    assert_eq!(clamp(-0.5, 0.0, 1.0), 0.0);
    assert_eq!(clamp('x', 'a', 'f'), 'f');
}

#[test]
fn words_become_indices() {
    assert_eq!(word_to_index(17, 5), 2);
    assert_eq!(word_to_index(17, 0), 0);
    assert_eq!(word_to_index(4, 5), 4);
    assert_eq!(word_to_index(usize::MAX, 1), 0);
}

#[test]
fn random_indices_stay_below_the_bound_and_vary() {
    assert_eq!(random_i(0), 0);
    assert_eq!(random_i(1), 0);
    let mut seen = Vec::new();
    for _ in 0..300 {
        let i = random_i(1000);
        assert!(i < 1000);
        if !seen.contains(&i) {
            seen.push(i);
        }
    }
    assert!(seen.len() > 1);
}

#[test]
fn draws_between_bounds_stay_there_and_vary() {
    assert_eq!(random_between(7, 7), 7);
    let mut seen = Vec::new();
    for _ in 0..300 {
        let i = random_between(100, 1100);
        assert!(100 <= i && i <= 1100);
        if !seen.contains(&i) {
            seen.push(i);
        }
    }
    assert!(seen.len() > 1);
    let mut low = false;
    let mut high = false;
    for _ in 0..300 {
        match random_between(4, 5) {
            4 => low = true,
            5 => high = true,
            _ => panic!("out of bounds"),
        }
    }
    assert!(low && high);
}

#[test]
fn random_fractions_and_offsets_stay_in_their_ranges() {
    for _ in 0..300 {
        let r = random();
        assert!(0 <= r && r < UNIT);
        let d = random_d(fixed(0.1));
        assert!(fixed(-0.1) <= d && d <= fixed(0.1));
        let d = random_d(fixed(-2.0));
        assert!(fixed(-2.0) <= d && d <= fixed(2.0));
        let c = random_clamp(fixed(3.0), fixed(4.0));
        assert!(fixed(3.0) <= c && c < fixed(4.0));
        let c = random_clamp(fixed(4.0), fixed(3.0));
        assert!(fixed(3.0) <= c && c <= fixed(4.0));
    }
    assert_eq!(random_d(0), 0);
    assert_eq!(random_clamp(5, 5), 5);
}

#[test]
fn a_fraction_selects_an_offset() {
    assert_eq!(spread_of(0, fixed(2.0)), fixed(-2.0));
    assert_eq!(spread_of(500_000, fixed(2.0)), 0);
    assert_eq!(spread_of(750_000, fixed(2.0)), fixed(1.0));
    assert_eq!(spread_of(999_999, fixed(2.0)), 1_999_996);
    assert_eq!(spread_of(250_000, 3), -1);
    assert_eq!(spread_of(0, i64::MAX), -i64::MAX);
    assert_eq!(spread_of(0, i64::MIN), i64::MAX);
}

#[test]
fn a_fraction_selects_a_point_of_a_range() {
    assert_eq!(along_of(0, fixed(-1.0), fixed(3.0)), fixed(-1.0));
    assert_eq!(along_of(500_000, fixed(-1.0), fixed(3.0)), fixed(1.0));
    assert_eq!(along_of(999_999, fixed(-1.0), fixed(3.0)), 2_999_996);
    assert_eq!(along_of(250_000, fixed(3.0), fixed(-1.0)), fixed(2.0));
    assert_eq!(along_of(999_999, i64::MIN, i64::MAX), i64::MAX - 18_446_744_073_710);
    assert_eq!(along_of(1, 0, 999_999), 0);
}

#[test]
fn lists_are_filled_and_extended() {
    let filled = Vec::<i64>::fill(4, || 7);
    assert_eq!(filled, vec![7, 7, 7, 7]);
    let mut list = vec![1, 2];
    list.append_with(3, || 9);
    assert_eq!(list, vec![1, 2, 9, 9, 9]);
    list.append_with(0, || 5);
    assert_eq!(list.len(), 5);
    assert_eq!(Vec::<u8>::fill(0, || 1), Vec::<u8>::new());
}

#[test]
fn a_sample_is_an_item_of_the_list() {
    let list = vec![10, 20, 30];
    let mut seen = Vec::new();
    for _ in 0..200 {
        let item = *list.sample();
        assert!(list.contains(&item));
        if !seen.contains(&item) {
            seen.push(item);
        }
    }
    assert_eq!(seen.len(), 3);
    assert_eq!(*vec![5].sample(), 5);
}

#[test]
fn a_shuffle_keeps_the_items() {
    let mut moved = false;
    for _ in 0..20 {
        let mut list: Vec<u32> = (0..50).collect();
        list.shuffle();
        assert_eq!(list.len(), 50);
        if list != (0..50).collect::<Vec<u32>>() {
            moved = true;
        }
        list.sort();
        assert_eq!(list, (0..50).collect::<Vec<u32>>());
    }
    assert!(moved);
    let mut twins = vec![1, 1, 2];
    twins.shuffle();
    twins.sort();
    assert_eq!(twins, vec![1, 1, 2]);
    let mut none: Vec<u8> = vec![];
    none.shuffle();
    assert!(none.is_empty());
}

#[test]
fn picks_arrange_a_list() {
    let mut list = vec!['a', 'b', 'c', 'd'];
    arrange(&mut list, &vec![2, 0, 1, 0]);
    assert_eq!(list, vec!['c', 'a', 'd', 'b']);
    let mut same = vec![1, 2, 3];
    arrange(&mut same, &vec![0, 0, 0]);
    assert_eq!(same, vec![1, 2, 3]);
    let mut turned = vec![1, 2, 3];
    arrange(&mut turned, &vec![2, 1, 0]);
    assert_eq!(turned, vec![3, 2, 1]);
    let mut none: Vec<u8> = vec![];
    arrange(&mut none, &vec![]);
    assert!(none.is_empty());
}

#[test]
fn sums_means_and_deviations() {
    let list = vec![fixed(1.0), fixed(3.0)];
    assert_eq!(list.sum(), fixed(4.0));
    assert_eq!(list.mean(), fixed(2.0));
    assert_eq!(list.std_dev(), (fixed(2.0), fixed(1.0)));
    let list = vec![fixed(2.0), fixed(4.0), fixed(4.0), fixed(4.0), fixed(5.0), fixed(5.0), fixed(7.0), fixed(9.0)];
    assert_eq!(list.std_dev(), (fixed(5.0), fixed(2.0)));
    let list = vec![fixed(1.0), fixed(2.0)];
    assert_eq!(list.std_dev(), (fixed(1.5), fixed(0.5)));
    let list = vec![-7, 2];
    assert_eq!(list.mean(), -2);
    assert_eq!(list.sum(), -5);
    let none: Vec<i64> = vec![];
    assert_eq!(none.sum(), 0);
    assert_eq!(none.mean(), 0);
    assert_eq!(none.std_dev(), (0, 0));
    assert_eq!(vec![i64::MAX, i64::MAX].sum(), i64::MAX);
    assert_eq!(vec![i64::MAX, i64::MAX].mean(), i64::MAX);
    assert_eq!(vec![i64::MIN, i64::MIN, 0].sum(), i64::MIN);
    assert_eq!(wide_sum(&vec![i64::MAX, i64::MAX]), 2 * (i64::MAX as i128));
    assert_eq!(vec![fixed(3.0)].std_dev(), (fixed(3.0), 0));
}

#[test]
fn integer_roots_round_down() {
    assert_eq!(integer_root(0), 0);
    assert_eq!(integer_root(1), 1);
    assert_eq!(integer_root(3), 1);
    assert_eq!(integer_root(4), 2);
    assert_eq!(integer_root(99), 9);
    assert_eq!(integer_root(100), 10);
    assert_eq!(integer_root(2_000_000_000_000), 1_414_213);
    assert_eq!(integer_root((1u128 << 96) - 1), (1u128 << 48) - 1);
}

#[test]
fn rectangles_have_edges() {
    let rect: Rect = RectBase::new(3, 4, 10, 20);
    assert_eq!((rect.x, rect.y, rect.width, rect.height), (3, 4, 10, 20));
    assert_eq!(rect.left(), 3);
    assert_eq!(rect.right(), 13);
    assert_eq!(rect.top(), 4);
    assert_eq!(rect.bottom(), 24);
    let real = RectBase::new(0.5, 1.5, 2.0, 3.0);
    assert_eq!(real.right(), 2.5);
    assert_eq!(real.bottom(), 4.5);
    let config = Config { bounds: Rect::new(0, 0, 100, 100) };
    assert_eq!(config.bounds.right(), 100);
    assert_eq!(config.bounds.bottom(), 100);
}
