use interpolation_search::lerp_index;
use interpolation_search::Factor;
use interpolation_search::InterpolationFactor;
use interpolation_search::InterpolationSearch;
use interpolation_search::KeyOrder;

fn parts(f: Factor) -> (u128, u128) {
    (f.numerator(), f.denominator())
}

fn factor(num: u128, den: u128) -> Factor {
    Factor::new(num, den).unwrap()
}

#[test]
fn factor_new_accepts_only_unit_fractions() {
    assert_eq!(parts(factor(0, 1)), (0, 1));
    assert_eq!(parts(factor(3, 3)), (3, 3));
    assert!(Factor::new(4, 3).is_none());
    assert!(Factor::new(0, 0).is_none());
    assert_eq!(parts(Factor::half()), (1, 2));
}

#[test]
fn integer_factor_is_exact() {
    assert_eq!(parts(7u8.interpolation_factor(&2, &12)), (5, 10));
    assert_eq!(parts(200u8.interpolation_factor(&2, &12)), (10, 10));
    assert_eq!(parts(0u8.interpolation_factor(&2, &12)), (0, 10));
    assert_eq!(parts(9u8.interpolation_factor(&9, &9)), (1, 2));
    assert_eq!(parts((-3i16).interpolation_factor(&-7, &5)), (4, 12));
}

#[test]
fn factor_at_type_extremes() {
    assert_eq!(
        parts(u128::MAX.interpolation_factor(&0, &u128::MAX)),
        (u128::MAX, u128::MAX)
    );
    assert_eq!(
        parts(0i128.interpolation_factor(&i128::MIN, &i128::MAX)),
        (1u128 << 127, u128::MAX)
    );
    assert_eq!(
        parts(i128::MIN.interpolation_factor(&i128::MIN, &i128::MAX)),
        (0, u128::MAX)
    );
    assert_eq!(
        parts(i64::MAX.interpolation_factor(&i64::MIN, &i64::MAX)),
        (u64::MAX as u128, u64::MAX as u128)
    );
    assert_eq!(
        parts((-1isize).interpolation_factor(&isize::MIN, &-1)),
        ((isize::MAX as u128), (isize::MAX as u128))
    );
}

#[test]
fn char_factor_uses_code_points() {
    assert_eq!(parts('b'.interpolation_factor(&'a', &'e')), (1, 4));
    assert_eq!(parts('\u{10FFFF}'.interpolation_factor(&'\0', &'\u{10FFFF}')), (0x10FFFF, 0x10FFFF));
}

#[test]
fn text_factor_uses_first_split() {
    assert_eq!(parts("abq".interpolation_factor(&"abc", &"abz")), (14, 23));
    assert_eq!(parts("ab".interpolation_factor(&"abc", &"abz")), (1, 2));
    assert_eq!(parts("same".interpolation_factor(&"same", &"same")), (1, 2));
    let m = String::from("\u{0561}");
    let a = String::from("\u{0530}");
    let b = String::from("\u{0590}");
    assert_eq!(parts(m.interpolation_factor(&a, &b)), (0x31, 0x60));
}

#[test]
fn compare_key_follows_key_order() {
    assert_eq!(3i32.compare_key(&5), KeyOrder::Less);
    assert_eq!(5i32.compare_key(&5), KeyOrder::Equal);
    assert_eq!(7u64.compare_key(&5), KeyOrder::Greater);
    assert_eq!('z'.compare_key(&'a'), KeyOrder::Greater);
    assert_eq!("ab".compare_key(&"abc"), KeyOrder::Less);
    assert_eq!("abd".compare_key(&"abc"), KeyOrder::Greater);
    assert_eq!("\u{0561}".compare_key(&"z"), KeyOrder::Greater);
    assert_eq!(String::from("x").compare_key(&String::from("x")), KeyOrder::Equal);
}

#[test]
fn lerp_index_exact_values() {
    assert_eq!(lerp_index(0, 10, &factor(0, 1)), 0);
    assert_eq!(lerp_index(0, 10, &factor(1, 1)), 9);
    assert_eq!(lerp_index(0, 10, &factor(1, 2)), 5);
    assert_eq!(lerp_index(0, 10, &factor(1, 4)), 2);
    assert_eq!(lerp_index(0, 10, &factor(3, 4)), 7);
    assert_eq!(lerp_index(0, 1, &factor(0, 1)), 0);
    assert_eq!(lerp_index(0, 1, &factor(1, 1)), 0);
    assert_eq!(lerp_index(0, 0, &factor(0, 1)), 0);
    assert_eq!(lerp_index(0, 0, &factor(1, 1)), 0);
    assert_eq!(lerp_index(5, 15, &factor(0, 1)), 5);
    assert_eq!(lerp_index(5, 15, &factor(1, 1)), 14);
    assert_eq!(lerp_index(5, 15, &factor(1, 2)), 10);
    assert_eq!(lerp_index(10, 5, &factor(0, 1)), 10);
}

#[test]
fn lerp_index_with_wide_fraction() {
    assert_eq!(lerp_index(0, 100, &factor(u128::MAX / 2, u128::MAX)), 49);
    assert_eq!(lerp_index(0, usize::MAX, &factor(u128::MAX, u128::MAX)), usize::MAX - 1);
    assert_eq!(lerp_index(3, 4, &factor(1, 3)), 3);
}

#[test]
fn search_matches_binary_search_on_sorted_keys() {
    let arr: Vec<i64> = vec![-40, -7, -7, 0, 3, 3, 3, 9, 27, 81, 1000];
    for n in -50..1100 {
        match arr.interpolation_search(&n) {
            Ok(i) => assert_eq!(arr[i], n),
            Err(i) => assert_eq!(Err(i), arr.binary_search(&n)),
        }
    }
}

#[test]
fn insertion_at_err_keeps_order() {
    let arr = vec![2u32, 4, 8, 16, 32];
    for n in [0u32, 3, 5, 9, 31, 33] {
        let i = arr.interpolation_search(&n).unwrap_err();
        let mut grown = arr.clone();
        grown.insert(i, n);
        assert!(grown.windows(2).all(|w| w[0] <= w[1]));
    }
}

#[test]
fn unsorted_input_gives_real_matches_only() {
    let arr = [9, 1, 7, 3, 5, 2, 8];
    for n in 0..12 {
        match arr.interpolation_search(&n) {
            Ok(i) => assert_eq!(arr[i], n),
            Err(i) => assert!(i <= arr.len()),
        }
    }
}

#[test]
fn search_extreme_integers() {
    let arr = [i128::MIN, -1, 0, 1, i128::MAX];
    assert_eq!(arr.interpolation_search(&i128::MIN), Ok(0));
    assert_eq!(arr.interpolation_search(&i128::MAX), Ok(4));
    assert_eq!(arr.interpolation_search(&2), Err(4));
    let arr = [0u128, 1, u128::MAX - 1, u128::MAX];
    assert_eq!(arr.interpolation_search(&(u128::MAX - 1)), Ok(2));
    assert_eq!(arr.interpolation_search(&7), Err(2));
}

#[test]
fn search_strings() {
    let words = vec![String::from("ant"), String::from("bee"), String::from("cat"), String::from("dog")];
    assert_eq!(words.interpolation_search(&String::from("cat")), Ok(2));
    assert_eq!(words.interpolation_search(&String::from("cow")), Err(3));
    assert_eq!(words.interpolation_search(&String::from("aardvark")), Err(0));
}

#[test]
fn search_by_key_with_skewed_keys() {
    let data: Vec<(u8, u64)> = (0..60u64).map(|i| (0u8, i * i * i)).collect();
    for (i, (_, k)) in data.iter().enumerate() {
        assert_eq!(data.interpolation_search_by_key(k, |p| &p.1), Ok(i));
    }
    assert_eq!(data.interpolation_search_by_key(&2, |p| &p.1), Err(2));
    assert_eq!(data.interpolation_search_by_key(&300_000, |p| &p.1), Err(60));
}

#[test]
fn lerp_index_with_denominator_above_u64() {
    let small = factor(1u128 << 63, 6 * (1u128 << 62) + 1);
    let large = factor((1u128 << 63) + 1, 3 * (1u128 << 63) + 4);
    assert_eq!(lerp_index(0, 3, &small), 0);
    assert_eq!(lerp_index(0, 3, &large), 0);
    assert_eq!(lerp_index(0, 3, &factor(1u128 << 100, 3 * (1u128 << 99))), 2);
    assert_eq!(lerp_index(0, 7, &factor((1u128 << 120) - 1, 1u128 << 121)), 3);
    assert_eq!(lerp_index(10, 1_000_010, &factor(u128::MAX / 3, u128::MAX)), 333_343);
}

#[test]
fn lerp_index_is_monotone_in_the_factor() {
    let den: u128 = (1u128 << 70) + 12345;
    let mut previous = 0;
    for step in 0..=64u128 {
        let num = den / 64 * step + if step == 64 { den % 64 } else { 0 };
        let index = lerp_index(0, 1000, &factor(num, den));
        assert!(index >= previous);
        assert_eq!(index as u128, (1000 * num / den).min(999));
        previous = index;
    }
}

#[test]
fn result_depends_on_keys_and_target_only() {
    let keys = [1u16, 4, 4, 4, 9, 9, 30, 31, 31, 31, 31, 80];
    let pairs: Vec<(char, u16)> = keys.iter().map(|k| ('x', *k)).collect();
    let triples: Vec<(u16, bool, u8)> = keys.iter().map(|k| (*k, true, 7)).collect();
    for t in 0..90u16 {
        let plain = keys.interpolation_search(&t);
        assert_eq!(pairs.interpolation_search_by_key(&t, |p| &p.1), plain);
        assert_eq!(triples.interpolation_search_by_key(&t, |p| &p.0), plain);
        assert_eq!(keys.interpolation_search(&t), plain);
    }
}
