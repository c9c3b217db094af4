use interpolation_search::Factor;
use interpolation_search::InterpolationFactor;

fn value(f: Factor) -> f32 {
    f.numerator() as f32 / f.denominator() as f32
}

#[test]
fn test_u8() {
    assert_eq!(value(5.interpolation_factor(&0, &10)), 0.5);
    assert_eq!(value(0.interpolation_factor(&0, &10)), 0.0);
    assert_eq!(value(10.interpolation_factor(&0, &10)), 1.0);
    assert_eq!(value(5.interpolation_factor(&5, &5)), 0.5); // Test when a == b
}

#[test]
fn test_u16() {
    assert_eq!(value(5000.interpolation_factor(&0, &10000)), 0.5);
    assert_eq!(value(0.interpolation_factor(&0, &10000)), 0.0);
    assert_eq!(value(10000.interpolation_factor(&0, &10000)), 1.0);
    assert_eq!(value(5000.interpolation_factor(&5000, &5000)), 0.5);
}

#[test]
fn test_u32() {
    assert_eq!(value(50000.interpolation_factor(&0, &100000)), 0.5);
    assert_eq!(value(0.interpolation_factor(&0, &100000)), 0.0);
    assert_eq!(value(100000.interpolation_factor(&0, &100000)), 1.0);
    assert_eq!(value(50000.interpolation_factor(&50000, &50000)), 0.5);
}

#[test]
fn test_u64() {
    assert_eq!(value(500000.interpolation_factor(&0, &1000000)), 0.5);
    assert_eq!(value(0.interpolation_factor(&0, &1000000)), 0.0);
    assert_eq!(value(1000000.interpolation_factor(&0, &1000000)), 1.0);
    assert_eq!(value(500000.interpolation_factor(&500000, &500000)), 0.5);
}

#[test]
fn test_u128() {
    assert_eq!(value(5000000.interpolation_factor(&0, &10000000)), 0.5);
    assert_eq!(value(0.interpolation_factor(&0, &10000000)), 0.0);
    assert_eq!(value(10000000.interpolation_factor(&0, &10000000)), 1.0);
    assert_eq!(value(5000000.interpolation_factor(&5000000, &5000000)), 0.5);
}

#[test]
fn test_usize() {
    assert_eq!(value(500.interpolation_factor(&0, &1000)), 0.5);
    assert_eq!(value(0.interpolation_factor(&0, &1000)), 0.0);
    assert_eq!(value(1000.interpolation_factor(&0, &1000)), 1.0);
    assert_eq!(value(500.interpolation_factor(&500, &500)), 0.5);
}

#[test]
fn test_i8() {
    assert_eq!(value((-5).interpolation_factor(&(-10), &0)), 0.5);
    assert_eq!(value((-10).interpolation_factor(&(-10), &0)), 0.0);
    assert_eq!(value(0.interpolation_factor(&(-10), &0)), 1.0);
    assert_eq!(value((-5).interpolation_factor(&(-5), &(-5))), 0.5);
}

#[test]
fn test_i16() {
    assert_eq!(value((-5000).interpolation_factor(&(-10000), &0)), 0.5);
    assert_eq!(value((-10000).interpolation_factor(&(-10000), &0)), 0.0);
    assert_eq!(value(0.interpolation_factor(&(-10000), &0)), 1.0);
    assert_eq!(value((-5000).interpolation_factor(&(-5000), &(-5000))), 0.5);
}

#[test]
fn test_i32() {
    assert_eq!(value((-50000).interpolation_factor(&(-100000), &0)), 0.5);
    assert_eq!(value((-100000).interpolation_factor(&(-100000), &0)), 0.0);
    assert_eq!(value(0.interpolation_factor(&(-100000), &0)), 1.0);
    assert_eq!(value((-50000).interpolation_factor(&(-50000), &(-50000))), 0.5);
}

#[test]
fn test_i64() {
    assert_eq!(value((-500000).interpolation_factor(&(-1000000), &0)), 0.5);
    assert_eq!(value((-1000000).interpolation_factor(&(-1000000), &0)), 0.0);
    assert_eq!(value(0.interpolation_factor(&(-1000000), &0)), 1.0);
    assert_eq!(value((-500000).interpolation_factor(&(-500000), &(-500000))), 0.5);
}

#[test]
fn test_i128() {
    assert_eq!(value((-5000000).interpolation_factor(&(-10000000), &0)), 0.5);
    assert_eq!(value((-10000000).interpolation_factor(&(-10000000), &0)), 0.0);
    assert_eq!(value(0.interpolation_factor(&(-10000000), &0)), 1.0);
    assert_eq!(
        value((-5000000).interpolation_factor(&(-5000000), &(-5000000))),
        0.5
    );
}

#[test]
fn test_isize() {
    assert_eq!(value((-500).interpolation_factor(&(-1000), &0)), 0.5);
    assert_eq!(value((-1000).interpolation_factor(&(-1000), &0)), 0.0);
    assert_eq!(value(0.interpolation_factor(&(-1000), &0)), 1.0);
    assert_eq!(value((-500).interpolation_factor(&(-500), &(-500))), 0.5);
}

#[test]
fn test_char() {
    assert_eq!(value('c'.interpolation_factor(&'a', &'e')), 0.5);
    assert_eq!(value('a'.interpolation_factor(&'a', &'e')), 0.0);
    assert_eq!(value('e'.interpolation_factor(&'a', &'e')), 1.0);
    assert_eq!(value('c'.interpolation_factor(&'c', &'c')), 0.5);
}

#[test]
fn test_str() {
    assert_eq!(value("ccc".interpolation_factor(&"aaa", &"eee")), 0.5);
    assert_eq!(value("aaa".interpolation_factor(&"aaa", &"eee")), 0.0);
    assert_eq!(value("eee".interpolation_factor(&"aaa", &"eee")), 1.0);
    assert_eq!(value("ccc".interpolation_factor(&"ccc", &"ccc")), 0.5);

    assert_eq!(value("c".interpolation_factor(&"ab", &"cd")), 1.0);
    assert_eq!(value("cc".interpolation_factor(&"a", &"e")), 0.5);
    assert_eq!(value("ab".interpolation_factor(&"ab", &"cde")), 0.0);
    assert_eq!(value("cd".interpolation_factor(&"ab", &"cde")), 1.0);

    assert_eq!(value("xyz".interpolation_factor(&"abc", &"def")), 1.0);
}

#[test]
fn test_string() {
    let s1 = String::from("ccc");
    let s2 = String::from("aaa");
    let s3 = String::from("eee");
    assert_eq!(value(s1.interpolation_factor(&s2, &s3)), 0.5);
    assert_eq!(value(s2.interpolation_factor(&s2, &s3)), 0.0);
    assert_eq!(value(s3.interpolation_factor(&s2, &s3)), 1.0);
    assert_eq!(value(s1.interpolation_factor(&s1.clone(), &s1)), 0.5);
}
