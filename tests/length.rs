use flow_core::length::Length;

#[test]
fn test_from() {
    assert_eq!(Length::zero().as_u64(), 0);
    assert_eq!(Length::from(1337).as_u64(), 1337);
    assert_eq!(Length::from(4321).as_usize(), 4321);
    assert_eq!(Length::from_b(500), Length::from(500));
    assert_eq!(Length::from_kb(20), Length::from(20 * 1024));
    assert_eq!(Length::from_kib(123), Length::from(123 * 1024));
    assert_eq!(Length::from_mb(20), Length::from(20 * 1024 * 1024));
    assert_eq!(Length::from_mib(52), Length::from(52 * 1024 * 1024));
    assert_eq!(Length::from_gb(20), Length::from(20u64 * 1024 * 1024 * 1024));
    assert_eq!(Length::from_gib(52), Length::from(52u64 * 1024 * 1024 * 1024));
}

#[test]
fn test_ops() {
    assert_eq!(Length::from(100) - Length::from(50), Length::from(50));
    assert_eq!(Length::from(100) + Length::from(50), Length::from(150));

    assert_eq!(Length::from(100) + 50i32, Length::from(150));
    assert_eq!(Length::from(100) + 50u32, Length::from(150));
    assert_eq!(Length::from(100) + 50i64, Length::from(150));
    assert_eq!(Length::from(100) + 50u64, Length::from(150));
    assert_eq!(Length::from(100) + 50usize, Length::from(150));

    assert_eq!(Length::from(100) - 50i32, Length::from(50));
    assert_eq!(Length::from(100) - 50u32, Length::from(50));
    assert_eq!(Length::from(100) - 50i64, Length::from(50));
    assert_eq!(Length::from(100) - 50u64, Length::from(50));
    assert_eq!(Length::from(100) - 50usize, Length::from(50));
}

#[test]
fn add_then_sub_gives_back_the_original() {
    let a = Length::from(123456u64);
    let b = Length::from(u64::MAX - 123456);
    assert_eq!((a + b) - b, a);
    assert_eq!((a + b).as_u64(), u64::MAX);
    let c = Length::from_b(0);
    assert_eq!((a + c) - c, a);
}

#[test]
fn unit_constructors_are_powers_of_1024() {
    assert_eq!(Length::from_kb(3).as_u64(), 3 * 1024);
    assert_eq!(Length::from_mb(3).as_u64(), 3 * 1024 * 1024);
    assert_eq!(Length::from_gb(3).as_u64(), 3 * 1024 * 1024 * 1024);
    assert_eq!(Length::from_gib(1).as_u64(), 1 << 30);
    assert_eq!(Length::from_kb(0).as_u64(), 0);
    let largest = u64::MAX / 1024;
    assert_eq!(Length::from_kb(largest).as_u64(), largest * 1024);
}

#[test]
fn zero_is_the_identity_of_addition() {
    for x in [0u64, 1, 4096, u64::MAX] {
        assert_eq!(Length::zero() + Length::from(x), Length::from(x));
    }
}

#[test]
fn signed_operands_move_the_count_both_ways() {
    assert_eq!(Length::from(100) + (-30i32), Length::from(70));
    assert_eq!(Length::from(100) - (-30i64), Length::from(130));
    assert_eq!(Length::from(u64::MAX) + i64::MIN, Length::from(u64::MAX - (1u64 << 63)));
    assert_eq!(Length::from(0u64) - i64::MIN, Length::from(1u64 << 63));
}

#[test]
fn conversions_widen_and_compare() {
    assert_eq!(Length::from(7usize).as_u64(), 7);
    assert_eq!(Length::from(-1i32).as_u64(), u64::MAX);
    assert!(Length::from(1) < Length::from(2));
}

#[test]
fn in_place_operators() {
    let mut x = Length::from(100);
    x += Length::from(50);
    assert_eq!(x, Length::from(150));
    x -= Length::from(25);
    assert_eq!(x, Length::from(125));
    x += 5i32;
    x += 5u32;
    x += 5i64;
    x += 5u64;
    x += 5usize;
    assert_eq!(x, Length::from(150));
    x -= 10i32;
    x -= 10u32;
    x -= 10i64;
    x -= 10u64;
    x -= 10usize;
    assert_eq!(x, Length::from(100));
    x += -100i64;
    assert_eq!(x, Length::zero());
}

#[test]
fn lower_hex_digits() {
    assert_eq!(Length::from(0x1a2bu64).to_lower_hex(), b"1a2b".to_vec());
    assert_eq!(Length::zero().to_lower_hex(), b"0".to_vec());
    assert_eq!(Length::from(u64::MAX).to_lower_hex(), b"ffffffffffffffff".to_vec());
}
