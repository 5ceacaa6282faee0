use flow_core::address::Address;
use flow_core::length::Length;

#[test]
fn address_arithmetic_is_checked() {
    let a = Address::from(0x1000u64);
    assert_eq!(a + Length::from(0x37), Address::from(0x1037u64));
    assert_eq!(a - Length::from(0x1000), Address::null());
    assert_eq!(a.checked_add(Length::from(u64::MAX)), None);
    assert_eq!(a.checked_add(Length::from(1)), Some(Address::from(0x1001u64)));
    assert_eq!(a.checked_sub(Length::from(0x1001)), None);
    assert_eq!(a.checked_sub(Length::from(1)), Some(Address::from(0xfffu64)));
    assert_eq!(Address::from(0x30u64).distance_from(Address::from(0x10u64)), Some(Length::from(0x20)));
    assert_eq!(Address::from(0x10u64).distance_from(Address::from(0x30u64)), None);
}

#[test]
fn address_conversions() {
    assert!(Address::null().is_null());
    assert!(!Address::from(1usize).is_null());
    assert_eq!(Address::from(5i32).as_u64(), 5);
    assert_eq!(Address::from(-1i32).as_u64(), u64::MAX);
    assert_eq!(Address::from(0x1234u64).as_usize(), 0x1234);
}

#[test]
fn address_lower_hex() {
    assert_eq!(Address::from(0x1037u64).to_lower_hex(), b"1037".to_vec());
    assert_eq!(Address::null().to_lower_hex(), b"0".to_vec());
}
