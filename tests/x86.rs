use flow_core::address::Address;
use flow_core::dummy::DummyMemory;
use flow_core::mem::MemError;
use flow_core::x86::{entry_address, entry_from_bytes, vtop, vtop_many, walk_step, Step, TranslateError};

fn put_entry(mem: &mut [u8], at: usize, e: u64) {
    mem[at..at + 8].copy_from_slice(&e.to_le_bytes());
}

/// Tables at 0x2000 (top), 0x3000, 0x4000 and 0x5000, chained through
/// entry 0; the last one maps virtual page 0 to physical page 0x1000.
fn four_levels() -> Vec<u8> {
    let mut m = vec![0u8; 0x6000];
    put_entry(&mut m, 0x2000, 0x3000 | 0x3);
    put_entry(&mut m, 0x3000, 0x4000 | 0x3);
    put_entry(&mut m, 0x4000, 0x5000 | 0x3);
    put_entry(&mut m, 0x5000, 0x1000 | 0x3);
    m
}

#[test]
fn page_zero_maps_to_0x1000() {
    let mut mem = DummyMemory::from_bytes(four_levels());
    let r = vtop(&mut mem, Address::from(0x2000u64), Address::from(0x37u64));
    assert_eq!(r, Ok(Address::from(0x1037u64)));
    assert_eq!(mem.read_calls(), 4);
}

#[test]
fn top_level_not_present() {
    let mut m = four_levels();
    put_entry(&mut m, 0x2000, 0x3000);
    let mut mem = DummyMemory::from_bytes(m);
    let r = vtop(&mut mem, Address::from(0x2000u64), Address::from(0x37u64));
    assert_eq!(r, Err(TranslateError::NotPresent { level: 4 }));
    assert_eq!(mem.read_calls(), 1);
}

#[test]
fn two_mib_page_passes_low_21_bits() {
    let mut m = four_levels();
    put_entry(&mut m, 0x4000 + 8, 0x4000_0000 | 0x80 | 0x1);
    let mut mem = DummyMemory::from_bytes(m);
    let r = vtop(&mut mem, Address::from(0x2000u64), Address::from(0x34_5678u64));
    assert_eq!(r, Ok(Address::from(0x4014_5678u64)));
    assert_eq!(mem.read_calls(), 3);
}

#[test]
fn one_gib_page_passes_low_30_bits() {
    let mut m = four_levels();
    put_entry(&mut m, 0x3000 + 8, 0x8000_0000 | 0x80 | 0x1);
    let mut mem = DummyMemory::from_bytes(m);
    let r = vtop(&mut mem, Address::from(0x2000u64), Address::from(0x7234_5678u64));
    assert_eq!(r, Ok(Address::from(0xb234_5678u64)));
    assert_eq!(mem.read_calls(), 2);
}

#[test]
fn large_bit_at_top_level_is_unsupported() {
    let mut m = four_levels();
    put_entry(&mut m, 0x2000, 0x3000 | 0x80 | 0x1);
    let mut mem = DummyMemory::from_bytes(m);
    let r = vtop(&mut mem, Address::from(0x2000u64), Address::from(0x37u64));
    assert_eq!(r, Err(TranslateError::Unsupported { level: 4 }));
}

#[test]
fn table_outside_the_target_is_a_backend_error() {
    let mut mem = DummyMemory::from_bytes(four_levels());
    let r = vtop(&mut mem, Address::from(0x10_0000u64), Address::from(0x37u64));
    assert_eq!(r, Err(TranslateError::Mem(MemError::OutOfRange)));
}

#[test]
fn many_walks_share_one_read_per_level() {
    let mut m = four_levels();
    put_entry(&mut m, 0x5000 + 8, 0x7000 | 0x3);
    put_entry(&mut m, 0x4000 + 8, 0x4000_0000 | 0x80 | 0x1);
    let mut mem = DummyMemory::from_bytes(m);
    let addrs = vec![
        Address::from(0x37u64),
        Address::from(0x1abcu64),
        Address::from(0x34_5678u64),
        Address::from(0x2000u64),
        Address::from(0x80_0000_0000u64),
    ];
    let r = vtop_many(&mut mem, Address::from(0x2000u64), &addrs);
    assert_eq!(r.len(), 5);
    assert_eq!(r[0], Ok(Address::from(0x1037u64)));
    assert_eq!(r[1], Ok(Address::from(0x7abcu64)));
    assert_eq!(r[2], Ok(Address::from(0x4014_5678u64)));
    assert_eq!(r[3], Err(TranslateError::NotPresent { level: 1 }));
    assert_eq!(r[4], Err(TranslateError::NotPresent { level: 4 }));
    assert_eq!(mem.read_calls(), 4);
}

#[test]
fn step_decisions() {
    assert_eq!(walk_step(4, 0x3000, 0), Step::NotPresent);
    assert_eq!(walk_step(3, 0x1234_5003, 0), Step::Table(0x1234_5000));
    assert_eq!(walk_step(1, 0xfff0_0000_0000_1001, 0xabc), Step::Page(0x1abc));
    assert_eq!(walk_step(2, 0x4000_0081, 0x1f_ffff), Step::Page(0x401f_ffff));
    assert_eq!(walk_step(4, 0x81, 0), Step::Unsupported);
}

#[test]
fn entry_decoding_and_addressing() {
    let b = vec![0x01, 0x02, 0x03, 0x04, 0x05, 0x06, 0x07, 0x08];
    assert_eq!(entry_from_bytes(&b), 0x0807_0605_0403_0201);
    assert_eq!(entry_address(0x2fff, 4, 0x0000_ff80_0000_0000), 0x2000 + 0x1ff * 8);
    assert_eq!(entry_address(0x2000, 1, 0x3000), 0x2000 + 3 * 8);
}

#[test]
fn reserved_bits_in_large_pages_are_unsupported() {
    assert_eq!(walk_step(2, 0x4000_0000 | 0x2000 | 0x81, 0), Step::Unsupported);
    assert_eq!(walk_step(3, 0x8000_0000 | 0x2000_0000 | 0x81, 0), Step::Unsupported);
    let mut m = four_levels();
    put_entry(&mut m, 0x4000 + 8, 0x4000_0000 | 0x10_0000 | 0x80 | 0x1);
    let mut mem = DummyMemory::from_bytes(m);
    let r = vtop(&mut mem, Address::from(0x2000u64), Address::from(0x34_5678u64));
    assert_eq!(r, Err(TranslateError::Unsupported { level: 2 }));
    assert_eq!(mem.read_calls(), 3);
}

#[test]
fn many_walks_stop_when_none_is_pending() {
    let mut m = four_levels();
    put_entry(&mut m, 0x2000, 0x3000);
    let mut mem = DummyMemory::from_bytes(m);
    let addrs = vec![Address::from(0x37u64), Address::from(0x1000u64)];
    let r = vtop_many(&mut mem, Address::from(0x2000u64), &addrs);
    assert_eq!(r, vec![Err(TranslateError::NotPresent { level: 4 }), Err(TranslateError::NotPresent { level: 4 })]);
    assert_eq!(mem.read_calls(), 1);
}
