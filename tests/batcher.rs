use flow_core::address::Address;
use flow_core::batcher::Batcher;
use flow_core::dummy::DummyMemory;
use flow_core::mem::MemError;

fn patterned(size: usize) -> DummyMemory {
    let bytes: Vec<u8> = (0..size).map(|i| (i % 251) as u8).collect();
    DummyMemory::from_bytes(bytes)
}

#[test]
fn one_backend_call_per_direction() {
    let mut mem = patterned(0x1000);
    let mut b = Batcher::new();
    for i in 0..5u64 {
        b.read_into(Address::from(i * 16), vec![0u8; 4]);
    }
    for i in 0..3u64 {
        b.write_from(Address::from(0x800 + i * 16), vec![0xaa; 2]);
    }
    let done = b.commit_rw(&mut mem);
    assert_eq!(done.result, Ok(()));
    assert_eq!(mem.read_calls(), 1);
    assert_eq!(mem.write_calls(), 1);
}

#[test]
fn empty_commit_calls_nothing() {
    let mut mem = patterned(0x100);
    let mut b = Batcher::new();
    let done = b.commit_rw(&mut mem);
    assert_eq!(done.result, Ok(()));
    assert!(done.reads.is_empty());
    assert_eq!(mem.read_calls(), 0);
    assert_eq!(mem.write_calls(), 0);
}

#[test]
fn reads_only_skip_the_write_call() {
    let mut mem = patterned(0x100);
    let mut b = Batcher::new();
    b.read_into(Address::from(3u64), vec![0u8; 2]);
    let done = b.commit_rw(&mut mem);
    assert_eq!(done.result, Ok(()));
    assert_eq!(mem.read_calls(), 1);
    assert_eq!(mem.write_calls(), 0);
}

#[test]
fn read_buffers_hold_the_target_bytes() {
    let mut mem = patterned(0x1000);
    let mut b = Batcher::new();
    let addrs = [0x10u64, 0x3f0, 0x7, 0xffc];
    for (n, a) in addrs.iter().enumerate() {
        let handle = b.read_into(Address::from(*a), vec![0u8; 4]);
        assert_eq!(handle, n);
    }
    let done = b.commit_rw(&mut mem);
    assert_eq!(done.result, Ok(()));
    assert_eq!(done.reads.len(), addrs.len());
    for (req, a) in done.reads.iter().zip(addrs.iter()) {
        assert_eq!(req.addr, Address::from(*a));
        let expect: Vec<u8> = (0..4u64).map(|j| ((*a + j) % 251) as u8).collect();
        assert_eq!(req.buf, expect);
    }
}

#[test]
fn prealloc_changes_neither_calls_nor_results() {
    let mut with = patterned(0x4000);
    let mut without = patterned(0x4000);
    let mut b1 = Batcher::new();
    let mut b2 = Batcher::new();
    b1.read_prealloc(100);
    for i in 0..100u64 {
        b1.read_into(Address::from(i * 37), vec![0u8; 16]);
        b2.read_into(Address::from(i * 37), vec![0u8; 16]);
    }
    let d1 = b1.commit_rw(&mut with);
    let d2 = b2.commit_rw(&mut without);
    assert_eq!(d1.result, Ok(()));
    assert_eq!(d2.result, Ok(()));
    assert_eq!(with.read_calls(), 1);
    assert_eq!(with.read_calls(), without.read_calls());
    for (x, y) in d1.reads.iter().zip(d2.reads.iter()) {
        assert_eq!(x.buf, y.buf);
    }
}

#[test]
fn out_of_range_read_fails_the_commit() {
    let mut mem = patterned(0x100);
    let mut b = Batcher::new();
    b.read_into(Address::from(0x10u64), vec![0u8; 4]);
    b.read_into(Address::from(0xfeu64), vec![0u8; 4]);
    let done = b.commit_rw(&mut mem);
    assert_eq!(done.result, Err(MemError::OutOfRange));
    assert_eq!(done.reads[0].buf, vec![0x10, 0x11, 0x12, 0x13]);
    assert_eq!(mem.read_calls(), 1);
}

#[test]
fn writes_reach_the_target_and_the_queue_empties() {
    let mut mem = DummyMemory::new(0x20);
    let mut b = Batcher::new();
    b.write_from(Address::from(0x4u64), vec![1, 2, 3]);
    b.write_from(Address::from(0x10u64), vec![9]);
    let done = b.commit_rw(&mut mem);
    assert_eq!(done.result, Ok(()));
    let bytes = mem.bytes();
    assert_eq!(&bytes[0x3..0x8], &[0, 1, 2, 3, 0]);
    assert_eq!(bytes[0x10], 9);
    let again = b.commit_rw(&mut mem);
    assert_eq!(again.result, Ok(()));
    assert_eq!(mem.write_calls(), 1);
}

#[test]
fn out_of_range_write_fails() {
    let mut mem = DummyMemory::new(0x10);
    let mut b = Batcher::new();
    b.write_from(Address::from(0xeu64), vec![1, 2, 3]);
    let done = b.commit_rw(&mut mem);
    assert_eq!(done.result, Err(MemError::OutOfRange));
}

#[test]
fn failed_write_keeps_filled_reads() {
    let mut mem = patterned(0x100);
    let mut b = Batcher::new();
    b.read_into(Address::from(0x20u64), vec![0u8; 3]);
    b.write_from(Address::from(0xffu64), vec![1, 2]);
    let done = b.commit_rw(&mut mem);
    assert_eq!(done.result, Err(MemError::OutOfRange));
    assert_eq!(done.reads[0].buf, vec![0x20, 0x21, 0x22]);
    assert_eq!(mem.read_calls(), 1);
    assert_eq!(mem.write_calls(), 1);
}
