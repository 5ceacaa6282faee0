//! An in-process backend over a byte vector, counting the batches it is
//! handed.

use vstd::prelude::*;
use crate::address::Address;
use crate::mem::{
    byte_after_writes, covers, holds_bytes_at, read_shape, same_shape, MemError, PhysicalMemory,
    ReadRequest, WriteRequest,
};

verus! {

/// A count of calls: exact as a ghost number, and shown at run time up to
/// `u64::MAX`, where it stays.
pub struct CallCount {
    shown: u64,
    total: Ghost<nat>,
}

impl CallCount {
    #[verifier::type_invariant]
    spec fn shown_matches(self) -> bool {
        self.shown as nat == if self.total@ <= u64::MAX {
            self.total@
        } else {
            u64::MAX as nat
        }
    }

    pub closed spec fn total(self) -> nat {
        self.total@
    }

    pub fn new() -> (r: CallCount)
        ensures
            r.total() == 0,
    {
        CallCount { shown: 0, total: Ghost(0) }
    }

    pub fn bump(&mut self)
        ensures
            final(self).total() == old(self).total() + 1,
    {
        proof {
            use_type_invariant(&*self);
        }
        let shown = if self.shown < u64::MAX {
            self.shown + 1
        } else {
            u64::MAX
        };
        *self = CallCount { shown, total: Ghost(self.total@ + 1) };
    }

    pub fn get(&self) -> (r: u64)
        ensures
            self.total() <= u64::MAX ==> r as nat == self.total(),
            self.total() > u64::MAX ==> r == u64::MAX,
    {
        proof {
            use_type_invariant(self);
        }
        self.shown
    }
}

/// The read batches handed to a backend: the exact record as a ghost
/// sequence, and their number shown at run time up to `u64::MAX`.
pub struct ReadHistory {
    shown: u64,
    log: Ghost<Seq<(Seq<(nat, nat)>, Result<(), MemError>)>>,
}

impl ReadHistory {
    #[verifier::type_invariant]
    spec fn shown_matches(self) -> bool {
        self.shown as nat == if self.log@.len() <= u64::MAX {
            self.log@.len()
        } else {
            u64::MAX as nat
        }
    }

    pub closed spec fn log(self) -> Seq<(Seq<(nat, nat)>, Result<(), MemError>)> {
        self.log@
    }

    pub fn new() -> (r: ReadHistory)
        ensures
            r.log() == Seq::<(Seq<(nat, nat)>, Result<(), MemError>)>::empty(),
    {
        ReadHistory { shown: 0, log: Ghost(Seq::empty()) }
    }

    pub fn record(&mut self, batch: Ghost<(Seq<(nat, nat)>, Result<(), MemError>)>)
        ensures
            final(self).log() == old(self).log().push(batch@),
    {
        proof {
            use_type_invariant(&*self);
        }
        let shown = if self.shown < u64::MAX {
            self.shown + 1
        } else {
            u64::MAX
        };
        *self = ReadHistory { shown, log: Ghost(self.log@.push(batch@)) };
    }

    pub fn count(&self) -> (r: u64)
        ensures
            self.log().len() <= u64::MAX ==> r as nat == self.log().len(),
    {
        proof {
            use_type_invariant(self);
        }
        self.shown
    }
}

/// A target whose physical memory is a byte vector starting at address
/// zero. A request that reaches past its end fails the batch.
pub struct DummyMemory {
    mem: Vec<u8>,
    reads: ReadHistory,
    writes: CallCount,
}

impl DummyMemory {
    /// A target of `size` zero bytes.
    pub fn new(size: usize) -> (r: DummyMemory)
        ensures
            r.phys_view() == Seq::new(size as nat, |i: int| 0u8),
            r.read_log().len() == 0,
            r.write_batches() == 0,
    {
        let mem: Vec<u8> = vec![0u8; size];
        proof {
            assert(mem@ =~= Seq::new(size as nat, |i: int| 0u8));
        }
        DummyMemory { mem, reads: ReadHistory::new(), writes: CallCount::new() }
    }

    /// A target holding `bytes`.
    pub fn from_bytes(bytes: Vec<u8>) -> (r: DummyMemory)
        ensures
            r.phys_view() == bytes@,
            r.read_log().len() == 0,
            r.write_batches() == 0,
    {
        DummyMemory { mem: bytes, reads: ReadHistory::new(), writes: CallCount::new() }
    }

    /// The number of read batches handed to this target so far, up to
    /// `u64::MAX`.
    pub fn read_calls(&self) -> (r: u64)
        ensures
            self.read_log().len() <= u64::MAX ==> r as nat == self.read_log().len(),
    {
        self.reads.count()
    }

    /// The number of write batches handed to this target so far, up to
    /// `u64::MAX`.
    pub fn write_calls(&self) -> (r: u64)
        ensures
            self.write_batches() <= u64::MAX ==> r as nat == self.write_batches(),
    {
        self.writes.get()
    }

    /// The target's contents.
    pub fn bytes(&self) -> (r: &Vec<u8>)
        ensures
            r@ == self.phys_view(),
    {
        &self.mem
    }

    /// Whether `len` bytes from `addr` lie inside the target.
    fn in_range(&self, addr: Address, len: usize) -> (r: bool)
        ensures
            r == (addr@ + len <= self.mem@.len()),
            self.mem@.len() <= usize::MAX,
    {
        let a = addr.as_u64();
        let size = self.mem.len();
        (len as u64) <= (size as u64) && a <= (size - len) as u64
    }

    /// A copy of the `len` bytes from `addr`.
    fn copy_out(&self, addr: usize, len: usize) -> (r: Vec<u8>)
        requires
            addr + len <= self.mem@.len(),
        ensures
            r@ =~= self.mem@.subrange(addr as int, addr + len),
    {
        let size = self.mem.len();
        let mut out: Vec<u8> = Vec::with_capacity(len);
        let mut j: usize = 0;
        while j < len
            invariant
                j <= len,
                size == self.mem@.len(),
                addr + len <= self.mem@.len(),
                out@ =~= self.mem@.subrange(addr as int, addr + j),
            decreases len - j,
        {
            out.push(self.mem[addr + j]);
            j = j + 1;
        }
        out
    }
}

/// Byte `p` of `cur` is what the first `n` writes of `reqs` leave there,
/// applied to `before` in some order.
spec fn applied_at(before: Seq<u8>, cur: Seq<u8>, reqs: Seq<WriteRequest>, n: int, p: int) -> bool {
    &&& (forall|k: int| 0 <= k < n ==> !covers(#[trigger] reqs[k], p)) ==> cur[p] == before[p]
    &&& (exists|k: int| 0 <= k < n && covers(#[trigger] reqs[k], p)) ==> exists|k: int|
        0 <= k < n && covers(#[trigger] reqs[k], p) && cur[p] == reqs[k].buf@[p - reqs[k].addr@]
}

spec fn applied_prefix(before: Seq<u8>, cur: Seq<u8>, reqs: Seq<WriteRequest>, n: int) -> bool {
    forall|p: int| 0 <= p < before.len() ==> #[trigger] applied_at(before, cur, reqs, n, p)
}

impl PhysicalMemory for DummyMemory {
    closed spec fn phys_view(&self) -> Seq<u8> {
        self.mem@
    }

    closed spec fn read_log(&self) -> Seq<(Seq<(nat, nat)>, Result<(), MemError>)> {
        self.reads.log()
    }

    closed spec fn write_batches(&self) -> nat {
        self.writes.total()
    }

    fn phys_read_iter(&mut self, reqs: &mut Vec<ReadRequest>) -> (r: Result<(), MemError>) {
        let ghost before = reqs@;
        let mut failed = false;
        let mut i: usize = 0;
        while i < reqs.len()
            invariant
                i <= reqs@.len(),
                reqs@.len() == before.len(),
                same_shape(before, reqs@),
                forall|k: int| i <= k < reqs@.len() ==> #[trigger] reqs@[k] == before[k],
                !failed ==> forall|k: int|
                    0 <= k < i ==> holds_bytes_at(self.mem@, reqs@[k].addr@, #[trigger] reqs@[k].buf@),
            decreases reqs@.len() - i,
        {
            let addr = reqs[i].addr;
            let len = reqs[i].buf.len();
            if self.in_range(addr, len) {
                let bytes = self.copy_out(addr.as_u64() as usize, len);
                reqs[i] = ReadRequest { addr, buf: bytes };
            } else {
                failed = true;
            }
            i = i + 1;
        }
        let r = if failed {
            Err(MemError::OutOfRange)
        } else {
            Ok(())
        };
        self.reads.record(Ghost((read_shape(before), r)));
        r
    }

    fn phys_write_iter(&mut self, reqs: &Vec<WriteRequest>) -> (r: Result<(), MemError>) {
        self.writes.bump();
        let size = self.mem.len();
        let mut i: usize = 0;
        while i < reqs.len()
            invariant
                i <= reqs@.len(),
                self.read_log() == old(self).read_log(),
                self.write_batches() == old(self).write_batches() + 1,
                self.mem@ == old(self).mem@,
                self.mem@.len() <= usize::MAX,
                forall|k: int| 0 <= k < i ==> (#[trigger] reqs@[k]).addr@ + reqs@[k].buf@.len() <= self.mem@.len(),
            decreases reqs@.len() - i,
        {
            if !self.in_range(reqs[i].addr, reqs[i].buf.len()) {
                return Err(MemError::OutOfRange);
            }
            i = i + 1;
        }
        let ghost before = self.mem@;
        let mut i: usize = 0;
        while i < reqs.len()
            invariant
                i <= reqs@.len(),
                self.read_log() == old(self).read_log(),
                self.write_batches() == old(self).write_batches() + 1,
                self.mem@.len() == before.len(),
                before.len() <= usize::MAX,
                forall|k: int| 0 <= k < reqs@.len() ==> (#[trigger] reqs@[k]).addr@ + reqs@[k].buf@.len() <= before.len(),
                applied_prefix(before, self.mem@, reqs@, i as int),
            decreases reqs@.len() - i,
        {
            let ghost mid = self.mem@;
            let base = reqs[i].addr.as_u64() as usize;
            let len = reqs[i].buf.len();
            let mut j: usize = 0;
            while j < len
                invariant
                    i < reqs@.len(),
                    base == reqs@[i as int].addr@,
                    len == reqs@[i as int].buf@.len(),
                    base + len <= before.len(),
                    before.len() <= usize::MAX,
                    applied_prefix(before, mid, reqs@, i as int),
                    j <= len,
                    self.mem@.len() == before.len(),
                    self.read_log() == old(self).read_log(),
                    self.write_batches() == old(self).write_batches() + 1,
                    forall|p: int| 0 <= p < before.len() && !(base <= p < base + j) ==> self.mem@[p] == mid[p],
                    forall|p: int| base <= p < base + j ==> self.mem@[p] == reqs@[i as int].buf@[p - base],
                decreases len - j,
            {
                self.mem[base + j] = reqs[i].buf[j];
                j = j + 1;
            }
            let ghost next: int = i + 1;
            proof {
                assert forall|p: int| 0 <= p < before.len() implies #[trigger] applied_at(before, self.mem@, reqs@, next, p) by {
                    assert(applied_at(before, mid, reqs@, i as int, p));
                    if covers(reqs@[i as int], p) {
                        assert(self.mem@[p] == reqs@[i as int].buf@[p - reqs@[i as int].addr@]);
                        assert(0 <= i < i + 1 && covers(reqs@[i as int], p));
                    } else {
                        assert(self.mem@[p] == mid[p]);
                        if exists|k: int| 0 <= k < i + 1 && covers(#[trigger] reqs@[k], p) {
                            let k = choose|k: int| 0 <= k < i + 1 && covers(#[trigger] reqs@[k], p);
                            assert(k < i);
                        }
                    }
                }
            }
            i = i + 1;
        }
        proof {
            assert forall|p: int| 0 <= p < before.len() implies #[trigger] byte_after_writes(before, self.mem@, reqs@, p) by {
                assert(applied_at(before, self.mem@, reqs@, i as int, p));
            }
        }
        Ok(())
    }
}

} // verus!
