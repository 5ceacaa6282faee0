//! The physical memory capability: the boundary between this library and a
//! real or simulated target.

use vstd::prelude::*;
use crate::address::Address;

verus! {

/// A failure of the physical transport.
#[derive(Debug, Copy, Clone, PartialEq, Eq, Structural)]
pub enum MemError {
    /// The device or link could not complete a request.
    Io,
    /// A request reached past the end of the target's memory.
    OutOfRange,
}

/// A pending read: `buf.len()` bytes starting at `addr`, filled in place.
pub struct ReadRequest {
    pub addr: Address,
    pub buf: Vec<u8>,
}

/// A pending write of the bytes of `buf` starting at `addr`.
pub struct WriteRequest {
    pub addr: Address,
    pub buf: Vec<u8>,
}

/// `buf` lies inside `mem` at `addr` and holds exactly the bytes found there.
pub open spec fn holds_bytes_at(mem: Seq<u8>, addr: nat, buf: Seq<u8>) -> bool {
    &&& addr + buf.len() <= mem.len()
    &&& buf =~= mem.subrange(addr as int, (addr + buf.len()) as int)
}

/// Every request of a read batch is filled from `mem`.
pub open spec fn reads_filled(mem: Seq<u8>, reqs: Seq<ReadRequest>) -> bool {
    forall|i: int| 0 <= i < reqs.len() ==> holds_bytes_at(mem, reqs[i].addr@, #[trigger] reqs[i].buf@)
}

/// The address and length of each request of a read batch, in order.
pub open spec fn read_shape(reqs: Seq<ReadRequest>) -> Seq<(nat, nat)> {
    Seq::new(reqs.len(), |i: int| (reqs[i].addr@, reqs[i].buf@.len()))
}

/// A read batch keeps each request's address and buffer length.
pub open spec fn same_shape(before: Seq<ReadRequest>, after: Seq<ReadRequest>) -> bool {
    &&& after.len() == before.len()
    &&& forall|i: int|
        0 <= i < before.len() ==> {
            &&& (#[trigger] after[i]).addr == before[i].addr
            &&& after[i].buf@.len() == before[i].buf@.len()
        }
}

/// Write request `w` covers byte `p`.
pub open spec fn covers(w: WriteRequest, p: int) -> bool {
    w.addr@ <= p < w.addr@ + w.buf@.len()
}

/// Byte `p` of `after` is what the writes of `reqs` leave there when
/// applied to `before` in some order: its old value where no request covers
/// it, else the value that one of the requests covering it gives.
pub open spec fn byte_after_writes(before: Seq<u8>, after: Seq<u8>, reqs: Seq<WriteRequest>, p: int) -> bool {
    &&& (forall|i: int| 0 <= i < reqs.len() ==> !covers(#[trigger] reqs[i], p)) ==> after[p] == before[p]
    &&& (exists|i: int| 0 <= i < reqs.len() && covers(#[trigger] reqs[i], p)) ==> exists|i: int|
        0 <= i < reqs.len() && covers(#[trigger] reqs[i], p) && after[p] == reqs[i].buf@[p - reqs[i].addr@]
}

/// `after` is `before` with the writes of a batch applied in some order,
/// every request lying in range.
pub open spec fn writes_applied(before: Seq<u8>, after: Seq<u8>, reqs: Seq<WriteRequest>) -> bool {
    &&& after.len() == before.len()
    &&& forall|i: int| 0 <= i < reqs.len() ==> (#[trigger] reqs[i]).addr@ + reqs[i].buf@.len() <= before.len()
    &&& forall|p: int| 0 <= p < before.len() ==> #[trigger] byte_after_writes(before, after, reqs, p)
}

/// A backend: executes batches of physical reads and writes against a
/// target. A batch succeeds only if every request in it succeeded; the
/// backend may execute the requests of one batch in any order.
pub trait PhysicalMemory {
    /// The target's physical memory, byte by byte from address zero.
    spec fn phys_view(&self) -> Seq<u8>;

    /// Every read batch this backend has been handed, oldest first: the
    /// address and length of each request, and what the call returned.
    spec fn read_log(&self) -> Seq<(Seq<(nat, nat)>, Result<(), MemError>)>;

    /// How many write batches this backend has been handed.
    spec fn write_batches(&self) -> nat;

    /// Fills every buffer of `reqs` from the target, each from its paired
    /// address.
    fn phys_read_iter(&mut self, reqs: &mut Vec<ReadRequest>) -> (r: Result<(), MemError>)
        ensures
            final(self).phys_view() == old(self).phys_view(),
            final(self).read_log() == old(self).read_log().push((read_shape(old(reqs)@), r)),
            final(self).write_batches() == old(self).write_batches(),
            same_shape(old(reqs)@, final(reqs)@),
            r is Ok ==> reads_filled(old(self).phys_view(), final(reqs)@),
    ;

    /// Writes the bytes of every buffer of `reqs` to the target, each at
    /// its paired address.
    fn phys_write_iter(&mut self, reqs: &Vec<WriteRequest>) -> (r: Result<(), MemError>)
        ensures
            final(self).read_log() == old(self).read_log(),
            final(self).write_batches() == old(self).write_batches() + 1,
            r is Ok ==> writes_applied(old(self).phys_view(), final(self).phys_view(), reqs@),
    ;
}

} // verus!
