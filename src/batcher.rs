//! Coalescing of scattered reads and writes into one backend call per
//! direction.

use vstd::prelude::*;
use crate::address::Address;
use crate::mem::{read_shape, reads_filled, same_shape, writes_applied, MemError, PhysicalMemory, ReadRequest, WriteRequest};

verus! {

/// Requests queued between two commits. Queuing never touches the backend;
/// `commit_rw` hands all queued reads to the backend in one call and all
/// queued writes in one more.
pub struct Batcher {
    reads: Vec<ReadRequest>,
    writes: Vec<WriteRequest>,
}

/// What a commit gives back: the read requests, in the order they were
/// queued, and whether both backend calls succeeded.
pub struct Committed {
    pub reads: Vec<ReadRequest>,
    pub result: Result<(), MemError>,
}

impl Batcher {
    /// The queued reads, oldest first.
    pub closed spec fn pending_reads(&self) -> Seq<ReadRequest> {
        self.reads@
    }

    /// The queued writes, oldest first.
    pub closed spec fn pending_writes(&self) -> Seq<WriteRequest> {
        self.writes@
    }

    pub fn new() -> (r: Batcher)
        ensures
            r.pending_reads() == Seq::<ReadRequest>::empty(),
            r.pending_writes() == Seq::<WriteRequest>::empty(),
    {
        Batcher { reads: Vec::new(), writes: Vec::new() }
    }

    /// Reserves room for `n` more reads; the queue itself is unchanged.
    pub fn read_prealloc(&mut self, n: usize)
        ensures
            final(self).pending_reads() == old(self).pending_reads(),
            final(self).pending_writes() == old(self).pending_writes(),
    {
        self.reads.reserve(n);
    }

    /// Queues a read of `buf.len()` bytes from `addr` into `buf`. Returns
    /// the request's position among the reads of this batch.
    pub fn read_into(&mut self, addr: Address, buf: Vec<u8>) -> (r: usize)
        requires
            old(self).pending_reads().len() < usize::MAX,
        ensures
            r == old(self).pending_reads().len(),
            final(self).pending_reads() == old(self).pending_reads().push(ReadRequest { addr, buf }),
            final(self).pending_writes() == old(self).pending_writes(),
    {
        let r = self.reads.len();
        self.reads.push(ReadRequest { addr, buf });
        r
    }

    /// Queues a write of the bytes of `buf` to `addr`.
    pub fn write_from(&mut self, addr: Address, buf: Vec<u8>)
        ensures
            final(self).pending_reads() == old(self).pending_reads(),
            final(self).pending_writes() == old(self).pending_writes().push(WriteRequest { addr, buf }),
    {
        self.writes.push(WriteRequest { addr, buf });
    }

    /// Flushes the queue: every queued read in one `phys_read_iter` call,
    /// then every queued write in one `phys_write_iter` call, skipping a
    /// direction with nothing queued. The queue is empty afterwards. The
    /// commit succeeds only if both calls do, and a failed read call's error
    /// is the commit's. Read buffers are handed back either way, filled
    /// whenever the read call succeeded, even if the write call then failed.
    pub fn commit_rw<T: PhysicalMemory>(&mut self, mem: &mut T) -> (r: Committed)
        ensures
            final(self).pending_reads() == Seq::<ReadRequest>::empty(),
            final(self).pending_writes() == Seq::<WriteRequest>::empty(),
            old(self).pending_reads().len() == 0 ==> final(mem).read_log() == old(mem).read_log(),
            old(self).pending_reads().len() > 0 ==> {
                let log = final(mem).read_log();
                &&& log.len() == old(mem).read_log().len() + 1
                &&& log.drop_last() == old(mem).read_log()
                &&& log.last().0 == read_shape(old(self).pending_reads())
                &&& log.last().1 is Ok ==> reads_filled(old(mem).phys_view(), r.reads@)
                &&& log.last().1 is Err ==> r.result == log.last().1
                &&& old(self).pending_writes().len() == 0 ==> r.result == log.last().1
            },
            final(mem).write_batches() == old(mem).write_batches() + if old(self).pending_writes().len() > 0 {
                1nat
            } else {
                0nat
            },
            old(self).pending_writes().len() == 0 ==> final(mem).phys_view() == old(mem).phys_view(),
            same_shape(old(self).pending_reads(), r.reads@),
            r.result is Ok ==> reads_filled(old(mem).phys_view(), r.reads@),
            r.result is Ok ==> writes_applied(old(mem).phys_view(), final(mem).phys_view(), old(self).pending_writes()),
            old(self).pending_reads().len() == 0 && old(self).pending_writes().len() == 0 ==> {
                &&& r.result is Ok
                &&& *final(mem) == *old(mem)
            },
    {
        let mut reads: Vec<ReadRequest> = Vec::new();
        let mut writes: Vec<WriteRequest> = Vec::new();
        std::mem::swap(&mut reads, &mut self.reads);
        std::mem::swap(&mut writes, &mut self.writes);
        let ghost queued = reads@;
        let ghost log0 = mem.read_log();
        let read_result = if reads.len() > 0 {
            mem.phys_read_iter(&mut reads)
        } else {
            proof {
                assert(same_shape(queued, reads@));
            }
            Ok(())
        };
        let ghost mid = mem.phys_view();
        let ghost log1 = mem.read_log();
        proof {
            if queued.len() > 0 {
                assert(log1.drop_last() =~= log0);
                assert(log1.last().1 == read_result);
            }
        }
        let write_result = if writes.len() > 0 {
            mem.phys_write_iter(&writes)
        } else {
            proof {
                assert(writes_applied(mid, mid, writes@));
            }
            Ok(())
        };
        let result = match read_result {
            Ok(done) => match write_result {
                Ok(_) => Ok(done),
                Err(e) => Err(e),
            },
            Err(e) => Err(e),
        };
        Committed { reads, result }
    }
}

} // verus!
