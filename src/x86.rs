//! Virtual-to-physical translation by walking x86-64 four-level page
//! tables, reading each entry from the target through a `Batcher`.

use vstd::prelude::*;
use crate::address::Address;
use crate::batcher::Batcher;
use crate::mem::{holds_bytes_at, read_shape, reads_filled, MemError, PhysicalMemory};

verus! {

/// Entry bit: the entry maps something.
pub const PRESENT: u64 = 0x1;

/// Entry bit: at an intermediate level, the entry maps a large page.
pub const PAGE_SIZE: u64 = 0x80;

/// The physical-address bits of an entry that points to a table or a 4 KiB page.
pub const ADDR_MASK: u64 = 0x000f_ffff_ffff_f000;

/// The physical-address bits of an entry that maps a 2 MiB page.
pub const ADDR_MASK_2M: u64 = 0x000f_ffff_ffe0_0000;

/// The physical-address bits of an entry that maps a 1 GiB page.
pub const ADDR_MASK_1G: u64 = 0x000f_ffff_c000_0000;

/// The offset bits of a virtual address inside a 4 KiB page.
pub const OFFSET_4K: u64 = 0xfff;

/// The offset bits of a virtual address inside a 2 MiB page.
pub const OFFSET_2M: u64 = 0x1f_ffff;

/// The offset bits of a virtual address inside a 1 GiB page.
pub const OFFSET_1G: u64 = 0x3fff_ffff;

/// Bits of a 2 MiB page entry that must be zero.
pub const RESERVED_2M: u64 = 0x1f_e000;

/// Bits of a 1 GiB page entry that must be zero.
pub const RESERVED_1G: u64 = 0x3fff_e000;

/// Why a translation did not produce an address.
#[derive(Debug, Copy, Clone, PartialEq, Eq, Structural)]
pub enum TranslateError {
    /// The backend failed to read a table entry.
    Mem(MemError),
    /// The entry at this level (4 is the top) is not present.
    NotPresent { level: u8 },
    /// The entry at this level uses an encoding this walker does not
    /// support.
    Unsupported { level: u8 },
}

/// What one table entry says about the rest of the walk.
#[derive(Debug, Copy, Clone, PartialEq, Eq, Structural)]
pub enum Step {
    /// Go on at the next level down, in the table at this physical address.
    Table(u64),
    /// The walk ends at this physical address.
    Page(u64),
    /// The entry is not present.
    NotPresent,
    /// The entry's encoding is not supported.
    Unsupported,
}

/// The little-endian 64-bit value of the first eight bytes of `b`.
pub open spec fn le_u64(b: Seq<u8>) -> u64
    recommends
        b.len() >= 8,
{
    (b[0] as u64) | ((b[1] as u64) << 8u64) | ((b[2] as u64) << 16u64) | ((b[3] as u64) << 24u64)
        | ((b[4] as u64) << 32u64) | ((b[5] as u64) << 40u64) | ((b[6] as u64) << 48u64) | ((b[7] as u64)
        << 56u64)
}

/// The bit position at which the table index of `level` starts in a
/// virtual address: 12 for the last level, 39 for the top one.
pub open spec fn index_shift(level: nat) -> u64 {
    (12 + 9 * (level - 1)) as u64
}

/// The index into the table of `level` that `va` selects.
pub open spec fn table_index(va: u64, level: nat) -> u64 {
    (va >> index_shift(level)) & 0x1ff
}

/// The physical address of the entry that `va` selects in the table of
/// `level` whose base is `base`.
pub open spec fn entry_addr(base: u64, level: nat, va: u64) -> nat {
    ((base & ADDR_MASK) + table_index(va, level) * 8) as nat
}

/// The entry stored at `at`, if all eight of its bytes are in `mem`.
pub open spec fn entry_at(mem: Seq<u8>, at: nat) -> Option<u64> {
    if at + 8 <= mem.len() {
        Some(le_u64(mem.subrange(at as int, (at + 8) as int)))
    } else {
        None
    }
}

/// What `entry`, read at `level` while translating `va`, decides. A large
/// page at the top level, or a large-page entry with reserved bits set, is
/// an encoding this walker does not support.
pub open spec fn step_spec(level: nat, entry: u64, va: u64) -> Step {
    if entry & PRESENT == 0 {
        Step::NotPresent
    } else if level == 1 {
        Step::Page((entry & ADDR_MASK) | (va & OFFSET_4K))
    } else if entry & PAGE_SIZE == 0 {
        Step::Table(entry & ADDR_MASK)
    } else if level == 2 {
        if entry & RESERVED_2M != 0 {
            Step::Unsupported
        } else {
            Step::Page((entry & ADDR_MASK_2M) | (va & OFFSET_2M))
        }
    } else if level == 3 {
        if entry & RESERVED_1G != 0 {
            Step::Unsupported
        } else {
            Step::Page((entry & ADDR_MASK_1G) | (va & OFFSET_1G))
        }
    } else {
        Step::Unsupported
    }
}

/// The outcome of walking from the table of `level` at `base` down to the
/// translation of `va`, with `mem` as physical memory. An entry outside
/// `mem` cannot be read.
pub open spec fn walk_from(mem: Seq<u8>, base: u64, va: u64, level: nat) -> Result<Address, TranslateError>
    decreases level,
{
    if level == 0 {
        Err(TranslateError::Unsupported { level: 0 })
    } else {
        match entry_at(mem, entry_addr(base, level, va)) {
            None => Err(TranslateError::Mem(MemError::OutOfRange)),
            Some(e) => match step_spec(level, e, va) {
                Step::Table(next) => walk_from(mem, next, va, (level - 1) as nat),
                Step::Page(p) => Ok(Address::from_nat(p as nat)),
                Step::NotPresent => Err(TranslateError::NotPresent { level: level as u8 }),
                Step::Unsupported => Err(TranslateError::Unsupported { level: level as u8 }),
            },
        }
    }
}

/// The entry addresses that a walk from the table of `level` at `base`
/// reads, top level first: one per level it visits, down to the level
/// whose entry ends it.
pub open spec fn walk_reads_from(mem: Seq<u8>, base: u64, va: u64, level: nat) -> Seq<nat>
    decreases level,
{
    if level == 0 {
        Seq::empty()
    } else {
        let at = entry_addr(base, level, va);
        match entry_at(mem, at) {
            Some(e) => match step_spec(level, e, va) {
                Step::Table(next) => seq![at] + walk_reads_from(mem, next, va, (level - 1) as nat),
                _ => seq![at],
            },
            None => seq![at],
        }
    }
}

/// The entry addresses read while translating `va` through the tables
/// rooted at `dtb`.
pub open spec fn walk_reads(mem: Seq<u8>, dtb: u64, va: u64) -> Seq<nat> {
    walk_reads_from(mem, dtb, va, 4)
}

/// `issued` is what a translation of `va` handed the backend, and `r` is
/// its outcome: one batch per level, each a single eight-byte read of that
/// level's entry, top level first; every batch but the last succeeded. If
/// the last one failed, the translation fails with the backend's error;
/// otherwise every level the walk visits was read and `r` is the walk's
/// outcome.
pub open spec fn walk_issued(
    issued: Seq<(Seq<(nat, nat)>, Result<(), MemError>)>,
    mem: Seq<u8>,
    dtb: u64,
    va: u64,
    r: Result<Address, TranslateError>,
) -> bool {
    let reads = walk_reads(mem, dtb, va);
    &&& 1 <= issued.len() <= reads.len()
    &&& forall|i: int| 0 <= i < issued.len() ==> (#[trigger] issued[i]).0 == seq![(reads[i], 8nat)]
    &&& forall|i: int| 0 <= i < issued.len() - 1 ==> (#[trigger] issued[i]).1 is Ok
    &&& match issued.last().1 {
        Ok(_) => issued.len() == reads.len() && r == translate(mem, dtb, va),
        Err(e) => r == Err::<Address, TranslateError>(TranslateError::Mem(e)),
    }
}

/// `rec` is a successful batch of one eight-byte read at `at`.
pub open spec fn entry_read_ok(rec: (Seq<(nat, nat)>, Result<(), MemError>), at: nat) -> bool {
    rec.0 == seq![(at, 8nat)] && rec.1 is Ok
}

/// The translation of `va` through the four-level tables rooted at `dtb`.
pub open spec fn translate(mem: Seq<u8>, dtb: u64, va: u64) -> Result<Address, TranslateError> {
    walk_from(mem, dtb, va, 4)
}

/// A walk whose top-level entry is not present fails with a not-present
/// error at level 4: it yields no address, zero or otherwise, and reads
/// nothing but that entry.
pub proof fn lemma_top_not_present(mem: Seq<u8>, dtb: u64, va: u64)
    requires
        entry_at(mem, entry_addr(dtb, 4, va)) is Some,
        entry_at(mem, entry_addr(dtb, 4, va))->Some_0 & PRESENT == 0,
    ensures
        translate(mem, dtb, va) == Err::<Address, TranslateError>(TranslateError::NotPresent { level: 4 }),
        walk_reads(mem, dtb, va) == seq![entry_addr(dtb, 4, va)],
{
}

/// The offset bits of a virtual address inside a large page mapped at
/// `level`.
pub open spec fn large_offset(level: nat) -> u64 {
    if level == 2 {
        OFFSET_2M
    } else {
        OFFSET_1G
    }
}

/// The physical-address bits of an entry that maps a large page at `level`.
pub open spec fn large_base(level: nat) -> u64 {
    if level == 2 {
        ADDR_MASK_2M
    } else {
        ADDR_MASK_1G
    }
}

/// A present large-page entry at an intermediate level, with its reserved
/// bits clear, ends the walk there:
/// the result is the entry's page base combined with the low bits of the
/// virtual address, which pass through unchanged (21 of them for a 2 MiB
/// page, 30 for a 1 GiB page). No entry of a lower level is read.
pub proof fn lemma_large_page(mem: Seq<u8>, base: u64, va: u64, level: nat)
    requires
        level == 2 || level == 3,
        entry_at(mem, entry_addr(base, level, va)) is Some,
        entry_at(mem, entry_addr(base, level, va))->Some_0 & PRESENT != 0,
        entry_at(mem, entry_addr(base, level, va))->Some_0 & PAGE_SIZE != 0,
        entry_at(mem, entry_addr(base, level, va))->Some_0 & (if level == 2 {
            RESERVED_2M
        } else {
            RESERVED_1G
        }) == 0,
    ensures
        ({
            let e = entry_at(mem, entry_addr(base, level, va))->Some_0;
            let p = (e & large_base(level)) | (va & large_offset(level));
            &&& walk_from(mem, base, va, level) == Ok::<Address, TranslateError>(Address::from_nat(p as nat))
            &&& walk_reads_from(mem, base, va, level) == seq![entry_addr(base, level, va)]
            &&& p & large_offset(level) == va & large_offset(level)
            &&& p & !large_offset(level) == e & large_base(level)
        }),
{
    let e = entry_at(mem, entry_addr(base, level, va))->Some_0;
    let p = (e & large_base(level)) | (va & large_offset(level));
    if level == 2 {
        assert(p & OFFSET_2M == va & OFFSET_2M && p & !OFFSET_2M == e & ADDR_MASK_2M) by (bit_vector)
            requires
                p == (e & 0x000f_ffff_ffe0_0000u64) | (va & 0x1f_ffffu64),
                OFFSET_2M == 0x1f_ffffu64,
                ADDR_MASK_2M == 0x000f_ffff_ffe0_0000u64,
        ;
    } else {
        assert(p & OFFSET_1G == va & OFFSET_1G && p & !OFFSET_1G == e & ADDR_MASK_1G) by (bit_vector)
            requires
                p == (e & 0x000f_ffff_c000_0000u64) | (va & 0x3fff_ffffu64),
                OFFSET_1G == 0x3fff_ffffu64,
                ADDR_MASK_1G == 0x000f_ffff_c000_0000u64,
        ;
    }
}

/// Decodes the entry in the first eight bytes of `b`.
pub fn entry_from_bytes(b: &Vec<u8>) -> (r: u64)
    requires
        b@.len() >= 8,
    ensures
        r == le_u64(b@),
{
    (b[0] as u64) | ((b[1] as u64) << 8u64) | ((b[2] as u64) << 16u64) | ((b[3] as u64) << 24u64)
        | ((b[4] as u64) << 32u64) | ((b[5] as u64) << 40u64) | ((b[6] as u64) << 48u64) | ((b[7] as u64)
        << 56u64)
}

/// Decides the next step of a walk from the entry read at `level`.
pub fn walk_step(level: u8, entry: u64, va: u64) -> (r: Step)
    requires
        1 <= level <= 4,
    ensures
        r == step_spec(level as nat, entry, va),
{
    if entry & PRESENT == 0 {
        Step::NotPresent
    } else if level == 1 {
        Step::Page((entry & ADDR_MASK) | (va & OFFSET_4K))
    } else if entry & PAGE_SIZE == 0 {
        Step::Table(entry & ADDR_MASK)
    } else if level == 2 {
        if entry & RESERVED_2M != 0 {
            Step::Unsupported
        } else {
            Step::Page((entry & ADDR_MASK_2M) | (va & OFFSET_2M))
        }
    } else if level == 3 {
        if entry & RESERVED_1G != 0 {
            Step::Unsupported
        } else {
            Step::Page((entry & ADDR_MASK_1G) | (va & OFFSET_1G))
        }
    } else {
        Step::Unsupported
    }
}

/// The physical address of the entry that `va` selects in the table of
/// `level` at `base`.
pub fn entry_address(base: u64, level: u8, va: u64) -> (r: u64)
    requires
        1 <= level <= 4,
    ensures
        r as nat == entry_addr(base, level as nat, va),
{
    let shift: u64 = 12 + 9 * (level as u64 - 1);
    let index = (va >> shift) & 0x1ff;
    let table = base & ADDR_MASK;
    assert(index <= 0x1ff) by (bit_vector)
        requires
            index == (va >> shift) & 0x1ff,
    ;
    assert(table <= ADDR_MASK) by (bit_vector)
        requires
            table == base & ADDR_MASK,
            ADDR_MASK == 0x000f_ffff_ffff_f000u64,
    ;
    table + index * 8
}

/// Reads the eight-byte entry at `at` through a batch of its own.
fn read_entry<T: PhysicalMemory>(mem: &mut T, at: u64) -> (r: Result<u64, MemError>)
    ensures
        final(mem).phys_view() == old(mem).phys_view(),
        final(mem).write_batches() == old(mem).write_batches(),
        final(mem).read_log().len() == old(mem).read_log().len() + 1,
        final(mem).read_log().drop_last() == old(mem).read_log(),
        final(mem).read_log().last().0 == seq![(at as nat, 8nat)],
        final(mem).read_log().last().1 is Ok <==> r is Ok,
        final(mem).read_log().last().1 is Err ==> r == Err::<u64, MemError>(final(mem).read_log().last().1->Err_0),
        r is Ok ==> entry_at(old(mem).phys_view(), at as nat) == Some(r->Ok_0),
{
    let mut batcher = Batcher::new();
    let target = Address::from(at);
    proof {
        Address::lemma_from_nat(at as nat);
    }
    batcher.read_into(target, vec![0u8; 8]);
    let ghost queued = batcher.pending_reads();
    let done = batcher.commit_rw(mem);
    proof {
        assert(read_shape(queued) =~= seq![(at as nat, 8nat)]);
    }
    match done.result {
        Ok(()) => {
            let ghost view = old(mem).phys_view();
            let e = entry_from_bytes(&done.reads[0].buf);
            proof {
                assert(holds_bytes_at(view, done.reads@[0].addr@, done.reads@[0].buf@));
                assert(done.reads@[0].buf@ =~= view.subrange(at as int, at + 8));
            }
            Ok(e)
        },
        Err(err) => Err(err),
    }
}

/// Translates the virtual address `addr` through the four-level page tables
/// rooted at the physical address `dtb`, reading one entry per level from
/// `mem`, each in a batch of its own, top level first and no further down
/// than the walk goes. Returns the walk's outcome on the target's memory,
/// or the backend's error as soon as a read fails.
pub fn vtop<T: PhysicalMemory>(mem: &mut T, dtb: Address, addr: Address) -> (r: Result<Address, TranslateError>)
    ensures
        final(mem).phys_view() == old(mem).phys_view(),
        final(mem).write_batches() == old(mem).write_batches(),
        final(mem).read_log().take(old(mem).read_log().len() as int) == old(mem).read_log(),
        walk_issued(
            final(mem).read_log().skip(old(mem).read_log().len() as int),
            old(mem).phys_view(),
            dtb@ as u64,
            addr@ as u64,
            r,
        ),
{
    let va = addr.as_u64();
    let mut base = dtb.as_u64();
    let mut level: u8 = 4;
    let ghost view = mem.phys_view();
    let ghost n0 = mem.read_log().len() as int;
    let ghost root = dtb@ as u64;
    let ghost mut done: Seq<nat> = Seq::empty();
    loop
        invariant
            1 <= level <= 4,
            mem.phys_view() == view,
            view == old(mem).phys_view(),
            va == (addr@ as u64),
            root == (dtb@ as u64),
            n0 == old(mem).read_log().len(),
            mem.write_batches() == old(mem).write_batches(),
            mem.read_log().len() == n0 + done.len(),
            mem.read_log().take(n0) == old(mem).read_log(),
            done.len() == 4 - level,
            forall|i: int| 0 <= i < done.len() ==> entry_read_ok(#[trigger] mem.read_log()[n0 + i], done[i]),
            walk_reads(view, root, va) == done + walk_reads_from(view, base, va, level as nat),
            translate(view, root, va) == walk_from(view, base, va, level as nat),
        decreases level,
    {
        let at = entry_address(base, level, va);
        let ghost before_log = mem.read_log();
        let res = read_entry(mem, at);
        let ghost log = mem.read_log();
        proof {
            assert(log.take(n0) =~= before_log.take(n0));
            assert forall|i: int| 0 <= i < done.len() implies #[trigger] log[n0 + i] == before_log[n0 + i] by {
                assert(log.drop_last()[n0 + i] == log[n0 + i]);
            }
            assert(walk_reads_from(view, base, va, level as nat)[0] == at as nat);
        }
        let e = match res {
            Ok(e) => e,
            Err(err) => {
                proof {
                    let issued = log.skip(n0);
                    assert(issued.len() == done.len() + 1);
                    assert forall|i: int| 0 <= i < issued.len() implies (#[trigger] issued[i]).0 == seq![(walk_reads(view, root, va)[i], 8nat)] by {
                        assert(issued[i] == log[n0 + i]);
                        if i < done.len() {
                            assert((done + walk_reads_from(view, base, va, level as nat))[i] == done[i]);
                        } else {
                            assert((done + walk_reads_from(view, base, va, level as nat))[i] == at as nat);
                        }
                    }
                    assert forall|i: int| 0 <= i < issued.len() - 1 implies (#[trigger] issued[i]).1 is Ok by {
                        assert(issued[i] == log[n0 + i]);
                    }
                    assert(issued.last() == log.last());
                }
                return Err(TranslateError::Mem(err));
            },
        };
        let ghost issued = log.skip(n0);
        proof {
            assert(issued.len() == done.len() + 1);
            assert forall|i: int| 0 <= i < issued.len() implies entry_read_ok(#[trigger] issued[i], done.push(at as nat)[i]) by {
                assert(issued[i] == log[n0 + i]);
                if i == done.len() {
                    assert(issued[i] == log.last());
                }
            }
        }
        match walk_step(level, e, va) {
            Step::Table(next) => {
                proof {
                    assert(walk_reads_from(view, base, va, level as nat) == seq![at as nat] + walk_reads_from(view, next, va, (level - 1) as nat));
                    assert(done + (seq![at as nat] + walk_reads_from(view, next, va, (level - 1) as nat)) =~= done.push(at as nat) + walk_reads_from(view, next, va, (level - 1) as nat));
                    done = done.push(at as nat);
                    assert forall|i: int| 0 <= i < done.len() implies entry_read_ok(#[trigger] mem.read_log()[n0 + i], done[i]) by {
                        assert(issued[i] == log[n0 + i]);
                    }
                }
                base = next;
                level = level - 1;
            },
            other => {
                let r = match other {
                    Step::Page(p) => Ok(Address::from(p)),
                    Step::NotPresent => Err(TranslateError::NotPresent { level }),
                    _ => Err(TranslateError::Unsupported { level }),
                };
                proof {
                    assert(walk_reads_from(view, base, va, level as nat) == seq![at as nat]);
                    assert(walk_reads(view, root, va) =~= done.push(at as nat));
                    assert forall|i: int| 0 <= i < issued.len() implies (#[trigger] issued[i]).0 == seq![(walk_reads(view, root, va)[i], 8nat)] by {
                        assert(entry_read_ok(issued[i], done.push(at as nat)[i]));
                    }
                    assert(issued.last() == issued[issued.len() - 1]);
                }
                return r;
            },
        }
    }
}

/// `r` is an acceptable outcome for translating `va`: the walk's own outcome
/// on `mem`, or an error of the backend.
pub open spec fn outcome_ok(mem: Seq<u8>, dtb: u64, va: u64, r: Result<Address, TranslateError>) -> bool {
    r is Err && r->Err_0 is Mem || r == translate(mem, dtb, va)
}

/// Where each pending walk of a batch stands at `level`.
spec fn walks_at(
    mem: Seq<u8>,
    dtb: u64,
    vas: Seq<Address>,
    bases: Seq<u64>,
    out: Seq<Option<Result<Address, TranslateError>>>,
    level: nat,
    all_ok: bool,
) -> bool {
    &&& bases.len() == vas.len()
    &&& out.len() == vas.len()
    &&& forall|i: int|
        0 <= i < vas.len() ==> match #[trigger] out[i] {
            None => translate(mem, dtb, vas[i]@ as u64) == walk_from(mem, bases[i], vas[i]@ as u64, level),
            Some(r) => outcome_ok(mem, dtb, vas[i]@ as u64, r) && (all_ok ==> r == translate(mem, dtb, vas[i]@ as u64)),
        }
}

/// `tail` is the end of `whole`.
pub open spec fn ends_with(whole: Seq<nat>, tail: Seq<nat>) -> bool {
    tail.len() <= whole.len() && whole.skip(whole.len() - tail.len()) == tail
}

/// The number of entries read by the longest of the walks of `vas`.
pub open spec fn max_walk_len(mem: Seq<u8>, dtb: u64, vas: Seq<Address>) -> nat
    decreases vas.len(),
{
    if vas.len() == 0 {
        0
    } else {
        let a = walk_reads(mem, dtb, vas.last()@ as u64).len();
        let b = max_walk_len(mem, dtb, vas.drop_last());
        if a > b {
            a
        } else {
            b
        }
    }
}

proof fn lemma_max_walk_len(mem: Seq<u8>, dtb: u64, vas: Seq<Address>, d: nat)
    ensures
        (max_walk_len(mem, dtb, vas) > d) == (exists|i: int| 0 <= i < vas.len() && #[trigger] walk_reads(mem, dtb, vas[i]@ as u64).len() > d),
        forall|i: int| 0 <= i < vas.len() ==> #[trigger] walk_reads(mem, dtb, vas[i]@ as u64).len() <= max_walk_len(mem, dtb, vas),
    decreases vas.len(),
{
    if vas.len() > 0 {
        let rest = vas.drop_last();
        lemma_max_walk_len(mem, dtb, rest, d);
        assert forall|i: int| 0 <= i < vas.len() implies #[trigger] walk_reads(mem, dtb, vas[i]@ as u64).len() <= max_walk_len(mem, dtb, vas) by {
            if i < rest.len() {
                assert(rest[i] == vas[i]);
                assert(walk_reads(mem, dtb, rest[i]@ as u64).len() <= max_walk_len(mem, dtb, rest));
            }
        }
        if max_walk_len(mem, dtb, vas) > d {
            if walk_reads(mem, dtb, vas.last()@ as u64).len() > d {
                assert(walk_reads(mem, dtb, vas[vas.len() - 1]@ as u64).len() > d);
            } else {
                let i = choose|i: int| 0 <= i < rest.len() && #[trigger] walk_reads(mem, dtb, rest[i]@ as u64).len() > d;
                assert(walk_reads(mem, dtb, vas[i]@ as u64).len() > d);
            }
        }
        if exists|i: int| 0 <= i < vas.len() && #[trigger] walk_reads(mem, dtb, vas[i]@ as u64).len() > d {
            let i = choose|i: int| 0 <= i < vas.len() && #[trigger] walk_reads(mem, dtb, vas[i]@ as u64).len() > d;
            if i < rest.len() {
                assert(walk_reads(mem, dtb, rest[i]@ as u64).len() > d);
            }
        }
    }
}

proof fn lemma_walk_reads_len(mem: Seq<u8>, base: u64, va: u64, level: nat)
    ensures
        walk_reads_from(mem, base, va, level).len() <= level,
        level > 0 ==> walk_reads_from(mem, base, va, level).len() >= 1,
    decreases level,
{
    if level > 0 {
        let at = entry_addr(base, level, va);
        match entry_at(mem, at) {
            Some(e) => match step_spec(level, e, va) {
                Step::Table(next) => lemma_walk_reads_len(mem, next, va, (level - 1) as nat),
                _ => {},
            },
            None => {},
        }
    }
}

/// Address `a` is read by the walk of one of `vas`.
pub open spec fn on_some_walk(mem: Seq<u8>, dtb: u64, vas: Seq<Address>, a: nat) -> bool {
    exists|i: int| 0 <= i < vas.len() && #[trigger] walk_reads(mem, dtb, vas[i]@ as u64).contains(a)
}

proof fn lemma_ends_with_rest(whole: Seq<nat>, at: nat, rest: Seq<nat>)
    requires
        ends_with(whole, seq![at] + rest),
    ensures
        ends_with(whole, rest),
{
    let w = whole.len() as int;
    let r = rest.len() as int;
    assert(whole.skip(w - r) =~= whole.skip(w - r - 1).skip(1));
    assert((seq![at] + rest).skip(1) =~= rest);
}

proof fn lemma_ends_with_first(whole: Seq<nat>, tail: Seq<nat>)
    requires
        ends_with(whole, tail),
        tail.len() > 0,
    ensures
        whole.contains(tail[0]),
{
    let w = whole.len() as int;
    let t = tail.len() as int;
    assert(whole.skip(w - t)[0] == whole[w - t]);
}

/// Every request of the read batches of `log` from position `from` on is an
/// eight-byte read of an entry that the walk of one of `vas` visits.
pub open spec fn batches_on_walks(
    log: Seq<(Seq<(nat, nat)>, Result<(), MemError>)>,
    from: int,
    mem: Seq<u8>,
    dtb: u64,
    vas: Seq<Address>,
) -> bool {
    forall|j: int, m: int|
        from <= j < log.len() && 0 <= m < log[j].0.len() ==> {
            &&& (#[trigger] log[j].0[m]).1 == 8
            &&& on_some_walk(mem, dtb, vas, log[j].0[m].0)
        }
}

/// Every read batch of `log` from position `from` on succeeded.
pub open spec fn batches_ok(log: Seq<(Seq<(nat, nat)>, Result<(), MemError>)>, from: int) -> bool {
    forall|j: int| from <= j < log.len() ==> (#[trigger] log[j]).1 is Ok
}

/// Translates every address of `addrs` through the tables rooted at `dtb`,
/// walking all of them level by level: the entries that one level needs
/// are read in a single batch, so the backend sees at most four read calls
/// however many addresses there are, and every request is an eight-byte
/// read of an entry that one of the walks visits. If a batch fails, every
/// walk that waited on it fails with the backend's error. If every batch
/// succeeded, each result is exactly the walk's outcome and there was one
/// batch per level that still had a walk in progress: as many as the
/// longest walk reads entries.
pub fn vtop_many<T: PhysicalMemory>(mem: &mut T, dtb: Address, addrs: &Vec<Address>) -> (r: Vec<Result<Address, TranslateError>>)
    ensures
        final(mem).phys_view() == old(mem).phys_view(),
        final(mem).write_batches() == old(mem).write_batches(),
        final(mem).read_log().len() <= old(mem).read_log().len() + 4,
        r@.len() == addrs@.len(),
        forall|i: int| 0 <= i < addrs@.len() ==> outcome_ok(old(mem).phys_view(), dtb@ as u64, addrs@[i]@ as u64, #[trigger] r@[i]),
        final(mem).read_log().take(old(mem).read_log().len() as int) == old(mem).read_log(),
        batches_on_walks(final(mem).read_log(), old(mem).read_log().len() as int, old(mem).phys_view(), dtb@ as u64, addrs@),
        batches_ok(final(mem).read_log(), old(mem).read_log().len() as int) ==> final(mem).read_log().len() == old(mem).read_log().len()
            + max_walk_len(old(mem).phys_view(), dtb@ as u64, addrs@),
        batches_ok(final(mem).read_log(), old(mem).read_log().len() as int) ==> forall|i: int|
            0 <= i < addrs@.len() ==> #[trigger] r@[i] == translate(old(mem).phys_view(), dtb@ as u64, addrs@[i]@ as u64),
{
    let ghost view = mem.phys_view();
    let ghost n0 = mem.read_log().len() as int;
    let ghost longest = max_walk_len(view, dtb@ as u64, addrs@);
    let root = dtb.as_u64();
    let n = addrs.len();
    let mut bases: Vec<u64> = Vec::new();
    let mut out: Vec<Option<Result<Address, TranslateError>>> = Vec::new();
    let mut i: usize = 0;
    while i < n
        invariant
            n == addrs@.len(),
            i <= n,
            bases@.len() == i,
            out@.len() == i,
            forall|j: int| 0 <= j < i ==> bases@[j] == root && #[trigger] out@[j] is None,
        decreases n - i,
    {
        bases.push(root);
        out.push(None);
        i = i + 1;
    }
    proof {
        assert forall|j: int| 0 <= j < n && (#[trigger] out@[j]) is None implies ends_with(
            walk_reads(view, root, addrs@[j]@ as u64),
            walk_reads_from(view, bases@[j], addrs@[j]@ as u64, 4),
        ) by {
            let w = walk_reads(view, root, addrs@[j]@ as u64);
            assert(w.skip(0) =~= w);
        }
    }
    let mut level: u8 = 4;
    while level >= 1
        invariant
            level <= 4,
            n == addrs@.len(),
            root == dtb@ as u64,
            mem.phys_view() == view,
            view == old(mem).phys_view(),
            mem.write_batches() == old(mem).write_batches(),
            mem.read_log().len() + level <= old(mem).read_log().len() + 4,
            n0 == old(mem).read_log().len(),
            n0 <= mem.read_log().len(),
            mem.read_log().take(n0) == old(mem).read_log(),
            batches_on_walks(mem.read_log(), n0, view, root, addrs@),
            longest == max_walk_len(view, root, addrs@),
            forall|j: int|
                0 <= j < n && (#[trigger] out@[j]) is None ==> walk_reads(view, root, addrs@[j]@ as u64).len() == (4 - level)
                    + walk_reads_from(view, bases@[j], addrs@[j]@ as u64, level as nat).len(),
            batches_ok(mem.read_log(), n0) ==> forall|j: int|
                0 <= j < n && (#[trigger] out@[j]) is Some ==> walk_reads(view, root, addrs@[j]@ as u64).len() <= 4 - level,
            batches_ok(mem.read_log(), n0) ==> mem.read_log().len() - n0 == if 4 - level < longest {
                4 - level
            } else {
                longest as int
            },
            forall|j: int|
                0 <= j < n && (#[trigger] out@[j]) is None ==> ends_with(
                    walk_reads(view, root, addrs@[j]@ as u64),
                    walk_reads_from(view, bases@[j], addrs@[j]@ as u64, level as nat),
                ),
            walks_at(view, root, addrs@, bases@, out@, level as nat, batches_ok(mem.read_log(), n0)),
            level == 0 ==> forall|j: int| 0 <= j < n ==> (#[trigger] out@[j]) is Some,
        decreases level,
    {
        // Queue one entry read for each walk still in progress.
        let mut batcher = Batcher::new();
        let mut slots: Vec<usize> = Vec::new();
        let mut i: usize = 0;
        while i < n
            invariant
                1 <= level <= 4,
                n == addrs@.len(),
                i <= n,
                bases@.len() == n,
                out@.len() == n,
                batcher.pending_writes().len() == 0,
                batcher.pending_reads().len() == slots@.len(),
                slots@.len() <= i,
                forall|k: int| 0 <= k < slots@.len() ==> {
                    &&& #[trigger] slots@[k] < i
                    &&& out@[slots@[k] as int] is None
                    &&& batcher.pending_reads()[k].addr@ == entry_addr(bases@[slots@[k] as int], level as nat, addrs@[slots@[k] as int]@ as u64)
                    &&& batcher.pending_reads()[k].buf@.len() == 8
                    &&& on_some_walk(view, root, addrs@, batcher.pending_reads()[k].addr@)
                },
                forall|k1: int, k2: int| 0 <= k1 < k2 < slots@.len() ==> slots@[k1] < slots@[k2],
                forall|j: int| 0 <= j < i && (#[trigger] out@[j]) is None ==> exists|k: int| 0 <= k < slots@.len() && slots@[k] == j,
                forall|j: int|
                    0 <= j < n && (#[trigger] out@[j]) is None ==> ends_with(
                        walk_reads(view, root, addrs@[j]@ as u64),
                        walk_reads_from(view, bases@[j], addrs@[j]@ as u64, level as nat),
                    ),
            decreases n - i,
        {
            if out[i].is_none() {
                let va = addrs[i].as_u64();
                let at = entry_address(bases[i], level, va);
                let target = Address::from(at);
                proof {
                    Address::lemma_from_nat(at as nat);
                }
                let ghost k = slots@.len();
                let ghost old_slots = slots@;
                proof {
                    let whole = walk_reads(view, root, va);
                    let tail = walk_reads_from(view, bases@[i as int], va, level as nat);
                    assert(tail[0] == at as nat);
                    lemma_ends_with_first(whole, tail);
                    assert(on_some_walk(view, root, addrs@, at as nat));
                }
                batcher.read_into(target, vec![0u8; 8]);
                slots.push(i);
                proof {
                    assert forall|j: int| 0 <= j < i + 1 && (#[trigger] out@[j]) is None implies exists|k2: int|
                        0 <= k2 < slots@.len() && slots@[k2] == j by {
                        if j == i {
                            assert(slots@[k as int] == j);
                        } else {
                            let k2 = choose|k2: int| 0 <= k2 < old_slots.len() && old_slots[k2] == j;
                            assert(slots@[k2] == j);
                        }
                    }
                }
            }
            i = i + 1;
        }
        let ghost log_before = mem.read_log();
        let ghost queued_reads = batcher.pending_reads();
        let done = batcher.commit_rw(mem);
        let ghost ok_now = batches_ok(mem.read_log(), n0);
        proof {
            let log = mem.read_log();
            if queued_reads.len() > 0 {
                assert(log.take(n0) =~= log_before.take(n0));
                assert forall|j: int, m: int| n0 <= j < log.len() && 0 <= m < log[j].0.len() implies {
                    &&& (#[trigger] log[j].0[m]).1 == 8
                    &&& on_some_walk(view, root, addrs@, log[j].0[m].0)
                } by {
                    if j < log_before.len() {
                        assert(log.drop_last()[j] == log[j]);
                        assert(log_before[j].0[m] == log[j].0[m]);
                    } else {
                        assert(slots@[m] < n);
                        assert(log[j].0 == read_shape(queued_reads));
                        assert(log[j].0[m] == (queued_reads[m].addr@, queued_reads[m].buf@.len()));
                    }
                }
            }
            let d = 4 - level;
            if ok_now {
                if queued_reads.len() > 0 {
                    let j = slots@[0] as int;
                    assert(slots@[0] < n);
                    lemma_walk_reads_len(view, bases@[j], addrs@[j]@ as u64, level as nat);
                    lemma_max_walk_len(view, root, addrs@, d as nat);
                    assert(walk_reads(view, root, addrs@[j]@ as u64).len() > d);
                    assert(log.drop_last() =~= log_before);
                    assert(batches_ok(log_before, n0)) by {
                        assert forall|j2: int| n0 <= j2 < log_before.len() implies (#[trigger] log_before[j2]).1 is Ok by {
                            assert(log.drop_last()[j2] == log[j2]);
                        }
                    }
                } else {
                    assert(log == log_before);
                    lemma_max_walk_len(view, root, addrs@, d as nat);
                    assert forall|j: int| 0 <= j < n implies #[trigger] walk_reads(view, root, addrs@[j]@ as u64).len() <= d by {
                        if out@[j] is None {
                            assert(exists|k: int| 0 <= k < slots@.len() && slots@[k] == j);
                        }
                    }
                }
                assert(log.len() - n0 == if d + 1 < longest { d + 1 } else { longest as int });
            }
            if ok_now && queued_reads.len() > 0 {
                let log = mem.read_log();
                assert forall|j: int| n0 <= j < log_before.len() implies (#[trigger] log_before[j]).1 is Ok by {
                    assert(log.drop_last()[j] == log[j]);
                }
                assert(log[log.len() - 1].1 is Ok);
            }
        }
        let ghost bases0 = bases@;
        let ghost out0 = out@;
        // Hand each walk its entry, or the batch's error.
        let mut k: usize = 0;
        while k < slots.len()
            invariant
                1 <= level <= 4,
                n == addrs@.len(),
                root == dtb@ as u64,
                k <= slots@.len(),
                done.reads@.len() == slots@.len(),
                bases@.len() == n,
                out@.len() == n,
                done.result is Ok ==> reads_filled(view, done.reads@),
                ok_now ==> done.result is Ok,
                forall|k2: int| 0 <= k2 < slots@.len() ==> {
                    &&& #[trigger] slots@[k2] < n
                    &&& done.reads@[k2].addr@ == entry_addr(bases0[slots@[k2] as int], level as nat, addrs@[slots@[k2] as int]@ as u64)
                    &&& done.reads@[k2].buf@.len() == 8
                },
                forall|k1: int, k2: int| 0 <= k1 < k2 < slots@.len() ==> slots@[k1] < slots@[k2],
                forall|k2: int| k <= k2 < slots@.len() ==> {
                    &&& out@[#[trigger] slots@[k2] as int] is None
                    &&& bases@[slots@[k2] as int] == bases0[slots@[k2] as int]
                },
                level == 1 ==> forall|j: int|
                    0 <= j < n && (#[trigger] out@[j]) is None ==> k < slots@.len() && j >= slots@[k as int],
                forall|j: int| 0 <= j < n ==> match #[trigger] out@[j] {
                    None => if k < slots@.len() && j >= slots@[k as int] {
                        &&& translate(view, root, addrs@[j]@ as u64) == walk_from(view, bases@[j], addrs@[j]@ as u64, level as nat)
                        &&& ends_with(walk_reads(view, root, addrs@[j]@ as u64), walk_reads_from(view, bases@[j], addrs@[j]@ as u64, level as nat))
                        &&& walk_reads(view, root, addrs@[j]@ as u64).len() == (4 - level) + walk_reads_from(view, bases@[j], addrs@[j]@ as u64, level as nat).len()
                        &&& exists|k2: int| k <= k2 < slots@.len() && slots@[k2] == j
                    } else {
                        &&& translate(view, root, addrs@[j]@ as u64) == walk_from(view, bases@[j], addrs@[j]@ as u64, (level - 1) as nat)
                        &&& ends_with(walk_reads(view, root, addrs@[j]@ as u64), walk_reads_from(view, bases@[j], addrs@[j]@ as u64, (level - 1) as nat))
                        &&& walk_reads(view, root, addrs@[j]@ as u64).len() == (4 - level + 1) + walk_reads_from(view, bases@[j], addrs@[j]@ as u64, (level - 1) as nat).len()
                    },
                        Some(r) => outcome_ok(view, root, addrs@[j]@ as u64, r) && (ok_now ==> r == translate(view, root, addrs@[j]@ as u64)),
                },
                ok_now ==> forall|j: int|
                    0 <= j < n && (#[trigger] out@[j]) is Some ==> walk_reads(view, root, addrs@[j]@ as u64).len() <= 4 - level + 1,
                ok_now ==> mem.read_log().len() - n0 == if 4 - level + 1 < longest {
                    4 - level + 1
                } else {
                    longest as int
                },
            decreases slots@.len() - k,
        {
            let i = slots[k];
            let va = addrs[i].as_u64();
            let outcome = match done.result {
                Err(e) => Some(Err(TranslateError::Mem(e))),
                Ok(()) => {
                    let e = entry_from_bytes(&done.reads[k].buf);
                    proof {
                        assert(holds_bytes_at(view, done.reads@[k as int].addr@, done.reads@[k as int].buf@));
                        assert(done.reads@[k as int].buf@ =~= view.subrange(
                            done.reads@[k as int].addr@ as int,
                            (done.reads@[k as int].addr@ + 8) as int,
                        ));
                    }
                    let st = walk_step(level, e, va);
                    proof {
                        let at = entry_addr(bases@[i as int], level as nat, va);
                        if !(st is Table) {
                            assert(walk_reads_from(view, bases@[i as int], va, level as nat) == seq![at]);
                        }
                    }
                    match st {
                        Step::Table(next) => {
                            proof {
                                let at = entry_addr(bases@[i as int], level as nat, va);
                                assert(walk_reads_from(view, bases@[i as int], va, level as nat) == seq![at] + walk_reads_from(view, next, va, (level - 1) as nat));
                                lemma_ends_with_rest(walk_reads(view, root, va), at, walk_reads_from(view, next, va, (level - 1) as nat));
                            }
                            bases.set(i, next);
                            None
                        },
                        Step::Page(p) => Some(Ok(Address::from(p))),
                        Step::NotPresent => Some(Err(TranslateError::NotPresent { level })),
                        Step::Unsupported => Some(Err(TranslateError::Unsupported { level })),
                    }
                },
            };
            out.set(i, outcome);
            k = k + 1;
        }
        level = level - 1;
    }
    proof {
        lemma_max_walk_len(view, root, addrs@, 4);
        assert forall|j: int| 0 <= j < n implies #[trigger] walk_reads(view, root, addrs@[j]@ as u64).len() <= 4 by {
            lemma_walk_reads_len(view, root, addrs@[j]@ as u64, 4);
        }
    }
    let mut r: Vec<Result<Address, TranslateError>> = Vec::new();
    let mut i: usize = 0;
    while i < n
        invariant
            n == addrs@.len(),
            i <= n,
            r@.len() == i,
            walks_at(view, root, addrs@, bases@, out@, 0, batches_ok(mem.read_log(), n0)),
            forall|j: int| 0 <= j < n ==> (#[trigger] out@[j]) is Some,
            forall|j: int| 0 <= j < i ==> outcome_ok(view, root, addrs@[j]@ as u64, #[trigger] r@[j]),
            batches_ok(mem.read_log(), n0) ==> forall|j: int|
                0 <= j < i ==> #[trigger] r@[j] == translate(view, root, addrs@[j]@ as u64),
            batches_ok(mem.read_log(), n0) ==> mem.read_log().len() == n0 + longest,
        decreases n - i,
    {
        r.push(out[i].unwrap());
        i = i + 1;
    }
    r
}

} // verus!
