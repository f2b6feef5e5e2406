//! The tiered address space.
//!
//! Byte-addressable storage with three tiers behind one linear offset space:
//! a fixed fast region, a dynamically growing table of fixed-size pages, and
//! a small frame-relative window at the bottom of the address range that is
//! resolved at access time against the stack pointer.
//!
//! Addressing scheme (addresses are 8-byte values, as the instruction set
//! encodes them):
//! * address `0` is reserved and always faults;
//! * addresses `1 .. MAX_FRAME` are frame-relative: an access at `a` lands at
//!   linear offset `sp - a`;
//! * addresses `>= MAX_FRAME` map linearly: offset `a - MAX_FRAME` falls
//!   first into the fast region, then into page-table slots.
//!
//! The return-address stack grows downward from the top of the fast region;
//! `push_addr` and `pop_addr` move the stack pointer by one 8-byte slot.

use vstd::arithmetic::div_mod::lemma_fundamental_div_mod;
use vstd::arithmetic::div_mod::lemma_fundamental_div_mod_converse_div;
use vstd::bytes::spec_u32_from_le_bytes;
use vstd::bytes::spec_u32_to_le_bytes;
use vstd::bytes::spec_u64_from_le_bytes;
use vstd::bytes::spec_u64_to_le_bytes;
use vstd::bytes::u32_from_le_bytes;
use vstd::bytes::u32_to_le_bytes;
use vstd::bytes::u64_from_le_bytes;
use vstd::bytes::u64_to_le_bytes;
use vstd::prelude::*;

use crate::fault::Fault;

verus! {

/// Size of the fixed fast region, in bytes.
pub const FAST_SIZE: usize = 32768;

/// Size of one page, in bytes.
pub const PAGE_SIZE: usize = 4096;

/// Width of the frame-relative window: addresses `1 .. MAX_FRAME` are
/// resolved against the stack pointer.
pub const MAX_FRAME: u64 = 64;

/// The program's base offset: the linear address at which a loaded program
/// buffer begins. The byte there is the reserved exit-status cell; the first
/// instruction sits one past it.
pub const PROG_OFFSET: u64 = 64;

/// Hard cap on the number of page-table slots. Keeps every mappable linear
/// offset, and all address arithmetic around it, well inside `usize` on any
/// machine this library runs on.
pub const MAX_PAGES: usize = 262144;

/// One past the largest linear offset that can ever be mapped.
pub const OFF_CAP: usize = FAST_SIZE + MAX_PAGES * PAGE_SIZE;

/// The mathematical model of an address space: the fast region's bytes, the
/// page table (an empty slot is `None`), and the stack pointer.
#[verifier::ext_equal]
pub ghost struct MemView {
    pub fast: Seq<u8>,
    pub page: Seq<Option<Seq<u8>>>,
    pub sp: nat,
}

impl MemView {
    /// Well-formedness: the regions have their fixed sizes, the page table is
    /// within its cap, and the stack pointer stays inside the fast region
    /// with room for one 8-byte slot above it.
    pub open spec fn wf(self) -> bool {
        &&& self.fast.len() == FAST_SIZE
        &&& self.page.len() <= MAX_PAGES
        &&& (forall|i: int|
            0 <= i < self.page.len() ==> match #[trigger] self.page[i] {
                Some(p) => p.len() == PAGE_SIZE,
                None => true,
            })
        &&& self.sp <= FAST_SIZE - 8
    }

    /// Translate an address into a linear offset; `None` is a fault.
    pub open spec fn resolve(self, addr: nat) -> Option<nat> {
        if addr == 0 {
            None
        } else if addr < MAX_FRAME {
            if addr <= self.sp {
                Some((self.sp - addr) as nat)
            } else {
                None
            }
        } else {
            Some((addr - MAX_FRAME) as nat)
        }
    }

    /// The byte stored at a linear offset; `None` if the offset is not
    /// backed by the fast region or an allocated page.
    pub open spec fn byte_at(self, off: nat) -> Option<u8> {
        if off < FAST_SIZE {
            Some(self.fast[off as int])
        } else {
            let p = (off - FAST_SIZE) as nat / PAGE_SIZE as nat;
            let q = (off - FAST_SIZE) as nat % PAGE_SIZE as nat;
            if p < self.page.len() {
                match self.page[p as int] {
                    Some(pg) => Some(pg[q as int]),
                    None => None,
                }
            } else {
                None
            }
        }
    }

    /// The byte at a linear offset, defaulting to 0 where unmapped. Only
    /// meaningful under `can_read`.
    pub open spec fn byte0(self, off: nat) -> u8 {
        match self.byte_at(off) {
            Some(b) => b,
            None => 0,
        }
    }

    /// Whether `n` bytes starting at address `addr` are all readable (and,
    /// equally, writable: the tiers have no read-only part).
    pub open spec fn can_read(self, addr: nat, n: nat) -> bool {
        match self.resolve(addr) {
            Some(off) => forall|i: nat| i < n ==> (#[trigger] self.byte_at((off + i) as nat)) is Some,
            None => false,
        }
    }

    /// The `n` bytes starting at address `addr`. Only meaningful under
    /// `can_read`.
    pub open spec fn read_seq(self, addr: nat, n: nat) -> Seq<u8> {
        let off = self.resolve(addr)->Some_0;
        Seq::new(n, |i: int| self.byte0((off + i) as nat))
    }

    /// The fault produced by an access at `addr` that does not resolve or
    /// lands on an unmapped byte.
    pub open spec fn access_fault(self, addr: nat) -> Fault {
        if addr == 0 {
            Fault::NullAddress
        } else {
            Fault::Unmapped
        }
    }

    /// Store one byte at a linear offset. Unmapped offsets are left as they
    /// are; callers establish `can_read` first.
    pub open spec fn store_byte(self, off: nat, b: u8) -> MemView {
        if off < FAST_SIZE {
            MemView { fast: self.fast.update(off as int, b), ..self }
        } else {
            let p = (off - FAST_SIZE) as nat / PAGE_SIZE as nat;
            let q = (off - FAST_SIZE) as nat % PAGE_SIZE as nat;
            if p < self.page.len() {
                match self.page[p as int] {
                    Some(pg) => MemView {
                        page: self.page.update(p as int, Some(pg.update(q as int, b))),
                        ..self
                    },
                    None => self,
                }
            } else {
                self
            }
        }
    }

    /// Store a run of bytes at consecutive linear offsets.
    pub open spec fn store_seq(self, off: nat, bs: Seq<u8>) -> MemView
        decreases bs.len(),
    {
        if bs.len() == 0 {
            self
        } else {
            self.store_byte(off, bs[0]).store_seq((off + 1) as nat, bs.subrange(1, bs.len() as int))
        }
    }

    /// The state after writing `bs` at address `addr`. Only meaningful under
    /// `can_read(addr, bs.len())`.
    pub open spec fn write_seq(self, addr: nat, bs: Seq<u8>) -> MemView {
        self.store_seq(self.resolve(addr)->Some_0, bs)
    }

    /// The byte value at `addr`. Only meaningful under `can_read(addr, 1)`.
    pub open spec fn read_u8_at(self, addr: nat) -> u8 {
        self.read_seq(addr, 1)[0]
    }

    /// The 4-byte little-endian value at `addr`. Only meaningful under
    /// `can_read(addr, 4)`.
    pub open spec fn read_u32_at(self, addr: nat) -> u32 {
        spec_u32_from_le_bytes(self.read_seq(addr, 4))
    }

    /// The 8-byte little-endian value at `addr`. Only meaningful under
    /// `can_read(addr, 8)`.
    pub open spec fn read_u64_at(self, addr: nat) -> u64 {
        spec_u64_from_le_bytes(self.read_seq(addr, 8))
    }

    /// The two 8-byte values in the 16 contiguous bytes at `addr`. Only
    /// meaningful under `can_read(addr, 16)`.
    pub open spec fn read_pair_at(self, addr: nat) -> (u64, u64) {
        let bs = self.read_seq(addr, 16);
        (spec_u64_from_le_bytes(bs.subrange(0, 8)), spec_u64_from_le_bytes(bs.subrange(8, 16)))
    }

    /// The state after pushing a return address: the 8 bytes land at the
    /// current stack pointer and the pointer moves down one slot.
    pub open spec fn push_ret(self, a: u64) -> MemView {
        let m2 = self.store_seq(self.sp, spec_u64_to_le_bytes(a));
        MemView { sp: (self.sp - 8) as nat, ..m2 }
    }

    /// The value popped from the return stack: the stack pointer moves up one
    /// slot and the 8 bytes there are read back.
    pub open spec fn pop_val(self) -> u64 {
        spec_u64_from_le_bytes(Seq::new(8, |i: int| self.byte0((self.sp + 8 + i) as nat)))
    }

    /// The state after popping: only the stack pointer changes.
    pub open spec fn pop_ret(self) -> MemView {
        MemView { sp: (self.sp + 8) as nat, ..self }
    }
}

/// The index of the first empty page slot at or past `i`, if any.
pub open spec fn first_none(p: Seq<Option<Seq<u8>>>, i: nat) -> Option<nat>
    decreases p.len() - i,
{
    if i >= p.len() {
        None
    } else if p[i as int] is None {
        Some(i)
    } else {
        first_none(p, (i + 1) as nat)
    }
}

/// A page of zeroes.
pub open spec fn zero_page() -> Seq<u8> {
    Seq::new(PAGE_SIZE as nat, |i: int| 0u8)
}

/// The linear address of page slot `i`.
pub open spec fn page_addr(i: nat) -> nat {
    (MAX_FRAME + FAST_SIZE + i * PAGE_SIZE) as nat
}

/// Where the scan finds an empty slot, every slot before it is full; where
/// it finds none, every slot from `i` on is full.
pub proof fn lemma_first_none_prefix(p: Seq<Option<Seq<u8>>>, i: nat)
    requires
        i <= p.len(),
    ensures
        match first_none(p, i) {
            Some(k) => i <= k < p.len() && p[k as int] is None && (forall|j: int|
                i <= j < k ==> (#[trigger] p[j]) is Some),
            None => forall|j: int| i <= j < p.len() ==> (#[trigger] p[j]) is Some,
        },
    decreases p.len() - i,
{
    if i < p.len() && !(p[i as int] is None) {
        lemma_first_none_prefix(p, (i + 1) as nat);
    }
}

/// First-fit reuse: allocating, freeing that page, then allocating again
/// returns the same address, not a new, higher one. `alloc_of` names the
/// page table and address `alloc_page` produces, `free_of` the table
/// `free_page` leaves; both are exactly what those operations' contracts
/// give.
pub open spec fn alloc_of(m: MemView) -> (Seq<Option<Seq<u8>>>, nat) {
    match first_none(m.page, 0) {
        Some(i) => (m.page.update(i as int, Some(zero_page())), page_addr(i)),
        None => (m.page.push(Some(zero_page())), page_addr(m.page.len())),
    }
}

/// The page-table slot a linear address names.
pub open spec fn slot_of(addr: nat) -> nat {
    ((addr - MAX_FRAME - FAST_SIZE) as nat) / (PAGE_SIZE as nat)
}

/// Allocate, free that very page, allocate again: the second allocation
/// fills the same slot and returns the same address.
pub proof fn lemma_alloc_free_alloc(m: MemView)
    requires
        m.wf(),
        m.page.len() < MAX_PAGES || first_none(m.page, 0) is Some,
    ensures
        ({
            let (p1, a) = alloc_of(m);
            let p2 = p1.update(slot_of(a) as int, None);
            alloc_of(MemView { page: p2, ..m }) == (
                (
                    p2.update(slot_of(a) as int, Some(zero_page())),
                    a,
                )
            )
        }),
{
    let (p1, a) = alloc_of(m);
    lemma_first_none_prefix(m.page, 0);
    let i: nat = match first_none(m.page, 0) {
        Some(i) => i,
        None => m.page.len(),
    };
    assert(a == page_addr(i));
    assert(forall|j: int| 0 <= j < i ==> (#[trigger] m.page[j]) is Some);
    assert(slot_of(page_addr(i)) == i) by {
        assert(page_addr(i) - MAX_FRAME - FAST_SIZE == i * PAGE_SIZE);
        lemma_fundamental_div_mod_converse_div(
            (i * PAGE_SIZE) as int,
            PAGE_SIZE as int,
            i as int,
            0,
        );
    }
    let p2 = p1.update(i as int, None);
    assert(forall|j: int| 0 <= j < i ==> (#[trigger] p2[j]) is Some);
    assert(p2[i as int] is None);
    lemma_first_none_skip(p2, i);
    assert(first_none(p2, 0) == Some(i));
}

/// Pushing a return address and popping gives it back, with the stack
/// pointer where it was.
pub proof fn lemma_push_then_pop(m: MemView, a: u64)
    requires
        m.wf(),
        m.sp >= 8,
    ensures
        m.push_ret(a).pop_val() == a,
        m.push_ret(a).pop_ret().sp == m.sp,
{
    vstd::bytes::lemma_auto_spec_u64_to_from_le_bytes();
    let bs = spec_u64_to_le_bytes(a);
    assert forall|i: nat| i < bs.len() implies (#[trigger] m.byte_at((m.sp + i) as nat)) is Some by {
        assert(m.sp + i < FAST_SIZE);
    }
    lemma_store_seq(m, m.sp, bs);
    let m1 = m.push_ret(a);
    assert(m1.sp == m.sp - 8);
    assert forall|i: int| 0 <= i < 8 implies #[trigger] m1.byte0((m1.sp + 8 + i) as nat)
        == bs[i] by {
        assert(m.store_seq(m.sp, bs).byte_at((m.sp + i) as nat) == Some(bs[i]));
    }
    assert(Seq::new(8, |i: int| m1.byte0((m1.sp + 8 + i) as nat)) =~= bs);
}

/// Scanning for the first empty slot can start past a prefix of full ones.
proof fn lemma_first_none_skip(p: Seq<Option<Seq<u8>>>, i: nat)
    requires
        i <= p.len(),
        forall|j: int| 0 <= j < i ==> (#[trigger] p[j]) is Some,
    ensures
        first_none(p, 0) == first_none(p, i),
    decreases i,
{
    if i > 0 {
        lemma_first_none_skip_one(p, (i - 1) as nat);
        lemma_first_none_skip(p, (i - 1) as nat);
    }
}

proof fn lemma_first_none_skip_one(p: Seq<Option<Seq<u8>>>, k: nat)
    requires
        k < p.len(),
        p[k as int] is Some,
    ensures
        first_none(p, k) == first_none(p, (k + 1) as nat),
{
}

/// The page coordinates of two distinct offsets past the fast region differ.
proof fn lemma_page_coords_inj(o1: nat, o2: nat)
    requires
        o1 >= FAST_SIZE,
        o2 >= FAST_SIZE,
        ((o1 - FAST_SIZE) as nat) / (PAGE_SIZE as nat) == ((o2 - FAST_SIZE) as nat) / (
        PAGE_SIZE as nat),
        ((o1 - FAST_SIZE) as nat) % (PAGE_SIZE as nat) == ((o2 - FAST_SIZE) as nat) % (
        PAGE_SIZE as nat),
    ensures
        o1 == o2,
{
    lemma_fundamental_div_mod((o1 - FAST_SIZE) as int, PAGE_SIZE as int);
    lemma_fundamental_div_mod((o2 - FAST_SIZE) as int, PAGE_SIZE as int);
}

/// What one byte store does to the model: the chosen byte changes, nothing
/// else does, and well-formedness is kept.
pub proof fn lemma_store_byte(m: MemView, off: nat, b: u8)
    requires
        m.wf(),
        m.byte_at(off) is Some,
    ensures
        ({
            let m2 = m.store_byte(off, b);
            &&& m2.wf()
            &&& m2.sp == m.sp
            &&& m2.fast.len() == m.fast.len()
            &&& m2.page.len() == m.page.len()
            &&& forall|i: int|
                0 <= i < m.page.len() ==> ((#[trigger] m2.page[i]) is Some <==> m.page[i] is Some)
            &&& m2.byte_at(off) == Some(b)
            &&& forall|o2: nat| o2 != off ==> #[trigger] m2.byte_at(o2) == m.byte_at(o2)
        }),
{
    let m2 = m.store_byte(off, b);
    if off < FAST_SIZE {
        assert forall|o2: nat| o2 != off implies #[trigger] m2.byte_at(o2) == m.byte_at(o2) by {}
    } else {
        let rel = (off - FAST_SIZE) as nat;
        let p = rel / (PAGE_SIZE as nat);
        let q = rel % (PAGE_SIZE as nat);
        lemma_fundamental_div_mod(rel as int, PAGE_SIZE as int);
        assert(0 <= q < PAGE_SIZE);
        assert(p < m.page.len());
        assert(m2.byte_at(off) == Some(b));
        assert forall|o2: nat| o2 != off implies #[trigger] m2.byte_at(o2) == m.byte_at(o2) by {
            if o2 >= FAST_SIZE {
                let rel2 = (o2 - FAST_SIZE) as nat;
                let p2 = rel2 / (PAGE_SIZE as nat);
                let q2 = rel2 % (PAGE_SIZE as nat);
                lemma_fundamental_div_mod(rel2 as int, PAGE_SIZE as int);
                if p2 == p && q2 == q {
                    lemma_page_coords_inj(off, o2);
                }
            }
        }
    }
}

/// What storing a run of bytes does to the model, byte for byte.
pub proof fn lemma_store_seq(m: MemView, off: nat, bs: Seq<u8>)
    requires
        m.wf(),
        forall|i: nat| i < bs.len() ==> (#[trigger] m.byte_at((off + i) as nat)) is Some,
    ensures
        ({
            let m2 = m.store_seq(off, bs);
            &&& m2.wf()
            &&& m2.sp == m.sp
            &&& m2.fast.len() == m.fast.len()
            &&& m2.page.len() == m.page.len()
            &&& forall|i: int|
                0 <= i < m.page.len() ==> ((#[trigger] m2.page[i]) is Some <==> m.page[i] is Some)
            &&& forall|i: nat|
                i < bs.len() ==> #[trigger] m2.byte_at((off + i) as nat) == Some(bs[i as int])
            &&& forall|o2: nat|
                (o2 < off || o2 >= off + bs.len()) ==> #[trigger] m2.byte_at(o2) == m.byte_at(o2)
        }),
    decreases bs.len(),
{
    if bs.len() == 0 {
    } else {
        let mb = m.store_byte(off, bs[0]);
        assert(m.byte_at((off + 0) as nat) is Some);
        lemma_store_byte(m, off, bs[0]);
        let rest = bs.subrange(1, bs.len() as int);
        assert forall|i: nat| i < rest.len() implies (#[trigger] mb.byte_at(
            ((off + 1) + i) as nat,
        )) is Some by {
            assert(m.byte_at((off + (i + 1)) as nat) is Some);
            assert(((off + 1) + i) as nat == (off + (i + 1)) as nat);
        }
        lemma_store_seq(mb, (off + 1) as nat, rest);
        let m2 = m.store_seq(off, bs);
        assert(m2 == mb.store_seq((off + 1) as nat, rest));
        assert forall|i: nat| i < bs.len() implies #[trigger] m2.byte_at((off + i) as nat) == Some(
            bs[i as int],
        ) by {
            if i == 0 {
                assert(m2.byte_at(off) == mb.byte_at(off));
            } else {
                assert(m2.byte_at(((off + 1) + (i - 1)) as nat) == Some(rest[i - 1]));
                assert(((off + 1) + (i - 1)) as nat == (off + i) as nat);
            }
        }
    }
}

/// Storing one more byte after a run is the same as storing the longer run.
pub proof fn lemma_store_seq_snoc(m: MemView, off: nat, bs: Seq<u8>, b: u8)
    ensures
        m.store_seq(off, bs.push(b)) == m.store_seq(off, bs).store_byte((off + bs.len()) as nat, b),
    decreases bs.len(),
{
    if bs.len() == 0 {
        let s1 = bs.push(b);
        assert(s1[0] == b);
        assert(s1.subrange(1, 1) =~= Seq::<u8>::empty());
        assert(m.store_seq(off, s1) == m.store_byte(off, s1[0]).store_seq(
            (off + 1) as nat,
            s1.subrange(1, 1),
        ));
        assert(m.store_byte(off, b).store_seq((off + 1) as nat, Seq::<u8>::empty())
            == m.store_byte(off, b));
    } else {
        let mb = m.store_byte(off, bs[0]);
        assert(bs.push(b)[0] == bs[0]);
        assert(bs.push(b).subrange(1, bs.push(b).len() as int) =~= bs.subrange(
            1,
            bs.len() as int,
        ).push(b));
        lemma_store_seq_snoc(mb, (off + 1) as nat, bs.subrange(1, bs.len() as int), b);
        assert(((off + 1) + bs.subrange(1, bs.len() as int).len()) as nat == (off
            + bs.len()) as nat);
    }
}

/// The address space. Owned exclusively by one VM instance.
pub struct Memory {
    fast: Vec<u8>,
    page: Vec<Option<Vec<u8>>>,
    sp: usize,
}

impl View for Memory {
    type V = MemView;

    closed spec fn view(&self) -> MemView {
        MemView { fast: self.fast@, page: self.page.deep_view(), sp: self.sp as nat }
    }
}

/// The fast region's contents right after loading `code`: zero everywhere,
/// with `code` at offsets `1 ..= code.len()`.
pub open spec fn loaded_fast(code: Seq<u8>) -> Seq<u8> {
    Seq::new(FAST_SIZE as nat, |j: int| if 1 <= j < 1 + code.len() {
        code[j - 1]
    } else {
        0u8
    })
}

impl Memory {
    /// Construct an address space holding `code`: the fast region is zeroed
    /// and `code` is copied in starting at linear offset 1 (offset 0 stays
    /// reserved), the page table is empty, and the stack pointer starts at
    /// the topmost 8-byte slot of the fast region.
    pub fn new(code: &Vec<u8>) -> (m: Memory)
        requires
            code.len() < FAST_SIZE,
        ensures
            m@.wf(),
            m@.page =~= Seq::<Option<Seq<u8>>>::empty(),
            m@.sp == FAST_SIZE - 8,
            m@.fast =~= loaded_fast(code@),
    {
        let mut fast: Vec<u8> = Vec::new();
        let mut i: usize = 0;
        while i < FAST_SIZE
            invariant
                i <= FAST_SIZE,
                fast.len() == i,
                forall|j: int| 0 <= j < i ==> fast[j] == 0u8,
            decreases FAST_SIZE - i,
        {
            fast.push(0u8);
            i = i + 1;
        }
        let mut k: usize = 0;
        while k < code.len()
            invariant
                k <= code.len(),
                code.len() < FAST_SIZE,
                fast.len() == FAST_SIZE,
                forall|j: int| 1 <= j < 1 + k ==> fast[j] == code[j - 1],
                forall|j: int| (j == 0 || 1 + k <= j < FAST_SIZE) ==> fast[j] == 0u8,
            decreases code.len() - k,
        {
            fast.set(k + 1, code[k]);
            k = k + 1;
        }
        let m = Memory { fast, page: Vec::new(), sp: FAST_SIZE - 8 };
        proof {
            assert(m@.fast =~= loaded_fast(code@));
        }
        m
    }

    /// The byte backing a linear offset, if any.
    fn byte_get(&self, off: usize) -> (r: Option<u8>)
        requires
            self@.wf(),
        ensures
            r == self@.byte_at(off as nat),
    {
        if off < FAST_SIZE {
            Some(self.fast[off])
        } else {
            let rel = off - FAST_SIZE;
            let p = rel / PAGE_SIZE;
            let q = rel % PAGE_SIZE;
            if p < self.page.len() {
                match &self.page[p] {
                    Some(pg) => {
                        proof {
                            assert(self@.page[p as int] == self.page@[p as int].deep_view());
                        }
                        Some(pg[q])
                    },
                    None => {
                        proof {
                            assert(self@.page[p as int] == self.page@[p as int].deep_view());
                        }
                        None
                    },
                }
            } else {
                None
            }
        }
    }

    /// Overwrite the byte backing a linear offset.
    fn byte_set(&mut self, off: usize, b: u8)
        requires
            old(self)@.wf(),
            old(self)@.byte_at(off as nat) is Some,
        ensures
            final(self)@ == old(self)@.store_byte(off as nat, b),
            final(self)@.wf(),
    {
        proof {
            lemma_store_byte(old(self)@, off as nat, b);
        }
        if off < FAST_SIZE {
            self.fast.set(off, b);
            proof {
                assert(self@ =~= old(self)@.store_byte(off as nat, b));
            }
        } else {
            let rel = off - FAST_SIZE;
            let p = rel / PAGE_SIZE;
            let q = rel % PAGE_SIZE;
            proof {
                assert(old(self)@.page[p as int] == old(self).page@[p as int].deep_view());
                assert(old(self)@.page[p as int] is Some);
            }
            match &mut self.page[p] {
                Some(pg) => {
                    proof {
                        assert(old(self)@.page[p as int] == Some(pg@));
                        assert(pg@.len() == PAGE_SIZE);
                    }
                    pg.set(q, b);
                },
                None => {},
            }
            proof {
                let m0 = old(self)@;
                let m2 = m0.store_byte(off as nat, b);
                let pg0 = m0.page[p as int]->Some_0;
                assert forall|i: int| 0 <= i < self.page@.len() implies self@.page[i] == m2.page[i] by {
                    assert(self@.page[i] == self.page@[i].deep_view());
                    if i == p as int {
                        assert(self.page@[i].deep_view() == Some(pg0.update(q as int, b)));
                    } else {
                        assert(self.page@[i] == old(self).page@[i]);
                        assert(m2.page[i] == m0.page[i]);
                        assert(m0.page[i] == old(self).page@[i].deep_view());
                    }
                }
                assert(self@ =~= m2);
            }
        }
    }

    /// Translate an address into a linear offset that could be mapped.
    fn resolve_off(&self, addr: u64) -> (r: Result<usize, Fault>)
        requires
            self@.wf(),
        ensures
            match r {
                Ok(off) => self@.resolve(addr as nat) == Some(off as nat) && off < OFF_CAP,
                Err(f) => f == self@.access_fault(addr as nat) && !self@.can_read(addr as nat, 1),
            },
    {
        if addr == 0 {
            Err(Fault::NullAddress)
        } else if addr < MAX_FRAME {
            let a = addr as usize;
            if a <= self.sp {
                Ok(self.sp - a)
            } else {
                Err(Fault::Unmapped)
            }
        } else {
            let lin = addr - MAX_FRAME;
            if lin < OFF_CAP as u64 {
                Ok(lin as usize)
            } else {
                proof {
                    let off = (addr - MAX_FRAME) as nat;
                    let rel = (off - FAST_SIZE) as nat;
                    let p = rel / (PAGE_SIZE as nat);
                    lemma_fundamental_div_mod(rel as int, PAGE_SIZE as int);
                    assert(rel >= MAX_PAGES * PAGE_SIZE);
                    assert(p >= MAX_PAGES) by (nonlinear_arith)
                        requires
                            rel >= MAX_PAGES * PAGE_SIZE,
                            p == rel / (PAGE_SIZE as nat),
                            PAGE_SIZE == 4096,
                    ;
                    assert(self@.byte_at((off + 0) as nat) is None);
                }
                Err(Fault::Unmapped)
            }
        }
    }

    /// Read `n` bytes starting at address `addr`. Returns exactly the bytes
    /// the model holds there, or the fault that makes them unreadable; the
    /// address space itself is never changed by a read.
    pub fn read_bytes(&self, addr: u64, n: usize) -> (r: Result<Vec<u8>, Fault>)
        requires
            self@.wf(),
            1 <= n <= 16,
        ensures
            match r {
                Ok(v) => {
                    &&& self@.can_read(addr as nat, n as nat)
                    &&& v@ == self@.read_seq(addr as nat, n as nat)
                    &&& v.len() == n
                },
                Err(f) => {
                    &&& !self@.can_read(addr as nat, n as nat)
                    &&& f == self@.access_fault(addr as nat)
                },
            },
    {
        let off = match self.resolve_off(addr) {
            Ok(o) => o,
            Err(f) => {
                return Err(f);
            },
        };
        let mut v: Vec<u8> = Vec::new();
        let mut i: usize = 0;
        while i < n
            invariant
                self@.wf(),
                self@.resolve(addr as nat) == Some(off as nat),
                off < OFF_CAP,
                i <= n,
                n <= 16,
                v.len() == i,
                addr != 0,
                forall|j: nat| j < i ==> (#[trigger] self@.byte_at((off + j) as nat)) is Some,
                forall|j: int| 0 <= j < i ==> v[j] == self@.byte0((off + j) as nat),
            decreases n - i,
        {
            match self.byte_get(off + i) {
                Some(b) => {
                    v.push(b);
                },
                None => {
                    proof {
                        let j = i as nat;
                        assert(self@.byte_at(((off + i) as usize) as nat) is None);
                        assert((self@.resolve(addr as nat)->Some_0 + j) as nat == ((off
                            + i) as usize) as nat);
                        assert(!self@.can_read(addr as nat, n as nat));
                    }
                    return Err(Fault::Unmapped);
                },
            }
            i = i + 1;
        }
        proof {
            assert(v@ =~= self@.read_seq(addr as nat, n as nat));
        }
        Ok(v)
    }

    /// Write `bs` at address `addr`. Either every byte lands (the new state
    /// is the model's `write_seq`) or nothing changes and the fault that
    /// makes the range unwritable is returned.
    pub fn write_bytes(&mut self, addr: u64, bs: &Vec<u8>) -> (r: Result<(), Fault>)
        requires
            old(self)@.wf(),
            1 <= bs.len() <= 16,
        ensures
            final(self)@.wf(),
            match r {
                Ok(_) => {
                    &&& old(self)@.can_read(addr as nat, bs.len() as nat)
                    &&& final(self)@ == old(self)@.write_seq(addr as nat, bs@)
                },
                Err(f) => {
                    &&& !old(self)@.can_read(addr as nat, bs.len() as nat)
                    &&& final(self)@ == old(self)@
                    &&& f == old(self)@.access_fault(addr as nat)
                },
            },
    {
        let n = bs.len();
        let off = match self.resolve_off(addr) {
            Ok(o) => o,
            Err(f) => {
                return Err(f);
            },
        };
        let mut i: usize = 0;
        while i < n
            invariant
                self@ == old(self)@,
                self@.wf(),
                self@.resolve(addr as nat) == Some(off as nat),
                off < OFF_CAP,
                i <= n,
                n == bs.len(),
                n <= 16,
                addr != 0,
                forall|j: nat| j < i ==> (#[trigger] self@.byte_at((off + j) as nat)) is Some,
            decreases n - i,
        {
            match self.byte_get(off + i) {
                Some(_) => {},
                None => {
                    proof {
                        let j = i as nat;
                        assert(self@.byte_at(((off + i) as usize) as nat) is None);
                        assert((self@.resolve(addr as nat)->Some_0 + j) as nat == ((off
                            + i) as usize) as nat);
                        assert(!self@.can_read(addr as nat, n as nat));
                    }
                    return Err(Fault::Unmapped);
                },
            }
            i = i + 1;
        }
        let ghost m0 = self@;
        let mut k: usize = 0;
        while k < n
            invariant
                m0.wf(),
                n == bs.len(),
                1 <= n <= 16,
                off < OFF_CAP,
                k <= n,
                forall|j: nat| j < n ==> (#[trigger] m0.byte_at((off + j) as nat)) is Some,
                self@ == m0.store_seq(off as nat, bs@.subrange(0, k as int)),
                self@.wf(),
            decreases n - k,
        {
            proof {
                lemma_store_seq(m0, off as nat, bs@.subrange(0, k as int));
                assert(self@.byte_at((off + k) as nat) == m0.byte_at((off + k) as nat));
            }
            let ghost pre = self@;
            self.byte_set(off + k, bs[k]);
            proof {
                lemma_store_seq_snoc(m0, off as nat, bs@.subrange(0, k as int), bs@[k as int]);
                assert(bs@.subrange(0, (k + 1) as int) =~= bs@.subrange(0, k as int).push(
                    bs@[k as int],
                ));
                assert((off as nat + bs@.subrange(0, k as int).len()) as nat == (off
                    + k) as nat);
            }
            k = k + 1;
        }
        proof {
            assert(bs@.subrange(0, n as int) =~= bs@);
        }
        Ok(())
    }

    /// Read the byte at `addr`.
    pub fn read_u8(&self, addr: u64) -> (r: Result<u8, Fault>)
        requires
            self@.wf(),
        ensures
            match r {
                Ok(b) => self@.can_read(addr as nat, 1) && b == self@.read_u8_at(addr as nat),
                Err(f) => !self@.can_read(addr as nat, 1) && f == self@.access_fault(addr as nat),
            },
    {
        match self.read_bytes(addr, 1) {
            Ok(v) => Ok(v[0]),
            Err(f) => Err(f),
        }
    }

    /// Read the 4-byte little-endian value at `addr`.
    pub fn read_u32(&self, addr: u64) -> (r: Result<u32, Fault>)
        requires
            self@.wf(),
        ensures
            match r {
                Ok(x) => self@.can_read(addr as nat, 4) && x == self@.read_u32_at(addr as nat),
                Err(f) => !self@.can_read(addr as nat, 4) && f == self@.access_fault(addr as nat),
            },
    {
        match self.read_bytes(addr, 4) {
            Ok(v) => Ok(u32_from_le_bytes(v.as_slice())),
            Err(f) => Err(f),
        }
    }

    /// Read the 8-byte little-endian value at `addr`. This is how every
    /// address operand and every 8-byte datum is fetched.
    pub fn get1(&self, addr: u64) -> (r: Result<u64, Fault>)
        requires
            self@.wf(),
        ensures
            match r {
                Ok(x) => self@.can_read(addr as nat, 8) && x == self@.read_u64_at(addr as nat),
                Err(f) => !self@.can_read(addr as nat, 8) && f == self@.access_fault(addr as nat),
            },
    {
        match self.read_bytes(addr, 8) {
            Ok(v) => Ok(u64_from_le_bytes(v.as_slice())),
            Err(f) => Err(f),
        }
    }

    /// Read two consecutive 8-byte values starting at `addr` (an
    /// instruction's operand pair).
    pub fn get2(&self, addr: u64) -> (r: Result<[u64; 2], Fault>)
        requires
            self@.wf(),
        ensures
            match r {
                Ok(p) => {
                    &&& self@.can_read(addr as nat, 16)
                    &&& p@ =~= seq![
                        self@.read_pair_at(addr as nat).0,
                        self@.read_pair_at(addr as nat).1,
                    ]
                },
                Err(f) => !self@.can_read(addr as nat, 16) && f == self@.access_fault(addr as nat),
            },
    {
        let v = match self.read_bytes(addr, 16) {
            Ok(v) => v,
            Err(f) => {
                return Err(f);
            },
        };
        let mut lo: Vec<u8> = Vec::new();
        let mut hi: Vec<u8> = Vec::new();
        let mut i: usize = 0;
        while i < 8
            invariant
                v.len() == 16,
                i <= 8,
                lo@ =~= v@.subrange(0, i as int),
                hi@ =~= v@.subrange(8, 8 + i as int),
            decreases 8 - i,
        {
            lo.push(v[i]);
            hi.push(v[8 + i]);
            proof {
                assert(lo@ =~= v@.subrange(0, i + 1 as int));
                assert(hi@ =~= v@.subrange(8, 8 + (i + 1) as int));
            }
            i = i + 1;
        }
        let a = u64_from_le_bytes(lo.as_slice());
        let b = u64_from_le_bytes(hi.as_slice());
        Ok([a, b])
    }

    /// Write one byte at `addr`.
    pub fn write_u8(&mut self, addr: u64, b: u8) -> (r: Result<(), Fault>)
        requires
            old(self)@.wf(),
        ensures
            final(self)@.wf(),
            match r {
                Ok(_) => {
                    &&& old(self)@.can_read(addr as nat, 1)
                    &&& final(self)@ == old(self)@.write_seq(addr as nat, seq![b])
                },
                Err(f) => {
                    &&& !old(self)@.can_read(addr as nat, 1)
                    &&& final(self)@ == old(self)@
                    &&& f == old(self)@.access_fault(addr as nat)
                },
            },
    {
        let mut bs: Vec<u8> = Vec::new();
        bs.push(b);
        proof {
            assert(bs@ =~= seq![b]);
        }
        self.write_bytes(addr, &bs)
    }

    /// Write a 4-byte little-endian value at `addr`.
    pub fn write_u32(&mut self, addr: u64, x: u32) -> (r: Result<(), Fault>)
        requires
            old(self)@.wf(),
        ensures
            final(self)@.wf(),
            match r {
                Ok(_) => {
                    &&& old(self)@.can_read(addr as nat, 4)
                    &&& final(self)@ == old(self)@.write_seq(addr as nat, spec_u32_to_le_bytes(x))
                },
                Err(f) => {
                    &&& !old(self)@.can_read(addr as nat, 4)
                    &&& final(self)@ == old(self)@
                    &&& f == old(self)@.access_fault(addr as nat)
                },
            },
    {
        let bs = u32_to_le_bytes(x);
        self.write_bytes(addr, &bs)
    }

    /// Write an 8-byte little-endian value at `addr`.
    pub fn write_u64(&mut self, addr: u64, x: u64) -> (r: Result<(), Fault>)
        requires
            old(self)@.wf(),
        ensures
            final(self)@.wf(),
            match r {
                Ok(_) => {
                    &&& old(self)@.can_read(addr as nat, 8)
                    &&& final(self)@ == old(self)@.write_seq(addr as nat, spec_u64_to_le_bytes(x))
                },
                Err(f) => {
                    &&& !old(self)@.can_read(addr as nat, 8)
                    &&& final(self)@ == old(self)@
                    &&& f == old(self)@.access_fault(addr as nat)
                },
            },
    {
        let bs = u64_to_le_bytes(x);
        self.write_bytes(addr, &bs)
    }

    /// Push a return address: write it at the stack pointer, then move the
    /// pointer down one 8-byte slot.
    pub fn push_addr(&mut self, addr: u64) -> (r: Result<(), Fault>)
        requires
            old(self)@.wf(),
        ensures
            final(self)@.wf(),
            match r {
                Ok(_) => old(self)@.sp >= 8 && final(self)@ == old(self)@.push_ret(addr),
                Err(f) => {
                    &&& old(self)@.sp < 8
                    &&& final(self)@ == old(self)@
                    &&& f == Fault::StackOverflow
                },
            },
    {
        if self.sp < 8 {
            return Err(Fault::StackOverflow);
        }
        let a = (self.sp as u64) + MAX_FRAME;
        proof {
            assert(self@.resolve(a as nat) == Some(self@.sp));
            assert forall|i: nat| i < 8 implies (#[trigger] self@.byte_at(
                (self@.sp + i) as nat,
            )) is Some by {
                assert(self@.sp + i < FAST_SIZE);
            }
        }
        let bs = u64_to_le_bytes(addr);
        let res = self.write_bytes(a, &bs);
        proof {
            assert(res is Ok);
            lemma_store_seq(old(self)@, old(self)@.sp, spec_u64_to_le_bytes(addr));
            assert(self@.sp == old(self)@.sp);
            assert(self.sp == old(self).sp);
        }
        self.sp = self.sp - 8;
        proof {
            assert(self@ =~= old(self)@.push_ret(addr));
        }
        Ok(())
    }

    /// Pop a return address: move the stack pointer up one 8-byte slot, then
    /// read the value there.
    pub fn pop_addr(&mut self) -> (r: Result<u64, Fault>)
        requires
            old(self)@.wf(),
        ensures
            final(self)@.wf(),
            match r {
                Ok(a) => {
                    &&& old(self)@.sp <= FAST_SIZE - 16
                    &&& a == old(self)@.pop_val()
                    &&& final(self)@ == old(self)@.pop_ret()
                },
                Err(f) => {
                    &&& old(self)@.sp > FAST_SIZE - 16
                    &&& final(self)@ == old(self)@
                    &&& f == Fault::StackUnderflow
                },
            },
    {
        if self.sp > FAST_SIZE - 16 {
            return Err(Fault::StackUnderflow);
        }
        self.sp = self.sp + 8;
        proof {
            assert(self@ =~= old(self)@.pop_ret());
        }
        let a = (self.sp as u64) + MAX_FRAME;
        proof {
            assert(self@.resolve(a as nat) == Some(self@.sp));
            assert forall|i: nat| i < 8 implies (#[trigger] self@.byte_at(
                (self@.sp + i) as nat,
            )) is Some by {
                assert(self@.sp + i < FAST_SIZE);
            }
        }
        let res = match self.read_bytes(a, 8) {
            Ok(v) => u64_from_le_bytes(v.as_slice()),
            Err(_) => {
                proof {
                    assert(false);
                }
                0
            },
        };
        proof {
            assert(self@.read_seq(a as nat, 8) =~= Seq::new(
                8,
                |i: int| old(self)@.byte0((old(self)@.sp + 8 + i) as nat),
            ));
        }
        Ok(res)
    }

    /// Allocate a page: fill the first empty slot (or append a new one) with
    /// zeroes and return its linear address. An address is never reused while
    /// its slot is occupied.
    pub fn alloc_page(&mut self) -> (r: Result<u64, Fault>)
        requires
            old(self)@.wf(),
        ensures
            final(self)@.wf(),
            match r {
                Ok(a) => {
                    &&& a as nat == alloc_of(old(self)@).1
                    &&& final(self)@ == MemView { page: alloc_of(old(self)@).0, ..old(self)@ }
                    &&& (first_none(old(self)@.page, 0) is None ==> old(self)@.page.len()
                        < MAX_PAGES)
                },
                Err(f) => {
                    &&& f == Fault::OutOfPages
                    &&& first_none(old(self)@.page, 0) is None
                    &&& old(self)@.page.len() == MAX_PAGES
                    &&& final(self)@ == old(self)@
                },
            },
    {
        let n = self.page.len();
        let mut i: usize = 0;
        while i < n
            invariant
                self == old(self),
                self@.wf(),
                n == self.page.len(),
                i <= n,
                forall|j: int| 0 <= j < i ==> (#[trigger] self@.page[j]) is Some,
            decreases n - i,
        {
            let is_free = match &self.page[i] {
                Some(_) => false,
                None => true,
            };
            proof {
                assert(self@.page[i as int] == self.page@[i as int].deep_view());
            }
            if is_free {
                proof {
                    lemma_first_none_skip(self@.page, i as nat);
                    assert(first_none(self@.page, 0) == Some(i as nat));
                }
                let zp = Self::fresh_page();
                self.page.set(i, Some(zp));
                proof {
                    let m2 = MemView {
                        page: old(self)@.page.update(i as int, Some(zero_page())),
                        ..old(self)@
                    };
                    assert forall|j: int| 0 <= j < self.page@.len() implies self@.page[j]
                        == m2.page[j] by {
                        assert(self@.page[j] == self.page@[j].deep_view());
                        if j != i as int {
                            assert(self.page@[j] == old(self).page@[j]);
                        }
                    }
                    assert(self@ =~= m2);
                }
                return Ok(MAX_FRAME + (FAST_SIZE + i * PAGE_SIZE) as u64);
            }
            i = i + 1;
        }
        proof {
            lemma_first_none_skip(self@.page, n as nat);
            assert(first_none(self@.page, 0) is None);
        }
        if n >= MAX_PAGES {
            return Err(Fault::OutOfPages);
        }
        let zp = Self::fresh_page();
        self.page.push(Some(zp));
        proof {
            let m2 = MemView { page: old(self)@.page.push(Some(zero_page())), ..old(self)@ };
            assert forall|j: int| 0 <= j < self.page@.len() implies self@.page[j] == m2.page[j] by {
                assert(self@.page[j] == self.page@[j].deep_view());
                if j < n as int {
                    assert(self.page@[j] == old(self).page@[j]);
                }
            }
            assert(self@ =~= m2);
        }
        Ok(MAX_FRAME + (FAST_SIZE + n * PAGE_SIZE) as u64)
    }

    /// A newly zeroed page.
    fn fresh_page() -> (p: Vec<u8>)
        ensures
            p@ =~= zero_page(),
    {
        let mut p: Vec<u8> = Vec::new();
        let mut i: usize = 0;
        while i < PAGE_SIZE
            invariant
                i <= PAGE_SIZE,
                p.len() == i,
                forall|j: int| 0 <= j < i ==> p[j] == 0u8,
            decreases PAGE_SIZE - i,
        {
            p.push(0u8);
            i = i + 1;
        }
        proof {
            assert(p@ =~= zero_page());
        }
        p
    }

    /// Free the page whose slot index follows from `addr`. Freeing a slot
    /// that is not currently allocated is a fault.
    pub fn free_page(&mut self, addr: u64) -> (r: Result<(), Fault>)
        requires
            old(self)@.wf(),
        ensures
            final(self)@.wf(),
            match r {
                Ok(_) => {
                    &&& addr >= MAX_FRAME + FAST_SIZE as u64
                    &&& ({
                        let i = ((addr - MAX_FRAME - FAST_SIZE) as nat) / (PAGE_SIZE as nat);
                        &&& i < old(self)@.page.len()
                        &&& old(self)@.page[i as int] is Some
                        &&& final(self)@ == MemView {
                            page: old(self)@.page.update(i as int, None),
                            ..old(self)@
                        }
                    })
                },
                Err(f) => {
                    &&& f == Fault::FreeUnallocated
                    &&& final(self)@ == old(self)@
                    &&& (addr < MAX_FRAME + FAST_SIZE as u64 || ({
                        let i = ((addr - MAX_FRAME - FAST_SIZE) as nat) / (PAGE_SIZE as nat);
                        i >= old(self)@.page.len() || old(self)@.page[i as int] is None
                    }))
                },
            },
    {
        if addr < MAX_FRAME + FAST_SIZE as u64 {
            return Err(Fault::FreeUnallocated);
        }
        let rel = addr - MAX_FRAME - FAST_SIZE as u64;
        let iw = rel / PAGE_SIZE as u64;
        if iw >= self.page.len() as u64 {
            return Err(Fault::FreeUnallocated);
        }
        let i = iw as usize;
        let occupied = match &self.page[i] {
            Some(_) => true,
            None => false,
        };
        proof {
            assert(self@.page[i as int] == self.page@[i as int].deep_view());
        }
        if !occupied {
            return Err(Fault::FreeUnallocated);
        }
        self.page.set(i, None);
        proof {
            let m2 = MemView { page: old(self)@.page.update(i as int, None), ..old(self)@ };
            assert forall|j: int| 0 <= j < self.page@.len() implies self@.page[j] == m2.page[j] by {
                assert(self@.page[j] == self.page@[j].deep_view());
                if j != i as int {
                    assert(self.page@[j] == old(self).page@[j]);
                }
            }
            assert(self@ =~= m2);
        }
        Ok(())
    }
}

} // verus!
