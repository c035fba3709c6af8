//! The pointer codec and the guest-side allocator.
//!
//! A *packed pointer* (`SmartPtr`) is a single 64-bit word carrying an
//! address in its low 32 bits and a byte length in its high 32 bits; it is
//! the only value shape guaranteed to cross the sandbox boundary in one
//! argument slot. Guest memory itself is modelled by [`GuestHeap`], an
//! explicit heap value whose blocks are addressed with the same 32-bit
//! addresses the codec packs.

use vstd::prelude::*;

use crate::kv::copy_bytes;
use crate::state::Error;

verus! {

/// A packed pointer: an address in the low 32 bits, a length in the high
/// 32 bits. Both halves are read as unsigned; the word itself travels as
/// a (possibly negative) `i64` bit pattern.
pub type SmartPtr = i64;

/// The word that packs `ptr` into the low 32 bits and `len` into the
/// high 32 bits, as a 64-bit bit pattern.
pub open spec fn pack_word(ptr: u64, len: u64) -> i64 {
    (ptr | (len << 32)) as i64
}

/// The address half of a packed word: its low 32 bits, read as unsigned.
pub open spec fn unpack_addr(word: i64) -> u64 {
    (word as u64) & 0xFFFF_FFFF
}

/// The length half of a packed word: its high 32 bits, read as unsigned.
pub open spec fn unpack_len(word: i64) -> u64 {
    (word as u64) >> 32
}

/// Packs an address and a length into a single boundary-crossing word.
///
/// Fails with [`Error::IntegerConversion`] exactly when either field
/// exceeds `u32::MAX`; otherwise returns `ptr | (len << 32)`.
pub fn to_smart_ptr(ptr: u64, len: u64) -> (r: Result<SmartPtr, Error>)
    ensures
        ptr <= 0xFFFF_FFFF && len <= 0xFFFF_FFFF ==> r == Ok::<SmartPtr, Error>(
            pack_word(ptr, len),
        ),
        ptr > 0xFFFF_FFFF || len > 0xFFFF_FFFF ==> r == Err::<SmartPtr, Error>(
            Error::IntegerConversion,
        ),
{
    if ptr > 0xFFFF_FFFFu64 || len > 0xFFFF_FFFFu64 {
        return Err(Error::IntegerConversion);
    }

    let word = (ptr | (len << 32u64)) as i64;
    Ok(word)
}

/// Splits a packed word back into its address (as a non-negative `i64`)
/// and its length (as a `usize`).
///
/// The word is taken as a 64-bit bit pattern, so every word produced by
/// [`to_smart_ptr`] splits back, including those whose high bit is set.
#[must_use]
pub fn split_smart_ptr(arg: SmartPtr) -> (r: (i64, usize))
    ensures
        r.0 == unpack_addr(arg) as i64,
        r.1 == unpack_len(arg) as usize,
        unpack_addr(arg) <= 0xFFFF_FFFF,
        unpack_len(arg) <= 0xFFFF_FFFF,
        0 <= r.0 <= 0xFFFF_FFFF,
        r.1 <= 0xFFFF_FFFF,
        r.0 as u64 == unpack_addr(arg),
        r.1 as u64 == unpack_len(arg),
{
    let bits = arg as u64;
    let addr = bits & 0xFFFF_FFFFu64;
    let len = bits >> 32u64;
    assert(addr <= 0xFFFF_FFFF && len <= 0xFFFF_FFFF) by (bit_vector)
        requires
            addr == (arg as u64) & 0xFFFF_FFFF,
            len == (arg as u64) >> 32,
    ;
    (addr as i64, len as usize)
}

/// Packing then splitting returns the original pair: the codec round-trips
/// for every address and length representable in 32 bits.
pub proof fn lemma_smart_ptr_round_trip(ptr: u64, len: u64)
    requires
        ptr <= 0xFFFF_FFFF,
        len <= 0xFFFF_FFFF,
    ensures
        unpack_addr(pack_word(ptr, len)) == ptr,
        unpack_len(pack_word(ptr, len)) == len,
{
    assert((((ptr | (len << 32)) as i64) as u64) & 0xFFFF_FFFF == ptr) by (bit_vector)
        requires
            ptr <= 0xFFFF_FFFF,
            len <= 0xFFFF_FFFF,
    ;
    assert((((ptr | (len << 32)) as i64) as u64) >> 32 == len) by (bit_vector)
        requires
            ptr <= 0xFFFF_FFFF,
            len <= 0xFFFF_FFFF,
    ;
}

/// A packed word with a nonzero address is itself nonzero, so the null
/// word can serve as a sentinel.
pub proof fn lemma_nonzero_addr_packs_nonzero(ptr: u64, len: u64)
    requires
        1 <= ptr <= 0xFFFF_FFFF,
        len <= 0xFFFF_FFFF,
    ensures
        pack_word(ptr, len) != 0,
{
    assert(((ptr | (len << 32)) as i64) != 0) by (bit_vector)
        requires
            1 <= ptr <= 0xFFFF_FFFF,
            len <= 0xFFFF_FFFF,
    ;
}

/// One block the guest allocator handed out. A block that was reclaimed
/// stays recorded, but dead: its address is never reissued.
struct HeapBlock {
    addr: u64,
    data: Vec<u8>,
    live: bool,
}

/// The number of addresses a block occupies: its length, but at least
/// one, so that even an empty block has an address of its own.
spec fn block_span(b: HeapBlock) -> int {
    if b.data@.len() == 0 {
        1
    } else {
        b.data@.len() as int
    }
}

/// The number of addresses an allocation of `len` bytes consumes.
pub open spec fn alloc_span(len: int) -> int {
    if len == 0 {
        1
    } else {
        len
    }
}

/// The contents of the live block at `addr`, if any, in a record of
/// blocks.
spec fn live_at_seq(s: Seq<HeapBlock>, addr: u64) -> Option<Seq<u8>>
    decreases s.len(),
{
    if s.len() == 0 {
        None
    } else if s.last().live && s.last().addr == addr {
        Some(s.last().data@)
    } else {
        live_at_seq(s.drop_last(), addr)
    }
}

proof fn lemma_live_at_absent(s: Seq<HeapBlock>, a: u64)
    requires
        forall|j: int| 0 <= j < s.len() ==> s[j].addr != a,
    ensures
        live_at_seq(s, a) is None,
    decreases s.len(),
{
    if s.len() > 0 {
        lemma_live_at_absent(s.drop_last(), a);
    }
}

/// Replacing the block at `i` by one with the same address changes
/// `live_at_seq` only at that address.
proof fn lemma_live_at_update(s: Seq<HeapBlock>, i: int, nb: HeapBlock)
    requires
        0 <= i < s.len(),
        nb.addr == s[i].addr,
        forall|j: int| 0 <= j < s.len() && j != i ==> s[j].addr != s[i].addr,
    ensures
        live_at_seq(s.update(i, nb), s[i].addr) == if nb.live {
            Some(nb.data@)
        } else {
            None::<Seq<u8>>
        },
        forall|a: u64|
            a != s[i].addr ==> live_at_seq(s.update(i, nb), a) == live_at_seq(s, a),
    decreases s.len(),
{
    let t = s.update(i, nb);
    if i == s.len() - 1 {
        assert(t.drop_last() =~= s.drop_last());
        if !nb.live {
            lemma_live_at_absent(s.drop_last(), nb.addr);
        }
        assert forall|a: u64| a != s[i].addr implies live_at_seq(t, a) == live_at_seq(s, a) by {
            assert(t.last() == nb);
            assert(s.last() == s[i]);
        }
    } else {
        assert(t.drop_last() =~= s.drop_last().update(i, nb));
        assert(t.last() == s.last());
        lemma_live_at_update(s.drop_last(), i, nb);
        assert(s.drop_last()[i] == s[i]);
        assert forall|a: u64| a != s[i].addr implies live_at_seq(t, a) == live_at_seq(s, a) by {
            if !(s.last().live && s.last().addr == a) {
                assert(live_at_seq(t, a) == live_at_seq(t.drop_last(), a));
                assert(live_at_seq(s, a) == live_at_seq(s.drop_last(), a));
            }
        }
    }
}

/// The guest heap: the allocator's view of the guest's address space.
///
/// Addresses are handed out by a bump allocator starting at 1 (so the
/// null address never names a block) and are never reissued; every
/// address stays below `u32::MAX`, as the pointer codec demands.
pub struct GuestHeap {
    blocks: Vec<HeapBlock>,
    next_addr: u64,
}

impl GuestHeap {
    /// The next address the allocator will hand out.
    pub closed spec fn next(self) -> u64 {
        self.next_addr
    }

    /// The contents of the live block starting at `addr`, if any.
    pub closed spec fn live_at(self, addr: u64) -> Option<Seq<u8>> {
        live_at_seq(self.blocks@, addr)
    }

    /// Well-formed: addresses start at 1, stay within the 32-bit bound,
    /// and blocks occupy disjoint, increasing ranges. A block spans at
    /// least one address even when empty, so no address is ever shared.
    pub closed spec fn wf(self) -> bool {
        &&& 1 <= self.next_addr <= 0x1_0000_0000
        &&& forall|i: int|
            0 <= i < self.blocks@.len() ==> 1 <= self.blocks@[i].addr && self.blocks@[i].addr
                + block_span(self.blocks@[i]) <= self.next_addr
        &&& forall|i: int, j: int|
            0 <= i < j < self.blocks@.len() ==> self.blocks@[i].addr
                + block_span(self.blocks@[i]) <= self.blocks@[j].addr
    }

    /// In a well-formed heap, no two blocks share an address.
    proof fn lemma_distinct_addrs(self, i: int)
        requires
            self.wf(),
            0 <= i < self.blocks@.len(),
        ensures
            forall|j: int|
                0 <= j < self.blocks@.len() && j != i ==> self.blocks@[j].addr
                    != self.blocks@[i].addr,
    {
        assert forall|j: int|
            0 <= j < self.blocks@.len() && j != i implies self.blocks@[j].addr
            != self.blocks@[i].addr by {
            if j < i {
                assert(self.blocks@[j].addr + block_span(self.blocks@[j]) <= self.blocks@[i].addr);
            } else {
                assert(self.blocks@[i].addr + block_span(self.blocks@[i]) <= self.blocks@[j].addr);
            }
        }
    }

    /// A well-formed heap's next address starts at 1 and stays within
    /// the 32-bit address space.
    pub proof fn lemma_wf_next(self)
        requires
            self.wf(),
        ensures
            1 <= self.next() <= 0x1_0000_0000,
    {
    }

    /// No block lives at the next address a well-formed heap would hand
    /// out: every existing block lies strictly below it.
    pub proof fn lemma_live_at_next_none(self)
        requires
            self.wf(),
        ensures
            self.live_at(self.next()) is None,
    {
        assert forall|j: int| 0 <= j < self.blocks@.len() implies self.blocks@[j].addr
            != self.next_addr by {
            assert(self.blocks@[j].addr + block_span(self.blocks@[j]) <= self.next_addr);
        }
        lemma_live_at_absent(self.blocks@, self.next_addr);
    }

    /// A fresh heap with no blocks.
    pub fn new() -> (h: GuestHeap)
        ensures
            h.wf(),
            h.next() == 1,
            forall|a: u64| h.live_at(a) is None,
    {
        GuestHeap { blocks: Vec::new(), next_addr: 1 }
    }

    /// The position of the live block starting at `addr`, if any.
    fn find_live(&self, addr: u64) -> (r: Option<usize>)
        ensures
            r matches Some(i) ==> i < self.blocks@.len() && self.blocks@[i as int].live
                && self.blocks@[i as int].addr == addr && self.live_at(addr) == Some(
                self.blocks@[i as int].data@,
            ),
            r is None ==> self.live_at(addr) is None,
    {
        let n = self.blocks.len();
        proof {
            assert(self.blocks@.take(n as int) =~= self.blocks@);
        }
        let mut i: usize = n;
        while i > 0
            invariant
                i <= n,
                n == self.blocks@.len(),
                live_at_seq(self.blocks@, addr) == live_at_seq(self.blocks@.take(i as int), addr),
            decreases i,
        {
            i -= 1;
            proof {
                assert(self.blocks@.take(i as int + 1).drop_last() =~= self.blocks@.take(i as int));
                assert(self.blocks@.take(i as int + 1).last() == self.blocks@[i as int]);
            }
            let b = &self.blocks[i];
            if b.live && b.addr == addr {
                return Some(i);
            }
        }
        proof {
            assert(self.blocks@.take(0) =~= Seq::<HeapBlock>::empty());
        }
        None
    }
}

/// A vector of `len` zero bytes.
fn zero_vec(len: usize) -> (r: Vec<u8>)
    ensures
        r@ == Seq::new(len as nat, |i: int| 0u8),
{
    let mut r: Vec<u8> = Vec::new();
    let mut i: usize = 0;
    while i < len
        invariant
            i <= len,
            r@.len() == i,
            forall|j: int| 0 <= j < i ==> r@[j] == 0u8,
        decreases len - i,
    {
        r.push(0u8);
        i += 1;
    }
    proof {
        assert(r@ =~= Seq::new(len as nat, |i: int| 0u8));
    }
    r
}

/// Reserves `len` bytes of guest-owned, zeroed memory and returns the
/// start address of the block.
///
/// The new block must still fit the pointer codec's 32-bit address
/// field; that bound is a programming-environment invariant, so it is a
/// precondition here rather than a recoverable error.
pub fn allocate(heap: &mut GuestHeap, len: usize) -> (addr: u64)
    requires
        old(heap).wf(),
        old(heap).next() + len < 0x1_0000_0000,
    ensures
        final(heap).wf(),
        addr == old(heap).next(),
        1 <= addr <= 0xFFFF_FFFF,
        final(heap).next() == old(heap).next() + alloc_span(len as int),
        old(heap).next() + len <= final(heap).next() <= old(heap).next() + len + 1,
        final(heap).live_at(addr) == Some(Seq::new(len as nat, |i: int| 0u8)),
        forall|a: u64| a != addr ==> final(heap).live_at(a) == old(heap).live_at(a),
{
    let ghost s0 = heap.blocks@;
    let addr = heap.next_addr;
    let block = HeapBlock { addr, data: zero_vec(len), live: true };
    heap.blocks.push(block);
    let bump: u64 = if len == 0 {
        1
    } else {
        len as u64
    };
    heap.next_addr = heap.next_addr + bump;
    proof {
        assert(heap.blocks@.drop_last() =~= s0);
        assert forall|a: u64| a != addr implies live_at_seq(heap.blocks@, a) == live_at_seq(
            s0,
            a,
        ) by {
            assert(heap.blocks@.last().addr == addr);
        }
    }
    addr
}

/// A guest address, as handed out by [`allocate`] or carried by a packed
/// pointer word.
#[derive(Clone, Copy, Debug)]
pub struct Pointer(u64);

impl Pointer {
    /// The address this pointer names.
    pub closed spec fn addr_spec(self) -> u64 {
        self.0
    }

    /// The pointer a boundary word denotes: its bits read as an
    /// unsigned address.
    pub closed spec fn word_pointer(v: i64) -> Pointer {
        Pointer(v as u64)
    }

    /// A pointer to `addr`.
    #[must_use]
    pub fn new(addr: u64) -> (p: Pointer)
        ensures
            p.addr_spec() == addr,
    {
        Pointer(addr)
    }

    /// The address this pointer names.
    #[must_use]
    pub fn addr(&self) -> (a: u64)
        ensures
            a == self.addr_spec(),
    {
        self.0
    }
}

impl From<i64> for Pointer {
    /// Reads a boundary word as an address; the word's low 64 bits are
    /// taken unsigned, as the host hands addresses back.
    fn from(v: i64) -> (p: Pointer) {
        Pointer(
            #[verifier::truncate]
            (v as u64),
        )
    }
}

impl vstd::std_specs::convert::FromSpecImpl<i64> for Pointer {
    open spec fn obeys_from_spec() -> bool {
        true
    }

    open spec fn from_spec(v: i64) -> Pointer {
        Pointer::word_pointer(v)
    }
}

/// The address `Pointer::from` reads out of a boundary word.
pub proof fn lemma_word_pointer_addr(v: i64)
    ensures
        Pointer::word_pointer(v).addr_spec() == v as u64,
{
}

/// A block of guest memory, named by the pointer to its start.
///
/// The blocks themselves live in a [`GuestHeap`], which every access
/// takes explicitly; a `Memory` is the capability-shaped handle the
/// boundary code passes around.
pub struct Memory {
    ptr: Pointer,
}

impl Memory {
    /// The address of the block this handle names.
    pub closed spec fn addr_spec(self) -> u64 {
        self.ptr.addr_spec()
    }

    /// A handle on the block starting at `ptr`.
    #[must_use]
    pub fn new(ptr: Pointer) -> (m: Memory)
        ensures
            m.addr_spec() == ptr.addr_spec(),
    {
        Memory { ptr }
    }

    /// Copies the first `length` bytes out of the block.
    #[must_use]
    pub fn range(&self, heap: &GuestHeap, length: usize) -> (r: Vec<u8>)
        requires
            heap.live_at(self.addr_spec()) matches Some(d) && length <= d.len(),
        ensures
            r@ == heap.live_at(self.addr_spec()).unwrap().take(length as int),
    {
        let i = match heap.find_live(self.ptr.addr()) {
            Some(i) => i,
            None => {
                proof {
                    assert(false);
                }
                0
            },
        };
        prefix_bytes(&heap.blocks[i].data, length)
    }

    /// Takes the whole block: returns its bytes and frees it. The
    /// contract demands the block's exact length, and the block is gone
    /// afterwards, so the transfer can happen only once.
    #[must_use]
    pub fn range_mut(&self, heap: &mut GuestHeap, length: usize) -> (r: Vec<u8>)
        requires
            old(heap).wf(),
            old(heap).live_at(self.addr_spec()) matches Some(d) && d.len() == length,
        ensures
            final(heap).wf(),
            final(heap).next() == old(heap).next(),
            r@ == old(heap).live_at(self.addr_spec()).unwrap(),
            final(heap).live_at(self.addr_spec()) is None,
            forall|a: u64|
                a != self.addr_spec() ==> final(heap).live_at(a) == old(heap).live_at(a),
    {
        let i = match heap.find_live(self.ptr.addr()) {
            Some(i) => i,
            None => {
                proof {
                    assert(false);
                }
                0
            },
        };
        let r = copy_bytes(heap.blocks[i].data.as_slice());
        deallocate(heap, self.ptr.addr(), length);
        r
    }

    /// Writes `bytes` over the start of the block; the rest of the block
    /// keeps its contents. The block must be live and at least as long
    /// as `bytes`.
    pub fn write(&self, heap: &mut GuestHeap, bytes: &[u8])
        requires
            old(heap).wf(),
            old(heap).live_at(self.addr_spec()) matches Some(d) && bytes@.len() <= d.len(),
        ensures
            final(heap).wf(),
            final(heap).next() == old(heap).next(),
            final(heap).live_at(self.addr_spec()) == Some(
                bytes@ + old(heap).live_at(self.addr_spec()).unwrap().skip(bytes@.len() as int),
            ),
            forall|a: u64|
                a != self.addr_spec() ==> final(heap).live_at(a) == old(heap).live_at(a),
    {
        let ghost s0 = heap.blocks@;
        let i = match heap.find_live(self.ptr.addr()) {
            Some(i) => i,
            None => {
                proof {
                    assert(false);
                }
                0
            },
        };
        let mut b = heap.blocks.remove(i);
        let mut nd = copy_bytes(bytes);
        let mut j: usize = bytes.len();
        while j < b.data.len()
            invariant
                bytes@.len() <= j <= b.data@.len(),
                nd@ =~= bytes@ + b.data@.subrange(bytes@.len() as int, j as int),
            decreases b.data@.len() - j,
        {
            let byte = b.data[j];
            nd.push(byte);
            j += 1;
        }
        proof {
            assert(nd@ =~= bytes@ + b.data@.skip(bytes@.len() as int));
        }
        b.data = nd;
        let ghost nb = b;
        heap.blocks.insert(i, b);
        proof {
            assert(heap.blocks@ =~= s0.update(i as int, nb));
            old(heap).lemma_distinct_addrs(i as int);
            lemma_live_at_update(s0, i as int, nb);
        }
    }
}

/// The first `n` bytes of `v`, as a fresh vector.
fn prefix_bytes(v: &Vec<u8>, n: usize) -> (r: Vec<u8>)
    requires
        n <= v@.len(),
    ensures
        r@ == v@.take(n as int),
{
    let mut r: Vec<u8> = Vec::new();
    let mut i: usize = 0;
    while i < n
        invariant
            i <= n <= v@.len(),
            r@ =~= v@.take(i as int),
        decreases n - i,
    {
        let byte = v[i];
        r.push(byte);
        proof {
            assert(r@ =~= v@.take(i as int + 1));
        }
        i += 1;
    }
    r
}

/// Copies the bytes a packed pointer names out of the guest heap: the
/// word's address half names a live block, and its length half says how
/// many bytes of that block to copy.
#[must_use]
pub fn into_bytes(heap: &GuestHeap, smart_ptr: SmartPtr) -> (r: Vec<u8>)
    requires
        heap.live_at(unpack_addr(smart_ptr)) matches Some(d) && unpack_len(smart_ptr) <= d.len(),
    ensures
        r@ == heap.live_at(unpack_addr(smart_ptr)).unwrap().take(unpack_len(smart_ptr) as int),
{
    let (addr, len) = split_smart_ptr(smart_ptr);
    let ptr = Pointer::new(addr as u64);
    let mem = Memory::new(ptr);
    mem.range(heap, len)
}

/// Reclaims the block that `allocate` returned at `addr` with the same
/// length. The contract demands a live block of exactly that length at
/// that address; the address is retired, never reissued.
pub fn deallocate(heap: &mut GuestHeap, addr: u64, len: usize)
    requires
        old(heap).wf(),
        old(heap).live_at(addr) matches Some(d) && d.len() == len,
    ensures
        final(heap).wf(),
        final(heap).next() == old(heap).next(),
        final(heap).live_at(addr) is None,
        forall|a: u64| a != addr ==> final(heap).live_at(a) == old(heap).live_at(a),
{
    let ghost s0 = heap.blocks@;
    let i = match heap.find_live(addr) {
        Some(i) => i,
        None => {
            proof {
                assert(false);
            }
            0
        },
    };
    let mut b = heap.blocks.remove(i);
    b.live = false;
    let ghost nb = b;
    heap.blocks.insert(i, b);
    proof {
        assert(heap.blocks@ =~= s0.update(i as int, nb));
        old(heap).lemma_distinct_addrs(i as int);
        lemma_live_at_update(s0, i as int, nb);
    }
}

} // verus!
