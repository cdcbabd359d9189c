//! The guest's linear address space and the allocator adapter over it.
//!
//! Host and guest share one linear byte-addressed space; the host only ever
//! holds numeric offsets into it. [`Memory`] models that space as a byte
//! store of fixed capacity and arbitrates it with a bump allocator: every
//! block starts at a 32-byte boundary, carries a 4-byte signed size header
//! immediately before the address handed to the caller, and the most
//! recently allocated block is reclaimed in place when it is deallocated, so
//! an allocate/deallocate round trip leaves the allocator where it stood.
//!
//! The header always stores the exact size supplied at allocation time, so
//! that deallocation can reconstruct the identical layout — size plus the
//! fixed alignment — that allocation used.

use vstd::prelude::*;
use vstd::arithmetic::div_mod::{lemma_fundamental_div_mod, lemma_mod_bound};
use crate::word::{le_word, le_word_signed, store_word, lemma_store_word_round_trip, lemma_word_split, as_unsigned};
use crate::{ALIGNMENT, HEADER_WIDTH};

verus! {

/// Bytes a block of payload size `size` occupies: the 4-byte header plus the
/// payload, rounded up to the 32-byte alignment boundary.
pub open spec fn chunk_size(size: int) -> int
    recommends
        0 <= size,
{
    ((size + 35) / 32) * 32
}

/// A block's chunk covers its header and payload, and keeps every block
/// start on the alignment boundary.
pub proof fn lemma_chunk_size(size: int)
    requires
        0 <= size,
    ensures
        size + 4 <= chunk_size(size) <= size + 35,
        chunk_size(size) % 32 == 0,
{
    lemma_fundamental_div_mod(size + 35, 32);
    lemma_mod_bound(size + 35, 32);
    lemma_mod_bound(((size + 35) / 32) * 32, 32);
    assert((((size + 35) / 32) * 32) % 32 == 0) by (nonlinear_arith);
}

/// Mathematical model of the address space together with the allocator's
/// bookkeeping.
pub ghost struct MemModel {
    /// Every byte of the address space.
    pub bytes: Seq<u8>,
    /// First address not yet handed out; all space at or above it is free.
    pub frontier: int,
    /// Payload offsets of the blocks that are currently allocated.
    pub live: Set<int>,
    /// How many allocations have ever been made.
    pub allocs: int,
    /// How many deallocations have ever been made.
    pub deallocs: int,
}

impl MemModel {
    /// Capacity of the address space in bytes.
    pub open spec fn len(self) -> int {
        self.bytes.len() as int
    }

    /// The size recorded in the header of the block whose payload starts at
    /// `offset`: the signed word in the four bytes just before the payload.
    pub open spec fn header_value(self, offset: int) -> int {
        le_word_signed(self.bytes, offset - 4)
    }

    /// The first address past the chunk of the block at `offset`.
    pub open spec fn block_end(self, offset: int) -> int {
        offset - 4 + chunk_size(self.header_value(offset))
    }

    /// What holds of each allocated block: its header starts on the
    /// alignment boundary, records a non-negative size, and the whole chunk
    /// lies below the frontier.
    pub open spec fn block_ok(self, offset: int) -> bool {
        &&& 4 <= offset
        &&& (offset - 4) % 32 == 0
        &&& 0 <= self.header_value(offset)
        &&& self.block_end(offset) <= self.frontier
    }

    /// Chunks of distinct allocated blocks do not overlap.
    pub open spec fn blocks_disjoint(self) -> bool {
        forall|o1: int, o2: int|
            #[trigger] self.live.contains(o1) && #[trigger] self.live.contains(o2) && o1 != o2
                ==> self.block_end(o1) <= o2 - 4 || self.block_end(o2) <= o1 - 4
    }

    /// Well-formedness of the whole model. The capacity bound keeps every
    /// offset within the positive range of a signed 32-bit integer: an
    /// address at or above that ceiling would read as the "host-owned"
    /// sentinel and could never be reclaimed.
    pub open spec fn wf(self) -> bool {
        &&& self.bytes.len() <= 0x7fff_ffff
        &&& 0 <= self.frontier <= self.len()
        &&& self.frontier % 32 == 0
        &&& self.live.finite()
        &&& 0 <= self.deallocs
        &&& self.allocs == self.deallocs + self.live.len()
        &&& forall|o: int| self.live.contains(o) ==> #[trigger] self.block_ok(o)
        &&& self.blocks_disjoint()
    }

    /// Whether a request for `size` payload bytes can be satisfied.
    pub open spec fn can_allocate(self, size: int) -> bool {
        &&& 0 <= size
        &&& self.frontier + chunk_size(size) <= self.len()
    }
}

/// What allocating `size` bytes does to the model, and the offset returned:
/// the header word is written at the frontier, the payload starts just after
/// it, and the frontier advances past the block's chunk.
pub open spec fn spec_allocate(m: MemModel, size: int) -> (MemModel, int)
    recommends
        m.wf(),
        m.can_allocate(size),
{
    let offset = m.frontier + 4;
    (
        MemModel {
            bytes: store_word(m.bytes, m.frontier, size),
            frontier: m.frontier + chunk_size(size),
            live: m.live.insert(offset),
            allocs: m.allocs + 1,
            deallocs: m.deallocs,
        },
        offset,
    )
}

/// What deallocating the block at `offset` does to the model: the block
/// leaves the allocated set, and when it is the block just under the
/// frontier its space is reclaimed in place.
pub open spec fn spec_deallocate(m: MemModel, offset: int) -> MemModel
    recommends
        m.wf(),
        m.live.contains(offset),
{
    MemModel {
        bytes: m.bytes,
        frontier: if m.block_end(offset) == m.frontier {
            offset - 4
        } else {
            m.frontier
        },
        live: m.live.remove(offset),
        allocs: m.allocs,
        deallocs: m.deallocs + 1,
    }
}

/// Allocation preserves well-formedness, records the size in the new
/// block's header, and touches no byte outside that header.
pub proof fn lemma_spec_allocate(m: MemModel, size: int)
    requires
        m.wf(),
        m.can_allocate(size),
    ensures
        ({
            let (m1, offset) = spec_allocate(m, size);
            &&& m1.wf()
            &&& offset == m.frontier + 4
            &&& !m.live.contains(offset)
            &&& m1.live == m.live.insert(offset)
            &&& m1.live.contains(offset)
            &&& m1.header_value(offset) == size
            &&& m1.block_end(offset) == m1.frontier
            &&& m1.len() == m.len()
            &&& forall|i: int|
                0 <= i < m.len() && !(m.frontier <= i < m.frontier + 4) ==> m1.bytes[i] == m.bytes[i]
        }),
{
    let (m1, offset) = spec_allocate(m, size);
    lemma_chunk_size(size);
    lemma_store_word_round_trip(m.bytes, m.frontier, size);
    assert(m1.header_value(offset) == size);
    assert forall|o: int| m.live.contains(o) implies o + 4 <= m.frontier by {
        assert(m.block_ok(o));
        lemma_chunk_size(m.header_value(o));
    }
    assert(!m.live.contains(offset));
    assert forall|o: int| m1.live.contains(o) implies #[trigger] m1.block_ok(o) by {
        if o == offset {
            assert(m1.block_ok(offset));
        } else {
            assert(m.live.contains(o));
            assert(m.block_ok(o));
            lemma_chunk_size(m.header_value(o));
            assert(m1.header_value(o) == m.header_value(o));
            assert(m1.block_ok(o));
        }
    }
    assert forall|o1: int, o2: int|
        #[trigger] m1.live.contains(o1) && #[trigger] m1.live.contains(o2) && o1 != o2
        implies m1.block_end(o1) <= o2 - 4 || m1.block_end(o2) <= o1 - 4 by {
        if o1 != offset && o2 != offset {
            assert(m.live.contains(o1) && m.live.contains(o2));
            assert(m.block_ok(o1));
            assert(m.block_ok(o2));
            lemma_chunk_size(m.header_value(o1));
            lemma_chunk_size(m.header_value(o2));
            assert(m1.header_value(o1) == m.header_value(o1));
            assert(m1.header_value(o2) == m.header_value(o2));
        } else if o1 == offset {
            assert(m.live.contains(o2));
            assert(m.block_ok(o2));
            lemma_chunk_size(m.header_value(o2));
            assert(m1.header_value(o2) == m.header_value(o2));
        } else {
            assert(m.live.contains(o1));
            assert(m.block_ok(o1));
            lemma_chunk_size(m.header_value(o1));
            assert(m1.header_value(o1) == m.header_value(o1));
        }
    }
    vstd::set::axiom_set_insert_len(m.live, offset);
}

/// Deallocation preserves well-formedness, leaves every byte as it was, and
/// reclaims the space of the block under the frontier.
pub proof fn lemma_spec_deallocate(m: MemModel, offset: int)
    requires
        m.wf(),
        m.live.contains(offset),
    ensures
        ({
            let m1 = spec_deallocate(m, offset);
            &&& m1.wf()
            &&& m1.bytes == m.bytes
            &&& m1.live == m.live.remove(offset)
            &&& m1.frontier <= m.frontier
            &&& m1.deallocs == m.deallocs + 1
            &&& (m.block_end(offset) == m.frontier ==> m1.frontier == offset - 4)
        }),
{
    let m1 = spec_deallocate(m, offset);
    assert(m.block_ok(offset));
    lemma_chunk_size(m.header_value(offset));
    vstd::set::axiom_set_remove_len(m.live, offset);
    if m.block_end(offset) == m.frontier {
        assert forall|o: int| m1.live.contains(o) implies #[trigger] m1.block_ok(o) by {
            assert(m.live.contains(o) && o != offset);
            assert(m.block_ok(o));
            lemma_chunk_size(m.header_value(o));
            assert(m.block_end(o) <= offset - 4 || m.block_end(offset) <= o - 4);
            assert(o - 4 < m.block_end(o) <= m.frontier);
            assert(m.block_end(o) <= offset - 4);
        }
    } else {
        assert forall|o: int| m1.live.contains(o) implies #[trigger] m1.block_ok(o) by {
            assert(m.live.contains(o));
            assert(m.block_ok(o));
        }
    }
}

/// The guest's linear address space with the allocator adapter over it.
pub struct Memory {
    bytes: Vec<u8>,
    frontier: usize,
    live: Ghost<Set<int>>,
    allocs: u64,
    deallocs: u64,
}

impl View for Memory {
    type V = MemModel;

    closed spec fn view(&self) -> MemModel {
        MemModel {
            bytes: self.bytes@,
            frontier: self.frontier as int,
            live: self.live@,
            allocs: self.allocs as int,
            deallocs: self.deallocs as int,
        }
    }
}

impl Memory {
    /// A fresh address space of `capacity` zeroed bytes with nothing
    /// allocated. The capacity ceiling keeps every offset within the
    /// positive signed 32-bit range (see [`MemModel::wf`]).
    pub fn new(capacity: usize) -> (m: Memory)
        requires
            capacity <= 0x7fff_ffff,
        ensures
            m@.wf(),
            m@.len() == capacity,
            m@.frontier == 0,
            m@.live == Set::<int>::empty(),
            m@.allocs == 0,
            m@.deallocs == 0,
            forall|i: int| 0 <= i < capacity ==> m@.bytes[i] == 0,
    {
        let mut bytes: Vec<u8> = Vec::new();
        let mut i: usize = 0;
        while i < capacity
            invariant
                i <= capacity,
                bytes@.len() == i,
                forall|j: int| 0 <= j < i ==> bytes@[j] == 0,
            decreases capacity - i,
        {
            bytes.push(0);
            i = i + 1;
        }
        let m = Memory {
            bytes,
            frontier: 0,
            live: Ghost(Set::empty()),
            allocs: 0,
            deallocs: 0,
        };
        proof {
            assert(m@.live =~= Set::<int>::empty());
        }
        m
    }

    /// Capacity of the address space in bytes.
    pub fn capacity(&self) -> (r: usize)
        ensures
            r == self@.len(),
    {
        self.bytes.len()
    }

    /// The byte stored at `address`.
    pub fn read_byte(&self, address: usize) -> (r: u8)
        requires
            address < self@.len(),
        ensures
            r == self@.bytes[address as int],
    {
        self.bytes[address]
    }

    /// The whole byte store, read-only.
    pub fn bytes(&self) -> (r: &Vec<u8>)
        ensures
            r@ == self@.bytes,
    {
        &self.bytes
    }

    /// How many blocks have ever been allocated.
    pub fn alloc_count(&self) -> (r: u64)
        ensures
            r == self@.allocs,
    {
        self.allocs
    }

    /// How many blocks have ever been deallocated.
    pub fn dealloc_count(&self) -> (r: u64)
        ensures
            r == self@.deallocs,
    {
        self.deallocs
    }

    /// Whether a request for `size` payload bytes can be satisfied right
    /// now. Callers outside the verified world test this before calling
    /// [`Memory::allocate`] and treat a refusal as fatal.
    pub fn fits(&self, size: i32) -> (r: bool)
        requires
            self@.wf(),
            0 <= size,
        ensures
            r == self@.can_allocate(size as int),
    {
        let chunk: usize = (size as usize + HEADER_WIDTH + ALIGNMENT - 1) / ALIGNMENT * ALIGNMENT;
        let cap = self.bytes.len();
        chunk <= cap - self.frontier
    }

    /// The signed little-endian word stored at `address`.
    pub fn word_at(&self, address: usize) -> (r: i32)
        requires
            address + 4 <= self@.len(),
        ensures
            r == le_word_signed(self@.bytes, address as int),
    {
        let n = self.bytes.len();
        assert(address + 4 <= n);
        let b0 = self.bytes[address];
        let b1 = self.bytes[address + 1];
        let b2 = self.bytes[address + 2];
        let b3 = self.bytes[address + 3];
        let u: u32 = b0 as u32 + (b1 as u32) * 0x100 + (b2 as u32) * 0x1_0000 + (b3 as u32)
            * 0x100_0000;
        proof {
            assert(u == le_word(self@.bytes, address as int));
        }
        if u < 0x8000_0000 {
            u as i32
        } else {
            ((u as i64) - 0x1_0000_0000i64) as i32
        }
    }

    /// The size recorded in the header of the block whose payload starts at
    /// `offset`: the signed word in the four bytes just before it.
    pub fn header(&self, offset: i32) -> (r: i32)
        requires
            4 <= offset,
            offset <= self@.len(),
        ensures
            r == self@.header_value(offset as int),
    {
        self.word_at((offset as usize) - HEADER_WIDTH)
    }

    /// Allocates a block with room for `size` payload bytes: writes `size`
    /// into the header word at the frontier and returns the address just
    /// past the header. The header read back at the returned offset yields
    /// exactly `size`, and no byte outside the header is touched.
    pub fn allocate(&mut self, size: i32) -> (offset: i32)
        requires
            old(self)@.wf(),
            0 <= size,
            old(self)@.can_allocate(size as int),
            old(self)@.allocs < u64::MAX,
        ensures
            final(self)@.wf(),
            (final(self)@, offset as int) == spec_allocate(old(self)@, size as int),
            offset == old(self)@.frontier + 4,
            final(self)@.live == old(self)@.live.insert(offset as int),
            final(self)@.live.contains(offset as int),
            !old(self)@.live.contains(offset as int),
            final(self)@.header_value(offset as int) == size,
            final(self)@.frontier == old(self)@.frontier + chunk_size(size as int),
            final(self)@.allocs == old(self)@.allocs + 1,
            final(self)@.deallocs == old(self)@.deallocs,
            final(self)@.len() == old(self)@.len(),
            (offset as int - 4) % 32 == 0,
            forall|i: int|
                0 <= i < final(self)@.len() && !(offset - 4 <= i < offset) ==> final(self)@.bytes[i]
                    == old(self)@.bytes[i],
    {
        proof {
            lemma_spec_allocate(self@, size as int);
            lemma_chunk_size(size as int);
        }
        let n = self.bytes.len();
        let start = self.frontier;
        proof {
            assert(start + chunk_size(size as int) <= n);
        }
        let u: u32 = size as u32;
        let b0: u8 = (u % 0x100) as u8;
        let b1: u8 = ((u / 0x100) % 0x100) as u8;
        let b2: u8 = ((u / 0x1_0000) % 0x100) as u8;
        let b3: u8 = (u / 0x100_0000) as u8;
        self.bytes.set(start, b0);
        self.bytes.set(start + 1, b1);
        self.bytes.set(start + 2, b2);
        self.bytes.set(start + 3, b3);
        let chunk: usize = (size as usize + HEADER_WIDTH + ALIGNMENT - 1) / ALIGNMENT * ALIGNMENT;
        self.frontier = start + chunk;
        self.allocs = self.allocs + 1;
        let offset = start + HEADER_WIDTH;
        proof {
            self.live@ = self.live@.insert(offset as int);
            assert(as_unsigned(size as int) == u as int);
            lemma_word_split(u as int);
            assert(self@.bytes =~= store_word(old(self)@.bytes, start as int, size as int));
            assert(self@ == spec_allocate(old(self)@, size as int).0);
        }
        offset as i32
    }

    /// Returns the block whose payload starts at `offset` to the allocator:
    /// reads the size back from the header word just before the payload and
    /// releases the identical chunk that allocation claimed. The offset must
    /// be one that `allocate` returned and that has not been deallocated
    /// since.
    pub fn deallocate(&mut self, offset: i32)
        requires
            old(self)@.wf(),
            old(self)@.live.contains(offset as int),
        ensures
            final(self)@.wf(),
            final(self)@ == spec_deallocate(old(self)@, offset as int),
            final(self)@.bytes == old(self)@.bytes,
            final(self)@.live == old(self)@.live.remove(offset as int),
            final(self)@.allocs == old(self)@.allocs,
            final(self)@.deallocs == old(self)@.deallocs + 1,
            final(self)@.len() == old(self)@.len(),
    {
        proof {
            assert(old(self)@.block_ok(offset as int));
            lemma_chunk_size(self@.header_value(offset as int));
            lemma_spec_deallocate(self@, offset as int);
            vstd::set::axiom_set_remove_len(self.live@, offset as int);
        }
        let start = (offset as usize) - HEADER_WIDTH;
        let size = self.header(offset);
        let chunk: usize = (size as usize + HEADER_WIDTH + ALIGNMENT - 1) / ALIGNMENT * ALIGNMENT;
        if start + chunk == self.frontier {
            self.frontier = start;
        }
        self.deallocs = self.deallocs + 1;
        proof {
            self.live@ = self.live@.remove(offset as int);
            assert(self@ == spec_deallocate(old(self)@, offset as int));
        }
    }

    /// Writes one payload byte of the block whose payload starts at
    /// `offset`. Only that byte changes; every header, the allocated set and
    /// the frontier stay as they were.
    pub fn write_byte(&mut self, offset: i32, index: usize, value: u8)
        requires
            old(self)@.wf(),
            old(self)@.live.contains(offset as int),
            index < old(self)@.header_value(offset as int),
        ensures
            final(self)@.wf(),
            final(self)@.bytes == old(self)@.bytes.update(offset + index, value),
            final(self)@.frontier == old(self)@.frontier,
            final(self)@.live == old(self)@.live,
            final(self)@.allocs == old(self)@.allocs,
            final(self)@.deallocs == old(self)@.deallocs,
            final(self)@.len() == old(self)@.len(),
            forall|o: int| old(self)@.live.contains(o) ==> final(self)@.header_value(o) == old(
                self,
            )@.header_value(o),
    {
        proof {
            assert(old(self)@.block_ok(offset as int));
            lemma_chunk_size(old(self)@.header_value(offset as int));
        }
        let address = (offset as usize) + index;
        self.bytes.set(address, value);
        proof {
            let m0 = old(self)@;
            let m1 = self@;
            let p = offset + index;
            assert forall|o: int| m0.live.contains(o) implies m1.header_value(o)
                == m0.header_value(o) by {
                assert(m0.block_ok(o));
                lemma_chunk_size(m0.header_value(o));
                if o != offset as int {
                    assert(m0.block_end(o) <= offset - 4 || m0.block_end(offset as int) <= o - 4);
                }
                assert(!(o - 4 <= p < o));
            }
            assert forall|o: int| m1.live.contains(o) implies #[trigger] m1.block_ok(o) by {
                assert(m0.block_ok(o));
            }
        }
    }

    /// Writes one signed little-endian word into the payload of the block
    /// whose payload starts at `offset`, at byte position `index`. Only
    /// those four bytes change.
    pub fn write_word(&mut self, offset: i32, index: usize, value: i32)
        requires
            old(self)@.wf(),
            old(self)@.live.contains(offset as int),
            index + 4 <= old(self)@.header_value(offset as int),
        ensures
            final(self)@.wf(),
            final(self)@.bytes == store_word(old(self)@.bytes, offset + index, value as int),
            le_word_signed(final(self)@.bytes, offset + index) == value,
            final(self)@.frontier == old(self)@.frontier,
            final(self)@.live == old(self)@.live,
            final(self)@.allocs == old(self)@.allocs,
            final(self)@.deallocs == old(self)@.deallocs,
            final(self)@.len() == old(self)@.len(),
            forall|o: int| old(self)@.live.contains(o) ==> final(self)@.header_value(o) == old(
                self,
            )@.header_value(o),
    {
        let ghost m0 = self@;
        proof {
            assert(m0.block_ok(offset as int));
            lemma_chunk_size(m0.header_value(offset as int));
            lemma_store_word_round_trip(m0.bytes, offset + index, value as int);
        }
        let u: u32 = if value >= 0 {
            value as u32
        } else {
            ((value as i64) + 0x1_0000_0000i64) as u32
        };
        proof {
            assert(u == as_unsigned(value as int));
            lemma_word_split(u as int);
        }
        self.write_byte(offset, index, (u % 0x100) as u8);
        self.write_byte(offset, index + 1, ((u / 0x100) % 0x100) as u8);
        self.write_byte(offset, index + 2, ((u / 0x1_0000) % 0x100) as u8);
        self.write_byte(offset, index + 3, (u / 0x100_0000) as u8);
        proof {
            assert(self@.bytes =~= store_word(m0.bytes, offset + index, value as int));
        }
    }
}

/// Deallocating the block that an allocation just returned neither fails
/// nor loses space: the allocator stands where it stood — same frontier,
/// same allocated set — and can satisfy a request of the same size again.
pub proof fn lemma_allocate_deallocate_round_trip(m: MemModel, size: int)
    requires
        m.wf(),
        m.can_allocate(size),
    ensures
        ({
            let (m1, offset) = spec_allocate(m, size);
            let m2 = spec_deallocate(m1, offset);
            &&& m2.wf()
            &&& m2.frontier == m.frontier
            &&& m2.live =~= m.live
            &&& m2.len() == m.len()
            &&& m2.can_allocate(size)
        }),
{
    let (m1, offset) = spec_allocate(m, size);
    let m2 = spec_deallocate(m1, offset);
    lemma_spec_allocate(m, size);
    lemma_spec_deallocate(m1, offset);
    assert(m1.block_end(offset) == m1.frontier);
    assert(m2.frontier == offset - 4 == m.frontier);
    assert(m2.live =~= m.live);
}

} // verus!
