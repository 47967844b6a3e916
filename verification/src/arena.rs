//! The fixed-capacity, offset-addressed arena that backs all simulation
//! state. Allocation is a strictly monotonic bump: nothing is ever freed or
//! compacted; a full reset replaces the whole region instead.

use vstd::prelude::*;
use vstd::arithmetic::div_mod::{lemma_fundamental_div_mod, lemma_mod_bound, lemma_mod_multiples_basic};
use core::marker::PhantomData;

use crate::HostError;

verus! {

/// Every allocation offset is kept a multiple of this alignment.
pub const ALLOCATION_ALIGN: usize = 16;

/// Capacity in bytes of the default memory region backing a session.
pub const MEMORY_LENGTH: usize = 2 * 1024 * 1024;

/// `n` rounded up to the next multiple of [`ALLOCATION_ALIGN`].
pub open spec fn round_up_to_align(n: nat) -> nat {
    ((((n + (ALLOCATION_ALIGN - 1)) as int) / (ALLOCATION_ALIGN as int)) * (ALLOCATION_ALIGN as int)) as nat
}

/// Mathematical model of a [`Memory`]: the bytes of the region, the bump
/// cursor, the initialized flag, and the `(offset, size)` pair of every
/// allocation handed out so far, in the order they were made.
#[verifier::ext_equal]
pub ghost struct MemoryModel {
    pub bytes: Seq<u8>,
    pub next: nat,
    pub initialized: bool,
    pub allocations: Seq<(nat, nat)>,
}

/// Well-formedness of an arena model: the region leaves room for alignment
/// rounding of the cursor, the cursor is aligned, every allocation lies
/// inside the region, allocations are packed in increasing order without
/// overlap, and all of them end at or before the cursor.
pub open spec fn wf_model(m: MemoryModel) -> bool {
    &&& m.bytes.len() + ALLOCATION_ALIGN <= usize::MAX
    &&& m.next % (ALLOCATION_ALIGN as nat) == 0
    &&& m.next <= m.bytes.len() + ALLOCATION_ALIGN
    &&& forall|i: int|
        0 <= i < m.allocations.len() ==> (#[trigger] m.allocations[i]).0 + m.allocations[i].1
            <= m.bytes.len()
    &&& forall|i: int|
        0 <= i < m.allocations.len() ==> (#[trigger] m.allocations[i]).0 + m.allocations[i].1
            <= m.next
    &&& forall|i: int, j: int|
        0 <= i < j < m.allocations.len() ==> (#[trigger] m.allocations[i]).0
            + m.allocations[i].1 <= (#[trigger] m.allocations[j]).0
}

/// The bytes of a snapshot: the full region, verbatim.
pub open spec fn snapshot_model(m: MemoryModel) -> Seq<u8> {
    m.bytes
}

/// The arena after a full restore: the region is replaced verbatim; the bump
/// cursor, the initialized flag and the allocation history are untouched.
pub open spec fn restore_model(m: MemoryModel, bytes: Seq<u8>) -> MemoryModel {
    MemoryModel { bytes: bytes, next: m.next, initialized: m.initialized, allocations: m.allocations }
}

/// Law: taking a snapshot and restoring it, with no intervening mutation,
/// leaves the arena identical, whatever its prior mutation history.
pub proof fn lemma_snapshot_restore_round_trip(m: MemoryModel)
    ensures
        restore_model(m, snapshot_model(m)) == m,
{
    assert(restore_model(m, snapshot_model(m)) =~= m);
}

/// Law: in a well-formed arena, every allocation lies inside the region
/// (offsets of non-empty allocations fall in `[0, capacity)`), and no two
/// allocations overlap.
pub proof fn lemma_allocations_disjoint(m: MemoryModel, i: int, j: int)
    requires
        wf_model(m),
        0 <= i < m.allocations.len(),
        0 <= j < m.allocations.len(),
        i != j,
    ensures
        m.allocations[i].0 + m.allocations[i].1 <= m.bytes.len(),
        m.allocations[i].1 > 0 ==> m.allocations[i].0 < m.bytes.len(),
        m.allocations[i].0 + m.allocations[i].1 <= m.allocations[j].0 || m.allocations[j].0
            + m.allocations[j].1 <= m.allocations[i].0,
{
}

/// Well-formedness depends only on the region's length, never on its
/// contents: overwriting bytes preserves it.
proof fn lemma_wf_same_metadata(m1: MemoryModel, m2: MemoryModel)
    requires
        wf_model(m1),
        m2.next == m1.next,
        m2.allocations == m1.allocations,
        m2.bytes.len() == m1.bytes.len(),
    ensures
        wf_model(m2),
{
}

/// Offset-based reference to an object of type `T` in the arena. It carries
/// no runtime type information, and it stays valid across module reloads:
/// its value is an offset, immune to changes in code addresses.
pub struct Allocation<T> {
    /// Byte offset into the memory region for this allocation.
    index: usize,
    /// The static type tag of this allocation.
    phantom: PhantomData<T>,
}

impl<T> Clone for Allocation<T> {
    fn clone(&self) -> (r: Self)
        ensures
            r == *self,
    {
        Allocation { index: self.index, phantom: PhantomData }
    }
}

impl<T> Copy for Allocation<T> {

}

impl<T> View for Allocation<T> {
    type V = nat;

    closed spec fn view(&self) -> nat {
        self.index as nat
    }
}

impl<T> Allocation<T> {
    /// The byte offset of this allocation in the arena.
    pub fn offset(&self) -> (n: usize)
        ensures
            n == self@,
    {
        self.index
    }
}

impl<T> Default for Allocation<T> {
    /// A placeholder handle that no arena ever hands out: its offset is the
    /// largest representable, outside every region.
    fn default() -> (r: Self)
        ensures
            r@ == usize::MAX,
    {
        Allocation { index: usize::MAX, phantom: PhantomData }
    }
}

/// Memory region allocated for the simulation, with a bump allocator.
///
/// The region is exclusively owned; a module addresses objects in it only
/// through offset-based [`Allocation`] handles, so its contents stay valid
/// across code reloads. The value itself is the ownership token of the
/// one-arena rule: the bytes live inside it, so no second arena can alias
/// them.
pub struct Memory {
    /// Has this memory been initialized by the module yet.
    pub initialized: bool,
    /// Offset of the next allocation in the region.
    next_allocation: usize,
    /// The bytes of the region; its length is the capacity.
    data: Vec<u8>,
    /// Every allocation handed out, as `(offset, size)` pairs.
    allocations: Ghost<Seq<(nat, nat)>>,
}

impl View for Memory {
    type V = MemoryModel;

    closed spec fn view(&self) -> MemoryModel {
        MemoryModel {
            bytes: self.data@,
            next: self.next_allocation as nat,
            initialized: self.initialized,
            allocations: self.allocations@,
        }
    }
}

impl Memory {
    /// Well-formedness carried by every arena this module hands out.
    pub open spec fn wf(&self) -> bool {
        wf_model(self@)
    }

    /// A handle of type `T` whose whole object fits inside this region.
    pub open spec fn in_bounds<T>(&self, handle: Allocation<T>) -> bool {
        handle@ + vstd::layout::size_of::<T>() <= self@.bytes.len()
    }

    /// Capacity of the region in bytes.
    pub fn capacity(&self) -> (n: usize)
        ensures
            n == self@.bytes.len(),
    {
        self.data.len()
    }

    /// Current bump cursor: the offset the next allocation would start at.
    pub fn next_allocation(&self) -> (n: usize)
        ensures
            n == self@.next,
    {
        self.next_allocation
    }

    /// Reserve a region of `capacity` zeroed bytes.
    pub fn with_capacity(capacity: usize) -> (m: Memory)
        requires
            capacity + ALLOCATION_ALIGN <= usize::MAX,
        ensures
            m.wf(),
            m@.bytes =~= Seq::new(capacity as nat, |i: int| 0u8),
            m@.bytes.len() == capacity,
            m@.next == 0,
            m@.initialized == false,
            m@.allocations =~= Seq::<(nat, nat)>::empty(),
    {
        let mut data: Vec<u8> = Vec::new();
        let mut i: usize = 0;
        while i < capacity
            invariant
                i <= capacity,
                data@ =~= Seq::new(i as nat, |j: int| 0u8),
            decreases capacity - i,
        {
            data.push(0u8);
            i = i + 1;
        }
        Memory { initialized: false, next_allocation: 0, data, allocations: Ghost(Seq::empty()) }
    }

    /// Reserve the default region for a simulation session.
    pub fn new() -> (m: Memory)
        ensures
            m.wf(),
            m@.bytes.len() == MEMORY_LENGTH,
            m@.next == 0,
            m@.initialized == false,
            m@.allocations =~= Seq::<(nat, nat)>::empty(),
    {
        Memory::with_capacity(MEMORY_LENGTH)
    }

    /// Reserve `size_of::<T>()` bytes, rounded up to [`ALLOCATION_ALIGN`],
    /// from the unused tail of the region.
    ///
    /// Succeeds exactly when the requested bytes fit between the cursor and
    /// the capacity; a request past capacity is rejected, naming the
    /// requested and the still-available sizes, and leaves the arena
    /// untouched.
    pub fn allocate<T: Sized>(&mut self) -> (r: Result<Allocation<T>, HostError>)
        requires
            old(self).wf(),
        ensures
            final(self).wf(),
            final(self)@.bytes == old(self)@.bytes,
            final(self)@.initialized == old(self)@.initialized,
            match r {
                Ok(handle) => {
                    &&& old(self)@.next + vstd::layout::size_of::<T>() <= old(self)@.bytes.len()
                    &&& handle@ == old(self)@.next
                    &&& final(self).in_bounds::<T>(handle)
                    &&& final(self)@.next == round_up_to_align(
                        old(self)@.next + vstd::layout::size_of::<T>(),
                    )
                    &&& final(self)@.allocations =~= old(self)@.allocations.push(
                        (handle@, vstd::layout::size_of::<T>()),
                    )
                },
                Err(e) => {
                    &&& old(self)@.next + vstd::layout::size_of::<T>() > old(self)@.bytes.len()
                    &&& e == (HostError::FatalAllocation {
                        requested: vstd::layout::size_of::<T>() as usize,
                        available: if old(self)@.next <= old(self)@.bytes.len() {
                            (old(self)@.bytes.len() - old(self)@.next) as usize
                        } else {
                            0usize
                        },
                    })
                    &&& *final(self) == *old(self)
                },
            },
    {
        let size = core::mem::size_of::<T>();
        let cap = self.data.len();
        if size > cap || self.next_allocation > cap - size {
            let available = if self.next_allocation <= cap {
                cap - self.next_allocation
            } else {
                0usize
            };
            return Err(HostError::FatalAllocation { requested: size, available });
        }
        let index = self.next_allocation;
        let bumped = index + size;
        proof {
            let b = (bumped + (ALLOCATION_ALIGN - 1)) as int;
            lemma_fundamental_div_mod(b, ALLOCATION_ALIGN as int);
            lemma_mod_bound(b, ALLOCATION_ALIGN as int);
            lemma_mod_multiples_basic(b / (ALLOCATION_ALIGN as int), ALLOCATION_ALIGN as int);
        }
        let aligned = ((bumped + (ALLOCATION_ALIGN - 1)) / ALLOCATION_ALIGN) * ALLOCATION_ALIGN;
        self.next_allocation = aligned;
        self.allocations = Ghost(self.allocations@.push((index as nat, size as nat)));
        proof {
            let m = self@;
            assert(m.next % (ALLOCATION_ALIGN as nat) == 0);
            assert(bumped <= aligned <= bumped + (ALLOCATION_ALIGN - 1));
            assert forall|i: int|
                0 <= i < m.allocations.len() implies (#[trigger] m.allocations[i]).0
                + m.allocations[i].1 <= m.bytes.len() by {
                if i < m.allocations.len() - 1 {
                    assert(old(self)@.allocations[i] == m.allocations[i]);
                }
            }
            assert forall|i: int|
                0 <= i < m.allocations.len() implies (#[trigger] m.allocations[i]).0
                + m.allocations[i].1 <= m.next by {
                if i < m.allocations.len() - 1 {
                    assert(old(self)@.allocations[i] == m.allocations[i]);
                }
            }
            assert forall|i: int, j: int|
                0 <= i < j < m.allocations.len() implies (#[trigger] m.allocations[i]).0
                + m.allocations[i].1 <= (#[trigger] m.allocations[j]).0 by {
                assert(old(self)@.allocations[i] == m.allocations[i]);
                if j < m.allocations.len() - 1 {
                    assert(old(self)@.allocations[j] == m.allocations[j]);
                }
            }
        }
        Ok(Allocation { index, phantom: PhantomData })
    }

    /// Bounds-checked read of the object a handle refers to, as its raw
    /// bytes in the region.
    pub fn dereference<T>(&self, handle: &Allocation<T>) -> (r: Vec<u8>)
        requires
            self.in_bounds::<T>(*handle),
        ensures
            r@ =~= self@.bytes.subrange(
                handle@ as int,
                (handle@ + vstd::layout::size_of::<T>()) as int,
            ),
    {
        let size = core::mem::size_of::<T>();
        let offset = handle.offset();
        let cap = self.data.len();
        let mut out: Vec<u8> = Vec::new();
        let mut i: usize = 0;
        while i < size
            invariant
                i <= size,
                cap == self@.bytes.len(),
                offset + size <= cap,
                out@ =~= self@.bytes.subrange(offset as int, offset + i),
            decreases size - i,
        {
            out.push(self.data[offset + i]);
            i = i + 1;
        }
        out
    }

    /// Bounds-checked write of the object a handle refers to: replaces
    /// exactly its bytes in the region.
    pub fn write_through<T>(&mut self, handle: &Allocation<T>, bytes: &Vec<u8>)
        requires
            old(self).in_bounds::<T>(*handle),
            bytes@.len() == vstd::layout::size_of::<T>(),
        ensures
            final(self)@.bytes =~= old(self)@.bytes.subrange(0, handle@ as int) + bytes@
                + old(self)@.bytes.subrange(
                (handle@ + vstd::layout::size_of::<T>()) as int,
                old(self)@.bytes.len() as int,
            ),
            final(self)@.next == old(self)@.next,
            final(self)@.initialized == old(self)@.initialized,
            final(self)@.allocations == old(self)@.allocations,
            final(self).wf() == old(self).wf(),
    {
        let size = bytes.len();
        let offset = handle.offset();
        let cap = self.data.len();
        let mut i: usize = 0;
        while i < size
            invariant
                i <= size,
                size == bytes@.len(),
                size == vstd::layout::size_of::<T>(),
                cap == self@.bytes.len(),
                offset + size <= cap,
                self@.bytes.len() == old(self)@.bytes.len(),
                self@.next == old(self)@.next,
                self@.initialized == old(self)@.initialized,
                self@.allocations == old(self)@.allocations,
                forall|k: int| 0 <= k < offset ==> self@.bytes[k] == old(self)@.bytes[k],
                forall|k: int|
                    offset + size <= k < self@.bytes.len() ==> self@.bytes[k] == old(
                        self,
                    )@.bytes[k],
                forall|k: int| offset <= k < offset + i ==> self@.bytes[k] == bytes@[k - offset],
                forall|k: int|
                    offset + i <= k < offset + size ==> self@.bytes[k] == old(self)@.bytes[k],
            decreases size - i,
        {
            let b = bytes[i];
            self.data.set(offset + i, b);
            i = i + 1;
        }
    }

    /// Bounds-checked read of one byte of the region.
    pub fn read_byte(&self, offset: usize) -> (b: u8)
        requires
            offset < self@.bytes.len(),
        ensures
            b == self@.bytes[offset as int],
    {
        self.data[offset]
    }

    /// Bounds-checked write of one byte of the region.
    pub fn write_byte(&mut self, offset: usize, value: u8)
        requires
            offset < old(self)@.bytes.len(),
        ensures
            final(self)@.bytes =~= old(self)@.bytes.update(offset as int, value),
            final(self)@.next == old(self)@.next,
            final(self)@.initialized == old(self)@.initialized,
            final(self)@.allocations == old(self)@.allocations,
            final(self).wf() == old(self).wf(),
    {
        self.data.set(offset, value);
        proof {
            if wf_model(old(self)@) {
                lemma_wf_same_metadata(old(self)@, self@);
            }
            if wf_model(self@) {
                lemma_wf_same_metadata(self@, old(self)@);
            }
        }
    }

    /// Copy of the full capacity-sized region: the snapshot a session
    /// records and a replay restores.
    pub fn data_as_vec(&self) -> (r: Vec<u8>)
        ensures
            r@ == snapshot_model(self@),
    {
        copy_bytes(&self.data)
    }

    /// Overwrite the entire region verbatim. Succeeds exactly when `bytes`
    /// has the capacity's length; a mismatch is rejected, naming the
    /// expected and the actual length, and leaves the arena untouched.
    pub fn restore(&mut self, bytes: &Vec<u8>) -> (r: Result<(), HostError>)
        ensures
            match r {
                Ok(()) => {
                    &&& bytes@.len() == old(self)@.bytes.len()
                    &&& final(self)@ == restore_model(old(self)@, bytes@)
                },
                Err(e) => {
                    &&& bytes@.len() != old(self)@.bytes.len()
                    &&& e == (HostError::SessionFormatError {
                        expected: old(self)@.bytes.len() as usize,
                        actual: bytes@.len() as usize,
                    })
                    &&& *final(self) == *old(self)
                },
            },
            final(self).wf() == old(self).wf(),
    {
        if bytes.len() != self.data.len() {
            return Err(HostError::SessionFormatError {
                expected: self.data.len(),
                actual: bytes.len(),
            });
        }
        let len = bytes.len();
        let mut i: usize = 0;
        while i < len
            invariant
                i <= len,
                len == bytes@.len(),
                self@.bytes.len() == len,
                self@.next == old(self)@.next,
                self@.initialized == old(self)@.initialized,
                self@.allocations == old(self)@.allocations,
                forall|k: int| 0 <= k < i ==> self@.bytes[k] == bytes@[k],
                forall|k: int| i <= k < len ==> self@.bytes[k] == old(self)@.bytes[k],
            decreases len - i,
        {
            let b = bytes[i];
            self.data.set(i, b);
            i = i + 1;
        }
        proof {
            assert(final(self)@ =~= restore_model(old(self)@, bytes@));
        }
        Ok(())
    }
}

/// Byte-for-byte copy of a buffer.
pub(crate) fn copy_bytes(src: &Vec<u8>) -> (r: Vec<u8>)
    ensures
        r@ == src@,
{
    let len = src.len();
    let mut out: Vec<u8> = Vec::new();
    let mut i: usize = 0;
    while i < len
        invariant
            i <= len,
            len == src@.len(),
            out@ =~= src@.subrange(0, i as int),
        decreases len - i,
    {
        out.push(src[i]);
        i = i + 1;
    }
    proof {
        assert(out@ =~= src@);
    }
    out
}

} // verus!
