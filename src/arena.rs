//! A growable byte buffer that hands out 8-byte-aligned regions by offset.
//! Offsets stay meaningful when the buffer grows, since growing copies the
//! bytes to the start of the larger buffer.
use vstd::prelude::*;

verus! {

const ADDRESS_ALIGNMENT_BIT_MASK: usize = 7;

/// The most that one growth adds when the request itself is smaller: 1 GiB.
pub const MAX_GROWTH_STEP: usize = 0x4000_0000;

/// `n` rounded up to the next multiple of 8.
pub open spec fn round_up(n: int) -> int {
    ((n + 7) / 8) * 8
}

/// What a growth adds to the capacity for a request of `size` bytes: at
/// least the request, up to doubling, at most `MAX_GROWTH_STEP` beyond it.
pub open spec fn growth(capacity: int, size: int) -> int {
    let step = if capacity < MAX_GROWTH_STEP { capacity } else { MAX_GROWTH_STEP as int };
    if size > step {
        size
    } else {
        step
    }
}

pub struct Arena {
    buffer: Vec<u8>,
    capacity: usize,
    currentSize: usize,
}

impl Arena {
    /// The bytes of the buffer.
    pub closed spec fn bytes(&self) -> Seq<u8> {
        self.buffer@
    }

    pub closed spec fn spec_capacity(&self) -> int {
        self.capacity as int
    }

    pub closed spec fn spec_current_size(&self) -> int {
        self.currentSize as int
    }

    /// The buffer holds `capacity` bytes, and the bytes handed out so far
    /// fit in it and end at a multiple of 8.
    pub open spec fn wf(&self) -> bool {
        &&& self.bytes().len() == self.spec_capacity()
        &&& self.spec_current_size() <= self.spec_capacity()
        &&& self.spec_current_size() % 8 == 0
    }

    /// An arena with a zeroed buffer of `capacity` bytes and nothing handed
    /// out.
    pub fn new(capacity: usize) -> (r: Arena)
        ensures
            r.wf(),
            r.spec_capacity() == capacity,
            r.spec_current_size() == 0,
    {
        let buffer: Vec<u8> = vec![0u8; capacity];
        Arena { buffer, capacity, currentSize: 0 }
    }

    pub fn capacity(&self) -> (r: usize)
        ensures
            r == self.spec_capacity(),
    {
        self.capacity
    }

    pub fn currentSize(&self) -> (r: usize)
        ensures
            r == self.spec_current_size(),
    {
        self.currentSize
    }

    /// Hands out `size` bytes rounded up to a multiple of 8 and returns the
    /// offset where they start. Where they do not fit, the buffer first grows
    /// by `growth(capacity, rounded size)`, its bytes kept at the same
    /// offsets.
    pub fn allocate(&mut self, size: usize) -> (r: usize)
        requires
            old(self).wf(),
            old(self).spec_capacity() + size + 8 + MAX_GROWTH_STEP <= usize::MAX,
        ensures
            final(self).wf(),
            r == old(self).spec_current_size(),
            r % 8 == 0,
            final(self).spec_current_size() == old(self).spec_current_size() + round_up(
                size as int,
            ),
            final(self).spec_capacity() == if old(self).spec_current_size() + round_up(size as int)
                > old(self).spec_capacity() {
                old(self).spec_capacity() + growth(
                    old(self).spec_capacity(),
                    round_up(size as int),
                )
            } else {
                old(self).spec_capacity()
            },
            final(self).bytes().subrange(0, old(self).spec_capacity()) == old(self).bytes(),
    {
        let padded: usize = size + ADDRESS_ALIGNMENT_BIT_MASK;
        let alignedSize: usize = padded & !ADDRESS_ALIGNMENT_BIT_MASK;
        assert(alignedSize == padded - padded % 8) by (bit_vector)
            requires
                alignedSize == padded & !7usize,
        ;
        assert(alignedSize == round_up(size as int)) by {
            assert(padded - padded % 8 == (padded / 8) * 8);
        }
        let offset = self.currentSize;
        if self.currentSize + alignedSize > self.capacity {
            let step = if self.capacity < MAX_GROWTH_STEP {
                self.capacity
            } else {
                MAX_GROWTH_STEP
            };
            let growBy = if alignedSize > step {
                alignedSize
            } else {
                step
            };
            let newCapacity = self.capacity + growBy;
            self.buffer.resize(newCapacity, 0u8);
            self.capacity = newCapacity;
            assert(self.buffer@.subrange(0, old(self).spec_capacity()) =~= old(self).bytes());
        } else {
            assert(self.buffer@.subrange(0, old(self).spec_capacity()) =~= old(self).bytes());
        }
        self.currentSize = self.currentSize + alignedSize;
        offset
    }
}

} // verus!
