//! The arena-backed skip list: its nodes live in an `Arena` and refer to
//! one another by offset.
use vstd::prelude::*;

use crate::arena::Arena;

verus! {

/// A node: its key, its value and the number of levels of its tower of
/// forward links, which follows these fields in the arena.
pub struct Node {
    pub key: Vec<u8>,
    pub value: Vec<u8>,
    pub height: usize,
}

/// A skip list whose nodes are carved out of one arena.
pub struct SkipList {
    arena: Arena,
    height: usize,
}

impl SkipList {
    pub closed spec fn spec_height(&self) -> usize {
        self.height
    }

    pub closed spec fn spec_arena(&self) -> Arena {
        self.arena
    }

    /// The number of levels in use.
    pub fn height(&self) -> (r: usize)
        ensures
            r == self.spec_height(),
    {
        self.height
    }

    /// The bytes of the arena handed out so far.
    pub fn allocatedBytes(&self) -> (r: usize)
        ensures
            r == self.spec_arena().spec_current_size(),
    {
        self.arena.currentSize()
    }

    /// An empty list of height 1 over an arena of `capacity` bytes.
    pub fn new(capacity: usize) -> (r: SkipList)
        ensures
            r.spec_height() == 1,
            r.spec_arena().wf(),
            r.spec_arena().spec_capacity() == capacity,
            r.spec_arena().spec_current_size() == 0,
    {
        SkipList { arena: Arena::new(capacity), height: 1 }
    }
}

} // verus!
