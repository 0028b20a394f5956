//! Write path of a log-structured key-value store: a binary entry codec, a
//! write-ahead log over a memory-mapped region, ordered memtables, an arena
//! allocator, and the engine that freezes memtables copy-on-write.
#![allow(non_snake_case)]

pub mod arena;
pub mod buffer;
pub mod engine;
pub mod entry;
pub mod memtable;
pub mod result;
pub mod skiplist;
pub mod state;
pub mod wal;
