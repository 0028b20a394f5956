//! The engine: every write goes to the log first and then to the mutable
//! memtable; a full memtable is frozen and replaced by an empty one.
use vstd::prelude::*;
use vstd::slice::slice_to_vec;

use crate::entry::{encodable, encoding, replay_from, Entry, EntryModel, ENTRY_METADATA_SIZE};
use crate::result::Error;
use crate::state::{freeze_spec, put_spec, state_lookup, visible, StateModel, StorageEngineState};
use crate::memtable::size_after;
use crate::wal::{encode_all, mapped_contents, models, WAL};

verus! {

/// The state after the entries are written in order.
pub open spec fn apply_all(s: StateModel, es: Seq<EntryModel>) -> StateModel
    decreases es.len(),
{
    if es.len() == 0 {
        s
    } else {
        put_spec(apply_all(s, es.drop_last()), es.last().key, es.last().value)
    }
}

/// The state of an engine that has not been written to.
pub open spec fn empty_state() -> StateModel {
    StateModel { mutable: Map::empty(), immutables: Seq::empty() }
}

/// The entry that a write of the value under the key puts in the log.
pub open spec fn write_entry(k: Seq<u8>, v: Seq<u8>) -> EntryModel {
    EntryModel { key: k, value: v, expires_at: 0 }
}

/// The log and the memtables behind it.
pub struct StorageEngineCore {
    state: StorageEngineState,
    currentMutableMemTableId: usize,
    wal: WAL,
}

impl StorageEngineCore {
    pub closed spec fn view_state(&self) -> StateModel {
        self.state@
    }

    pub closed spec fn log(&self) -> Seq<EntryModel> {
        self.wal.log()
    }

    /// Room left in the log, in bytes, before its end marker.
    pub closed spec fn log_room(&self) -> int {
        self.wal.bytes().len() - self.wal.cursor() - ENTRY_METADATA_SIZE
    }

    pub closed spec fn mutable_id(&self) -> usize {
        self.currentMutableMemTableId
    }

    /// The bytes written to the mutable memtable so far.
    pub closed spec fn mutable_size(&self) -> usize {
        self.state.mutable_size()
    }

    pub closed spec fn wf(&self) -> bool {
        &&& self.wal.wf()
        &&& self.state.mutable_id() == self.currentMutableMemTableId
    }

    /// An engine over the log with an empty memtable of id 0.
    pub fn new(wal: WAL) -> (r: StorageEngineCore)
        requires
            wal.wf(),
        ensures
            r.wf(),
            r.view_state() == empty_state(),
            r.log() == wal.log(),
            r.mutable_id() == 0,
            r.mutable_size() == 0,
            r.log_room() == wal.bytes().len() - encode_all(wal.log()).len() - ENTRY_METADATA_SIZE,
    {
        let state = StorageEngineState::new();
        StorageEngineCore { state, currentMutableMemTableId: 0, wal }
    }

    /// The value of the key: the mutable memtable first, then the frozen
    /// ones, newest first. A key whose value is the empty tombstone is not
    /// found.
    pub fn get(&self, key: &[u8]) -> (r: Option<Vec<u8>>)
        ensures
            match r {
                Some(v) => visible(self.view_state(), key@) == Some(v@),
                None => visible(self.view_state(), key@) is None,
            },
    {
        match self.state.lookup(key) {
            Some(v) => if v.len() == 0 {
                None
            } else {
                Some(v)
            },
            None => None,
        }
    }

    /// Appends the write to the log, then stores it in the mutable memtable.
    /// Where the log refuses the entry, nothing changes.
    pub fn put(&mut self, key: &[u8], value: &[u8]) -> (r: Result<(), Error>)
        requires
            old(self).wf(),
        ensures
            final(self).wf(),
            final(self).mutable_id() == old(self).mutable_id(),
            r is Ok <==> (encodable(write_entry(key@, value@)) && encoding(
                write_entry(key@, value@),
            ).len() <= old(self).log_room()),
            match r {
                Ok(()) => {
                    &&& final(self).view_state() == put_spec(old(self).view_state(), key@, value@)
                    &&& final(self).log() == old(self).log().push(write_entry(key@, value@))
                    &&& final(self).log_room() == old(self).log_room() - encoding(
                        write_entry(key@, value@),
                    ).len()
                    &&& final(self).mutable_size() == size_after(
                        old(self).mutable_size(),
                        key@,
                        value@,
                    )
                },
                Err(e) => {
                    &&& final(self).view_state() == old(self).view_state()
                    &&& final(self).log() == old(self).log()
                    &&& final(self).log_room() == old(self).log_room()
                    &&& final(self).mutable_size() == old(self).mutable_size()
                    &&& (e == Error::EntryInvalid <==> !encodable(write_entry(key@, value@)))
                    &&& (e == Error::EntryInvalid || e == Error::LogFull)
                },
            },
    {
        let entry = Entry { key: slice_to_vec(key), value: slice_to_vec(value), expiresAt: 0 };
        assert(entry@ == write_entry(key@, value@));
        match self.wal.writeEntry(&entry) {
            Ok(()) => {
                self.state.put(key, value);
                Ok(())
            },
            Err(e) => Err(e),
        }
    }

    /// Writes the empty tombstone under the key.
    pub fn delete(&mut self, key: &[u8]) -> (r: Result<(), Error>)
        requires
            old(self).wf(),
        ensures
            final(self).wf(),
            final(self).mutable_id() == old(self).mutable_id(),
            r is Ok <==> (encodable(write_entry(key@, Seq::empty())) && encoding(
                write_entry(key@, Seq::empty()),
            ).len() <= old(self).log_room()),
            match r {
                Ok(()) => {
                    &&& final(self).view_state() == put_spec(
                        old(self).view_state(),
                        key@,
                        Seq::empty(),
                    )
                    &&& final(self).log() == old(self).log().push(
                        write_entry(key@, Seq::empty()),
                    )
                    &&& final(self).log_room() == old(self).log_room() - encoding(
                        write_entry(key@, Seq::empty()),
                    ).len()
                    &&& final(self).mutable_size() == size_after(
                        old(self).mutable_size(),
                        key@,
                        Seq::empty(),
                    )
                },
                Err(e) => {
                    &&& final(self).view_state() == old(self).view_state()
                    &&& final(self).log() == old(self).log()
                    &&& final(self).log_room() == old(self).log_room()
                    &&& final(self).mutable_size() == old(self).mutable_size()
                    &&& (e == Error::EntryInvalid <==> !encodable(write_entry(key@, Seq::empty())))
                    &&& (e == Error::EntryInvalid || e == Error::LogFull)
                },
            },
    {
        let empty: Vec<u8> = Vec::new();
        assert(empty@ == Seq::<u8>::empty());
        self.put(key, empty.as_slice())
    }

    /// Freezes the mutable memtable and puts an empty one with the next id
    /// in its place.
    pub fn freezeCurrentMemTable(&mut self)
        requires
            old(self).wf(),
            old(self).mutable_id() < usize::MAX,
        ensures
            final(self).wf(),
            final(self).view_state() == freeze_spec(old(self).view_state()),
            final(self).mutable_id() == old(self).mutable_id() + 1,
            final(self).mutable_size() == 0,
            final(self).log() == old(self).log(),
            final(self).log_room() == old(self).log_room(),
    {
        self.currentMutableMemTableId = self.currentMutableMemTableId + 1;
        self.state.freeze(self.currentMutableMemTableId);
    }

    /// Stores entries read back from the log in the mutable memtable, in
    /// order, without writing them to the log again.
    fn apply(&mut self, entries: &Vec<Entry>)
        requires
            old(self).wf(),
        ensures
            final(self).wf(),
            final(self).view_state() == apply_all(old(self).view_state(), models(entries@)),
            final(self).log() == old(self).log(),
            final(self).log_room() == old(self).log_room(),
            final(self).mutable_id() == old(self).mutable_id(),
    {
        let mut i: usize = 0;
        while i < entries.len()
            invariant
                i <= entries@.len(),
                self.wf(),
                self.view_state() == apply_all(old(self).view_state(), models(entries@).take(i as int)),
                self.log() == old(self).log(),
                self.log_room() == old(self).log_room(),
                self.mutable_id() == old(self).mutable_id(),
            decreases entries@.len() - i,
        {
            proof {
                let ms = models(entries@);
                assert(ms.take(i + 1).drop_last() =~= ms.take(i as int));
                assert(ms.take(i + 1).last() == entries@[i as int]@);
            }
            self.state.put(entries[i].key.as_slice(), entries[i].value.as_slice());
            i = i + 1;
        }
        assert(models(entries@).take(i as int) =~= models(entries@));
    }
}

/// Whether a write of `k` and `v` freezes the mutable memtable: its byte
/// count after the write reaches the threshold, and an id is left for the
/// next memtable.
pub open spec fn freezes_after(
    size: usize,
    id: usize,
    threshold: usize,
    k: Seq<u8>,
    v: Seq<u8>,
) -> bool {
    size_after(size, k, v) >= threshold && id < usize::MAX
}

/// An engine that freezes its mutable memtable once the bytes written to it
/// reach a threshold.
pub struct StorageEngine {
    core: StorageEngineCore,
    freezeThreshold: usize,
}

impl StorageEngine {
    pub closed spec fn view_state(&self) -> StateModel {
        self.core.view_state()
    }

    pub closed spec fn log(&self) -> Seq<EntryModel> {
        self.core.log()
    }

    /// Room left in the log, in bytes, before its end marker.
    pub closed spec fn log_room(&self) -> int {
        self.core.log_room()
    }

    /// The id of the mutable memtable.
    pub closed spec fn mutable_id(&self) -> usize {
        self.core.mutable_id()
    }

    /// The bytes written to the mutable memtable so far.
    pub closed spec fn mutable_size(&self) -> usize {
        self.core.mutable_size()
    }

    /// The byte count at which the mutable memtable is frozen.
    pub closed spec fn threshold(&self) -> usize {
        self.freezeThreshold
    }

    pub closed spec fn wf(&self) -> bool {
        self.core.wf()
    }

    /// Opens an engine over a writable mapping that holds a log: the
    /// entries already logged are written to the memtable in order. It
    /// fails exactly when no zeroed header fits after those entries.
    pub fn open(memoryMappedFile: memmap2::MmapMut, freezeThreshold: usize) -> (r: Result<
        StorageEngine,
        Error,
    >)
        ensures
            match r {
                Ok(engine) => {
                    &&& engine.wf()
                    &&& engine.log() == replay_from(mapped_contents(memoryMappedFile), 0)
                    &&& engine.view_state() == apply_all(empty_state(), engine.log())
                    &&& engine.log_room() == mapped_contents(memoryMappedFile).len() - encode_all(
                        engine.log(),
                    ).len() - ENTRY_METADATA_SIZE
                    &&& engine.mutable_id() == 0
                    &&& engine.threshold() == freezeThreshold
                },
                Err(e) => e == Error::LogFull && encode_all(
                    replay_from(mapped_contents(memoryMappedFile), 0),
                ).len() + ENTRY_METADATA_SIZE > mapped_contents(memoryMappedFile).len(),
            },
    {
        match WAL::from_mapping(memoryMappedFile) {
            Ok((wal, entries)) => {
                let mut core = StorageEngineCore::new(wal);
                core.apply(&entries);
                Ok(StorageEngine { core, freezeThreshold })
            },
            Err(e) => Err(e),
        }
    }

    /// The value of the key; a deleted key is not found.
    pub fn get(&self, key: &[u8]) -> (r: Option<Vec<u8>>)
        ensures
            match r {
                Some(v) => visible(self.view_state(), key@) == Some(v@),
                None => visible(self.view_state(), key@) is None,
            },
    {
        self.core.get(key)
    }

    /// Logs and stores the write, then freezes the mutable memtable if its
    /// byte count has reached the threshold and an id is left. What every
    /// key reads as is what it read as before, with the key now holding the
    /// value. Where the log refuses the entry, nothing changes.
    pub fn put(&mut self, key: &[u8], value: &[u8]) -> (r: Result<(), Error>)
        requires
            old(self).wf(),
        ensures
            final(self).wf(),
            final(self).threshold() == old(self).threshold(),
            r is Ok <==> (encodable(write_entry(key@, value@)) && encoding(
                write_entry(key@, value@),
            ).len() <= old(self).log_room()),
            match r {
                Ok(()) => {
                    &&& forall|k: Seq<u8>| #[trigger] state_lookup(final(self).view_state(), k)
                        == state_lookup(put_spec(old(self).view_state(), key@, value@), k)
                    &&& final(self).log() == old(self).log().push(write_entry(key@, value@))
                    &&& final(self).log_room() == old(self).log_room() - encoding(
                        write_entry(key@, value@),
                    ).len()
                    &&& if freezes_after(
                        old(self).mutable_size(),
                        old(self).mutable_id(),
                        old(self).threshold(),
                        key@,
                        value@,
                    ) {
                        &&& final(self).view_state() == freeze_spec(
                            put_spec(old(self).view_state(), key@, value@),
                        )
                        &&& final(self).mutable_id() == old(self).mutable_id() + 1
                        &&& final(self).mutable_size() == 0
                    } else {
                        &&& final(self).view_state() == put_spec(
                            old(self).view_state(),
                            key@,
                            value@,
                        )
                        &&& final(self).mutable_id() == old(self).mutable_id()
                        &&& final(self).mutable_size() == size_after(
                            old(self).mutable_size(),
                            key@,
                            value@,
                        )
                    }
                },
                Err(e) => {
                    &&& final(self).view_state() == old(self).view_state()
                    &&& final(self).log() == old(self).log()
                    &&& final(self).log_room() == old(self).log_room()
                    &&& final(self).mutable_id() == old(self).mutable_id()
                    &&& final(self).mutable_size() == old(self).mutable_size()
                    &&& (e == Error::EntryInvalid <==> !encodable(write_entry(key@, value@)))
                    &&& (e == Error::EntryInvalid || e == Error::LogFull)
                },
            },
    {
        match self.core.put(key, value) {
            Ok(()) => {
                if self.core.state.mutableSize() >= self.freezeThreshold
                    && self.core.currentMutableMemTableId < usize::MAX {
                    self.core.freezeCurrentMemTable();
                    proof {
                        let s = put_spec(old(self).view_state(), key@, value@);
                        assert forall|k: Seq<u8>| #[trigger] state_lookup(self.view_state(), k)
                            == state_lookup(s, k) by {
                            crate::state::lemma_freeze_keeps_data(s, k);
                        }
                    }
                }
                Ok(())
            },
            Err(e) => Err(e),
        }
    }

    /// Writes the empty tombstone under the key, so that it is no longer
    /// found. It freezes as `put` does.
    pub fn delete(&mut self, key: &[u8]) -> (r: Result<(), Error>)
        requires
            old(self).wf(),
        ensures
            final(self).wf(),
            final(self).threshold() == old(self).threshold(),
            r is Ok <==> (encodable(write_entry(key@, Seq::empty())) && encoding(
                write_entry(key@, Seq::empty()),
            ).len() <= old(self).log_room()),
            match r {
                Ok(()) => {
                    &&& forall|k: Seq<u8>| #[trigger] state_lookup(final(self).view_state(), k)
                        == state_lookup(put_spec(old(self).view_state(), key@, Seq::empty()), k)
                    &&& visible(final(self).view_state(), key@) is None
                    &&& final(self).log() == old(self).log().push(write_entry(key@, Seq::empty()))
                    &&& final(self).log_room() == old(self).log_room() - encoding(
                        write_entry(key@, Seq::empty()),
                    ).len()
                    &&& if freezes_after(
                        old(self).mutable_size(),
                        old(self).mutable_id(),
                        old(self).threshold(),
                        key@,
                        Seq::empty(),
                    ) {
                        &&& final(self).view_state() == freeze_spec(
                            put_spec(old(self).view_state(), key@, Seq::empty()),
                        )
                        &&& final(self).mutable_id() == old(self).mutable_id() + 1
                        &&& final(self).mutable_size() == 0
                    } else {
                        &&& final(self).view_state() == put_spec(
                            old(self).view_state(),
                            key@,
                            Seq::empty(),
                        )
                        &&& final(self).mutable_id() == old(self).mutable_id()
                        &&& final(self).mutable_size() == size_after(
                            old(self).mutable_size(),
                            key@,
                            Seq::empty(),
                        )
                    }
                },
                Err(e) => {
                    &&& final(self).view_state() == old(self).view_state()
                    &&& final(self).log() == old(self).log()
                    &&& final(self).log_room() == old(self).log_room()
                    &&& final(self).mutable_id() == old(self).mutable_id()
                    &&& final(self).mutable_size() == old(self).mutable_size()
                    &&& (e == Error::EntryInvalid <==> !encodable(write_entry(key@, Seq::empty())))
                    &&& (e == Error::EntryInvalid || e == Error::LogFull)
                },
            },
    {
        let empty: Vec<u8> = Vec::new();
        assert(empty@ == Seq::<u8>::empty());
        let r = self.put(key, empty.as_slice());
        proof {
            if r is Ok {
                let s = put_spec(old(self).view_state(), key@, Seq::empty());
                assert((seq![s.mutable] + s.immutables)[0] == s.mutable);
                assert(state_lookup(self.view_state(), key@) == state_lookup(s, key@));
            }
        }
        r
    }
}

} // verus!
