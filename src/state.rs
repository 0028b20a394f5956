//! The tables of an engine: one mutable memtable and the frozen ones,
//! newest first.
use vstd::prelude::*;

use crate::memtable::{size_after, Memtable};

verus! {

/// The mathematical value of a state: what each table maps keys to.
pub struct StateModel {
    pub mutable: Map<Seq<u8>, Seq<u8>>,
    pub immutables: Seq<Map<Seq<u8>, Seq<u8>>>,
}

/// The value of the first table, in order, that holds the key.
pub open spec fn lookup_in(tables: Seq<Map<Seq<u8>, Seq<u8>>>, k: Seq<u8>) -> Option<Seq<u8>>
    decreases tables.len(),
{
    if tables.len() == 0 {
        None
    } else if tables[0].contains_key(k) {
        Some(tables[0][k])
    } else {
        lookup_in(tables.drop_first(), k)
    }
}

/// What a state stores under the key, tombstones included: the mutable
/// table first, then the frozen ones, newest first.
pub open spec fn state_lookup(s: StateModel, k: Seq<u8>) -> Option<Seq<u8>> {
    lookup_in(seq![s.mutable] + s.immutables, k)
}

/// What a reader of the state sees under the key: nothing where the stored
/// value is the empty tombstone.
pub open spec fn visible(s: StateModel, k: Seq<u8>) -> Option<Seq<u8>> {
    match state_lookup(s, k) {
        Some(v) => if v.len() > 0 {
            Some(v)
        } else {
            None
        },
        None => None,
    }
}

/// The state after a write to its mutable table.
pub open spec fn put_spec(s: StateModel, k: Seq<u8>, v: Seq<u8>) -> StateModel {
    StateModel { mutable: s.mutable.insert(k, v), immutables: s.immutables }
}

/// The state after a freeze: an empty mutable table, and the old mutable
/// table at the head of the frozen ones.
pub open spec fn freeze_spec(s: StateModel) -> StateModel {
    StateModel { mutable: Map::empty(), immutables: seq![s.mutable] + s.immutables }
}

/// The mutable memtable and the frozen memtables, newest first.
pub struct StorageEngineState {
    pub(crate) mutableMemTable: Memtable,
    pub(crate) immutableMemTables: Vec<Memtable>,
}

pub open spec fn tables_contents(v: Seq<Memtable>) -> Seq<Map<Seq<u8>, Seq<u8>>> {
    v.map_values(|m: Memtable| m.contents())
}

impl View for StorageEngineState {
    type V = StateModel;

    closed spec fn view(&self) -> StateModel {
        StateModel {
            mutable: self.mutableMemTable.contents(),
            immutables: tables_contents(self.immutableMemTables@),
        }
    }
}

impl StorageEngineState {
    /// An empty mutable memtable with id 0 and no frozen memtables.
    pub fn new() -> (r: StorageEngineState)
        ensures
            r@.mutable == Map::<Seq<u8>, Seq<u8>>::empty(),
            r@.immutables == Seq::<Map<Seq<u8>, Seq<u8>>>::empty(),
            r.mutable_id() == 0,
            r.mutable_size() == 0,
    {
        let r = StorageEngineState { mutableMemTable: Memtable::new(0), immutableMemTables: Vec::new() };
        assert(tables_contents(r.immutableMemTables@) =~= Seq::<Map<Seq<u8>, Seq<u8>>>::empty());
        r
    }

    pub closed spec fn mutable_id(&self) -> usize {
        self.mutableMemTable.spec_id()
    }

    /// The bytes written to the mutable memtable so far.
    pub closed spec fn mutable_size(&self) -> usize {
        self.mutableMemTable.spec_approximate_size()
    }

    /// The bytes written to the mutable memtable so far.
    pub fn mutableSize(&self) -> (r: usize)
        ensures
            r == self.mutable_size(),
    {
        self.mutableMemTable.approximateSize()
    }

    /// The value stored under the key, tombstones included: the mutable
    /// memtable first, then the frozen ones, newest first.
    pub fn lookup(&self, key: &[u8]) -> (r: Option<Vec<u8>>)
        ensures
            match r {
                Some(v) => state_lookup(self@, key@) == Some(v@),
                None => state_lookup(self@, key@) is None,
            },
    {
        let found = self.mutableMemTable.get(key);
        if found.is_some() {
            return found;
        }
        let mut i: usize = 0;
        let ghost all = seq![self@.mutable] + self@.immutables;
        assert(all.drop_first() =~= self@.immutables);
        assert(all[0] == self@.mutable);
        assert(self@.immutables.skip(0) =~= self@.immutables);
        while i < self.immutableMemTables.len()
            invariant
                i <= self.immutableMemTables@.len(),
                all == seq![self@.mutable] + self@.immutables,
                state_lookup(self@, key@) == lookup_in(self@.immutables.skip(i as int), key@),
                self@.immutables == tables_contents(self.immutableMemTables@),
            decreases self.immutableMemTables@.len() - i,
        {
            let found = self.immutableMemTables[i].get(key);
            let ghost rest = self@.immutables.skip(i as int);
            assert(rest[0] == self.immutableMemTables@[i as int].contents());
            assert(rest.drop_first() =~= self@.immutables.skip(i + 1));
            if found.is_some() {
                return found;
            }
            i = i + 1;
        }
        assert(self@.immutables.skip(i as int) =~= Seq::<Map<Seq<u8>, Seq<u8>>>::empty());
        None
    }

    /// Writes the value under the key in the mutable memtable.
    pub fn put(&mut self, key: &[u8], value: &[u8])
        ensures
            final(self)@ == put_spec(old(self)@, key@, value@),
            final(self).mutable_id() == old(self).mutable_id(),
            final(self).mutable_size() == size_after(old(self).mutable_size(), key@, value@),
    {
        self.mutableMemTable.put(key, value);
    }

    /// Makes the mutable memtable the newest frozen one and puts an empty
    /// memtable with the given id in its place.
    pub fn freeze(&mut self, id: usize)
        ensures
            final(self)@ == freeze_spec(old(self)@),
            final(self).mutable_id() == id,
            final(self).mutable_size() == 0,
    {
        let mut fresh = Memtable::new(id);
        std::mem::swap(&mut self.mutableMemTable, &mut fresh);
        self.immutableMemTables.insert(0, fresh);
        assert(tables_contents(self.immutableMemTables@) =~= seq![old(self)@.mutable]
            + old(self)@.immutables);
    }
}

/// A write followed by a delete of the same key leaves the key unseen,
/// although the tombstone is stored.
pub proof fn lemma_delete_hides(s: StateModel, k: Seq<u8>, v: Seq<u8>)
    ensures
        visible(put_spec(put_spec(s, k, v), k, Seq::empty()), k) is None,
        state_lookup(put_spec(put_spec(s, k, v), k, Seq::empty()), k) == Some(Seq::<u8>::empty()),
{
    let t = put_spec(put_spec(s, k, v), k, Seq::empty());
    assert((seq![t.mutable] + t.immutables)[0] == t.mutable);
}

/// Freezing keeps what every key maps to: a key of the old mutable table is
/// found in the newest frozen one.
pub proof fn lemma_freeze_keeps_data(s: StateModel, k: Seq<u8>)
    ensures
        state_lookup(freeze_spec(s), k) == state_lookup(s, k),
        visible(freeze_spec(s), k) == visible(s, k),
{
    let f = freeze_spec(s);
    let all = seq![f.mutable] + f.immutables;
    assert(all[0] == Map::<Seq<u8>, Seq<u8>>::empty());
    assert(all.drop_first() =~= seq![s.mutable] + s.immutables);
}

/// A state captured before a freeze stays whole inside the engine's state
/// after the freeze and a later write: the write lands in the new mutable
/// table, the captured tables are the frozen ones in the same order, and
/// every other key reads as it did in the captured state.
pub proof fn lemma_snapshot_isolation(s: StateModel, k: Seq<u8>, v: Seq<u8>)
    ensures
        put_spec(freeze_spec(s), k, v).immutables == seq![s.mutable] + s.immutables,
        put_spec(freeze_spec(s), k, v).mutable == Map::<Seq<u8>, Seq<u8>>::empty().insert(k, v),
        forall|k2: Seq<u8>|
            k2 != k ==> #[trigger] state_lookup(put_spec(freeze_spec(s), k, v), k2)
                == state_lookup(s, k2),
{
    assert forall|k2: Seq<u8>| k2 != k implies #[trigger] state_lookup(
        put_spec(freeze_spec(s), k, v),
        k2,
    ) == state_lookup(s, k2) by {
        let t = put_spec(freeze_spec(s), k, v);
        let all = seq![t.mutable] + t.immutables;
        assert(!all[0].contains_key(k2));
        assert(all.drop_first() =~= seq![s.mutable] + s.immutables);
    }
}

} // verus!
