//! An ordered key-value table held in a concurrent skip map.
use vstd::prelude::*;
use vstd::slice::slice_to_vec;

verus! {

#[verifier::external_type_specification]
#[verifier::external_body]
#[verifier::reject_recursive_types(K)]
#[verifier::reject_recursive_types(V)]
pub struct ExSkipMap<K, V>(crossbeam_skiplist::SkipMap<K, V>);

/// A skip map from byte strings to byte strings.
pub type ByteSkipMap = crossbeam_skiplist::SkipMap<Vec<u8>, Vec<u8>>;

/// What a skip map of byte strings holds, as a map from key to value.
pub uninterp spec fn skip_map_contents(
    m: ByteSkipMap,
) -> Map<Seq<u8>, Seq<u8>>;

/// Byte strings in the order of `Vec<u8>`'s `Ord`: lexicographic, a proper
/// prefix first.
pub open spec fn bytes_lt(a: Seq<u8>, b: Seq<u8>) -> bool
    decreases a.len(),
{
    if a.len() == 0 {
        b.len() > 0
    } else if b.len() == 0 {
        false
    } else if a[0] != b[0] {
        a[0] < b[0]
    } else {
        bytes_lt(a.drop_first(), b.drop_first())
    }
}

/// The pairs list the map's entries, each key once, in strictly ascending
/// key order.
pub open spec fn lists_in_order(
    pairs: Seq<(Vec<u8>, Vec<u8>)>,
    contents: Map<Seq<u8>, Seq<u8>>,
) -> bool {
    &&& forall|i: int, j: int| 0 <= i < j < pairs.len() ==> bytes_lt(#[trigger] pairs[i].0@, #[trigger] pairs[j].0@)
    &&& forall|i: int|
        0 <= i < pairs.len() ==> #[trigger] contents.contains_key(pairs[i].0@)
            && contents[pairs[i].0@] == pairs[i].1@
    &&& forall|k: Seq<u8>|
        #[trigger] contents.contains_key(k) ==> exists|i: int|
            0 <= i < pairs.len() && #[trigger] pairs[i].0@ == k
}

/// Relies on `SkipMap::new`: a new map is empty.
#[verifier::external_body]
fn skip_map_new() -> (r: ByteSkipMap)
    ensures
        skip_map_contents(r).dom().is_empty(),
{
    crossbeam_skiplist::SkipMap::new()
}

/// Relies on `SkipMap::insert`: an entry with the same key is removed first,
/// so the key maps to the new value.
#[verifier::external_body]
fn skip_map_insert(m: &mut ByteSkipMap, k: Vec<u8>, v: Vec<u8>)
    ensures
        skip_map_contents(*final(m)) == skip_map_contents(*old(m)).insert(k@, v@),
{
    m.insert(k, v);
}

/// Relies on `SkipMap::get` and `Entry::value`: the value stored under the
/// key, if any.
#[verifier::external_body]
fn skip_map_get(m: &ByteSkipMap, k: &[u8]) -> (r: Option<
    Vec<u8>,
>)
    ensures
        match r {
            Some(v) => skip_map_contents(*m).contains_key(k@) && skip_map_contents(*m)[k@] == v@,
            None => !skip_map_contents(*m).contains_key(k@),
        },
{
    m.get(k).map(|e| e.value().clone())
}

/// Relies on `SkipMap::iter`: every entry, once, in ascending key order.
#[verifier::external_body]
fn skip_map_pairs(m: &ByteSkipMap) -> (r: Vec<
    (Vec<u8>, Vec<u8>),
>)
    ensures
        lists_in_order(r@, skip_map_contents(*m)),
{
    m.iter().map(|e| (e.key().clone(), e.value().clone())).collect()
}

/// The byte count of a table after a write of `k` and `v`, saturating at
/// `usize::MAX`.
pub open spec fn size_after(size: usize, k: Seq<u8>, v: Seq<u8>) -> usize {
    if size + k.len() + v.len() <= usize::MAX {
        (size + k.len() + v.len()) as usize
    } else {
        usize::MAX
    }
}

/// An ordered table from key to value. It stores exactly what it is given:
/// an empty value (a tombstone) is kept like any other.
pub struct Memtable {
    id: usize,
    map: ByteSkipMap,
    approximateSize: usize,
}

impl Memtable {
    /// What the table maps each key to.
    pub closed spec fn contents(&self) -> Map<Seq<u8>, Seq<u8>> {
        skip_map_contents(self.map)
    }

    pub closed spec fn spec_id(&self) -> usize {
        self.id
    }

    pub closed spec fn spec_approximate_size(&self) -> usize {
        self.approximateSize
    }

    /// An empty table with the given id.
    pub fn new(id: usize) -> (r: Memtable)
        ensures
            r.contents() == Map::<Seq<u8>, Seq<u8>>::empty(),
            r.spec_id() == id,
            r.spec_approximate_size() == 0,
    {
        Memtable { id, map: skip_map_new(), approximateSize: 0 }
    }

    pub fn id(&self) -> (r: usize)
        ensures
            r == self.spec_id(),
    {
        self.id
    }

    /// The number of key and value bytes written to the table, duplicates
    /// included, saturating at `usize::MAX`.
    pub fn approximateSize(&self) -> (r: usize)
        ensures
            r == self.spec_approximate_size(),
    {
        self.approximateSize
    }

    /// The value stored under the key, if any.
    pub fn get(&self, key: &[u8]) -> (r: Option<Vec<u8>>)
        ensures
            match r {
                Some(v) => self.contents().contains_key(key@) && self.contents()[key@] == v@,
                None => !self.contents().contains_key(key@),
            },
    {
        skip_map_get(&self.map, key)
    }

    /// Stores the value under the key; a later write of a key replaces the
    /// earlier one.
    pub fn put(&mut self, key: &[u8], value: &[u8])
        ensures
            final(self).contents() == old(self).contents().insert(key@, value@),
            final(self).spec_id() == old(self).spec_id(),
            final(self).spec_approximate_size() == size_after(
                old(self).spec_approximate_size(),
                key@,
                value@,
            ),
    {
        skip_map_insert(&mut self.map, slice_to_vec(key), slice_to_vec(value));
        self.approximateSize = self.approximateSize.saturating_add(key.len()).saturating_add(
            value.len(),
        );
    }

    /// Every entry of the table, each key once, in strictly ascending key
    /// order.
    pub fn entries(&self) -> (r: Vec<(Vec<u8>, Vec<u8>)>)
        ensures
            lists_in_order(r@, self.contents()),
    {
        skip_map_pairs(&self.map)
    }
}

} // verus!
