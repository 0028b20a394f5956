use bytes::BytesMut;
use memmap2::MmapMut;
use mini_lsm::arena::Arena;
use mini_lsm::engine::{StorageEngine, StorageEngineCore};
use mini_lsm::entry::{Entry, EntryMetadata, ENTRY_METADATA_SIZE};
use mini_lsm::memtable::Memtable;
use mini_lsm::result::Error;
use mini_lsm::skiplist::SkipList;
use mini_lsm::state::StorageEngineState;
use mini_lsm::wal::{Options, WAL, DEFAULT_MAX_FILE_SIZE};

fn entry(key: &str, value: &str, expiresAt: u64) -> Entry {
    Entry { key: key.as_bytes().to_vec(), value: value.as_bytes().to_vec(), expiresAt }
}

fn pairs(entries: &[Entry]) -> Vec<(Vec<u8>, Vec<u8>)> {
    entries.iter().map(|e| (e.key.clone(), e.value.clone())).collect()
}

fn anon(len: usize) -> MmapMut {
    MmapMut::map_anon(len).expect("anonymous mapping")
}

#[test]
fn metadata_is_little_endian() {
    let m = EntryMetadata { keyByteLen: 1, valueByteLen: 0x0203, expiresAt: 0x0102030405060708 };
    let mut buffer = BytesMut::new();
    m.encode(&mut buffer);
    assert_eq!(
        &buffer[..],
        &[1, 0, 0, 0, 3, 2, 0, 0, 8, 7, 6, 5, 4, 3, 2, 1][..]
    );
    assert_eq!(buffer.len(), ENTRY_METADATA_SIZE);
    let back = EntryMetadata::decode(&buffer[..], 0).unwrap();
    assert!(back == m);
    assert!(EntryMetadata::decode(&buffer[..], 1).is_none());
}

#[test]
fn entry_encoding_layout() {
    let e = entry("ab", "xyz", 7);
    let mut buffer = BytesMut::new();
    buffer.extend_from_slice(&[9, 9]);
    let len = e.encode(&mut buffer);
    assert_eq!(len, 2 + 16 + 2 + 3);
    assert_eq!(
        &buffer[..],
        &[9, 9, 2, 0, 0, 0, 3, 0, 0, 0, 7, 0, 0, 0, 0, 0, 0, 0, b'a', b'b', b'x', b'y', b'z'][..]
    );
}

#[test]
fn entry_round_trip() {
    for e in [entry("key", "value", 42), entry("k", "", u64::MAX), entry("", "v", 0)] {
        let mut buffer = BytesMut::new();
        let len = e.encode(&mut buffer);
        let (back, next) = Entry::decode(&buffer[..], 0).unwrap();
        assert_eq!(back.key, e.key);
        assert_eq!(back.value, e.value);
        assert_eq!(back.expiresAt, e.expiresAt);
        assert_eq!(next, len);
    }
}

#[test]
fn zeroed_header_is_end_of_log() {
    let bytes = [0u8; 32];
    assert!(Entry::decode(&bytes, 0).is_none());
    let mut buffer = BytesMut::new();
    entry("key", "value", 1).encode(&mut buffer);
    let cut = &buffer[..buffer.len() - 1];
    assert!(Entry::decode(cut, 0).is_none());
}

#[test]
fn wal_replay_scenario() {
    let (mut wal, existing) = WAL::from_mapping(anon(1 << 20)).unwrap();
    assert!(existing.is_empty());
    wal.writeEntry(&entry("a", "1", 0)).unwrap();
    wal.writeEntry(&entry("b", "2", 0)).unwrap();
    wal.writeEntry(&entry("a", "", 0)).unwrap();
    let replayed = wal.replay();
    assert_eq!(
        pairs(&replayed),
        vec![
            (b"a".to_vec(), b"1".to_vec()),
            (b"b".to_vec(), b"2".to_vec()),
            (b"a".to_vec(), b"".to_vec())
        ]
    );
    let engine = StorageEngine::open(wal.into_mapping(), 1 << 28).unwrap();
    assert_eq!(engine.get(b"a"), None);
    assert_eq!(engine.get(b"b"), Some(b"2".to_vec()));
}

#[test]
fn wal_sentinel_after_writes() {
    let (mut wal, _) = WAL::from_mapping(anon(4096)).unwrap();
    let mut end = 0;
    for i in 0..10u8 {
        let e = Entry { key: vec![i + 1], value: vec![0xff; i as usize], expiresAt: i as u64 };
        wal.writeEntry(&e).unwrap();
        end += 16 + 1 + i as usize;
    }
    let bytes = &wal.mapping()[..];
    assert!(bytes[end..end + ENTRY_METADATA_SIZE].iter().all(|b| *b == 0));
    let replayed = wal.replay();
    assert_eq!(replayed.len(), 10);
    for (i, e) in replayed.iter().enumerate() {
        assert_eq!(e.key, vec![i as u8 + 1]);
        assert_eq!(e.expiresAt, i as u64);
    }
}

#[test]
fn wal_reopen_keeps_entries() {
    let mut map = anon(1024);
    map[..].fill(0xaa);
    map[..16].fill(0);
    let (mut wal, _) = WAL::from_mapping(map).unwrap();
    wal.writeEntry(&entry("x", "1", 3)).unwrap();
    let (mut wal, existing) = WAL::from_mapping(wal.into_mapping()).unwrap();
    assert_eq!(pairs(&existing), vec![(b"x".to_vec(), b"1".to_vec())]);
    wal.writeEntry(&entry("y", "2", 4)).unwrap();
    assert_eq!(wal.replay().len(), 2);
}

#[test]
fn wal_errors() {
    let (mut wal, _) = WAL::from_mapping(anon(40)).unwrap();
    assert_eq!(wal.writeEntry(&entry("", "", 0)), Err(Error::EntryInvalid));
    assert_eq!(wal.writeEntry(&entry("k", "0123456789", 0)), Err(Error::LogFull));
    assert_eq!(wal.writeEntry(&entry("k", "v", 0)), Ok(()));
    assert_eq!(wal.replay().len(), 1);
    assert!(matches!(WAL::from_mapping(anon(8)), Err(Error::LogFull)));
}

#[test]
fn options_sizes() {
    assert_eq!(Options::default().maxFileSize, 1 << 30);
    assert_eq!(DEFAULT_MAX_FILE_SIZE, 1073741824);
    assert_eq!(Options::new(1 << 20).maxFileSize, 1048576);
}

#[test]
fn memtable_orders_and_last_write_wins() {
    let mut m = Memtable::new(3);
    m.put(b"c", b"3");
    m.put(b"a", b"1");
    m.put(b"ab", b"x");
    m.put(b"b", b"2");
    m.put(b"a", b"10");
    assert_eq!(m.id(), 3);
    assert_eq!(m.get(b"a"), Some(b"10".to_vec()));
    assert_eq!(m.get(b"z"), None);
    assert_eq!(
        m.entries(),
        vec![
            (b"a".to_vec(), b"10".to_vec()),
            (b"ab".to_vec(), b"x".to_vec()),
            (b"b".to_vec(), b"2".to_vec()),
            (b"c".to_vec(), b"3".to_vec())
        ]
    );
    assert_eq!(m.approximateSize(), 12);
}

#[test]
fn memtable_keeps_tombstones() {
    let mut m = Memtable::new(0);
    m.put(b"k", b"v");
    m.put(b"k", b"");
    assert_eq!(m.get(b"k"), Some(vec![]));
}

#[test]
fn engine_delete_hides_key() {
    let mut engine = StorageEngine::open(anon(1 << 16), 1 << 20).unwrap();
    engine.put(b"k", b"v").unwrap();
    assert_eq!(engine.get(b"k"), Some(b"v".to_vec()));
    engine.delete(b"k").unwrap();
    assert_eq!(engine.get(b"k"), None);
    assert_eq!(engine.delete(b""), Err(Error::EntryInvalid));
}

#[test]
fn engine_freeze_keeps_data() {
    let mut engine = StorageEngine::open(anon(1 << 16), 4).unwrap();
    engine.put(b"k1", b"v1").unwrap();
    engine.put(b"k2", b"v2").unwrap();
    engine.put(b"k1", b"new").unwrap();
    engine.delete(b"k2").unwrap();
    assert_eq!(engine.get(b"k1"), Some(b"new".to_vec()));
    assert_eq!(engine.get(b"k2"), None);
    assert_eq!(engine.get(b"k3"), None);
}

#[test]
fn core_freeze_falls_back_to_frozen_tables() {
    let (wal, _) = WAL::from_mapping(anon(1 << 12)).unwrap();
    let mut core = StorageEngineCore::new(wal);
    core.put(b"a", b"1").unwrap();
    core.freezeCurrentMemTable();
    core.put(b"b", b"2").unwrap();
    core.freezeCurrentMemTable();
    core.put(b"a", b"3").unwrap();
    assert_eq!(core.get(b"a"), Some(b"3".to_vec()));
    assert_eq!(core.get(b"b"), Some(b"2".to_vec()));
    core.delete(b"b").unwrap();
    assert_eq!(core.get(b"b"), None);
}

#[test]
fn engine_log_full_leaves_state() {
    let mut engine = StorageEngine::open(anon(64), 1 << 20).unwrap();
    engine.put(b"a", b"1").unwrap();
    assert_eq!(engine.put(b"b", &[7u8; 64]), Err(Error::LogFull));
    assert_eq!(engine.get(b"b"), None);
    assert_eq!(engine.get(b"a"), Some(b"1".to_vec()));
}

#[test]
fn state_snapshot_survives_freeze() {
    let mut state = StorageEngineState::new();
    state.put(b"a", b"1");
    state.put(b"b", b"2");
    state.freeze(1);
    state.put(b"a", b"9");
    state.put(b"c", b"3");
    assert_eq!(state.lookup(b"a"), Some(b"9".to_vec()));
    assert_eq!(state.lookup(b"b"), Some(b"2".to_vec()));
    assert_eq!(state.lookup(b"c"), Some(b"3".to_vec()));
    assert_eq!(state.lookup(b"d"), None);
}

#[test]
fn arena_alignment_and_growth() {
    let mut arena = Arena::new(16);
    assert_eq!(arena.allocate(1), 0);
    assert_eq!(arena.allocate(9), 8);
    assert_eq!(arena.currentSize(), 24);
    assert_eq!(arena.capacity(), 16 + 16);
    assert_eq!(arena.allocate(0), 24);
    assert_eq!(arena.allocate(8), 24);
    assert_eq!(arena.currentSize(), 32);
    assert_eq!(arena.allocate(100), 32);
    assert_eq!(arena.currentSize(), 136);
    assert_eq!(arena.capacity(), 32 + 104);
    assert_eq!(arena.currentSize() % 8, 0);
}

#[test]
fn skiplist_starts_empty() {
    let list = SkipList::new(1024);
    assert_eq!(list.height(), 1);
    assert_eq!(list.allocatedBytes(), 0);
}

#[test]
fn wal_cursor_and_layout_after_scenario_writes() {
    let (mut wal, _) = WAL::from_mapping(anon(1 << 20)).unwrap();
    wal.writeEntry(&entry("a", "1", 0)).unwrap();
    wal.writeEntry(&entry("b", "2", 0)).unwrap();
    wal.writeEntry(&entry("a", "", 0)).unwrap();
    let bytes = &wal.mapping()[..];
    assert_eq!(bytes.len(), 1 << 20);
    assert_eq!(&bytes[..18], &[1, 0, 0, 0, 1, 0, 0, 0, 0, 0, 0, 0, 0, 0, 0, 0, b'a', b'1'][..]);
    assert_eq!(&bytes[36..53], &[1, 0, 0, 0, 0, 0, 0, 0, 0, 0, 0, 0, 0, 0, 0, 0, b'a'][..]);
    assert!(bytes[53..69].iter().all(|b| *b == 0));
}

#[test]
fn error_messages() {
    assert_eq!(Error::FileOpen.message(), "Failed opening file");
    assert_eq!(Error::FileMemoryMap.message(), "Failed memory-mapping file");
    assert_eq!(Error::LogFull.message(), "Log has no room left for the entry");
}
