//! The write-ahead log: entries encoded one after the other from the start
//! of a memory-mapped region, always followed by a zeroed header that marks
//! the end of the log.
use vstd::prelude::*;

use crate::buffer::{buffer_bytes, buffer_clear, buffer_contents, buffer_new};
use crate::entry::{
    decode_at, encodable, encoding, le_u32, le_u64, metadata_at, metadata_bytes, metadata_of,
    read_u32, read_u64, replay_from, lemma_decode_encoding_at, Entry, EntryModel,
    ENTRY_METADATA_SIZE,
};
use crate::result::Error;

verus! {

#[verifier::external_type_specification]
#[verifier::external_body]
pub struct ExMmapMut(memmap2::MmapMut);

/// What a writable mapping holds, as a sequence of bytes.
pub uninterp spec fn mapped_contents(m: memmap2::MmapMut) -> Seq<u8>;

/// Relies on `MmapMut`'s `Deref` to `[u8]`: the mapped bytes, in order.
#[verifier::external_body]
fn mapped_bytes(m: &memmap2::MmapMut) -> (r: &[u8])
    ensures
        r@ == mapped_contents(*m),
{
    &m[..]
}

/// Relies on `MmapMut`'s `DerefMut` to `[u8]` and `copy_from_slice`: the bytes
/// of `src` replace those from `at` on, and nothing else changes.
#[verifier::external_body]
fn mapped_write(m: &mut memmap2::MmapMut, at: usize, src: &[u8])
    requires
        at + src@.len() <= mapped_contents(*old(m)).len(),
    ensures
        mapped_contents(*final(m)) == mapped_contents(*old(m)).subrange(0, at as int) + src@
            + mapped_contents(*old(m)).subrange(
            at + src@.len(),
            mapped_contents(*old(m)).len() as int,
        ),
{
    m[at..at + src.len()].copy_from_slice(src)
}

/// Settings of a log.
pub struct Options {
    /// Size in bytes that a new log file is given.
    pub maxFileSize: u64,
}

/// The size of a new log file unless another is asked for: 1 GiB.
pub const DEFAULT_MAX_FILE_SIZE: u64 = 0x4000_0000;

impl Options {
    pub fn new(maxFileSize: u64) -> (r: Options)
        ensures
            r.maxFileSize == maxFileSize,
    {
        Options { maxFileSize }
    }
}

impl Default for Options {
    fn default() -> (r: Options)
        ensures
            r.maxFileSize == DEFAULT_MAX_FILE_SIZE,
    {
        Options { maxFileSize: DEFAULT_MAX_FILE_SIZE }
    }
}

/// The bytes of the entries, encoded one after the other.
pub open spec fn encode_all(es: Seq<EntryModel>) -> Seq<u8>
    decreases es.len(),
{
    if es.len() == 0 {
        Seq::empty()
    } else {
        encode_all(es.drop_last()) + encoding(es.last())
    }
}

pub open spec fn models(v: Seq<Entry>) -> Seq<EntryModel> {
    v.map_values(|e: Entry| e@)
}

pub open spec fn zeroed(b: Seq<u8>, from: int, to: int) -> bool {
    forall|i: int| from <= i < to ==> #[trigger] b[i] == 0
}

/// A log over a writable mapping.
pub struct WAL {
    memoryMappedFile: memmap2::MmapMut,
    size: usize,
    writeAt: usize,
    buffer: bytes::BytesMut,
    entries: Ghost<Seq<EntryModel>>,
}

proof fn lemma_u32_bytes(b0: u8, b1: u8, b2: u8, b3: u8)
    ensures
        le_u32(read_u32(seq![b0, b1, b2, b3], 0)) == seq![b0, b1, b2, b3],
{
    let s = seq![b0, b1, b2, b3];
    let x = read_u32(s, 0);
    assert(x == (b0 as u32) | ((b1 as u32) << 8u32) | ((b2 as u32) << 16u32) | ((b3 as u32)
        << 24u32));
    assert(x as u8 == b0 && (x >> 8u32) as u8 == b1 && (x >> 16u32) as u8 == b2 && (x >> 24u32)
        as u8 == b3) by (bit_vector)
        requires
            x == (b0 as u32) | ((b1 as u32) << 8u32) | ((b2 as u32) << 16u32) | ((b3 as u32)
                << 24u32),
    ;
    assert(le_u32(x) =~= s);
}

proof fn lemma_u64_bytes(b0: u8, b1: u8, b2: u8, b3: u8, b4: u8, b5: u8, b6: u8, b7: u8)
    ensures
        le_u64(read_u64(seq![b0, b1, b2, b3, b4, b5, b6, b7], 0)) == seq![
            b0,
            b1,
            b2,
            b3,
            b4,
            b5,
            b6,
            b7,
        ],
{
    let s = seq![b0, b1, b2, b3, b4, b5, b6, b7];
    let x = read_u64(s, 0);
    assert(x == (b0 as u64) | ((b1 as u64) << 8u64) | ((b2 as u64) << 16u64) | ((b3 as u64)
        << 24u64) | ((b4 as u64) << 32u64) | ((b5 as u64) << 40u64) | ((b6 as u64) << 48u64) | ((
    b7 as u64) << 56u64));
    assert(x as u8 == b0 && (x >> 8u64) as u8 == b1 && (x >> 16u64) as u8 == b2 && (x >> 24u64)
        as u8 == b3 && (x >> 32u64) as u8 == b4 && (x >> 40u64) as u8 == b5 && (x >> 48u64) as u8
        == b6 && (x >> 56u64) as u8 == b7) by (bit_vector)
        requires
            x == (b0 as u64) | ((b1 as u64) << 8u64) | ((b2 as u64) << 16u64) | ((b3 as u64)
                << 24u64) | ((b4 as u64) << 32u64) | ((b5 as u64) << 40u64) | ((b6 as u64)
                << 48u64) | ((b7 as u64) << 56u64),
    ;
    assert(le_u64(x) =~= s);
}

/// A header read from bytes encodes back to those bytes.
proof fn lemma_metadata_inverse(b: Seq<u8>, pos: int)
    requires
        0 <= pos,
        pos + ENTRY_METADATA_SIZE <= b.len(),
    ensures
        metadata_bytes(metadata_at(b, pos).unwrap()) == b.subrange(pos, pos + ENTRY_METADATA_SIZE),
{
    let m = metadata_at(b, pos).unwrap();
    let s0 = seq![b[pos], b[pos + 1], b[pos + 2], b[pos + 3]];
    let s1 = seq![b[pos + 4], b[pos + 5], b[pos + 6], b[pos + 7]];
    let s2 = seq![
        b[pos + 8],
        b[pos + 9],
        b[pos + 10],
        b[pos + 11],
        b[pos + 12],
        b[pos + 13],
        b[pos + 14],
        b[pos + 15],
    ];
    lemma_u32_bytes(b[pos], b[pos + 1], b[pos + 2], b[pos + 3]);
    lemma_u32_bytes(b[pos + 4], b[pos + 5], b[pos + 6], b[pos + 7]);
    lemma_u64_bytes(
        b[pos + 8],
        b[pos + 9],
        b[pos + 10],
        b[pos + 11],
        b[pos + 12],
        b[pos + 13],
        b[pos + 14],
        b[pos + 15],
    );
    assert(read_u32(s0, 0) == m.keyByteLen);
    assert(read_u32(s1, 0) == m.valueByteLen);
    assert(read_u64(s2, 0) == m.expiresAt);
    assert(metadata_bytes(m) =~= b.subrange(pos, pos + ENTRY_METADATA_SIZE));
}

/// What decodes at a position is the encoding of an encodable entry.
proof fn lemma_decode_inverse(b: Seq<u8>, pos: int)
    requires
        decode_at(b, pos) is Some,
    ensures
        ({
            let (e, next) = decode_at(b, pos).unwrap();
            &&& encodable(e)
            &&& pos < next <= b.len()
            &&& b.subrange(pos, next) == encoding(e)
        }),
{
    let m = metadata_at(b, pos).unwrap();
    let (e, next) = decode_at(b, pos).unwrap();
    lemma_metadata_inverse(b, pos);
    assert(metadata_of(e) == m);
    assert(b.subrange(pos, next) =~= b.subrange(pos, pos + ENTRY_METADATA_SIZE) + e.key
        + e.value);
}

proof fn lemma_zero_header_ends(b: Seq<u8>, pos: int)
    requires
        0 <= pos,
        pos + ENTRY_METADATA_SIZE <= b.len(),
        zeroed(b, pos, pos + ENTRY_METADATA_SIZE),
    ensures
        decode_at(b, pos) is None,
        replay_from(b, pos) == Seq::<EntryModel>::empty(),
{
    let z: u8 = 0;
    assert(b[pos] == z && b[pos + 1] == z && b[pos + 2] == z && b[pos + 3] == z);
    assert(b[pos + 4] == z && b[pos + 5] == z && b[pos + 6] == z && b[pos + 7] == z);
    assert(((z as u32) | ((z as u32) << 8u32) | ((z as u32) << 16u32) | ((z as u32) << 24u32))
        == 0u32) by (bit_vector)
        requires
            z == 0u8,
    ;
}

proof fn lemma_encode_all_take(es: Seq<EntryModel>, k: int)
    requires
        0 <= k < es.len(),
    ensures
        encode_all(es.take(k + 1)) == encode_all(es.take(k)) + encoding(es[k]),
{
    assert(es.take(k + 1).drop_last() =~= es.take(k));
}

/// Bytes that hold encoded entries followed by a zeroed header replay to
/// exactly those entries.
proof fn lemma_replay_encoded(b: Seq<u8>, es: Seq<EntryModel>, k: int)
    requires
        0 <= k <= es.len(),
        forall|i: int| 0 <= i < es.len() ==> encodable(#[trigger] es[i]),
        b.subrange(0, encode_all(es).len() as int) == encode_all(es),
        encode_all(es).len() + ENTRY_METADATA_SIZE <= b.len(),
        zeroed(b, encode_all(es).len() as int, encode_all(es).len() + ENTRY_METADATA_SIZE),
    ensures
        replay_from(b, encode_all(es.take(k)).len() as int) == es.skip(k),
    decreases es.len() - k,
{
    let w = encode_all(es).len() as int;
    if k == es.len() {
        assert(es.take(k) =~= es);
        lemma_zero_header_ends(b, w);
        assert(es.skip(k) =~= Seq::<EntryModel>::empty());
    } else {
        lemma_encode_all_take(es, k);
        lemma_encode_all_prefix(es, k + 1);
        lemma_replay_encoded(b, es, k + 1);
        let p = encode_all(es.take(k)).len() as int;
        let q = encode_all(es.take(k + 1)).len() as int;
        let pre = b.subrange(0, p);
        let post = b.subrange(q, b.len() as int);
        assert(b.subrange(0, q) =~= b.subrange(0, w).subrange(0, q));
        assert(b.subrange(0, q) == encode_all(es.take(k + 1)));
        assert(b =~= pre + encoding(es[k]) + post) by {
            assert(b.subrange(0, q) =~= pre + b.subrange(p, q));
            assert(b.subrange(p, q) =~= b.subrange(0, q).subrange(p, q));
            assert(b.subrange(0, q).subrange(p, q) =~= encoding(es[k]));
        }
        lemma_decode_encoding_at(pre, es[k], post);
        assert(es.skip(k) =~= seq![es[k]] + es.skip(k + 1));
    }
}

/// The encoding of the first entries is a prefix of the encoding of all.
proof fn lemma_encode_all_prefix(es: Seq<EntryModel>, k: int)
    requires
        0 <= k <= es.len(),
    ensures
        encode_all(es).subrange(0, encode_all(es.take(k)).len() as int) == encode_all(es.take(k)),
        encode_all(es.take(k)).len() <= encode_all(es).len(),
    decreases es.len() - k,
{
    if k == es.len() {
        assert(es.take(k) =~= es);
        assert(encode_all(es).subrange(0, encode_all(es).len() as int) =~= encode_all(es));
    } else {
        lemma_encode_all_prefix(es, k + 1);
        lemma_encode_all_take(es, k);
        let a = encode_all(es.take(k));
        let c = encode_all(es.take(k + 1));
        assert(encode_all(es).subrange(0, a.len() as int) =~= encode_all(es).subrange(
            0,
            c.len() as int,
        ).subrange(0, a.len() as int));
        assert(c.subrange(0, a.len() as int) =~= a);
    }
}

/// Reads the entries from the start of the bytes up to the end of the log.
/// Returns them with the position where the log ends.
fn scan(bytes: &[u8]) -> (r: (Vec<Entry>, usize))
    ensures
        models(r.0@) == replay_from(bytes@, 0),
        r.1 <= bytes@.len(),
        bytes@.subrange(0, r.1 as int) == encode_all(models(r.0@)),
        forall|i: int| 0 <= i < r.0@.len() ==> encodable(#[trigger] models(r.0@)[i]),
        decode_at(bytes@, r.1 as int) is None,
        replay_from(bytes@, r.1 as int) == Seq::<EntryModel>::empty(),
{
    let mut result: Vec<Entry> = Vec::new();
    let mut pos: usize = 0;
    assert(models(result@) =~= Seq::<EntryModel>::empty());
    assert(bytes@.subrange(0, 0) =~= Seq::<u8>::empty());
    loop
        invariant
            pos <= bytes@.len(),
            models(result@) + replay_from(bytes@, pos as int) == replay_from(bytes@, 0),
            bytes@.subrange(0, pos as int) == encode_all(models(result@)),
            forall|i: int| 0 <= i < result@.len() ==> encodable(#[trigger] models(result@)[i]),
        decreases bytes@.len() - pos,
    {
        match Entry::decode(bytes, pos) {
            None => {
                assert(models(result@) + Seq::<EntryModel>::empty() =~= models(result@));
                return (result, pos);
            },
            Some((e, next)) => {
                proof {
                    lemma_decode_inverse(bytes@, pos as int);
                    let ghost old_models = models(result@);
                    assert(old_models.push(e@).drop_last() =~= old_models);
                }
                let ghost before = result@;
                result.push(e);
                proof {
                    assert(models(result@) =~= models(before).push(e@));
                    assert(models(result@).drop_last() =~= models(before));
                    assert(bytes@.subrange(0, next as int) =~= bytes@.subrange(0, pos as int)
                        + bytes@.subrange(pos as int, next as int));
                    assert(models(before) + replay_from(bytes@, pos as int) =~= models(result@)
                        + replay_from(bytes@, next as int));
                }
                pos = next;
            },
        }
    }
}

impl WAL {
    /// The bytes of the mapped region.
    pub closed spec fn bytes(&self) -> Seq<u8> {
        mapped_contents(self.memoryMappedFile)
    }

    /// Where the next entry will be written.
    pub closed spec fn cursor(&self) -> int {
        self.writeAt as int
    }

    /// The entries in the log, oldest first.
    pub closed spec fn log(&self) -> Seq<EntryModel> {
        self.entries@
    }

    pub closed spec fn size_matches(&self) -> bool {
        self.size as int == self.bytes().len()
    }

    /// The region starts with the log's entries, encoded, and a zeroed header
    /// stands right after them.
    pub open spec fn wf(&self) -> bool {
        &&& 0 <= self.cursor()
        &&& self.cursor() == encode_all(self.log()).len()
        &&& self.cursor() + ENTRY_METADATA_SIZE <= self.bytes().len()
        &&& self.bytes().subrange(0, self.cursor()) == encode_all(self.log())
        &&& zeroed(self.bytes(), self.cursor(), self.cursor() + ENTRY_METADATA_SIZE)
        &&& forall|i: int| 0 <= i < self.log().len() ==> encodable(#[trigger] self.log()[i])
        &&& self.size_matches()
    }

    /// Takes a log over a writable mapping: the entries already there are read
    /// and returned, and the header after them is zeroed. A region too small
    /// to hold a header after them is refused.
    pub fn from_mapping(memoryMappedFile: memmap2::MmapMut) -> (r: Result<
        (WAL, Vec<Entry>),
        Error,
    >)
        ensures
            match r {
                Ok((w, es)) => {
                    &&& w.wf()
                    &&& w.bytes().len() == mapped_contents(memoryMappedFile).len()
                    &&& w.log() == replay_from(mapped_contents(memoryMappedFile), 0)
                    &&& models(es@) == w.log()
                    &&& w.bytes().subrange(0, w.cursor()) == mapped_contents(
                        memoryMappedFile,
                    ).subrange(0, w.cursor())
                    &&& forall|i: int|
                        w.cursor() + ENTRY_METADATA_SIZE <= i < w.bytes().len() ==> #[trigger] w.bytes()[i]
                            == mapped_contents(memoryMappedFile)[i]
                },
                Err(e) => e == Error::LogFull && encode_all(
                    replay_from(mapped_contents(memoryMappedFile), 0),
                ).len() + ENTRY_METADATA_SIZE > mapped_contents(memoryMappedFile).len(),
            },
    {
        let (entries, end) = scan(mapped_bytes(&memoryMappedFile));
        let size = mapped_bytes(&memoryMappedFile).len();
        if end > size || size - end < ENTRY_METADATA_SIZE {
            return Err(Error::LogFull);
        }
        let mut wal = WAL {
            memoryMappedFile,
            size,
            writeAt: end,
            buffer: buffer_new(),
            entries: Ghost(models(entries@)),
        };
        wal.writeZerosInNextEntryMetadataMemoryRegion();
        Ok((wal, entries))
    }

    /// Zeroes the header-sized region at the cursor, which marks the end of
    /// the log.
    pub fn writeZerosInNextEntryMetadataMemoryRegion(&mut self)
        requires
            old(self).cursor() + ENTRY_METADATA_SIZE <= old(self).bytes().len(),
            old(self).size_matches(),
        ensures
            final(self).bytes().len() == old(self).bytes().len(),
            final(self).bytes().subrange(0, final(self).cursor()) == old(self).bytes().subrange(
                0,
                old(self).cursor(),
            ),
            zeroed(final(self).bytes(), final(self).cursor(), final(self).cursor()
                + ENTRY_METADATA_SIZE),
            forall|i: int|
                final(self).cursor() + ENTRY_METADATA_SIZE <= i < final(self).bytes().len()
                    ==> #[trigger] final(self).bytes()[i] == old(self).bytes()[i],
            final(self).cursor() == old(self).cursor(),
            final(self).log() == old(self).log(),
            final(self).size_matches(),
    {
        let zeros: Vec<u8> = vec![0u8; ENTRY_METADATA_SIZE];
        mapped_write(&mut self.memoryMappedFile, self.writeAt, zeros.as_slice());
        proof {
            let b = self.bytes();
            let a = old(self).bytes();
            let c = self.cursor();
            assert(b.subrange(0, c) =~= a.subrange(0, c));
            assert forall|i: int| c <= i < c + ENTRY_METADATA_SIZE implies #[trigger] b[i]
                == 0 by {
                assert(b[i] == zeros@[i - c]);
            }
        }
    }

    /// Appends an entry: it is encoded at the cursor, the cursor moves past
    /// it, and the header-sized region there is zeroed. An entry that could
    /// not be read back, or that does not fit, is refused and nothing changes.
    pub fn writeEntry(&mut self, entry: &Entry) -> (r: Result<(), Error>)
        requires
            old(self).wf(),
        ensures
            final(self).wf(),
            match r {
                Ok(()) => {
                    &&& final(self).log() == old(self).log().push(entry@)
                    &&& final(self).bytes().len() == old(self).bytes().len()
                    &&& final(self).cursor() == old(self).cursor() + encoding(entry@).len()
                    &&& final(self).bytes().subrange(old(self).cursor(), final(self).cursor())
                        == encoding(entry@)
                    &&& forall|i: int|
                        0 <= i < old(self).cursor() ==> #[trigger] final(self).bytes()[i]
                            == old(self).bytes()[i]
                    &&& forall|i: int|
                        final(self).cursor() + ENTRY_METADATA_SIZE <= i < final(self).bytes().len()
                            ==> #[trigger] final(self).bytes()[i] == old(self).bytes()[i]
                },
                Err(e) => {
                    &&& final(self).log() == old(self).log()
                    &&& final(self).bytes() == old(self).bytes()
                    &&& final(self).cursor() == old(self).cursor()
                    &&& (e == Error::EntryInvalid <==> !encodable(entry@))
                    &&& e == Error::LogFull ==> old(self).cursor() + encoding(entry@).len()
                        + ENTRY_METADATA_SIZE > old(self).bytes().len()
                    &&& (e == Error::EntryInvalid || e == Error::LogFull)
                },
            },
            r is Ok <==> (encodable(entry@) && old(self).cursor() + encoding(entry@).len()
                + ENTRY_METADATA_SIZE <= old(self).bytes().len()),
    {
        let keyLen = entry.key.len();
        let valueLen = entry.value.len();
        if keyLen > u32::MAX as usize || valueLen > u32::MAX as usize || (keyLen == 0 && valueLen
            == 0) {
            return Err(Error::EntryInvalid);
        }
        buffer_clear(&mut self.buffer);
        let encodedLen = entry.encode(&mut self.buffer);
        assert(buffer_contents(self.buffer) =~= encoding(entry@));
        if encodedLen > self.size - self.writeAt - ENTRY_METADATA_SIZE {
            return Err(Error::LogFull);
        }
        let ghost before = self.bytes();
        mapped_write(&mut self.memoryMappedFile, self.writeAt, buffer_bytes(&self.buffer));
        let ghost written = self.bytes();
        self.writeAt = self.writeAt + encodedLen;
        self.entries = Ghost(self.entries@.push(entry@));
        self.writeZerosInNextEntryMetadataMemoryRegion();
        proof {
            let es = self.log();
            let c0 = old(self).cursor();
            let c1 = self.cursor();
            assert(es.drop_last() =~= old(self).log());
            assert(written.subrange(0, c1) =~= before.subrange(0, c0) + encoding(entry@));
            assert(self.bytes().subrange(0, c1) == encode_all(es));
            assert(self.bytes().subrange(c0, c1) =~= written.subrange(0, c1).subrange(c0, c1));
            assert forall|i: int| 0 <= i < c0 implies #[trigger] self.bytes()[i] == before[i] by {
                assert(self.bytes()[i] == self.bytes().subrange(0, c1)[i]);
                assert(written[i] == written.subrange(0, c1)[i]);
            }
            assert forall|i: int| c1 + ENTRY_METADATA_SIZE <= i < self.bytes().len() implies #[trigger] self.bytes()[i] == before[i] by {
                assert(self.bytes()[i] == written[i]);
            }
            assert forall|i: int| 0 <= i < es.len() implies encodable(#[trigger] es[i]) by {
                if i < es.len() - 1 {
                    assert(es[i] == old(self).log()[i]);
                }
            }
        }
        Ok(())
    }

    /// The mapping the log is written to, for flushing it to its file.
    pub fn mapping(&self) -> (r: &memmap2::MmapMut)
        ensures
            mapped_contents(*r) == self.bytes(),
    {
        &self.memoryMappedFile
    }

    /// Gives the mapping back, with the log in it.
    pub fn into_mapping(self) -> (r: memmap2::MmapMut)
        ensures
            mapped_contents(r) == self.bytes(),
    {
        self.memoryMappedFile
    }

    /// The entries of the log, read back from the mapped region.
    pub fn replay(&self) -> (r: Vec<Entry>)
        requires
            self.wf(),
        ensures
            models(r@) == self.log(),
    {
        let (entries, _) = scan(mapped_bytes(&self.memoryMappedFile));
        proof {
            let es = self.log();
            lemma_replay_encoded(self.bytes(), es, 0);
            assert(es.take(0) =~= Seq::<EntryModel>::empty());
            assert(encode_all(es.take(0)) =~= Seq::<u8>::empty());
            assert(es.skip(0) =~= es);
        }
        entries
    }
}

/// After any sequence of appends to a well-formed log, the region at the
/// cursor is zero and replaying from the start yields exactly the entries
/// written, in order, and then stops.
pub proof fn lemma_sentinel_correctness(w: &WAL)
    requires
        w.wf(),
    ensures
        zeroed(w.bytes(), w.cursor(), w.cursor() + ENTRY_METADATA_SIZE),
        replay_from(w.bytes(), 0) == w.log(),
        decode_at(w.bytes(), w.cursor()) is None,
{
    let es = w.log();
    lemma_replay_encoded(w.bytes(), es, 0);
    assert(es.take(0) =~= Seq::<EntryModel>::empty());
    assert(encode_all(es.take(0)) =~= Seq::<u8>::empty());
    assert(es.skip(0) =~= es);
    lemma_zero_header_ends(w.bytes(), w.cursor());
}

} // verus!
