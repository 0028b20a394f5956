//! The binary record format of the log: a fixed header followed by the key
//! bytes and the value bytes. Every integer is little-endian.
use vstd::prelude::*;
use vstd::slice::slice_to_vec;

use crate::buffer::{buffer_contents, buffer_extend, buffer_len};

verus! {

/// Size in bytes of an encoded `EntryMetadata`: two `u32` lengths and a `u64`
/// expiry.
pub const ENTRY_METADATA_SIZE: usize = 16;

/// A key, its value and the time at which it expires. An empty value is the
/// tombstone that marks the key as deleted.
pub struct Entry {
    pub key: Vec<u8>,
    pub value: Vec<u8>,
    pub expiresAt: u64,
}

/// The mathematical value of an `Entry`.
pub struct EntryModel {
    pub key: Seq<u8>,
    pub value: Seq<u8>,
    pub expires_at: u64,
}

impl View for Entry {
    type V = EntryModel;

    open spec fn view(&self) -> EntryModel {
        EntryModel { key: self.key@, value: self.value@, expires_at: self.expiresAt }
    }
}

/// The fixed-size header that precedes the key and value bytes of an entry.
#[derive(Clone, Copy, PartialEq, Eq, Structural)]
pub struct EntryMetadata {
    pub keyByteLen: u32,
    pub valueByteLen: u32,
    pub expiresAt: u64,
}

pub open spec fn le_u32(x: u32) -> Seq<u8> {
    seq![x as u8, (x >> 8u32) as u8, (x >> 16u32) as u8, (x >> 24u32) as u8]
}

pub open spec fn le_u64(x: u64) -> Seq<u8> {
    seq![
        x as u8,
        (x >> 8u64) as u8,
        (x >> 16u64) as u8,
        (x >> 24u64) as u8,
        (x >> 32u64) as u8,
        (x >> 40u64) as u8,
        (x >> 48u64) as u8,
        (x >> 56u64) as u8,
    ]
}

/// The `u32` whose little-endian bytes start at `pos`.
pub open spec fn read_u32(b: Seq<u8>, pos: int) -> u32 {
    (b[pos] as u32) | ((b[pos + 1] as u32) << 8u32) | ((b[pos + 2] as u32) << 16u32) | ((b[pos
        + 3] as u32) << 24u32)
}

/// The `u64` whose little-endian bytes start at `pos`.
pub open spec fn read_u64(b: Seq<u8>, pos: int) -> u64 {
    (b[pos] as u64) | ((b[pos + 1] as u64) << 8u64) | ((b[pos + 2] as u64) << 16u64) | ((b[pos
        + 3] as u64) << 24u64) | ((b[pos + 4] as u64) << 32u64) | ((b[pos + 5] as u64) << 40u64)
        | ((b[pos + 6] as u64) << 48u64) | ((b[pos + 7] as u64) << 56u64)
}

pub open spec fn metadata_bytes(m: EntryMetadata) -> Seq<u8> {
    le_u32(m.keyByteLen) + le_u32(m.valueByteLen) + le_u64(m.expiresAt)
}

/// An entry can be written to the log when each length fits the header and
/// the entry cannot be taken for the zeroed end-of-log header.
pub open spec fn encodable(e: EntryModel) -> bool {
    &&& e.key.len() <= u32::MAX
    &&& e.value.len() <= u32::MAX
    &&& !(e.key.len() == 0 && e.value.len() == 0)
}

pub open spec fn metadata_of(e: EntryModel) -> EntryMetadata {
    EntryMetadata {
        keyByteLen: e.key.len() as u32,
        valueByteLen: e.value.len() as u32,
        expiresAt: e.expires_at,
    }
}

/// The bytes of an encoded entry: header, key, value.
pub open spec fn encoding(e: EntryModel) -> Seq<u8> {
    metadata_bytes(metadata_of(e)) + e.key + e.value
}

/// The header read at `pos`, if the bytes hold one there.
pub open spec fn metadata_at(b: Seq<u8>, pos: int) -> Option<EntryMetadata> {
    if 0 <= pos && pos + ENTRY_METADATA_SIZE <= b.len() {
        Some(
            EntryMetadata {
                keyByteLen: read_u32(b, pos),
                valueByteLen: read_u32(b, pos + 4),
                expiresAt: read_u64(b, pos + 8),
            },
        )
    } else {
        None
    }
}

/// The entry encoded at `pos` and the position just after it; `None` at the
/// end of the log (a header of two zero lengths) or where the bytes end first.
pub open spec fn decode_at(b: Seq<u8>, pos: int) -> Option<(EntryModel, int)> {
    match metadata_at(b, pos) {
        None => None,
        Some(m) => {
            let start = pos + ENTRY_METADATA_SIZE;
            let mid = start + m.keyByteLen;
            let end = mid + m.valueByteLen;
            if m.keyByteLen == 0 && m.valueByteLen == 0 {
                None
            } else if end > b.len() {
                None
            } else {
                Some(
                    (
                        EntryModel {
                            key: b.subrange(start, mid),
                            value: b.subrange(mid, end),
                            expires_at: m.expiresAt,
                        },
                        end,
                    ),
                )
            }
        },
    }
}

/// The entries read one after the other from `pos` up to the end of the log.
pub open spec fn replay_from(b: Seq<u8>, pos: int) -> Seq<EntryModel>
    decreases b.len() - pos,
{
    match decode_at(b, pos) {
        None => Seq::empty(),
        Some((e, next)) => if next > pos && next <= b.len() {
            seq![e] + replay_from(b, next)
        } else {
            Seq::empty()
        },
    }
}

pub proof fn lemma_u32_round_trip(x: u32)
    ensures
        read_u32(le_u32(x), 0) == x,
{
    let b = le_u32(x);
    assert(b[0] == x as u8 && b[1] == (x >> 8u32) as u8 && b[2] == (x >> 16u32) as u8 && b[3]
        == (x >> 24u32) as u8);
    assert((((x as u8) as u32) | ((((x >> 8u32) as u8) as u32) << 8u32) | ((((x >> 16u32) as u8)
        as u32) << 16u32) | ((((x >> 24u32) as u8) as u32) << 24u32)) == x) by (bit_vector);
}

pub proof fn lemma_u64_round_trip(x: u64)
    ensures
        read_u64(le_u64(x), 0) == x,
{
    let b = le_u64(x);
    assert(b[0] == x as u8 && b[1] == (x >> 8u64) as u8 && b[2] == (x >> 16u64) as u8 && b[3]
        == (x >> 24u64) as u8 && b[4] == (x >> 32u64) as u8 && b[5] == (x >> 40u64) as u8 && b[6]
        == (x >> 48u64) as u8 && b[7] == (x >> 56u64) as u8);
    assert((((x as u8) as u64) | ((((x >> 8u64) as u8) as u64) << 8u64) | ((((x >> 16u64) as u8)
        as u64) << 16u64) | ((((x >> 24u64) as u8) as u64) << 24u64) | ((((x >> 32u64) as u8)
        as u64) << 32u64) | ((((x >> 40u64) as u8) as u64) << 40u64) | ((((x >> 48u64) as u8)
        as u64) << 48u64) | ((((x >> 56u64) as u8) as u64) << 56u64)) == x) by (bit_vector);
}

/// Reading a value back at an offset only looks at the bytes there.
proof fn lemma_read_shift(a: Seq<u8>, b: Seq<u8>, pos: int, n: int)
    requires
        0 <= pos,
        pos + n <= a.len(),
        forall|i: int| 0 <= i < n ==> #[trigger] a[pos + i] == b[i],
        n == 4 || n == 8,
        b.len() == n,
    ensures
        n == 4 ==> read_u32(a, pos) == read_u32(b, 0),
        n == 8 ==> read_u64(a, pos) == read_u64(b, 0),
{
    assert(a[pos + 0] == b[0]);
    assert(a[pos + 1] == b[1]);
    assert(a[pos + 2] == b[2]);
    assert(a[pos + 3] == b[3]);
    if n == 8 {
        assert(a[pos + 4] == b[4]);
        assert(a[pos + 5] == b[5]);
        assert(a[pos + 6] == b[6]);
        assert(a[pos + 7] == b[7]);
    }
}

/// A header encoded at `pos` reads back as itself.
pub proof fn lemma_metadata_at(b: Seq<u8>, pos: int, m: EntryMetadata)
    requires
        0 <= pos,
        pos + ENTRY_METADATA_SIZE <= b.len(),
        b.subrange(pos, pos + ENTRY_METADATA_SIZE) == metadata_bytes(m),
    ensures
        metadata_at(b, pos) == Some(m),
{
    let h = metadata_bytes(m);
    assert forall|i: int| 0 <= i < 16 implies #[trigger] b[pos + i] == h[i] by {
        assert(b.subrange(pos, pos + 16)[i] == b[pos + i]);
    }
    lemma_read_shift(b, le_u32(m.keyByteLen), pos, 4);
    assert forall|i: int| 0 <= i < 4 implies #[trigger] b[(pos + 4) + i] == le_u32(
        m.valueByteLen,
    )[i] by {
        assert(b[pos + (4 + i)] == h[4 + i]);
    }
    assert forall|i: int| 0 <= i < 8 implies #[trigger] b[(pos + 8) + i] == le_u64(m.expiresAt)[i] by {
        assert(b[pos + (8 + i)] == h[8 + i]);
    }
    lemma_read_shift(b, le_u32(m.valueByteLen), pos + 4, 4);
    lemma_read_shift(b, le_u64(m.expiresAt), pos + 8, 8);
    lemma_u32_round_trip(m.keyByteLen);
    lemma_u32_round_trip(m.valueByteLen);
    lemma_u64_round_trip(m.expiresAt);
}

/// An encoded entry decodes to itself wherever it stands in a byte sequence,
/// and decoding resumes just after it.
pub proof fn lemma_decode_encoding_at(pre: Seq<u8>, e: EntryModel, post: Seq<u8>)
    requires
        encodable(e),
    ensures
        decode_at(pre + encoding(e) + post, pre.len() as int) == Some(
            (e, (pre.len() + encoding(e).len()) as int),
        ),
{
    let b = pre + encoding(e) + post;
    let pos = pre.len() as int;
    let m = metadata_of(e);
    assert(b.subrange(pos, pos + 16) =~= metadata_bytes(m));
    lemma_metadata_at(b, pos, m);
    let start = pos + 16;
    assert(b.subrange(start, start + e.key.len()) =~= e.key);
    assert(b.subrange(start + e.key.len(), start + e.key.len() + e.value.len()) =~= e.value);
}

/// Decoding what was encoded gives the entry back.
pub proof fn lemma_round_trip(e: EntryModel)
    requires
        encodable(e),
    ensures
        decode_at(encoding(e), 0) == Some((e, encoding(e).len() as int)),
{
    lemma_decode_encoding_at(Seq::empty(), e, Seq::empty());
    assert(Seq::<u8>::empty() + encoding(e) + Seq::<u8>::empty() =~= encoding(e));
}

fn push_u32(out: &mut Vec<u8>, x: u32)
    ensures
        final(out)@ == old(out)@ + le_u32(x),
{
    out.push(x as u8);
    out.push((x >> 8u32) as u8);
    out.push((x >> 16u32) as u8);
    out.push((x >> 24u32) as u8);
    assert(final(out)@ =~= old(out)@ + le_u32(x));
}

fn push_u64(out: &mut Vec<u8>, x: u64)
    ensures
        final(out)@ == old(out)@ + le_u64(x),
{
    out.push(x as u8);
    out.push((x >> 8u64) as u8);
    out.push((x >> 16u64) as u8);
    out.push((x >> 24u64) as u8);
    out.push((x >> 32u64) as u8);
    out.push((x >> 40u64) as u8);
    out.push((x >> 48u64) as u8);
    out.push((x >> 56u64) as u8);
    assert(final(out)@ =~= old(out)@ + le_u64(x));
}

fn get_u32(b: &[u8], pos: usize) -> (r: u32)
    requires
        pos + 4 <= b@.len(),
    ensures
        r == read_u32(b@, pos as int),
{
    (b[pos] as u32) | ((b[pos + 1] as u32) << 8u32) | ((b[pos + 2] as u32) << 16u32) | ((b[pos
        + 3] as u32) << 24u32)
}

fn get_u64(b: &[u8], pos: usize) -> (r: u64)
    requires
        pos + 8 <= b@.len(),
    ensures
        r == read_u64(b@, pos as int),
{
    (b[pos] as u64) | ((b[pos + 1] as u64) << 8u64) | ((b[pos + 2] as u64) << 16u64) | ((b[pos
        + 3] as u64) << 24u64) | ((b[pos + 4] as u64) << 32u64) | ((b[pos + 5] as u64) << 40u64)
        | ((b[pos + 6] as u64) << 48u64) | ((b[pos + 7] as u64) << 56u64)
}

impl EntryMetadata {
    /// Appends the little-endian header to the buffer.
    pub fn encode(&self, buffer: &mut bytes::BytesMut)
        ensures
            buffer_contents(*final(buffer)) == buffer_contents(*old(buffer)) + metadata_bytes(
                *self,
            ),
    {
        let mut header: Vec<u8> = Vec::with_capacity(ENTRY_METADATA_SIZE);
        push_u32(&mut header, self.keyByteLen);
        push_u32(&mut header, self.valueByteLen);
        push_u64(&mut header, self.expiresAt);
        assert(header@ =~= metadata_bytes(*self));
        buffer_extend(buffer, header.as_slice());
    }

    /// Reads the header at `pos`; `None` when fewer than its size of bytes
    /// remain there.
    pub fn decode(bytes: &[u8], pos: usize) -> (r: Option<EntryMetadata>)
        ensures
            r == metadata_at(bytes@, pos as int),
    {
        if pos > bytes.len() || bytes.len() - pos < ENTRY_METADATA_SIZE {
            None
        } else {
            Some(
                EntryMetadata {
                    keyByteLen: get_u32(bytes, pos),
                    valueByteLen: get_u32(bytes, pos + 4),
                    expiresAt: get_u64(bytes, pos + 8),
                },
            )
        }
    }
}

impl Entry {
    /// Appends the encoded entry to the buffer and returns the buffer's new
    /// length.
    pub fn encode(&self, buffer: &mut bytes::BytesMut) -> (r: usize)
        requires
            self.key@.len() <= u32::MAX,
            self.value@.len() <= u32::MAX,
        ensures
            buffer_contents(*final(buffer)) == buffer_contents(*old(buffer)) + encoding(self@),
            r as int == buffer_contents(*final(buffer)).len(),
    {
        let entryMetadata = EntryMetadata {
            keyByteLen: self.key.len() as u32,
            valueByteLen: self.value.len() as u32,
            expiresAt: self.expiresAt,
        };
        entryMetadata.encode(buffer);
        buffer_extend(buffer, self.key.as_slice());
        buffer_extend(buffer, self.value.as_slice());
        assert(buffer_contents(*buffer) =~= buffer_contents(*old(buffer)) + encoding(self@));
        buffer_len(buffer)
    }

    /// Reads the entry encoded at `pos` and returns it with the position just
    /// after it; `None` at the end-of-log header or where the bytes end first.
    pub fn decode(bytes: &[u8], pos: usize) -> (r: Option<(Entry, usize)>)
        ensures
            match decode_at(bytes@, pos as int) {
                None => r.is_none(),
                Some((e, next)) => r.is_some() && r.unwrap().0@ == e && r.unwrap().1 == next,
            },
    {
        match EntryMetadata::decode(bytes, pos) {
            None => None,
            Some(m) => {
                let n = bytes.len();
                assert(pos + ENTRY_METADATA_SIZE <= n);
                let start = pos + ENTRY_METADATA_SIZE;
                let remaining = n - start;
                if m.keyByteLen == 0 && m.valueByteLen == 0 {
                    None
                } else if (m.keyByteLen as usize) > remaining || (m.valueByteLen as usize)
                    > remaining - (m.keyByteLen as usize) {
                    None
                } else {
                    let mid = start + m.keyByteLen as usize;
                    let end = mid + m.valueByteLen as usize;
                    let key = slice_to_vec(vstd::slice::slice_subrange(bytes, start, mid));
                    let value = slice_to_vec(vstd::slice::slice_subrange(bytes, mid, end));
                    Some((Entry { key, value, expiresAt: m.expiresAt }, end))
                }
            },
        }
    }
}

} // verus!
