//! The header of a pack file: one entry per blob, in pack order, followed in
//! the file by the header's length as four little-endian bytes.

use crate::blob::BlobType;
use crate::crypto::CryptoKey;
use crate::id::{id_from, lemma_id_from, lemma_id_from_bytes, lemma_id_len, Id};
use crate::repo::{
    entry_len, header_len, is_contiguous, is_contiguous_from, lemma_contiguous_first,
    lemma_contiguous_rest, lemma_total_length_front, pack_size, total_length, IndexBlob,
};
use vstd::prelude::*;
use vstd::slice::slice_subrange;

verus! {

/// The four bytes of `x`, lowest first.
pub open spec fn le32(x: u32) -> Seq<u8> {
    seq![
        (x % 256) as u8,
        (x / 256 % 256) as u8,
        (x / 65536 % 256) as u8,
        (x / 16777216) as u8,
    ]
}

/// The number that four bytes hold, lowest first.
pub open spec fn le32_value(bytes: Seq<u8>) -> int {
    bytes[0] + 256 * bytes[1] + 65536 * bytes[2] + 16777216 * bytes[3]
}

/// `le32_value` reads what `le32` writes.
pub proof fn lemma_le32_round_trip(x: u32)
    ensures
        le32(x).len() == 4,
        le32_value(le32(x)) == x,
{
}

/// `le32` writes what `le32_value` reads.
pub proof fn lemma_le32_value_bounds(bytes: Seq<u8>)
    requires
        bytes.len() == 4,
    ensures
        0 <= le32_value(bytes) <= u32::MAX,
        le32(le32_value(bytes) as u32) == bytes,
{
    let b0: int = bytes[0] as int;
    let b1: int = bytes[1] as int;
    let b2: int = bytes[2] as int;
    let b3: int = bytes[3] as int;
    let v: int = le32_value(bytes);
    assert(v == b0 + 256 * (b1 + 256 * (b2 + 256 * b3)));
    assert(v % 256 == b0 && v / 256 == b1 + 256 * (b2 + 256 * b3));
    assert((v / 256) % 256 == b1 && v / 65536 == b2 + 256 * b3);
    assert((v / 65536) % 256 == b2 && v / 16777216 == b3);
    assert(le32(v as u32) =~= bytes);
}

/// Writes `x` as four bytes, lowest first.
pub fn u32_to_le(x: u32) -> (bytes: [u8; 4])
    ensures
        bytes@ == le32(x),
{
    let bytes = [
        (x % 256) as u8,
        (x / 256 % 256) as u8,
        (x / 65536 % 256) as u8,
        (x / 16777216) as u8,
    ];
    assert(bytes@ =~= le32(x));
    bytes
}

/// Reads four bytes at `at`, lowest first.
pub fn u32_from_le(data: &[u8], at: usize) -> (x: u32)
    requires
        at + 4 <= data@.len(),
    ensures
        x == le32_value(data@.subrange(at as int, at + 4)),
{
    let b0 = data[at] as u32;
    let b1 = data[at + 1] as u32;
    let b2 = data[at + 2] as u32;
    let b3 = data[at + 3] as u32;
    b0 + 256 * b1 + 65536 * b2 + 16777216 * b3
}

/// The tag of a header entry: bit 0 tells a tree from data, bit 1 tells
/// whether the uncompressed length follows.
pub open spec fn entry_tag(blob: IndexBlob) -> u8 {
    match (blob.tpe, blob.uncompressed_length) {
        (BlobType::Data, None) => 0,
        (BlobType::Tree, None) => 1,
        (BlobType::Data, Some(_)) => 2,
        (BlobType::Tree, Some(_)) => 3,
    }
}

/// The header entry of a blob: the tag, the length in the pack, the
/// uncompressed length where it is recorded, and the identifier.
pub open spec fn entry_bytes(blob: IndexBlob) -> Seq<u8> {
    match blob.uncompressed_length {
        None => seq![entry_tag(blob)] + le32(blob.length) + blob.id@,
        Some(n) => seq![entry_tag(blob)] + le32(blob.length) + le32(n) + blob.id@,
    }
}

/// The header of a pack before encryption: the entries of its blobs in pack
/// order.
pub open spec fn header_bytes(blobs: Seq<IndexBlob>) -> Seq<u8>
    decreases blobs.len(),
{
    if blobs.len() == 0 {
        Seq::empty()
    } else {
        header_bytes(blobs.drop_last()) + entry_bytes(blobs.last())
    }
}

/// The blob that the entry at the start of `data` describes, if there is a
/// whole entry with a known tag. The offset is not part of the entry: it is
/// where the blobs before it end.
pub open spec fn parse_entry(data: Seq<u8>, offset: nat) -> Option<IndexBlob> {
    if data.len() < 1 || data[0] > 3 {
        None
    } else {
        let tpe = if data[0] % 2 == 0 {
            BlobType::Data
        } else {
            BlobType::Tree
        };
        let length = le32_value(data.subrange(1, 5)) as u32;
        if data[0] < 2 {
            if data.len() < 37 {
                None
            } else {
                Some(
                    IndexBlob {
                        id: id_from(data.subrange(5, 37)),
                        tpe,
                        offset: offset as u32,
                        length,
                        uncompressed_length: None,
                    },
                )
            }
        } else {
            if data.len() < 41 || le32_value(data.subrange(5, 9)) == 0 {
                None
            } else {
                Some(
                    IndexBlob {
                        id: id_from(data.subrange(9, 41)),
                        tpe,
                        offset: offset as u32,
                        length,
                        uncompressed_length: Some(le32_value(data.subrange(5, 9)) as u32),
                    },
                )
            }
        }
    }
}

/// The blobs that a header describes, the first of them at `offset`, or
/// `None` where `data` is not a sequence of whole entries whose blobs end
/// below 4 GiB.
pub open spec fn parse_header(data: Seq<u8>, offset: nat) -> Option<Seq<IndexBlob>>
    decreases data.len(),
{
    if data.len() == 0 {
        Some(Seq::empty())
    } else {
        match parse_entry(data, offset) {
            None => None,
            Some(blob) => {
                if offset + blob.length > u32::MAX {
                    None
                } else {
                    match parse_header(
                        data.skip(entry_len(blob) as int),
                        offset + blob.length as nat,
                    ) {
                        None => None,
                        Some(rest) => Some(seq![blob] + rest),
                    }
                }
            },
        }
    }
}

/// A pack file: the blobs, the encrypted header, and the length of the
/// encrypted header as four little-endian bytes.
pub open spec fn pack_bytes(body: Seq<u8>, encrypted_header: Seq<u8>) -> Seq<u8> {
    body + encrypted_header + le32(encrypted_header.len() as u32)
}

/// Where in a pack file the encrypted header starts and ends, as the last
/// four bytes tell it, or `None` where the file is too short for what they
/// say.
pub open spec fn header_range(pack: Seq<u8>) -> Option<(int, int)> {
    if pack.len() < 4 {
        None
    } else {
        let n = le32_value(pack.subrange(pack.len() - 4, pack.len() as int));
        if n + 4 > pack.len() {
            None
        } else {
            Some((pack.len() - 4 - n, pack.len() - 4))
        }
    }
}

/// An entry has as many bytes as `entry_len` says.
pub proof fn lemma_entry_bytes_len(blob: IndexBlob)
    ensures
        entry_bytes(blob).len() == entry_len(blob),
{
    lemma_id_len(blob.id);
}

/// A header has as many bytes as `header_len` says.
pub proof fn lemma_header_bytes_len(blobs: Seq<IndexBlob>)
    ensures
        header_bytes(blobs).len() == header_len(blobs),
    decreases blobs.len(),
{
    if blobs.len() > 0 {
        lemma_header_bytes_len(blobs.drop_last());
        lemma_entry_bytes_len(blobs.last());
    }
}

/// `pack_size` is the length of a pack whose header is written as it is:
/// encryption adds what it adds.
pub proof fn lemma_pack_size(blobs: Seq<IndexBlob>, body: Seq<u8>)
    requires
        body.len() == total_length(blobs),
        header_len(blobs) <= u32::MAX,
    ensures
        pack_bytes(body, header_bytes(blobs)).len() == pack_size(blobs),
{
    lemma_header_bytes_len(blobs);
}

/// The header of a sequence with one more blob.
pub proof fn lemma_header_bytes_push(blobs: Seq<IndexBlob>, blob: IndexBlob)
    ensures
        header_bytes(blobs.push(blob)) == header_bytes(blobs) + entry_bytes(blob),
{
    assert(blobs.push(blob).drop_last() =~= blobs);
}

/// The header in terms of its first entry and the rest.
pub proof fn lemma_header_bytes_front(blobs: Seq<IndexBlob>)
    requires
        blobs.len() > 0,
    ensures
        header_bytes(blobs) == entry_bytes(blobs[0]) + header_bytes(blobs.drop_first()),
    decreases blobs.len(),
{
    if blobs.len() == 1 {
        assert(blobs.drop_last() =~= Seq::<IndexBlob>::empty());
        assert(blobs.drop_first() =~= Seq::<IndexBlob>::empty());
        assert(header_bytes(blobs) =~= entry_bytes(blobs[0]) + header_bytes(
            blobs.drop_first(),
        ));
    } else {
        lemma_header_bytes_front(blobs.drop_last());
        assert(blobs.drop_last().drop_first() =~= blobs.drop_first().drop_last());
        assert(header_bytes(blobs) =~= entry_bytes(blobs[0]) + header_bytes(
            blobs.drop_first(),
        ));
    }
}

/// An entry that is followed by anything reads back as its blob.
pub proof fn lemma_parse_entry(blob: IndexBlob, rest: Seq<u8>)
    requires
        blob.is_encodable(),
    ensures
        parse_entry(entry_bytes(blob) + rest, blob.offset as nat) == Some(blob),
{
    lemma_id_len(blob.id);
    lemma_id_from(blob.id);
    lemma_le32_round_trip(blob.length);
    let entry = entry_bytes(blob);
    let data = entry + rest;
    assert(data[0] == entry_tag(blob));
    match blob.uncompressed_length {
        None => {
            assert(entry.len() == 37);
            assert(data.subrange(1, 5) =~= le32(blob.length));
            assert(data.subrange(5, 37) =~= blob.id@);
        },
        Some(n) => {
            lemma_le32_round_trip(n);
            assert(entry.len() == 41);
            assert(data.subrange(1, 5) =~= le32(blob.length));
            assert(data.subrange(5, 9) =~= le32(n));
            assert(data.subrange(9, 41) =~= blob.id@);
        },
    }
}

/// Encoding the blobs of a pack and decoding the result gives back the
/// blobs, in their order.
pub proof fn lemma_header_round_trip(blobs: Seq<IndexBlob>, start: nat)
    requires
        is_contiguous_from(blobs, start),
        start + total_length(blobs) <= u32::MAX,
        forall|i: int| 0 <= i < blobs.len() ==> (#[trigger] blobs[i]).is_encodable(),
    ensures
        parse_header(header_bytes(blobs), start) == Some(blobs),
    decreases blobs.len(),
{
    if blobs.len() == 0 {
        assert(blobs =~= Seq::<IndexBlob>::empty());
    } else {
        let first = blobs[0];
        let rest = blobs.drop_first();
        lemma_header_bytes_front(blobs);
        lemma_contiguous_rest(blobs, start);
        lemma_total_length_front(blobs);
        lemma_entry_bytes_len(first);
        lemma_parse_entry(first, header_bytes(rest));
        assert(first.is_encodable());
        assert forall|i: int| 0 <= i < rest.len() implies (#[trigger] rest[i]).is_encodable() by {
            assert(rest[i] == blobs[i + 1]);
        }
        lemma_header_round_trip(rest, start + first.length as nat);
        let data = header_bytes(blobs);
        assert(data.skip(entry_len(first) as int) =~= header_bytes(rest));
        assert(seq![first] + rest =~= blobs);
    }
}

/// What reads as an entry is the entry of the blob that it reads as, and
/// a header can describe that blob.
pub proof fn lemma_parsed_entry(data: Seq<u8>, offset: nat, blob: IndexBlob)
    requires
        offset <= u32::MAX,
        parse_entry(data, offset) == Some(blob),
    ensures
        entry_len(blob) <= data.len(),
        entry_bytes(blob) == data.take(entry_len(blob) as int),
        blob.is_encodable(),
        blob.offset == offset,
{
    lemma_le32_value_bounds(data.subrange(1, 5));
    if data[0] < 2 {
        lemma_id_from_bytes(data.subrange(5, 37));
        assert(entry_bytes(blob) =~= data.take(37));
    } else {
        lemma_le32_value_bounds(data.subrange(5, 9));
        lemma_id_from_bytes(data.subrange(9, 41));
        assert(entry_bytes(blob) =~= data.take(41));
    }
}

/// What decodes as a header is the header of the blobs that it decodes to:
/// encoding them gives back the bytes. The blobs lie one behind the other,
/// and a header can describe each.
pub proof fn lemma_decoded_header(data: Seq<u8>, start: nat, blobs: Seq<IndexBlob>)
    requires
        start <= u32::MAX,
        parse_header(data, start) == Some(blobs),
    ensures
        header_bytes(blobs) == data,
        is_contiguous_from(blobs, start),
        start + total_length(blobs) <= u32::MAX,
        forall|i: int| 0 <= i < blobs.len() ==> (#[trigger] blobs[i]).is_encodable(),
    decreases data.len(),
{
    if data.len() == 0 {
        assert(header_bytes(blobs) =~= data);
    } else {
        let first = parse_entry(data, start).unwrap();
        lemma_parsed_entry(data, start, first);
        let tail = data.skip(entry_len(first) as int);
        let rest = parse_header(tail, start + first.length as nat).unwrap();
        lemma_decoded_header(tail, start + first.length as nat, rest);
        assert(blobs == seq![first] + rest);
        assert(blobs[0] == first);
        assert(blobs.drop_first() =~= rest);
        lemma_header_bytes_front(blobs);
        assert(header_bytes(blobs) =~= data);
        lemma_total_length_front(blobs);
        lemma_contiguous_first(blobs, start);
        assert forall|i: int| 0 <= i < blobs.len() implies (#[trigger] blobs[i]).is_encodable() by {
            if i > 0 {
                assert(blobs[i] == rest[i - 1]);
            }
        }
    }
}

/// The last four bytes of a pack file lead to its encrypted header.
pub proof fn lemma_header_range(body: Seq<u8>, encrypted_header: Seq<u8>)
    requires
        encrypted_header.len() <= u32::MAX,
    ensures
        header_range(pack_bytes(body, encrypted_header)) == Some(
            (body.len() as int, (body.len() + encrypted_header.len()) as int),
        ),
        pack_bytes(body, encrypted_header).subrange(
            body.len() as int,
            (body.len() + encrypted_header.len()) as int,
        ) == encrypted_header,
        pack_bytes(body, encrypted_header).subrange(0, body.len() as int) == body,
{
    let pack = pack_bytes(body, encrypted_header);
    lemma_le32_round_trip(encrypted_header.len() as u32);
    assert(pack.subrange(pack.len() - 4, pack.len() as int) =~= le32(
        encrypted_header.len() as u32,
    ));
    assert(pack.subrange(body.len() as int, (body.len() + encrypted_header.len()) as int)
        =~= encrypted_header);
    assert(pack.subrange(0, body.len() as int) =~= body);
}

/// What a reader of a saved pack finds: the last four bytes lead to the
/// encrypted header, and the header, once decrypted, describes exactly the
/// blobs of the pack in the order in which they were added.
pub proof fn lemma_saved_pack_reads_back(
    blobs: Seq<IndexBlob>,
    body: Seq<u8>,
    encrypted_header: Seq<u8>,
)
    requires
        is_contiguous(blobs),
        total_length(blobs) <= u32::MAX,
        forall|i: int| 0 <= i < blobs.len() ==> (#[trigger] blobs[i]).is_encodable(),
        encrypted_header.len() <= u32::MAX,
    ensures
        header_range(pack_bytes(body, encrypted_header)) == Some(
            (body.len() as int, (body.len() + encrypted_header.len()) as int),
        ),
        pack_bytes(body, encrypted_header).subrange(
            body.len() as int,
            (body.len() + encrypted_header.len()) as int,
        ) == encrypted_header,
        parse_header(header_bytes(blobs), 0) == Some(blobs),
{
    lemma_header_range(body, encrypted_header);
    lemma_header_round_trip(blobs, 0);
}

/// Appends `bytes` to `out`.
pub fn push_all(out: &mut Vec<u8>, bytes: &[u8])
    ensures
        final(out)@ == old(out)@ + bytes@,
{
    let mut i: usize = 0;
    while i < bytes.len()
        invariant
            i <= bytes@.len(),
            out@ == old(out)@ + bytes@.take(i as int),
        decreases bytes@.len() - i,
    {
        out.push(bytes[i]);
        assert(bytes@.take(i + 1) =~= bytes@.take(i as int).push(bytes@[i as int]));
        i += 1;
    }
    assert(bytes@.take(i as int) =~= bytes@);
}

/// Appends the header entry of a blob to `out`.
pub fn encode_entry(out: &mut Vec<u8>, blob: &IndexBlob)
    ensures
        final(out)@ == old(out)@ + entry_bytes(*blob),
{
    let compressed = blob.uncompressed_length.is_some();
    let tag: u8 = match blob.tpe {
        BlobType::Data => if compressed {
            2
        } else {
            0
        },
        BlobType::Tree => if compressed {
            3
        } else {
            1
        },
    };
    out.push(tag);
    let length = u32_to_le(blob.length);
    push_all(out, length.as_slice());
    match blob.uncompressed_length {
        Some(n) => {
            let uncompressed = u32_to_le(n);
            push_all(out, uncompressed.as_slice());
        },
        None => {},
    }
    push_all(out, blob.id.0.as_slice());
    assert(out@ =~= old(out)@ + entry_bytes(*blob));
}

/// Encodes the header of a pack with the given blobs.
pub fn encode_header(blobs: &Vec<IndexBlob>) -> (out: Vec<u8>)
    ensures
        out@ == header_bytes(blobs@),
{
    let mut out: Vec<u8> = Vec::new();
    let mut i: usize = 0;
    while i < blobs.len()
        invariant
            i <= blobs@.len(),
            out@ == header_bytes(blobs@.take(i as int)),
        decreases blobs@.len() - i,
    {
        encode_entry(&mut out, &blobs[i]);
        proof {
            lemma_header_bytes_push(blobs@.take(i as int), blobs@[i as int]);
            assert(blobs@.take(i as int).push(blobs@[i as int]) =~= blobs@.take(i + 1));
        }
        i += 1;
    }
    assert(blobs@.take(i as int) =~= blobs@);
    out
}

/// Decodes the header of a pack: the blobs it describes, in pack order, with
/// the offsets that their lengths imply. `None` where `data` is no header.
pub fn decode_header(data: &[u8]) -> (r: Option<Vec<IndexBlob>>)
    ensures
        match r {
            Some(blobs) => parse_header(data@, 0) == Some(blobs@),
            None => parse_header(data@, 0) is None,
        },
{
    let mut blobs: Vec<IndexBlob> = Vec::new();
    let mut pos: usize = 0;
    let mut offset: u32 = 0;
    assert(data@.skip(0) =~= data@);
    while pos < data.len()
        invariant
            pos <= data@.len(),
            parse_header(data@, 0) == match parse_header(data@.skip(pos as int), offset as nat) {
                None => None::<Seq<IndexBlob>>,
                Some(rest) => Some(blobs@ + rest),
            },
        decreases data@.len() - pos,
    {
        let ghost tail = data@.skip(pos as int);
        let tag: u8 = data[pos];
        assert(tail[0] == tag);
        if tag > 3 {
            return None;
        }
        let entry: usize = if tag < 2 {
            37
        } else {
            41
        };
        if data.len() - pos < entry {
            return None;
        }
        let tpe = if tag % 2 == 0 {
            BlobType::Data
        } else {
            BlobType::Tree
        };
        let length = u32_from_le(data, pos + 1);
        assert(data@.subrange(pos + 1, pos + 5) =~= tail.subrange(1, 5));
        let (uncompressed_length, id) = if tag < 2 {
            assert(data@.subrange(pos + 5, pos + 37) =~= tail.subrange(5, 37));
            (None, Id::from_slice(data, pos + 5))
        } else {
            let n = u32_from_le(data, pos + 5);
            assert(data@.subrange(pos + 5, pos + 9) =~= tail.subrange(5, 9));
            if n == 0 {
                return None;
            }
            assert(data@.subrange(pos + 9, pos + 41) =~= tail.subrange(9, 41));
            (Some(n), Id::from_slice(data, pos + 9))
        };
        let blob = IndexBlob { id, tpe, offset, length, uncompressed_length };
        assert(parse_entry(tail, offset as nat) == Some(blob));
        if length > u32::MAX - offset {
            return None;
        }
        proof {
            assert(tail.skip(entry as int) =~= data@.skip(pos + entry));
            let next = parse_header(data@.skip(pos + entry), (offset + length) as nat);
            if next is Some {
                assert(blobs@ + (seq![blob] + next.unwrap()) =~= blobs@.push(blob)
                    + next.unwrap());
            }
        }
        blobs.push(blob);
        offset = offset + length;
        pos = pos + entry;
    }
    assert(blobs@ + Seq::<IndexBlob>::empty() =~= blobs@);
    Some(blobs)
}

/// Finds the encrypted header of a pack file by the length in its last four
/// bytes: where it starts and where it ends.
pub fn locate_header(pack: &[u8]) -> (r: Option<(usize, usize)>)
    ensures
        match r {
            Some((start, end)) => header_range(pack@) == Some((start as int, end as int)),
            None => header_range(pack@) is None,
        },
{
    let len = pack.len();
    if len < 4 {
        return None;
    }
    let n = u32_from_le(pack, len - 4);
    proof {
        lemma_le32_value_bounds(pack@.subrange(len - 4, len as int));
    }
    if n as u64 + 4 > len as u64 {
        return None;
    }
    Some((len - 4 - n as usize, len - 4))
}

/// Why the header of a pack file could not be read.
#[derive(Clone, Copy, Debug, PartialEq, Eq, Structural)]
pub enum HeaderError {
    /// The file is shorter than its last four bytes say its header is.
    Missing,
    /// The key failed to decrypt the header.
    Crypto,
    /// What was decrypted is no header.
    Malformed,
}

/// What `read_header` gives for a pack file: the blobs that the decrypted
/// header describes, from the part of the file that the last four bytes
/// lead to.
pub open spec fn read_header_post<K: CryptoKey>(
    key: K,
    pack: Seq<u8>,
    r: Result<Seq<IndexBlob>, HeaderError>,
) -> bool {
    let range = header_range(pack);
    if range is None {
        r == Err::<Seq<IndexBlob>, HeaderError>(HeaderError::Missing)
    } else {
        let encrypted = pack.subrange(range->Some_0.0, range->Some_0.1);
        match r {
            Ok(blobs) => is_header_of(key, encrypted, Some(blobs)),
            Err(HeaderError::Malformed) => is_header_of(key, encrypted, None),
            Err(HeaderError::Crypto) => true,
            Err(HeaderError::Missing) => false,
        }
    }
}

/// Whether `encrypted` is an encryption of something that decodes to
/// `blobs`.
pub open spec fn is_header_of<K: CryptoKey>(
    key: K,
    encrypted: Seq<u8>,
    blobs: Option<Seq<IndexBlob>>,
) -> bool {
    exists|plain: Seq<u8>| #[trigger] key.encrypts(plain, encrypted) && parse_header(plain, 0) == blobs
}

/// The result of `read_header` with the blobs as a sequence.
pub open spec fn blobs_view(r: Result<Vec<IndexBlob>, HeaderError>) -> Result<
    Seq<IndexBlob>,
    HeaderError,
> {
    match r {
        Ok(blobs) => Ok(blobs@),
        Err(e) => Err(e),
    }
}

/// Reads the blobs of a pack file from its header: finds the encrypted
/// header by the last four bytes, decrypts it and decodes its entries.
pub fn read_header<K: CryptoKey>(key: &K, pack: &[u8]) -> (r: Result<Vec<IndexBlob>, HeaderError>)
    ensures
        read_header_post(*key, pack@, blobs_view(r)),
{
    let (start, end) = match locate_header(pack) {
        Some(range) => range,
        None => {
            return Err(HeaderError::Missing);
        },
    };
    let encrypted = slice_subrange(pack, start, end);
    let plain = match key.decrypt_data(encrypted) {
        Ok(plain) => plain,
        Err(_) => {
            return Err(HeaderError::Crypto);
        },
    };
    let r = match decode_header(plain.as_slice()) {
        Some(blobs) => Ok(blobs),
        None => Err(HeaderError::Malformed),
    };
    proof {
        assert(header_range(pack@) == Some((start as int, end as int)));
        assert(key.encrypts(plain@, pack@.subrange(start as int, end as int)));
        let region = pack@.subrange(start as int, end as int);
        assert(key.encrypts(plain@, region));
        assert(is_header_of(*key, region, parse_header(plain@, 0)));
    }
    r
}

} // verus!
