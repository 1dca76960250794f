//! The packer as a state machine: its states, and what each of its
//! operations makes of a state.

use crate::blob::header::{
    header_bytes, header_range, le32, lemma_saved_pack_reads_back, pack_bytes, parse_header,
    read_header_post, HeaderError,
};
use crate::blob::packer::{
    zstd_encode_all, PackError, MAX_AGE_SECS, MAX_COUNT, MAX_SIZE,
};
use crate::blob::BlobType;
use crate::crypto::{one_plaintext, sha256, CryptoKey};
use crate::id::{id_from, Id};
use crate::index::packs_have;
use crate::repo::{
    is_contiguous, lemma_contiguous_push, lemma_total_length_push, pack_size, total_length,
    IndexBlob, IndexPack,
};
use vstd::prelude::*;

verus! {

/// A finished pack as a reader sees it.
#[verifier::ext_equal]
pub struct PackView {
    pub id: Id,
    pub blobs: Seq<IndexBlob>,
    pub time: Option<i64>,
    pub data: Seq<u8>,
}

/// A finished pack: its description for the index, and the bytes of the
/// pack file. The identifier in the description is the digest of the bytes.
#[derive(Debug)]
pub struct FinishedPack {
    pub index: IndexPack,
    pub data: Vec<u8>,
}

impl View for FinishedPack {
    type V = PackView;

    open spec fn view(&self) -> PackView {
        PackView {
            id: self.index.id,
            blobs: self.index.blobs@,
            time: self.index.time,
            data: self.data@,
        }
    }
}

/// The views of finished packs.
pub open spec fn pack_views(packs: Seq<FinishedPack>) -> Seq<PackView> {
    packs.map_values(|pack: FinishedPack| pack@)
}

/// The state of a packer.
#[verifier::ext_equal]
pub struct PackerView {
    /// The type of the blobs that the packer takes.
    pub blob_type: BlobType,
    /// The level at which blobs are compressed, if they are.
    pub zstd: Option<i32>,
    /// The size limit of a pack in an empty repository.
    pub default_size: u32,
    /// The size of the repository, which grows with each saved pack.
    pub total_size: u64,
    /// Bytes written to the pack under construction.
    pub size: u32,
    /// Blobs added to the pack under construction.
    pub count: u32,
    /// The pack under construction.
    pub bytes: Seq<u8>,
    /// The blobs of the pack under construction, in the order in which they
    /// were added.
    pub blobs: Seq<IndexBlob>,
    /// The packs that were saved and not yet taken, oldest first.
    pub finished: Seq<PackView>,
}

impl PackerView {
    /// The counters agree with what they count.
    pub open spec fn wf(self) -> bool {
        &&& self.size == self.bytes.len()
        &&& self.count == self.blobs.len()
        &&& total_length(self.blobs) <= self.size
        &&& self.default_size <= MAX_SIZE
    }

    /// The pack under construction consists of its blobs and nothing else:
    /// they fill it without gaps and without overlap, and a header can
    /// describe each of them.
    pub open spec fn is_laid_out(self) -> bool {
        &&& is_contiguous(self.blobs)
        &&& total_length(self.blobs) == self.size
        &&& forall|i: int|
            0 <= i < self.blobs.len() ==> (#[trigger] self.blobs[i]).is_encodable()
    }

    /// The pack under construction consists of its blobs, and each of them
    /// is well formed: none is empty.
    pub open spec fn is_packed(self) -> bool {
        &&& self.is_laid_out()
        &&& forall|i: int| 0 <= i < self.blobs.len() ==> (#[trigger] self.blobs[i]).wf()
    }

    /// Whether the clock decides if the pack is saved once `len` more
    /// bytes are added as a blob: neither the count nor the size does.
    pub open spec fn asks_clock(self, len: nat, size_limit: u32) -> bool {
        self.count + 1 < MAX_COUNT && self.size + len < size_limit
    }

    /// Whether the pack under construction holds a blob with the given
    /// identifier.
    pub open spec fn has(self, id: Id) -> bool {
        exists|i: int| 0 <= i < self.blobs.len() && (#[trigger] self.blobs[i]).id == id
    }

    /// The state with `data` written to the pack.
    pub open spec fn written(self, data: Seq<u8>) -> PackerView {
        PackerView {
            bytes: self.bytes + data,
            size: (self.size + data.len()) as u32,
            ..self
        }
    }

    /// The description of a blob with the given data that is added next.
    pub open spec fn next_blob(self, data: Seq<u8>, id: Id, uncompressed_length: Option<u32>)
        -> IndexBlob {
        IndexBlob {
            id,
            tpe: self.blob_type,
            offset: self.size,
            length: data.len() as u32,
            uncompressed_length,
        }
    }

    /// The state with one more blob at the end of the pack.
    pub open spec fn appended(self, data: Seq<u8>, id: Id, uncompressed_length: Option<u32>)
        -> PackerView {
        PackerView {
            blobs: self.blobs.push(self.next_blob(data, id, uncompressed_length)),
            count: (self.count + 1) as u32,
            ..self.written(data)
        }
    }

    /// Whether the pack is to be saved: it holds `MAX_COUNT` blobs, it has
    /// reached the size limit, or it is `MAX_AGE_SECS` seconds old.
    pub open spec fn triggers(self, size_limit: u32, age: u64) -> bool {
        self.count >= MAX_COUNT || self.size >= size_limit || age >= MAX_AGE_SECS
    }

    /// The state with the encrypted header and its length written to the
    /// pack.
    pub open spec fn with_header(self, encrypted_header: Seq<u8>) -> PackerView {
        self.written(encrypted_header + le32(encrypted_header.len() as u32))
    }

    /// The pack that is made of the state once its header is written,
    /// under the given name.
    pub open spec fn pack_as(self, id: Id) -> PackView {
        PackView { id, blobs: self.blobs, time: None, data: self.bytes }
    }

    /// The pack that is made of the state once its header is written: its
    /// identifier is the digest of all its bytes.
    pub open spec fn pack(self) -> PackView {
        self.pack_as(id_from(sha256(self.bytes)))
    }

    /// The repository size once the pack under construction is counted.
    pub open spec fn grown_size(self) -> u64 {
        if self.total_size + pack_size(self.blobs) > u64::MAX {
            u64::MAX
        } else {
            (self.total_size + pack_size(self.blobs)) as u64
        }
    }

    /// The state after the pack, whose header is written, has been put with
    /// the finished packs under the given name and a new one has been
    /// started.
    pub open spec fn sealed_as(self, id: Id) -> PackerView {
        PackerView {
            total_size: self.grown_size(),
            size: 0,
            count: 0,
            bytes: Seq::empty(),
            blobs: Seq::empty(),
            finished: self.finished.push(self.pack_as(id)),
            ..self
        }
    }

    /// The state after the pack, whose header is written, has been put with
    /// the finished packs and a new one has been started.
    pub open spec fn sealed(self) -> PackerView {
        self.sealed_as(id_from(sha256(self.bytes)))
    }

    /// The state after the pack has been saved with the given encrypted
    /// header.
    pub open spec fn saved(self, encrypted_header: Seq<u8>) -> PackerView {
        self.with_header(encrypted_header).sealed()
    }
}

/// What `write_header` does: the header of the blobs is encrypted and
/// written with its length, unless the key fails or the pack would reach
/// 4 GiB.
pub open spec fn write_header_post<K: CryptoKey>(
    key: K,
    pre: PackerView,
    r: Result<(), PackError>,
    post: PackerView,
) -> bool {
    match r {
        Ok(()) => exists|encrypted: Seq<u8>|
            {
                &&& #[trigger] key.encrypts(header_bytes(pre.blobs), encrypted)
                &&& pre.size + encrypted.len() + 4 <= u32::MAX
                &&& post == pre.with_header(encrypted)
            },
        Err(PackError::Crypto) => post == pre,
        Err(PackError::Format) => post == pre && exists|encrypted: Seq<u8>|
            {
                &&& #[trigger] key.encrypts(header_bytes(pre.blobs), encrypted)
                &&& pre.size + encrypted.len() + 4 > u32::MAX
            },
        Err(_) => false,
    }
}

/// What `save` does: nothing where nothing has been written; else the
/// header is written and the pack is put with the finished packs, unless
/// the header could not be written.
pub open spec fn save_post<K: CryptoKey>(
    key: K,
    pre: PackerView,
    r: Result<(), PackError>,
    post: PackerView,
) -> bool {
    if pre.size == 0 {
        r == Ok::<(), PackError>(()) && post == pre
    } else {
        match r {
            Ok(()) => exists|encrypted: Seq<u8>|
                {
                    &&& #[trigger] key.encrypts(header_bytes(pre.blobs), encrypted)
                    &&& pre.size + encrypted.len() + 4 <= u32::MAX
                    &&& post == pre.saved(encrypted)
                },
            Err(_) => write_header_post(key, pre, r, post),
        }
    }
}

/// What `add_raw` does when the pack is `age` seconds old: the blob is
/// appended, and the pack is saved where that triggers it. A blob that does
/// not fit is refused.
pub open spec fn add_raw_post<K: CryptoKey>(
    key: K,
    pre: PackerView,
    data: Seq<u8>,
    id: Id,
    uncompressed_length: Option<u32>,
    size_limit: u32,
    age: u64,
    r: Result<(), PackError>,
    post: PackerView,
) -> bool {
    if pre.size + data.len() > u32::MAX || pre.count == u32::MAX {
        r == Err::<(), PackError>(PackError::Format) && post == pre
    } else {
        let next = pre.appended(data, id, uncompressed_length);
        if next.triggers(size_limit, age) {
            save_post(key, next, r, post)
        } else {
            r == Ok::<(), PackError>(()) && post == next
        }
    }
}

/// What is encrypted of a blob: the blob itself, or its compressed form.
/// `None` where compression fails.
pub open spec fn payload(data: Seq<u8>, zstd: Option<i32>) -> Option<Seq<u8>> {
    match zstd {
        None => Some(data),
        Some(level) => zstd_encode_all(data, level),
    }
}

/// The uncompressed length that is recorded for a blob: its length where it
/// is compressed and not empty.
pub open spec fn recorded_length(data: Seq<u8>, zstd: Option<i32>) -> Option<u32> {
    if zstd is Some && data.len() != 0 {
        Some(data.len() as u32)
    } else {
        None
    }
}

/// The result of `add_raw` for a result of `add`.
pub open spec fn without_size(r: Result<u64, PackError>) -> Result<(), PackError> {
    match r {
        Ok(_) => Ok(()),
        Err(e) => Err(e),
    }
}

/// What `add_payload` does when the pack is `age` seconds old: the payload
/// is encrypted and added as `add_raw` adds it, unless the key fails. The
/// result is the length of what was added.
pub open spec fn add_payload_post<K: CryptoKey>(
    key: K,
    pre: PackerView,
    plain: Seq<u8>,
    id: Id,
    uncompressed_length: Option<u32>,
    size_limit: u32,
    age: u64,
    r: Result<u64, PackError>,
    post: PackerView,
) -> bool {
    ||| r == Err::<u64, PackError>(PackError::Crypto) && post == pre
    ||| exists|cipher: Seq<u8>|
        {
            &&& #[trigger] key.encrypts(plain, cipher)
            &&& r matches Ok(n) ==> n == cipher.len()
            &&& add_raw_post(
                key,
                pre,
                cipher,
                id,
                uncompressed_length,
                size_limit,
                age,
                without_size(r),
                post,
            )
        }
}

/// What `add` does when the pack is `age` seconds old. A blob that the pack
/// under construction holds, or that the index knows, is not added: the
/// result is 0 and nothing changes. Any other blob is compressed where the
/// packer compresses, encrypted, and added as `add_raw` adds it; the result
/// is the length of what was encrypted.
pub open spec fn add_post<K: CryptoKey>(
    key: K,
    pre: PackerView,
    indexed: bool,
    data: Seq<u8>,
    id: Id,
    size_limit: u32,
    age: u64,
    r: Result<u64, PackError>,
    post: PackerView,
) -> bool {
    if pre.has(id) || indexed {
        r == Ok::<u64, PackError>(0) && post == pre
    } else if data.len() > u32::MAX {
        r == Err::<u64, PackError>(PackError::Format) && post == pre
    } else {
        match payload(data, pre.zstd) {
            None => r == Err::<u64, PackError>(PackError::Compression) && post == pre,
            Some(plain) => add_payload_post(
                key,
                pre,
                plain,
                id,
                recorded_length(data, pre.zstd),
                size_limit,
                age,
                r,
                post,
            ),
        }
    }
}

/// What `add_raw` does: what `add_raw_post` says for the age that the system
/// clock gives. The clock is asked only where neither the count nor the size
/// decides; where it has been set back, nothing changes.
pub open spec fn add_raw_clock_post<K: CryptoKey>(
    key: K,
    pre: PackerView,
    data: Seq<u8>,
    id: Id,
    uncompressed_length: Option<u32>,
    size_limit: u32,
    r: Result<(), PackError>,
    post: PackerView,
) -> bool {
    ||| {
        &&& r == Err::<(), PackError>(PackError::Clock)
        &&& post == pre
        &&& pre.asks_clock(data.len(), size_limit)
    }
    ||| exists|age: u64| #[trigger]
        add_raw_post(key, pre, data, id, uncompressed_length, size_limit, age, r, post)
}

/// The key has a ciphertext of `plain` with which the clock decides whether
/// the pack is saved.
pub open spec fn asks_clock_for<K: CryptoKey>(
    key: K,
    pre: PackerView,
    plain: Seq<u8>,
    size_limit: u32,
) -> bool {
    exists|cipher: Seq<u8>| #[trigger]
        key.encrypts(plain, cipher) && pre.asks_clock(cipher.len(), size_limit)
}

/// What `add` does: what `add_post` says for the age that the system clock
/// gives. The clock is asked only for a blob that is new, is not too long,
/// was compressed and encrypted, and with which neither the count nor the
/// size decides; where it has been set back, nothing changes.
pub open spec fn add_clock_post<K: CryptoKey>(
    key: K,
    pre: PackerView,
    indexed: bool,
    data: Seq<u8>,
    id: Id,
    size_limit: u32,
    r: Result<u64, PackError>,
    post: PackerView,
) -> bool {
    ||| {
        &&& r == Err::<u64, PackError>(PackError::Clock)
        &&& post == pre
        &&& !pre.has(id)
        &&& !indexed
        &&& data.len() <= u32::MAX
        &&& payload(data, pre.zstd) matches Some(plain)
        &&& asks_clock_for(key, pre, plain, size_limit)
    }
    ||| exists|age: u64| #[trigger] add_post(key, pre, indexed, data, id, size_limit, age, r, post)
}

/// What `add_payload` does: what `add_payload_post` says for the age that
/// the system clock gives. The clock is asked only once the payload is
/// encrypted, and where neither the count nor the size decides; where it has
/// been set back, nothing changes.
pub open spec fn add_payload_clock_post<K: CryptoKey>(
    key: K,
    pre: PackerView,
    plain: Seq<u8>,
    id: Id,
    uncompressed_length: Option<u32>,
    size_limit: u32,
    r: Result<u64, PackError>,
    post: PackerView,
) -> bool {
    ||| {
        &&& r == Err::<u64, PackError>(PackError::Clock)
        &&& post == pre
        &&& asks_clock_for(key, pre, plain, size_limit)
    }
    ||| exists|age: u64| #[trigger]
        add_payload_post(key, pre, plain, id, uncompressed_length, size_limit, age, r, post)
}

/// Writing keeps the counters in agreement with what they count.
pub proof fn lemma_written_wf(pre: PackerView, data: Seq<u8>)
    requires
        pre.wf(),
        pre.size + data.len() <= u32::MAX,
    ensures
        pre.written(data).wf(),
{
}

/// Appending a blob keeps the counters in agreement with what they count.
/// A pack that consists of its blobs still does so, and its blobs are still
/// well formed if the new one is not empty.
pub proof fn lemma_appended_wf(
    pre: PackerView,
    data: Seq<u8>,
    id: Id,
    uncompressed_length: Option<u32>,
)
    requires
        pre.wf(),
        pre.size + data.len() <= u32::MAX,
        pre.count < u32::MAX,
    ensures
        pre.appended(data, id, uncompressed_length).wf(),
        pre.appended(data, id, uncompressed_length).has(id),
        pre.is_laid_out() && uncompressed_length != Some(0u32) ==> pre.appended(
            data,
            id,
            uncompressed_length,
        ).is_laid_out(),
        pre.is_packed() && uncompressed_length != Some(0u32) && data.len() > 0 ==> pre.appended(
            data,
            id,
            uncompressed_length,
        ).is_packed(),
{
    let blob = pre.next_blob(data, id, uncompressed_length);
    let next = pre.appended(data, id, uncompressed_length);
    lemma_total_length_push(pre.blobs, blob);
    assert(next.blobs[pre.blobs.len() as int].id == id);
    if pre.is_laid_out() && uncompressed_length != Some(0u32) {
        lemma_contiguous_push(pre.blobs, blob);
        assert forall|i: int| 0 <= i < next.blobs.len() implies (
        #[trigger] next.blobs[i]).is_encodable() by {
            if i < pre.blobs.len() {
                assert(next.blobs[i] == pre.blobs[i]);
            }
        }
        if pre.is_packed() && data.len() > 0 {
            assert forall|i: int| 0 <= i < next.blobs.len() implies (
            #[trigger] next.blobs[i]).wf() by {
                if i < pre.blobs.len() {
                    assert(next.blobs[i] == pre.blobs[i]);
                }
            }
        }
    }
}

/// After a save the counters agree with what they count, and the new pack
/// consists of its blobs: it is empty.
pub proof fn lemma_sealed_wf(pre: PackerView)
    requires
        pre.wf(),
    ensures
        pre.sealed().wf(),
        pre.sealed().is_packed(),
{
}

/// A blob that was added is held afterwards: the index knew it, or the pack
/// under construction holds it, or the pack that the call finished holds it.
pub proof fn lemma_added_blob_is_held<K: CryptoKey>(
    key: K,
    pre: PackerView,
    indexed: bool,
    data: Seq<u8>,
    id: Id,
    size_limit: u32,
    n: u64,
    post: PackerView,
)
    requires
        pre.wf(),
        add_clock_post(key, pre, indexed, data, id, size_limit, Ok(n), post),
    ensures
        post.wf(),
        post.finished.len() == pre.finished.len() || post.finished.len() == pre.finished.len()
            + 1,
        post.finished.take(pre.finished.len() as int) == pre.finished,
        indexed || post.has(id) || (post.finished.len() == pre.finished.len() + 1 && exists|
            i: int,
        |
            0 <= i < post.finished.last().blobs.len() && (
            #[trigger] post.finished.last().blobs[i]).id == id),
{
    let age = choose|age: u64| #[trigger]
        add_post(key, pre, indexed, data, id, size_limit, age, Ok(n), post);
    assert(pre.finished.take(pre.finished.len() as int) =~= pre.finished);
    if !(pre.has(id) || indexed) {
        let plain = payload(data, pre.zstd).unwrap();
        let cipher = choose|cipher: Seq<u8>|
            {
                &&& #[trigger] key.encrypts(plain, cipher)
                &&& n == cipher.len()
                &&& add_raw_post(
                    key,
                    pre,
                    cipher,
                    id,
                    recorded_length(data, pre.zstd),
                    size_limit,
                    age,
                    without_size(Ok(n)),
                    post,
                )
            };
        let next = pre.appended(cipher, id, recorded_length(data, pre.zstd));
        lemma_appended_wf(pre, cipher, id, recorded_length(data, pre.zstd));
        if next.triggers(size_limit, age) && next.size != 0 {
            let encrypted = choose|encrypted: Seq<u8>|
                {
                    &&& #[trigger] key.encrypts(header_bytes(next.blobs), encrypted)
                    &&& next.size + encrypted.len() + 4 <= u32::MAX
                    &&& post == next.saved(encrypted)
                };
            lemma_written_wf(next, encrypted + le32(encrypted.len() as u32));
            lemma_sealed_wf(next.with_header(encrypted));
            assert(post.finished.last().blobs == next.blobs);
            assert(next.blobs[pre.blobs.len() as int].id == id);
            assert(post.finished.take(pre.finished.len() as int) =~= pre.finished);
        }
    }
}

/// A blob that is presented a second time is not added again: the second
/// `add` returns 0 and changes nothing. This holds once the index has been
/// given the pack that the first `add` finished, if it finished one; until
/// then the blob is in neither place where `add` looks.
pub proof fn lemma_second_add_returns_zero<K: CryptoKey>(
    key: K,
    first: PackerView,
    index_at_first: Seq<IndexPack>,
    data: Seq<u8>,
    id: Id,
    size_limit: u32,
    n: u64,
    second: PackerView,
    index_at_second: Seq<IndexPack>,
    data_again: Seq<u8>,
    size_limit_again: u32,
    r: Result<u64, PackError>,
    last: PackerView,
)
    requires
        first.wf(),
        add_clock_post(key, first, packs_have(index_at_first, id), data, id, size_limit, Ok(n), second),
        packs_have(index_at_first, id) ==> packs_have(index_at_second, id),
        second.finished.len() > first.finished.len() ==> exists|j: int|
            0 <= j < index_at_second.len() && (#[trigger] index_at_second[j]).blobs@
                == second.finished.last().blobs,
        add_clock_post(
            key,
            second,
            packs_have(index_at_second, id),
            data_again,
            id,
            size_limit_again,
            r,
            last,
        ),
    ensures
        r == Ok::<u64, PackError>(0),
        last == second,
{
    lemma_added_blob_is_held(
        key,
        first,
        packs_have(index_at_first, id),
        data,
        id,
        size_limit,
        n,
        second,
    );
    if !packs_have(index_at_first, id) && !second.has(id) {
        let j = choose|j: int|
            0 <= j < index_at_second.len() && (#[trigger] index_at_second[j]).blobs@
                == second.finished.last().blobs;
        let i = choose|i: int|
            0 <= i < second.finished.last().blobs.len() && (
            #[trigger] second.finished.last().blobs[i]).id == id;
        assert(index_at_second[j].blobs@[i].id == id);
        assert(index_at_second[j].spec_has(id));
    }
    assert(second.has(id) || packs_have(index_at_second, id));
}

/// The bytes, the blobs and the name of a saved pack: the bytes are those of
/// the pack under construction, the encrypted header and its length; the
/// blobs are those of the pack under construction; the identifier is the
/// digest of all the bytes.
pub proof fn lemma_saved_pack(pre: PackerView, encrypted_header: Seq<u8>)
    ensures
        pre.saved(encrypted_header).finished.last().data == pack_bytes(
            pre.bytes,
            encrypted_header,
        ),
        pre.saved(encrypted_header).finished.last().blobs == pre.blobs,
        pre.saved(encrypted_header).finished.last().id == id_from(
            sha256(pack_bytes(pre.bytes, encrypted_header)),
        ),
{
    assert(pre.with_header(encrypted_header).bytes =~= pack_bytes(pre.bytes, encrypted_header));
}

/// A saved pack describes itself. In the pack that is saved from a pack
/// under construction that consists of its blobs, the last four bytes lead
/// to the encrypted header, which lies behind the blobs; and the header that
/// was encrypted decodes to the blobs of the pack, in the order in which
/// they were added, each at the offset at which it lies.
pub proof fn lemma_saved_pack_describes_itself(pre: PackerView, encrypted_header: Seq<u8>)
    requires
        pre.wf(),
        pre.is_laid_out(),
        pre.size + encrypted_header.len() + 4 <= u32::MAX,
    ensures
        header_range(pre.saved(encrypted_header).finished.last().data) == Some(
            (pre.size as int, pre.size + encrypted_header.len()),
        ),
        pre.saved(encrypted_header).finished.last().data.subrange(
            pre.size as int,
            pre.size + encrypted_header.len(),
        ) == encrypted_header,
        pre.saved(encrypted_header).finished.last().data.subrange(0, pre.size as int)
            == pre.bytes,
        parse_header(header_bytes(pre.blobs), 0) == Some(
            pre.saved(encrypted_header).finished.last().blobs,
        ),
{
    lemma_saved_pack(pre, encrypted_header);
    lemma_saved_pack_reads_back(pre.blobs, pre.bytes, encrypted_header);
}

/// Reading the header of a saved pack gives back its blobs, in the order in
/// which they were added, where the key tells from a ciphertext what was
/// encrypted: with a key of which no ciphertext belongs to two plaintexts,
/// `read_header` finds the header and either fails to decrypt it or returns
/// exactly the blobs of the pack.
pub proof fn lemma_read_header_of_saved_pack<K: CryptoKey>(
    key: K,
    pre: PackerView,
    encrypted_header: Seq<u8>,
    r: Result<Seq<IndexBlob>, HeaderError>,
)
    requires
        pre.wf(),
        pre.is_laid_out(),
        pre.size + encrypted_header.len() + 4 <= u32::MAX,
        key.encrypts(header_bytes(pre.blobs), encrypted_header),
        one_plaintext(key),
        read_header_post(key, pre.saved(encrypted_header).finished.last().data, r),
    ensures
        r matches Ok(blobs) ==> blobs == pre.blobs,
        r is Ok || r == Err::<Seq<IndexBlob>, HeaderError>(HeaderError::Crypto),
{
    lemma_saved_pack_describes_itself(pre, encrypted_header);
}

/// A pack that is saved from a pack under construction whose blobs are well
/// formed is well formed: its blobs partition its body, which is shorter
/// than 4 GiB, and none of them is empty.
pub proof fn lemma_saved_pack_is_well_formed(pre: PackerView, encrypted_header: Seq<u8>)
    requires
        pre.wf(),
        pre.is_packed(),
    ensures
        is_contiguous(pre.saved(encrypted_header).finished.last().blobs),
        total_length(pre.saved(encrypted_header).finished.last().blobs) <= u32::MAX,
        forall|i: int|
            0 <= i < pre.saved(encrypted_header).finished.last().blobs.len() ==> (
            #[trigger] pre.saved(encrypted_header).finished.last().blobs[i]).wf(),
{
}

} // verus!
