//! The packer: sizing policy and the state machine that assembles packs.

use crate::blob::header::{encode_header, header_bytes, le32, push_all, u32_to_le};
use crate::blob::model::{
    add_clock_post, add_payload_clock_post, add_payload_post, add_post, add_raw_clock_post,
    add_raw_post, asks_clock_for, lemma_appended_wf, lemma_sealed_wf, lemma_written_wf,
    pack_views, payload, save_post, without_size, write_header_post, FinishedPack, PackView,
    PackerView,
};
use crate::blob::BlobType;
use crate::clock::age_secs;
use crate::crypto::{hash, never_empty, CryptoKey};
use crate::id::{lemma_id_from, Id};
use crate::index::Indexer;
use crate::repo::IndexPack;
use integer_sqrt::IntegerSquareRoot;
use std::time::SystemTime;
use vstd::prelude::*;

verus! {

pub const KB: u32 = 1024;

pub const MB: u32 = 1024 * KB;

/// Default target size of a pack that holds tree blobs.
pub const DEFAULT_TREE_SIZE: u32 = 4 * MB;

/// Upper bound of every size limit, chosen so that a pack with its header
/// stays below 4 GiB.
pub const MAX_SIZE: u32 = 4076 * MB;

/// Growth factor of the size limit: the limit is this many times the square
/// root of the repository size in bytes.
pub const SIZE_GROW_FACTOR: u32 = 256;

/// Number of blobs at which a pack is saved.
pub const MAX_COUNT: u32 = 10_000;

/// Age of a pack, in seconds, at which it is saved.
pub const MAX_AGE_SECS: u64 = 300;

/// `r` is the integer square root of `n`: the largest number whose square
/// does not exceed `n`.
pub open spec fn is_floor_sqrt(n: nat, r: nat) -> bool {
    r * r <= n < (r + 1) * (r + 1)
}

/// The integer square root of `n`.
pub open spec fn floor_sqrt(n: nat) -> nat {
    choose|r: nat| is_floor_sqrt(n, r)
}

/// `x` limited to the interval from `lo` to `hi`.
pub open spec fn clamp(x: int, lo: int, hi: int) -> int {
    if x < lo {
        lo
    } else if x > hi {
        hi
    } else {
        x
    }
}

/// The size limit of a pack in a repository of `size` bytes.
pub open spec fn size_limit(size: nat, default_size: nat) -> int {
    clamp(SIZE_GROW_FACTOR * floor_sqrt(size), default_size as int, MAX_SIZE as int)
}

/// Squaring is monotone on the natural numbers.
pub proof fn lemma_square_monotone(a: nat, b: nat)
    requires
        a <= b,
    ensures
        a * a <= b * b,
{
    assert(a * a <= b * b) by (nonlinear_arith)
        requires
            0 <= a <= b,
    ;
}

/// A number has at most one integer square root.
pub proof fn lemma_floor_sqrt_unique(n: nat, r1: nat, r2: nat)
    requires
        is_floor_sqrt(n, r1),
        is_floor_sqrt(n, r2),
    ensures
        r1 == r2,
{
    if r1 < r2 {
        lemma_square_monotone(r1 + 1, r2);
    } else if r2 < r1 {
        lemma_square_monotone(r2 + 1, r1);
    }
}

/// Every number has an integer square root, and `floor_sqrt` is it.
pub proof fn lemma_floor_sqrt_exists(n: nat)
    ensures
        is_floor_sqrt(n, floor_sqrt(n)),
    decreases n,
{
    if n == 0 {
        assert(0nat * 0nat == 0 && (0nat + 1) * (0nat + 1) == 1) by (nonlinear_arith);
        assert(is_floor_sqrt(0, 0));
    } else {
        lemma_floor_sqrt_exists((n - 1) as nat);
        let r = floor_sqrt((n - 1) as nat);
        if n < (r + 1) * (r + 1) {
            assert(is_floor_sqrt(n, r));
        } else {
            assert((r + 1 + 1) * (r + 1 + 1) == (r + 1) * (r + 1) + 2 * r + 3)
                by (nonlinear_arith);
            assert(is_floor_sqrt(n, r + 1));
        }
    }
}

/// The integer square root does not decrease when its argument grows.
pub proof fn lemma_floor_sqrt_monotone(a: nat, b: nat)
    requires
        a <= b,
    ensures
        floor_sqrt(a) <= floor_sqrt(b),
{
    lemma_floor_sqrt_exists(a);
    lemma_floor_sqrt_exists(b);
    let ra = floor_sqrt(a);
    let rb = floor_sqrt(b);
    if rb < ra {
        lemma_square_monotone(rb + 1, ra);
    }
}

/// The size limit lies between the default size and `MAX_SIZE`.
pub proof fn lemma_size_limit_bounds(size: nat, default_size: nat)
    requires
        default_size <= MAX_SIZE,
    ensures
        default_size <= size_limit(size, default_size) <= MAX_SIZE,
{
}

/// The size limit does not decrease when the repository grows.
pub proof fn lemma_size_limit_monotone(size1: nat, size2: nat, default_size: nat)
    requires
        size1 <= size2,
        default_size <= MAX_SIZE,
    ensures
        size_limit(size1, default_size) <= size_limit(size2, default_size),
{
    lemma_floor_sqrt_monotone(size1, size2);
    assert(SIZE_GROW_FACTOR * floor_sqrt(size1) <= SIZE_GROW_FACTOR * floor_sqrt(size2))
        by (nonlinear_arith)
        requires
            floor_sqrt(size1) <= floor_sqrt(size2),
    ;
}

/// Calls `integer_sqrt` of the crate `integer-sqrt` on a `u64`. That function
/// computes the integer square root: the largest `r` with `r * r <= n`.
#[verifier::external_body]
fn integer_sqrt_u64(n: u64) -> (r: u64)
    ensures
        is_floor_sqrt(n as nat, r as nat),
{
    n.integer_sqrt()
}

/// Computes the size limit of a pack from the total size of the repository:
/// `SIZE_GROW_FACTOR` times the square root of `size`, but at least
/// `default_size` and at most `MAX_SIZE`.
pub fn size_limit_from_size(size: u64, default_size: u32) -> (limit: u32)
    requires
        default_size <= MAX_SIZE,
    ensures
        limit == size_limit(size as nat, default_size as nat),
{
    let root: u64 = integer_sqrt_u64(size);
    proof {
        lemma_floor_sqrt_exists(size as nat);
        lemma_floor_sqrt_unique(size as nat, root as nat, floor_sqrt(size as nat));
        if root >= 0x1_0000_0000 {
            lemma_square_monotone(0x1_0000_0000, root as nat);
        }
    }
    let grown: u64 = root * 256;
    if grown < default_size as u64 {
        default_size
    } else if grown > MAX_SIZE as u64 {
        MAX_SIZE
    } else {
        grown as u32
    }
}

/// Why the packer could not do what it was asked.
#[derive(Clone, Copy, Debug, PartialEq, Eq, Structural)]
pub enum PackError {
    /// The key failed to encrypt a blob or the header.
    Crypto,
    /// The blob could not be compressed.
    Compression,
    /// The blob or the header does not fit into a pack: a pack is shorter
    /// than 4 GiB.
    Format,
    /// The system clock has been set back since the pack was started.
    Clock,
}

/// `std::io::Error`, which compression fails with.
#[verifier::external_type_specification]
#[verifier::external_body]
pub struct ExIoError(std::io::Error);

/// What `encode_all` of the crate `zstd` makes of `data` at the given level:
/// the compressed bytes, or `None` where it fails.
pub uninterp spec fn zstd_encode_all(data: Seq<u8>, level: i32) -> Option<Seq<u8>>;

/// Calls `encode_all` of the crate `zstd`, which compresses `data` into one
/// zstd frame at the given level. The result depends on the data and the
/// level alone.
#[verifier::external_body]
fn encode_all(data: &[u8], level: i32) -> (r: Result<Vec<u8>, std::io::Error>)
    ensures
        match r {
            Ok(out) => zstd_encode_all(data@, level) == Some(out@),
            Err(_) => zstd_encode_all(data@, level) is None,
        },
{
    zstd::encode_all(data, level)
}

/// Aggregates blobs into packs. Blobs are appended to the pack under
/// construction; when it is large, full or old enough it is saved: closed
/// with its header and put with the finished packs, which wait to be taken
/// and stored.
pub struct Packer<K: CryptoKey> {
    key: K,
    blob_type: BlobType,
    file: Vec<u8>,
    size: u32,
    count: u32,
    created: SystemTime,
    index: IndexPack,
    zstd: Option<i32>,
    default_size: u32,
    total_size: u64,
    finished: Vec<FinishedPack>,
}

impl<K: CryptoKey> View for Packer<K> {
    type V = PackerView;

    closed spec fn view(&self) -> PackerView {
        PackerView {
            blob_type: self.blob_type,
            zstd: self.zstd,
            default_size: self.default_size,
            total_size: self.total_size,
            size: self.size,
            count: self.count,
            bytes: self.file@,
            blobs: self.index.blobs@,
            finished: pack_views(self.finished@),
        }
    }
}

impl<K: CryptoKey> Packer<K> {
    /// The key that the packer encrypts with.
    pub closed spec fn spec_key(&self) -> K {
        self.key
    }

    /// The reading of the system clock from which the age of the pack
    /// under construction is counted.
    pub closed spec fn spec_created(&self) -> SystemTime {
        self.created
    }

    /// The packer's counters agree with what they count.
    pub closed spec fn wf(&self) -> bool {
        &&& self@.wf()
        &&& self.index.time is None
    }

    /// The age of the pack under construction is counted from the same
    /// reading of the clock as in `before`, unless a pack has been finished
    /// since.
    pub open spec fn keeps_start(&self, before: &Self) -> bool {
        self@.finished.len() == before@.finished.len() ==> self.spec_created()
            == before.spec_created()
    }

    /// What `wf` says of the packer's state.
    pub proof fn lemma_wf(&self)
        requires
            self.wf(),
        ensures
            self@.wf(),
    {
    }

    /// A packer for blobs of the given type in a repository of `total_size`
    /// bytes, with an empty pack under construction.
    pub fn new(
        key: K,
        blob_type: BlobType,
        zstd: Option<i32>,
        default_size: u32,
        total_size: u64,
    ) -> (packer: Packer<K>)
        requires
            default_size <= MAX_SIZE,
        ensures
            packer.wf(),
            packer.spec_key() == key,
            packer@ == (PackerView {
                blob_type,
                zstd,
                default_size,
                total_size,
                size: 0,
                count: 0,
                bytes: Seq::empty(),
                blobs: Seq::empty(),
                finished: Seq::empty(),
            }),
            packer@.is_packed(),
    {
        let packer = Packer {
            key,
            blob_type,
            file: Vec::new(),
            size: 0,
            count: 0,
            created: SystemTime::now(),
            index: IndexPack::new(),
            zstd,
            default_size,
            total_size,
            finished: Vec::new(),
        };
        assert(packer@.finished =~= Seq::<PackView>::empty());
        packer
    }

    /// Bytes written to the pack under construction.
    pub fn size(&self) -> (size: u32)
        ensures
            size == self@.size,
    {
        self.size
    }

    /// Blobs added to the pack under construction.
    pub fn count(&self) -> (count: u32)
        ensures
            count == self@.count,
    {
        self.count
    }

    /// The size of the repository as the packer counts it.
    pub fn total_size(&self) -> (total_size: u64)
        ensures
            total_size == self@.total_size,
    {
        self.total_size
    }

    /// The number of finished packs that wait to be taken.
    pub fn finished_count(&self) -> (n: usize)
        ensures
            n == self@.finished.len(),
    {
        self.finished.len()
    }

    /// Sets the time at which the pack under construction counts as
    /// started.
    pub fn set_created(&mut self, created: SystemTime)
        ensures
            final(self).spec_created() == created,
            final(self)@ == old(self)@,
            final(self).spec_key() == old(self).spec_key(),
            old(self).wf() ==> final(self).wf(),
    {
        self.created = created;
    }

    /// Whether the pack under construction holds a blob with the given
    /// identifier.
    pub fn has(&self, id: &Id) -> (r: bool)
        ensures
            r == self@.has(*id),
    {
        self.index.has(id)
    }

    /// Writes `data` to the pack under construction, unless the pack would
    /// reach 4 GiB. Returns the number of bytes written.
    pub fn write_data(&mut self, data: &[u8]) -> (r: Result<u32, PackError>)
        requires
            old(self).wf(),
        ensures
            final(self).wf(),
            final(self).spec_key() == old(self).spec_key(),
            final(self).keeps_start(old(self)),
            match r {
                Ok(n) => {
                    &&& old(self)@.size + data@.len() <= u32::MAX
                    &&& n == data@.len()
                    &&& final(self)@ == old(self)@.written(data@)
                },
                Err(e) => {
                    &&& e == PackError::Format
                    &&& old(self)@.size + data@.len() > u32::MAX
                    &&& final(self)@ == old(self)@
                },
            },
    {
        if data.len() > (u32::MAX - self.size) as usize {
            return Err(PackError::Format);
        }
        let len: u32 = data.len() as u32;
        push_all(&mut self.file, data);
        self.size = self.size + len;
        assert(self@ =~= old(self)@.written(data@));
        Ok(len)
    }

    /// Writes an encrypted header and its length to the pack under
    /// construction, unless the pack would reach 4 GiB.
    pub fn write_encrypted_header(&mut self, encrypted: &[u8]) -> (r: Result<(), PackError>)
        requires
            old(self).wf(),
        ensures
            final(self).wf(),
            final(self).spec_key() == old(self).spec_key(),
            final(self).keeps_start(old(self)),
            match r {
                Ok(()) => {
                    &&& old(self)@.size + encrypted@.len() + 4 <= u32::MAX
                    &&& final(self)@ == old(self)@.with_header(encrypted@)
                },
                Err(e) => {
                    &&& e == PackError::Format
                    &&& old(self)@.size + encrypted@.len() + 4 > u32::MAX
                    &&& final(self)@ == old(self)@
                },
            },
    {
        let room: u32 = u32::MAX - self.size;
        if room < 4 || encrypted.len() > (room - 4) as usize {
            return Err(PackError::Format);
        }
        let len: u32 = encrypted.len() as u32;
        let trailer = u32_to_le(len);
        push_all(&mut self.file, encrypted);
        push_all(&mut self.file, trailer.as_slice());
        self.size = self.size + len + 4;
        assert(self@ =~= old(self)@.with_header(encrypted@));
        Ok(())
    }

    /// Writes the header of the pack under construction: the entries of its
    /// blobs, encrypted, and then the length of what was written.
    pub fn write_header(&mut self) -> (r: Result<(), PackError>)
        requires
            old(self).wf(),
        ensures
            final(self).wf(),
            final(self).spec_key() == old(self).spec_key(),
            final(self).keeps_start(old(self)),
            write_header_post(old(self).spec_key(), old(self)@, r, final(self)@),
    {
        let header = encode_header(&self.index.blobs);
        let encrypted = match self.key.encrypt_data(header.as_slice()) {
            Ok(encrypted) => encrypted,
            Err(_) => {
                return Err(PackError::Crypto);
            },
        };
        assert(self.spec_key().encrypts(header_bytes(self@.blobs), encrypted@));
        self.write_encrypted_header(encrypted.as_slice())
    }

    /// Closes the pack under construction, whose header is written, under
    /// the given name: counts its size, puts it with the finished packs and
    /// starts a new pack. `save` names the pack by the digest of its bytes.
    pub fn seal(&mut self, id: Id)
        requires
            old(self).wf(),
        ensures
            final(self).wf(),
            final(self).spec_key() == old(self).spec_key(),
            final(self)@ == old(self)@.sealed_as(id),
    {
        self.index.set_id(id);
        let packed: u64 = self.index.pack_size();
        self.total_size = self.total_size.saturating_add(packed);
        let mut index = IndexPack::new();
        std::mem::swap(&mut self.index, &mut index);
        let mut data: Vec<u8> = Vec::new();
        std::mem::swap(&mut self.file, &mut data);
        let pack = FinishedPack { index, data };
        proof {
            assert(pack@ =~= old(self)@.pack_as(id));
            assert(pack_views(self.finished@.push(pack)) =~= pack_views(self.finished@).push(
                pack@,
            ));
        }
        self.finished.push(pack);
        self.size = 0;
        self.count = 0;
        self.created = SystemTime::now();
        assert(self@ =~= old(self)@.sealed_as(id));
    }

    /// Saves the pack under construction, if anything has been written to
    /// it: writes its header, puts it with the finished packs and starts a
    /// new pack.
    pub fn save(&mut self) -> (r: Result<(), PackError>)
        requires
            old(self).wf(),
        ensures
            final(self).wf(),
            final(self).spec_key() == old(self).spec_key(),
            final(self).keeps_start(old(self)),
            save_post(old(self).spec_key(), old(self)@, r, final(self)@),
            final(self)@.finished.len() >= old(self)@.finished.len(),
    {
        if self.size == 0 {
            return Ok(());
        }
        match self.write_header() {
            Ok(()) => {},
            Err(e) => {
                return Err(e);
            },
        }
        let id = hash(self.file.as_slice());
        proof {
            lemma_id_from(id);
        }
        self.seal(id);
        Ok(())
    }

    /// Saves what is left in the pack under construction. The finished
    /// packs remain to be taken.
    pub fn finalize(&mut self) -> (r: Result<(), PackError>)
        requires
            old(self).wf(),
        ensures
            final(self).wf(),
            final(self).spec_key() == old(self).spec_key(),
            final(self).keeps_start(old(self)),
            save_post(old(self).spec_key(), old(self)@, r, final(self)@),
    {
        self.save()
    }

    /// Takes the oldest finished pack, if there is one.
    pub fn take_finished(&mut self) -> (r: Option<FinishedPack>)
        ensures
            old(self).wf() ==> final(self).wf(),
            final(self).spec_key() == old(self).spec_key(),
            final(self).spec_created() == old(self).spec_created(),
            match r {
                Some(pack) => {
                    &&& old(self)@.finished.len() > 0
                    &&& pack@ == old(self)@.finished[0]
                    &&& final(self)@ == (PackerView {
                        finished: old(self)@.finished.drop_first(),
                        ..old(self)@
                    })
                },
                None => old(self)@.finished.len() == 0 && final(self)@ == old(self)@,
            },
    {
        if self.finished.len() == 0 {
            return None;
        }
        let pack = self.finished.remove(0);
        proof {
            assert(pack_views(self.finished@) =~= pack_views(old(self).finished@).drop_first());
            assert(self@ =~= (PackerView {
                finished: old(self)@.finished.drop_first(),
                ..old(self)@
            }));
        }
        Some(pack)
    }

    /// Adds a blob that is already encrypted, without asking whether it is
    /// known, to a pack that is `age` seconds old.
    pub fn add_raw_aged(
        &mut self,
        data: &[u8],
        id: &Id,
        uncompressed_length: Option<u32>,
        size_limit: u32,
        age: u64,
    ) -> (r: Result<(), PackError>)
        requires
            old(self).wf(),
        ensures
            final(self).wf(),
            final(self).spec_key() == old(self).spec_key(),
            final(self).keeps_start(old(self)),
            add_raw_post(
                old(self).spec_key(),
                old(self)@,
                data@,
                *id,
                uncompressed_length,
                size_limit,
                age,
                r,
                final(self)@,
            ),
            final(self)@.wf(),
            old(self)@.is_laid_out() && uncompressed_length != Some(0u32)
                ==> final(self)@.is_laid_out(),
            old(self)@.is_packed() && uncompressed_length != Some(0u32) && data@.len() > 0
                ==> final(self)@.is_packed(),
    {
        if data.len() > (u32::MAX - self.size) as usize || self.count == u32::MAX {
            return Err(PackError::Format);
        }
        let offset: u32 = self.size;
        let len: u32 = match self.write_data(data) {
            Ok(len) => len,
            Err(e) => {
                return Err(e);
            },
        };
        self.index.add(*id, self.blob_type, offset, len, uncompressed_length);
        self.count = self.count + 1;
        proof {
            lemma_appended_wf(old(self)@, data@, *id, uncompressed_length);
            assert(self@ =~= old(self)@.appended(data@, *id, uncompressed_length));
        }
        if self.count >= MAX_COUNT || self.size >= size_limit || age >= MAX_AGE_SECS {
            let ghost next = self@;
            let r = self.save();
            proof {
                if r is Ok && next.size != 0 {
                    let encrypted = choose|encrypted: Seq<u8>|
                        {
                            &&& #[trigger] self.spec_key().encrypts(
                                header_bytes(next.blobs),
                                encrypted,
                            )
                            &&& next.size + encrypted.len() + 4 <= u32::MAX
                            &&& self@ == next.saved(encrypted)
                        };
                    lemma_written_wf(next, encrypted + le32(encrypted.len() as u32));
                    lemma_sealed_wf(next.with_header(encrypted));
                }
            }
            r
        } else {
            Ok(())
        }
    }

    /// Adds a blob that is already encrypted, without asking whether it is
    /// known. The age of the pack is read from the system clock where the
    /// count and the size do not decide.
    pub fn add_raw(
        &mut self,
        data: &[u8],
        id: &Id,
        uncompressed_length: Option<u32>,
        size_limit: u32,
    ) -> (r: Result<(), PackError>)
        requires
            old(self).wf(),
        ensures
            final(self).wf(),
            final(self).spec_key() == old(self).spec_key(),
            final(self).keeps_start(old(self)),
            add_raw_clock_post(
                old(self).spec_key(),
                old(self)@,
                data@,
                *id,
                uncompressed_length,
                size_limit,
                r,
                final(self)@,
            ),
            final(self)@.wf(),
            old(self)@.is_laid_out() && uncompressed_length != Some(0u32)
                ==> final(self)@.is_laid_out(),
            old(self)@.is_packed() && uncompressed_length != Some(0u32) && data@.len() > 0
                ==> final(self)@.is_packed(),
    {
        let asks_clock: bool = self.count < MAX_COUNT - 1 && self.size < size_limit
            && data.len() < (size_limit - self.size) as usize;
        let age: u64 = if asks_clock {
            match age_secs(&self.created) {
                Some(age) => age,
                None => {
                    return Err(PackError::Clock);
                },
            }
        } else {
            0
        };
        let r = self.add_raw_aged(data, id, uncompressed_length, size_limit, age);
        assert(add_raw_post(
            old(self).spec_key(),
            old(self)@,
            data@,
            *id,
            uncompressed_length,
            size_limit,
            age,
            r,
            self@,
        ));
        r
    }

    /// Encrypts a payload and adds it as a blob, without asking whether it
    /// is known. Returns the number of bytes added.
    pub fn add_payload(
        &mut self,
        plain: &[u8],
        id: &Id,
        uncompressed_length: Option<u32>,
        size_limit: u32,
    ) -> (r: Result<u64, PackError>)
        requires
            old(self).wf(),
        ensures
            final(self).wf(),
            final(self).spec_key() == old(self).spec_key(),
            final(self).keeps_start(old(self)),
            add_payload_clock_post(
                old(self).spec_key(),
                old(self)@,
                plain@,
                *id,
                uncompressed_length,
                size_limit,
                r,
                final(self)@,
            ),
            final(self)@.wf(),
            old(self)@.is_laid_out() && uncompressed_length != Some(0u32)
                ==> final(self)@.is_laid_out(),
            old(self)@.is_packed() && uncompressed_length != Some(0u32) && never_empty(
                old(self).spec_key(),
            ) ==> final(self)@.is_packed(),
    {
        let ghost key = self.spec_key();
        let ghost pre = self@;
        proof {
            self.lemma_wf();
        }
        let cipher = match self.key.encrypt_data(plain) {
            Ok(cipher) => cipher,
            Err(_) => {
                assert(add_payload_post(
                    key,
                    pre,
                    plain@,
                    *id,
                    uncompressed_length,
                    size_limit,
                    0,
                    Err(PackError::Crypto),
                    pre,
                ));
                return Err(PackError::Crypto);
            },
        };
        let added = self.add_raw(cipher.as_slice(), id, uncompressed_length, size_limit);
        let r: Result<u64, PackError> = match added {
            Ok(()) => Ok(cipher.len() as u64),
            Err(e) => Err(e),
        };
        proof {
            assert(key.encrypts(plain@, cipher@));
            if added == Err::<(), PackError>(PackError::Clock) {
                assert(asks_clock_for(key, pre, plain@, size_limit));
            } else {
                let age: u64 = choose|age: u64| #[trigger]
                    add_raw_post(
                        key,
                        pre,
                        cipher@,
                        *id,
                        uncompressed_length,
                        size_limit,
                        age,
                        added,
                        self@,
                    );
                assert(without_size(r) == added) by {
                    match added {
                        Ok(unit) => {
                            assert(unit == ());
                        },
                        Err(_) => {},
                    }
                }
                assert(key.encrypts(plain@, cipher@));
                assert(add_payload_post(
                    key,
                    pre,
                    plain@,
                    *id,
                    uncompressed_length,
                    size_limit,
                    age,
                    r,
                    self@,
                ));
            }
        }
        r
    }

    /// Adds a blob unless it is known: unless the pack under construction
    /// holds it or the index has it. `indexed` is the answer of the index to
    /// whether it has the blob. The blob is compressed where the packer
    /// compresses, and encrypted. Returns the number of bytes added, 0 for a
    /// known blob.
    pub fn add_with_sizelimit_given(
        &mut self,
        data: &[u8],
        id: &Id,
        size_limit: u32,
        indexed: bool,
    ) -> (r: Result<u64, PackError>)
        requires
            old(self).wf(),
        ensures
            final(self).wf(),
            final(self).spec_key() == old(self).spec_key(),
            final(self).keeps_start(old(self)),
            add_clock_post(
                old(self).spec_key(),
                old(self)@,
                indexed,
                data@,
                *id,
                size_limit,
                r,
                final(self)@,
            ),
            final(self)@.wf(),
            old(self)@.is_laid_out() ==> final(self)@.is_laid_out(),
            old(self)@.is_packed() && never_empty(old(self).spec_key())
                ==> final(self)@.is_packed(),
    {
        let ghost key = self.spec_key();
        let ghost pre = self@;
        proof {
            self.lemma_wf();
        }
        if indexed || self.has(id) {
            assert(add_post(key, pre, indexed, data@, *id, size_limit, 0, Ok(0), pre));
            return Ok(0);
        }
        if data.len() > u32::MAX as usize {
            assert(add_post(
                key,
                pre,
                indexed,
                data@,
                *id,
                size_limit,
                0,
                Err(PackError::Format),
                pre,
            ));
            return Err(PackError::Format);
        }
        let data_len: u32 = data.len() as u32;
        let uncompressed_length: Option<u32> = if self.zstd.is_some() && data_len != 0 {
            Some(data_len)
        } else {
            None
        };
        let r = match self.zstd {
            None => self.add_payload(data, id, uncompressed_length, size_limit),
            Some(level) => match encode_all(data, level) {
                Ok(compressed) => self.add_payload(
                    compressed.as_slice(),
                    id,
                    uncompressed_length,
                    size_limit,
                ),
                Err(_) => {
                    assert(add_post(
                        key,
                        pre,
                        indexed,
                        data@,
                        *id,
                        size_limit,
                        0,
                        Err(PackError::Compression),
                        pre,
                    ));
                    return Err(PackError::Compression);
                },
            },
        };
        proof {
            let plain = payload(data@, pre.zstd).unwrap();
            if r == Err::<u64, PackError>(PackError::Clock) {
                assert(asks_clock_for(key, pre, plain, size_limit));
            } else {
                let age: u64 = choose|age: u64| #[trigger]
                    add_payload_post(
                        key,
                        pre,
                        plain,
                        *id,
                        uncompressed_length,
                        size_limit,
                        age,
                        r,
                        self@,
                    );
                assert(add_post(key, pre, indexed, data@, *id, size_limit, age, r, self@));
            }
        }
        r
    }

    /// Adds a blob unless it is known: unless the pack under construction
    /// holds it or the index has it. The blob is compressed where the packer
    /// compresses, and encrypted. Returns the number of bytes added, 0 for a
    /// known blob.
    pub fn add_with_sizelimit(
        &mut self,
        data: &[u8],
        id: &Id,
        size_limit: u32,
        indexer: &Indexer,
    ) -> (r: Result<u64, PackError>)
        requires
            old(self).wf(),
        ensures
            final(self).wf(),
            final(self).spec_key() == old(self).spec_key(),
            final(self).keeps_start(old(self)),
            add_clock_post(
                old(self).spec_key(),
                old(self)@,
                indexer.spec_has(*id),
                data@,
                *id,
                size_limit,
                r,
                final(self)@,
            ),
            final(self)@.wf(),
            old(self)@.is_laid_out() ==> final(self)@.is_laid_out(),
            old(self)@.is_packed() && never_empty(old(self).spec_key())
                ==> final(self)@.is_packed(),
    {
        let indexed: bool = indexer.has(id);
        self.add_with_sizelimit_given(data, id, size_limit, indexed)
    }

    /// Adds a blob unless it is known, with the size limit that the size of
    /// the repository gives. `indexed` is the answer of the index to whether
    /// it has the blob. Returns the number of bytes added, 0 for a known
    /// blob.
    pub fn add_given(&mut self, data: &[u8], id: &Id, indexed: bool) -> (r: Result<
        u64,
        PackError,
    >)
        requires
            old(self).wf(),
        ensures
            final(self).wf(),
            final(self).spec_key() == old(self).spec_key(),
            final(self).keeps_start(old(self)),
            add_clock_post(
                old(self).spec_key(),
                old(self)@,
                indexed,
                data@,
                *id,
                size_limit(old(self)@.total_size as nat, old(self)@.default_size as nat) as u32,
                r,
                final(self)@,
            ),
            final(self)@.wf(),
            old(self)@.is_laid_out() ==> final(self)@.is_laid_out(),
            old(self)@.is_packed() && never_empty(old(self).spec_key())
                ==> final(self)@.is_packed(),
    {
        let size_limit: u32 = size_limit_from_size(self.total_size, self.default_size);
        self.add_with_sizelimit_given(data, id, size_limit, indexed)
    }

    /// Adds a blob unless it is known, with the size limit that the size of
    /// the repository gives. Returns the number of bytes added, 0 for a
    /// known blob.
    pub fn add(&mut self, data: &[u8], id: &Id, indexer: &Indexer) -> (r: Result<u64, PackError>)
        requires
            old(self).wf(),
        ensures
            final(self).wf(),
            final(self).spec_key() == old(self).spec_key(),
            final(self).keeps_start(old(self)),
            add_clock_post(
                old(self).spec_key(),
                old(self)@,
                indexer.spec_has(*id),
                data@,
                *id,
                size_limit(old(self)@.total_size as nat, old(self)@.default_size as nat) as u32,
                r,
                final(self)@,
            ),
            final(self)@.wf(),
            old(self)@.is_laid_out() ==> final(self)@.is_laid_out(),
            old(self)@.is_packed() && never_empty(old(self).spec_key())
                ==> final(self)@.is_packed(),
    {
        let indexed: bool = indexer.has(id);
        self.add_given(data, id, indexed)
    }
}

} // verus!
