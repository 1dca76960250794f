//! The repacker: blobs of existing packs are packed anew.

use crate::blob::model::{
    add_clock_post, add_raw_clock_post, save_post, without_size, FinishedPack, PackerView,
};
use crate::blob::packer::{size_limit, size_limit_from_size, PackError, Packer, MAX_SIZE};
use crate::blob::BlobType;
use crate::crypto::{never_empty, CryptoKey};
use crate::index::Indexer;
use crate::repo::IndexBlob;
use vstd::prelude::*;

verus! {

/// Repacks blobs of existing packs into new packs, with a size limit that
/// is computed once from the size of the repository.
pub struct Repacker<K: CryptoKey> {
    packer: Packer<K>,
    size_limit: u32,
}

impl<K: CryptoKey> View for Repacker<K> {
    type V = PackerView;

    closed spec fn view(&self) -> PackerView {
        self.packer@
    }
}

impl<K: CryptoKey> Repacker<K> {
    /// The key that the repacker encrypts with.
    pub closed spec fn spec_key(&self) -> K {
        self.packer.spec_key()
    }

    /// The size limit of the packs that the repacker makes.
    pub closed spec fn spec_size_limit(&self) -> u32 {
        self.size_limit
    }

    /// The repacker's counters agree with what they count.
    pub closed spec fn wf(&self) -> bool {
        self.packer.wf()
    }

    /// What `wf` says of the repacker's state.
    pub proof fn lemma_wf(&self)
        requires
            self.wf(),
        ensures
            self@.wf(),
    {
        self.packer.lemma_wf();
    }

    /// The size limit of a pack in a repository of `size` bytes.
    pub fn size_limit_from_size(size: u64, default_size: u32) -> (limit: u32)
        requires
            default_size <= MAX_SIZE,
        ensures
            limit == size_limit(size as nat, default_size as nat),
    {
        size_limit_from_size(size, default_size)
    }

    /// A repacker for blobs of the given type in a repository of
    /// `total_size` bytes, with an empty pack under construction.
    pub fn new(
        key: K,
        blob_type: BlobType,
        zstd: Option<i32>,
        default_size: u32,
        total_size: u64,
    ) -> (repacker: Repacker<K>)
        requires
            default_size <= MAX_SIZE,
        ensures
            repacker.wf(),
            repacker.spec_key() == key,
            repacker.spec_size_limit() == size_limit(total_size as nat, default_size as nat),
            repacker@ == (PackerView {
                blob_type,
                zstd,
                default_size: 0,
                total_size: 0,
                size: 0,
                count: 0,
                bytes: Seq::empty(),
                blobs: Seq::empty(),
                finished: Seq::empty(),
            }),
            repacker@.is_packed(),
    {
        let packer = Packer::new(key, blob_type, zstd, 0, 0);
        let size_limit: u32 = Self::size_limit_from_size(total_size, default_size);
        Repacker { packer, size_limit }
    }

    /// The size limit of the packs that the repacker makes.
    pub fn size_limit(&self) -> (limit: u32)
        ensures
            limit == self.spec_size_limit(),
    {
        self.size_limit
    }

    /// Adds a blob as it was read from its pack, encrypted as it is.
    pub fn add_fast(&mut self, data: &[u8], blob: &IndexBlob) -> (r: Result<(), PackError>)
        requires
            old(self).wf(),
        ensures
            final(self).wf(),
            final(self).spec_key() == old(self).spec_key(),
            final(self).spec_size_limit() == old(self).spec_size_limit(),
            add_raw_clock_post(
                old(self).spec_key(),
                old(self)@,
                data@,
                blob.id,
                blob.uncompressed_length,
                old(self).spec_size_limit(),
                r,
                final(self)@,
            ),
            old(self)@.is_laid_out() && blob.is_encodable() ==> final(self)@.is_laid_out(),
            old(self)@.is_packed() && blob.is_encodable() && data@.len() > 0
                ==> final(self)@.is_packed(),
    {
        self.packer.add_raw(data, &blob.id, blob.uncompressed_length, self.size_limit)
    }

    /// Adds a blob that was read from its pack and decrypted, unless it is
    /// known: it is compressed where the repacker compresses, and encrypted
    /// anew. `indexed` is the answer of the index to whether it has the
    /// blob.
    pub fn add_given(&mut self, data: &[u8], blob: &IndexBlob, indexed: bool) -> (r: Result<
        (),
        PackError,
    >)
        requires
            old(self).wf(),
        ensures
            final(self).wf(),
            final(self).spec_key() == old(self).spec_key(),
            final(self).spec_size_limit() == old(self).spec_size_limit(),
            exists|added: Result<u64, PackError>|
                {
                    &&& #[trigger] without_size(added) == r
                    &&& add_clock_post(
                        old(self).spec_key(),
                        old(self)@,
                        indexed,
                        data@,
                        blob.id,
                        old(self).spec_size_limit(),
                        added,
                        final(self)@,
                    )
                },
            old(self)@.is_laid_out() ==> final(self)@.is_laid_out(),
            old(self)@.is_packed() && never_empty(old(self).spec_key())
                ==> final(self)@.is_packed(),
    {
        let added = self.packer.add_with_sizelimit_given(
            data,
            &blob.id,
            self.size_limit,
            indexed,
        );
        let r: Result<(), PackError> = match added {
            Ok(_) => Ok(()),
            Err(e) => Err(e),
        };
        assert(without_size(added) == r);
        r
    }

    /// Adds a blob that was read from its pack and decrypted, unless it is
    /// known: it is compressed where the repacker compresses, and encrypted
    /// anew.
    pub fn add(&mut self, data: &[u8], blob: &IndexBlob, indexer: &Indexer) -> (r: Result<
        (),
        PackError,
    >)
        requires
            old(self).wf(),
        ensures
            final(self).wf(),
            final(self).spec_key() == old(self).spec_key(),
            final(self).spec_size_limit() == old(self).spec_size_limit(),
            exists|added: Result<u64, PackError>|
                {
                    &&& #[trigger] without_size(added) == r
                    &&& add_clock_post(
                        old(self).spec_key(),
                        old(self)@,
                        indexer.spec_has(blob.id),
                        data@,
                        blob.id,
                        old(self).spec_size_limit(),
                        added,
                        final(self)@,
                    )
                },
            old(self)@.is_laid_out() ==> final(self)@.is_laid_out(),
            old(self)@.is_packed() && never_empty(old(self).spec_key())
                ==> final(self)@.is_packed(),
    {
        let indexed: bool = indexer.has(&blob.id);
        self.add_given(data, blob, indexed)
    }

    /// Saves what is left in the pack under construction. The finished
    /// packs remain to be taken.
    pub fn finalize(&mut self) -> (r: Result<(), PackError>)
        requires
            old(self).wf(),
        ensures
            final(self).wf(),
            final(self).spec_key() == old(self).spec_key(),
            final(self).spec_size_limit() == old(self).spec_size_limit(),
            save_post(old(self).spec_key(), old(self)@, r, final(self)@),
    {
        self.packer.finalize()
    }

    /// Takes the oldest finished pack, if there is one.
    pub fn take_finished(&mut self) -> (r: Option<FinishedPack>)
        ensures
            old(self).wf() ==> final(self).wf(),
            final(self).spec_key() == old(self).spec_key(),
            final(self).spec_size_limit() == old(self).spec_size_limit(),
            match r {
                Some(pack) => {
                    &&& old(self)@.finished.len() > 0
                    &&& pack@ == old(self)@.finished[0]
                    &&& final(self)@ == (PackerView {
                        finished: old(self)@.finished.drop_first(),
                        ..old(self)@
                    })
                },
                None => old(self)@.finished.len() == 0 && final(self)@ == old(self)@,
            },
    {
        self.packer.take_finished()
    }
}

} // verus!
