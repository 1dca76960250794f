//! Descriptors of blobs and packs as the index records them.

use crate::blob::BlobType;
use crate::id::Id;
use vstd::prelude::*;

verus! {

/// Bytes that one blob takes in a pack header when its uncompressed length
/// is not recorded: a tag, the length and the identifier.
pub const ENTRY_LEN: u64 = 37;

/// Bytes that one blob takes in a pack header when its uncompressed length
/// is recorded.
pub const ENTRY_LEN_COMPRESSED: u64 = 41;

/// Bytes of the field that follows the header and holds its length.
pub const HEADER_LEN_BYTES: u64 = 4;

/// One blob of a pack: which blob it is, and where in the pack it lies.
#[derive(Clone, Copy, Debug, PartialEq, Eq)]
pub struct IndexBlob {
    pub id: Id,
    pub tpe: BlobType,
    pub offset: u32,
    pub length: u32,
    /// The size of the blob before compression, if it was compressed.
    /// Never `Some(0)`.
    pub uncompressed_length: Option<u32>,
}

/// A pack: its identifier, its blobs in the order in which they lie in the
/// pack, and the time at which it was stored.
#[derive(Clone, Debug, PartialEq, Eq)]
pub struct IndexPack {
    pub id: Id,
    pub blobs: Vec<IndexBlob>,
    /// Seconds since the Unix epoch.
    pub time: Option<i64>,
}

/// The sum of the lengths of the blobs.
pub open spec fn total_length(blobs: Seq<IndexBlob>) -> nat
    decreases blobs.len(),
{
    if blobs.len() == 0 {
        0
    } else {
        total_length(blobs.drop_last()) + blobs.last().length as nat
    }
}

/// The blobs lie one behind the other, the first at `start`: the offset of
/// each is `start` plus the lengths of those before it.
pub open spec fn is_contiguous_from(blobs: Seq<IndexBlob>, start: nat) -> bool {
    forall|i: int|
        0 <= i < blobs.len() ==> (#[trigger] blobs[i]).offset == start + total_length(
            blobs.take(i),
        )
}

/// The blobs partition a range of bytes that starts at 0, without gaps and
/// without overlap.
pub open spec fn is_contiguous(blobs: Seq<IndexBlob>) -> bool {
    is_contiguous_from(blobs, 0)
}

/// Bytes that the blob takes in a pack header.
pub open spec fn entry_len(blob: IndexBlob) -> nat {
    if blob.uncompressed_length is Some {
        ENTRY_LEN_COMPRESSED as nat
    } else {
        ENTRY_LEN as nat
    }
}

/// Bytes that the blobs take in a pack header.
pub open spec fn header_len(blobs: Seq<IndexBlob>) -> nat
    decreases blobs.len(),
{
    if blobs.len() == 0 {
        0
    } else {
        header_len(blobs.drop_last()) + entry_len(blobs.last())
    }
}

/// The size of a pack that holds the blobs: the blobs themselves, their
/// header entries, and the field with the header's length. What encryption
/// adds to the header is not counted.
pub open spec fn pack_size(blobs: Seq<IndexBlob>) -> nat {
    total_length(blobs) + header_len(blobs) + HEADER_LEN_BYTES as nat
}

/// The total length of a sequence with one more blob.
pub proof fn lemma_total_length_push(blobs: Seq<IndexBlob>, blob: IndexBlob)
    ensures
        total_length(blobs.push(blob)) == total_length(blobs) + blob.length,
        header_len(blobs.push(blob)) == header_len(blobs) + entry_len(blob),
{
    assert(blobs.push(blob).drop_last() =~= blobs);
}

/// The total length of a sequence in terms of its first blob and the rest.
pub proof fn lemma_total_length_front(blobs: Seq<IndexBlob>)
    requires
        blobs.len() > 0,
    ensures
        total_length(blobs) == blobs[0].length + total_length(blobs.drop_first()),
    decreases blobs.len(),
{
    if blobs.len() == 1 {
        assert(blobs.drop_last() =~= Seq::<IndexBlob>::empty());
        assert(blobs.drop_first() =~= Seq::<IndexBlob>::empty());
    } else {
        lemma_total_length_front(blobs.drop_last());
        assert(blobs.drop_last().drop_first() =~= blobs.drop_first().drop_last());
    }
}

/// The total length of a prefix does not exceed that of the whole.
pub proof fn lemma_total_length_take(blobs: Seq<IndexBlob>, i: int)
    requires
        0 <= i <= blobs.len(),
    ensures
        total_length(blobs.take(i)) <= total_length(blobs),
    decreases blobs.len(),
{
    if i < blobs.len() {
        lemma_total_length_take(blobs.drop_last(), i);
        assert(blobs.drop_last().take(i) =~= blobs.take(i));
    } else {
        assert(blobs.take(i) =~= blobs);
    }
}

/// A blob that starts where contiguous blobs end extends them.
pub proof fn lemma_contiguous_push(blobs: Seq<IndexBlob>, blob: IndexBlob)
    requires
        is_contiguous(blobs),
        blob.offset == total_length(blobs),
    ensures
        is_contiguous(blobs.push(blob)),
{
    let extended = blobs.push(blob);
    assert forall|i: int| 0 <= i < extended.len() implies (#[trigger] extended[i]).offset
        == total_length(extended.take(i)) by {
        if i < blobs.len() {
            assert(extended.take(i) =~= blobs.take(i));
        } else {
            assert(extended.take(i) =~= blobs);
        }
    }
}

/// What follows the first of contiguous blobs is contiguous from its end.
pub proof fn lemma_contiguous_rest(blobs: Seq<IndexBlob>, start: nat)
    requires
        blobs.len() > 0,
        is_contiguous_from(blobs, start),
    ensures
        blobs[0].offset == start,
        is_contiguous_from(blobs.drop_first(), start + blobs[0].length as nat),
{
    let rest = blobs.drop_first();
    assert(blobs.take(0) =~= Seq::<IndexBlob>::empty());
    assert forall|i: int| 0 <= i < rest.len() implies (#[trigger] rest[i]).offset == start
        + blobs[0].length + total_length(rest.take(i)) by {
        assert(rest[i] == blobs[i + 1]);
        lemma_total_length_front(blobs.take(i + 1));
        assert(blobs.take(i + 1).drop_first() =~= rest.take(i));
    }
}

/// Blobs are contiguous where the first lies at the start and what follows
/// it is contiguous from its end.
pub proof fn lemma_contiguous_first(blobs: Seq<IndexBlob>, start: nat)
    requires
        blobs.len() > 0,
        blobs[0].offset == start,
        is_contiguous_from(blobs.drop_first(), start + blobs[0].length as nat),
    ensures
        is_contiguous_from(blobs, start),
{
    let rest = blobs.drop_first();
    assert forall|i: int| 0 <= i < blobs.len() implies (#[trigger] blobs[i]).offset == start
        + total_length(blobs.take(i)) by {
        if i == 0 {
            assert(blobs.take(0) =~= Seq::<IndexBlob>::empty());
        } else {
            assert(blobs[i] == rest[i - 1]);
            lemma_total_length_front(blobs.take(i));
            assert(blobs.take(i).drop_first() =~= rest.take(i - 1));
        }
    }
}

impl IndexBlob {
    /// A header can describe the blob: a recorded uncompressed length is
    /// not zero.
    pub open spec fn is_encodable(&self) -> bool {
        self.uncompressed_length != Some(0u32)
    }

    /// The blob is one that a pack holds: it is not empty, and a recorded
    /// uncompressed length is not zero.
    pub open spec fn wf(&self) -> bool {
        self.length > 0 && self.is_encodable()
    }
}

impl IndexPack {
    /// The blobs of the pack partition its body, which is shorter than 4 GiB,
    /// and each of them is well formed.
    pub open spec fn wf(&self) -> bool {
        &&& is_contiguous(self.blobs@)
        &&& total_length(self.blobs@) <= u32::MAX
        &&& forall|i: int| 0 <= i < self.blobs@.len() ==> (#[trigger] self.blobs@[i]).wf()
    }

    /// A pack without blobs, with the all-zero identifier and no time.
    pub fn new() -> (pack: IndexPack)
        ensures
            pack.blobs@ == Seq::<IndexBlob>::empty(),
            pack.id.spec_is_null(),
            pack.time is None,
            pack.wf(),
    {
        IndexPack { id: Id::default(), blobs: Vec::new(), time: None }
    }

    /// Appends the description of a blob.
    pub fn add(
        &mut self,
        id: Id,
        tpe: BlobType,
        offset: u32,
        length: u32,
        uncompressed_length: Option<u32>,
    )
        ensures
            final(self).blobs@ == old(self).blobs@.push(
                (IndexBlob { id, tpe, offset, length, uncompressed_length }),
            ),
            final(self).id == old(self).id,
            final(self).time == old(self).time,
    {
        self.blobs.push(IndexBlob { id, tpe, offset, length, uncompressed_length });
    }

    /// Sets the identifier of the pack.
    pub fn set_id(&mut self, id: Id)
        ensures
            final(self).id == id,
            final(self).blobs == old(self).blobs,
            final(self).time == old(self).time,
    {
        self.id = id;
    }

    /// Sets the time at which the pack was stored.
    pub fn set_time(&mut self, time: i64)
        ensures
            final(self).time == Some(time),
            final(self).blobs == old(self).blobs,
            final(self).id == old(self).id,
    {
        self.time = Some(time);
    }

    /// Whether the pack holds a blob with the given identifier.
    pub open spec fn spec_has(&self, id: Id) -> bool {
        exists|i: int| 0 <= i < self.blobs@.len() && (#[trigger] self.blobs@[i]).id == id
    }

    /// Whether the pack holds a blob with the given identifier.
    pub fn has(&self, id: &Id) -> (r: bool)
        ensures
            r == self.spec_has(*id),
    {
        let mut i: usize = 0;
        while i < self.blobs.len()
            invariant
                i <= self.blobs@.len(),
                forall|j: int| 0 <= j < i ==> (#[trigger] self.blobs@[j]).id != *id,
            decreases self.blobs@.len() - i,
        {
            if self.blobs[i].id.same(id) {
                return true;
            }
            i += 1;
        }
        false
    }

    /// The size of the pack, computed from its blobs: see `pack_size`.
    pub fn pack_size(&self) -> (size: u64)
        requires
            total_length(self.blobs@) <= u32::MAX,
            self.blobs@.len() <= u32::MAX,
        ensures
            size == pack_size(self.blobs@),
    {
        let mut size: u64 = 0;
        let mut i: usize = 0;
        while i < self.blobs.len()
            invariant
                i <= self.blobs@.len(),
                self.blobs@.len() <= u32::MAX,
                total_length(self.blobs@) <= u32::MAX,
                size == total_length(self.blobs@.take(i as int)) + header_len(
                    self.blobs@.take(i as int),
                ),
                header_len(self.blobs@.take(i as int)) <= ENTRY_LEN_COMPRESSED * i,
            decreases self.blobs@.len() - i,
        {
            let blob = &self.blobs[i];
            let entry: u64 = if blob.uncompressed_length.is_some() {
                ENTRY_LEN_COMPRESSED
            } else {
                ENTRY_LEN
            };
            proof {
                lemma_total_length_push(self.blobs@.take(i as int), self.blobs@[i as int]);
                assert(self.blobs@.take(i as int).push(self.blobs@[i as int])
                    =~= self.blobs@.take(i + 1));
                lemma_total_length_take(self.blobs@, i + 1);
            }
            size = size + blob.length as u64 + entry;
            i += 1;
        }
        assert(self.blobs@.take(i as int) =~= self.blobs@);
        size + HEADER_LEN_BYTES
    }
}

impl Default for IndexPack {
    fn default() -> (pack: IndexPack)
        ensures
            pack.blobs@ == Seq::<IndexBlob>::empty(),
            pack.id.spec_is_null(),
            pack.time is None,
    {
        IndexPack::new()
    }
}

} // verus!
