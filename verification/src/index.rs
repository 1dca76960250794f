//! The index: the registry of the packs that the repository holds, and
//! through them of the blobs that need not be stored again.

use crate::id::Id;
use crate::repo::IndexPack;
use vstd::prelude::*;

verus! {

/// The packs that have been stored, in the order in which they were
/// registered.
pub struct Indexer {
    pub packs: Vec<IndexPack>,
}

/// Whether one of the packs holds a blob with the given identifier.
pub open spec fn packs_have(packs: Seq<IndexPack>, id: Id) -> bool {
    exists|i: int| 0 <= i < packs.len() && (#[trigger] packs[i]).spec_has(id)
}

impl View for Indexer {
    type V = Seq<IndexPack>;

    open spec fn view(&self) -> Seq<IndexPack> {
        self.packs@
    }
}

impl Indexer {
    /// An index without packs.
    pub fn new() -> (indexer: Indexer)
        ensures
            indexer@ == Seq::<IndexPack>::empty(),
    {
        Indexer { packs: Vec::new() }
    }

    /// Whether a registered pack holds a blob with the given identifier.
    pub open spec fn spec_has(&self, id: Id) -> bool {
        packs_have(self@, id)
    }

    /// Whether a registered pack holds a blob with the given identifier.
    pub fn has(&self, id: &Id) -> (r: bool)
        ensures
            r == self.spec_has(*id),
    {
        let mut i: usize = 0;
        while i < self.packs.len()
            invariant
                i <= self.packs@.len(),
                forall|j: int| 0 <= j < i ==> !(#[trigger] self.packs@[j]).spec_has(*id),
            decreases self.packs@.len() - i,
        {
            if self.packs[i].has(id) {
                return true;
            }
            i += 1;
        }
        false
    }

    /// Registers a pack.
    pub fn add(&mut self, pack: IndexPack)
        ensures
            final(self)@ == old(self)@.push(pack),
    {
        self.packs.push(pack);
    }

    /// Registers a pack that was stored at the given time, in seconds since
    /// the Unix epoch: stamps it with the time and adds it.
    pub fn add_stored_at(&mut self, pack: IndexPack, time: i64)
        ensures
            final(self)@ == old(self)@.push(
                (IndexPack { id: pack.id, blobs: pack.blobs, time: Some(time) }),
            ),
    {
        let mut pack = pack;
        pack.set_time(time);
        self.add(pack);
    }
}

/// A pack that was registered stays registered, and its blobs are known
/// from then on.
pub proof fn lemma_registered_blob_is_known(packs: Seq<IndexPack>, pack: IndexPack, id: Id)
    ensures
        packs_have(packs, id) ==> packs_have(packs.push(pack), id),
        pack.spec_has(id) ==> packs_have(packs.push(pack), id),
{
    let extended = packs.push(pack);
    if packs_have(packs, id) {
        let i = choose|i: int| 0 <= i < packs.len() && (#[trigger] packs[i]).spec_has(id);
        assert(extended[i].spec_has(id));
    }
    if pack.spec_has(id) {
        assert(extended[packs.len() as int].spec_has(id));
    }
}

} // verus!
