//! Blobs and the packer that aggregates them into pack files.

use vstd::prelude::*;

pub mod file_writer;
pub mod header;
pub mod model;
pub mod packer;
pub mod repacker;

verus! {

/// The kind of a blob: the content of a file, or the description of a
/// directory.
#[derive(Clone, Copy, Debug, PartialEq, Eq, Hash, Structural)]
pub enum BlobType {
    Data,
    Tree,
}

impl BlobType {
    /// Whether blobs of this type are worth caching: trees are, data is not.
    pub open spec fn spec_is_cacheable(&self) -> bool {
        *self == BlobType::Tree
    }

    /// Whether blobs of this type are worth caching: trees are, data is not.
    #[verifier::when_used_as_spec(spec_is_cacheable)]
    pub fn is_cacheable(&self) -> (r: bool)
        ensures
            r == self.spec_is_cacheable(),
    {
        match self {
            BlobType::Tree => true,
            BlobType::Data => false,
        }
    }
}

} // verus!
