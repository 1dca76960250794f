//! Pack-file assembly for a content-addressed, encrypted, deduplicating
//! backup repository.
//!
//! Blobs are aggregated into packs, each pack carries a trailing header that
//! describes its blobs, and finished packs are registered in an index of
//! known blobs. The stores that hold the repository are chosen by URL.
//!
//! Every function of this crate carries a contract. Verus proves each
//! against its body, but for the few that call another crate or a part of
//! the standard library that has no specification: their contracts say what
//! the function they call does, and are believed.

pub mod backend;
pub mod blob;
pub mod clock;
pub mod crypto;
pub mod id;
pub mod index;
pub mod repo;
