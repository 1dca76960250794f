//! What the packer needs of cryptography: a key that encrypts and decrypts,
//! and the digest that names a pack.

use crate::id::Id;
use sha2::Digest;
use vstd::prelude::*;

verus! {

/// Encryption or decryption failed.
#[derive(Clone, Copy, Debug, PartialEq, Eq, Structural)]
pub struct CryptoError;

/// A key that encrypts and decrypts byte strings. Encryption may be
/// randomised: the same plaintext may give a different ciphertext each time.
pub trait CryptoKey {
    /// Whether `cipher` is an encryption of `plain` under this key. A key
    /// that says nothing of its ciphertexts keeps this relation as it is.
    open spec fn encrypts(&self, plain: Seq<u8>, cipher: Seq<u8>) -> bool {
        true
    }

    /// Encrypts `data`.
    fn encrypt_data(&self, data: &[u8]) -> (r: Result<Vec<u8>, CryptoError>)
        ensures
            r matches Ok(cipher) ==> self.encrypts(data@, cipher@),
    ;

    /// Decrypts `data`.
    fn decrypt_data(&self, data: &[u8]) -> (r: Result<Vec<u8>, CryptoError>)
        ensures
            r matches Ok(plain) ==> self.encrypts(plain@, data@),
    ;
}

/// Every ciphertext of the key has at least one byte.
pub open spec fn never_empty<K: CryptoKey>(key: K) -> bool {
    forall|plain: Seq<u8>, cipher: Seq<u8>| #[trigger]
        key.encrypts(plain, cipher) ==> cipher.len() > 0
}

/// No ciphertext of the key is a ciphertext of two plaintexts.
pub open spec fn one_plaintext<K: CryptoKey>(key: K) -> bool {
    forall|first: Seq<u8>, second: Seq<u8>, cipher: Seq<u8>|
        #[trigger] key.encrypts(first, cipher) && #[trigger] key.encrypts(second, cipher)
            ==> first == second
}

/// The SHA-256 digest of a byte string.
pub uninterp spec fn sha256(data: Seq<u8>) -> Seq<u8>;

/// Calls `Sha256::digest` of the crate `sha2`, which computes the SHA-256
/// digest of its argument: 32 bytes that depend on the argument alone.
#[verifier::external_body]
pub(crate) fn sha256_digest(data: &[u8]) -> (digest: [u8; 32])
    ensures
        digest@ == sha256(data@),
{
    sha2::Sha256::digest(data).into()
}

/// The identifier of a byte string: its SHA-256 digest.
pub fn hash(data: &[u8]) -> (id: Id)
    ensures
        id@ == sha256(data@),
{
    Id::new(sha256_digest(data))
}

} // verus!
