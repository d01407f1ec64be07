//! A canonical byte encoding and the digest built on it.
use vstd::prelude::*;

verus! {

/// The SHA-256 digest of `data`.
pub uninterp spec fn sha256_of(data: Seq<u8>) -> Seq<u8>;

/// Relies on hmac_sha256::Hash::hash: the SHA-256 digest of `data`, which
/// depends on those bytes alone.
#[verifier::external_body]
fn digest(data: &[u8]) -> (r: [u8; 32])
    ensures
        r@ == sha256_of(data@),
{
    hmac_sha256::Hash::hash(data)
}

/// An entity with a canonical byte encoding and a digest of that encoding.
pub trait Hashable {
    /// The canonical encoding of the value.
    spec fn encoding(&self) -> Seq<u8>;

    /// The canonical encoding, as bytes.
    fn bytes(&self) -> (r: Vec<u8>)
        ensures
            r@ == self.encoding(),
    ;

    /// The SHA-256 digest of the canonical encoding.
    fn hash(&self) -> (r: [u8; 32])
        ensures
            r@ == sha256_of(self.encoding()),
    {
        let b = self.bytes();
        digest(b.as_slice())
    }
}

} // verus!
