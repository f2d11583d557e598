//! The digest primitives that the hash engine can be built over.

use digest::Digest;
use vstd::prelude::*;

verus! {

/// The SHA-256 digest of a byte sequence, as `sha2` computes it.
pub uninterp spec fn sha256_of(data: Seq<u8>) -> Seq<u8>;

/// The SHA-512 digest of a byte sequence, as `sha2` computes it.
pub uninterp spec fn sha512_of(data: Seq<u8>) -> Seq<u8>;

/// Calls `Digest::digest` of `sha2::Sha256` on `data`. The result is the
/// SHA-256 digest of exactly these bytes, which is always 32 bytes long.
#[verifier::external_body]
fn sha256(data: &[u8]) -> (out: Vec<u8>)
    ensures
        out@ == sha256_of(data@),
        out@.len() == 32,
{
    sha2::Sha256::digest(data).to_vec()
}

/// Calls `Digest::digest` of `sha2::Sha512` on `data`. The result is the
/// SHA-512 digest of exactly these bytes, which is always 64 bytes long.
#[verifier::external_body]
fn sha512(data: &[u8]) -> (out: Vec<u8>)
    ensures
        out@ == sha512_of(data@),
        out@.len() == 64,
{
    sha2::Sha512::digest(data).to_vec()
}

/// A digest primitive: a function from bytes to a tag of fixed width, which
/// is not empty.
pub trait Hasher {
    /// The tag that this primitive assigns to `data`.
    spec fn spec_digest(data: Seq<u8>) -> Seq<u8>;

    /// The width of the tags of this primitive, in bytes.
    spec fn spec_width() -> nat;

    /// Computes the tag of `data`.
    fn digest(data: &[u8]) -> (out: Vec<u8>)
        ensures
            out@ == Self::spec_digest(data@),
            out@.len() == Self::spec_width(),
            out@.len() > 0,
    ;
}

/// SHA-256, the default primitive.
#[derive(Debug)]
pub struct Sha256;

impl Hasher for Sha256 {
    open spec fn spec_digest(data: Seq<u8>) -> Seq<u8> {
        sha256_of(data)
    }

    open spec fn spec_width() -> nat {
        32
    }

    fn digest(data: &[u8]) -> (out: Vec<u8>) {
        sha256(data)
    }
}

/// SHA-512.
#[derive(Debug)]
pub struct Sha512;

impl Hasher for Sha512 {
    open spec fn spec_digest(data: Seq<u8>) -> Seq<u8> {
        sha512_of(data)
    }

    open spec fn spec_width() -> nat {
        64
    }

    fn digest(data: &[u8]) -> (out: Vec<u8>) {
        sha512(data)
    }
}

} // verus!
