//! Integrity primitives: digests over content, compared in constant time.

use subtle::ConstantTimeEq;
use vstd::prelude::*;

verus! {

/// What BLAKE3 returns for the given bytes.
pub uninterp spec fn blake3_of(data: Seq<u8>) -> Seq<u8>;

/// Relies on `blake3::hash`: 32 bytes, a function of the input alone.
#[verifier::external_body]
pub(crate) fn blake3_hash(data: &[u8]) -> (r: Vec<u8>)
    ensures
        r@ == blake3_of(data@),
        r@.len() == 32,
{
    blake3::hash(data).as_bytes().to_vec()
}

/// Relies on subtle's constant-time slice equality: true exactly when the
/// byte slices are equal.
#[verifier::external_body]
pub(crate) fn ct_bytes_eq(a: &[u8], b: &[u8]) -> (r: bool)
    ensures
        r == (a@ == b@),
{
    bool::from(a.ct_eq(b))
}

/// A digest: the raw bytes of a hash. Equality is constant-time.
pub struct Digest(pub Vec<u8>);

impl View for Digest {
    type V = Seq<u8>;

    open spec fn view(&self) -> Seq<u8> {
        self.0@
    }
}

impl Digest {
    /// Wrap digest bytes.
    pub fn new(bytes: Vec<u8>) -> (r: Digest)
        ensures
            r@ == bytes@,
    {
        Digest(bytes)
    }

    /// A copy of this digest.
    pub fn duplicate(&self) -> (r: Digest)
        ensures
            r@ == self@,
    {
        Digest(self.0.clone())
    }
}

impl PartialEq for Digest {
    fn eq(&self, other: &Self) -> bool {
        ct_bytes_eq(self.0.as_slice(), other.0.as_slice())
    }
}

impl vstd::std_specs::cmp::PartialEqSpecImpl for Digest {
    open spec fn obeys_eq_spec() -> bool {
        true
    }

    open spec fn eq_spec(&self, other: &Digest) -> bool {
        self@ == other@
    }
}

/// The digest algorithms an archive can name.
#[derive(Clone, Copy, Debug, PartialEq, Eq, Structural)]
pub enum DigestType {
    /// The BLAKE3 hash function.
    Blake3,
}

impl DigestType {
    /// The wire tag of this algorithm.
    pub open spec fn spec_tag(self) -> u8 {
        match self {
            DigestType::Blake3 => 1,
        }
    }

    /// The wire tag of this algorithm.
    pub fn tag(self) -> (r: u8)
        ensures
            r == self.spec_tag(),
    {
        match self {
            DigestType::Blake3 => 1,
        }
    }

    /// The algorithm a wire tag names, if any.
    pub open spec fn spec_from_tag(t: u8) -> Option<DigestType> {
        if t == 1 {
            Some(DigestType::Blake3)
        } else {
            None
        }
    }

    /// The algorithm a wire tag names, if any.
    pub fn from_tag(t: u8) -> (r: Option<DigestType>)
        ensures
            r == DigestType::spec_from_tag(t),
    {
        if t == 1 {
            Some(DigestType::Blake3)
        } else {
            None
        }
    }

    /// Byte length of a digest of this algorithm.
    pub fn digest_len(self) -> (r: usize)
        ensures
            r == self.spec_digest_len(),
    {
        match self {
            DigestType::Blake3 => 32,
        }
    }

    /// Byte length of a digest of this algorithm.
    pub open spec fn spec_digest_len(self) -> usize {
        match self {
            DigestType::Blake3 => 32,
        }
    }

    /// Whether `data` hashes to `expected` under this algorithm.
    pub fn verify_data(self, expected: &Digest, data: &[u8]) -> (r: bool)
        ensures
            r == (expected@ == self.spec_digest_of(data@)),
    {
        let actual = blake3_hash(data);
        ct_bytes_eq(expected.0.as_slice(), actual.as_slice())
    }

    /// The digest of `data` under this algorithm.
    pub open spec fn spec_digest_of(self, data: Seq<u8>) -> Seq<u8> {
        match self {
            DigestType::Blake3 => blake3_of(data),
        }
    }

    /// Compute the digest of `data` under this algorithm.
    pub fn digest_of(self, data: &[u8]) -> (r: Digest)
        ensures
            r@ == self.spec_digest_of(data@),
            r@.len() == self.spec_digest_len(),
    {
        match self {
            DigestType::Blake3 => Digest(blake3_hash(data)),
        }
    }
}

} // verus!
