//! The trailer: the last bytes of an archive, parsed backward from the
//! end to bootstrap decoding.
//!
//! The trailer's layout is a reserved byte and a duplicate digest-type
//! tag (the prologue), the directory digest, then the fixed-size
//! epilogue: the digest-type tag, the directory offset (negative on
//! disk, counted from the end), the directory's uncompressed size, a
//! check byte, the format version and the archive magic. The check byte
//! is chosen so that the whole trailer XORs to zero.

use vstd::prelude::*;

use crate::error::{ErrorKind, SimpleError};
use crate::integrity::{Digest, DigestType};
use crate::wire::{le64, le64_val, lemma_le64_roundtrip, push_le64, read_le64};

verus! {

/// Wire length of the prologue.
pub const PROLOGUE_LENGTH: usize = 2;

/// Wire length of the epilogue.
pub const EPILOGUE_LENGTH: usize = 22;

/// The critical metadata at the end of an archive.
pub struct Trailer {
    /// Digest of the directory's uncompressed bytes.
    pub digest: Digest,
    /// The digest algorithm.
    pub digest_type: DigestType,
    /// Offset of the directory frame: negative on disk, from the end of
    /// the file; positive after sign resolution.
    pub directory_offset: i64,
    /// Uncompressed size of the directory in bytes.
    pub directory_uncompressed_size: u64,
    /// Format version.
    pub version: u8,
}

/// The mathematical value of a [`Trailer`].
#[verifier::ext_equal]
pub struct TrailerV {
    /// Digest of the directory's uncompressed bytes.
    pub digest: Seq<u8>,
    /// The digest algorithm.
    pub digest_type: DigestType,
    /// Offset of the directory frame.
    pub directory_offset: i64,
    /// Uncompressed size of the directory in bytes.
    pub directory_uncompressed_size: u64,
    /// Format version.
    pub version: u8,
}

impl View for Trailer {
    type V = TrailerV;

    open spec fn view(&self) -> TrailerV {
        TrailerV {
            digest: self.digest@,
            digest_type: self.digest_type,
            directory_offset: self.directory_offset,
            directory_uncompressed_size: self.directory_uncompressed_size,
            version: self.version,
        }
    }
}

/// XOR of all bytes in a sequence.
pub open spec fn xor_seq(s: Seq<u8>) -> u8
    decreases s.len(),
{
    if s.len() == 0 {
        0u8
    } else {
        (xor_seq(s.drop_last()) ^ s.last()) as u8
    }
}

/// XOR distributes over concatenation.
pub proof fn lemma_xor_concat(a: Seq<u8>, b: Seq<u8>)
    ensures
        xor_seq(a + b) == (xor_seq(a) ^ xor_seq(b)),
    decreases b.len(),
{
    if b.len() == 0 {
        assert(a + b =~= a);
        assert(xor_seq(b) == 0);
        let x = xor_seq(a);
        assert((x ^ 0) == x) by (bit_vector);
    } else {
        assert((a + b).drop_last() =~= a + b.drop_last());
        assert((a + b).last() == b.last());
        lemma_xor_concat(a, b.drop_last());
        let x = xor_seq(a);
        let y = xor_seq(b.drop_last());
        let z = b.last();
        assert(((x ^ y) ^ z) == (x ^ (y ^ z))) by (bit_vector);
    }
}

/// The epilogue bytes for a trailer value with the given check byte.
pub open spec fn epilogue_bytes(t: TrailerV, check: u8) -> Seq<u8> {
    seq![t.digest_type.spec_tag()] + le64(t.directory_offset as u64) + le64(
        t.directory_uncompressed_size,
    ) + seq![check, t.version] + crate::zarc_magic()
}

/// The full trailer bytes with the given check byte: prologue, digest,
/// epilogue.
pub open spec fn trailer_bytes_with(t: TrailerV, check: u8) -> Seq<u8> {
    seq![0u8, t.digest_type.spec_tag()] + t.digest + epilogue_bytes(t, check)
}

/// The check byte of a trailer value: XOR of all its other bytes.
pub open spec fn trailer_check(t: TrailerV) -> u8 {
    xor_seq(trailer_bytes_with(t, 0))
}

/// The trailer bytes as written: the check byte makes the whole XOR to
/// zero.
pub open spec fn trailer_bytes(t: TrailerV) -> Seq<u8> {
    trailer_bytes_with(t, trailer_check(t))
}

/// The trailer's fields fit the wire format.
pub open spec fn trailerv_wf(t: TrailerV) -> bool {
    t.digest.len() == t.digest_type.spec_digest_len()
}

/// Changing only the check byte changes no other byte.
proof fn lemma_trailer_bytes_patch(t: TrailerV, c1: u8, c2: u8)
    ensures
        trailer_bytes_with(t, c2) =~= trailer_bytes_with(t, c1).update(
            (2 + t.digest.len() + 17) as int,
            c2,
        ),
{
}

/// XOR of the as-written trailer bytes is zero.
pub proof fn lemma_trailer_xor_zero(t: TrailerV)
    ensures
        xor_seq(trailer_bytes(t)) == 0,
{
    let pre = seq![0u8, t.digest_type.spec_tag()] + t.digest + (seq![t.digest_type.spec_tag()]
        + le64(t.directory_offset as u64) + le64(t.directory_uncompressed_size));
    let check = trailer_check(t);
    let post = seq![t.version] + crate::zarc_magic();
    assert(trailer_bytes_with(t, 0) =~= pre + (seq![0u8] + post));
    assert(trailer_bytes(t) =~= pre + (seq![check] + post));
    lemma_xor_concat(pre, seq![0u8] + post);
    lemma_xor_concat(pre, seq![check] + post);
    lemma_xor_concat(seq![0u8], post);
    lemma_xor_concat(seq![check], post);
    assert(xor_seq(seq![0u8]) == 0) by {
        assert(seq![0u8].drop_last() =~= Seq::<u8>::empty());
        let z = xor_seq(Seq::<u8>::empty());
        assert((z ^ 0) == 0) by (bit_vector)
            requires
                z == 0,
        ;
    }
    assert(xor_seq(seq![check]) == check) by {
        assert(seq![check].drop_last() =~= Seq::<u8>::empty());
        let z = xor_seq(Seq::<u8>::empty());
        assert((z ^ check) == check) by (bit_vector)
            requires
                z == 0,
        ;
    }
    let p = xor_seq(pre);
    let q = xor_seq(post);
    assert(check == (p ^ (0 ^ q)));
    assert((p ^ ((p ^ (0u8 ^ q)) ^ q)) == 0) by (bit_vector);
}

/// XOR the bytes of a slice.
pub fn xor_bytes(v: &[u8]) -> (r: u8)
    ensures
        r == xor_seq(v@),
{
    let mut acc: u8 = 0;
    let mut k: usize = 0;
    proof {
        assert(v@.take(0) =~= Seq::<u8>::empty());
    }
    while k < v.len()
        invariant
            k <= v@.len(),
            acc == xor_seq(v@.take(k as int)),
        decreases v@.len() - k,
    {
        let ghost pk = v@.take(k as int);
        acc = acc ^ v[k];
        proof {
            assert(v@.take(k + 1).drop_last() =~= pk);
            assert(v@.take(k + 1).last() == v@[k as int]);
        }
        k = k + 1;
    }
    proof {
        assert(v@.take(v@.len() as int) =~= v@);
    }
    acc
}

impl Trailer {
    /// The full length of the trailer in bytes: prologue, digest,
    /// epilogue.
    pub fn len(&self) -> (r: usize)
        requires
            self@.digest.len() <= usize::MAX - 24,
        ensures
            r == trailer_bytes(self@).len(),
    {
        proof {
            lemma_trailer_len(self@, trailer_check(self@));
        }
        PROLOGUE_LENGTH + self.digest.0.len() + EPILOGUE_LENGTH
    }

    /// Make the offset positive, given the file length: negative offsets
    /// count from the end of the file.
    pub fn make_offset_positive(&mut self, file_length: u64)
        requires
            file_length <= i64::MAX,
            old(self).directory_offset < 0 ==> old(self).directory_offset + file_length
                >= i64::MIN,
        ensures
            final(self).directory_offset == (if old(self).directory_offset < 0 {
                old(self).directory_offset + file_length
            } else {
                old(self).directory_offset as int
            }),
            final(self).digest@ == old(self).digest@,
            final(self).digest_type == old(self).digest_type,
            final(self).directory_uncompressed_size == old(self).directory_uncompressed_size,
            final(self).version == old(self).version,
    {
        if self.directory_offset < 0 {
            self.directory_offset = self.directory_offset + (file_length as i64);
        }
    }

    /// The trailer's bytes, check byte included.
    pub fn to_bytes(&self) -> (r: Vec<u8>)
        requires
            self@.digest.len() <= usize::MAX - 24,
        ensures
            r@ == trailer_bytes(self@),
    {
        let mut body: Vec<u8> = Vec::new();
        body.push(0);
        body.push(self.digest_type.tag());
        crate::wire::push_slice(&mut body, self.digest.0.as_slice());
        body.push(self.digest_type.tag());
        push_le64(&mut body, #[verifier::truncate] (self.directory_offset as u64));
        push_le64(&mut body, self.directory_uncompressed_size);
        body.push(0);
        body.push(self.version);
        body.push(crate::ZARC_MAGIC_0);
        body.push(crate::ZARC_MAGIC_1);
        body.push(crate::ZARC_MAGIC_2);
        proof {
            assert(body@ =~= trailer_bytes_with(self@, 0));
        }
        let check = xor_bytes(body.as_slice());
        let check_at = 2 + self.digest.0.len() + 17;
        body.set(check_at, check);
        proof {
            lemma_trailer_bytes_patch(self@, 0, check);
            assert(body@ =~= trailer_bytes(self@));
        }
        body
    }

    /// Compute the check byte from the other bytes.
    pub fn compute_check(&self) -> (r: u8)
        ensures
            r == trailer_check(self@),
    {
        let mut body: Vec<u8> = Vec::new();
        body.push(0);
        body.push(self.digest_type.tag());
        crate::wire::push_slice(&mut body, self.digest.0.as_slice());
        body.push(self.digest_type.tag());
        push_le64(&mut body, #[verifier::truncate] (self.directory_offset as u64));
        push_le64(&mut body, self.directory_uncompressed_size);
        body.push(0);
        body.push(self.version);
        body.push(crate::ZARC_MAGIC_0);
        body.push(crate::ZARC_MAGIC_1);
        body.push(crate::ZARC_MAGIC_2);
        proof {
            assert(body@ =~= trailer_bytes_with(self@, 0));
        }
        xor_bytes(body.as_slice())
    }
}

/// The byte length of a trailer with any check byte.
pub proof fn lemma_trailer_len(t: TrailerV, check: u8)
    ensures
        trailer_bytes_with(t, check).len() == 2 + t.digest.len() + 22,
        trailer_bytes(t).len() == 2 + t.digest.len() + 22,
{
}

/// The last 22 bytes of an archive, as parsed.
pub struct Epilogue {
    /// The digest algorithm.
    pub digest_type: DigestType,
    /// Offset of the directory frame, negative meaning from the end.
    pub directory_offset: i64,
    /// Uncompressed size of the directory in bytes.
    pub directory_uncompressed_size: u64,
    /// Check byte.
    pub check: u8,
    /// Format version.
    pub version: u8,
}

/// An epilogue at `i`: its fields, demanding the archive magic in the
/// last three bytes and a known digest type.
pub open spec fn dec_epilogue(b: Seq<u8>, i: int) -> Option<Epilogue> {
    if 0 <= i && i + 22 <= b.len() {
        if b[i + 19] == 0x65 && b[i + 20] == 0xAA && b[i + 21] == 0xDC {
            match DigestType::spec_from_tag(b[i]) {
                Some(dt) => Some(
                    Epilogue {
                        digest_type: dt,
                        directory_offset: le64_val(
                            b[i + 1],
                            b[i + 2],
                            b[i + 3],
                            b[i + 4],
                            b[i + 5],
                            b[i + 6],
                            b[i + 7],
                            b[i + 8],
                        ) as i64,
                        directory_uncompressed_size: le64_val(
                            b[i + 9],
                            b[i + 10],
                            b[i + 11],
                            b[i + 12],
                            b[i + 13],
                            b[i + 14],
                            b[i + 15],
                            b[i + 16],
                        ),
                        check: b[i + 17],
                        version: b[i + 18],
                    },
                ),
                None => None,
            }
        } else {
            None
        }
    } else {
        None
    }
}

/// Read an epilogue at `i`.
pub fn read_epilogue(b: &[u8], i: usize) -> (r: Result<Epilogue, SimpleError>)
    ensures
        match r {
            Ok(e) => dec_epilogue(b@, i as int) matches Some(e2) && e.digest_type == e2.digest_type
                && e.directory_offset == e2.directory_offset && e.directory_uncompressed_size
                == e2.directory_uncompressed_size && e.check == e2.check && e.version == e2.version,
            Err(e) => dec_epilogue(b@, i as int) is None && e.kind == ErrorKind::Parse,
        },
{
    if b.len() < 22 || i > b.len() - 22 {
        return Err(SimpleError::new(ErrorKind::Parse));
    }
    if !(b[i + 19] == 0x65 && b[i + 20] == 0xAA && b[i + 21] == 0xDC) {
        return Err(SimpleError::new(ErrorKind::Parse));
    }
    let digest_type = match DigestType::from_tag(b[i]) {
        Some(dt) => dt,
        None => { return Err(SimpleError::new(ErrorKind::Parse)) },
    };
    let directory_offset = #[verifier::truncate] (read_le64(b, i + 1) as i64);
    let directory_uncompressed_size = read_le64(b, i + 9);
    Ok(
        Epilogue {
            digest_type,
            directory_offset,
            directory_uncompressed_size,
            check: b[i + 17],
            version: b[i + 18],
        },
    )
}

/// Reading back a well-formed trailer that stands at `i` yields it:
/// the epilogue's fields parse and the digest lies just before them.
pub proof fn lemma_dec_epilogue(b: Seq<u8>, i: int, t: TrailerV)
    requires
        trailerv_wf(t),
        crate::cbor::at(b, i, trailer_bytes(t)),
    ensures
        dec_epilogue(b, i + 2 + t.digest.len()) matches Some(e) && e.digest_type == t.digest_type
            && e.directory_offset == t.directory_offset && e.directory_uncompressed_size
            == t.directory_uncompressed_size && e.check == trailer_check(t) && e.version
            == t.version,
        b.subrange(i + 2, i + 2 + t.digest.len()) == t.digest,
{
    let check = trailer_check(t);
    let pre = seq![0u8, t.digest_type.spec_tag()] + t.digest;
    let epi = epilogue_bytes(t, check);
    assert(trailer_bytes(t) =~= pre + epi);
    crate::cbor::lemma_at_concat(b, i, pre, epi);
    crate::cbor::lemma_at_concat(b, i, seq![0u8, t.digest_type.spec_tag()], t.digest);
    let p = i + pre.len();
    assert forall|k: int| 0 <= k < 22 implies b[p + k] == epi[k] by {
        assert(b.subrange(p, p + epi.len())[k] == epi[k]);
    }
    let off = t.directory_offset as u64;
    let size = t.directory_uncompressed_size;
    lemma_le64_roundtrip(off);
    lemma_le64_roundtrip(size);
    assert(epi =~= seq![t.digest_type.spec_tag()] + (le64(off) + (le64(size) + (seq![
        check,
        t.version,
    ] + crate::zarc_magic()))));
    assert(epi[0] == t.digest_type.spec_tag());
    assert(epi[17] == check && epi[18] == t.version && epi[19] == 0x65 && epi[20] == 0xAA && epi[21]
        == 0xDC);
    assert forall|j: int| 0 <= j < 8 implies epi[1 + j] == le64(off)[j] && epi[9 + j] == le64(
        size,
    )[j] by {}
    assert(DigestType::spec_from_tag(t.digest_type.spec_tag()) == Some(t.digest_type));
    assert(le64_val(
        epi[1],
        epi[2],
        epi[3],
        epi[4],
        epi[5],
        epi[6],
        epi[7],
        epi[8],
    ) == off);
    assert(le64_val(
        epi[9],
        epi[10],
        epi[11],
        epi[12],
        epi[13],
        epi[14],
        epi[15],
        epi[16],
    ) == size);
    let x = t.directory_offset;
    assert(((x as u64) as i64) == x) by (bit_vector);
    assert(dec_epilogue(b, p) is Some);
}

} // verus!
