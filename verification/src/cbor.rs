//! The CBOR items the directory records are built from.
//!
//! Directory records are CBOR maps with integer keys. This module gives
//! each item a byte-level spec: an encoding function, a decoding function
//! mirrored in spec and exec, and inversion lemmas showing that decoding
//! an encoding yields the value back. Encoders always emit definite,
//! minimal-length items; decoders also accept non-minimal heads and
//! indefinite-length strings, and can skip over unknown items.

use vstd::prelude::*;

use crate::error::{ErrorKind, SimpleError};
use crate::wire::{be16_val, be32_val, be64_val, read_be16, read_be32, read_be64};

verus! {

/// A CBOR head: major type in the top three bits, then the argument,
/// minimally encoded.
pub open spec fn head(major: u8, v: u64) -> Seq<u8>
    recommends
        major < 8,
{
    if v < 24 {
        seq![((major << 5) | (v as u8)) as u8]
    } else if v <= 0xff {
        seq![((major << 5) | 24) as u8, v as u8]
    } else if v <= 0xffff {
        seq![((major << 5) | 25) as u8] + crate::wire::be16(v as u16)
    } else if v <= 0xffff_ffff {
        seq![((major << 5) | 26) as u8] + crate::wire::be32(v as u32)
    } else {
        seq![((major << 5) | 27) as u8] + crate::wire::be64(v)
    }
}

/// An unsigned integer item.
pub open spec fn enc_uint(v: u64) -> Seq<u8> {
    head(0, v)
}

/// A definite byte string item.
pub open spec fn enc_bytes(s: Seq<u8>) -> Seq<u8> {
    head(2, s.len() as u64) + s
}

/// A definite text string item holding the UTF-8 bytes of `chars`.
pub open spec fn enc_text(chars: Seq<char>) -> Seq<u8> {
    head(3, vstd::utf8::encode_utf8(chars).len() as u64) + vstd::utf8::encode_utf8(chars)
}

/// An array header for `n` items.
pub open spec fn enc_array(n: u64) -> Seq<u8> {
    head(4, n)
}

/// A map header for `n` key-value pairs.
pub open spec fn enc_map(n: u64) -> Seq<u8> {
    head(5, n)
}

/// A tag head.
pub open spec fn enc_tag(t: u64) -> Seq<u8> {
    head(6, t)
}

/// A boolean simple value.
pub open spec fn enc_bool(v: bool) -> Seq<u8> {
    if v {
        seq![0xf5u8]
    } else {
        seq![0xf4u8]
    }
}

/// The null simple value.
pub open spec fn enc_null() -> Seq<u8> {
    seq![0xf6u8]
}

/// Decode a head at `i`: the major type, the argument, and the index just
/// past the head. Indefinite-length and reserved additional-info values
/// yield `None`.
pub open spec fn dec_head(b: Seq<u8>, i: int) -> Option<(u8, u64, int)> {
    if 0 <= i < b.len() {
        let major = (b[i] >> 5) as u8;
        let ai = (b[i] & 0x1f) as u8;
        if ai < 24 {
            Some((major, ai as u64, i + 1))
        } else if ai == 24 {
            if i + 2 <= b.len() {
                Some((major, b[i + 1] as u64, i + 2))
            } else {
                None
            }
        } else if ai == 25 {
            if i + 3 <= b.len() {
                Some((major, be16_val(b[i + 1], b[i + 2]) as u64, i + 3))
            } else {
                None
            }
        } else if ai == 26 {
            if i + 5 <= b.len() {
                Some((major, be32_val(b[i + 1], b[i + 2], b[i + 3], b[i + 4]) as u64, i + 5))
            } else {
                None
            }
        } else if ai == 27 {
            if i + 9 <= b.len() {
                Some(
                    (
                        major,
                        be64_val(
                            b[i + 1],
                            b[i + 2],
                            b[i + 3],
                            b[i + 4],
                            b[i + 5],
                            b[i + 6],
                            b[i + 7],
                            b[i + 8],
                        ),
                        i + 9,
                    ),
                )
            } else {
                None
            }
        } else {
            None
        }
    } else {
        None
    }
}

/// The chunks of an indefinite-length string of major type `major`,
/// starting at the first chunk head, up to and including the break byte.
pub open spec fn dec_chunks(b: Seq<u8>, i: int, major: u8) -> Option<(Seq<u8>, int)>
    decreases b.len() - i,
{
    if 0 <= i < b.len() {
        if b[i] == 0xff {
            Some((Seq::empty(), i + 1))
        } else {
            match dec_head(b, i) {
                Some((m, n, j)) => if m == major && j + n <= b.len() && i < j {
                    match dec_chunks(b, j + n as int, major) {
                        Some((rest, end)) => Some((b.subrange(j, j + n as int) + rest, end)),
                        None => None,
                    }
                } else {
                    None
                },
                None => None,
            }
        }
    } else {
        None
    }
}

/// The payload of a string item of major type `major` at `i`: definite or
/// indefinite form.
#[verifier::opaque]
pub open spec fn dec_raw(b: Seq<u8>, i: int, major: u8) -> Option<(Seq<u8>, int)> {
    if 0 <= i < b.len() && b[i] == ((major << 5) | 0x1f) as u8 {
        dec_chunks(b, i + 1, major)
    } else {
        match dec_head(b, i) {
            Some((m, n, j)) => if m == major && j + n <= b.len() {
                Some((b.subrange(j, j + n as int), j + n as int))
            } else {
                None
            },
            None => None,
        }
    }
}

/// A byte string item at `i`.
#[verifier::opaque]
pub open spec fn dec_bytes(b: Seq<u8>, i: int) -> Option<(Seq<u8>, int)> {
    dec_raw(b, i, 2)
}

/// A text string item at `i`, decoded from UTF-8.
#[verifier::opaque]
pub open spec fn dec_text(b: Seq<u8>, i: int) -> Option<(Seq<char>, int)> {
    match dec_raw(b, i, 3) {
        Some((bytes, j)) => if vstd::utf8::valid_utf8(bytes) {
            Some((vstd::utf8::decode_utf8(bytes), j))
        } else {
            None
        },
        None => None,
    }
}

/// Skip one item at `i`, whatever it is, within a recursion budget.
pub open spec fn skip_item(b: Seq<u8>, i: int, fuel: nat) -> Option<int>
    decreases fuel, 0nat,
{
    if 0 <= i < b.len() {
        let major = (b[i] >> 5) as u8;
        let ai = (b[i] & 0x1f) as u8;
        if major == 2 || major == 3 {
            match dec_raw(b, i, major) {
                Some((_, j)) => Some(j),
                None => None,
            }
        } else if major == 0 || major == 1 {
            match dec_head(b, i) {
                Some((_, _, j)) => Some(j),
                None => None,
            }
        } else if major == 7 {
            if ai < 24 {
                Some(i + 1)
            } else if ai == 24 && i + 2 <= b.len() {
                Some(i + 2)
            } else if ai == 25 && i + 3 <= b.len() {
                Some(i + 3)
            } else if ai == 26 && i + 5 <= b.len() {
                Some(i + 5)
            } else if ai == 27 && i + 9 <= b.len() {
                Some(i + 9)
            } else {
                None
            }
        } else if fuel == 0 {
            None
        } else if major == 6 {
            match dec_head(b, i) {
                Some((_, _, j)) => skip_item(b, j, (fuel - 1) as nat),
                None => None,
            }
        } else {
            // major 4 or 5: arrays and maps, definite only
            match dec_head(b, i) {
                Some((_, n, j)) => if major == 5 {
                    if n <= 0x7fff_ffff_ffff_ffff {
                        skip_items(b, j, (2 * n) as u64, (fuel - 1) as nat)
                    } else {
                        None
                    }
                } else {
                    skip_items(b, j, n, (fuel - 1) as nat)
                },
                None => None,
            }
        }
    } else {
        None
    }
}

/// Skip `n` items starting at `i`, within a recursion budget.
pub open spec fn skip_items(b: Seq<u8>, i: int, n: u64, fuel: nat) -> Option<int>
    decreases fuel, n + 1nat,
{
    if n == 0 {
        Some(i)
    } else {
        match skip_item(b, i, fuel) {
            Some(j) => if i < j {
                skip_items(b, j, (n - 1) as u64, fuel)
            } else {
                None
            },
            None => None,
        }
    }
}

/// The bytes of `s` stand at position `i` of `b`.
pub open spec fn at(b: Seq<u8>, i: int, s: Seq<u8>) -> bool {
    0 <= i && i + s.len() <= b.len() && b.subrange(i, i + s.len()) == s
}

/// A concatenation standing at `i` splits into its parts.
pub proof fn lemma_at_concat(b: Seq<u8>, i: int, s1: Seq<u8>, s2: Seq<u8>)
    requires
        at(b, i, s1 + s2),
    ensures
        at(b, i, s1),
        at(b, i + s1.len(), s2),
{
    assert(b.subrange(i, i + s1.len()) =~= s1) by {
        assert forall|k: int| 0 <= k < s1.len() implies b.subrange(i, i + s1.len())[k] == s1[k] by {
            assert(b.subrange(i, i + (s1 + s2).len())[k] == (s1 + s2)[k]);
        }
    }
    assert(b.subrange(i + s1.len(), i + s1.len() + s2.len()) =~= s2) by {
        assert forall|k: int| 0 <= k < s2.len() implies b.subrange(
            i + s1.len(),
            i + s1.len() + s2.len(),
        )[k] == s2[k] by {
            assert(b.subrange(i, i + (s1 + s2).len())[k + s1.len()] == (s1 + s2)[k + s1.len()]);
        }
    }
}

/// Decoding a head that stands at `i` yields the head's major and value.
pub proof fn lemma_dec_head(b: Seq<u8>, i: int, major: u8, v: u64)
    requires
        major < 8,
        at(b, i, head(major, v)),
    ensures
        dec_head(b, i) == Some((major, v, i + head(major, v).len())),
{
    let h = head(major, v);
    assert(b.subrange(i, i + h.len()) == h);
    if v < 24 {
        let ib = ((major << 5) | (v as u8)) as u8;
        assert(b[i] == ib) by {
            assert(b.subrange(i, i + 1)[0] == h[0]);
        }
        assert(major < 8 && v < 24 ==> (ib >> 5) == major && ((ib & 0x1f) as u64) == v)
            by (bit_vector)
            requires
                ib == ((major << 5) | (v as u8)) as u8,
        ;
    } else {
        let ai: u8 = if v <= 0xff {
            24
        } else if v <= 0xffff {
            25
        } else if v <= 0xffff_ffff {
            26
        } else {
            27
        };
        let ib = ((major << 5) | ai) as u8;
        assert(b[i] == ib) by {
            assert(b.subrange(i, i + h.len())[0] == h[0]);
        }
        assert(major < 8 && 24 <= ai < 28 ==> (ib >> 5) == major && (ib & 0x1f) == ai)
            by (bit_vector)
            requires
                ib == ((major << 5) | ai) as u8,
        ;
        if v <= 0xff {
            assert(b[i + 1] == (v as u8)) by {
                assert(b.subrange(i, i + h.len())[1] == h[1]);
            }
            assert((v as u8) as u64 == v) by (bit_vector)
                requires
                    24 <= v <= 0xff,
            ;
        } else if v <= 0xffff {
            let v16 = v as u16;
            assert(b[i + 1] == ((v16 >> 8) & 0xff) as u8 && b[i + 2] == (v16 & 0xff) as u8) by {
                assert(b.subrange(i, i + h.len())[1] == h[1]);
                assert(b.subrange(i, i + h.len())[2] == h[2]);
            }
            crate::wire::lemma_be16_roundtrip(v16);
            assert(v16 as u64 == v) by (bit_vector)
                requires
                    v16 == v as u16,
                    0xff < v <= 0xffff,
            ;
        } else if v <= 0xffff_ffff {
            let v32 = v as u32;
            assert(b[i + 1] == ((v32 >> 24) & 0xff) as u8 && b[i + 2] == ((v32 >> 16) & 0xff) as u8
                && b[i + 3] == ((v32 >> 8) & 0xff) as u8 && b[i + 4] == (v32 & 0xff) as u8) by {
                assert(b.subrange(i, i + h.len())[1] == h[1]);
                assert(b.subrange(i, i + h.len())[2] == h[2]);
                assert(b.subrange(i, i + h.len())[3] == h[3]);
                assert(b.subrange(i, i + h.len())[4] == h[4]);
            }
            crate::wire::lemma_be32_roundtrip(v32);
            assert(v32 as u64 == v) by (bit_vector)
                requires
                    v32 == v as u32,
                    0xffff < v <= 0xffff_ffff,
            ;
        } else {
            assert(b[i + 1] == ((v >> 56) & 0xff) as u8 && b[i + 2] == ((v >> 48) & 0xff) as u8 && b[
                i + 3] == ((v >> 40) & 0xff) as u8 && b[i + 4] == ((v >> 32) & 0xff) as u8 && b[i
                + 5] == ((v >> 24) & 0xff) as u8 && b[i + 6] == ((v >> 16) & 0xff) as u8 && b[i + 7]
                == ((v >> 8) & 0xff) as u8 && b[i + 8] == (v & 0xff) as u8) by {
                assert(b.subrange(i, i + h.len())[1] == h[1]);
                assert(b.subrange(i, i + h.len())[2] == h[2]);
                assert(b.subrange(i, i + h.len())[3] == h[3]);
                assert(b.subrange(i, i + h.len())[4] == h[4]);
                assert(b.subrange(i, i + h.len())[5] == h[5]);
                assert(b.subrange(i, i + h.len())[6] == h[6]);
                assert(b.subrange(i, i + h.len())[7] == h[7]);
                assert(b.subrange(i, i + h.len())[8] == h[8]);
            }
            crate::wire::lemma_be64_roundtrip(v);
        }
    }
}

/// Decoding a byte string that stands at `i` yields its payload.
pub proof fn lemma_dec_bytes(b: Seq<u8>, i: int, s: Seq<u8>)
    requires
        s.len() <= u64::MAX,
        at(b, i, enc_bytes(s)),
    ensures
        dec_bytes(b, i) == Some((s, i + enc_bytes(s).len())),
{
    reveal(dec_bytes);
    reveal(dec_raw);
    let h = head(2, s.len() as u64);
    lemma_at_concat(b, i, h, s);
    lemma_dec_head(b, i, 2, s.len() as u64);
    let ib = b[i];
    assert(ib == ((2u8 << 5) | 0x1f) ==> (ib & 0x1f) == 31 && 31 >= 28) by (bit_vector);
    assert(b[i] != ((2u8 << 5) | 0x1f) as u8);
    let j = i + h.len();
    assert(b.subrange(j, j + s.len()) == s);
}

/// Decoding a text string that stands at `i` yields its characters.
pub proof fn lemma_dec_text(b: Seq<u8>, i: int, chars: Seq<char>)
    requires
        vstd::utf8::encode_utf8(chars).len() <= u64::MAX,
        at(b, i, enc_text(chars)),
    ensures
        dec_text(b, i) == Some((chars, i + enc_text(chars).len())),
{
    reveal(dec_text);
    reveal(dec_raw);
    let s = vstd::utf8::encode_utf8(chars);
    let h = head(3, s.len() as u64);
    lemma_at_concat(b, i, h, s);
    lemma_dec_head(b, i, 3, s.len() as u64);
    let ib = b[i];
    assert(ib == ((3u8 << 5) | 0x1f) ==> (ib & 0x1f) == 31 && 31 >= 28) by (bit_vector);
    assert(b[i] != ((3u8 << 5) | 0x1f) as u8);
    let j = i + h.len();
    assert(b.subrange(j, j + s.len()) == s);
    vstd::utf8::encode_utf8_valid_utf8(chars);
    vstd::utf8::encode_utf8_decode_utf8(chars);
}

/// Decoding a null that stands at `i` steps over it.
pub proof fn lemma_dec_null(b: Seq<u8>, i: int)
    requires
        at(b, i, enc_null()),
    ensures
        dec_head(b, i) == Some((7u8, 22u64, i + 1)),
{
    assert(b[i] == 0xf6) by {
        assert(b.subrange(i, i + 1)[0] == enc_null()[0]);
    }
    let ib = b[i];
    assert(ib == 0xf6 ==> (ib >> 5) == 7 && (ib & 0x1f) == 22) by (bit_vector);
}

/// Read a head at `i`.
pub fn read_head(b: &[u8], i: usize) -> (r: Result<(u8, u64, usize), SimpleError>)
    ensures
        match r {
            Ok((major, v, j)) => dec_head(b@, i as int) == Some((major, v, j as int)) && i < j
                <= b@.len() && major < 8,
            Err(e) => dec_head(b@, i as int) is None && e.kind == ErrorKind::Parse,
        },
{
    if i >= b.len() {
        return Err(SimpleError::new(ErrorKind::Parse));
    }
    let ib = b[i];
    let major = ib >> 5;
    let ai = ib & 0x1f;
    proof {
        assert(ib >> 5 < 8 && (ib & 0x1f) < 32) by (bit_vector);
    }
    if ai < 24 {
        Ok((major, ai as u64, i + 1))
    } else if ai == 24 {
        if b.len() - i >= 2 {
            Ok((major, b[i + 1] as u64, i + 2))
        } else {
            Err(SimpleError::new(ErrorKind::Parse))
        }
    } else if ai == 25 {
        if b.len() - i >= 3 {
            Ok((major, read_be16(b, i + 1) as u64, i + 3))
        } else {
            Err(SimpleError::new(ErrorKind::Parse))
        }
    } else if ai == 26 {
        if b.len() - i >= 5 {
            Ok((major, read_be32(b, i + 1) as u64, i + 5))
        } else {
            Err(SimpleError::new(ErrorKind::Parse))
        }
    } else if ai == 27 {
        if b.len() - i >= 9 {
            Ok((major, read_be64(b, i + 1), i + 9))
        } else {
            Err(SimpleError::new(ErrorKind::Parse))
        }
    } else {
        Err(SimpleError::new(ErrorKind::Parse))
    }
}

/// Append a head.
pub fn write_head(out: &mut Vec<u8>, major: u8, v: u64)
    requires
        major < 8,
    ensures
        final(out)@ == old(out)@ + head(major, v),
{
    if v < 24 {
        out.push((major << 5) | (v as u8));
        proof {
            assert(out@ =~= old(out)@ + head(major, v));
        }
    } else if v <= 0xff {
        out.push((major << 5) | 24);
        out.push(#[verifier::truncate] (v as u8));
        proof {
            assert(out@ =~= old(out)@ + head(major, v));
        }
    } else if v <= 0xffff {
        out.push((major << 5) | 25);
        let v16 = #[verifier::truncate] (v as u16);
        out.push(#[verifier::truncate] (((v16 >> 8) & 0xff) as u8));
        out.push(#[verifier::truncate] ((v16 & 0xff) as u8));
        proof {
            assert(out@ =~= old(out)@ + head(major, v));
        }
    } else if v <= 0xffff_ffff {
        out.push((major << 5) | 26);
        let v32 = #[verifier::truncate] (v as u32);
        out.push(#[verifier::truncate] (((v32 >> 24) & 0xff) as u8));
        out.push(#[verifier::truncate] (((v32 >> 16) & 0xff) as u8));
        out.push(#[verifier::truncate] (((v32 >> 8) & 0xff) as u8));
        out.push(#[verifier::truncate] ((v32 & 0xff) as u8));
        proof {
            assert(out@ =~= old(out)@ + head(major, v));
        }
    } else {
        out.push((major << 5) | 27);
        out.push(#[verifier::truncate] (((v >> 56) & 0xff) as u8));
        out.push(#[verifier::truncate] (((v >> 48) & 0xff) as u8));
        out.push(#[verifier::truncate] (((v >> 40) & 0xff) as u8));
        out.push(#[verifier::truncate] (((v >> 32) & 0xff) as u8));
        out.push(#[verifier::truncate] (((v >> 24) & 0xff) as u8));
        out.push(#[verifier::truncate] (((v >> 16) & 0xff) as u8));
        out.push(#[verifier::truncate] (((v >> 8) & 0xff) as u8));
        out.push(#[verifier::truncate] ((v & 0xff) as u8));
        proof {
            assert(out@ =~= old(out)@ + head(major, v));
        }
    }
}

/// Read the payload of a string item of major type `major` at `i`.
#[verifier::loop_isolation(false)]
pub fn read_raw(b: &[u8], i: usize, major: u8) -> (r: Result<(Vec<u8>, usize), SimpleError>)
    requires
        major == 2 || major == 3,
    ensures
        match r {
            Ok((v, j)) => dec_raw(b@, i as int, major) == Some((v@, j as int)) && i < j <= b@.len(),
            Err(e) => dec_raw(b@, i as int, major) is None && e.kind == ErrorKind::Parse,
        },
{
    proof {
        reveal(dec_raw);
    }
    let indef_byte: u8 = (major << 5) | 0x1f;
    if i < b.len() && b[i] == indef_byte {
        let mut collected: Vec<u8> = Vec::new();
        let mut cur: usize = i + 1;
        loop
            invariant
                i + 1 <= cur <= b@.len(),
                match dec_chunks(b@, cur as int, major) {
                    Some((rest, end)) => dec_chunks(b@, i + 1, major) == Some(
                        (collected@ + rest, end),
                    ),
                    None => dec_chunks(b@, i + 1, major) is None,
                },
            decreases b@.len() - cur,
        {
            if cur >= b.len() {
                return Err(SimpleError::new(ErrorKind::Parse));
            }
            if b[cur] == 0xff {
                proof {
                    assert(collected@ + Seq::<u8>::empty() =~= collected@);
                }
                return Ok((collected, cur + 1));
            }
            let (m, n, j) = match read_head(b, cur) {
                Ok(h) => h,
                Err(e) => { return Err(e) },
            };
            if m != major {
                return Err(SimpleError::new(ErrorKind::Parse));
            }
            if n > (b.len() - j) as u64 {
                return Err(SimpleError::new(ErrorKind::Parse));
            }
            let n_us = n as usize;
            let ghost prev = collected@;
            crate::wire::push_slice(&mut collected, &b[j..j + n_us]);
            proof {
                assert(b@.subrange(j as int, j + n_us as int) == b@.subrange(
                    j as int,
                    j + n as int,
                ));
                match dec_chunks(b@, (j + n_us) as int, major) {
                    Some((rest, end)) => {
                        assert(prev + (b@.subrange(j as int, j + n as int) + rest) =~= collected@
                            + rest);
                    },
                    None => {},
                }
            }
            cur = j + n_us;
        }
    } else {
        let (m, n, j) = match read_head(b, i) {
            Ok(h) => h,
            Err(e) => { return Err(e) },
        };
        if m != major {
            return Err(SimpleError::new(ErrorKind::Parse));
        }
        if n > (b.len() - j) as u64 {
            return Err(SimpleError::new(ErrorKind::Parse));
        }
        let n_us = n as usize;
        let mut payload: Vec<u8> = Vec::new();
        crate::wire::push_slice(&mut payload, &b[j..j + n_us]);
        proof {
            assert(payload@ =~= b@.subrange(j as int, j + n as int));
        }
        Ok((payload, j + n_us))
    }
}

/// Read a byte string item at `i`.
pub fn read_bytes_item(b: &[u8], i: usize) -> (r: Result<(Vec<u8>, usize), SimpleError>)
    ensures
        match r {
            Ok((v, j)) => dec_bytes(b@, i as int) == Some((v@, j as int)) && i < j <= b@.len(),
            Err(e) => dec_bytes(b@, i as int) is None && e.kind == ErrorKind::Parse,
        },
{
    proof {
        reveal(dec_bytes);
    }
    read_raw(b, i, 2)
}

/// Turn bytes into a string; relies on `core::str::from_utf8`, which
/// succeeds exactly on valid UTF-8 and decodes it.
#[verifier::external_body]
pub(crate) fn utf8_to_string(v: &[u8]) -> (r: Option<String>)
    ensures
        match r {
            Some(s) => vstd::utf8::valid_utf8(v@) && s@ == vstd::utf8::decode_utf8(v@),
            None => !vstd::utf8::valid_utf8(v@),
        },
{
    core::str::from_utf8(v).ok().map(|s| s.to_owned())
}

/// Read a text string item at `i`.
pub fn read_text_item(b: &[u8], i: usize) -> (r: Result<(String, usize), SimpleError>)
    ensures
        match r {
            Ok((v, j)) => dec_text(b@, i as int) == Some((v@, j as int)) && i < j <= b@.len(),
            Err(e) => dec_text(b@, i as int) is None && e.kind == ErrorKind::Parse,
        },
{
    proof {
        reveal(dec_text);
    }
    let (payload, j) = match read_raw(b, i, 3) {
        Ok(p) => p,
        Err(e) => { return Err(e) },
    };
    match utf8_to_string(payload.as_slice()) {
        Some(s) => Ok((s, j)),
        None => Err(SimpleError::new(ErrorKind::Parse)),
    }
}

/// Append a byte string item.
pub fn write_bytes_item(out: &mut Vec<u8>, s: &[u8])
    ensures
        final(out)@ == old(out)@ + enc_bytes(s@),
{
    write_head(out, 2, s.len() as u64);
    crate::wire::push_slice(out, s);
    proof {
        assert(out@ =~= old(out)@ + enc_bytes(s@));
    }
}

/// Get a string's UTF-8 bytes; relies on `str::as_bytes`.
pub fn string_utf8_bytes(s: &String) -> (r: Vec<u8>)
    ensures
        r@ == vstd::utf8::encode_utf8(s@),
{
    let b = s.as_str().as_bytes();
    let mut v: Vec<u8> = Vec::new();
    crate::wire::push_slice(&mut v, b);
    proof {
        assert(v@ =~= b@);
    }
    v
}

/// Append a text string item.
pub fn write_text_item(out: &mut Vec<u8>, s: &String)
    ensures
        final(out)@ == old(out)@ + enc_text(s@),
{
    let bytes = string_utf8_bytes(s);
    write_head(out, 3, bytes.len() as u64);
    crate::wire::push_slice(out, bytes.as_slice());
    proof {
        assert(out@ =~= old(out)@ + enc_text(s@));
    }
}

/// Append a boolean item.
pub fn write_bool_item(out: &mut Vec<u8>, v: bool)
    ensures
        final(out)@ == old(out)@ + enc_bool(v),
{
    if v {
        out.push(0xf5);
    } else {
        out.push(0xf4);
    }
    proof {
        assert(out@ =~= old(out)@ + enc_bool(v));
    }
}

/// Append a null item.
pub fn write_null_item(out: &mut Vec<u8>)
    ensures
        final(out)@ == old(out)@ + enc_null(),
{
    out.push(0xf6);
    proof {
        assert(out@ =~= old(out)@ + enc_null());
    }
}

/// Skip one item at `i`, mirroring [`skip_item`].
pub fn skip_item_at(b: &[u8], i: usize, fuel: usize) -> (r: Result<usize, SimpleError>)
    ensures
        match r {
            Ok(j) => skip_item(b@, i as int, fuel as nat) == Some(j as int) && i < j <= b@.len(),
            Err(e) => skip_item(b@, i as int, fuel as nat) is None && e.kind == ErrorKind::Parse,
        },
    decreases fuel, 0nat,
{
    if i >= b.len() {
        return Err(SimpleError::new(ErrorKind::Parse));
    }
    let ib = b[i];
    let major = ib >> 5;
    let ai = ib & 0x1f;
    proof {
        assert(ib >> 5 < 8 && (ib & 0x1f) < 32) by (bit_vector);
    }
    if major == 2 || major == 3 {
        match read_raw(b, i, major) {
            Ok((_, j)) => Ok(j),
            Err(e) => Err(e),
        }
    } else if major == 0 || major == 1 {
        match read_head(b, i) {
            Ok((_, _, j)) => Ok(j),
            Err(e) => Err(e),
        }
    } else if major == 7 {
        if ai < 24 {
            Ok(i + 1)
        } else if ai == 24 && b.len() - i >= 2 {
            Ok(i + 2)
        } else if ai == 25 && b.len() - i >= 3 {
            Ok(i + 3)
        } else if ai == 26 && b.len() - i >= 5 {
            Ok(i + 5)
        } else if ai == 27 && b.len() - i >= 9 {
            Ok(i + 9)
        } else {
            Err(SimpleError::new(ErrorKind::Parse))
        }
    } else if fuel == 0 {
        Err(SimpleError::new(ErrorKind::Parse))
    } else if major == 6 {
        match read_head(b, i) {
            Ok((_, _, j)) => skip_item_at(b, j, fuel - 1),
            Err(e) => Err(e),
        }
    } else {
        match read_head(b, i) {
            Ok((_, n, j)) => if major == 5 {
                if n <= 0x7fff_ffff_ffff_ffff {
                    skip_items_at(b, j, 2 * n, fuel - 1)
                } else {
                    Err(SimpleError::new(ErrorKind::Parse))
                }
            } else {
                skip_items_at(b, j, n, fuel - 1)
            },
            Err(e) => Err(e),
        }
    }
}

/// Skip `n` items starting at `i`, mirroring [`skip_items`].
pub fn skip_items_at(b: &[u8], i: usize, n: u64, fuel: usize) -> (r: Result<usize, SimpleError>)
    requires
        i <= b@.len(),
    ensures
        match r {
            Ok(j) => skip_items(b@, i as int, n, fuel as nat) == Some(j as int) && i <= j
                <= b@.len(),
            Err(e) => skip_items(b@, i as int, n, fuel as nat) is None && e.kind
                == ErrorKind::Parse,
        },
    decreases fuel, n + 1nat,
{
    if n == 0 {
        Ok(i)
    } else {
        match skip_item_at(b, i, fuel) {
            Ok(j) => skip_items_at(b, j, n - 1, fuel),
            Err(e) => Err(e),
        }
    }
}

} // verus!
