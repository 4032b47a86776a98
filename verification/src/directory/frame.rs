//! Frame records: where a content frame sits and what it holds.

use vstd::prelude::*;

use crate::cbor;
use crate::error::{ErrorKind, SimpleError};
use crate::integrity::Digest;

verus! {

/// A content frame record: its edition, place, sizes and digest.
pub struct Frame {
    /// The edition that added this frame; never zero.
    pub edition: u16,
    /// Absolute byte offset of the frame in the archive.
    pub offset: u64,
    /// Digest of the uncompressed content.
    pub digest: Digest,
    /// On-disk length of the frame in bytes.
    pub length: u64,
    /// Uncompressed content size in bytes.
    pub uncompressed: u64,
}

/// The mathematical value of a [`Frame`].
#[verifier::ext_equal]
pub struct FrameV {
    /// The edition that added this frame.
    pub edition: u16,
    /// Absolute byte offset of the frame in the archive.
    pub offset: u64,
    /// Digest of the uncompressed content.
    pub digest: Seq<u8>,
    /// On-disk length of the frame in bytes.
    pub length: u64,
    /// Uncompressed content size in bytes.
    pub uncompressed: u64,
}

impl View for Frame {
    type V = FrameV;

    open spec fn view(&self) -> FrameV {
        FrameV {
            edition: self.edition,
            offset: self.offset,
            digest: self.digest@,
            length: self.length,
            uncompressed: self.uncompressed,
        }
    }
}

impl Frame {
    /// A copy of this record.
    pub fn duplicate(&self) -> (r: Frame)
        ensures
            r@ == self@,
    {
        Frame {
            edition: self.edition,
            offset: self.offset,
            digest: self.digest.duplicate(),
            length: self.length,
            uncompressed: self.uncompressed,
        }
    }
}

/// The record's fields fit the wire format.
pub open spec fn framev_wf(v: FrameV) -> bool {
    v.edition != 0 && v.digest.len() <= u64::MAX
}

/// The encoding of a frame record: a map of its five fields.
pub open spec fn enc_frame(v: FrameV) -> Seq<u8> {
    cbor::enc_map(5) + (cbor::enc_uint(0) + cbor::enc_uint(v.edition as u64)) + (cbor::enc_uint(1)
        + cbor::enc_uint(v.offset)) + (cbor::enc_uint(2) + cbor::enc_bytes(v.digest)) + (
    cbor::enc_uint(3) + cbor::enc_uint(v.length)) + (cbor::enc_uint(4) + cbor::enc_uint(
        v.uncompressed,
    ))
}

/// `n` frame map pairs starting at `i`, folded into `acc`; the flags say
/// which required fields have been seen.
pub open spec fn dec_frame_pairs(
    b: Seq<u8>,
    i: int,
    n: u64,
    acc: FrameV,
    g0: bool,
    g1: bool,
    g2: bool,
    g3: bool,
    g4: bool,
) -> Option<(FrameV, int)>
    decreases n,
{
    if n == 0 {
        if g0 && g1 && g2 && g3 && g4 {
            Some((acc, i))
        } else {
            None
        }
    } else {
        match cbor::dec_head(b, i) {
            Some((m, k, j)) => if m != 0 {
                None
            } else if k == 0 {
                match cbor::dec_head(b, j) {
                    Some((m2, v, j2)) => if m2 == 0 && 1 <= v <= 0xffff {
                        dec_frame_pairs(
                            b,
                            j2,
                            (n - 1) as u64,
                            FrameV { edition: v as u16, ..acc },
                            true,
                            g1,
                            g2,
                            g3,
                            g4,
                        )
                    } else {
                        None
                    },
                    None => None,
                }
            } else if k == 1 {
                match cbor::dec_head(b, j) {
                    Some((m2, v, j2)) => if m2 == 0 {
                        dec_frame_pairs(
                            b,
                            j2,
                            (n - 1) as u64,
                            FrameV { offset: v, ..acc },
                            g0,
                            true,
                            g2,
                            g3,
                            g4,
                        )
                    } else {
                        None
                    },
                    None => None,
                }
            } else if k == 2 {
                match cbor::dec_bytes(b, j) {
                    Some((d, j2)) => dec_frame_pairs(
                        b,
                        j2,
                        (n - 1) as u64,
                        FrameV { digest: d, ..acc },
                        g0,
                        g1,
                        true,
                        g3,
                        g4,
                    ),
                    None => None,
                }
            } else if k == 3 {
                match cbor::dec_head(b, j) {
                    Some((m2, v, j2)) => if m2 == 0 {
                        dec_frame_pairs(
                            b,
                            j2,
                            (n - 1) as u64,
                            FrameV { length: v, ..acc },
                            g0,
                            g1,
                            g2,
                            true,
                            g4,
                        )
                    } else {
                        None
                    },
                    None => None,
                }
            } else if k == 4 {
                match cbor::dec_head(b, j) {
                    Some((m2, v, j2)) => if m2 == 0 {
                        dec_frame_pairs(
                            b,
                            j2,
                            (n - 1) as u64,
                            FrameV { uncompressed: v, ..acc },
                            g0,
                            g1,
                            g2,
                            g3,
                            true,
                        )
                    } else {
                        None
                    },
                    None => None,
                }
            } else {
                match cbor::skip_item(b, j, (b.len() - j) as nat) {
                    Some(j2) => if j < j2 {
                        dec_frame_pairs(b, j2, (n - 1) as u64, acc, g0, g1, g2, g3, g4)
                    } else {
                        None
                    },
                    None => None,
                }
            },
            None => None,
        }
    }
}

/// A frame record at `i`.
#[verifier::opaque]
pub open spec fn dec_frame(b: Seq<u8>, i: int) -> Option<(FrameV, int)> {
    match cbor::dec_head(b, i) {
        Some((major, n, j)) => if major == 5 {
            dec_frame_pairs(
                b,
                j,
                n,
                FrameV { edition: 0, offset: 0, digest: Seq::empty(), length: 0, uncompressed: 0 },
                false,
                false,
                false,
                false,
                false,
            )
        } else {
            None
        },
        None => None,
    }
}

/// One uint-valued pair stands at `p`.
proof fn lemma_uint_pair(b: Seq<u8>, p: int, key: u64, v: u64)
    requires
        cbor::at(b, p, cbor::enc_uint(key) + cbor::enc_uint(v)),
    ensures
        cbor::dec_head(b, p) == Some((0u8, key, p + cbor::enc_uint(key).len())),
        cbor::dec_head(b, p + cbor::enc_uint(key).len()) == Some(
            (0u8, v, p + cbor::enc_uint(key).len() + cbor::enc_uint(v).len()),
        ),
{
    cbor::lemma_at_concat(b, p, cbor::enc_uint(key), cbor::enc_uint(v));
    cbor::lemma_dec_head(b, p, 0, key);
    cbor::lemma_dec_head(b, p + cbor::enc_uint(key).len(), 0, v);
}

/// Decoding a frame record that stands at `i` yields it.
pub proof fn lemma_dec_frame(b: Seq<u8>, i: int, v: FrameV)
    requires
        framev_wf(v),
        cbor::at(b, i, enc_frame(v)),
    ensures
        dec_frame(b, i) == Some((v, i + enc_frame(v).len())),
{
    reveal(dec_frame);
    let h = cbor::enc_map(5);
    let e0 = cbor::enc_uint(0) + cbor::enc_uint(v.edition as u64);
    let e1 = cbor::enc_uint(1) + cbor::enc_uint(v.offset);
    let e2 = cbor::enc_uint(2) + cbor::enc_bytes(v.digest);
    let e3 = cbor::enc_uint(3) + cbor::enc_uint(v.length);
    let e4 = cbor::enc_uint(4) + cbor::enc_uint(v.uncompressed);
    cbor::lemma_at_concat(b, i, h + e0 + e1 + e2 + e3, e4);
    cbor::lemma_at_concat(b, i, h + e0 + e1 + e2, e3);
    cbor::lemma_at_concat(b, i, h + e0 + e1, e2);
    cbor::lemma_at_concat(b, i, h + e0, e1);
    cbor::lemma_at_concat(b, i, h, e0);
    cbor::lemma_dec_head(b, i, 5, 5);
    let p0 = i + h.len();
    let p1 = p0 + e0.len();
    let p2 = p1 + e1.len();
    let p3 = p2 + e2.len();
    let p4 = p3 + e3.len();
    let p5 = p4 + e4.len();
    lemma_uint_pair(b, p0, 0, v.edition as u64);
    lemma_uint_pair(b, p1, 1, v.offset);
    cbor::lemma_at_concat(b, p2, cbor::enc_uint(2), cbor::enc_bytes(v.digest));
    cbor::lemma_dec_head(b, p2, 0, 2);
    cbor::lemma_dec_bytes(b, p2 + cbor::enc_uint(2).len(), v.digest);
    lemma_uint_pair(b, p3, 3, v.length);
    lemma_uint_pair(b, p4, 4, v.uncompressed);
    let acc0 = FrameV { edition: 0, offset: 0, digest: Seq::empty(), length: 0, uncompressed: 0 };
    let acc1 = FrameV { edition: v.edition, ..acc0 };
    let acc2 = FrameV { offset: v.offset, ..acc1 };
    let acc3 = FrameV { digest: v.digest, ..acc2 };
    let acc4 = FrameV { length: v.length, ..acc3 };
    let acc5 = FrameV { uncompressed: v.uncompressed, ..acc4 };
    assert(dec_frame_pairs(b, p0, 5, acc0, false, false, false, false, false) == dec_frame_pairs(
        b,
        p1,
        4,
        acc1,
        true,
        false,
        false,
        false,
        false,
    ));
    assert(dec_frame_pairs(b, p1, 4, acc1, true, false, false, false, false) == dec_frame_pairs(
        b,
        p2,
        3,
        acc2,
        true,
        true,
        false,
        false,
        false,
    ));
    assert(dec_frame_pairs(b, p2, 3, acc2, true, true, false, false, false) == dec_frame_pairs(
        b,
        p3,
        2,
        acc3,
        true,
        true,
        true,
        false,
        false,
    ));
    assert(dec_frame_pairs(b, p3, 2, acc3, true, true, true, false, false) == dec_frame_pairs(
        b,
        p4,
        1,
        acc4,
        true,
        true,
        true,
        true,
        false,
    ));
    assert(dec_frame_pairs(b, p4, 1, acc4, true, true, true, true, false) == dec_frame_pairs(
        b,
        p5,
        0,
        acc5,
        true,
        true,
        true,
        true,
        true,
    ));
    assert(acc5 == v);
}

/// Append a frame record.
pub fn write_frame(out: &mut Vec<u8>, v: &Frame)
    requires
        v.edition != 0,
    ensures
        final(out)@ == old(out)@ + enc_frame(v@),
{
    cbor::write_head(out, 5, 5);
    cbor::write_head(out, 0, 0);
    cbor::write_head(out, 0, v.edition as u64);
    cbor::write_head(out, 0, 1);
    cbor::write_head(out, 0, v.offset);
    cbor::write_head(out, 0, 2);
    cbor::write_bytes_item(out, v.digest.0.as_slice());
    cbor::write_head(out, 0, 3);
    cbor::write_head(out, 0, v.length);
    cbor::write_head(out, 0, 4);
    cbor::write_head(out, 0, v.uncompressed);
    proof {
        assert(out@ =~= old(out)@ + enc_frame(v@));
    }
}

/// Read a frame record at `i`.
#[verifier::loop_isolation(false)]
pub fn read_frame(b: &[u8], i: usize) -> (r: Result<(Frame, usize), SimpleError>)
    ensures
        match r {
            Ok((v, j)) => dec_frame(b@, i as int) == Some((v@, j as int)) && i < j <= b@.len()
                && v.edition != 0,
            Err(e) => dec_frame(b@, i as int) is None && e.kind == ErrorKind::Parse,
        },
{
    proof {
        reveal(dec_frame);
    }
    let (major, n, j0) = match cbor::read_head(b, i) {
        Ok(h) => h,
        Err(e) => { return Err(e) },
    };
    if major != 5 {
        return Err(SimpleError::new(ErrorKind::Parse));
    }
    let mut acc = Frame {
        edition: 0,
        offset: 0,
        digest: Digest(Vec::new()),
        length: 0,
        uncompressed: 0,
    };
    let mut g0 = false;
    let mut g1 = false;
    let mut g2 = false;
    let mut g3 = false;
    let mut g4 = false;
    let mut cur: usize = j0;
    let mut left: u64 = n;
    loop
        invariant
            i < cur <= b@.len(),
            left <= n,
            g0 ==> acc.edition != 0,
            match dec_frame_pairs(b@, cur as int, left, acc@, g0, g1, g2, g3, g4) {
                Some(res) => dec_frame_pairs(
                    b@,
                    j0 as int,
                    n,
                    FrameV {
                        edition: 0,
                        offset: 0,
                        digest: Seq::empty(),
                        length: 0,
                        uncompressed: 0,
                    },
                    false,
                    false,
                    false,
                    false,
                    false,
                ) == Some(res),
                None => dec_frame_pairs(
                    b@,
                    j0 as int,
                    n,
                    FrameV {
                        edition: 0,
                        offset: 0,
                        digest: Seq::empty(),
                        length: 0,
                        uncompressed: 0,
                    },
                    false,
                    false,
                    false,
                    false,
                    false,
                ) is None,
            },
        decreases left,
    {
        if left == 0 {
            if g0 && g1 && g2 && g3 && g4 {
                return Ok((acc, cur));
            }
            return Err(SimpleError::new(ErrorKind::Parse));
        }
        let (m, k, j) = match cbor::read_head(b, cur) {
            Ok(h) => h,
            Err(e) => { return Err(e) },
        };
        if m != 0 {
            return Err(SimpleError::new(ErrorKind::Parse));
        }
        if k == 0 {
            let (m2, v, j2) = match cbor::read_head(b, j) {
                Ok(h) => h,
                Err(e) => { return Err(e) },
            };
            if !(m2 == 0 && 1 <= v && v <= 0xffff) {
                return Err(SimpleError::new(ErrorKind::Parse));
            }
            acc = Frame { edition: v as u16, ..acc };
            g0 = true;
            cur = j2;
        } else if k == 1 {
            let (m2, v, j2) = match cbor::read_head(b, j) {
                Ok(h) => h,
                Err(e) => { return Err(e) },
            };
            if m2 != 0 {
                return Err(SimpleError::new(ErrorKind::Parse));
            }
            acc = Frame { offset: v, ..acc };
            g1 = true;
            cur = j2;
        } else if k == 2 {
            let (d, j2) = match cbor::read_bytes_item(b, j) {
                Ok(x) => x,
                Err(e) => { return Err(e) },
            };
            acc = Frame { digest: Digest(d), ..acc };
            g2 = true;
            cur = j2;
        } else if k == 3 {
            let (m2, v, j2) = match cbor::read_head(b, j) {
                Ok(h) => h,
                Err(e) => { return Err(e) },
            };
            if m2 != 0 {
                return Err(SimpleError::new(ErrorKind::Parse));
            }
            acc = Frame { length: v, ..acc };
            g3 = true;
            cur = j2;
        } else if k == 4 {
            let (m2, v, j2) = match cbor::read_head(b, j) {
                Ok(h) => h,
                Err(e) => { return Err(e) },
            };
            if m2 != 0 {
                return Err(SimpleError::new(ErrorKind::Parse));
            }
            acc = Frame { uncompressed: v, ..acc };
            g4 = true;
            cur = j2;
        } else {
            let j2 = match cbor::skip_item_at(b, j, b.len() - j) {
                Ok(x) => x,
                Err(e) => { return Err(e) },
            };
            cur = j2;
        }
        left = left - 1;
    }
}

} // verus!
