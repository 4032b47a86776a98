//! Edition records: one per append to an archive.

use vstd::prelude::*;

use crate::cbor;
use crate::error::{ErrorKind, SimpleError};
use crate::integrity::DigestType;
use crate::strings::{
    attrmap_wf, dec_attrmap, enc_attrmap, lemma_dec_attrmap, read_attrmap, write_attrmap, AttrMap,
    AttrVal,
};
use crate::timestamps::{
    dec_timestamp, enc_timestamp, lemma_dec_timestamp, read_timestamp, ts_wf, write_timestamp,
    Timestamp,
};

verus! {

/// An edition: a version record for one append to the archive.
pub struct Edition {
    /// Edition number; never zero.
    pub number: u16,
    /// When the edition was written.
    pub written_at: Timestamp,
    /// Digest algorithm used by this edition's content.
    pub digest_type: DigestType,
    /// User metadata for the edition.
    pub user_metadata: Option<AttrMap>,
}

/// The mathematical value of an [`Edition`].
#[verifier::ext_equal]
pub struct EditionV {
    /// Edition number.
    pub number: u16,
    /// When the edition was written.
    pub written_at: Seq<char>,
    /// Digest algorithm used by this edition's content.
    pub digest_type: DigestType,
    /// User metadata for the edition.
    pub user_metadata: Option<Seq<(Seq<char>, AttrVal)>>,
}

impl View for Edition {
    type V = EditionV;

    open spec fn view(&self) -> EditionV {
        EditionV {
            number: self.number,
            written_at: self.written_at@,
            digest_type: self.digest_type,
            user_metadata: match &self.user_metadata {
                Some(m) => Some(m@),
                None => None,
            },
        }
    }
}

impl Edition {
    /// A copy of this record.
    pub fn duplicate(&self) -> (r: Edition)
        ensures
            r@ == self@,
    {
        Edition {
            number: self.number,
            written_at: self.written_at.duplicate(),
            digest_type: self.digest_type,
            user_metadata: match &self.user_metadata {
                Some(m) => Some(m.duplicate()),
                None => None,
            },
        }
    }
}

/// The record's fields fit the wire format.
pub open spec fn editionv_wf(v: EditionV) -> bool {
    v.number != 0 && ts_wf(v.written_at) && match v.user_metadata {
        Some(m) => attrmap_wf(m),
        None => true,
    }
}

/// How many map pairs the record encodes to.
pub open spec fn edition_count(v: EditionV) -> u64 {
    match v.user_metadata {
        Some(_) => 4,
        None => 3,
    }
}

/// The encoding of an edition record.
pub open spec fn enc_edition(v: EditionV) -> Seq<u8> {
    cbor::enc_map(edition_count(v)) + (cbor::enc_uint(0) + cbor::enc_uint(v.number as u64)) + (
    cbor::enc_uint(1) + enc_timestamp(v.written_at)) + (cbor::enc_uint(2) + cbor::enc_uint(
        v.digest_type.spec_tag() as u64,
    )) + (match v.user_metadata {
        Some(m) => cbor::enc_uint(10) + enc_attrmap(m),
        None => Seq::empty(),
    })
}

/// `n` edition map pairs starting at `i`, folded into `acc`.
pub open spec fn dec_edition_pairs(
    b: Seq<u8>,
    i: int,
    n: u64,
    acc: EditionV,
    g0: bool,
    g1: bool,
    g2: bool,
) -> Option<(EditionV, int)>
    decreases n,
{
    if n == 0 {
        if g0 && g1 && g2 {
            Some((acc, i))
        } else {
            None
        }
    } else {
        match cbor::dec_head(b, i) {
            Some((m, k, j)) => if m != 0 {
                None
            } else if k == 0 {
                match cbor::dec_head(b, j) {
                    Some((m2, v, j2)) => if m2 == 0 && 1 <= v <= 0xffff {
                        dec_edition_pairs(
                            b,
                            j2,
                            (n - 1) as u64,
                            EditionV { number: v as u16, ..acc },
                            true,
                            g1,
                            g2,
                        )
                    } else {
                        None
                    },
                    None => None,
                }
            } else if k == 1 {
                match dec_timestamp(b, j) {
                    Some((t, j2)) => dec_edition_pairs(
                        b,
                        j2,
                        (n - 1) as u64,
                        EditionV { written_at: t, ..acc },
                        g0,
                        true,
                        g2,
                    ),
                    None => None,
                }
            } else if k == 2 {
                match cbor::dec_head(b, j) {
                    Some((m2, v, j2)) => if m2 == 0 && v <= 0xff && DigestType::spec_from_tag(
                        v as u8,
                    ) is Some {
                        dec_edition_pairs(
                            b,
                            j2,
                            (n - 1) as u64,
                            EditionV {
                                digest_type: DigestType::spec_from_tag(v as u8)->Some_0,
                                ..acc
                            },
                            g0,
                            g1,
                            true,
                        )
                    } else {
                        None
                    },
                    None => None,
                }
            } else if k == 10 {
                match dec_attrmap(b, j) {
                    Some((um, j2)) => dec_edition_pairs(
                        b,
                        j2,
                        (n - 1) as u64,
                        EditionV { user_metadata: Some(um), ..acc },
                        g0,
                        g1,
                        g2,
                    ),
                    None => None,
                }
            } else {
                match cbor::skip_item(b, j, (b.len() - j) as nat) {
                    Some(j2) => if j < j2 {
                        dec_edition_pairs(b, j2, (n - 1) as u64, acc, g0, g1, g2)
                    } else {
                        None
                    },
                    None => None,
                }
            },
            None => None,
        }
    }
}

/// The fold's starting value.
pub open spec fn edition_acc0() -> EditionV {
    EditionV {
        number: 0,
        written_at: Seq::empty(),
        digest_type: DigestType::Blake3,
        user_metadata: None,
    }
}

/// An edition record at `i`.
#[verifier::opaque]
pub open spec fn dec_edition(b: Seq<u8>, i: int) -> Option<(EditionV, int)> {
    match cbor::dec_head(b, i) {
        Some((major, n, j)) => if major == 5 {
            dec_edition_pairs(b, j, n, edition_acc0(), false, false, false)
        } else {
            None
        },
        None => None,
    }
}

/// Decoding an edition record that stands at `i` yields it.
pub proof fn lemma_dec_edition(b: Seq<u8>, i: int, v: EditionV)
    requires
        editionv_wf(v),
        cbor::at(b, i, enc_edition(v)),
    ensures
        dec_edition(b, i) == Some((v, i + enc_edition(v).len())),
{
    reveal(dec_edition);
    let n = edition_count(v);
    let h = cbor::enc_map(n);
    let e0 = cbor::enc_uint(0) + cbor::enc_uint(v.number as u64);
    let e1 = cbor::enc_uint(1) + enc_timestamp(v.written_at);
    let e2 = cbor::enc_uint(2) + cbor::enc_uint(v.digest_type.spec_tag() as u64);
    let e3 = match v.user_metadata {
        Some(m) => cbor::enc_uint(10) + enc_attrmap(m),
        None => Seq::<u8>::empty(),
    };
    cbor::lemma_at_concat(b, i, h + e0 + e1 + e2, e3);
    cbor::lemma_at_concat(b, i, h + e0 + e1, e2);
    cbor::lemma_at_concat(b, i, h + e0, e1);
    cbor::lemma_at_concat(b, i, h, e0);
    cbor::lemma_dec_head(b, i, 5, n);
    let p0 = i + h.len();
    let p1 = p0 + e0.len();
    let p2 = p1 + e1.len();
    let p3 = p2 + e2.len();
    cbor::lemma_at_concat(b, p0, cbor::enc_uint(0), cbor::enc_uint(v.number as u64));
    cbor::lemma_dec_head(b, p0, 0, 0);
    cbor::lemma_dec_head(b, p0 + cbor::enc_uint(0).len(), 0, v.number as u64);
    cbor::lemma_at_concat(b, p1, cbor::enc_uint(1), enc_timestamp(v.written_at));
    cbor::lemma_dec_head(b, p1, 0, 1);
    lemma_dec_timestamp(b, p1 + cbor::enc_uint(1).len(), v.written_at);
    cbor::lemma_at_concat(b, p2, cbor::enc_uint(2), cbor::enc_uint(v.digest_type.spec_tag() as u64));
    cbor::lemma_dec_head(b, p2, 0, 2);
    cbor::lemma_dec_head(b, p2 + cbor::enc_uint(2).len(), 0, v.digest_type.spec_tag() as u64);
    let acc0 = edition_acc0();
    let acc1 = EditionV { number: v.number, ..acc0 };
    let acc2 = EditionV { written_at: v.written_at, ..acc1 };
    let acc3 = EditionV { digest_type: v.digest_type, ..acc2 };
    let acc4 = EditionV { user_metadata: v.user_metadata, ..acc3 };
    assert(dec_edition_pairs(b, p0, n, acc0, false, false, false) == dec_edition_pairs(
        b,
        p1,
        (n - 1) as u64,
        acc1,
        true,
        false,
        false,
    ));
    assert(dec_edition_pairs(b, p1, (n - 1) as u64, acc1, true, false, false) == dec_edition_pairs(
        b,
        p2,
        (n - 2) as u64,
        acc2,
        true,
        true,
        false,
    ));
    assert(dec_edition_pairs(b, p2, (n - 2) as u64, acc2, true, true, false) == dec_edition_pairs(
        b,
        p3,
        (n - 3) as u64,
        acc3,
        true,
        true,
        true,
    ));
    match v.user_metadata {
        Some(m) => {
            cbor::lemma_at_concat(b, p3, cbor::enc_uint(10), enc_attrmap(m));
            cbor::lemma_dec_head(b, p3, 0, 10);
            lemma_dec_attrmap(b, p3 + cbor::enc_uint(10).len(), m);
            assert(dec_edition_pairs(b, p3, (n - 3) as u64, acc3, true, true, true)
                == dec_edition_pairs(b, p3 + e3.len(), 0, acc4, true, true, true));
        },
        None => {
            assert(acc4 == acc3);
        },
    }
    assert(dec_edition_pairs(b, p3, (n - 3) as u64, acc3, true, true, true) == dec_edition_pairs(
        b,
        p3 + e3.len(),
        0,
        acc4,
        true,
        true,
        true,
    ));
    assert(acc4 == v);
}

/// Append an edition record.
pub fn write_edition(out: &mut Vec<u8>, v: &Edition)
    requires
        v.number != 0,
    ensures
        final(out)@ == old(out)@ + enc_edition(v@),
{
    let count: u64 = if v.user_metadata.is_some() {
        4
    } else {
        3
    };
    cbor::write_head(out, 5, count);
    cbor::write_head(out, 0, 0);
    cbor::write_head(out, 0, v.number as u64);
    cbor::write_head(out, 0, 1);
    write_timestamp(out, &v.written_at);
    cbor::write_head(out, 0, 2);
    cbor::write_head(out, 0, v.digest_type.tag() as u64);
    match &v.user_metadata {
        Some(m) => {
            cbor::write_head(out, 0, 10);
            write_attrmap(out, m);
        },
        None => {},
    }
    proof {
        assert(out@ =~= old(out)@ + enc_edition(v@));
    }
}

/// Read an edition record at `i`.
#[verifier::loop_isolation(false)]
pub fn read_edition(b: &[u8], i: usize) -> (r: Result<(Edition, usize), SimpleError>)
    ensures
        match r {
            Ok((v, j)) => dec_edition(b@, i as int) == Some((v@, j as int)) && i < j <= b@.len()
                && v.number != 0,
            Err(e) => dec_edition(b@, i as int) is None && e.kind == ErrorKind::Parse,
        },
{
    proof {
        reveal(dec_edition);
    }
    let (major, n, j0) = match cbor::read_head(b, i) {
        Ok(h) => h,
        Err(e) => { return Err(e) },
    };
    if major != 5 {
        return Err(SimpleError::new(ErrorKind::Parse));
    }
    let mut acc = Edition {
        number: 0,
        written_at: Timestamp { rfc3339: String::new() },
        digest_type: DigestType::Blake3,
        user_metadata: None,
    };
    let mut g0 = false;
    let mut g1 = false;
    let mut g2 = false;
    let mut cur: usize = j0;
    let mut left: u64 = n;
    loop
        invariant
            i < cur <= b@.len(),
            left <= n,
            g0 ==> acc.number != 0,
            match dec_edition_pairs(b@, cur as int, left, acc@, g0, g1, g2) {
                Some(res) => dec_edition_pairs(b@, j0 as int, n, edition_acc0(), false, false, false)
                    == Some(res),
                None => dec_edition_pairs(
                    b@,
                    j0 as int,
                    n,
                    edition_acc0(),
                    false,
                    false,
                    false,
                ) is None,
            },
        decreases left,
    {
        if left == 0 {
            if g0 && g1 && g2 {
                return Ok((acc, cur));
            }
            return Err(SimpleError::new(ErrorKind::Parse));
        }
        let (m, k, j) = match cbor::read_head(b, cur) {
            Ok(h) => h,
            Err(e) => { return Err(e) },
        };
        if m != 0 {
            return Err(SimpleError::new(ErrorKind::Parse));
        }
        if k == 0 {
            let (m2, v, j2) = match cbor::read_head(b, j) {
                Ok(h) => h,
                Err(e) => { return Err(e) },
            };
            if !(m2 == 0 && 1 <= v && v <= 0xffff) {
                return Err(SimpleError::new(ErrorKind::Parse));
            }
            acc = Edition { number: v as u16, ..acc };
            g0 = true;
            cur = j2;
        } else if k == 1 {
            let (t, j2) = match read_timestamp(b, j) {
                Ok(x) => x,
                Err(e) => { return Err(e) },
            };
            acc = Edition { written_at: t, ..acc };
            g1 = true;
            cur = j2;
        } else if k == 2 {
            let (m2, v, j2) = match cbor::read_head(b, j) {
                Ok(h) => h,
                Err(e) => { return Err(e) },
            };
            if !(m2 == 0 && v <= 0xff) {
                return Err(SimpleError::new(ErrorKind::Parse));
            }
            let dt = match DigestType::from_tag(v as u8) {
                Some(dt) => dt,
                None => { return Err(SimpleError::new(ErrorKind::Parse)) },
            };
            acc = Edition { digest_type: dt, ..acc };
            g2 = true;
            cur = j2;
        } else if k == 10 {
            let (um, j2) = match read_attrmap(b, j) {
                Ok(x) => x,
                Err(e) => { return Err(e) },
            };
            acc = Edition { user_metadata: Some(um), ..acc };
            cur = j2;
        } else {
            let j2 = match cbor::skip_item_at(b, j, b.len() - j) {
                Ok(x) => x,
                Err(e) => { return Err(e) },
            };
            cur = j2;
        }
        left = left - 1;
    }
}

} // verus!
