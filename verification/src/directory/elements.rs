//! Element frames: the 4-byte-header wrapper around each directory record.
//!
//! The directory's uncompressed payload is a sequence of element frames:
//! a kind byte, a 16-bit little-endian payload length, one reserved byte,
//! then the record payload. Unknown kinds are skipped by length so that
//! older readers tolerate format extensions.

use vstd::prelude::*;

use crate::cbor;
use crate::directory::edition::{
    dec_edition, editionv_wf, enc_edition, lemma_dec_edition, read_edition, write_edition, Edition,
    EditionV,
};
use crate::directory::file::{
    dec_file, enc_file, filev_wf, lemma_dec_file, read_file, write_file, File, FileV,
};
use crate::directory::frame::{
    dec_frame, enc_frame, framev_wf, lemma_dec_frame, read_frame, write_frame, Frame, FrameV,
};
use crate::error::{ErrorKind, SimpleError};
use crate::wire::{le16, le16_val, lemma_le16_roundtrip, push_le16, read_le16};

verus! {

/// The kind of an element.
#[derive(Clone, Copy, Debug, PartialEq, Eq, Structural)]
pub enum ElementKind {
    /// An edition record.
    Edition,
    /// A file record.
    File,
    /// A frame record.
    Frame,
    /// A kind this library does not know; skipped by length.
    Unknown(u8),
}

impl ElementKind {
    /// The wire tag of this kind.
    pub open spec fn spec_tag(self) -> u8 {
        match self {
            ElementKind::Edition => 1,
            ElementKind::File => 2,
            ElementKind::Frame => 3,
            ElementKind::Unknown(t) => t,
        }
    }

    /// The wire tag of this kind.
    pub fn tag(self) -> (r: u8)
        ensures
            r == self.spec_tag(),
    {
        match self {
            ElementKind::Edition => 1,
            ElementKind::File => 2,
            ElementKind::Frame => 3,
            ElementKind::Unknown(t) => t,
        }
    }

    /// The kind a wire tag names.
    pub fn from_tag(t: u8) -> (r: ElementKind)
        ensures
            t == 1 ==> r == ElementKind::Edition,
            t == 2 ==> r == ElementKind::File,
            t == 3 ==> r == ElementKind::Frame,
            !(1 <= t <= 3) ==> r == ElementKind::Unknown(t),
    {
        if t == 1 {
            ElementKind::Edition
        } else if t == 2 {
            ElementKind::File
        } else if t == 3 {
            ElementKind::Frame
        } else {
            ElementKind::Unknown(t)
        }
    }
}

/// A directory element: one record of any kind.
pub enum Element {
    /// An edition record.
    Edition(Box<Edition>),
    /// A file record.
    File(Box<File>),
    /// A frame record.
    Frame(Box<Frame>),
}

/// The mathematical value of an [`Element`].
#[verifier::ext_equal]
pub enum ElementV {
    /// An edition record.
    Edition(EditionV),
    /// A file record.
    File(FileV),
    /// A frame record.
    Frame(FrameV),
}

impl View for Element {
    type V = ElementV;

    open spec fn view(&self) -> ElementV {
        match self {
            Element::Edition(e) => ElementV::Edition((**e)@),
            Element::File(f) => ElementV::File((**f)@),
            Element::Frame(f) => ElementV::Frame((**f)@),
        }
    }
}

/// The record inside an element value is well formed.
pub open spec fn elementv_wf(e: ElementV) -> bool {
    match e {
        ElementV::Edition(v) => editionv_wf(v),
        ElementV::File(v) => filev_wf(v),
        ElementV::Frame(v) => framev_wf(v),
    }
}

/// The payload an element value encodes to.
pub open spec fn enc_element(e: ElementV) -> Seq<u8> {
    match e {
        ElementV::Edition(v) => enc_edition(v),
        ElementV::File(v) => enc_file(v),
        ElementV::Frame(v) => enc_frame(v),
    }
}

/// The wire tag of an element value's kind.
pub open spec fn elementv_tag(e: ElementV) -> u8 {
    match e {
        ElementV::Edition(_) => 1,
        ElementV::File(_) => 2,
        ElementV::Frame(_) => 3,
    }
}

/// An element frame's bytes: kind, 16-bit length, a reserved byte, then
/// the payload.
pub open spec fn element_frame_bytes(tag: u8, payload: Seq<u8>) -> Seq<u8> {
    seq![tag] + le16(payload.len() as u16) + seq![0u8] + payload
}

/// The whole element frame an element value encodes to.
pub open spec fn enc_element_frame(e: ElementV) -> Seq<u8> {
    element_frame_bytes(elementv_tag(e), enc_element(e))
}

impl Element {
    /// The kind of this element.
    pub fn kind(&self) -> (r: ElementKind)
        ensures
            r.spec_tag() == elementv_tag(self@),
    {
        match self {
            Element::Edition(_) => ElementKind::Edition,
            Element::File(_) => ElementKind::File,
            Element::Frame(_) => ElementKind::Frame,
        }
    }

    /// The element's record payload.
    pub fn to_vec(&self) -> (r: Vec<u8>)
        requires
            match self@ {
                ElementV::Edition(v) => v.number != 0,
                ElementV::File(v) => v.edition != 0,
                ElementV::Frame(v) => v.edition != 0,
            },
        ensures
            r@ == enc_element(self@),
    {
        let mut out: Vec<u8> = Vec::new();
        match self {
            Element::Edition(e) => write_edition(&mut out, e),
            Element::File(f) => write_file(&mut out, f),
            Element::Frame(f) => write_frame(&mut out, f),
        }
        proof {
            assert(out@ =~= enc_element(self@));
        }
        out
    }
}

/// An element frame: the kind, the payload length, and the payload.
pub struct ElementFrame {
    /// Element kind.
    pub kind: ElementKind,
    /// Payload length in bytes.
    pub length: u16,
    /// The record payload.
    pub payload: Vec<u8>,
}

impl ElementFrame {
    /// The length field matches the payload.
    pub open spec fn wf(&self) -> bool {
        self.payload@.len() == self.length
    }

    /// Frame an element, or refuse one whose payload cannot be framed in
    /// 16 bits.
    pub fn create(element: &Element) -> (r: Result<ElementFrame, SimpleError>)
        requires
            match element@ {
                ElementV::Edition(v) => v.number != 0,
                ElementV::File(v) => v.edition != 0,
                ElementV::Frame(v) => v.edition != 0,
            },
        ensures
            match r {
                Ok(f) => enc_element(element@).len() <= 0xffff && f.wf() && f.payload@
                    == enc_element(element@) && f.kind.spec_tag() == elementv_tag(element@),
                Err(e) => enc_element(element@).len() > 0xffff && e.kind == ErrorKind::Parse,
            },
    {
        let payload = element.to_vec();
        if payload.len() > 0xffff {
            return Err(SimpleError::new(ErrorKind::Parse));
        }
        Ok(ElementFrame { kind: element.kind(), length: payload.len() as u16, payload })
    }

    /// The frame's bytes.
    pub fn to_bytes(&self) -> (r: Vec<u8>)
        requires
            self.wf(),
        ensures
            r@ == element_frame_bytes(self.kind.spec_tag(), self.payload@),
    {
        let mut out: Vec<u8> = Vec::new();
        out.push(self.kind.tag());
        push_le16(&mut out, self.length);
        out.push(0);
        crate::wire::push_slice(&mut out, self.payload.as_slice());
        proof {
            assert(out@ =~= element_frame_bytes(self.kind.spec_tag(), self.payload@));
        }
        out
    }
}

/// An element frame at `i`: the kind tag and the payload bytes.
pub open spec fn dec_element_frame(b: Seq<u8>, i: int) -> Option<(u8, Seq<u8>, int)> {
    if 0 <= i && i + 4 <= b.len() {
        let tag = b[i];
        let n = le16_val(b[i + 1], b[i + 2]) as int;
        if i + 4 + n <= b.len() {
            Some((tag, b.subrange(i + 4, i + 4 + n), i + 4 + n))
        } else {
            None
        }
    } else {
        None
    }
}

/// An element at `i`: its record, or `None` for an unknown kind, which is
/// skipped by length. The payload must hold exactly one record.
#[verifier::opaque]
pub open spec fn dec_element(b: Seq<u8>, i: int) -> Option<(Option<ElementV>, int)> {
    match dec_element_frame(b, i) {
        Some((tag, payload, j)) => if tag == 1 {
            match dec_edition(payload, 0) {
                Some((v, end)) => if end == payload.len() {
                    Some((Some(ElementV::Edition(v)), j))
                } else {
                    None
                },
                None => None,
            }
        } else if tag == 2 {
            match dec_file(payload, 0) {
                Some((v, end)) => if end == payload.len() {
                    Some((Some(ElementV::File(v)), j))
                } else {
                    None
                },
                None => None,
            }
        } else if tag == 3 {
            match dec_frame(payload, 0) {
                Some((v, end)) => if end == payload.len() {
                    Some((Some(ElementV::Frame(v)), j))
                } else {
                    None
                },
                None => None,
            }
        } else {
            Some((None, j))
        },
        None => None,
    }
}

/// Decoding an element frame that stands at `i` yields its element.
pub proof fn lemma_dec_element(b: Seq<u8>, i: int, e: ElementV)
    requires
        elementv_wf(e),
        enc_element(e).len() <= 0xffff,
        cbor::at(b, i, enc_element_frame(e)),
    ensures
        dec_element(b, i) == Some((Some(e), i + enc_element_frame(e).len())),
{
    reveal(dec_element);
    let tag = elementv_tag(e);
    let payload = enc_element(e);
    let hdr = seq![tag] + le16(payload.len() as u16) + seq![0u8];
    assert(enc_element_frame(e) =~= hdr + payload);
    cbor::lemma_at_concat(b, i, hdr, payload);
    assert(b[i] == tag && b[i + 1] == le16(payload.len() as u16)[0] && b[i + 2] == le16(
        payload.len() as u16,
    )[1]) by {
        assert(b.subrange(i, i + hdr.len())[0] == hdr[0]);
        assert(b.subrange(i, i + hdr.len())[1] == hdr[1]);
        assert(b.subrange(i, i + hdr.len())[2] == hdr[2]);
    }
    lemma_le16_roundtrip(payload.len() as u16);
    assert(le16_val(b[i + 1], b[i + 2]) == payload.len());
    let sub = b.subrange(i + 4, i + 4 + payload.len());
    assert(sub =~= payload);
    assert(dec_element_frame(b, i) == Some((tag, payload, i + 4 + payload.len())));
    assert(payload.subrange(0, payload.len() as int) =~= payload);
    assert(cbor::at(payload, 0, payload));
    match e {
        ElementV::Edition(v) => {
            lemma_dec_edition(payload, 0, v);
        },
        ElementV::File(v) => {
            lemma_dec_file(payload, 0, v);
        },
        ElementV::Frame(v) => {
            lemma_dec_frame(payload, 0, v);
        },
    }
}

/// Append an element frame holding the given element; refuse one whose
/// payload cannot be framed in 16 bits, leaving the buffer unchanged.
pub fn write_element(out: &mut Vec<u8>, element: &Element) -> (r: Result<(), SimpleError>)
    requires
        match element@ {
            ElementV::Edition(v) => v.number != 0,
            ElementV::File(v) => v.edition != 0,
            ElementV::Frame(v) => v.edition != 0,
        },
    ensures
        match r {
            Ok(_) => enc_element(element@).len() <= 0xffff && final(out)@ == old(out)@
                + enc_element_frame(element@),
            Err(e) => enc_element(element@).len() > 0xffff && final(out)@ == old(out)@ && e.kind
                == ErrorKind::Parse,
        },
{
    let frame = match ElementFrame::create(element) {
        Ok(f) => f,
        Err(e) => { return Err(e) },
    };
    let bytes = frame.to_bytes();
    crate::wire::push_slice(out, bytes.as_slice());
    Ok(())
}

/// Read an element at `i`: `None` stands for an unknown kind that was
/// skipped by length.
pub fn read_element(b: &[u8], i: usize) -> (r: Result<(Option<Element>, usize), SimpleError>)
    ensures
        match r {
            Ok((v, j)) => dec_element(b@, i as int) == Some(
                (
                    match v {
                        Some(e) => Some(e@),
                        None => None,
                    },
                    j as int,
                ),
            ) && i < j <= b@.len(),
            Err(e) => dec_element(b@, i as int) is None && e.kind == ErrorKind::Parse,
        },
{
    proof {
        reveal(dec_element);
    }
    if b.len() < 4 || i > b.len() - 4 {
        return Err(SimpleError::new(ErrorKind::Parse));
    }
    let tag = b[i];
    let n = read_le16(b, i + 1) as usize;
    if n > b.len() - 4 - i {
        return Err(SimpleError::new(ErrorKind::Parse));
    }
    let payload = &b[i + 4..i + 4 + n];
    let j = i + 4 + n;
    if tag == 1 {
        let (v, end) = match read_edition(payload, 0) {
            Ok(x) => x,
            Err(e) => { return Err(e) },
        };
        if end != payload.len() {
            return Err(SimpleError::new(ErrorKind::Parse));
        }
        Ok((Some(Element::Edition(Box::new(v))), j))
    } else if tag == 2 {
        let (v, end) = match read_file(payload, 0) {
            Ok(x) => x,
            Err(e) => { return Err(e) },
        };
        if end != payload.len() {
            return Err(SimpleError::new(ErrorKind::Parse));
        }
        Ok((Some(Element::File(Box::new(v))), j))
    } else if tag == 3 {
        let (v, end) = match read_frame(payload, 0) {
            Ok(x) => x,
            Err(e) => { return Err(e) },
        };
        if end != payload.len() {
            return Err(SimpleError::new(ErrorKind::Parse));
        }
        Ok((Some(Element::Frame(Box::new(v))), j))
    } else {
        Ok((None, j))
    }
}

} // verus!
