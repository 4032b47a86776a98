//! The Zstd container framing, read and written at the byte level.
//!
//! Skippable frames carry Zarc metadata; raw-block frames carry content
//! that must stay byte-for-byte uncompressed. Both are legal Zstd frames
//! that a stock decompressor walks without error.

use vstd::prelude::*;

use crate::error::{ErrorKind, SimpleError};
use crate::wire::{le32, le32_val, le64, lemma_le32_roundtrip, push_le32, push_le64, read_le32};

verus! {

/// Bytes a skippable frame adds around its payload: magic and length.
pub const SKIPPABLE_FRAME_OVERHEAD: usize = 8;

/// The bytes of a skippable frame: magic with the nibble, a 32-bit
/// little-endian length, then the payload.
pub open spec fn skippable_frame(nibble: u8, payload: Seq<u8>) -> Seq<u8>
    recommends
        nibble < 16,
        payload.len() <= u32::MAX,
{
    seq![(0x50 + nibble) as u8, 0x2Au8, 0x4Du8, 0x18u8] + le32(payload.len() as u32) + payload
}

/// A skippable frame at `i`: its nibble, payload, and end position.
pub open spec fn dec_skippable(b: Seq<u8>, i: int) -> Option<(u8, Seq<u8>, int)> {
    if 0 <= i && i + 8 <= b.len() {
        if 0x50 <= b[i] <= 0x5f && b[i + 1] == 0x2A && b[i + 2] == 0x4D && b[i + 3] == 0x18 {
            let n = le32_val(b[i + 4], b[i + 5], b[i + 6], b[i + 7]) as int;
            if i + 8 + n <= b.len() {
                Some(((b[i] - 0x50) as u8, b.subrange(i + 8, i + 8 + n), i + 8 + n))
            } else {
                None
            }
        } else {
            None
        }
    } else {
        None
    }
}

/// Decoding a skippable frame that stands at `i` yields its payload.
pub proof fn lemma_dec_skippable(b: Seq<u8>, i: int, nibble: u8, payload: Seq<u8>)
    requires
        nibble < 16,
        payload.len() <= u32::MAX,
        crate::cbor::at(b, i, skippable_frame(nibble, payload)),
    ensures
        dec_skippable(b, i) == Some((nibble, payload, i + skippable_frame(nibble, payload).len())),
{
    let hdr = seq![(0x50 + nibble) as u8, 0x2Au8, 0x4Du8, 0x18u8] + le32(payload.len() as u32);
    assert(skippable_frame(nibble, payload) =~= hdr + payload);
    crate::cbor::lemma_at_concat(b, i, hdr, payload);
    assert(b[i] == hdr[0] && b[i + 1] == hdr[1] && b[i + 2] == hdr[2] && b[i + 3] == hdr[3] && b[i
        + 4] == hdr[4] && b[i + 5] == hdr[5] && b[i + 6] == hdr[6] && b[i + 7] == hdr[7]) by {
        assert(b.subrange(i, i + hdr.len())[0] == hdr[0]);
        assert(b.subrange(i, i + hdr.len())[1] == hdr[1]);
        assert(b.subrange(i, i + hdr.len())[2] == hdr[2]);
        assert(b.subrange(i, i + hdr.len())[3] == hdr[3]);
        assert(b.subrange(i, i + hdr.len())[4] == hdr[4]);
        assert(b.subrange(i, i + hdr.len())[5] == hdr[5]);
        assert(b.subrange(i, i + hdr.len())[6] == hdr[6]);
        assert(b.subrange(i, i + hdr.len())[7] == hdr[7]);
    }
    lemma_le32_roundtrip(payload.len() as u32);
    assert(b.subrange(i + 8, i + 8 + payload.len()) =~= payload);
}

/// Append a skippable frame; refuse a payload that cannot be framed,
/// leaving the buffer unchanged.
pub fn write_skippable_frame(out: &mut Vec<u8>, nibble: u8, payload: &[u8]) -> (r: Result<
    (),
    SimpleError,
>)
    requires
        nibble < 16,
    ensures
        match r {
            Ok(_) => payload@.len() <= u32::MAX && final(out)@ == old(out)@ + skippable_frame(
                nibble,
                payload@,
            ),
            Err(e) => payload@.len() > u32::MAX && final(out)@ == old(out)@ && e.kind
                == ErrorKind::Parse,
        },
{
    if payload.len() as u64 > u32::MAX as u64 {
        return Err(SimpleError::new(ErrorKind::Parse));
    }
    out.push(0x50 + nibble);
    out.push(0x2A);
    out.push(0x4D);
    out.push(0x18);
    push_le32(out, payload.len() as u32);
    crate::wire::push_slice(out, payload);
    proof {
        assert(out@ =~= old(out)@ + skippable_frame(nibble, payload@));
    }
    Ok(())
}

/// Read a skippable frame at `i`, demanding the given nibble.
pub fn read_skippable_frame(b: &[u8], i: usize, nibble: u8) -> (r: Result<
    (Vec<u8>, usize),
    SimpleError,
>)
    ensures
        match r {
            Ok((payload, j)) => dec_skippable(b@, i as int) == Some((nibble, payload@, j as int))
                && i < j <= b@.len(),
            Err(e) => match dec_skippable(b@, i as int) {
                Some((nb, _, _)) => nb != nibble && e.kind == (ErrorKind::InvalidNibble {
                    expected: nibble,
                    actual: nb,
                }),
                None => e.kind == ErrorKind::Parse,
            },
        },
{
    if b.len() < 8 || i > b.len() - 8 {
        return Err(SimpleError::new(ErrorKind::Parse));
    }
    if !(0x50 <= b[i] && b[i] <= 0x5f && b[i + 1] == 0x2A && b[i + 2] == 0x4D && b[i + 3] == 0x18) {
        return Err(SimpleError::new(ErrorKind::Parse));
    }
    let actual = b[i] - 0x50;
    let n = read_le32(b, i + 4) as usize;
    if n > b.len() - 8 - i {
        return Err(SimpleError::new(ErrorKind::Parse));
    }
    if actual != nibble {
        return Err(SimpleError::new(ErrorKind::InvalidNibble { expected: nibble, actual }));
    }
    let mut payload: Vec<u8> = Vec::new();
    crate::wire::push_slice(&mut payload, &b[i + 8..i + 8 + n]);
    proof {
        assert(payload@ =~= b@.subrange(i + 8, i + 8 + n as int));
    }
    Ok((payload, i + 8 + n))
}

/// The type of a Zstd block.
#[derive(Clone, Copy, Debug, PartialEq, Eq, Structural)]
pub enum ZstandardBlockType {
    /// Uncompressed bytes, verbatim.
    Raw,
    /// One byte repeated.
    Rle,
    /// A compressed block.
    Compressed,
    /// Reserved; corrupt if seen.
    Reserved,
}

impl ZstandardBlockType {
    /// The two-bit code of this type.
    pub open spec fn spec_code(self) -> u8 {
        match self {
            ZstandardBlockType::Raw => 0,
            ZstandardBlockType::Rle => 1,
            ZstandardBlockType::Compressed => 2,
            ZstandardBlockType::Reserved => 3,
        }
    }

    /// The two-bit code of this type.
    pub fn code(self) -> (r: u8)
        ensures
            r == self.spec_code(),
    {
        match self {
            ZstandardBlockType::Raw => 0,
            ZstandardBlockType::Rle => 1,
            ZstandardBlockType::Compressed => 2,
            ZstandardBlockType::Reserved => 3,
        }
    }

    /// The type a two-bit code names.
    pub fn from_code(c: u8) -> (r: ZstandardBlockType)
        requires
            c < 4,
        ensures
            r.spec_code() == c,
    {
        if c == 0 {
            ZstandardBlockType::Raw
        } else if c == 1 {
            ZstandardBlockType::Rle
        } else if c == 2 {
            ZstandardBlockType::Compressed
        } else {
            ZstandardBlockType::Reserved
        }
    }
}

/// A Zstd block header: the last flag, the type, and the 21-bit size.
pub struct ZstandardBlockHeader {
    /// Whether this is the final block of its frame.
    pub last: bool,
    /// The block type.
    pub block_type: ZstandardBlockType,
    /// The 21-bit size field: payload bytes for raw and compressed
    /// blocks, the repeat count for RLE blocks.
    pub size: u32,
}

/// The three header bytes: the 24-bit little-endian value packing the
/// last flag, the type code and the size.
pub open spec fn block_header_bytes(last: bool, code: u8, size: u32) -> Seq<u8> {
    let v = (if last {
        1u32
    } else {
        0u32
    } | ((code as u32) << 1) | (size << 3)) as u32;
    seq![(v & 0xff) as u8, ((v >> 8) & 0xff) as u8, ((v >> 16) & 0xff) as u8]
}

impl ZstandardBlockHeader {
    /// Build a block header.
    pub fn new(block_type: ZstandardBlockType, last: bool, size: u32) -> (r: ZstandardBlockHeader)
        requires
            size < 0x200000,
        ensures
            r.last == last,
            r.block_type == block_type,
            r.size == size,
    {
        ZstandardBlockHeader { last, block_type, size }
    }

    /// Bytes of data that follow this header: the size for raw and
    /// compressed blocks, one byte for RLE.
    pub fn actual_size(&self) -> (r: Result<u32, SimpleError>)
        ensures
            match r {
                Ok(n) => self.block_type != ZstandardBlockType::Reserved && n == (
                match self.block_type {
                    ZstandardBlockType::Rle => 1u32,
                    _ => self.size,
                }),
                Err(e) => self.block_type == ZstandardBlockType::Reserved && e.kind
                    == ErrorKind::Parse,
            },
    {
        match self.block_type {
            ZstandardBlockType::Raw => Ok(self.size),
            ZstandardBlockType::Compressed => Ok(self.size),
            ZstandardBlockType::Rle => Ok(1),
            ZstandardBlockType::Reserved => Err(SimpleError::new(ErrorKind::Parse)),
        }
    }

    /// The repeat count, for RLE blocks only.
    pub fn rle_count(&self) -> (r: Option<u32>)
        ensures
            match r {
                Some(n) => self.block_type == ZstandardBlockType::Rle && n == self.size,
                None => self.block_type != ZstandardBlockType::Rle,
            },
    {
        match self.block_type {
            ZstandardBlockType::Rle => Some(self.size),
            _ => None,
        }
    }
}

/// Append a block header.
pub fn write_block_header(out: &mut Vec<u8>, h: &ZstandardBlockHeader)
    requires
        h.size < 0x200000,
    ensures
        final(out)@ == old(out)@ + block_header_bytes(h.last, h.block_type.spec_code(), h.size),
{
    let last: u32 = if h.last {
        1
    } else {
        0
    };
    let v: u32 = last | ((h.code_of()) as u32) << 1 | (h.size << 3);
    out.push(#[verifier::truncate] ((v & 0xff) as u8));
    out.push(#[verifier::truncate] (((v >> 8) & 0xff) as u8));
    out.push(#[verifier::truncate] (((v >> 16) & 0xff) as u8));
    proof {
        assert(out@ =~= old(out)@ + block_header_bytes(
            h.last,
            h.block_type.spec_code(),
            h.size,
        ));
    }
}

impl ZstandardBlockHeader {
    /// The type code of this header's block type.
    fn code_of(&self) -> (r: u8)
        ensures
            r == self.block_type.spec_code(),
    {
        self.block_type.code()
    }
}

/// A block header at `i`: last flag, type code and size field.
pub open spec fn dec_block_header(b: Seq<u8>, i: int) -> Option<(bool, u8, u32, int)> {
    if 0 <= i && i + 3 <= b.len() {
        let v = (b[i] as u32) | ((b[i + 1] as u32) << 8) | ((b[i + 2] as u32) << 16);
        Some(((v & 1) == 1, ((v >> 1) & 3) as u8, (v >> 3) as u32, i + 3))
    } else {
        None
    }
}

/// Decoding a block header that stands at `i` yields its fields.
pub proof fn lemma_dec_block_header(b: Seq<u8>, i: int, last: bool, code: u8, size: u32)
    requires
        code < 4,
        size < 0x200000,
        crate::cbor::at(b, i, block_header_bytes(last, code, size)),
    ensures
        dec_block_header(b, i) == Some((last, code, size, i + 3)),
{
    let h = block_header_bytes(last, code, size);
    assert(b[i] == h[0] && b[i + 1] == h[1] && b[i + 2] == h[2]) by {
        assert(b.subrange(i, i + h.len())[0] == h[0]);
        assert(b.subrange(i, i + h.len())[1] == h[1]);
        assert(b.subrange(i, i + h.len())[2] == h[2]);
    }
    let lastbit: u32 = if last {
        1
    } else {
        0
    };
    let v = (lastbit | ((code as u32) << 1) | (size << 3)) as u32;
    assert({
        let w = ((v & 0xff) as u8 as u32) | (((v >> 8) & 0xff) as u8 as u32) << 8 | (((v >> 16)
            & 0xff) as u8 as u32) << 16;
        code < 4 && size < 0x200000 && (lastbit == 0 || lastbit == 1) ==> ((w & 1) == lastbit) && (
        ((w >> 1) & 3) == code) && ((w >> 3) == size)
    }) by (bit_vector)
        requires
            v == (lastbit | ((code as u32) << 1) | (size << 3)) as u32,
            code < 4,
            size < 0x200000,
            lastbit == 0 || lastbit == 1,
    ;
}

/// Read a block header at `i`. A reserved block type is corruption.
pub fn read_block_header(b: &[u8], i: usize) -> (r: Result<(ZstandardBlockHeader, usize), SimpleError>)
    ensures
        match r {
            Ok((h, j)) => dec_block_header(b@, i as int) matches Some((last, code, size, end))
                && h.last == last && h.block_type.spec_code() == code && h.size == size && j == end
                && h.block_type != ZstandardBlockType::Reserved && i < j <= b@.len(),
            Err(e) => (dec_block_header(b@, i as int) matches Some((_, code, _, _)) ==> code == 3)
                && e.kind == ErrorKind::Parse,
        },
{
    if b.len() < 3 || i > b.len() - 3 {
        return Err(SimpleError::new(ErrorKind::Parse));
    }
    let b0 = b[i];
    let b1 = b[i + 1];
    let b2 = b[i + 2];
    let v: u32 = (b0 as u32) | ((b1 as u32) << 8) | ((b2 as u32) << 16);
    let last = (v & 1) == 1;
    let code = #[verifier::truncate] (((v >> 1) & 3) as u8);
    let size = v >> 3;
    proof {
        assert(((v >> 1) & 3) < 4 && (v >> 3) < 0x200000 && v <= 0xffffff) by (bit_vector)
            requires
                v == (b0 as u32) | ((b1 as u32) << 8) | ((b2 as u32) << 16),
        ;
    }
    if code == 3 {
        return Err(SimpleError::new(ErrorKind::Parse));
    }
    let block_type = ZstandardBlockType::from_code(code);
    Ok((ZstandardBlockHeader { last, block_type, size }, i + 3))
}

/// The raw blocks a byte sequence splits into: chunks of up to 65,535
/// bytes, the last flag on the final block.
pub open spec fn raw_blocks(data: Seq<u8>) -> Seq<u8>
    decreases data.len(),
{
    if data.len() <= 0xffff {
        block_header_bytes(true, 0, data.len() as u32) + data
    } else {
        block_header_bytes(false, 0, 0xffff) + data.take(0xffff) + raw_blocks(data.skip(0xffff))
    }
}

/// An uncompressed Zstd frame: the Zstd magic, a single-segment frame
/// descriptor naming an 8-byte content size, the size, and raw blocks.
pub open spec fn raw_frame(data: Seq<u8>) -> Seq<u8> {
    seq![0x28u8, 0xB5u8, 0x2Fu8, 0xFDu8, 0xE0u8] + le64(data.len() as u64) + raw_blocks(data)
}

/// The bytes at `i` begin a Zstd data frame.
pub open spec fn is_zstd_magic(b: Seq<u8>, i: int) -> bool {
    0 <= i && i + 4 <= b.len() && b[i] == 0x28 && b[i + 1] == 0xB5 && b[i + 2] == 0x2F && b[i + 3]
        == 0xFD
}

/// Append an uncompressed frame holding `data`.
#[verifier::loop_isolation(false)]
pub fn write_uncompressed_frame(out: &mut Vec<u8>, data: &[u8])
    ensures
        final(out)@ == old(out)@ + raw_frame(data@),
{
    out.push(0x28);
    out.push(0xB5);
    out.push(0x2F);
    out.push(0xFD);
    out.push(0xE0);
    push_le64(out, data.len() as u64);
    let ghost base = out@;
    proof {
        assert(base =~= old(out)@ + seq![0x28u8, 0xB5u8, 0x2Fu8, 0xFDu8, 0xE0u8] + le64(
            data@.len() as u64,
        ));
        assert(data@.skip(0) =~= data@);
    }
    let mut k: usize = 0;
    while data.len() - k > 0xffff
        invariant
            k <= data@.len(),
            base + raw_blocks(data@) == out@ + raw_blocks(data@.skip(k as int)),
        decreases data@.len() - k,
    {
        let ghost rest = data@.skip(k as int);
        let ghost prev = out@;
        let h = ZstandardBlockHeader::new(ZstandardBlockType::Raw, false, 0xffff);
        write_block_header(out, &h);
        crate::wire::push_slice(out, &data[k..k + 0xffff]);
        proof {
            let hdr = block_header_bytes(false, 0, 0xffff);
            let chunk = data@.subrange(k as int, k + 0xffff);
            let rb2 = raw_blocks(data@.skip(k + 0xffff));
            assert(rest.take(0xffff) =~= chunk);
            assert(rest.skip(0xffff) =~= data@.skip(k + 0xffff));
            assert(raw_blocks(rest) == hdr + rest.take(0xffff) + rb2);
            assert(prev + (hdr + chunk + rb2) =~= ((prev + hdr) + chunk) + rb2);
            assert(prev + raw_blocks(rest) =~= out@ + rb2);
            assert(base + raw_blocks(data@) == out@ + raw_blocks(data@.skip(k + 0xffff)));
        }
        k = k + 0xffff;
    }
    let ghost rest = data@.skip(k as int);
    let ghost prev = out@;
    let n = data.len() - k;
    let h = ZstandardBlockHeader::new(ZstandardBlockType::Raw, true, n as u32);
    write_block_header(out, &h);
    crate::wire::push_slice(out, &data[k..data.len()]);
    proof {
        let hdr = block_header_bytes(true, 0, n as u32);
        assert(data@.subrange(k as int, data@.len() as int) =~= rest);
        assert(raw_blocks(rest) == hdr + rest);
        assert((prev + hdr) + rest =~= prev + (hdr + rest));
        assert(out@ == prev + raw_blocks(rest));
        assert(out@ == base + raw_blocks(data@));
        let s5 = seq![0x28u8, 0xB5u8, 0x2Fu8, 0xFDu8, 0xE0u8];
        let l8 = le64(data@.len() as u64);
        assert((old(out)@ + s5 + l8) + raw_blocks(data@) =~= old(out)@ + (s5 + l8 + raw_blocks(
            data@,
        )));
        assert(out@ == old(out)@ + raw_frame(data@));
    }
}

/// A parsed Zstd frame descriptor.
pub struct ZstandardFrameDescriptor {
    /// Two-bit frame-content-size size flag.
    pub fcs_size: u8,
    /// Whether the frame is a single segment, with no window descriptor.
    pub single_segment: bool,
    /// The unused bit.
    pub unused_bit: bool,
    /// The reserved bit.
    pub reserved_bit: bool,
    /// Whether a 4-byte checksum follows the blocks.
    pub checksum: bool,
    /// Two-bit dictionary-id size flag.
    pub did_size: u8,
}

impl ZstandardFrameDescriptor {
    /// Bytes of the dictionary-id field.
    pub fn did_length(&self) -> (r: usize)
        requires
            self.did_size < 4,
        ensures
            r == spec_did_length(self.did_size),
    {
        if self.did_size == 0 {
            0
        } else if self.did_size == 1 {
            1
        } else if self.did_size == 2 {
            2
        } else {
            4
        }
    }

    /// Bytes of the frame-content-size field.
    pub fn fcs_length(&self) -> (r: usize)
        requires
            self.fcs_size < 4,
        ensures
            r == spec_fcs_length(self.fcs_size, self.single_segment),
    {
        if self.fcs_size == 0 {
            if self.single_segment {
                1
            } else {
                0
            }
        } else if self.fcs_size == 1 {
            2
        } else if self.fcs_size == 2 {
            4
        } else {
            8
        }
    }
}

/// Bytes of the dictionary-id field, by flag.
pub open spec fn spec_did_length(did_size: u8) -> usize {
    if did_size == 0 {
        0usize
    } else if did_size == 1 {
        1usize
    } else if did_size == 2 {
        2usize
    } else {
        4usize
    }
}

/// Bytes of the frame-content-size field, by flag and segment bit.
pub open spec fn spec_fcs_length(fcs_size: u8, single_segment: bool) -> usize {
    if fcs_size == 0 {
        if single_segment {
            1usize
        } else {
            0usize
        }
    } else if fcs_size == 1 {
        2usize
    } else if fcs_size == 2 {
        4usize
    } else {
        8usize
    }
}

/// The mathematical value of a parsed Zstd frame header.
#[verifier::ext_equal]
pub struct FrameHeaderV {
    /// Two-bit frame-content-size size flag.
    pub fcs_size: u8,
    /// Whether the frame is a single segment.
    pub single_segment: bool,
    /// The unused bit.
    pub unused_bit: bool,
    /// The reserved bit.
    pub reserved_bit: bool,
    /// Whether a checksum follows the blocks.
    pub checksum: bool,
    /// Two-bit dictionary-id size flag.
    pub did_size: u8,
    /// The window descriptor, absent exactly when single-segment.
    pub window: Option<u8>,
    /// The raw dictionary-id bytes.
    pub did: Seq<u8>,
    /// The raw frame-content-size bytes.
    pub fcs: Seq<u8>,
}

/// A Zstd frame header at `i`: magic, descriptor bits, window byte,
/// dictionary id and content size, with the position just past them.
pub open spec fn dec_frame_header(b: Seq<u8>, i: int) -> Option<(FrameHeaderV, int)> {
    if 0 <= i && i + 5 <= b.len() && b[i] == 0x28 && b[i + 1] == 0xB5 && b[i + 2] == 0x2F && b[i
        + 3] == 0xFD {
        let d = b[i + 4];
        let fcs_size = (d >> 6) as u8;
        let single_segment = ((d >> 5) & 1) == 1;
        let did_size = (d & 3) as u8;
        let wlen: int = if single_segment {
            0
        } else {
            1
        };
        let dlen = spec_did_length(did_size) as int;
        let flen = spec_fcs_length(fcs_size, single_segment) as int;
        if i + 5 + wlen + dlen + flen <= b.len() {
            Some(
                (
                    FrameHeaderV {
                        fcs_size,
                        single_segment,
                        unused_bit: ((d >> 4) & 1) == 1,
                        reserved_bit: ((d >> 3) & 1) == 1,
                        checksum: ((d >> 2) & 1) == 1,
                        did_size,
                        window: if single_segment {
                            None
                        } else {
                            Some(b[i + 5])
                        },
                        did: b.subrange(i + 5 + wlen, i + 5 + wlen + dlen),
                        fcs: b.subrange(i + 5 + wlen + dlen, i + 5 + wlen + dlen + flen),
                    },
                    i + 5 + wlen + dlen + flen,
                ),
            )
        } else {
            None
        }
    } else {
        None
    }
}

/// A parsed Zstd frame header: the descriptor and the content size.
pub struct ZstandardFrameHeader {
    /// The frame descriptor.
    pub frame_descriptor: ZstandardFrameDescriptor,
    /// The window descriptor, absent exactly when single-segment.
    pub window_descriptor: Option<u8>,
    /// The raw dictionary-id bytes.
    pub did: Vec<u8>,
    /// The raw frame-content-size bytes.
    pub frame_content_size: Vec<u8>,
}

impl View for ZstandardFrameHeader {
    type V = FrameHeaderV;

    open spec fn view(&self) -> FrameHeaderV {
        FrameHeaderV {
            fcs_size: self.frame_descriptor.fcs_size,
            single_segment: self.frame_descriptor.single_segment,
            unused_bit: self.frame_descriptor.unused_bit,
            reserved_bit: self.frame_descriptor.reserved_bit,
            checksum: self.frame_descriptor.checksum,
            did_size: self.frame_descriptor.did_size,
            window: self.window_descriptor,
            did: self.did@,
            fcs: self.frame_content_size@,
        }
    }
}

impl ZstandardFrameHeader {
    /// The uncompressed length the header declares; the two-byte form is
    /// offset by 256. Zero when the field is absent.
    pub fn uncompressed_size(&self) -> (r: u64)
        requires
            self.frame_content_size@.len() == 0 || self.frame_content_size@.len() == 1
                || self.frame_content_size@.len() == 2 || self.frame_content_size@.len() == 4
                || self.frame_content_size@.len() == 8,
        ensures
            r == spec_fcs_value(self.frame_content_size@),
    {
        let f = &self.frame_content_size;
        if f.len() == 0 {
            0
        } else if f.len() == 1 {
            f[0] as u64
        } else if f.len() == 2 {
            crate::wire::read_le16(f.as_slice(), 0) as u64 + 256
        } else if f.len() == 4 {
            crate::wire::read_le32(f.as_slice(), 0) as u64
        } else {
            crate::wire::read_le64(f.as_slice(), 0)
        }
    }
}

/// The content size a raw frame-content-size field declares.
pub open spec fn spec_fcs_value(f: Seq<u8>) -> u64 {
    if f.len() == 0 {
        0u64
    } else if f.len() == 1 {
        f[0] as u64
    } else if f.len() == 2 {
        (crate::wire::le16_val(f[0], f[1]) + 256) as u64
    } else if f.len() == 4 {
        crate::wire::le32_val(f[0], f[1], f[2], f[3]) as u64
    } else {
        crate::wire::le64_val(f[0], f[1], f[2], f[3], f[4], f[5], f[6], f[7])
    }
}

/// Read a Zstd frame header at `i`: magic, descriptor, window byte,
/// dictionary id and content size. The reader is left at the first block.
pub fn read_zstandard_frame_header(b: &[u8], i: usize) -> (r: Result<
    (ZstandardFrameHeader, usize),
    SimpleError,
>)
    ensures
        match r {
            Ok((h, j)) => dec_frame_header(b@, i as int) == Some((h@, j as int))
                && is_zstd_magic(b@, i as int) && i < j <= b@.len()
                && h.frame_descriptor.fcs_size < 4 && h.frame_descriptor.did_size < 4 && (
            h.window_descriptor is Some <==> !h.frame_descriptor.single_segment)
                && h.frame_content_size@.len() == spec_fcs_length(
                h.frame_descriptor.fcs_size,
                h.frame_descriptor.single_segment,
            ),
            Err(e) => dec_frame_header(b@, i as int) is None && e.kind == ErrorKind::Parse,
        },
{
    if b.len() < 5 || i > b.len() - 5 {
        return Err(SimpleError::new(ErrorKind::Parse));
    }
    if !(b[i] == 0x28 && b[i + 1] == 0xB5 && b[i + 2] == 0x2F && b[i + 3] == 0xFD) {
        return Err(SimpleError::new(ErrorKind::Parse));
    }
    let d = b[i + 4];
    let fcs_size = d >> 6;
    let single_segment = ((d >> 5) & 1) == 1;
    let unused_bit = ((d >> 4) & 1) == 1;
    let reserved_bit = ((d >> 3) & 1) == 1;
    let checksum = ((d >> 2) & 1) == 1;
    let did_size = d & 3;
    proof {
        assert((d >> 6) < 4 && (d & 3) < 4) by (bit_vector);
    }
    let desc = ZstandardFrameDescriptor {
        fcs_size,
        single_segment,
        unused_bit,
        reserved_bit,
        checksum,
        did_size,
    };
    let mut j = i + 5;
    let window_descriptor: Option<u8> = if !single_segment {
        if j >= b.len() {
            return Err(SimpleError::new(ErrorKind::Parse));
        }
        let w = b[j];
        j = j + 1;
        Some(w)
    } else {
        None
    };
    let did_len = desc.did_length();
    if b.len() - j < did_len {
        return Err(SimpleError::new(ErrorKind::Parse));
    }
    let mut did: Vec<u8> = Vec::new();
    crate::wire::push_slice(&mut did, &b[j..j + did_len]);
    j = j + did_len;
    let fcs_len = desc.fcs_length();
    if b.len() - j < fcs_len {
        return Err(SimpleError::new(ErrorKind::Parse));
    }
    let mut fcs: Vec<u8> = Vec::new();
    crate::wire::push_slice(&mut fcs, &b[j..j + fcs_len]);
    j = j + fcs_len;
    let h = ZstandardFrameHeader {
        frame_descriptor: desc,
        window_descriptor,
        did,
        frame_content_size: fcs,
    };
    proof {
        let wlen: int = if single_segment {
            0int
        } else {
            1int
        };
        assert(h@.did =~= b@.subrange(i + 5 + wlen, i + 5 + wlen + did_len as int));
        assert(h@.fcs =~= b@.subrange(
            i + 5 + wlen + did_len as int,
            i + 5 + wlen + did_len as int + fcs_len as int,
        ));
        assert(dec_frame_header(b@, i as int) matches Some((hv, end)) && hv =~= h@ && end
            == j as int);
    }
    Ok((h, j))
}

} // verus!
