//! Byte-level checks on the wire formats.

use zarc::directory::{Element, ElementFrame, ElementKind};
use zarc::framing::{read_block_header, write_block_header, ZstandardBlockHeader, ZstandardBlockType};
use zarc::cbor;
use zarc::decode::Decoder;
use zarc::encode::Encoder;
use zarc::directory::File;
use zarc::strings::{CborString, Pathname};
use zarc::timestamps::Timestamp;

fn expect_err<T>(r: Result<T, zarc::error::SimpleError>) -> zarc::error::SimpleError {
    match r {
        Err(e) => e,
        Ok(_) => panic!("expected an error"),
    }
}


fn ts() -> Timestamp {
    Timestamp::from_rfc3339("2024-01-01T00:00:00+00:00".to_string()).unwrap()
}

fn text_path(name: &str) -> Pathname {
    Pathname(vec![CborString::Text(name.to_string())])
}

fn build_single(content: &[u8]) -> Vec<u8> {
    let mut enc = Encoder::new().unwrap();
    let d = enc.add_data_frame(content).unwrap();
    let mut f = File::new(1, text_path("f"));
    f.digest = Some(d);
    enc.add_file_entry(f).unwrap();
    enc.finalise(ts()).unwrap().0
}

#[test]
fn trailer_bytes_xor_to_zero() {
    let archive = build_single(b"check byte test");
    let n = archive.len();
    // the trailer payload is the last 56 bytes, inside an 8-byte skippable header
    let trailer = &archive[n - 56..];
    let x = trailer.iter().fold(0u8, |acc, b| acc ^ b);
    assert_eq!(x, 0);
}

#[test]
fn trailer_epilogue_parses_back() {
    let archive = build_single(b"epilogue");
    let n = archive.len();
    let epi = zarc::trailer::read_epilogue(&archive, n - 22).unwrap();
    assert_eq!(epi.version, 1);
    assert!(epi.directory_offset < 0);
    let dec = Decoder::open(archive).unwrap();
    let t = dec.trailer();
    assert!(t.directory_offset > 0);
    assert_eq!(t.directory_offset, epi.directory_offset + n as i64);
    assert_eq!(t.directory_uncompressed_size, epi.directory_uncompressed_size);
}

#[test]
fn directory_offset_points_at_zstd_magic() {
    let archive = build_single(b"magic probe");
    let dec = Decoder::open(archive.clone()).unwrap();
    let off = dec.trailer().directory_offset as usize;
    assert_eq!(&archive[off..off + 4], &[0x28, 0xB5, 0x2F, 0xFD]);
}

#[test]
fn frame_record_region_is_a_complete_zstd_frame() {
    let content = b"region check: the recorded span must decompress on its own";
    let archive = build_single(content);
    let mut dec = Decoder::open(archive.clone()).unwrap();
    dec.read_directory().unwrap();
    let frame = &dec.frames()[0];
    let start = frame.offset as usize;
    let end = start + frame.length as usize;
    let region = &archive[start..end];
    assert_eq!(&region[..4], &[0x28, 0xB5, 0x2F, 0xFD]);
    let mut out = vec![0u8; frame.uncompressed as usize + 16];
    let mut dctx = zstd_safe::DCtx::create();
    let written = dctx.decompress(out.as_mut_slice(), region).unwrap();
    assert_eq!(&out[..written], content);
    assert_eq!(blake3::hash(&out[..written]).as_bytes(), frame.digest.0.as_slice());
}

#[test]
fn cbor_heads_roundtrip() {
    let values = [
        0u64, 1, 23, 24, 255, 256, 65535, 65536, 0xFFFF_FFFF, 0x1_0000_0000, u64::MAX,
    ];
    for major in [0u8, 1, 2, 3, 4, 5, 6] {
        for &v in values.iter() {
            let mut buf: Vec<u8> = Vec::new();
            cbor::write_head(&mut buf, major, v);
            let (m, got, end) = cbor::read_head(&buf, 0).unwrap();
            assert_eq!(m, major);
            assert_eq!(got, v);
            assert_eq!(end, buf.len());
        }
    }
}

#[test]
fn cbor_strings_roundtrip() {
    let mut buf: Vec<u8> = Vec::new();
    cbor::write_bytes_item(&mut buf, &[1, 2, 3]);
    let (got, end) = cbor::read_bytes_item(&buf, 0).unwrap();
    assert_eq!(got, vec![1, 2, 3]);
    assert_eq!(end, buf.len());

    let mut buf2: Vec<u8> = Vec::new();
    cbor::write_text_item(&mut buf2, &"päth".to_string());
    let (got2, end2) = cbor::read_text_item(&buf2, 0).unwrap();
    assert_eq!(got2, "päth");
    assert_eq!(end2, buf2.len());
}

#[test]
fn cbor_indefinite_strings_are_accepted() {
    // two-chunk indefinite byte string: 0x5f, chunks "ab" and "c", break
    let buf: Vec<u8> = vec![0x5f, 0x42, 0x61, 0x62, 0x41, 0x63, 0xff];
    let (got, end) = cbor::read_bytes_item(&buf, 0).unwrap();
    assert_eq!(got, b"abc".to_vec());
    assert_eq!(end, buf.len());
}

#[test]
fn element_frames_roundtrip() {
    let edition = zarc::directory::Edition {
        number: 7,
        written_at: ts(),
        digest_type: zarc::integrity::DigestType::Blake3,
        user_metadata: None,
    };
    let el = Element::Edition(Box::new(edition));
    let frame = ElementFrame::create(&el).unwrap();
    assert_eq!(frame.kind, ElementKind::Edition);
    let bytes = frame.to_bytes();
    let (parsed, end) = zarc::directory::elements::read_element(&bytes, 0).unwrap();
    assert_eq!(end, bytes.len());
    match parsed.unwrap() {
        Element::Edition(e) => {
            assert_eq!(e.number, 7);
        },
        _ => panic!("expected an edition element"),
    }
}

#[test]
fn unknown_element_kinds_are_skipped_by_length() {
    // kind 9 with a 3-byte payload, then nothing
    let bytes: Vec<u8> = vec![9, 3, 0, 0, 0xAA, 0xBB, 0xCC];
    let (parsed, end) = zarc::directory::elements::read_element(&bytes, 0).unwrap();
    assert!(parsed.is_none());
    assert_eq!(end, bytes.len());
}

#[test]
fn truncated_element_is_refused() {
    // claims 0xffff payload bytes with only one present
    let bytes: Vec<u8> = vec![1, 0xff, 0xff, 0, 0x42];
    let err = expect_err(zarc::directory::elements::read_element(&bytes, 0));
    assert_eq!(err.kind, zarc::error::ErrorKind::Parse);
}

#[test]
fn skippable_frames_roundtrip() {
    let mut buf: Vec<u8> = Vec::new();
    zarc::framing::write_skippable_frame(&mut buf, 0xF, b"payload").unwrap();
    assert_eq!(buf[0], 0x5F);
    let (payload, end) = zarc::framing::read_skippable_frame(&buf, 0, 0xF).unwrap();
    assert_eq!(payload, b"payload".to_vec());
    assert_eq!(end, buf.len());
}

#[test]
fn block_headers_roundtrip() {
    for (t, last, size) in [
        (ZstandardBlockType::Raw, true, 0u32),
        (ZstandardBlockType::Raw, false, 65535),
        (ZstandardBlockType::Compressed, true, 12345),
        (ZstandardBlockType::Rle, false, 7),
    ] {
        let h = ZstandardBlockHeader::new(t, last, size);
        let mut buf: Vec<u8> = Vec::new();
        write_block_header(&mut buf, &h);
        let (got, end) = read_block_header(&buf, 0).unwrap();
        assert_eq!(end, 3);
        assert_eq!(got.last, last);
        assert_eq!(got.block_type, t);
        assert_eq!(got.size, size);
        if t == ZstandardBlockType::Rle {
            assert_eq!(got.rle_count(), Some(size));
            assert_eq!(got.actual_size().unwrap(), 1);
        } else {
            assert_eq!(got.actual_size().unwrap(), size);
        }
    }
}

#[test]
fn reserved_block_type_is_corruption() {
    // 24-bit LE value with type bits 0b11
    let buf: Vec<u8> = vec![0b0000_0110, 0, 0];
    let err = expect_err(zarc::framing::read_block_header(&buf, 0));
    assert_eq!(err.kind, zarc::error::ErrorKind::Parse);
}

#[test]
fn zstd_frame_header_parses() {
    let archive = build_single(b"some header bytes to probe");
    let dec = Decoder::open(archive.clone()).unwrap();
    let off = dec.trailer().directory_offset as usize;
    let (h, _) = zarc::framing::read_zstandard_frame_header(&archive, off).unwrap();
    assert!(h.frame_descriptor.fcs_size < 4);
    let _ = h.uncompressed_size();
}

#[test]
fn uncompressed_frame_writer_layout() {
    let mut buf: Vec<u8> = Vec::new();
    zarc::framing::write_uncompressed_frame(&mut buf, b"abc");
    // magic, single-segment descriptor, 8-byte content size, one raw block
    assert_eq!(&buf[..4], &[0x28, 0xB5, 0x2F, 0xFD]);
    assert_eq!(buf[4], 0xE0);
    assert_eq!(&buf[5..13], &[3, 0, 0, 0, 0, 0, 0, 0]);
    // block header: last, raw, size 3
    assert_eq!(&buf[13..16], &[0b0001_1001, 0, 0]);
    assert_eq!(&buf[16..], b"abc");
    // a stock decompressor reads it back
    let mut out = vec![0u8; 16];
    let mut dctx = zstd_safe::DCtx::create();
    let written = dctx.decompress(out.as_mut_slice(), &buf).unwrap();
    assert_eq!(&out[..written], b"abc");
}

#[test]
fn timestamps_parse_both_tags() {
    let t = Timestamp::from_epoch(1700000000, 0).unwrap();
    let (secs, nanos) = t.to_epoch();
    assert_eq!((secs, nanos), (1700000000, 0));
    assert!(Timestamp::from_rfc3339("not a date".to_string()).is_none());
}

#[test]
fn far_future_epochs_are_declined() {
    // the first second of year 10000: rendered with a five-digit year,
    // which the RFC 3339 parser refuses, so the round trip must decline
    assert!(Timestamp::from_epoch(253402300800, 0).is_none());
    // the last second of year 9999 still round-trips
    let t = Timestamp::from_epoch(253402300799, 0).unwrap();
    assert_eq!(t.to_epoch(), (253402300799, 0));
    // negative years are declined the same way
    assert!(Timestamp::from_epoch(-62167219201, 0).is_none());
}
