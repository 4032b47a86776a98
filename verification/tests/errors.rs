//! Corruption and misuse are answered with the right errors.

use zarc::integrity::{Digest, DigestType};
use zarc::decode::Decoder;
use zarc::encode::Encoder;
use zarc::directory::File;
use zarc::error::ErrorKind;
use zarc::strings::{CborString, Pathname};
use zarc::timestamps::Timestamp;

fn expect_err<T>(r: Result<T, zarc::error::SimpleError>) -> zarc::error::SimpleError {
    match r {
        Err(e) => e,
        Ok(_) => panic!("expected an error"),
    }
}


fn ts() -> Timestamp {
    Timestamp::from_rfc3339("2024-01-01T00:00:00+00:00".to_string()).unwrap()
}

fn build_single(content: &[u8], compress: bool) -> Vec<u8> {
    let mut enc = Encoder::new().unwrap();
    enc.enable_compression(compress);
    let d = enc.add_data_frame(content).unwrap();
    let mut f = File::new(1, Pathname(vec![CborString::Text("f".to_string())]));
    f.digest = Some(d);
    enc.add_file_entry(f).unwrap();
    enc.finalise(ts()).unwrap().0
}

#[test]
fn corrupted_check_byte_fails_parse() {
    let mut archive = build_single(b"check", true);
    let n = archive.len();
    // the check byte sits 5 bytes before the end: check, version, then 3 magic bytes
    archive[n - 5] ^= 0xFF;
    let err = expect_err(Decoder::open(archive));
    assert_eq!(err.kind, ErrorKind::Parse);
}

#[test]
fn tampered_content_frame_fails_verify() {
    let content = b"tamper detection needs content long enough to poke at";
    let mut archive = build_single(content, false);
    let probe = Decoder::open(archive.clone()).unwrap();
    let off = {
        let mut dec = probe;
        dec.read_directory().unwrap();
        dec.frames()[0].offset as usize
    };
    // flip one byte inside the raw block payload
    archive[off + 20] ^= 0x01;
    let mut dec = Decoder::open(archive).unwrap();
    dec.read_directory().unwrap();
    let d = dec.files()[0].digest.as_ref().unwrap().duplicate();
    let mut it = dec.read_content_frame(&d).unwrap().unwrap();
    let _ = it.next().unwrap();
    assert_eq!(it.verify(), Some(false));
}

#[test]
fn tampered_directory_fails_integrity() {
    let mut archive = build_single(b"directory integrity", true);
    let n = archive.len();
    // flip a digest byte in the trailer, then repair the check byte so
    // trailer parsing still passes and the digest comparison must catch it
    let digest_pos = n - 56 + 2;
    archive[digest_pos] ^= 0x55;
    archive[n - 5] ^= 0x55;
    let mut dec = Decoder::open(archive).unwrap();
    let err = expect_err(dec.read_directory());
    assert_eq!(err.kind, ErrorKind::DirectoryIntegrity);
}

#[test]
fn unsupported_version_is_named() {
    let mut archive = build_single(b"v", true);
    archive[11] = 9;
    let err = expect_err(Decoder::open(archive));
    assert_eq!(err.kind, ErrorKind::UnsupportedVersion(9));
}

#[test]
fn wrong_header_nibble_is_named() {
    let mut archive = build_single(b"n", true);
    archive[0] = 0x53;
    let err = expect_err(Decoder::open(archive));
    assert_eq!(err.kind, ErrorKind::InvalidNibble { expected: 0, actual: 3 });
}

#[test]
fn content_read_before_directory_is_an_order_violation() {
    let archive = build_single(b"order", true);
    let dec = Decoder::open(archive).unwrap();
    let d = zarc::integrity::Digest(blake3::hash(b"order").as_bytes().to_vec());
    let err = expect_err(dec.read_content_frame(&d));
    assert_eq!(err.kind, ErrorKind::ReadOrderViolation);
}

#[test]
fn missing_digest_reads_as_none() {
    let archive = build_single(b"present", true);
    let mut dec = Decoder::open(archive).unwrap();
    dec.read_directory().unwrap();
    let ghost = zarc::integrity::Digest(vec![7u8; 32]);
    assert!(dec.read_content_frame(&ghost).unwrap().is_none());
}

#[test]
fn truncated_archive_is_refused() {
    let archive = build_single(b"t", true);
    let err = expect_err(Decoder::open(archive[..10].to_vec()));
    assert_eq!(err.kind, ErrorKind::Parse);
}

#[test]
fn default_messages_are_present() {
    for kind in [
        ErrorKind::ZstdInit,
        ErrorKind::ZstdCodec,
        ErrorKind::InvalidNibble { expected: 0, actual: 1 },
        ErrorKind::UnsupportedVersion(2),
        ErrorKind::ReadOrderViolation,
        ErrorKind::InvalidUnintendedMagic,
        ErrorKind::MismatchedVersion,
        ErrorKind::DirectoryIntegrity,
        ErrorKind::Parse,
    ] {
        assert!(!kind.default_message().is_empty());
        let err = zarc::error::SimpleError::new(kind);
        assert_eq!(err.kind, kind);
        assert!(!err.message.is_empty());
    }
}

#[test]
fn digest_equality_is_by_bytes() {
    let a = Digest(vec![1, 2, 3]);
    let b = Digest(vec![1, 2, 3]);
    let c = Digest(vec![1, 2, 4]);
    assert!(a == b);
    assert!(a != c);
    let data = b"hash me";
    let expect = Digest(blake3::hash(data).as_bytes().to_vec());
    assert!(DigestType::Blake3.verify_data(&expect, data));
    assert!(!DigestType::Blake3.verify_data(&c, data));
    assert_eq!(DigestType::Blake3.digest_len(), 32);
    assert_eq!(DigestType::Blake3.tag(), 1);
    assert_eq!(DigestType::from_tag(1), Some(DigestType::Blake3));
    assert_eq!(DigestType::from_tag(9), None);
}

#[test]
fn lookup_by_name_and_digest() {
    let mut enc = Encoder::new().unwrap();
    let d = enc.add_data_frame(b"lookup").unwrap();
    let mut f = File::new(1, Pathname(vec![CborString::Text("needle".to_string())]));
    f.digest = Some(d);
    enc.add_file_entry(f).unwrap();
    let (archive, _) = enc.finalise(ts()).unwrap();
    let mut dec = Decoder::open(archive).unwrap();
    dec.read_directory().unwrap();
    let want = zarc::integrity::Digest(blake3::hash(b"lookup").as_bytes().to_vec());
    assert!(dec.frame(&want).is_some());
    let by_name = dec.files_by_name(&Pathname(vec![CborString::Text("needle".to_string())]));
    assert_eq!(by_name.len(), 1);
    let by_digest = dec.files_by_digest(&want);
    assert_eq!(by_digest, by_name);
    let absent = dec.files_by_name(&Pathname(vec![CborString::Text("straw".to_string())]));
    assert!(absent.is_empty());
}
