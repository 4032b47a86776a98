//! Building archives and reading them back.

use zarc::directory::PosixOwner;
use zarc::directory::{SpecialFile, SpecialFileKind};
use zarc::strings::{AttrMap, AttributeValue};
use zarc::timestamps::Timestamps;
use zarc::decode::Decoder;
use zarc::encode::Encoder;
use zarc::directory::File;
use zarc::integrity::Digest;
use zarc::strings::{CborString, Pathname};
use zarc::legacy::LegacyDirectory;
use zarc::ondemand::{MemorySource, OnDemand};
use zarc::timestamps::Timestamp;

fn expect_err<T>(r: Result<T, zarc::error::SimpleError>) -> zarc::error::SimpleError {
    match r {
        Err(e) => e,
        Ok(_) => panic!("expected an error"),
    }
}


fn ts() -> Timestamp {
    Timestamp::from_rfc3339("2024-01-01T00:00:00+00:00".to_string()).unwrap()
}

fn text_path(name: &str) -> Pathname {
    Pathname(vec![CborString::Text(name.to_string())])
}

fn build_single(content: &[u8], compress: bool) -> (Vec<u8>, Vec<u8>) {
    let mut enc = Encoder::new().unwrap();
    enc.enable_compression(compress);
    let digest = enc.add_data_frame(content).unwrap();
    let digest_bytes = digest.0.clone();
    let mut f = File::new(1, text_path("hello.txt"));
    f.digest = Some(digest);
    enc.add_file_entry(f).unwrap();
    let (archive, _) = enc.finalise(ts()).unwrap();
    (archive, digest_bytes)
}

#[test]
fn single_file_roundtrip() {
    let content = b"Hello, Zarc!\n";
    let (archive, digest_bytes) = build_single(content, true);
    assert_eq!(digest_bytes.as_slice(), blake3::hash(content).as_bytes());
    let mut dec = Decoder::open(archive).unwrap();
    dec.read_directory().unwrap();
    assert_eq!(dec.files().len(), 1);
    assert_eq!(dec.frames().len(), 1);
    assert_eq!(dec.editions().len(), 1);
    let file = &dec.files()[0];
    match &file.name.0[0] {
        CborString::Text(t) => assert_eq!(t, "hello.txt"),
        _ => panic!("expected a text component"),
    }
    let d = file.digest.as_ref().unwrap().duplicate();
    assert_eq!(d.0.as_slice(), blake3::hash(content).as_bytes());
    let mut it = dec.read_content_frame(&d).unwrap().unwrap();
    assert_eq!(it.uncompressed_size(), content.len() as u64);
    let got = it.next().unwrap();
    assert_eq!(got.as_slice(), content);
    assert!(it.next().is_none());
    assert_eq!(it.verify(), Some(true));
}

#[test]
fn single_file_uncompressed_roundtrip() {
    let content = b"raw blocks keep bytes verbatim";
    let (archive, _) = build_single(content, false);
    let mut dec = Decoder::open(archive).unwrap();
    dec.read_directory().unwrap();
    let d = dec.files()[0].digest.as_ref().unwrap().duplicate();
    let mut it = dec.read_content_frame(&d).unwrap().unwrap();
    let got = it.next().unwrap();
    assert_eq!(got.as_slice(), content);
    assert_eq!(it.verify(), Some(true));
}

#[test]
fn zero_byte_content_frame_roundtrips() {
    for compress in [true, false] {
        let (archive, _) = build_single(b"", compress);
        let mut dec = Decoder::open(archive).unwrap();
        dec.read_directory().unwrap();
        let d = dec.files()[0].digest.as_ref().unwrap().duplicate();
        let mut it = dec.read_content_frame(&d).unwrap().unwrap();
        assert_eq!(it.uncompressed_size(), 0);
        let got = it.next().unwrap();
        assert!(got.is_empty());
        assert_eq!(it.verify(), Some(true));
    }
}

#[test]
fn empty_archive_roundtrips() {
    let enc = Encoder::new().unwrap();
    let (archive, _) = enc.finalise(ts()).unwrap();
    assert_eq!(
        &archive[..12],
        &[0x50, 0x2A, 0x4D, 0x18, 0x04, 0x00, 0x00, 0x00, 0x65, 0xAA, 0xDC, 0x01]
    );
    let n = archive.len();
    assert_eq!(&archive[n - 3..], &[0x65, 0xAA, 0xDC]);
    let mut dec = Decoder::open(archive).unwrap();
    dec.read_directory().unwrap();
    assert_eq!(dec.files().len(), 0);
    assert_eq!(dec.frames().len(), 0);
    assert_eq!(dec.editions().len(), 1);
    assert_eq!(dec.editions()[0].number, 1);
}

#[test]
fn deduplication_writes_one_frame() {
    let buffer = vec![0u8; 10000];
    let mut enc = Encoder::new().unwrap();
    let d1 = enc.add_data_frame(&buffer).unwrap();
    let d2 = enc.add_data_frame(&buffer).unwrap();
    assert_eq!(d1.0, d2.0);
    let mut fa = File::new(1, text_path("a"));
    fa.digest = Some(d1);
    enc.add_file_entry(fa).unwrap();
    let mut fb = File::new(1, text_path("b"));
    fb.digest = Some(d2);
    enc.add_file_entry(fb).unwrap();
    let (archive, _) = enc.finalise(ts()).unwrap();
    assert!(archive.len() < 10000);
    let mut dec = Decoder::open(archive).unwrap();
    dec.read_directory().unwrap();
    assert_eq!(dec.frames().len(), 1);
    assert_eq!(dec.frames()[0].uncompressed, 10000);
    assert_eq!(dec.files().len(), 2);
    let da = dec.files()[0].digest.as_ref().unwrap();
    let db = dec.files()[1].digest.as_ref().unwrap();
    assert_eq!(da.0, db.0);
}

#[test]
fn files_come_back_in_path_order() {
    let mut enc = Encoder::new().unwrap();
    for name in ["z", "a", "m"] {
        let content = name.as_bytes();
        let d = enc.add_data_frame(content).unwrap();
        let mut f = File::new(1, text_path(name));
        f.digest = Some(d);
        enc.add_file_entry(f).unwrap();
    }
    let (archive, _) = enc.finalise(ts()).unwrap();
    let mut dec = Decoder::open(archive).unwrap();
    dec.read_directory().unwrap();
    let names: Vec<String> = dec
        .files()
        .iter()
        .map(|f| match &f.name.0[0] {
            CborString::Text(t) => t.clone(),
            CborString::Binary(_) => panic!("unexpected binary name"),
        })
        .collect();
    assert_eq!(names, vec!["a".to_string(), "m".to_string(), "z".to_string()]);
}

#[test]
fn many_files_roundtrip() {
    // a small deterministic generator stands in for arbitrary bytes
    let mut seed: u64 = 0x243F6A8885A308D3;
    let mut contents: Vec<Vec<u8>> = Vec::new();
    for i in 0..5usize {
        let mut buf = Vec::new();
        for _ in 0..(100 + 37 * i) {
            seed = seed.wrapping_mul(6364136223846793005).wrapping_add(1442695040888963407);
            buf.push((seed >> 33) as u8);
        }
        contents.push(buf);
    }
    let mut enc = Encoder::new().unwrap();
    for (i, c) in contents.iter().enumerate() {
        let d = enc.add_data_frame(c).unwrap();
        let mut f = File::new(1, text_path(&format!("file-{i}")));
        f.digest = Some(d);
        enc.add_file_entry(f).unwrap();
    }
    let (archive, _) = enc.finalise(ts()).unwrap();
    let mut dec = Decoder::open(archive).unwrap();
    dec.read_directory().unwrap();
    assert_eq!(dec.files().len(), 5);
    for (i, c) in contents.iter().enumerate() {
        let want = Digest(blake3::hash(c).as_bytes().to_vec());
        let idxs = dec.files_by_digest(&want);
        assert_eq!(idxs.len(), 1);
        let name = match &dec.files()[idxs[0]].name.0[0] {
            CborString::Text(t) => t.clone(),
            _ => panic!("unexpected binary name"),
        };
        assert_eq!(name, format!("file-{i}"));
        let mut it = dec.read_content_frame(&want).unwrap().unwrap();
        let got = it.next().unwrap();
        assert_eq!(&got, c);
        assert_eq!(it.verify(), Some(true));
    }
}

#[test]
fn non_utf8_path_components_roundtrip() {
    let raw = vec![0xff, 0xfe, 0x00, 0x41];
    let comp = CborString::from_maybe_utf8(raw.clone());
    assert!(matches!(comp, CborString::Binary(_)));
    let mut enc = Encoder::new().unwrap();
    let d = enc.add_data_frame(b"x").unwrap();
    let mut f = File::new(1, Pathname(vec![comp]));
    f.digest = Some(d);
    enc.add_file_entry(f).unwrap();
    let (archive, _) = enc.finalise(ts()).unwrap();
    let mut dec = Decoder::open(archive).unwrap();
    dec.read_directory().unwrap();
    match &dec.files()[0].name.0[0] {
        CborString::Binary(b) => assert_eq!(b, &raw),
        CborString::Text(_) => panic!("expected a binary component"),
    }
}

#[test]
fn file_without_digest_is_allowed() {
    let mut enc = Encoder::new().unwrap();
    let mut f = File::new(1, text_path("dir"));
    f.special = Some(SpecialFile::of_kind(SpecialFileKind::Directory));
    f.mode = Some(0o755);
    enc.add_file_entry(f).unwrap();
    let (archive, _) = enc.finalise(ts()).unwrap();
    let mut dec = Decoder::open(archive).unwrap();
    dec.read_directory().unwrap();
    let file = &dec.files()[0];
    assert!(file.digest.is_none());
    assert!(file.is_dir());
    assert!(!file.is_normal());
    assert_eq!(file.mode, Some(0o755));
    assert_eq!(dec.frames().len(), 0);
}

#[test]
fn full_metadata_roundtrip() {
    let mut enc = Encoder::new().unwrap();
    let d = enc.add_data_frame(b"metadata test").unwrap();
    let mut f = File::new(1, text_path("meta.txt"));
    f.digest = Some(d);
    f.mode = Some(0o644);
    f.user = Some(PosixOwner { id: Some(1000), name: Some("somebody".to_string()) });
    f.group = Some(PosixOwner { id: Some(100), name: None });
    f.timestamps = Some(Timestamps {
        created: Some(ts()),
        modified: Timestamp::from_epoch(1700000000, 0),
        accessed: None,
    });
    let mut um = AttrMap::new();
    um.insert("origin".to_string(), AttributeValue::String(CborString::Text("test".to_string())));
    f.user_metadata = Some(um);
    let mut attrs = AttrMap::new();
    attrs.insert("read-only".to_string(), AttributeValue::Boolean(true));
    f.attributes = Some(attrs);
    enc.add_file_entry(f).unwrap();
    let (archive, _) = enc.finalise(ts()).unwrap();
    let mut dec = Decoder::open(archive).unwrap();
    dec.read_directory().unwrap();
    let file = &dec.files()[0];
    assert_eq!(file.mode, Some(0o644));
    let user = file.user.as_ref().unwrap();
    assert_eq!(user.id, Some(1000));
    assert_eq!(user.name.as_deref(), Some("somebody"));
    let group = file.group.as_ref().unwrap();
    assert_eq!(group.id, Some(100));
    assert!(group.name.is_none());
    let times = file.timestamps.as_ref().unwrap();
    assert!(times.created.is_some());
    let modified = times.modified.as_ref().unwrap();
    let (secs, nanos) = modified.to_epoch();
    assert_eq!((secs, nanos), (1700000000, 0));
    assert!(times.accessed.is_none());
    let um = file.user_metadata.as_ref().unwrap();
    assert_eq!(um.0.len(), 1);
    assert_eq!(um.0[0].0, "origin");
    let attrs = file.attributes.as_ref().unwrap();
    assert!(matches!(attrs.0[0].1, AttributeValue::Boolean(true)));
}

#[test]
fn oversized_element_fails_at_encode() {
    let mut enc = Encoder::new().unwrap();
    let big = vec![0x41u8; 70000];
    let f = File::new(1, Pathname(vec![CborString::Binary(big)]));
    enc.add_file_entry(f).unwrap();
    let err = expect_err(enc.finalise(ts()));
    assert_eq!(err.kind, zarc::error::ErrorKind::Parse);
}

#[test]
fn unknown_digest_is_refused() {
    let mut enc = Encoder::new().unwrap();
    let mut f = File::new(1, text_path("ghost"));
    f.digest = Some(Digest(vec![0u8; 32]));
    let err = expect_err(enc.add_file_entry(f));
    assert_eq!(err.kind, zarc::error::ErrorKind::Parse);
}

#[test]
fn set_zstd_parameter_is_forwarded() {
    let mut enc = Encoder::new().unwrap();
    enc.set_zstd_parameter(zstd_safe::CParameter::CompressionLevel(19)).unwrap();
    let d = enc.add_data_frame(b"compressed at a higher level").unwrap();
    let mut f = File::new(1, text_path("x"));
    f.digest = Some(d);
    enc.add_file_entry(f).unwrap();
    let (archive, _) = enc.finalise(ts()).unwrap();
    let mut dec = Decoder::open(archive).unwrap();
    dec.read_directory().unwrap();
    assert_eq!(dec.files().len(), 1);
}

#[test]
fn builder_assembles_records() {
    let mut enc = Encoder::new().unwrap();
    let d = enc.add_data_frame(b"built").unwrap();
    let mut b = enc.build_file(text_path("built.txt"));
    b.digest(d);
    b.mode(0o600);
    b.user_id(42);
    b.user_name("u".to_string());
    b.group_id(7);
    b.time_modified(ts());
    b.user_metadata(
        "k".to_string(),
        AttributeValue::String(CborString::Text("v".to_string())),
    );
    enc.add_file_entry(b.into_file()).unwrap();
    let (archive, _) = enc.finalise(ts()).unwrap();
    let mut dec = Decoder::open(archive).unwrap();
    dec.read_directory().unwrap();
    let f = &dec.files()[0];
    assert_eq!(f.mode, Some(0o600));
    assert_eq!(f.user.as_ref().unwrap().id, Some(42));
    assert_eq!(f.user.as_ref().unwrap().name.as_deref(), Some("u"));
    assert_eq!(f.group.as_ref().unwrap().id, Some(7));
    assert!(f.timestamps.as_ref().unwrap().modified.is_some());
    assert_eq!(f.user_metadata.as_ref().unwrap().0[0].0, "k");
}

#[test]
fn memory_source_hands_out_copies() {
    let src = MemorySource(vec![1, 2, 3]);
    assert_eq!(src.open_reader().unwrap(), vec![1, 2, 3]);
    let legacy = LegacyDirectory::new();
    assert!(legacy.editions.is_empty());
    assert!(legacy.filemap.is_empty());
    assert!(legacy.framelist.is_empty());
}

#[test]
fn large_content_spans_many_raw_blocks() {
    // more than two 65,535-byte blocks
    let mut content = Vec::new();
    let mut x: u32 = 1;
    while content.len() < 200_000 {
        x = x.wrapping_mul(1664525).wrapping_add(1013904223);
        content.push((x >> 24) as u8);
    }
    let (archive, _) = build_single(&content, false);
    let mut dec = Decoder::open(archive).unwrap();
    dec.read_directory().unwrap();
    let d = dec.files()[0].digest.as_ref().unwrap().duplicate();
    let mut it = dec.read_content_frame(&d).unwrap().unwrap();
    let got = it.next().unwrap();
    assert_eq!(got, content);
    assert_eq!(it.verify(), Some(true));
}

#[test]
fn large_content_compressed_roundtrip() {
    let content = vec![0x5Au8; 2_000_000];
    let (archive, _) = build_single(&content, true);
    assert!(archive.len() < content.len() / 10);
    let mut dec = Decoder::open(archive).unwrap();
    dec.read_directory().unwrap();
    let d = dec.files()[0].digest.as_ref().unwrap().duplicate();
    let mut it = dec.read_content_frame(&d).unwrap().unwrap();
    let got = it.next().unwrap();
    assert_eq!(got.len(), content.len());
    assert_eq!(got, content);
    assert_eq!(it.verify(), Some(true));
}
