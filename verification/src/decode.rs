//! The decoder: opens an archive, reads and verifies the directory, and
//! streams content frames.
//!
//! Opening checks the header and parses the trailer backward from the
//! end, verifying its check byte. Reading the directory decompresses the
//! directory frame, checks its digest against the trailer, and parses
//! the element stream. Content frames are then decompressed on demand by
//! digest, each read verified against the digest it was requested under.
//!
//! The decoder holds the whole archive in memory and each content frame
//! is decompressed in one piece, so the iterator serves all its bytes in
//! a single pull; feeding it from a file, and any incremental reading,
//! belongs to the program around the library.

use vstd::prelude::*;

use crate::directory::edition::Edition;
use crate::directory::elements::{dec_element, read_element, Element, ElementV};
use crate::directory::file::{File, FileV};
use crate::directory::frame::{Frame, FrameV};
use crate::error::{ErrorKind, SimpleError};
use crate::framing::dec_skippable;
use crate::integrity::{blake3_hash, blake3_of, ct_bytes_eq, Digest, DigestType};
use crate::trailer::{dec_epilogue, trailer_check, Trailer, TrailerV};
use crate::zstd::{zstd_decompress, zstd_inflate};

verus! {

/// What opening an archive yields: the resolved trailer, or nothing
/// where the header or trailer is malformed or fails its checks.
pub open spec fn dec_open(b: Seq<u8>) -> Option<TrailerV> {
    match dec_skippable(b, 0) {
        Some((nibble, payload, _)) => {
            if nibble != 0 || payload.len() < 4 {
                None
            } else if !(payload[0] == 0x65 && payload[1] == 0xAA && payload[2] == 0xDC) {
                None
            } else if payload[3] != 1 {
                None
            } else if b.len() < 22 || b.len() > i64::MAX {
                None
            } else {
                match dec_epilogue(b, b.len() - 22) {
                    Some(epi) => {
                        let dlen = epi.digest_type.spec_digest_len() as int;
                        if b.len() < 24 + dlen {
                            None
                        } else {
                            let t0 = TrailerV {
                                digest: b.subrange(b.len() - 22 - dlen, b.len() - 22),
                                digest_type: epi.digest_type,
                                directory_offset: epi.directory_offset,
                                directory_uncompressed_size: epi.directory_uncompressed_size,
                                version: epi.version,
                            };
                            if trailer_check(t0) != epi.check {
                                None
                            } else if t0.directory_offset < 0 {
                                Some(
                                    TrailerV {
                                        directory_offset: (t0.directory_offset + b.len()) as i64,
                                        ..t0
                                    },
                                )
                            } else {
                                Some(t0)
                            }
                        }
                    },
                    None => None,
                }
            }
        },
        None => None,
    }
}

/// A finalised archive opens: its header parses, its epilogue parses,
/// its check byte verifies, and the resolved trailer comes back.
pub proof fn lemma_open_finalised(archive: Seq<u8>, stream: Seq<u8>, t: TrailerV)
    requires
        crate::encode::archive_shape(archive, stream, t),
        archive.len() <= i64::MAX,
    ensures
        dec_open(archive) == Some(
            TrailerV { directory_offset: (t.directory_offset + archive.len()) as i64, ..t },
        ),
{
    let hdr_payload = seq![0x65u8, 0xAAu8, 0xDCu8, 0x01u8];
    assert(crate::wire::le32(4u32) =~= seq![4u8, 0u8, 0u8, 0u8]) by {
        assert((4u32 & 0xff) as u8 == 4 && (((4u32 >> 8) & 0xff) as u8) == 0 && (((4u32 >> 16)
            & 0xff) as u8) == 0 && (((4u32 >> 24) & 0xff) as u8) == 0) by (bit_vector);
    }
    assert(crate::file_magic() =~= crate::framing::skippable_frame(0, hdr_payload));
    assert(crate::cbor::at(archive, 0, crate::framing::skippable_frame(0, hdr_payload))) by {
        assert(archive.subrange(0, 12) == crate::file_magic());
    }
    crate::framing::lemma_dec_skippable(archive, 0, 0, hdr_payload);
    let tb = crate::trailer::trailer_bytes(t);
    let tframe = crate::framing::skippable_frame(15, tb);
    let la = archive.len() as int;
    crate::trailer::lemma_trailer_len(t, crate::trailer::trailer_check(t));
    crate::cbor::lemma_at_concat(
        archive,
        la - tframe.len(),
        seq![0x5Fu8, 0x2Au8, 0x4Du8, 0x18u8] + crate::wire::le32(tb.len() as u32),
        tb,
    );
    crate::trailer::lemma_dec_epilogue(archive, la - 56, t);
    let dlen = t.digest_type.spec_digest_len() as int;
    assert(dlen == 32);
    let t0 = TrailerV {
        digest: archive.subrange(la - 22 - dlen, la - 22),
        digest_type: t.digest_type,
        directory_offset: t.directory_offset,
        directory_uncompressed_size: t.directory_uncompressed_size,
        version: t.version,
    };
    assert(archive.subrange((la - 56) + 2, (la - 56) + 2 + t.digest.len()) == t.digest);
    assert(t0.digest == t.digest);
    assert(t0 == t);
}

/// The parsed elements of a directory stream, each `None` standing for
/// an unknown kind that was skipped.
pub open spec fn dec_element_stream(b: Seq<u8>, i: int) -> Option<Seq<Option<ElementV>>>
    decreases b.len() - i,
{
    if i == b.len() {
        Some(Seq::empty())
    } else if !(0 <= i < b.len()) {
        None
    } else {
        match dec_element(b, i) {
            Some((e, j)) => if i < j <= b.len() {
                match dec_element_stream(b, j) {
                    Some(rest) => Some(seq![e] + rest),
                    None => None,
                }
            } else {
                None
            },
            None => None,
        }
    }
}

/// The edition records among parsed elements, in order.
pub open spec fn editions_items(items: Seq<Option<ElementV>>) -> Seq<crate::directory::edition::EditionV>
    decreases items.len(),
{
    if items.len() == 0 {
        Seq::empty()
    } else {
        editions_items(items.drop_last()) + (match items.last() {
            Some(ElementV::Edition(e)) => seq![e],
            _ => Seq::empty(),
        })
    }
}

/// The file records among parsed elements, in order.
pub open spec fn files_items(items: Seq<Option<ElementV>>) -> Seq<FileV>
    decreases items.len(),
{
    if items.len() == 0 {
        Seq::empty()
    } else {
        files_items(items.drop_last()) + (match items.last() {
            Some(ElementV::File(f)) => seq![f],
            _ => Seq::empty(),
        })
    }
}

/// The frame records among parsed elements, in order.
pub open spec fn frames_items(items: Seq<Option<ElementV>>) -> Seq<FrameV>
    decreases items.len(),
{
    if items.len() == 0 {
        Seq::empty()
    } else {
        frames_items(items.drop_last()) + (match items.last() {
            Some(ElementV::Frame(f)) => seq![f],
            _ => Seq::empty(),
        })
    }
}

/// The first index in a frame list carrying a digest, if any.
pub open spec fn frame_lookup(frames: Seq<Frame>, d: Seq<u8>) -> Option<int>
    decreases frames.len(),
{
    if frames.len() == 0 {
        None
    } else if frames[0]@.digest == d {
        Some(0)
    } else {
        match frame_lookup(frames.drop_first(), d) {
            Some(i) => Some(i + 1),
            None => None,
        }
    }
}

/// The lookup finds the first match.
proof fn lemma_frame_lookup_found(frames: Seq<Frame>, d: Seq<u8>, k: int)
    requires
        0 <= k < frames.len(),
        forall|m: int| 0 <= m < k ==> (#[trigger] frames[m])@.digest != d,
        frames[k]@.digest == d,
    ensures
        frame_lookup(frames, d) == Some(k),
    decreases k,
{
    if k > 0 {
        assert(frames.drop_first()[k - 1] == frames[k]);
        assert forall|m: int| 0 <= m < k - 1 implies (#[trigger] frames.drop_first()[m])@.digest
            != d by {
            assert(frames.drop_first()[m] == frames[m + 1]);
        }
        lemma_frame_lookup_found(frames.drop_first(), d, k - 1);
    }
}

/// The lookup misses exactly when no frame matches.
proof fn lemma_frame_lookup_none(frames: Seq<Frame>, d: Seq<u8>)
    requires
        forall|m: int| 0 <= m < frames.len() ==> (#[trigger] frames[m])@.digest != d,
    ensures
        frame_lookup(frames, d) is None,
    decreases frames.len(),
{
    if frames.len() > 0 {
        assert forall|m: int|
            0 <= m < frames.drop_first().len() implies (#[trigger] frames.drop_first()[m])@.digest
            != d by {
            assert(frames.drop_first()[m] == frames[m + 1]);
        }
        lemma_frame_lookup_none(frames.drop_first(), d);
    }
}

/// The frame a digest names refuses content reads: it lies inside the
/// header, or it is the directory frame itself.
pub open spec fn names_no_content(f: FrameV, t: TrailerV) -> bool {
    f.offset < 12 || (t.directory_offset >= 0 && f.offset == t.directory_offset)
}

/// The archive's directory can be read against this trailer: the region
/// is in bounds and decompresses, within the declared size, to a stream
/// that hashes to the trailer's digest and parses as elements.
pub open spec fn directory_readable(archive: Seq<u8>, t: TrailerV) -> bool {
    &&& 0 <= t.directory_offset
    &&& archive.len() >= 32 + t.digest_type.spec_digest_len()
    &&& t.directory_offset <= archive.len() - (32 + t.digest_type.spec_digest_len())
    &&& t.directory_uncompressed_size <= usize::MAX
    &&& match zstd_inflate(directory_region(archive, t)) {
        Some(stream) => stream.len() <= t.directory_uncompressed_size && blake3_of(stream)
            == t.digest && dec_element_stream(stream, 0) is Some,
        None => false,
    }
}

/// The decoder context: the archive bytes, the verified trailer, and the
/// directory contents once loaded.
pub struct Decoder {
    /// The archive bytes.
    archive: Vec<u8>,
    /// The verified trailer, offset resolved to its positive form.
    trailer: Trailer,
    /// Whether the directory has been read.
    loaded: bool,
    /// Edition records, in directory order.
    editions: Vec<Edition>,
    /// File records, in directory order.
    files: Vec<File>,
    /// Frame records, in directory order.
    frames: Vec<Frame>,
}

impl Decoder {
    /// The archive bytes.
    pub closed spec fn spec_archive(&self) -> Seq<u8> {
        self.archive@
    }

    /// The verified trailer.
    pub closed spec fn spec_trailer(&self) -> TrailerV {
        self.trailer@
    }

    /// Whether the directory has been read.
    pub closed spec fn spec_loaded(&self) -> bool {
        self.loaded
    }

    /// The edition records.
    pub closed spec fn spec_editions(&self) -> Seq<Edition> {
        self.editions@
    }

    /// The file records.
    pub closed spec fn spec_files(&self) -> Seq<File> {
        self.files@
    }

    /// The frame records.
    pub closed spec fn spec_frames(&self) -> Seq<Frame> {
        self.frames@
    }

    /// The directory contents parse from the directory region of the
    /// archive and match the trailer's digest.
    pub closed spec fn directory_ok(&self) -> bool {
        exists|stream: Seq<u8>, items: Seq<Option<ElementV>>|
            {
                &&& #[trigger] zstd_inflate(directory_region(self.archive@, self.trailer@))
                    == Some(stream)
                &&& blake3_of(stream) == self.trailer@.digest
                &&& dec_element_stream(stream, 0) == Some(items)
                &&& editions_items(items) == Seq::new(
                    self.editions@.len(),
                    |i: int| self.editions@[i]@,
                )
                &&& files_items(items) == Seq::new(self.files@.len(), |i: int| self.files@[i]@)
                &&& frames_items(items) == Seq::new(self.frames@.len(), |i: int| self.frames@[i]@)
            }
    }

    /// Open an archive: check the header, parse and verify the trailer.
    /// The header's and the trailer's version bytes are not compared
    /// with each other; that check is optional and left out.
    pub fn open(archive: Vec<u8>) -> (r: Result<Decoder, SimpleError>)
        ensures
            match r {
                Ok(d) => dec_open(archive@) == Some(d.spec_trailer()) && d.spec_archive()
                    == archive@ && !d.spec_loaded(),
                Err(e) => dec_open(archive@) is None && (match dec_skippable(archive@, 0) {
                    Some((nib, payload, _)) => {
                        if nib != 0 {
                            e.kind == (ErrorKind::InvalidNibble { expected: 0, actual: nib })
                        } else if payload.len() < 4 || !(payload[0] == 0x65 && payload[1] == 0xAA
                            && payload[2] == 0xDC) {
                            e.kind == ErrorKind::Parse
                        } else if payload[3] != 1 {
                            e.kind == ErrorKind::UnsupportedVersion(payload[3])
                        } else {
                            e.kind == ErrorKind::Parse
                        }
                    },
                    None => e.kind == ErrorKind::Parse,
                }),
            },
    {
        let (payload, _) = match crate::framing::read_skippable_frame(archive.as_slice(), 0, 0) {
            Ok(x) => x,
            Err(e) => { return Err(e) },
        };
        if payload.len() < 4 {
            return Err(SimpleError::new(ErrorKind::Parse));
        }
        if !(payload[0] == 0x65 && payload[1] == 0xAA && payload[2] == 0xDC) {
            return Err(SimpleError::new(ErrorKind::Parse));
        }
        if payload[3] != 1 {
            return Err(SimpleError::new(ErrorKind::UnsupportedVersion(payload[3])));
        }
        if archive.len() < 22 || archive.len() as u64 > i64::MAX as u64 {
            return Err(SimpleError::new(ErrorKind::Parse));
        }
        let epi = match crate::trailer::read_epilogue(archive.as_slice(), archive.len() - 22) {
            Ok(e) => e,
            Err(e) => { return Err(e) },
        };
        let dlen = epi.digest_type.digest_len();
        if archive.len() < 24 + dlen {
            return Err(SimpleError::new(ErrorKind::Parse));
        }
        let head = archive.len() - 22 - dlen;
        let mut digest_bytes: Vec<u8> = Vec::new();
        crate::wire::push_slice(&mut digest_bytes, &archive.as_slice()[head..archive.len() - 22]);
        let mut trailer = Trailer {
            digest: Digest(digest_bytes),
            digest_type: epi.digest_type,
            directory_offset: epi.directory_offset,
            directory_uncompressed_size: epi.directory_uncompressed_size,
            version: epi.version,
        };
        proof {
            assert(trailer@.digest =~= archive@.subrange(
                archive@.len() - 22 - epi.digest_type.spec_digest_len(),
                archive@.len() - 22,
            ));
        }
        let check = trailer.compute_check();
        if check != epi.check {
            return Err(SimpleError::new(ErrorKind::Parse));
        }
        trailer.make_offset_positive(archive.len() as u64);
        Ok(
            Decoder {
                archive,
                trailer,
                loaded: false,
                editions: Vec::new(),
                files: Vec::new(),
                frames: Vec::new(),
            },
        )
    }

    /// The archive's length in bytes.
    pub fn file_length(&self) -> (r: u64)
        requires
            self.spec_archive().len() <= u64::MAX,
        ensures
            r == self.spec_archive().len(),
    {
        self.archive.len() as u64
    }

    /// The verified trailer.
    pub fn trailer(&self) -> (r: &Trailer)
        ensures
            r@ == self.spec_trailer(),
    {
        &self.trailer
    }

    /// Read and verify the directory, and build the record lists.
    #[verifier::loop_isolation(false)]
    pub fn read_directory(&mut self) -> (r: Result<(), SimpleError>)
        ensures
            final(self).spec_archive() == old(self).spec_archive(),
            final(self).spec_trailer() == old(self).spec_trailer(),
            match r {
                Ok(_) => final(self).spec_loaded() && final(self).directory_ok(),
                Err(e) => (e.kind == ErrorKind::Parse || e.kind == ErrorKind::ZstdCodec || e.kind
                    == ErrorKind::DirectoryIntegrity) && (e.kind == ErrorKind::DirectoryIntegrity
                    ==> (match zstd_inflate(
                    directory_region(old(self).spec_archive(), old(self).spec_trailer()),
                ) {
                    Some(stream) => blake3_of(stream) != old(self).spec_trailer().digest,
                    None => false,
                })),
            },
            directory_readable(old(self).spec_archive(), old(self).spec_trailer()) ==> r is Ok,
    {
        let dstart_i64 = self.trailer.directory_offset;
        if dstart_i64 < 0 {
            return Err(SimpleError::new(ErrorKind::Parse));
        }
        let dstart = dstart_i64 as u64;
        let tlen = 8 + 2 + self.trailer.digest_type.digest_len() + 22;
        if (self.archive.len() as u64) < tlen as u64 || dstart > self.archive.len() as u64 - tlen
            as u64 {
            return Err(SimpleError::new(ErrorKind::Parse));
        }
        let dstart_us = dstart as usize;
        let dend = self.archive.len() - tlen;
        if self.trailer.directory_uncompressed_size > usize::MAX as u64 {
            return Err(SimpleError::new(ErrorKind::Parse));
        }
        let cap = self.trailer.directory_uncompressed_size as usize;
        let region = &self.archive.as_slice()[dstart_us..dend];
        proof {
            assert(dstart as int == self.trailer@.directory_offset as int);
            assert(dend as int == self.archive@.len() - (32
                + self.trailer@.digest_type.spec_digest_len()));
            assert(region@ =~= self.archive@.subrange(dstart as int, dend as int));
            assert(directory_region(self.archive@, self.trailer@) =~= region@);
        }
        let stream = match zstd_decompress(region, cap) {
            Ok(v) => v,
            Err(msg) => {
                return Err(SimpleError::new(ErrorKind::ZstdCodec).with_message(msg))
            },
        };
        let actual = blake3_hash(stream.as_slice());
        if !ct_bytes_eq(actual.as_slice(), self.trailer.digest.0.as_slice()) {
            return Err(SimpleError::new(ErrorKind::DirectoryIntegrity));
        }
        let mut editions: Vec<Edition> = Vec::new();
        let mut files: Vec<File> = Vec::new();
        let mut frames: Vec<Frame> = Vec::new();
        let mut cur: usize = 0;
        let ghost items0: Seq<Option<ElementV>> = Seq::empty();
        let ghost items: Seq<Option<ElementV>> = items0;
        while cur < stream.len()
            invariant
                cur <= stream@.len(),
                match dec_element_stream(stream@, cur as int) {
                    Some(rest) => dec_element_stream(stream@, 0) == Some(items + rest),
                    None => dec_element_stream(stream@, 0) is None,
                },
                editions_items(items) == Seq::new(editions@.len(), |i: int| editions@[i]@),
                files_items(items) == Seq::new(files@.len(), |i: int| files@[i]@),
                frames_items(items) == Seq::new(frames@.len(), |i: int| frames@[i]@),
            decreases stream@.len() - cur,
        {
            let (el, j) = match read_element(stream.as_slice(), cur) {
                Ok(x) => x,
                Err(e) => { return Err(e) },
            };
            let ghost prev_items = items;
            let ghost elv: Option<ElementV> = match el {
                Some(ref e) => Some(e@),
                None => None,
            };
            match el {
                Some(Element::Edition(e)) => {
                    editions.push(*e);
                },
                Some(Element::File(f)) => {
                    files.push(*f);
                },
                Some(Element::Frame(f)) => {
                    frames.push(*f);
                },
                None => {},
            }
            proof {
                items = prev_items.push(elv);
                assert(items.drop_last() =~= prev_items);
                assert(editions_items(items) =~= Seq::new(editions@.len(), |i: int| editions@[i]@));
                assert(files_items(items) =~= Seq::new(files@.len(), |i: int| files@[i]@));
                assert(frames_items(items) =~= Seq::new(frames@.len(), |i: int| frames@[i]@));
                match dec_element_stream(stream@, j as int) {
                    Some(rest) => {
                        assert(prev_items + (seq![elv] + rest) =~= items + rest);
                    },
                    None => {},
                }
            }
            cur = j;
        }
        proof {
            assert(dec_element_stream(stream@, cur as int) == Some(
                Seq::<Option<ElementV>>::empty(),
            ));
            assert(items + Seq::<Option<ElementV>>::empty() =~= items);
            assert(dec_element_stream(stream@, 0) == Some(items));
        }
        self.editions = editions;
        self.files = files;
        self.frames = frames;
        self.loaded = true;
        proof {
            assert(dstart as int == self.trailer@.directory_offset as int);
            assert(dend as int == self.archive@.len() - (32
                + self.trailer@.digest_type.spec_digest_len()));
            assert(self.archive@.subrange(dstart as int, dend as int) =~= region@);
            assert(directory_region(self.archive@, self.trailer@) =~= region@);
            assert(dec_element_stream(stream@, 0) == Some(items));
            assert(self.directory_ok());
        }
        Ok(())
    }

    /// The edition records, in directory order.
    pub fn editions(&self) -> (r: &Vec<Edition>)
        ensures
            r@ == self.spec_editions(),
    {
        &self.editions
    }

    /// The file records, in directory order.
    pub fn files(&self) -> (r: &Vec<File>)
        ensures
            r@ == self.spec_files(),
    {
        &self.files
    }

    /// The frame records, in directory order.
    pub fn frames(&self) -> (r: &Vec<Frame>)
        ensures
            r@ == self.spec_frames(),
    {
        &self.frames
    }

    /// The frame record carrying a digest, if any.
    pub fn frame(&self, digest: &Digest) -> (r: Option<&Frame>)
        ensures
            match r {
                Some(f) => frame_lookup(self.spec_frames(), digest@) matches Some(k)
                    && 0 <= k < self.spec_frames().len() && self.spec_frames()[k]@ == f@
                    && f@.digest == digest@,
                None => frame_lookup(self.spec_frames(), digest@) is None,
            },
    {
        let mut k: usize = 0;
        while k < self.frames.len()
            invariant
                k <= self.frames@.len(),
                forall|m: int| 0 <= m < k ==> (#[trigger] self.frames@[m])@.digest != digest@,
            decreases self.frames@.len() - k,
        {
            if ct_bytes_eq(self.frames[k].digest.0.as_slice(), digest.0.as_slice()) {
                proof {
                    lemma_frame_lookup_found(self.frames@, digest@, k as int);
                }
                return Some(&self.frames[k]);
            }
            k = k + 1;
        }
        proof {
            lemma_frame_lookup_none(self.frames@, digest@);
        }
        None
    }

    /// The indices of the file records with the given pathname, in
    /// directory order.
    pub fn files_by_name(&self, name: &crate::strings::Pathname) -> (r: Vec<usize>)
        ensures
            forall|i: int, j: int| 0 <= i < j < r@.len() ==> r@[i] < r@[j],
            forall|i: int|
                0 <= i < r@.len() ==> (#[trigger] r@[i]) < self.spec_files().len()
                    && crate::order::path_cmp(self.spec_files()[r@[i] as int]@.name, name@) == 0,
            forall|m: int|
                0 <= m < self.spec_files().len() && crate::order::path_cmp(
                    (#[trigger] self.spec_files()[m])@.name,
                    name@,
                ) == 0 ==> exists|i: int| 0 <= i < r@.len() && r@[i] == m,
    {
        let mut out: Vec<usize> = Vec::new();
        let mut k: usize = 0;
        while k < self.files.len()
            invariant
                k <= self.files@.len(),
                forall|i: int, j: int| 0 <= i < j < out@.len() ==> out@[i] < out@[j],
                forall|i: int| 0 <= i < out@.len() ==> (#[trigger] out@[i]) < k,
                forall|i: int|
                    0 <= i < out@.len() ==> (#[trigger] out@[i]) < self.files@.len()
                        && crate::order::path_cmp(self.files@[out@[i] as int]@.name, name@) == 0,
                forall|m: int|
                    0 <= m < k && crate::order::path_cmp(
                        (#[trigger] self.files@[m])@.name,
                        name@,
                    ) == 0 ==> exists|i: int| 0 <= i < out@.len() && out@[i] == m,
            decreases self.files@.len() - k,
        {
            if crate::order::cmp_pathname(&self.files[k].name, name) == 0 {
                let ghost prev = out@;
                out.push(k);
                proof {
                    assert forall|m: int|
                        0 <= m < k + 1 && crate::order::path_cmp(
                            (#[trigger] self.files@[m])@.name,
                            name@,
                        ) == 0 implies exists|i: int| 0 <= i < out@.len() && out@[i] == m by {
                        if m < k {
                            let i = choose|i: int| 0 <= i < prev.len() && prev[i] == m;
                            assert(out@[i] == m);
                        } else {
                            assert(out@[out@.len() - 1] == m);
                        }
                    }
                }
            }
            k = k + 1;
        }
        out
    }

    /// The indices of the file records referencing the given digest, in
    /// directory order.
    pub fn files_by_digest(&self, digest: &Digest) -> (r: Vec<usize>)
        ensures
            forall|i: int, j: int| 0 <= i < j < r@.len() ==> r@[i] < r@[j],
            forall|i: int|
                0 <= i < r@.len() ==> (#[trigger] r@[i]) < self.spec_files().len()
                    && self.spec_files()[r@[i] as int]@.digest == Some(digest@),
            forall|m: int|
                0 <= m < self.spec_files().len() && (#[trigger] self.spec_files()[m])@.digest
                    == Some(digest@) ==> exists|i: int| 0 <= i < r@.len() && r@[i] == m,
    {
        let mut out: Vec<usize> = Vec::new();
        let mut k: usize = 0;
        while k < self.files.len()
            invariant
                k <= self.files@.len(),
                forall|i: int, j: int| 0 <= i < j < out@.len() ==> out@[i] < out@[j],
                forall|i: int| 0 <= i < out@.len() ==> (#[trigger] out@[i]) < k,
                forall|i: int|
                    0 <= i < out@.len() ==> (#[trigger] out@[i]) < self.files@.len()
                        && self.files@[out@[i] as int]@.digest == Some(digest@),
                forall|m: int|
                    0 <= m < k && (#[trigger] self.files@[m])@.digest == Some(digest@) ==> exists|
                        i: int,
                    | 0 <= i < out@.len() && out@[i] == m,
            decreases self.files@.len() - k,
        {
            match &self.files[k].digest {
                Some(d) => {
                    if ct_bytes_eq(d.0.as_slice(), digest.0.as_slice()) {
                        let ghost prev = out@;
                        out.push(k);
                        proof {
                            assert forall|m: int|
                                0 <= m < k + 1 && (#[trigger] self.files@[m])@.digest == Some(
                                    digest@,
                                ) implies exists|i: int| 0 <= i < out@.len() && out@[i] == m by {
                                if m < k {
                                    let i = choose|i: int| 0 <= i < prev.len() && prev[i] == m;
                                    assert(out@[i] == m);
                                } else {
                                    assert(out@[out@.len() - 1] == m);
                                }
                            }
                        }
                    }
                },
                None => {},
            }
            k = k + 1;
        }
        out
    }

    /// Decompress the content frame carrying a digest. `None` where no
    /// frame carries it, or where it names the header or the directory.
    pub fn read_content_frame(&self, digest: &Digest) -> (r: Result<
        Option<FrameIterator>,
        SimpleError,
    >)
        ensures
            match r {
                Ok(Some(it)) => frame_lookup(self.spec_frames(), digest@) matches Some(k) && {
                    let f = self.spec_frames()[k]@;
                    &&& f.digest == digest@
                    &&& f.offset + f.length <= self.spec_archive().len()
                    &&& zstd_inflate(
                        self.spec_archive().subrange(f.offset as int, f.offset + f.length),
                    ) == Some(it.spec_data())
                    &&& (forall|c: Seq<u8>|
                        #[trigger] crate::encode::frame_data(
                            self.spec_archive().subrange(f.offset as int, f.offset + f.length),
                            c,
                        ) ==> it.spec_data() == c)
                    &&& it.spec_expected() == digest@
                    &&& it.spec_uncompressed_size() == f.uncompressed
                    &&& it.spec_data().len() <= f.uncompressed
                    &&& !it.spec_served()
                },
                Ok(None) => true,
                Err(e) => (e.kind == ErrorKind::ReadOrderViolation || e.kind == ErrorKind::Parse
                    || e.kind == ErrorKind::ZstdCodec) && (e.kind == ErrorKind::ReadOrderViolation
                    <==> !self.spec_loaded()),
            },
            (r matches Ok(None)) <==> (self.spec_loaded() && (match frame_lookup(
                self.spec_frames(),
                digest@,
            ) {
                None => true,
                Some(k) => names_no_content(self.spec_frames()[k]@, self.spec_trailer()),
            })),
            (self.spec_loaded() && (frame_lookup(self.spec_frames(), digest@) matches Some(k) && {
                let f = self.spec_frames()[k]@;
                &&& !names_no_content(f, self.spec_trailer())
                &&& f.offset <= usize::MAX
                &&& f.length <= usize::MAX
                &&& f.offset + f.length <= self.spec_archive().len()
                &&& f.uncompressed <= usize::MAX
                &&& exists|c: Seq<u8>|
                    #[trigger] crate::encode::frame_data(
                        self.spec_archive().subrange(f.offset as int, f.offset + f.length),
                        c,
                    ) && c.len() <= f.uncompressed
            })) ==> r matches Ok(Some(_)),
    {
        if !self.loaded {
            return Err(SimpleError::new(ErrorKind::ReadOrderViolation));
        }
        let f = match self.frame(digest) {
            Some(f) => f,
            None => { return Ok(None) },
        };
        if f.offset < 12 {
            return Ok(None);
        }
        if self.trailer.directory_offset >= 0 && f.offset == self.trailer.directory_offset as u64 {
            return Ok(None);
        }
        if f.offset > usize::MAX as u64 || f.length > usize::MAX as u64 || f.length
            > self.archive.len() as u64 || f.offset > self.archive.len() as u64 - f.length {
            return Err(SimpleError::new(ErrorKind::Parse));
        }
        if f.uncompressed > usize::MAX as u64 {
            return Err(SimpleError::new(ErrorKind::Parse));
        }
        let start = f.offset as usize;
        let end = start + f.length as usize;
        let cap = f.uncompressed as usize;
        let region = &self.archive.as_slice()[start..end];
        let data = match zstd_decompress(region, cap) {
            Ok(v) => v,
            Err(msg) => {
                return Err(SimpleError::new(ErrorKind::ZstdCodec).with_message(msg))
            },
        };
        let it = FrameIterator {
            data,
            served: false,
            expected: digest.duplicate(),
            uncompressed_size: f.uncompressed,
        };
        proof {
            assert(region@ =~= self.archive@.subrange(
                f@.offset as int,
                f@.offset + f@.length,
            ));
        }
        Ok(Some(it))
    }
}

/// The directory's byte region in an archive, by the trailer's resolved
/// offset: up to the start of the trailer frame.
pub open spec fn directory_region(archive: Seq<u8>, t: TrailerV) -> Seq<u8> {
    archive.subrange(
        t.directory_offset as int,
        archive.len() - (32 + t.digest_type.spec_digest_len()),
    )
}

/// A content frame being streamed out: its decompressed bytes, served
/// in one pull, with a running digest checked at the end.
pub struct FrameIterator {
    /// The decompressed bytes.
    data: Vec<u8>,
    /// Whether the data has been pulled.
    served: bool,
    /// The digest the frame was requested under.
    expected: Digest,
    /// The uncompressed size the frame record declared.
    uncompressed_size: u64,
}

impl FrameIterator {
    /// The decompressed bytes.
    pub closed spec fn spec_data(&self) -> Seq<u8> {
        self.data@
    }

    /// Whether the data has been pulled.
    pub closed spec fn spec_served(&self) -> bool {
        self.served
    }

    /// The digest the frame was requested under.
    pub closed spec fn spec_expected(&self) -> Seq<u8> {
        self.expected@
    }

    /// The uncompressed size the frame record declared.
    pub closed spec fn spec_uncompressed_size(&self) -> u64 {
        self.uncompressed_size
    }

    /// The uncompressed size the frame record declared.
    pub fn uncompressed_size(&self) -> (r: u64)
        ensures
            r == self.spec_uncompressed_size(),
    {
        self.uncompressed_size
    }

    /// How many decompressed bytes are left to pull: everything before
    /// the first call to `next`, nothing after. This equals the record's
    /// declared uncompressed size only when the record is honest;
    /// `read_content_frame` bounds the data by that declared size.
    pub fn bytes_left(&self) -> (r: u64)
        requires
            self.spec_data().len() <= u64::MAX,
        ensures
            r == (if self.spec_served() {
                0u64
            } else {
                self.spec_data().len() as u64
            }),
    {
        if self.served {
            0
        } else {
            self.data.len() as u64
        }
    }

    /// Whether the frame is exhausted.
    pub fn is_done(&self) -> (r: bool)
        ensures
            r == self.spec_served(),
    {
        self.served
    }

    /// Pull the decompressed bytes: all of them on the first call, then
    /// nothing.
    pub fn next(&mut self) -> (r: Option<Vec<u8>>)
        ensures
            final(self).spec_served(),
            final(self).spec_expected() == old(self).spec_expected(),
            final(self).spec_data() == old(self).spec_data(),
            final(self).spec_uncompressed_size() == old(self).spec_uncompressed_size(),
            match r {
                Some(v) => !old(self).spec_served() && v@ == old(self).spec_data(),
                None => old(self).spec_served(),
            },
    {
        if self.served {
            return None;
        }
        self.served = true;
        Some(self.data.clone())
    }

    /// The digest of the bytes served, once the frame is exhausted.
    pub fn digest(&self) -> (r: Option<Digest>)
        ensures
            match r {
                Some(d) => self.spec_served() && d@ == blake3_of(self.spec_data()),
                None => !self.spec_served(),
            },
    {
        if self.served {
            Some(Digest(blake3_hash(self.data.as_slice())))
        } else {
            None
        }
    }

    /// Whether the served bytes hash to the digest the frame was
    /// requested under; known once the frame is exhausted.
    pub fn verify(&self) -> (r: Option<bool>)
        ensures
            match r {
                Some(ok) => self.spec_served() && ok == (blake3_of(self.spec_data())
                    == self.spec_expected()),
                None => !self.spec_served(),
            },
    {
        if self.served {
            let actual = blake3_hash(self.data.as_slice());
            Some(ct_bytes_eq(actual.as_slice(), self.expected.0.as_slice()))
        } else {
            None
        }
    }
}

} // verus!
