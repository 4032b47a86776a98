//! The encoder: accumulates content frames and file records, then writes
//! the directory and the trailer.
//!
//! Content frames are deduplicated by digest: adding the same bytes
//! twice writes one frame. File records are kept sorted by pathname, so
//! the directory comes out in deterministic order, each frame record
//! standing before the first file record that references it.

use vstd::prelude::*;

use crate::directory::edition::{enc_edition, Edition, EditionV};
use crate::directory::elements::{enc_element_frame, write_element, Element, ElementV};
use crate::directory::file::{enc_file, File, FileV};
use crate::directory::frame::{enc_frame, Frame, FrameV};
use crate::error::{ErrorKind, SimpleError};
use crate::framing::{is_zstd_magic, raw_frame, skippable_frame, write_uncompressed_frame};
use crate::integrity::{blake3_hash, blake3_of, ct_bytes_eq, Digest, DigestType};
use crate::order::path_cmp;
use crate::timestamps::{ts_wf, Timestamp};
use crate::trailer::{trailer_bytes, trailerv_wf, Trailer, TrailerV};
use crate::zstd::{cctx_compress, cctx_reset_session, cctx_set_parameter, new_cctx, zstd_inflate};

verus! {

/// The frame bytes decode to `c`: they decompress to it, or they are a
/// raw-block frame holding it verbatim.
pub open spec fn frame_data(bytes: Seq<u8>, c: Seq<u8>) -> bool {
    zstd_inflate(bytes) == Some(c) || bytes == raw_frame(c)
}

/// The record `f` names a region of `archive` holding content with `f`'s
/// digest and uncompressed size.
pub open spec fn frame_stored(archive: Seq<u8>, f: FrameV) -> bool {
    &&& 12 <= f.offset
    &&& f.offset + f.length <= archive.len()
    &&& exists|c: Seq<u8>|
        frame_data(archive.subrange(f.offset as int, f.offset + f.length), c) && #[trigger] blake3_of(
            c,
        ) == f.digest && c.len() == f.uncompressed
}

/// `new` is `old` with `entry` inserted at some position.
pub open spec fn inserted_at_some(old_fs: Seq<File>, new_fs: Seq<File>, entry: File) -> bool {
    exists|p: int| 0 <= p <= old_fs.len() && new_fs == #[trigger] old_fs.insert(p, entry)
}

/// Some frame in the list carries this digest.
pub open spec fn has_digest(frames: Seq<Frame>, d: Seq<u8>) -> bool {
    exists|k: int| 0 <= k < frames.len() && (#[trigger] frames[k])@.digest == d
}

/// The views of a list of file records.
pub open spec fn files_views(fs: Seq<File>) -> Seq<FileV> {
    Seq::new(fs.len(), |i: int| fs[i]@)
}

/// The views of a list of frame records.
pub open spec fn frames_views(fs: Seq<Frame>) -> Seq<FrameV> {
    Seq::new(fs.len(), |i: int| fs[i]@)
}

/// The byte stream of a sequence of element frames.
pub open spec fn elements_bytes(els: Seq<ElementV>) -> Seq<u8>
    decreases els.len(),
{
    if els.len() == 0 {
        Seq::empty()
    } else {
        elements_bytes(els.drop_last()) + enc_element_frame(els.last())
    }
}

/// Appending an element appends its frame bytes.
pub proof fn lemma_elements_bytes_snoc(els: Seq<ElementV>, e: ElementV)
    ensures
        elements_bytes(els.push(e)) == elements_bytes(els) + enc_element_frame(e),
{
    assert(els.push(e).drop_last() =~= els);
    assert(els.push(e).last() == e);
}

/// What the directory stream promises: the edition record first and
/// alone of its kind; the file records exactly the encoder's files, in
/// ascending pathname order; every file record preceded by a frame
/// record carrying its digest; every frame record one of the encoder's
/// frames, each digest at most once, and every frame present, the
/// unreferenced ones after every file record.
pub open spec fn stream_elements_ok(
    els: Seq<ElementV>,
    edition: u16,
    files: Seq<FileV>,
    frames: Seq<FrameV>,
) -> bool {
    &&& els.len() >= 1
    &&& (els[0] matches ElementV::Edition(ed) && ed.number == edition)
    &&& forall|k: int| 1 <= k < els.len() ==> !is_edition_el(#[trigger] els[k])
    &&& forall|k: int| 0 <= k < els.len() ==> file_digest_preceded(els, k)
    &&& files_of(els) == files
    &&& forall|i: int, j: int|
        0 <= i < j < files.len() ==> path_cmp(
            (#[trigger] files[i]).name,
            (#[trigger] files[j]).name,
        ) <= 0
    &&& forall|k: int|
        0 <= k < els.len() ==> (match #[trigger] els[k] {
            ElementV::Frame(fr) => frames.contains(fr),
            _ => true,
        })
    &&& forall|m: int| 0 <= m < frames.len() ==> frames_of(els).contains(#[trigger] frames[m])
    &&& forall|j1: int, j2: int|
        0 <= j1 < j2 < els.len() ==> !(frame_digest_of(#[trigger] els[j1]) is Some
            && frame_digest_of(#[trigger] els[j2]) == frame_digest_of(els[j1]))
    &&& forall|j1: int, j2: int|
        0 <= j1 < els.len() && 0 <= j2 < els.len() && unreferenced_frame_el(
            #[trigger] els[j1],
            files,
        ) && is_file_el(#[trigger] els[j2]) ==> j2 < j1
}

/// The element is an edition record.
pub open spec fn is_edition_el(e: ElementV) -> bool {
    e matches ElementV::Edition(_)
}

/// The element is a file record.
pub open spec fn is_file_el(e: ElementV) -> bool {
    e matches ElementV::File(_)
}

/// The frame record is referenced by some file in the list.
pub open spec fn frame_referenced(fr: FrameV, files: Seq<FileV>) -> bool {
    exists|i: int| 0 <= i < files.len() && (#[trigger] files[i]).digest == Some(fr.digest)
}

/// The element is a frame record no file in the list references.
pub open spec fn unreferenced_frame_el(e: ElementV, files: Seq<FileV>) -> bool {
    match e {
        ElementV::Frame(fr) => !frame_referenced(fr, files),
        _ => false,
    }
}

/// Some record's element encoding exceeds the 16-bit payload limit.
pub open spec fn some_element_oversized(
    ed: EditionV,
    files: Seq<File>,
    frames: Seq<Frame>,
) -> bool {
    ||| enc_edition(ed).len() > 0xffff
    ||| exists|k: int| 0 <= k < files.len() && enc_file((#[trigger] files[k])@).len() > 0xffff
    ||| exists|k: int| 0 <= k < frames.len() && enc_frame((#[trigger] frames[k])@).len() > 0xffff
}

/// The edition record one finalisation writes.
pub open spec fn edition_of(edition: u16, written_at: Seq<char>) -> EditionV {
    EditionV {
        number: edition,
        written_at,
        digest_type: DigestType::Blake3,
        user_metadata: None,
    }
}

/// The digest of a frame element, if the element is one.
pub open spec fn frame_digest_of(e: ElementV) -> Option<Seq<u8>> {
    match e {
        ElementV::Frame(fr) => Some(fr.digest),
        _ => None,
    }
}

/// The element is a frame record carrying this digest.
pub open spec fn is_frame_with(e: ElementV, d: Seq<u8>) -> bool {
    match e {
        ElementV::Frame(fr) => fr.digest == d,
        _ => false,
    }
}

/// If the element at `k` is a file with a digest, a frame with that
/// digest stands earlier in the stream.
pub open spec fn file_digest_preceded(els: Seq<ElementV>, k: int) -> bool {
    match els[k] {
        ElementV::File(f) => match f.digest {
            Some(d) => exists|j: int| 0 <= j < k && is_frame_with(#[trigger] els[j], d),
            None => true,
        },
        _ => true,
    }
}

/// The file records of an element stream, in order.
pub open spec fn files_of(els: Seq<ElementV>) -> Seq<FileV>
    decreases els.len(),
{
    if els.len() == 0 {
        Seq::empty()
    } else {
        files_of(els.drop_last()) + (match els.last() {
            ElementV::File(f) => seq![f],
            _ => Seq::empty(),
        })
    }
}

/// The frame records of an element stream, in order.
pub open spec fn frames_of(els: Seq<ElementV>) -> Seq<FrameV>
    decreases els.len(),
{
    if els.len() == 0 {
        Seq::empty()
    } else {
        frames_of(els.drop_last()) + (match els.last() {
            ElementV::Frame(f) => seq![f],
            _ => Seq::empty(),
        })
    }
}

/// The fixed layout of a finalised archive: the file magic, content and
/// directory frames, and the trailer frame at the end, whose resolved
/// offset points at the directory's Zstd frame.
pub open spec fn archive_shape(archive: Seq<u8>, stream: Seq<u8>, t: TrailerV) -> bool {
    let tframe = skippable_frame(15, trailer_bytes(t));
    let dstart = t.directory_offset + archive.len();
    &&& trailerv_wf(t)
    &&& t.version == 1
    &&& t.digest_type == DigestType::Blake3
    &&& t.directory_offset < 0
    &&& archive.len() >= 12
    &&& archive.subrange(0, 12) == crate::file_magic()
    &&& crate::cbor::at(archive, archive.len() - tframe.len(), tframe)
    &&& 12 <= dstart
    &&& dstart + 4 <= archive.len() - tframe.len()
    &&& zstd_inflate(archive.subrange(dstart, archive.len() - tframe.len())) == Some(stream)
    &&& t.digest == blake3_of(stream)
    &&& t.directory_uncompressed_size == stream.len()
    &&& is_zstd_magic(archive, dstart)
}

/// A finalised archive for the given directory contents.
pub open spec fn finalised(
    archive: Seq<u8>,
    digest: Seq<u8>,
    edition: u16,
    files: Seq<FileV>,
    frames: Seq<FrameV>,
) -> bool {
    exists|t: TrailerV, stream: Seq<u8>, els: Seq<ElementV>|
        #![trigger archive_shape(archive, stream, t), elements_bytes(els)]
        {
            &&& archive_shape(archive, stream, t)
            &&& digest == blake3_of(stream)
            &&& stream == elements_bytes(els)
            &&& stream_elements_ok(els, edition, files, frames)
        }
}

/// The last three bytes of a finalised archive are the archive magic.
pub proof fn lemma_archive_ends_with_magic(archive: Seq<u8>, stream: Seq<u8>, t: TrailerV)
    requires
        archive_shape(archive, stream, t),
    ensures
        archive.len() >= 3,
        archive.subrange(archive.len() - 3, archive.len() as int) == crate::zarc_magic(),
{
    let tb = trailer_bytes(t);
    let tframe = skippable_frame(15, tb);
    let la = archive.len() as int;
    let p = la - tframe.len();
    assert(archive.subrange(p, la) == tframe);
    crate::trailer::lemma_trailer_len(t, crate::trailer::trailer_check(t));
    assert(tb =~= (seq![0u8, t.digest_type.spec_tag()] + t.digest) + (seq![
        t.digest_type.spec_tag(),
    ] + crate::wire::le64(t.directory_offset as u64) + crate::wire::le64(
        t.directory_uncompressed_size,
    ) + seq![crate::trailer::trailer_check(t), t.version] + crate::zarc_magic()));
    assert(tb.len() >= 3);
    assert(tb[tb.len() - 3] == 0x65 && tb[tb.len() - 2] == 0xAA && tb[tb.len() - 1] == 0xDC);
    assert(tframe[tframe.len() - 3] == 0x65 && tframe[tframe.len() - 2] == 0xAA
        && tframe[tframe.len() - 1] == 0xDC);
    assert(archive[la - 3] == tframe[tframe.len() - 3] && archive[la - 2] == tframe[tframe.len()
        - 2] && archive[la - 1] == tframe[tframe.len() - 1]) by {
        assert(archive.subrange(p, la)[tframe.len() - 3] == tframe[tframe.len() - 3]);
        assert(archive.subrange(p, la)[tframe.len() - 2] == tframe[tframe.len() - 2]);
        assert(archive.subrange(p, la)[tframe.len() - 1] == tframe[tframe.len() - 1]);
    }
    assert(archive.subrange(la - 3, la) =~= crate::zarc_magic());
}

/// The encoder context: the archive bytes written so far and the records
/// to be written into the directory.
pub struct Encoder {
    /// The archive bytes so far.
    out: Vec<u8>,
    /// The compression context.
    zstd: zstd_safe::CCtx<'static>,
    /// The edition being written; never zero.
    edition: u16,
    /// File records, kept sorted by pathname.
    files: Vec<File>,
    /// Frame records, in insertion order, digests unique.
    frames: Vec<Frame>,
    /// Whether content frames are compressed.
    compress: bool,
}

impl Encoder {
    /// The encoder's invariant: the header is in place, every frame
    /// record names a stored region, digests are unique, every file's
    /// digest names a frame, and files stand sorted by pathname.
    pub closed spec fn wf(&self) -> bool {
        &&& self.out@.len() >= 12
        &&& self.out@.subrange(0, 12) == crate::file_magic()
        &&& self.edition != 0
        &&& forall|k: int|
            0 <= k < self.frames@.len() ==> (#[trigger] self.frames@[k]).edition != 0
                && self.frames@[k]@.digest.len() == 32 && frame_stored(
                self.out@,
                self.frames@[k]@,
            )
        &&& forall|k1: int, k2: int|
            0 <= k1 < k2 < self.frames@.len() ==> (#[trigger] self.frames@[k1])@.digest != (
            #[trigger] self.frames@[k2])@.digest
        &&& forall|k: int|
            0 <= k < self.files@.len() ==> (#[trigger] self.files@[k]).edition != 0 && (
            self.files@[k]@.digest matches Some(d) ==> has_digest(self.frames@, d))
        &&& forall|i: int, j: int|
            0 <= i < j < self.files@.len() ==> path_cmp(
                (#[trigger] self.files@[i])@.name,
                (#[trigger] self.files@[j])@.name,
            ) <= 0
    }

    /// The edition number being written.
    pub fn edition(&self) -> (r: u16)
        ensures
            r == self.spec_edition(),
    {
        self.edition
    }

    /// The archive bytes written so far.
    pub closed spec fn spec_out(&self) -> Seq<u8> {
        self.out@
    }

    /// The file records so far.
    pub closed spec fn spec_files(&self) -> Seq<File> {
        self.files@
    }

    /// The frame records so far.
    pub closed spec fn spec_frames(&self) -> Seq<Frame> {
        self.frames@
    }

    /// Whether content frames are compressed.
    pub closed spec fn spec_compress(&self) -> bool {
        self.compress
    }

    /// The edition number being written.
    pub closed spec fn spec_edition(&self) -> u16 {
        self.edition
    }

    /// Start an archive: write the file magic and set up compression.
    pub fn new() -> (r: Result<Encoder, SimpleError>)
        ensures
            match r {
                Ok(e) => e.wf() && e.spec_out() == crate::file_magic() && e.spec_files()
                    == Seq::<File>::empty() && e.spec_frames() == Seq::<Frame>::empty()
                    && e.spec_compress() && e.spec_edition() == 1,
                Err(e) => e.kind == ErrorKind::ZstdInit,
            },
    {
        let zstd = match new_cctx() {
            Some(z) => z,
            None => { return Err(SimpleError::new(ErrorKind::ZstdInit)) },
        };
        let out = crate::file_magic_bytes();
        let e = Encoder {
            out,
            zstd,
            edition: 1,
            files: Vec::new(),
            frames: Vec::new(),
            compress: true,
        };
        proof {
            assert(e.out@.subrange(0, 12) =~= crate::file_magic());
        }
        Ok(e)
    }

    /// Enable or disable compression for the content frames to come.
    pub fn enable_compression(&mut self, compress: bool)
        requires
            old(self).wf(),
        ensures
            final(self).wf(),
            final(self).spec_compress() == compress,
            final(self).spec_out() == old(self).spec_out(),
            final(self).spec_files() == old(self).spec_files(),
            final(self).spec_frames() == old(self).spec_frames(),
            final(self).spec_edition() == old(self).spec_edition(),
    {
        self.compress = compress;
    }

    /// Forward a parameter to the codec; it applies to future frames.
    /// Fails with a codec error if the codec rejects it.
    pub fn set_zstd_parameter(&mut self, parameter: zstd_safe::CParameter) -> (r: Result<
        (),
        SimpleError,
    >)
        requires
            old(self).wf(),
        ensures
            final(self).wf(),
            final(self).spec_out() == old(self).spec_out(),
            final(self).spec_files() == old(self).spec_files(),
            final(self).spec_frames() == old(self).spec_frames(),
            final(self).spec_compress() == old(self).spec_compress(),
            final(self).spec_edition() == old(self).spec_edition(),
            r matches Err(e) ==> e.kind == ErrorKind::ZstdCodec,
    {
        match cctx_set_parameter(&mut self.zstd, parameter) {
            Ok(_) => Ok(()),
            Err(msg) => Err(SimpleError::new(ErrorKind::ZstdCodec).with_message(msg)),
        }
    }

    /// Find the frame carrying a digest.
    fn find_frame(&self, digest: &[u8]) -> (r: Option<usize>)
        ensures
            match r {
                Some(i) => i < self.frames@.len() && self.frames@[i as int]@.digest == digest@,
                None => !has_digest(self.frames@, digest@),
            },
    {
        let mut k: usize = 0;
        while k < self.frames.len()
            invariant
                k <= self.frames@.len(),
                forall|m: int| 0 <= m < k ==> (#[trigger] self.frames@[m])@.digest != digest@,
            decreases self.frames@.len() - k,
        {
            if ct_bytes_eq(self.frames[k].digest.0.as_slice(), digest) {
                return Some(k);
            }
            k = k + 1;
        }
        None
    }

    /// Add a frame of content, deduplicated by digest: if the digest is
    /// already stored, nothing is written and the digest is returned.
    pub fn add_data_frame(&mut self, content: &[u8]) -> (r: Result<Digest, SimpleError>)
        requires
            old(self).wf(),
        ensures
            final(self).wf(),
            final(self).spec_edition() == old(self).spec_edition(),
            final(self).spec_compress() == old(self).spec_compress(),
            final(self).spec_files() == old(self).spec_files(),
            match r {
                Ok(d) => {
                    &&& d@ == blake3_of(content@)
                    &&& has_digest(final(self).spec_frames(), d@)
                    &&& (has_digest(old(self).spec_frames(), blake3_of(content@)) ==> final(self).spec_out() == old(self).spec_out() && final(self).spec_frames() == old(self).spec_frames())
                    &&& (!has_digest(old(self).spec_frames(), blake3_of(content@)) ==> {
                        &&& final(self).spec_frames().len() == old(self).spec_frames().len() + 1
                        &&& final(self).spec_frames().subrange(
                            0,
                            old(self).spec_frames().len() as int,
                        ) == old(self).spec_frames()
                        &&& final(self).spec_frames().last()@ == (FrameV {
                            edition: old(self).spec_edition(),
                            offset: old(self).spec_out().len() as u64,
                            digest: blake3_of(content@),
                            length: (final(self).spec_out().len() - old(self).spec_out().len()) as u64,
                            uncompressed: content@.len() as u64,
                        })
                        &&& final(self).spec_out().subrange(0, old(self).spec_out().len() as int)
                            == old(self).spec_out()
                        &&& frame_data(
                            final(self).spec_out().subrange(
                                old(self).spec_out().len() as int,
                                final(self).spec_out().len() as int,
                            ),
                            content@,
                        )
                        &&& is_zstd_magic(
                            final(self).spec_out(),
                            old(self).spec_out().len() as int,
                        )
                    })
                },
                Err(e) => final(self).spec_out() == old(self).spec_out() && final(self).spec_frames() == old(self).spec_frames() && e.kind == ErrorKind::ZstdCodec
                    && old(self).spec_compress() && !has_digest(
                    old(self).spec_frames(),
                    blake3_of(content@),
                ),
            },
    {
        let digest_bytes = blake3_hash(content);
        match self.find_frame(digest_bytes.as_slice()) {
            Some(i) => {
                proof {
                    assert(has_digest(self.frames@, blake3_of(content@)));
                }
                return Ok(Digest(digest_bytes));
            },
            None => {},
        }
        let offset = self.out.len();
        let ghost old_out = self.out@;
        if self.compress {
            cctx_reset_session(&mut self.zstd);
            let bytes = match cctx_compress(&mut self.zstd, content) {
                Ok(b) => b,
                Err(msg) => {
                    return Err(SimpleError::new(ErrorKind::ZstdCodec).with_message(msg))
                },
            };
            crate::wire::push_slice(&mut self.out, bytes.as_slice());
            proof {
                assert(self.out@.subrange(old_out.len() as int, self.out@.len() as int)
                    =~= bytes@);
                assert(is_zstd_magic(self.out@, old_out.len() as int));
            }
        } else {
            write_uncompressed_frame(&mut self.out, content);
            proof {
                assert(self.out@.subrange(old_out.len() as int, self.out@.len() as int)
                    =~= raw_frame(content@));
                assert(raw_frame(content@)[0] == 0x28 && raw_frame(content@)[1] == 0xB5
                    && raw_frame(content@)[2] == 0x2F && raw_frame(content@)[3] == 0xFD);
                assert(is_zstd_magic(self.out@, old_out.len() as int));
            }
        }
        proof {
            assert(frame_data(
                self.out@.subrange(old_out.len() as int, self.out@.len() as int),
                content@,
            ));
        }
        let length = self.out.len() - offset;
        let frame = Frame {
            edition: self.edition,
            offset: offset as u64,
            digest: Digest(digest_bytes),
            length: length as u64,
            uncompressed: content.len() as u64,
        };
        let ghost old_frames = self.frames@;
        self.frames.push(frame);
        let d = Digest(blake3_hash(content));
        proof {
            assert(self.out@.subrange(0, old_out.len() as int) =~= old_out);
            assert(self.frames@.subrange(0, old_frames.len() as int) =~= old_frames);
            assert(self.out@.subrange(0, 12) =~= old_out.subrange(0, 12));
            assert forall|k: int| 0 <= k < old_frames.len() implies #[trigger] self.frames@[k]
                == old_frames[k] by {
                assert(self.frames@.subrange(0, old_frames.len() as int)[k] == old_frames[k]);
            }
            assert forall|k: int| 0 <= k < old_frames.len() implies frame_stored(
                self.out@,
                (#[trigger] self.frames@[k])@,
            ) by {
                let f = old_frames[k]@;
                assert(frame_stored(old_out, f));
                assert(self.out@.subrange(f.offset as int, f.offset + f.length) =~= old_out.subrange(
                    f.offset as int,
                    f.offset + f.length,
                ));
            }
            assert(frame_stored(self.out@, self.frames@[old_frames.len() as int]@));
            assert(has_digest(self.frames@, blake3_of(content@)));
            assert(self.frames@.last()@ == (FrameV {
                edition: self.edition,
                offset: old_out.len() as u64,
                digest: blake3_of(content@),
                length: (self.out@.len() - old_out.len()) as u64,
                uncompressed: content@.len() as u64,
            }));
            assert forall|k: int|
                0 <= k < self.files@.len() implies (#[trigger] self.files@[k]).edition != 0 && (
                self.files@[k]@.digest matches Some(dg) ==> has_digest(self.frames@, dg)) by {
                if self.files@[k]@.digest is Some {
                    let dg = self.files@[k]@.digest->Some_0;
                    assert(has_digest(old_frames, dg));
                    let m = choose|m: int| 0 <= m < old_frames.len() && (#[trigger] old_frames[m])@.digest == dg;
                    assert(self.frames@[m]@.digest == dg);
                }
            }
        }
        Ok(d)
    }

    /// Add a file record. A record referencing a digest with no stored
    /// frame is refused. The record is placed in pathname order.
    pub fn add_file_entry(&mut self, entry: File) -> (r: Result<(), SimpleError>)
        requires
            old(self).wf(),
            entry.edition != 0,
        ensures
            final(self).wf(),
            final(self).spec_out() == old(self).spec_out(),
            final(self).spec_frames() == old(self).spec_frames(),
            final(self).spec_edition() == old(self).spec_edition(),
            final(self).spec_compress() == old(self).spec_compress(),
            match r {
                Ok(_) => (entry@.digest matches Some(d) ==> has_digest(
                    old(self).spec_frames(),
                    d,
                )) && inserted_at_some(old(self).spec_files(), final(self).spec_files(), entry),
                Err(e) => final(self).spec_files() == old(self).spec_files() && (entry@.digest
                    matches Some(d) && !has_digest(old(self).spec_frames(), d)) && e.kind
                    == ErrorKind::Parse,
            },
    {
        let ghost entry0 = entry;
        match &entry.digest {
            Some(d) => {
                match self.find_frame(d.0.as_slice()) {
                    Some(i) => {
                        proof {
                            assert(has_digest(self.frames@, d@));
                        }
                    },
                    None => {
                        return Err(SimpleError::new(ErrorKind::Parse));
                    },
                }
            },
            None => {},
        }
        let mut p: usize = 0;
        while p < self.files.len() && crate::order::cmp_pathname(&entry.name, &self.files[p].name)
            >= 0
            invariant
                p <= self.files@.len(),
                forall|m: int|
                    0 <= m < p ==> path_cmp(entry@.name, (#[trigger] self.files@[m])@.name) >= 0,
            decreases self.files@.len() - p,
        {
            p = p + 1;
        }
        let ghost old_files = self.files@;
        let ghost pos = p as int;
        proof {
            if p < self.files@.len() {
                assert(path_cmp(entry0@.name, self.files@[pos]@.name) < 0);
            }
        }
        self.files.insert(p, entry);
        proof {
            assert forall|i: int, j: int| 0 <= i < j < self.files@.len() implies path_cmp(
                (#[trigger] self.files@[i])@.name,
                (#[trigger] self.files@[j])@.name,
            ) <= 0 by {
                if j < pos {
                    assert(self.files@[i] == old_files[i] && self.files@[j] == old_files[j]);
                } else if i > pos {
                    assert(self.files@[i] == old_files[i - 1] && self.files@[j] == old_files[j
                        - 1]);
                } else if i == pos && j > pos {
                    // the new entry is not after any later record
                    assert(self.files@[j] == old_files[j - 1]);
                    if pos < old_files.len() {
                        crate::order::lemma_path_cmp_antisym(
                            entry0@.name,
                            old_files[pos]@.name,
                        );
                        if j - 1 > pos {
                            crate::order::lemma_path_cmp_trans(
                                entry0@.name,
                                old_files[pos]@.name,
                                old_files[j - 1]@.name,
                            );
                        }
                    }
                } else if j == pos && i < pos {
                    // nothing before the position sorts after the entry
                    assert(self.files@[i] == old_files[i]);
                    crate::order::lemma_path_cmp_antisym(entry0@.name, old_files[i]@.name);
                }
            }
            assert(self.files@ == old_files.insert(pos, entry0));
            assert(inserted_at_some(old_files, self.files@, entry0));
        }
        Ok(())
    }
}


/// Appending an element appends to its file projection.
pub proof fn lemma_files_of_snoc(els: Seq<ElementV>, e: ElementV)
    ensures
        files_of(els.push(e)) == files_of(els) + (match e {
            ElementV::File(f) => seq![f],
            _ => Seq::<FileV>::empty(),
        }),
{
    assert(els.push(e).drop_last() =~= els);
    assert(els.push(e).last() == e);
}

/// Appending an element appends to its frame projection.
pub proof fn lemma_frames_of_snoc(els: Seq<ElementV>, e: ElementV)
    ensures
        frames_of(els.push(e)) == frames_of(els) + (match e {
            ElementV::Frame(f) => seq![f],
            _ => Seq::<FrameV>::empty(),
        }),
{
    assert(els.push(e).drop_last() =~= els);
    assert(els.push(e).last() == e);
}

/// A frame record is in the frame projection exactly when some element
/// carries it.
pub proof fn lemma_frames_of_contains(els: Seq<ElementV>, fr: FrameV)
    ensures
        frames_of(els).contains(fr) <==> exists|j: int|
            0 <= j < els.len() && is_frame_with(#[trigger] els[j], fr.digest) && els[j]
                == ElementV::Frame(fr),
    decreases els.len(),
{
    if els.len() == 0 {
    } else {
        lemma_frames_of_contains(els.drop_last(), fr);
        let last = els.last();
        match last {
            ElementV::Frame(f) => {
                if f == fr {
                    assert(frames_of(els).contains(fr)) by {
                        assert(frames_of(els)[frames_of(els).len() - 1] == fr);
                    }
                    assert(is_frame_with(els[els.len() - 1], fr.digest));
                }
            },
            _ => {},
        }
        if frames_of(els).contains(fr) {
            let i = choose|i: int| 0 <= i < frames_of(els).len() && frames_of(els)[i] == fr;
            if i < frames_of(els.drop_last()).len() {
                assert(frames_of(els.drop_last()).contains(fr)) by {
                    assert(frames_of(els.drop_last())[i] == fr);
                }
                let j = choose|j: int|
                    0 <= j < els.drop_last().len() && is_frame_with(
                        #[trigger] els.drop_last()[j],
                        fr.digest,
                    ) && els.drop_last()[j] == ElementV::Frame(fr);
                assert(els[j] == els.drop_last()[j]);
            } else {
                assert(last == ElementV::Frame(fr));
            }
        }
        if exists|j: int|
            0 <= j < els.len() && is_frame_with(#[trigger] els[j], fr.digest) && els[j]
                == ElementV::Frame(fr) {
            let j = choose|j: int|
                0 <= j < els.len() && is_frame_with(#[trigger] els[j], fr.digest) && els[j]
                    == ElementV::Frame(fr);
            if j < els.len() - 1 {
                assert(els.drop_last()[j] == els[j]);
                assert(frames_of(els.drop_last()).contains(fr));
                let i = choose|i: int|
                    0 <= i < frames_of(els.drop_last()).len() && frames_of(els.drop_last())[i]
                        == fr;
                assert(frames_of(els)[i] == fr);
            } else {
                assert(frames_of(els).last() == fr);
            }
        }
    }
}

impl Encoder {
    /// Write the directory and the trailer, and hand back the archive
    /// bytes and the directory digest. The directory holds the edition
    /// record first, then file records in pathname order, each referenced
    /// frame record standing before its first referencing file, then any
    /// remaining frame records.
    #[verifier::rlimit(100)]
    #[verifier::spinoff_prover]
    pub fn finalise(self, written_at: Timestamp) -> (r: Result<(Vec<u8>, Digest), SimpleError>)
        requires
            self.wf(),
            ts_wf(written_at@),
        ensures
            match r {
                Ok((archive, digest)) => finalised(
                    archive@,
                    digest@,
                    self.spec_edition(),
                    files_views(self.spec_files()),
                    frames_views(self.spec_frames()),
                ) && (forall|k: int|
                    0 <= k < self.spec_frames().len() ==> frame_stored(
                        archive@,
                        (#[trigger] self.spec_frames()[k])@,
                    )) && archive@.subrange(0, self.spec_out().len() as int) == self.spec_out(),
                Err(e) => (e.kind == ErrorKind::Parse || e.kind == ErrorKind::ZstdCodec) && (
                e.kind == ErrorKind::Parse <==> some_element_oversized(
                    edition_of(self.spec_edition(), written_at@),
                    self.spec_files(),
                    self.spec_frames(),
                )),
            },
    {
        let ghost wa = written_at@;
        let Encoder { mut out, mut zstd, edition, files, frames, compress } = self;
        let ghost filesg = files@;
        let ghost framesg = frames@;
        let ed = Edition {
            number: edition,
            written_at,
            digest_type: DigestType::Blake3,
            user_metadata: None,
        };
        let ghost edv = ed@;
        proof {
            assert(edv == edition_of(edition, wa));
        }
        let mut dir: Vec<u8> = Vec::new();
        let e0 = Element::Edition(Box::new(ed));
        match write_element(&mut dir, &e0) {
            Ok(_) => {},
            Err(e) => {
                proof {
                    assert(some_element_oversized(edition_of(edition, wa), filesg, framesg));
                }
                return Err(e);
            },
        }
        proof {
            assert(enc_edition(edv).len() <= 0xffff);
        }
        let ghost els0: Seq<ElementV> = seq![ElementV::Edition(edv)];
        let ghost els: Seq<ElementV> = els0;
        proof {
            assert(els0.len() == 1);
            assert(els0.last() == ElementV::Edition(edv));
            assert(els0.drop_last() =~= Seq::<ElementV>::empty());
            assert(elements_bytes(Seq::<ElementV>::empty()) == Seq::<u8>::empty());
            assert(elements_bytes(els0) == elements_bytes(els0.drop_last()) + enc_element_frame(
                els0.last(),
            ));
            assert(elements_bytes(els0) =~= enc_element_frame(ElementV::Edition(edv)));
            assert(dir@ =~= elements_bytes(els0));
            assert(files_of(els0) == files_of(els0.drop_last()) + Seq::<FileV>::empty());
            assert(files_of(els0) =~= Seq::<FileV>::empty());
            assert(frames_of(els0) == frames_of(els0.drop_last()) + Seq::<FrameV>::empty());
            assert(frames_of(els0) =~= Seq::<FrameV>::empty());
        }
        let mut emitted: Vec<bool> = Vec::new();
        let mut m: usize = 0;
        while m < frames.len()
            invariant
                emitted@.len() == m <= frames@.len(),
                forall|i: int| 0 <= i < m ==> !(#[trigger] emitted@[i]),
            decreases frames@.len() - m,
        {
            emitted.push(false);
            m = m + 1;
        }
        let mut k: usize = 0;
        while k < files.len()
            invariant
                k <= files@.len(),
                files@ == filesg,
                frames@ == framesg,
                wa == written_at@,
                edv == edition_of(edition, wa),
                edition == self.spec_edition(),
                filesg == self.spec_files(),
                framesg == self.spec_frames(),
                enc_edition(edv).len() <= 0xffff,
                emitted@.len() == frames@.len(),
                dir@ == elements_bytes(els),
                els.len() >= 1,
                els[0] == ElementV::Edition(edv),
                forall|j: int| 0 <= j < els.len() ==> file_digest_preceded(els, j),
                files_of(els) == files_views(files@.take(k as int)),
                forall|j: int|
                    0 <= j < els.len() ==> (match #[trigger] els[j] {
                        ElementV::Frame(fr) => exists|i: int|
                            0 <= i < frames@.len() && #[trigger] emitted@[i] && (frames@[i])@
                                == fr,
                        _ => true,
                    }),
                forall|i: int|
                    0 <= i < frames@.len() && #[trigger] emitted@[i] ==> frames_of(els).contains(
                        (frames@[i])@,
                    ),
                forall|j1: int, j2: int|
                    0 <= j1 < j2 < els.len() ==> !(frame_digest_of(#[trigger] els[j1]) is Some
                        && frame_digest_of(#[trigger] els[j2]) == frame_digest_of(els[j1])),
                forall|kk: int|
                    0 <= kk < frames@.len() ==> (#[trigger] frames@[kk]).edition != 0,
                forall|kk: int|
                    0 <= kk < files@.len() ==> (#[trigger] files@[kk]).edition != 0 && (
                    files@[kk]@.digest matches Some(d) ==> has_digest(frames@, d)),
                forall|k1: int, k2: int|
                    0 <= k1 < k2 < frames@.len() ==> (#[trigger] frames@[k1])@.digest != (
                    #[trigger] frames@[k2])@.digest,
                forall|m2: int|
                    0 <= m2 < k ==> enc_file((#[trigger] files@[m2])@).len() <= 0xffff,
                forall|i: int|
                    0 <= i < frames@.len() && #[trigger] emitted@[i] ==> enc_frame(
                        (frames@[i])@,
                    ).len() <= 0xffff,
                forall|j: int| 1 <= j < els.len() ==> !is_edition_el(#[trigger] els[j]),
                forall|j: int|
                    0 <= j < els.len() ==> !unreferenced_frame_el(
                        #[trigger] els[j],
                        files_views(filesg),
                    ),
            decreases files@.len() - k,
        {
            let f = &files[k];
            match &f.digest {
                Some(d) => {
                    let idx = match find_frame_in(&frames, d.0.as_slice()) {
                        Some(i) => i,
                        None => {
                            proof {
                                assert(has_digest(frames@, d@));
                                assert(false);
                            }
                            return Err(SimpleError::new(ErrorKind::Parse));
                        },
                    };
                    if !emitted[idx] {
                        let fel = Element::Frame(Box::new(frames[idx].duplicate()));
                        let ghost prev_els = els;
                        match write_element(&mut dir, &fel) {
                            Ok(_) => {},
                            Err(e) => {
                                proof {
                                    assert(enc_frame(framesg[idx as int]@).len() > 0xffff);
                                    assert(some_element_oversized(
                                        edition_of(edition, wa),
                                        filesg,
                                        framesg,
                                    ));
                                }
                                return Err(e);
                            },
                        }
                        proof {
                            els = els.push(ElementV::Frame(frames@[idx as int]@));
                            assert(frame_referenced(frames@[idx as int]@, files_views(filesg))) by {
                                assert(files_views(filesg)[k as int].digest == Some(d@));
                            }
                            assert forall|j: int|
                                0 <= j < els.len() implies !unreferenced_frame_el(
                                #[trigger] els[j],
                                files_views(filesg),
                            ) by {
                                if j < prev_els.len() {
                                    assert(els[j] == prev_els[j]);
                                }
                            }
                            lemma_elements_bytes_snoc(prev_els, ElementV::Frame(
                                frames@[idx as int]@,
                            ));
                            lemma_files_of_snoc(prev_els, ElementV::Frame(frames@[idx as int]@));
                            lemma_frames_of_snoc(prev_els, ElementV::Frame(frames@[idx as int]@));
                            assert(files_of(els) =~= files_of(prev_els));
                            assert forall|j: int| 0 <= j < els.len() implies file_digest_preceded(
                                els,
                                j,
                            ) by {
                                if j < prev_els.len() {
                                    assert(file_digest_preceded(prev_els, j));
                                    assert(els[j] == prev_els[j]);
                                    match els[j] {
                                        ElementV::File(ff) => {
                                            match ff.digest {
                                                Some(dd) => {
                                                    let jj = choose|jj: int|
                                                        0 <= jj < j && is_frame_with(
                                                            #[trigger] prev_els[jj],
                                                            dd,
                                                        );
                                                    assert(els[jj] == prev_els[jj]);
                                                },
                                                None => {},
                                            }
                                        },
                                        _ => {},
                                    }
                                }
                            }
                            // no other emitted frame carries this digest
                            assert forall|j1: int, j2: int|
                                0 <= j1 < j2 < els.len() implies !(frame_digest_of(
                                #[trigger] els[j1],
                            ) is Some && frame_digest_of(#[trigger] els[j2]) == frame_digest_of(
                                els[j1],
                            )) by {
                                if j2 == els.len() - 1 {
                                    match els[j1] {
                                        ElementV::Frame(fr) => {
                                            let i = choose|i: int|
                                                0 <= i < frames@.len() && #[trigger] emitted@[i]
                                                    && (frames@[i])@ == fr;
                                            if fr.digest == frames@[idx as int]@.digest {
                                                assert(i == idx);
                                            }
                                        },
                                        _ => {},
                                    }
                                } else {
                                    assert(els[j1] == prev_els[j1] && els[j2] == prev_els[j2]);
                                }
                            }
                            assert forall|i: int|
                                0 <= i < frames@.len() && #[trigger] emitted@.update(
                                    idx as int,
                                    true,
                                )[i] implies frames_of(els).contains((frames@[i])@) by {
                                if i != idx {
                                    assert(emitted@[i]);
                                    let fo = frames_of(prev_els);
                                    let ii = choose|ii: int|
                                        0 <= ii < fo.len() && fo[ii] == (frames@[i])@;
                                    assert(frames_of(els)[ii] == (frames@[i])@);
                                } else {
                                    assert(frames_of(els).last() == (frames@[idx as int])@);
                                }
                            }
                        }
                        let ghost old_em = emitted@;
                        emitted.set(idx, true);
                        proof {
                            assert forall|j: int|
                                0 <= j < els.len() implies (match #[trigger] els[j] {
                                ElementV::Frame(fr) => exists|i: int|
                                    0 <= i < frames@.len() && #[trigger] emitted@[i] && (
                                    frames@[i])@ == fr,
                                _ => true,
                            }) by {
                                match els[j] {
                                    ElementV::Frame(fr) => {
                                        if j < els.len() - 1 {
                                            let i = choose|i: int|
                                                0 <= i < frames@.len() && #[trigger] old_em[i]
                                                    && (frames@[i])@ == fr;
                                            assert(emitted@[i] && (frames@[i])@ == fr);
                                        } else {
                                            assert(emitted@[idx as int] && (frames@[idx as int])@
                                                == fr);
                                        }
                                    },
                                    _ => {},
                                }
                            }
                        }
                    }
                },
                None => {},
            }
            let fel2 = Element::File(Box::new(files[k].duplicate()));
            let ghost prev_els = els;
            match write_element(&mut dir, &fel2) {
                Ok(_) => {},
                Err(e) => {
                    proof {
                        assert(enc_file(filesg[k as int]@).len() > 0xffff);
                        assert(some_element_oversized(edition_of(edition, wa), filesg, framesg));
                    }
                    return Err(e);
                },
            }
            proof {
                let fv = files@[k as int]@;
                els = els.push(ElementV::File(fv));
                assert forall|j: int|
                    0 <= j < els.len() implies !unreferenced_frame_el(
                    #[trigger] els[j],
                    files_views(filesg),
                ) by {
                    if j < prev_els.len() {
                        assert(els[j] == prev_els[j]);
                    }
                }
                lemma_elements_bytes_snoc(prev_els, ElementV::File(fv));
                lemma_files_of_snoc(prev_els, ElementV::File(fv));
                lemma_frames_of_snoc(prev_els, ElementV::File(fv));
                assert(frames_of(els) =~= frames_of(prev_els));
                assert(files_of(els) =~= files_of(prev_els).push(fv));
                assert(files_views(files@.take(k + 1)) =~= files_views(files@.take(k as int)).push(
                    fv,
                ));
                assert forall|j: int| 0 <= j < els.len() implies file_digest_preceded(els, j) by {
                    if j < prev_els.len() {
                        assert(file_digest_preceded(prev_els, j));
                        assert(els[j] == prev_els[j]);
                        match els[j] {
                            ElementV::File(ff) => {
                                match ff.digest {
                                    Some(dd) => {
                                        let jj = choose|jj: int|
                                            0 <= jj < j && is_frame_with(
                                                #[trigger] prev_els[jj],
                                                dd,
                                            );
                                        assert(els[jj] == prev_els[jj]);
                                    },
                                    None => {},
                                }
                            },
                            _ => {},
                        }
                    } else {
                        match fv.digest {
                            Some(dd) => {
                                let i = choose|i: int|
                                    0 <= i < frames@.len() && (#[trigger] frames@[i])@.digest
                                        == dd;
                                assert(emitted@[i]);
                                assert(frames_of(prev_els).contains((frames@[i])@));
                                lemma_frames_of_contains(prev_els, (frames@[i])@);
                                let jj = choose|jj: int|
                                    0 <= jj < prev_els.len() && is_frame_with(
                                        #[trigger] prev_els[jj],
                                        (frames@[i])@.digest,
                                    ) && prev_els[jj] == ElementV::Frame((frames@[i])@);
                                assert(is_frame_with(els[jj], dd));
                            },
                            None => {},
                        }
                    }
                }
                assert forall|j1: int, j2: int|
                    0 <= j1 < j2 < els.len() implies !(frame_digest_of(#[trigger] els[j1]) is Some
                    && frame_digest_of(#[trigger] els[j2]) == frame_digest_of(els[j1])) by {
                    if j2 < prev_els.len() {
                        assert(els[j1] == prev_els[j1] && els[j2] == prev_els[j2]);
                    } else {
                        assert(els[j2] == ElementV::File(fv));
                    }
                }
                assert forall|i: int|
                    0 <= i < frames@.len() && #[trigger] emitted@[i] implies frames_of(
                    els,
                ).contains((frames@[i])@) by {
                    let fo = frames_of(prev_els);
                    let ii = choose|ii: int| 0 <= ii < fo.len() && fo[ii] == (frames@[i])@;
                    assert(frames_of(els)[ii] == (frames@[i])@);
                }
            }
            k = k + 1;
        }
        proof {
            assert(files@.take(files@.len() as int) =~= files@);
        }
        let ghost els_f = els;
        let mut m2: usize = 0;
        while m2 < frames.len()
            invariant
                m2 <= frames@.len(),
                frames@ == framesg,
                wa == written_at@,
                edv == edition_of(edition, wa),
                edition == self.spec_edition(),
                filesg == self.spec_files(),
                framesg == self.spec_frames(),
                enc_edition(edv).len() <= 0xffff,
                emitted@.len() == frames@.len(),
                dir@ == elements_bytes(els),
                els.len() >= 1,
                els[0] == ElementV::Edition(edv),
                els.len() >= els_f.len(),
                els.subrange(0, els_f.len() as int) == els_f,
                forall|j: int| els_f.len() <= j < els.len() ==> !is_file_el(#[trigger] els[j]),
                forall|j: int|
                    0 <= j < els_f.len() ==> !unreferenced_frame_el(
                        #[trigger] els_f[j],
                        files_views(filesg),
                    ),
                forall|j: int| 1 <= j < els.len() ==> !is_edition_el(#[trigger] els[j]),
                forall|i: int|
                    0 <= i < frames@.len() && #[trigger] emitted@[i] ==> enc_frame(
                        (frames@[i])@,
                    ).len() <= 0xffff,
                forall|j: int| 0 <= j < els.len() ==> file_digest_preceded(els, j),
                files_of(els) == files_views(filesg),
                forall|j: int|
                    0 <= j < els.len() ==> (match #[trigger] els[j] {
                        ElementV::Frame(fr) => exists|i: int|
                            0 <= i < frames@.len() && #[trigger] emitted@[i] && (frames@[i])@
                                == fr,
                        _ => true,
                    }),
                forall|i: int|
                    0 <= i < frames@.len() && #[trigger] emitted@[i] ==> frames_of(els).contains(
                        (frames@[i])@,
                    ),
                forall|i: int| 0 <= i < m2 ==> #[trigger] emitted@[i],
                forall|j1: int, j2: int|
                    0 <= j1 < j2 < els.len() ==> !(frame_digest_of(#[trigger] els[j1]) is Some
                        && frame_digest_of(#[trigger] els[j2]) == frame_digest_of(els[j1])),
                forall|kk: int|
                    0 <= kk < frames@.len() ==> (#[trigger] frames@[kk]).edition != 0,
                forall|k1: int, k2: int|
                    0 <= k1 < k2 < frames@.len() ==> (#[trigger] frames@[k1])@.digest != (
                    #[trigger] frames@[k2])@.digest,
            decreases frames@.len() - m2,
        {
            if !emitted[m2] {
                let fel = Element::Frame(Box::new(frames[m2].duplicate()));
                let ghost prev_els = els;
                match write_element(&mut dir, &fel) {
                    Ok(_) => {},
                    Err(e) => {
                        proof {
                            assert(enc_frame(framesg[m2 as int]@).len() > 0xffff);
                            assert(some_element_oversized(
                                edition_of(edition, wa),
                                filesg,
                                framesg,
                            ));
                        }
                        return Err(e);
                    },
                }
                proof {
                    let frv = frames@[m2 as int]@;
                    els = els.push(ElementV::Frame(frv));
                    assert(els.subrange(0, els_f.len() as int) =~= prev_els.subrange(
                        0,
                        els_f.len() as int,
                    ));
                    lemma_elements_bytes_snoc(prev_els, ElementV::Frame(frv));
                    lemma_files_of_snoc(prev_els, ElementV::Frame(frv));
                    lemma_frames_of_snoc(prev_els, ElementV::Frame(frv));
                    assert(files_of(els) =~= files_of(prev_els));
                    assert forall|j: int| 0 <= j < els.len() implies file_digest_preceded(
                        els,
                        j,
                    ) by {
                        if j < prev_els.len() {
                            assert(file_digest_preceded(prev_els, j));
                            assert(els[j] == prev_els[j]);
                            match els[j] {
                                ElementV::File(ff) => {
                                    match ff.digest {
                                        Some(dd) => {
                                            let jj = choose|jj: int|
                                                0 <= jj < j && is_frame_with(
                                                    #[trigger] prev_els[jj],
                                                    dd,
                                                );
                                            assert(els[jj] == prev_els[jj]);
                                        },
                                        None => {},
                                    }
                                },
                                _ => {},
                            }
                        }
                    }
                    assert forall|j1: int, j2: int|
                        0 <= j1 < j2 < els.len() implies !(frame_digest_of(
                        #[trigger] els[j1],
                    ) is Some && frame_digest_of(#[trigger] els[j2]) == frame_digest_of(
                        els[j1],
                    )) by {
                        if j2 == els.len() - 1 {
                            match els[j1] {
                                ElementV::Frame(fr) => {
                                    let i = choose|i: int|
                                        0 <= i < frames@.len() && #[trigger] emitted@[i] && (
                                        frames@[i])@ == fr;
                                    if fr.digest == frv.digest {
                                        assert(i == m2);
                                    }
                                },
                                _ => {},
                            }
                        } else {
                            assert(els[j1] == prev_els[j1] && els[j2] == prev_els[j2]);
                        }
                    }
                    assert forall|i: int|
                        0 <= i < frames@.len() && #[trigger] emitted@.update(m2 as int, true)[i]
                        implies frames_of(els).contains((frames@[i])@) by {
                        if i != m2 {
                            assert(emitted@[i]);
                            let fo = frames_of(prev_els);
                            let ii = choose|ii: int|
                                0 <= ii < fo.len() && fo[ii] == (frames@[i])@;
                            assert(frames_of(els)[ii] == (frames@[i])@);
                        } else {
                            assert(frames_of(els).last() == frv);
                        }
                    }
                }
                let ghost old_em = emitted@;
                emitted.set(m2, true);
                proof {
                    assert forall|j: int|
                        0 <= j < els.len() implies (match #[trigger] els[j] {
                        ElementV::Frame(fr) => exists|i: int|
                            0 <= i < frames@.len() && #[trigger] emitted@[i] && (frames@[i])@
                                == fr,
                        _ => true,
                    }) by {
                        match els[j] {
                            ElementV::Frame(fr) => {
                                if j < els.len() - 1 {
                                    let i = choose|i: int|
                                        0 <= i < frames@.len() && #[trigger] old_em[i] && (
                                        frames@[i])@ == fr;
                                    assert(emitted@[i] && (frames@[i])@ == fr);
                                } else {
                                    assert(emitted@[m2 as int] && (frames@[m2 as int])@ == fr);
                                }
                            },
                            _ => {},
                        }
                    }
                }
            }
            m2 = m2 + 1;
        }
        // the directory stream is complete; hash, compress, locate, seal
        proof {
            assert(!some_element_oversized(edition_of(edition, wa), filesg, framesg)) by {
                assert(forall|k2: int|
                    0 <= k2 < filesg.len() ==> enc_file((#[trigger] filesg[k2])@).len() <= 0xffff);
                assert forall|k2: int|
                    0 <= k2 < framesg.len() implies enc_frame((#[trigger] framesg[k2])@).len()
                    <= 0xffff by {
                    assert(emitted@[k2]);
                }
            }
        }
        let digest_bytes = blake3_hash(dir.as_slice());
        cctx_reset_session(&mut zstd);
        let compressed = match cctx_compress(&mut zstd, dir.as_slice()) {
            Ok(b) => b,
            Err(msg) => {
                return Err(SimpleError::new(ErrorKind::ZstdCodec).with_message(msg))
            },
        };
        if compressed.len() as u64 > (i64::MAX as u64) - 64 {
            // a directory so large its frame cannot be located is reported
            // as the codec's failure, not a record-size error
            return Err(
                SimpleError::new(ErrorKind::ZstdCodec).with_message(
                    "compressed directory exceeds the offset range".to_owned(),
                ),
            );
        }
        let trailer = Trailer {
            digest: Digest(digest_bytes.clone()),
            digest_type: DigestType::Blake3,
            directory_offset: -((compressed.len() as i64) + 64),
            directory_uncompressed_size: dir.len() as u64,
            version: crate::ZARC_VERSION,
        };
        let ghost tv = trailer@;
        let trailer_body = trailer.to_bytes();
        let ghost old_out = out@;
        crate::wire::push_slice(&mut out, compressed.as_slice());
        proof {
            crate::trailer::lemma_trailer_len(tv, crate::trailer::trailer_check(tv));
        }
        match crate::framing::write_skippable_frame(&mut out, 0xF, trailer_body.as_slice()) {
            Ok(_) => {},
            Err(e) => {
                proof {
                    assert(false);
                }
                return Err(e);
            },
        }
        proof {
            let archive = out@;
            let stream = dir@;
            let tframe = skippable_frame(15, trailer_bytes(tv));
            let la = archive.len() as int;
            assert(tframe.len() == 64);
            assert(archive =~= (old_out + compressed@) + tframe);
            assert(archive.subrange(la - tframe.len(), la) =~= tframe);
            assert(crate::cbor::at(archive, la - tframe.len(), tframe));
            let dstart = tv.directory_offset + la;
            assert(dstart == old_out.len());
            assert(archive.subrange(dstart, la - tframe.len()) =~= compressed@);
            assert(archive.subrange(0, 12) =~= old_out.subrange(0, 12));
            assert(is_zstd_magic(archive, dstart)) by {
                assert(archive[dstart] == compressed@[0]);
                assert(archive[dstart + 1] == compressed@[1]);
                assert(archive[dstart + 2] == compressed@[2]);
                assert(archive[dstart + 3] == compressed@[3]);
            }
            assert(archive_shape(archive, stream, tv));
            assert(stream_elements_ok(els, edition, files_views(filesg), frames_views(framesg)))
                by {
                assert forall|j: int|
                    0 <= j < els.len() implies (match #[trigger] els[j] {
                    ElementV::Frame(fr) => frames_views(framesg).contains(fr),
                    _ => true,
                }) by {
                    match els[j] {
                        ElementV::Frame(fr) => {
                            let i = choose|i: int|
                                0 <= i < frames@.len() && #[trigger] emitted@[i] && (frames@[i])@
                                    == fr;
                            assert(frames_views(framesg)[i] == fr);
                        },
                        _ => {},
                    }
                }
                assert forall|mm: int|
                    0 <= mm < frames_views(framesg).len() implies frames_of(els).contains(
                    #[trigger] frames_views(framesg)[mm],
                ) by {
                    assert(emitted@[mm]);
                }
                assert forall|i: int, j: int|
                    0 <= i < j < files_views(filesg).len() implies path_cmp(
                    (#[trigger] files_views(filesg)[i]).name,
                    (#[trigger] files_views(filesg)[j]).name,
                ) <= 0 by {
                    assert(files_views(filesg)[i] == filesg[i]@);
                    assert(files_views(filesg)[j] == filesg[j]@);
                }
                assert forall|j1: int, j2: int|
                    0 <= j1 < els.len() && 0 <= j2 < els.len() && unreferenced_frame_el(
                        #[trigger] els[j1],
                        files_views(filesg),
                    ) && is_file_el(#[trigger] els[j2]) implies j2 < j1 by {
                    if j1 < els_f.len() {
                        assert(els[j1] == els.subrange(0, els_f.len() as int)[j1]);
                        assert(els[j1] == els_f[j1]);
                    }
                    if j2 >= els_f.len() {
                        assert(!is_file_el(els[j2]));
                    }
                }
            }
            assert(finalised(
                archive,
                blake3_of(stream),
                edition,
                files_views(filesg),
                frames_views(framesg),
            ));
            assert(archive.subrange(0, old_out.len() as int) =~= old_out);
            assert forall|kk: int| 0 <= kk < framesg.len() implies frame_stored(
                archive,
                (#[trigger] framesg[kk])@,
            ) by {
                let f = framesg[kk]@;
                assert(frame_stored(old_out, f));
                assert(archive.subrange(f.offset as int, f.offset + f.length) =~= old_out.subrange(
                    f.offset as int,
                    f.offset + f.length,
                ));
            }
        }
        Ok((out, Digest(digest_bytes)))
    }
}

/// Find the frame carrying a digest in a list of frames.
fn find_frame_in(frames: &Vec<Frame>, digest: &[u8]) -> (r: Option<usize>)
    ensures
        match r {
            Some(i) => i < frames@.len() && frames@[i as int]@.digest == digest@,
            None => !has_digest(frames@, digest@),
        },
{
    let mut k: usize = 0;
    while k < frames.len()
        invariant
            k <= frames@.len(),
            forall|m: int| 0 <= m < k ==> (#[trigger] frames@[m])@.digest != digest@,
        decreases frames@.len() - k,
    {
        if ct_bytes_eq(frames[k].digest.0.as_slice(), digest) {
            return Some(k);
        }
        k = k + 1;
    }
    None
}


/// A file record under construction: set what is known, then add it to
/// the encoder.
pub struct FileBuilder(pub File);

impl Encoder {
    /// Start a file record for this encoder's edition.
    pub fn build_file(&self, name: crate::strings::Pathname) -> (r: FileBuilder)
        requires
            self.wf(),
        ensures
            r.0.edition == self.spec_edition(),
            r.0@.name == name@,
            r.0@.digest is None,
            r.0@.special is None,
    {
        FileBuilder(File::new(self.edition(), name))
    }
}

impl FileBuilder {
    /// Set the content digest.
    pub fn digest(&mut self, digest: Digest)
        ensures
            final(self).0@ == (FileV { digest: Some(digest@), ..old(self).0@ }),
            final(self).0.edition == old(self).0.edition,
    {
        self.0.digest = Some(digest);
    }

    /// Make this a directory entry, clearing any digest.
    pub fn directory(&mut self)
        ensures
            final(self).0@.digest is None,
            final(self).0@.special matches Some(s) && s.kind == Some(
                crate::directory::specials::SpecialFileKind::Directory,
            ),
            final(self).0.edition == old(self).0.edition,
            final(self).0@.name == old(self).0@.name,
    {
        self.0.digest = None;
        self.0.special = Some(
            crate::directory::specials::SpecialFile::of_kind(
                crate::directory::specials::SpecialFileKind::Directory,
            ),
        );
    }

    /// Set the POSIX mode bits.
    pub fn mode(&mut self, mode: u32)
        ensures
            final(self).0@ == (FileV { mode: Some(mode), ..old(self).0@ }),
            final(self).0.edition == old(self).0.edition,
    {
        self.0.mode = Some(mode);
    }

    /// Set the owning user's name.
    pub fn user_name(&mut self, name: String)
        ensures
            final(self).0@.user matches Some(u) && u.name == Some(name@),
            final(self).0.edition == old(self).0.edition,
            final(self).0@.name == old(self).0@.name,
            final(self).0@.digest == old(self).0@.digest,
    {
        let id = match &self.0.user {
            Some(u) => u.id,
            None => None,
        };
        self.0.user = Some(crate::directory::posix_owner::PosixOwner { id, name: Some(name) });
    }

    /// Set the owning user's id.
    pub fn user_id(&mut self, id: u64)
        ensures
            final(self).0@.user matches Some(u) && u.id == Some(id),
            final(self).0.edition == old(self).0.edition,
            final(self).0@.name == old(self).0@.name,
            final(self).0@.digest == old(self).0@.digest,
    {
        let name = match &mut self.0.user {
            Some(u) => u.name.take(),
            None => None,
        };
        self.0.user = Some(crate::directory::posix_owner::PosixOwner { id: Some(id), name });
    }

    /// Set the owning group's name.
    pub fn group_name(&mut self, name: String)
        ensures
            final(self).0@.group matches Some(g) && g.name == Some(name@),
            final(self).0.edition == old(self).0.edition,
            final(self).0@.name == old(self).0@.name,
            final(self).0@.digest == old(self).0@.digest,
    {
        let id = match &self.0.group {
            Some(g) => g.id,
            None => None,
        };
        self.0.group = Some(crate::directory::posix_owner::PosixOwner { id, name: Some(name) });
    }

    /// Set the owning group's id.
    pub fn group_id(&mut self, id: u64)
        ensures
            final(self).0@.group matches Some(g) && g.id == Some(id),
            final(self).0.edition == old(self).0.edition,
            final(self).0@.name == old(self).0@.name,
            final(self).0@.digest == old(self).0@.digest,
    {
        let name = match &mut self.0.group {
            Some(g) => g.name.take(),
            None => None,
        };
        self.0.group = Some(crate::directory::posix_owner::PosixOwner { id: Some(id), name });
    }

    /// Set all timestamps at once.
    pub fn timestamps(&mut self, times: crate::timestamps::Timestamps)
        ensures
            final(self).0@ == (FileV { timestamps: Some(times@), ..old(self).0@ }),
            final(self).0.edition == old(self).0.edition,
    {
        self.0.timestamps = Some(times);
    }

    /// Set the created timestamp.
    pub fn time_created(&mut self, t: crate::timestamps::Timestamp)
        ensures
            final(self).0@.timestamps matches Some(ts) && ts.created == Some(t@),
            final(self).0.edition == old(self).0.edition,
            final(self).0@.name == old(self).0@.name,
            final(self).0@.digest == old(self).0@.digest,
    {
        let prev = self.0.timestamps.take();
        let mut ts = match prev {
            Some(ts) => ts,
            None => crate::timestamps::Timestamps::none(),
        };
        ts.created = Some(t);
        self.0.timestamps = Some(ts);
    }

    /// Set the modified timestamp.
    pub fn time_modified(&mut self, t: crate::timestamps::Timestamp)
        ensures
            final(self).0@.timestamps matches Some(ts) && ts.modified == Some(t@),
            final(self).0.edition == old(self).0.edition,
            final(self).0@.name == old(self).0@.name,
            final(self).0@.digest == old(self).0@.digest,
    {
        let prev = self.0.timestamps.take();
        let mut ts = match prev {
            Some(ts) => ts,
            None => crate::timestamps::Timestamps::none(),
        };
        ts.modified = Some(t);
        self.0.timestamps = Some(ts);
    }

    /// Set the accessed timestamp.
    pub fn time_accessed(&mut self, t: crate::timestamps::Timestamp)
        ensures
            final(self).0@.timestamps matches Some(ts) && ts.accessed == Some(t@),
            final(self).0.edition == old(self).0.edition,
            final(self).0@.name == old(self).0@.name,
            final(self).0@.digest == old(self).0@.digest,
    {
        let prev = self.0.timestamps.take();
        let mut ts = match prev {
            Some(ts) => ts,
            None => crate::timestamps::Timestamps::none(),
        };
        ts.accessed = Some(t);
        self.0.timestamps = Some(ts);
    }

    /// Add a user-metadata entry.
    pub fn user_metadata(&mut self, key: String, value: crate::strings::AttributeValue)
        ensures
            final(self).0@.user_metadata matches Some(m) && m.len() > 0 && m.last() == (
                key@,
                value@,
            ),
            final(self).0.edition == old(self).0.edition,
            final(self).0@.name == old(self).0@.name,
            final(self).0@.digest == old(self).0@.digest,
    {
        let mut m = match self.0.user_metadata.take() {
            Some(m) => m,
            None => crate::strings::AttrMap::new(),
        };
        m.insert(key, value);
        self.0.user_metadata = Some(m);
    }

    /// Add an attribute entry.
    pub fn attribute(&mut self, key: String, value: crate::strings::AttributeValue)
        ensures
            final(self).0@.attributes matches Some(m) && m.len() > 0 && m.last() == (key@, value@),
            final(self).0.edition == old(self).0.edition,
            final(self).0@.name == old(self).0@.name,
            final(self).0@.digest == old(self).0@.digest,
    {
        let mut m = match self.0.attributes.take() {
            Some(m) => m,
            None => crate::strings::AttrMap::new(),
        };
        m.insert(key, value);
        self.0.attributes = Some(m);
    }

    /// Add an extended-attribute entry.
    pub fn extended_attribute(&mut self, key: String, value: crate::strings::AttributeValue)
        ensures
            final(self).0@.extended_attributes matches Some(m) && m.len() > 0 && m.last() == (
                key@,
                value@,
            ),
            final(self).0.edition == old(self).0.edition,
            final(self).0@.name == old(self).0@.name,
            final(self).0@.digest == old(self).0@.digest,
    {
        let mut m = match self.0.extended_attributes.take() {
            Some(m) => m,
            None => crate::strings::AttrMap::new(),
        };
        m.insert(key, value);
        self.0.extended_attributes = Some(m);
    }

    /// The finished record.
    pub fn into_file(self) -> (r: File)
        ensures
            r@ == self.0@,
    {
        self.0
    }
}

} // verus!
