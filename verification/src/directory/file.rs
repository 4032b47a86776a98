//! File records: one pathname and its metadata within an edition.

use vstd::prelude::*;

use crate::cbor;
use crate::directory::posix_owner::{
    dec_owner, enc_owner, lemma_dec_owner, ownerv_wf, read_owner, write_owner, OwnerV, PosixOwner,
};
use crate::directory::specials::{
    dec_special, enc_special, lemma_dec_special, read_special, specialv_wf, write_special,
    SpecialFile, SpecialFileKind, SpecialV,
};
use crate::error::{ErrorKind, SimpleError};
use crate::integrity::Digest;
use crate::strings::{
    attrmap_wf, dec_attrmap, dec_pathname, enc_attrmap, enc_pathname, lemma_dec_attrmap,
    lemma_dec_pathname, pathval_wf, read_attrmap, read_pathname, write_attrmap, write_pathname,
    AttrMap, AttrVal, Pathname, StrVal,
};
use crate::timestamps::{
    dec_timestamps, enc_timestamps, lemma_dec_timestamps, read_timestamps, timesv_wf, TimesV,
    Timestamps, write_timestamps,
};

verus! {

/// A file record: a pathname and its metadata.
pub struct File {
    /// The edition that added this entry; never zero.
    pub edition: u16,
    /// The pathname.
    pub name: Pathname,
    /// Digest of the content frame, absent for directories and other
    /// contentless kinds.
    pub digest: Option<Digest>,
    /// POSIX mode bits.
    pub mode: Option<u32>,
    /// POSIX user.
    pub user: Option<PosixOwner>,
    /// POSIX group.
    pub group: Option<PosixOwner>,
    /// Timestamps.
    pub timestamps: Option<Timestamps>,
    /// Special-file data.
    pub special: Option<SpecialFile>,
    /// User metadata.
    pub user_metadata: Option<AttrMap>,
    /// File attributes.
    pub attributes: Option<AttrMap>,
    /// Extended attributes.
    pub extended_attributes: Option<AttrMap>,
}

/// The mathematical value of a [`File`].
#[verifier::ext_equal]
pub struct FileV {
    /// The edition that added this entry.
    pub edition: u16,
    /// The pathname.
    pub name: Seq<StrVal>,
    /// Digest of the content frame.
    pub digest: Option<Seq<u8>>,
    /// POSIX mode bits.
    pub mode: Option<u32>,
    /// POSIX user.
    pub user: Option<OwnerV>,
    /// POSIX group.
    pub group: Option<OwnerV>,
    /// Timestamps.
    pub timestamps: Option<TimesV>,
    /// Special-file data.
    pub special: Option<SpecialV>,
    /// User metadata.
    pub user_metadata: Option<Seq<(Seq<char>, AttrVal)>>,
    /// File attributes.
    pub attributes: Option<Seq<(Seq<char>, AttrVal)>>,
    /// Extended attributes.
    pub extended_attributes: Option<Seq<(Seq<char>, AttrVal)>>,
}

impl View for File {
    type V = FileV;

    open spec fn view(&self) -> FileV {
        FileV {
            edition: self.edition,
            name: self.name@,
            digest: match &self.digest {
                Some(d) => Some(d@),
                None => None,
            },
            mode: self.mode,
            user: match &self.user {
                Some(o) => Some(o@),
                None => None,
            },
            group: match &self.group {
                Some(o) => Some(o@),
                None => None,
            },
            timestamps: match &self.timestamps {
                Some(t) => Some(t@),
                None => None,
            },
            special: match &self.special {
                Some(s) => Some(s@),
                None => None,
            },
            user_metadata: match &self.user_metadata {
                Some(m) => Some(m@),
                None => None,
            },
            attributes: match &self.attributes {
                Some(m) => Some(m@),
                None => None,
            },
            extended_attributes: match &self.extended_attributes {
                Some(m) => Some(m@),
                None => None,
            },
        }
    }
}

impl File {
    /// A bare record for the given edition and pathname.
    pub fn new(edition: u16, name: Pathname) -> (r: File)
        requires
            edition != 0,
        ensures
            r@ == (FileV {
                edition,
                name: name@,
                digest: None,
                mode: None,
                user: None,
                group: None,
                timestamps: None,
                special: None,
                user_metadata: None,
                attributes: None,
                extended_attributes: None,
            }),
    {
        File {
            edition,
            name,
            digest: None,
            mode: None,
            user: None,
            group: None,
            timestamps: None,
            special: None,
            user_metadata: None,
            attributes: None,
            extended_attributes: None,
        }
    }

    /// A copy of this record.
    pub fn duplicate(&self) -> (r: File)
        ensures
            r@ == self@,
    {
        File {
            edition: self.edition,
            name: self.name.duplicate(),
            digest: match &self.digest {
                Some(d) => Some(d.duplicate()),
                None => None,
            },
            mode: self.mode,
            user: match &self.user {
                Some(o) => Some(o.duplicate()),
                None => None,
            },
            group: match &self.group {
                Some(o) => Some(o.duplicate()),
                None => None,
            },
            timestamps: match &self.timestamps {
                Some(t) => Some(t.duplicate()),
                None => None,
            },
            special: match &self.special {
                Some(s) => Some(s.duplicate()),
                None => None,
            },
            user_metadata: match &self.user_metadata {
                Some(m) => Some(m.duplicate()),
                None => None,
            },
            attributes: match &self.attributes {
                Some(m) => Some(m.duplicate()),
                None => None,
            },
            extended_attributes: match &self.extended_attributes {
                Some(m) => Some(m.duplicate()),
                None => None,
            },
        }
    }

    /// True when this entry has content and is not special: a plain file.
    pub fn is_normal(&self) -> (r: bool)
        ensures
            r == (self.digest is Some && self.special is None),
    {
        self.digest.is_some() && self.special.is_none()
    }

    /// True when this entry is a directory.
    pub fn is_dir(&self) -> (r: bool)
        ensures
            r == (self@.special matches Some(s) && s.kind == Some(SpecialFileKind::Directory)),
    {
        match &self.special {
            Some(s) => s.is_dir(),
            None => false,
        }
    }
}

/// The record's fields fit the wire format.
pub open spec fn filev_wf(v: FileV) -> bool {
    &&& v.edition != 0
    &&& pathval_wf(v.name)
    &&& match v.digest {
        Some(d) => d.len() <= u64::MAX,
        None => true,
    }
    &&& match v.user {
        Some(o) => ownerv_wf(o),
        None => true,
    }
    &&& match v.group {
        Some(o) => ownerv_wf(o),
        None => true,
    }
    &&& match v.timestamps {
        Some(t) => timesv_wf(t),
        None => true,
    }
    &&& match v.special {
        Some(s) => specialv_wf(s),
        None => true,
    }
    &&& match v.user_metadata {
        Some(m) => attrmap_wf(m),
        None => true,
    }
    &&& match v.attributes {
        Some(m) => attrmap_wf(m),
        None => true,
    }
    &&& match v.extended_attributes {
        Some(m) => attrmap_wf(m),
        None => true,
    }
}

/// One where a field is present.
pub open spec fn opt_one<T>(f: Option<T>) -> u64 {
    match f {
        Some(_) => 1u64,
        None => 0u64,
    }
}

/// Pairs in the first half of the record: the required edition and name,
/// then digest, mode, user and group.
pub open spec fn file_count_a(v: FileV) -> u64 {
    (2 + opt_one(v.digest) + opt_one(v.mode) + opt_one(v.user) + opt_one(v.group)) as u64
}

/// Pairs in the second half: timestamps, special data and the three
/// attribute maps.
pub open spec fn file_count_b(v: FileV) -> u64 {
    (opt_one(v.timestamps) + opt_one(v.special) + opt_one(v.user_metadata) + opt_one(v.attributes)
        + opt_one(v.extended_attributes)) as u64
}

/// How many map pairs the record encodes to.
pub open spec fn file_count(v: FileV) -> u64 {
    (file_count_a(v) + file_count_b(v)) as u64
}

/// The edition pair.
pub open spec fn ef_edition(v: FileV) -> Seq<u8> {
    cbor::enc_uint(0) + cbor::enc_uint(v.edition as u64)
}

/// The name pair.
pub open spec fn ef_name(v: FileV) -> Seq<u8> {
    cbor::enc_uint(1) + enc_pathname(v.name)
}

/// The digest pair, if present.
pub open spec fn ef_digest(v: FileV) -> Seq<u8> {
    match v.digest {
        Some(d) => cbor::enc_uint(2) + cbor::enc_bytes(d),
        None => Seq::empty(),
    }
}

/// The mode pair, if present.
pub open spec fn ef_mode(v: FileV) -> Seq<u8> {
    match v.mode {
        Some(m) => cbor::enc_uint(3) + cbor::enc_uint(m as u64),
        None => Seq::empty(),
    }
}

/// The user pair, if present.
pub open spec fn ef_user(v: FileV) -> Seq<u8> {
    match v.user {
        Some(o) => cbor::enc_uint(4) + enc_owner(o),
        None => Seq::empty(),
    }
}

/// The group pair, if present.
pub open spec fn ef_group(v: FileV) -> Seq<u8> {
    match v.group {
        Some(o) => cbor::enc_uint(5) + enc_owner(o),
        None => Seq::empty(),
    }
}

/// The timestamps pair, if present.
pub open spec fn ef_times(v: FileV) -> Seq<u8> {
    match v.timestamps {
        Some(t) => cbor::enc_uint(6) + enc_timestamps(t),
        None => Seq::empty(),
    }
}

/// The special-file pair, if present.
pub open spec fn ef_special(v: FileV) -> Seq<u8> {
    match v.special {
        Some(s) => cbor::enc_uint(7) + enc_special(s),
        None => Seq::empty(),
    }
}

/// The user-metadata pair, if present.
pub open spec fn ef_um(v: FileV) -> Seq<u8> {
    match v.user_metadata {
        Some(m) => cbor::enc_uint(10) + enc_attrmap(m),
        None => Seq::empty(),
    }
}

/// The attributes pair, if present.
pub open spec fn ef_attrs(v: FileV) -> Seq<u8> {
    match v.attributes {
        Some(m) => cbor::enc_uint(11) + enc_attrmap(m),
        None => Seq::empty(),
    }
}

/// The extended-attributes pair, if present.
pub open spec fn ef_xattrs(v: FileV) -> Seq<u8> {
    match v.extended_attributes {
        Some(m) => cbor::enc_uint(12) + enc_attrmap(m),
        None => Seq::empty(),
    }
}

/// The required pairs and the digest pair.
pub open spec fn enc_file_a1(v: FileV) -> Seq<u8> {
    ef_edition(v) + ef_name(v) + ef_digest(v)
}

/// The mode, user and group pairs.
pub open spec fn enc_file_a2(v: FileV) -> Seq<u8> {
    ef_mode(v) + ef_user(v) + ef_group(v)
}

/// The first half of the pair stream.
pub open spec fn enc_file_a(v: FileV) -> Seq<u8> {
    enc_file_a1(v) + enc_file_a2(v)
}

/// The timestamps and special-file pairs.
pub open spec fn enc_file_b1(v: FileV) -> Seq<u8> {
    ef_times(v) + ef_special(v)
}

/// The three attribute-map pairs.
pub open spec fn enc_file_b2(v: FileV) -> Seq<u8> {
    ef_um(v) + ef_attrs(v) + ef_xattrs(v)
}

/// The second half of the pair stream.
pub open spec fn enc_file_b(v: FileV) -> Seq<u8> {
    enc_file_b1(v) + enc_file_b2(v)
}

/// The encoding of a file record: a map of its present fields, keys in
/// increasing order.
pub open spec fn enc_file(v: FileV) -> Seq<u8> {
    cbor::enc_map(file_count(v)) + enc_file_a(v) + enc_file_b(v)
}

/// The fold's starting value.
pub open spec fn file_acc0() -> FileV {
    FileV {
        edition: 0,
        name: Seq::empty(),
        digest: None,
        mode: None,
        user: None,
        group: None,
        timestamps: None,
        special: None,
        user_metadata: None,
        attributes: None,
        extended_attributes: None,
    }
}

/// `n` file map pairs starting at `i`, folded into `acc`; the flags say
/// whether the required edition and name have been seen.
pub open spec fn dec_file_pairs(
    b: Seq<u8>,
    i: int,
    n: u64,
    acc: FileV,
    g0: bool,
    g1: bool,
) -> Option<(FileV, int)>
    decreases n,
{
    if n == 0 {
        if g0 && g1 {
            Some((acc, i))
        } else {
            None
        }
    } else {
        match cbor::dec_head(b, i) {
            Some((m, k, j)) => if m != 0 {
                None
            } else if k == 0 {
                match cbor::dec_head(b, j) {
                    Some((m2, v, j2)) => if m2 == 0 && 1 <= v <= 0xffff {
                        dec_file_pairs(
                            b,
                            j2,
                            (n - 1) as u64,
                            FileV { edition: v as u16, ..acc },
                            true,
                            g1,
                        )
                    } else {
                        None
                    },
                    None => None,
                }
            } else if k == 1 {
                match dec_pathname(b, j) {
                    Some((p, j2)) => dec_file_pairs(
                        b,
                        j2,
                        (n - 1) as u64,
                        FileV { name: p, ..acc },
                        g0,
                        true,
                    ),
                    None => None,
                }
            } else if k == 2 {
                match cbor::dec_bytes(b, j) {
                    Some((d, j2)) => dec_file_pairs(
                        b,
                        j2,
                        (n - 1) as u64,
                        FileV { digest: Some(d), ..acc },
                        g0,
                        g1,
                    ),
                    None => None,
                }
            } else if k == 3 {
                match cbor::dec_head(b, j) {
                    Some((m2, v, j2)) => if m2 == 0 && v <= u32::MAX as u64 {
                        dec_file_pairs(
                            b,
                            j2,
                            (n - 1) as u64,
                            FileV { mode: Some(v as u32), ..acc },
                            g0,
                            g1,
                        )
                    } else {
                        None
                    },
                    None => None,
                }
            } else if k == 4 {
                match dec_owner(b, j) {
                    Some((o, j2)) => dec_file_pairs(
                        b,
                        j2,
                        (n - 1) as u64,
                        FileV { user: Some(o), ..acc },
                        g0,
                        g1,
                    ),
                    None => None,
                }
            } else if k == 5 {
                match dec_owner(b, j) {
                    Some((o, j2)) => dec_file_pairs(
                        b,
                        j2,
                        (n - 1) as u64,
                        FileV { group: Some(o), ..acc },
                        g0,
                        g1,
                    ),
                    None => None,
                }
            } else if k == 6 {
                match dec_timestamps(b, j) {
                    Some((t, j2)) => dec_file_pairs(
                        b,
                        j2,
                        (n - 1) as u64,
                        FileV { timestamps: Some(t), ..acc },
                        g0,
                        g1,
                    ),
                    None => None,
                }
            } else if k == 7 {
                match dec_special(b, j) {
                    Some((s, j2)) => dec_file_pairs(
                        b,
                        j2,
                        (n - 1) as u64,
                        FileV { special: Some(s), ..acc },
                        g0,
                        g1,
                    ),
                    None => None,
                }
            } else if k == 10 {
                match dec_attrmap(b, j) {
                    Some((u, j2)) => dec_file_pairs(
                        b,
                        j2,
                        (n - 1) as u64,
                        FileV { user_metadata: Some(u), ..acc },
                        g0,
                        g1,
                    ),
                    None => None,
                }
            } else if k == 11 {
                match dec_attrmap(b, j) {
                    Some((u, j2)) => dec_file_pairs(
                        b,
                        j2,
                        (n - 1) as u64,
                        FileV { attributes: Some(u), ..acc },
                        g0,
                        g1,
                    ),
                    None => None,
                }
            } else if k == 12 {
                match dec_attrmap(b, j) {
                    Some((u, j2)) => dec_file_pairs(
                        b,
                        j2,
                        (n - 1) as u64,
                        FileV { extended_attributes: Some(u), ..acc },
                        g0,
                        g1,
                    ),
                    None => None,
                }
            } else {
                match cbor::skip_item(b, j, (b.len() - j) as nat) {
                    Some(j2) => if j < j2 {
                        dec_file_pairs(b, j2, (n - 1) as u64, acc, g0, g1)
                    } else {
                        None
                    },
                    None => None,
                }
            },
            None => None,
        }
    }
}

/// A file record at `i`.
#[verifier::opaque]
pub open spec fn dec_file(b: Seq<u8>, i: int) -> Option<(FileV, int)> {
    match cbor::dec_head(b, i) {
        Some((major, n, j)) => if major == 5 {
            dec_file_pairs(b, j, n, file_acc0(), false, false)
        } else {
            None
        },
        None => None,
    }
}

/// The fold's value after the required pairs and the digest pair.
pub open spec fn file_acc_a1(v: FileV) -> FileV {
    FileV { edition: v.edition, name: v.name, digest: v.digest, ..file_acc0() }
}

/// The fold's value after the timestamps and special-file pairs.
pub open spec fn file_acc_b1(v: FileV) -> FileV {
    FileV { timestamps: v.timestamps, special: v.special, ..file_acc_a(v) }
}

/// The fold's value after the first half of the pairs.
pub open spec fn file_acc_a(v: FileV) -> FileV {
    FileV {
        edition: v.edition,
        name: v.name,
        digest: v.digest,
        mode: v.mode,
        user: v.user,
        group: v.group,
        ..file_acc0()
    }
}

/// One required-edition pair steps the fold.
proof fn step_edition(b: Seq<u8>, p: int, n: u64, acc: FileV, g1: bool, ed: u16)
    requires
        n >= 1,
        ed != 0,
        cbor::at(b, p, cbor::enc_uint(0) + cbor::enc_uint(ed as u64)),
    ensures
        dec_file_pairs(b, p, n, acc, false, g1) == dec_file_pairs(
            b,
            p + (cbor::enc_uint(0) + cbor::enc_uint(ed as u64)).len(),
            (n - 1) as u64,
            (FileV { edition: ed, ..acc }),
            true,
            g1,
        ),
{
    cbor::lemma_at_concat(b, p, cbor::enc_uint(0), cbor::enc_uint(ed as u64));
    cbor::lemma_dec_head(b, p, 0, 0);
    cbor::lemma_dec_head(b, p + cbor::enc_uint(0).len(), 0, ed as u64);
}

/// One name pair steps the fold.
proof fn step_name(b: Seq<u8>, p: int, n: u64, acc: FileV, g0: bool, name: Seq<StrVal>)
    requires
        n >= 1,
        pathval_wf(name),
        cbor::at(b, p, cbor::enc_uint(1) + enc_pathname(name)),
    ensures
        dec_file_pairs(b, p, n, acc, g0, false) == dec_file_pairs(
            b,
            p + (cbor::enc_uint(1) + enc_pathname(name)).len(),
            (n - 1) as u64,
            (FileV { name: name, ..acc }),
            g0,
            true,
        ),
{
    cbor::lemma_at_concat(b, p, cbor::enc_uint(1), enc_pathname(name));
    cbor::lemma_dec_head(b, p, 0, 1);
    lemma_dec_pathname(b, p + cbor::enc_uint(1).len(), name);
}

/// One digest pair steps the fold.
proof fn step_digest(b: Seq<u8>, p: int, n: u64, acc: FileV, g0: bool, g1: bool, d: Seq<u8>)
    requires
        n >= 1,
        d.len() <= u64::MAX,
        cbor::at(b, p, cbor::enc_uint(2) + cbor::enc_bytes(d)),
    ensures
        dec_file_pairs(b, p, n, acc, g0, g1) == dec_file_pairs(
            b,
            p + (cbor::enc_uint(2) + cbor::enc_bytes(d)).len(),
            (n - 1) as u64,
            (FileV { digest: Some(d), ..acc }),
            g0,
            g1,
        ),
{
    cbor::lemma_at_concat(b, p, cbor::enc_uint(2), cbor::enc_bytes(d));
    cbor::lemma_dec_head(b, p, 0, 2);
    cbor::lemma_dec_bytes(b, p + cbor::enc_uint(2).len(), d);
}

/// One mode pair steps the fold.
proof fn step_mode(b: Seq<u8>, p: int, n: u64, acc: FileV, g0: bool, g1: bool, m: u32)
    requires
        n >= 1,
        cbor::at(b, p, cbor::enc_uint(3) + cbor::enc_uint(m as u64)),
    ensures
        dec_file_pairs(b, p, n, acc, g0, g1) == dec_file_pairs(
            b,
            p + (cbor::enc_uint(3) + cbor::enc_uint(m as u64)).len(),
            (n - 1) as u64,
            (FileV { mode: Some(m), ..acc }),
            g0,
            g1,
        ),
{
    cbor::lemma_at_concat(b, p, cbor::enc_uint(3), cbor::enc_uint(m as u64));
    cbor::lemma_dec_head(b, p, 0, 3);
    cbor::lemma_dec_head(b, p + cbor::enc_uint(3).len(), 0, m as u64);
}

/// One owner pair steps the fold.
proof fn step_owner(b: Seq<u8>, p: int, n: u64, acc: FileV, g0: bool, g1: bool, key: u64, o: OwnerV)
    requires
        n >= 1,
        key == 4 || key == 5,
        ownerv_wf(o),
        cbor::at(b, p, cbor::enc_uint(key) + enc_owner(o)),
    ensures
        dec_file_pairs(b, p, n, acc, g0, g1) == dec_file_pairs(
            b,
            p + (cbor::enc_uint(key) + enc_owner(o)).len(),
            (n - 1) as u64,
            if key == 4 {
                (FileV { user: Some(o), ..acc })
            } else {
                (FileV { group: Some(o), ..acc })
            },
            g0,
            g1,
        ),
{
    cbor::lemma_at_concat(b, p, cbor::enc_uint(key), enc_owner(o));
    cbor::lemma_dec_head(b, p, 0, key);
    lemma_dec_owner(b, p + cbor::enc_uint(key).len(), o);
}

/// One timestamps pair steps the fold.
proof fn step_times(b: Seq<u8>, p: int, n: u64, acc: FileV, g0: bool, g1: bool, t: TimesV)
    requires
        n >= 1,
        timesv_wf(t),
        cbor::at(b, p, cbor::enc_uint(6) + enc_timestamps(t)),
    ensures
        dec_file_pairs(b, p, n, acc, g0, g1) == dec_file_pairs(
            b,
            p + (cbor::enc_uint(6) + enc_timestamps(t)).len(),
            (n - 1) as u64,
            (FileV { timestamps: Some(t), ..acc }),
            g0,
            g1,
        ),
{
    cbor::lemma_at_concat(b, p, cbor::enc_uint(6), enc_timestamps(t));
    cbor::lemma_dec_head(b, p, 0, 6);
    lemma_dec_timestamps(b, p + cbor::enc_uint(6).len(), t);
}

/// One special-file pair steps the fold.
proof fn step_special(b: Seq<u8>, p: int, n: u64, acc: FileV, g0: bool, g1: bool, sp: SpecialV)
    requires
        n >= 1,
        specialv_wf(sp),
        cbor::at(b, p, cbor::enc_uint(7) + enc_special(sp)),
    ensures
        dec_file_pairs(b, p, n, acc, g0, g1) == dec_file_pairs(
            b,
            p + (cbor::enc_uint(7) + enc_special(sp)).len(),
            (n - 1) as u64,
            (FileV { special: Some(sp), ..acc }),
            g0,
            g1,
        ),
{
    cbor::lemma_at_concat(b, p, cbor::enc_uint(7), enc_special(sp));
    cbor::lemma_dec_head(b, p, 0, 7);
    lemma_dec_special(b, p + cbor::enc_uint(7).len(), sp);
}

/// One attribute-map pair steps the fold.
proof fn step_attrmap(
    b: Seq<u8>,
    p: int,
    n: u64,
    acc: FileV,
    g0: bool,
    g1: bool,
    key: u64,
    m: Seq<(Seq<char>, AttrVal)>,
)
    requires
        n >= 1,
        key == 10 || key == 11 || key == 12,
        attrmap_wf(m),
        cbor::at(b, p, cbor::enc_uint(key) + enc_attrmap(m)),
    ensures
        dec_file_pairs(b, p, n, acc, g0, g1) == dec_file_pairs(
            b,
            p + (cbor::enc_uint(key) + enc_attrmap(m)).len(),
            (n - 1) as u64,
            if key == 10 {
                (FileV { user_metadata: Some(m), ..acc })
            } else if key == 11 {
                (FileV { attributes: Some(m), ..acc })
            } else {
                (FileV { extended_attributes: Some(m), ..acc })
            },
            g0,
            g1,
        ),
{
    cbor::lemma_at_concat(b, p, cbor::enc_uint(key), enc_attrmap(m));
    cbor::lemma_dec_head(b, p, 0, key);
    lemma_dec_attrmap(b, p + cbor::enc_uint(key).len(), m);
}

/// Decoding the required pairs and the digest pair folds them in.
proof fn lemma_dec_file_fields_a1(b: Seq<u8>, p: int, n: u64, v: FileV)
    requires
        filev_wf(v),
        n >= 2 + opt_one(v.digest),
        cbor::at(b, p, enc_file_a1(v)),
    ensures
        dec_file_pairs(b, p, n, file_acc0(), false, false) == dec_file_pairs(
            b,
            p + enc_file_a1(v).len(),
            (n - 2 - opt_one(v.digest)) as u64,
            file_acc_a1(v),
            true,
            true,
        ),
{
    let e0 = ef_edition(v);
    let e1 = ef_name(v);
    let e2 = ef_digest(v);
    cbor::lemma_at_concat(b, p, e0 + e1, e2);
    cbor::lemma_at_concat(b, p, e0, e1);
    let p0 = p;
    let p1 = p0 + e0.len();
    let p2 = p1 + e1.len();
    let acc0 = file_acc0();
    let acc1 = FileV { edition: v.edition, ..acc0 };
    let acc2 = FileV { name: v.name, ..acc1 };
    let acc3 = FileV { digest: v.digest, ..acc2 };
    let n1 = (n - 1) as u64;
    let n2 = (n1 - 1) as u64;
    let n3 = (n2 - opt_one(v.digest)) as u64;
    step_edition(b, p0, n, acc0, false, v.edition);
    step_name(b, p1, n1, acc1, true, v.name);
    match v.digest {
        Some(d) => {
            step_digest(b, p2, n2, acc2, true, true, d);
        },
        None => {
            assert(acc3 == acc2);
        },
    }
    assert(dec_file_pairs(b, p2, n2, acc2, true, true) == dec_file_pairs(
        b,
        p2 + e2.len(),
        n3,
        acc3,
        true,
        true,
    ));
    assert(acc3 == file_acc_a1(v));
}

/// Decoding the mode, user and group pairs folds them in.
proof fn lemma_dec_file_fields_a2(b: Seq<u8>, p: int, n: u64, v: FileV)
    requires
        filev_wf(v),
        n >= opt_one(v.mode) + opt_one(v.user) + opt_one(v.group),
        cbor::at(b, p, enc_file_a2(v)),
    ensures
        dec_file_pairs(b, p, n, file_acc_a1(v), true, true) == dec_file_pairs(
            b,
            p + enc_file_a2(v).len(),
            (n - opt_one(v.mode) - opt_one(v.user) - opt_one(v.group)) as u64,
            file_acc_a(v),
            true,
            true,
        ),
{
    let e3 = ef_mode(v);
    let e4 = ef_user(v);
    let e5 = ef_group(v);
    cbor::lemma_at_concat(b, p, e3 + e4, e5);
    cbor::lemma_at_concat(b, p, e3, e4);
    let p3 = p;
    let p4 = p3 + e3.len();
    let p5 = p4 + e4.len();
    let acc3 = file_acc_a1(v);
    let acc4 = FileV { mode: v.mode, ..acc3 };
    let acc5 = FileV { user: v.user, ..acc4 };
    let acc6 = FileV { group: v.group, ..acc5 };
    let n4 = (n - opt_one(v.mode)) as u64;
    let n5 = (n4 - opt_one(v.user)) as u64;
    let n6 = (n5 - opt_one(v.group)) as u64;
    match v.mode {
        Some(m) => {
            step_mode(b, p3, n, acc3, true, true, m);
        },
        None => {
            assert(acc4 == acc3);
        },
    }
    assert(dec_file_pairs(b, p3, n, acc3, true, true) == dec_file_pairs(
        b,
        p4,
        n4,
        acc4,
        true,
        true,
    ));
    match v.user {
        Some(o) => {
            step_owner(b, p4, n4, acc4, true, true, 4, o);
        },
        None => {
            assert(acc5 == acc4);
        },
    }
    assert(dec_file_pairs(b, p4, n4, acc4, true, true) == dec_file_pairs(
        b,
        p5,
        n5,
        acc5,
        true,
        true,
    ));
    match v.group {
        Some(o) => {
            step_owner(b, p5, n5, acc5, true, true, 5, o);
        },
        None => {
            assert(acc6 == acc5);
        },
    }
    assert(dec_file_pairs(b, p5, n5, acc5, true, true) == dec_file_pairs(
        b,
        p5 + e5.len(),
        n6,
        acc6,
        true,
        true,
    ));
    assert(acc6 == file_acc_a(v));
}

/// Decoding the first half of the pair stream folds in those fields.
proof fn lemma_dec_file_fields_a(b: Seq<u8>, p: int, n: u64, v: FileV)
    requires
        filev_wf(v),
        n >= file_count_a(v),
        cbor::at(b, p, enc_file_a(v)),
    ensures
        dec_file_pairs(b, p, n, file_acc0(), false, false) == dec_file_pairs(
            b,
            p + enc_file_a(v).len(),
            (n - file_count_a(v)) as u64,
            file_acc_a(v),
            true,
            true,
        ),
{
    cbor::lemma_at_concat(b, p, enc_file_a1(v), enc_file_a2(v));
    lemma_dec_file_fields_a1(b, p, n, v);
    lemma_dec_file_fields_a2(
        b,
        p + enc_file_a1(v).len(),
        (n - 2 - opt_one(v.digest)) as u64,
        v,
    );
}

/// Decoding the timestamps and special-file pairs folds them in.
proof fn lemma_dec_file_fields_b1(b: Seq<u8>, p: int, n: u64, v: FileV)
    requires
        filev_wf(v),
        n >= opt_one(v.timestamps) + opt_one(v.special),
        cbor::at(b, p, enc_file_b1(v)),
    ensures
        dec_file_pairs(b, p, n, file_acc_a(v), true, true) == dec_file_pairs(
            b,
            p + enc_file_b1(v).len(),
            (n - opt_one(v.timestamps) - opt_one(v.special)) as u64,
            file_acc_b1(v),
            true,
            true,
        ),
{
    let e6 = ef_times(v);
    let e7 = ef_special(v);
    cbor::lemma_at_concat(b, p, e6, e7);
    let p6 = p;
    let p7 = p6 + e6.len();
    let acc6 = file_acc_a(v);
    let acc7 = FileV { timestamps: v.timestamps, ..acc6 };
    let acc8 = FileV { special: v.special, ..acc7 };
    let n7 = (n - opt_one(v.timestamps)) as u64;
    let n8 = (n7 - opt_one(v.special)) as u64;
    match v.timestamps {
        Some(t) => {
            step_times(b, p6, n, acc6, true, true, t);
        },
        None => {
            assert(acc7 == acc6);
        },
    }
    assert(dec_file_pairs(b, p6, n, acc6, true, true) == dec_file_pairs(
        b,
        p7,
        n7,
        acc7,
        true,
        true,
    ));
    match v.special {
        Some(sp) => {
            step_special(b, p7, n7, acc7, true, true, sp);
        },
        None => {
            assert(acc8 == acc7);
        },
    }
    assert(dec_file_pairs(b, p7, n7, acc7, true, true) == dec_file_pairs(
        b,
        p7 + e7.len(),
        n8,
        acc8,
        true,
        true,
    ));
    assert(acc8 == file_acc_b1(v));
}

/// Decoding the attribute-map pairs completes the record.
proof fn lemma_dec_file_fields_b2(b: Seq<u8>, p: int, v: FileV)
    requires
        filev_wf(v),
        cbor::at(b, p, enc_file_b2(v)),
    ensures
        dec_file_pairs(
            b,
            p,
            (opt_one(v.user_metadata) + opt_one(v.attributes) + opt_one(v.extended_attributes))
                as u64,
            file_acc_b1(v),
            true,
            true,
        ) == Some((v, p + enc_file_b2(v).len())),
{
    let e8 = ef_um(v);
    let e9 = ef_attrs(v);
    let e10 = ef_xattrs(v);
    cbor::lemma_at_concat(b, p, e8 + e9, e10);
    cbor::lemma_at_concat(b, p, e8, e9);
    let p8 = p;
    let p9 = p8 + e8.len();
    let p10 = p9 + e9.len();
    let acc8 = file_acc_b1(v);
    let acc9 = FileV { user_metadata: v.user_metadata, ..acc8 };
    let acc10 = FileV { attributes: v.attributes, ..acc9 };
    let acc11 = FileV { extended_attributes: v.extended_attributes, ..acc10 };
    let n8 = (opt_one(v.user_metadata) + opt_one(v.attributes) + opt_one(
        v.extended_attributes,
    )) as u64;
    let n9 = (n8 - opt_one(v.user_metadata)) as u64;
    let n10 = (n9 - opt_one(v.attributes)) as u64;
    match v.user_metadata {
        Some(m) => {
            step_attrmap(b, p8, n8, acc8, true, true, 10, m);
        },
        None => {
            assert(acc9 == acc8);
        },
    }
    assert(dec_file_pairs(b, p8, n8, acc8, true, true) == dec_file_pairs(
        b,
        p9,
        n9,
        acc9,
        true,
        true,
    ));
    match v.attributes {
        Some(m) => {
            step_attrmap(b, p9, n9, acc9, true, true, 11, m);
        },
        None => {
            assert(acc10 == acc9);
        },
    }
    assert(dec_file_pairs(b, p9, n9, acc9, true, true) == dec_file_pairs(
        b,
        p10,
        n10,
        acc10,
        true,
        true,
    ));
    match v.extended_attributes {
        Some(m) => {
            step_attrmap(b, p10, n10, acc10, true, true, 12, m);
        },
        None => {
            assert(acc11 == acc10);
        },
    }
    assert(dec_file_pairs(b, p10, n10, acc10, true, true) == dec_file_pairs(
        b,
        p10 + e10.len(),
        0,
        acc11,
        true,
        true,
    ));
    assert(acc11 == v);
}

/// Decoding the second half of the pair stream completes the record.
proof fn lemma_dec_file_fields_b(b: Seq<u8>, p: int, v: FileV)
    requires
        filev_wf(v),
        cbor::at(b, p, enc_file_b(v)),
    ensures
        dec_file_pairs(b, p, file_count_b(v), file_acc_a(v), true, true) == Some(
            (v, p + enc_file_b(v).len()),
        ),
{
    cbor::lemma_at_concat(b, p, enc_file_b1(v), enc_file_b2(v));
    lemma_dec_file_fields_b1(b, p, file_count_b(v), v);
    lemma_dec_file_fields_b2(b, p + enc_file_b1(v).len(), v);
}

/// Decoding a file record that stands at `i` yields it.
pub proof fn lemma_dec_file(b: Seq<u8>, i: int, v: FileV)
    requires
        filev_wf(v),
        cbor::at(b, i, enc_file(v)),
    ensures
        dec_file(b, i) == Some((v, i + enc_file(v).len())),
{
    reveal(dec_file);
    let n = file_count(v);
    let h = cbor::enc_map(n);
    cbor::lemma_at_concat(b, i, h + enc_file_a(v), enc_file_b(v));
    cbor::lemma_at_concat(b, i, h, enc_file_a(v));
    cbor::lemma_dec_head(b, i, 5, n);
    lemma_dec_file_fields_a(b, i + h.len(), n, v);
    lemma_dec_file_fields_b(b, i + h.len() + enc_file_a(v).len(), v);
}

/// Concatenation on sequences associates.
proof fn lemma_add_assoc(a: Seq<u8>, x: Seq<u8>, y: Seq<u8>)
    ensures
        (a + x) + y == a + (x + y),
{
    assert((a + x) + y =~= a + (x + y));
}

/// Append the required pairs and the digest pair.
fn write_file_fields_a1(out: &mut Vec<u8>, v: &File)
    requires
        v.edition != 0,
    ensures
        final(out)@ == old(out)@ + enc_file_a1(v@),
{
    let ghost c0 = out@;
    cbor::write_head(out, 0, 0);
    cbor::write_head(out, 0, v.edition as u64);
    proof {
        assert(out@ =~= c0 + ef_edition(v@));
    }
    let ghost c1 = out@;
    cbor::write_head(out, 0, 1);
    write_pathname(out, &v.name);
    proof {
        assert(out@ =~= c1 + ef_name(v@));
        lemma_add_assoc(c0, ef_edition(v@), ef_name(v@));
    }
    let ghost c2 = out@;
    match &v.digest {
        Some(d) => {
            cbor::write_head(out, 0, 2);
            cbor::write_bytes_item(out, d.0.as_slice());
        },
        None => {},
    }
    proof {
        assert(out@ =~= c2 + ef_digest(v@));
        lemma_add_assoc(c0, ef_edition(v@) + ef_name(v@), ef_digest(v@));
    }
}

/// Append the mode, user and group pairs.
fn write_file_fields_a2(out: &mut Vec<u8>, v: &File)
    ensures
        final(out)@ == old(out)@ + enc_file_a2(v@),
{
    let ghost c3 = out@;
    match &v.mode {
        Some(m) => {
            cbor::write_head(out, 0, 3);
            cbor::write_head(out, 0, *m as u64);
        },
        None => {},
    }
    proof {
        assert(out@ =~= c3 + ef_mode(v@));
    }
    let ghost c4 = out@;
    match &v.user {
        Some(o) => {
            cbor::write_head(out, 0, 4);
            write_owner(out, o);
        },
        None => {},
    }
    proof {
        assert(out@ =~= c4 + ef_user(v@));
        lemma_add_assoc(c3, ef_mode(v@), ef_user(v@));
    }
    let ghost c5 = out@;
    match &v.group {
        Some(o) => {
            cbor::write_head(out, 0, 5);
            write_owner(out, o);
        },
        None => {},
    }
    proof {
        assert(out@ =~= c5 + ef_group(v@));
        lemma_add_assoc(c3, ef_mode(v@) + ef_user(v@), ef_group(v@));
    }
}

/// Append the first half of a file record's pairs.
fn write_file_fields_a(out: &mut Vec<u8>, v: &File)
    requires
        v.edition != 0,
    ensures
        final(out)@ == old(out)@ + enc_file_a(v@),
{
    write_file_fields_a1(out, v);
    write_file_fields_a2(out, v);
    proof {
        lemma_add_assoc(old(out)@, enc_file_a1(v@), enc_file_a2(v@));
    }
}

/// Append the timestamps and special-file pairs.
fn write_file_fields_b1(out: &mut Vec<u8>, v: &File)
    ensures
        final(out)@ == old(out)@ + enc_file_b1(v@),
{
    let ghost c6 = out@;
    match &v.timestamps {
        Some(t) => {
            cbor::write_head(out, 0, 6);
            write_timestamps(out, t);
        },
        None => {},
    }
    proof {
        assert(out@ =~= c6 + ef_times(v@));
    }
    let ghost c7 = out@;
    match &v.special {
        Some(sp) => {
            cbor::write_head(out, 0, 7);
            write_special(out, sp);
        },
        None => {},
    }
    proof {
        assert(out@ =~= c7 + ef_special(v@));
        lemma_add_assoc(c6, ef_times(v@), ef_special(v@));
    }
}

/// Append the three attribute-map pairs.
fn write_file_fields_b2(out: &mut Vec<u8>, v: &File)
    ensures
        final(out)@ == old(out)@ + enc_file_b2(v@),
{
    let ghost c8 = out@;
    match &v.user_metadata {
        Some(m) => {
            cbor::write_head(out, 0, 10);
            write_attrmap(out, m);
        },
        None => {},
    }
    proof {
        assert(out@ =~= c8 + ef_um(v@));
    }
    let ghost c9 = out@;
    match &v.attributes {
        Some(m) => {
            cbor::write_head(out, 0, 11);
            write_attrmap(out, m);
        },
        None => {},
    }
    proof {
        assert(out@ =~= c9 + ef_attrs(v@));
        lemma_add_assoc(c8, ef_um(v@), ef_attrs(v@));
    }
    let ghost c10 = out@;
    match &v.extended_attributes {
        Some(m) => {
            cbor::write_head(out, 0, 12);
            write_attrmap(out, m);
        },
        None => {},
    }
    proof {
        assert(out@ =~= c10 + ef_xattrs(v@));
        lemma_add_assoc(c8, ef_um(v@) + ef_attrs(v@), ef_xattrs(v@));
    }
}

/// Append the second half of a file record's pairs.
fn write_file_fields_b(out: &mut Vec<u8>, v: &File)
    ensures
        final(out)@ == old(out)@ + enc_file_b(v@),
{
    write_file_fields_b1(out, v);
    write_file_fields_b2(out, v);
    proof {
        lemma_add_assoc(old(out)@, enc_file_b1(v@), enc_file_b2(v@));
    }
}

/// Append a file record.
pub fn write_file(out: &mut Vec<u8>, v: &File)
    requires
        v.edition != 0,
    ensures
        final(out)@ == old(out)@ + enc_file(v@),
{
    let mut count: u64 = 2;
    if v.digest.is_some() {
        count = count + 1;
    }
    if v.mode.is_some() {
        count = count + 1;
    }
    if v.user.is_some() {
        count = count + 1;
    }
    if v.group.is_some() {
        count = count + 1;
    }
    if v.timestamps.is_some() {
        count = count + 1;
    }
    if v.special.is_some() {
        count = count + 1;
    }
    if v.user_metadata.is_some() {
        count = count + 1;
    }
    if v.attributes.is_some() {
        count = count + 1;
    }
    if v.extended_attributes.is_some() {
        count = count + 1;
    }
    cbor::write_head(out, 5, count);
    proof {
        assert(count == file_count(v@));
    }
    write_file_fields_a(out, v);
    proof {
        lemma_add_assoc(old(out)@, cbor::enc_map(file_count(v@)), enc_file_a(v@));
    }
    write_file_fields_b(out, v);
    proof {
        lemma_add_assoc(
            old(out)@,
            cbor::enc_map(file_count(v@)) + enc_file_a(v@),
            enc_file_b(v@),
        );
    }
}

/// Read a file record at `i`.
#[verifier::loop_isolation(false)]
pub fn read_file(b: &[u8], i: usize) -> (r: Result<(File, usize), SimpleError>)
    ensures
        match r {
            Ok((v, j)) => dec_file(b@, i as int) == Some((v@, j as int)) && i < j <= b@.len()
                && v.edition != 0,
            Err(e) => dec_file(b@, i as int) is None && e.kind == ErrorKind::Parse,
        },
{
    proof {
        reveal(dec_file);
    }
    let (major, n, j0) = match cbor::read_head(b, i) {
        Ok(h) => h,
        Err(e) => { return Err(e) },
    };
    if major != 5 {
        return Err(SimpleError::new(ErrorKind::Parse));
    }
    let mut acc = File::new(1, Pathname(Vec::new()));
    acc = File { edition: 0, ..acc };
    let mut g0 = false;
    let mut g1 = false;
    let mut cur: usize = j0;
    let mut left: u64 = n;
    proof {
        assert(acc@ =~= file_acc0());
    }
    loop
        invariant
            i < cur <= b@.len(),
            left <= n,
            g0 ==> acc.edition != 0,
            match dec_file_pairs(b@, cur as int, left, acc@, g0, g1) {
                Some(res) => dec_file_pairs(b@, j0 as int, n, file_acc0(), false, false) == Some(
                    res,
                ),
                None => dec_file_pairs(b@, j0 as int, n, file_acc0(), false, false) is None,
            },
        decreases left,
    {
        if left == 0 {
            if g0 && g1 {
                return Ok((acc, cur));
            }
            return Err(SimpleError::new(ErrorKind::Parse));
        }
        let (m, k, j) = match cbor::read_head(b, cur) {
            Ok(h) => h,
            Err(e) => { return Err(e) },
        };
        if m != 0 {
            return Err(SimpleError::new(ErrorKind::Parse));
        }
        if k == 0 {
            let (m2, v, j2) = match cbor::read_head(b, j) {
                Ok(h) => h,
                Err(e) => { return Err(e) },
            };
            if !(m2 == 0 && 1 <= v && v <= 0xffff) {
                return Err(SimpleError::new(ErrorKind::Parse));
            }
            acc = File { edition: v as u16, ..acc };
            g0 = true;
            cur = j2;
        } else if k == 1 {
            let (p, j2) = match read_pathname(b, j) {
                Ok(x) => x,
                Err(e) => { return Err(e) },
            };
            acc = File { name: p, ..acc };
            g1 = true;
            cur = j2;
        } else if k == 2 {
            let (d, j2) = match cbor::read_bytes_item(b, j) {
                Ok(x) => x,
                Err(e) => { return Err(e) },
            };
            acc = File { digest: Some(Digest(d)), ..acc };
            cur = j2;
        } else if k == 3 {
            let (m2, v, j2) = match cbor::read_head(b, j) {
                Ok(h) => h,
                Err(e) => { return Err(e) },
            };
            if !(m2 == 0 && v <= u32::MAX as u64) {
                return Err(SimpleError::new(ErrorKind::Parse));
            }
            acc = File { mode: Some(v as u32), ..acc };
            cur = j2;
        } else if k == 4 {
            let (o, j2) = match read_owner(b, j) {
                Ok(x) => x,
                Err(e) => { return Err(e) },
            };
            acc = File { user: Some(o), ..acc };
            cur = j2;
        } else if k == 5 {
            let (o, j2) = match read_owner(b, j) {
                Ok(x) => x,
                Err(e) => { return Err(e) },
            };
            acc = File { group: Some(o), ..acc };
            cur = j2;
        } else if k == 6 {
            let (t, j2) = match read_timestamps(b, j) {
                Ok(x) => x,
                Err(e) => { return Err(e) },
            };
            acc = File { timestamps: Some(t), ..acc };
            cur = j2;
        } else if k == 7 {
            let (s, j2) = match read_special(b, j) {
                Ok(x) => x,
                Err(e) => { return Err(e) },
            };
            acc = File { special: Some(s), ..acc };
            cur = j2;
        } else if k == 10 {
            let (u, j2) = match read_attrmap(b, j) {
                Ok(x) => x,
                Err(e) => { return Err(e) },
            };
            acc = File { user_metadata: Some(u), ..acc };
            cur = j2;
        } else if k == 11 {
            let (u, j2) = match read_attrmap(b, j) {
                Ok(x) => x,
                Err(e) => { return Err(e) },
            };
            acc = File { attributes: Some(u), ..acc };
            cur = j2;
        } else if k == 12 {
            let (u, j2) = match read_attrmap(b, j) {
                Ok(x) => x,
                Err(e) => { return Err(e) },
            };
            acc = File { extended_attributes: Some(u), ..acc };
            cur = j2;
        } else {
            let j2 = match cbor::skip_item_at(b, j, b.len() - j) {
                Ok(x) => x,
                Err(e) => { return Err(e) },
            };
            cur = j2;
        }
        left = left - 1;
    }
}

} // verus!
