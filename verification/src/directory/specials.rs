//! Special files: directories, links, and their targets.

use vstd::prelude::*;

use crate::cbor;
use crate::error::{ErrorKind, SimpleError};
use crate::strings::{
    dec_pathname, dec_strval, enc_pathname, enc_strval, lemma_dec_pathname, lemma_dec_strval,
    pathval_wf, read_cbor_string, read_pathname, strval_wf, write_cbor_string, write_pathname,
    CborString, Pathname, StrVal,
};

verus! {

/// The kinds of special file.
#[derive(Clone, Copy, Debug, PartialEq, Eq, Structural)]
pub enum SpecialFileKind {
    /// A directory entry, to carry metadata for a directory.
    Directory,
    /// A symlink of unspecified flavour.
    Symlink,
    /// A symlink to a file within the same archive.
    InternalSymlink,
    /// An absolute symlink to a file outside the archive.
    ExternalAbsoluteSymlink,
    /// A relative symlink to a file outside the archive.
    ExternalRelativeSymlink,
    /// A hardlink of unspecified flavour.
    Hardlink,
    /// A hardlink to a file within the same archive.
    InternalHardlink,
    /// A hardlink to a file outside the archive.
    ExternalHardlink,
}

impl SpecialFileKind {
    /// The wire tag of this kind.
    pub open spec fn spec_tag(self) -> u64 {
        match self {
            SpecialFileKind::Directory => 1,
            SpecialFileKind::Symlink => 10,
            SpecialFileKind::InternalSymlink => 11,
            SpecialFileKind::ExternalAbsoluteSymlink => 12,
            SpecialFileKind::ExternalRelativeSymlink => 13,
            SpecialFileKind::Hardlink => 20,
            SpecialFileKind::InternalHardlink => 21,
            SpecialFileKind::ExternalHardlink => 22,
        }
    }

    /// The wire tag of this kind.
    pub fn tag(self) -> (r: u64)
        ensures
            r == self.spec_tag(),
    {
        match self {
            SpecialFileKind::Directory => 1,
            SpecialFileKind::Symlink => 10,
            SpecialFileKind::InternalSymlink => 11,
            SpecialFileKind::ExternalAbsoluteSymlink => 12,
            SpecialFileKind::ExternalRelativeSymlink => 13,
            SpecialFileKind::Hardlink => 20,
            SpecialFileKind::InternalHardlink => 21,
            SpecialFileKind::ExternalHardlink => 22,
        }
    }

    /// The kind a wire tag names, if any.
    pub open spec fn spec_from_tag(t: u64) -> Option<SpecialFileKind> {
        if t == 1 {
            Some(SpecialFileKind::Directory)
        } else if t == 10 {
            Some(SpecialFileKind::Symlink)
        } else if t == 11 {
            Some(SpecialFileKind::InternalSymlink)
        } else if t == 12 {
            Some(SpecialFileKind::ExternalAbsoluteSymlink)
        } else if t == 13 {
            Some(SpecialFileKind::ExternalRelativeSymlink)
        } else if t == 20 {
            Some(SpecialFileKind::Hardlink)
        } else if t == 21 {
            Some(SpecialFileKind::InternalHardlink)
        } else if t == 22 {
            Some(SpecialFileKind::ExternalHardlink)
        } else {
            None
        }
    }

    /// The kind a wire tag names, if any.
    pub fn from_tag(t: u64) -> (r: Option<SpecialFileKind>)
        ensures
            r == SpecialFileKind::spec_from_tag(t),
    {
        if t == 1 {
            Some(SpecialFileKind::Directory)
        } else if t == 10 {
            Some(SpecialFileKind::Symlink)
        } else if t == 11 {
            Some(SpecialFileKind::InternalSymlink)
        } else if t == 12 {
            Some(SpecialFileKind::ExternalAbsoluteSymlink)
        } else if t == 13 {
            Some(SpecialFileKind::ExternalRelativeSymlink)
        } else if t == 20 {
            Some(SpecialFileKind::Hardlink)
        } else if t == 21 {
            Some(SpecialFileKind::InternalHardlink)
        } else if t == 22 {
            Some(SpecialFileKind::ExternalHardlink)
        } else {
            None
        }
    }

    /// True exactly for the directory kind.
    pub fn is_dir(self) -> (r: bool)
        ensures
            r == (self == SpecialFileKind::Directory),
    {
        matches!(self, SpecialFileKind::Directory)
    }

    /// True for every symlink kind.
    pub fn is_symlink(self) -> (r: bool)
        ensures
            r == self.spec_is_symlink(),
    {
        matches!(
            self,
            SpecialFileKind::Symlink
                | SpecialFileKind::InternalSymlink
                | SpecialFileKind::ExternalAbsoluteSymlink
                | SpecialFileKind::ExternalRelativeSymlink
        )
    }

    /// The symlink kinds.
    pub open spec fn spec_is_symlink(self) -> bool {
        self == SpecialFileKind::Symlink || self == SpecialFileKind::InternalSymlink || self
            == SpecialFileKind::ExternalAbsoluteSymlink || self
            == SpecialFileKind::ExternalRelativeSymlink
    }

    /// True for every hardlink kind.
    pub fn is_hardlink(self) -> (r: bool)
        ensures
            r == self.spec_is_hardlink(),
    {
        matches!(
            self,
            SpecialFileKind::Hardlink
                | SpecialFileKind::InternalHardlink
                | SpecialFileKind::ExternalHardlink
        )
    }

    /// The hardlink kinds.
    pub open spec fn spec_is_hardlink(self) -> bool {
        self == SpecialFileKind::Hardlink || self == SpecialFileKind::InternalHardlink || self
            == SpecialFileKind::ExternalHardlink
    }

    /// True for every link kind, symlink or hardlink.
    pub fn is_link(self) -> (r: bool)
        ensures
            r == (self.spec_is_symlink() || self.spec_is_hardlink()),
    {
        self.is_symlink() || self.is_hardlink()
    }
}

/// The target of a link.
pub enum LinkTarget {
    /// The target as one full pathname string.
    FullPath(CborString),
    /// The target as pathname components.
    Components(Vec<CborString>),
}

/// The mathematical value of a [`LinkTarget`].
#[verifier::ext_equal]
pub enum LinkV {
    /// The target as one full pathname string.
    FullPath(StrVal),
    /// The target as pathname components.
    Components(Seq<StrVal>),
}

impl View for LinkTarget {
    type V = LinkV;

    open spec fn view(&self) -> LinkV {
        match self {
            LinkTarget::FullPath(s) => LinkV::FullPath(s@),
            LinkTarget::Components(v) => LinkV::Components(
                Seq::new(v@.len(), |i: int| v@[i]@),
            ),
        }
    }
}

impl LinkTarget {
    /// A copy of this target.
    pub fn duplicate(&self) -> (r: LinkTarget)
        ensures
            r@ == self@,
    {
        match self {
            LinkTarget::FullPath(s) => LinkTarget::FullPath(s.duplicate()),
            LinkTarget::Components(v) => {
                let p = Pathname(duplicate_components(v));
                let r = LinkTarget::Components(p.0);
                proof {
                    assert(r@ =~= self@);
                }
                r
            },
        }
    }
}

/// Copy a component vector.
fn duplicate_components(v: &Vec<CborString>) -> (r: Vec<CborString>)
    ensures
        r@.len() == v@.len(),
        forall|m: int| 0 <= m < v@.len() ==> r@[m]@ == v@[m]@,
{
    let mut comps: Vec<CborString> = Vec::new();
    let mut k: usize = 0;
    while k < v.len()
        invariant
            k <= v@.len(),
            comps@.len() == k,
            forall|m: int| 0 <= m < k ==> comps@[m]@ == v@[m]@,
        decreases v@.len() - k,
    {
        comps.push(v[k].duplicate());
        k = k + 1;
    }
    comps
}

/// The string lengths in a link value fit the wire format.
pub open spec fn linkv_wf(v: LinkV) -> bool {
    match v {
        LinkV::FullPath(s) => strval_wf(s),
        LinkV::Components(vs) => pathval_wf(vs),
    }
}

/// The encoding of a link target.
pub open spec fn enc_link(v: LinkV) -> Seq<u8> {
    match v {
        LinkV::FullPath(s) => enc_strval(s),
        LinkV::Components(vs) => enc_pathname(vs),
    }
}

/// A link target at `i`: an array of components, or one string.
pub open spec fn dec_link(b: Seq<u8>, i: int) -> Option<(LinkV, int)> {
    if 0 <= i < b.len() {
        let major = (b[i] >> 5) as u8;
        if major == 4 {
            match dec_pathname(b, i) {
                Some((vs, j)) => Some((LinkV::Components(vs), j)),
                None => None,
            }
        } else {
            match dec_strval(b, i) {
                Some((s, j)) => Some((LinkV::FullPath(s), j)),
                None => None,
            }
        }
    } else {
        None
    }
}

/// Decoding a link target that stands at `i` yields it.
pub proof fn lemma_dec_link(b: Seq<u8>, i: int, v: LinkV)
    requires
        linkv_wf(v),
        cbor::at(b, i, enc_link(v)),
    ensures
        dec_link(b, i) == Some((v, i + enc_link(v).len())),
{
    match v {
        LinkV::FullPath(s) => {
            lemma_dec_strval(b, i, s);
            let e = enc_strval(s);
            assert(b[i] == e[0]) by {
                assert(b.subrange(i, i + e.len())[0] == e[0]);
            }
            let ib = b[i];
            match s {
                StrVal::Text(_) => {
                    assert(forall|ai: u8|
                        ib == ((3u8 << 5) | ai) as u8 && ai < 32 ==> (ib >> 5) == 3)
                        by (bit_vector);
                },
                StrVal::Binary(_) => {
                    assert(forall|ai: u8|
                        ib == ((2u8 << 5) | ai) as u8 && ai < 32 ==> (ib >> 5) == 2)
                        by (bit_vector);
                },
            }
        },
        LinkV::Components(vs) => {
            lemma_dec_pathname(b, i, vs);
            let e = enc_pathname(vs);
            assert(b[i] == e[0]) by {
                assert(b.subrange(i, i + e.len())[0] == e[0]);
            }
            let ib = b[i];
            assert(forall|ai: u8| ib == ((4u8 << 5) | ai) as u8 && ai < 32 ==> (ib >> 5) == 4)
                by (bit_vector);
        },
    }
}

/// Append a link target.
pub fn write_link(out: &mut Vec<u8>, v: &LinkTarget)
    ensures
        final(out)@ == old(out)@ + enc_link(v@),
{
    match v {
        LinkTarget::FullPath(s) => write_cbor_string(out, s),
        LinkTarget::Components(vs) => {
            let p = Pathname(duplicate_components(vs));
            proof {
                assert(v@ matches LinkV::Components(s) && p@ =~= s);
            }
            write_pathname(out, &p);
        },
    }
}

/// Read a link target at `i`.
pub fn read_link(b: &[u8], i: usize) -> (r: Result<(LinkTarget, usize), SimpleError>)
    ensures
        match r {
            Ok((v, j)) => dec_link(b@, i as int) == Some((v@, j as int)) && i < j <= b@.len(),
            Err(e) => dec_link(b@, i as int) is None && e.kind == ErrorKind::Parse,
        },
{
    if i >= b.len() {
        return Err(SimpleError::new(ErrorKind::Parse));
    }
    let major = b[i] >> 5;
    if major == 4 {
        match read_pathname(b, i) {
            Ok((p, j)) => {
                let r = LinkTarget::Components(p.0);
                proof {
                    assert(r@ matches LinkV::Components(vs) && vs =~= p@);
                    assert(r@ == LinkV::Components(p@));
                }
                Ok((r, j))
            },
            Err(e) => Err(e),
        }
    } else {
        match read_cbor_string(b, i) {
            Ok((s, j)) => Ok((LinkTarget::FullPath(s), j)),
            Err(e) => Err(e),
        }
    }
}

/// A special file: its kind and an optional link target.
pub struct SpecialFile {
    /// The kind, `None` where the archive names a kind this library does
    /// not know.
    pub kind: Option<SpecialFileKind>,
    /// The link target, for link kinds.
    pub link_target: Option<LinkTarget>,
}

/// The mathematical value of a [`SpecialFile`].
#[verifier::ext_equal]
pub struct SpecialV {
    /// The kind, if known.
    pub kind: Option<SpecialFileKind>,
    /// The link target.
    pub link: Option<LinkV>,
}

impl View for SpecialFile {
    type V = SpecialV;

    open spec fn view(&self) -> SpecialV {
        SpecialV {
            kind: self.kind,
            link: match &self.link_target {
                Some(l) => Some(l@),
                None => None,
            },
        }
    }
}

impl SpecialFile {
    /// A special file of the given kind with no target.
    pub fn of_kind(kind: SpecialFileKind) -> (r: SpecialFile)
        ensures
            r@ == (SpecialV { kind: Some(kind), link: None }),
    {
        SpecialFile { kind: Some(kind), link_target: None }
    }

    /// A copy of this special file.
    pub fn duplicate(&self) -> (r: SpecialFile)
        ensures
            r@ == self@,
    {
        SpecialFile {
            kind: self.kind,
            link_target: match &self.link_target {
                Some(l) => Some(l.duplicate()),
                None => None,
            },
        }
    }

    /// True exactly when the kind is the directory kind.
    pub fn is_dir(&self) -> (r: bool)
        ensures
            r == (self.kind == Some(SpecialFileKind::Directory)),
    {
        match self.kind {
            Some(k) => k.is_dir(),
            None => false,
        }
    }
}

/// The strings in a special-file value fit the wire format.
pub open spec fn specialv_wf(v: SpecialV) -> bool {
    match v.link {
        Some(l) => linkv_wf(l),
        None => true,
    }
}

/// The kind slot: the kind's tag, or null.
pub open spec fn enc_kind_slot(k: Option<SpecialFileKind>) -> Seq<u8> {
    match k {
        Some(kind) => cbor::enc_uint(kind.spec_tag()),
        None => cbor::enc_null(),
    }
}

/// The link slot: the target, or null.
pub open spec fn enc_link_slot(l: Option<LinkV>) -> Seq<u8> {
    match l {
        Some(link) => enc_link(link),
        None => cbor::enc_null(),
    }
}

/// The encoding of a special file: a two-item array of kind and target.
pub open spec fn enc_special(v: SpecialV) -> Seq<u8> {
    cbor::enc_array(2) + enc_kind_slot(v.kind) + enc_link_slot(v.link)
}

/// A kind slot at `i`: a tag, an unknown tag (kept as `None`), or null.
pub open spec fn dec_kind_slot(b: Seq<u8>, i: int) -> Option<(Option<SpecialFileKind>, int)> {
    if 0 <= i < b.len() {
        if b[i] == 0xf6 {
            Some((None, i + 1))
        } else {
            match cbor::dec_head(b, i) {
                Some((m, t, j)) => if m == 0 {
                    Some((SpecialFileKind::spec_from_tag(t), j))
                } else {
                    None
                },
                None => None,
            }
        }
    } else {
        None
    }
}

/// A link slot at `i`: a target or null.
pub open spec fn dec_link_slot(b: Seq<u8>, i: int) -> Option<(Option<LinkV>, int)> {
    if 0 <= i < b.len() {
        if b[i] == 0xf6 {
            Some((None, i + 1))
        } else {
            match dec_link(b, i) {
                Some((l, j)) => Some((Some(l), j)),
                None => None,
            }
        }
    } else {
        None
    }
}

/// A special file at `i`: an array of up to two slots.
#[verifier::opaque]
pub open spec fn dec_special(b: Seq<u8>, i: int) -> Option<(SpecialV, int)> {
    match cbor::dec_head(b, i) {
        Some((major, n, j)) => if major != 4 {
            None
        } else if n == 0 {
            Some((SpecialV { kind: None, link: None }, j))
        } else if n == 1 {
            match dec_kind_slot(b, j) {
                Some((k, j1)) => Some((SpecialV { kind: k, link: None }, j1)),
                None => None,
            }
        } else if n == 2 {
            match dec_kind_slot(b, j) {
                Some((k, j1)) => match dec_link_slot(b, j1) {
                    Some((l, j2)) => Some((SpecialV { kind: k, link: l }, j2)),
                    None => None,
                },
                None => None,
            }
        } else {
            None
        },
        None => None,
    }
}

/// Decoding a special file that stands at `i` yields it.
pub proof fn lemma_dec_special(b: Seq<u8>, i: int, v: SpecialV)
    requires
        specialv_wf(v),
        cbor::at(b, i, enc_special(v)),
    ensures
        dec_special(b, i) == Some((v, i + enc_special(v).len())),
{
    reveal(dec_special);
    let h = cbor::enc_array(2);
    let e1 = enc_kind_slot(v.kind);
    let e2 = enc_link_slot(v.link);
    cbor::lemma_at_concat(b, i, h + e1, e2);
    cbor::lemma_at_concat(b, i, h, e1);
    cbor::lemma_dec_head(b, i, 4, 2);
    let p0 = i + h.len();
    let p1 = p0 + e1.len();
    match v.kind {
        Some(kind) => {
            cbor::lemma_dec_head(b, p0, 0, kind.spec_tag());
            let ib = b[p0];
            assert(b[p0] == cbor::head(0, kind.spec_tag())[0]) by {
                assert(b.subrange(p0, p0 + e1.len())[0] == e1[0]);
            }
            assert(forall|ai: u8| ib == ((0u8 << 5) | ai) as u8 && ai < 28 ==> ib != 0xf6)
                by (bit_vector);
            assert(dec_kind_slot(b, p0) == Some((Some(kind), p1)));
        },
        None => {
            cbor::lemma_dec_null(b, p0);
            assert(b[p0] == 0xf6) by {
                assert(b.subrange(p0, p0 + e1.len())[0] == e1[0]);
            }
            assert(dec_kind_slot(b, p0) == Some((None::<SpecialFileKind>, p1)));
        },
    }
    match v.link {
        Some(link) => {
            lemma_dec_link(b, p1, link);
            let e = enc_link(link);
            assert(b[p1] == e[0]) by {
                assert(b.subrange(p1, p1 + e2.len())[0] == e2[0]);
            }
            let ib = b[p1];
            match link {
                LinkV::FullPath(s) => {
                    match s {
                        StrVal::Text(_) => {
                            assert(forall|ai: u8|
                                ib == ((3u8 << 5) | ai) as u8 && ai < 32 ==> ib != 0xf6)
                                by (bit_vector);
                        },
                        StrVal::Binary(_) => {
                            assert(forall|ai: u8|
                                ib == ((2u8 << 5) | ai) as u8 && ai < 32 ==> ib != 0xf6)
                                by (bit_vector);
                        },
                    }
                },
                LinkV::Components(_) => {
                    assert(forall|ai: u8| ib == ((4u8 << 5) | ai) as u8 && ai < 32 ==> ib != 0xf6)
                        by (bit_vector);
                },
            }
            assert(dec_link_slot(b, p1) == Some((Some(link), p1 + e2.len())));
        },
        None => {
            cbor::lemma_dec_null(b, p1);
            assert(b[p1] == 0xf6) by {
                assert(b.subrange(p1, p1 + e2.len())[0] == e2[0]);
            }
            assert(dec_link_slot(b, p1) == Some((None::<LinkV>, p1 + e2.len())));
        },
    }
}

/// Append a special file.
pub fn write_special(out: &mut Vec<u8>, v: &SpecialFile)
    ensures
        final(out)@ == old(out)@ + enc_special(v@),
{
    cbor::write_head(out, 4, 2);
    match &v.kind {
        Some(kind) => cbor::write_head(out, 0, kind.tag()),
        None => cbor::write_null_item(out),
    }
    match &v.link_target {
        Some(l) => write_link(out, l),
        None => cbor::write_null_item(out),
    }
    proof {
        assert(out@ =~= old(out)@ + enc_special(v@));
    }
}

/// Read a special file at `i`.
pub fn read_special(b: &[u8], i: usize) -> (r: Result<(SpecialFile, usize), SimpleError>)
    ensures
        match r {
            Ok((v, j)) => dec_special(b@, i as int) == Some((v@, j as int)) && i < j <= b@.len(),
            Err(e) => dec_special(b@, i as int) is None && e.kind == ErrorKind::Parse,
        },
{
    proof {
        reveal(dec_special);
    }
    let (major, n, j) = match cbor::read_head(b, i) {
        Ok(h) => h,
        Err(e) => { return Err(e) },
    };
    if major != 4 {
        return Err(SimpleError::new(ErrorKind::Parse));
    }
    if n == 0 {
        return Ok((SpecialFile { kind: None, link_target: None }, j));
    }
    if n > 2 {
        return Err(SimpleError::new(ErrorKind::Parse));
    }
    let (kind, j1) = match read_kind_slot(b, j) {
        Ok(x) => x,
        Err(e) => { return Err(e) },
    };
    if n == 1 {
        return Ok((SpecialFile { kind, link_target: None }, j1));
    }
    let (link_target, j2) = match read_link_slot(b, j1) {
        Ok(x) => x,
        Err(e) => { return Err(e) },
    };
    Ok((SpecialFile { kind, link_target }, j2))
}

/// Read a kind slot at `i`.
fn read_kind_slot(b: &[u8], i: usize) -> (r: Result<(Option<SpecialFileKind>, usize), SimpleError>)
    ensures
        match r {
            Ok((v, j)) => dec_kind_slot(b@, i as int) == Some((v, j as int)) && i < j <= b@.len(),
            Err(e) => dec_kind_slot(b@, i as int) is None && e.kind == ErrorKind::Parse,
        },
{
    if i >= b.len() {
        return Err(SimpleError::new(ErrorKind::Parse));
    }
    if b[i] == 0xf6 {
        return Ok((None, i + 1));
    }
    let (m, t, j) = match cbor::read_head(b, i) {
        Ok(h) => h,
        Err(e) => { return Err(e) },
    };
    if m != 0 {
        return Err(SimpleError::new(ErrorKind::Parse));
    }
    Ok((SpecialFileKind::from_tag(t), j))
}

/// Read a link slot at `i`.
fn read_link_slot(b: &[u8], i: usize) -> (r: Result<(Option<LinkTarget>, usize), SimpleError>)
    ensures
        match r {
            Ok((v, j)) => dec_link_slot(b@, i as int) == Some(
                (
                    match v {
                        Some(l) => Some(l@),
                        None => None,
                    },
                    j as int,
                ),
            ) && i < j <= b@.len(),
            Err(e) => dec_link_slot(b@, i as int) is None && e.kind == ErrorKind::Parse,
        },
{
    if i >= b.len() {
        return Err(SimpleError::new(ErrorKind::Parse));
    }
    if b[i] == 0xf6 {
        return Ok((None, i + 1));
    }
    match read_link(b, i) {
        Ok((l, j)) => Ok((Some(l), j)),
        Err(e) => Err(e),
    }
}

} // verus!
