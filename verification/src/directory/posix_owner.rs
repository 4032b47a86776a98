//! POSIX owner information: a numeric id, a name, or both.

use vstd::prelude::*;

use crate::cbor;
use crate::error::{ErrorKind, SimpleError};

verus! {

/// A POSIX user or group.
pub struct PosixOwner {
    /// Owner numeric id.
    pub id: Option<u64>,
    /// Owner name.
    pub name: Option<String>,
}

/// The mathematical value of a [`PosixOwner`].
#[verifier::ext_equal]
pub struct OwnerV {
    /// Owner numeric id.
    pub id: Option<u64>,
    /// Owner name.
    pub name: Option<Seq<char>>,
}

impl View for PosixOwner {
    type V = OwnerV;

    open spec fn view(&self) -> OwnerV {
        OwnerV {
            id: self.id,
            name: match &self.name {
                Some(n) => Some(n@),
                None => None,
            },
        }
    }
}

impl PosixOwner {
    /// An owner with neither id nor name.
    pub fn empty() -> (r: PosixOwner)
        ensures
            r@ == (OwnerV { id: None, name: None }),
    {
        PosixOwner { id: None, name: None }
    }

    /// A copy of this owner.
    pub fn duplicate(&self) -> (r: PosixOwner)
        ensures
            r@ == self@,
    {
        PosixOwner {
            id: self.id,
            name: match &self.name {
                Some(n) => Some(n.clone()),
                None => None,
            },
        }
    }
}

/// The name in an owner value fits the wire format.
pub open spec fn ownerv_wf(v: OwnerV) -> bool {
    match v.name {
        Some(n) => vstd::utf8::encode_utf8(n).len() <= u64::MAX,
        None => true,
    }
}

/// How many of id and name are present.
pub open spec fn owner_count(v: OwnerV) -> u64 {
    (match v.id {
        Some(_) => 1u64,
        None => 0u64,
    } + match v.name {
        Some(_) => 1u64,
        None => 0u64,
    }) as u64
}

/// The encoding of an owner: an array of up to two items, the id first.
pub open spec fn enc_owner(v: OwnerV) -> Seq<u8> {
    cbor::enc_array(owner_count(v)) + (match v.id {
        Some(id) => cbor::enc_uint(id),
        None => Seq::empty(),
    }) + (match v.name {
        Some(n) => cbor::enc_text(n),
        None => Seq::empty(),
    })
}

/// `n` owner array items starting at `i`, folded into `acc`: unsigned
/// integers set the id, text strings set the name.
pub open spec fn dec_owner_items(b: Seq<u8>, i: int, n: u64, acc: OwnerV) -> Option<(OwnerV, int)>
    decreases n,
{
    if n == 0 {
        Some((acc, i))
    } else if 0 <= i < b.len() {
        let major = (b[i] >> 5) as u8;
        if major == 0 {
            match cbor::dec_head(b, i) {
                Some((_, v, j)) => dec_owner_items(b, j, (n - 1) as u64, OwnerV { id: Some(v), ..acc }),
                None => None,
            }
        } else if major == 3 {
            match cbor::dec_text(b, i) {
                Some((t, j)) => dec_owner_items(b, j, (n - 1) as u64, OwnerV { name: Some(t), ..acc }),
                None => None,
            }
        } else {
            None
        }
    } else {
        None
    }
}

/// An owner at `i`: an array of id and name items.
#[verifier::opaque]
pub open spec fn dec_owner(b: Seq<u8>, i: int) -> Option<(OwnerV, int)> {
    match cbor::dec_head(b, i) {
        Some((major, n, j)) => if major == 4 {
            dec_owner_items(b, j, n, OwnerV { id: None, name: None })
        } else {
            None
        },
        None => None,
    }
}

/// Decoding an owner that stands at `i` yields it.
pub proof fn lemma_dec_owner(b: Seq<u8>, i: int, v: OwnerV)
    requires
        ownerv_wf(v),
        cbor::at(b, i, enc_owner(v)),
    ensures
        dec_owner(b, i) == Some((v, i + enc_owner(v).len())),
{
    reveal(dec_owner);
    let n = owner_count(v);
    let h = cbor::enc_array(n);
    let e1 = match v.id {
        Some(id) => cbor::enc_uint(id),
        None => Seq::<u8>::empty(),
    };
    let e2 = match v.name {
        Some(t) => cbor::enc_text(t),
        None => Seq::<u8>::empty(),
    };
    cbor::lemma_at_concat(b, i, h + e1, e2);
    cbor::lemma_at_concat(b, i, h, e1);
    cbor::lemma_dec_head(b, i, 4, n);
    let p0 = i + h.len();
    let p1 = p0 + e1.len();
    let acc0 = OwnerV { id: None, name: None };
    let acc1 = OwnerV { id: v.id, ..acc0 };
    let acc2 = OwnerV { name: v.name, ..acc1 };
    let n1: u64 = match v.id {
        Some(_) => (n - 1) as u64,
        None => n,
    };
    if v.id is Some {
        let id = v.id->Some_0;
        cbor::lemma_dec_head(b, p0, 0, id);
        let ib = b[p0];
        assert(b[p0] == cbor::head(0, id)[0]) by {
            assert(b.subrange(p0, p0 + e1.len())[0] == e1[0]);
        }
        assert(forall|ai: u8| ib == ((0u8 << 5) | ai) as u8 && ai < 32 ==> (ib >> 5) == 0)
            by (bit_vector);
    } else {
        assert(acc1 == acc0);
    }
    assert(dec_owner_items(b, p0, n, acc0) == dec_owner_items(b, p1, n1, acc1));
    if v.name is Some {
        let t = v.name->Some_0;
        cbor::lemma_dec_text(b, p1, t);
        let ib = b[p1];
        assert(b[p1] == cbor::head(3, vstd::utf8::encode_utf8(t).len() as u64)[0]) by {
            assert(b.subrange(p1, p1 + e2.len())[0] == e2[0]);
        }
        assert(forall|ai: u8| ib == ((3u8 << 5) | ai) as u8 && ai < 32 ==> (ib >> 5) == 3)
            by (bit_vector);
    } else {
        assert(acc2 == acc1);
    }
    assert(dec_owner_items(b, p1, n1, acc1) == dec_owner_items(b, p1 + e2.len(), 0, acc2));
    assert(acc2 == v);
}

/// Append an owner.
pub fn write_owner(out: &mut Vec<u8>, v: &PosixOwner)
    ensures
        final(out)@ == old(out)@ + enc_owner(v@),
{
    let mut count: u64 = 0;
    if v.id.is_some() {
        count = count + 1;
    }
    if v.name.is_some() {
        count = count + 1;
    }
    cbor::write_head(out, 4, count);
    match &v.id {
        Some(id) => cbor::write_head(out, 0, *id),
        None => {},
    }
    match &v.name {
        Some(n) => cbor::write_text_item(out, n),
        None => {},
    }
    proof {
        assert(out@ =~= old(out)@ + enc_owner(v@));
    }
}

/// Read an owner at `i`.
#[verifier::loop_isolation(false)]
pub fn read_owner(b: &[u8], i: usize) -> (r: Result<(PosixOwner, usize), SimpleError>)
    ensures
        match r {
            Ok((v, j)) => dec_owner(b@, i as int) == Some((v@, j as int)) && i < j <= b@.len(),
            Err(e) => dec_owner(b@, i as int) is None && e.kind == ErrorKind::Parse,
        },
{
    proof {
        reveal(dec_owner);
    }
    let (major, n, j0) = match cbor::read_head(b, i) {
        Ok(h) => h,
        Err(e) => { return Err(e) },
    };
    if major != 4 {
        return Err(SimpleError::new(ErrorKind::Parse));
    }
    let mut acc = PosixOwner::empty();
    let mut cur: usize = j0;
    let mut left: u64 = n;
    loop
        invariant
            i < cur <= b@.len(),
            left <= n,
            match dec_owner_items(b@, cur as int, left, acc@) {
                Some(res) => dec_owner_items(b@, j0 as int, n, OwnerV { id: None, name: None })
                    == Some(res),
                None => dec_owner_items(b@, j0 as int, n, OwnerV { id: None, name: None }) is None,
            },
        decreases left,
    {
        if left == 0 {
            return Ok((acc, cur));
        }
        if cur >= b.len() {
            return Err(SimpleError::new(ErrorKind::Parse));
        }
        let major2 = b[cur] >> 5;
        if major2 == 0 {
            let (_, v, j) = match cbor::read_head(b, cur) {
                Ok(h) => h,
                Err(e) => { return Err(e) },
            };
            acc = PosixOwner { id: Some(v), ..acc };
            cur = j;
        } else if major2 == 3 {
            let (t, j) = match cbor::read_text_item(b, cur) {
                Ok(x) => x,
                Err(e) => { return Err(e) },
            };
            acc = PosixOwner { name: Some(t), ..acc };
            cur = j;
        } else {
            return Err(SimpleError::new(ErrorKind::Parse));
        }
        left = left - 1;
    }
}

} // verus!
