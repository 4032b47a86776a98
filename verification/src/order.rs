//! The order of pathnames: text before raw bytes, then byte-wise
//! lexicographic, component by component. The encoder emits file records
//! in this order.

use vstd::prelude::*;

use crate::cbor::string_utf8_bytes;
use crate::strings::{CborString, Pathname, StrVal};

verus! {

/// Three-way lexicographic comparison of byte sequences.
pub open spec fn bytes_cmp(a: Seq<u8>, b: Seq<u8>) -> int
    decreases a.len() + b.len(),
{
    if a.len() == 0 && b.len() == 0 {
        0
    } else if a.len() == 0 {
        -1
    } else if b.len() == 0 {
        1
    } else if a[0] < b[0] {
        -1
    } else if a[0] > b[0] {
        1
    } else {
        bytes_cmp(a.drop_first(), b.drop_first())
    }
}

/// The comparison is zero exactly on equal sequences.
pub proof fn lemma_bytes_cmp_eq(a: Seq<u8>, b: Seq<u8>)
    ensures
        (bytes_cmp(a, b) == 0) <==> (a == b),
    decreases a.len() + b.len(),
{
    if a.len() == 0 && b.len() == 0 {
        assert(a =~= b);
    } else if a.len() == 0 || b.len() == 0 {
    } else {
        lemma_bytes_cmp_eq(a.drop_first(), b.drop_first());
        if bytes_cmp(a, b) == 0 {
            assert(a =~= seq![a[0]] + a.drop_first());
            assert(b =~= seq![b[0]] + b.drop_first());
        }
        if a == b {
            assert(a.drop_first() =~= b.drop_first());
        }
    }
}

/// Swapping the arguments negates the comparison.
pub proof fn lemma_bytes_cmp_antisym(a: Seq<u8>, b: Seq<u8>)
    ensures
        bytes_cmp(a, b) == -bytes_cmp(b, a),
    decreases a.len() + b.len(),
{
    if a.len() > 0 && b.len() > 0 {
        lemma_bytes_cmp_antisym(a.drop_first(), b.drop_first());
    }
}

/// The comparison is transitive.
pub proof fn lemma_bytes_cmp_trans(a: Seq<u8>, b: Seq<u8>, c: Seq<u8>)
    requires
        bytes_cmp(a, b) <= 0,
        bytes_cmp(b, c) <= 0,
    ensures
        bytes_cmp(a, c) <= 0,
        bytes_cmp(a, b) < 0 || bytes_cmp(b, c) < 0 ==> bytes_cmp(a, c) < 0,
    decreases a.len() + b.len() + c.len(),
{
    if a.len() == 0 {
        if c.len() == 0 {
            assert(b.len() == 0);
        }
    } else {
        assert(b.len() > 0);
        assert(c.len() > 0);
        if a[0] == b[0] && b[0] == c[0] {
            lemma_bytes_cmp_trans(a.drop_first(), b.drop_first(), c.drop_first());
        }
    }
}

/// The bytes a string value sorts by.
pub open spec fn strval_bytes(v: StrVal) -> Seq<u8> {
    match v {
        StrVal::Text(t) => vstd::utf8::encode_utf8(t),
        StrVal::Binary(b) => b,
    }
}

/// The rank of a string value: text sorts before raw bytes.
pub open spec fn strval_rank(v: StrVal) -> int {
    match v {
        StrVal::Text(_) => 0,
        StrVal::Binary(_) => 1,
    }
}

/// Three-way comparison of string values.
pub open spec fn strval_cmp(a: StrVal, b: StrVal) -> int {
    if strval_rank(a) < strval_rank(b) {
        -1
    } else if strval_rank(a) > strval_rank(b) {
        1
    } else {
        bytes_cmp(strval_bytes(a), strval_bytes(b))
    }
}

/// The comparison is zero exactly on equal values.
pub proof fn lemma_strval_cmp_eq(a: StrVal, b: StrVal)
    ensures
        (strval_cmp(a, b) == 0) <==> (a == b),
{
    lemma_bytes_cmp_eq(strval_bytes(a), strval_bytes(b));
    if strval_cmp(a, b) == 0 {
        match (a, b) {
            (StrVal::Text(t1), StrVal::Text(t2)) => {
                vstd::utf8::encode_utf8_decode_utf8(t1);
                vstd::utf8::encode_utf8_decode_utf8(t2);
            },
            _ => {},
        }
    }
}

/// Swapping the arguments negates the comparison.
pub proof fn lemma_strval_cmp_antisym(a: StrVal, b: StrVal)
    ensures
        strval_cmp(a, b) == -strval_cmp(b, a),
{
    lemma_bytes_cmp_antisym(strval_bytes(a), strval_bytes(b));
}

/// The comparison is transitive.
pub proof fn lemma_strval_cmp_trans(a: StrVal, b: StrVal, c: StrVal)
    requires
        strval_cmp(a, b) <= 0,
        strval_cmp(b, c) <= 0,
    ensures
        strval_cmp(a, c) <= 0,
        strval_cmp(a, b) < 0 || strval_cmp(b, c) < 0 ==> strval_cmp(a, c) < 0,
{
    if strval_rank(a) == strval_rank(b) && strval_rank(b) == strval_rank(c) {
        lemma_bytes_cmp_trans(strval_bytes(a), strval_bytes(b), strval_bytes(c));
    }
}

/// Three-way comparison of pathnames, component by component.
pub open spec fn path_cmp(a: Seq<StrVal>, b: Seq<StrVal>) -> int
    decreases a.len() + b.len(),
{
    if a.len() == 0 && b.len() == 0 {
        0
    } else if a.len() == 0 {
        -1
    } else if b.len() == 0 {
        1
    } else {
        let c = strval_cmp(a[0], b[0]);
        if c != 0 {
            c
        } else {
            path_cmp(a.drop_first(), b.drop_first())
        }
    }
}

/// The comparison is zero exactly on equal pathnames.
pub proof fn lemma_path_cmp_eq(a: Seq<StrVal>, b: Seq<StrVal>)
    ensures
        (path_cmp(a, b) == 0) <==> (a == b),
    decreases a.len() + b.len(),
{
    if a.len() == 0 && b.len() == 0 {
        assert(a =~= b);
    } else if a.len() == 0 || b.len() == 0 {
    } else {
        lemma_strval_cmp_eq(a[0], b[0]);
        lemma_path_cmp_eq(a.drop_first(), b.drop_first());
        if path_cmp(a, b) == 0 {
            assert(a =~= seq![a[0]] + a.drop_first());
            assert(b =~= seq![b[0]] + b.drop_first());
        }
        if a == b {
            assert(a.drop_first() =~= b.drop_first());
        }
    }
}

/// Swapping the arguments negates the comparison.
pub proof fn lemma_path_cmp_antisym(a: Seq<StrVal>, b: Seq<StrVal>)
    ensures
        path_cmp(a, b) == -path_cmp(b, a),
    decreases a.len() + b.len(),
{
    if a.len() > 0 && b.len() > 0 {
        lemma_strval_cmp_antisym(a[0], b[0]);
        lemma_strval_cmp_eq(a[0], b[0]);
        lemma_path_cmp_antisym(a.drop_first(), b.drop_first());
    }
}

/// The comparison is transitive.
pub proof fn lemma_path_cmp_trans(a: Seq<StrVal>, b: Seq<StrVal>, c: Seq<StrVal>)
    requires
        path_cmp(a, b) <= 0,
        path_cmp(b, c) <= 0,
    ensures
        path_cmp(a, c) <= 0,
        path_cmp(a, b) < 0 || path_cmp(b, c) < 0 ==> path_cmp(a, c) < 0,
    decreases a.len() + b.len() + c.len(),
{
    if a.len() == 0 {
        if c.len() == 0 {
            assert(b.len() == 0);
        }
    } else {
        assert(b.len() > 0);
        assert(c.len() > 0);
        lemma_strval_cmp_eq(a[0], b[0]);
        lemma_strval_cmp_eq(b[0], c[0]);
        lemma_strval_cmp_antisym(a[0], b[0]);
        lemma_strval_cmp_antisym(b[0], c[0]);
        lemma_strval_cmp_trans(a[0], b[0], c[0]);
        if strval_cmp(a[0], b[0]) == 0 && strval_cmp(b[0], c[0]) == 0 {
            lemma_path_cmp_trans(a.drop_first(), b.drop_first(), c.drop_first());
        }
    }
}

/// Compare two byte slices.
#[verifier::loop_isolation(false)]
pub fn cmp_byte_slices(a: &[u8], b: &[u8]) -> (r: i8)
    ensures
        r as int == bytes_cmp(a@, b@),
        -1 <= r <= 1,
{
    let mut k: usize = 0;
    proof {
        assert(a@.skip(0) =~= a@);
        assert(b@.skip(0) =~= b@);
    }
    loop
        invariant
            k <= a@.len(),
            k <= b@.len(),
            bytes_cmp(a@, b@) == bytes_cmp(a@.skip(k as int), b@.skip(k as int)),
        decreases a@.len() - k,
    {
        if k >= a.len() && k >= b.len() {
            return 0;
        }
        if k >= a.len() {
            return -1;
        }
        if k >= b.len() {
            return 1;
        }
        if a[k] < b[k] {
            return -1;
        }
        if a[k] > b[k] {
            return 1;
        }
        proof {
            assert(a@.skip(k as int).drop_first() =~= a@.skip(k + 1));
            assert(b@.skip(k as int).drop_first() =~= b@.skip(k + 1));
        }
        k = k + 1;
    }
}

/// Compare two string components.
pub fn cmp_cbor_string(a: &CborString, b: &CborString) -> (r: i8)
    ensures
        r as int == strval_cmp(a@, b@),
        -1 <= r <= 1,
{
    let ra: u8 = match a {
        CborString::Text(_) => 0,
        CborString::Binary(_) => 1,
    };
    let rb: u8 = match b {
        CborString::Text(_) => 0,
        CborString::Binary(_) => 1,
    };
    if ra < rb {
        return -1;
    }
    if ra > rb {
        return 1;
    }
    match (a, b) {
        (CborString::Text(t1), CborString::Text(t2)) => {
            let b1 = string_utf8_bytes(t1);
            let b2 = string_utf8_bytes(t2);
            cmp_byte_slices(b1.as_slice(), b2.as_slice())
        },
        (CborString::Binary(v1), CborString::Binary(v2)) => {
            cmp_byte_slices(v1.as_slice(), v2.as_slice())
        },
        _ => {
            proof {
                assert(false);
            }
            0
        },
    }
}

/// Compare two pathnames.
#[verifier::loop_isolation(false)]
pub fn cmp_pathname(a: &Pathname, b: &Pathname) -> (r: i8)
    ensures
        r as int == path_cmp(a@, b@),
        -1 <= r <= 1,
{
    let mut k: usize = 0;
    proof {
        assert(a@.skip(0) =~= a@);
        assert(b@.skip(0) =~= b@);
    }
    loop
        invariant
            k <= a@.len(),
            k <= b@.len(),
            path_cmp(a@, b@) == path_cmp(a@.skip(k as int), b@.skip(k as int)),
        decreases a@.len() - k,
    {
        if k >= a.0.len() && k >= b.0.len() {
            return 0;
        }
        if k >= a.0.len() {
            return -1;
        }
        if k >= b.0.len() {
            return 1;
        }
        let c = cmp_cbor_string(&a.0[k], &b.0[k]);
        if c != 0 {
            return c;
        }
        proof {
            assert(a@.skip(k as int).drop_first() =~= a@.skip(k + 1));
            assert(b@.skip(k as int).drop_first() =~= b@.skip(k + 1));
            assert(a@.skip(k as int)[0] == a@[k as int]);
            assert(b@.skip(k as int)[0] == b@[k as int]);
        }
        k = k + 1;
    }
}

} // verus!
