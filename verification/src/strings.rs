//! Strings, pathnames and attribute values as they appear in records.
//!
//! A string field is either UTF-8 text or a raw byte string, so that
//! pathnames from any operating system can be carried without loss. A
//! pathname is an ordered sequence of such components. Attribute values
//! are booleans or strings.

use vstd::prelude::*;

use crate::cbor;
use crate::error::{ErrorKind, SimpleError};

verus! {

/// A text or byte string.
pub enum CborString {
    /// UTF-8 text.
    Text(String),
    /// Raw bytes that are not UTF-8 text.
    Binary(Vec<u8>),
}

/// The mathematical value of a [`CborString`].
#[verifier::ext_equal]
pub enum StrVal {
    /// UTF-8 text, by characters.
    Text(Seq<char>),
    /// Raw bytes.
    Binary(Seq<u8>),
}

impl View for CborString {
    type V = StrVal;

    open spec fn view(&self) -> StrVal {
        match self {
            CborString::Text(s) => StrVal::Text(s@),
            CborString::Binary(b) => StrVal::Binary(b@),
        }
    }
}

/// The byte-string lengths in a string value fit the wire format.
pub open spec fn strval_wf(v: StrVal) -> bool {
    match v {
        StrVal::Text(t) => vstd::utf8::encode_utf8(t).len() <= u64::MAX,
        StrVal::Binary(s) => s.len() <= u64::MAX,
    }
}

/// The encoding of a string value: a text item or a byte string item.
pub open spec fn enc_strval(v: StrVal) -> Seq<u8> {
    match v {
        StrVal::Text(t) => cbor::enc_text(t),
        StrVal::Binary(s) => cbor::enc_bytes(s),
    }
}

/// A string value at `i`: a text or byte string item.
pub open spec fn dec_strval(b: Seq<u8>, i: int) -> Option<(StrVal, int)> {
    if 0 <= i < b.len() {
        let major = (b[i] >> 5) as u8;
        if major == 3 {
            match cbor::dec_text(b, i) {
                Some((t, j)) => Some((StrVal::Text(t), j)),
                None => None,
            }
        } else if major == 2 {
            match cbor::dec_bytes(b, i) {
                Some((s, j)) => Some((StrVal::Binary(s), j)),
                None => None,
            }
        } else {
            None
        }
    } else {
        None
    }
}

/// Decoding a string value that stands at `i` yields it.
pub proof fn lemma_dec_strval(b: Seq<u8>, i: int, v: StrVal)
    requires
        strval_wf(v),
        cbor::at(b, i, enc_strval(v)),
    ensures
        dec_strval(b, i) == Some((v, i + enc_strval(v).len())),
{
    match v {
        StrVal::Text(t) => {
            let s = vstd::utf8::encode_utf8(t);
            let h = cbor::head(3, s.len() as u64);
            cbor::lemma_at_concat(b, i, h, s);
            assert(b[i] == h[0]) by {
                assert(b.subrange(i, i + h.len())[0] == h[0]);
            }
            let ib = b[i];
            assert(forall|ai: u8| ib == ((3u8 << 5) | ai) as u8 && ai < 32 ==> (ib >> 5) == 3)
                by (bit_vector);
            assert((ib >> 5) == 3);
            cbor::lemma_dec_text(b, i, t);
        },
        StrVal::Binary(s) => {
            let h = cbor::head(2, s.len() as u64);
            cbor::lemma_at_concat(b, i, h, s);
            assert(b[i] == h[0]) by {
                assert(b.subrange(i, i + h.len())[0] == h[0]);
            }
            let ib = b[i];
            assert(forall|ai: u8| ib == ((2u8 << 5) | ai) as u8 && ai < 32 ==> (ib >> 5) == 2)
                by (bit_vector);
            assert((ib >> 5) == 2);
            cbor::lemma_dec_bytes(b, i, s);
        },
    }
}

impl CborString {
    /// Text if the bytes are valid UTF-8, raw bytes otherwise.
    pub fn from_maybe_utf8(bytes: Vec<u8>) -> (r: CborString)
        ensures
            vstd::utf8::valid_utf8(bytes@) ==> r@ == StrVal::Text(vstd::utf8::decode_utf8(bytes@)),
            !vstd::utf8::valid_utf8(bytes@) ==> r@ == StrVal::Binary(bytes@),
    {
        match cbor::utf8_to_string(bytes.as_slice()) {
            Some(s) => CborString::Text(s),
            None => CborString::Binary(bytes),
        }
    }

    /// A copy of this string.
    pub fn duplicate(&self) -> (r: CborString)
        ensures
            r@ == self@,
    {
        match self {
            CborString::Text(s) => CborString::Text(s.clone()),
            CborString::Binary(b) => CborString::Binary(b.clone()),
        }
    }
}

/// Append a string value.
pub fn write_cbor_string(out: &mut Vec<u8>, s: &CborString)
    ensures
        final(out)@ == old(out)@ + enc_strval(s@),
{
    match s {
        CborString::Text(t) => cbor::write_text_item(out, t),
        CborString::Binary(v) => cbor::write_bytes_item(out, v.as_slice()),
    }
}

/// Read a string value at `i`.
pub fn read_cbor_string(b: &[u8], i: usize) -> (r: Result<(CborString, usize), SimpleError>)
    ensures
        match r {
            Ok((v, j)) => dec_strval(b@, i as int) == Some((v@, j as int)) && i < j <= b@.len(),
            Err(e) => dec_strval(b@, i as int) is None && e.kind == ErrorKind::Parse,
        },
{
    if i >= b.len() {
        return Err(SimpleError::new(ErrorKind::Parse));
    }
    let major = b[i] >> 5;
    if major == 3 {
        match cbor::read_text_item(b, i) {
            Ok((t, j)) => Ok((CborString::Text(t), j)),
            Err(e) => Err(e),
        }
    } else if major == 2 {
        match cbor::read_bytes_item(b, i) {
            Ok((v, j)) => Ok((CborString::Binary(v), j)),
            Err(e) => Err(e),
        }
    } else {
        Err(SimpleError::new(ErrorKind::Parse))
    }
}

/// A pathname: its components in order.
pub struct Pathname(pub Vec<CborString>);

impl View for Pathname {
    type V = Seq<StrVal>;

    open spec fn view(&self) -> Seq<StrVal> {
        Seq::new(self.0@.len(), |i: int| self.0@[i]@)
    }
}

impl Pathname {
    /// A copy of this pathname.
    pub fn duplicate(&self) -> (r: Pathname)
        ensures
            r@ == self@,
    {
        let mut comps: Vec<CborString> = Vec::new();
        let mut k: usize = 0;
        while k < self.0.len()
            invariant
                k <= self.0@.len(),
                comps@.len() == k,
                forall|m: int| 0 <= m < k ==> comps@[m]@ == self.0@[m]@,
            decreases self.0@.len() - k,
        {
            comps.push(self.0[k].duplicate());
            k = k + 1;
        }
        let r = Pathname(comps);
        proof {
            assert(r@ =~= self@);
        }
        r
    }
}

/// All component lengths in a pathname value fit the wire format.
pub open spec fn pathval_wf(vs: Seq<StrVal>) -> bool {
    vs.len() <= u64::MAX && forall|k: int| 0 <= k < vs.len() ==> strval_wf(#[trigger] vs[k])
}

/// The encodings of a sequence of string values, concatenated.
pub open spec fn enc_strval_seq(vs: Seq<StrVal>) -> Seq<u8>
    decreases vs.len(),
{
    if vs.len() == 0 {
        Seq::empty()
    } else {
        enc_strval(vs[0]) + enc_strval_seq(vs.drop_first())
    }
}

/// The encoding of a pathname: an array of its components.
pub open spec fn enc_pathname(vs: Seq<StrVal>) -> Seq<u8> {
    cbor::enc_array(vs.len() as u64) + enc_strval_seq(vs)
}

/// `n` string values one after another, starting at `i`.
pub open spec fn dec_strvals(b: Seq<u8>, i: int, n: u64) -> Option<(Seq<StrVal>, int)>
    decreases n,
{
    if n == 0 {
        Some((Seq::empty(), i))
    } else {
        match dec_strval(b, i) {
            Some((v, j)) => match dec_strvals(b, j, (n - 1) as u64) {
                Some((rest, end)) => Some((seq![v] + rest, end)),
                None => None,
            },
            None => None,
        }
    }
}

/// A pathname at `i`: an array of string values.
#[verifier::opaque]
pub open spec fn dec_pathname(b: Seq<u8>, i: int) -> Option<(Seq<StrVal>, int)> {
    match cbor::dec_head(b, i) {
        Some((major, n, j)) => if major == 4 {
            dec_strvals(b, j, n)
        } else {
            None
        },
        None => None,
    }
}

/// Decoding string values that stand at `i` yields them.
pub proof fn lemma_dec_strvals(b: Seq<u8>, i: int, vs: Seq<StrVal>)
    requires
        pathval_wf(vs),
        cbor::at(b, i, enc_strval_seq(vs)),
    ensures
        dec_strvals(b, i, vs.len() as u64) == Some((vs, i + enc_strval_seq(vs).len())),
    decreases vs.len(),
{
    if vs.len() == 0 {
        assert(vs =~= Seq::<StrVal>::empty());
    } else {
        cbor::lemma_at_concat(b, i, enc_strval(vs[0]), enc_strval_seq(vs.drop_first()));
        lemma_dec_strval(b, i, vs[0]);
        assert(pathval_wf(vs.drop_first()));
        lemma_dec_strvals(b, i + enc_strval(vs[0]).len(), vs.drop_first());
        assert(seq![vs[0]] + vs.drop_first() =~= vs);
    }
}

/// Decoding a pathname that stands at `i` yields it.
pub proof fn lemma_dec_pathname(b: Seq<u8>, i: int, vs: Seq<StrVal>)
    requires
        pathval_wf(vs),
        cbor::at(b, i, enc_pathname(vs)),
    ensures
        dec_pathname(b, i) == Some((vs, i + enc_pathname(vs).len())),
{
    reveal(dec_pathname);
    cbor::lemma_at_concat(b, i, cbor::enc_array(vs.len() as u64), enc_strval_seq(vs));
    cbor::lemma_dec_head(b, i, 4, vs.len() as u64);
    lemma_dec_strvals(b, i + cbor::enc_array(vs.len() as u64).len(), vs);
}

/// Append a pathname.
pub fn write_pathname(out: &mut Vec<u8>, p: &Pathname)
    ensures
        final(out)@ == old(out)@ + enc_pathname(p@),
{
    cbor::write_head(out, 4, p.0.len() as u64);
    let ghost base = out@;
    let mut k: usize = 0;
    while k < p.0.len()
        invariant
            k <= p.0@.len(),
            out@ == base + enc_strval_seq(p@.take(k as int)),
        decreases p.0@.len() - k,
    {
        let ghost before = out@;
        write_cbor_string(out, &p.0[k]);
        proof {
            lemma_enc_strval_seq_snoc(p@.take(k as int), p@[k as int]);
            assert(p@.take(k + 1) =~= p@.take(k as int).push(p@[k as int]));
        }
        k = k + 1;
    }
    proof {
        assert(p@.take(p.0@.len() as int) =~= p@);
        assert(out@ =~= old(out)@ + enc_pathname(p@));
    }
}

/// Appending one value to a sequence appends its encoding.
pub proof fn lemma_enc_strval_seq_snoc(vs: Seq<StrVal>, v: StrVal)
    ensures
        enc_strval_seq(vs.push(v)) == enc_strval_seq(vs) + enc_strval(v),
    decreases vs.len(),
{
    if vs.len() == 0 {
        let p = vs.push(v);
        assert(p.drop_first() =~= Seq::<StrVal>::empty());
        assert(p[0] == v);
        assert(enc_strval_seq(p) == enc_strval(p[0]) + enc_strval_seq(p.drop_first()));
        assert(enc_strval_seq(Seq::<StrVal>::empty()) == Seq::<u8>::empty());
        assert(enc_strval(v) + Seq::<u8>::empty() =~= enc_strval(v));
        assert(vs =~= Seq::<StrVal>::empty());
        assert(enc_strval_seq(vs) + enc_strval(v) =~= enc_strval(v));
    } else {
        assert(vs.push(v).drop_first() =~= vs.drop_first().push(v));
        lemma_enc_strval_seq_snoc(vs.drop_first(), v);
        assert(enc_strval_seq(vs.push(v)) =~= enc_strval(vs[0]) + (enc_strval_seq(vs.drop_first())
            + enc_strval(v)));
        assert(enc_strval(vs[0]) + (enc_strval_seq(vs.drop_first()) + enc_strval(v)) =~= (enc_strval(
            vs[0],
        ) + enc_strval_seq(vs.drop_first())) + enc_strval(v));
    }
}

/// Read a pathname at `i`.
#[verifier::loop_isolation(false)]
pub fn read_pathname(b: &[u8], i: usize) -> (r: Result<(Pathname, usize), SimpleError>)
    ensures
        match r {
            Ok((v, j)) => dec_pathname(b@, i as int) == Some((v@, j as int)) && i < j <= b@.len(),
            Err(e) => dec_pathname(b@, i as int) is None && e.kind == ErrorKind::Parse,
        },
{
    proof {
        reveal(dec_pathname);
    }
    let (major, n, j0) = match cbor::read_head(b, i) {
        Ok(h) => h,
        Err(e) => { return Err(e) },
    };
    if major != 4 {
        return Err(SimpleError::new(ErrorKind::Parse));
    }
    let mut comps: Vec<CborString> = Vec::new();
    let mut cur: usize = j0;
    let mut left: u64 = n;
    loop
        invariant
            i < cur <= b@.len(),
            left <= n,
            match dec_strvals(b@, cur as int, left) {
                Some((rest, end)) => dec_strvals(b@, j0 as int, n) == Some(
                    (Seq::new(comps@.len(), |m: int| comps@[m]@) + rest, end),
                ),
                None => dec_strvals(b@, j0 as int, n) is None,
            },
        decreases left,
    {
        if left == 0 {
            let p = Pathname(comps);
            proof {
                assert(Seq::new(p.0@.len(), |m: int| p.0@[m]@) + Seq::<StrVal>::empty() =~= p@);
            }
            return Ok((p, cur));
        }
        let (c, j) = match read_cbor_string(b, cur) {
            Ok(x) => x,
            Err(e) => { return Err(e) },
        };
        let ghost prevs = Seq::new(comps@.len(), |m: int| comps@[m]@);
        comps.push(c);
        proof {
            assert(Seq::new(comps@.len(), |m: int| comps@[m]@) =~= prevs.push(c@));
            match dec_strvals(b@, j as int, (left - 1) as u64) {
                Some((rest, end)) => {
                    assert(prevs + (seq![c@] + rest) =~= prevs.push(c@) + rest);
                },
                None => {},
            }
        }
        cur = j;
        left = left - 1;
    }
}

/// An attribute value: a boolean or a string.
pub enum AttributeValue {
    /// A boolean.
    Boolean(bool),
    /// A text or byte string.
    String(CborString),
}

/// The mathematical value of an [`AttributeValue`].
#[verifier::ext_equal]
pub enum AttrVal {
    /// A boolean.
    Boolean(bool),
    /// A text or byte string.
    String(StrVal),
}

impl View for AttributeValue {
    type V = AttrVal;

    open spec fn view(&self) -> AttrVal {
        match self {
            AttributeValue::Boolean(v) => AttrVal::Boolean(*v),
            AttributeValue::String(s) => AttrVal::String(s@),
        }
    }
}

impl AttributeValue {
    /// A copy of this value.
    pub fn duplicate(&self) -> (r: AttributeValue)
        ensures
            r@ == self@,
    {
        match self {
            AttributeValue::Boolean(v) => AttributeValue::Boolean(*v),
            AttributeValue::String(s) => AttributeValue::String(s.duplicate()),
        }
    }
}

/// The string inside an attribute value fits the wire format.
pub open spec fn attrval_wf(v: AttrVal) -> bool {
    match v {
        AttrVal::Boolean(_) => true,
        AttrVal::String(s) => strval_wf(s),
    }
}

/// The encoding of an attribute value.
pub open spec fn enc_attrval(v: AttrVal) -> Seq<u8> {
    match v {
        AttrVal::Boolean(x) => cbor::enc_bool(x),
        AttrVal::String(s) => enc_strval(s),
    }
}

/// An attribute value at `i`.
pub open spec fn dec_attrval(b: Seq<u8>, i: int) -> Option<(AttrVal, int)> {
    if 0 <= i < b.len() {
        if b[i] == 0xf4 {
            Some((AttrVal::Boolean(false), i + 1))
        } else if b[i] == 0xf5 {
            Some((AttrVal::Boolean(true), i + 1))
        } else {
            match dec_strval(b, i) {
                Some((s, j)) => Some((AttrVal::String(s), j)),
                None => None,
            }
        }
    } else {
        None
    }
}

/// Decoding an attribute value that stands at `i` yields it.
pub proof fn lemma_dec_attrval(b: Seq<u8>, i: int, v: AttrVal)
    requires
        attrval_wf(v),
        cbor::at(b, i, enc_attrval(v)),
    ensures
        dec_attrval(b, i) == Some((v, i + enc_attrval(v).len())),
{
    match v {
        AttrVal::Boolean(x) => {
            assert(b[i] == enc_bool_first(x)) by {
                assert(b.subrange(i, i + 1)[0] == cbor::enc_bool(x)[0]);
            }
        },
        AttrVal::String(s) => {
            lemma_dec_strval(b, i, s);
            let e = enc_strval(s);
            assert(b[i] == e[0]) by {
                assert(b.subrange(i, i + e.len())[0] == e[0]);
            }
            let ib = b[i];
            match s {
                StrVal::Text(t) => {
                    let h = cbor::head(3, vstd::utf8::encode_utf8(t).len() as u64);
                    assert(e[0] == h[0]);
                    assert(forall|ai: u8|
                        ib == ((3u8 << 5) | ai) as u8 && ai < 32 ==> ib != 0xf4 && ib != 0xf5)
                        by (bit_vector);
                },
                StrVal::Binary(bb) => {
                    let h = cbor::head(2, bb.len() as u64);
                    assert(e[0] == h[0]);
                    assert(forall|ai: u8|
                        ib == ((2u8 << 5) | ai) as u8 && ai < 32 ==> ib != 0xf4 && ib != 0xf5)
                        by (bit_vector);
                },
            }
        },
    }
}

/// The first byte of an encoded boolean.
pub open spec fn enc_bool_first(x: bool) -> u8 {
    if x {
        0xf5
    } else {
        0xf4
    }
}

/// Append an attribute value.
pub fn write_attrval(out: &mut Vec<u8>, v: &AttributeValue)
    ensures
        final(out)@ == old(out)@ + enc_attrval(v@),
{
    match v {
        AttributeValue::Boolean(x) => cbor::write_bool_item(out, *x),
        AttributeValue::String(s) => write_cbor_string(out, s),
    }
}

/// Read an attribute value at `i`.
pub fn read_attrval(b: &[u8], i: usize) -> (r: Result<(AttributeValue, usize), SimpleError>)
    ensures
        match r {
            Ok((v, j)) => dec_attrval(b@, i as int) == Some((v@, j as int)) && i < j <= b@.len(),
            Err(e) => dec_attrval(b@, i as int) is None && e.kind == ErrorKind::Parse,
        },
{
    if i >= b.len() {
        return Err(SimpleError::new(ErrorKind::Parse));
    }
    if b[i] == 0xf4 {
        Ok((AttributeValue::Boolean(false), i + 1))
    } else if b[i] == 0xf5 {
        Ok((AttributeValue::Boolean(true), i + 1))
    } else {
        match read_cbor_string(b, i) {
            Ok((s, j)) => Ok((AttributeValue::String(s), j)),
            Err(e) => Err(e),
        }
    }
}

/// A set of named attributes, in insertion order.
pub struct AttrMap(pub Vec<(String, AttributeValue)>);

impl View for AttrMap {
    type V = Seq<(Seq<char>, AttrVal)>;

    open spec fn view(&self) -> Seq<(Seq<char>, AttrVal)> {
        Seq::new(self.0@.len(), |i: int| (self.0@[i].0@, self.0@[i].1@))
    }
}

impl AttrMap {
    /// An empty attribute set.
    pub fn new() -> (r: AttrMap)
        ensures
            r@ =~= Seq::<(Seq<char>, AttrVal)>::empty(),
    {
        AttrMap(Vec::new())
    }

    /// Add an entry at the end.
    pub fn insert(&mut self, key: String, value: AttributeValue)
        ensures
            final(self)@ == old(self)@.push((key@, value@)),
    {
        let ghost prev = self@;
        self.0.push((key, value));
        proof {
            assert(self@ =~= prev.push((self.0@[prev.len() as int].0@, self.0@[prev.len()
                as int].1@)));
        }
    }

    /// A copy of this attribute set.
    pub fn duplicate(&self) -> (r: AttrMap)
        ensures
            r@ == self@,
    {
        let mut entries: Vec<(String, AttributeValue)> = Vec::new();
        let mut k: usize = 0;
        while k < self.0.len()
            invariant
                k <= self.0@.len(),
                entries@.len() == k,
                forall|m: int| 0 <= m < k ==> entries@[m].0@ == self.0@[m].0@ && entries@[m].1@
                    == self.0@[m].1@,
            decreases self.0@.len() - k,
        {
            let key = self.0[k].0.clone();
            let value = self.0[k].1.duplicate();
            entries.push((key, value));
            k = k + 1;
        }
        let r = AttrMap(entries);
        proof {
            assert(r@ =~= self@);
        }
        r
    }
}

/// All keys and values in an attribute map value fit the wire format.
pub open spec fn attrmap_wf(vs: Seq<(Seq<char>, AttrVal)>) -> bool {
    vs.len() <= u64::MAX && forall|k: int| 0 <= k < vs.len() ==> vstd::utf8::encode_utf8(
        (#[trigger] vs[k]).0,
    ).len() <= u64::MAX && attrval_wf(vs[k].1)
}

/// The encodings of attribute entries, concatenated.
pub open spec fn enc_attr_entries(vs: Seq<(Seq<char>, AttrVal)>) -> Seq<u8>
    decreases vs.len(),
{
    if vs.len() == 0 {
        Seq::empty()
    } else {
        cbor::enc_text(vs[0].0) + enc_attrval(vs[0].1) + enc_attr_entries(vs.drop_first())
    }
}

/// The encoding of an attribute map: a map of text keys to values.
pub open spec fn enc_attrmap(vs: Seq<(Seq<char>, AttrVal)>) -> Seq<u8> {
    cbor::enc_map(vs.len() as u64) + enc_attr_entries(vs)
}

/// `n` attribute entries one after another, starting at `i`.
pub open spec fn dec_attr_entries(b: Seq<u8>, i: int, n: u64) -> Option<
    (Seq<(Seq<char>, AttrVal)>, int),
>
    decreases n,
{
    if n == 0 {
        Some((Seq::empty(), i))
    } else {
        match cbor::dec_text(b, i) {
            Some((key, j)) => match dec_attrval(b, j) {
                Some((v, j2)) => match dec_attr_entries(b, j2, (n - 1) as u64) {
                    Some((rest, end)) => Some((seq![(key, v)] + rest, end)),
                    None => None,
                },
                None => None,
            },
            None => None,
        }
    }
}

/// An attribute map at `i`.
#[verifier::opaque]
pub open spec fn dec_attrmap(b: Seq<u8>, i: int) -> Option<(Seq<(Seq<char>, AttrVal)>, int)> {
    match cbor::dec_head(b, i) {
        Some((major, n, j)) => if major == 5 {
            dec_attr_entries(b, j, n)
        } else {
            None
        },
        None => None,
    }
}

/// Decoding attribute entries that stand at `i` yields them.
pub proof fn lemma_dec_attr_entries(b: Seq<u8>, i: int, vs: Seq<(Seq<char>, AttrVal)>)
    requires
        attrmap_wf(vs),
        cbor::at(b, i, enc_attr_entries(vs)),
    ensures
        dec_attr_entries(b, i, vs.len() as u64) == Some((vs, i + enc_attr_entries(vs).len())),
    decreases vs.len(),
{
    if vs.len() == 0 {
        assert(vs =~= Seq::<(Seq<char>, AttrVal)>::empty());
    } else {
        let ek = cbor::enc_text(vs[0].0);
        let ev = enc_attrval(vs[0].1);
        let rest = enc_attr_entries(vs.drop_first());
        assert(enc_attr_entries(vs) =~= ek + (ev + rest));
        cbor::lemma_at_concat(b, i, ek, ev + rest);
        cbor::lemma_at_concat(b, i + ek.len(), ev, rest);
        cbor::lemma_dec_text(b, i, vs[0].0);
        lemma_dec_attrval(b, i + ek.len(), vs[0].1);
        assert(attrmap_wf(vs.drop_first()));
        lemma_dec_attr_entries(b, i + ek.len() + ev.len(), vs.drop_first());
        assert(seq![(vs[0].0, vs[0].1)] + vs.drop_first() =~= vs);
    }
}

/// Decoding an attribute map that stands at `i` yields it.
pub proof fn lemma_dec_attrmap(b: Seq<u8>, i: int, vs: Seq<(Seq<char>, AttrVal)>)
    requires
        attrmap_wf(vs),
        cbor::at(b, i, enc_attrmap(vs)),
    ensures
        dec_attrmap(b, i) == Some((vs, i + enc_attrmap(vs).len())),
{
    reveal(dec_attrmap);
    cbor::lemma_at_concat(b, i, cbor::enc_map(vs.len() as u64), enc_attr_entries(vs));
    cbor::lemma_dec_head(b, i, 5, vs.len() as u64);
    lemma_dec_attr_entries(b, i + cbor::enc_map(vs.len() as u64).len(), vs);
}

/// Append an attribute map.
pub fn write_attrmap(out: &mut Vec<u8>, m: &AttrMap)
    ensures
        final(out)@ == old(out)@ + enc_attrmap(m@),
{
    cbor::write_head(out, 5, m.0.len() as u64);
    let ghost base = out@;
    let mut k: usize = 0;
    while k < m.0.len()
        invariant
            k <= m.0@.len(),
            out@ == base + enc_attr_entries(m@.take(k as int)),
        decreases m.0@.len() - k,
    {
        cbor::write_text_item(out, &m.0[k].0);
        write_attrval(out, &m.0[k].1);
        proof {
            lemma_enc_attr_entries_snoc(m@.take(k as int), m@[k as int]);
            assert(m@.take(k + 1) =~= m@.take(k as int).push(m@[k as int]));
            assert(out@ =~= base + enc_attr_entries(m@.take(k + 1)));
        }
        k = k + 1;
    }
    proof {
        assert(m@.take(m.0@.len() as int) =~= m@);
        assert(out@ =~= old(out)@ + enc_attrmap(m@));
    }
}

/// Appending one entry to a sequence appends its encoding.
pub proof fn lemma_enc_attr_entries_snoc(vs: Seq<(Seq<char>, AttrVal)>, v: (Seq<char>, AttrVal))
    ensures
        enc_attr_entries(vs.push(v)) == enc_attr_entries(vs) + (cbor::enc_text(v.0) + enc_attrval(
            v.1,
        )),
    decreases vs.len(),
{
    if vs.len() == 0 {
        let p = vs.push(v);
        assert(p.drop_first() =~= Seq::<(Seq<char>, AttrVal)>::empty());
        assert(p[0] == v);
        assert(enc_attr_entries(p) == cbor::enc_text(p[0].0) + enc_attrval(p[0].1)
            + enc_attr_entries(p.drop_first()));
        assert(enc_attr_entries(Seq::<(Seq<char>, AttrVal)>::empty()) == Seq::<u8>::empty());
        assert(vs =~= Seq::<(Seq<char>, AttrVal)>::empty());
        assert(enc_attr_entries(p) =~= enc_attr_entries(vs) + (cbor::enc_text(v.0) + enc_attrval(
            v.1,
        )));
    } else {
        assert(vs.push(v).drop_first() =~= vs.drop_first().push(v));
        lemma_enc_attr_entries_snoc(vs.drop_first(), v);
        assert(enc_attr_entries(vs.push(v)) =~= enc_attr_entries(vs) + (cbor::enc_text(v.0)
            + enc_attrval(v.1)));
    }
}

/// Read an attribute map at `i`.
#[verifier::loop_isolation(false)]
pub fn read_attrmap(b: &[u8], i: usize) -> (r: Result<(AttrMap, usize), SimpleError>)
    ensures
        match r {
            Ok((v, j)) => dec_attrmap(b@, i as int) == Some((v@, j as int)) && i < j <= b@.len(),
            Err(e) => dec_attrmap(b@, i as int) is None && e.kind == ErrorKind::Parse,
        },
{
    proof {
        reveal(dec_attrmap);
    }
    let (major, n, j0) = match cbor::read_head(b, i) {
        Ok(h) => h,
        Err(e) => { return Err(e) },
    };
    if major != 5 {
        return Err(SimpleError::new(ErrorKind::Parse));
    }
    let mut entries: Vec<(String, AttributeValue)> = Vec::new();
    let mut cur: usize = j0;
    let mut left: u64 = n;
    loop
        invariant
            i < cur <= b@.len(),
            left <= n,
            match dec_attr_entries(b@, cur as int, left) {
                Some((rest, end)) => dec_attr_entries(b@, j0 as int, n) == Some(
                    (Seq::new(entries@.len(), |m: int| (entries@[m].0@, entries@[m].1@)) + rest,
                    end),
                ),
                None => dec_attr_entries(b@, j0 as int, n) is None,
            },
        decreases left,
    {
        if left == 0 {
            let r = AttrMap(entries);
            proof {
                assert(Seq::new(r.0@.len(), |m: int| (r.0@[m].0@, r.0@[m].1@)) + Seq::<(
                    Seq<char>,
                    AttrVal,
                )>::empty() =~= r@);
            }
            return Ok((r, cur));
        }
        let (key, j) = match cbor::read_text_item(b, cur) {
            Ok(x) => x,
            Err(e) => { return Err(e) },
        };
        let (value, j2) = match read_attrval(b, j) {
            Ok(x) => x,
            Err(e) => { return Err(e) },
        };
        let ghost prevs = Seq::new(entries@.len(), |m: int| (entries@[m].0@, entries@[m].1@));
        entries.push((key, value));
        proof {
            assert(Seq::new(entries@.len(), |m: int| (entries@[m].0@, entries@[m].1@)) =~= prevs.push(
                (key@, value@),
            ));
            match dec_attr_entries(b@, j2 as int, (left - 1) as u64) {
                Some((rest, end)) => {
                    assert(prevs + (seq![(key@, value@)] + rest) =~= prevs.push((key@, value@))
                        + rest);
                },
                None => {},
            }
        }
        cur = j2;
        left = left - 1;
    }
}

} // verus!
