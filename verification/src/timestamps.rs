//! Timestamps on file records.
//!
//! A timestamp is carried as RFC 3339 text, written under CBOR tag 0.
//! Decoders also accept tag 1 with an integer epoch value, which is
//! rendered to text on the way in. Rendering and parsing of the text are
//! chrono's work, behind trusted wrappers; everything else is verified
//! byte handling.

use vstd::prelude::*;

use crate::cbor;
use crate::error::{ErrorKind, SimpleError};

verus! {

/// What chrono renders for an epoch value: `None` where the value is out
/// of chrono's range, else the RFC 3339 text.
pub uninterp spec fn epoch_text(secs: i64, nanos: u32) -> Option<Seq<char>>;

/// What chrono parses from RFC 3339 text: `None` where the text is not a
/// valid RFC 3339 date-time, else the epoch value.
pub uninterp spec fn rfc3339_value(s: Seq<char>) -> Option<(i64, u32)>;

/// Relies on chrono's `DateTime::from_timestamp` and `to_rfc3339`: the
/// rendered text is a function of the epoch value alone. Nothing is
/// claimed about parsing it back: chrono renders years outside 0-9999
/// in forms its own RFC 3339 parser refuses, so [`Timestamp::from_epoch`]
/// re-parses the text itself.
#[verifier::external_body]
fn rfc3339_format(secs: i64, nanos: u32) -> (r: Option<String>)
    ensures
        match (r, epoch_text(secs, nanos)) {
            (Some(s), Some(t)) => s@ == t,
            (None, None) => true,
            _ => false,
        },
{
    chrono::DateTime::from_timestamp(secs, nanos).map(|dt| dt.to_rfc3339())
}

/// Relies on chrono's `DateTime::parse_from_rfc3339`: a deterministic
/// function of the text.
#[verifier::external_body]
fn rfc3339_parse(s: &str) -> (r: Option<(i64, u32)>)
    ensures
        r == rfc3339_value(s@),
{
    chrono::DateTime::parse_from_rfc3339(s).ok().map(
        |dt| (dt.timestamp(), dt.timestamp_subsec_nanos()),
    )
}

/// A point in time, held as RFC 3339 text.
pub struct Timestamp {
    /// The RFC 3339 rendering.
    pub rfc3339: String,
}

impl View for Timestamp {
    type V = Seq<char>;

    open spec fn view(&self) -> Seq<char> {
        self.rfc3339@
    }
}

/// The text is a valid RFC 3339 date-time.
pub open spec fn ts_wf(t: Seq<char>) -> bool {
    rfc3339_value(t) is Some && vstd::utf8::encode_utf8(t).len() <= u64::MAX
}

impl Timestamp {
    /// Take the text as a timestamp, if it parses as RFC 3339.
    pub fn from_rfc3339(s: String) -> (r: Option<Timestamp>)
        ensures
            match r {
                Some(t) => t@ == s@ && ts_wf(s@),
                None => rfc3339_value(s@) is None,
            },
    {
        match rfc3339_parse(s.as_str()) {
            Some(_) => {
                // the text is in memory, so its UTF-8 length fits the wire format
                let bytes = cbor::string_utf8_bytes(&s);
                let _ = bytes.len();
                Some(Timestamp { rfc3339: s })
            },
            None => None,
        }
    }

    /// Render an epoch value as a timestamp, if chrono can represent it
    /// and parse its own rendering back: far-future years render in a
    /// form the RFC 3339 parser refuses, and are declined here.
    pub fn from_epoch(secs: i64, nanos: u32) -> (r: Option<Timestamp>)
        ensures
            match r {
                Some(t) => epoch_text(secs, nanos) == Some(t@) && ts_wf(t@),
                None => match epoch_text(secs, nanos) {
                    Some(t) => rfc3339_value(t) is None,
                    None => true,
                },
            },
    {
        match rfc3339_format(secs, nanos) {
            Some(s) => {
                match rfc3339_parse(s.as_str()) {
                    Some(_) => {
                        // the text is in memory, so its UTF-8 length fits the wire format
                        let bytes = cbor::string_utf8_bytes(&s);
                        let _ = bytes.len();
                        Some(Timestamp { rfc3339: s })
                    },
                    None => None,
                }
            },
            None => None,
        }
    }

    /// The epoch value of this timestamp.
    pub fn to_epoch(&self) -> (r: (i64, u32))
        requires
            ts_wf(self@),
        ensures
            rfc3339_value(self@) == Some(r),
    {
        match rfc3339_parse(self.rfc3339.as_str()) {
            Some(v) => v,
            None => {
                proof {
                    assert(false);
                }
                (0, 0)
            },
        }
    }

    /// A copy of this timestamp.
    pub fn duplicate(&self) -> (r: Timestamp)
        ensures
            r@ == self@,
    {
        Timestamp { rfc3339: self.rfc3339.clone() }
    }
}

/// The encoding of a timestamp: tag 0 on RFC 3339 text.
pub open spec fn enc_timestamp(t: Seq<char>) -> Seq<u8> {
    cbor::enc_tag(0) + cbor::enc_text(t)
}

/// A timestamp at `i`: tag 0 on text, or tag 1 on an integer epoch.
#[verifier::opaque]
pub open spec fn dec_timestamp(b: Seq<u8>, i: int) -> Option<(Seq<char>, int)> {
    match cbor::dec_head(b, i) {
        Some((major, tag, j)) => if major != 6 {
            None
        } else if tag == 0 {
            match cbor::dec_text(b, j) {
                Some((t, j2)) => if rfc3339_value(t) is Some {
                    Some((t, j2))
                } else {
                    None
                },
                None => None,
            }
        } else if tag == 1 {
            match cbor::dec_head(b, j) {
                Some((m2, n, j2)) => if m2 == 0 {
                    if n <= i64::MAX as u64 {
                        match epoch_text(n as i64, 0) {
                            Some(t) => if rfc3339_value(t) is Some {
                                Some((t, j2))
                            } else {
                                None
                            },
                            None => None,
                        }
                    } else {
                        None
                    }
                } else if m2 == 1 {
                    if n <= i64::MAX as u64 {
                        match epoch_text((-1 - (n as int)) as i64, 0) {
                            Some(t) => if rfc3339_value(t) is Some {
                                Some((t, j2))
                            } else {
                                None
                            },
                            None => None,
                        }
                    } else {
                        None
                    }
                } else {
                    None
                },
                None => None,
            }
        } else {
            None
        },
        None => None,
    }
}

/// Decoding a timestamp that stands at `i` yields its text.
pub proof fn lemma_dec_timestamp(b: Seq<u8>, i: int, t: Seq<char>)
    requires
        ts_wf(t),
        cbor::at(b, i, enc_timestamp(t)),
    ensures
        dec_timestamp(b, i) == Some((t, i + enc_timestamp(t).len())),
{
    reveal(dec_timestamp);
    cbor::lemma_at_concat(b, i, cbor::enc_tag(0), cbor::enc_text(t));
    cbor::lemma_dec_head(b, i, 6, 0);
    cbor::lemma_dec_text(b, i + cbor::enc_tag(0).len(), t);
}

/// Append a timestamp.
pub fn write_timestamp(out: &mut Vec<u8>, t: &Timestamp)
    ensures
        final(out)@ == old(out)@ + enc_timestamp(t@),
{
    cbor::write_head(out, 6, 0);
    cbor::write_text_item(out, &t.rfc3339);
    proof {
        assert(out@ =~= old(out)@ + enc_timestamp(t@));
    }
}

/// Read a timestamp at `i`.
pub fn read_timestamp(b: &[u8], i: usize) -> (r: Result<(Timestamp, usize), SimpleError>)
    ensures
        match r {
            Ok((t, j)) => dec_timestamp(b@, i as int) == Some((t@, j as int)) && i < j <= b@.len()
                && ts_wf(t@),
            Err(e) => dec_timestamp(b@, i as int) is None && e.kind == ErrorKind::Parse,
        },
{
    proof {
        reveal(dec_timestamp);
    }
    let (major, tag, j) = match cbor::read_head(b, i) {
        Ok(h) => h,
        Err(e) => { return Err(e) },
    };
    if major != 6 {
        return Err(SimpleError::new(ErrorKind::Parse));
    }
    if tag == 0 {
        let (s, j2) = match cbor::read_text_item(b, j) {
            Ok(x) => x,
            Err(e) => { return Err(e) },
        };
        match Timestamp::from_rfc3339(s) {
            Some(t) => Ok((t, j2)),
            None => Err(SimpleError::new(ErrorKind::Parse)),
        }
    } else if tag == 1 {
        // integer epochs only: the float forms stay outside the verified
        // library, and are refused as a parse error
        let (m2, n, j2) = match cbor::read_head(b, j) {
            Ok(h) => h,
            Err(e) => { return Err(e) },
        };
        if m2 == 0 {
            if n <= i64::MAX as u64 {
                match Timestamp::from_epoch(n as i64, 0) {
                    Some(t) => Ok((t, j2)),
                    None => Err(SimpleError::new(ErrorKind::Parse)),
                }
            } else {
                Err(SimpleError::new(ErrorKind::Parse))
            }
        } else if m2 == 1 {
            if n <= i64::MAX as u64 {
                let secs: i64 = -1 - (n as i64);
                match Timestamp::from_epoch(secs, 0) {
                    Some(t) => Ok((t, j2)),
                    None => Err(SimpleError::new(ErrorKind::Parse)),
                }
            } else {
                Err(SimpleError::new(ErrorKind::Parse))
            }
        } else {
            Err(SimpleError::new(ErrorKind::Parse))
        }
    } else {
        Err(SimpleError::new(ErrorKind::Parse))
    }
}

/// The timestamps of a file record.
pub struct Timestamps {
    /// Creation (birth) time.
    pub created: Option<Timestamp>,
    /// Modification time.
    pub modified: Option<Timestamp>,
    /// Access time.
    pub accessed: Option<Timestamp>,
}

/// The mathematical value of a [`Timestamps`].
#[verifier::ext_equal]
pub struct TimesV {
    /// Creation (birth) time.
    pub created: Option<Seq<char>>,
    /// Modification time.
    pub modified: Option<Seq<char>>,
    /// Access time.
    pub accessed: Option<Seq<char>>,
}

impl View for Timestamps {
    type V = TimesV;

    open spec fn view(&self) -> TimesV {
        TimesV {
            created: match &self.created {
                Some(t) => Some(t@),
                None => None,
            },
            modified: match &self.modified {
                Some(t) => Some(t@),
                None => None,
            },
            accessed: match &self.accessed {
                Some(t) => Some(t@),
                None => None,
            },
        }
    }
}

impl Timestamps {
    /// No timestamps at all.
    pub fn none() -> (r: Timestamps)
        ensures
            r@ == (TimesV { created: None, modified: None, accessed: None }),
    {
        Timestamps { created: None, modified: None, accessed: None }
    }

    /// A copy of these timestamps.
    pub fn duplicate(&self) -> (r: Timestamps)
        ensures
            r@ == self@,
    {
        Timestamps {
            created: match &self.created {
                Some(t) => Some(t.duplicate()),
                None => None,
            },
            modified: match &self.modified {
                Some(t) => Some(t.duplicate()),
                None => None,
            },
            accessed: match &self.accessed {
                Some(t) => Some(t.duplicate()),
                None => None,
            },
        }
    }
}

/// Every present timestamp is valid text of wire-format length.
pub open spec fn timesv_wf(v: TimesV) -> bool {
    &&& match v.created {
        Some(t) => ts_wf(t),
        None => true,
    }
    &&& match v.modified {
        Some(t) => ts_wf(t),
        None => true,
    }
    &&& match v.accessed {
        Some(t) => ts_wf(t),
        None => true,
    }
}

/// How many fields are present.
pub open spec fn times_count(v: TimesV) -> u64 {
    (match v.created {
        Some(_) => 1u64,
        None => 0u64,
    } + match v.modified {
        Some(_) => 1u64,
        None => 0u64,
    } + match v.accessed {
        Some(_) => 1u64,
        None => 0u64,
    }) as u64
}

/// One optional timestamp pair under its key.
pub open spec fn enc_times_field(key: u64, f: Option<Seq<char>>) -> Seq<u8> {
    match f {
        Some(t) => cbor::enc_uint(key) + enc_timestamp(t),
        None => Seq::empty(),
    }
}

/// The encoding of a timestamps record: a map of present fields.
pub open spec fn enc_timestamps(v: TimesV) -> Seq<u8> {
    cbor::enc_map(times_count(v)) + enc_times_field(1, v.created) + enc_times_field(2, v.modified)
        + enc_times_field(3, v.accessed)
}

/// `n` timestamp map pairs starting at `i`, folded into `acc`.
pub open spec fn dec_times_pairs(b: Seq<u8>, i: int, n: u64, acc: TimesV) -> Option<(TimesV, int)>
    decreases n,
{
    if n == 0 {
        Some((acc, i))
    } else {
        match cbor::dec_head(b, i) {
            Some((m, k, j)) => if m != 0 {
                None
            } else if k == 1 {
                match dec_timestamp(b, j) {
                    Some((t, j2)) => dec_times_pairs(
                        b,
                        j2,
                        (n - 1) as u64,
                        TimesV { created: Some(t), ..acc },
                    ),
                    None => None,
                }
            } else if k == 2 {
                match dec_timestamp(b, j) {
                    Some((t, j2)) => dec_times_pairs(
                        b,
                        j2,
                        (n - 1) as u64,
                        TimesV { modified: Some(t), ..acc },
                    ),
                    None => None,
                }
            } else if k == 3 {
                match dec_timestamp(b, j) {
                    Some((t, j2)) => dec_times_pairs(
                        b,
                        j2,
                        (n - 1) as u64,
                        TimesV { accessed: Some(t), ..acc },
                    ),
                    None => None,
                }
            } else {
                match cbor::skip_item(b, j, (b.len() - j) as nat) {
                    Some(j2) => if j < j2 {
                        dec_times_pairs(b, j2, (n - 1) as u64, acc)
                    } else {
                        None
                    },
                    None => None,
                }
            },
            None => None,
        }
    }
}

/// A timestamps record at `i`.
#[verifier::opaque]
pub open spec fn dec_timestamps(b: Seq<u8>, i: int) -> Option<(TimesV, int)> {
    match cbor::dec_head(b, i) {
        Some((major, n, j)) => if major == 5 {
            dec_times_pairs(b, j, n, TimesV { created: None, modified: None, accessed: None })
        } else {
            None
        },
        None => None,
    }
}

/// One present timestamp pair steps the fold forward.
proof fn lemma_dec_times_step(b: Seq<u8>, p: int, n: u64, acc: TimesV, key: u64, t: Seq<char>)
    requires
        n >= 1,
        1 <= key <= 3,
        ts_wf(t),
        cbor::at(b, p, cbor::enc_uint(key) + enc_timestamp(t)),
    ensures
        dec_times_pairs(b, p, n, acc) == dec_times_pairs(
            b,
            p + cbor::enc_uint(key).len() + enc_timestamp(t).len(),
            (n - 1) as u64,
            if key == 1 {
                TimesV { created: Some(t), ..acc }
            } else if key == 2 {
                TimesV { modified: Some(t), ..acc }
            } else {
                TimesV { accessed: Some(t), ..acc }
            },
        ),
{
    cbor::lemma_at_concat(b, p, cbor::enc_uint(key), enc_timestamp(t));
    cbor::lemma_dec_head(b, p, 0, key);
    lemma_dec_timestamp(b, p + cbor::enc_uint(key).len(), t);
}

/// Decoding the field pairs of a timestamps record yields the record.
proof fn lemma_dec_times_fields(b: Seq<u8>, p0: int, v: TimesV)
    requires
        timesv_wf(v),
        cbor::at(b, p0, enc_times_field(1, v.created)),
        cbor::at(b, p0 + enc_times_field(1, v.created).len(), enc_times_field(2, v.modified)),
        cbor::at(
            b,
            p0 + enc_times_field(1, v.created).len() + enc_times_field(2, v.modified).len(),
            enc_times_field(3, v.accessed),
        ),
    ensures
        dec_times_pairs(
            b,
            p0,
            times_count(v),
            TimesV { created: None, modified: None, accessed: None },
        ) == Some(
            (
                v,
                p0 + enc_times_field(1, v.created).len() + enc_times_field(2, v.modified).len()
                    + enc_times_field(3, v.accessed).len(),
            ),
        ),
{
    let n = times_count(v);
    let e1 = enc_times_field(1, v.created);
    let e2 = enc_times_field(2, v.modified);
    let e3 = enc_times_field(3, v.accessed);
    let p1 = p0 + e1.len();
    let p2 = p1 + e2.len();
    let acc0 = TimesV { created: None, modified: None, accessed: None };
    let acc1 = TimesV { created: v.created, ..acc0 };
    let acc2 = TimesV { modified: v.modified, ..acc1 };
    let acc3 = TimesV { accessed: v.accessed, ..acc2 };
    let n1: u64 = match v.created {
        Some(_) => (n - 1) as u64,
        None => n,
    };
    let n2: u64 = match v.modified {
        Some(_) => (n1 - 1) as u64,
        None => n1,
    };
    if v.created is Some {
        lemma_dec_times_step(b, p0, n, acc0, 1, v.created->Some_0);
    } else {
        assert(acc1 == acc0);
    }
    assert(dec_times_pairs(b, p0, n, acc0) == dec_times_pairs(b, p1, n1, acc1));
    if v.modified is Some {
        lemma_dec_times_step(b, p1, n1, acc1, 2, v.modified->Some_0);
    } else {
        assert(acc2 == acc1);
    }
    assert(dec_times_pairs(b, p1, n1, acc1) == dec_times_pairs(b, p2, n2, acc2));
    if v.accessed is Some {
        lemma_dec_times_step(b, p2, n2, acc2, 3, v.accessed->Some_0);
    } else {
        assert(acc3 == acc2);
    }
    assert(dec_times_pairs(b, p2, n2, acc2) == dec_times_pairs(b, p2 + e3.len(), 0, acc3));
    assert(acc3 == v);
}

/// Decoding a timestamps record that stands at `i` yields it.
pub proof fn lemma_dec_timestamps(b: Seq<u8>, i: int, v: TimesV)
    requires
        timesv_wf(v),
        cbor::at(b, i, enc_timestamps(v)),
    ensures
        dec_timestamps(b, i) == Some((v, i + enc_timestamps(v).len())),
{
    reveal(dec_timestamps);
    let n = times_count(v);
    let e1 = enc_times_field(1, v.created);
    let e2 = enc_times_field(2, v.modified);
    let e3 = enc_times_field(3, v.accessed);
    let h = cbor::enc_map(n);
    cbor::lemma_at_concat(b, i, (h + e1) + e2, e3);
    cbor::lemma_at_concat(b, i, h + e1, e2);
    cbor::lemma_at_concat(b, i, h, e1);
    cbor::lemma_dec_head(b, i, 5, n);
    lemma_dec_times_fields(b, i + h.len(), v);
}

/// Append a timestamps record.
pub fn write_timestamps(out: &mut Vec<u8>, v: &Timestamps)
    ensures
        final(out)@ == old(out)@ + enc_timestamps(v@),
{
    let mut count: u64 = 0;
    if v.created.is_some() {
        count = count + 1;
    }
    if v.modified.is_some() {
        count = count + 1;
    }
    if v.accessed.is_some() {
        count = count + 1;
    }
    cbor::write_head(out, 5, count);
    proof {
        assert(count == times_count(v@));
        assert(out@ =~= old(out)@ + cbor::enc_map(times_count(v@)));
    }
    let ghost base1 = out@;
    match &v.created {
        Some(t) => {
            cbor::write_head(out, 0, 1);
            write_timestamp(out, t);
        },
        None => {},
    }
    proof {
        assert(out@ =~= base1 + enc_times_field(1, v@.created));
    }
    let ghost base2 = out@;
    match &v.modified {
        Some(t) => {
            cbor::write_head(out, 0, 2);
            write_timestamp(out, t);
        },
        None => {},
    }
    proof {
        assert(out@ =~= base2 + enc_times_field(2, v@.modified));
    }
    let ghost base3 = out@;
    match &v.accessed {
        Some(t) => {
            cbor::write_head(out, 0, 3);
            write_timestamp(out, t);
        },
        None => {},
    }
    proof {
        assert(out@ =~= base3 + enc_times_field(3, v@.accessed));
        assert(out@ =~= old(out)@ + enc_timestamps(v@));
    }
}

/// Read a timestamps record at `i`.
#[verifier::loop_isolation(false)]
pub fn read_timestamps(b: &[u8], i: usize) -> (r: Result<(Timestamps, usize), SimpleError>)
    ensures
        match r {
            Ok((v, j)) => dec_timestamps(b@, i as int) == Some((v@, j as int)) && i < j <= b@.len(),
            Err(e) => dec_timestamps(b@, i as int) is None && e.kind == ErrorKind::Parse,
        },
{
    proof {
        reveal(dec_timestamps);
    }
    let (major, n, j0) = match cbor::read_head(b, i) {
        Ok(h) => h,
        Err(e) => { return Err(e) },
    };
    if major != 5 {
        return Err(SimpleError::new(ErrorKind::Parse));
    }
    let mut acc = Timestamps::none();
    let mut cur: usize = j0;
    let mut left: u64 = n;
    loop
        invariant
            i < cur <= b@.len(),
            left <= n,
            match dec_times_pairs(b@, cur as int, left, acc@) {
                Some(res) => dec_times_pairs(
                    b@,
                    j0 as int,
                    n,
                    TimesV { created: None, modified: None, accessed: None },
                ) == Some(res),
                None => dec_times_pairs(
                    b@,
                    j0 as int,
                    n,
                    TimesV { created: None, modified: None, accessed: None },
                ) is None,
            },
        decreases left,
    {
        if left == 0 {
            return Ok((acc, cur));
        }
        let (m, k, j) = match cbor::read_head(b, cur) {
            Ok(h) => h,
            Err(e) => { return Err(e) },
        };
        if m != 0 {
            return Err(SimpleError::new(ErrorKind::Parse));
        }
        if k == 1 {
            let (t, j2) = match read_timestamp(b, j) {
                Ok(x) => x,
                Err(e) => { return Err(e) },
            };
            acc = Timestamps { created: Some(t), ..acc };
            cur = j2;
        } else if k == 2 {
            let (t, j2) = match read_timestamp(b, j) {
                Ok(x) => x,
                Err(e) => { return Err(e) },
            };
            acc = Timestamps { modified: Some(t), ..acc };
            cur = j2;
        } else if k == 3 {
            let (t, j2) = match read_timestamp(b, j) {
                Ok(x) => x,
                Err(e) => { return Err(e) },
            };
            acc = Timestamps { accessed: Some(t), ..acc };
            cur = j2;
        } else {
            let j2 = match cbor::skip_item_at(b, j, b.len() - j) {
                Ok(x) => x,
                Err(e) => { return Err(e) },
            };
            cur = j2;
        }
        left = left - 1;
    }
}

} // verus!
