//! The HEADER: a fixed 58-byte ASCII record that gives the version and the
//! offsets of the TEXT, DATA and ANALYSIS segments.
use vstd::prelude::*;

use crate::config::{HeaderConfig, OffsetCorrection};
use crate::error::{Failure, PureErrorBuf, PureErrorLevel, PureSuccess};
use crate::segment::{adjust_error, Segment, SegmentId};
use crate::textbuf::{push_str, string_from_chars};

verus! {

/// The length of the HEADER in bytes.
pub const HEADER_LEN: usize = 58;

/// The revisions of the standard, in the order of their release.
#[derive(Clone, Copy, Debug, PartialEq, Eq, Structural, PartialOrd, Ord, Hash)]
pub enum Version {
    FCS2_0,
    FCS3_0,
    FCS3_1,
    FCS3_2,
}

/// A version token that names no known version.
#[derive(Clone, Copy, Debug, PartialEq, Eq, Structural)]
pub struct VersionError;

/// The HEADER: the version and three valid segments.
#[derive(Clone, Copy, Debug)]
pub struct Header {
    pub version: Version,
    pub text: Segment,
    pub data: Segment,
    pub analysis: Segment,
}

/// The ASCII bytes of a version token.
pub open spec fn version_bytes(v: Version) -> Seq<u8> {
    match v {
        Version::FCS2_0 => seq![70u8, 67, 83, 50, 46, 48],
        Version::FCS3_0 => seq![70u8, 67, 83, 51, 46, 48],
        Version::FCS3_1 => seq![70u8, 67, 83, 51, 46, 49],
        Version::FCS3_2 => seq![70u8, 67, 83, 51, 46, 50],
    }
}

/// The text of a version token.
pub open spec fn version_text(v: Version) -> Seq<char> {
    version_bytes(v).map_values(|b: u8| b as char)
}

/// The position of a version in the order of release.
pub open spec fn version_rank(v: Version) -> nat {
    match v {
        Version::FCS2_0 => 0,
        Version::FCS3_0 => 1,
        Version::FCS3_1 => 2,
        Version::FCS3_2 => 3,
    }
}

/// The version a token names, if any.
pub open spec fn version_of_bytes(b: Seq<u8>) -> Option<Version> {
    if b == version_bytes(Version::FCS2_0) {
        Some(Version::FCS2_0)
    } else if b == version_bytes(Version::FCS3_0) {
        Some(Version::FCS3_0)
    } else if b == version_bytes(Version::FCS3_1) {
        Some(Version::FCS3_1)
    } else if b == version_bytes(Version::FCS3_2) {
        Some(Version::FCS3_2)
    } else {
        None
    }
}

pub open spec fn is_ascii_digit(b: u8) -> bool {
    48 <= b <= 57
}

/// Space, tab, newline, vertical tab, form feed or carriage return.
pub open spec fn is_blank(b: u8) -> bool {
    b == 32 || (9 <= b <= 13)
}

/// The number that a run of ASCII digits stands for.
pub open spec fn bytes_value(s: Seq<u8>) -> nat
    decreases s.len(),
{
    if s.len() == 0 {
        0
    } else {
        10 * bytes_value(s.drop_last()) + (s.last() - 48) as nat
    }
}

/// How many spaces a field starts with.
pub open spec fn leading_spaces(s: Seq<u8>) -> nat
    decreases s.len(),
{
    if s.len() > 0 && s[0] == 32 {
        1 + leading_spaces(s.drop_first())
    } else {
        0
    }
}

/// The value of an offset field: spaces, then digits to its end; or, where
/// blanks are allowed, a field of blanks only, which counts as 0.
pub open spec fn offset_value(f: Seq<u8>, allow_blank: bool) -> Option<nat> {
    let k = leading_spaces(f) as int;
    let rest = f.subrange(k, f.len() as int);
    if allow_blank && (forall|i: int| 0 <= i < f.len() ==> is_blank(#[trigger] f[i])) {
        Some(0)
    } else if rest.len() > 0 && (forall|i: int| 0 <= i < rest.len() ==> is_ascii_digit(#[trigger] rest[i])) {
        Some(bytes_value(rest))
    } else {
        None
    }
}

/// The value of an offset field where it fits in 32 bits.
pub open spec fn offset_u32(f: Seq<u8>, allow_blank: bool) -> Option<u32> {
    match offset_value(f, allow_blank) {
        Some(v) => if v <= u32::MAX {
            Some(v as u32)
        } else {
            None
        },
        None => None,
    }
}

/// The segment that two offset fields and their corrections give, if valid.
pub open spec fn bounds_spec(f0: Seq<u8>, f1: Seq<u8>, allow_blank: bool, c: OffsetCorrection) -> Option<
    (nat, nat),
> {
    match (offset_u32(f0, allow_blank), offset_u32(f1, allow_blank)) {
        (Some(b), Some(e)) => if adjust_error(b, e, c.begin, c.end) is None {
            Some(((b + c.begin) as nat, (e + c.end) as nat))
        } else {
            None
        },
        _ => None,
    }
}

/// The `i`-th 8-byte offset field of the HEADER.
pub open spec fn header_field(xs: Seq<u8>, i: int) -> Seq<u8> {
    xs.subrange(10 + 8 * i, 18 + 8 * i)
}

/// The 58 bytes with four spaces after the version token.
pub open spec fn header_layout(xs: Seq<u8>) -> bool {
    xs.len() == 58 && xs[6] == 32 && xs[7] == 32 && xs[8] == 32 && xs[9] == 32
}

/// The version a HEADER is read as.
pub open spec fn header_version(xs: Seq<u8>, conf: HeaderConfig) -> Option<Version> {
    match conf.version_override {
        Some(v) => Some(v),
        None => version_of_bytes(xs.subrange(0, 6)),
    }
}

/// The three segments a HEADER gives, with their corrections.
pub open spec fn header_segments(xs: Seq<u8>, conf: HeaderConfig) -> (
    Option<(nat, nat)>,
    Option<(nat, nat)>,
    Option<(nat, nat)>,
) {
    (
        bounds_spec(header_field(xs, 0), header_field(xs, 1), false, conf.text),
        bounds_spec(header_field(xs, 2), header_field(xs, 3), false, conf.data),
        bounds_spec(header_field(xs, 4), header_field(xs, 5), true, conf.analysis),
    )
}

/// Whether a HEADER can be read: TEXT is never unset, and DATA is unset
/// only from 3.0 on, where TEXT gives its offsets.
pub open spec fn header_ok(xs: Seq<u8>, conf: HeaderConfig) -> bool {
    &&& header_layout(xs)
    &&& header_version(xs, conf) is Some
    &&& header_segments(xs, conf).0 is Some
    &&& header_segments(xs, conf).1 is Some
    &&& header_segments(xs, conf).2 is Some
    &&& header_segments(xs, conf).0 != Some((0nat, 0nat))
    &&& (header_version(xs, conf) == Some(Version::FCS2_0) ==> header_segments(xs, conf).1 != Some(
        (0nat, 0nat),
    ))
}

impl Version {
    /// Reads a version token.
    pub fn from_str(s: &str) -> (r: Result<Version, VersionError>)
        ensures
            match r {
                Ok(v) => s@ == version_text(v),
                Err(_) => forall|v: Version| s@ != version_text(v),
            },
    {
        let cs = crate::textbuf::chars_of(s);
        let b = cs.len() == 6 && cs[0] == 'F' && cs[1] == 'C' && cs[2] == 'S' && cs[4] == '.';
        proof {
            reveal_strlit("FCS2.0");
        }
        if b && cs[3] == '2' && cs[5] == '0' {
            assert(s@ =~= version_text(Version::FCS2_0));
            Ok(Version::FCS2_0)
        } else if b && cs[3] == '3' && cs[5] == '0' {
            assert(s@ =~= version_text(Version::FCS3_0));
            Ok(Version::FCS3_0)
        } else if b && cs[3] == '3' && cs[5] == '1' {
            assert(s@ =~= version_text(Version::FCS3_1));
            Ok(Version::FCS3_1)
        } else if b && cs[3] == '3' && cs[5] == '2' {
            assert(s@ =~= version_text(Version::FCS3_2));
            Ok(Version::FCS3_2)
        } else {
            assert forall|v: Version| s@ != version_text(v) by {
                if s@ == version_text(v) {
                    assert(s@[0] == version_text(v)[0]);
                    assert(s@[1] == version_text(v)[1]);
                    assert(s@[2] == version_text(v)[2]);
                    assert(s@[3] == version_text(v)[3]);
                    assert(s@[4] == version_text(v)[4]);
                    assert(s@[5] == version_text(v)[5]);
                }
            }
            Err(VersionError)
        }
    }

    /// The version token, as in the HEADER.
    pub fn to_string(&self) -> (r: String)
        ensures
            r@ == version_text(*self),
    {
        let mut out: Vec<char> = Vec::new();
        out.push('F');
        out.push('C');
        out.push('S');
        match self {
            Version::FCS2_0 => out.push('2'),
            _ => out.push('3'),
        }
        out.push('.');
        match self {
            Version::FCS3_1 => out.push('1'),
            Version::FCS3_2 => out.push('2'),
            _ => out.push('0'),
        }
        assert(out@ =~= version_text(*self));
        string_from_chars(&out)
    }

    /// Whether `self` was released before `other`.
    pub fn is_before(&self, other: &Version) -> (r: bool)
        ensures
            r == (version_rank(*self) < version_rank(*other)),
    {
        self.rank() < other.rank()
    }

    fn rank(&self) -> (r: u8)
        ensures
            r == version_rank(*self),
    {
        match self {
            Version::FCS2_0 => 0,
            Version::FCS3_0 => 1,
            Version::FCS3_1 => 2,
            Version::FCS3_2 => 3,
        }
    }
}

/// Round trip of version tokens: writing a version and reading it back
/// gives the same version.
pub proof fn lemma_version_round_trip(v: Version)
    ensures
        forall|w: Version| version_text(w) == version_text(v) ==> w == v,
{
    assert forall|w: Version| version_text(w) == version_text(v) implies w == v by {
        if w != v {
            assert(version_text(w)[3] != version_text(v)[3] || version_text(w)[5] != version_text(
                v,
            )[5]);
        }
    }
}

fn version_from_bytes(b: &[u8]) -> (r: Option<Version>)
    requires
        b@.len() == 6,
    ensures
        r == version_of_bytes(b@),
{
    let p = b[0] == 70 && b[1] == 67 && b[2] == 83 && b[4] == 46;
    if p && b[3] == 50 && b[5] == 48 {
        assert(b@ =~= version_bytes(Version::FCS2_0));
        Some(Version::FCS2_0)
    } else if p && b[3] == 51 && b[5] == 48 {
        assert(b@ =~= version_bytes(Version::FCS3_0));
        Some(Version::FCS3_0)
    } else if p && b[3] == 51 && b[5] == 49 {
        assert(b@ =~= version_bytes(Version::FCS3_1));
        Some(Version::FCS3_1)
    } else if p && b[3] == 51 && b[5] == 50 {
        assert(b@ =~= version_bytes(Version::FCS3_2));
        Some(Version::FCS3_2)
    } else {
        assert(version_bytes(Version::FCS2_0)[3] == 50);
        assert(version_bytes(Version::FCS3_0)[5] == 48);
        assert(version_bytes(Version::FCS3_1)[5] == 49);
        assert(version_bytes(Version::FCS3_2)[5] == 50);
        None
    }
}

proof fn lemma_leading_spaces(s: Seq<u8>, k: int)
    requires
        0 <= k <= s.len(),
        forall|i: int| 0 <= i < k ==> s[i] == 32,
        k == s.len() || s[k] != 32,
    ensures
        leading_spaces(s) == k,
    decreases k,
{
    if k > 0 {
        lemma_leading_spaces(s.drop_first(), k - 1);
    }
}

/// Reads one offset field of the HEADER.
pub fn parse_header_offset(f: &[u8], allow_blank: bool) -> (r: Option<u32>)
    ensures
        r == offset_u32(f@, allow_blank),
{
    let n = f.len();
    if allow_blank {
        let mut i: usize = 0;
        let mut blank = true;
        while i < n
            invariant
                n == f@.len(),
                i <= n,
                blank == (forall|j: int| 0 <= j < i ==> is_blank(#[trigger] f@[j])),
            decreases n - i,
        {
            if !(f[i] == 32 || (9 <= f[i] && f[i] <= 13)) {
                blank = false;
            }
            i = i + 1;
        }
        if blank {
            return Some(0);
        }
    }
    assert(!(allow_blank && (forall|j: int| 0 <= j < f@.len() ==> is_blank(#[trigger] f@[j]))));
    let mut k: usize = 0;
    while k < n && f[k] == 32
        invariant
            n == f@.len(),
            k <= n,
            forall|i: int| 0 <= i < k ==> f@[i] == 32,
        decreases n - k,
    {
        k = k + 1;
    }
    proof {
        lemma_leading_spaces(f@, k as int);
    }
    if k == n {
        return None;
    }
    let ghost rest = f@.subrange(k as int, n as int);
    let mut acc: u64 = 0;
    let mut i: usize = k;
    while i < n
        invariant
            n == f@.len(),
            k < n,
            k <= i <= n,
            rest == f@.subrange(k as int, n as int),
            leading_spaces(f@) == k,
            !(allow_blank && (forall|j: int| 0 <= j < f@.len() ==> is_blank(#[trigger] f@[j]))),
            forall|j: int| k <= j < i ==> is_ascii_digit(#[trigger] f@[j]),
            acc as nat == bytes_value(f@.subrange(k as int, i as int)),
            acc <= u32::MAX,
        decreases n - i,
    {
        let b = f[i];
        if !(48 <= b && b <= 57) {
            assert(rest[i - k] == b);
            assert(!is_ascii_digit(rest[i - k]));
            return None;
        }
        assert(f@.subrange(k as int, i + 1).drop_last() =~= f@.subrange(k as int, i as int));
        let next: u64 = acc * 10 + (b - 48) as u64;
        if next > u32::MAX as u64 {
            proof {
                assert(bytes_value(f@.subrange(k as int, i + 1)) == next);
                if forall|j: int| 0 <= j < rest.len() ==> is_ascii_digit(#[trigger] rest[j]) {
                    lemma_bytes_value_monotone(rest, i + 1 - k);
                    assert(rest.subrange(0, i + 1 - k) =~= f@.subrange(k as int, i + 1));
                }
            }
            return None;
        }
        acc = next;
        i = i + 1;
    }
    assert(f@.subrange(k as int, n as int) =~= rest);
    assert forall|j: int| 0 <= j < rest.len() implies is_ascii_digit(#[trigger] rest[j]) by {
        assert(rest[j] == f@[k + j]);
    }
    Some(acc as u32)
}

/// A run of digits is worth at least any of its prefixes.
proof fn lemma_bytes_value_monotone(s: Seq<u8>, m: int)
    requires
        0 <= m <= s.len(),
        forall|i: int| 0 <= i < s.len() ==> is_ascii_digit(#[trigger] s[i]),
    ensures
        bytes_value(s) >= bytes_value(s.subrange(0, m)),
    decreases s.len() - m,
{
    if m < s.len() {
        lemma_bytes_value_monotone(s, m + 1);
        assert(s.subrange(0, m + 1).drop_last() =~= s.subrange(0, m));
    } else {
        assert(s.subrange(0, m) =~= s);
    }
}

fn field_message(which: &str, id: SegmentId) -> String {
    let mut out: Vec<char> = Vec::new();
    push_str(&mut out, "could not parse ");
    push_str(&mut out, which);
    push_str(&mut out, " offset for ");
    push_str(&mut out, id.name());
    push_str(&mut out, " segment");
    string_from_chars(&out)
}

/// Reads the two offset fields of one segment and builds the corrected
/// segment; each failure is recorded as an error.
pub fn parse_bounds(
    s0: &[u8],
    s1: &[u8],
    allow_blank: bool,
    id: SegmentId,
    corr: OffsetCorrection,
) -> (r: PureSuccess<Option<Segment>>)
    ensures
        match bounds_spec(s0@, s1@, allow_blank, corr) {
            Some(bounds) => r.data matches Some(s) && s@ == bounds && r.deferred.errors@.len() == 0,
            None => r.data is None && r.deferred.errors@.len() > 0 && forall|i: int|
                0 <= i < r.deferred.errors@.len() ==> (#[trigger] r.deferred.errors@[i]).level
                    == PureErrorLevel::Error,
        },
{
    let b = parse_header_offset(s0, allow_blank);
    let e = parse_header_offset(s1, allow_blank);
    let mut deferred = PureErrorBuf::new();
    if b.is_none() {
        deferred.push_error(field_message("begin", id));
    }
    if e.is_none() {
        deferred.push_error(field_message("end", id));
    }
    match (b, e) {
        (Some(begin), Some(end)) => {
            match Segment::try_new_adjusted(begin, end, corr.begin, corr.end, id) {
                Ok(seg) => PureSuccess { data: Some(seg), deferred },
                Err(err) => {
                    deferred.push_error(err.message());
                    PureSuccess { data: None, deferred }
                },
            }
        },
        _ => PureSuccess { data: None, deferred },
    }
}

/// Reads the HEADER from its 58 bytes.
pub fn parse_header(xs: &[u8], conf: &HeaderConfig) -> (r: Result<
    PureSuccess<Header>,
    Failure<String>,
>)
    ensures
        r is Ok <==> header_ok(xs@, *conf),
        r matches Ok(h) ==> {
            &&& Some(h.data.version) == header_version(xs@, *conf)
            &&& header_segments(xs@, *conf).0 == Some(h.data.text@)
            &&& header_segments(xs@, *conf).1 == Some(h.data.data@)
            &&& header_segments(xs@, *conf).2 == Some(h.data.analysis@)
        },
{
    if xs.len() != HEADER_LEN || xs[6] != 32 || xs[7] != 32 || xs[8] != 32 || xs[9] != 32 {
        return Err(Failure::new(string_from_chars(&crate::textbuf::chars_of("could not parse HEADER"))));
    }
    let mut deferred = PureErrorBuf::new();
    let version = match conf.version_override {
        Some(v) => Some(v),
        None => {
            let v = version_from_bytes(bytes_in(xs, 0, 6));
            if v.is_none() {
                deferred.push_error(string_from_chars(&crate::textbuf::chars_of("could not parse FCS version")));
            }
            v
        },
    };
    let t = parse_bounds(bytes_in(xs, 10, 18), bytes_in(xs, 18, 26), false, SegmentId::PrimaryText, conf.text);
    let d = parse_bounds(bytes_in(xs, 26, 34), bytes_in(xs, 34, 42), false, SegmentId::Data, conf.data);
    let a = parse_bounds(bytes_in(xs, 42, 50), bytes_in(xs, 50, 58), true, SegmentId::Analysis, conf.analysis);
    let PureSuccess { deferred: td, data: text } = t;
    let PureSuccess { deferred: dd, data: data } = d;
    let PureSuccess { deferred: ad, data: analysis } = a;
    deferred.concat(td);
    deferred.concat(dd);
    deferred.concat(ad);
    match (version, text, data, analysis) {
        (Some(version), Some(text), Some(data), Some(analysis)) => {
            if text.is_unset() {
                return Err(
                    Failure {
                        reason: string_from_chars(&crate::textbuf::chars_of("TEXT segment is unset")),
                        deferred,
                    },
                );
            }
            if data.is_unset() && version == Version::FCS2_0 {
                return Err(
                    Failure {
                        reason: string_from_chars(&crate::textbuf::chars_of("DATA segment is unset in a 2.0 file")),
                        deferred,
                    },
                );
            }
            Ok(PureSuccess { data: Header { version, text, data, analysis }, deferred })
        },
        _ => Err(
            Failure {
                reason: string_from_chars(&crate::textbuf::chars_of("could not parse HEADER fields")),
                deferred,
            },
        ),
    }
}

/// The bytes `xs[a..b]`.
fn bytes_in(xs: &[u8], a: usize, b: usize) -> (r: &[u8])
    requires
        a <= b <= xs@.len(),
    ensures
        r@ == xs@.subrange(a as int, b as int),
{
    vstd::slice::slice_subrange(xs, a, b)
}

/// An ANALYSIS pair of blank fields reads as the unset segment `(0, 0)`,
/// just as a pair of zeros does.
pub proof fn lemma_blank_analysis_unset(f0: Seq<u8>, f1: Seq<u8>)
    requires
        forall|i: int| 0 <= i < f0.len() ==> is_blank(#[trigger] f0[i]),
        forall|i: int| 0 <= i < f1.len() ==> is_blank(#[trigger] f1[i]),
    ensures
        bounds_spec(f0, f1, true, OffsetCorrection { begin: 0, end: 0 }) == Some((0nat, 0nat)),
        bounds_spec(f0, f1, true, OffsetCorrection { begin: 0, end: 0 }) == bounds_spec(
            seq![48u8],
            seq![48u8],
            true,
            OffsetCorrection { begin: 0, end: 0 },
        ),
{
    let z = seq![48u8];
    assert(!is_blank(z[0]));
    assert(leading_spaces(z) == 0) by {
        assert(z[0] != 32);
    }
    assert(z.subrange(0, 1) =~= z);
    assert(z.drop_last() =~= Seq::<u8>::empty());
    assert(z.last() == 48u8);
    assert(bytes_value(z.drop_last()) == 0);
    assert(bytes_value(z) == 0);
    assert(offset_value(z, true) == Some(0nat));
}

} // verus!
