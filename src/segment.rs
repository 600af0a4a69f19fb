//! Segments of an FCS file: closed intervals of byte offsets, built from raw
//! offsets and signed corrections.
use vstd::prelude::*;

use crate::textbuf::{push_signed, push_str, string_from_chars};

verus! {

/// A closed interval `[begin, end]` of byte offsets. `(0, 0)` marks a
/// segment that is not set.
#[derive(Clone, Copy, Debug, PartialEq, Eq, Structural)]
pub struct Segment {
    begin: u32,
    end: u32,
}

/// Which segment of the file an interval locates.
#[derive(Clone, Copy, Debug, PartialEq, Eq, Structural)]
pub enum SegmentId {
    PrimaryText,
    SupplementalText,
    Analysis,
    Data,
}

/// Why an interval could not be built.
#[derive(Clone, Copy, Debug, PartialEq, Eq, Structural)]
pub enum SegmentErrorKind {
    /// An offset fell outside `0..=u32::MAX` once corrected.
    Range,
    /// The corrected begin lies after the corrected end.
    Inverted,
}

/// A failed attempt to build a segment, with what it was built from.
#[derive(Clone, Copy, Debug, PartialEq, Eq, Structural)]
pub struct SegmentError {
    pub begin: u32,
    pub end: u32,
    pub begin_delta: i32,
    pub end_delta: i32,
    pub kind: SegmentErrorKind,
    pub id: SegmentId,
}

/// Whether a corrected offset is a valid offset.
pub open spec fn in_u32(x: int) -> bool {
    0 <= x <= u32::MAX
}

/// The error, if any, of building a segment from offsets and corrections.
pub open spec fn adjust_error(begin: u32, end: u32, bd: i32, ed: i32) -> Option<SegmentErrorKind> {
    let b = begin + bd;
    let e = end + ed;
    if !(in_u32(b) && in_u32(e)) {
        Some(SegmentErrorKind::Range)
    } else if b > e {
        Some(SegmentErrorKind::Inverted)
    } else {
        None
    }
}

impl View for Segment {
    type V = (nat, nat);

    closed spec fn view(&self) -> (nat, nat) {
        (self.begin as nat, self.end as nat)
    }
}

impl Segment {
    #[verifier::type_invariant]
    spec fn ordered(self) -> bool {
        self.begin <= self.end
    }

    /// The segment `(0, 0)`.
    pub fn unset() -> (r: Segment)
        ensures
            r@ == (0nat, 0nat),
    {
        Segment { begin: 0, end: 0 }
    }

    pub fn try_new(begin: u32, end: u32, id: SegmentId) -> (r: Result<Segment, SegmentError>)
        ensures
            match r {
                Ok(s) => begin <= end && s@ == (begin as nat, end as nat),
                Err(e) => begin > end && e.kind == SegmentErrorKind::Inverted && e.id == id,
            },
    {
        Self::try_new_adjusted(begin, end, 0, 0, id)
    }

    /// Builds `[begin + begin_delta, end + end_delta]`, the sums taken
    /// without overflow.
    pub fn try_new_adjusted(begin: u32, end: u32, begin_delta: i32, end_delta: i32, id: SegmentId) -> (r:
        Result<Segment, SegmentError>)
        ensures
            match r {
                Ok(s) => adjust_error(begin, end, begin_delta, end_delta) is None && s@ == (
                    (begin + begin_delta) as nat,
                    (end + end_delta) as nat,
                ),
                Err(e) => adjust_error(begin, end, begin_delta, end_delta) == Some(e.kind)
                    && e.begin == begin && e.end == end && e.begin_delta == begin_delta
                    && e.end_delta == end_delta && e.id == id,
            },
    {
        let x: i64 = begin as i64 + begin_delta as i64;
        let y: i64 = end as i64 + end_delta as i64;
        if x < 0 || x > u32::MAX as i64 || y < 0 || y > u32::MAX as i64 {
            Err(SegmentError { begin, end, begin_delta, end_delta, kind: SegmentErrorKind::Range, id })
        } else if x > y {
            Err(
                SegmentError {
                    begin,
                    end,
                    begin_delta,
                    end_delta,
                    kind: SegmentErrorKind::Inverted,
                    id,
                },
            )
        } else {
            Ok(Segment { begin: x as u32, end: y as u32 })
        }
    }

    pub fn try_adjust(self, begin_delta: i32, end_delta: i32, id: SegmentId) -> (r: Result<
        Segment,
        SegmentError,
    >)
        ensures
            match r {
                Ok(s) => adjust_error(self.begin(), self.end(), begin_delta, end_delta) is None
                    && s@ == ((self@.0 + begin_delta) as nat, (self@.1 + end_delta) as nat),
                Err(e) => adjust_error(self.begin(), self.end(), begin_delta, end_delta) == Some(
                    e.kind,
                ) && e.id == id,
            },
    {
        Self::try_new_adjusted(self.begin, self.end, begin_delta, end_delta, id)
    }

    #[verifier::when_used_as_spec(begin_spec)]
    pub fn begin(&self) -> (r: u32)
        ensures
            r as nat == self@.0,
            r as nat <= self@.1,
    {
        proof {
            use_type_invariant(self);
        }
        self.begin
    }

    pub closed spec fn begin_spec(&self) -> u32 {
        self.begin
    }

    #[verifier::when_used_as_spec(end_spec)]
    pub fn end(&self) -> (r: u32)
        ensures
            r as nat == self@.1,
    {
        self.end
    }

    pub closed spec fn end_spec(&self) -> u32 {
        self.end
    }

    /// `end - begin`.
    pub fn len(&self) -> (r: u32)
        ensures
            r == self@.1 - self@.0,
    {
        proof {
            use_type_invariant(self);
        }
        self.end - self.begin
    }

    /// The number of bytes in the segment, `end - begin + 1`.
    pub fn num_bytes(&self) -> (r: u64)
        ensures
            self@.0 <= self@.1,
            r == self@.1 - self@.0 + 1,
    {
        proof {
            use_type_invariant(self);
        }
        self.len() as u64 + 1
    }

    pub fn is_unset(&self) -> (r: bool)
        ensures
            r == (self@ == (0nat, 0nat)),
    {
        self.begin == 0 && self.end == 0
    }
}

impl SegmentId {
    /// The name of the segment as it appears in messages.
    pub fn name(&self) -> (r: &'static str) {
        match self {
            SegmentId::PrimaryText => "TEXT",
            SegmentId::SupplementalText => "STEXT",
            SegmentId::Analysis => "ANALYSIS",
            SegmentId::Data => "DATA",
        }
    }
}

fn push_offset(out: &mut Vec<char>, x: u32, delta: i32) {
    push_signed(out, x as i64);
    if delta != 0 {
        push_str(out, " (");
        push_signed(out, delta as i64);
        push_str(out, ")");
    }
}

impl SegmentError {
    /// A message that names the segment, the offsets and the corrections.
    pub fn message(&self) -> (r: String) {
        let mut out: Vec<char> = Vec::new();
        match self.kind {
            SegmentErrorKind::Range => push_str(&mut out, "Offset out of range"),
            SegmentErrorKind::Inverted => push_str(&mut out, "Begin after end"),
        }
        push_str(&mut out, " for ");
        push_str(&mut out, self.id.name());
        push_str(&mut out, " segment; begin=");
        push_offset(&mut out, self.begin, self.begin_delta);
        push_str(&mut out, ", end=");
        push_offset(&mut out, self.end, self.end_delta);
        string_from_chars(&out)
    }
}

} // verus!
