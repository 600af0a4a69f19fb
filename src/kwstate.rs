//! Typed lookup of standard keywords. Each key is read at most once; its
//! status records whether it was used, failed, or never asked for.
use vstd::prelude::*;
use vstd::string::*;

use crate::config::StdTextReadConfig;
use crate::header::Version;
use crate::decimal::{parse_u32, parse_usize, push_decimal};
use crate::fields::no_comma;
use crate::rawtext::RawTEXT;
use crate::textbuf::{chars_of, push_str, str_eq, string_from_chars};
use crate::values::{
    AlphaNumType, ByteOrd, Bytes, Endian, Feature, Mode, Mode3_2, NumType, OptionalKw,
    Originality, Range, Shortname, Trigger, Wavelengths,
};

verus! {

/// A value that a keyword can hold, read from the keyword's text.
pub trait FromKeyword: Sized {
    /// Whether a text is a valid value.
    spec fn kw_ok(s: Seq<char>) -> bool;

    /// Whether `v` is the value a text reads as.
    spec fn kw_parsed(s: Seq<char>, v: Self) -> bool;

    fn parse_kw(s: &str) -> (r: Result<Self, String>)
        ensures
            r is Ok <==> Self::kw_ok(s@),
            r matches Ok(v) ==> Self::kw_parsed(s@, v),
    ;
}

fn msg(s: &str) -> (r: String)
    ensures
        r@ == s@,
{
    string_from_chars(&chars_of(s))
}

impl FromKeyword for u32 {
    open spec fn kw_ok(s: Seq<char>) -> bool {
        crate::decimal::is_decimal(s) && crate::decimal::digits_value(s) <= u32::MAX
    }

    open spec fn kw_parsed(s: Seq<char>, v: u32) -> bool {
        v == crate::decimal::digits_value(s)
    }

    fn parse_kw(s: &str) -> (r: Result<u32, String>) {
        match parse_u32(s) {
            Some(v) => Ok(v),
            None => Err(msg("must be a non-negative 32-bit integer")),
        }
    }
}

impl FromKeyword for usize {
    open spec fn kw_ok(s: Seq<char>) -> bool {
        crate::decimal::is_decimal(s) && crate::decimal::digits_value(s) <= usize::MAX
    }

    open spec fn kw_parsed(s: Seq<char>, v: usize) -> bool {
        v == crate::decimal::digits_value(s)
    }

    fn parse_kw(s: &str) -> (r: Result<usize, String>) {
        match parse_usize(s) {
            Some(v) => Ok(v),
            None => Err(msg("must be a non-negative integer")),
        }
    }
}

impl FromKeyword for String {
    open spec fn kw_ok(s: Seq<char>) -> bool {
        true
    }

    open spec fn kw_parsed(s: Seq<char>, v: String) -> bool {
        v@ == s
    }

    fn parse_kw(s: &str) -> (r: Result<String, String>) {
        Ok(msg(s))
    }
}

impl FromKeyword for AlphaNumType {
    open spec fn kw_ok(s: Seq<char>) -> bool {
        crate::values::alpha_num_of(s) is Some
    }

    open spec fn kw_parsed(s: Seq<char>, v: AlphaNumType) -> bool {
        crate::values::alpha_num_of(s) == Some(v)
    }

    fn parse_kw(s: &str) -> (r: Result<AlphaNumType, String>) {
        match AlphaNumType::from_str(s) {
            Ok(v) => Ok(v),
            Err(_) => Err(msg("must be one of 'I', 'F', 'D', or 'A'")),
        }
    }
}

impl FromKeyword for NumType {
    open spec fn kw_ok(s: Seq<char>) -> bool {
        crate::values::num_type_of(s) is Some
    }

    open spec fn kw_parsed(s: Seq<char>, v: NumType) -> bool {
        crate::values::num_type_of(s) == Some(v)
    }

    fn parse_kw(s: &str) -> (r: Result<NumType, String>) {
        match NumType::from_str(s) {
            Ok(v) => Ok(v),
            Err(_) => Err(msg("must be one of 'I', 'F', or 'D'")),
        }
    }
}

impl FromKeyword for Mode {
    open spec fn kw_ok(s: Seq<char>) -> bool {
        crate::values::mode_of(s) is Some
    }

    open spec fn kw_parsed(s: Seq<char>, v: Mode) -> bool {
        crate::values::mode_of(s) == Some(v)
    }

    fn parse_kw(s: &str) -> (r: Result<Mode, String>) {
        match Mode::from_str(s) {
            Ok(v) => Ok(v),
            Err(_) => Err(msg("must be one of 'C', 'L', or 'U'")),
        }
    }
}

impl FromKeyword for Mode3_2 {
    open spec fn kw_ok(s: Seq<char>) -> bool {
        s == seq!['L']
    }

    open spec fn kw_parsed(s: Seq<char>, v: Mode3_2) -> bool {
        true
    }

    fn parse_kw(s: &str) -> (r: Result<Mode3_2, String>) {
        match Mode3_2::from_str(s) {
            Ok(v) => Ok(v),
            Err(_) => Err(msg("can only be 'L'")),
        }
    }
}

impl FromKeyword for Bytes {
    open spec fn kw_ok(s: Seq<char>) -> bool {
        crate::values::bytes_of(s) is Some
    }

    open spec fn kw_parsed(s: Seq<char>, v: Bytes) -> bool {
        crate::values::bytes_of(s) == Some(v)
    }

    fn parse_kw(s: &str) -> (r: Result<Bytes, String>) {
        match Bytes::from_str(s) {
            Ok(v) => Ok(v),
            Err(crate::values::BytesError::Int) => Err(msg("must be a positive integer or '*'")),
            Err(crate::values::BytesError::Range) => Err(msg("bit widths must be from 8 to 64")),
            Err(crate::values::BytesError::NotOctet) => Err(msg("bit widths must be octets")),
        }
    }
}

impl FromKeyword for Range {
    open spec fn kw_ok(s: Seq<char>) -> bool {
        crate::values::range_of(s) is Some
    }

    open spec fn kw_parsed(s: Seq<char>, v: Range) -> bool {
        crate::values::range_of(s) == Some(v@)
    }

    fn parse_kw(s: &str) -> (r: Result<Range, String>) {
        match Range::from_str(s) {
            Ok(v) => Ok(v),
            Err(_) => Err(msg("must be a number")),
        }
    }
}

impl FromKeyword for ByteOrd {
    open spec fn kw_ok(s: Seq<char>) -> bool {
        crate::values::byteord_of(s) is Some
    }

    open spec fn kw_parsed(s: Seq<char>, v: ByteOrd) -> bool {
        crate::values::byteord_of(s) == Some(v@)
    }

    fn parse_kw(s: &str) -> (r: Result<ByteOrd, String>) {
        match ByteOrd::from_str(s) {
            Ok(v) => Ok(v),
            Err(crate::values::ParseByteOrdError::InvalidOrder) => Err(
                msg("Byte order must include 1-n uniquely"),
            ),
            Err(crate::values::ParseByteOrdError::InvalidNumbers) => Err(
                msg("Could not parse numbers in byte order"),
            ),
        }
    }
}

impl FromKeyword for Endian {
    open spec fn kw_ok(s: Seq<char>) -> bool {
        crate::values::endian_of(s) is Some
    }

    open spec fn kw_parsed(s: Seq<char>, v: Endian) -> bool {
        crate::values::endian_of(s) == Some(v)
    }

    fn parse_kw(s: &str) -> (r: Result<Endian, String>) {
        match Endian::from_str(s) {
            Ok(v) => Ok(v),
            Err(_) => Err(msg("Endian must be either 1,2,3,4 or 4,3,2,1")),
        }
    }
}

impl FromKeyword for Trigger {
    open spec fn kw_ok(s: Seq<char>) -> bool {
        crate::values::trigger_of(s) is Some
    }

    open spec fn kw_parsed(s: Seq<char>, v: Trigger) -> bool {
        crate::values::trigger_of(s) == Some((v.measurement@, v.threshold))
    }

    fn parse_kw(s: &str) -> (r: Result<Trigger, String>) {
        match Trigger::from_str(s) {
            Ok(v) => Ok(v),
            Err(_) => Err(msg("must be like 'string,f'")),
        }
    }
}

impl FromKeyword for Shortname {
    open spec fn kw_ok(s: Seq<char>) -> bool {
        no_comma(s)
    }

    open spec fn kw_parsed(s: Seq<char>, v: Shortname) -> bool {
        v.0@ == s
    }

    fn parse_kw(s: &str) -> (r: Result<Shortname, String>) {
        match Shortname::from_str(s) {
            Ok(v) => Ok(v),
            Err(e) => Err(e.message()),
        }
    }
}

impl FromKeyword for Wavelengths {
    open spec fn kw_ok(s: Seq<char>) -> bool {
        crate::values::wavelengths_of(s) is Some
    }

    open spec fn kw_parsed(s: Seq<char>, v: Wavelengths) -> bool {
        crate::values::wavelengths_of(s) == Some(v.0@)
    }

    fn parse_kw(s: &str) -> (r: Result<Wavelengths, String>) {
        match Wavelengths::from_str(s) {
            Ok(v) => Ok(v),
            Err(_) => Err(msg("must be comma-separated integers")),
        }
    }
}

impl FromKeyword for Feature {
    open spec fn kw_ok(s: Seq<char>) -> bool {
        crate::values::feature_of(s) is Some
    }

    open spec fn kw_parsed(s: Seq<char>, v: Feature) -> bool {
        crate::values::feature_of(s) == Some(v)
    }

    fn parse_kw(s: &str) -> (r: Result<Feature, String>) {
        match Feature::from_str(s) {
            Ok(v) => Ok(v),
            Err(_) => Err(msg("must be one of 'Area', 'Width', or 'Height'")),
        }
    }
}

impl FromKeyword for Originality {
    open spec fn kw_ok(s: Seq<char>) -> bool {
        crate::values::originality_of(s) is Some
    }

    open spec fn kw_parsed(s: Seq<char>, v: Originality) -> bool {
        crate::values::originality_of(s) == Some(v)
    }

    fn parse_kw(s: &str) -> (r: Result<Originality, String>) {
        match Originality::from_str(s) {
            Ok(v) => Ok(v),
            Err(_) => Err(
                msg("must be one of 'Original', 'NonDataModified', 'Appended', or 'DataModified'"),
            ),
        }
    }
}

impl FromKeyword for crate::datetime::FCSDate {
    open spec fn kw_ok(s: Seq<char>) -> bool {
        crate::datetime::chrono_date(s, "%d-%b-%Y"@) is Some
    }

    open spec fn kw_parsed(s: Seq<char>, v: crate::datetime::FCSDate) -> bool {
        crate::datetime::chrono_date(s, "%d-%b-%Y"@) == Some((v.year, v.month, v.day))
    }

    fn parse_kw(s: &str) -> (r: Result<crate::datetime::FCSDate, String>) {
        match crate::datetime::FCSDate::from_str(s) {
            Ok(v) => Ok(v),
            Err(_) => Err(msg("must be like 'dd-mmm-yyyy'")),
        }
    }
}

impl FromKeyword for crate::datetime::FCSTime {
    open spec fn kw_ok(s: Seq<char>) -> bool {
        crate::datetime::chrono_time(s, "%H:%M:%S"@) is Some
    }

    open spec fn kw_parsed(s: Seq<char>, v: crate::datetime::FCSTime) -> bool {
        crate::datetime::chrono_time(s, "%H:%M:%S"@) == Some((v.hour, v.minute, v.second))
    }

    fn parse_kw(s: &str) -> (r: Result<crate::datetime::FCSTime, String>) {
        match crate::datetime::FCSTime::from_str(s) {
            Ok(v) => Ok(v),
            Err(_) => Err(msg("must be like 'hh:mm:ss'")),
        }
    }
}

impl FromKeyword for crate::datetime::FCSTime60 {
    open spec fn kw_ok(s: Seq<char>) -> bool {
        crate::datetime::time60_of(s) is Some
    }

    open spec fn kw_parsed(s: Seq<char>, v: crate::datetime::FCSTime60) -> bool {
        crate::datetime::time60_of(s) == Some(v)
    }

    fn parse_kw(s: &str) -> (r: Result<crate::datetime::FCSTime60, String>) {
        match crate::datetime::FCSTime60::from_str(s) {
            Ok(v) => Ok(v),
            Err(_) => Err(msg("must be like 'hh:mm:ss[:tt]' where 'tt' is in 1/60th seconds")),
        }
    }
}

impl FromKeyword for crate::datetime::FCSTime100 {
    open spec fn kw_ok(s: Seq<char>) -> bool {
        crate::datetime::time100_of(s) is Some
    }

    open spec fn kw_parsed(s: Seq<char>, v: crate::datetime::FCSTime100) -> bool {
        crate::datetime::time100_of(s) == Some(v)
    }

    fn parse_kw(s: &str) -> (r: Result<crate::datetime::FCSTime100, String>) {
        match crate::datetime::FCSTime100::from_str(s) {
            Ok(v) => Ok(v),
            Err(_) => Err(msg("must be like 'hh:mm:ss[.cc]'")),
        }
    }
}

impl FromKeyword for crate::datetime::FCSDateTime {
    open spec fn kw_ok(s: Seq<char>) -> bool {
        crate::datetime::datetime_text_of(s) is Some
    }

    open spec fn kw_parsed(s: Seq<char>, v: crate::datetime::FCSDateTime) -> bool {
        crate::datetime::datetime_text_of(s) == Some(v)
    }

    fn parse_kw(s: &str) -> (r: Result<crate::datetime::FCSDateTime, String>) {
        match crate::datetime::FCSDateTime::from_str(s) {
            Ok(v) => Ok(v),
            Err(_) => Err(msg("must be formatted like 'yyyy-mm-ddThh:mm:ss[TZD]'")),
        }
    }
}

impl FromKeyword for crate::datetime::ModifiedDateTime {
    open spec fn kw_ok(s: Seq<char>) -> bool {
        crate::datetime::modified_of(s) is Some
    }

    open spec fn kw_parsed(s: Seq<char>, v: crate::datetime::ModifiedDateTime) -> bool {
        crate::datetime::modified_of(s) == Some(v)
    }

    fn parse_kw(s: &str) -> (r: Result<crate::datetime::ModifiedDateTime, String>) {
        match crate::datetime::ModifiedDateTime::from_str(s) {
            Ok(v) => Ok(v),
            Err(_) => Err(msg("must be like 'dd-mmm-yyyy hh:mm:ss[.cc]'")),
        }
    }
}

impl FromKeyword for crate::values::MeasurementType {
    open spec fn kw_ok(s: Seq<char>) -> bool {
        true
    }

    open spec fn kw_parsed(s: Seq<char>, v: crate::values::MeasurementType) -> bool {
        crate::values::measurement_type_of(s) == v@
    }

    fn parse_kw(s: &str) -> (r: Result<crate::values::MeasurementType, String>) {
        Ok(crate::values::MeasurementType::from_str(s))
    }
}

impl FromKeyword for crate::values::Unicode {
    open spec fn kw_ok(s: Seq<char>) -> bool {
        crate::values::unicode_of(s) is Some
    }

    open spec fn kw_parsed(s: Seq<char>, v: crate::values::Unicode) -> bool {
        crate::values::unicode_of(s) == Some((v.page, crate::fields::views(v.kws@)))
    }

    fn parse_kw(s: &str) -> (r: Result<crate::values::Unicode, String>) {
        match crate::values::Unicode::from_str(s) {
            Ok(v) => Ok(v),
            Err(_) => Err(msg("must be like 'n,kw1[,kw2...]'")),
        }
    }
}

impl FromKeyword for crate::values::Spillover {
    open spec fn kw_ok(s: Seq<char>) -> bool {
        crate::values::spillover_of(s) is Some
    }

    open spec fn kw_parsed(s: Seq<char>, v: crate::values::Spillover) -> bool {
        crate::values::spillover_of(s) == Some((crate::fields::views(v.measurements@), crate::fields::views(v.matrix@)))
    }

    fn parse_kw(s: &str) -> (r: Result<crate::values::Spillover, String>) {
        crate::values::parse_spillover(s)
    }
}

impl FromKeyword for crate::values::Compensation {
    open spec fn kw_ok(s: Seq<char>) -> bool {
        crate::values::compensation_of(s) is Some
    }

    open spec fn kw_parsed(s: Seq<char>, v: crate::values::Compensation) -> bool {
        crate::values::compensation_of(s) == Some(crate::fields::views(v.matrix@))
    }

    fn parse_kw(s: &str) -> (r: Result<crate::values::Compensation, String>) {
        crate::values::parse_compensation(s)
    }
}

impl FromKeyword for crate::values::UnstainedCenters {
    open spec fn kw_ok(s: Seq<char>) -> bool {
        crate::values::unstained_of(s) is Some
    }

    open spec fn kw_parsed(s: Seq<char>, v: crate::values::UnstainedCenters) -> bool {
        crate::values::unstained_of(s) == Some((crate::fields::views(v.names@), crate::fields::views(v.values@)))
    }

    fn parse_kw(s: &str) -> (r: Result<crate::values::UnstainedCenters, String>) {
        crate::values::parse_unstained_centers(s)
    }
}

/// Where a standard keyword stands.
#[derive(Clone, Debug, PartialEq, Eq)]
pub enum ValueStatus {
    /// Not asked for yet.
    Raw,
    /// Asked for and read.
    Used,
    /// Required, present, and not readable.
    Error(String),
    /// Optional, present, and not readable.
    Warning(String),
}

#[derive(Clone, Debug)]
pub struct KwValue {
    pub value: String,
    pub status: ValueStatus,
}

/// The standard keywords of TEXT with their statuses, and what the lookups
/// have found wrong so far.
pub struct KwState {
    pub standard: Vec<(String, KwValue)>,
    pub nonstandard: Vec<(String, String)>,
    pub missing: Vec<String>,
    pub deprecated_keys: Vec<String>,
    pub meta_errors: Vec<String>,
    pub meta_warnings: Vec<String>,
}

pub open spec fn state_keys(st: Seq<(String, KwValue)>) -> Seq<Seq<char>> {
    st.map_values(|p: (String, KwValue)| p.0@)
}

pub open spec fn state_values(st: Seq<(String, KwValue)>) -> Seq<Seq<char>> {
    st.map_values(|p: (String, KwValue)| p.1.value@)
}

pub open spec fn has_key(st: Seq<(String, KwValue)>, k: Seq<char>) -> bool {
    exists|i: int| 0 <= i < st.len() && (#[trigger] st[i]).0@ == k
}

/// A key that is present, and whose every entry is unread and readable as
/// a `V`.
pub open spec fn key_ready<V: FromKeyword>(st: Seq<(String, KwValue)>, k: Seq<char>) -> bool {
    &&& has_key(st, k)
    &&& forall|j: int|
        0 <= j < st.len() && (#[trigger] st[j]).0@ == k ==> st[j].1.status is Raw && V::kw_ok(
            st[j].1.value@,
        )
}

/// Statuses of all keys but the `i`-th are as before.
pub open spec fn others_unchanged(a: Seq<(String, KwValue)>, b: Seq<(String, KwValue)>, i: int) -> bool {
    &&& a.len() == b.len()
    &&& state_keys(a) == state_keys(b)
    &&& state_values(a) == state_values(b)
    &&& forall|j: int| 0 <= j < a.len() && j != i ==> (#[trigger] a[j]).1.status == b[j].1.status
}

impl RawTEXT {
    /// All standard keywords, none yet asked for.
    pub fn to_state(&self) -> (r: KwState)
        ensures
            r.standard@.len() == self.standard@.len(),
            forall|i: int|
                0 <= i < r.standard@.len() ==> (#[trigger] r.standard@[i]).0@ == self.standard@[i].0@
                    && r.standard@[i].1.value@ == self.standard@[i].1@ && r.standard@[i].1.status
                    is Raw,
            r.missing@.len() == 0,
            r.meta_errors@.len() == 0,
    {
        let mut standard: Vec<(String, KwValue)> = Vec::new();
        let mut i: usize = 0;
        while i < self.standard.len()
            invariant
                i <= self.standard@.len(),
                standard@.len() == i,
                forall|j: int|
                    0 <= j < i ==> (#[trigger] standard@[j]).0@ == self.standard@[j].0@
                        && standard@[j].1.value@ == self.standard@[j].1@ && standard@[j].1.status
                        is Raw,
            decreases self.standard@.len() - i,
        {
            let k = msg(self.standard[i].0.as_str());
            let v = msg(self.standard[i].1.as_str());
            standard.push((k, KwValue { value: v, status: ValueStatus::Raw }));
            i = i + 1;
        }
        let mut nonstandard: Vec<(String, String)> = Vec::new();
        let mut j: usize = 0;
        while j < self.nonstandard.len()
            invariant
                j <= self.nonstandard@.len(),
            decreases self.nonstandard@.len() - j,
        {
            nonstandard.push((msg(self.nonstandard[j].0.as_str()), msg(self.nonstandard[j].1.as_str())));
            j = j + 1;
        }
        KwState {
            standard,
            nonstandard,
            missing: Vec::new(),
            deprecated_keys: Vec::new(),
            meta_errors: Vec::new(),
            meta_warnings: Vec::new(),
        }
    }
}

impl KwState {
    fn find(&self, k: &str) -> (r: Option<usize>)
        ensures
            match r {
                Some(i) => i < self.standard@.len() && self.standard@[i as int].0@ == k@,
                None => !has_key(self.standard@, k@),
            },
    {
        let mut i: usize = 0;
        while i < self.standard.len()
            invariant
                i <= self.standard@.len(),
                forall|j: int| 0 <= j < i ==> self.standard@[j].0@ != k@,
            decreases self.standard@.len() - i,
        {
            if str_eq(self.standard[i].0.as_str(), k) {
                return Some(i);
            }
            i = i + 1;
        }
        None
    }

    /// Reads a required keyword. An absent key is recorded as missing. A key
    /// not yet asked for is read: on success it becomes `Used`, else
    /// `Error`. A key asked for before gives nothing.
    pub fn lookup_required<V: FromKeyword>(&mut self, k: &str, dep: bool) -> (r: Option<V>)
        ensures
            state_keys(final(self).standard@) == state_keys(old(self).standard@),
            state_values(final(self).standard@) == state_values(old(self).standard@),
            final(self).standard@.len() == old(self).standard@.len(),
            forall|j: int|
                0 <= j < old(self).standard@.len() && old(self).standard@[j].0@ != k@
                    ==> (#[trigger] final(self).standard@[j]).1.status == old(self).standard@[j].1.status,
            final(self).meta_errors@ == old(self).meta_errors@,
            final(self).meta_warnings@ == old(self).meta_warnings@,
            final(self).nonstandard@ == old(self).nonstandard@,
            !dep ==> final(self).deprecated_keys@ == old(self).deprecated_keys@,
            dep ==> final(self).deprecated_keys@ == old(self).deprecated_keys@
                || (final(self).deprecated_keys@.drop_last() == old(self).deprecated_keys@
                && final(self).deprecated_keys@.len() == old(self).deprecated_keys@.len() + 1
                && final(self).deprecated_keys@.last()@ == k@),
            dep && key_ready::<V>(old(self).standard@, k@) ==> final(self).deprecated_keys@.len()
                == old(self).deprecated_keys@.len() + 1,
            key_ready::<V>(old(self).standard@, k@) ==> r is Some,
            missing_ok(old(self).missing@, state_keys(old(self).standard@)) ==> missing_ok(final(self).missing@, state_keys(old(self).standard@)),
            r matches Some(v) ==> exists|i: int|
                0 <= i < old(self).standard@.len() && old(self).standard@[i].0@ == k@ && V::kw_parsed(
                    old(self).standard@[i].1.value@,
                    v,
                ),
            !has_key(old(self).standard@, k@) ==> r is None && final(self).standard@ == old(
                self,
            ).standard@ && final(self).missing@.len() == old(self).missing@.len() + 1
                && final(self).missing@.last()@ == k@,
            has_key(old(self).standard@, k@) ==> final(self).missing@ == old(self).missing@
                && exists|i: int|
                0 <= i < old(self).standard@.len() && old(self).standard@[i].0@ == k@
                    && others_unchanged(old(self).standard@, final(self).standard@, i) && if old(
                    self,
                ).standard@[i].1.status is Raw {
                    if V::kw_ok(old(self).standard@[i].1.value@) {
                        r is Some && final(self).standard@[i].1.status is Used
                    } else {
                        r is None && final(self).standard@[i].1.status is Error
                    }
                } else {
                    r is None && final(self).standard@[i].1.status == old(self).standard@[i].1.status
                },
    {
        match self.find(k) {
            None => {
                let ghost m0 = self.missing@;
                self.missing.push(msg(k));
                proof {
                    assert forall|i: int| 0 <= i < m0.len() implies self.missing@[i] == m0[i] by {}
                    if state_keys(self.standard@).contains(k@) {
                        let j = choose|j: int| 0 <= j < state_keys(self.standard@).len() && state_keys(self.standard@)[j] == k@;
                        assert(self.standard@[j].0@ == k@);
                    }
                }
                None
            },
            Some(i) => {
                let ghost before = self.standard@;
                if matches!(self.standard[i].1.status, ValueStatus::Raw) {
                    let parsed = V::parse_kw(self.standard[i].1.value.as_str());
                    if dep {
                        self.deprecated_keys.push(msg(k));
                    }
                    match parsed {
                        Ok(x) => {
                            self.standard[i].1.status = ValueStatus::Used;
                            assert(others_unchanged(before, self.standard@, i as int)) by {
                                assert(state_keys(before) =~= state_keys(self.standard@));
                                assert(state_values(before) =~= state_values(self.standard@));
                            }
                            Some(x)
                        },
                        Err(e) => {
                            self.standard[i].1.status = ValueStatus::Error(e);
                            assert(others_unchanged(before, self.standard@, i as int)) by {
                                assert(state_keys(before) =~= state_keys(self.standard@));
                                assert(state_values(before) =~= state_values(self.standard@));
                            }
                            None
                        },
                    }
                } else {
                    assert(others_unchanged(before, self.standard@, i as int));
                    None
                }
            },
        }
    }

    /// Reads an optional keyword: as `lookup_required`, but an absent key is
    /// no fault, and an unreadable one becomes `Warning`.
    pub fn lookup_optional<V: FromKeyword>(&mut self, k: &str, dep: bool) -> (r: OptionalKw<V>)
        ensures
            state_keys(final(self).standard@) == state_keys(old(self).standard@),
            state_values(final(self).standard@) == state_values(old(self).standard@),
            final(self).standard@.len() == old(self).standard@.len(),
            forall|j: int|
                0 <= j < old(self).standard@.len() && old(self).standard@[j].0@ != k@
                    ==> (#[trigger] final(self).standard@[j]).1.status == old(self).standard@[j].1.status,
            final(self).meta_errors@ == old(self).meta_errors@,
            final(self).meta_warnings@ == old(self).meta_warnings@,
            final(self).nonstandard@ == old(self).nonstandard@,
            !dep ==> final(self).deprecated_keys@ == old(self).deprecated_keys@,
            dep ==> final(self).deprecated_keys@ == old(self).deprecated_keys@
                || (final(self).deprecated_keys@.drop_last() == old(self).deprecated_keys@
                && final(self).deprecated_keys@.len() == old(self).deprecated_keys@.len() + 1
                && final(self).deprecated_keys@.last()@ == k@),
            dep && key_ready::<V>(old(self).standard@, k@) ==> final(self).deprecated_keys@.len()
                == old(self).deprecated_keys@.len() + 1,
            key_ready::<V>(old(self).standard@, k@) ==> r is Present,
            r matches OptionalKw::Present(v) ==> exists|i: int|
                0 <= i < old(self).standard@.len() && old(self).standard@[i].0@ == k@ && V::kw_parsed(
                    old(self).standard@[i].1.value@,
                    v,
                ),
            final(self).missing@ == old(self).missing@,
            !has_key(old(self).standard@, k@) ==> r is Absent && final(self).standard@ == old(
                self,
            ).standard@,
            has_key(old(self).standard@, k@) ==> exists|i: int|
                0 <= i < old(self).standard@.len() && old(self).standard@[i].0@ == k@
                    && others_unchanged(old(self).standard@, final(self).standard@, i) && if old(
                    self,
                ).standard@[i].1.status is Raw {
                    if V::kw_ok(old(self).standard@[i].1.value@) {
                        r is Present && final(self).standard@[i].1.status is Used
                    } else {
                        r is Absent && final(self).standard@[i].1.status is Warning
                    }
                } else {
                    r is Absent && final(self).standard@[i].1.status == old(self).standard@[i].1.status
                },
    {
        match self.find(k) {
            None => OptionalKw::Absent,
            Some(i) => {
                let ghost before = self.standard@;
                if matches!(self.standard[i].1.status, ValueStatus::Raw) {
                    let parsed = V::parse_kw(self.standard[i].1.value.as_str());
                    if dep {
                        self.deprecated_keys.push(msg(k));
                    }
                    match parsed {
                        Ok(x) => {
                            self.standard[i].1.status = ValueStatus::Used;
                            assert(others_unchanged(before, self.standard@, i as int)) by {
                                assert(state_keys(before) =~= state_keys(self.standard@));
                                assert(state_values(before) =~= state_values(self.standard@));
                            }
                            OptionalKw::Present(x)
                        },
                        Err(e) => {
                            self.standard[i].1.status = ValueStatus::Warning(e);
                            assert(others_unchanged(before, self.standard@, i as int)) by {
                                assert(state_keys(before) =~= state_keys(self.standard@));
                                assert(state_values(before) =~= state_values(self.standard@));
                            }
                            OptionalKw::Absent
                        },
                    }
                } else {
                    assert(others_unchanged(before, self.standard@, i as int));
                    OptionalKw::Absent
                }
            },
        }
    }

    pub fn push_meta_error_or_warning(&mut self, is_error: bool, m: String)
        ensures
            is_error ==> final(self).meta_errors@ == old(self).meta_errors@.push(m)
                && final(self).meta_warnings@ == old(self).meta_warnings@,
            !is_error ==> final(self).meta_warnings@ == old(self).meta_warnings@.push(m)
                && final(self).meta_errors@ == old(self).meta_errors@,
            final(self).standard@ == old(self).standard@,
            final(self).missing@ == old(self).missing@,
            final(self).nonstandard@ == old(self).nonstandard@,
            final(self).deprecated_keys@ == old(self).deprecated_keys@,
    {
        if is_error {
            self.meta_errors.push(m);
        } else {
            self.meta_warnings.push(m);
        }
    }
}

/// The keywords of one measurement that reading DATA depends on.
#[derive(Clone, Debug)]
pub struct Measurement {
    /// `$PnB`
    pub bytes: Bytes,
    /// `$PnR`
    pub range: Range,
    /// `$PnN`; required from 3.1 on.
    pub shortname: Option<Shortname>,
    /// `$PnS`
    pub longname: OptionalKw<String>,
    /// `$PnDATATYPE` (3.2)
    pub datatype: Option<NumType>,
    /// `$PnE`, as written: two floats.
    pub scale: OptionalKw<String>,
    /// `$PnG`, as written: a float.
    pub gain: OptionalKw<String>,
    /// `$PnV`, as written: a float.
    pub voltage: OptionalKw<String>,
    /// `$PnF`
    pub filter: OptionalKw<String>,
    /// `$PnO`
    pub power: OptionalKw<u32>,
    /// `$PnD`
    pub detector_type: OptionalKw<String>,
    /// `$PnP`
    pub percent_emitted: OptionalKw<u32>,
    /// `$PnL`: one wavelength before 3.1, several after.
    pub wavelengths: OptionalKw<Wavelengths>,
    /// `$PnCALIBRATION` (3.1+), as written.
    pub calibration: OptionalKw<String>,
    /// `$PnDISPLAY` (3.1+), as written.
    pub display: OptionalKw<String>,
    /// `$PnFEATURE` (3.2)
    pub feature: OptionalKw<Feature>,
    /// `$PnTYPE` (3.2)
    pub measurement_type: OptionalKw<crate::values::MeasurementType>,
    /// `$PnANALYTE` (3.2)
    pub analyte: OptionalKw<String>,
    /// `$PnTAG` (3.2)
    pub tag: OptionalKw<String>,
    /// `$PnDET` (3.2)
    pub detector_name: OptionalKw<String>,
}

/// No two measurements that have short names share one.
pub open spec fn names_distinct(ms: Seq<Measurement>) -> bool {
    forall|i: int, j: int|
        0 <= i < j < ms.len() ==> match (#[trigger] ms[i].shortname, #[trigger] ms[j].shortname) {
            (Some(a), Some(b)) => a.0@ != b.0@,
            _ => true,
        }
}

/// The key of a measurement keyword: `$P`, the index, the suffix.
pub open spec fn meas_key_spec(n: nat, suffix: Seq<char>) -> Seq<char> {
    seq!['$', 'P'] + crate::decimal::dec_digits(n) + suffix
}

pub fn meas_key(n: usize, suffix: &str) -> (r: String)
    ensures
        r@ == meas_key_spec(n as nat, suffix@),
{
    let mut v: Vec<char> = Vec::new();
    v.push('$');
    v.push('P');
    push_decimal(&mut v, n as u64);
    push_str(&mut v, suffix);
    assert(v@ =~= meas_key_spec(n as nat, suffix@));
    string_from_chars(&v)
}

/// Versions from 3.1 on, where `$PnN` is required.
pub open spec fn later_version(v: Version) -> bool {
    v == Version::FCS3_1 || v == Version::FCS3_2
}

fn later_exec(v: Version) -> (r: bool)
    ensures
        r == later_version(v),
{
    match v {
        Version::FCS3_1 | Version::FCS3_2 => true,
        _ => false,
    }
}

/// One of the required keys of measurement `m`.
pub open spec fn is_req_key(k: Seq<char>, m: nat) -> bool {
    k == meas_key_spec(m, "B"@) || k == meas_key_spec(m, "R"@) || k == meas_key_spec(m, "N"@)
}

/// The required keys of measurement `n` are present, unread and readable.
pub open spec fn meas_ready(st: Seq<(String, KwValue)>, n: nat, version: Version) -> bool {
    &&& key_ready::<Bytes>(st, meas_key_spec(n, "B"@))
    &&& key_ready::<Range>(st, meas_key_spec(n, "R"@))
    &&& (later_version(version) ==> key_ready::<Shortname>(st, meas_key_spec(n, "N"@)))
}

/// `v` is read from some entry of key `k`.
pub open spec fn read_from<V: FromKeyword>(st: Seq<(String, KwValue)>, k: Seq<char>, v: V) -> bool {
    exists|j: int| 0 <= j < st.len() && (#[trigger] st[j]).0@ == k && V::kw_parsed(st[j].1.value@, v)
}

/// The required values of measurement `n` are those read from its keys.
pub open spec fn req_parsed(
    st: Seq<(String, KwValue)>,
    n: nat,
    later: bool,
    b: Bytes,
    r: Range,
    name: Option<Shortname>,
) -> bool {
    &&& read_from::<Bytes>(st, meas_key_spec(n, "B"@), b)
    &&& read_from::<Range>(st, meas_key_spec(n, "R"@), r)
    &&& (later ==> (match name {
        Some(x) => read_from::<Shortname>(st, meas_key_spec(n, "N"@), x),
        None => false,
    }))
}

/// A measurement's required fields are those read from its keys.
pub open spec fn meas_parsed(st: Seq<(String, KwValue)>, n: nat, version: Version, m: Measurement) -> bool {
    req_parsed(st, n, later_version(version), m.bytes, m.range, m.shortname)
}

proof fn lemma_meas_key_injective(n1: nat, s1: Seq<char>, n2: nat, s2: Seq<char>)
    requires
        s1.len() > 0,
        s2.len() > 0,
        !crate::decimal::is_digit(s1[0]),
        !crate::decimal::is_digit(s2[0]),
        meas_key_spec(n1, s1) == meas_key_spec(n2, s2),
    ensures
        n1 == n2,
        s1 == s2,
{
    let a = crate::decimal::dec_digits(n1);
    let b = crate::decimal::dec_digits(n2);
    crate::decimal::lemma_dec_digits(n1);
    crate::decimal::lemma_dec_digits(n2);
    let k1 = meas_key_spec(n1, s1);
    let k2 = meas_key_spec(n2, s2);
    if a.len() < b.len() {
        assert(k1[2 + a.len() as int] == s1[0]);
        assert(k2[2 + a.len() as int] == b[a.len() as int]);
    } else if b.len() < a.len() {
        assert(k2[2 + b.len() as int] == s2[0]);
        assert(k1[2 + b.len() as int] == a[b.len() as int]);
    } else {
        assert(a =~= k1.subrange(2, 2 + a.len() as int));
        assert(b =~= k2.subrange(2, 2 + b.len() as int));
        assert(s1 =~= k1.subrange(2 + a.len() as int, k1.len() as int));
        assert(s2 =~= k2.subrange(2 + b.len() as int, k2.len() as int));
    }
}

proof fn lemma_req_keys_distinct(n: nat)
    ensures
        meas_key_spec(n, "B"@) != meas_key_spec(n, "R"@),
        meas_key_spec(n, "B"@) != meas_key_spec(n, "N"@),
        meas_key_spec(n, "R"@) != meas_key_spec(n, "N"@),
{
    reveal_strlit("B");
    reveal_strlit("R");
    reveal_strlit("N");
    if meas_key_spec(n, "B"@) == meas_key_spec(n, "R"@) {
        lemma_meas_key_injective(n, "B"@, n, "R"@);
    }
    if meas_key_spec(n, "B"@) == meas_key_spec(n, "N"@) {
        lemma_meas_key_injective(n, "B"@, n, "N"@);
    }
    if meas_key_spec(n, "R"@) == meas_key_spec(n, "N"@) {
        lemma_meas_key_injective(n, "R"@, n, "N"@);
    }
}

/// A required key of a later measurement is none of measurement `n`'s.
proof fn lemma_req_key_other(k: Seq<char>, m: nat, n: nat)
    requires
        m != n,
        is_req_key(k, m),
    ensures
        k != meas_key_spec(n, "B"@),
        k != meas_key_spec(n, "R"@),
        k != meas_key_spec(n, "N"@),
{
    reveal_strlit("B");
    reveal_strlit("R");
    reveal_strlit("N");
    let sfx = if k == meas_key_spec(m, "B"@) {
        "B"@
    } else if k == meas_key_spec(m, "R"@) {
        "R"@
    } else {
        "N"@
    };
    assert(k == meas_key_spec(m, sfx));
    if k == meas_key_spec(n, "B"@) {
        lemma_meas_key_injective(m, sfx, n, "B"@);
    }
    if k == meas_key_spec(n, "R"@) {
        lemma_meas_key_injective(m, sfx, n, "R"@);
    }
    if k == meas_key_spec(n, "N"@) {
        lemma_meas_key_injective(m, sfx, n, "N"@);
    }
}

/// Readiness of a key depends only on the entries of that key.
pub proof fn lemma_ready_same<V: FromKeyword>(a: Seq<(String, KwValue)>, b: Seq<(String, KwValue)>, k: Seq<char>)
    requires
        a.len() == b.len(),
        state_keys(a) == state_keys(b),
        state_values(a) == state_values(b),
        forall|j: int| 0 <= j < a.len() && a[j].0@ == k ==> b[j].1.status == a[j].1.status,
    ensures
        key_ready::<V>(a, k) == key_ready::<V>(b, k),
{
    assert forall|j: int| 0 <= j < a.len() implies a[j].0@ == b[j].0@ && a[j].1.value@ == b[j].1.value@ by {
        assert(state_keys(a)[j] == state_keys(b)[j]);
        assert(state_values(a)[j] == state_values(b)[j]);
    }
    if has_key(a, k) {
        let j = choose|j: int| 0 <= j < a.len() && (#[trigger] a[j]).0@ == k;
        assert(b[j].0@ == k);
    }
    if has_key(b, k) {
        let j = choose|j: int| 0 <= j < b.len() && (#[trigger] b[j]).0@ == k;
        assert(a[j].0@ == k);
    }
}

/// Where keys and values are the same, so is what is read from them.
pub proof fn lemma_read_same<V: FromKeyword>(a: Seq<(String, KwValue)>, b: Seq<(String, KwValue)>, k: Seq<char>, v: V)
    requires
        a.len() == b.len(),
        state_keys(a) == state_keys(b),
        state_values(a) == state_values(b),
    ensures
        read_from::<V>(a, k, v) == read_from::<V>(b, k, v),
        has_key(a, k) == has_key(b, k),
{
    lemma_values_same(a, b);
    if read_from::<V>(a, k, v) {
        let j = choose|j: int| 0 <= j < a.len() && (#[trigger] a[j]).0@ == k && V::kw_parsed(a[j].1.value@, v);
        assert(b[j].0@ == k);
    }
    if read_from::<V>(b, k, v) {
        let j = choose|j: int| 0 <= j < b.len() && (#[trigger] b[j]).0@ == k && V::kw_parsed(b[j].1.value@, v);
        assert(a[j].0@ == k);
    }
    if has_key(a, k) {
        let j = choose|j: int| 0 <= j < a.len() && (#[trigger] a[j]).0@ == k;
        assert(b[j].0@ == k);
    }
    if has_key(b, k) {
        let j = choose|j: int| 0 <= j < b.len() && (#[trigger] b[j]).0@ == k;
        assert(a[j].0@ == k);
    }
}

/// Every key listed as missing is none of the keys.
pub open spec fn missing_ok(miss: Seq<String>, keys: Seq<Seq<char>>) -> bool {
    forall|i: int| 0 <= i < miss.len() ==> !keys.contains(#[trigger] miss[i]@)
}

/// Presence of a key depends only on the keys.
pub proof fn lemma_has_key_same(a: Seq<(String, KwValue)>, b: Seq<(String, KwValue)>, k: Seq<char>)
    requires
        a.len() == b.len(),
        state_keys(a) == state_keys(b),
    ensures
        has_key(a, k) == has_key(b, k),
{
    assert forall|j: int| 0 <= j < a.len() implies a[j].0@ == b[j].0@ by {
        assert(state_keys(a)[j] == state_keys(b)[j]);
    }
    if has_key(a, k) {
        let j = choose|j: int| 0 <= j < a.len() && (#[trigger] a[j]).0@ == k;
        assert(b[j].0@ == k);
    }
    if has_key(b, k) {
        let j = choose|j: int| 0 <= j < b.len() && (#[trigger] b[j]).0@ == k;
        assert(a[j].0@ == k);
    }
}

/// Readiness of a key survives a lookup of another key.
pub proof fn lemma_ready_after<V: FromKeyword>(a: Seq<(String, KwValue)>, b: Seq<(String, KwValue)>, k: Seq<char>, other: Seq<char>)
    requires
        k != other,
        a.len() == b.len(),
        state_keys(a) == state_keys(b),
        state_values(a) == state_values(b),
        forall|j: int| 0 <= j < a.len() && a[j].0@ != other ==> (#[trigger] b[j]).1.status == a[j].1.status,
    ensures
        key_ready::<V>(a, k) == key_ready::<V>(b, k),
{
    lemma_ready_same::<V>(a, b, k);
}

/// Entries keep their keys and values.
pub proof fn lemma_values_same(a: Seq<(String, KwValue)>, b: Seq<(String, KwValue)>)
    requires
        a.len() == b.len(),
        state_keys(a) == state_keys(b),
        state_values(a) == state_values(b),
    ensures
        forall|j: int| 0 <= j < a.len() ==> (#[trigger] a[j]).0@ == b[j].0@ && a[j].1.value@ == b[j].1.value@,
{
    assert forall|j: int| 0 <= j < a.len() implies (#[trigger] a[j]).0@ == b[j].0@ && a[j].1.value@ == b[j].1.value@ by {
        assert(state_keys(a)[j] == state_keys(b)[j]);
        assert(state_values(a)[j] == state_values(b)[j]);
    }
}

/// Whether the short names of the measurements are pairwise distinct.
pub fn shortnames_unique(ms: &Vec<Measurement>) -> (r: bool)
    ensures
        r == names_distinct(ms@),
{
    let n = ms.len();
    let mut i: usize = 0;
    while i < n
        invariant
            n == ms@.len(),
            i <= n,
            forall|a: int, b: int|
                0 <= a < b < n && a < i ==> match (#[trigger] ms@[a].shortname, #[trigger] ms@[b].shortname) {
                    (Some(x), Some(y)) => x.0@ != y.0@,
                    _ => true,
                },
        decreases n - i,
    {
        let mut j: usize = i + 1;
        while j < n
            invariant
                n == ms@.len(),
                i < n,
                i + 1 <= j <= n,
                forall|a: int, b: int|
                    0 <= a < b < n && a < i ==> match (#[trigger] ms@[a].shortname, #[trigger] ms@[b].shortname) {
                        (Some(x), Some(y)) => x.0@ != y.0@,
                        _ => true,
                    },
                forall|b: int|
                    i < b < j ==> match (ms@[i as int].shortname, #[trigger] ms@[b].shortname) {
                        (Some(x), Some(y)) => x.0@ != y.0@,
                        _ => true,
                    },
            decreases n - j,
        {
            match (&ms[i].shortname, &ms[j].shortname) {
                (Some(x), Some(y)) => {
                    if str_eq(x.0.as_str(), y.0.as_str()) {
                        return false;
                    }
                },
                _ => {},
            }
            j = j + 1;
        }
        i = i + 1;
    }
    true
}

/// What became of a standard keyword once the lookups are over.
#[derive(Clone, Debug, PartialEq, Eq)]
pub enum KeyFate {
    Used,
    Error(String),
    Warning(String),
    /// Never asked for: a key that starts with `$` but is not standard. Holds
    /// the value.
    Deviant(String),
}

/// The fate a status leads to, for a key with the given value.
pub open spec fn fate_matches(status: ValueStatus, value: Seq<char>, fate: KeyFate) -> bool {
    match status {
        ValueStatus::Raw => fate matches KeyFate::Deviant(v) && v@ == value,
        ValueStatus::Used => fate is Used,
        ValueStatus::Error(m) => fate matches KeyFate::Error(n) && n@ == m@,
        ValueStatus::Warning(m) => fate matches KeyFate::Warning(n) && n@ == m@,
    }
}

/// A keyword whose value could not be read.
#[derive(Clone, Debug)]
pub struct KeyError {
    pub key: String,
    pub value: String,
    pub msg: String,
}

/// Everything the keyword lookups found wrong, sorted by kind.
#[derive(Clone, Debug)]
pub struct StdTEXTErrors {
    /// Required keywords that are missing.
    pub missing_keywords: Vec<String>,
    /// Required keywords whose values could not be read.
    pub keyword_errors: Vec<KeyError>,
    /// Errors that involve several keywords.
    pub meta_errors: Vec<String>,
    /// Keys that start with `$` but are not standard.
    pub deviant_keywords: Vec<(String, String)>,
    /// Keys that do not start with `$`.
    pub nonstandard_keywords: Vec<(String, String)>,
    /// Deprecated keywords that were used.
    pub deprecated_keys: Vec<String>,
    /// Deprecated features that were used.
    pub deprecated_features: Vec<String>,
    /// Warnings that involve several keywords.
    pub meta_warnings: Vec<String>,
    /// Optional keywords whose values could not be read.
    pub keyword_warnings: Vec<KeyError>,
}

/// Whether a summary of errors makes the parse fail under a configuration.
pub open spec fn fails_spec(e: StdTEXTErrors, conf: StdTextReadConfig, warnings_are_errors: bool) -> bool {
    ||| e.missing_keywords@.len() > 0
    ||| e.meta_errors@.len() > 0
    ||| e.keyword_errors@.len() > 0
    ||| (e.deviant_keywords@.len() > 0 && conf.disallow_deviant)
    ||| (e.nonstandard_keywords@.len() > 0 && conf.disallow_nonstandard)
    ||| ((e.deprecated_features@.len() > 0 || e.deprecated_keys@.len() > 0)
        && conf.disallow_deprecated)
    ||| ((e.meta_warnings@.len() > 0 || e.keyword_warnings@.len() > 0) && warnings_are_errors)
}

impl KwState {
    /// Reads the keywords of measurements 1 to `par`: first the required
    /// ones (`$PnB`, `$PnR`, and `$PnN` from 3.1 on), then the optional ones.
    /// Gives exactly `par` measurements, each field the value read from its
    /// key, when the short names are pairwise distinct; fails only when a
    /// required key is absent, already read or unreadable, or when short
    /// names repeat, which records one error.
    pub fn lookup_measurements(&mut self, par: usize, version: Version) -> (r: Option<
        Vec<Measurement>,
    >)
        ensures
            state_keys(final(self).standard@) == state_keys(old(self).standard@),
            state_values(final(self).standard@) == state_values(old(self).standard@),
            final(self).standard@.len() == old(self).standard@.len(),
            r matches Some(ms) ==> ms@.len() == par && names_distinct(ms@) && final(self).meta_errors@
                == old(self).meta_errors@ && forall|i: int|
                0 <= i < par ==> meas_parsed(old(self).standard@, (i + 1) as nat, version, #[trigger] ms@[i]),
            r is None ==> (exists|n: nat| 1 <= n <= par && !meas_ready(old(self).standard@, n, version))
                || final(self).meta_errors@.len() == old(self).meta_errors@.len() + 1,
            missing_ok(old(self).missing@, state_keys(old(self).standard@)) ==> missing_ok(final(self).missing@, state_keys(old(self).standard@)),
    {
        let ghost mok = missing_ok(self.missing@, state_keys(self.standard@));
        let ghost st0 = self.standard@;
        let ghost later = later_version(version);
        let mut bs: Vec<Bytes> = Vec::new();
        let mut rs: Vec<Range> = Vec::new();
        let mut ns: Vec<Option<Shortname>> = Vec::new();
        let mut failed = false;
        let mut i: usize = 0;
        proof {
            reveal_strlit("B");
            reveal_strlit("R");
            reveal_strlit("N");
        }
        while i < par
            invariant
                i <= par,
                later == later_version(version),
                state_keys(self.standard@) == state_keys(st0),
                state_values(self.standard@) == state_values(st0),
                self.standard@.len() == st0.len(),
                self.meta_errors@ == old(self).meta_errors@,
                st0 == old(self).standard@,
                mok == missing_ok(old(self).missing@, state_keys(st0)),
                mok ==> missing_ok(self.missing@, state_keys(st0)),
                forall|m: nat, j: int|
                    i < m && 0 <= j < st0.len() && #[trigger] is_req_key(st0[j].0@, m) ==> self.standard@[j].1.status
                        == st0[j].1.status,
                !failed ==> bs@.len() == i && rs@.len() == i && ns@.len() == i && forall|k: int|
                    0 <= k < i ==> #[trigger] req_parsed(st0, (k + 1) as nat, later, bs@[k], rs@[k], ns@[k]),
                failed ==> exists|n: nat| 1 <= n <= i && !meas_ready(st0, n, version),
            decreases par - i,
        {
            let n = i + 1;
            let ghost pre = self.standard@;
            let kb = meas_key(n, "B");
            let kr = meas_key(n, "R");
            let kn = meas_key(n, "N");
            proof {
                lemma_req_keys_distinct(n as nat);
            }
            let b = self.lookup_required::<Bytes>(kb.as_str(), false);
            let ghost mid1 = self.standard@;
            let r = self.lookup_required::<Range>(kr.as_str(), false);
            let ghost mid2 = self.standard@;
            let name = if later_exec(version) {
                match self.lookup_required::<Shortname>(kn.as_str(), false) {
                    Some(x) => Ok(Some(x)),
                    None => Err(()),
                }
            } else {
                Ok(None)
            };
            proof {
                // the keys of later measurements were not touched
                assert forall|m: nat, j: int|
                    i + 1 < m && 0 <= j < st0.len() && #[trigger] is_req_key(st0[j].0@, m) implies self.standard@[j].1.status
                        == st0[j].1.status by {
                    lemma_req_key_other(st0[j].0@, m, n as nat);
                    assert(state_keys(pre)[j] == st0[j].0@);
                    assert(pre[j].0@ == st0[j].0@);
                    assert(mid1[j].0@ == st0[j].0@) by {
                        assert(state_keys(mid1)[j] == state_keys(st0)[j]);
                    }
                    assert(mid2[j].0@ == st0[j].0@) by {
                        assert(state_keys(mid2)[j] == state_keys(st0)[j]);
                    }
                }
                // what each lookup saw is what was there at the start
                lemma_values_same(st0, pre);
                lemma_values_same(st0, mid1);
                lemma_values_same(st0, mid2);
                assert forall|j: int| 0 <= j < st0.len() && (st0[j].0@ == kb@ || st0[j].0@ == kr@ || st0[j].0@ == kn@) implies pre[j].1.status == st0[j].1.status by {
                    assert(is_req_key(st0[j].0@, n as nat));
                }
                assert forall|j: int| 0 <= j < st0.len() && st0[j].0@ == kr@ implies mid1[j].1.status == st0[j].1.status by {
                    assert(pre[j].0@ != kb@);
                }
                assert forall|j: int| 0 <= j < st0.len() && st0[j].0@ == kn@ implies mid2[j].1.status == st0[j].1.status by {
                    assert(pre[j].0@ != kb@);
                    assert(mid1[j].0@ != kr@);
                }
                lemma_ready_same::<Bytes>(st0, pre, kb@);
                lemma_ready_same::<Range>(st0, mid1, kr@);
                lemma_ready_same::<Shortname>(st0, mid2, kn@);
            }
            match (b, r, name) {
                (Some(b), Some(r), Ok(name)) => {
                    if !failed {
                        bs.push(b);
                        rs.push(r);
                        ns.push(name);
                        assert(req_parsed(st0, n as nat, later, bs@[i as int], rs@[i as int], ns@[i as int]));
                    }
                },
                _ => {
                    assert(!meas_ready(st0, n as nat, version));
                    failed = true;
                },
            }
            i = i + 1;
        }
        if failed {
            return None;
        }
        let ghost bs0 = bs@;
        let ghost rs0 = rs@;
        let ghost ns0 = ns@;
        let mut ms: Vec<Measurement> = Vec::new();
        let mut k: usize = 0;
        while k < par
            invariant
                k <= par,
                bs0.len() == par && rs0.len() == par && ns0.len() == par,
                bs@ == bs0.subrange(k as int, par as int),
                rs@ == rs0.subrange(k as int, par as int),
                ns@ == ns0.subrange(k as int, par as int),
                later == later_version(version),
                forall|q: int| 0 <= q < par ==> #[trigger] req_parsed(st0, (q + 1) as nat, later, bs0[q], rs0[q], ns0[q]),
                ms@.len() == k,
                forall|q: int| 0 <= q < k ==> meas_parsed(st0, (q + 1) as nat, version, #[trigger] ms@[q]),
                forall|q: int| 0 <= q < k ==> (#[trigger] ms@[q]).shortname == ns0[q],
                state_keys(self.standard@) == state_keys(st0),
                state_values(self.standard@) == state_values(st0),
                self.standard@.len() == st0.len(),
                self.meta_errors@ == old(self).meta_errors@,
                mok ==> missing_ok(self.missing@, state_keys(st0)),
            decreases par - k,
        {
            let n = k + 1;
            let b = bs.remove(0);
            let r = rs.remove(0);
            let nm = ns.remove(0);
            assert(b == bs0[k as int] && r == rs0[k as int] && nm == ns0[k as int]);
            let m = self.lookup_optional_fields(n, version, b, r, nm);
            assert(req_parsed(st0, (k as int + 1) as nat, later, bs0[k as int], rs0[k as int], ns0[k as int]));
            ms.push(m);
            k = k + 1;
            assert(bs@ =~= bs0.subrange(k as int, par as int));
            assert(rs@ =~= rs0.subrange(k as int, par as int));
            assert(ns@ =~= ns0.subrange(k as int, par as int));
        }
        if !shortnames_unique(&ms) {
            self.meta_errors.push(msg("$PnN are not unique"));
            return None;
        }
        Some(ms)
    }

    /// Reads the optional keywords of measurement `n` around its required
    /// values.
    fn lookup_optional_fields(
        &mut self,
        n: usize,
        version: Version,
        bytes: Bytes,
        range: Range,
        shortname: Option<Shortname>,
    ) -> (m: Measurement)
        ensures
            m.bytes == bytes,
            m.range == range,
            m.shortname == shortname,
            state_keys(final(self).standard@) == state_keys(old(self).standard@),
            state_values(final(self).standard@) == state_values(old(self).standard@),
            final(self).standard@.len() == old(self).standard@.len(),
            final(self).meta_errors@ == old(self).meta_errors@,
            final(self).missing@ == old(self).missing@,
    {
        let datatype = match version {
            Version::FCS3_2 => self.lookup_optional::<NumType>(meas_key(n, "DATATYPE").as_str(), false).into_option(),
            _ => None,
        };
        let longname = self.lookup_optional::<String>(meas_key(n, "S").as_str(), false);
        let scale = self.lookup_optional::<String>(meas_key(n, "E").as_str(), false);
        let gain = self.lookup_optional::<String>(meas_key(n, "G").as_str(), false);
        let voltage = self.lookup_optional::<String>(meas_key(n, "V").as_str(), false);
        let filter = self.lookup_optional::<String>(meas_key(n, "F").as_str(), false);
        let power = self.lookup_optional::<u32>(meas_key(n, "O").as_str(), false);
        let detector_type = self.lookup_optional::<String>(meas_key(n, "D").as_str(), false);
        let percent_emitted = self.lookup_optional::<u32>(meas_key(n, "P").as_str(), false);
        let wavelengths = self.lookup_optional::<Wavelengths>(meas_key(n, "L").as_str(), false);
        let later = later_exec(version);
        let calibration = if later {
            self.lookup_optional::<String>(meas_key(n, "CALIBRATION").as_str(), false)
        } else {
            OptionalKw::Absent
        };
        let display = if later {
            self.lookup_optional::<String>(meas_key(n, "DISPLAY").as_str(), false)
        } else {
            OptionalKw::Absent
        };
        let newest = match version {
            Version::FCS3_2 => true,
            _ => false,
        };
        let feature = if newest {
            self.lookup_optional::<Feature>(meas_key(n, "FEATURE").as_str(), false)
        } else {
            OptionalKw::Absent
        };
        let measurement_type = if newest {
            self.lookup_optional::<crate::values::MeasurementType>(meas_key(n, "TYPE").as_str(), false)
        } else {
            OptionalKw::Absent
        };
        let analyte = if newest {
            self.lookup_optional::<String>(meas_key(n, "ANALYTE").as_str(), false)
        } else {
            OptionalKw::Absent
        };
        let tag = if newest {
            self.lookup_optional::<String>(meas_key(n, "TAG").as_str(), false)
        } else {
            OptionalKw::Absent
        };
        let detector_name = if newest {
            self.lookup_optional::<String>(meas_key(n, "DET").as_str(), false)
        } else {
            OptionalKw::Absent
        };
        Measurement {
            bytes,
            range,
            shortname,
            longname,
            datatype,
            scale,
            gain,
            voltage,
            filter,
            power,
            detector_type,
            percent_emitted,
            wavelengths,
            calibration,
            display,
            feature,
            measurement_type,
            analyte,
            tag,
            detector_name,
        }
    }

    /// Records an error when the trigger names no measurement.
    pub fn check_trigger(&mut self, trigger: &Trigger, names: &Vec<Shortname>) -> (r: bool)
        ensures
            r == exists|i: int| 0 <= i < names@.len() && (#[trigger] names@[i]).0@ == trigger.measurement@,
            r ==> final(self).meta_errors@ == old(self).meta_errors@,
            !r ==> final(self).meta_errors@.len() == old(self).meta_errors@.len() + 1,
            final(self).standard@ == old(self).standard@,
            final(self).missing@ == old(self).missing@,
    {
        let mut i: usize = 0;
        while i < names.len()
            invariant
                i <= names@.len(),
                forall|j: int| 0 <= j < i ==> names@[j].0@ != trigger.measurement@,
            decreases names@.len() - i,
        {
            if str_eq(names[i].0.as_str(), trigger.measurement.as_str()) {
                return true;
            }
            i = i + 1;
        }
        let mut v: Vec<char> = Vec::new();
        push_str(&mut v, "$TR names measurement '");
        push_str(&mut v, trigger.measurement.as_str());
        push_str(&mut v, "' which does not exist");
        self.meta_errors.push(string_from_chars(&v));
        false
    }

    /// Ends the lookups: every standard key is used, failed (as an error or
    /// a warning), or deviant; none is left unread.
    pub fn classify(&self) -> (r: Vec<(String, KeyFate)>)
        ensures
            r@.len() == self.standard@.len(),
            forall|i: int|
                0 <= i < r@.len() ==> (#[trigger] r@[i]).0@ == self.standard@[i].0@ && fate_matches(
                    self.standard@[i].1.status,
                    self.standard@[i].1.value@,
                    r@[i].1,
                ),
    {
        let mut out: Vec<(String, KeyFate)> = Vec::new();
        let mut i: usize = 0;
        while i < self.standard.len()
            invariant
                i <= self.standard@.len(),
                out@.len() == i,
                forall|j: int|
                    0 <= j < i ==> (#[trigger] out@[j]).0@ == self.standard@[j].0@ && fate_matches(
                        self.standard@[j].1.status,
                        self.standard@[j].1.value@,
                        out@[j].1,
                    ),
            decreases self.standard@.len() - i,
        {
            let k = msg(self.standard[i].0.as_str());
            let fate = match &self.standard[i].1.status {
                ValueStatus::Raw => KeyFate::Deviant(msg(self.standard[i].1.value.as_str())),
                ValueStatus::Used => KeyFate::Used,
                ValueStatus::Error(m) => KeyFate::Error(msg(m.as_str())),
                ValueStatus::Warning(m) => KeyFate::Warning(msg(m.as_str())),
            };
            out.push((k, fate));
            i = i + 1;
        }
        out
    }

    /// Sorts what the lookups found into a summary of errors: keys never
    /// read are deviant, keys that failed go to the keyword errors or
    /// warnings, and the rest of the state is carried over.
    pub fn into_errors(self) -> (r: StdTEXTErrors)
        ensures
            r.missing_keywords@ == self.missing@,
            r.meta_errors@ == self.meta_errors@,
            r.meta_warnings@ == self.meta_warnings@,
            r.nonstandard_keywords@ == self.nonstandard@,
            r.deprecated_keys@ == self.deprecated_keys@,
            r.deprecated_features@.len() == 0,
            deviant_views(r.deviant_keywords@) == raw_entries(self.standard@),
            error_keys(r.keyword_errors@) == entries_with(self.standard@, 1),
            error_keys(r.keyword_warnings@) == entries_with(self.standard@, 2),
    {
        let mut keyword_errors: Vec<KeyError> = Vec::new();
        let mut keyword_warnings: Vec<KeyError> = Vec::new();
        let mut deviant: Vec<(String, String)> = Vec::new();
        let mut i: usize = 0;
        while i < self.standard.len()
            invariant
                i <= self.standard@.len(),
                deviant_views(deviant@) == raw_entries(self.standard@.subrange(0, i as int)),
                error_keys(keyword_errors@) == entries_with(self.standard@.subrange(0, i as int), 1),
                error_keys(keyword_warnings@) == entries_with(self.standard@.subrange(0, i as int), 2),
            decreases self.standard@.len() - i,
        {
            let ghost pre = self.standard@.subrange(0, i as int);
            assert(self.standard@.subrange(0, i + 1).drop_last() =~= pre);
            let key = msg(self.standard[i].0.as_str());
            let value = msg(self.standard[i].1.value.as_str());
            let ghost d0 = deviant@;
            let ghost e0 = keyword_errors@;
            let ghost w0 = keyword_warnings@;
            match &self.standard[i].1.status {
                ValueStatus::Used => {},
                ValueStatus::Error(m) => {
                    keyword_errors.push(KeyError { key, value, msg: msg(m.as_str()) });
                    assert(error_keys(keyword_errors@) =~= error_keys(e0).push(self.standard@[i as int].0@));
                },
                ValueStatus::Warning(m) => {
                    keyword_warnings.push(KeyError { key, value, msg: msg(m.as_str()) });
                    assert(error_keys(keyword_warnings@) =~= error_keys(w0).push(self.standard@[i as int].0@));
                },
                ValueStatus::Raw => {
                    deviant.push((key, value));
                    assert(deviant_views(deviant@) =~= deviant_views(d0).push(
                        (self.standard@[i as int].0@, self.standard@[i as int].1.value@),
                    ));
                },
            }
            i = i + 1;
        }
        assert(self.standard@.subrange(0, self.standard@.len() as int) =~= self.standard@);
        StdTEXTErrors {
            missing_keywords: self.missing,
            keyword_errors,
            meta_errors: self.meta_errors,
            deviant_keywords: deviant,
            nonstandard_keywords: self.nonstandard,
            deprecated_keys: self.deprecated_keys,
            deprecated_features: Vec::new(),
            meta_warnings: self.meta_warnings,
            keyword_warnings,
        }
    }
}

pub open spec fn deviant_views(d: Seq<(String, String)>) -> Seq<(Seq<char>, Seq<char>)> {
    d.map_values(|p: (String, String)| (p.0@, p.1@))
}

pub open spec fn error_keys(es: Seq<KeyError>) -> Seq<Seq<char>> {
    es.map_values(|e: KeyError| e.key@)
}

/// The keys and values of entries never read, in order.
pub open spec fn raw_entries(st: Seq<(String, KwValue)>) -> Seq<(Seq<char>, Seq<char>)>
    decreases st.len(),
{
    if st.len() == 0 {
        Seq::empty()
    } else {
        let rest = raw_entries(st.drop_last());
        if st.last().1.status is Raw {
            rest.push((st.last().0@, st.last().1.value@))
        } else {
            rest
        }
    }
}

/// The keys of entries that failed, as errors (1) or warnings (2), in order.
pub open spec fn entries_with(st: Seq<(String, KwValue)>, kind: int) -> Seq<Seq<char>>
    decreases st.len(),
{
    if st.len() == 0 {
        Seq::empty()
    } else {
        let rest = entries_with(st.drop_last(), kind);
        let hit = if kind == 1 {
            st.last().1.status is Error
        } else {
            st.last().1.status is Warning
        };
        if hit {
            rest.push(st.last().0@)
        } else {
            rest
        }
    }
}

impl StdTEXTErrors {
    /// Drops the kinds of diagnostics that the configuration tolerates.
    pub fn prune_errors(&mut self, conf: &StdTextReadConfig, warnings_are_errors: bool)
        ensures
            final(self).missing_keywords@ == old(self).missing_keywords@,
            final(self).keyword_errors@ == old(self).keyword_errors@,
            final(self).meta_errors@ == old(self).meta_errors@,
            final(self).deviant_keywords@ == (if conf.disallow_deviant {
                old(self).deviant_keywords@
            } else {
                Seq::empty()
            }),
            final(self).nonstandard_keywords@ == (if conf.disallow_nonstandard {
                old(self).nonstandard_keywords@
            } else {
                Seq::empty()
            }),
            final(self).deprecated_keys@ == (if conf.disallow_deprecated {
                old(self).deprecated_keys@
            } else {
                Seq::empty()
            }),
            final(self).deprecated_features@ == (if conf.disallow_deprecated {
                old(self).deprecated_features@
            } else {
                Seq::empty()
            }),
            final(self).meta_warnings@ == (if warnings_are_errors {
                old(self).meta_warnings@
            } else {
                Seq::empty()
            }),
            final(self).keyword_warnings@ == (if warnings_are_errors {
                old(self).keyword_warnings@
            } else {
                Seq::empty()
            }),
    {
        if !conf.disallow_deviant {
            self.deviant_keywords.clear();
        }
        if !conf.disallow_nonstandard {
            self.nonstandard_keywords.clear();
        }
        if !conf.disallow_deprecated {
            self.deprecated_keys.clear();
            self.deprecated_features.clear();
        }
        if !warnings_are_errors {
            self.meta_warnings.clear();
            self.keyword_warnings.clear();
        }
    }

    /// Whether the parse fails: any error, or any diagnostic of a kind the
    /// configuration refuses.
    pub fn fails(&self, conf: &StdTextReadConfig, warnings_are_errors: bool) -> (r: bool)
        ensures
            r == fails_spec(*self, *conf, warnings_are_errors),
    {
        let crit = self.missing_keywords.len() > 0 || self.meta_errors.len() > 0
            || self.keyword_errors.len() > 0;
        let noncrit = (self.deviant_keywords.len() > 0 && conf.disallow_deviant) || (
        self.nonstandard_keywords.len() > 0 && conf.disallow_nonstandard) || ((
        self.deprecated_features.len() > 0 || self.deprecated_keys.len() > 0)
            && conf.disallow_deprecated) || ((self.meta_warnings.len() > 0
            || self.keyword_warnings.len() > 0) && warnings_are_errors);
        crit || noncrit
    }

    /// One line for each missing keyword, each unreadable required keyword
    /// and each error that involves several keywords, in that order.
    pub fn into_lines(self) -> (r: Vec<String>)
        ensures
            r@.len() == self.missing_keywords@.len() + self.keyword_errors@.len()
                + self.meta_errors@.len(),
    {
        let mut out: Vec<String> = Vec::new();
        let mut i: usize = 0;
        while i < self.missing_keywords.len()
            invariant
                i <= self.missing_keywords@.len(),
                out@.len() == i,
            decreases self.missing_keywords@.len() - i,
        {
            let mut v: Vec<char> = Vec::new();
            push_str(&mut v, "Required keyword is missing: ");
            push_str(&mut v, self.missing_keywords[i].as_str());
            out.push(string_from_chars(&v));
            i = i + 1;
        }
        let mut j: usize = 0;
        while j < self.keyword_errors.len()
            invariant
                j <= self.keyword_errors@.len(),
                out@.len() == self.missing_keywords@.len() + j,
            decreases self.keyword_errors@.len() - j,
        {
            let e = &self.keyword_errors[j];
            let mut v: Vec<char> = Vec::new();
            push_str(&mut v, "Could not get value for ");
            push_str(&mut v, e.key.as_str());
            push_str(&mut v, ". Error was '");
            push_str(&mut v, e.msg.as_str());
            push_str(&mut v, "'. Value was '");
            push_str(&mut v, e.value.as_str());
            push_str(&mut v, "'.");
            out.push(string_from_chars(&v));
            j = j + 1;
        }
        let mut k: usize = 0;
        while k < self.meta_errors.len()
            invariant
                k <= self.meta_errors@.len(),
                out@.len() == self.missing_keywords@.len() + self.keyword_errors@.len() + k,
            decreases self.meta_errors@.len() - k,
        {
            out.push(msg(self.meta_errors[k].as_str()));
            k = k + 1;
        }
        out
    }
}

} // verus!
