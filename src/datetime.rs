//! Dates and times of TEXT keywords, held as plain fields. Parsing the
//! standard patterns is done by chrono; the sub-second suffixes of the FCS
//! revisions are read here.
use chrono::{Datelike, Timelike};
use vstd::prelude::*;
use vstd::string::*;

use crate::decimal::{dec_digits, digits_value, is_decimal, parse_u32, push_decimal};
use crate::fields::{split_commas, split_fields, views};
use crate::textbuf::{chars_of, push_signed, push_str, string_from_chars};

verus! {

/// What chrono reads from a text with a time pattern: hour, minute, second.
pub uninterp spec fn chrono_time(s: Seq<char>, fmt: Seq<char>) -> Option<(u32, u32, u32)>;

/// What chrono reads from a text with a date pattern: year, month, day.
pub uninterp spec fn chrono_date(s: Seq<char>, fmt: Seq<char>) -> Option<(i32, u32, u32)>;

/// What chrono reads from the start of a text with a date-and-time
/// pattern, and the text left over.
pub uninterp spec fn chrono_datetime_prefix(s: Seq<char>, fmt: Seq<char>) -> Option<
    (i32, u32, u32, u32, u32, u32, Seq<char>),
>;

/// What chrono reads from a text with a date, time and offset pattern:
/// year, month, day, hour, minute, second, nanosecond, and the offset from
/// UTC in seconds.
pub uninterp spec fn chrono_datetime_tz(s: Seq<char>, fmt: Seq<char>) -> Option<
    (i32, u32, u32, u32, u32, u32, u32, i32),
>;

/// Relies on `chrono::NaiveTime::parse_from_str` and chrono's `Timelike`:
/// hours run from 0 to 23, minutes and seconds from 0 to 59.
#[verifier::external_body]
fn parse_time(s: &str, fmt: &str) -> (r: Option<(u32, u32, u32)>)
    ensures
        r == chrono_time(s@, fmt@),
        r matches Some(t) ==> t.0 < 24 && t.1 < 60 && t.2 < 60,
{
    chrono::NaiveTime::parse_from_str(s, fmt).ok().map(|t| (t.hour(), t.minute(), t.second()))
}

/// Relies on `chrono::NaiveDate::parse_from_str` and chrono's `Datelike`:
/// months run from 1 to 12, days from 1 to 31.
#[verifier::external_body]
fn parse_date(s: &str, fmt: &str) -> (r: Option<(i32, u32, u32)>)
    ensures
        r == chrono_date(s@, fmt@),
        r matches Some(d) ==> 1 <= d.1 <= 12 && 1 <= d.2 <= 31,
{
    chrono::NaiveDate::parse_from_str(s, fmt).ok().map(|d| (d.year(), d.month(), d.day()))
}

/// Relies on `chrono::NaiveDateTime::parse_and_remainder`: the fields read
/// and the unread rest of the text.
#[verifier::external_body]
fn parse_datetime_prefix(s: &str, fmt: &str) -> (r: Option<(i32, u32, u32, u32, u32, u32, String)>)
    ensures
        match r {
            Some(t) => chrono_datetime_prefix(s@, fmt@) == Some((t.0, t.1, t.2, t.3, t.4, t.5, t.6@))
                && 1 <= t.1 <= 12 && 1 <= t.2 <= 31 && t.3 < 24 && t.4 < 60 && t.5 < 60,
            None => chrono_datetime_prefix(s@, fmt@) is None,
        },
{
    chrono::NaiveDateTime::parse_and_remainder(s, fmt).ok().map(
        |(d, rest)| (d.year(), d.month(), d.day(), d.hour(), d.minute(), d.second(), rest.to_string()),
    )
}

/// Relies on `chrono::DateTime::parse_from_str` and `FixedOffset`: the
/// fields read, the nanoseconds, and the offset east of UTC in seconds.
#[verifier::external_body]
fn parse_datetime_tz(s: &str, fmt: &str) -> (r: Option<(i32, u32, u32, u32, u32, u32, u32, i32)>)
    ensures
        r == chrono_datetime_tz(s@, fmt@),
        r matches Some(t) ==> 1 <= t.1 <= 12 && 1 <= t.2 <= 31 && t.3 < 24 && t.4 < 60 && t.5 < 60
            && t.6 < 2000000000,
{
    chrono::DateTime::parse_from_str(s, fmt).ok().map(
        |d| (d.year(), d.month(), d.day(), d.hour(), d.minute(), d.second(), d.nanosecond(), d.offset().local_minus_utc()),
    )
}

/// A number written with at least two digits.
pub open spec fn pad2(n: nat) -> Seq<char> {
    if n < 10 {
        seq!['0'] + dec_digits(n)
    } else {
        dec_digits(n)
    }
}

fn push_pad2(out: &mut Vec<char>, n: u32)
    ensures
        final(out)@ == old(out)@ + pad2(n as nat),
{
    if n < 10 {
        out.push('0');
        push_decimal(out, n as u64);
        assert(final(out)@ =~= old(out)@ + pad2(n as nat));
    } else {
        push_decimal(out, n as u64);
    }
}

/// `hh:mm:ss`
pub open spec fn hms_text(h: u32, m: u32, s: u32) -> Seq<char> {
    pad2(h as nat) + seq![':'] + pad2(m as nat) + seq![':'] + pad2(s as nat)
}

fn push_hms(out: &mut Vec<char>, h: u32, m: u32, s: u32)
    ensures
        final(out)@ == old(out)@ + hms_text(h, m, s),
{
    push_pad2(out, h);
    out.push(':');
    push_pad2(out, m);
    out.push(':');
    push_pad2(out, s);
    assert(final(out)@ =~= old(out)@ + hms_text(h, m, s));
}

/// The English abbreviation of a month; anything past 11 is December.
pub open spec fn month_text(m: u32) -> Seq<char> {
    if m == 1 {
        "Jan"@
    } else if m == 2 {
        "Feb"@
    } else if m == 3 {
        "Mar"@
    } else if m == 4 {
        "Apr"@
    } else if m == 5 {
        "May"@
    } else if m == 6 {
        "Jun"@
    } else if m == 7 {
        "Jul"@
    } else if m == 8 {
        "Aug"@
    } else if m == 9 {
        "Sep"@
    } else if m == 10 {
        "Oct"@
    } else if m == 11 {
        "Nov"@
    } else {
        "Dec"@
    }
}

/// A year written with at least four digits when it is not negative.
pub open spec fn year_text(y: i32) -> Seq<char> {
    if 0 <= y < 10 {
        seq!['0', '0', '0'] + crate::textbuf::signed_digits(y as int)
    } else if 10 <= y < 100 {
        seq!['0', '0'] + crate::textbuf::signed_digits(y as int)
    } else if 100 <= y < 1000 {
        seq!['0'] + crate::textbuf::signed_digits(y as int)
    } else {
        crate::textbuf::signed_digits(y as int)
    }
}

/// `dd-Mmm-yyyy`
pub open spec fn date_text(d: FCSDate) -> Seq<char> {
    pad2(d.day as nat) + seq!['-'] + month_text(d.month) + seq!['-'] + year_text(d.year)
}

fn push_year(out: &mut Vec<char>, y: i32)
    ensures
        final(out)@ == old(out)@ + year_text(y),
{
    if 0 <= y && y < 1000 {
        if y < 100 {
            out.push('0');
        }
        if y < 10 {
            out.push('0');
        }
        out.push('0');
    }
    push_signed(out, y as i64);
    assert(final(out)@ =~= old(out)@ + year_text(y));
}

/// The English abbreviation of a month.
fn month_abbrev(m: u32) -> (r: &'static str)
    ensures
        r@ == month_text(m),
{
    match m {
        1 => "Jan",
        2 => "Feb",
        3 => "Mar",
        4 => "Apr",
        5 => "May",
        6 => "Jun",
        7 => "Jul",
        8 => "Aug",
        9 => "Sep",
        10 => "Oct",
        11 => "Nov",
        _ => "Dec",
    }
}

/// `$DATE`: a calendar date.
#[derive(Clone, Copy, Debug, PartialEq, Eq, Structural)]
pub struct FCSDate {
    pub year: i32,
    pub month: u32,
    pub day: u32,
}

#[derive(Clone, Copy, Debug, PartialEq, Eq, Structural)]
pub struct FCSDateError;

impl FCSDate {
    /// Reads `dd-mmm-yyyy`, the month named in English in any case.
    pub fn from_str(s: &str) -> (r: Result<FCSDate, FCSDateError>)
        ensures
            match chrono_date(s@, "%d-%b-%Y"@) {
                Some(d) => r == Ok::<FCSDate, FCSDateError>(FCSDate { year: d.0, month: d.1, day: d.2 }),
                None => r is Err,
            },
    {
        Self::from_str_with(s, "%d-%b-%Y")
    }

    /// Reads a date with another chrono pattern.
    pub fn from_str_with(s: &str, pattern: &str) -> (r: Result<FCSDate, FCSDateError>)
        ensures
            match chrono_date(s@, pattern@) {
                Some(d) => r == Ok::<FCSDate, FCSDateError>(FCSDate { year: d.0, month: d.1, day: d.2 }),
                None => r is Err,
            },
    {
        match parse_date(s, pattern) {
            Some((year, month, day)) => Ok(FCSDate { year, month, day }),
            None => Err(FCSDateError),
        }
    }

    /// Writes `dd-Mmm-yyyy`.
    pub fn to_string(&self) -> (r: String)
        ensures
            r@ == date_text(*self),
    {
        let mut v: Vec<char> = Vec::new();
        push_pad2(&mut v, self.day);
        v.push('-');
        push_str(&mut v, month_abbrev(self.month));
        v.push('-');
        push_year(&mut v, self.year);
        assert(v@ =~= date_text(*self));
        string_from_chars(&v)
    }
}

/// `$BTIM` and `$ETIM` in 2.0: `hh:mm:ss`.
#[derive(Clone, Copy, Debug, PartialEq, Eq, Structural)]
pub struct FCSTime {
    pub hour: u32,
    pub minute: u32,
    pub second: u32,
}

#[derive(Clone, Copy, Debug, PartialEq, Eq, Structural)]
pub struct FCSTimeError;

impl FCSTime {
    pub fn from_str(s: &str) -> (r: Result<FCSTime, FCSTimeError>)
        ensures
            match chrono_time(s@, "%H:%M:%S"@) {
                Some(t) => r == Ok::<FCSTime, FCSTimeError>(FCSTime { hour: t.0, minute: t.1, second: t.2 }),
                None => r is Err,
            },
    {
        match parse_time(s, "%H:%M:%S") {
            Some((hour, minute, second)) => Ok(FCSTime { hour, minute, second }),
            None => Err(FCSTimeError),
        }
    }

    pub fn to_string(&self) -> (r: String)
        ensures
            r@ == hms_text(self.hour, self.minute, self.second),
    {
        let mut v: Vec<char> = Vec::new();
        push_hms(&mut v, self.hour, self.minute, self.second);
        assert(v@ =~= hms_text(self.hour, self.minute, self.second));
        string_from_chars(&v)
    }
}

/// `$BTIM` and `$ETIM` in 3.0: `hh:mm:ss[:tt]`, `tt` in 1/60 seconds.
#[derive(Clone, Copy, Debug, PartialEq, Eq, Structural)]
pub struct FCSTime60 {
    pub hour: u32,
    pub minute: u32,
    pub second: u32,
    pub jiffies: u32,
}

#[derive(Clone, Copy, Debug, PartialEq, Eq, Structural)]
pub struct FCSTime60Error;

/// Four colon-free decimal fields `hh:mm:ss:tt` within their ranges.
pub open spec fn time60_fields(p: Seq<Seq<char>>) -> Option<(u32, u32, u32, u32)> {
    if p.len() == 4 && (forall|i: int| 0 <= i < 4 ==> is_decimal(#[trigger] p[i])) && digits_value(p[0])
        < 24 && digits_value(p[1]) < 60 && digits_value(p[2]) < 60 && digits_value(p[3]) < 60 {
        Some(
            (
                digits_value(p[0]) as u32,
                digits_value(p[1]) as u32,
                digits_value(p[2]) as u32,
                digits_value(p[3]) as u32,
            ),
        )
    } else {
        None
    }
}

/// The fields of a text split at its colons.
pub open spec fn split_colons(s: Seq<char>) -> Seq<Seq<char>> {
    split_commas(s.map_values(|c: char| if c == ':' { ',' } else if c == ',' { ':' } else { c }))
}

fn swap_colons(s: &str) -> (r: String)
    ensures
        r@ == s@.map_values(|c: char| if c == ':' { ',' } else if c == ',' { ':' } else { c }),
{
    let cs = chars_of(s);
    let mut out: Vec<char> = Vec::new();
    let mut i: usize = 0;
    while i < cs.len()
        invariant
            cs@ == s@,
            i <= cs@.len(),
            out@ == cs@.subrange(0, i as int).map_values(
                |c: char| if c == ':' { ',' } else if c == ',' { ':' } else { c },
            ),
        decreases cs@.len() - i,
    {
        let c = cs[i];
        let d = if c == ':' { ',' } else if c == ',' { ':' } else { c };
        out.push(d);
        i = i + 1;
        assert(out@ =~= cs@.subrange(0, i as int).map_values(
            |c: char| if c == ':' { ',' } else if c == ',' { ':' } else { c },
        ));
    }
    assert(cs@.subrange(0, cs@.len() as int) =~= cs@);
    string_from_chars(&out)
}

/// What `FCSTime60::from_str` reads.
pub open spec fn time60_of(s: Seq<char>) -> Option<FCSTime60> {
    match chrono_time(s, "%H:%M:%S"@) {
        Some(t) => Some(FCSTime60 { hour: t.0, minute: t.1, second: t.2, jiffies: 0 }),
        None => match time60_fields(split_colons(s)) {
            Some(f) => Some(FCSTime60 { hour: f.0, minute: f.1, second: f.2, jiffies: f.3 }),
            None => None,
        },
    }
}

impl FCSTime60 {
    /// Reads `hh:mm:ss` through chrono, or else `hh:mm:ss:tt`.
    pub fn from_str(s: &str) -> (r: Result<FCSTime60, FCSTime60Error>)
        ensures
            match time60_of(s@) {
                Some(v) => r == Ok::<FCSTime60, FCSTime60Error>(v),
                None => r is Err,
            },
    {
        match parse_time(s, "%H:%M:%S") {
            Some((hour, minute, second)) => {
                return Ok(FCSTime60 { hour, minute, second, jiffies: 0 });
            },
            None => {},
        }
        let parts = split_fields(swap_colons(s).as_str());
        if parts.len() != 4 {
            return Err(FCSTime60Error);
        }
        let ghost p = views(parts@);
        assert(p[0] == parts@[0]@ && p[1] == parts@[1]@ && p[2] == parts@[2]@ && p[3] == parts@[3]@);
        match (parse_u32(parts[0].as_str()), parse_u32(parts[1].as_str()), parse_u32(parts[2].as_str()), parse_u32(parts[3].as_str())) {
            (Some(hour), Some(minute), Some(second), Some(jiffies)) => {
                if hour < 24 && minute < 60 && second < 60 && jiffies < 60 {
                    Ok(FCSTime60 { hour, minute, second, jiffies })
                } else {
                    Err(FCSTime60Error)
                }
            },
            _ => {
                assert(time60_fields(p) is None);
                Err(FCSTime60Error)
            },
        }
    }

    /// Writes `hh:mm:ss:tt`.
    pub fn to_string(&self) -> (r: String)
        ensures
            r@ == hms_text(self.hour, self.minute, self.second) + seq![':'] + pad2(self.jiffies as nat),
    {
        let mut v: Vec<char> = Vec::new();
        push_hms(&mut v, self.hour, self.minute, self.second);
        v.push(':');
        push_pad2(&mut v, self.jiffies);
        assert(v@ =~= hms_text(self.hour, self.minute, self.second) + seq![':'] + pad2(self.jiffies as nat));
        string_from_chars(&v)
    }
}

/// `$BTIM` and `$ETIM` from 3.1 on: `hh:mm:ss[.cc]`, `cc` in 1/100 seconds.
#[derive(Clone, Copy, Debug, PartialEq, Eq, Structural)]
pub struct FCSTime100 {
    pub hour: u32,
    pub minute: u32,
    pub second: u32,
    pub centis: u32,
}

#[derive(Clone, Copy, Debug, PartialEq, Eq, Structural)]
pub struct FCSTime100Error;

/// Two decimal digits and their value.
pub open spec fn two_digits(s: Seq<char>) -> Option<u32> {
    if s.len() == 2 && is_decimal(s) {
        Some(digits_value(s) as u32)
    } else {
        None
    }
}

proof fn lemma_two_digits_small(s: Seq<char>)
    ensures
        s.len() == 2 && is_decimal(s) ==> digits_value(s) <= 99,
{
    if s.len() == 2 && is_decimal(s) {
        let a = s.drop_last();
        assert(a.drop_last() =~= Seq::<char>::empty());
        assert(crate::decimal::is_digit(s[0]) && crate::decimal::is_digit(s[1]));
        assert(a.last() == s[0]);
        assert(s.last() == s[1]);
        assert(crate::decimal::digit_value(s[0]) <= 9);
        assert(crate::decimal::digit_value(s[1]) <= 9);
        assert(digits_value(a.drop_last()) == 0);
        assert(digits_value(a) == 10 * digits_value(a.drop_last()) + crate::decimal::digit_value(a.last()));
        assert(digits_value(a) <= 9);
        assert(digits_value(s) == 10 * digits_value(a) + crate::decimal::digit_value(s.last()));
    }
}

fn read_two_digits(s: &str) -> (r: Option<u32>)
    ensures
        r == two_digits(s@),
{
    if s.unicode_len() != 2 {
        return None;
    }
    proof {
        lemma_two_digits_small(s@);
    }
    match parse_u32(s) {
        Some(v) => Some(v),
        None => None,
    }
}

/// What `FCSTime100::from_str` reads.
pub open spec fn time100_of(s: Seq<char>) -> Option<FCSTime100> {
    match chrono_time(s, "%H:%M:%S"@) {
        Some(t) => Some(FCSTime100 { hour: t.0, minute: t.1, second: t.2, centis: 0 }),
        None => if s.len() >= 3 && s[s.len() - 3] == '.' {
            match (
                chrono_time(s.subrange(0, s.len() - 3), "%H:%M:%S"@),
                two_digits(s.subrange(s.len() - 2, s.len() as int)),
            ) {
                (Some(t), Some(c)) => Some(FCSTime100 { hour: t.0, minute: t.1, second: t.2, centis: c }),
                _ => None,
            }
        } else {
            None
        },
    }
}

impl FCSTime100 {
    /// Reads `hh:mm:ss` through chrono, or else `hh:mm:ss.cc`, where the
    /// part before the dot is read through chrono.
    pub fn from_str(s: &str) -> (r: Result<FCSTime100, FCSTime100Error>)
        ensures
            match time100_of(s@) {
                Some(v) => r == Ok::<FCSTime100, FCSTime100Error>(v),
                None => r is Err,
            },
            r matches Ok(t) ==> t.hour < 24 && t.minute < 60 && t.second < 60 && t.centis < 100,
    {
        match parse_time(s, "%H:%M:%S") {
            Some((hour, minute, second)) => {
                return Ok(FCSTime100 { hour, minute, second, centis: 0 });
            },
            None => {},
        }
        let n = s.unicode_len();
        if n < 3 || s.get_char(n - 3) != '.' {
            return Err(FCSTime100Error);
        }
        let head = s.substring_char(0, n - 3);
        let tail = s.substring_char(n - 2, n);
        match (parse_time(head, "%H:%M:%S"), read_two_digits(tail)) {
            (Some((hour, minute, second)), Some(centis)) => {
                proof {
                    lemma_two_digits_small(tail@);
                }
                Ok(FCSTime100 { hour, minute, second, centis })
            },
            _ => Err(FCSTime100Error),
        }
    }

    /// Writes `hh:mm:ss.cc`.
    pub fn to_string(&self) -> (r: String)
        ensures
            r@ == hms_text(self.hour, self.minute, self.second) + seq!['.'] + pad2(self.centis as nat),
    {
        let mut v: Vec<char> = Vec::new();
        push_hms(&mut v, self.hour, self.minute, self.second);
        v.push('.');
        push_pad2(&mut v, self.centis);
        assert(v@ =~= hms_text(self.hour, self.minute, self.second) + seq!['.'] + pad2(self.centis as nat));
        string_from_chars(&v)
    }
}

/// `$LAST_MODIFIED`: `dd-mmm-yyyy hh:mm:ss[.cc]`.
#[derive(Clone, Copy, Debug, PartialEq, Eq, Structural)]
pub struct ModifiedDateTime {
    pub date: FCSDate,
    pub time: FCSTime100,
}

#[derive(Clone, Copy, Debug, PartialEq, Eq, Structural)]
pub struct ModifiedDateTimeError;

/// What `ModifiedDateTime::from_str` reads.
pub open spec fn modified_of(s: Seq<char>) -> Option<ModifiedDateTime> {
    match chrono_datetime_prefix(s, "%d-%b-%Y %H:%M:%S"@) {
        Some(t) => {
            let date = FCSDate { year: t.0, month: t.1, day: t.2 };
            if t.6.len() == 0 {
                Some(ModifiedDateTime { date, time: FCSTime100 { hour: t.3, minute: t.4, second: t.5, centis: 0 } })
            } else if t.6.len() == 3 && t.6[0] == '.' && two_digits(t.6.subrange(1, 3)) is Some {
                Some(
                    ModifiedDateTime {
                        date,
                        time: FCSTime100 {
                            hour: t.3,
                            minute: t.4,
                            second: t.5,
                            centis: two_digits(t.6.subrange(1, 3)).unwrap(),
                        },
                    },
                )
            } else {
                None
            }
        },
        None => None,
    }
}

impl ModifiedDateTime {
    /// Reads the date and time through chrono; what is left must be
    /// nothing, or a dot and two digits of hundredths.
    pub fn from_str(s: &str) -> (r: Result<ModifiedDateTime, ModifiedDateTimeError>)
        ensures
            match modified_of(s@) {
                Some(v) => r == Ok::<ModifiedDateTime, ModifiedDateTimeError>(v),
                None => r is Err,
            },
    {
        match parse_datetime_prefix(s, "%d-%b-%Y %H:%M:%S") {
            Some((year, month, day, hour, minute, second, rest)) => {
                let date = FCSDate { year, month, day };
                let n = rest.as_str().unicode_len();
                if n == 0 {
                    Ok(ModifiedDateTime { date, time: FCSTime100 { hour, minute, second, centis: 0 } })
                } else if n == 3 && rest.as_str().get_char(0) == '.' {
                    let tail = rest.as_str().substring_char(1, 3);
                    match read_two_digits(tail) {
                        Some(centis) => Ok(
                            ModifiedDateTime { date, time: FCSTime100 { hour, minute, second, centis } },
                        ),
                        None => Err(ModifiedDateTimeError),
                    }
                } else {
                    Err(ModifiedDateTimeError)
                }
            },
            None => Err(ModifiedDateTimeError),
        }
    }

    /// Writes `dd-Mmm-yyyy hh:mm:ss.cc`.
    pub fn to_string(&self) -> (r: String)
        ensures
            r@ == date_text(self.date) + seq![' '] + hms_text(self.time.hour, self.time.minute, self.time.second)
                + seq!['.'] + pad2(self.time.centis as nat),
    {
        let mut v = chars_of(self.date.to_string().as_str());
        v.push(' ');
        push_str(&mut v, self.time.to_string().as_str());
        string_from_chars(&v)
    }
}

/// `$BEGINDATETIME` and `$ENDDATETIME` (3.2): an ISO 8601 date and time
/// with an offset from UTC.
#[derive(Clone, Copy, Debug, PartialEq, Eq, Structural)]
pub struct FCSDateTime {
    pub date: FCSDate,
    pub hour: u32,
    pub minute: u32,
    pub second: u32,
    pub nanosecond: u32,
    /// Seconds east of UTC.
    pub offset: i32,
}

#[derive(Clone, Copy, Debug, PartialEq, Eq, Structural)]
pub struct FCSDateTimeError;

fn datetime_of(t: (i32, u32, u32, u32, u32, u32, u32, i32)) -> (r: FCSDateTime)
    ensures
        r == (FCSDateTime {
            date: FCSDate { year: t.0, month: t.1, day: t.2 },
            hour: t.3,
            minute: t.4,
            second: t.5,
            nanosecond: t.6,
            offset: t.7,
        }),
{
    FCSDateTime {
        date: FCSDate { year: t.0, month: t.1, day: t.2 },
        hour: t.3,
        minute: t.4,
        second: t.5,
        nanosecond: t.6,
        offset: t.7,
    }
}

/// What `FCSDateTime::from_str` reads: the first pattern chrono accepts.
pub open spec fn datetime_text_of(s: Seq<char>) -> Option<FCSDateTime> {
    match chrono_datetime_tz(s, "%Y-%m-%dT%H:%M:%S%.f%#z"@) {
        Some(t) => Some(datetime_of_spec(t)),
        None => match chrono_datetime_tz(s, "%Y-%m-%dT%H:%M:%S%.f%:z"@) {
            Some(t) => Some(datetime_of_spec(t)),
            None => match chrono_datetime_tz(s, "%Y-%m-%dT%H:%M:%S%.f%::z"@) {
                Some(t) => Some(datetime_of_spec(t)),
                None => match chrono_datetime_tz(s, "%Y-%m-%dT%H:%M:%S%.f%:::z"@) {
                    Some(t) => Some(datetime_of_spec(t)),
                    None => None,
                },
            },
        },
    }
}

impl FCSDateTime {
    /// Reads the text with each pattern in turn (offsets written as
    /// `+hhmm`, `+hh:mm`, `+hh:mm:ss` or `+hh`) and takes the first that
    /// chrono accepts.
    pub fn from_str(s: &str) -> (r: Result<FCSDateTime, FCSDateTimeError>)
        ensures
            match datetime_text_of(s@) {
                Some(v) => r == Ok::<FCSDateTime, FCSDateTimeError>(v),
                None => r is Err,
            },
    {
        match parse_datetime_tz(s, "%Y-%m-%dT%H:%M:%S%.f%#z") {
            Some(t) => {
                return Ok(datetime_of(t));
            },
            None => {},
        }
        match parse_datetime_tz(s, "%Y-%m-%dT%H:%M:%S%.f%:z") {
            Some(t) => {
                return Ok(datetime_of(t));
            },
            None => {},
        }
        match parse_datetime_tz(s, "%Y-%m-%dT%H:%M:%S%.f%::z") {
            Some(t) => {
                return Ok(datetime_of(t));
            },
            None => {},
        }
        match parse_datetime_tz(s, "%Y-%m-%dT%H:%M:%S%.f%:::z") {
            Some(t) => Ok(datetime_of(t)),
            None => Err(FCSDateTimeError),
        }
    }

    /// Writes `yyyy-mm-ddThh:mm:ss[.nnnnnnnnn]+hh:mm`.
    pub fn to_string(&self) -> (r: String) {
        let mut v: Vec<char> = Vec::new();
        push_year(&mut v, self.date.year);
        v.push('-');
        push_pad2(&mut v, self.date.month);
        v.push('-');
        push_pad2(&mut v, self.date.day);
        v.push('T');
        push_hms(&mut v, self.hour, self.minute, self.second);
        if self.nanosecond > 0 {
            v.push('.');
            let mut scale: u32 = 100000000;
            while scale > 0
                invariant
                    scale <= 100000000,
                decreases scale,
            {
                let d = (self.nanosecond / scale) % 10;
                v.push(crate::decimal::char_of_digit(d));
                scale = scale / 10;
            }
        }
        let (sign, mag) = if self.offset < 0 {
            ('-', if self.offset == i32::MIN { 2147483648u32 } else { (-self.offset) as u32 })
        } else {
            ('+', self.offset as u32)
        };
        v.push(sign);
        push_pad2(&mut v, mag / 3600);
        v.push(':');
        push_pad2(&mut v, (mag % 3600) / 60);
        string_from_chars(&v)
    }
}

pub open spec fn datetime_of_spec(t: (i32, u32, u32, u32, u32, u32, u32, i32)) -> FCSDateTime {
    FCSDateTime {
        date: FCSDate { year: t.0, month: t.1, day: t.2 },
        hour: t.3,
        minute: t.4,
        second: t.5,
        nanosecond: t.6,
        offset: t.7,
    }
}

/// Days from 1970-01-01 to a date of the proleptic Gregorian calendar.
/// The year is shifted by a whole number of 400-year eras to keep every
/// division on non-negative numbers.
pub open spec fn days_from_civil(y: int, m: int, d: int) -> int {
    let y1 = if m <= 2 { y - 1 } else { y };
    let ys = y1 + 400 * 5368710;
    let era = ys / 400 - 5368710;
    let yoe = ys % 400;
    let mp = if m > 2 { m - 3 } else { m + 9 };
    let doy = (153 * mp + 2) / 5 + d - 1;
    let doe = yoe * 365 + yoe / 4 - yoe / 100 + doy;
    era * 146097 + doe - 719468
}

/// The instant of a date and time, in seconds since 1970-01-01 UTC, leaving
/// out the nanoseconds.
pub open spec fn instant(t: FCSDateTime) -> int {
    days_from_civil(t.date.year as int, t.date.month as int, t.date.day as int) * 86400 + t.hour * 3600
        + t.minute * 60 + t.second - t.offset
}

fn instant_exec(t: &FCSDateTime) -> (r: i128)
    ensures
        r == instant(*t),
{
    let y: i128 = t.date.year as i128;
    let m: i128 = t.date.month as i128;
    let d: i128 = t.date.day as i128;
    let y1: i128 = if m <= 2 { y - 1 } else { y };
    let ys: u128 = (y1 + 400 * 5368710) as u128;
    let era: i128 = (ys / 400) as i128 - 5368710;
    let yoe: u128 = ys % 400;
    let mp: u128 = if m > 2 { (m - 3) as u128 } else { (m + 9) as u128 };
    let doy: i128 = ((153 * mp + 2) / 5) as i128 + d - 1;
    let doe: i128 = (yoe * 365 + yoe / 4 - yoe / 100) as i128 + doy;
    assert(ys / 400 <= 20000000) by (nonlinear_arith)
        requires
            ys <= 5000000000,
    ;
    let days: i128 = era * 146097 + doe - 719468;
    days * 86400 + t.hour as i128 * 3600 + t.minute as i128 * 60 + t.second as i128 - t.offset as i128
}

/// Whether `a` is no later than `b`, comparing the instants and then the
/// nanoseconds.
pub fn not_after(a: &FCSDateTime, b: &FCSDateTime) -> (r: bool)
    ensures
        r == (instant(*a) < instant(*b) || (instant(*a) == instant(*b) && a.nanosecond <= b.nanosecond)),
{
    let ia = instant_exec(a);
    let ib = instant_exec(b);
    ia < ib || (ia == ib && a.nanosecond <= b.nanosecond)
}

} // verus!
