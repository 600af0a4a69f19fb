//! The typed values of TEXT keywords: what each is, how it is read from its
//! text, and how it is written back.
use vstd::prelude::*;
use vstd::string::*;

use crate::decimal::{
    dec_digits, digits_value, is_decimal, lemma_dec_digits, parse_u32, parse_u64, push_decimal, push_decimal_wide,
    DecError,
};
use crate::fields::{
    join_commas, join_fields, lemma_split_join, lemma_split_no_comma, no_comma, split_commas,
    split_fields, views,
};
use crate::textbuf::{chars_of, push_str, str_eq, string_from_chars};

verus! {

/// A keyword that is present with a value, or absent.
#[derive(Clone, Debug, PartialEq, Eq)]
pub enum OptionalKw<V> {
    Present(V),
    Absent,
}

impl<V> OptionalKw<V> {
    pub fn as_ref(&self) -> (r: OptionalKw<&V>)
        ensures
            match self {
                OptionalKw::Present(x) => r == OptionalKw::Present(x),
                OptionalKw::Absent => r is Absent,
            },
    {
        match self {
            OptionalKw::Present(x) => OptionalKw::Present(x),
            OptionalKw::Absent => OptionalKw::Absent,
        }
    }

    pub fn into_option(self) -> (r: Option<V>)
        ensures
            match self {
                OptionalKw::Present(x) => r == Some(x),
                OptionalKw::Absent => r is None,
            },
    {
        match self {
            OptionalKw::Present(x) => Some(x),
            OptionalKw::Absent => None,
        }
    }

    pub fn from_option(x: Option<V>) -> (r: Self)
        ensures
            match x {
                Some(v) => r == OptionalKw::Present(v),
                None => r is Absent,
            },
    {
        match x {
            Some(v) => OptionalKw::Present(v),
            None => OptionalKw::Absent,
        }
    }
}

/// The only character of a one-character text.
fn single_char(s: &str) -> (r: Option<char>)
    ensures
        r == (if s@.len() == 1 {
            Some(s@[0])
        } else {
            None::<char>
        }),
{
    if s.unicode_len() == 1 {
        Some(s.get_char(0))
    } else {
        None
    }
}

// ---------------------------------------------------------------- $DATATYPE
/// The four data types of `$DATATYPE`.
#[derive(Clone, Copy, Debug, PartialEq, Eq, Structural)]
pub enum AlphaNumType {
    Ascii,
    Integer,
    Single,
    Double,
}

#[derive(Clone, Copy, Debug, PartialEq, Eq, Structural)]
pub struct AlphaNumTypeError;

pub open spec fn alpha_num_char(v: AlphaNumType) -> char {
    match v {
        AlphaNumType::Ascii => 'A',
        AlphaNumType::Integer => 'I',
        AlphaNumType::Single => 'F',
        AlphaNumType::Double => 'D',
    }
}

pub open spec fn alpha_num_text(v: AlphaNumType) -> Seq<char> {
    seq![alpha_num_char(v)]
}

pub open spec fn alpha_num_of(s: Seq<char>) -> Option<AlphaNumType> {
    if s.len() == 1 && s[0] == 'A' {
        Some(AlphaNumType::Ascii)
    } else if s.len() == 1 && s[0] == 'I' {
        Some(AlphaNumType::Integer)
    } else if s.len() == 1 && s[0] == 'F' {
        Some(AlphaNumType::Single)
    } else if s.len() == 1 && s[0] == 'D' {
        Some(AlphaNumType::Double)
    } else {
        None
    }
}

impl AlphaNumType {
    pub fn from_str(s: &str) -> (r: Result<AlphaNumType, AlphaNumTypeError>)
        ensures
            match alpha_num_of(s@) {
                Some(v) => r == Ok::<AlphaNumType, AlphaNumTypeError>(v),
                None => r is Err,
            },
    {
        match single_char(s) {
            Some(c) => {
                assert(s@ =~= seq![c]);
                if c == 'A' {
                    Ok(AlphaNumType::Ascii)
                } else if c == 'I' {
                    Ok(AlphaNumType::Integer)
                } else if c == 'F' {
                    Ok(AlphaNumType::Single)
                } else if c == 'D' {
                    Ok(AlphaNumType::Double)
                } else {
                    Err(AlphaNumTypeError)
                }
            },
            None => Err(AlphaNumTypeError),
        }
    }

    pub fn to_string(&self) -> (r: String)
        ensures
            r@ == alpha_num_text(*self),
    {
        let mut v: Vec<char> = Vec::new();
        let c = match self {
            AlphaNumType::Ascii => 'A',
            AlphaNumType::Integer => 'I',
            AlphaNumType::Single => 'F',
            AlphaNumType::Double => 'D',
        };
        v.push(c);
        assert(v@ =~= alpha_num_text(*self));
        string_from_chars(&v)
    }
}

/// Reading what was written gives the same data type.
pub proof fn lemma_alpha_num_round_trip(v: AlphaNumType)
    ensures
        alpha_num_of(alpha_num_text(v)) == Some(v),
{
}

// -------------------------------------------------------------- $PnDATATYPE
/// The three numeric types of `$PnDATATYPE`.
#[derive(Clone, Copy, Debug, PartialEq, Eq, Structural)]
pub enum NumType {
    Integer,
    Single,
    Double,
}

#[derive(Clone, Copy, Debug, PartialEq, Eq, Structural)]
pub struct NumTypeError;

pub open spec fn num_type_text(v: NumType) -> Seq<char> {
    match v {
        NumType::Integer => seq!['I'],
        NumType::Single => seq!['F'],
        NumType::Double => seq!['D'],
    }
}

pub open spec fn num_type_of(s: Seq<char>) -> Option<NumType> {
    if s.len() == 1 && s[0] == 'I' {
        Some(NumType::Integer)
    } else if s.len() == 1 && s[0] == 'F' {
        Some(NumType::Single)
    } else if s.len() == 1 && s[0] == 'D' {
        Some(NumType::Double)
    } else {
        None
    }
}

pub open spec fn num_to_alpha(v: NumType) -> AlphaNumType {
    match v {
        NumType::Integer => AlphaNumType::Integer,
        NumType::Single => AlphaNumType::Single,
        NumType::Double => AlphaNumType::Double,
    }
}

impl NumType {
    pub fn from_str(s: &str) -> (r: Result<NumType, NumTypeError>)
        ensures
            match num_type_of(s@) {
                Some(v) => r == Ok::<NumType, NumTypeError>(v),
                None => r is Err,
            },
    {
        match single_char(s) {
            Some(c) => {
                assert(s@ =~= seq![c]);
                if c == 'I' {
                    Ok(NumType::Integer)
                } else if c == 'F' {
                    Ok(NumType::Single)
                } else if c == 'D' {
                    Ok(NumType::Double)
                } else {
                    Err(NumTypeError)
                }
            },
            None => Err(NumTypeError),
        }
    }

    pub fn to_string(&self) -> (r: String)
        ensures
            r@ == num_type_text(*self),
    {
        let mut v: Vec<char> = Vec::new();
        let c = match self {
            NumType::Integer => 'I',
            NumType::Single => 'F',
            NumType::Double => 'D',
        };
        v.push(c);
        assert(v@ =~= num_type_text(*self));
        string_from_chars(&v)
    }

    /// The same type as a `$DATATYPE`.
    pub fn to_alpha_num(self) -> (r: AlphaNumType)
        ensures
            r == num_to_alpha(self),
    {
        match self {
            NumType::Integer => AlphaNumType::Integer,
            NumType::Single => AlphaNumType::Single,
            NumType::Double => AlphaNumType::Double,
        }
    }
}

pub proof fn lemma_num_type_round_trip(v: NumType)
    ensures
        num_type_of(num_type_text(v)) == Some(v),
{
}

// -------------------------------------------------------------------- $MODE
/// The `$MODE` of a file: list, uncorrelated or correlated histograms.
#[derive(Clone, Copy, Debug, PartialEq, Eq, Structural)]
pub enum Mode {
    List,
    Uncorrelated,
    Correlated,
}

#[derive(Clone, Copy, Debug, PartialEq, Eq, Structural)]
pub struct ModeError;

pub open spec fn mode_text(v: Mode) -> Seq<char> {
    match v {
        Mode::List => seq!['L'],
        Mode::Uncorrelated => seq!['U'],
        Mode::Correlated => seq!['C'],
    }
}

pub open spec fn mode_of(s: Seq<char>) -> Option<Mode> {
    if s.len() == 1 && s[0] == 'L' {
        Some(Mode::List)
    } else if s.len() == 1 && s[0] == 'U' {
        Some(Mode::Uncorrelated)
    } else if s.len() == 1 && s[0] == 'C' {
        Some(Mode::Correlated)
    } else {
        None
    }
}

impl Mode {
    pub fn from_str(s: &str) -> (r: Result<Mode, ModeError>)
        ensures
            match mode_of(s@) {
                Some(v) => r == Ok::<Mode, ModeError>(v),
                None => r is Err,
            },
    {
        match single_char(s) {
            Some(c) => {
                assert(s@ =~= seq![c]);
                if c == 'L' {
                    Ok(Mode::List)
                } else if c == 'U' {
                    Ok(Mode::Uncorrelated)
                } else if c == 'C' {
                    Ok(Mode::Correlated)
                } else {
                    Err(ModeError)
                }
            },
            None => Err(ModeError),
        }
    }

    pub fn to_string(&self) -> (r: String)
        ensures
            r@ == mode_text(*self),
    {
        let mut v: Vec<char> = Vec::new();
        let c = match self {
            Mode::List => 'L',
            Mode::Uncorrelated => 'U',
            Mode::Correlated => 'C',
        };
        v.push(c);
        assert(v@ =~= mode_text(*self));
        string_from_chars(&v)
    }
}

pub proof fn lemma_mode_round_trip(v: Mode)
    ensures
        mode_of(mode_text(v)) == Some(v),
{
}

/// `$MODE` in version 3.2, where only `L` is allowed.
#[derive(Clone, Copy, Debug, PartialEq, Eq, Structural)]
pub struct Mode3_2;

#[derive(Clone, Copy, Debug, PartialEq, Eq, Structural)]
pub struct Mode3_2Error;

impl Mode3_2 {
    pub fn from_str(s: &str) -> (r: Result<Mode3_2, Mode3_2Error>)
        ensures
            r is Ok <==> s@ == seq!['L'],
    {
        match single_char(s) {
            Some(c) => {
                assert(s@ =~= seq![c]);
                if c == 'L' {
                    Ok(Mode3_2)
                } else {
                    Err(Mode3_2Error)
                }
            },
            None => Err(Mode3_2Error),
        }
    }

    pub fn to_string(&self) -> (r: String)
        ensures
            r@ == seq!['L'],
    {
        let mut v: Vec<char> = Vec::new();
        v.push('L');
        assert(v@ =~= seq!['L']);
        string_from_chars(&v)
    }
}

// --------------------------------------------------------------------- $PnB
/// The width of a measurement: a fixed number of bytes (1 to 8), or `*`
/// for variable width.
#[derive(Clone, Copy, Debug, PartialEq, Eq, Structural)]
pub enum Bytes {
    Fixed(u8),
    Variable,
}

#[derive(Clone, Copy, Debug, PartialEq, Eq, Structural)]
pub enum BytesError {
    /// Not `*` and not a decimal number of bits.
    Int,
    /// More than 64 bits, or none.
    Range,
    /// A number of bits that is not a multiple of 8.
    NotOctet,
}

pub open spec fn bytes_text(v: Bytes) -> Seq<char> {
    match v {
        Bytes::Fixed(b) => dec_digits(8 * b as nat),
        Bytes::Variable => seq!['*'],
    }
}

pub open spec fn bytes_valid(v: Bytes) -> bool {
    match v {
        Bytes::Fixed(b) => 1 <= b <= 8,
        Bytes::Variable => true,
    }
}

pub open spec fn bytes_of(s: Seq<char>) -> Option<Bytes> {
    if s == seq!['*'] {
        Some(Bytes::Variable)
    } else if is_decimal(s) && 1 <= digits_value(s) <= 64 && digits_value(s) % 8 == 0 {
        Some(Bytes::Fixed((digits_value(s) / 8) as u8))
    } else {
        None
    }
}

impl Bytes {
    pub fn from_str(s: &str) -> (r: Result<Bytes, BytesError>)
        ensures
            match bytes_of(s@) {
                Some(v) => r == Ok::<Bytes, BytesError>(v),
                None => r is Err,
            },
    {
        if single_char(s) == Some('*') {
            assert(s@ =~= seq!['*']);
            return Ok(Bytes::Variable);
        }
        assert(s@ != seq!['*']);
        match parse_u64(s) {
            Ok(x) => {
                if x < 1 || x > 64 {
                    Err(BytesError::Range)
                } else if x % 8 != 0 {
                    Err(BytesError::NotOctet)
                } else {
                    Ok(Bytes::Fixed((x / 8) as u8))
                }
            },
            Err(DecError::Overflow) => Err(BytesError::Range),
            Err(DecError::InvalidDigit) => Err(BytesError::Int),
        }
    }

    pub fn to_string(&self) -> (r: String)
        ensures
            r@ == bytes_text(*self),
    {
        let mut v: Vec<char> = Vec::new();
        match self {
            Bytes::Fixed(b) => {
                push_decimal(&mut v, 8 * (*b as u64));
                assert(v@ =~= bytes_text(*self));
            },
            Bytes::Variable => {
                v.push('*');
                assert(v@ =~= bytes_text(*self));
            },
        }
        string_from_chars(&v)
    }
}

/// Every width read from text is valid; writing a valid width and reading
/// it back gives the same width.
pub proof fn lemma_bytes_round_trip(v: Bytes)
    requires
        bytes_valid(v),
    ensures
        bytes_of(bytes_text(v)) == Some(v),
{
    match v {
        Bytes::Fixed(b) => {
            lemma_dec_digits(8 * b as nat);
            assert(dec_digits(8 * b as nat) != seq!['*']) by {
                assert(crate::decimal::is_digit(dec_digits(8 * b as nat)[0]));
            }
        },
        Bytes::Variable => {},
    }
}

pub proof fn lemma_bytes_parsed_valid(s: Seq<char>)
    ensures
        bytes_of(s) matches Some(v) ==> bytes_valid(v),
{
}

// --------------------------------------------------------------------- $PnR
/// The range of a measurement. An integer `$PnR` is kept as `$PnR - 1`,
/// saturated to `u64::MAX`; other numbers are kept as their text.
#[derive(Clone, Debug, PartialEq, Eq)]
pub enum Range {
    Int(u64),
    Float(String),
}

/// The view of a range.
pub ghost enum RangeV {
    Int(u64),
    Float(Seq<char>),
}

impl View for Range {
    type V = RangeV;

    open spec fn view(&self) -> RangeV {
        match self {
            Range::Int(x) => RangeV::Int(*x),
            Range::Float(t) => RangeV::Float(t@),
        }
    }
}

#[derive(Clone, Copy, Debug, PartialEq, Eq, Structural)]
pub struct RangeError;

/// The states of a scanner for decimal numbers with an optional sign,
/// fraction and exponent.
pub open spec fn num_step(st: u8, c: char) -> u8 {
    let digit = '0' <= c && c <= '9';
    let sign = c == '+' || c == '-';
    let dot = c == '.';
    let e = c == 'e' || c == 'E';
    if st == 0 {
        if sign { 1 } else if digit { 2 } else if dot { 4 } else { 9 }
    } else if st == 1 {
        if digit { 2 } else if dot { 4 } else { 9 }
    } else if st == 2 {
        if digit { 2 } else if dot { 3 } else if e { 6 } else { 9 }
    } else if st == 3 {
        if digit { 5 } else if e { 6 } else { 9 }
    } else if st == 4 {
        if digit { 5 } else { 9 }
    } else if st == 5 {
        if digit { 5 } else if e { 6 } else { 9 }
    } else if st == 6 {
        if sign { 7 } else if digit { 8 } else { 9 }
    } else if st == 7 || st == 8 {
        if digit { 8 } else { 9 }
    } else {
        9
    }
}

pub open spec fn num_state(s: Seq<char>) -> u8
    decreases s.len(),
{
    if s.len() == 0 {
        0
    } else {
        num_step(num_state(s.drop_last()), s.last())
    }
}

/// A decimal number such as `-1.5e3`, `2.` or `.25`.
pub open spec fn is_number_text(s: Seq<char>) -> bool {
    let st = num_state(s);
    st == 2 || st == 3 || st == 5 || st == 8
}

fn num_step_exec(st: u8, c: char) -> (r: u8)
    ensures
        r == num_step(st, c),
{
    let digit = '0' <= c && c <= '9';
    let sign = c == '+' || c == '-';
    let dot = c == '.';
    let e = c == 'e' || c == 'E';
    if st == 0 {
        if sign { 1 } else if digit { 2 } else if dot { 4 } else { 9 }
    } else if st == 1 {
        if digit { 2 } else if dot { 4 } else { 9 }
    } else if st == 2 {
        if digit { 2 } else if dot { 3 } else if e { 6 } else { 9 }
    } else if st == 3 {
        if digit { 5 } else if e { 6 } else { 9 }
    } else if st == 4 {
        if digit { 5 } else { 9 }
    } else if st == 5 {
        if digit { 5 } else if e { 6 } else { 9 }
    } else if st == 6 {
        if sign { 7 } else if digit { 8 } else { 9 }
    } else if st == 7 || st == 8 {
        if digit { 8 } else { 9 }
    } else {
        9
    }
}

/// Whether a text is a decimal number.
pub fn number_text(s: &str) -> (r: bool)
    ensures
        r == is_number_text(s@),
{
    let n = s.unicode_len();
    let mut st: u8 = 0;
    let mut i: usize = 0;
    while i < n
        invariant
            n == s@.len(),
            i <= n,
            st == num_state(s@.subrange(0, i as int)),
        decreases n - i,
    {
        assert(s@.subrange(0, i + 1).drop_last() =~= s@.subrange(0, i as int));
        st = num_step_exec(st, s.get_char(i));
        i = i + 1;
    }
    assert(s@.subrange(0, n as int) =~= s@);
    st == 2 || st == 3 || st == 5 || st == 8
}

/// `$PnR - 1` from an integer `$PnR`, 0 for 0, and `u64::MAX` beyond.
pub open spec fn range_int(v: nat) -> u64 {
    if v == 0 {
        0
    } else if v - 1 > u64::MAX {
        u64::MAX
    } else {
        (v - 1) as u64
    }
}

pub open spec fn range_of(s: Seq<char>) -> Option<RangeV> {
    if is_decimal(s) {
        Some(RangeV::Int(range_int(digits_value(s))))
    } else if is_number_text(s) {
        Some(RangeV::Float(s))
    } else {
        None
    }
}

pub open spec fn range_text(v: RangeV) -> Seq<char> {
    match v {
        RangeV::Int(x) => dec_digits((x + 1) as nat),
        RangeV::Float(t) => t,
    }
}

pub open spec fn range_valid(v: RangeV) -> bool {
    match v {
        RangeV::Int(_) => true,
        RangeV::Float(t) => is_number_text(t) && !is_decimal(t),
    }
}

impl Range {
    pub fn from_str(s: &str) -> (r: Result<Range, RangeError>)
        ensures
            match range_of(s@) {
                Some(v) => r matches Ok(x) && x@ == v,
                None => r is Err,
            },
    {
        match parse_u64(s) {
            Ok(x) => Ok(Range::Int(if x == 0 { 0 } else { x - 1 })),
            Err(DecError::Overflow) => Ok(Range::Int(u64::MAX)),
            Err(DecError::InvalidDigit) => {
                if number_text(s) {
                    let t = string_from_chars(&chars_of(s));
                    Ok(Range::Float(t))
                } else {
                    Err(RangeError)
                }
            },
        }
    }

    pub fn to_string(&self) -> (r: String)
        ensures
            r@ == range_text(self@),
    {
        match self {
            Range::Int(x) => {
                let mut v: Vec<char> = Vec::new();
                push_decimal_wide(&mut v, *x as u128 + 1);
                assert(v@ =~= range_text(self@));
                string_from_chars(&v)
            },
            Range::Float(t) => string_from_chars(&chars_of(t.as_str())),
        }
    }
}

/// An integer `$PnR` of `2^64` or more is kept as `u64::MAX`.
pub proof fn lemma_range_saturates(s: Seq<char>)
    requires
        is_decimal(s),
        digits_value(s) >= 18446744073709551616nat,
    ensures
        range_of(s) == Some(RangeV::Int(u64::MAX)),
{
}

/// Writing a range and reading it back gives the same range.
pub proof fn lemma_range_round_trip(v: RangeV)
    requires
        range_valid(v),
    ensures
        range_of(range_text(v)) == Some(v),
{
    match v {
        RangeV::Int(x) => {
            lemma_dec_digits((x + 1) as nat);
        },
        RangeV::Float(t) => {},
    }
}

pub proof fn lemma_range_parsed_valid(s: Seq<char>)
    ensures
        range_of(s) matches Some(v) ==> range_valid(v),
{
}

// ---------------------------------------------------------------- Shortname
/// The value of `$PnN`: a name without commas.
#[derive(Clone, Debug, PartialEq, Eq, Hash)]
pub struct Shortname(pub String);

#[derive(Clone, Debug, PartialEq, Eq)]
pub struct ShortnameError(pub String);

impl Shortname {
    pub fn from_str(s: &str) -> (r: Result<Shortname, ShortnameError>)
        ensures
            r matches Ok(v) ==> no_comma(s@) && v.0@ == s@,
            r matches Err(e) ==> !no_comma(s@) && e.0@ == s@,
    {
        let cs = chars_of(s);
        let mut i: usize = 0;
        while i < cs.len()
            invariant
                cs@ == s@,
                i <= cs@.len(),
                forall|j: int| 0 <= j < i ==> cs@[j] != ',',
            decreases cs@.len() - i,
        {
            if cs[i] == ',' {
                return Err(ShortnameError(string_from_chars(&cs)));
            }
            i = i + 1;
        }
        Ok(Shortname(string_from_chars(&cs)))
    }

    /// A name taken as it is, commas or not.
    pub fn new_unchecked(s: &str) -> (r: Shortname)
        ensures
            r.0@ == s@,
    {
        Shortname(string_from_chars(&chars_of(s)))
    }

    /// The default name of the `n`-th measurement, `M<n>`.
    pub fn from_index(n: u64) -> (r: Shortname)
        ensures
            r.0@ == seq!['M'] + dec_digits(n as nat),
    {
        let mut v: Vec<char> = Vec::new();
        v.push('M');
        push_decimal(&mut v, n);
        assert(v@ =~= seq!['M'] + dec_digits(n as nat));
        Shortname(string_from_chars(&v))
    }

    pub fn to_string(&self) -> (r: String)
        ensures
            r@ == self.0@,
    {
        string_from_chars(&chars_of(self.0.as_str()))
    }

    pub fn as_str(&self) -> (r: &str)
        ensures
            r@ == self.0@,
    {
        self.0.as_str()
    }
}

impl ShortnameError {
    pub fn message(&self) -> (r: String) {
        let mut v: Vec<char> = Vec::new();
        push_str(&mut v, "commas are not allowed in name '");
        push_str(&mut v, self.0.as_str());
        push_str(&mut v, "'");
        string_from_chars(&v)
    }
}

// ------------------------------------------------------------------ $TR
/// The trigger: a measurement name and a threshold.
#[derive(Clone, Debug, PartialEq, Eq)]
pub struct Trigger {
    pub measurement: String,
    pub threshold: u32,
}

#[derive(Clone, Copy, Debug, PartialEq, Eq, Structural)]
pub enum TriggerError {
    WrongFieldNumber,
    IntFormat,
}

pub open spec fn trigger_of(s: Seq<char>) -> Option<(Seq<char>, u32)> {
    let p = split_commas(s);
    if p.len() == 2 && is_decimal(p[1]) && digits_value(p[1]) <= u32::MAX {
        Some((p[0], digits_value(p[1]) as u32))
    } else {
        None
    }
}

pub open spec fn trigger_text(name: Seq<char>, threshold: u32) -> Seq<char> {
    name + seq![','] + dec_digits(threshold as nat)
}

impl Trigger {
    pub fn from_str(s: &str) -> (r: Result<Trigger, TriggerError>)
        ensures
            match trigger_of(s@) {
                Some((n, t)) => r matches Ok(x) && x.measurement@ == n && x.threshold == t,
                None => r is Err,
            },
    {
        let parts = split_fields(s);
        if parts.len() != 2 {
            return Err(TriggerError::WrongFieldNumber);
        }
        assert(parts@[1]@ == split_commas(s@)[1]);
        match parse_u32(parts[1].as_str()) {
            Some(threshold) => {
                let measurement = string_from_chars(&chars_of(parts[0].as_str()));
                assert(parts@[0]@ == split_commas(s@)[0]);
                Ok(Trigger { measurement, threshold })
            },
            None => Err(TriggerError::IntFormat),
        }
    }

    pub fn to_string(&self) -> (r: String)
        ensures
            r@ == trigger_text(self.measurement@, self.threshold),
    {
        let mut v: Vec<char> = Vec::new();
        push_str(&mut v, self.measurement.as_str());
        v.push(',');
        push_decimal(&mut v, self.threshold as u64);
        assert(v@ =~= trigger_text(self.measurement@, self.threshold));
        string_from_chars(&v)
    }
}

/// Writing a trigger whose name has no comma and reading it back gives the
/// same trigger; names read from text never have one.
pub proof fn lemma_trigger_round_trip(name: Seq<char>, threshold: u32)
    requires
        no_comma(name),
    ensures
        trigger_of(trigger_text(name, threshold)) == Some((name, threshold)),
{
    lemma_dec_digits(threshold as nat);
    let parts = seq![name, dec_digits(threshold as nat)];
    assert(no_comma(dec_digits(threshold as nat)));
    assert(parts.drop_last() =~= seq![name]);
    assert(join_commas(parts.drop_last()) == name);
    assert(join_commas(parts) =~= trigger_text(name, threshold));
    lemma_split_join(parts);
}

pub proof fn lemma_trigger_parsed_valid(s: Seq<char>)
    ensures
        trigger_of(s) matches Some(t) ==> no_comma(t.0),
{
    lemma_split_no_comma(s);
}

// ----------------------------------------------------------------- $BYTEORD
/// Little or big endian byte order.
#[derive(Clone, Copy, Debug, PartialEq, Eq, Structural)]
pub enum Endian {
    Little,
    Big,
}

#[derive(Clone, Copy, Debug, PartialEq, Eq, Structural)]
pub struct EndianError;

/// A byte order: an endianness, or the position of each byte, counted
/// from 0.
#[derive(Clone, Debug, PartialEq, Eq)]
pub enum ByteOrd {
    Endian(Endian),
    Mixed(Vec<u8>),
}

pub ghost enum ByteOrdV {
    Endian(Endian),
    Mixed(Seq<u8>),
}

impl View for ByteOrd {
    type V = ByteOrdV;

    open spec fn view(&self) -> ByteOrdV {
        match self {
            ByteOrd::Endian(e) => ByteOrdV::Endian(*e),
            ByteOrd::Mixed(xs) => ByteOrdV::Mixed(xs@),
        }
    }
}

#[derive(Clone, Copy, Debug, PartialEq, Eq, Structural)]
pub enum ParseByteOrdError {
    InvalidOrder,
    InvalidNumbers,
}

/// Each position below the length, and no position twice: a permutation
/// of `0..len`.
pub open spec fn is_perm(xs: Seq<u8>) -> bool {
    &&& forall|i: int| 0 <= i < xs.len() ==> (#[trigger] xs[i]) < xs.len()
    &&& forall|i: int, j: int| 0 <= i < j < xs.len() ==> xs[i] != xs[j]
}

pub open spec fn little_seq() -> Seq<u8> {
    seq![0u8, 1, 2, 3]
}

pub open spec fn big_seq() -> Seq<u8> {
    seq![3u8, 2, 1, 0]
}

/// The byte positions a byte order stands for.
pub open spec fn order_seq(v: ByteOrdV) -> Seq<u8> {
    match v {
        ByteOrdV::Endian(Endian::Little) => little_seq(),
        ByteOrdV::Endian(Endian::Big) => big_seq(),
        ByteOrdV::Mixed(xs) => xs,
    }
}

/// The fields of a written byte order: each position plus one.
pub open spec fn order_parts(xs: Seq<u8>) -> Seq<Seq<char>> {
    xs.map_values(|x: u8| dec_digits((x + 1) as nat))
}

pub open spec fn byteord_text(v: ByteOrdV) -> Seq<char> {
    join_commas(order_parts(order_seq(v)))
}

/// The positions that the fields of a byte order give, when each is a
/// number from 1 to the number of fields.
pub open spec fn parts_order(p: Seq<Seq<char>>) -> Option<Seq<u8>> {
    if p.len() <= 255 && forall|i: int|
        0 <= i < p.len() ==> is_decimal(#[trigger] p[i]) && 1 <= digits_value(p[i]) <= p.len() {
        Some(p.map_values(|t: Seq<char>| (digits_value(t) - 1) as u8))
    } else {
        None
    }
}

pub open spec fn order_to_byteord(xs: Seq<u8>) -> ByteOrdV {
    if xs == little_seq() {
        ByteOrdV::Endian(Endian::Little)
    } else if xs == big_seq() {
        ByteOrdV::Endian(Endian::Big)
    } else {
        ByteOrdV::Mixed(xs)
    }
}

pub open spec fn byteord_of(s: Seq<char>) -> Option<ByteOrdV> {
    match parts_order(split_commas(s)) {
        Some(xs) => if is_perm(xs) {
            Some(order_to_byteord(xs))
        } else {
            None
        },
        None => None,
    }
}

pub open spec fn byteord_valid(v: ByteOrdV) -> bool {
    match v {
        ByteOrdV::Endian(_) => true,
        ByteOrdV::Mixed(xs) => 1 <= xs.len() <= 255 && is_perm(xs) && xs != little_seq() && xs
            != big_seq(),
    }
}

fn order_of_parts(parts: &Vec<String>) -> (r: Option<Vec<u8>>)
    ensures
        match parts_order(views(parts@)) {
            Some(xs) => r matches Some(v) && v@ == xs,
            None => r is None,
        },
{
    let n = parts.len();
    if n > 255 {
        return None;
    }
    let mut xs: Vec<u8> = Vec::new();
    let mut i: usize = 0;
    while i < n
        invariant
            n == parts@.len(),
            n <= 255,
            i <= n,
            forall|j: int|
                0 <= j < i ==> is_decimal(#[trigger] views(parts@)[j]) && 1 <= digits_value(
                    views(parts@)[j],
                ) <= n,
            xs@ == views(parts@).subrange(0, i as int).map_values(
                |t: Seq<char>| (digits_value(t) - 1) as u8,
            ),
        decreases n - i,
    {
        assert(views(parts@)[i as int] == parts@[i as int]@);
        match parse_u64(parts[i].as_str()) {
            Ok(v) => {
                if v < 1 || v > n as u64 {
                    return None;
                }
                xs.push((v - 1) as u8);
            },
            Err(_) => {
                return None;
            },
        }
        i = i + 1;
        assert(xs@ =~= views(parts@).subrange(0, i as int).map_values(
            |t: Seq<char>| (digits_value(t) - 1) as u8,
        ));
    }
    assert(views(parts@).subrange(0, n as int) =~= views(parts@));
    Some(xs)
}

fn check_perm(xs: &Vec<u8>) -> (r: bool)
    ensures
        r == is_perm(xs@),
{
    let n = xs.len();
    let mut i: usize = 0;
    while i < n
        invariant
            n == xs@.len(),
            i <= n,
            forall|a: int| 0 <= a < i ==> (#[trigger] xs@[a]) < n,
            forall|a: int, b: int| 0 <= a < b < n && a < i ==> xs@[a] != xs@[b],
        decreases n - i,
    {
        if xs[i] as usize >= n {
            return false;
        }
        let mut j: usize = i + 1;
        while j < n
            invariant
                n == xs@.len(),
                i < n,
                i + 1 <= j <= n,
                forall|b: int| i < b < j ==> xs@[i as int] != xs@[b],
            decreases n - j,
        {
            if xs[i] == xs[j] {
                return false;
            }
            j = j + 1;
        }
        i = i + 1;
    }
    true
}

fn seq_is(xs: &Vec<u8>, a: u8, b: u8, c: u8, d: u8) -> (r: bool)
    ensures
        r == (xs@ == seq![a, b, c, d]),
{
    if xs.len() == 4 && xs[0] == a && xs[1] == b && xs[2] == c && xs[3] == d {
        assert(xs@ =~= seq![a, b, c, d]);
        true
    } else {
        false
    }
}

impl ByteOrd {
    /// Reads a byte order. Where it is read as a list of positions, these
    /// are a permutation of `0..n`.
    pub fn from_str(s: &str) -> (r: Result<ByteOrd, ParseByteOrdError>)
        ensures
            match byteord_of(s@) {
                Some(v) => r matches Ok(x) && x@ == v,
                None => r is Err,
            },
            r matches Ok(ByteOrd::Mixed(xs)) ==> is_perm(xs@),
    {
        let parts = split_fields(s);
        match order_of_parts(&parts) {
            Some(xs) => {
                if !check_perm(&xs) {
                    Err(ParseByteOrdError::InvalidOrder)
                } else if seq_is(&xs, 0, 1, 2, 3) {
                    Ok(ByteOrd::Endian(Endian::Little))
                } else if seq_is(&xs, 3, 2, 1, 0) {
                    Ok(ByteOrd::Endian(Endian::Big))
                } else {
                    Ok(ByteOrd::Mixed(xs))
                }
            },
            None => Err(ParseByteOrdError::InvalidNumbers),
        }
    }

    /// The byte positions this order stands for.
    pub fn positions(&self) -> (r: Vec<u8>)
        ensures
            r@ == order_seq(self@),
    {
        match self {
            ByteOrd::Endian(Endian::Little) => {
                let v = vec![0u8, 1, 2, 3];
                assert(v@ =~= little_seq());
                v
            },
            ByteOrd::Endian(Endian::Big) => {
                let v = vec![3u8, 2, 1, 0];
                assert(v@ =~= big_seq());
                v
            },
            ByteOrd::Mixed(xs) => xs.clone(),
        }
    }

    pub fn to_string(&self) -> (r: String)
        ensures
            r@ == byteord_text(self@),
    {
        let xs = self.positions();
        let mut parts: Vec<String> = Vec::new();
        let mut i: usize = 0;
        while i < xs.len()
            invariant
                i <= xs@.len(),
                views(parts@) == order_parts(xs@.subrange(0, i as int)),
            decreases xs@.len() - i,
        {
            let ghost before = parts@;
            parts.push(crate::decimal::u64_to_string(xs[i] as u64 + 1));
            assert(views(parts@) =~= views(before).push(dec_digits((xs@[i as int] + 1) as nat)));
            assert(xs@.subrange(0, i + 1) =~= xs@.subrange(0, i as int).push(xs@[i as int]));
            assert(order_parts(xs@.subrange(0, i + 1)) =~= order_parts(xs@.subrange(0, i as int)).push(
                dec_digits((xs@[i as int] + 1) as nat),
            ));
            i = i + 1;
        }
        assert(xs@.subrange(0, xs@.len() as int) =~= xs@);
        join_fields(&parts)
    }

    /// The number of bytes the order covers; an endianness stands for four.
    pub fn num_bytes(&self) -> (r: usize)
        ensures
            r == order_seq(self@).len(),
    {
        match self {
            ByteOrd::Endian(_) => 4,
            ByteOrd::Mixed(xs) => xs.len(),
        }
    }
}

/// Writing a byte order and reading it back gives the same order.
pub proof fn lemma_byteord_round_trip(v: ByteOrdV)
    requires
        byteord_valid(v),
    ensures
        byteord_of(byteord_text(v)) == Some(v),
{
    let xs = order_seq(v);
    let parts = order_parts(xs);
    assert forall|i: int| 0 <= i < parts.len() implies no_comma(#[trigger] parts[i]) by {
        lemma_dec_digits((xs[i] + 1) as nat);
    }
    assert(is_perm(xs)) by {
        if v is Endian {
            assert(xs.len() == 4);
        }
    }
    lemma_split_join(parts);
    assert forall|i: int| 0 <= i < parts.len() implies is_decimal(#[trigger] parts[i])
        && 1 <= digits_value(parts[i]) <= parts.len() by {
        lemma_dec_digits((xs[i] + 1) as nat);
    }
    let m = parts.map_values(|t: Seq<char>| (digits_value(t) - 1) as u8);
    assert forall|i: int| 0 <= i < xs.len() implies #[trigger] m[i] == xs[i] by {
        lemma_dec_digits((xs[i] + 1) as nat);
    }
    assert(m =~= xs);
}

/// Byte orders read from text are valid, and their positions form a
/// permutation.
pub proof fn lemma_byteord_parsed_valid(s: Seq<char>)
    ensures
        byteord_of(s) matches Some(v) ==> byteord_valid(v) && is_perm(order_seq(v)),
{
    if let Some(v) = byteord_of(s) {
        lemma_split_len_pub(s);
    }
}

proof fn lemma_split_len_pub(s: Seq<char>)
    ensures
        split_commas(s).len() >= 1,
    decreases s.len(),
{
    if s.len() > 0 {
        lemma_split_len_pub(s.drop_last());
    }
}

pub open spec fn endian_of(s: Seq<char>) -> Option<Endian> {
    match byteord_of(s) {
        Some(ByteOrdV::Endian(e)) => Some(e),
        _ => None,
    }
}

impl Endian {
    /// Reads `1,2,3,4` (little) or `4,3,2,1` (big).
    pub fn from_str(s: &str) -> (r: Result<Endian, EndianError>)
        ensures
            match endian_of(s@) {
                Some(e) => r == Ok::<Endian, EndianError>(e),
                None => r is Err,
            },
    {
        match ByteOrd::from_str(s) {
            Ok(ByteOrd::Endian(e)) => Ok(e),
            _ => Err(EndianError),
        }
    }

    pub fn to_string(&self) -> (r: String)
        ensures
            r@ == byteord_text(ByteOrdV::Endian(*self)),
    {
        ByteOrd::Endian(*self).to_string()
    }
}

pub proof fn lemma_endian_round_trip(e: Endian)
    ensures
        endian_of(byteord_text(ByteOrdV::Endian(e))) == Some(e),
{
    lemma_byteord_round_trip(ByteOrdV::Endian(e));
}

// --------------------------------------------------------------------- $PnL
/// Wavelengths of a measurement (3.1 and later).
#[derive(Clone, Debug, PartialEq, Eq)]
pub struct Wavelengths(pub Vec<u32>);

#[derive(Clone, Copy, Debug, PartialEq, Eq, Structural)]
pub struct WavelengthsError;

pub open spec fn wavelengths_parts(xs: Seq<u32>) -> Seq<Seq<char>> {
    xs.map_values(|x: u32| dec_digits(x as nat))
}

pub open spec fn wavelengths_text(xs: Seq<u32>) -> Seq<char> {
    join_commas(wavelengths_parts(xs))
}

pub open spec fn wavelengths_of(s: Seq<char>) -> Option<Seq<u32>> {
    let p = split_commas(s);
    if forall|i: int| 0 <= i < p.len() ==> is_decimal(#[trigger] p[i]) && digits_value(p[i]) <= u32::MAX {
        Some(p.map_values(|t: Seq<char>| digits_value(t) as u32))
    } else {
        None
    }
}

impl Wavelengths {
    pub fn from_str(s: &str) -> (r: Result<Wavelengths, WavelengthsError>)
        ensures
            match wavelengths_of(s@) {
                Some(xs) => r matches Ok(w) && w.0@ == xs,
                None => r is Err,
            },
    {
        let parts = split_fields(s);
        let n = parts.len();
        let mut xs: Vec<u32> = Vec::new();
        let mut i: usize = 0;
        while i < n
            invariant
                n == parts@.len(),
                views(parts@) == split_commas(s@),
                i <= n,
                forall|j: int|
                    0 <= j < i ==> is_decimal(#[trigger] views(parts@)[j]) && digits_value(
                        views(parts@)[j],
                    ) <= u32::MAX,
                xs@ == views(parts@).subrange(0, i as int).map_values(
                    |t: Seq<char>| digits_value(t) as u32,
                ),
            decreases n - i,
        {
            assert(views(parts@)[i as int] == parts@[i as int]@);
            match parse_u32(parts[i].as_str()) {
                Some(v) => xs.push(v),
                None => {
                    assert(views(parts@) == split_commas(s@));
                    return Err(WavelengthsError);
                },
            }
            i = i + 1;
            assert(xs@ =~= views(parts@).subrange(0, i as int).map_values(
                |t: Seq<char>| digits_value(t) as u32,
            ));
        }
        assert(views(parts@).subrange(0, n as int) =~= views(parts@));
        Ok(Wavelengths(xs))
    }

    pub fn to_string(&self) -> (r: String)
        ensures
            r@ == wavelengths_text(self.0@),
    {
        let mut parts: Vec<String> = Vec::new();
        let mut i: usize = 0;
        while i < self.0.len()
            invariant
                i <= self.0@.len(),
                views(parts@) == wavelengths_parts(self.0@.subrange(0, i as int)),
            decreases self.0@.len() - i,
        {
            let ghost before = parts@;
            parts.push(crate::decimal::u64_to_string(self.0[i] as u64));
            assert(views(parts@) =~= views(before).push(dec_digits(self.0@[i as int] as nat)));
            assert(self.0@.subrange(0, i + 1) =~= self.0@.subrange(0, i as int).push(self.0@[i as int]));
            assert(wavelengths_parts(self.0@.subrange(0, i + 1)) =~= wavelengths_parts(
                self.0@.subrange(0, i as int),
            ).push(dec_digits(self.0@[i as int] as nat)));
            i = i + 1;
        }
        assert(self.0@.subrange(0, self.0@.len() as int) =~= self.0@);
        join_fields(&parts)
    }
}

/// Writing wavelengths and reading them back gives the same wavelengths.
pub proof fn lemma_wavelengths_round_trip(xs: Seq<u32>)
    requires
        xs.len() >= 1,
    ensures
        wavelengths_of(wavelengths_text(xs)) == Some(xs),
{
    let parts = wavelengths_parts(xs);
    assert forall|i: int| 0 <= i < parts.len() implies no_comma(#[trigger] parts[i]) by {
        lemma_dec_digits(xs[i] as nat);
    }
    lemma_split_join(parts);
    assert forall|i: int| 0 <= i < parts.len() implies is_decimal(#[trigger] parts[i])
        && digits_value(parts[i]) <= u32::MAX by {
        lemma_dec_digits(xs[i] as nat);
    }
    let m = parts.map_values(|t: Seq<char>| digits_value(t) as u32);
    assert forall|i: int| 0 <= i < xs.len() implies #[trigger] m[i] == xs[i] by {
        lemma_dec_digits(xs[i] as nat);
    }
    assert(m =~= xs);
}

// ----------------------------------------------------------------- $PnFEATURE
/// The feature of a measurement (3.2).
#[derive(Clone, Copy, Debug, PartialEq, Eq, Structural)]
pub enum Feature {
    Area,
    Width,
    Height,
}

#[derive(Clone, Copy, Debug, PartialEq, Eq, Structural)]
pub struct FeatureError;

pub open spec fn feature_text(v: Feature) -> Seq<char> {
    match v {
        Feature::Area => seq!['A', 'r', 'e', 'a'],
        Feature::Width => seq!['W', 'i', 'd', 't', 'h'],
        Feature::Height => seq!['H', 'e', 'i', 'g', 'h', 't'],
    }
}

pub open spec fn feature_of(s: Seq<char>) -> Option<Feature> {
    if s == feature_text(Feature::Area) {
        Some(Feature::Area)
    } else if s == feature_text(Feature::Width) {
        Some(Feature::Width)
    } else if s == feature_text(Feature::Height) {
        Some(Feature::Height)
    } else {
        None
    }
}

impl Feature {
    pub fn from_str(s: &str) -> (r: Result<Feature, FeatureError>)
        ensures
            match feature_of(s@) {
                Some(v) => r == Ok::<Feature, FeatureError>(v),
                None => r is Err,
            },
    {
        proof {
            reveal_strlit("Area");
            reveal_strlit("Width");
            reveal_strlit("Height");
            assert("Area"@ =~= feature_text(Feature::Area));
            assert("Width"@ =~= feature_text(Feature::Width));
            assert("Height"@ =~= feature_text(Feature::Height));
        }
        if str_eq(s, "Area") {
            Ok(Feature::Area)
        } else if str_eq(s, "Width") {
            Ok(Feature::Width)
        } else if str_eq(s, "Height") {
            Ok(Feature::Height)
        } else {
            Err(FeatureError)
        }
    }

    pub fn to_string(&self) -> (r: String)
        ensures
            r@ == feature_text(*self),
    {
        proof {
            reveal_strlit("Area");
            reveal_strlit("Width");
            reveal_strlit("Height");
        }
        let mut v: Vec<char> = Vec::new();
        match self {
            Feature::Area => push_str(&mut v, "Area"),
            Feature::Width => push_str(&mut v, "Width"),
            Feature::Height => push_str(&mut v, "Height"),
        }
        assert(v@ =~= feature_text(*self));
        string_from_chars(&v)
    }
}

pub proof fn lemma_feature_round_trip(v: Feature)
    ensures
        feature_of(feature_text(v)) == Some(v),
{
    assert(feature_text(Feature::Area).len() == 4);
    assert(feature_text(Feature::Width).len() == 5);
    assert(feature_text(Feature::Height).len() == 6);
}

// ------------------------------------------------------------- $ORIGINALITY
/// Whether DATA is the instrument's original (3.1 and later).
#[derive(Clone, Copy, Debug, PartialEq, Eq, Structural)]
pub enum Originality {
    Original,
    NonDataModified,
    Appended,
    DataModified,
}

#[derive(Clone, Copy, Debug, PartialEq, Eq, Structural)]
pub struct OriginalityError;

pub open spec fn originality_text(v: Originality) -> Seq<char> {
    match v {
        Originality::Original => seq!['O', 'r', 'i', 'g', 'i', 'n', 'a', 'l'],
        Originality::NonDataModified => seq![
            'N', 'o', 'n', 'D', 'a', 't', 'a', 'M', 'o', 'd', 'i', 'f', 'i', 'e', 'd'
        ],
        Originality::Appended => seq!['A', 'p', 'p', 'e', 'n', 'd', 'e', 'd'],
        Originality::DataModified => seq!['D', 'a', 't', 'a', 'M', 'o', 'd', 'i', 'f', 'i', 'e', 'd'],
    }
}

pub open spec fn originality_of(s: Seq<char>) -> Option<Originality> {
    if s == originality_text(Originality::Original) {
        Some(Originality::Original)
    } else if s == originality_text(Originality::NonDataModified) {
        Some(Originality::NonDataModified)
    } else if s == originality_text(Originality::Appended) {
        Some(Originality::Appended)
    } else if s == originality_text(Originality::DataModified) {
        Some(Originality::DataModified)
    } else {
        None
    }
}

impl Originality {
    pub fn from_str(s: &str) -> (r: Result<Originality, OriginalityError>)
        ensures
            match originality_of(s@) {
                Some(v) => r == Ok::<Originality, OriginalityError>(v),
                None => r is Err,
            },
    {
        proof {
            reveal_strlit("Original");
            reveal_strlit("NonDataModified");
            reveal_strlit("Appended");
            reveal_strlit("DataModified");
            assert("Original"@ =~= originality_text(Originality::Original));
            assert("NonDataModified"@ =~= originality_text(Originality::NonDataModified));
            assert("Appended"@ =~= originality_text(Originality::Appended));
            assert("DataModified"@ =~= originality_text(Originality::DataModified));
        }
        if str_eq(s, "Original") {
            Ok(Originality::Original)
        } else if str_eq(s, "NonDataModified") {
            Ok(Originality::NonDataModified)
        } else if str_eq(s, "Appended") {
            Ok(Originality::Appended)
        } else if str_eq(s, "DataModified") {
            Ok(Originality::DataModified)
        } else {
            Err(OriginalityError)
        }
    }

    pub fn to_string(&self) -> (r: String)
        ensures
            r@ == originality_text(*self),
    {
        proof {
            reveal_strlit("Original");
            reveal_strlit("NonDataModified");
            reveal_strlit("Appended");
            reveal_strlit("DataModified");
        }
        let mut v: Vec<char> = Vec::new();
        match self {
            Originality::Original => push_str(&mut v, "Original"),
            Originality::NonDataModified => push_str(&mut v, "NonDataModified"),
            Originality::Appended => push_str(&mut v, "Appended"),
            Originality::DataModified => push_str(&mut v, "DataModified"),
        }
        assert(v@ =~= originality_text(*self));
        string_from_chars(&v)
    }
}

pub proof fn lemma_originality_round_trip(v: Originality)
    ensures
        originality_of(originality_text(v)) == Some(v),
{
    assert(originality_text(Originality::Original)[0] != originality_text(Originality::Appended)[0]);
    assert(originality_text(Originality::Original).len() == 8);
    assert(originality_text(Originality::Appended).len() == 8);
    assert(originality_text(Originality::NonDataModified).len() == 15);
    assert(originality_text(Originality::DataModified).len() == 12);
}

// ------------------------------------------------------------------ $PnTYPE
/// What a measurement measures (3.2); other texts are kept as they are.
#[derive(Clone, Debug, PartialEq, Eq)]
pub enum MeasurementType {
    ForwardScatter,
    SideScatter,
    RawFluorescence,
    UnmixedFluorescence,
    Mass,
    Time,
    ElectronicVolume,
    Classification,
    Index,
    Other(String),
}

pub ghost enum MeasurementTypeV {
    ForwardScatter,
    SideScatter,
    RawFluorescence,
    UnmixedFluorescence,
    Mass,
    Time,
    ElectronicVolume,
    Classification,
    Index,
    Other(Seq<char>),
}

impl View for MeasurementType {
    type V = MeasurementTypeV;

    open spec fn view(&self) -> MeasurementTypeV {
        match self {
            MeasurementType::ForwardScatter => MeasurementTypeV::ForwardScatter,
            MeasurementType::SideScatter => MeasurementTypeV::SideScatter,
            MeasurementType::RawFluorescence => MeasurementTypeV::RawFluorescence,
            MeasurementType::UnmixedFluorescence => MeasurementTypeV::UnmixedFluorescence,
            MeasurementType::Mass => MeasurementTypeV::Mass,
            MeasurementType::Time => MeasurementTypeV::Time,
            MeasurementType::ElectronicVolume => MeasurementTypeV::ElectronicVolume,
            MeasurementType::Classification => MeasurementTypeV::Classification,
            MeasurementType::Index => MeasurementTypeV::Index,
            MeasurementType::Other(t) => MeasurementTypeV::Other(t@),
        }
    }
}

pub open spec fn known_measurement_type(s: Seq<char>) -> bool {
    s == "Forward Scatter"@
        || s == "Side Scatter"@
        || s == "Raw Fluorescence"@
        || s == "Unmixed Fluorescence"@
        || s == "Mass"@
        || s == "Time"@
        || s == "Electronic Volume"@
        || s == "Classification"@
        || s == "Index"@
}

pub open spec fn measurement_type_text(v: MeasurementTypeV) -> Seq<char> {
    match v {
        MeasurementTypeV::ForwardScatter => "Forward Scatter"@,
        MeasurementTypeV::SideScatter => "Side Scatter"@,
        MeasurementTypeV::RawFluorescence => "Raw Fluorescence"@,
        MeasurementTypeV::UnmixedFluorescence => "Unmixed Fluorescence"@,
        MeasurementTypeV::Mass => "Mass"@,
        MeasurementTypeV::Time => "Time"@,
        MeasurementTypeV::ElectronicVolume => "Electronic Volume"@,
        MeasurementTypeV::Classification => "Classification"@,
        MeasurementTypeV::Index => "Index"@,
        MeasurementTypeV::Other(t) => t,
    }
}

pub open spec fn measurement_type_of(s: Seq<char>) -> MeasurementTypeV {
    if s == "Forward Scatter"@ {
        MeasurementTypeV::ForwardScatter
    } else if s == "Side Scatter"@ {
        MeasurementTypeV::SideScatter
    } else if s == "Raw Fluorescence"@ {
        MeasurementTypeV::RawFluorescence
    } else if s == "Unmixed Fluorescence"@ {
        MeasurementTypeV::UnmixedFluorescence
    } else if s == "Mass"@ {
        MeasurementTypeV::Mass
    } else if s == "Time"@ {
        MeasurementTypeV::Time
    } else if s == "Electronic Volume"@ {
        MeasurementTypeV::ElectronicVolume
    } else if s == "Classification"@ {
        MeasurementTypeV::Classification
    } else if s == "Index"@ {
        MeasurementTypeV::Index
    } else {
        MeasurementTypeV::Other(s)
    }
}

impl MeasurementType {
    /// Reads a measurement type; this never fails.
    pub fn from_str(s: &str) -> (r: MeasurementType)
        ensures
            r@ == measurement_type_of(s@),
    {
        if str_eq(s, "Forward Scatter") {
            MeasurementType::ForwardScatter
        } else if str_eq(s, "Side Scatter") {
            MeasurementType::SideScatter
        } else if str_eq(s, "Raw Fluorescence") {
            MeasurementType::RawFluorescence
        } else if str_eq(s, "Unmixed Fluorescence") {
            MeasurementType::UnmixedFluorescence
        } else if str_eq(s, "Mass") {
            MeasurementType::Mass
        } else if str_eq(s, "Time") {
            MeasurementType::Time
        } else if str_eq(s, "Electronic Volume") {
            MeasurementType::ElectronicVolume
        } else if str_eq(s, "Classification") {
            MeasurementType::Classification
        } else if str_eq(s, "Index") {
            MeasurementType::Index
        } else {
            MeasurementType::Other(string_from_chars(&chars_of(s)))
        }
    }

    pub fn to_string(&self) -> (r: String)
        ensures
            r@ == measurement_type_text(self@),
    {
        let mut v: Vec<char> = Vec::new();
        match self {
            MeasurementType::ForwardScatter => push_str(&mut v, "Forward Scatter"),
            MeasurementType::SideScatter => push_str(&mut v, "Side Scatter"),
            MeasurementType::RawFluorescence => push_str(&mut v, "Raw Fluorescence"),
            MeasurementType::UnmixedFluorescence => push_str(&mut v, "Unmixed Fluorescence"),
            MeasurementType::Mass => push_str(&mut v, "Mass"),
            MeasurementType::Time => push_str(&mut v, "Time"),
            MeasurementType::ElectronicVolume => push_str(&mut v, "Electronic Volume"),
            MeasurementType::Classification => push_str(&mut v, "Classification"),
            MeasurementType::Index => push_str(&mut v, "Index"),
            MeasurementType::Other(t) => push_str(&mut v, t.as_str()),
        }
        string_from_chars(&v)
    }
}

/// Writing a measurement type and reading it back gives the same type,
/// for every type that reading can give.
pub proof fn lemma_measurement_type_round_trip(v: MeasurementTypeV)
    requires
        v matches MeasurementTypeV::Other(t) ==> !known_measurement_type(t),
    ensures
        measurement_type_of(measurement_type_text(v)) == v,
{
    reveal_strlit("Forward Scatter");
    reveal_strlit("Side Scatter");
    reveal_strlit("Raw Fluorescence");
    reveal_strlit("Unmixed Fluorescence");
    reveal_strlit("Mass");
    reveal_strlit("Time");
    reveal_strlit("Electronic Volume");
    reveal_strlit("Classification");
    reveal_strlit("Index");
    assert("Forward Scatter"@.len() != "Side Scatter"@.len());
    assert("Forward Scatter"@.len() != "Raw Fluorescence"@.len());
    assert("Forward Scatter"@.len() != "Unmixed Fluorescence"@.len());
    assert("Forward Scatter"@.len() != "Mass"@.len());
    assert("Forward Scatter"@.len() != "Time"@.len());
    assert("Forward Scatter"@.len() != "Electronic Volume"@.len());
    assert("Forward Scatter"@.len() != "Classification"@.len());
    assert("Forward Scatter"@.len() != "Index"@.len());
    assert("Side Scatter"@.len() != "Raw Fluorescence"@.len());
    assert("Side Scatter"@.len() != "Unmixed Fluorescence"@.len());
    assert("Side Scatter"@.len() != "Mass"@.len());
    assert("Side Scatter"@.len() != "Time"@.len());
    assert("Side Scatter"@.len() != "Electronic Volume"@.len());
    assert("Side Scatter"@.len() != "Classification"@.len());
    assert("Side Scatter"@.len() != "Index"@.len());
    assert("Raw Fluorescence"@.len() != "Unmixed Fluorescence"@.len());
    assert("Raw Fluorescence"@.len() != "Mass"@.len());
    assert("Raw Fluorescence"@.len() != "Time"@.len());
    assert("Raw Fluorescence"@.len() != "Electronic Volume"@.len());
    assert("Raw Fluorescence"@.len() != "Classification"@.len());
    assert("Raw Fluorescence"@.len() != "Index"@.len());
    assert("Unmixed Fluorescence"@.len() != "Mass"@.len());
    assert("Unmixed Fluorescence"@.len() != "Time"@.len());
    assert("Unmixed Fluorescence"@.len() != "Electronic Volume"@.len());
    assert("Unmixed Fluorescence"@.len() != "Classification"@.len());
    assert("Unmixed Fluorescence"@.len() != "Index"@.len());
    assert("Mass"@[0] != "Time"@[0]);
    assert("Mass"@.len() != "Electronic Volume"@.len());
    assert("Mass"@.len() != "Classification"@.len());
    assert("Mass"@.len() != "Index"@.len());
    assert("Time"@.len() != "Electronic Volume"@.len());
    assert("Time"@.len() != "Classification"@.len());
    assert("Time"@.len() != "Index"@.len());
    assert("Electronic Volume"@.len() != "Classification"@.len());
    assert("Electronic Volume"@.len() != "Index"@.len());
    assert("Classification"@.len() != "Index"@.len());
}

// ---------------------------------------------------------------- $UNICODE
/// The code page of `$UNICODE` and the keywords written in it.
#[derive(Clone, Debug, PartialEq, Eq)]
pub struct Unicode {
    pub page: u32,
    pub kws: Vec<String>,
}

#[derive(Clone, Copy, Debug, PartialEq, Eq, Structural)]
pub enum UnicodeError {
    NoKeywords,
    BadPage,
}

pub open spec fn unicode_of(s: Seq<char>) -> Option<(u32, Seq<Seq<char>>)> {
    let p = split_commas(s);
    if p.len() >= 2 && is_decimal(p[0]) && digits_value(p[0]) <= u32::MAX {
        Some((digits_value(p[0]) as u32, p.drop_first()))
    } else {
        None
    }
}

pub open spec fn unicode_text(page: u32, kws: Seq<Seq<char>>) -> Seq<char> {
    join_commas(seq![dec_digits(page as nat)] + kws)
}

impl Unicode {
    pub fn from_str(s: &str) -> (r: Result<Unicode, UnicodeError>)
        ensures
            match unicode_of(s@) {
                Some((page, kws)) => r matches Ok(u) && u.page == page && views(u.kws@) == kws,
                None => r is Err,
            },
    {
        let parts = split_fields(s);
        if parts.len() < 2 {
            return Err(UnicodeError::NoKeywords);
        }
        assert(views(parts@)[0] == parts@[0]@);
        match parse_u32(parts[0].as_str()) {
            Some(page) => {
                let mut kws: Vec<String> = Vec::new();
                let mut i: usize = 1;
                while i < parts.len()
                    invariant
                        1 <= i <= parts@.len(),
                        views(kws@) == views(parts@).subrange(1, i as int),
                    decreases parts@.len() - i,
                {
                    let ghost before = kws@;
                    kws.push(string_from_chars(&chars_of(parts[i].as_str())));
                    assert(views(kws@) =~= views(before).push(parts@[i as int]@));
                    assert(views(parts@).subrange(1, i + 1) =~= views(parts@).subrange(1, i as int).push(
                        parts@[i as int]@,
                    ));
                    i = i + 1;
                }
                assert(views(parts@).subrange(1, parts@.len() as int) =~= views(parts@).drop_first());
                Ok(Unicode { page, kws })
            },
            None => Err(UnicodeError::BadPage),
        }
    }

    pub fn to_string(&self) -> (r: String)
        ensures
            r@ == unicode_text(self.page, views(self.kws@)),
    {
        let mut parts: Vec<String> = Vec::new();
        parts.push(crate::decimal::u64_to_string(self.page as u64));
        let mut i: usize = 0;
        while i < self.kws.len()
            invariant
                i <= self.kws@.len(),
                views(parts@) == seq![dec_digits(self.page as nat)] + views(self.kws@).subrange(0, i as int),
            decreases self.kws@.len() - i,
        {
            let ghost before = parts@;
            parts.push(string_from_chars(&chars_of(self.kws[i].as_str())));
            assert(views(parts@) =~= views(before).push(self.kws@[i as int]@));
            assert(views(self.kws@).subrange(0, i + 1) =~= views(self.kws@).subrange(0, i as int).push(
                self.kws@[i as int]@,
            ));
            i = i + 1;
        }
        assert(views(self.kws@).subrange(0, self.kws@.len() as int) =~= views(self.kws@));
        join_fields(&parts)
    }
}

/// Writing `$UNICODE` with at least one keyword, none with a comma, and
/// reading it back gives the same page and keywords.
pub proof fn lemma_unicode_round_trip(page: u32, kws: Seq<Seq<char>>)
    requires
        kws.len() >= 1,
        forall|i: int| 0 <= i < kws.len() ==> no_comma(#[trigger] kws[i]),
    ensures
        unicode_of(unicode_text(page, kws)) == Some((page, kws)),
{
    let parts = seq![dec_digits(page as nat)] + kws;
    lemma_dec_digits(page as nat);
    assert forall|i: int| 0 <= i < parts.len() implies no_comma(#[trigger] parts[i]) by {
        if i > 0 {
            assert(parts[i] == kws[i - 1]);
        }
    }
    lemma_split_join(parts);
    assert(parts.drop_first() =~= kws);
}

// ----------------------------------------------------------- number texts
/// Every digit before the exponent is `0`.
pub open spec fn mantissa_zero(s: Seq<char>) -> bool
    decreases s.len(),
{
    if s.len() == 0 {
        true
    } else if s[0] == 'e' || s[0] == 'E' {
        true
    } else if '1' <= s[0] && s[0] <= '9' {
        false
    } else {
        mantissa_zero(s.drop_first())
    }
}

/// A decimal number whose value is zero.
pub open spec fn is_zero_text(s: Seq<char>) -> bool {
    is_number_text(s) && mantissa_zero(s)
}

pub fn zero_text(s: &str) -> (r: bool)
    ensures
        r == is_zero_text(s@),
{
    if !number_text(s) {
        return false;
    }
    let n = s.unicode_len();
    let mut i: usize = 0;
    assert(s@.subrange(0, n as int) =~= s@);
    while i < n
        invariant
            n == s@.len(),
            i <= n,
            is_number_text(s@),
            mantissa_zero(s@) == mantissa_zero(s@.subrange(i as int, n as int)),
        decreases n - i,
    {
        let c = s.get_char(i);
        assert(s@.subrange(i as int, n as int).drop_first() =~= s@.subrange(i + 1, n as int));
        assert(s@.subrange(i as int, n as int)[0] == c);
        if c == 'e' || c == 'E' {
            return true;
        }
        if '1' <= c && c <= '9' {
            return false;
        }
        i = i + 1;
    }
    assert(s@.subrange(n as int, n as int) =~= Seq::<char>::empty());
    true
}

/// `$PnE` of a linear scale: two numbers, both zero.
pub open spec fn is_linear_scale_text(s: Seq<char>) -> bool {
    let p = split_commas(s);
    p.len() == 2 && is_zero_text(p[0]) && is_zero_text(p[1])
}

pub fn linear_scale_text(s: &str) -> (r: bool)
    ensures
        r == is_linear_scale_text(s@),
{
    let parts = split_fields(s);
    if parts.len() != 2 {
        return false;
    }
    assert(views(parts@)[0] == parts@[0]@ && views(parts@)[1] == parts@[1]@);
    zero_text(parts[0].as_str()) && zero_text(parts[1].as_str())
}

/// The states of a scanner for the number one written as `1`, `+01`,
/// `1.`, `1.000` and the like.
pub open spec fn one_step(st: u8, c: char) -> u8 {
    if st == 0 {
        if c == '+' { 1 } else if c == '0' { 2 } else if c == '1' { 3 } else { 9 }
    } else if st == 1 || st == 2 {
        if c == '0' { 2 } else if c == '1' { 3 } else { 9 }
    } else if st == 3 {
        if c == '.' { 4 } else { 9 }
    } else if st == 4 {
        if c == '0' { 4 } else { 9 }
    } else {
        9
    }
}

pub open spec fn one_state(s: Seq<char>) -> u8
    decreases s.len(),
{
    if s.len() == 0 {
        0
    } else {
        one_step(one_state(s.drop_last()), s.last())
    }
}

/// The number one, written without an exponent.
pub open spec fn is_one_text(s: Seq<char>) -> bool {
    one_state(s) == 3 || one_state(s) == 4
}

pub fn one_text(s: &str) -> (r: bool)
    ensures
        r == is_one_text(s@),
{
    let n = s.unicode_len();
    let mut st: u8 = 0;
    let mut i: usize = 0;
    while i < n
        invariant
            n == s@.len(),
            i <= n,
            st == one_state(s@.subrange(0, i as int)),
        decreases n - i,
    {
        assert(s@.subrange(0, i + 1).drop_last() =~= s@.subrange(0, i as int));
        let c = s.get_char(i);
        st = if st == 0 {
            if c == '+' { 1 } else if c == '0' { 2 } else if c == '1' { 3 } else { 9 }
        } else if st == 1 || st == 2 {
            if c == '0' { 2 } else if c == '1' { 3 } else { 9 }
        } else if st == 3 {
            if c == '.' { 4 } else { 9 }
        } else if st == 4 {
            if c == '0' { 4 } else { 9 }
        } else {
            9
        };
        i = i + 1;
    }
    assert(s@.subrange(0, n as int) =~= s@);
    st == 3 || st == 4
}

// ----------------------------------------------------- matrices of numbers
/// No two of the texts are equal.
pub open spec fn distinct_texts(p: Seq<Seq<char>>) -> bool {
    forall|i: int, j: int| 0 <= i < j < p.len() ==> p[i] != p[j]
}

pub open spec fn all_numbers(p: Seq<Seq<char>>) -> bool {
    forall|i: int| 0 <= i < p.len() ==> is_number_text(#[trigger] p[i])
}

/// The fields of a value that starts with a count `n`, when that count
/// parses.
pub open spec fn counted(s: Seq<char>) -> Option<(nat, Seq<Seq<char>>)> {
    let p = split_commas(s);
    if is_decimal(p[0]) {
        Some((digits_value(p[0]), p))
    } else {
        None
    }
}

/// `$SPILLOVER`: `n`, `n` distinct names, then `n * n` numbers row by row.
pub open spec fn spillover_of(s: Seq<char>) -> Option<(Seq<Seq<char>>, Seq<Seq<char>>)> {
    match counted(s) {
        Some((n, p)) => if p.len() == 1 + n + n * n && distinct_texts(p.subrange(1, 1 + n as int))
            && all_numbers(p.subrange(1 + n as int, p.len() as int)) {
            Some((p.subrange(1, 1 + n as int), p.subrange(1 + n as int, p.len() as int)))
        } else {
            None
        },
        None => None,
    }
}

/// `$COMP`: `n`, then `n * n` numbers row by row.
pub open spec fn compensation_of(s: Seq<char>) -> Option<Seq<Seq<char>>> {
    match counted(s) {
        Some((n, p)) => if p.len() == 1 + n * n && all_numbers(p.subrange(1, p.len() as int)) {
            Some(p.subrange(1, p.len() as int))
        } else {
            None
        },
        None => None,
    }
}

/// `$UNSTAINEDCENTERS`: `n`, `n` distinct names, then `n` numbers.
pub open spec fn unstained_of(s: Seq<char>) -> Option<(Seq<Seq<char>>, Seq<Seq<char>>)> {
    match counted(s) {
        Some((n, p)) => if p.len() == 1 + 2 * n && distinct_texts(p.subrange(1, 1 + n as int))
            && all_numbers(p.subrange(1 + n as int, p.len() as int)) {
            Some((p.subrange(1, 1 + n as int), p.subrange(1 + n as int, p.len() as int)))
        } else {
            None
        },
        None => None,
    }
}

/// The spillover matrix: measurement names and `n * n` numbers, kept as
/// their text, row by row.
#[derive(Clone, Debug, PartialEq, Eq)]
pub struct Spillover {
    pub measurements: Vec<String>,
    pub matrix: Vec<String>,
}

/// The compensation matrix of 3.0: `n * n` numbers, kept as their text.
#[derive(Clone, Debug, PartialEq, Eq)]
pub struct Compensation {
    pub matrix: Vec<String>,
}

/// Unstained centers: names and one number each, kept as text.
#[derive(Clone, Debug, PartialEq, Eq)]
pub struct UnstainedCenters {
    pub names: Vec<String>,
    pub values: Vec<String>,
}

fn copy_fields(parts: &Vec<String>, a: usize, b: usize) -> (r: Vec<String>)
    requires
        a <= b <= parts@.len(),
    ensures
        views(r@) == views(parts@).subrange(a as int, b as int),
{
    let mut out: Vec<String> = Vec::new();
    let mut i: usize = a;
    while i < b
        invariant
            a <= i <= b,
            b <= parts@.len(),
            views(out@) == views(parts@).subrange(a as int, i as int),
        decreases b - i,
    {
        let ghost before = out@;
        out.push(string_from_chars(&chars_of(parts[i].as_str())));
        assert(views(out@) =~= views(before).push(parts@[i as int]@));
        assert(views(parts@).subrange(a as int, i + 1) =~= views(parts@).subrange(a as int, i as int).push(
            parts@[i as int]@,
        ));
        i = i + 1;
    }
    out
}

fn fields_distinct(parts: &Vec<String>, a: usize, b: usize) -> (r: bool)
    requires
        a <= b <= parts@.len(),
    ensures
        r == distinct_texts(views(parts@).subrange(a as int, b as int)),
{
    let ghost p = views(parts@).subrange(a as int, b as int);
    let mut i: usize = a;
    while i < b
        invariant
            a <= i <= b,
            b <= parts@.len(),
            p == views(parts@).subrange(a as int, b as int),
            forall|x: int, y: int| 0 <= x < y < p.len() && x < i - a ==> p[x] != p[y],
        decreases b - i,
    {
        let mut j: usize = i + 1;
        while j < b
            invariant
                a <= i < b,
                i + 1 <= j <= b,
                b <= parts@.len(),
                p == views(parts@).subrange(a as int, b as int),
                forall|x: int, y: int| 0 <= x < y < p.len() && x < i - a ==> p[x] != p[y],
                forall|y: int| i - a < y < j - a ==> p[i - a] != #[trigger] p[y],
            decreases b - j,
        {
            if str_eq(parts[i].as_str(), parts[j].as_str()) {
                assert(p[i - a] == p[j - a]);
                return false;
            }
            j = j + 1;
        }
        i = i + 1;
    }
    true
}

fn fields_numbers(parts: &Vec<String>, a: usize, b: usize) -> (r: bool)
    requires
        a <= b <= parts@.len(),
    ensures
        r == all_numbers(views(parts@).subrange(a as int, b as int)),
{
    let ghost p = views(parts@).subrange(a as int, b as int);
    let mut i: usize = a;
    while i < b
        invariant
            a <= i <= b,
            b <= parts@.len(),
            p == views(parts@).subrange(a as int, b as int),
            forall|x: int| 0 <= x < i - a ==> is_number_text(#[trigger] p[x]),
        decreases b - i,
    {
        if !number_text(parts[i].as_str()) {
            assert(p[i - a] == parts@[i as int]@);
            return false;
        }
        i = i + 1;
    }
    true
}

/// The count at the head of a value, with its fields.
fn count_fields(s: &str) -> (r: (Vec<String>, Option<u64>))
    ensures
        views(r.0@) == split_commas(s@),
        r.0@.len() >= 1,
        match counted(s@) {
            Some((n, _)) => match r.1 {
                Some(v) => v == n,
                None => n > u64::MAX,
            },
            None => r.1 is None,
        },
{
    let parts = split_fields(s);
    assert(views(parts@)[0] == parts@[0]@);
    let n = match parse_u64(parts[0].as_str()) {
        Ok(n) => Some(n),
        Err(_) => None,
    };
    (parts, n)
}

/// Reads `$SPILLOVER`.
pub fn parse_spillover(s: &str) -> (r: Result<Spillover, String>)
    ensures
        match spillover_of(s@) {
            Some((names, vals)) => r matches Ok(x) && views(x.measurements@) == names && views(x.matrix@) == vals,
            None => r is Err,
        },
{
    let (parts, n) = count_fields(s);
    let len = parts.len() as u128;
    let n = match n {
        Some(n) if (n as u128) < len => n as usize,
        _ => {
            proof {
                if let Some((c, _)) = counted(s@) {
                    assert(c * c >= c) by (nonlinear_arith)
                        requires
                            c >= 0,
                    ;
                }
            }
            return Err(string_from_chars(&chars_of("Could not determine length")));
        },
    };
    assert((n as u128) * (n as u128) <= 0xffff_ffff_ffff_ffff_ffff_ffff_ffff_ffff) by (nonlinear_arith)
        requires
            n <= 0xffff_ffff_ffff_ffff,
    ;
    assert((n as u128) * (n as u128) <= 0xffff_ffff_ffff_fffe_0000_0000_0000_0001) by (nonlinear_arith)
        requires
            n <= 0xffff_ffff_ffff_ffff,
    ;
    if len != 1 + n as u128 + (n as u128) * (n as u128) {
        return Err(string_from_chars(&chars_of("Wrong number of entries")));
    }
    if !fields_distinct(&parts, 1, 1 + n) {
        return Err(string_from_chars(&chars_of("Names in sequence is not unique")));
    }
    if !fields_numbers(&parts, 1 + n, parts.len()) {
        return Err(string_from_chars(&chars_of("Float could not be parsed")));
    }
    Ok(Spillover { measurements: copy_fields(&parts, 1, 1 + n), matrix: copy_fields(&parts, 1 + n, parts.len()) })
}

/// Reads `$COMP`.
pub fn parse_compensation(s: &str) -> (r: Result<Compensation, String>)
    ensures
        match compensation_of(s@) {
            Some(vals) => r matches Ok(x) && views(x.matrix@) == vals,
            None => r is Err,
        },
{
    let (parts, n) = count_fields(s);
    let len = parts.len() as u128;
    let n = match n {
        Some(n) if (n as u128) < len => n as usize,
        _ => {
            proof {
                if let Some((c, _)) = counted(s@) {
                    assert(c * c >= c) by (nonlinear_arith)
                        requires
                            c >= 0,
                    ;
                }
            }
            return Err(string_from_chars(&chars_of("Could not determine length")));
        },
    };
    assert((n as u128) * (n as u128) <= 0xffff_ffff_ffff_ffff_ffff_ffff_ffff_ffff) by (nonlinear_arith)
        requires
            n <= 0xffff_ffff_ffff_ffff,
    ;
    assert((n as u128) * (n as u128) <= 0xffff_ffff_ffff_fffe_0000_0000_0000_0001) by (nonlinear_arith)
        requires
            n <= 0xffff_ffff_ffff_ffff,
    ;
    if len != 1 + (n as u128) * (n as u128) {
        return Err(string_from_chars(&chars_of("Wrong number of entries")));
    }
    if !fields_numbers(&parts, 1, parts.len()) {
        return Err(string_from_chars(&chars_of("Float could not be parsed")));
    }
    Ok(Compensation { matrix: copy_fields(&parts, 1, parts.len()) })
}

/// Reads `$UNSTAINEDCENTERS`.
pub fn parse_unstained_centers(s: &str) -> (r: Result<UnstainedCenters, String>)
    ensures
        match unstained_of(s@) {
            Some((names, vals)) => r matches Ok(x) && views(x.names@) == names && views(x.values@) == vals,
            None => r is Err,
        },
{
    let (parts, n) = count_fields(s);
    let len = parts.len() as u128;
    let n = match n {
        Some(n) if (n as u128) < len => n as usize,
        _ => {
            proof {
                if let Some((c, _)) = counted(s@) {
                    assert(c * c >= c) by (nonlinear_arith)
                        requires
                            c >= 0,
                    ;
                }
            }
            return Err(string_from_chars(&chars_of("Could not determine length")));
        },
    };
    assert((n as u128) * (n as u128) <= 0xffff_ffff_ffff_ffff_ffff_ffff_ffff_ffff) by (nonlinear_arith)
        requires
            n <= 0xffff_ffff_ffff_ffff,
    ;
    assert((n as u128) * (n as u128) <= 0xffff_ffff_ffff_fffe_0000_0000_0000_0001) by (nonlinear_arith)
        requires
            n <= 0xffff_ffff_ffff_ffff,
    ;
    if len != 1 + 2 * (n as u128) {
        return Err(string_from_chars(&chars_of("Wrong number of entries")));
    }
    if !fields_distinct(&parts, 1, 1 + n) {
        return Err(string_from_chars(&chars_of("Names in sequence is not unique")));
    }
    if !fields_numbers(&parts, 1 + n, parts.len()) {
        return Err(string_from_chars(&chars_of("Float could not be parsed")));
    }
    Ok(UnstainedCenters { names: copy_fields(&parts, 1, 1 + n), values: copy_fields(&parts, 1 + n, parts.len()) })
}

} // verus!
