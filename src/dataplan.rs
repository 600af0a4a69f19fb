//! Planning how DATA is decoded, and decoding the integer and ASCII layouts.
use vstd::arithmetic::power2::{lemma2_to64, lemma2_to64_rest, lemma_pow2_strictly_increases, lemma_pow2_unfold, pow2};
use vstd::prelude::*;

use crate::config::DataReadConfig;
use crate::error::{Failure, PureErrorBuf, PureErrorLevel, PureSuccess};
use crate::kwstate::Measurement;
use crate::textbuf::{chars_of, push_str, string_from_chars};
use crate::values::{is_perm, order_seq, AlphaNumType, ByteOrd, ByteOrdV, Bytes, Endian, NumType, Range};

verus! {

/// The widths of all measurements, when all are fixed; or variable, when
/// none is.
#[derive(Clone, Debug, PartialEq, Eq)]
pub enum EventWidth {
    Finite(Vec<u8>),
    Variable,
}

pub open spec fn all_fixed(ms: Seq<Measurement>) -> bool {
    forall|i: int| 0 <= i < ms.len() ==> (#[trigger] ms[i]).bytes is Fixed
}

pub open spec fn all_variable(ms: Seq<Measurement>) -> bool {
    forall|i: int| 0 <= i < ms.len() ==> (#[trigger] ms[i]).bytes is Variable
}

pub open spec fn width_of(m: Measurement) -> u8 {
    match m.bytes {
        Bytes::Fixed(b) => b,
        Bytes::Variable => 0,
    }
}

/// Sorts the measurements by width: all fixed, all variable, or a mix,
/// which is an error naming each variable measurement (counted from 1).
pub fn event_width(ms: &Vec<Measurement>) -> (r: Result<EventWidth, Vec<usize>>)
    ensures
        match r {
            Ok(EventWidth::Finite(ws)) => all_fixed(ms@) && ws@ == ms@.map_values(
                |m: Measurement| width_of(m),
            ),
            Ok(EventWidth::Variable) => all_variable(ms@) && ms@.len() > 0,
            Err(_) => !all_fixed(ms@) && !all_variable(ms@),
        },
{
    let mut widths: Vec<u8> = Vec::new();
    let mut variable: Vec<usize> = Vec::new();
    let mut i: usize = 0;
    while i < ms.len()
        invariant
            i <= ms@.len(),
            widths@.len() + variable@.len() == i,
            variable@.len() == 0 <==> all_fixed(ms@.subrange(0, i as int)),
            widths@.len() == 0 <==> all_variable(ms@.subrange(0, i as int)),
            variable@.len() == 0 ==> widths@ == ms@.subrange(0, i as int).map_values(
                |m: Measurement| width_of(m),
            ),
        decreases ms@.len() - i,
    {
        let ghost pre = ms@.subrange(0, i as int);
        assert(ms@.subrange(0, i + 1) =~= pre.push(ms@[i as int]));
        match ms[i].bytes {
            Bytes::Fixed(b) => {
                widths.push(b);
                assert(!all_variable(ms@.subrange(0, i + 1))) by {
                    assert(ms@.subrange(0, i + 1)[i as int].bytes is Fixed);
                }
            },
            Bytes::Variable => {
                variable.push(i + 1);
                assert(!all_fixed(ms@.subrange(0, i + 1))) by {
                    assert(ms@.subrange(0, i + 1)[i as int].bytes is Variable);
                }
            },
        }
        i = i + 1;
        assert(variable@.len() == 0 ==> widths@ =~= ms@.subrange(0, i as int).map_values(
            |m: Measurement| width_of(m),
        ));
    }
    assert(ms@.subrange(0, ms@.len() as int) =~= ms@);
    if variable.len() == 0 {
        Ok(EventWidth::Finite(widths))
    } else if widths.len() == 0 {
        Ok(EventWidth::Variable)
    } else {
        Err(variable)
    }
}

pub open spec fn sum_widths(ws: Seq<u8>) -> nat
    decreases ws.len(),
{
    if ws.len() == 0 {
        0
    } else {
        (sum_widths(ws.drop_last()) + ws.last()) as nat
    }
}

/// Whether `$TOT` is given and differs from a number of events.
pub open spec fn tot_differs(tot: Option<u64>, rows: u64) -> bool {
    match tot {
        Some(t) => t != rows,
        None => false,
    }
}

/// The level of a diagnostic whose check is enforced or not.
pub open spec fn level_of(enforced: bool) -> PureErrorLevel {
    if enforced {
        PureErrorLevel::Error
    } else {
        PureErrorLevel::Warning
    }
}

/// The number of events in DATA: its length divided by the event width.
/// A remainder, or a `$TOT` that differs, is a diagnostic: an error or a
/// warning as configured.
pub fn total_events(
    nbytes: u64,
    widths: &Vec<u8>,
    tot: Option<u64>,
    enforce_divisibility: bool,
    enforce_matching_tot: bool,
) -> (r: Result<PureSuccess<u64>, Failure<String>>)
    ensures
        sum_widths(widths@) == 0 <==> r is Err,
        r matches Ok(s) ==> {
            &&& s.data == nbytes as nat / sum_widths(widths@)
            &&& (exists|i: int|
                0 <= i < s.deferred.errors@.len() && (#[trigger] s.deferred.errors@[i]).level
                    == PureErrorLevel::Error) <==> ((enforce_divisibility && nbytes as nat % sum_widths(
                widths@,
            ) != 0) || (enforce_matching_tot && (match tot {
                Some(t) => t != s.data,
                None => false,
            })))
            &&& s.deferred.errors@.len() == 0 <==> (nbytes as nat % sum_widths(widths@) == 0 && (match tot {
                Some(t) => t == s.data,
                None => true,
            }))
            &&& s.deferred.errors@.len() == (if nbytes as nat % sum_widths(widths@) != 0 { 1int } else { 0int })
                + (if tot_differs(tot, s.data) { 1int } else { 0int })
            &&& nbytes as nat % sum_widths(widths@) != 0 ==> s.deferred.errors@[0].level == level_of(enforce_divisibility)
            &&& tot_differs(tot, s.data) ==> s.deferred.errors@.last().level == level_of(enforce_matching_tot)
        },
{
    let mut w: u128 = 0;
    let mut i: usize = 0;
    assert(usize::MAX <= u64::MAX);
    while i < widths.len()
        invariant
            i <= widths@.len(),
            w == sum_widths(widths@.subrange(0, i as int)),
            w <= 255 * i,
            i <= u64::MAX,
        decreases widths@.len() - i,
    {
        assert(widths@.subrange(0, i + 1).drop_last() =~= widths@.subrange(0, i as int));
        w = w + widths[i] as u128;
        i = i + 1;
    }
    assert(widths@.subrange(0, widths@.len() as int) =~= widths@);
    if w == 0 {
        return Err(Failure::new(string_from_chars(&chars_of("event width is zero"))));
    }
    let rows = (nbytes as u128 / w) as u64;
    let mut res = PureSuccess::from(rows);
    if nbytes as u128 % w != 0 {
        let mut v: Vec<char> = Vec::new();
        push_str(&mut v, "event width (");
        crate::decimal::push_decimal_wide(&mut v, w);
        push_str(&mut v, ") does not evenly divide DATA length (");
        crate::decimal::push_decimal(&mut v, nbytes);
        push_str(&mut v, ")");
        res.push_msg_leveled(string_from_chars(&v), enforce_divisibility);
    }
    let ghost mid = res.deferred.errors@;
    match tot {
        Some(t) => {
            if t != rows {
                let mut v: Vec<char> = Vec::new();
                push_str(&mut v, "$TOT (");
                crate::decimal::push_decimal(&mut v, t);
                push_str(&mut v, ") does not match number of events (");
                crate::decimal::push_decimal(&mut v, rows);
                push_str(&mut v, ")");
                res.push_msg_leveled(string_from_chars(&v), enforce_matching_tot);
            }
        },
        None => {},
    }
    proof {
        let es = res.deferred.errors@;
        if es.len() == 2 {
            assert(es[0] == mid[0]);
        }
    }
    Ok(res)
}

/// The number of low bits set in the mask of a range: the fewest whose
/// all-ones value reaches `x`, but no more than `cap`.
pub open spec fn mask_bits(x: nat, m: nat, cap: nat) -> nat
    decreases cap - m,
{
    if m >= cap || pow2(m) - 1 >= x {
        m
    } else {
        mask_bits(x, m + 1, cap)
    }
}

/// The bitmask of an integer column of `b` bytes whose range is `x`
/// (`$PnR - 1`): one less than the least power of two above `x`, clamped to
/// the width.
pub open spec fn bitmask_spec(x: u64, b: u8) -> nat {
    (pow2(mask_bits(x as nat, 0, 8 * b as nat)) - 1) as nat
}

proof fn lemma_mask_bits_le(x: nat, m: nat, cap: nat)
    requires
        m <= cap,
    ensures
        m <= mask_bits(x, m, cap) <= cap,
        mask_bits(x, m, cap) == cap || pow2(mask_bits(x, m, cap)) - 1 >= x,
    decreases cap - m,
{
    if !(m >= cap || pow2(m) - 1 >= x) {
        lemma_mask_bits_le(x, m + 1, cap);
    }
}

/// The bitmask never exceeds what the column's bytes can hold, and covers
/// the range unless clamped.
pub proof fn lemma_bitmask_bound(x: u64, b: u8)
    ensures
        bitmask_spec(x, b) < pow2(8 * b as nat),
        bitmask_spec(x, b) >= x || bitmask_spec(x, b) == pow2(8 * b as nat) - 1,
{
    let cap = 8 * b as nat;
    lemma_mask_bits_le(x as nat, 0, cap);
    let m = mask_bits(x as nat, 0, cap);
    vstd::arithmetic::power2::lemma_pow2_pos(m);
    if m < cap {
        lemma_pow2_strictly_increases(m, cap);
    }
}

/// The bitmask of an integer column, or nothing for a range that is not
/// an integer.
pub fn range_to_bitmask(range: &Range, b: u8) -> (r: Option<u64>)
    requires
        1 <= b <= 8,
    ensures
        match range {
            Range::Int(x) => r == Some(bitmask_spec(*x, b) as u64) && bitmask_spec(*x, b) < pow2(
                8 * b as nat,
            ),
            Range::Float(_) => r is None,
        },
{
    match range {
        Range::Int(x) => {
            let x = *x;
            let cap: u32 = 8 * b as u32;
            let mut m: u32 = 0;
            let mut mask: u64 = 0;
            proof {
                lemma2_to64();
                lemma2_to64_rest();
                lemma_bitmask_bound(x, b);
            }
            while m < cap && mask < x
                invariant
                    cap == 8 * b as nat,
                    cap <= 64,
                    m <= cap,
                    mask == pow2(m as nat) - 1,
                    mask_bits(x as nat, m as nat, cap as nat) == mask_bits(x as nat, 0, cap as nat),
                    pow2(64) == 0x10000000000000000,
                decreases cap - m,
            {
                proof {
                    lemma_pow2_unfold((m + 1) as nat);
                    if m + 1 < 64 {
                        lemma_pow2_strictly_increases((m + 1) as nat, 64);
                    }
                }
                mask = mask * 2 + 1;
                m = m + 1;
            }
            proof {
                lemma_bitmask_bound(x, b);
            }
            Some(mask)
        },
        Range::Float(_) => None,
    }
}

/// The byte positions of a column `k` bytes wide: an endianness gives
/// them in order or reversed; a list must have exactly `k` entries.
pub open spec fn sized_order(v: ByteOrdV, k: nat) -> Option<Seq<u8>> {
    match v {
        ByteOrdV::Endian(Endian::Little) => Some(Seq::new(k, |i: int| i as u8)),
        ByteOrdV::Endian(Endian::Big) => Some(Seq::new(k, |i: int| (k - 1 - i) as u8)),
        ByteOrdV::Mixed(xs) => if xs.len() == k {
            Some(xs)
        } else {
            None
        },
    }
}

/// The byte order for a column of `k` bytes.
pub fn byteord_to_sized(byteord: &ByteOrd, k: u8) -> (r: Result<Vec<u8>, String>)
    ensures
        match sized_order(byteord@, k as nat) {
            Some(o) => r matches Ok(v) && v@ == o,
            None => r is Err,
        },
{
    match byteord {
        ByteOrd::Endian(Endian::Little) => {
            let mut v: Vec<u8> = Vec::new();
            let mut i: u8 = 0;
            while i < k
                invariant
                    i <= k,
                    v@ == Seq::new(i as nat, |j: int| j as u8),
                decreases k - i,
            {
                v.push(i);
                i = i + 1;
                assert(v@ =~= Seq::new(i as nat, |j: int| j as u8));
            }
            Ok(v)
        },
        ByteOrd::Endian(Endian::Big) => {
            let mut v: Vec<u8> = Vec::new();
            let mut i: u8 = 0;
            while i < k
                invariant
                    i <= k,
                    v@ == Seq::new(i as nat, |j: int| (k - 1 - j) as u8),
                decreases k - i,
            {
                v.push(k - 1 - i);
                i = i + 1;
                assert(v@ =~= Seq::new(i as nat, |j: int| (k - 1 - j) as u8));
            }
            assert(v@ =~= Seq::new(k as nat, |j: int| (k - 1 - j) as u8));
            Ok(v)
        },
        ByteOrd::Mixed(xs) => {
            if xs.len() == k as usize {
                Ok(xs.clone())
            } else {
                let mut v: Vec<char> = Vec::new();
                push_str(&mut v, "$BYTEORD is mixed but length is ");
                crate::decimal::push_decimal(&mut v, xs.len() as u64);
                push_str(&mut v, " and not ");
                crate::decimal::push_decimal(&mut v, k as u64);
                Err(string_from_chars(&v))
            }
        },
    }
}

/// The little-endian value of bytes.
pub open spec fn le_value(b: Seq<u8>) -> nat
    decreases b.len(),
{
    if b.len() == 0 {
        0
    } else {
        (b[0] + 256 * le_value(b.drop_first())) as nat
    }
}

pub open spec fn p256(n: nat) -> nat
    decreases n,
{
    if n == 0 {
        1
    } else {
        256 * p256((n - 1) as nat)
    }
}

proof fn lemma_p256_mono(a: nat, b: nat)
    requires
        a <= b,
    ensures
        p256(a) <= p256(b),
    decreases b - a,
{
    if a < b {
        lemma_p256_mono(a, (b - 1) as nat);
    }
}

/// The eight-byte little-endian buffer of a sample: byte `i` of the sample
/// goes to position `order[i]`; the rest are zero.
pub open spec fn place(raw: Seq<u8>, order: Seq<u8>, n: nat) -> Seq<u8>
    decreases n,
{
    if n == 0 {
        Seq::new(8, |i: int| 0u8)
    } else {
        place(raw, order, (n - 1) as nat).update(order[n - 1] as int, raw[n - 1])
    }
}

/// The value of a sample of `k` bytes read in a byte order, before masking.
pub open spec fn sample_value(raw: Seq<u8>, order: Seq<u8>) -> nat {
    le_value(place(raw, order, order.len()))
}

/// Decodes one integer sample: its bytes placed by the order, read as an
/// unsigned little-endian number, then capped at the bitmask.
pub fn decode_int(raw: &[u8], order: &Vec<u8>, mask: u64) -> (r: u64)
    requires
        raw@.len() == order@.len(),
        order@.len() <= 8,
        forall|i: int| 0 <= i < order@.len() ==> (#[trigger] order@[i]) < 8,
    ensures
        r == if sample_value(raw@, order@) <= mask {
            sample_value(raw@, order@)
        } else {
            mask as nat
        },
{
    let mut buf: Vec<u8> = vec![0u8, 0, 0, 0, 0, 0, 0, 0];
    assert(buf@ =~= place(raw@, order@, 0));
    let k = order.len();
    let mut i: usize = 0;
    while i < k
        invariant
            k == order@.len(),
            k == raw@.len(),
            k <= 8,
            i <= k,
            forall|j: int| 0 <= j < order@.len() ==> (#[trigger] order@[j]) < 8,
            buf@ == place(raw@, order@, i as nat),
            buf@.len() == 8,
        decreases k - i,
    {
        let p = order[i] as usize;
        buf.set(p, raw[i]);
        i = i + 1;
    }
    let mut acc: u64 = 0;
    let mut j: usize = 8;
    proof {
        assert(buf@.subrange(8, 8) =~= Seq::<u8>::empty());
        reveal_with_fuel(p256, 9);
    }
    while j > 0
        invariant
            j <= 8,
            buf@.len() == 8,
            acc == le_value(buf@.subrange(j as int, 8)),
            acc < p256((8 - j) as nat),
            p256(8) == 0x10000000000000000,
        decreases j,
    {
        j = j - 1;
        assert(buf@.subrange(j as int, 8).drop_first() =~= buf@.subrange(j + 1, 8));
        proof {
            lemma_p256_mono((8 - j) as nat, 8);
        }
        acc = acc * 256 + buf[j] as u64;
    }
    assert(buf@.subrange(0, 8) =~= buf@);
    if acc <= mask {
        acc
    } else {
        mask
    }
}

/// How one integer column is read.
#[derive(Clone, Debug)]
pub struct IntColumnPlan {
    pub width: u8,
    pub bitmask: u64,
    pub order: Vec<u8>,
}

/// How one column of a mixed layout is read.
#[derive(Clone, Debug)]
pub enum ColumnType {
    Ascii(u8),
    Integer(IntColumnPlan),
    /// Four-byte floats, with their byte order.
    Single(Vec<u8>),
    /// Eight-byte floats, with their byte order.
    Double(Vec<u8>),
}

/// How DATA is to be read.
#[derive(Clone, Debug)]
pub enum DataPlan {
    DelimitedAscii { ncols: usize, nrows: Option<u64>, nbytes: u64 },
    FixedAscii { widths: Vec<u8>, nrows: u64 },
    Float32 { order: Vec<u8>, ncols: usize, nrows: u64 },
    Float64 { order: Vec<u8>, ncols: usize, nrows: u64 },
    Integer { columns: Vec<IntColumnPlan>, nrows: u64 },
    Mixed { columns: Vec<ColumnType>, nrows: u64 },
}

/// An integer column plan that can be run: a width of 1 to 8 bytes, one
/// position per byte, each below the width, and a mask the width can hold.
pub open spec fn int_plan_ok(c: IntColumnPlan) -> bool {
    &&& 1 <= c.width <= 8
    &&& c.order@.len() == c.width
    &&& forall|i: int| 0 <= i < c.order@.len() ==> (#[trigger] c.order@[i]) < c.width
    &&& c.bitmask < pow2(8 * c.width as nat)
}

fn positions_below(order: &Vec<u8>, k: u8) -> (r: bool)
    ensures
        r == forall|i: int| 0 <= i < order@.len() ==> (#[trigger] order@[i]) < k,
{
    let mut i: usize = 0;
    while i < order.len()
        invariant
            i <= order@.len(),
            forall|j: int| 0 <= j < i ==> (#[trigger] order@[j]) < k,
        decreases order@.len() - i,
    {
        if order[i] >= k {
            return false;
        }
        i = i + 1;
    }
    true
}

fn fail(s: &str) -> (r: Failure<String>) {
    Failure::new(string_from_chars(&chars_of(s)))
}

/// A measurement that can be read as an integer column: a width of 1 to 8
/// bytes, an integer range, and a byte order of that width whose positions
/// are below it.
pub open spec fn int_ok(m: Measurement, bo: ByteOrdV) -> bool {
    match m.bytes {
        Bytes::Fixed(w) => 1 <= w <= 8 && m.range is Int && match sized_order(bo, w as nat) {
            Some(o) => forall|i: int| 0 <= i < o.len() ==> (#[trigger] o[i]) < w,
            None => false,
        },
        Bytes::Variable => false,
    }
}

/// The integer column plan of a measurement.
pub open spec fn int_plan_of(c: IntColumnPlan, m: Measurement, bo: ByteOrdV) -> bool {
    &&& m.bytes == Bytes::Fixed(c.width)
    &&& (match m.range {
        Range::Int(x) => c.bitmask == bitmask_spec(x, c.width) as u64,
        Range::Float(_) => false,
    })
    &&& sized_order(bo, c.width as nat) == Some(c.order@)
}

/// Plans one integer column of a measurement.
pub fn int_column_plan(m: &Measurement, byteord: &ByteOrd) -> (r: Result<IntColumnPlan, String>)
    ensures
        r is Ok <==> int_ok(*m, byteord@),
        r matches Ok(c) ==> int_plan_ok(c) && int_plan_of(c, *m, byteord@),
{
    let w = match m.bytes {
        Bytes::Fixed(w) => w,
        Bytes::Variable => {
            return Err(string_from_chars(&chars_of("PnB is variable length")));
        },
    };
    if w < 1 || w > 8 {
        return Err(string_from_chars(&chars_of("$PnB has invalid byte length")));
    }
    let bitmask = match range_to_bitmask(&m.range, w) {
        Some(b) => b,
        None => {
            return Err(string_from_chars(&chars_of("PnR is float for an integer column")));
        },
    };
    let order = match byteord_to_sized(byteord, w) {
        Ok(o) => o,
        Err(e) => {
            return Err(e);
        },
    };
    if !positions_below(&order, w) {
        return Err(string_from_chars(&chars_of("$BYTEORD does not give each byte once")));
    }
    proof {
        match byteord@ {
            ByteOrdV::Endian(Endian::Little) => {},
            ByteOrdV::Endian(Endian::Big) => {},
            ByteOrdV::Mixed(xs) => {},
        }
        assert(order@.len() == w);
    }
    Ok(IntColumnPlan { width: w, bitmask, order })
}

fn all_width(ws: &Vec<u8>, w: u8) -> (r: bool)
    ensures
        r == forall|i: int| 0 <= i < ws@.len() ==> (#[trigger] ws@[i]) == w,
{
    let mut i: usize = 0;
    while i < ws.len()
        invariant
            i <= ws@.len(),
            forall|j: int| 0 <= j < i ==> (#[trigger] ws@[j]) == w,
        decreases ws@.len() - i,
    {
        if ws[i] != w {
            return false;
        }
        i = i + 1;
    }
    true
}

/// The type a column is read as: its `$PnDATATYPE`, else `$DATATYPE`.
pub open spec fn col_type(m: Measurement, dt: AlphaNumType) -> AlphaNumType {
    match m.datatype {
        Some(n) => crate::values::num_to_alpha(n),
        None => dt,
    }
}

pub open spec fn no_datatypes(ms: Seq<Measurement>) -> bool {
    forall|i: int| 0 <= i < ms.len() ==> (#[trigger] ms[i]).datatype is None
}

/// The total width of an event.
pub open spec fn width_total(ms: Seq<Measurement>) -> nat {
    sum_widths(ms.map_values(|m: Measurement| width_of(m)))
}

/// A column of a mixed layout can be read.
pub open spec fn column_ok(m: Measurement, dt: AlphaNumType, bo: ByteOrdV) -> bool {
    match col_type(m, dt) {
        AlphaNumType::Ascii => true,
        AlphaNumType::Integer => int_ok(m, bo),
        AlphaNumType::Single => width_of(m) == 4 && sized_order(bo, 4) is Some,
        AlphaNumType::Double => width_of(m) == 8 && sized_order(bo, 8) is Some,
    }
}

/// The column plan of a mixed layout for a measurement.
pub open spec fn column_matches(c: ColumnType, m: Measurement, dt: AlphaNumType, bo: ByteOrdV) -> bool {
    match col_type(m, dt) {
        AlphaNumType::Ascii => c == ColumnType::Ascii(width_of(m)),
        AlphaNumType::Integer => c matches ColumnType::Integer(p) && int_plan_ok(p) && int_plan_of(p, m, bo),
        AlphaNumType::Single => c matches ColumnType::Single(o) && sized_order(bo, 4) == Some(o@),
        AlphaNumType::Double => c matches ColumnType::Double(o) && sized_order(bo, 8) == Some(o@),
    }
}

/// Whether a layout of fixed widths can be read.
pub open spec fn fixed_plan_ok(ms: Seq<Measurement>, dt: AlphaNumType, bo: ByteOrdV) -> bool {
    if no_datatypes(ms) {
        match dt {
            AlphaNumType::Ascii => true,
            AlphaNumType::Single => (forall|i: int| 0 <= i < ms.len() ==> width_of(#[trigger] ms[i]) == 4)
                && sized_order(bo, 4) is Some,
            AlphaNumType::Double => (forall|i: int| 0 <= i < ms.len() ==> width_of(#[trigger] ms[i]) == 8)
                && sized_order(bo, 8) is Some,
            AlphaNumType::Integer => forall|i: int| 0 <= i < ms.len() ==> int_ok(#[trigger] ms[i], bo),
        }
    } else {
        forall|i: int| 0 <= i < ms.len() ==> column_ok(#[trigger] ms[i], dt, bo)
    }
}

/// Chooses how DATA is read from `$DATATYPE`, the byte order, the
/// measurements, the length of DATA and `$TOT`. Variable widths are read
/// as delimited ASCII, and only with `$DATATYPE = A`; fixed widths give a
/// layout chosen by `$DATATYPE`, or a mixed one when any measurement has a
/// `$PnDATATYPE`; mixed fixed and variable widths are refused.
pub fn build_data_plan(
    datatype: AlphaNumType,
    byteord: &ByteOrd,
    ms: &Vec<Measurement>,
    nbytes: u64,
    tot: Option<u64>,
    conf: &DataReadConfig,
) -> (r: Result<PureSuccess<DataPlan>, Failure<String>>)
    ensures
        (ms@.len() > 0 && all_variable(ms@)) ==> (r is Ok <==> datatype == AlphaNumType::Ascii),
        (!all_fixed(ms@) && !all_variable(ms@)) ==> r is Err,
        all_fixed(ms@) ==> (r is Ok <==> (width_total(ms@) > 0 && fixed_plan_ok(ms@, datatype, byteord@))),
        r matches Ok(p) ==> match p.data {
            DataPlan::DelimitedAscii { ncols, nrows, nbytes: n } => datatype == AlphaNumType::Ascii
                && all_variable(ms@) && ncols == ms@.len() && nrows == tot && n == nbytes,
            DataPlan::FixedAscii { widths, nrows } => datatype == AlphaNumType::Ascii && all_fixed(ms@)
                && no_datatypes(ms@) && widths@ == ms@.map_values(|m: Measurement| width_of(m))
                && nrows == nbytes as nat / width_total(ms@),
            DataPlan::Float32 { order, ncols, nrows } => datatype == AlphaNumType::Single && all_fixed(ms@)
                && no_datatypes(ms@) && ncols == ms@.len() && nrows == nbytes as nat / width_total(ms@)
                && Some(order@) == sized_order(byteord@, 4),
            DataPlan::Float64 { order, ncols, nrows } => datatype == AlphaNumType::Double && all_fixed(ms@)
                && no_datatypes(ms@) && ncols == ms@.len() && nrows == nbytes as nat / width_total(ms@)
                && Some(order@) == sized_order(byteord@, 8),
            DataPlan::Integer { columns, nrows } => datatype == AlphaNumType::Integer && all_fixed(ms@)
                && no_datatypes(ms@) && columns@.len() == ms@.len() && nrows == nbytes as nat / width_total(ms@)
                && (forall|i: int| 0 <= i < columns@.len() ==> int_plan_ok(#[trigger] columns@[i])
                && int_plan_of(columns@[i], ms@[i], byteord@)),
            DataPlan::Mixed { columns, nrows } => all_fixed(ms@) && !no_datatypes(ms@) && columns@.len()
                == ms@.len() && nrows == nbytes as nat / width_total(ms@) && forall|i: int|
                0 <= i < columns@.len() ==> column_matches(#[trigger] columns@[i], ms@[i], datatype, byteord@),
        },
{
    let ew = match event_width(ms) {
        Ok(ew) => ew,
        Err(_) => {
            return Err(fail("measurements have both fixed and variable widths"));
        },
    };
    match ew {
        EventWidth::Variable => {
            if datatype == AlphaNumType::Ascii {
                Ok(PureSuccess::from(DataPlan::DelimitedAscii { ncols: ms.len(), nrows: tot, nbytes }))
            } else {
                Err(fail("variable widths ($PnB = *) require $DATATYPE = A"))
            }
        },
        EventWidth::Finite(widths) => {
            proof {
                if ms@.len() > 0 {
                    assert(!all_variable(ms@)) by {
                        assert(ms@[0].bytes is Fixed);
                    }
                }
            }
            let counted = total_events(
                nbytes,
                &widths,
                tot,
                conf.enfore_data_width_divisibility,
                conf.enfore_matching_tot,
            );
            assert(widths@ =~= ms@.map_values(|m: Measurement| width_of(m)));
            let PureSuccess { deferred, data: nrows } = match counted {
                Ok(c) => c,
                Err(f) => {
                    return Err(f);
                },
            };
            let mut mixed = false;
            let mut i: usize = 0;
            while i < ms.len()
                invariant
                    all_fixed(ms@),
                    !(ms@.len() > 0 && all_variable(ms@)),
                    widths@ == ms@.map_values(|m: Measurement| width_of(m)),
                    width_total(ms@) > 0,
                    nrows == nbytes as nat / width_total(ms@),
                    i <= ms@.len(),
                    mixed == !no_datatypes(ms@.subrange(0, i as int)),
                decreases ms@.len() - i,
            {
                if ms[i].datatype.is_some() {
                    mixed = true;
                    assert(ms@.subrange(0, i + 1)[i as int] == ms@[i as int]);
                } else {
                    proof {
                        if !mixed {
                            assert forall|c: int| 0 <= c < i + 1 implies (#[trigger] ms@.subrange(0, i + 1)[c]).datatype is None by {
                                if c < i {
                                    assert(ms@.subrange(0, i + 1)[c] == ms@.subrange(0, i as int)[c]);
                                }
                            }
                        } else {
                            let c = choose|c: int| 0 <= c < i && (#[trigger] ms@.subrange(0, i as int)[c]).datatype is Some;
                            assert(ms@.subrange(0, i + 1)[c] == ms@.subrange(0, i as int)[c]);
                        }
                    }
                }
                i = i + 1;
            }
            assert(ms@.subrange(0, ms@.len() as int) =~= ms@);
            let plan = if mixed {
                let mut columns: Vec<ColumnType> = Vec::new();
                let mut j: usize = 0;
                while j < ms.len()
                    invariant
                        all_fixed(ms@),
                        !(ms@.len() > 0 && all_variable(ms@)),
                        widths@ == ms@.map_values(|m: Measurement| width_of(m)),
                        width_total(ms@) > 0,
                        nrows == nbytes as nat / width_total(ms@),
                        !no_datatypes(ms@),
                        j <= ms@.len(),
                        columns@.len() == j,
                        forall|q: int| 0 <= q < j ==> column_ok(#[trigger] ms@[q], datatype, byteord@),
                        forall|q: int| 0 <= q < j ==> column_matches(#[trigger] columns@[q], ms@[q], datatype, byteord@),
                    decreases ms@.len() - j,
                {
                    let t = match ms[j].datatype {
                        Some(n) => n.to_alpha_num(),
                        None => datatype,
                    };
                    let w = width_exec(&ms[j]);
                    let c = match t {
                        AlphaNumType::Ascii => ColumnType::Ascii(w),
                        AlphaNumType::Integer => match int_column_plan(&ms[j], byteord) {
                            Ok(c) => ColumnType::Integer(c),
                            Err(e) => {
                                return Err(Failure { reason: e, deferred });
                            },
                        },
                        AlphaNumType::Single => match float_order(byteord, w, 4) {
                            Ok(o) => ColumnType::Single(o),
                            Err(e) => {
                                return Err(Failure { reason: e, deferred });
                            },
                        },
                        AlphaNumType::Double => match float_order(byteord, w, 8) {
                            Ok(o) => ColumnType::Double(o),
                            Err(e) => {
                                return Err(Failure { reason: e, deferred });
                            },
                        },
                    };
                    let ghost before = columns@;
                    let ghost cj = c;
                    proof {
                        assert(column_ok(ms@[j as int], datatype, byteord@));
                        assert(column_matches(cj, ms@[j as int], datatype, byteord@));
                    }
                    columns.push(c);
                    proof {
                        assert(columns@[j as int] == cj);
                        assert forall|q: int| 0 <= q < j implies columns@[q] == before[q] by {}
                    }
                    j = j + 1;
                }
                DataPlan::Mixed { columns, nrows }
            } else {
                match datatype {
                    AlphaNumType::Ascii => DataPlan::FixedAscii { widths, nrows },
                    AlphaNumType::Single => {
                        if !all_width(&widths, 4) {
                            proof {
                                let k = choose|k: int| 0 <= k < widths@.len() && widths@[k] != 4u8;
                                assert(width_of(ms@[k]) == widths@[k]);
                            }
                            return Err(Failure { reason: string_from_chars(&chars_of("$DATATYPE = F requires all $PnB = 32")), deferred });
                        }
                        assert forall|k: int| 0 <= k < ms@.len() implies width_of(#[trigger] ms@[k]) == 4 by {
                            assert(widths@[k] == width_of(ms@[k]));
                        }
                        match byteord_to_sized(byteord, 4) {
                            Ok(order) => DataPlan::Float32 { order, ncols: ms.len(), nrows },
                            Err(e) => {
                                return Err(Failure { reason: e, deferred });
                            },
                        }
                    },
                    AlphaNumType::Double => {
                        if !all_width(&widths, 8) {
                            proof {
                                let k = choose|k: int| 0 <= k < widths@.len() && widths@[k] != 8u8;
                                assert(width_of(ms@[k]) == widths@[k]);
                            }
                            return Err(Failure { reason: string_from_chars(&chars_of("$DATATYPE = D requires all $PnB = 64")), deferred });
                        }
                        assert forall|k: int| 0 <= k < ms@.len() implies width_of(#[trigger] ms@[k]) == 8 by {
                            assert(widths@[k] == width_of(ms@[k]));
                        }
                        match byteord_to_sized(byteord, 8) {
                            Ok(order) => DataPlan::Float64 { order, ncols: ms.len(), nrows },
                            Err(e) => {
                                return Err(Failure { reason: e, deferred });
                            },
                        }
                    },
                    AlphaNumType::Integer => {
                        let mut columns: Vec<IntColumnPlan> = Vec::new();
                        let mut j: usize = 0;
                        while j < ms.len()
                            invariant
                                all_fixed(ms@),
                                !(ms@.len() > 0 && all_variable(ms@)),
                                widths@ == ms@.map_values(|m: Measurement| width_of(m)),
                                width_total(ms@) > 0,
                                nrows == nbytes as nat / width_total(ms@),
                                no_datatypes(ms@),
                                datatype == AlphaNumType::Integer,
                                j <= ms@.len(),
                                columns@.len() == j,
                                forall|q: int| 0 <= q < j ==> int_ok(#[trigger] ms@[q], byteord@),
                                forall|q: int| 0 <= q < j ==> int_plan_ok(#[trigger] columns@[q])
                                    && int_plan_of(columns@[q], ms@[q], byteord@),
                            decreases ms@.len() - j,
                        {
                            let ghost before = columns@;
                            match int_column_plan(&ms[j], byteord) {
                                Ok(c) => columns.push(c),
                                Err(e) => {
                                    return Err(Failure { reason: e, deferred });
                                },
                            }
                            proof {
                                assert forall|q: int| 0 <= q < j implies columns@[q] == before[q] by {}
                            }
                            j = j + 1;
                        }

                        DataPlan::Integer { columns, nrows }
                    },
                }
            };
            let ghost gp = plan;
            proof {
                match gp {
                    DataPlan::FixedAscii { widths: w2, nrows: n2 } => {
                        assert(no_datatypes(ms@));
                        assert(w2@ == ms@.map_values(|m: Measurement| width_of(m)));
                    },
                    DataPlan::Integer { columns, nrows: n2 } => {
                        assert(no_datatypes(ms@));
                    },
                    DataPlan::Mixed { columns, nrows: n2 } => {
                        assert(!no_datatypes(ms@));
                    },
                    _ => {},
                }
            }
            Ok(PureSuccess { data: plan, deferred })
        },
    }
}

fn width_exec(m: &Measurement) -> (r: u8)
    ensures
        r == width_of(*m),
{
    match m.bytes {
        Bytes::Fixed(b) => b,
        Bytes::Variable => 0,
    }
}

fn float_order(byteord: &ByteOrd, w: u8, need: u8) -> (r: Result<Vec<u8>, String>)
    ensures
        r is Ok <==> w == need && sized_order(byteord@, need as nat) is Some,
        r matches Ok(o) ==> sized_order(byteord@, need as nat) == Some(o@),
{
    if w != need {
        let mut v: Vec<char> = Vec::new();
        push_str(&mut v, "float column must be ");
        crate::decimal::push_decimal(&mut v, need as u64 * 8);
        push_str(&mut v, " bits wide");
        return Err(string_from_chars(&v));
    }
    byteord_to_sized(byteord, need)
}

/// Where the field of column `c` of event `row` begins in DATA.
pub open spec fn field_start(ws: Seq<u8>, row: nat, c: int) -> nat {
    row * sum_widths(ws) + sum_widths(ws.subrange(0, c))
}

proof fn lemma_sum_prefix(ws: Seq<u8>, c: int)
    requires
        0 <= c < ws.len(),
    ensures
        sum_widths(ws.subrange(0, c + 1)) == sum_widths(ws.subrange(0, c)) + ws[c],
        sum_widths(ws.subrange(0, c + 1)) <= sum_widths(ws),
    decreases ws.len() - c,
{
    assert(ws.subrange(0, c + 1).drop_last() =~= ws.subrange(0, c));
    if c + 1 < ws.len() {
        lemma_sum_prefix(ws, c + 1);
    } else {
        assert(ws.subrange(0, c + 1) =~= ws);
    }
}

/// Cuts fixed-width DATA into fields: column by column, the bytes of each
/// event's field.
pub fn cut_fields(data: &[u8], widths: &Vec<u8>, nrows: u64) -> (r: Vec<Vec<Vec<u8>>>)
    requires
        nrows * sum_widths(widths@) <= data@.len(),
        forall|i: int| 0 <= i < widths@.len() ==> (#[trigger] widths@[i]) >= 1,
    ensures
        r@.len() == widths@.len(),
        forall|c: int| 0 <= c < r@.len() ==> (#[trigger] r@[c])@.len() == nrows,
        forall|c: int, row: int|
            0 <= c < r@.len() && 0 <= row < nrows ==> (#[trigger] r@[c]@[row])@ == data@.subrange(
                field_start(widths@, row as nat, c) as int,
                field_start(widths@, row as nat, c) + widths@[c],
            ) && r@[c]@[row]@.len() == widths@[c],
{
    let n = widths.len();
    let mut wide: u128 = 0;
    let mut c: usize = 0;
    assert(usize::MAX <= u64::MAX);
    while c < n
        invariant
            n == widths@.len(),
            c <= n,
            wide == sum_widths(widths@.subrange(0, c as int)),
            wide <= 255 * c,
            c <= u64::MAX,
        decreases n - c,
    {
        assert(widths@.subrange(0, c + 1).drop_last() =~= widths@.subrange(0, c as int));
        wide = wide + widths[c] as u128;
        c = c + 1;
    }
    assert(widths@.subrange(0, n as int) =~= widths@);
    if nrows == 0 {
        let mut empty: Vec<Vec<Vec<u8>>> = Vec::new();
        let mut k: usize = 0;
        while k < n
            invariant
                k <= n,
                empty@.len() == k,
                forall|cc: int| 0 <= cc < k ==> (#[trigger] empty@[cc])@.len() == 0,
            decreases n - k,
        {
            empty.push(Vec::new());
            k = k + 1;
        }
        return empty;
    }
    assert(wide <= nrows * wide) by (nonlinear_arith)
        requires
            nrows >= 1,
    ;
    let dl = data.len();
    let total: usize = wide as usize;
    let mut out: Vec<Vec<Vec<u8>>> = Vec::new();
    let mut col: usize = 0;
    let mut prefix: usize = 0;
    while col < n
        invariant
            n == widths@.len(),
            col <= n,
            total == sum_widths(widths@),
            prefix == sum_widths(widths@.subrange(0, col as int)),
            nrows * total <= data@.len(),
            dl == data@.len(),
            nrows >= 1,
            forall|i: int| 0 <= i < widths@.len() ==> (#[trigger] widths@[i]) >= 1,
            out@.len() == col,
            forall|cc: int| 0 <= cc < col ==> (#[trigger] out@[cc])@.len() == nrows,
            forall|cc: int, row: int|
                0 <= cc < col && 0 <= row < nrows ==> (#[trigger] out@[cc]@[row])@ == data@.subrange(
                    field_start(widths@, row as nat, cc) as int,
                    field_start(widths@, row as nat, cc) + widths@[cc],
                ) && out@[cc]@[row]@.len() == widths@[cc],
        decreases n - col,
    {
        proof {
            lemma_sum_prefix(widths@, col as int);
        }
        let w = widths[col] as usize;
        let mut fields: Vec<Vec<u8>> = Vec::new();
        let mut row: u64 = 0;
        while row < nrows
            invariant
                n == widths@.len(),
                col < n,
                total == sum_widths(widths@),
                prefix == sum_widths(widths@.subrange(0, col as int)),
                prefix + w <= total,
                w == widths@[col as int],
                w >= 1,
                nrows * total <= data@.len(),
                dl == data@.len(),
                row <= nrows,
                fields@.len() == row,
                forall|rr: int|
                    0 <= rr < row ==> (#[trigger] fields@[rr])@ == data@.subrange(
                        field_start(widths@, rr as nat, col as int) as int,
                        field_start(widths@, rr as nat, col as int) + widths@[col as int],
                    ) && fields@[rr]@.len() == widths@[col as int],
            decreases nrows - row,
        {
            assert(row * total + prefix + w <= nrows * total) by (nonlinear_arith)
                requires
                    row < nrows,
                    prefix + w <= total,
            ;
            assert(row <= row * total) by (nonlinear_arith)
                requires
                    total >= 1,
            ;
            let start = (row as usize) * total + prefix;
            let end = start + w;
            assert(field_start(widths@, row as nat, col as int) == row * total + prefix);
            let f = vstd::slice::slice_subrange(data, start, end);
            fields.push(vstd::slice::slice_to_vec(f));
            row = row + 1;
        }
        out.push(fields);
        prefix = prefix + w;
        col = col + 1;
    }
    out
}

/// A column of integers, held in the smallest unsigned type as wide as
/// its bytes.
#[derive(Clone, Debug, PartialEq, Eq)]
pub enum AnyIntColumn {
    Uint8(Vec<u8>),
    Uint16(Vec<u16>),
    Uint32(Vec<u32>),
    Uint64(Vec<u64>),
}

/// A sample capped at a mask.
pub open spec fn capped(v: nat, mask: u64) -> nat {
    if v <= mask {
        v
    } else {
        mask as nat
    }
}

/// The widths of integer column plans.
pub open spec fn plan_widths(cols: Seq<IntColumnPlan>) -> Seq<u8> {
    cols.map_values(|c: IntColumnPlan| c.width)
}

/// Decodes the integer columns of DATA, column by column.
pub fn read_int_columns(data: &[u8], cols: &Vec<IntColumnPlan>, nrows: u64) -> (r: Vec<Vec<u64>>)
    requires
        nrows * sum_widths(plan_widths(cols@)) <= data@.len(),
        forall|c: int| 0 <= c < cols@.len() ==> int_plan_ok(#[trigger] cols@[c]),
    ensures
        r@.len() == cols@.len(),
        forall|c: int| 0 <= c < r@.len() ==> (#[trigger] r@[c])@.len() == nrows,
        forall|c: int, row: int|
            0 <= c < r@.len() && 0 <= row < nrows ==> (#[trigger] r@[c]@[row]) == capped(
                sample_value(
                    data@.subrange(
                        field_start(plan_widths(cols@), row as nat, c) as int,
                        field_start(plan_widths(cols@), row as nat, c) + cols@[c].width,
                    ),
                    cols@[c].order@,
                ),
                cols@[c].bitmask,
            ) && r@[c]@[row] <= cols@[c].bitmask,
{
    let mut widths: Vec<u8> = Vec::new();
    let mut i: usize = 0;
    while i < cols.len()
        invariant
            i <= cols@.len(),
            widths@ == plan_widths(cols@.subrange(0, i as int)),
            forall|j: int| 0 <= j < i ==> (#[trigger] widths@[j]) >= 1,
            forall|c: int| 0 <= c < cols@.len() ==> int_plan_ok(#[trigger] cols@[c]),
        decreases cols@.len() - i,
    {
        widths.push(cols[i].width);
        i = i + 1;
        assert(widths@ =~= plan_widths(cols@.subrange(0, i as int)));
    }
    assert(cols@.subrange(0, cols@.len() as int) =~= cols@);
    let fields = cut_fields(data, &widths, nrows);
    let mut out: Vec<Vec<u64>> = Vec::new();
    let mut c: usize = 0;
    while c < cols.len()
        invariant
            c <= cols@.len(),
            widths@ == plan_widths(cols@),
            fields@.len() == cols@.len(),
            forall|cc: int| 0 <= cc < fields@.len() ==> (#[trigger] fields@[cc])@.len() == nrows,
            forall|cc: int, row: int|
                0 <= cc < fields@.len() && 0 <= row < nrows ==> (#[trigger] fields@[cc]@[row])@
                    == data@.subrange(
                    field_start(widths@, row as nat, cc) as int,
                    field_start(widths@, row as nat, cc) + widths@[cc],
                ) && fields@[cc]@[row]@.len() == widths@[cc],
            forall|cc: int| 0 <= cc < cols@.len() ==> int_plan_ok(#[trigger] cols@[cc]),
            out@.len() == c,
            forall|cc: int| 0 <= cc < c ==> (#[trigger] out@[cc])@.len() == nrows,
            forall|cc: int, row: int|
                0 <= cc < c && 0 <= row < nrows ==> (#[trigger] out@[cc]@[row]) == capped(
                    sample_value(
                        data@.subrange(
                            field_start(plan_widths(cols@), row as nat, cc) as int,
                            field_start(plan_widths(cols@), row as nat, cc) + cols@[cc].width,
                        ),
                        cols@[cc].order@,
                    ),
                    cols@[cc].bitmask,
                ) && out@[cc]@[row] <= cols@[cc].bitmask,
        decreases cols@.len() - c,
    {
        let plan = &cols[c];
        assert(int_plan_ok(cols@[c as int]));
        let mut vals: Vec<u64> = Vec::new();
        let mut row: usize = 0;
        let flen = fields[c].len();
        while (row as u64) < nrows
            invariant
                flen == nrows,
                c < cols@.len(),
                fields@.len() == cols@.len(),
                fields@[c as int]@.len() == nrows,
                widths@ == plan_widths(cols@),
                plan == cols@[c as int],
                int_plan_ok(*plan),
                forall|rr: int|
                    0 <= rr < nrows ==> (#[trigger] fields@[c as int]@[rr])@ == data@.subrange(
                        field_start(widths@, rr as nat, c as int) as int,
                        field_start(widths@, rr as nat, c as int) + widths@[c as int],
                    ) && fields@[c as int]@[rr]@.len() == widths@[c as int],
                row <= nrows,
                vals@.len() == row,
                forall|rr: int|
                    0 <= rr < row ==> (#[trigger] vals@[rr]) == capped(
                        sample_value(
                            data@.subrange(
                                field_start(plan_widths(cols@), rr as nat, c as int) as int,
                                field_start(plan_widths(cols@), rr as nat, c as int) + cols@[c as int].width,
                            ),
                            cols@[c as int].order@,
                        ),
                        cols@[c as int].bitmask,
                    ) && vals@[rr] <= cols@[c as int].bitmask,
            decreases nrows - row,
        {
            let raw = fields[c][row].as_slice();
            assert(widths@[c as int] == cols@[c as int].width);
            let v = decode_int(raw, &plan.order, plan.bitmask);
            vals.push(v);
            row = row + 1;
        }
        out.push(vals);
        c = c + 1;
    }
    out
}

/// Narrows a decoded column to the smallest type its width fits.
pub fn narrow_column(vals: Vec<u64>, width: u8) -> (r: AnyIntColumn)
    requires
        1 <= width <= 8,
        forall|i: int| 0 <= i < vals@.len() ==> (#[trigger] vals@[i]) < pow2(8 * width as nat),
    ensures
        match r {
            AnyIntColumn::Uint8(v) => width == 1 && v@.len() == vals@.len() && forall|i: int|
                0 <= i < v@.len() ==> v@[i] == #[trigger] vals@[i],
            AnyIntColumn::Uint16(v) => width == 2 && v@.len() == vals@.len() && forall|i: int|
                0 <= i < v@.len() ==> v@[i] == #[trigger] vals@[i],
            AnyIntColumn::Uint32(v) => 3 <= width <= 4 && v@.len() == vals@.len() && forall|i: int|
                0 <= i < v@.len() ==> v@[i] == #[trigger] vals@[i],
            AnyIntColumn::Uint64(v) => 5 <= width && v@ == vals@,
        },
{
    proof {
        lemma2_to64();
        if width < 4 {
            lemma_pow2_strictly_increases(8 * width as nat, 32);
        }
    }
    if width == 1 {
        let mut v: Vec<u8> = Vec::new();
        let mut i: usize = 0;
        while i < vals.len()
            invariant
                i <= vals@.len(),
                v@.len() == i,
                pow2(8) == 256,
                forall|j: int| 0 <= j < vals@.len() ==> (#[trigger] vals@[j]) < pow2(8 * width as nat),
                width == 1,
                forall|j: int| 0 <= j < i ==> v@[j] == #[trigger] vals@[j],
            decreases vals@.len() - i,
        {
            v.push(vals[i] as u8);
            i = i + 1;
        }
        AnyIntColumn::Uint8(v)
    } else if width == 2 {
        let mut v: Vec<u16> = Vec::new();
        let mut i: usize = 0;
        while i < vals.len()
            invariant
                i <= vals@.len(),
                v@.len() == i,
                pow2(16) == 65536,
                forall|j: int| 0 <= j < vals@.len() ==> (#[trigger] vals@[j]) < pow2(8 * width as nat),
                width == 2,
                forall|j: int| 0 <= j < i ==> v@[j] == #[trigger] vals@[j],
            decreases vals@.len() - i,
        {
            v.push(vals[i] as u16);
            i = i + 1;
        }
        AnyIntColumn::Uint16(v)
    } else if width <= 4 {
        let mut v: Vec<u32> = Vec::new();
        let mut i: usize = 0;
        while i < vals.len()
            invariant
                i <= vals@.len(),
                v@.len() == i,
                pow2(32) == 0x100000000,
                pow2(8 * width as nat) <= pow2(32),
                forall|j: int| 0 <= j < vals@.len() ==> (#[trigger] vals@[j]) < pow2(8 * width as nat),
                forall|j: int| 0 <= j < i ==> v@[j] == #[trigger] vals@[j],
            decreases vals@.len() - i,
        {
            v.push(vals[i] as u32);
            i = i + 1;
        }
        AnyIntColumn::Uint32(v)
    } else {
        AnyIntColumn::Uint64(vals)
    }
}

pub open spec fn is_sep(b: u8) -> bool {
    b == 9 || b == 10 || b == 13 || b == 32 || b == 44
}

/// The state of tokenizing delimited ASCII: tokens done, and the current one.
pub open spec fn tok_scan(s: Seq<u8>) -> (Seq<Seq<u8>>, Seq<u8>)
    decreases s.len(),
{
    if s.len() == 0 {
        (Seq::empty(), Seq::empty())
    } else {
        let (done, cur) = tok_scan(s.drop_last());
        if is_sep(s.last()) {
            if cur.len() > 0 {
                (done.push(cur), Seq::empty())
            } else {
                (done, cur)
            }
        } else {
            (done, cur.push(s.last()))
        }
    }
}

/// The runs of non-separator bytes of delimited ASCII DATA; any run of
/// tab, newline, carriage return, space or comma separates.
pub open spec fn ascii_tokens(s: Seq<u8>) -> Seq<Seq<u8>> {
    let (done, cur) = tok_scan(s);
    if cur.len() > 0 {
        done.push(cur)
    } else {
        done
    }
}

pub open spec fn byte_views(v: Seq<Vec<u8>>) -> Seq<Seq<u8>> {
    v.map_values(|x: Vec<u8>| x@)
}

/// Splits delimited ASCII DATA into its tokens.
pub fn tokenize_ascii(data: &[u8]) -> (r: Vec<Vec<u8>>)
    ensures
        byte_views(r@) == ascii_tokens(data@),
{
    let mut done: Vec<Vec<u8>> = Vec::new();
    let mut cur: Vec<u8> = Vec::new();
    let mut i: usize = 0;
    while i < data.len()
        invariant
            i <= data@.len(),
            (byte_views(done@), cur@) == tok_scan(data@.subrange(0, i as int)),
        decreases data@.len() - i,
    {
        assert(data@.subrange(0, i + 1).drop_last() =~= data@.subrange(0, i as int));
        let b = data[i];
        if b == 9 || b == 10 || b == 13 || b == 32 || b == 44 {
            if cur.len() > 0 {
                let mut w: Vec<u8> = Vec::new();
                core::mem::swap(&mut w, &mut cur);
                let ghost before = done@;
                done.push(w);
                assert(byte_views(done@) =~= byte_views(before).push(w@));
                assert(cur@ =~= Seq::<u8>::empty());
            }
        } else {
            cur.push(b);
        }
        i = i + 1;
        assert(byte_views(done@) =~= tok_scan(data@.subrange(0, i as int)).0);
    }
    assert(data@.subrange(0, data@.len() as int) =~= data@);
    if cur.len() > 0 {
        let ghost before = done@;
        done.push(cur);
        assert(byte_views(done@) =~= byte_views(before).push(cur@));
    }
    done
}

/// Deals tokens out to `ncols` columns, event by event. With a number of
/// events, the tokens must be exactly that many events; without, they must
/// fill whole events so that all columns are equally long.
pub fn shape_columns(tokens: &Vec<Vec<u8>>, ncols: usize, nrows: Option<u64>) -> (r: Result<
    Vec<Vec<Vec<u8>>>,
    String,
>)
    ensures
        r is Ok <==> ncols > 0 && match nrows {
            Some(n) => tokens@.len() == ncols * n,
            None => tokens@.len() % (ncols as nat) == 0,
        },
        r matches Ok(cols) ==> cols@.len() == ncols && forall|c: int|
            0 <= c < ncols ==> (#[trigger] cols@[c])@.len() == tokens@.len() / (ncols as nat)
                && forall|row: int|
                0 <= row < tokens@.len() / (ncols as nat) ==> (#[trigger] cols@[c]@[row])@ == tokens@[row
                    * ncols + c]@,
{
    if ncols == 0 {
        return Err(string_from_chars(&chars_of("no measurements to read")));
    }
    let n = tokens.len();
    assert(usize::MAX <= u64::MAX);
    match nrows {
        Some(k) => {
            assert((ncols as u128) * (k as u128) <= u128::MAX) by (nonlinear_arith)
                requires
                    ncols <= u64::MAX,
                    k <= u64::MAX,
            ;
            if n as u128 != ncols as u128 * k as u128 {
                return Err(string_from_chars(&chars_of("number of values does not match $TOT and $PAR")));
            }
        },
        None => {
            if n % ncols != 0 {
                return Err(string_from_chars(&chars_of("columns would have unequal lengths")));
            }
        },
    }
    let rows = n / ncols;
    assert(rows * ncols <= n) by (nonlinear_arith)
        requires
            rows == n / ncols,
            ncols > 0,
    ;
    let mut cols: Vec<Vec<Vec<u8>>> = Vec::new();
    let mut c: usize = 0;
    while c < ncols
        invariant
            n == tokens@.len(),
            rows == n / ncols,
            rows * ncols <= n,
            ncols > 0,
            c <= ncols,
            cols@.len() == c,
            forall|cc: int|
                0 <= cc < c ==> (#[trigger] cols@[cc])@.len() == rows && forall|row: int|
                    0 <= row < rows ==> (#[trigger] cols@[cc]@[row])@ == tokens@[row * ncols + cc]@,
        decreases ncols - c,
    {
        let mut col: Vec<Vec<u8>> = Vec::new();
        let mut row: usize = 0;
        while row < rows
            invariant
                n == tokens@.len(),
                rows * ncols <= n,
                c < ncols,
                row <= rows,
                col@.len() == row,
                forall|rr: int| 0 <= rr < row ==> (#[trigger] col@[rr])@ == tokens@[rr * ncols + c]@,
            decreases rows - row,
        {
            assert(row * ncols + c < rows * ncols) by (nonlinear_arith)
                requires
                    row < rows,
                    c < ncols,
            ;
            let t = tokens[row * ncols + c].clone();
            col.push(t);
            row = row + 1;
        }
        cols.push(col);
        c = c + 1;
    }
    Ok(cols)
}

/// The number of decimal digits of a number.
pub fn decimal_len(x: u64) -> (r: usize)
    ensures
        r == crate::decimal::dec_digits(x as nat).len(),
{
    let mut v: Vec<char> = Vec::new();
    crate::decimal::push_decimal(&mut v, x);
    assert(v@ =~= crate::decimal::dec_digits(x as nat));
    v.len()
}

/// The DATA offsets to write after a TEXT of `textlen` bytes that does not
/// yet count the digits of the offsets themselves: the begin offset is the
/// text length plus the digits of both offsets, and the end offset is the
/// begin offset plus the DATA length. Searched by iteration from the
/// digits of `textlen` and `textlen + datalen`; gives nothing if no fixed
/// point is reached within 64 rounds.
pub fn compute_data_offsets(textlen: u32, datalen: u32) -> (r: Option<(u64, u64)>)
    ensures
        match r {
            Some(p) => p.0 == textlen + crate::decimal::dec_digits(p.0 as nat).len()
                + crate::decimal::dec_digits(p.1 as nat).len() && p.1 == p.0 + datalen,
            None => true,
        },
{
    let t = textlen as u64;
    let d = datalen as u64;
    let mut ns = decimal_len(t);
    let mut ne = decimal_len(t + d);
    proof {
        crate::decimal::lemma_dec_digits_len_bound(t as nat);
        crate::decimal::lemma_dec_digits_len_bound((t + d) as nat);
    }
    let mut round: u32 = 0;
    while round < 64
        invariant
            ns <= 20,
            ne <= 20,
            t == textlen,
            d == datalen,
        decreases 64 - round,
    {
        let start = t + ns as u64 + ne as u64;
        let end = start + d;
        let ts = decimal_len(start);
        let te = decimal_len(end);
        proof {
            crate::decimal::lemma_dec_digits_len_bound(start as nat);
            crate::decimal::lemma_dec_digits_len_bound(end as nat);
        }
        if ts == ns && te == ne {
            assert(start == t + crate::decimal::dec_digits(start as nat).len() + crate::decimal::dec_digits(
                end as nat,
            ).len());
            return Some((start, end));
        }
        ns = ts;
        ne = te;
        round = round + 1;
    }
    None
}

/// The `$BEGINDATA` and `$ENDDATA` pairs for a file whose other TEXT
/// keywords take `other_textlen` bytes and whose DATA takes `datalen`.
pub fn make_data_offset_keywords(other_textlen: u32, datalen: u32) -> (r: Option<Vec<(String, String)>>)
    ensures
        r matches Some(v) ==> v@.len() == 2,
{
    if other_textlen > u32::MAX - 81 {
        return None;
    }
    let textlen = 58 + 22 + other_textlen + 1;
    match compute_data_offsets(textlen, datalen) {
        Some((s, e)) => {
            let mut v: Vec<(String, String)> = Vec::new();
            v.push((string_from_chars(&chars_of("$BEGINDATA")), crate::decimal::u64_to_string(s)));
            v.push((string_from_chars(&chars_of("$ENDDATA")), crate::decimal::u64_to_string(e)));
            Some(v)
        },
        None => None,
    }
}

} // verus!
