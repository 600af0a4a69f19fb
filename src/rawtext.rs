//! The TEXT segment as raw key/value pairs: finding the delimiter, cutting
//! the bytes into words, pairing them, and locating the offsets it holds.
use vstd::prelude::*;
use vstd::string::*;
use vstd::utf8::*;

use crate::config::{OffsetCorrection, RawTextReadConfig};
use crate::decimal::{digits_value, is_decimal, parse_u32};
use crate::error::{PureErrorBuf, PureErrorLevel, PureSuccess};
use crate::segment::{adjust_error, Segment, SegmentId};
use crate::textbuf::{chars_of, push_str, str_eq, string_from_chars};

verus! {

/// The state of the scan over TEXT: the finished words, the word being
/// read, and the length of the run of delimiters just seen.
pub ghost struct ScanState {
    pub words: Seq<Seq<u8>>,
    pub cur: Seq<u8>,
    pub run: nat,
}

/// `n` copies of a byte.
pub open spec fn repeat(d: u8, n: nat) -> Seq<u8> {
    Seq::new(n, |i: int| d)
}

/// The end of a run of `run` delimiters: half of them, rounded down, are
/// literal delimiters in the current word, and an odd run also ends it.
pub open spec fn flush(st: ScanState, d: u8) -> ScanState {
    let c = st.cur + repeat(d, st.run / 2);
    if st.run % 2 == 1 {
        ScanState { words: st.words.push(c), cur: Seq::empty(), run: 0 }
    } else {
        ScanState { words: st.words, cur: c, run: 0 }
    }
}

/// One byte of the scan. With escapes, delimiters are counted into runs;
/// without, each delimiter ends a word.
pub open spec fn scan_step(st: ScanState, b: u8, d: u8, escape: bool) -> ScanState {
    if escape {
        if b == d {
            ScanState { words: st.words, cur: st.cur, run: st.run + 1 }
        } else {
            let f = flush(st, d);
            ScanState { words: f.words, cur: f.cur.push(b), run: 0 }
        }
    } else {
        if b == d {
            ScanState { words: st.words.push(st.cur), cur: Seq::empty(), run: 0 }
        } else {
            ScanState { words: st.words, cur: st.cur.push(b), run: 0 }
        }
    }
}

pub open spec fn scan(s: Seq<u8>, d: u8, escape: bool) -> ScanState
    decreases s.len(),
{
    if s.len() == 0 {
        ScanState { words: Seq::empty(), cur: Seq::empty(), run: 0 }
    } else {
        scan_step(scan(s.drop_last(), d, escape), s.last(), d, escape)
    }
}

/// The words of a scan once the bytes are over; a word not closed by a
/// delimiter still counts when it is not empty.
pub open spec fn finish(st: ScanState, d: u8, escape: bool) -> Seq<Seq<u8>> {
    let f = if escape {
        flush(st, d)
    } else {
        st
    };
    if f.cur.len() > 0 {
        f.words.push(f.cur)
    } else {
        f.words
    }
}

/// The words of a TEXT segment whose first byte is its delimiter.
pub open spec fn text_words(xs: Seq<u8>, escape: bool) -> Seq<Seq<u8>> {
    finish(scan(xs.subrange(1, xs.len() as int), xs[0], escape), xs[0], escape)
}

/// A run of `k` delimiters gives `k / 2` literal delimiters, and ends the
/// word exactly when `k` is odd.
pub proof fn lemma_delimiter_run(st: ScanState, d: u8)
    ensures
        st.run % 2 == 1 ==> flush(st, d).words == st.words.push(st.cur + repeat(d, st.run / 2))
            && flush(st, d).cur.len() == 0,
        st.run % 2 == 0 ==> flush(st, d).words == st.words && flush(st, d).cur == st.cur + repeat(
            d,
            st.run / 2,
        ),
{
}

/// The scan continued from a state over more bytes.
pub open spec fn scan_from(st: ScanState, s: Seq<u8>, d: u8, escape: bool) -> ScanState
    decreases s.len(),
{
    if s.len() == 0 {
        st
    } else {
        scan_step(scan_from(st, s.drop_last(), d, escape), s.last(), d, escape)
    }
}

proof fn lemma_run_counts(st: ScanState, d: u8, k: nat)
    ensures
        scan_from(st, repeat(d, k), d, true) == (ScanState { words: st.words, cur: st.cur, run: st.run + k }),
    decreases k,
{
    if k > 0 {
        assert(repeat(d, k).drop_last() =~= repeat(d, (k - 1) as nat));
        lemma_run_counts(st, d, (k - 1) as nat);
    } else {
        assert(repeat(d, 0) =~= Seq::<u8>::empty());
    }
}

/// With escapes, a run of `k` delimiters between two other bytes puts
/// `k / 2` literal delimiters into the word, and ends the word exactly
/// when `k` is odd.
pub proof fn lemma_delimiter_run_rule(st: ScanState, d: u8, k: nat, b: u8)
    requires
        st.run == 0,
        b != d,
    ensures
        ({
            let out = scan_from(st, repeat(d, k).push(b), d, true);
            &&& out.run == 0
            &&& k % 2 == 1 ==> out.words == st.words.push(st.cur + repeat(d, k / 2)) && out.cur == seq![b]
            &&& k % 2 == 0 ==> out.words == st.words && out.cur == (st.cur + repeat(d, k / 2)).push(b)
        }),
{
    lemma_run_counts(st, d, k);
    assert(repeat(d, k).push(b).drop_last() =~= repeat(d, k));
    assert(Seq::<u8>::empty().push(b) =~= seq![b]);
}

/// Checks the delimiter: a byte of 128 or more is not UTF-8 and always an
/// error; one outside 1..=126 is an error or a warning as configured.
pub fn verify_delim(d: u8, conf: &RawTextReadConfig) -> (r: PureSuccess<u8>)
    ensures
        r.data == d,
        (exists|i: int|
            0 <= i < r.deferred.errors@.len() && (#[trigger] r.deferred.errors@[i]).level
                == PureErrorLevel::Error) <==> (d >= 128 || ((d == 0 || d == 127)
            && conf.force_ascii_delim)),
        r.deferred.errors@.len() == 0 <==> 1 <= d <= 126,
{
    let mut res = PureSuccess::from(d);
    if d >= 128 {
        res.push_error(delim_message(d, "is not a valid utf8 character"));
    }
    if !(1 <= d && d <= 126) {
        res.push_msg_leveled(delim_message(d, "is not an ASCII character b/t 1-126"), conf.force_ascii_delim);
    }
    proof {
        let es = res.deferred.errors@;
        if d >= 128 {
            assert(es[0].level == PureErrorLevel::Error);
        } else if d == 0 || d == 127 {
            assert(es.len() == 1);
            if !conf.force_ascii_delim {
                assert(forall|i: int| 0 <= i < es.len() ==> es[i].level != PureErrorLevel::Error);
            } else {
                assert(es[0].level == PureErrorLevel::Error);
            }
        }
    }
    res
}

fn delim_message(d: u8, what: &str) -> String {
    let mut v: Vec<char> = Vec::new();
    push_str(&mut v, "Delimiter ");
    crate::decimal::push_decimal(&mut v, d as u64);
    push_str(&mut v, " ");
    push_str(&mut v, what);
    string_from_chars(&v)
}

fn flush_exec(words: &mut Vec<Vec<u8>>, cur: &mut Vec<u8>, run: &mut usize, d: u8, odd_runs: &mut usize)
    ensures
        ({
            let f = flush(
                ScanState {
                    words: old(words)@.map_values(|w: Vec<u8>| w@),
                    cur: old(cur)@,
                    run: *old(run) as nat,
                },
                d,
            );
            &&& final(words)@.map_values(|w: Vec<u8>| w@) == f.words
            &&& final(cur)@ == f.cur
            &&& *final(run) == 0
        }),
{
    let ghost c0 = cur@;
    let half = *run / 2;
    let mut j: usize = 0;
    while j < half
        invariant
            half == *run / 2,
            j <= half,
            cur@ == c0 + repeat(d, j as nat),
            words@ == old(words)@,
            *run == *old(run),
        decreases half - j,
    {
        cur.push(d);
        j = j + 1;
        assert(cur@ =~= c0 + repeat(d, j as nat));
    }
    if *run % 2 == 1 {
        if *run > 1 && *odd_runs < usize::MAX {
            *odd_runs = *odd_runs + 1;
        }
        let mut w: Vec<u8> = Vec::new();
        core::mem::swap(&mut w, cur);
        words.push(w);
        assert(cur@ =~= Seq::<u8>::empty());
    }
    *run = 0;
    assert(words@.map_values(|w: Vec<u8>| w@) =~= flush(
        ScanState { words: old(words)@.map_values(|w: Vec<u8>| w@), cur: old(cur)@, run: *old(run) as nat },
        d,
    ).words);
}

/// Cuts a TEXT segment into its words. The first byte is the delimiter.
/// Also counts the odd runs of more than one delimiter, which stand at the
/// edge of a word.
pub fn split_words(xs: &[u8], escape: bool) -> (r: (Vec<Vec<u8>>, usize))
    requires
        xs@.len() >= 1,
    ensures
        r.0@.map_values(|w: Vec<u8>| w@) == text_words(xs@, escape),
{
    let d = xs[0];
    let n = xs.len();
    let mut words: Vec<Vec<u8>> = Vec::new();
    let mut cur: Vec<u8> = Vec::new();
    let mut run: usize = 0;
    let mut odd_runs: usize = 0;
    let ghost body = xs@.subrange(1, n as int);
    let mut i: usize = 1;
    while i < n
        invariant
            n == xs@.len(),
            d == xs@[0],
            body == xs@.subrange(1, n as int),
            1 <= i <= n,
            run < i,
            ({
                let st = scan(xs@.subrange(1, i as int), d, escape);
                &&& words@.map_values(|w: Vec<u8>| w@) == st.words
                &&& cur@ == st.cur
                &&& run as nat == st.run
            }),
        decreases n - i,
    {
        let b = xs[i];
        assert(xs@.subrange(1, i + 1).drop_last() =~= xs@.subrange(1, i as int));
        if escape {
            if b == d {
                run = run + 1;
            } else {
                flush_exec(&mut words, &mut cur, &mut run, d, &mut odd_runs);
                cur.push(b);
            }
        } else {
            if b == d {
                let mut w: Vec<u8> = Vec::new();
                core::mem::swap(&mut w, &mut cur);
                words.push(w);
                assert(cur@ =~= Seq::<u8>::empty());
            } else {
                cur.push(b);
            }
        }
        i = i + 1;
        assert(words@.map_values(|w: Vec<u8>| w@) =~= scan(xs@.subrange(1, i as int), d, escape).words);
    }
    assert(xs@.subrange(1, n as int) =~= body);
    if escape {
        flush_exec(&mut words, &mut cur, &mut run, d, &mut odd_runs);
    }
    if cur.len() > 0 {
        words.push(cur);
    }
    assert(words@.map_values(|w: Vec<u8>| w@) =~= text_words(xs@, escape));
    (words, odd_runs)
}

pub uninterp spec fn upper_of(s: Seq<char>) -> Seq<char>;

/// Relies on `str::to_uppercase`: the result depends on the characters
/// alone.
#[verifier::external_body]
fn to_upper(s: &str) -> (r: String)
    ensures
        r@ == upper_of(s@),
{
    s.to_uppercase()
}

/// Relies on `String::from_utf8`: it succeeds exactly on valid UTF-8 and
/// then holds the characters the bytes encode.
#[verifier::external_body]
fn utf8_string(b: Vec<u8>) -> (r: Option<String>)
    ensures
        r is Some <==> valid_utf8(b@),
        r matches Some(s) ==> s@ == decode_utf8(b@),
{
    String::from_utf8(b).ok()
}

/// A key and a value from two words: both must be UTF-8, the key is upper
/// cased, and without escapes an empty value drops the pair.
pub open spec fn pair_of(k: Seq<u8>, v: Seq<u8>, escape: bool) -> Option<(Seq<char>, Seq<char>)> {
    if valid_utf8(k) && valid_utf8(v) && (escape || v.len() > 0) {
        Some((upper_of(decode_utf8(k)), decode_utf8(v)))
    } else {
        None
    }
}

/// The pairs made of the first `m` pairs of words.
pub open spec fn word_pairs(w: Seq<Seq<u8>>, m: nat, escape: bool) -> Seq<(Seq<char>, Seq<char>)>
    decreases m,
{
    if m == 0 {
        Seq::empty()
    } else {
        let rest = word_pairs(w, (m - 1) as nat, escape);
        match pair_of(w[2 * m - 2], w[2 * m - 1], escape) {
            Some(p) => rest.push(p),
            None => rest,
        }
    }
}

/// The key/value pairs of a TEXT segment.
pub open spec fn text_pairs(xs: Seq<u8>, escape: bool) -> Seq<(Seq<char>, Seq<char>)> {
    let w = text_words(xs, escape);
    word_pairs(w, w.len() / 2, escape)
}

pub open spec fn pair_views(ps: Seq<(String, String)>) -> Seq<(Seq<char>, Seq<char>)> {
    ps.map_values(|p: (String, String)| (p.0@, p.1@))
}

/// Splits a TEXT segment into key/value pairs. The words are those of
/// `text_words`; a pair whose words are not UTF-8, or (without escapes)
/// whose value is empty, is dropped with a diagnostic; an odd word at the
/// end is dropped with a diagnostic.
pub fn split_raw_text(xs: &[u8], conf: &RawTextReadConfig) -> (r: PureSuccess<Vec<(String, String)>>)
    requires
        xs@.len() >= 1,
    ensures
        pair_views(r.data@) == text_pairs(xs@, !conf.no_delim_escape),
        text_words(xs@, !conf.no_delim_escape).len() % 2 == 1 ==> r.deferred.errors@.len() > 0
            && r.deferred.errors@.last().level == (if conf.enforce_even {
            PureErrorLevel::Error
        } else {
            PureErrorLevel::Warning
        }),
        xs@.last() != xs@[0] ==> exists|i: int|
            0 <= i < r.deferred.errors@.len() && (#[trigger] r.deferred.errors@[i]).level == (
            if conf.enforce_final_delim {
                PureErrorLevel::Error
            } else {
                PureErrorLevel::Warning
            }),
{
    let escape = !conf.no_delim_escape;
    let d = xs[0];
    let (words, odd_runs) = split_words(xs, escape);
    let mut res: PureSuccess<Vec<(String, String)>> = PureSuccess::from(Vec::new());
    if odd_runs > 0 {
        res.push_error(string_from_chars(&chars_of("delimiter found at the edge of a word")));
    }
    if xs[xs.len() - 1] != d {
        res.push_msg_leveled(
            string_from_chars(&chars_of("Last char is not a delimiter")),
            conf.enforce_final_delim,
        );
    }
    let ghost w = words@.map_values(|x: Vec<u8>| x@);
    let ghost e0 = res.deferred.errors@;
    let ghost final_level = if conf.enforce_final_delim {
        PureErrorLevel::Error
    } else {
        PureErrorLevel::Warning
    };
    assert(xs@.last() != xs@[0] ==> e0.len() > 0 && e0.last().level == final_level);
    let wl = words.len();
    let m = wl / 2;
    let mut i: usize = 0;
    while i < m
        invariant
            m == words@.len() / 2,
            wl == words@.len(),
            2 * m <= wl,
            w == words@.map_values(|x: Vec<u8>| x@),
            e0.len() <= res.deferred.errors@.len(),
            res.deferred.errors@.subrange(0, e0.len() as int) == e0,
            i <= m,
            pair_views(res.data@) == word_pairs(w, i as nat, escape),
        decreases m - i,
    {
        let ghost before = res.data@;
        let k = words[2 * i].clone();
        let v = words[2 * i + 1].clone();
        let vlen = v.len();
        if k.len() == 0 {
            res.push_msg_leveled(string_from_chars(&chars_of("a key is blank")), conf.enforce_nonempty);
        }
        assert(k@ == w[2 * i]);
        assert(v@ == w[2 * i + 1]);
        match (utf8_string(k), utf8_string(v)) {
            (Some(ks), Some(vs)) => {
                let kupper = to_upper(ks.as_str());
                if !kupper.is_ascii() {
                    res.push_msg_leveled(
                        string_from_chars(&chars_of("keywords must be ASCII")),
                        conf.enforce_keyword_ascii,
                    );
                }
                if !escape && vlen == 0 {
                    let mut msg: Vec<char> = Vec::new();
                    push_str(&mut msg, "key ");
                    push_str(&mut msg, kupper.as_str());
                    push_str(&mut msg, " has a blank value");
                    res.push_msg_leveled(string_from_chars(&msg), conf.enforce_nonempty);
                } else {
                    res.data.push((kupper, vs));
                    assert(pair_views(res.data@) =~= pair_views(before).push(
                        pair_of(w[2 * i], w[2 * i + 1], escape).unwrap(),
                    ));
                }
            },
            _ => {
                res.push_msg_leveled(
                    string_from_chars(&chars_of("invalid UTF-8 byte encountered when parsing TEXT")),
                    conf.error_on_invalid_utf8,
                );
            },
        }
        i = i + 1;
    }
    if words.len() % 2 == 1 {
        res.push_msg_leveled(string_from_chars(&chars_of("number of words is not even")), conf.enforce_even);
    }
    proof {
        if xs@.last() != xs@[0] {
            let i = e0.len() - 1;
            assert(res.deferred.errors@.subrange(0, e0.len() as int)[i] == res.deferred.errors@[i]);
            assert(res.deferred.errors@[i].level == final_level);
        }
    }
    res
}

pub open spec fn key_in(ps: Seq<(Seq<char>, Seq<char>)>, k: Seq<char>) -> bool {
    exists|i: int| 0 <= i < ps.len() && (#[trigger] ps[i]).0 == k
}

/// The pairs with the first value of each key, in order.
pub open spec fn dedup(ps: Seq<(Seq<char>, Seq<char>)>) -> Seq<(Seq<char>, Seq<char>)>
    decreases ps.len(),
{
    if ps.len() == 0 {
        Seq::empty()
    } else {
        let d = dedup(ps.drop_last());
        if key_in(d, ps.last().0) {
            d
        } else {
            d.push(ps.last())
        }
    }
}

pub open spec fn is_std_key(k: Seq<char>) -> bool {
    k.len() > 0 && k[0] == '$'
}

pub open spec fn unique_keys(ps: Seq<(Seq<char>, Seq<char>)>) -> bool {
    forall|i: int, j: int| 0 <= i < j < ps.len() ==> ps[i].0 != ps[j].0
}

/// Raw TEXT: the delimiter, and the standard (`$`) and nonstandard pairs,
/// each with unique keys.
pub struct RawTEXT {
    pub delimiter: u8,
    pub standard: Vec<(String, String)>,
    pub nonstandard: Vec<(String, String)>,
}

fn find_key(ps: &Vec<(String, String)>, k: &str) -> (r: Option<usize>)
    ensures
        match r {
            Some(i) => i < ps@.len() && ps@[i as int].0@ == k@,
            None => !key_in(pair_views(ps@), k@),
        },
{
    let mut i: usize = 0;
    while i < ps.len()
        invariant
            i <= ps@.len(),
            forall|j: int| 0 <= j < i ==> ps@[j].0@ != k@,
        decreases ps@.len() - i,
    {
        if str_eq(ps[i].0.as_str(), k) {
            return Some(i);
        }
        i = i + 1;
    }
    assert forall|j: int| 0 <= j < pair_views(ps@).len() implies (#[trigger] pair_views(ps@)[j]).0 != k@ by {
        assert(pair_views(ps@)[j].0 == ps@[j].0@);
    }
    None
}

/// Sorts pairs into standard and nonstandard by the key's leading `$`,
/// keeping the first value of a repeated key; each repeat is reported, as
/// an error or a warning as configured.
pub fn split_raw_pairs(pairs: Vec<(String, String)>, conf: &RawTextReadConfig) -> (r: PureSuccess<
    (Vec<(String, String)>, Vec<(String, String)>),
>)
    ensures
        pair_views(r.data.0@) == dedup(pair_views(pairs@)).filter(|p: (Seq<char>, Seq<char>)| is_std_key(p.0)),
        pair_views(r.data.1@) == dedup(pair_views(pairs@)).filter(|p: (Seq<char>, Seq<char>)| !is_std_key(p.0)),
        r.deferred.errors@.len() + dedup(pair_views(pairs@)).len() == pairs@.len(),
        forall|j: int| 0 <= j < r.deferred.errors@.len() ==> (#[trigger] r.deferred.errors@[j]).level == (
            if conf.enforce_unique {
                PureErrorLevel::Error
            } else {
                PureErrorLevel::Warning
            }),
{
    let mut all: Vec<(String, String)> = Vec::new();
    let mut deferred = PureErrorBuf::new();
    let mut i: usize = 0;
    while i < pairs.len()
        invariant
            i <= pairs@.len(),
            pair_views(all@) == dedup(pair_views(pairs@.subrange(0, i as int))),
            deferred.errors@.len() + all@.len() == i,
            forall|j: int| 0 <= j < deferred.errors@.len() ==> (#[trigger] deferred.errors@[j]).level == (
                if conf.enforce_unique {
                    PureErrorLevel::Error
                } else {
                    PureErrorLevel::Warning
                }),
        decreases pairs@.len() - i,
    {
        let ghost pre = pair_views(pairs@.subrange(0, i as int));
        assert(pair_views(pairs@.subrange(0, i + 1)).drop_last() =~= pre);
        let (k, v) = (pairs[i].0.clone(), pairs[i].1.clone());
        assert(pair_views(pairs@.subrange(0, i + 1)).last() == (k@, v@));
        match find_key(&all, k.as_str()) {
            Some(idx) => {
                let mut msg: Vec<char> = Vec::new();
                push_str(&mut msg, "Skipping already-inserted key: ");
                push_str(&mut msg, k.as_str());
                let ghost eb = deferred.errors@;
                deferred.push_msg_leveled(string_from_chars(&msg), conf.enforce_unique);
                assert forall|j: int| 0 <= j < deferred.errors@.len() implies (#[trigger] deferred.errors@[j]).level == (
                    if conf.enforce_unique {
                        PureErrorLevel::Error
                    } else {
                        PureErrorLevel::Warning
                    }) by {
                    if j < eb.len() {
                        assert(deferred.errors@.drop_last()[j] == eb[j]);
                    } else {
                        assert(deferred.errors@[j] == deferred.errors@.last());
                    }
                }
                assert(pair_views(all@)[idx as int].0 == k@);
                assert(key_in(dedup(pre), k@));
            },
            None => {
                let ghost b = all@;
                all.push((k, v));
                assert(pair_views(all@) =~= pair_views(b).push((k@, v@)));
            },
        }
        i = i + 1;
    }
    assert(pairs@.subrange(0, pairs@.len() as int) =~= pairs@);
    let mut std: Vec<(String, String)> = Vec::new();
    let mut nonstd: Vec<(String, String)> = Vec::new();
    let mut j: usize = 0;
    while j < all.len()
        invariant
            j <= all@.len(),
            pair_views(std@) == pair_views(all@.subrange(0, j as int)).filter(|p: (Seq<char>, Seq<char>)| is_std_key(p.0)),
            pair_views(nonstd@) == pair_views(all@.subrange(0, j as int)).filter(|p: (Seq<char>, Seq<char>)| !is_std_key(p.0)),
        decreases all@.len() - j,
    {
        let ghost pre = pair_views(all@.subrange(0, j as int));
        assert(pair_views(all@.subrange(0, j + 1)) =~= pre.push((all@[j as int].0@, all@[j as int].1@)));
        let (k, v) = (all[j].0.clone(), all[j].1.clone());
        let ks = k.as_str();
        let std_key = ks.unicode_len() > 0 && ks.get_char(0) == '$';
        proof {
            reveal(Seq::filter);
            assert(pre.push((k@, v@)).drop_last() =~= pre);
        }
        if std_key {
            let ghost b = std@;
            std.push((k, v));
            assert(pair_views(std@) =~= pair_views(b).push((k@, v@)));
        } else {
            let ghost b = nonstd@;
            nonstd.push((k, v));
            assert(pair_views(nonstd@) =~= pair_views(b).push((k@, v@)));
        }
        j = j + 1;
    }
    assert(all@.subrange(0, all@.len() as int) =~= all@);
    PureSuccess { data: (std, nonstd), deferred }
}

/// How many spaces a text starts with.
pub open spec fn leading_blank(s: Seq<char>) -> nat
    decreases s.len(),
{
    if s.len() > 0 && s[0] == ' ' {
        1 + leading_blank(s.drop_first())
    } else {
        0
    }
}

proof fn lemma_leading_blank(s: Seq<char>, k: int)
    requires
        0 <= k <= s.len(),
        forall|i: int| 0 <= i < k ==> s[i] == ' ',
        k == s.len() || s[k] != ' ',
    ensures
        leading_blank(s) == k,
    decreases k,
{
    if k > 0 {
        lemma_leading_blank(s.drop_first(), k - 1);
    }
}

/// Replaces the leading spaces of a text with zeros.
pub fn pad_zeros(s: &str) -> (r: String)
    ensures
        r@ == Seq::new(leading_blank(s@), |i: int| '0') + s@.subrange(
            leading_blank(s@) as int,
            s@.len() as int,
        ),
{
    let cs = chars_of(s);
    let n = cs.len();
    let mut k: usize = 0;
    while k < n && cs[k] == ' '
        invariant
            cs@ == s@,
            n == cs@.len(),
            k <= n,
            forall|i: int| 0 <= i < k ==> cs@[i] == ' ',
        decreases n - k,
    {
        k = k + 1;
    }
    proof {
        lemma_leading_blank(s@, k as int);
    }
    let mut out: Vec<char> = Vec::new();
    let mut i: usize = 0;
    while i < n
        invariant
            cs@ == s@,
            n == cs@.len(),
            k <= n,
            i <= n,
            out@ == (Seq::new(k as nat, |j: int| '0') + s@.subrange(k as int, n as int)).subrange(
                0,
                i as int,
            ),
        decreases n - i,
    {
        if i < k {
            out.push('0');
        } else {
            out.push(cs[i]);
        }
        i = i + 1;
        assert(out@ =~= (Seq::new(k as nat, |j: int| '0') + s@.subrange(k as int, n as int)).subrange(
            0,
            i as int,
        ));
    }
    assert(out@ =~= Seq::new(k as nat, |j: int| '0') + s@.subrange(k as int, n as int));
    string_from_chars(&out)
}

/// The segment two offset values give, with their corrections.
pub open spec fn text_segment_spec(b: Option<Seq<char>>, e: Option<Seq<char>>, c: OffsetCorrection) -> Option<
    (nat, nat),
> {
    match (b, e) {
        (Some(bs), Some(es)) => if is_decimal(bs) && is_decimal(es) && digits_value(bs) <= u32::MAX
            && digits_value(es) <= u32::MAX && adjust_error(
            digits_value(bs) as u32,
            digits_value(es) as u32,
            c.begin,
            c.end,
        ) is None {
            Some(
                (
                    (digits_value(bs) + c.begin) as nat,
                    (digits_value(es) + c.end) as nat,
                ),
            )
        } else {
            None
        },
        _ => None,
    }
}

fn offset_message(which: &str, what: &str, id: SegmentId) -> String {
    let mut v: Vec<char> = Vec::new();
    push_str(&mut v, which);
    push_str(&mut v, what);
    push_str(&mut v, id.name());
    string_from_chars(&v)
}

/// Builds a segment from its offset values as TEXT gives them; each
/// missing or unreadable value, or an invalid segment, is a diagnostic at
/// the given level.
pub fn parse_segment(
    begin: Option<&str>,
    end: Option<&str>,
    corr: OffsetCorrection,
    id: SegmentId,
    level: PureErrorLevel,
) -> (r: Result<Segment, PureErrorBuf>)
    ensures
        match text_segment_spec(
            match begin {
                Some(x) => Some(x@),
                None => None,
            },
            match end {
                Some(x) => Some(x@),
                None => None,
            },
            corr,
        ) {
            Some(bounds) => r matches Ok(seg) && seg@ == bounds,
            None => r matches Err(b) && b.errors@.len() > 0,
        },
{
    let mut errs = PureErrorBuf::new();
    let b = match begin {
        Some(x) => {
            let v = parse_u32(x);
            if v.is_none() {
                errs.push_msg(offset_message("begin", " offset could not be read for ", id), level);
            }
            v
        },
        None => {
            errs.push_msg(offset_message("begin", " not present for ", id), level);
            None
        },
    };
    let e = match end {
        Some(x) => {
            let v = parse_u32(x);
            if v.is_none() {
                errs.push_msg(offset_message("end", " offset could not be read for ", id), level);
            }
            v
        },
        None => {
            errs.push_msg(offset_message("end", " not present for ", id), level);
            None
        },
    };
    match (b, e) {
        (Some(bn), Some(en)) => match Segment::try_new_adjusted(bn, en, corr.begin, corr.end, id) {
            Ok(seg) => Ok(seg),
            Err(err) => {
                errs.push_msg(err.message(), level);
                Err(errs)
            },
        },
        _ => Err(errs),
    }
}

/// The segment to use when HEADER and TEXT both may give one: TEXT's where
/// HEADER's is unset, else HEADER's.
pub open spec fn choose_segment_spec(header: (nat, nat), text: Option<(nat, nat)>) -> Option<(nat, nat)> {
    if header == (0nat, 0nat) {
        text
    } else {
        Some(header)
    }
}

/// Chooses between the HEADER's segment and TEXT's, warning (naming both)
/// when both are set and differ.
pub fn choose_segment(header: Segment, text: Option<Segment>, id: SegmentId) -> (r: PureSuccess<Option<Segment>>)
    ensures
        match (choose_segment_spec(header@, match text { Some(t) => Some(t@), None => None })) {
            Some(b) => r.data matches Some(s) && s@ == b,
            None => r.data is None,
        },
        r.deferred.errors@.len() == (if header@ != (0nat, 0nat) && (match text {
            Some(t) => t@ != header@,
            None => false,
        }) {
            1int
        } else {
            0int
        }),
        forall|i: int| 0 <= i < r.deferred.errors@.len() ==> (#[trigger] r.deferred.errors@[i]).level == PureErrorLevel::Warning,
{
    match text {
        None => {
            if header.is_unset() {
                PureSuccess::from(None)
            } else {
                PureSuccess::from(Some(header))
            }
        },
        Some(t) => {
            if header.is_unset() {
                PureSuccess::from(Some(t))
            } else {
                let mut res = PureSuccess::from(Some(header));
                if t.begin() != header.begin() || t.end() != header.end() {
                    let mut v: Vec<char> = Vec::new();
                    push_str(&mut v, id.name());
                    push_str(&mut v, " offsets differ in HEADER (");
                    crate::decimal::push_decimal(&mut v, header.begin() as u64);
                    push_str(&mut v, ",");
                    crate::decimal::push_decimal(&mut v, header.end() as u64);
                    push_str(&mut v, ") and TEXT (");
                    crate::decimal::push_decimal(&mut v, t.begin() as u64);
                    push_str(&mut v, ",");
                    crate::decimal::push_decimal(&mut v, t.end() as u64);
                    push_str(&mut v, "), using HEADER");
                    res.push_warning(string_from_chars(&v));
                } else {
                    assert(t@ == header@);
                }
                res
            }
        },
    }
}

/// The last value a key has among pairs.
pub open spec fn last_value(ps: Seq<(Seq<char>, Seq<char>)>, k: Seq<char>) -> Option<Seq<char>>
    decreases ps.len(),
{
    if ps.len() == 0 {
        None
    } else if ps.last().0 == k {
        Some(ps.last().1)
    } else {
        last_value(ps.drop_last(), k)
    }
}

/// An offset value as read: with leading spaces made zeros, if so
/// configured.
pub open spec fn repaired(v: Option<Seq<char>>, repair: bool) -> Option<Seq<char>> {
    match v {
        Some(s) => if repair {
            Some(Seq::new(leading_blank(s), |i: int| '0') + s.subrange(leading_blank(s) as int, s.len() as int))
        } else {
            Some(s)
        },
        None => None,
    }
}

pub open spec fn is_offset_key(k: Seq<char>) -> bool {
    k == "$BEGINDATA"@ || k == "$ENDDATA"@ || k == "$BEGINSTEXT"@ || k == "$ENDSTEXT"@ || k
        == "$BEGINANALYSIS"@ || k == "$ENDANALYSIS"@
}

/// The segments that TEXT locates, chosen against HEADER, and the pairs
/// that are not offsets.
pub struct RawSegments {
    pub pairs: Vec<(String, String)>,
    pub data: Result<PureSuccess<Segment>, crate::error::Failure<String>>,
    pub stext: PureSuccess<Option<Segment>>,
    pub analysis: PureSuccess<Option<Segment>>,
}

fn opt_str(v: &Option<String>) -> (r: Option<&str>)
    ensures
        match v {
            Some(s) => r matches Some(x) && x@ == s@,
            None => r is None,
        },
{
    match v {
        Some(s) => Some(s.as_str()),
        None => None,
    }
}

/// Takes the offset keywords out of the pairs and builds the segments they
/// give. DATA comes from HEADER unless HEADER leaves it unset, and is an
/// error when neither gives it; ANALYSIS likewise but optional; the
/// supplemental TEXT is given by TEXT alone.
pub fn find_raw_segments(
    pairs: &Vec<(String, String)>,
    repair: bool,
    data_corr: OffsetCorrection,
    stext_corr: OffsetCorrection,
    analysis_corr: OffsetCorrection,
    header_data: Segment,
    header_analysis: Segment,
) -> (r: RawSegments)
    ensures
        pair_views(r.pairs@) == pair_views(pairs@).filter(|p: (Seq<char>, Seq<char>)| !is_offset_key(p.0)),
        ({
            let text_data = text_segment_spec(
                repaired(last_value(pair_views(pairs@), "$BEGINDATA"@), repair),
                repaired(last_value(pair_views(pairs@), "$ENDDATA"@), repair),
                data_corr,
            );
            &&& match choose_segment_spec(header_data@, text_data) {
                Some(b) => r.data matches Ok(s) && s.data@ == b,
                None => r.data is Err,
            }
            &&& r.data matches Ok(s) ==> s.deferred.errors@.len() == (if header_data@ != (0nat, 0nat) && (
            match text_data {
                Some(t) => t != header_data@,
                None => false,
            }) {
                1int
            } else {
                0int
            }) && forall|j: int| 0 <= j < s.deferred.errors@.len() ==> (#[trigger] s.deferred.errors@[j]).level
                == PureErrorLevel::Warning
        }),
        ({
            let text_analysis = text_segment_spec(
                repaired(last_value(pair_views(pairs@), "$BEGINANALYSIS"@), repair),
                repaired(last_value(pair_views(pairs@), "$ENDANALYSIS"@), repair),
                analysis_corr,
            );
            match choose_segment_spec(header_analysis@, text_analysis) {
                Some(b) => r.analysis.data matches Some(s) && s@ == b,
                None => r.analysis.data is None,
            }
        }),
        match text_segment_spec(
            repaired(last_value(pair_views(pairs@), "$BEGINSTEXT"@), repair),
            repaired(last_value(pair_views(pairs@), "$ENDSTEXT"@), repair),
            stext_corr,
        ) {
            Some(b) => r.stext.data matches Some(s) && s@ == b,
            None => r.stext.data is None,
        },
{
    let mut vals: Vec<Option<String>> = vec![None, None, None, None, None, None];
    let mut rest: Vec<(String, String)> = Vec::new();
    let ghost keys = seq!["$BEGINDATA"@, "$ENDDATA"@, "$BEGINSTEXT"@, "$ENDSTEXT"@, "$BEGINANALYSIS"@, "$ENDANALYSIS"@];
    let mut i: usize = 0;
    while i < pairs.len()
        invariant
            i <= pairs@.len(),
            vals@.len() == 6,
            keys == seq!["$BEGINDATA"@, "$ENDDATA"@, "$BEGINSTEXT"@, "$ENDSTEXT"@, "$BEGINANALYSIS"@, "$ENDANALYSIS"@],
            forall|j: int| 0 <= j < 6 ==> match #[trigger] vals@[j] {
                Some(v) => last_value(pair_views(pairs@.subrange(0, i as int)), keys[j]) == Some(v@),
                None => last_value(pair_views(pairs@.subrange(0, i as int)), keys[j]) is None,
            },
            pair_views(rest@) == pair_views(pairs@.subrange(0, i as int)).filter(|p: (Seq<char>, Seq<char>)| !is_offset_key(p.0)),
        decreases pairs@.len() - i,
    {
        let ghost pre = pair_views(pairs@.subrange(0, i as int));
        assert(pair_views(pairs@.subrange(0, i + 1)) =~= pre.push((pairs@[i as int].0@, pairs@[i as int].1@)));
        let k = pairs[i].0.as_str();
        let v = string_from_chars(&chars_of(pairs[i].1.as_str()));
        let slot: usize = if str_eq(k, "$BEGINDATA") {
            0
        } else if str_eq(k, "$ENDDATA") {
            1
        } else if str_eq(k, "$BEGINSTEXT") {
            2
        } else if str_eq(k, "$ENDSTEXT") {
            3
        } else if str_eq(k, "$BEGINANALYSIS") {
            4
        } else if str_eq(k, "$ENDANALYSIS") {
            5
        } else {
            6
        };
        proof {
            reveal(Seq::filter);
            assert(pre.push((pairs@[i as int].0@, pairs@[i as int].1@)).drop_last() =~= pre);
        }
        if slot < 6 {
            let ghost before = vals@;
            vals.set(slot, Some(v));
            assert(is_offset_key(k@));
            assert forall|j: int| 0 <= j < 6 implies match #[trigger] vals@[j] {
                Some(x) => last_value(pair_views(pairs@.subrange(0, i + 1)), keys[j]) == Some(x@),
                None => last_value(pair_views(pairs@.subrange(0, i + 1)), keys[j]) is None,
            } by {
                if j != slot as int {
                    assert(vals@[j] == before[j]);
                    assert(keys[j] != keys[slot as int]) by {
                        reveal_strlit("$BEGINDATA");
                        reveal_strlit("$ENDDATA");
                        reveal_strlit("$BEGINSTEXT");
                        reveal_strlit("$ENDSTEXT");
                        reveal_strlit("$BEGINANALYSIS");
                        reveal_strlit("$ENDANALYSIS");
                        assert("$BEGINDATA"@.len() == 10);
                        assert("$ENDDATA"@.len() == 8);
                        assert("$BEGINSTEXT"@.len() == 11);
                        assert("$ENDSTEXT"@.len() == 9);
                        assert("$BEGINANALYSIS"@.len() == 14);
                        assert("$ENDANALYSIS"@.len() == 12);
                    }
                }
            }
        } else {
            let ghost before = rest@;
            rest.push((string_from_chars(&chars_of(k)), v));
            assert(pair_views(rest@) =~= pair_views(before).push((k@, pairs@[i as int].1@)));
        }
        i = i + 1;
    }
    assert(pairs@.subrange(0, pairs@.len() as int) =~= pairs@);
    let d0 = repaired_value(opt_str(&vals[0]), repair);
    let d1 = repaired_value(opt_str(&vals[1]), repair);
    let s0 = repaired_value(opt_str(&vals[2]), repair);
    let s1 = repaired_value(opt_str(&vals[3]), repair);
    let a0 = repaired_value(opt_str(&vals[4]), repair);
    let a1 = repaired_value(opt_str(&vals[5]), repair);
    let text_data = parse_segment(opt_str(&d0), opt_str(&d1), data_corr, SegmentId::Data, PureErrorLevel::Error);
    let text_stext = parse_segment(opt_str(&s0), opt_str(&s1), stext_corr, SegmentId::SupplementalText, PureErrorLevel::Warning);
    let text_analysis = parse_segment(opt_str(&a0), opt_str(&a1), analysis_corr, SegmentId::Analysis, PureErrorLevel::Warning);
    let data = match text_data {
        Ok(t) => {
            let c = choose_segment(header_data, Some(t), SegmentId::Data);
            match c.data {
                Some(seg) => Ok(PureSuccess { data: seg, deferred: c.deferred }),
                None => Err(crate::error::Failure::new(string_from_chars(&chars_of("DATA segment could not be found")))),
            }
        },
        Err(errs) => {
            let c = choose_segment(header_data, None, SegmentId::Data);
            match c.data {
                Some(seg) => Ok(PureSuccess { data: seg, deferred: c.deferred }),
                None => Err(crate::error::Failure { reason: string_from_chars(&chars_of("DATA segment could not be found")), deferred: errs }),
            }
        },
    };
    let stext = PureSuccess::from_result(text_stext);
    let analysis = match text_analysis {
        Ok(t) => choose_segment(header_analysis, Some(t), SegmentId::Analysis),
        Err(errs) => {
            let mut c = choose_segment(header_analysis, None, SegmentId::Analysis);
            c.extend(errs);
            c
        },
    };
    RawSegments { pairs: rest, data, stext, analysis }
}

fn repaired_value(v: Option<&str>, repair: bool) -> (r: Option<String>)
    ensures
        match v {
            Some(s) => r matches Some(x) && Some(x@) == repaired(Some(s@), repair),
            None => r is None,
        },
{
    match v {
        Some(s) => if repair {
            Some(pad_zeros(s))
        } else {
            Some(string_from_chars(&chars_of(s)))
        },
        None => None,
    }
}

/// A `$DATE` value after repair: rewritten as `dd-Mmm-yyyy` when the
/// pattern reads it, else as it was.
pub open spec fn repaired_date(k: Seq<char>, v: Seq<char>, pattern: Option<&str>) -> Seq<char> {
    match pattern {
        Some(p) => if k == "$DATE"@ {
            match crate::datetime::chrono_date(v, p@) {
                Some(d) => crate::datetime::date_text(crate::datetime::FCSDate { year: d.0, month: d.1, day: d.2 }),
                None => v,
            }
        } else {
            v
        },
        None => v,
    }
}

/// Rewrites `$DATE` values written in another pattern into the standard
/// `dd-Mmm-yyyy`; values the pattern does not read, and all other pairs,
/// are left as they are.
pub fn repair_keywords(pairs: &mut Vec<(String, String)>, date_pattern: Option<&str>)
    ensures
        final(pairs)@.len() == old(pairs)@.len(),
        forall|i: int|
            0 <= i < final(pairs)@.len() ==> (#[trigger] final(pairs)@[i]).0@ == old(pairs)@[i].0@
                && final(pairs)@[i].1@ == repaired_date(old(pairs)@[i].0@, old(pairs)@[i].1@, date_pattern),
{
    let pattern = match date_pattern {
        Some(p) => p,
        None => {
            return;
        },
    };
    let mut i: usize = 0;
    while i < pairs.len()
        invariant
            i <= pairs@.len(),
            pairs@.len() == old(pairs)@.len(),
            forall|j: int|
                0 <= j < pairs@.len() ==> (#[trigger] pairs@[j]).0@ == old(pairs)@[j].0@,
            forall|j: int| 0 <= j < i ==> (#[trigger] pairs@[j]).1@ == repaired_date(old(pairs)@[j].0@, old(pairs)@[j].1@, date_pattern),
            forall|j: int| i <= j < pairs@.len() ==> (#[trigger] pairs@[j]).1@ == old(pairs)@[j].1@,
            date_pattern == Some(pattern),
        decreases pairs@.len() - i,
    {
        if str_eq(pairs[i].0.as_str(), "$DATE") {
            match crate::datetime::FCSDate::from_str_with(pairs[i].1.as_str(), pattern) {
                Ok(d) => {
                    let k = string_from_chars(&chars_of(pairs[i].0.as_str()));
                    let ghost before = pairs@;
                    pairs.set(i, (k, d.to_string()));
                    assert forall|j: int| 0 <= j < pairs@.len() && j != i as int implies pairs@[j] == before[j] by {}
                },
                Err(_) => {},
            }
        }
        i = i + 1;
    }
}

} // verus!
