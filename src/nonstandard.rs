//! Grouping nonstandard keywords under the measurements they describe, by
//! a pattern in which `%n` stands for the measurement's index.
use vstd::prelude::*;
use vstd::string::*;

use crate::decimal::{dec_digits, push_decimal};
use crate::rawtext::pair_views;
use crate::textbuf::{chars_of, push_str, string_from_chars};

verus! {

/// A pattern with each `%n` replaced by a text.
pub open spec fn subst(s: Seq<char>, d: Seq<char>) -> Seq<char>
    decreases s.len(),
{
    if s.len() < 2 {
        s
    } else if s[0] == '%' && s[1] == 'n' {
        d + subst(s.subrange(2, s.len() as int), d)
    } else {
        seq![s[0]] + subst(s.drop_first(), d)
    }
}

/// Replaces each `%n` of a pattern with the decimal writing of `n`.
pub fn substitute_index(pattern: &str, n: u64) -> (r: String)
    ensures
        r@ == subst(pattern@, dec_digits(n as nat)),
{
    let cs = chars_of(pattern);
    let mut d: Vec<char> = Vec::new();
    push_decimal(&mut d, n);
    let len = cs.len();
    let mut out: Vec<char> = Vec::new();
    let mut i: usize = 0;
    assert(cs@.subrange(0, len as int) =~= cs@);
    assert(out@ + subst(cs@, d@) =~= subst(cs@, d@));
    while i < len
        invariant
            cs@ == pattern@,
            len == cs@.len(),
            d@ == dec_digits(n as nat),
            i <= len,
            out@ + subst(cs@.subrange(i as int, len as int), d@) == subst(cs@, d@),
        decreases len - i,
    {
        let ghost rest = cs@.subrange(i as int, len as int);
        if i + 1 < len && cs[i] == '%' && cs[i + 1] == 'n' {
            let mut j: usize = 0;
            let ghost o = out@;
            while j < d.len()
                invariant
                    j <= d@.len(),
                    out@ == o + d@.subrange(0, j as int),
                decreases d@.len() - j,
            {
                out.push(d[j]);
                j = j + 1;
                assert(out@ =~= o + d@.subrange(0, j as int));
            }
            assert(d@.subrange(0, d@.len() as int) =~= d@);
            assert(rest.subrange(2, rest.len() as int) =~= cs@.subrange(i + 2, len as int));
            assert(out@ + subst(cs@.subrange(i + 2, len as int), d@) =~= o + subst(rest, d@));
            i = i + 2;
        } else {
            let ghost o = out@;
            out.push(cs[i]);
            proof {
                if rest.len() >= 2 {
                    assert(rest.drop_first() =~= cs@.subrange(i + 1, len as int));
                    assert(out@ + subst(cs@.subrange(i + 1, len as int), d@) =~= o + subst(rest, d@));
                } else {
                    assert(cs@.subrange(i + 1, len as int) =~= Seq::<char>::empty());
                    assert(out@ + subst(cs@.subrange(i + 1, len as int), d@) =~= o + subst(rest, d@));
                }
            }
            i = i + 1;
        }
    }
    assert(cs@.subrange(len as int, len as int) =~= Seq::<char>::empty());
    assert(out@ =~= subst(pattern@, d@));
    string_from_chars(&out)
}

/// The pattern of the measurement at position `i`, counted from 0.
pub open spec fn pattern_for(pattern: Seq<char>, i: int) -> Seq<char> {
    subst(pattern, dec_digits((i + 1) as nat))
}

/// Whether a regular expression matches anywhere in a text, or nothing
/// when the expression is not valid.
pub uninterp spec fn regex_match(pattern: Seq<char>, text: Seq<char>) -> Option<bool>;

/// Relies on `regex::Regex::new` and `Regex::is_match`: compiling fails on
/// an invalid pattern; a compiled pattern tells whether it matches anywhere
/// in the text. Both depend on their arguments alone.
#[verifier::external_body]
fn pattern_matches(pattern: &str, text: &str) -> (r: Option<bool>)
    ensures
        r == regex_match(pattern@, text@),
{
    regex::Regex::new(pattern).ok().map(|re| re.is_match(text))
}

/// What grouping did: the keywords of each measurement, and the rest.
pub struct Grouped {
    pub groups: Vec<Vec<(String, String)>>,
    pub rest: Vec<(String, String)>,
}

/// The number of pairs in all groups.
pub open spec fn group_total(gs: Seq<Vec<(String, String)>>) -> nat
    decreases gs.len(),
{
    if gs.len() == 0 {
        0
    } else {
        group_total(gs.drop_last()) + gs.last()@.len()
    }
}

/// A pair with the same key and value as one of the pool.
pub open spec fn from_pool(p: (String, String), pool: Seq<(String, String)>) -> bool {
    exists|c: int| 0 <= c < pool.len() && pool[c].0@ == p.0@ && pool[c].1@ == p.1@
}

/// Every pattern compiles against every key of the pool.
pub open spec fn patterns_compile(pattern: Seq<char>, n: nat, pool: Seq<(String, String)>) -> bool {
    forall|i: int, c: int|
        0 <= i < n && 0 <= c < pool.len() ==> (#[trigger] regex_match(pattern_for(pattern, i), pool[c].0@)) is Some
}

/// Moves each nonstandard keyword whose key matches the pattern of
/// measurement `i` (for `i` from 1 to `n`) into that measurement's group;
/// a key goes to the first pattern it matches, and the rest stay. Fails
/// only on a pattern that does not compile.
pub fn group_nonstandard(pattern: &str, n: u64, pool: Vec<(String, String)>) -> (r: Result<Grouped, String>)
    ensures
        patterns_compile(pattern@, n as nat, pool@) ==> r is Ok,
        r matches Ok(g) ==> {
            &&& g.groups@.len() == n
            &&& group_total(g.groups@) + g.rest@.len() == pool@.len()
            &&& forall|i: int, j: int|
                0 <= i < n && 0 <= j < g.groups@[i]@.len() ==> from_pool(#[trigger] g.groups@[i]@[j], pool@)
            &&& forall|j: int| 0 <= j < g.rest@.len() ==> from_pool(#[trigger] g.rest@[j], pool@)
            &&& forall|i: int, j: int|
                0 <= i < n && 0 <= j < g.groups@[i]@.len() ==> #[trigger] regex_match(pattern_for(pattern@, i), g.groups@[i]@[j].0@)
                    == Some(true)
            &&& forall|i: int, a: int, j: int|
                0 <= a < i < n && 0 <= j < g.groups@[i]@.len() ==> #[trigger] regex_match(pattern_for(pattern@, a), g.groups@[i]@[j].0@)
                    == Some(false)
            &&& forall|i: int, j: int|
                0 <= i < n && 0 <= j < g.rest@.len() ==> #[trigger] regex_match(pattern_for(pattern@, i), g.rest@[j].0@)
                    == Some(false)
        },
{
    let ghost pool0 = pool@;
    let mut groups: Vec<Vec<(String, String)>> = Vec::new();
    let mut rest = pool;
    let mut i: u64 = 0;
    while i < n
        invariant
            i <= n,
            groups@.len() == i,
            group_total(groups@) + rest@.len() == pool0.len(),
            forall|a: int, b: int| 0 <= a < i && 0 <= b < groups@[a]@.len() ==> from_pool(#[trigger] groups@[a]@[b], pool0),
            forall|b: int| 0 <= b < rest@.len() ==> from_pool(#[trigger] rest@[b], pool0),
            forall|a: int, b: int|
                0 <= a < i && 0 <= b < groups@[a]@.len() ==> #[trigger] regex_match(pattern_for(pattern@, a), groups@[a]@[b].0@)
                    == Some(true),
            forall|x: int, a: int, b: int|
                0 <= x < a < i && 0 <= b < groups@[a]@.len() ==> #[trigger] regex_match(pattern_for(pattern@, x), groups@[a]@[b].0@)
                    == Some(false),
            forall|a: int, b: int|
                0 <= a < i && 0 <= b < rest@.len() ==> #[trigger] regex_match(pattern_for(pattern@, a), rest@[b].0@)
                    == Some(false),
            pool0 == pool@,
        decreases n - i,
    {
        let p = substitute_index(pattern, i + 1);
        let mut group: Vec<(String, String)> = Vec::new();
        let mut kept: Vec<(String, String)> = Vec::new();
        let mut k: usize = 0;
        while k < rest.len()
            invariant
                k <= rest@.len(),
                i < n,
                pool0 == pool@,
                p@ == pattern_for(pattern@, i as int),
                forall|b: int| 0 <= b < rest@.len() ==> from_pool(#[trigger] rest@[b], pool0),
                group@.len() + kept@.len() == k,
                forall|b: int| 0 <= b < group@.len() ==> regex_match(p@, (#[trigger] group@[b]).0@) == Some(true),
                forall|b: int| 0 <= b < kept@.len() ==> regex_match(p@, (#[trigger] kept@[b]).0@) == Some(false),
                forall|b: int|
                    0 <= b < group@.len() ==> exists|c: int| 0 <= c < k && (#[trigger] group@[b]).0@ == rest@[c].0@
                        && group@[b].1@ == rest@[c].1@,
                forall|b: int|
                    0 <= b < kept@.len() ==> exists|c: int| 0 <= c < k && (#[trigger] kept@[b]).0@ == rest@[c].0@
                        && kept@[b].1@ == rest@[c].1@,
            decreases rest@.len() - k,
        {
            let key = string_from_chars(&chars_of(rest[k].0.as_str()));
            let val = string_from_chars(&chars_of(rest[k].1.as_str()));
            let ghost gb = group@;
            let ghost kb = kept@;
            match pattern_matches(p.as_str(), key.as_str()) {
                Some(true) => {
                    group.push((key, val));
                    assert forall|b: int| 0 <= b < group@.len() implies exists|c: int| 0 <= c < k + 1 && (#[trigger] group@[b]).0@ == rest@[c].0@
                        && group@[b].1@ == rest@[c].1@ by {
                        if b < gb.len() {
                            assert(group@[b] == gb[b]);
                        } else {
                            assert(group@[b].0@ == rest@[k as int].0@);
                        }
                    }
                },
                Some(false) => {
                    kept.push((key, val));
                    assert forall|b: int| 0 <= b < kept@.len() implies exists|c: int| 0 <= c < k + 1 && (#[trigger] kept@[b]).0@ == rest@[c].0@
                        && kept@[b].1@ == rest@[c].1@ by {
                        if b < kb.len() {
                            assert(kept@[b] == kb[b]);
                        } else {
                            assert(kept@[b].0@ == rest@[k as int].0@);
                        }
                    }
                },
                None => {
                    proof {
                        assert(from_pool(rest@[k as int], pool0));
                        let c = choose|c: int| 0 <= c < pool0.len() && pool0[c].0@ == rest@[k as int].0@ && pool0[c].1@ == rest@[k as int].1@;
                        assert(regex_match(pattern_for(pattern@, i as int), pool0[c].0@) is None);
                        assert(!patterns_compile(pattern@, n as nat, pool0));
                    }
                    let mut v: Vec<char> = Vec::new();
                    push_str(&mut v, "could not compile nonstandard measurement pattern: ");
                    push_str(&mut v, p.as_str());
                    return Err(string_from_chars(&v));
                },
            }
            k = k + 1;
        }
        let ghost old_rest = rest@;
        let ghost old_groups = groups@;
        proof {
            assert forall|b: int| 0 <= b < kept@.len() implies from_pool(#[trigger] kept@[b], pool0) by {
                let c = choose|c: int| 0 <= c < old_rest.len() && kept@[b].0@ == old_rest[c].0@ && kept@[b].1@ == old_rest[c].1@;
                assert(from_pool(old_rest[c], pool0));
            }
            assert forall|b: int| 0 <= b < group@.len() implies from_pool(#[trigger] group@[b], pool0) by {
                let c = choose|c: int| 0 <= c < old_rest.len() && group@[b].0@ == old_rest[c].0@ && group@[b].1@ == old_rest[c].1@;
                assert(from_pool(old_rest[c], pool0));
            }
            assert forall|a: int, b: int| 0 <= a < i && 0 <= b < kept@.len() implies #[trigger] regex_match(pattern_for(pattern@, a), kept@[b].0@)
                == Some(false) by {
                let c = choose|c: int| 0 <= c < old_rest.len() && kept@[b].0@ == old_rest[c].0@ && kept@[b].1@ == old_rest[c].1@;
                assert(regex_match(pattern_for(pattern@, a), old_rest[c].0@) == Some(false));
            }
            assert forall|x: int, b: int| 0 <= x < i && 0 <= b < group@.len() implies #[trigger] regex_match(pattern_for(pattern@, x), group@[b].0@)
                == Some(false) by {
                let c = choose|c: int| 0 <= c < old_rest.len() && group@[b].0@ == old_rest[c].0@ && group@[b].1@ == old_rest[c].1@;
                assert(regex_match(pattern_for(pattern@, x), old_rest[c].0@) == Some(false));
            }
        }
        rest = kept;
        groups.push(group);
        proof {
            assert(groups@.drop_last() =~= old_groups);
            assert forall|a: int, b: int| 0 <= a < i + 1 && 0 <= b < groups@[a]@.len() implies from_pool(#[trigger] groups@[a]@[b], pool0) by {
                if a < i {
                    assert(groups@[a] == old_groups[a]);
                }
            }
            assert forall|a: int, b: int|
                0 <= a < i + 1 && 0 <= b < groups@[a]@.len() implies #[trigger] regex_match(pattern_for(pattern@, a), groups@[a]@[b].0@)
                    == Some(true) by {
                if a < i {
                    assert(groups@[a] == old_groups[a]);
                }
            }
            assert forall|x: int, a: int, b: int|
                0 <= x < a < i + 1 && 0 <= b < groups@[a]@.len() implies #[trigger] regex_match(pattern_for(pattern@, x), groups@[a]@[b].0@)
                    == Some(false) by {
                if a < i {
                    assert(groups@[a] == old_groups[a]);
                }
            }
        }
        i = i + 1;
    }
    Ok(Grouped { groups, rest })
}

} // verus!
