//! Comma-separated fields: splitting a value into them, joining them back,
//! and the fact that the one undoes the other.
use vstd::prelude::*;
use vstd::string::*;

use crate::textbuf::{push_str, string_from_chars};

verus! {

pub open spec fn no_comma(s: Seq<char>) -> bool {
    forall|i: int| 0 <= i < s.len() ==> #[trigger] s[i] != ','
}

/// The fields of a text between its commas; a text without commas is one
/// field.
pub open spec fn split_commas(s: Seq<char>) -> Seq<Seq<char>>
    decreases s.len(),
{
    if s.len() == 0 {
        seq![Seq::<char>::empty()]
    } else if s.last() == ',' {
        split_commas(s.drop_last()).push(Seq::<char>::empty())
    } else {
        let p = split_commas(s.drop_last());
        p.update(p.len() - 1, p.last().push(s.last()))
    }
}

/// Fields written one after another with a comma between each two.
pub open spec fn join_commas(parts: Seq<Seq<char>>) -> Seq<char>
    decreases parts.len(),
{
    if parts.len() <= 1 {
        if parts.len() == 0 {
            Seq::empty()
        } else {
            parts[0]
        }
    } else {
        join_commas(parts.drop_last()) + seq![','] + parts.last()
    }
}

pub open spec fn views(v: Seq<String>) -> Seq<Seq<char>> {
    v.map_values(|s: String| s@)
}

proof fn lemma_split_len(s: Seq<char>)
    ensures
        split_commas(s).len() >= 1,
    decreases s.len(),
{
    if s.len() > 0 {
        lemma_split_len(s.drop_last());
    }
}

/// Splitting `a` followed by a comma-free `b`: the last field of `a` grows.
proof fn lemma_split_append(a: Seq<char>, b: Seq<char>)
    requires
        no_comma(b),
    ensures
        split_commas(a + b).len() == split_commas(a).len(),
        split_commas(a + b) == split_commas(a).update(
            split_commas(a).len() - 1,
            split_commas(a).last() + b,
        ),
    decreases b.len(),
{
    lemma_split_len(a);
    if b.len() == 0 {
        assert(a + b =~= a);
        assert(split_commas(a).last() + b =~= split_commas(a).last());
        assert(split_commas(a).update(split_commas(a).len() - 1, split_commas(a).last())
            =~= split_commas(a));
    } else {
        let b0 = b.drop_last();
        lemma_split_append(a, b0);
        assert((a + b).drop_last() =~= a + b0);
        assert((a + b).last() == b.last());
        assert(b.last() == b[b.len() - 1]);
        assert(b.last() != ',');
        assert forall|i: int| 0 <= i < b0.len() implies #[trigger] b0[i] != ',' by {
            assert(b0[i] == b[i]);
        }
        let p = split_commas(a + b0);
        let L = split_commas(a).len() - 1;
        assert(split_commas(a + b) == p.update(p.len() - 1, p.last().push(b.last())));
        assert(p.last() == split_commas(a).last() + b0);
        assert(p.len() - 1 == L);
        assert((split_commas(a).last() + b0).push(b.last()) =~= split_commas(a).last() + b);
        assert(p.update(L, split_commas(a).last() + b) =~= split_commas(a).update(L, split_commas(a).last() + b));
        assert(split_commas(a).last() + b0 + seq![b.last()] =~= split_commas(a).last() + b);
        assert(split_commas(a + b) =~= split_commas(a).update(
            split_commas(a).len() - 1,
            split_commas(a).last() + b,
        ));
    }
}

/// Splitting what joining made gives back the fields, when none holds a
/// comma.
pub proof fn lemma_split_join(parts: Seq<Seq<char>>)
    requires
        parts.len() >= 1,
        forall|i: int| 0 <= i < parts.len() ==> no_comma(#[trigger] parts[i]),
    ensures
        split_commas(join_commas(parts)) == parts,
    decreases parts.len(),
{
    if parts.len() == 1 {
        lemma_split_append(Seq::empty(), parts[0]);
        assert(Seq::<char>::empty() + parts[0] =~= parts[0]);
        assert(split_commas(Seq::<char>::empty()) == seq![Seq::<char>::empty()]);
        assert(split_commas(parts[0]) =~= parts);
    } else {
        let init = parts.drop_last();
        assert forall|i: int| 0 <= i < init.len() implies no_comma(#[trigger] init[i]) by {
            assert(init[i] == parts[i]);
        }
        lemma_split_join(init);
        let a = join_commas(init) + seq![','];
        assert(a.drop_last() =~= join_commas(init));
        assert(split_commas(a) == init.push(Seq::<char>::empty()));
        assert(no_comma(parts[parts.len() - 1]));
        lemma_split_append(a, parts.last());
        assert(Seq::<char>::empty() + parts.last() =~= parts.last());
        assert(split_commas(a + parts.last()) =~= parts);
    }
}

/// No field that splitting yields holds a comma.
pub proof fn lemma_split_no_comma(s: Seq<char>)
    ensures
        forall|i: int| 0 <= i < split_commas(s).len() ==> no_comma(#[trigger] split_commas(s)[i]),
    decreases s.len(),
{
    if s.len() > 0 {
        lemma_split_no_comma(s.drop_last());
        lemma_split_len(s.drop_last());
        let p = split_commas(s.drop_last());
        if s.last() != ',' {
            assert forall|i: int| 0 <= i < split_commas(s).len() implies no_comma(
                #[trigger] split_commas(s)[i],
            ) by {
                if i == p.len() - 1 {
                    assert(no_comma(p[i]));
                    assert forall|j: int| 0 <= j < p.last().push(s.last()).len() implies #[trigger] p.last().push(s.last())[j] != ',' by {
                        if j < p.last().len() {
                            assert(p.last().push(s.last())[j] == p.last()[j]);
                        }
                    }
                }
            }
        } else {
            assert forall|i: int| 0 <= i < split_commas(s).len() implies no_comma(
                #[trigger] split_commas(s)[i],
            ) by {
                if i < p.len() {
                    assert(split_commas(s)[i] == p[i]);
                }
            }
        }
    }
}

/// Splits a text at its commas.
pub fn split_fields(s: &str) -> (r: Vec<String>)
    ensures
        views(r@) == split_commas(s@),
        r@.len() >= 1,
{
    let n = s.unicode_len();
    let mut parts: Vec<String> = Vec::new();
    let mut cur: Vec<char> = Vec::new();
    let mut i: usize = 0;
    while i < n
        invariant
            n == s@.len(),
            i <= n,
            views(parts@).push(cur@) == split_commas(s@.subrange(0, i as int)),
        decreases n - i,
    {
        let c = s.get_char(i);
        let ghost pre = s@.subrange(0, i as int);
        assert(s@.subrange(0, i + 1).drop_last() =~= pre);
        if c == ',' {
            let w = string_from_chars(&cur);
            parts.push(w);
            cur = Vec::new();
            assert(views(parts@).push(cur@) =~= split_commas(s@.subrange(0, i + 1)));
        } else {
            cur.push(c);
            assert(views(parts@).push(cur@) =~= split_commas(s@.subrange(0, i + 1)));
        }
        i = i + 1;
    }
    assert(s@.subrange(0, n as int) =~= s@);
    let w = string_from_chars(&cur);
    parts.push(w);
    assert(views(parts@) =~= split_commas(s@));
    parts
}

/// Writes fields with a comma between each two.
pub fn join_fields(parts: &Vec<String>) -> (r: String)
    ensures
        r@ == join_commas(views(parts@)),
{
    let mut out: Vec<char> = Vec::new();
    let mut i: usize = 0;
    while i < parts.len()
        invariant
            i <= parts@.len(),
            out@ == join_commas(views(parts@.subrange(0, i as int))),
        decreases parts@.len() - i,
    {
        let ghost before = out@;
        if i > 0 {
            out.push(',');
        }
        push_str(&mut out, parts[i].as_str());
        i = i + 1;
        assert(views(parts@.subrange(0, i as int)).drop_last() =~= views(parts@.subrange(0, i - 1)));
        if i == 1 {
            assert(out@ =~= join_commas(views(parts@.subrange(0, i as int))));
        } else {
            assert(out@ =~= join_commas(views(parts@.subrange(0, i as int))));
        }
    }
    assert(parts@.subrange(0, parts@.len() as int) =~= parts@);
    string_from_chars(&out)
}

} // verus!
