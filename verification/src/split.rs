//! The delimiter-aware splitter: cuts a token sequence at every top-level
//! occurrence of a separator character.
//!
//! Only a leaf punctuation token equal to the separator ends a segment; any
//! group is appended whole, whatever its contents.  An empty input yields no
//! segments, and a separator at the very end closes the last segment without
//! opening an empty one, so a trailing separator is permitted and inert.

use vstd::prelude::*;

use crate::token::Token;
use crate::token::lemma_tok_size_pos;
use crate::token::lemma_toks_size_concat;
use crate::token::lemma_toks_size_singleton;
use crate::token::toks_size;

verus! {

/// Does this token end a segment when splitting on `sep`?  Only the
/// character counts: a separator cuts whatever its spacing, as in `{"a":-1}`
/// where the colon joins the minus sign.
pub open spec fn is_sep(t: Token, sep: char) -> bool {
    t matches Token::Punct(c, _) && c == sep
}

/// No token of `s` is a top-level `sep`.
pub open spec fn sep_free(s: Seq<Token>, sep: char) -> bool {
    forall|j: int| 0 <= j < s.len() ==> !is_sep(#[trigger] s[j], sep)
}

/// The segments obtained by cutting `s` at every top-level `sep`: an empty
/// input yields no segments, and a trailing separator adds no empty segment.
pub open spec fn split_spec(s: Seq<Token>, sep: char) -> Seq<Seq<Token>>
    decreases s.len(),
{
    if s.len() == 0 {
        Seq::empty()
    } else if is_sep(s[0], sep) {
        seq![Seq::<Token>::empty()] + split_spec(s.drop_first(), sep)
    } else {
        let rest = split_spec(s.drop_first(), sep);
        if rest.len() == 0 {
            seq![seq![s[0]]]
        } else {
            seq![seq![s[0]] + rest[0]] + rest.drop_first()
        }
    }
}

/// A separator-free sequence is one whole segment, or none if it is empty.
pub proof fn lemma_split_sep_free(s: Seq<Token>, sep: char)
    requires
        sep_free(s, sep),
    ensures
        split_spec(s, sep) == if s.len() == 0 {
            Seq::<Seq<Token>>::empty()
        } else {
            seq![s]
        },
    decreases s.len(),
{
    if s.len() > 0 {
        lemma_split_sep_free(s.drop_first(), sep);
        let rest = split_spec(s.drop_first(), sep);
        if s.len() == 1 {
            assert(rest.len() == 0);
            assert(seq![s[0]] =~= s);
        } else {
            assert(rest == seq![s.drop_first()]);
            assert(seq![s[0]] + rest[0] =~= s);
            assert(rest.drop_first() =~= Seq::<Seq<Token>>::empty());
            assert(seq![s] + Seq::<Seq<Token>>::empty() =~= seq![s]);
        }
    }
}

/// Splitting starts over after the first separator: a separator-free prefix
/// forms the first segment, and the rest is split on its own.
pub proof fn lemma_split_past_sep(pre: Seq<Token>, t: Token, rest: Seq<Token>, sep: char)
    requires
        sep_free(pre, sep),
        is_sep(t, sep),
    ensures
        split_spec(pre + seq![t] + rest, sep) == seq![pre] + split_spec(rest, sep),
    decreases pre.len(),
{
    let s = pre + seq![t] + rest;
    if pre.len() == 0 {
        assert(s[0] == t);
        assert(s.drop_first() =~= rest);
        assert(pre =~= Seq::<Token>::empty());
        assert(split_spec(s, sep) == seq![Seq::<Token>::empty()] + split_spec(s.drop_first(), sep));
        assert(seq![Seq::<Token>::empty()] + split_spec(rest, sep) == seq![pre] + split_spec(
            rest,
            sep,
        ));
    } else {
        assert(s[0] == pre[0]);
        assert(s.drop_first() =~= pre.drop_first() + seq![t] + rest);
        lemma_split_past_sep(pre.drop_first(), t, rest, sep);
        let inner = split_spec(pre.drop_first() + seq![t] + rest, sep);
        assert(inner == seq![pre.drop_first()] + split_spec(rest, sep));
        assert(inner.len() >= 1);
        assert(inner[0] == pre.drop_first());
        assert(seq![s[0]] + inner[0] =~= pre);
        assert(inner.drop_first() =~= split_spec(rest, sep));
        assert(split_spec(s, sep) == seq![seq![s[0]] + inner[0]] + inner.drop_first());
        assert(split_spec(s, sep) == seq![pre] + split_spec(rest, sep));
    }
}

/// The total size of a sequence of segments.
pub open spec fn segs_size(ss: Seq<Seq<Token>>) -> nat
    decreases ss.len(),
{
    if ss.len() == 0 {
        0
    } else {
        toks_size(ss[0]) + segs_size(ss.drop_first())
    }
}

/// Splitting never grows the input: the segments together are at most as
/// large as the sequence they were cut from.
pub proof fn lemma_split_size(s: Seq<Token>, sep: char)
    ensures
        segs_size(split_spec(s, sep)) <= toks_size(s),
    decreases s.len(),
{
    if s.len() > 0 {
        lemma_split_size(s.drop_first(), sep);
        let rest = split_spec(s.drop_first(), sep);
        if is_sep(s[0], sep) {
            let ss = seq![Seq::<Token>::empty()] + rest;
            assert(ss.drop_first() =~= rest);
            assert(toks_size(Seq::<Token>::empty()) == 0);
            lemma_tok_size_pos(s[0]);
        } else {
            if rest.len() == 0 {
                let ss = seq![seq![s[0]]];
                assert(ss.drop_first() =~= Seq::<Seq<Token>>::empty());
                assert(segs_size(Seq::<Seq<Token>>::empty()) == 0);
                lemma_toks_size_singleton(s[0]);
            } else {
                let ss = seq![seq![s[0]] + rest[0]] + rest.drop_first();
                assert(ss.drop_first() =~= rest.drop_first());
                assert(ss[0] == seq![s[0]] + rest[0]);
                lemma_toks_size_concat(seq![s[0]], rest[0]);
                lemma_toks_size_singleton(s[0]);
                assert(segs_size(rest) == toks_size(rest[0]) + segs_size(rest.drop_first()));
            }
        }
    }
}

/// Every single segment is at most as large as all segments together.
pub proof fn lemma_seg_size(ss: Seq<Seq<Token>>, j: int)
    requires
        0 <= j < ss.len(),
    ensures
        toks_size(ss[j]) <= segs_size(ss),
    decreases j,
{
    if j > 0 {
        lemma_seg_size(ss.drop_first(), j - 1);
    }
}

/// When `s` has a first top-level separator at `i`, the first segment is
/// exactly the prefix before it, and splitting continues after it.
pub proof fn lemma_split_first(s: Seq<Token>, sep: char, i: int)
    requires
        0 <= i < s.len(),
        is_sep(s[i], sep),
        sep_free(s.take(i), sep),
    ensures
        split_spec(s, sep).len() >= 1,
        split_spec(s, sep)[0] == s.take(i),
        split_spec(s, sep) == seq![s.take(i)] + split_spec(s.skip(i + 1), sep),
{
    assert(s =~= s.take(i) + seq![s[i]] + s.skip(i + 1));
    lemma_split_past_sep(s.take(i), s[i], s.skip(i + 1), sep);
}

/// Is this token a top-level `sep`?
pub fn tok_is_sep(t: &Token, sep: char) -> (b: bool)
    ensures
        b == is_sep(*t, sep),
{
    match t {
        Token::Punct(c, _) => *c == sep,
        _ => false,
    }
}

/// The index of the first top-level `sep` in `v`, or `v.len()` if none.
fn find_sep(v: &Vec<Token>, sep: char) -> (j: usize)
    ensures
        j <= v@.len(),
        sep_free(v@.take(j as int), sep),
        j < v@.len() ==> is_sep(v@[j as int], sep),
{
    let mut j: usize = 0;
    while j < v.len()
        invariant
            j <= v@.len(),
            forall|k: int| 0 <= k < j ==> !is_sep(#[trigger] v@[k], sep),
        decreases v@.len() - j,
    {
        if tok_is_sep(&v[j], sep) {
            proof {
                assert forall|k: int| 0 <= k < j implies !is_sep(
                    #[trigger] v@.take(j as int)[k],
                    sep,
                ) by {
                    assert(v@.take(j as int)[k] == v@[k]);
                }
            }
            return j;
        }
        j += 1;
    }
    proof {
        assert forall|k: int| 0 <= k < j implies !is_sep(#[trigger] v@.take(j as int)[k], sep) by {
            assert(v@.take(j as int)[k] == v@[k]);
        }
    }
    j
}

/// Cuts `tokens` at its first top-level `sep` only: the first segment, and
/// everything after the separator.  When no top-level separator exists — that
/// is, when splitting would leave the whole input as one segment or none —
/// the input is handed back whole and the remainder is `None`; a separator at
/// the very end leaves an empty remainder, which is `Some`.
pub fn split_first(tokens: Vec<Token>, sep: char) -> (r: (Vec<Token>, Option<Vec<Token>>))
    ensures
        r.1 matches Some(rest) ==> {
            let ss = split_spec(tokens@, sep);
            &&& ss.len() > 0
            &&& ss[0].len() < tokens@.len()
            &&& r.0@ == ss[0]
            &&& rest@ == tokens@.skip(r.0@.len() + 1int)
        },
        r.1 is None ==> {
            let ss = split_spec(tokens@, sep);
            &&& r.0@ == tokens@
            &&& (ss.len() == 0 || ss[0].len() == tokens@.len())
        },
{
    let j = find_sep(&tokens, sep);
    if j == tokens.len() {
        proof {
            assert(tokens@.take(j as int) =~= tokens@);
            lemma_split_sep_free(tokens@, sep);
        }
        (tokens, None)
    } else {
        let ghost before = tokens@;
        let mut pre = tokens;
        let mut tail = pre.split_off(j);
        let _sep_tok = tail.remove(0);
        proof {
            assert(pre@ =~= before.take(j as int));
            assert(tail@ =~= before.skip(j as int + 1));
            lemma_split_first(before, sep, j as int);
        }
        (pre, Some(tail))
    }
}

/// The views of a sequence of token vectors.
pub open spec fn views_of(ss: Seq<Vec<Token>>) -> Seq<Seq<Token>> {
    Seq::new(ss.len(), |i: int| ss[i]@)
}

/// Cuts `tokens` at every top-level `sep`: the delimiter-aware splitter.
///
/// A leaf punctuation token equal to `sep` ends the current segment and is
/// discarded; every other token, and any group whatever it contains, is
/// carried into the current segment.  An empty input yields no segments, and
/// a trailing separator yields no extra empty segment.
pub fn split(tokens: Vec<Token>, sep: char) -> (r: Vec<Vec<Token>>)
    ensures
        views_of(r@) == split_spec(tokens@, sep),
{
    let ghost full = tokens@;
    let mut rest = tokens;
    let mut out: Vec<Vec<Token>> = Vec::new();
    proof {
        assert(views_of(out@) =~= Seq::<Seq<Token>>::empty());
        assert(views_of(out@) + split_spec(full, sep) =~= split_spec(full, sep));
    }
    loop
        invariant
            full == tokens@,
            split_spec(full, sep) == views_of(out@) + split_spec(rest@, sep),
        decreases rest@.len(),
    {
        let j = find_sep(&rest, sep);
        if j == rest.len() {
            proof {
                assert(rest@.take(j as int) =~= rest@);
                lemma_split_sep_free(rest@, sep);
            }
            if rest.len() > 0 {
                let ghost done = out@;
                let ghost segv = rest@;
                out.push(rest);
                proof {
                    assert(split_spec(segv, sep) == seq![segv]);
                    assert(views_of(out@) =~= views_of(done) + seq![segv]);
                    assert(views_of(done) + seq![segv] =~= split_spec(full, sep));
                    assert(views_of(out@) == split_spec(full, sep));
                }
            } else {
                proof {
                    assert(split_spec(rest@, sep) == Seq::<Seq<Token>>::empty());
                    assert(views_of(out@) + Seq::<Seq<Token>>::empty() =~= views_of(out@));
                    assert(views_of(out@) == split_spec(full, sep));
                }
            }
            return out;
        }
        let ghost before = rest@;
        let mut tail = rest.split_off(j);
        let _sep_tok = tail.remove(0);
        proof {
            assert(rest@ =~= before.take(j as int));
            assert(tail@ =~= before.skip(j as int + 1));
            lemma_split_first(before, sep, j as int);
        }
        let ghost done = out@;
        out.push(rest);
        proof {
            assert(views_of(out@) =~= views_of(done) + seq![before.take(j as int)]);
            assert(views_of(done) + (seq![before.take(j as int)] + split_spec(
                tail@,
                sep,
            )) =~= (views_of(done) + seq![before.take(j as int)]) + split_spec(tail@, sep));
            assert(split_spec(before, sep) == seq![before.take(j as int)] + split_spec(
                tail@,
                sep,
            ));
            assert(split_spec(full, sep) == views_of(out@) + split_spec(tail@, sep));
        }
        rest = tail;
    }
}

} // verus!
