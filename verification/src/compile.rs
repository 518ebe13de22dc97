//! The recursive value compiler: classifies a token sequence as an object
//! literal, an array literal, or a scalar expression, and compiles it
//! bottom-up into a fragment of builder operations.
//!
//! A sequence that is exactly one brace group is an object: its inner tokens
//! are split on the entry separator `,`, and each entry segment is split on
//! the key/value separator `:`, the first sub-segment giving the key
//! expression and everything after the first separator the value, compiled
//! recursively.  A sequence that is exactly one bracket group is an array:
//! its inner tokens are split on `,` and each segment is compiled
//! recursively.  A sequence opening with any other token is a scalar
//! expression, handed whole to a generic conversion.  Everything else is a
//! structural error that aborts the whole compilation: an object entry with
//! no top-level key/value separator, an empty expression, and a brace or
//! bracket group followed by further tokens, which the grammar requires to
//! be the entire remaining sequence.

use vstd::prelude::*;

use crate::split::lemma_seg_size;
use crate::split::lemma_split_size;
use crate::split::segs_size;
use crate::split::split;
use crate::split::split_first;
use crate::split::split_spec;
use crate::split::views_of;
use crate::token::Delim;
use crate::token::Token;
use crate::token::lemma_toks_size_cut;
use crate::token::lemma_toks_size_ge_len;
use crate::token::tok_size;
use crate::token::toks_size;

verus! {

/// A structural error: the literal does not fit the grammar.  Compilation
/// aborts at the first such error; no partial fragment is produced.
#[derive(Clone, Copy, Debug, PartialEq, Eq, Structural)]
pub enum CompileError {
    /// An object entry segment has no top-level key/value separator.
    MissingKeyValueSeparator,
    /// A position that needs an expression holds no tokens at all.
    EmptyExpression,
    /// A brace or bracket group, which must be the entire remaining sequence
    /// at its nesting level, is followed by further tokens.
    TrailingTokensAfterGroup,
}

/// One compiled object entry: a key expression and its compiled value.
#[derive(Debug, PartialEq, Eq)]
pub struct Entry {
    /// The tokens of the key expression, stringified at use time.
    pub key: Vec<Token>,
    /// The compiled value.
    pub value: Fragment,
}

/// The emitted code fragment: the tree of builder operations that constructs
/// the value bottom-up.  An object performs one insert-keyed-entry call per
/// entry, in source order; an array one append-ordered-entry call per
/// element, in source order; a scalar one generic conversion of its
/// expression.
#[derive(Debug, PartialEq, Eq)]
pub enum Fragment {
    /// Construct an empty object, then insert each entry in order.
    Object(Vec<Entry>),
    /// Construct an empty array, then append each element in order.
    Array(Vec<Fragment>),
    /// Convert the leftover expression into the target type.
    Scalar(Vec<Token>),
}

/// The mathematical shape of a fragment, over sequences.
#[verifier::ext_equal]
pub enum FragmentV {
    Object(Seq<(Seq<Token>, FragmentV)>),
    Array(Seq<FragmentV>),
    Scalar(Seq<Token>),
}

/// The shape of a fragment.
pub open spec fn frag_view(f: Fragment) -> FragmentV
    decreases f,
{
    match f {
        Fragment::Object(es) => FragmentV::Object(entries_view(es@)),
        Fragment::Array(fs) => FragmentV::Array(frags_view(fs@)),
        Fragment::Scalar(ts) => FragmentV::Scalar(ts@),
    }
}

/// The shapes of a sequence of entries.
pub open spec fn entries_view(es: Seq<Entry>) -> Seq<(Seq<Token>, FragmentV)>
    decreases es,
{
    if es.len() == 0 {
        Seq::empty()
    } else {
        seq![(es[0].key@, frag_view(es[0].value))] + entries_view(es.drop_first())
    }
}

/// The shapes of a sequence of fragments.
pub open spec fn frags_view(fs: Seq<Fragment>) -> Seq<FragmentV>
    decreases fs,
{
    if fs.len() == 0 {
        Seq::empty()
    } else {
        seq![frag_view(fs[0])] + frags_view(fs.drop_first())
    }
}

/// Does this object entry segment have a top-level key/value separator?
pub open spec fn entry_has_separator(seg: Seq<Token>) -> bool {
    let kv = split_spec(seg, ':');
    kv.len() > 0 && kv[0].len() < seg.len()
}

/// The key expression of an object entry segment: the first sub-segment when
/// splitting on the key/value separator.
pub open spec fn entry_key(seg: Seq<Token>) -> Seq<Token> {
    split_spec(seg, ':')[0]
}

/// The value tokens of an object entry segment: everything after the first
/// top-level key/value separator.
pub open spec fn entry_value_tokens(seg: Seq<Token>) -> Seq<Token> {
    seg.skip(entry_key(seg).len() + 1int)
}

/// What compiling a token sequence yields: the classification rule and the
/// recursion of the value compiler, or the first structural error.
pub open spec fn compile_spec(s: Seq<Token>) -> Result<FragmentV, CompileError>
    decreases toks_size(s), 0int,
{
    if s.len() > 0 && (s[0] matches Token::Group(Delim::Brace, _)) {
        if s.len() > 1 {
            Err(CompileError::TrailingTokensAfterGroup)
        } else {
            let inner = s[0]->Group_1@;
            proof {
                lemma_object_measure(s);
            }
            match compile_entries_spec(split_spec(inner, ',')) {
                Ok(es) => Ok(FragmentV::Object(es)),
                Err(e) => Err(e),
            }
        }
    } else if s.len() > 0 && (s[0] matches Token::Group(Delim::Bracket, _)) {
        if s.len() > 1 {
            Err(CompileError::TrailingTokensAfterGroup)
        } else {
            let inner = s[0]->Group_1@;
            proof {
                lemma_object_measure(s);
            }
            match compile_elems_spec(split_spec(inner, ',')) {
                Ok(fs) => Ok(FragmentV::Array(fs)),
                Err(e) => Err(e),
            }
        }
    } else if s.len() == 0 {
        Err(CompileError::EmptyExpression)
    } else {
        Ok(FragmentV::Scalar(s))
    }
}

/// Compiles the entry segments of an object body, in order.
pub open spec fn compile_entries_spec(segs: Seq<Seq<Token>>) -> Result<
    Seq<(Seq<Token>, FragmentV)>,
    CompileError,
>
    decreases segs_size(segs), segs.len(),
{
    if segs.len() == 0 {
        Ok(Seq::empty())
    } else if !entry_has_separator(segs[0]) {
        Err(CompileError::MissingKeyValueSeparator)
    } else {
        proof {
            lemma_entry_value_measure(segs);
        }
        match compile_spec(entry_value_tokens(segs[0])) {
            Err(e) => Err(e),
            Ok(v) => match compile_entries_spec(segs.drop_first()) {
                Err(e) => Err(e),
                Ok(rest) => Ok(seq![(entry_key(segs[0]), v)] + rest),
            },
        }
    }
}

/// Compiles the element segments of an array body, in order.
pub open spec fn compile_elems_spec(segs: Seq<Seq<Token>>) -> Result<
    Seq<FragmentV>,
    CompileError,
>
    decreases segs_size(segs), segs.len(),
{
    if segs.len() == 0 {
        Ok(Seq::empty())
    } else {
        proof {
            lemma_seg_size(segs, 0);
        }
        match compile_spec(segs[0]) {
            Err(e) => Err(e),
            Ok(f) => match compile_elems_spec(segs.drop_first()) {
                Err(e) => Err(e),
                Ok(rest) => Ok(seq![f] + rest),
            },
        }
    }
}

/// Appending an entry extends the entry shapes by that entry's shape.
pub proof fn lemma_entries_view_push(es: Seq<Entry>, e: Entry)
    ensures
        entries_view(es.push(e)) == entries_view(es) + seq![(e.key@, frag_view(e.value))],
    decreases es.len(),
{
    let tail = seq![(e.key@, frag_view(e.value))];
    if es.len() == 0 {
        assert(es.push(e).drop_first() =~= Seq::<Entry>::empty());
        assert(es.push(e)[0] == e);
        assert(entries_view(Seq::<Entry>::empty()) == Seq::<(Seq<Token>, FragmentV)>::empty());
        assert(tail + Seq::<(Seq<Token>, FragmentV)>::empty() =~= tail);
        assert(Seq::<(Seq<Token>, FragmentV)>::empty() + tail =~= tail);
    } else {
        lemma_entries_view_push(es.drop_first(), e);
        assert(es.push(e).drop_first() =~= es.drop_first().push(e));
        assert(es.push(e)[0] == es[0]);
        let hd = seq![(es[0].key@, frag_view(es[0].value))];
        assert(hd + (entries_view(es.drop_first()) + tail) =~= (hd + entries_view(
            es.drop_first(),
        )) + tail);
    }
}

/// Appending a fragment extends the element shapes by that fragment's shape.
pub proof fn lemma_frags_view_push(fs: Seq<Fragment>, f: Fragment)
    ensures
        frags_view(fs.push(f)) == frags_view(fs) + seq![frag_view(f)],
    decreases fs.len(),
{
    let tail = seq![frag_view(f)];
    if fs.len() == 0 {
        assert(fs.push(f).drop_first() =~= Seq::<Fragment>::empty());
        assert(fs.push(f)[0] == f);
        assert(frags_view(Seq::<Fragment>::empty()) == Seq::<FragmentV>::empty());
        assert(tail + Seq::<FragmentV>::empty() =~= tail);
        assert(Seq::<FragmentV>::empty() + tail =~= tail);
    } else {
        lemma_frags_view_push(fs.drop_first(), f);
        assert(fs.push(f).drop_first() =~= fs.drop_first().push(f));
        assert(fs.push(f)[0] == fs[0]);
        let hd = seq![frag_view(fs[0])];
        assert(hd + (frags_view(fs.drop_first()) + tail) =~= (hd + frags_view(fs.drop_first()))
            + tail);
    }
}

/// The entries still to be compiled, prefixed by those already done.
pub open spec fn with_done_entries(
    done: Seq<(Seq<Token>, FragmentV)>,
    r: Result<Seq<(Seq<Token>, FragmentV)>, CompileError>,
) -> Result<Seq<(Seq<Token>, FragmentV)>, CompileError> {
    match r {
        Ok(rest) => Ok(done + rest),
        Err(e) => Err(e),
    }
}

/// The elements still to be compiled, prefixed by those already done.
pub open spec fn with_done_elems(done: Seq<FragmentV>, r: Result<Seq<FragmentV>, CompileError>) -> Result<
    Seq<FragmentV>,
    CompileError,
> {
    match r {
        Ok(rest) => Ok(done + rest),
        Err(e) => Err(e),
    }
}

/// A group is strictly larger than anything cut out of its inner tokens.
pub proof fn lemma_object_measure(s: Seq<Token>)
    requires
        s.len() > 0,
        s[0] matches Token::Group(_, _),
    ensures
        segs_size(split_spec(s[0]->Group_1@, ',')) < toks_size(s),
{
    let inner = s[0]->Group_1@;
    lemma_split_size(inner, ',');
    assert(tok_size(s[0]) == 1 + toks_size(inner));
    assert(toks_size(s) == tok_size(s[0]) + toks_size(s.drop_first()));
}

/// An entry's value tokens are strictly smaller than the segments they came
/// from: the key/value separator itself counts one.
pub proof fn lemma_entry_value_measure(segs: Seq<Seq<Token>>)
    requires
        segs.len() > 0,
        entry_has_separator(segs[0]),
    ensures
        toks_size(entry_value_tokens(segs[0])) < segs_size(segs),
{
    let seg = segs[0];
    let cut = entry_key(seg).len() + 1;
    lemma_toks_size_cut(seg, cut as int);
    lemma_toks_size_ge_len(seg.take(cut as int));
    lemma_seg_size(segs, 0);
}

/// Compiles one token sequence into a fragment of builder operations, or
/// reports the first structural error: the recursive value compiler.
///
/// The result is exactly what [`compile_spec`] says: a sequence that is one
/// brace group is an object, one that is one bracket group an array,
/// anything opening with another token a scalar expression.  An object entry
/// without a top-level key/value separator aborts with
/// `MissingKeyValueSeparator`; a position with no tokens at all with
/// `EmptyExpression`; and a brace or bracket group followed by further
/// tokens — the group must be the entire remaining sequence — with
/// `TrailingTokensAfterGroup`, so that no token is ever silently dropped.
pub fn compile(tokens: Vec<Token>) -> (r: Result<Fragment, CompileError>)
    ensures
        r matches Ok(f) ==> compile_spec(tokens@) == Ok::<FragmentV, CompileError>(frag_view(f)),
        r matches Err(e) ==> compile_spec(tokens@) == Err::<FragmentV, CompileError>(e),
    decreases toks_size(tokens@), 1int,
{
    let ghost s0 = tokens@;
    let mut toks = tokens;
    let is_obj = toks.len() > 0 && matches!(&toks[0], Token::Group(Delim::Brace, _));
    let is_arr = !is_obj && toks.len() > 0 && matches!(&toks[0], Token::Group(Delim::Bracket, _));
    if is_obj || is_arr {
        if toks.len() > 1 {
            return Err(CompileError::TrailingTokensAfterGroup);
        }
        let t0 = toks.remove(0);
        match t0 {
            Token::Group(_, inner) => {
                let ghost inner0 = inner@;
                proof {
                    assert(s0[0] == t0);
                    assert(tok_size(s0[0]) == 1 + toks_size(inner0));
                    assert(toks_size(s0) == tok_size(s0[0]) + toks_size(s0.drop_first()));
                    lemma_split_size(inner0, ',');
                }
                let segs = split(inner, ',');
                let ghost segs0 = split_spec(inner0, ',');
                if is_obj {
                    compile_object(Ghost(s0), Ghost(inner0), segs)
                } else {
                    compile_array(Ghost(s0), Ghost(inner0), segs)
                }
            },
            _ => unreached(),
        }
    } else if toks.len() == 0 {
        Err(CompileError::EmptyExpression)
    } else {
        Ok(Fragment::Scalar(toks))
    }
}

/// Compiles the already-split entry segments of an object body.
fn compile_object(Ghost(s0): Ghost<Seq<Token>>, Ghost(inner0): Ghost<Seq<Token>>, segs: Vec<
    Vec<Token>,
>) -> (r: Result<Fragment, CompileError>)
    requires
        s0.len() == 1,
        s0[0] matches Token::Group(Delim::Brace, _),
        s0[0]->Group_1@ == inner0,
        views_of(segs@) == split_spec(inner0, ','),
        segs_size(split_spec(inner0, ',')) <= toks_size(inner0),
        toks_size(inner0) < toks_size(s0),
    ensures
        r matches Ok(f) ==> compile_spec(s0) == Ok::<FragmentV, CompileError>(frag_view(f)),
        r matches Err(e) ==> compile_spec(s0) == Err::<FragmentV, CompileError>(e),
    decreases toks_size(s0), 0int,
{
    let ghost segs0 = split_spec(inner0, ',');
    let mut segs = segs;
    let mut entries: Vec<Entry> = Vec::new();
    proof {
        assert(entries_view(entries@) == Seq::<(Seq<Token>, FragmentV)>::empty());
        match compile_entries_spec(segs0) {
            Ok(rest) => {
                assert(Seq::<(Seq<Token>, FragmentV)>::empty() + rest =~= rest);
            },
            Err(_) => {},
        }
    }
    while segs.len() > 0
        invariant
            s0.len() == 1,
            s0[0] matches Token::Group(Delim::Brace, _),
            s0[0]->Group_1@ == inner0,
            segs0 == split_spec(inner0, ','),
            segs_size(views_of(segs@)) <= toks_size(inner0),
            toks_size(inner0) < toks_size(s0),
            compile_entries_spec(segs0) == with_done_entries(
                entries_view(entries@),
                compile_entries_spec(views_of(segs@)),
            ),
        decreases segs@.len(),
    {
        let ghost views_before = views_of(segs@);
        let ghost done0 = entries@;
        let seg = segs.remove(0);
        let ghost segv = seg@;
        proof {
            assert(views_before[0] == segv);
            assert(views_of(segs@) =~= views_before.drop_first());
            assert(segs_size(views_before) == toks_size(segv) + segs_size(
                views_before.drop_first(),
            ));
        }
        let (key, valopt) = split_first(seg, ':');
        match valopt {
            None => {
                proof {
                    assert(!entry_has_separator(segv));
                    assert(compile_entries_spec(views_before) == Err::<
                        Seq<(Seq<Token>, FragmentV)>,
                        CompileError,
                    >(CompileError::MissingKeyValueSeparator));
                }
                return Err(CompileError::MissingKeyValueSeparator);
            },
            Some(val_toks) => {
                proof {
                    assert(entry_has_separator(segv));
                    assert(key@ == entry_key(segv));
                    assert(val_toks@ == entry_value_tokens(segv));
                    lemma_entry_value_measure(views_before);
                }
                match compile(val_toks) {
                    Err(e) => {
                        proof {
                            assert(compile_entries_spec(views_before) == Err::<
                                Seq<(Seq<Token>, FragmentV)>,
                                CompileError,
                            >(e));
                        }
                        return Err(e);
                    },
                    Ok(v) => {
                        let ghost kv = (entry_key(segv), frag_view(v));
                        proof {
                            assert(compile_entries_spec(views_before) == (match compile_entries_spec(
                                views_before.drop_first(),
                            ) {
                                Err(e) => Err::<Seq<(Seq<Token>, FragmentV)>, CompileError>(e),
                                Ok(rest) => Ok(seq![kv] + rest),
                            }));
                        }
                        entries.push(Entry { key, value: v });
                        proof {
                            let e = entries@.last();
                            assert(entries@ == done0.push(e));
                            lemma_entries_view_push(done0, e);
                            assert((e.key@, frag_view(e.value)) == kv);
                            assert(entries_view(entries@) == entries_view(done0) + seq![kv]);
                            match compile_entries_spec(views_before.drop_first()) {
                                Ok(rest) => {
                                    assert(entries_view(done0) + (seq![kv] + rest) =~= (
                                    entries_view(done0) + seq![kv]) + rest);
                                },
                                Err(_) => {},
                            }
                        }
                    },
                }
            },
        }
    }
    proof {
        assert(views_of(segs@) =~= Seq::<Seq<Token>>::empty());
        assert(compile_entries_spec(Seq::<Seq<Token>>::empty()) == Ok::<
            Seq<(Seq<Token>, FragmentV)>,
            CompileError,
        >(Seq::empty()));
        assert(entries_view(entries@) + Seq::<(Seq<Token>, FragmentV)>::empty() =~= entries_view(
            entries@,
        ));
        assert(compile_entries_spec(segs0) == Ok::<Seq<(Seq<Token>, FragmentV)>, CompileError>(
            entries_view(entries@),
        ));
    }
    Ok(Fragment::Object(entries))
}

/// Compiles the already-split element segments of an array body.
fn compile_array(Ghost(s0): Ghost<Seq<Token>>, Ghost(inner0): Ghost<Seq<Token>>, segs: Vec<
    Vec<Token>,
>) -> (r: Result<Fragment, CompileError>)
    requires
        s0.len() == 1,
        s0[0] matches Token::Group(Delim::Bracket, _),
        s0[0]->Group_1@ == inner0,
        views_of(segs@) == split_spec(inner0, ','),
        segs_size(split_spec(inner0, ',')) <= toks_size(inner0),
        toks_size(inner0) < toks_size(s0),
    ensures
        r matches Ok(f) ==> compile_spec(s0) == Ok::<FragmentV, CompileError>(frag_view(f)),
        r matches Err(e) ==> compile_spec(s0) == Err::<FragmentV, CompileError>(e),
    decreases toks_size(s0), 0int,
{
    let ghost segs0 = split_spec(inner0, ',');
    let mut segs = segs;
    let mut elems: Vec<Fragment> = Vec::new();
    proof {
        assert(frags_view(elems@) == Seq::<FragmentV>::empty());
        match compile_elems_spec(segs0) {
            Ok(rest) => {
                assert(Seq::<FragmentV>::empty() + rest =~= rest);
            },
            Err(_) => {},
        }
    }
    while segs.len() > 0
        invariant
            s0.len() == 1,
            s0[0] matches Token::Group(Delim::Bracket, _),
            s0[0]->Group_1@ == inner0,
            segs0 == split_spec(inner0, ','),
            segs_size(views_of(segs@)) <= toks_size(inner0),
            toks_size(inner0) < toks_size(s0),
            compile_elems_spec(segs0) == with_done_elems(
                frags_view(elems@),
                compile_elems_spec(views_of(segs@)),
            ),
        decreases segs@.len(),
    {
        let ghost views_before = views_of(segs@);
        let ghost done0 = elems@;
        let seg = segs.remove(0);
        let ghost segv = seg@;
        proof {
            assert(views_before[0] == segv);
            assert(views_of(segs@) =~= views_before.drop_first());
            assert(segs_size(views_before) == toks_size(segv) + segs_size(
                views_before.drop_first(),
            ));
        }
        match compile(seg) {
            Err(e) => {
                proof {
                    assert(compile_elems_spec(views_before) == Err::<Seq<FragmentV>, CompileError>(
                        e,
                    ));
                }
                return Err(e);
            },
            Ok(f) => {
                let ghost fv = frag_view(f);
                proof {
                    assert(compile_elems_spec(views_before) == (match compile_elems_spec(
                        views_before.drop_first(),
                    ) {
                        Err(e) => Err::<Seq<FragmentV>, CompileError>(e),
                        Ok(rest) => Ok(seq![fv] + rest),
                    }));
                }
                elems.push(f);
                proof {
                    let e = elems@.last();
                    assert(elems@ == done0.push(e));
                    lemma_frags_view_push(done0, e);
                    assert(frags_view(elems@) == frags_view(done0) + seq![fv]);
                    match compile_elems_spec(views_before.drop_first()) {
                        Ok(rest) => {
                            assert(frags_view(done0) + (seq![fv] + rest) =~= (frags_view(done0)
                                + seq![fv]) + rest);
                        },
                        Err(_) => {},
                    }
                }
            },
        }
    }
    proof {
        assert(views_of(segs@) =~= Seq::<Seq<Token>>::empty());
        assert(compile_elems_spec(Seq::<Seq<Token>>::empty()) == Ok::<Seq<FragmentV>, CompileError>(
            Seq::empty(),
        ));
        assert(frags_view(elems@) + Seq::<FragmentV>::empty() =~= frags_view(elems@));
        assert(compile_elems_spec(segs0) == Ok::<Seq<FragmentV>, CompileError>(frags_view(elems@)));
    }
    Ok(Fragment::Array(elems))
}

/// The target-type tokens of a whole invocation: the first segment when
/// splitting on the entry separator.
pub open spec fn type_tokens(s: Seq<Token>) -> Seq<Token> {
    let ss = split_spec(s, ',');
    if ss.len() == 0 {
        Seq::empty()
    } else {
        ss[0]
    }
}

/// The literal tokens of a whole invocation: everything after the first
/// top-level entry separator, or nothing when there is none.
pub open spec fn literal_tokens(s: Seq<Token>) -> Seq<Token> {
    let ss = split_spec(s, ',');
    if ss.len() == 0 || ss[0].len() == s.len() {
        Seq::empty()
    } else {
        s.skip(ss[0].len() + 1int)
    }
}

/// What a whole invocation yields: the target-type tokens before the first
/// top-level entry separator, and the compiled literal after it.
pub open spec fn json_spec(s: Seq<Token>) -> Result<(Seq<Token>, FragmentV), CompileError> {
    match compile_spec(literal_tokens(s)) {
        Ok(f) => Ok((type_tokens(s), f)),
        Err(e) => Err(e),
    }
}

/// The entry point for a whole invocation: cuts the target-type descriptor
/// off at the first top-level entry separator and compiles the rest.  An
/// invocation with no separator at all has no literal, so it aborts with
/// `EmptyExpression`.
pub fn json(tokens: Vec<Token>) -> (r: Result<(Vec<Token>, Fragment), CompileError>)
    ensures
        r matches Ok(p) ==> json_spec(tokens@) == Ok::<(Seq<Token>, FragmentV), CompileError>(
            (p.0@, frag_view(p.1)),
        ),
        r matches Err(e) ==> json_spec(tokens@) == Err::<(Seq<Token>, FragmentV), CompileError>(e),
{
    let (ty, rest_opt) = split_first(tokens, ',');
    match rest_opt {
        None => {
            proof {
                assert(literal_tokens(tokens@) == Seq::<Token>::empty());
                assert(compile_spec(Seq::<Token>::empty()) == Err::<FragmentV, CompileError>(
                    CompileError::EmptyExpression,
                ));
            }
            Err(CompileError::EmptyExpression)
        },
        Some(rest) => {
            proof {
                assert(literal_tokens(tokens@) == rest@);
                assert(type_tokens(tokens@) == ty@);
            }
            match compile(rest) {
                Ok(f) => Ok((ty, f)),
                Err(e) => Err(e),
            }
        },
    }
}

} // verus!
