//! Laws of the value compiler, stated and proved once and for all inputs:
//! how many builder calls a well-formed literal emits and in what order, that
//! classification goes by the bracket kind alone, that a bare expression is
//! always a single conversion, and that a missing key/value separator is
//! always reported.

use vstd::prelude::*;

use crate::compile::CompileError;
use crate::compile::FragmentV;
use crate::compile::compile_elems_spec;
use crate::compile::compile_entries_spec;
use crate::compile::compile_spec;
use crate::compile::entry_has_separator;
use crate::compile::entry_key;
use crate::compile::entry_value_tokens;
use crate::split::split_spec;
use crate::token::Delim;
use crate::token::Token;

verus! {

/// When an object body compiles, it has one entry per entry segment, in
/// source order: the entry's key is the segment's first sub-segment on the
/// key/value separator, and its value is the compiled remainder.
pub proof fn lemma_entries_shape(segs: Seq<Seq<Token>>)
    requires
        compile_entries_spec(segs) is Ok,
    ensures
        compile_entries_spec(segs)->Ok_0.len() == segs.len(),
        forall|j: int|
            0 <= j < segs.len() ==> {
                &&& entry_has_separator(#[trigger] segs[j])
                &&& compile_spec(entry_value_tokens(segs[j])) is Ok
                &&& compile_entries_spec(segs)->Ok_0[j] == (
                entry_key(segs[j]),
                compile_spec(entry_value_tokens(segs[j]))->Ok_0,
                )
            },
    decreases segs.len(),
{
    if segs.len() > 0 {
        lemma_entries_shape(segs.drop_first());
        let es = compile_entries_spec(segs)->Ok_0;
        let tail = segs.drop_first();
        let rest = compile_entries_spec(tail)->Ok_0;
        assert(es == seq![(entry_key(segs[0]), compile_spec(entry_value_tokens(segs[0]))->Ok_0)]
            + rest);
        assert forall|j: int| 0 <= j < segs.len() implies {
            &&& entry_has_separator(#[trigger] segs[j])
            &&& compile_spec(entry_value_tokens(segs[j])) is Ok
            &&& es[j] == (entry_key(segs[j]), compile_spec(entry_value_tokens(segs[j]))->Ok_0)
        } by {
            if j > 0 {
                assert(tail[j - 1] == segs[j]);
                assert(es[j] == rest[j - 1]);
            }
        }
    }
}

/// When an array body compiles, it has one element per element segment, in
/// source order: each element is its segment, compiled.
pub proof fn lemma_elems_shape(segs: Seq<Seq<Token>>)
    requires
        compile_elems_spec(segs) is Ok,
    ensures
        compile_elems_spec(segs)->Ok_0.len() == segs.len(),
        forall|j: int|
            0 <= j < segs.len() ==> {
                &&& compile_spec(#[trigger] segs[j]) is Ok
                &&& compile_elems_spec(segs)->Ok_0[j] == compile_spec(segs[j])->Ok_0
            },
    decreases segs.len(),
{
    if segs.len() > 0 {
        lemma_elems_shape(segs.drop_first());
        let fs = compile_elems_spec(segs)->Ok_0;
        let tail = segs.drop_first();
        let rest = compile_elems_spec(tail)->Ok_0;
        assert(fs == seq![compile_spec(segs[0])->Ok_0] + rest);
        assert forall|j: int| 0 <= j < segs.len() implies {
            &&& compile_spec(#[trigger] segs[j]) is Ok
            &&& fs[j] == compile_spec(segs[j])->Ok_0
        } by {
            if j > 0 {
                assert(tail[j - 1] == segs[j]);
                assert(fs[j] == rest[j - 1]);
            }
        }
    }
}

/// Law: a well-formed object literal with N entry segments compiles to an
/// object fragment that performs exactly N insert-keyed-entry calls, in
/// source order — and none at all for an empty body.
pub proof fn lemma_object_insert_count(s: Seq<Token>)
    requires
        s.len() > 0,
        s[0] matches Token::Group(Delim::Brace, _),
        compile_spec(s) is Ok,
    ensures
        s.len() == 1,
        compile_spec(s)->Ok_0 matches FragmentV::Object(es) && {
            let segs = split_spec(s[0]->Group_1@, ',');
            &&& es.len() == segs.len()
            &&& forall|j: int|
                0 <= j < segs.len() ==> #[trigger] es[j] == (
                entry_key(segs[j]),
                compile_spec(entry_value_tokens(segs[j]))->Ok_0,
                )
        },
{
    let segs = split_spec(s[0]->Group_1@, ',');
    lemma_entries_shape(segs);
}

/// Law: a well-formed array literal with N element segments compiles to an
/// array fragment that performs exactly N append-ordered-entry calls, in
/// source order — and none at all for an empty body.
pub proof fn lemma_array_append_count(s: Seq<Token>)
    requires
        s.len() > 0,
        s[0] matches Token::Group(Delim::Bracket, _),
        compile_spec(s) is Ok,
    ensures
        s.len() == 1,
        compile_spec(s)->Ok_0 matches FragmentV::Array(fs) && {
            let segs = split_spec(s[0]->Group_1@, ',');
            &&& fs.len() == segs.len()
            &&& forall|j: int|
                0 <= j < segs.len() ==> #[trigger] fs[j] == compile_spec(segs[j])->Ok_0
        },
{
    let segs = split_spec(s[0]->Group_1@, ',');
    lemma_elems_shape(segs);
}

/// Law: classification goes by the bracket kind alone.  A bracket-delimited
/// group is never compiled as an object, and a brace-delimited group never as
/// an array, whatever either contains.
pub proof fn lemma_classification_by_delimiter(s: Seq<Token>)
    requires
        s.len() > 0,
    ensures
        s[0] matches Token::Group(Delim::Bracket, _) ==> !(compile_spec(s) matches Ok(
            FragmentV::Object(_),
        )),
        s[0] matches Token::Group(Delim::Brace, _) ==> !(compile_spec(s) matches Ok(
            FragmentV::Array(_),
        )),
{
}

/// Law: a sequence that opens with neither a brace group nor a bracket group
/// always compiles to a single conversion of the whole expression — never to
/// object or array construction.
pub proof fn lemma_scalar_fallback(s: Seq<Token>)
    requires
        s.len() > 0,
        !(s[0] matches Token::Group(Delim::Brace, _)),
        !(s[0] matches Token::Group(Delim::Bracket, _)),
    ensures
        compile_spec(s) == Ok::<FragmentV, CompileError>(FragmentV::Scalar(s)),
{
}

/// Law: a brace- or bracket-delimited group that is not the entire remaining
/// sequence is a structural error: the tokens after the group are never
/// silently dropped.
pub proof fn lemma_trailing_tokens_rejected(s: Seq<Token>)
    requires
        s.len() > 1,
        (s[0] matches Token::Group(Delim::Brace, _)) || (s[0] matches Token::Group(
            Delim::Bracket,
            _,
        )),
    ensures
        compile_spec(s) == Err::<FragmentV, CompileError>(CompileError::TrailingTokensAfterGroup),
{
}

/// When any entry segment lacks a top-level key/value separator, compiling
/// the segments fails.
pub proof fn lemma_entries_missing_separator(segs: Seq<Seq<Token>>, j: int)
    requires
        0 <= j < segs.len(),
        !entry_has_separator(segs[j]),
    ensures
        compile_entries_spec(segs) is Err,
    decreases j,
{
    if j > 0 && entry_has_separator(segs[0]) {
        lemma_entries_missing_separator(segs.drop_first(), j - 1);
    }
}

/// Law: an object literal with an entry segment that has no top-level
/// key/value separator is reported as a structural error, never compiled.
pub proof fn lemma_missing_separator_reported(s: Seq<Token>, j: int)
    requires
        s.len() > 0,
        s[0] matches Token::Group(Delim::Brace, _),
        0 <= j < split_spec(s[0]->Group_1@, ',').len(),
        !entry_has_separator(split_spec(s[0]->Group_1@, ',')[j]),
    ensures
        compile_spec(s) is Err,
{
    lemma_entries_missing_separator(split_spec(s[0]->Group_1@, ','), j);
}

} // verus!
