//! The token model: the already-grouped token tree that the compiler walks.
//!
//! A token is either a leaf (a punctuation character or an opaque piece of
//! source text such as an identifier or a literal) or a group: a nested token
//! sequence tagged with the bracket kind that enclosed it.  Groups are opaque
//! to top-level scanning; their inner separators never end an outer segment.

use vstd::prelude::*;

verus! {

/// The bracket kind of a group.
#[derive(Clone, Copy, Debug, PartialEq, Eq, Structural)]
pub enum Delim {
    Brace,
    Bracket,
    Parenthesis,
    NoDelim,
}

/// Whether a punctuation character stands alone or joins the next one into a
/// multi-character operator such as `::` or `==`.  The compiler carries this
/// tag opaquely — splitting cuts on the character alone — so that the host
/// tokens can be rebuilt exactly as they were written.
#[derive(Clone, Copy, Debug, PartialEq, Eq, Structural)]
pub enum Spacing {
    Alone,
    Joint,
}

/// One token of the input tree.
#[derive(Debug, PartialEq, Eq)]
pub enum Token {
    /// A single punctuation character at this nesting level, with its
    /// spacing towards the next token.
    Punct(char, Spacing),
    /// An opaque leaf: an identifier, a literal, or any other atom,
    /// carried as its source text.
    Leaf(String),
    /// A nested token sequence, opaque to top-level scanning.
    Group(Delim, Vec<Token>),
}

/// The size of one token: groups count one plus the size of their contents,
/// so that a group is strictly larger than anything cut out of it.
pub open spec fn tok_size(t: Token) -> nat
    decreases t,
{
    match t {
        Token::Group(_, ts) => 1 + toks_size(ts@),
        _ => 1,
    }
}

/// The total size of a token sequence.
pub open spec fn toks_size(s: Seq<Token>) -> nat
    decreases s,
{
    if s.len() == 0 {
        0
    } else {
        tok_size(s[0]) + toks_size(s.drop_first())
    }
}

/// Every token counts at least one.
pub proof fn lemma_tok_size_pos(t: Token)
    ensures
        tok_size(t) >= 1,
{
}

/// A sequence is at least as large as its length: every token counts one.
pub proof fn lemma_toks_size_ge_len(s: Seq<Token>)
    ensures
        toks_size(s) >= s.len(),
    decreases s.len(),
{
    if s.len() > 0 {
        lemma_tok_size_pos(s[0]);
        lemma_toks_size_ge_len(s.drop_first());
    }
}

/// A single token's sequence has that token's size.
pub proof fn lemma_toks_size_singleton(t: Token)
    ensures
        toks_size(seq![t]) == tok_size(t),
{
    assert(seq![t].drop_first() =~= Seq::<Token>::empty());
    assert(toks_size(Seq::<Token>::empty()) == 0);
}

/// Size distributes over concatenation.
pub proof fn lemma_toks_size_concat(a: Seq<Token>, b: Seq<Token>)
    ensures
        toks_size(a + b) == toks_size(a) + toks_size(b),
    decreases a.len(),
{
    if a.len() == 0 {
        assert(a + b =~= b);
    } else {
        lemma_toks_size_concat(a.drop_first(), b);
        assert((a + b).drop_first() =~= a.drop_first() + b);
        assert((a + b)[0] == a[0]);
    }
}

/// Cutting a sequence at any point splits its size in two.
pub proof fn lemma_toks_size_cut(s: Seq<Token>, i: int)
    requires
        0 <= i <= s.len(),
    ensures
        toks_size(s) == toks_size(s.take(i)) + toks_size(s.skip(i)),
{
    lemma_toks_size_concat(s.take(i), s.skip(i));
    assert(s.take(i) + s.skip(i) =~= s);
}

} // verus!
