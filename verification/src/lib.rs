//! Compiles JSON-shaped literals, given as an already-grouped token tree, into
//! a fragment of builder operations: make an empty object or array, insert a
//! keyed entry, append an element, or convert a leftover scalar expression.
//!
//! The two components are the delimiter-aware splitter ([`split`]), which cuts
//! a token sequence at every top-level occurrence of a separator character,
//! and the recursive value compiler ([`compile`]), which classifies a sequence
//! as an object literal, an array literal, or a scalar expression and walks it
//! bottom-up.
//!
//! [`split`]: split::split
//! [`compile`]: compile::compile

pub mod compile;
pub mod laws;
pub mod split;
pub mod token;
