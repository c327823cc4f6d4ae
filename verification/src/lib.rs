//! An interpreter for a small Lisp-family expression language.
//!
//! Source text is tokenized into token strings, each token is parsed into an
//! expression-tree value, and the tree is evaluated against a flat name-to-value
//! scope. Every callable receives its argument sub-expressions unevaluated and
//! decides for itself whether and when to evaluate them, which is how the
//! conditional and binding forms avoid evaluating untaken branches.

pub mod errors;
pub mod eval;
pub mod laws;
pub mod lexer;
pub mod parser;
pub mod scope;
pub mod stdlib;
pub mod text;
pub mod value;
