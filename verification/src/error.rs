//! Errors of the directive interpreter.

use vstd::prelude::*;

verus! {

/// An error raised while interpreting a replace span.
///
/// All interpreter errors carry the 0-based line number of the span that was
/// being interpreted and are fatal for the current document pass.
#[derive(Debug, Clone, PartialEq, Eq)]
pub enum Error {
    /// A reference directive named a kind other than `fig`, `bib` or `equ`.
    UnknownReferenceKind { kind: Vec<u8>, lineno: usize },
    /// A reference directive had a token count other than two.
    UnexpectedReferenceArgCount { count: usize, lineno: usize },
    /// A reference directive named a key that the reference table does not
    /// hold.
    InvalidReference { to: Vec<u8>, lineno: usize },
    /// A renderer name was not one of the supported renderers.
    RendererNotSupported(String),
}

} // verus!
