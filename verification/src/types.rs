//! The value types of the scanner: renderer names, delimiters and positions.

use vstd::prelude::*;
use vstd::string::{StringExecFns, StringSliceAdditionalSpecFns};

use crate::error::Error;

verus! {

/// The rendering back ends the preprocessor can produce markup for.
///
/// `Html` and `Markdown` embed rendered artifacts as images; `Latex` and
/// `Tectonic` can typeset math natively, so markup for them re-wraps the
/// source instead.
#[derive(Debug, Clone, Copy, PartialEq, Eq, Structural)]
pub enum SupportedRenderer {
    Tectonic,
    Latex,
    Markdown,
    Html,
}

/// The Unicode lowercasing of a text: what `str::to_lowercase` returns, a
/// function of the characters alone.
pub uninterp spec fn lower_of(s: Seq<char>) -> Seq<char>;

/// Relies on `str::to_lowercase`: the Unicode-lowercased text, a function of
/// the input characters alone.
#[verifier::external_body]
fn lowercase(s: &str) -> (r: String)
    ensures
        r@ == lower_of(s@),
{
    s.to_lowercase()
}

/// The renderer a lowercased name selects, if any.
pub open spec fn renderer_of(lower: Seq<char>) -> Option<SupportedRenderer> {
    if lower == "tectonic"@ {
        Some(SupportedRenderer::Tectonic)
    } else if lower == "latex"@ {
        Some(SupportedRenderer::Latex)
    } else if lower == "markdown"@ {
        Some(SupportedRenderer::Markdown)
    } else if lower == "html"@ {
        Some(SupportedRenderer::Html)
    } else {
        None
    }
}

/// The string equals the literal.
fn string_is(a: &String, lit: &str) -> (r: bool)
    ensures
        r == (a@ == lit@),
{
    let b = String::from_str(lit);
    a.eq(&b)
}

impl SupportedRenderer {
    /// Parses a renderer name, case-insensitively; an unsupported name is
    /// reported back lowercased.
    pub fn from_str(s: &str) -> (r: Result<SupportedRenderer, Error>)
        ensures
            match renderer_of(lower_of(s@)) {
                Some(k) => r == Ok::<SupportedRenderer, Error>(k),
                None => r matches Err(Error::RendererNotSupported(t)) && t@ == lower_of(s@),
            },
    {
        let lower = lowercase(s);
        if string_is(&lower, "tectonic") {
            Ok(SupportedRenderer::Tectonic)
        } else if string_is(&lower, "latex") {
            Ok(SupportedRenderer::Latex)
        } else if string_is(&lower, "markdown") {
            Ok(SupportedRenderer::Markdown)
        } else if string_is(&lower, "html") {
            Ok(SupportedRenderer::Html)
        } else {
            Err(Error::RendererNotSupported(lower))
        }
    }
}

/// Whether a delimiter is the inline `$` or the block `$$` form.
#[derive(Debug, Clone, Copy, PartialEq, Eq, Structural)]
pub enum DelimiterKind {
    Inline,
    Block,
}

/// A delimiter boundary: the opening or closing dollar delimiter of a region,
/// a synthetic end with empty delimiter text (the repair of an unterminated
/// inline delimiter at a line end), or the empty delimiter of an undelimited
/// span boundary.
#[derive(Debug, Clone, Copy, PartialEq, Eq, Structural)]
pub enum Dollar {
    Start(DelimiterKind),
    End(DelimiterKind),
    SyntheticEnd,
    Empty,
}

impl Dollar {
    /// The delimiter is the block form `$$`.
    pub open spec fn spec_is_block(&self) -> bool {
        match *self {
            Dollar::Start(k) => k is Block,
            Dollar::End(k) => k is Block,
            Dollar::SyntheticEnd => false,
            Dollar::Empty => false,
        }
    }

    /// The delimiter is the block form `$$`.
    #[verifier::when_used_as_spec(spec_is_block)]
    pub fn is_block(&self) -> (r: bool)
        ensures
            r == self.spec_is_block(),
    {
        match *self {
            Dollar::Start(k) => matches!(k, DelimiterKind::Block),
            Dollar::End(k) => matches!(k, DelimiterKind::Block),
            Dollar::SyntheticEnd => false,
            Dollar::Empty => false,
        }
    }

    /// The delimiter text's length in bytes: 2 for `$$`, 1 for `$`, 0 for the
    /// empty delimiter.
    pub open spec fn spec_len(&self) -> int {
        match *self {
            Dollar::Start(k) => if k is Block { 2 } else { 1 },
            Dollar::End(k) => if k is Block { 2 } else { 1 },
            Dollar::SyntheticEnd => 0,
            Dollar::Empty => 0,
        }
    }

    /// The delimiter text's length in bytes.
    pub fn delim_len(&self) -> (n: usize)
        ensures
            n == self.spec_len(),
    {
        match *self {
            Dollar::Start(k) => if matches!(k, DelimiterKind::Block) { 2 } else { 1 },
            Dollar::End(k) => if matches!(k, DelimiterKind::Block) { 2 } else { 1 },
            Dollar::SyntheticEnd => 0,
            Dollar::Empty => 0,
        }
    }

    /// The delimiter text itself.
    pub fn as_str(&self) -> (r: &'static str)
        ensures
            self.spec_is_block() ==> r@ == "$$"@,
            !self.spec_is_block() && self.spec_len() == 1 ==> r@ == "$"@,
            self.spec_len() == 0 ==> r@ == ""@,
            r.spec_bytes().len() == self.spec_len(),
    {
        proof {
            reveal_strlit("$$");
            reveal_strlit("$");
            reveal_strlit("");
            vstd::string::is_ascii_spec_bytes("$$");
            vstd::string::is_ascii_spec_bytes("$");
            vstd::string::is_ascii_spec_bytes("");
        }
        match *self {
            Dollar::Start(k) => if matches!(k, DelimiterKind::Block) { "$$" } else { "$" },
            Dollar::End(k) => if matches!(k, DelimiterKind::Block) { "$$" } else { "$" },
            Dollar::SyntheticEnd => "",
            Dollar::Empty => "",
        }
    }
}

/// A line/column position in a document, used for diagnostics.
///
/// The scanner numbers lines from 0.  Columns are character positions within
/// the line, with the conventions of the scanner: an inline delimiter is at
/// its 0-based character index, a block delimiter line is at column 1, and a
/// repaired line end is one past the line's last character.
#[derive(Debug, Clone, Copy, PartialEq, Eq, Structural, PartialOrd, Ord, Hash)]
pub struct LiCo {
    /// Line number.
    pub lineno: usize,
    /// Column within the line.
    pub column: usize,
}

} // verus!
