//! Verified core of a delimiter-directive preprocessor for Markdown-like
//! documents.
//!
//! The library scans a document for `$...$` and `$$...$$` regions while
//! ignoring fenced code blocks and raw-HTML `<pre>` blocks, splits the
//! document losslessly into keep/replace spans, trims the delimiters off a
//! replace span, interprets its content as a directive (render an equation or
//! figure, or resolve a cross-reference), and produces the substitution
//! markup.  Rendering itself (invoking an external typesetting tool) is left
//! to the caller: the interpreter hands out a render request and accepts the
//! produced artifact path back.
//!
//! Document text is handled as UTF-8 bytes throughout; all delimiters and
//! directive tokens are ASCII, so byte-level scanning never splits a
//! character.  Positions count lines and characters; byte ranges index the
//! text.

pub mod error;
pub mod text;
pub mod types;
pub mod scanner;
pub mod segment;
pub mod trim;
pub mod directive;
pub mod refs;
pub mod cache;
pub mod format;
pub mod interpret;
