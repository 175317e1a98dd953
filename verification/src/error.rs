//! Error types: parse errors, resolution errors, and render errors are
//! kept apart so that callers can tell a broken document from a broken
//! output stage.

use vstd::prelude::*;

verus! {

/// Errors raised while parsing.
#[derive(Debug, Clone, PartialEq, Eq)]
pub enum ParseError {
    /// Malformed front matter (unclosed delimiter or invalid table).
    FrontMatter(Vec<u8>),
    /// Malformed bibliography text.
    BibTeX(Vec<u8>),
    /// A syntax error with a location.
    Syntax { line: usize, message: Vec<u8> },
    /// Input ended where more was required.
    UnexpectedEof,
    /// Any other parse failure.
    Other(Vec<u8>),
}

/// Errors raised while resolving a parsed document.
#[derive(Debug, Clone, PartialEq, Eq)]
pub enum ResolutionError {
    UnknownCitation(Vec<u8>),
    UnknownReference(Vec<u8>),
    DuplicateLabel(Vec<u8>),
    UndefinedFootnote(Vec<u8>),
    CircularMacro(Vec<u8>),
    BibliographyRead(Vec<u8>),
}

/// Errors raised by renderers; kept distinct from the two above.
#[derive(Debug, Clone, PartialEq, Eq)]
pub enum RenderError {
    Unsupported(Vec<u8>),
    Math(Vec<u8>),
    Template(Vec<u8>),
}

/// The library's top-level error.
#[derive(Debug, Clone, PartialEq, Eq)]
pub enum Error {
    Parse(ParseError),
    Resolution(ResolutionError),
    Render(RenderError),
    Io(Vec<u8>),
}

} // verus!
