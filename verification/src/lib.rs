//! Academic Markdown compiler: parsing and resolution of an extended
//! Markdown dialect with math, citations, cross-references, numbered
//! environments, footnotes, and user macros.
//!
//! Text is carried as UTF-8 bytes (`Vec<u8>` / `&[u8]`); contracts speak
//! of `Seq<u8>`.

pub mod ast;
pub mod strmap;
pub mod text;
pub mod lits;
pub mod error;
pub mod expand;
pub mod numbering;
pub mod references;
pub mod resolve;
pub mod citations;
pub mod lexer;
pub mod inline;
pub mod block;
pub mod front;
pub mod bibtex;
