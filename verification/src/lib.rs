//! A reader for the BDF (Glyph Bitmap Distribution Format) font format.
//!
//! The library parses a sequence of text lines into a [`Font`]: a line
//! tokenizer recognizes the BDF keywords ([`tokens`]), and a state machine
//! ([`Font::read`]) drives the token stream through the nested-section
//! grammar, accumulating glyph metrics and bitmap data.

use vstd::prelude::*;

mod bitmap;
mod bitvec;
mod font;
pub mod laws;
mod reader;
mod strutil;
pub mod tokens;

pub use bitmap::{Bitmap, OutOfBounds};
pub use bitvec::{bits_of, byte_bits, bytes_to_bits};
pub use font::{BoundingBox, Font, Glyph, GlyphIdx, Size, Value};
pub use reader::State;
pub use strutil::fields_of;
pub use tokens::{NoSuchVariant, Token, WritingDirection};

use tokens::TokenV;

verus! {

/// Why a parse failed: a lexical error from the tokenizer, a token in
/// the wrong section, a section closed early, a declared value that
/// never came, or a malformed property or bitmap line.
#[derive(Debug)]
pub enum Error {
    /// A line could not become a token; holds the tokenizer's error.
    SyntaxError(tokens::Error),
    /// The token may only appear in the named context, but the parse was
    /// in the given state.
    InvalidContext(Token, State, &'static str),
    /// The named context was closed while its declared count was not yet
    /// consumed.
    UnexpectedEnd(&'static str),
    MissingFontName,
    MissingFontSize,
    MissingFontBoundingBox,
    MissingGlyphEncoding,
    MissingGlyphBoundingBox,
    /// A property value that is neither quoted nor an integer; holds the
    /// offending text. Strings need to be quoted.
    InvalidPropertyValue(String),
    /// A bitmap line whose hex digits do not pair; holds the digit left
    /// over.
    InvalidBitmapValue(String),
    /// A declared feature that this reader does not support: a vertical
    /// writing direction, or the vertical-metrics keywords.
    Unsupported(&'static str),
}

/// The mathematical shadow of an [`Error`].
pub enum ErrorV {
    SyntaxError(tokens::ErrorV),
    InvalidContext(TokenV, State, Seq<char>),
    UnexpectedEnd(Seq<char>),
    MissingFontName,
    MissingFontSize,
    MissingFontBoundingBox,
    MissingGlyphEncoding,
    MissingGlyphBoundingBox,
    InvalidPropertyValue(Seq<char>),
    InvalidBitmapValue(Seq<char>),
    Unsupported(Seq<char>),
}

impl View for Error {
    type V = ErrorV;

    open spec fn view(&self) -> ErrorV {
        match self {
            Error::SyntaxError(e) => ErrorV::SyntaxError(e@),
            Error::InvalidContext(t, st, expected) => ErrorV::InvalidContext(t@, *st, expected@),
            Error::UnexpectedEnd(section) => ErrorV::UnexpectedEnd(section@),
            Error::MissingFontName => ErrorV::MissingFontName,
            Error::MissingFontSize => ErrorV::MissingFontSize,
            Error::MissingFontBoundingBox => ErrorV::MissingFontBoundingBox,
            Error::MissingGlyphEncoding => ErrorV::MissingGlyphEncoding,
            Error::MissingGlyphBoundingBox => ErrorV::MissingGlyphBoundingBox,
            Error::InvalidPropertyValue(s) => ErrorV::InvalidPropertyValue(s@),
            Error::InvalidBitmapValue(s) => ErrorV::InvalidBitmapValue(s@),
            Error::Unsupported(feature) => ErrorV::Unsupported(feature@),
        }
    }
}

} // verus!
