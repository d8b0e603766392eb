//! Why reading a PLY header or PLY data can fail.
use vstd::prelude::*;

use crate::types::ScalarType;

verus! {

/// An error met while reading a PLY header or PLY data.
#[derive(Debug)]
pub enum DeserializeError {
    /// The first line is not `ply`.
    MissingMagic,
    /// The input ended before the header, or a value, was complete.
    UnexpectedEof,
    /// A `format` line with fewer than three words.
    InvalidFormatLine,
    /// A `format` line naming an unknown encoding.
    UnknownFormat(String),
    /// An `element` line with fewer than three words.
    InvalidElementLine,
    /// An `element` line whose count is not a `usize`.
    InvalidElementCount(String),
    /// A `property` line before any `element` line.
    PropertyWithoutElement,
    /// A `property` line with fewer than three words.
    InvalidPropertyLine,
    /// A `property list` line with fewer than five words.
    InvalidListPropertyLine,
    /// A type name that is not one of the PLY scalar types.
    UnknownScalarType(String),
    /// The header has no `format` line.
    MissingFormat,
    /// A list whose count type is a floating-point type.
    FloatListCount,
    /// A list whose count is negative.
    NegativeListCount,
    /// An ASCII value that does not parse as the given type.
    InvalidAscii(ScalarType),
}

/// The same errors, with their text as sequences of chars.
pub enum PlyError {
    MissingMagic,
    UnexpectedEof,
    InvalidFormatLine,
    UnknownFormat(Seq<char>),
    InvalidElementLine,
    InvalidElementCount(Seq<char>),
    PropertyWithoutElement,
    InvalidPropertyLine,
    InvalidListPropertyLine,
    UnknownScalarType(Seq<char>),
    MissingFormat,
    FloatListCount,
    NegativeListCount,
    InvalidAscii(ScalarType),
}

impl View for DeserializeError {
    type V = PlyError;

    open spec fn view(&self) -> PlyError {
        match self {
            DeserializeError::MissingMagic => PlyError::MissingMagic,
            DeserializeError::UnexpectedEof => PlyError::UnexpectedEof,
            DeserializeError::InvalidFormatLine => PlyError::InvalidFormatLine,
            DeserializeError::UnknownFormat(s) => PlyError::UnknownFormat(s@),
            DeserializeError::InvalidElementLine => PlyError::InvalidElementLine,
            DeserializeError::InvalidElementCount(s) => PlyError::InvalidElementCount(s@),
            DeserializeError::PropertyWithoutElement => PlyError::PropertyWithoutElement,
            DeserializeError::InvalidPropertyLine => PlyError::InvalidPropertyLine,
            DeserializeError::InvalidListPropertyLine => PlyError::InvalidListPropertyLine,
            DeserializeError::UnknownScalarType(s) => PlyError::UnknownScalarType(s@),
            DeserializeError::MissingFormat => PlyError::MissingFormat,
            DeserializeError::FloatListCount => PlyError::FloatListCount,
            DeserializeError::NegativeListCount => PlyError::NegativeListCount,
            DeserializeError::InvalidAscii(t) => PlyError::InvalidAscii(*t),
        }
    }
}

} // verus!
