//! PLY files: the header grammar, the binary and ASCII encodings of scalar
//! values, and the layout of binary rows, verified with Verus.
//!
//! A PLY file is a text header (`ply`, a `format` line, comments, and the
//! definitions of its elements and their properties, up to `end_header`)
//! followed by the rows of each element, either as whitespace-separated text
//! or as little- or big-endian binary values.

pub mod bytes;
pub mod error;
pub mod header;
pub mod header_out;
pub mod header_roundtrip;
pub mod laws;
pub mod options;
pub mod plan;
pub mod reader;
pub mod text;
pub mod types;
pub mod writer;

pub use error::DeserializeError;
pub use header::HeaderParser;
pub use header_out::count_text;
pub use options::{SerializeOptions, SpecOptions};
pub use plan::{build_seq_plan, row_byte_size, SeqPlan};
pub use reader::{AsciiValReader, BinValReader, Endian, ScalarValue};
pub use types::{
    ElementDef, ListCountU16, ListCountU32, PlyFormat, PlyHeader, PlyProperty, PropertyType,
    ScalarType,
};
pub use writer::{decimal_text, list_count_value, AsciiValWriter, BinValWriter};
