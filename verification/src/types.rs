//! The PLY data model: encodings, scalar types, properties, elements and the header.
use vstd::prelude::*;

use crate::error::DeserializeError;
use crate::text::{chars_of, range_eq};

verus! {

/// PLY file format encoding.
///
/// Determines how data is stored in the PLY file - as text or binary with specific byte ordering.
#[derive(Debug, Clone, Copy, PartialEq, Eq, Structural, Hash)]
pub enum PlyFormat {
    /// Plain text format
    Ascii,
    /// Binary format with little-endian byte order
    BinaryLittleEndian,
    /// Binary format with big-endian byte order
    BinaryBigEndian,
}

/// Scalar data type used in PLY properties.
///
/// PLY supports both canonical names (like `float32`) and legacy aliases (like `float`).
#[derive(Debug, Clone, Copy, PartialEq, Eq, Structural, Hash)]
pub enum ScalarType {
    I8,
    U8,
    I16,
    U16,
    I32,
    U32,
    F32,
    F64,
}

/// The names of the encodings, as `format` lines write them.
pub const NAME_ASCII: [char; 5] = ['a', 's', 'c', 'i', 'i'];

pub const NAME_BINARY_LE: [char; 20] = [
    'b', 'i', 'n', 'a', 'r', 'y', '_', 'l', 'i', 't', 't', 'l', 'e', '_', 'e', 'n', 'd', 'i',
    'a', 'n',
];

pub const NAME_BINARY_BE: [char; 17] = [
    'b', 'i', 'n', 'a', 'r', 'y', '_', 'b', 'i', 'g', '_', 'e', 'n', 'd', 'i', 'a', 'n',
];

/// The names of the scalar types: canonical names and legacy aliases.
pub const NAME_CHAR: [char; 4] = ['c', 'h', 'a', 'r'];

pub const NAME_INT8: [char; 4] = ['i', 'n', 't', '8'];

pub const NAME_UCHAR: [char; 5] = ['u', 'c', 'h', 'a', 'r'];

pub const NAME_UINT8: [char; 5] = ['u', 'i', 'n', 't', '8'];

pub const NAME_SHORT: [char; 5] = ['s', 'h', 'o', 'r', 't'];

pub const NAME_INT16: [char; 5] = ['i', 'n', 't', '1', '6'];

pub const NAME_USHORT: [char; 6] = ['u', 's', 'h', 'o', 'r', 't'];

pub const NAME_UINT16: [char; 6] = ['u', 'i', 'n', 't', '1', '6'];

pub const NAME_INT: [char; 3] = ['i', 'n', 't'];

pub const NAME_INT32: [char; 5] = ['i', 'n', 't', '3', '2'];

pub const NAME_UINT: [char; 4] = ['u', 'i', 'n', 't'];

pub const NAME_UINT32: [char; 6] = ['u', 'i', 'n', 't', '3', '2'];

pub const NAME_FLOAT: [char; 5] = ['f', 'l', 'o', 'a', 't'];

pub const NAME_FLOAT32: [char; 7] = ['f', 'l', 'o', 'a', 't', '3', '2'];

pub const NAME_DOUBLE: [char; 6] = ['d', 'o', 'u', 'b', 'l', 'e'];

pub const NAME_FLOAT64: [char; 7] = ['f', 'l', 'o', 'a', 't', '6', '4'];

/// The encoding that a `format` line names, if any.
pub open spec fn spec_format_from_name(s: Seq<char>) -> Option<PlyFormat> {
    if s == NAME_ASCII@ {
        Some(PlyFormat::Ascii)
    } else if s == NAME_BINARY_LE@ {
        Some(PlyFormat::BinaryLittleEndian)
    } else if s == NAME_BINARY_BE@ {
        Some(PlyFormat::BinaryBigEndian)
    } else {
        None
    }
}

/// The name under which an encoding is written.
pub open spec fn spec_format_name(f: PlyFormat) -> Seq<char> {
    match f {
        PlyFormat::Ascii => NAME_ASCII@,
        PlyFormat::BinaryLittleEndian => NAME_BINARY_LE@,
        PlyFormat::BinaryBigEndian => NAME_BINARY_BE@,
    }
}

/// The scalar type that a type name denotes, canonical names and legacy aliases alike.
pub open spec fn spec_scalar_from_name(s: Seq<char>) -> Option<ScalarType> {
    if s == NAME_CHAR@ || s == NAME_INT8@ {
        Some(ScalarType::I8)
    } else if s == NAME_UCHAR@ || s == NAME_UINT8@ {
        Some(ScalarType::U8)
    } else if s == NAME_SHORT@ || s == NAME_INT16@ {
        Some(ScalarType::I16)
    } else if s == NAME_USHORT@ || s == NAME_UINT16@ {
        Some(ScalarType::U16)
    } else if s == NAME_INT@ || s == NAME_INT32@ {
        Some(ScalarType::I32)
    } else if s == NAME_UINT@ || s == NAME_UINT32@ {
        Some(ScalarType::U32)
    } else if s == NAME_FLOAT@ || s == NAME_FLOAT32@ {
        Some(ScalarType::F32)
    } else if s == NAME_DOUBLE@ || s == NAME_FLOAT64@ {
        Some(ScalarType::F64)
    } else {
        None
    }
}

/// The canonical name of a scalar type, the one it is written under.
pub open spec fn spec_scalar_name(t: ScalarType) -> Seq<char> {
    match t {
        ScalarType::I8 => NAME_INT8@,
        ScalarType::U8 => NAME_UINT8@,
        ScalarType::I16 => NAME_INT16@,
        ScalarType::U16 => NAME_UINT16@,
        ScalarType::I32 => NAME_INT32@,
        ScalarType::U32 => NAME_UINT32@,
        ScalarType::F32 => NAME_FLOAT32@,
        ScalarType::F64 => NAME_FLOAT64@,
    }
}

impl PlyFormat {
    /// The name under which this encoding is written in a `format` line.
    pub fn name(&self) -> (r: &'static str)
        ensures
            r@ == spec_format_name(*self),
    {
        match self {
            PlyFormat::Ascii => {
                proof {
                    reveal_strlit("ascii");
                }
                "ascii"
            },
            PlyFormat::BinaryLittleEndian => {
                proof {
                    reveal_strlit("binary_little_endian");
                }
                "binary_little_endian"
            },
            PlyFormat::BinaryBigEndian => {
                proof {
                    reveal_strlit("binary_big_endian");
                }
                "binary_big_endian"
            },
        }
    }

    /// The encoding that `name` denotes in a `format` line, if any.
    pub fn from_name(s: &Vec<char>, a: usize, b: usize) -> (r: Option<PlyFormat>)
        requires
            a <= b <= s.len(),
        ensures
            r == spec_format_from_name(s@.subrange(a as int, b as int)),
    {
        if range_eq(s, a, b, &NAME_ASCII) {
            Some(PlyFormat::Ascii)
        } else if range_eq(s, a, b, &NAME_BINARY_LE) {
            Some(PlyFormat::BinaryLittleEndian)
        } else if range_eq(s, a, b, &NAME_BINARY_BE) {
            Some(PlyFormat::BinaryBigEndian)
        } else {
            None
        }
    }
}

impl ScalarType {
    /// The scalar type named by `s[a..b]`, canonical name or legacy alias.
    pub fn from_chars(s: &Vec<char>, a: usize, b: usize) -> (r: Option<ScalarType>)
        requires
            a <= b <= s.len(),
        ensures
            r == spec_scalar_from_name(s@.subrange(a as int, b as int)),
    {
        if range_eq(s, a, b, &NAME_CHAR) || range_eq(s, a, b, &NAME_INT8) {
            Some(ScalarType::I8)
        } else if range_eq(s, a, b, &NAME_UCHAR) || range_eq(s, a, b, &NAME_UINT8) {
            Some(ScalarType::U8)
        } else if range_eq(s, a, b, &NAME_SHORT) || range_eq(s, a, b, &NAME_INT16) {
            Some(ScalarType::I16)
        } else if range_eq(s, a, b, &NAME_USHORT) || range_eq(s, a, b, &NAME_UINT16) {
            Some(ScalarType::U16)
        } else if range_eq(s, a, b, &NAME_INT) || range_eq(s, a, b, &NAME_INT32) {
            Some(ScalarType::I32)
        } else if range_eq(s, a, b, &NAME_UINT) || range_eq(s, a, b, &NAME_UINT32) {
            Some(ScalarType::U32)
        } else if range_eq(s, a, b, &NAME_FLOAT) || range_eq(s, a, b, &NAME_FLOAT32) {
            Some(ScalarType::F32)
        } else if range_eq(s, a, b, &NAME_DOUBLE) || range_eq(s, a, b, &NAME_FLOAT64) {
            Some(ScalarType::F64)
        } else {
            None
        }
    }

    /// Parse a PLY type name; an unknown name is an error that carries it.
    pub fn parse(s: &str) -> (r: Result<ScalarType, DeserializeError>)
        ensures
            match spec_scalar_from_name(s@) {
                Some(t) => r == Ok::<ScalarType, DeserializeError>(t),
                None => r matches Err(e) && e@ == crate::error::PlyError::UnknownScalarType(s@),
            },
    {
        let cs = chars_of(s);
        assert(cs@.subrange(0, cs@.len() as int) =~= s@);
        match ScalarType::from_chars(&cs, 0, cs.len()) {
            Some(t) => Ok(t),
            None => Err(DeserializeError::UnknownScalarType(s.to_owned())),
        }
    }

    /// The canonical name of this type, as it is written in a header.
    pub fn name(&self) -> (r: &'static str)
        ensures
            r@ == spec_scalar_name(*self),
    {
        match self {
            ScalarType::I8 => {
                proof {
                    reveal_strlit("int8");
                }
                "int8"
            },
            ScalarType::U8 => {
                proof {
                    reveal_strlit("uint8");
                }
                "uint8"
            },
            ScalarType::I16 => {
                proof {
                    reveal_strlit("int16");
                }
                "int16"
            },
            ScalarType::U16 => {
                proof {
                    reveal_strlit("uint16");
                }
                "uint16"
            },
            ScalarType::I32 => {
                proof {
                    reveal_strlit("int32");
                }
                "int32"
            },
            ScalarType::U32 => {
                proof {
                    reveal_strlit("uint32");
                }
                "uint32"
            },
            ScalarType::F32 => {
                proof {
                    reveal_strlit("float32");
                }
                "float32"
            },
            ScalarType::F64 => {
                proof {
                    reveal_strlit("float64");
                }
                "float64"
            },
        }
    }
}

/// A type name is read back as the type it names: the name that `name` writes
/// for a scalar type parses to that type.
pub proof fn lemma_scalar_name_roundtrip(t: ScalarType)
    ensures
        spec_scalar_from_name(spec_scalar_name(t)) == Some(t),
{
    assert(NAME_CHAR@[0] != NAME_INT8@[0]);
    assert(NAME_CHAR@.len() != NAME_UCHAR@.len());
    assert(NAME_CHAR@.len() != NAME_UINT8@.len());
    assert(NAME_CHAR@.len() != NAME_SHORT@.len());
    assert(NAME_CHAR@.len() != NAME_INT16@.len());
    assert(NAME_CHAR@.len() != NAME_USHORT@.len());
    assert(NAME_CHAR@.len() != NAME_UINT16@.len());
    assert(NAME_CHAR@.len() != NAME_INT@.len());
    assert(NAME_CHAR@.len() != NAME_INT32@.len());
    assert(NAME_CHAR@[0] != NAME_UINT@[0]);
    assert(NAME_CHAR@.len() != NAME_UINT32@.len());
    assert(NAME_CHAR@.len() != NAME_FLOAT@.len());
    assert(NAME_CHAR@.len() != NAME_FLOAT32@.len());
    assert(NAME_CHAR@.len() != NAME_DOUBLE@.len());
    assert(NAME_CHAR@.len() != NAME_FLOAT64@.len());
    assert(NAME_INT8@.len() != NAME_UCHAR@.len());
    assert(NAME_INT8@.len() != NAME_UINT8@.len());
    assert(NAME_INT8@.len() != NAME_SHORT@.len());
    assert(NAME_INT8@.len() != NAME_INT16@.len());
    assert(NAME_INT8@.len() != NAME_USHORT@.len());
    assert(NAME_INT8@.len() != NAME_UINT16@.len());
    assert(NAME_INT8@.len() != NAME_INT@.len());
    assert(NAME_INT8@.len() != NAME_INT32@.len());
    assert(NAME_INT8@[0] != NAME_UINT@[0]);
    assert(NAME_INT8@.len() != NAME_UINT32@.len());
    assert(NAME_INT8@.len() != NAME_FLOAT@.len());
    assert(NAME_INT8@.len() != NAME_FLOAT32@.len());
    assert(NAME_INT8@.len() != NAME_DOUBLE@.len());
    assert(NAME_INT8@.len() != NAME_FLOAT64@.len());
    assert(NAME_UCHAR@[1] != NAME_UINT8@[1]);
    assert(NAME_UCHAR@[0] != NAME_SHORT@[0]);
    assert(NAME_UCHAR@[0] != NAME_INT16@[0]);
    assert(NAME_UCHAR@.len() != NAME_USHORT@.len());
    assert(NAME_UCHAR@.len() != NAME_UINT16@.len());
    assert(NAME_UCHAR@.len() != NAME_INT@.len());
    assert(NAME_UCHAR@[0] != NAME_INT32@[0]);
    assert(NAME_UCHAR@.len() != NAME_UINT@.len());
    assert(NAME_UCHAR@.len() != NAME_UINT32@.len());
    assert(NAME_UCHAR@[0] != NAME_FLOAT@[0]);
    assert(NAME_UCHAR@.len() != NAME_FLOAT32@.len());
    assert(NAME_UCHAR@.len() != NAME_DOUBLE@.len());
    assert(NAME_UCHAR@.len() != NAME_FLOAT64@.len());
    assert(NAME_UINT8@[0] != NAME_SHORT@[0]);
    assert(NAME_UINT8@[0] != NAME_INT16@[0]);
    assert(NAME_UINT8@.len() != NAME_USHORT@.len());
    assert(NAME_UINT8@.len() != NAME_UINT16@.len());
    assert(NAME_UINT8@.len() != NAME_INT@.len());
    assert(NAME_UINT8@[0] != NAME_INT32@[0]);
    assert(NAME_UINT8@.len() != NAME_UINT@.len());
    assert(NAME_UINT8@.len() != NAME_UINT32@.len());
    assert(NAME_UINT8@[0] != NAME_FLOAT@[0]);
    assert(NAME_UINT8@.len() != NAME_FLOAT32@.len());
    assert(NAME_UINT8@.len() != NAME_DOUBLE@.len());
    assert(NAME_UINT8@.len() != NAME_FLOAT64@.len());
    assert(NAME_SHORT@[0] != NAME_INT16@[0]);
    assert(NAME_SHORT@.len() != NAME_USHORT@.len());
    assert(NAME_SHORT@.len() != NAME_UINT16@.len());
    assert(NAME_SHORT@.len() != NAME_INT@.len());
    assert(NAME_SHORT@[0] != NAME_INT32@[0]);
    assert(NAME_SHORT@.len() != NAME_UINT@.len());
    assert(NAME_SHORT@.len() != NAME_UINT32@.len());
    assert(NAME_SHORT@[0] != NAME_FLOAT@[0]);
    assert(NAME_SHORT@.len() != NAME_FLOAT32@.len());
    assert(NAME_SHORT@.len() != NAME_DOUBLE@.len());
    assert(NAME_SHORT@.len() != NAME_FLOAT64@.len());
    assert(NAME_INT16@.len() != NAME_USHORT@.len());
    assert(NAME_INT16@.len() != NAME_UINT16@.len());
    assert(NAME_INT16@.len() != NAME_INT@.len());
    assert(NAME_INT16@[3] != NAME_INT32@[3]);
    assert(NAME_INT16@.len() != NAME_UINT@.len());
    assert(NAME_INT16@.len() != NAME_UINT32@.len());
    assert(NAME_INT16@[0] != NAME_FLOAT@[0]);
    assert(NAME_INT16@.len() != NAME_FLOAT32@.len());
    assert(NAME_INT16@.len() != NAME_DOUBLE@.len());
    assert(NAME_INT16@.len() != NAME_FLOAT64@.len());
    assert(NAME_USHORT@[1] != NAME_UINT16@[1]);
    assert(NAME_USHORT@.len() != NAME_INT@.len());
    assert(NAME_USHORT@.len() != NAME_INT32@.len());
    assert(NAME_USHORT@.len() != NAME_UINT@.len());
    assert(NAME_USHORT@[1] != NAME_UINT32@[1]);
    assert(NAME_USHORT@.len() != NAME_FLOAT@.len());
    assert(NAME_USHORT@.len() != NAME_FLOAT32@.len());
    assert(NAME_USHORT@[0] != NAME_DOUBLE@[0]);
    assert(NAME_USHORT@.len() != NAME_FLOAT64@.len());
    assert(NAME_UINT16@.len() != NAME_INT@.len());
    assert(NAME_UINT16@.len() != NAME_INT32@.len());
    assert(NAME_UINT16@.len() != NAME_UINT@.len());
    assert(NAME_UINT16@[4] != NAME_UINT32@[4]);
    assert(NAME_UINT16@.len() != NAME_FLOAT@.len());
    assert(NAME_UINT16@.len() != NAME_FLOAT32@.len());
    assert(NAME_UINT16@[0] != NAME_DOUBLE@[0]);
    assert(NAME_UINT16@.len() != NAME_FLOAT64@.len());
    assert(NAME_INT@.len() != NAME_INT32@.len());
    assert(NAME_INT@.len() != NAME_UINT@.len());
    assert(NAME_INT@.len() != NAME_UINT32@.len());
    assert(NAME_INT@.len() != NAME_FLOAT@.len());
    assert(NAME_INT@.len() != NAME_FLOAT32@.len());
    assert(NAME_INT@.len() != NAME_DOUBLE@.len());
    assert(NAME_INT@.len() != NAME_FLOAT64@.len());
    assert(NAME_INT32@.len() != NAME_UINT@.len());
    assert(NAME_INT32@.len() != NAME_UINT32@.len());
    assert(NAME_INT32@[0] != NAME_FLOAT@[0]);
    assert(NAME_INT32@.len() != NAME_FLOAT32@.len());
    assert(NAME_INT32@.len() != NAME_DOUBLE@.len());
    assert(NAME_INT32@.len() != NAME_FLOAT64@.len());
    assert(NAME_UINT@.len() != NAME_UINT32@.len());
    assert(NAME_UINT@.len() != NAME_FLOAT@.len());
    assert(NAME_UINT@.len() != NAME_FLOAT32@.len());
    assert(NAME_UINT@.len() != NAME_DOUBLE@.len());
    assert(NAME_UINT@.len() != NAME_FLOAT64@.len());
    assert(NAME_UINT32@.len() != NAME_FLOAT@.len());
    assert(NAME_UINT32@.len() != NAME_FLOAT32@.len());
    assert(NAME_UINT32@[0] != NAME_DOUBLE@[0]);
    assert(NAME_UINT32@.len() != NAME_FLOAT64@.len());
    assert(NAME_FLOAT@.len() != NAME_FLOAT32@.len());
    assert(NAME_FLOAT@.len() != NAME_DOUBLE@.len());
    assert(NAME_FLOAT@.len() != NAME_FLOAT64@.len());
    assert(NAME_FLOAT32@.len() != NAME_DOUBLE@.len());
    assert(NAME_FLOAT32@[5] != NAME_FLOAT64@[5]);
    assert(NAME_DOUBLE@.len() != NAME_FLOAT64@.len());
}

/// An encoding's name is read back as that encoding.
pub proof fn lemma_format_name_roundtrip(f: PlyFormat)
    ensures
        spec_format_from_name(spec_format_name(f)) == Some(f),
{
}

/// PLY property type definition.
///
/// Properties can be either single scalar values or variable-length lists.
/// Lists store a count followed by that many data elements.
#[derive(Debug, Clone, Copy)]
pub enum PropertyType {
    /// Single scalar value
    Scalar(ScalarType),
    /// Variable-length list with count and data types
    List { count_type: ScalarType, data_type: ScalarType },
}

/// Definition of a single property within a PLY element.
#[derive(Debug, Clone)]
pub struct PlyProperty {
    pub name: String,
    pub property_type: PropertyType,
}

/// Definition of a PLY element type: its name, its row count and its properties.
#[derive(Debug, Clone)]
pub struct ElementDef {
    pub name: String,
    pub count: usize,
    pub properties: Vec<PlyProperty>,
}

/// PLY file header containing format, elements, and metadata.
#[derive(Debug, Clone)]
pub struct PlyHeader {
    pub format: PlyFormat,
    pub elem_defs: Vec<ElementDef>,
    pub comments: Vec<String>,
    pub obj_info: Vec<String>,
}

/// A property as a mathematical value.
#[verifier::ext_equal]
pub struct SpecProperty {
    pub name: Seq<char>,
    pub property_type: PropertyType,
}

/// An element definition as a mathematical value.
#[verifier::ext_equal]
pub struct SpecElement {
    pub name: Seq<char>,
    pub count: usize,
    pub properties: Seq<SpecProperty>,
}

/// A header as a mathematical value.
#[verifier::ext_equal]
pub struct SpecHeader {
    pub format: PlyFormat,
    pub elements: Seq<SpecElement>,
    pub comments: Seq<Seq<char>>,
    pub obj_info: Seq<Seq<char>>,
}

pub open spec fn props_view(v: Seq<PlyProperty>) -> Seq<SpecProperty> {
    v.map_values(|p: PlyProperty| p@)
}

pub open spec fn elems_view(v: Seq<ElementDef>) -> Seq<SpecElement> {
    v.map_values(|e: ElementDef| e@)
}

pub open spec fn strings_view(v: Seq<String>) -> Seq<Seq<char>> {
    v.map_values(|s: String| s@)
}

impl View for PlyProperty {
    type V = SpecProperty;

    open spec fn view(&self) -> SpecProperty {
        SpecProperty { name: self.name@, property_type: self.property_type }
    }
}

impl View for ElementDef {
    type V = SpecElement;

    open spec fn view(&self) -> SpecElement {
        SpecElement { name: self.name@, count: self.count, properties: props_view(self.properties@) }
    }
}

impl View for PlyHeader {
    type V = SpecHeader;

    open spec fn view(&self) -> SpecHeader {
        SpecHeader {
            format: self.format,
            elements: elems_view(self.elem_defs@),
            comments: strings_view(self.comments@),
            obj_info: strings_view(self.obj_info@),
        }
    }
}

impl ElementDef {
    /// Find a property by name: the first one so named.
    pub fn get_property(&self, name: &str) -> (r: Option<&PlyProperty>)
        ensures
            match r {
                Some(p) => exists|i: int|
                    0 <= i < self.properties@.len() && self.properties@[i] == *p && p.name@
                        == name@ && forall|j: int|
                        0 <= j < i ==> (#[trigger] self.properties@[j]).name@ != name@,
                None => forall|i: int|
                    0 <= i < self.properties@.len() ==> (#[trigger] self.properties@[i]).name@
                        != name@,
            },
    {
        let key = name.to_owned();
        let mut i: usize = 0;
        while i < self.properties.len()
            invariant
                i <= self.properties@.len(),
                key@ == name@,
                forall|j: int| 0 <= j < i ==> (#[trigger] self.properties@[j]).name@ != name@,
            decreases self.properties.len() - i,
        {
            if self.properties[i].name == key {
                return Some(&self.properties[i]);
            }
            i = i + 1;
        }
        None
    }

    /// Check if the element has a property with the given name.
    pub fn has_property(&self, name: &str) -> (r: bool)
        ensures
            r == exists|i: int|
                0 <= i < self.properties@.len() && (#[trigger] self.properties@[i]).name@ == name@,
    {
        self.get_property(name).is_some()
    }
}

impl PlyHeader {
    /// Find an element definition by name: the first one so named.
    pub fn get_element(&self, name: &str) -> (r: Option<&ElementDef>)
        ensures
            match r {
                Some(e) => exists|i: int|
                    0 <= i < self.elem_defs@.len() && self.elem_defs@[i] == *e && e.name@ == name@
                        && forall|j: int|
                        0 <= j < i ==> (#[trigger] self.elem_defs@[j]).name@ != name@,
                None => forall|i: int|
                    0 <= i < self.elem_defs@.len() ==> (#[trigger] self.elem_defs@[i]).name@
                        != name@,
            },
    {
        let key = name.to_owned();
        let mut i: usize = 0;
        while i < self.elem_defs.len()
            invariant
                i <= self.elem_defs@.len(),
                key@ == name@,
                forall|j: int| 0 <= j < i ==> (#[trigger] self.elem_defs@[j]).name@ != name@,
            decreases self.elem_defs.len() - i,
        {
            if self.elem_defs[i].name == key {
                return Some(&self.elem_defs[i]);
            }
            i = i + 1;
        }
        None
    }

    /// Check if the header contains an element with the given name.
    pub fn has_element(&self, name: &str) -> (r: bool)
        ensures
            r == exists|i: int|
                0 <= i < self.elem_defs@.len() && (#[trigger] self.elem_defs@[i]).name@ == name@,
    {
        let key = name.to_owned();
        let mut i: usize = 0;
        while i < self.elem_defs.len()
            invariant
                i <= self.elem_defs@.len(),
                key@ == name@,
                forall|j: int| 0 <= j < i ==> (#[trigger] self.elem_defs@[j]).name@ != name@,
            decreases self.elem_defs.len() - i,
        {
            if self.elem_defs[i].name == key {
                return true;
            }
            i = i + 1;
        }
        false
    }
}

impl std::str::FromStr for ScalarType {
    type Err = DeserializeError;

    fn from_str(s: &str) -> (r: Result<Self, Self::Err>)
        ensures
            match spec_scalar_from_name(s@) {
                Some(t) => r == Ok::<ScalarType, DeserializeError>(t),
                None => r matches Err(e) && e@ == crate::error::PlyError::UnknownScalarType(s@),
            },
    {
        Self::parse(s)
    }
}

/// Wrapper to serialize PLY lists with `u16` count type.
///
/// By default, PLY lists use `u8` for the element count. Use this wrapper
/// when you need larger counts.
#[derive(Debug)]
pub struct ListCountU16<T>(pub T);

/// Wrapper to serialize PLY lists with `u32` count type.
///
/// Use this wrapper when you need very large element counts in lists.
#[derive(Debug)]
pub struct ListCountU32<T>(pub T);

impl<T> From<T> for ListCountU16<T> {
    fn from(inner: T) -> (r: Self) {
        ListCountU16(inner)
    }
}

impl<T> vstd::std_specs::convert::FromSpecImpl<T> for ListCountU16<T> {
    open spec fn obeys_from_spec() -> bool {
        true
    }

    open spec fn from_spec(inner: T) -> Self {
        ListCountU16(inner)
    }
}

impl<T> From<T> for ListCountU32<T> {
    fn from(inner: T) -> (r: Self) {
        ListCountU32(inner)
    }
}

impl<T> vstd::std_specs::convert::FromSpecImpl<T> for ListCountU32<T> {
    open spec fn obeys_from_spec() -> bool {
        true
    }

    open spec fn from_spec(inner: T) -> Self {
        ListCountU32(inner)
    }
}

impl<T> std::ops::Deref for ListCountU16<T> {
    type Target = T;

    fn deref(&self) -> (r: &T)
        ensures
            *r == self.0,
    {
        &self.0
    }
}

impl<T> std::ops::Deref for ListCountU32<T> {
    type Target = T;

    fn deref(&self) -> (r: &T)
        ensures
            *r == self.0,
    {
        &self.0
    }
}

} // verus!
