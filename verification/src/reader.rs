//! Reading scalar values from the body of a PLY file, in binary or ASCII encoding.
use vstd::prelude::*;

use crate::bytes::{
    be_read_i16, be_read_i32, be_read_u16, be_read_u32, be_read_u64, be_value, le_read_i16,
    le_read_i32, le_read_u16, le_read_u32, le_read_u64, le_value, signed_of,
};
use crate::error::{DeserializeError, PlyError};
use crate::types::ScalarType;

verus! {

/// Byte order of a binary PLY body.
#[derive(Debug, Clone, Copy, PartialEq, Eq, Structural)]
pub enum Endian {
    Little,
    Big,
}

/// A scalar as it is stored: integers by value, floating-point numbers by their bits.
#[derive(Debug, Clone, Copy, PartialEq, Eq, Structural)]
pub enum ScalarValue {
    I8(i8),
    U8(u8),
    I16(i16),
    U16(u16),
    I32(i32),
    U32(u32),
    /// The IEEE 754 bits of an `f32`.
    F32Bits(u32),
    /// The IEEE 754 bits of an `f64`.
    F64Bits(u64),
}

pub open spec fn is_float(t: ScalarType) -> bool {
    t == ScalarType::F32 || t == ScalarType::F64
}

/// Size in bytes of a scalar type in a binary body.
pub open spec fn spec_scalar_size(t: ScalarType) -> nat {
    match t {
        ScalarType::I8 | ScalarType::U8 => 1,
        ScalarType::I16 | ScalarType::U16 => 2,
        ScalarType::I32 | ScalarType::U32 | ScalarType::F32 => 4,
        ScalarType::F64 => 8,
    }
}

/// The type of a scalar value.
pub open spec fn type_of(v: ScalarValue) -> ScalarType {
    match v {
        ScalarValue::I8(_) => ScalarType::I8,
        ScalarValue::U8(_) => ScalarType::U8,
        ScalarValue::I16(_) => ScalarType::I16,
        ScalarValue::U16(_) => ScalarType::U16,
        ScalarValue::I32(_) => ScalarType::I32,
        ScalarValue::U32(_) => ScalarType::U32,
        ScalarValue::F32Bits(_) => ScalarType::F32,
        ScalarValue::F64Bits(_) => ScalarType::F64,
    }
}

/// The integer an integer-typed value holds.
pub open spec fn int_value(v: ScalarValue) -> int {
    match v {
        ScalarValue::I8(x) => x as int,
        ScalarValue::U8(x) => x as int,
        ScalarValue::I16(x) => x as int,
        ScalarValue::U16(x) => x as int,
        ScalarValue::I32(x) => x as int,
        ScalarValue::U32(x) => x as int,
        ScalarValue::F32Bits(x) => x as int,
        ScalarValue::F64Bits(x) => x as int,
    }
}

/// The number that bytes denote in a byte order.
pub open spec fn endian_value(e: Endian, s: Seq<u8>) -> nat {
    match e {
        Endian::Little => le_value(s),
        Endian::Big => be_value(s),
    }
}

/// The value of type `t` that the bytes `s` (of the type's size) encode.
pub open spec fn spec_decode(e: Endian, t: ScalarType, s: Seq<u8>) -> ScalarValue {
    let v = endian_value(e, s);
    match t {
        ScalarType::I8 => ScalarValue::I8(signed_of(s[0] as nat, 0x100) as i8),
        ScalarType::U8 => ScalarValue::U8(s[0]),
        ScalarType::I16 => ScalarValue::I16(signed_of(v, 0x1_0000) as i16),
        ScalarType::U16 => ScalarValue::U16(v as u16),
        ScalarType::I32 => ScalarValue::I32(signed_of(v, 0x1_0000_0000) as i32),
        ScalarType::U32 => ScalarValue::U32(v as u32),
        ScalarType::F32 => ScalarValue::F32Bits(v as u32),
        ScalarType::F64 => ScalarValue::F64Bits(v as u64),
    }
}

/// `u8::is_ascii_whitespace`: space, tab, line feed, form feed, carriage return.
pub open spec fn is_ascii_ws(b: u8) -> bool {
    b == 0x20 || b == 0x09 || b == 0x0A || b == 0x0C || b == 0x0D
}

/// The number of non-whitespace bytes that `s` starts with.
pub open spec fn word_len(s: Seq<u8>) -> nat
    decreases s.len(),
{
    if s.len() > 0 && !is_ascii_ws(s[0]) {
        1 + word_len(s.drop_first())
    } else {
        0
    }
}

/// The next whitespace-delimited token of `s` and the number of bytes that
/// reading it consumes: leading whitespace, the token, and the one whitespace
/// byte that ends it. `None` when the input ends before a token has ended.
pub open spec fn spec_token(s: Seq<u8>) -> Option<(Seq<u8>, nat)>
    decreases s.len(),
{
    if s.len() == 0 {
        None
    } else if is_ascii_ws(s[0]) {
        match spec_token(s.drop_first()) {
            Some((t, n)) => Some((t, n + 1)),
            None => None,
        }
    } else {
        let k = word_len(s);
        if k < s.len() {
            Some((s.take(k as int), k + 1))
        } else {
            None
        }
    }
}

pub open spec fn byte_is_digit(b: u8) -> bool {
    0x30 <= b && b <= 0x39
}

pub open spec fn bytes_all_digits(s: Seq<u8>) -> bool {
    forall|i: int| 0 <= i < s.len() ==> #[trigger] byte_is_digit(s[i])
}

pub open spec fn byte_digit_value(b: u8) -> nat {
    if byte_is_digit(b) {
        (b - 0x30) as nat
    } else {
        0
    }
}

/// The number that a string of decimal digits denotes.
pub open spec fn decimal_value(s: Seq<u8>) -> nat
    decreases s.len(),
{
    if s.len() == 0 {
        0
    } else {
        decimal_value(s.drop_last()) * 10 + byte_digit_value(s.last())
    }
}

/// The integer that `str::parse` reads from a token: an optional sign (`-`
/// only for signed types), then one or more decimal digits.
pub open spec fn spec_parse_int(s: Seq<u8>, signed: bool) -> Option<int> {
    if s.len() == 1 && (s[0] == 0x2B || s[0] == 0x2D) {
        None
    } else {
        let neg = signed && s.len() > 0 && s[0] == 0x2D;
        let d = if s.len() > 0 && (s[0] == 0x2B || neg) {
            s.drop_first()
        } else {
            s
        };
        if d.len() > 0 && bytes_all_digits(d) {
            Some(
                if neg {
                    -(decimal_value(d) as int)
                } else {
                    decimal_value(d) as int
                },
            )
        } else {
            None
        }
    }
}

pub open spec fn is_signed(t: ScalarType) -> bool {
    t == ScalarType::I8 || t == ScalarType::I16 || t == ScalarType::I32
}

pub open spec fn type_min(t: ScalarType) -> int {
    match t {
        ScalarType::I8 => -0x80,
        ScalarType::I16 => -0x8000,
        ScalarType::I32 => -0x8000_0000,
        _ => 0,
    }
}

pub open spec fn type_max(t: ScalarType) -> int {
    match t {
        ScalarType::I8 => 0x7F,
        ScalarType::U8 => 0xFF,
        ScalarType::I16 => 0x7FFF,
        ScalarType::U16 => 0xFFFF,
        ScalarType::I32 => 0x7FFF_FFFF,
        _ => 0xFFFF_FFFF,
    }
}

/// The value of integer type `t` that an ASCII token denotes, if it is in the type's range.
pub open spec fn spec_ascii_int(s: Seq<u8>, t: ScalarType) -> Option<int> {
    match spec_parse_int(s, is_signed(t)) {
        Some(v) => if type_min(t) <= v && v <= type_max(t) {
            Some(v)
        } else {
            None
        },
        None => None,
    }
}

/// The scalar of integer type `t` holding `v`.
pub open spec fn int_scalar(t: ScalarType, v: int) -> ScalarValue {
    match t {
        ScalarType::I8 => ScalarValue::I8(v as i8),
        ScalarType::U8 => ScalarValue::U8(v as u8),
        ScalarType::I16 => ScalarValue::I16(v as i16),
        ScalarType::U16 => ScalarValue::U16(v as u16),
        ScalarType::I32 => ScalarValue::I32(v as i32),
        _ => ScalarValue::U32(v as u32),
    }
}

/// Size in bytes of a scalar type in a binary body.
pub fn scalar_byte_size(t: ScalarType) -> (r: usize)
    ensures
        r == spec_scalar_size(t),
{
    match t {
        ScalarType::I8 | ScalarType::U8 => 1,
        ScalarType::I16 | ScalarType::U16 => 2,
        ScalarType::I32 | ScalarType::U32 | ScalarType::F32 => 4,
        ScalarType::F64 => 8,
    }
}

/// Reads scalars from a binary body in one byte order.
#[derive(Debug, Clone, Copy)]
pub struct BinValReader {
    pub endian: Endian,
}

impl BinValReader {
    pub fn new(endian: Endian) -> (r: BinValReader)
        ensures
            r.endian == endian,
    {
        BinValReader { endian }
    }

    /// Fixed byte size of a scalar type in the file.
    pub fn scalar_byte_size(&self, t: ScalarType) -> (r: Option<usize>)
        ensures
            r == Some(spec_scalar_size(t) as usize),
    {
        Some(scalar_byte_size(t))
    }

    /// Read a scalar of type `t` at `pos`; returns it and the position after it.
    pub fn read_scalar(&self, data: &[u8], pos: usize, t: ScalarType) -> (r: Result<
        (ScalarValue, usize),
        DeserializeError,
    >)
        ensures
            if pos + spec_scalar_size(t) <= data@.len() {
                r == Ok::<(ScalarValue, usize), DeserializeError>(
                    (
                        spec_decode(
                            self.endian,
                            t,
                            data@.subrange(pos as int, pos + spec_scalar_size(t)),
                        ),
                        (pos + spec_scalar_size(t)) as usize,
                    ),
                )
            } else {
                r matches Err(e) && e@ == PlyError::UnexpectedEof
            },
    {
        let size = scalar_byte_size(t);
        if pos > data.len() || data.len() - pos < size {
            return Err(DeserializeError::UnexpectedEof);
        }
        let little = match self.endian {
            Endian::Little => true,
            Endian::Big => false,
        };
        let v = match t {
            ScalarType::I8 => {
                let b = data[pos];
                let x: i8 = if b >= 128 {
                    (b as i16 - 256) as i8
                } else {
                    b as i8
                };
                ScalarValue::I8(x)
            },
            ScalarType::U8 => ScalarValue::U8(data[pos]),
            ScalarType::I16 => ScalarValue::I16(
                if little {
                    le_read_i16(data, pos)
                } else {
                    be_read_i16(data, pos)
                },
            ),
            ScalarType::U16 => ScalarValue::U16(
                if little {
                    le_read_u16(data, pos)
                } else {
                    be_read_u16(data, pos)
                },
            ),
            ScalarType::I32 => ScalarValue::I32(
                if little {
                    le_read_i32(data, pos)
                } else {
                    be_read_i32(data, pos)
                },
            ),
            ScalarType::U32 => ScalarValue::U32(
                if little {
                    le_read_u32(data, pos)
                } else {
                    be_read_u32(data, pos)
                },
            ),
            ScalarType::F32 => ScalarValue::F32Bits(
                if little {
                    le_read_u32(data, pos)
                } else {
                    be_read_u32(data, pos)
                },
            ),
            ScalarType::F64 => ScalarValue::F64Bits(
                if little {
                    le_read_u64(data, pos)
                } else {
                    be_read_u64(data, pos)
                },
            ),
        };
        Ok((v, pos + size))
    }

    /// Read the count of a list, stored as a value of type `t` at `pos`.
    /// Floating-point count types and negative counts are errors.
    pub fn read_count(&self, data: &[u8], pos: usize, t: ScalarType) -> (r: Result<
        (usize, usize),
        DeserializeError,
    >)
        ensures
            if is_float(t) {
                r matches Err(e) && e@ == PlyError::FloatListCount
            } else if pos + spec_scalar_size(t) <= data@.len() {
                let v = int_value(
                    spec_decode(
                        self.endian,
                        t,
                        data@.subrange(pos as int, pos + spec_scalar_size(t)),
                    ),
                );
                if v < 0 {
                    r matches Err(e) && e@ == PlyError::NegativeListCount
                } else {
                    r == Ok::<(usize, usize), DeserializeError>(
                        (v as usize, (pos + spec_scalar_size(t)) as usize),
                    )
                }
            } else {
                r matches Err(e) && e@ == PlyError::UnexpectedEof
            },
    {
        let mut next: usize = pos;
        let count: i64 = match t {
            ScalarType::F32 | ScalarType::F64 => {
                return Err(DeserializeError::FloatListCount);
            },
            _ => match self.read_scalar(data, pos, t) {
                Err(e) => {
                    return Err(e);
                },
                Ok((v, n)) => {
                    next = n;
                    match v {
                        ScalarValue::I8(x) => x as i64,
                        ScalarValue::U8(x) => x as i64,
                        ScalarValue::I16(x) => x as i64,
                        ScalarValue::U16(x) => x as i64,
                        ScalarValue::I32(x) => x as i64,
                        ScalarValue::U32(x) => x as i64,
                        ScalarValue::F32Bits(x) => x as i64,
                        ScalarValue::F64Bits(_) => {
                            return Err(DeserializeError::FloatListCount);
                        },
                    }
                },
            },
        };
        if count < 0 {
            return Err(DeserializeError::NegativeListCount);
        }
        Ok((count as usize, next))
    }
}


/// `u8::is_ascii_whitespace`.
pub fn is_ascii_whitespace(b: u8) -> (r: bool)
    ensures
        r == is_ascii_ws(b),
{
    b == 0x20 || b == 0x09 || b == 0x0A || b == 0x0C || b == 0x0D
}

proof fn lemma_decimal_value_prefix(s: Seq<u8>, k: int)
    requires
        0 <= k <= s.len(),
    ensures
        decimal_value(s.take(k)) <= decimal_value(s),
    decreases s.len() - k,
{
    if k < s.len() {
        lemma_decimal_value_prefix(s, k + 1);
        assert(s.take(k + 1).drop_last() =~= s.take(k));
    } else {
        assert(s.take(k) =~= s);
    }
}

/// The integer that `str::parse` reads from `tok`, if it lies in `[min, max]`.
pub fn parse_int(tok: &[u8], signed: bool, min: i64, max: i64) -> (r: Option<i64>)
    requires
        -0x1_0000_0000 <= min,
        max <= 0x1_0000_0000,
    ensures
        r == (match spec_parse_int(tok@, signed) {
            Some(v) => if min <= v && v <= max {
                Some(v as i64)
            } else {
                None
            },
            None => None,
        }),
{
    let n = tok.len();
    if n == 1 && (tok[0] == 0x2B || tok[0] == 0x2D) {
        return None;
    }
    let neg = signed && n > 0 && tok[0] == 0x2D;
    let start: usize = if n > 0 && (tok[0] == 0x2B || neg) {
        1
    } else {
        0
    };
    let ghost d = tok@.subrange(start as int, n as int);
    assert(d =~= (if tok@.len() > 0 && (tok@[0] == 0x2B || neg) {
        tok@.drop_first()
    } else {
        tok@
    }));
    if start == n {
        return None;
    }
    let mut acc: u64 = 0;
    let mut i: usize = start;
    assert(d.take(0) =~= Seq::<u8>::empty());
    while i < n
        invariant
            n == tok@.len(),
            start <= i <= n,
            d == tok@.subrange(start as int, n as int),
            neg == (signed && tok@.len() > 0 && tok@[0] == 0x2D),
            !(tok@.len() == 1 && (tok@[0] == 0x2B || tok@[0] == 0x2D)),
            d == (if tok@.len() > 0 && (tok@[0] == 0x2B || neg) {
                tok@.drop_first()
            } else {
                tok@
            }),
            d.len() > 0,
            -0x1_0000_0000 <= min,
            max <= 0x1_0000_0000,
            bytes_all_digits(d.take(i - start)),
            acc == decimal_value(d.take(i - start)),
            acc <= 0x2_0000_0000,
        decreases n - i,
    {
        let b = tok[i];
        assert(d.take(i - start + 1).drop_last() =~= d.take(i - start));
        assert(d.take(i - start + 1).last() == b);
        if !(0x30 <= b && b <= 0x39) {
            assert(!byte_is_digit(d[i - start]));
            return None;
        }
        acc = acc * 10 + (b - 0x30) as u64;
        i = i + 1;
        assert forall|k: int| 0 <= k < d.take(i - start).len() implies #[trigger] byte_is_digit(
            d.take(i - start)[k],
        ) by {
            if k < i - start - 1 {
                assert(d.take(i - start)[k] == d.take(i - start - 1)[k]);
            }
        }
        if acc > 0x1_0000_0000 {
            proof {
                lemma_decimal_value_prefix(d, i - start);
            }
            return None;
        }
    }
    assert(d.take(n - start) =~= d);
    let v: i64 = if neg {
        -(acc as i64)
    } else {
        acc as i64
    };
    if min <= v && v <= max {
        Some(v)
    } else {
        None
    }
}

/// Reads scalars from an ASCII body: whitespace-separated decimal tokens.
#[derive(Debug, Clone, Copy)]
pub struct AsciiValReader {}

impl AsciiValReader {
    pub fn new() -> AsciiValReader {
        AsciiValReader {}
    }

    /// Sizes are not fixed in ASCII: there is none to tell.
    pub fn scalar_byte_size(&self, t: ScalarType) -> (r: Option<usize>)
        ensures
            r is None,
    {
        None
    }

    /// Read the next whitespace-delimited token at `pos`, consuming the one
    /// whitespace byte that ends it; returns the token and the position after it.
    pub fn read_ascii_token(data: &[u8], pos: usize) -> (r: Result<(Vec<u8>, usize), DeserializeError>)
        requires
            pos <= data@.len(),
        ensures
            match spec_token(data@.skip(pos as int)) {
                Some((t, n)) => r matches Ok((tok, next)) && tok@ == t && next == pos + n,
                None => r matches Err(e) && e@ == PlyError::UnexpectedEof,
            },
    {
        let len = data.len();
        let mut i = pos;
        while i < len && is_ascii_whitespace(data[i])
            invariant
                len == data@.len(),
                pos <= i <= len,
                spec_token(data@.skip(pos as int)) == (match spec_token(data@.skip(i as int)) {
                    Some((t, n)) => Some((t, (n + (i - pos)) as nat)),
                    None => None,
                }),
            decreases len - i,
        {
            assert(data@.skip(i as int).drop_first() =~= data@.skip(i + 1));
            i = i + 1;
        }
        if i == len {
            assert(data@.skip(i as int).len() == 0);
            return Err(DeserializeError::UnexpectedEof);
        }
        let start = i;
        let ghost w = data@.skip(start as int);
        while i < len && !is_ascii_whitespace(data[i])
            invariant
                len == data@.len(),
                start <= i <= len,
                w == data@.skip(start as int),
                start < len,
                !is_ascii_ws(data@[start as int]),
                word_len(w) == (i - start) + word_len(data@.skip(i as int)),
                forall|k: int| start <= k < i ==> !is_ascii_ws(#[trigger] data@[k]),
            decreases len - i,
        {
            assert(data@.skip(i as int).drop_first() =~= data@.skip(i + 1));
            i = i + 1;
        }
        if i == len {
            assert(data@.skip(i as int).len() == 0);
            return Err(DeserializeError::UnexpectedEof);
        }
        let mut tok: Vec<u8> = Vec::new();
        let mut k = start;
        while k < i
            invariant
                start <= k <= i < len,
                len == data@.len(),
                tok@ == data@.subrange(start as int, k as int),
            decreases i - k,
        {
            tok.push(data[k]);
            k = k + 1;
            assert(tok@ =~= data@.subrange(start as int, k as int));
        }
        assert(w.take((i - start) as int) =~= tok@);
        Ok((tok, i + 1))
    }

    /// Read an integer of type `t` at `pos`: a token that parses as a value in
    /// the type's range. Returns the value and the position after the token.
    pub fn read_int(&self, data: &[u8], pos: usize, t: ScalarType) -> (r: Result<
        (ScalarValue, usize),
        DeserializeError,
    >)
        requires
            pos <= data@.len(),
            !is_float(t),
        ensures
            match spec_token(data@.skip(pos as int)) {
                None => r matches Err(e) && e@ == PlyError::UnexpectedEof,
                Some((tok, n)) => match spec_ascii_int(tok, t) {
                    Some(v) => r == Ok::<(ScalarValue, usize), DeserializeError>(
                        (int_scalar(t, v), (pos + n) as usize),
                    ),
                    None => r matches Err(e) && e@ == PlyError::InvalidAscii(t),
                },
            },
    {
        let (tok, next) = match AsciiValReader::read_ascii_token(data, pos) {
            Ok(x) => x,
            Err(e) => {
                return Err(e);
            },
        };
        let (signed, min, max): (bool, i64, i64) = match t {
            ScalarType::I8 => (true, -0x80, 0x7F),
            ScalarType::U8 => (false, 0, 0xFF),
            ScalarType::I16 => (true, -0x8000, 0x7FFF),
            ScalarType::U16 => (false, 0, 0xFFFF),
            ScalarType::I32 => (true, -0x8000_0000, 0x7FFF_FFFF),
            _ => (false, 0, 0xFFFF_FFFF),
        };
        match parse_int(tok.as_slice(), signed, min, max) {
            None => Err(DeserializeError::InvalidAscii(t)),
            Some(v) => {
                let sv = match t {
                    ScalarType::I8 => ScalarValue::I8(v as i8),
                    ScalarType::U8 => ScalarValue::U8(v as u8),
                    ScalarType::I16 => ScalarValue::I16(v as i16),
                    ScalarType::U16 => ScalarValue::U16(v as u16),
                    ScalarType::I32 => ScalarValue::I32(v as i32),
                    _ => ScalarValue::U32(v as u32),
                };
                Ok((sv, next))
            },
        }
    }

    /// Read the count of a list, stored as an ASCII integer of type `t`.
    /// Floating-point count types and negative counts are errors.
    pub fn read_count(&self, data: &[u8], pos: usize, t: ScalarType) -> (r: Result<
        (usize, usize),
        DeserializeError,
    >)
        requires
            pos <= data@.len(),
        ensures
            if is_float(t) {
                r matches Err(e) && e@ == PlyError::FloatListCount
            } else {
                match spec_token(data@.skip(pos as int)) {
                    None => r matches Err(e) && e@ == PlyError::UnexpectedEof,
                    Some((tok, n)) => match spec_ascii_int(tok, t) {
                        Some(v) => if v < 0 {
                            r matches Err(e) && e@ == PlyError::NegativeListCount
                        } else {
                            r == Ok::<(usize, usize), DeserializeError>(
                                (v as usize, (pos + n) as usize),
                            )
                        },
                        None => r matches Err(e) && e@ == PlyError::InvalidAscii(t),
                    },
                }
            },
    {
        match t {
            ScalarType::F32 | ScalarType::F64 => {
                return Err(DeserializeError::FloatListCount);
            },
            _ => {},
        }
        let (v, next) = match self.read_int(data, pos, t) {
            Ok(x) => x,
            Err(e) => {
                return Err(e);
            },
        };
        let count: i64 = match v {
            ScalarValue::I8(x) => x as i64,
            ScalarValue::U8(x) => x as i64,
            ScalarValue::I16(x) => x as i64,
            ScalarValue::U16(x) => x as i64,
            ScalarValue::I32(x) => x as i64,
            ScalarValue::U32(x) => x as i64,
            ScalarValue::F32Bits(x) => x as i64,
            ScalarValue::F64Bits(_) => {
                return Err(DeserializeError::FloatListCount);
            },
        };
        if count < 0 {
            return Err(DeserializeError::NegativeListCount);
        }
        Ok((count as usize, next))
    }
}

} // verus!
