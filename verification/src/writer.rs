//! Writing scalar values into the body of a PLY file, in binary or ASCII encoding.
use vstd::prelude::*;

use crate::bytes::{
    be_bytes, be_write_i16, be_write_i32, be_write_u16, be_write_u32, be_write_u64, le_bytes,
    le_write_i16, le_write_i32, le_write_u16, le_write_u32, le_write_u64, unsigned_of,
};
use crate::reader::{int_value, is_float, type_max, type_of, Endian, ScalarValue};
use crate::types::ScalarType;

verus! {

/// The `k` low bytes of `n` in a byte order.
pub open spec fn endian_bytes(e: Endian, n: nat, k: nat) -> Seq<u8> {
    match e {
        Endian::Little => le_bytes(n, k),
        Endian::Big => be_bytes(n, k),
    }
}

/// The bytes that encode a scalar in a binary body.
pub open spec fn spec_encode(e: Endian, v: ScalarValue) -> Seq<u8> {
    match v {
        ScalarValue::I8(x) => seq![unsigned_of(x as int, 0x100) as u8],
        ScalarValue::U8(x) => seq![x],
        ScalarValue::I16(x) => endian_bytes(e, unsigned_of(x as int, 0x1_0000), 2),
        ScalarValue::U16(x) => endian_bytes(e, x as nat, 2),
        ScalarValue::I32(x) => endian_bytes(e, unsigned_of(x as int, 0x1_0000_0000), 4),
        ScalarValue::U32(x) => endian_bytes(e, x as nat, 4),
        ScalarValue::F32Bits(x) => endian_bytes(e, x as nat, 4),
        ScalarValue::F64Bits(x) => endian_bytes(e, x as nat, 8),
    }
}

/// The decimal digits of `n`, most significant first, without leading zeros.
pub open spec fn spec_digits(n: nat) -> Seq<u8>
    decreases n,
{
    if n < 10 {
        seq![(0x30 + n) as u8]
    } else {
        spec_digits(n / 10).push((0x30 + n % 10) as u8)
    }
}

/// An integer as `Display` writes it: a `-` for negative numbers, then its digits.
pub open spec fn spec_decimal(v: int) -> Seq<u8> {
    if v < 0 {
        seq![0x2Du8] + spec_digits((-v) as nat)
    } else {
        spec_digits(v as nat)
    }
}

fn push_all(out: &mut Vec<u8>, b: &[u8])
    ensures
        final(out)@ == old(out)@ + b@,
{
    let mut i: usize = 0;
    while i < b.len()
        invariant
            i <= b@.len(),
            out@ == old(out)@ + b@.subrange(0, i as int),
        decreases b.len() - i,
    {
        out.push(b[i]);
        i = i + 1;
        assert(out@ =~= old(out)@ + b@.subrange(0, i as int));
    }
    assert(b@.subrange(0, b@.len() as int) =~= b@);
}

fn push_digits(out: &mut Vec<u8>, n: u64)
    ensures
        final(out)@ == old(out)@ + spec_digits(n as nat),
    decreases n,
{
    if n >= 10 {
        push_digits(out, n / 10);
    }
    out.push((0x30 + n % 10) as u8);
    assert(out@ =~= old(out)@ + spec_digits(n as nat));
}

/// The decimal text of an integer, as `Display` writes it.
pub fn decimal_text(v: i64) -> (r: Vec<u8>)
    ensures
        r@ == spec_decimal(v as int),
{
    let mut out: Vec<u8> = Vec::new();
    if v < 0 {
        out.push(0x2D);
        push_digits(&mut out, (0 - (v as i128)) as u64);
    } else {
        push_digits(&mut out, v as u64);
    }
    assert(out@ =~= spec_decimal(v as int));
    out
}

/// The count of a list of `n` items, as a value of the count type `t`;
/// `None` when the type is floating-point or too small to hold `n`.
pub fn list_count_value(t: ScalarType, n: usize) -> (r: Option<ScalarValue>)
    ensures
        match r {
            Some(v) => !is_float(t) && n <= type_max(t) && type_of(v) == t && int_value(v) == n,
            None => is_float(t) || n > type_max(t),
        },
{
    match t {
        ScalarType::I8 => if n <= 0x7F {
            Some(ScalarValue::I8(n as i8))
        } else {
            None
        },
        ScalarType::U8 => if n <= 0xFF {
            Some(ScalarValue::U8(n as u8))
        } else {
            None
        },
        ScalarType::I16 => if n <= 0x7FFF {
            Some(ScalarValue::I16(n as i16))
        } else {
            None
        },
        ScalarType::U16 => if n <= 0xFFFF {
            Some(ScalarValue::U16(n as u16))
        } else {
            None
        },
        ScalarType::I32 => if n <= 0x7FFF_FFFF {
            Some(ScalarValue::I32(n as i32))
        } else {
            None
        },
        ScalarType::U32 => if n <= 0xFFFF_FFFF {
            Some(ScalarValue::U32(n as u32))
        } else {
            None
        },
        ScalarType::F32 | ScalarType::F64 => None,
    }
}

/// Writes scalars into a binary body in one byte order.
pub struct BinValWriter {
    endian: Endian,
    out: Vec<u8>,
}

impl BinValWriter {
    /// The bytes written and not yet taken.
    pub closed spec fn written(&self) -> Seq<u8> {
        self.out@
    }

    /// The byte order it writes in.
    pub closed spec fn byte_order(&self) -> Endian {
        self.endian
    }

    pub fn new(endian: Endian) -> (r: BinValWriter)
        ensures
            r.byte_order() == endian,
            r.written() == Seq::<u8>::empty(),
    {
        BinValWriter { endian, out: Vec::new() }
    }

    /// Append the encoding of a scalar.
    pub fn write_scalar(&mut self, v: ScalarValue)
        ensures
            final(self).byte_order() == old(self).byte_order(),
            final(self).written() == old(self).written() + spec_encode(old(self).byte_order(), v),
    {
        let little = match self.endian {
            Endian::Little => true,
            Endian::Big => false,
        };
        match v {
            ScalarValue::I8(x) => {
                let b: u8 = if x < 0 {
                    (x as i16 + 256) as u8
                } else {
                    x as u8
                };
                self.out.push(b);
                assert(seq![b] =~= spec_encode(self.endian, v));
            },
            ScalarValue::U8(x) => {
                self.out.push(x);
                assert(seq![x] =~= spec_encode(self.endian, v));
            },
            ScalarValue::I16(x) => {
                let b = if little {
                    le_write_i16(x)
                } else {
                    be_write_i16(x)
                };
                push_all(&mut self.out, &b);
            },
            ScalarValue::U16(x) => {
                let b = if little {
                    le_write_u16(x)
                } else {
                    be_write_u16(x)
                };
                push_all(&mut self.out, &b);
            },
            ScalarValue::I32(x) => {
                let b = if little {
                    le_write_i32(x)
                } else {
                    be_write_i32(x)
                };
                push_all(&mut self.out, &b);
            },
            ScalarValue::U32(x) => {
                let b = if little {
                    le_write_u32(x)
                } else {
                    be_write_u32(x)
                };
                push_all(&mut self.out, &b);
            },
            ScalarValue::F32Bits(x) => {
                let b = if little {
                    le_write_u32(x)
                } else {
                    be_write_u32(x)
                };
                push_all(&mut self.out, &b);
            },
            ScalarValue::F64Bits(x) => {
                let b = if little {
                    le_write_u64(x)
                } else {
                    be_write_u64(x)
                };
                push_all(&mut self.out, &b);
            },
        }
    }

    /// The end of a row: binary rows have no separator.
    pub fn write_row_end(&mut self)
        ensures
            final(self).byte_order() == old(self).byte_order(),
            final(self).written() == old(self).written(),
    {
    }

    /// Hand over the bytes written so far.
    pub fn take_bytes(&mut self) -> (r: Vec<u8>)
        ensures
            r@ == old(self).written(),
            final(self).byte_order() == old(self).byte_order(),
            final(self).written() == Seq::<u8>::empty(),
    {
        let mut r: Vec<u8> = Vec::new();
        std::mem::swap(&mut r, &mut self.out);
        r
    }
}

/// Writes scalars into an ASCII body: fields of a row separated by one
/// space, rows ended by a newline.
pub struct AsciiValWriter {
    out: Vec<u8>,
    first_in_row: bool,
}

impl AsciiValWriter {
    /// The bytes written and not yet taken.
    pub closed spec fn written(&self) -> Seq<u8> {
        self.out@
    }

    /// Whether no field of the current row has been written.
    pub closed spec fn at_row_start(&self) -> bool {
        self.first_in_row
    }

    pub fn new() -> (r: AsciiValWriter)
        ensures
            r.written() == Seq::<u8>::empty(),
            r.at_row_start(),
    {
        AsciiValWriter { out: Vec::new(), first_in_row: true }
    }

    /// Append one field: a space first, unless it is the first of its row.
    pub fn write_field(&mut self, text: &[u8])
        ensures
            final(self).written() == old(self).written() + (if old(self).at_row_start() {
                Seq::<u8>::empty()
            } else {
                seq![0x20u8]
            }) + text@,
            !final(self).at_row_start(),
    {
        if !self.first_in_row {
            self.out.push(0x20);
        }
        self.first_in_row = false;
        push_all(&mut self.out, text);
        assert(self.out@ =~= old(self).out@ + (if old(self).first_in_row {
            Seq::<u8>::empty()
        } else {
            seq![0x20u8]
        }) + text@);
    }

    /// Append an integer field in decimal.
    pub fn write_int(&mut self, v: ScalarValue)
        requires
            !is_float(type_of(v)),
        ensures
            final(self).written() == old(self).written() + (if old(self).at_row_start() {
                Seq::<u8>::empty()
            } else {
                seq![0x20u8]
            }) + spec_decimal(int_value(v)),
            !final(self).at_row_start(),
    {
        let x: i64 = match v {
            ScalarValue::I8(x) => x as i64,
            ScalarValue::U8(x) => x as i64,
            ScalarValue::I16(x) => x as i64,
            ScalarValue::U16(x) => x as i64,
            ScalarValue::I32(x) => x as i64,
            ScalarValue::U32(x) => x as i64,
            ScalarValue::F32Bits(x) => x as i64,
            ScalarValue::F64Bits(x) => 0,
        };
        let text = decimal_text(x);
        self.write_field(text.as_slice());
    }

    /// End the current row with a newline.
    pub fn write_row_end(&mut self)
        ensures
            final(self).written() == old(self).written().push(0x0Au8),
            final(self).at_row_start(),
    {
        self.out.push(0x0A);
        self.first_in_row = true;
    }

    /// Hand over the bytes written so far.
    pub fn take_bytes(&mut self) -> (r: Vec<u8>)
        ensures
            r@ == old(self).written(),
            final(self).at_row_start() == old(self).at_row_start(),
            final(self).written() == Seq::<u8>::empty(),
    {
        let mut r: Vec<u8> = Vec::new();
        std::mem::swap(&mut r, &mut self.out);
        r
    }
}

} // verus!
