//! What holds across reading and writing: values come back as they were written.
use vstd::prelude::*;

use crate::bytes::{
    be_value, lemma_be_bytes_len, lemma_be_roundtrip, lemma_le_bytes_len, lemma_le_roundtrip,
    le_value, pow256, unsigned_of,
};
use crate::reader::{
    byte_digit_value, byte_is_digit, bytes_all_digits, decimal_value, endian_value, int_scalar,
    int_value, is_ascii_ws, is_float, is_signed, spec_ascii_int, spec_decode, spec_scalar_size,
    spec_token, type_max, type_min, type_of, word_len, Endian, ScalarValue,
};
use crate::types::ScalarType;
use crate::writer::{endian_bytes, spec_decimal, spec_digits, spec_encode};

verus! {

proof fn lemma_endian_roundtrip(e: Endian, n: nat, k: nat)
    requires
        n < pow256(k),
    ensures
        endian_value(e, endian_bytes(e, n, k)) == n,
        endian_bytes(e, n, k).len() == k,
{
    match e {
        Endian::Little => {
            lemma_le_roundtrip(n, k);
            lemma_le_bytes_len(n, k);
        },
        Endian::Big => {
            lemma_be_roundtrip(n, k);
            lemma_be_bytes_len(n, k);
        },
    }
}

/// Binary round trip: in either byte order, the bytes written for a scalar
/// are as many as its type's size, and reading them as that type gives the
/// scalar back.
pub proof fn lemma_binary_roundtrip(e: Endian, v: ScalarValue)
    ensures
        spec_encode(e, v).len() == spec_scalar_size(type_of(v)),
        spec_decode(e, type_of(v), spec_encode(e, v)) == v,
{
    assert(pow256(0) == 1);
    assert(pow256(1) == 0x100);
    assert(pow256(2) == 0x1_0000);
    assert(pow256(3) == 0x100_0000);
    assert(pow256(4) == 0x1_0000_0000);
    assert(pow256(5) == 0x1_00_0000_0000);
    assert(pow256(6) == 0x1_0000_0000_0000);
    assert(pow256(7) == 0x100_0000_0000_0000);
    assert(pow256(8) == 0x1_0000_0000_0000_0000);
    match v {
        ScalarValue::I8(x) => {},
        ScalarValue::U8(x) => {},
        ScalarValue::I16(x) => {
            lemma_endian_roundtrip(e, unsigned_of(x as int, 0x1_0000), 2);
        },
        ScalarValue::U16(x) => {
            lemma_endian_roundtrip(e, x as nat, 2);
        },
        ScalarValue::I32(x) => {
            lemma_endian_roundtrip(e, unsigned_of(x as int, 0x1_0000_0000), 4);
        },
        ScalarValue::U32(x) => {
            lemma_endian_roundtrip(e, x as nat, 4);
        },
        ScalarValue::F32Bits(x) => {
            lemma_endian_roundtrip(e, x as nat, 4);
        },
        ScalarValue::F64Bits(x) => {
            lemma_endian_roundtrip(e, x as nat, 8);
        },
    }
}

proof fn lemma_digits(n: nat)
    ensures
        spec_digits(n).len() > 0,
        bytes_all_digits(spec_digits(n)),
        decimal_value(spec_digits(n)) == n,
    decreases n,
{
    if n >= 10 {
        lemma_digits(n / 10);
        let s = spec_digits(n);
        assert(s.drop_last() =~= spec_digits(n / 10));
        assert(n == (n / 10) * 10 + n % 10) by (nonlinear_arith);
        assert(s.last() == (0x30 + n % 10) as u8);
        assert(byte_digit_value(s.last()) == n % 10);
        assert(decimal_value(s.drop_last()) == n / 10);
        assert(decimal_value(s) == decimal_value(s.drop_last()) * 10 + byte_digit_value(s.last()));
        assert forall|i: int| 0 <= i < s.len() implies #[trigger] byte_is_digit(s[i]) by {
            if i < s.len() - 1 {
                assert(s[i] == spec_digits(n / 10)[i]);
            }
        }
    } else {
        let s = spec_digits(n);
        assert(s.drop_last() =~= Seq::<u8>::empty());
        assert(s.last() == (0x30 + n) as u8);
        assert(byte_digit_value(s.last()) == n);
        assert(decimal_value(Seq::<u8>::empty()) == 0);
        assert(decimal_value(s) == decimal_value(s.drop_last()) * 10 + byte_digit_value(s.last()));
    }
}

/// ASCII round trip: the decimal text written for an integer value parses,
/// as its type, to the same value.
pub proof fn lemma_ascii_int_roundtrip(v: ScalarValue)
    requires
        !is_float(type_of(v)),
    ensures
        spec_ascii_int(spec_decimal(int_value(v)), type_of(v)) == Some(int_value(v)),
        int_scalar(type_of(v), int_value(v)) == v,
{
    let x = int_value(v);
    let t = type_of(v);
    assert(type_min(t) <= x <= type_max(t));
    assert(x < 0 ==> is_signed(t));
    if x < 0 {
        lemma_digits((-x) as nat);
        let s = spec_decimal(x);
        assert(s.drop_first() =~= spec_digits((-x) as nat));
    } else {
        lemma_digits(x as nat);
        let s = spec_decimal(x);
        assert(byte_is_digit(s[0]));
    }
}

proof fn lemma_word_len_field(t: Seq<u8>, rest: Seq<u8>)
    requires
        rest.len() > 0,
        is_ascii_ws(rest[0]),
        forall|i: int| 0 <= i < t.len() ==> !is_ascii_ws(#[trigger] t[i]),
    ensures
        word_len(t + rest) == t.len(),
    decreases t.len(),
{
    if t.len() > 0 {
        lemma_word_len_field(t.drop_first(), rest);
        assert((t + rest).drop_first() =~= t.drop_first() + rest);
    } else {
        assert(t + rest =~= rest);
    }
}

/// Fields read back as written: a non-empty field with no whitespace in it,
/// followed by a whitespace byte, is the next token, and reading it consumes
/// the field and that byte.
pub proof fn lemma_field_is_token(field: Seq<u8>, sep: u8, rest: Seq<u8>)
    requires
        field.len() > 0,
        forall|i: int| 0 <= i < field.len() ==> !is_ascii_ws(#[trigger] field[i]),
        is_ascii_ws(sep),
    ensures
        spec_token(field + seq![sep] + rest) == Some((field, field.len() + 1)),
{
    let s = field + seq![sep] + rest;
    assert(s =~= field + (seq![sep] + rest));
    lemma_word_len_field(field, seq![sep] + rest);
    assert(s.take(field.len() as int) =~= field);
    assert(s[0] == field[0]);
}

/// Whitespace before a token is skipped, and counted in what reading consumes.
pub proof fn lemma_token_skips_ws(sep: u8, s: Seq<u8>)
    requires
        is_ascii_ws(sep),
    ensures
        spec_token(seq![sep] + s) == (match spec_token(s) {
            Some((t, n)) => Some((t, n + 1)),
            None => None,
        }),
{
    assert((seq![sep] + s).drop_first() =~= s);
}


/// Fields separated by single spaces, as `AsciiValWriter::write_field` separates them.
pub open spec fn joined_fields(fs: Seq<Seq<u8>>) -> Seq<u8>
    decreases fs.len(),
{
    if fs.len() == 0 {
        Seq::empty()
    } else if fs.len() == 1 {
        fs[0]
    } else {
        fs[0] + seq![0x20u8] + joined_fields(fs.drop_first())
    }
}

/// Writing one more field after the fields of a row, as
/// `AsciiValWriter::write_field` does (a space first unless the row is
/// empty), gives the joined fields of the longer row.
pub proof fn lemma_joined_fields_push(fs: Seq<Seq<u8>>, f: Seq<u8>)
    ensures
        joined_fields(fs.push(f)) == joined_fields(fs) + (if fs.len() == 0 {
            Seq::<u8>::empty()
        } else {
            seq![0x20u8]
        }) + f,
    decreases fs.len(),
{
    if fs.len() == 0 {
        assert(fs.push(f).len() == 1);
        assert(joined_fields(fs) =~= Seq::<u8>::empty());
        assert(Seq::<u8>::empty() + Seq::<u8>::empty() + f =~= f);
    } else if fs.len() == 1 {
        let g = fs.push(f);
        assert(g.drop_first() =~= seq![f]);
        assert(joined_fields(seq![f]) == f);
        assert(joined_fields(g) == fs[0] + seq![0x20u8] + f);
    } else {
        let g = fs.push(f);
        assert(g.drop_first() =~= fs.drop_first().push(f));
        lemma_joined_fields_push(fs.drop_first(), f);
        assert(joined_fields(g) == fs[0] + seq![0x20u8] + joined_fields(fs.drop_first().push(f)));
        assert(joined_fields(fs) == fs[0] + seq![0x20u8] + joined_fields(fs.drop_first()));
        assert(joined_fields(g) =~= joined_fields(fs) + seq![0x20u8] + f);
    }
}

/// The bytes of an ASCII row: its fields separated by single spaces, then a newline.
pub open spec fn ascii_row(fs: Seq<Seq<u8>>) -> Seq<u8> {
    joined_fields(fs) + seq![0x0Au8]
}

/// Reading `k` tokens one after the other.
pub open spec fn spec_tokens(s: Seq<u8>, k: nat) -> Option<Seq<Seq<u8>>>
    decreases k,
{
    if k == 0 {
        Some(Seq::empty())
    } else {
        match spec_token(s) {
            Some((t, n)) => match spec_tokens(s.skip(n as int), (k - 1) as nat) {
                Some(ts) => Some(seq![t] + ts),
                None => None,
            },
            None => None,
        }
    }
}

/// A non-empty field with no whitespace in it.
pub open spec fn is_field(f: Seq<u8>) -> bool {
    f.len() > 0 && forall|i: int| 0 <= i < f.len() ==> !is_ascii_ws(#[trigger] f[i])
}

/// ASCII rows read back as written: reading as many tokens as a row has
/// fields, from the row and whatever follows it, gives back its fields.
pub proof fn lemma_ascii_row_roundtrip(fs: Seq<Seq<u8>>, rest: Seq<u8>)
    requires
        forall|k: int| 0 <= k < fs.len() ==> is_field(#[trigger] fs[k]),
    ensures
        spec_tokens(ascii_row(fs) + rest, fs.len()) == Some(fs),
    decreases fs.len(),
{
    if fs.len() == 0 {
        assert(Seq::<Seq<u8>>::empty() =~= fs);
    } else {
        let f = fs[0];
        let tail = fs.drop_first();
        assert(is_field(f));
        let after = if fs.len() == 1 {
            rest
        } else {
            ascii_row(tail) + rest
        };
        let sep: u8 = if fs.len() == 1 {
            0x0A
        } else {
            0x20
        };
        if fs.len() == 1 {
            assert(ascii_row(fs) + rest =~= f + seq![sep] + after);
        } else {
            assert(joined_fields(fs) == f + seq![0x20u8] + joined_fields(tail));
            assert(ascii_row(fs) + rest =~= f + seq![sep] + after);
        }
        lemma_field_is_token(f, sep, after);
        assert((f + seq![sep] + after).skip((f.len() + 1) as int) =~= after);
        assert forall|k: int| 0 <= k < tail.len() implies is_field(#[trigger] tail[k]) by {
            assert(tail[k] == fs[k + 1]);
        }
        if fs.len() == 1 {
            assert(tail =~= Seq::<Seq<u8>>::empty());
        } else {
            lemma_ascii_row_roundtrip(tail, rest);
        }
        assert(spec_tokens(after, tail.len()) == Some(tail));
        assert(seq![f] + tail =~= fs);
        let s = ascii_row(fs) + rest;
        assert(spec_token(s) == Some((f, (f.len() + 1) as nat)));
        assert(s.skip((f.len() + 1) as int) =~= after);
        assert(spec_tokens(s, fs.len()) == Some(seq![f] + tail));
    }
}

/// Binary scalars are read in the body's byte order: in a big-endian body the
/// first byte of a value is its most significant, in a little-endian body its
/// least; signed types are two's complement; floating-point types keep the
/// bits read.
pub proof fn lemma_decode_byte_order(s: Seq<u8>)
    ensures
        s.len() >= 1 ==> {
            &&& spec_decode(Endian::Big, ScalarType::U8, s) == ScalarValue::U8(s[0])
            &&& spec_decode(Endian::Little, ScalarType::U8, s) == ScalarValue::U8(s[0])
            &&& spec_decode(Endian::Big, ScalarType::I8, s) == ScalarValue::I8(
                (if s[0] >= 0x80 { s[0] - 0x100 } else { s[0] as int }) as i8,
            )
            &&& spec_decode(Endian::Little, ScalarType::I8, s) == ScalarValue::I8(
                (if s[0] >= 0x80 { s[0] - 0x100 } else { s[0] as int }) as i8,
            )
        },
        s.len() == 2 ==> {
            let be = s[0] * 0x100 + s[1];
            let le = s[1] * 0x100 + s[0];
            &&& spec_decode(Endian::Big, ScalarType::U16, s) == ScalarValue::U16(be as u16)
            &&& spec_decode(Endian::Little, ScalarType::U16, s) == ScalarValue::U16(le as u16)
            &&& spec_decode(Endian::Big, ScalarType::I16, s) == ScalarValue::I16(
                (if s[0] >= 0x80 { be - 0x1_0000 } else { be }) as i16,
            )
            &&& spec_decode(Endian::Little, ScalarType::I16, s) == ScalarValue::I16(
                (if s[1] >= 0x80 { le - 0x1_0000 } else { le }) as i16,
            )
        },
        s.len() == 4 ==> {
            let be = s[0] * 0x100_0000 + s[1] * 0x1_0000 + s[2] * 0x100 + s[3];
            let le = s[3] * 0x100_0000 + s[2] * 0x1_0000 + s[1] * 0x100 + s[0];
            &&& spec_decode(Endian::Big, ScalarType::U32, s) == ScalarValue::U32(be as u32)
            &&& spec_decode(Endian::Little, ScalarType::U32, s) == ScalarValue::U32(le as u32)
            &&& spec_decode(Endian::Big, ScalarType::F32, s) == ScalarValue::F32Bits(be as u32)
            &&& spec_decode(Endian::Little, ScalarType::F32, s) == ScalarValue::F32Bits(
                le as u32,
            )
            &&& spec_decode(Endian::Big, ScalarType::I32, s) == ScalarValue::I32(
                (if s[0] >= 0x80 { be - 0x1_0000_0000 } else { be }) as i32,
            )
            &&& spec_decode(Endian::Little, ScalarType::I32, s) == ScalarValue::I32(
                (if s[3] >= 0x80 { le - 0x1_0000_0000 } else { le }) as i32,
            )
        },
        s.len() == 8 ==> {
            let be = s[0] * 0x100_0000_0000_0000 + s[1] * 0x1_0000_0000_0000 + s[2]
                * 0x100_0000_0000 + s[3] * 0x1_0000_0000 + s[4] * 0x100_0000 + s[5] * 0x1_0000
                + s[6] * 0x100 + s[7];
            let le = s[7] * 0x100_0000_0000_0000 + s[6] * 0x1_0000_0000_0000 + s[5]
                * 0x100_0000_0000 + s[4] * 0x1_0000_0000 + s[3] * 0x100_0000 + s[2] * 0x1_0000
                + s[1] * 0x100 + s[0];
            &&& spec_decode(Endian::Big, ScalarType::F64, s) == ScalarValue::F64Bits(be as u64)
            &&& spec_decode(Endian::Little, ScalarType::F64, s) == ScalarValue::F64Bits(
                le as u64,
            )
        },
{
    reveal_with_fuel(be_value, 9);
    reveal_with_fuel(le_value, 9);
    if s.len() == 2 {
        assert(s.drop_last() =~= seq![s[0]]);
        assert(seq![s[0]].drop_last() =~= Seq::<u8>::empty());
        assert(s.drop_first() =~= seq![s[1]]);
        assert(seq![s[1]].drop_first() =~= Seq::<u8>::empty());
    }
    if s.len() == 4 {
        let a = s.drop_last();
        let b = a.drop_last();
        let c = b.drop_last();
        assert(a =~= seq![s[0], s[1], s[2]]);
        assert(b =~= seq![s[0], s[1]]);
        assert(c =~= seq![s[0]]);
        assert(c.drop_last() =~= Seq::<u8>::empty());
        let d = s.drop_first();
        let e = d.drop_first();
        let f = e.drop_first();
        assert(d =~= seq![s[1], s[2], s[3]]);
        assert(e =~= seq![s[2], s[3]]);
        assert(f =~= seq![s[3]]);
        assert(f.drop_first() =~= Seq::<u8>::empty());
    }
    if s.len() == 8 {
        let a1 = s.drop_last();
        let a2 = a1.drop_last();
        let a3 = a2.drop_last();
        let a4 = a3.drop_last();
        let a5 = a4.drop_last();
        let a6 = a5.drop_last();
        let a7 = a6.drop_last();
        assert(a7 =~= seq![s[0]]);
        assert(a7.drop_last() =~= Seq::<u8>::empty());
        assert(be_value(a7) == s[0]);
        assert(be_value(a6) == s[0] * 0x100 + s[1]);
        assert(be_value(a5) == (s[0] * 0x100 + s[1]) * 0x100 + s[2]);
        assert(be_value(a4) == ((s[0] * 0x100 + s[1]) * 0x100 + s[2]) * 0x100 + s[3]);
        let b1 = s.drop_first();
        let b2 = b1.drop_first();
        let b3 = b2.drop_first();
        let b4 = b3.drop_first();
        let b5 = b4.drop_first();
        let b6 = b5.drop_first();
        let b7 = b6.drop_first();
        assert(b7 =~= seq![s[7]]);
        assert(b7.drop_first() =~= Seq::<u8>::empty());
        assert(le_value(b7) == s[7]);
        assert(le_value(b6) == s[6] + 0x100 * s[7]);
        assert(le_value(b5) == s[5] + 0x100 * (s[6] + 0x100 * s[7]));
        assert(le_value(b4) == s[4] + 0x100 * (s[5] + 0x100 * (s[6] + 0x100 * s[7])));
    }
}

/// Binary scalars are written in the body's byte order: in a big-endian body
/// the most significant byte comes first, in a little-endian body the least;
/// signed values are written as their two's complement, floating-point values
/// as their bits.
pub proof fn lemma_encode_byte_order(v: ScalarValue)
    ensures
        ({
            let b = spec_encode(Endian::Big, v);
            let l = spec_encode(Endian::Little, v);
            match v {
                ScalarValue::I8(x) => b == l && b == seq![unsigned_of(x as int, 0x100) as u8],
                ScalarValue::U8(x) => b == l && b == seq![x],
                ScalarValue::I16(x) => b.len() == 2 && l.len() == 2 && b[0] * 0x100 + b[1]
                    == unsigned_of(x as int, 0x1_0000) && l[1] * 0x100 + l[0] == unsigned_of(
                    x as int,
                    0x1_0000,
                ),
                ScalarValue::U16(x) => b.len() == 2 && l.len() == 2 && b[0] * 0x100 + b[1] == x
                    && l[1] * 0x100 + l[0] == x,
                ScalarValue::I32(x) => b.len() == 4 && l.len() == 4 && b[0] * 0x100_0000 + b[1]
                    * 0x1_0000 + b[2] * 0x100 + b[3] == unsigned_of(x as int, 0x1_0000_0000) && l[3]
                    * 0x100_0000 + l[2] * 0x1_0000 + l[1] * 0x100 + l[0] == unsigned_of(
                    x as int,
                    0x1_0000_0000,
                ),
                ScalarValue::U32(x) => b.len() == 4 && l.len() == 4 && b[0] * 0x100_0000 + b[1]
                    * 0x1_0000 + b[2] * 0x100 + b[3] == x && l[3] * 0x100_0000 + l[2] * 0x1_0000
                    + l[1] * 0x100 + l[0] == x,
                ScalarValue::F32Bits(x) => b.len() == 4 && l.len() == 4 && b[0] * 0x100_0000
                    + b[1] * 0x1_0000 + b[2] * 0x100 + b[3] == x && l[3] * 0x100_0000 + l[2]
                    * 0x1_0000 + l[1] * 0x100 + l[0] == x,
                ScalarValue::F64Bits(x) => b.len() == 8 && l.len() == 8 && b[0]
                    * 0x100_0000_0000_0000 + b[1] * 0x1_0000_0000_0000 + b[2] * 0x100_0000_0000
                    + b[3] * 0x1_0000_0000 + b[4] * 0x100_0000 + b[5] * 0x1_0000 + b[6] * 0x100
                    + b[7] == x && l[7] * 0x100_0000_0000_0000 + l[6] * 0x1_0000_0000_0000 + l[5]
                    * 0x100_0000_0000 + l[4] * 0x1_0000_0000 + l[3] * 0x100_0000 + l[2] * 0x1_0000
                    + l[1] * 0x100 + l[0] == x,
            }
        }),
{
    let b = spec_encode(Endian::Big, v);
    let l = spec_encode(Endian::Little, v);
    lemma_binary_roundtrip(Endian::Big, v);
    lemma_binary_roundtrip(Endian::Little, v);
    lemma_decode_byte_order(b);
    lemma_decode_byte_order(l);
}

/// A token of an ASCII body ends at a space, tab, line feed, form feed or
/// carriage return (the bytes `u8::is_ascii_whitespace` accepts) and at no
/// other byte: after a field of printable, non-space bytes, a byte `b` ends the
/// token exactly when it is one of those five, and is part of it otherwise.
/// The same five bytes are skipped before a token.
pub proof fn lemma_ascii_token_separators(field: Seq<u8>, b: u8, rest: Seq<u8>)
    requires
        field.len() > 0,
        forall|i: int| 0 <= i < field.len() ==> 0x21 <= #[trigger] field[i] <= 0x7E,
    ensures
        ({
            let sep = b == 0x20 || b == 0x09 || b == 0x0A || b == 0x0C || b == 0x0D;
            &&& sep ==> spec_token(field + seq![b] + rest) == Some((field, field.len() + 1))
            &&& !sep ==> spec_token(field + seq![b] + seq![0x20u8] + rest) == Some(
                (field.push(b), field.len() + 2),
            )
            &&& sep ==> spec_token(seq![b] + field + seq![0x20u8] + rest) == Some(
                (field, field.len() + 2),
            )
        }),
{
    let sep = b == 0x20 || b == 0x09 || b == 0x0A || b == 0x0C || b == 0x0D;
    assert(is_ascii_ws(b) == sep);
    assert forall|i: int| 0 <= i < field.len() implies !is_ascii_ws(#[trigger] field[i]) by {
        assert(0x21 <= field[i] <= 0x7E);
    }
    if sep {
        lemma_field_is_token(field, b, rest);
        lemma_field_is_token(field, 0x20u8, rest);
        lemma_token_skips_ws(b, field + seq![0x20u8] + rest);
        assert(seq![b] + field + seq![0x20u8] + rest =~= seq![b] + (field + seq![0x20u8] + rest));
    } else {
        let f2 = field.push(b);
        assert forall|i: int| 0 <= i < f2.len() implies !is_ascii_ws(#[trigger] f2[i]) by {
            if i < field.len() {
                assert(f2[i] == field[i]);
            }
        }
        lemma_field_is_token(f2, 0x20u8, rest);
        assert(field + seq![b] + seq![0x20u8] + rest =~= f2 + seq![0x20u8] + rest);
    }
}

} // verus!
