use serde_ply::{
    decimal_text, list_count_value, AsciiValReader, AsciiValWriter, BinValReader, BinValWriter, DeserializeError,
    Endian, ScalarType, ScalarValue,
};

fn all_values() -> Vec<ScalarValue> {
    vec![
        ScalarValue::I8(-42),
        ScalarValue::I8(127),
        ScalarValue::I8(-128),
        ScalarValue::U8(255),
        ScalarValue::U8(0),
        ScalarValue::I16(-1000),
        ScalarValue::I16(32767),
        ScalarValue::U16(65000),
        ScalarValue::I32(-100000),
        ScalarValue::I32(2147483647),
        ScalarValue::I32(-2147483648),
        ScalarValue::U32(4000000000),
        ScalarValue::F32Bits(3.0f32.to_bits()),
        ScalarValue::F32Bits((-1.5f32).to_bits()),
        ScalarValue::F64Bits(2.5f64.to_bits()),
        ScalarValue::F64Bits(1e-10f64.to_bits()),
    ]
}

fn type_of(v: ScalarValue) -> ScalarType {
    match v {
        ScalarValue::I8(_) => ScalarType::I8,
        ScalarValue::U8(_) => ScalarType::U8,
        ScalarValue::I16(_) => ScalarType::I16,
        ScalarValue::U16(_) => ScalarType::U16,
        ScalarValue::I32(_) => ScalarType::I32,
        ScalarValue::U32(_) => ScalarType::U32,
        ScalarValue::F32Bits(_) => ScalarType::F32,
        ScalarValue::F64Bits(_) => ScalarType::F64,
    }
}

#[test]
fn binary_read_little_endian() {
    let r = BinValReader::new(Endian::Little);
    let data = [0x34u8, 0x12, 0xff, 0xff, 0xff, 0xff];
    assert_eq!(r.read_scalar(&data, 0, ScalarType::U16).unwrap(), (ScalarValue::U16(0x1234), 2));
    assert_eq!(r.read_scalar(&data, 2, ScalarType::I16).unwrap(), (ScalarValue::I16(-1), 4));
    assert_eq!(r.read_scalar(&data, 2, ScalarType::U32).unwrap().0, ScalarValue::U32(0xffff_ffff));
    assert_eq!(r.read_scalar(&data, 0, ScalarType::U32).unwrap().0, ScalarValue::U32(0xffff_1234));
    assert_eq!(r.read_scalar(&data, 0, ScalarType::I32).unwrap().0, ScalarValue::I32(-0xedcc));
    assert_eq!(r.read_scalar(&data, 2, ScalarType::I8).unwrap(), (ScalarValue::I8(-1), 3));
    assert_eq!(r.read_scalar(&data, 1, ScalarType::U8).unwrap(), (ScalarValue::U8(0x12), 2));
}

#[test]
fn binary_read_big_endian() {
    let r = BinValReader::new(Endian::Big);
    let data = [0x12u8, 0x34, 0x56, 0x78, 0x9a, 0xbc, 0xde, 0xf0];
    assert_eq!(r.read_scalar(&data, 0, ScalarType::U16).unwrap(), (ScalarValue::U16(0x1234), 2));
    assert_eq!(r.read_scalar(&data, 0, ScalarType::U32).unwrap().0, ScalarValue::U32(0x1234_5678));
    assert_eq!(r.read_scalar(&data, 4, ScalarType::I16).unwrap().0, ScalarValue::I16(-0x6544));
    assert_eq!(r.read_scalar(&data, 4, ScalarType::I32).unwrap().0, ScalarValue::I32(-0x6543_2110));
    assert_eq!(
        r.read_scalar(&data, 0, ScalarType::F64).unwrap(),
        (ScalarValue::F64Bits(0x1234_5678_9abc_def0), 8)
    );
}

#[test]
fn binary_read_floats() {
    let mut data = Vec::new();
    data.extend_from_slice(&1.5f32.to_le_bytes());
    data.extend_from_slice(&2.5f64.to_be_bytes());
    let le = BinValReader::new(Endian::Little);
    let be = BinValReader::new(Endian::Big);
    match le.read_scalar(&data, 0, ScalarType::F32).unwrap() {
        (ScalarValue::F32Bits(b), 4) => assert_eq!(f32::from_bits(b), 1.5),
        _ => panic!("expected an f32"),
    }
    match be.read_scalar(&data, 4, ScalarType::F64).unwrap() {
        (ScalarValue::F64Bits(b), 12) => assert_eq!(f64::from_bits(b), 2.5),
        _ => panic!("expected an f64"),
    }
}

#[test]
fn binary_read_past_end() {
    let r = BinValReader::new(Endian::Little);
    let data = [1u8, 2, 3];
    assert!(matches!(r.read_scalar(&data, 0, ScalarType::U32), Err(DeserializeError::UnexpectedEof)));
    assert!(matches!(r.read_scalar(&data, 2, ScalarType::U16), Err(DeserializeError::UnexpectedEof)));
    assert!(matches!(r.read_scalar(&data, 5, ScalarType::U8), Err(DeserializeError::UnexpectedEof)));
    assert!(r.read_scalar(&data, 1, ScalarType::U16).is_ok());
}

#[test]
fn binary_write_bytes() {
    let mut w = BinValWriter::new(Endian::Little);
    w.write_scalar(ScalarValue::U16(0x1234));
    w.write_scalar(ScalarValue::I16(-2));
    w.write_scalar(ScalarValue::I8(-1));
    w.write_scalar(ScalarValue::U32(0x0102_0304));
    w.write_row_end();
    assert_eq!(w.take_bytes(), vec![0x34, 0x12, 0xfe, 0xff, 0xff, 4, 3, 2, 1]);
    assert!(w.take_bytes().is_empty());
    let mut b = BinValWriter::new(Endian::Big);
    b.write_scalar(ScalarValue::U16(0x1234));
    b.write_scalar(ScalarValue::I32(-2));
    b.write_scalar(ScalarValue::F64Bits(0x0102_0304_0506_0708));
    assert_eq!(
        b.take_bytes(),
        vec![0x12, 0x34, 0xff, 0xff, 0xff, 0xfe, 1, 2, 3, 4, 5, 6, 7, 8]
    );
}

#[test]
fn binary_roundtrip_all_types() {
    for e in [Endian::Little, Endian::Big] {
        let mut w = BinValWriter::new(e);
        for v in all_values() {
            w.write_scalar(v);
        }
        let bytes = w.take_bytes();
        let r = BinValReader::new(e);
        let mut pos = 0;
        for v in all_values() {
            let (got, next) = r.read_scalar(&bytes, pos, type_of(v)).unwrap();
            assert_eq!(got, v);
            pos = next;
        }
        assert_eq!(pos, bytes.len());
    }
}

#[test]
fn binary_byte_sizes() {
    let r = BinValReader::new(Endian::Little);
    assert_eq!(r.scalar_byte_size(ScalarType::I8), Some(1));
    assert_eq!(r.scalar_byte_size(ScalarType::U16), Some(2));
    assert_eq!(r.scalar_byte_size(ScalarType::F32), Some(4));
    assert_eq!(r.scalar_byte_size(ScalarType::F64), Some(8));
    assert_eq!(AsciiValReader::new().scalar_byte_size(ScalarType::F64), None);
}

#[test]
fn binary_list_counts() {
    let r = BinValReader::new(Endian::Little);
    assert_eq!(r.read_count(&[5u8], 0, ScalarType::U8).unwrap(), (5, 1));
    assert_eq!(r.read_count(&[0x2c, 0x01], 0, ScalarType::U16).unwrap(), (300, 2));
    assert!(matches!(r.read_count(&[0xff], 0, ScalarType::I8), Err(DeserializeError::NegativeListCount)));
    assert!(matches!(
        r.read_count(&[0, 0, 0, 0], 0, ScalarType::F32),
        Err(DeserializeError::FloatListCount)
    ));
    assert!(matches!(r.read_count(&[1u8], 0, ScalarType::U32), Err(DeserializeError::UnexpectedEof)));
}

#[test]
fn ascii_tokens() {
    let data = b"  12\t-34\n  x";
    let (t, n) = AsciiValReader::read_ascii_token(data, 0).unwrap();
    assert_eq!(t, b"12".to_vec());
    assert_eq!(n, 5);
    let (t, n) = AsciiValReader::read_ascii_token(data, n).unwrap();
    assert_eq!(t, b"-34".to_vec());
    assert_eq!(n, 9);
    // The last token runs into the end of the input.
    assert!(matches!(AsciiValReader::read_ascii_token(data, n), Err(DeserializeError::UnexpectedEof)));
    assert!(matches!(AsciiValReader::read_ascii_token(b"   ", 0), Err(DeserializeError::UnexpectedEof)));
}

#[test]
fn ascii_integers() {
    let r = AsciiValReader::new();
    assert_eq!(r.read_int(b"42 ", 0, ScalarType::U8).unwrap(), (ScalarValue::U8(42), 3));
    assert_eq!(r.read_int(b"+7\n", 0, ScalarType::I16).unwrap().0, ScalarValue::I16(7));
    assert_eq!(r.read_int(b"-128 ", 0, ScalarType::I8).unwrap().0, ScalarValue::I8(-128));
    assert_eq!(r.read_int(b"4294967295 ", 0, ScalarType::U32).unwrap().0, ScalarValue::U32(4294967295));
    assert_eq!(r.read_int(b"-2147483648 ", 0, ScalarType::I32).unwrap().0, ScalarValue::I32(-2147483648));
    assert!(matches!(r.read_int(b"300 ", 0, ScalarType::U8), Err(DeserializeError::InvalidAscii(ScalarType::U8))));
    assert!(matches!(r.read_int(b"-5 ", 0, ScalarType::U16), Err(DeserializeError::InvalidAscii(ScalarType::U16))));
    assert!(matches!(r.read_int(b"-129 ", 0, ScalarType::I8), Err(DeserializeError::InvalidAscii(ScalarType::I8))));
    assert!(matches!(r.read_int(b"+ ", 0, ScalarType::I32), Err(DeserializeError::InvalidAscii(ScalarType::I32))));
    assert!(matches!(r.read_int(b"1.5 ", 0, ScalarType::I32), Err(DeserializeError::InvalidAscii(ScalarType::I32))));
    assert!(matches!(
        r.read_int(b"99999999999999999999 ", 0, ScalarType::U32),
        Err(DeserializeError::InvalidAscii(ScalarType::U32))
    ));
    assert!(matches!(r.read_int(b"12", 0, ScalarType::I32), Err(DeserializeError::UnexpectedEof)));
}

#[test]
fn ascii_list_counts() {
    let r = AsciiValReader::new();
    assert_eq!(r.read_count(b"4 0 1 2 3\n", 0, ScalarType::U8).unwrap(), (4, 2));
    assert!(matches!(r.read_count(b"-1 ", 0, ScalarType::I32), Err(DeserializeError::NegativeListCount)));
    assert!(matches!(r.read_count(b"3 ", 0, ScalarType::F64), Err(DeserializeError::FloatListCount)));
    assert!(matches!(
        r.read_count(b"invalid_count 0 1 2\n", 0, ScalarType::U8),
        Err(DeserializeError::InvalidAscii(ScalarType::U8))
    ));
}

#[test]
fn ascii_writer_rows() {
    let mut w = AsciiValWriter::new();
    w.write_int(ScalarValue::I8(1));
    w.write_int(ScalarValue::I32(-2));
    w.write_field(b"0.5");
    w.write_row_end();
    w.write_int(ScalarValue::U32(300));
    w.write_row_end();
    assert_eq!(w.take_bytes(), b"1 -2 0.5\n300\n".to_vec());
    assert_eq!(decimal_text(-123), b"-123".to_vec());
    assert_eq!(decimal_text(0), b"0".to_vec());
}

#[test]
fn ascii_roundtrip_integers() {
    let ints: Vec<ScalarValue> = all_values()
        .into_iter()
        .filter(|v| !matches!(v, ScalarValue::F32Bits(_) | ScalarValue::F64Bits(_)))
        .collect();
    let mut w = AsciiValWriter::new();
    for v in &ints {
        w.write_int(*v);
    }
    w.write_row_end();
    let bytes = w.take_bytes();
    let r = AsciiValReader::new();
    let mut pos = 0;
    for v in &ints {
        let (got, next) = r.read_int(&bytes, pos, type_of(*v)).unwrap();
        assert_eq!(got, *v);
        pos = next;
    }
    assert_eq!(pos, bytes.len());
}

#[test]
fn binary_bytes_each_width() {
    let mut le = BinValWriter::new(Endian::Little);
    le.write_scalar(ScalarValue::I32(-2));
    le.write_scalar(ScalarValue::F64Bits(0x0102_0304_0506_0708));
    le.write_scalar(ScalarValue::F32Bits(0x0a0b_0c0d));
    let le_bytes = le.take_bytes();
    assert_eq!(le_bytes, vec![0xfe, 0xff, 0xff, 0xff, 8, 7, 6, 5, 4, 3, 2, 1, 0x0d, 0x0c, 0x0b, 0x0a]);
    let mut be = BinValWriter::new(Endian::Big);
    be.write_scalar(ScalarValue::I16(-2));
    be.write_scalar(ScalarValue::U32(0x0102_0304));
    be.write_scalar(ScalarValue::I8(-128));
    assert_eq!(be.take_bytes(), vec![0xff, 0xfe, 1, 2, 3, 4, 0x80]);
    let r = BinValReader::new(Endian::Little);
    assert_eq!(
        r.read_scalar(&le_bytes, 4, ScalarType::F64).unwrap(),
        (ScalarValue::F64Bits(0x0102_0304_0506_0708), 12)
    );
    assert_eq!(r.read_scalar(&le_bytes, 12, ScalarType::F32).unwrap().0, ScalarValue::F32Bits(0x0a0b_0c0d));
}

#[test]
fn list_count_values() {
    assert_eq!(list_count_value(ScalarType::U8, 255), Some(ScalarValue::U8(255)));
    assert_eq!(list_count_value(ScalarType::U8, 300), None);
    assert_eq!(list_count_value(ScalarType::U16, 300), Some(ScalarValue::U16(300)));
    assert_eq!(list_count_value(ScalarType::I8, 128), None);
    assert_eq!(list_count_value(ScalarType::U32, 70000), Some(ScalarValue::U32(70000)));
    assert_eq!(list_count_value(ScalarType::F32, 1), None);
}

#[test]
fn ascii_row_fields_read_back() {
    let fields: Vec<&[u8]> = vec![b"0.25", b"-7", b"nan", b"1e10"];
    let mut w = AsciiValWriter::new();
    for f in &fields {
        w.write_field(f);
    }
    w.write_row_end();
    let mut bytes = w.take_bytes();
    assert_eq!(bytes, b"0.25 -7 nan 1e10\n".to_vec());
    bytes.extend_from_slice(b"9 9\n");
    let mut pos = 0;
    for f in &fields {
        let (t, next) = AsciiValReader::read_ascii_token(&bytes, pos).unwrap();
        assert_eq!(t, f.to_vec());
        pos = next;
    }
    assert_eq!(pos, 17);
}
