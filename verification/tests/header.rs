use serde_ply::{DeserializeError, HeaderParser, PlyFormat, PlyHeader, PropertyType, ScalarType};

/// The lines of a text as `BufRead::read_line` yields them.
fn lines(data: &str) -> Vec<String> {
    data.split_inclusive('\n').map(|s| s.to_string()).collect()
}

fn parse(data: &str) -> Result<(PlyHeader, usize), DeserializeError> {
    PlyHeader::parse(&lines(data))
}

// ---- Header parsing edge cases ----

#[test]
fn test_missing_ply_magic() {
    let data = "format ascii 1.0\nelement vertex 1\nproperty float x\nend_header\n1.0\n";
    let result = parse(data);
    assert!(result.is_err());
}

#[test]
fn test_missing_format() {
    let data = "ply\nelement vertex 1\nproperty float x\nend_header\n1.0\n";
    let result = parse(data);
    assert!(result.is_err());
}

#[test]
fn test_unknown_format() {
    let data =
        "ply\nformat binary_mixed 1.0\nelement vertex 1\nproperty float x\nend_header\n1.0\n";
    let result = parse(data);
    assert!(result.is_err());
}

#[test]
fn test_invalid_scalar_type() {
    let data = "ply\nformat ascii 1.0\nelement vertex 1\nproperty bigint x\nend_header\n1\n";
    let result = parse(data);
    assert!(result.is_err());
}

#[test]
fn test_property_before_element() {
    let data = "ply\nformat ascii 1.0\nproperty float x\nelement vertex 1\nend_header\n1.0\n";
    let result = parse(data);
    assert!(result.is_err());
}

#[test]
fn test_invalid_element_count() {
    let data = "ply\nformat ascii 1.0\nelement vertex abc\nproperty float x\nend_header\n";
    let result = parse(data);
    assert!(result.is_err());
}

#[test]
fn test_truncated_header() {
    let data = "ply\nformat ascii 1.0\nelement vertex 1\nproperty float x\n";
    let result = parse(data);
    assert!(result.is_err());
}

#[test]
fn test_header_accessors() {
    let data = "ply\nformat ascii 1.0\nelement vertex 1\nproperty float x\nproperty float y\nelement face 0\nproperty list uchar uint idx\nend_header\n1.0 2.0\n";
    let (header, _) = parse(data).unwrap();

    assert!(header.has_element("vertex"));
    assert!(header.has_element("face"));
    assert!(!header.has_element("edge"));

    let vertex_def = header.get_element("vertex").unwrap();
    assert_eq!(vertex_def.count, 1);
    assert!(vertex_def.has_property("x"));
    assert!(vertex_def.has_property("y"));
    assert!(!vertex_def.has_property("z"));
    assert!(vertex_def.get_property("x").is_some());
    assert!(header.get_element("nonexistent").is_none());
}

#[test]
fn test_obj_info_and_comments() {
    let data = "ply\nformat ascii 1.0\ncomment hello world\ncomment second line\nobj_info num_rows 5\nelement vertex 0\nproperty float x\nend_header\n";
    let (header, _) = parse(data).unwrap();
    assert_eq!(header.comments.len(), 2);
    assert_eq!(header.comments[0], "hello world");
    assert_eq!(header.comments[1], "second line");
    assert_eq!(header.obj_info.len(), 1);
    assert_eq!(header.obj_info[0], "num_rows 5");
}

// ---- Further header cases ----

#[test]
fn header_greg_turk_cube() {
    let data = "ply\nformat ascii 1.0\ncomment made by Greg Turk\ncomment this file is a cube\nelement vertex 8\nproperty float x\nproperty float y\nproperty float z\nelement face 6\nproperty list uchar int vertex_index\nend_header\n0 0 0\n";
    let (header, n) = parse(data).unwrap();
    assert_eq!(n, 11);
    assert_eq!(header.format, PlyFormat::Ascii);
    assert_eq!(header.elem_defs.len(), 2);
    assert_eq!(header.comments[0], "made by Greg Turk");
    assert_eq!(header.comments[1], "this file is a cube");
    assert_eq!(header.elem_defs[0].name, "vertex");
    assert_eq!(header.elem_defs[0].count, 8);
    assert_eq!(header.elem_defs[0].properties.len(), 3);
    assert_eq!(header.elem_defs[1].name, "face");
    assert_eq!(header.elem_defs[1].count, 6);
    let p = &header.elem_defs[1].properties[0];
    assert_eq!(p.name, "vertex_index");
    match p.property_type {
        PropertyType::List { count_type, data_type } => {
            assert_eq!(count_type, ScalarType::U8);
            assert_eq!(data_type, ScalarType::I32);
        }
        PropertyType::Scalar(_) => panic!("expected a list property"),
    }
}

#[test]
fn header_crlf_lines() {
    let data = "ply\r\nformat ascii 1.0\r\nelement vertex 1\r\nproperty float x\r\nproperty float y\r\nproperty float z\r\nend_header\r\n0 0 1\r\n";
    let (header, n) = parse(data).unwrap();
    assert_eq!(n, 7);
    assert_eq!(header.format, PlyFormat::Ascii);
    assert_eq!(header.elem_defs.len(), 1);
    assert_eq!(header.elem_defs[0].properties[2].name, "z");
}

#[test]
fn header_binary_formats() {
    let (le, _) = parse("ply\nformat binary_little_endian 1.0\nend_header\n").unwrap();
    assert_eq!(le.format, PlyFormat::BinaryLittleEndian);
    let (be, _) = parse("ply\nformat binary_big_endian 1.0\nend_header\n").unwrap();
    assert_eq!(be.format, PlyFormat::BinaryBigEndian);
}

#[test]
fn header_all_scalar_type_names() {
    let data = "ply\nformat ascii 1.0\nelement point 1\nproperty char a\nproperty int8 b\nproperty uchar c\nproperty uint8 d\nproperty short e\nproperty int16 f\nproperty uint16 g\nproperty ushort h\nproperty int32 i\nproperty int j\nproperty uint32 k\nproperty uint l\nproperty float32 m\nproperty float n\nproperty float64 o\nproperty double p\nend_header\n";
    let (header, _) = parse(data).unwrap();
    let expected = [
        ScalarType::I8,
        ScalarType::I8,
        ScalarType::U8,
        ScalarType::U8,
        ScalarType::I16,
        ScalarType::I16,
        ScalarType::U16,
        ScalarType::U16,
        ScalarType::I32,
        ScalarType::I32,
        ScalarType::U32,
        ScalarType::U32,
        ScalarType::F32,
        ScalarType::F32,
        ScalarType::F64,
        ScalarType::F64,
    ];
    let props = &header.elem_defs[0].properties;
    assert_eq!(props.len(), 16);
    for (p, t) in props.iter().zip(expected.iter()) {
        match p.property_type {
            PropertyType::Scalar(s) => assert_eq!(s, *t),
            PropertyType::List { .. } => panic!("expected a scalar property"),
        }
    }
}

#[test]
fn header_end_needs_newline() {
    // `end_header` at the end of the input, without a newline, does not end the header.
    let result = parse("ply\nformat ascii 1.0\nend_header");
    assert!(matches!(result, Err(DeserializeError::UnexpectedEof)));
}

#[test]
fn header_whitespace_is_trimmed() {
    let data = "  ply  \nformat   ascii 1.0\n\n   \ncomment   spaced    out words  \nfoo bar\n  end_header \n";
    let (header, n) = parse(data).unwrap();
    assert_eq!(n, 7);
    assert_eq!(header.comments[0], "spaced out words");
    assert_eq!(header.elem_defs.len(), 0);
}

#[test]
fn header_error_variants() {
    assert!(matches!(parse(""), Err(DeserializeError::MissingMagic)));
    assert!(matches!(parse("plyx\n"), Err(DeserializeError::MissingMagic)));
    assert!(matches!(parse("ply\n"), Err(DeserializeError::UnexpectedEof)));
    assert!(matches!(
        parse("ply\nformat ascii\n"),
        Err(DeserializeError::InvalidFormatLine)
    ));
    match parse("ply\nformat binary_mixed 1.0\n") {
        Err(DeserializeError::UnknownFormat(s)) => assert_eq!(s, "binary_mixed"),
        _ => panic!("expected an unknown format"),
    }
    assert!(matches!(
        parse("ply\nelement vertex\n"),
        Err(DeserializeError::InvalidElementLine)
    ));
    match parse("ply\nelement vertex -1\n") {
        Err(DeserializeError::InvalidElementCount(s)) => assert_eq!(s, "-1"),
        _ => panic!("expected an invalid count"),
    }
    assert!(matches!(
        parse("ply\nproperty float x\n"),
        Err(DeserializeError::PropertyWithoutElement)
    ));
    assert!(matches!(
        parse("ply\nelement v 1\nproperty float\n"),
        Err(DeserializeError::InvalidPropertyLine)
    ));
    assert!(matches!(
        parse("ply\nelement v 1\nproperty list uchar int\n"),
        Err(DeserializeError::InvalidListPropertyLine)
    ));
    match parse("ply\nelement v 1\nproperty list uchar bigint idx\n") {
        Err(DeserializeError::UnknownScalarType(s)) => assert_eq!(s, "bigint"),
        _ => panic!("expected an unknown type"),
    }
    assert!(matches!(
        parse("ply\nelement v 1\nend_header\n"),
        Err(DeserializeError::MissingFormat)
    ));
}

#[test]
fn header_element_counts() {
    let (h, _) = parse("ply\nformat ascii 1.0\nelement a +12\nelement b 007\nend_header\n").unwrap();
    assert_eq!(h.elem_defs[0].count, 12);
    assert_eq!(h.elem_defs[1].count, 7);
    assert!(parse("ply\nformat ascii 1.0\nelement a +\nend_header\n").is_err());
    assert!(parse("ply\nformat ascii 1.0\nelement a 99999999999999999999999\nend_header\n").is_err());
}

#[test]
fn header_first_element_found() {
    let (h, _) = parse("ply\nformat ascii 1.0\nelement a 1\nelement a 2\nend_header\n").unwrap();
    assert_eq!(h.get_element("a").unwrap().count, 1);
}

#[test]
fn header_parser_line_by_line() {
    let mut p = HeaderParser::new();
    assert_eq!(p.feed_line("ply\n").unwrap(), false);
    assert_eq!(p.feed_line("format binary_big_endian 1.0\n").unwrap(), false);
    assert_eq!(p.feed_line("element vertex 3\n").unwrap(), false);
    assert_eq!(p.feed_line("property uchar red\n").unwrap(), false);
    assert!(!p.is_done());
    assert_eq!(p.feed_line("end_header\n").unwrap(), true);
    assert!(p.is_done());
    let h = p.finish().unwrap();
    assert_eq!(h.format, PlyFormat::BinaryBigEndian);
    assert_eq!(h.elem_defs[0].count, 3);
    assert!(h.elem_defs[0].has_property("red"));
}

#[test]
fn header_eof_error() {
    let p = HeaderParser::new();
    assert!(matches!(p.eof_error(), DeserializeError::MissingMagic));
    let mut q = HeaderParser::new();
    q.feed_line("ply\n").unwrap();
    assert!(matches!(q.eof_error(), DeserializeError::UnexpectedEof));
}

#[test]
fn scalar_type_names() {
    for t in [
        ScalarType::I8,
        ScalarType::U8,
        ScalarType::I16,
        ScalarType::U16,
        ScalarType::I32,
        ScalarType::U32,
        ScalarType::F32,
        ScalarType::F64,
    ] {
        assert_eq!(ScalarType::parse(t.name()).unwrap(), t);
        let parsed: ScalarType = t.name().parse().unwrap();
        assert_eq!(parsed, t);
    }
    assert_eq!(ScalarType::I8.name(), "int8");
    assert_eq!(ScalarType::F64.name(), "float64");
    assert_eq!(ScalarType::parse("double").unwrap(), ScalarType::F64);
    assert!(ScalarType::parse("int64").is_err());
    assert_eq!(PlyFormat::Ascii.name(), "ascii");
    assert_eq!(PlyFormat::BinaryLittleEndian.name(), "binary_little_endian");
    assert_eq!(PlyFormat::BinaryBigEndian.name(), "binary_big_endian");
}

#[test]
fn header_written_lines() {
    let data = "ply\nformat binary_little_endian 1.0\ncomment test comment\nobj_info info line\nelement face 2\nproperty list uint8 uint32 small_list\nproperty float32 x\nend_header\n";
    let (header, n) = parse(data).unwrap();
    assert_eq!(n, 8);
    let written: String = header.to_lines().concat();
    assert_eq!(written, data);
}

#[test]
fn header_roundtrip_canonical() {
    let data = "  ply\nformat ascii 1.0 extra\ncomment   a  b\nelement vertex +0012\nproperty char x\nproperty list uchar int vertex_index\nunknown line\nend_header   \n";
    let (header, _) = parse(data).unwrap();
    let lines = header.to_lines();
    assert_eq!(
        lines.concat(),
        "ply\nformat ascii 1.0\ncomment a b\nelement vertex 12\nproperty int8 x\nproperty list uint8 int32 vertex_index\nend_header\n"
    );
    let (again, n) = PlyHeader::parse(&lines).unwrap();
    assert_eq!(n, lines.len());
    assert_eq!(again.to_lines(), lines);
    assert_eq!(again.elem_defs[0].count, 12);
    assert_eq!(again.comments[0], "a b");
}
