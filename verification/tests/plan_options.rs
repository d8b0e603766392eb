use serde_ply::{
    build_seq_plan, row_byte_size, BinValReader, Endian, ScalarValue, PlyFormat, PlyProperty, PropertyType, ScalarType, SerializeOptions,
};

fn scalar(name: &str, t: ScalarType) -> PlyProperty {
    PlyProperty { name: name.to_string(), property_type: PropertyType::Scalar(t) }
}

#[test]
fn plan_offsets() {
    let props = vec![
        scalar("x", ScalarType::F32),
        scalar("y", ScalarType::F32),
        scalar("red", ScalarType::U8),
        scalar("z", ScalarType::F64),
    ];
    let plan = build_seq_plan(PlyFormat::BinaryLittleEndian, &props, &["z", "x", "y"]).unwrap();
    assert_eq!(plan.row_byte_size, 17);
    assert_eq!(
        plan.field_offsets,
        vec![Some((9, ScalarType::F64)), Some((0, ScalarType::F32)), Some((4, ScalarType::F32))]
    );
}

#[test]
fn plan_unmatched_field() {
    let props = vec![scalar("x", ScalarType::F32), scalar("y", ScalarType::F32)];
    let plan = build_seq_plan(PlyFormat::BinaryBigEndian, &props, &["x", "w"]).unwrap();
    assert_eq!(plan.row_byte_size, 8);
    assert_eq!(plan.field_offsets, vec![Some((0, ScalarType::F32)), None]);
}

#[test]
fn plan_refused() {
    let props = vec![scalar("x", ScalarType::F32), scalar("y", ScalarType::F32)];
    // ASCII rows have no fixed size.
    assert!(build_seq_plan(PlyFormat::Ascii, &props, &["x", "y"]).is_none());
    // An alias makes the matched fields sparse.
    assert!(build_seq_plan(PlyFormat::BinaryLittleEndian, &props, &["x", "pos_y", "y"]).is_none());
    // No property matches a field.
    assert!(build_seq_plan(PlyFormat::BinaryLittleEndian, &props, &["a", "b"]).is_none());
    // Lists have no fixed size.
    let with_list = vec![
        scalar("x", ScalarType::F32),
        PlyProperty {
            name: "idx".to_string(),
            property_type: PropertyType::List {
                count_type: ScalarType::U8,
                data_type: ScalarType::U32,
            },
        },
    ];
    assert!(build_seq_plan(PlyFormat::BinaryLittleEndian, &with_list, &["x", "idx"]).is_none());
}

#[test]
fn options_builders() {
    assert_eq!(SerializeOptions::ascii().format(), PlyFormat::Ascii);
    assert_eq!(SerializeOptions::binary_le().format(), PlyFormat::BinaryLittleEndian);
    assert_eq!(SerializeOptions::binary_be().format(), PlyFormat::BinaryBigEndian);
    let opts = SerializeOptions::new(PlyFormat::Ascii)
        .with_comments(vec!["test comment".to_string()])
        .with_obj_info(vec!["info line".to_string()])
        .with_comments(vec!["second".to_string(), "third".to_string()]);
    assert_eq!(opts.comments(), &vec!["test comment".to_string(), "second".to_string(), "third".to_string()]);
    assert_eq!(opts.obj_info(), &vec!["info line".to_string()]);
    assert!(SerializeOptions::binary_be().comments().is_empty());
}

#[test]
fn plan_reads_fields_from_row() {
    let props = vec![
        scalar("x", ScalarType::F32),
        scalar("y", ScalarType::F32),
        scalar("red", ScalarType::U8),
        scalar("z", ScalarType::F64),
    ];
    let plan = build_seq_plan(PlyFormat::BinaryLittleEndian, &props, &["z", "red", "x", "w"]).unwrap();
    let mut row = Vec::new();
    row.extend_from_slice(&1.0f32.to_le_bytes());
    row.extend_from_slice(&2.0f32.to_le_bytes());
    row.push(7u8);
    row.extend_from_slice(&3.0f64.to_le_bytes());
    assert_eq!(row.len(), plan.row_byte_size);
    let reader = BinValReader::new(Endian::Little);
    assert_eq!(plan.read_field(&reader, &row, 0), Some(ScalarValue::F64Bits(3.0f64.to_bits())));
    assert_eq!(plan.read_field(&reader, &row, 1), Some(ScalarValue::U8(7)));
    assert_eq!(plan.read_field(&reader, &row, 2), Some(ScalarValue::F32Bits(1.0f32.to_bits())));
    assert_eq!(plan.read_field(&reader, &row, 3), None);
}

#[test]
fn row_sizes() {
    let props = vec![
        scalar("x", ScalarType::F32),
        scalar("c", ScalarType::I8),
        scalar("d", ScalarType::F64),
        scalar("s", ScalarType::U16),
    ];
    assert_eq!(row_byte_size(&props), Some(15));
    assert_eq!(row_byte_size(&[]), Some(0));
}
