use touchdb::codec::{deserialize_values, serialize_values};
use touchdb::compression::{compress_bytes, decompress_bytes, CompressionType};
use touchdb::filter::{cmp_vals, BinOp, CompiledFilter, eval_filter_vectorized};
use touchdb::framing::{column_magic, frame_bytes, unframe_bytes};
use touchdb::part::{generate_indexes, read_column_rows, write_column_file, MarkInfo};
use touchdb::storage::{Column, ColumnDef, Constraints};
use touchdb::value::{Value, ValueType};

fn sample_values() -> Vec<Value> {
    vec![
        Value::Null,
        Value::String("hello".to_string()),
        Value::Uuid(0x0123456789abcdef0123456789abcdefu128),
        Value::Bool(true),
        Value::Int8(-5),
        Value::Int16(-300),
        Value::Int32(70000),
        Value::Int64(-5000000000),
        Value::UInt8(200),
        Value::UInt16(60000),
        Value::UInt32(4000000000),
        Value::UInt64(18000000000000000000),
    ]
}

#[test]
fn test_values_roundtrip() {
    let vals = sample_values();
    let bytes = serialize_values(&vals);
    let back = deserialize_values(&bytes).unwrap();
    assert_eq!(back, vals);
}

#[test]
fn test_values_reject_truncated() {
    let vals = sample_values();
    let bytes = serialize_values(&vals);
    assert!(deserialize_values(&bytes[..bytes.len() - 1]).is_none());
}

#[test]
fn test_compression_roundtrip() {
    let data: Vec<u8> = (0..200u8).cycle().take(5000).collect();
    for ct in [CompressionType::Uncompressed, CompressionType::LZ4(3)] {
        let c = compress_bytes(&data, &ct).unwrap();
        let d = decompress_bytes(&c, &ct).unwrap();
        assert_eq!(d, data);
    }
}

#[test]
fn test_frame_roundtrip() {
    let magic = column_magic();
    let payload = vec![1u8, 2, 3, 4, 5];
    let file = frame_bytes(&magic, &payload);
    assert_eq!(unframe_bytes(&magic, &file).unwrap(), payload);
}

#[test]
fn test_frame_detects_corruption() {
    let magic = column_magic();
    let payload = vec![1u8, 2, 3, 4, 5];
    let mut file = frame_bytes(&magic, &payload);
    file[7] ^= 0xff;
    assert!(unframe_bytes(&magic, &file).is_err());
}

#[test]
fn test_column_file_roundtrip() {
    let vals: Vec<Value> = (0..10i64).map(Value::Int64).collect();
    let ct = CompressionType::LZ4(3);
    let (file, infos) = write_column_file(&vals, &ct, 2).unwrap();
    assert_eq!(infos.len(), 5);
    let back = read_column_rows(&file, &infos, &ct).unwrap();
    assert_eq!(back, vals);
}

#[test]
fn test_column_file_exact_granule() {
    // exactly g rows: one granule, one mark
    let vals: Vec<Value> = (0..4i64).map(Value::Int64).collect();
    let ct = CompressionType::Uncompressed;
    let (_file, infos) = write_column_file(&vals, &ct, 4).unwrap();
    assert_eq!(infos.len(), 1);
    // g + 1 rows: two granules; the second holds one row
    let vals: Vec<Value> = (0..5i64).map(Value::Int64).collect();
    let (file, infos) = write_column_file(&vals, &ct, 4).unwrap();
    assert_eq!(infos.len(), 2);
    let back = read_column_rows(&file, &infos, &ct).unwrap();
    assert_eq!(back.len(), 5);
}

#[test]
fn test_generate_indexes_marks() {
    let def = ColumnDef {
        name: "id".to_string(),
        field_type: ValueType::Int64,
        constraints: Constraints::default(),
    };
    let col = Column {
        column_def: def.clone(),
        data: (1..=10i64).map(Value::Int64).collect(),
    };
    let marks = generate_indexes(&vec![col], &vec![def], 2);
    assert_eq!(marks.len(), 5);
    let firsts: Vec<&Value> = marks.iter().map(|m| &m.index[0]).collect();
    assert_eq!(
        firsts,
        vec![
            &Value::Int64(1),
            &Value::Int64(3),
            &Value::Int64(5),
            &Value::Int64(7),
            &Value::Int64(9)
        ]
    );
}

#[test]
fn test_granule_read_rejects_bad_bounds() {
    let mi = MarkInfo { start: 10, end: 4 };
    let r = touchdb::part::get_granule_bytes_decompressed(
        &[0u8; 16],
        &mi,
        &CompressionType::Uncompressed,
    );
    assert!(r.is_err());
}

#[test]
fn test_filter_mask() {
    let col: Vec<Value> = vec![Value::Int64(1), Value::Int64(5), Value::Int64(9)];
    let gdata = vec![Some(col)];
    let f = CompiledFilter::And(
        Box::new(CompiledFilter::Compare {
            col_idx: 0,
            op: BinOp::Gt,
            value: Value::Int64(2),
        }),
        Box::new(CompiledFilter::Not(Box::new(CompiledFilter::Compare {
            col_idx: 0,
            op: BinOp::Eq,
            value: Value::Int64(9),
        }))),
    );
    let mask = eval_filter_vectorized(&f, &gdata, 3);
    assert_eq!(mask, vec![false, true, false]);
}

#[test]
fn test_cmp_vals_operators() {
    let a = Value::Int64(3);
    let b = Value::Int64(7);
    assert!(cmp_vals(&a, &b, &BinOp::Lt));
    assert!(cmp_vals(&a, &b, &BinOp::LtEq));
    assert!(cmp_vals(&a, &b, &BinOp::NotEq));
    assert!(!cmp_vals(&a, &b, &BinOp::Gt));
    assert!(!cmp_vals(&a, &b, &BinOp::GtEq));
    assert!(!cmp_vals(&a, &b, &BinOp::Eq));
    // values of different types do not compare: only NotEq holds
    let s = Value::String("x".to_string());
    assert!(cmp_vals(&a, &s, &BinOp::NotEq));
    assert!(!cmp_vals(&a, &s, &BinOp::Eq));
    assert!(!cmp_vals(&a, &s, &BinOp::Lt));
}

#[test]
fn test_flip_operator() {
    assert_eq!(BinOp::Gt.flip(), BinOp::Lt);
    assert_eq!(BinOp::GtEq.flip(), BinOp::LtEq);
    assert_eq!(BinOp::Eq.flip(), BinOp::Eq);
}
