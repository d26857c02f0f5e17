use touchdb::engines::EngineName;
use touchdb::error::Error;
use touchdb::filter::{BinOp, CompiledFilter, FilterBinaryOp, FilterExpr};
use touchdb::part::Mark;
use touchdb::pruning::prune_granules;
use touchdb::recovery::{classify_table_entry, PartEntryAction};
use touchdb::scan::{apply_post_processing, decode_granule, filter_granule};
use touchdb::storage::{Column, ColumnDef, Constraints};
use touchdb::compression::CompressionType;
use touchdb::value::{SqlLiteral, Value, ValueType};

fn id_def() -> ColumnDef {
    ColumnDef {
        name: "id".to_string(),
        field_type: ValueType::Int64,
        constraints: Constraints::default(),
    }
}

/// Marks with first ids [1, 3, 5, 7, 9]: granularity 2 over ids 1..=10.
fn sample_marks() -> Vec<Mark> {
    [1i64, 3, 5, 7, 9]
        .iter()
        .map(|v| Mark {
            index: vec![Value::Int64(*v)],
            info: Vec::new(),
        })
        .collect()
}

fn compare_filter(op: BinOp, v: i64) -> CompiledFilter {
    CompiledFilter::Compare {
        col_idx: 0,
        op,
        value: Value::Int64(v),
    }
}

#[test]
fn test_prune_eq_inside_granule() {
    // WHERE id = 6 scans only granule index 2 (rows 5-6)
    let keep = prune_granules(
        &sample_marks(),
        &compare_filter(BinOp::Eq, 6),
        &vec![id_def()],
        &vec![id_def()],
    );
    assert_eq!(keep, vec![2]);
}

#[test]
fn test_prune_lt() {
    // WHERE id < 4 scans granules 0-1
    let keep = prune_granules(
        &sample_marks(),
        &compare_filter(BinOp::Lt, 4),
        &vec![id_def()],
        &vec![id_def()],
    );
    assert_eq!(keep, vec![0, 1]);
}

#[test]
fn test_prune_gt() {
    // WHERE id > 7 scans granules 3-4
    let keep = prune_granules(
        &sample_marks(),
        &compare_filter(BinOp::Gt, 7),
        &vec![id_def()],
        &vec![id_def()],
    );
    assert_eq!(keep, vec![3, 4]);
}

#[test]
fn test_prune_eq_on_mark_boundary() {
    // a value equal to a mark's first row keeps that granule
    let keep = prune_granules(
        &sample_marks(),
        &compare_filter(BinOp::Eq, 5),
        &vec![id_def()],
        &vec![id_def()],
    );
    assert!(keep.contains(&2));
}

#[test]
fn test_compile_folds_constants() {
    let defs = vec![id_def()];
    let e = FilterExpr::Binary {
        op: FilterBinaryOp::And,
        left: Box::new(FilterExpr::Literal(SqlLiteral::Boolean(false))),
        right: Box::new(FilterExpr::Ident("id".to_string())),
    };
    let cf = CompiledFilter::compile(&e, &defs).unwrap();
    assert!(matches!(cf, CompiledFilter::Const(false)));
}

#[test]
fn test_compile_resolves_columns() {
    let defs = vec![id_def()];
    let e = FilterExpr::Binary {
        op: FilterBinaryOp::Cmp(BinOp::Gt),
        left: Box::new(FilterExpr::Ident("id".to_string())),
        right: Box::new(FilterExpr::Literal(SqlLiteral::Number("7".to_string()))),
    };
    match CompiledFilter::compile(&e, &defs).unwrap() {
        CompiledFilter::Compare { col_idx, op, value } => {
            assert_eq!(col_idx, 0);
            assert_eq!(op, BinOp::Gt);
            assert_eq!(value, Value::Int64(7));
        }
        other => panic!("expected a Compare node, got {:?}", other),
    }
}

#[test]
fn test_compile_unknown_column() {
    let defs = vec![id_def()];
    let e = FilterExpr::Ident("nope".to_string());
    assert!(matches!(
        CompiledFilter::compile(&e, &defs),
        Err(Error::ColumnNotFound(_))
    ));
}

#[test]
fn test_from_literal_range_checks() {
    let v = Value::from_literal(&SqlLiteral::Number("300".to_string()), &ValueType::Int8);
    assert!(v.is_err());
    let v = Value::from_literal(&SqlLiteral::Number("120".to_string()), &ValueType::Int8);
    assert_eq!(v.unwrap(), Value::Int8(120));
    let v = Value::from_literal(
        &SqlLiteral::QuotedString("hello".to_string()),
        &ValueType::String,
    );
    assert_eq!(v.unwrap(), Value::String("hello".to_string()));
}

#[test]
fn test_post_processing_offset_past_rows() {
    // an offset at or past the row count returns zero rows
    let col = Column {
        column_def: id_def(),
        data: (1..=3i64).map(Value::Int64).collect(),
    };
    let out = apply_post_processing(
        vec![col],
        None,
        &EngineName::MergeTree,
        &vec![id_def()],
        &vec![id_def()],
        None,
        10,
    )
    .unwrap();
    assert_eq!(out.len(), 1);
    assert!(out[0].data.is_empty());
}

#[test]
fn test_post_processing_limit_offset() {
    let col = Column {
        column_def: id_def(),
        data: vec![3, 1, 2, 5, 4].into_iter().map(Value::Int64).collect(),
    };
    let sort_lists = vec![vec![id_def()]];
    let out = apply_post_processing(
        vec![col],
        Some(&sort_lists),
        &EngineName::MergeTree,
        &vec![id_def()],
        &vec![id_def()],
        Some(2),
        1,
    )
    .unwrap();
    // rows at positions 1..3 of the sorted whole [1,2,3,4,5]
    assert_eq!(out[0].data, vec![Value::Int64(2), Value::Int64(3)]);
}

#[test]
fn test_decode_and_filter_granule() {
    let vals: Vec<Value> = (1..=4i64).map(Value::Int64).collect();
    let bytes = touchdb::codec::serialize_values(&vals);
    let ct = CompressionType::Uncompressed;
    let (decoded, n) = decode_granule(&vec![Some(bytes), None], &vec![ct, ct]).unwrap();
    assert_eq!(n, 4);
    let f = compare_filter(BinOp::GtEq, 3);
    let (cols, kept) = filter_granule(&decoded, n, Some(&f));
    assert_eq!(kept, 2);
    assert_eq!(cols[0], vec![Value::Int64(3), Value::Int64(4)]);
    // the absent column is padded with nulls, positionally aligned
    assert_eq!(cols[1], vec![Value::Null, Value::Null]);
}

#[test]
fn test_classify_table_entry() {
    assert_eq!(classify_table_entry("raw", true), PartEntryAction::PurgeRaw);
    assert_eq!(
        classify_table_entry("0192d5-abc.old", true),
        PartEntryAction::SkipOld
    );
    assert_eq!(
        classify_table_entry(".metadata", true),
        PartEntryAction::SkipHidden
    );
    assert_eq!(classify_table_entry("part", false), PartEntryAction::SkipHidden);
    assert_eq!(classify_table_entry("0192d5-abc", true), PartEntryAction::Load);
}
