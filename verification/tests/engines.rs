use touchdb::engines::{EngineConfig, MergeTreeEngine, ReplacingMergeTreeEngine};
use touchdb::error::Error;
use touchdb::storage::{Column, ColumnDef, Constraints};
use touchdb::value::{Value, ValueType};

fn str_col_def() -> ColumnDef {
    ColumnDef {
        name: "test_str".to_string(),
        field_type: ValueType::String,
        constraints: Constraints::default(),
    }
}

fn int_col_def() -> ColumnDef {
    ColumnDef {
        name: "test_int".to_string(),
        field_type: ValueType::Int32,
        constraints: Constraints::default(),
    }
}

fn strs(vals: &[&str]) -> Vec<Value> {
    vals.iter().map(|x| Value::String(x.to_string())).collect()
}

fn ints(vals: &[i32]) -> Vec<Value> {
    vals.iter().map(|x| Value::Int32(*x)).collect()
}

#[test]
fn test_empty() {
    let engine = MergeTreeEngine::new(EngineConfig {});
    let columns = Vec::new();

    assert_eq!(
        engine
            .order_columns(columns, &Vec::new(), &Vec::new())
            .unwrap_err(),
        Error::NoColumnsSpecified
    );
}

#[test]
fn test_single_row_single_column() {
    let engine = MergeTreeEngine::new(EngineConfig {});
    let columns = vec![Column {
        column_def: str_col_def(),
        data: strs(&["1"]),
    }];

    assert_eq!(
        engine
            .order_columns(columns.clone(), &vec![str_col_def()], &vec![str_col_def()])
            .unwrap(),
        columns
    )
}

#[test]
fn test_multiple_row_single_column() {
    let engine = MergeTreeEngine::new(EngineConfig {});
    let columns = vec![Column {
        column_def: int_col_def(),
        data: ints(&[1, 2, 4, 3, 2]),
    }];

    assert_eq!(
        engine
            .order_columns(columns.clone(), &vec![int_col_def()], &vec![int_col_def()])
            .unwrap(),
        vec![Column {
            column_def: int_col_def(),
            data: ints(&[1, 2, 2, 3, 4]),
        }]
    );
}

#[test]
fn test_single_row_multiple_column() {
    let engine = MergeTreeEngine::new(EngineConfig {});
    let columns = vec![
        Column {
            column_def: int_col_def(),
            data: ints(&[1]),
        },
        Column {
            column_def: str_col_def(),
            data: strs(&["1"]),
        },
    ];

    assert_eq!(
        engine
            .order_columns(columns.clone(), &vec![int_col_def()], &vec![int_col_def()])
            .unwrap(),
        columns
    );
}

#[test]
fn test_multiple_row_multiple_column_eq() {
    let engine = MergeTreeEngine::new(EngineConfig {});
    let columns = vec![
        Column {
            column_def: int_col_def(),
            data: ints(&[1, 5, 3, 2, 4]),
        },
        Column {
            column_def: str_col_def(),
            data: strs(&["1", "5", "3", "2", "4"]),
        },
    ];

    assert_eq!(
        engine
            .order_columns(columns.clone(), &vec![int_col_def()], &vec![int_col_def()])
            .unwrap(),
        vec![
            Column {
                column_def: int_col_def(),
                data: ints(&[1, 2, 3, 4, 5]),
            },
            Column {
                column_def: str_col_def(),
                data: strs(&["1", "2", "3", "4", "5"]),
            }
        ]
    )
}

#[test]
fn test_multiple_row_multiple_column_not_eq() {
    let engine = MergeTreeEngine::new(EngineConfig {});
    let columns = vec![
        Column {
            column_def: int_col_def(),
            data: ints(&[1, 2, 3, 2, 4]),
        },
        Column {
            column_def: str_col_def(),
            data: strs(&["1", "5", "3", "2", "4"]),
        },
    ];

    assert_eq!(
        engine
            .order_columns(
                columns.clone(),
                &vec![int_col_def(), str_col_def()],
                &vec![int_col_def(), str_col_def()]
            )
            .unwrap(),
        vec![
            Column {
                column_def: int_col_def(),
                data: ints(&[1, 2, 2, 3, 4]),
            },
            Column {
                column_def: str_col_def(),
                data: strs(&["1", "2", "5", "3", "4"]),
            }
        ]
    )
}

fn string_column(name: String, data: Vec<&str>) -> Column {
    Column {
        column_def: ColumnDef {
            name,
            field_type: ValueType::String,
            constraints: Constraints::default(),
        },
        data: data.iter().map(|x| Value::String(x.to_string())).collect(),
    }
}

fn get_engine() -> ReplacingMergeTreeEngine {
    ReplacingMergeTreeEngine::new(EngineConfig {})
}

#[test]
fn test_1() {
    let col_1 = string_column("col_1".to_string(), vec!["a", "b", "b", "c", "a", "d", "b"]);
    let col_2 = string_column("col_2".to_string(), vec!["q", "w", "e", "d", "q", "w", "w"]);
    let col_3 = string_column("col_3".to_string(), vec!["1", "2", "3", "4", "5", "6", "7"]);

    let order_by = vec![
        col_1.column_def.clone(),
        col_2.column_def.clone(),
        col_3.column_def.clone(),
    ];
    let primary_key = vec![col_1.column_def.clone(), col_2.column_def.clone()];

    let merged = vec![
        string_column("col_1".to_string(), vec!["a", "b", "b", "c", "d"]),
        string_column("col_2".to_string(), vec!["q", "e", "w", "d", "w"]),
        string_column("col_3".to_string(), vec!["5", "3", "7", "4", "6"]),
    ];

    assert_eq!(
        get_engine()
            .order_columns(vec![col_1, col_2, col_3], &order_by, &primary_key)
            .unwrap(),
        merged
    );
}

#[test]
fn test_2() {
    let col_1 = string_column("id".to_string(), vec!["1", "1", "2", "2", "3", "1"]);
    let col_2 = string_column(
        "version".to_string(),
        vec!["v1", "v2", "v1", "v3", "v1", "v3"],
    );
    let col_3 = string_column(
        "data".to_string(),
        vec!["old", "mid", "old", "new", "only", "newest"],
    );

    let order_by = vec![col_1.column_def.clone(), col_2.column_def.clone()];
    let primary_key = vec![col_1.column_def.clone()];

    let merged = vec![
        string_column("id".to_string(), vec!["1", "2", "3"]),
        string_column("version".to_string(), vec!["v3", "v3", "v1"]),
        string_column("data".to_string(), vec!["newest", "new", "only"]),
    ];

    assert_eq!(
        get_engine()
            .order_columns(vec![col_1, col_2, col_3], &order_by, &primary_key)
            .unwrap(),
        merged
    );
}
