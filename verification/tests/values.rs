use touchdb::error::Error;
use touchdb::storage::get_unix_time;
use touchdb::value::{compare_values, str_eq, ValOrder, Value, ValueType};

#[test]
fn test_get_type() {
    assert_eq!(Value::Null.get_type(), ValueType::Null);
    assert_eq!(Value::String("a".into()).get_type(), ValueType::String);
    assert_eq!(Value::Int64(1).get_type(), ValueType::Int64);
    assert_eq!(Value::UInt8(1).get_type(), ValueType::UInt8);
}

#[test]
fn test_compare_values_same_type() {
    assert_eq!(
        compare_values(&Value::Int32(1), &Value::Int32(2)),
        Some(ValOrder::Less)
    );
    assert_eq!(
        compare_values(
            &Value::String("abc".into()),
            &Value::String("abd".into())
        ),
        Some(ValOrder::Less)
    );
    assert_eq!(
        compare_values(&Value::Bool(true), &Value::Bool(false)),
        Some(ValOrder::Greater)
    );
}

#[test]
fn test_compare_values_null_greatest() {
    // Null sorts greater than any non-null value
    assert_eq!(
        compare_values(&Value::Null, &Value::Int64(5)),
        Some(ValOrder::Greater)
    );
    assert_eq!(
        compare_values(&Value::Int64(5), &Value::Null),
        Some(ValOrder::Less)
    );
    assert_eq!(
        compare_values(&Value::Null, &Value::Null),
        Some(ValOrder::Equal)
    );
}

#[test]
fn test_compare_values_cross_type() {
    assert_eq!(
        compare_values(&Value::Int32(1), &Value::Int64(1)),
        None
    );
}

#[test]
fn test_str_eq() {
    assert!(str_eq("hello", "hello"));
    assert!(!str_eq("hello", "hella"));
    assert!(!str_eq("hello", "hell"));
}

#[test]
fn test_error_describe() {
    let e = Error::CouldNotReadData("CRC mismatch".to_string());
    assert!(e.describe().contains("CRC mismatch"));
    assert_eq!(Error::TableNotFound, Error::TableNotFound);
    assert_ne!(Error::TableNotFound, Error::DatabaseNotFound);
}

#[test]
fn test_unix_time_progresses() {
    let t = get_unix_time().unwrap();
    assert!(t > 1_500_000_000_000);
}
