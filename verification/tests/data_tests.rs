//! Tests for typed values, rows, and the on-disk row codec.

use cqlite::data::ColumnType;
use cqlite::data::Row;
use cqlite::data::Value;
use uuid::Uuid;

#[test]
fn test_value_column_type() {
    assert_eq!(Value::Ascii(vec![65, 66, 67]).column_type(), ColumnType::Ascii);
    assert_eq!(Value::Bigint(123456789).column_type(), ColumnType::Bigint);
    assert_eq!(Value::Blob(vec![1, 2, 3]).column_type(), ColumnType::Blob);
    assert_eq!(Value::Boolean(true).column_type(), ColumnType::Boolean);
    assert_eq!(Value::Counter(987654321).column_type(), ColumnType::Counter);
    assert_eq!(Value::Decimal(vec![1, 2, 3, 4]).column_type(), ColumnType::Decimal);
    assert_eq!(
        Value::Double(std::f64::consts::PI.to_bits()).column_type(),
        ColumnType::Double
    );
    assert_eq!(
        Value::Float(std::f32::consts::E.to_bits()).column_type(),
        ColumnType::Float
    );
    assert_eq!(Value::Int(42).column_type(), ColumnType::Int);
    assert_eq!(Value::Timestamp(1627846261).column_type(), ColumnType::Timestamp);
    assert_eq!(
        Value::Uuid(Uuid::new_v4().as_bytes().to_vec()).column_type(),
        ColumnType::Uuid
    );
    assert_eq!(Value::Varchar("test".to_string()).column_type(), ColumnType::Varchar);
    assert_eq!(Value::Varint(vec![1, 2, 3, 4]).column_type(), ColumnType::Varint);
    assert_eq!(
        Value::Timeuuid(Uuid::new_v4().as_bytes().to_vec()).column_type(),
        ColumnType::Timeuuid
    );
    assert_eq!(Value::Inet(vec![192, 168, 1, 1]).column_type(), ColumnType::Inet);
    assert_eq!(Value::Date(18628).column_type(), ColumnType::Date);
    assert_eq!(Value::Time(1234567890).column_type(), ColumnType::Time);
    assert_eq!(Value::Smallint(123).column_type(), ColumnType::Smallint);
    assert_eq!(Value::Tinyint(12).column_type(), ColumnType::Tinyint);
}

#[test]
fn test_row_equality() {
    let row1 = Row::from_values(vec![Value::Ascii(b"Hello".to_vec()), Value::Int(42)]);
    let row2 = Row::from_values(vec![Value::Ascii(b"Hello".to_vec()), Value::Int(42)]);

    assert_eq!(row1, row2);
}

#[test]
fn test_value_equality() {
    let value1 = Value::Int(42);
    let value2 = Value::Int(42);
    assert_eq!(value1, value2);
}

#[test]
fn test_value_inequality() {
    let value1 = Value::Int(42);
    let value2 = Value::Int(43);
    assert_ne!(value1, value2);
}

#[test]
fn test_row_inequality() {
    let row1 = Row::from_values(vec![Value::Ascii(b"Hello".to_vec()), Value::Int(42)]);
    let row2 = Row::from_values(vec![Value::Ascii(b"Hello".to_vec()), Value::Int(43)]);

    assert_ne!(row1, row2);
}

#[test]
fn test_from_cql_type() {
    assert_eq!(ColumnType::from_cql_type("int".to_string()), Some(ColumnType::Int));
    assert_eq!(ColumnType::from_cql_type("INT".to_string()), Some(ColumnType::Int));
    assert_eq!(ColumnType::from_cql_type("text".to_string()), Some(ColumnType::Varchar));
    assert_eq!(ColumnType::from_cql_type("varchar".to_string()), Some(ColumnType::Varchar));
    assert_eq!(ColumnType::from_cql_type("uuid".to_string()), Some(ColumnType::Uuid));
    assert_eq!(ColumnType::from_cql_type("invalid".to_string()), None);
}

#[test]
fn test_slice_to_row() {
    let values = vec![
        Value::Ascii(vec![65, 66, 67]),
        Value::Bigint(123456789),
        Value::Blob(vec![1, 2, 3]),
        Value::Boolean(true),
        Value::Counter(987654321),
        Value::Decimal(vec![1, 2, 3, 4]),
        Value::Double(std::f64::consts::PI.to_bits()),
        Value::Float(std::f32::consts::E.to_bits()),
        Value::Int(42),
        Value::Timestamp(1627846261),
        Value::Uuid(Uuid::new_v4().as_bytes().to_vec()),
        Value::Varchar("test".to_string()),
        Value::Varint(vec![1, 2, 3, 4]),
        Value::Timeuuid(Uuid::new_v4().as_bytes().to_vec()),
        Value::Inet(vec![192, 168, 1, 1]),
        Value::Date(18628),
        Value::Time(1234567890),
        Value::Smallint(123),
        Value::Tinyint(12),
    ];

    let row = Row::from_values(values.clone());
    let slice = row.to_bytes();

    let row2 = Row::from_bytes(&slice).unwrap();

    assert_eq!(row, row2);
}

#[test]
fn test_slice_to_row_with_nulls() {
    let values = vec![
        Some(Value::Ascii(vec![65, 66, 67])),
        None,
        Some(Value::Bigint(123456789)),
        None,
        Some(Value::Boolean(true)),
        None,
        Some(Value::Int(42)),
    ];

    let row = Row { columns: values.clone() };
    let slice = row.to_bytes();

    let row2 = Row::from_bytes(&slice).unwrap();

    assert_eq!(row, row2);
}

#[test]
fn test_type_identifiers_match_table() {
    assert_eq!(ColumnType::Ascii.type_identifier(), 0x0001);
    assert_eq!(ColumnType::Bigint.type_identifier(), 0x0002);
    assert_eq!(ColumnType::Blob.type_identifier(), 0x0003);
    assert_eq!(ColumnType::Boolean.type_identifier(), 0x0004);
    assert_eq!(ColumnType::Counter.type_identifier(), 0x0005);
    assert_eq!(ColumnType::Decimal.type_identifier(), 0x0006);
    assert_eq!(ColumnType::Double.type_identifier(), 0x0007);
    assert_eq!(ColumnType::Float.type_identifier(), 0x0008);
    assert_eq!(ColumnType::Int.type_identifier(), 0x0009);
    assert_eq!(ColumnType::Timestamp.type_identifier(), 0x000B);
    assert_eq!(ColumnType::Uuid.type_identifier(), 0x000C);
    assert_eq!(ColumnType::Varchar.type_identifier(), 0x000D);
    assert_eq!(ColumnType::Varint.type_identifier(), 0x000E);
    assert_eq!(ColumnType::Timeuuid.type_identifier(), 0x000F);
    assert_eq!(ColumnType::Inet.type_identifier(), 0x0010);
    assert_eq!(ColumnType::Date.type_identifier(), 0x0011);
    assert_eq!(ColumnType::Time.type_identifier(), 0x0012);
    assert_eq!(ColumnType::Smallint.type_identifier(), 0x0013);
    assert_eq!(ColumnType::Tinyint.type_identifier(), 0x0014);
}

#[test]
fn test_row_decode_rejects_unknown_type_id() {
    // a present column carrying the reserved identifier 0x000A
    let bytes: Vec<u8> = vec![1, 0x00, 0x0A, 0, 0, 0, 0];
    let r = Row::from_bytes(&bytes);
    assert!(r.is_err());
}

#[test]
fn test_row_decode_rejects_truncated_record() {
    // a present bigint column with only four of its eight payload bytes
    let bytes: Vec<u8> = vec![1, 0x00, 0x02, 1, 2, 3, 4];
    let r = Row::from_bytes(&bytes);
    assert!(r.is_err());
}

#[test]
fn test_empty_row_round_trip() {
    let row = Row { columns: vec![] };
    let bytes = row.to_bytes();
    assert!(bytes.is_empty());
    let row2 = Row::from_bytes(&bytes).unwrap();
    assert_eq!(row, row2);
}

#[test]
fn test_all_null_row_round_trip() {
    let row = Row { columns: vec![None, None, None] };
    let bytes = row.to_bytes();
    let row2 = Row::from_bytes(&bytes).unwrap();
    assert_eq!(row, row2);
}
