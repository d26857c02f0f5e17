use touchdb::column_header::{ColumnHeader, HEADER_SIZE};
use touchdb::fields::FieldType;

#[test]
fn test_column_header_write_read() {
    let header = ColumnHeader::new(FieldType::String);
    let mut buffer = Vec::new();

    header.write(&mut buffer);
    assert_eq!(buffer.len(), HEADER_SIZE);

    let read_header = ColumnHeader::read(&buffer).unwrap();

    assert_eq!(read_header, header);
}

#[test]
fn test_column_header_invalid_magic() {
    let mut buffer = vec![0u8; HEADER_SIZE];
    buffer[0..6].copy_from_slice(b"WRONG\0");

    let result = ColumnHeader::read(&buffer);

    assert!(result.is_err());
    assert!(result.unwrap_err().describe().contains("wrong magic bytes"));
}
