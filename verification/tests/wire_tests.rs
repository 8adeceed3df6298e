//! Tests for the wire primitives: big-endian integers, strings, and
//! booleans.

use cqlite::wire::read_int;
use cqlite::wire::read_long;
use cqlite::wire::read_string;
use cqlite::wire::read_unsigned_short;
use cqlite::wire::write_bool;
use cqlite::wire::write_bytes;
use cqlite::wire::write_int;
use cqlite::wire::write_long;
use cqlite::wire::write_string;
use cqlite::wire::write_tinyint;
use cqlite::wire::write_unsigned_short;

#[test]
fn test_string() {
    let mut buf: Vec<u8> = Vec::new();
    buf.extend_from_slice(&5u16.to_be_bytes());
    buf.extend_from_slice(b"Farts");

    let (string, pos) = read_string(&buf, 0).unwrap();

    assert_eq!(string, String::from("Farts"));
    assert_eq!(pos, buf.len());
}

#[test]
fn test_numeric_reader() {
    let src: Vec<u8> = 12i32.to_be_bytes().to_vec();
    let (read, pos) = read_int(&src, 0).unwrap();
    assert_eq!(12i32, read);
    assert_eq!(pos, src.len());

    let src: Vec<u8> = 12i64.to_be_bytes().to_vec();
    let (read, pos) = read_long(&src, 0).unwrap();
    assert_eq!(12i64, read);
    assert_eq!(pos, src.len());

    let src: Vec<u8> = 12u16.to_be_bytes().to_vec();
    let (read, pos) = read_unsigned_short(&src, 0).unwrap();
    assert_eq!(12u16, read);
    assert_eq!(pos, src.len());
}

#[test]
fn test_int_macro() {
    let mut bytes: Vec<u8> = Vec::new();
    write_int(&mut bytes, 42);
    assert_eq!(bytes.as_slice(), &42i32.to_be_bytes()[..]);
}

#[test]
fn test_long_macro() {
    let mut bytes: Vec<u8> = Vec::new();
    write_long(&mut bytes, 42);
    assert_eq!(bytes.as_slice(), &42i64.to_be_bytes()[..]);
}

#[test]
fn test_short_macro() {
    let mut bytes: Vec<u8> = Vec::new();
    write_unsigned_short(&mut bytes, 42);
    assert_eq!(bytes.as_slice(), &42u16.to_be_bytes()[..]);
}

#[test]
fn test_tinyint_macro() {
    let mut bytes: Vec<u8> = Vec::new();
    write_tinyint(&mut bytes, 42);
    assert_eq!(bytes.as_slice(), &42i8.to_be_bytes()[..]);
}

#[test]
fn test_bytes_macro() {
    let mut bytes: Vec<u8> = Vec::new();
    let value = b"hello".to_vec();
    write_bytes(&mut bytes, Some(&value));

    let (size, content) = bytes.split_at(4);

    assert_eq!(size, &5i32.to_be_bytes()[..]);
    assert_eq!(content.to_vec(), value);

    let mut absent: Vec<u8> = Vec::new();
    write_bytes(&mut absent, None);
    assert_eq!(absent, (-1i32).to_be_bytes().to_vec());
}

#[test]
fn test_string_macro() {
    let mut bytes: Vec<u8> = Vec::new();
    let value = "hello";
    write_string(&mut bytes, value);
    let mut expected: Vec<u8> = Vec::new();
    expected.extend_from_slice(&(value.len() as u16).to_be_bytes());
    expected.extend_from_slice(value.as_bytes());
    assert_eq!(bytes, expected);
}

#[test]
fn test_bool_macro() {
    let mut bytes: Vec<u8> = Vec::new();
    write_bool(&mut bytes, true);
    assert_eq!(bytes.as_slice(), &[1u8][..]);

    let mut bytes: Vec<u8> = Vec::new();
    write_bool(&mut bytes, false);
    assert_eq!(bytes.as_slice(), &[0u8][..]);
}

#[test]
fn test_string_round_trip_non_ascii() {
    let mut buf: Vec<u8> = Vec::new();
    write_string(&mut buf, "héllo wörld");
    let (s, pos) = read_string(&buf, 0).unwrap();
    assert_eq!(s, "héllo wörld");
    assert_eq!(pos, buf.len());
}

#[test]
fn test_string_lossy_on_invalid_utf8() {
    let mut buf: Vec<u8> = Vec::new();
    buf.extend_from_slice(&2u16.to_be_bytes());
    buf.extend_from_slice(&[0xFF, 0xFE]);
    let (s, _) = read_string(&buf, 0).unwrap();
    assert_eq!(s, "\u{FFFD}\u{FFFD}");
}

#[test]
fn test_read_truncated_is_none() {
    let buf: Vec<u8> = vec![0, 0, 1];
    assert!(read_int(&buf, 0).is_none());
    assert!(read_long(&buf, 0).is_none());
    let buf2: Vec<u8> = vec![0, 5, b'a'];
    assert!(read_string(&buf2, 0).is_none());
}
