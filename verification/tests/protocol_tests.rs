//! Tests for the frame codec, the header, the response bodies, and the
//! session driver.

use cqlite::data::ColumnType;
use cqlite::data::Row;
use cqlite::data::Value;
use cqlite::execution::Engine;
use cqlite::frame::CqlFrameCodec;
use cqlite::header::Header;
use cqlite::header::MessageDirection;
use cqlite::header::ProtocolVersion;
use cqlite::operation::decode_query;
use cqlite::operation::map_consistency;
use cqlite::operation::Consistency;
use cqlite::operation::Operation;
use cqlite::response::decode_error;
use cqlite::response::decode_result;
use cqlite::response::decode_supported;
use cqlite::response::encode_error;
use cqlite::response::encode_result;
use cqlite::response::encode_supported;
use cqlite::response::ColumnSpec;
use cqlite::response::CqlResult;
use cqlite::response::Error;
use cqlite::response::Flags;
use cqlite::response::GlobalTableSpec;
use cqlite::response::Metadata;
use cqlite::schema::Tables;
use cqlite::session::exchange;
use cqlite::session::supported_options;
use cqlite::string_map::StringMap;
use cqlite::wire::write_byte;
use cqlite::wire::write_long_string;
use cqlite::wire::write_string;
use cqlite::wire::write_unsigned_short;

/// A query frame for the given CQL text, as a client would send it.
fn query_frame(text: &str) -> Vec<u8> {
    let mut body: Vec<u8> = Vec::new();
    write_long_string(&mut body, text);
    write_unsigned_short(&mut body, 0x0001);
    write_byte(&mut body, 0);
    let header = Header::new(
        ProtocolVersion::V4,
        MessageDirection::Request,
        0,
        0,
        0x07,
        body.len() as i32,
    );
    let mut frame: Vec<u8> = Vec::new();
    header.to_bytes(&mut frame);
    frame.extend_from_slice(&body);
    frame
}

#[test]
fn test_header_round_trip() {
    let header = Header::new(ProtocolVersion::V4, MessageDirection::Response, 3, 7, 0x08, 1234);
    let mut bytes: Vec<u8> = Vec::new();
    header.to_bytes(&mut bytes);
    assert_eq!(bytes.len(), 9);
    let decoded = Header::from_bytes(&bytes);
    assert_eq!(decoded.protocol_version(), ProtocolVersion::V4);
    assert_eq!(decoded.message_direction(), MessageDirection::Response);
    assert_eq!(decoded.flags, 3);
    assert_eq!(decoded.stream_id, 7);
    assert_eq!(decoded.op_code, 0x08);
    assert_eq!(decoded.body_length, 1234);
}

#[test]
fn test_frame_decoder_yields_nothing_until_complete() {
    let frame = query_frame("SELECT id FROM users");
    let mut codec = CqlFrameCodec::new();
    // feed the frame one byte at a time: no output before the last byte
    for cut in 0..frame.len() {
        let partial: Vec<u8> = frame[0..cut].to_vec();
        let r = codec.decode(&partial).unwrap();
        assert!(r.is_none());
    }
    let r = codec.decode(&frame).unwrap();
    let (op, consumed) = r.unwrap();
    assert_eq!(consumed, frame.len());
    match op {
        Operation::Query(q) => assert_eq!(q.query, "SELECT id FROM users"),
        _ => panic!("expected a query operation"),
    }
}

#[test]
fn test_frame_decoder_rejects_unknown_opcode() {
    let header = Header::new(ProtocolVersion::V4, MessageDirection::Request, 0, 0, 0x42, 0);
    let mut frame: Vec<u8> = Vec::new();
    header.to_bytes(&mut frame);
    let mut codec = CqlFrameCodec::new();
    assert!(codec.decode(&frame).is_err());
}

#[test]
fn test_startup_frame_decodes() {
    let mut body: Vec<u8> = Vec::new();
    write_unsigned_short(&mut body, 1);
    write_string(&mut body, "CQL_VERSION");
    write_string(&mut body, "3.0.0");
    let header =
        Header::new(ProtocolVersion::V4, MessageDirection::Request, 0, 0, 0x01, body.len() as i32);
    let mut frame: Vec<u8> = Vec::new();
    header.to_bytes(&mut frame);
    frame.extend_from_slice(&body);

    let mut codec = CqlFrameCodec::new();
    let (op, _) = codec.decode(&frame).unwrap().unwrap();
    match op {
        Operation::Startup(m) => {
            assert_eq!(m.get(&"CQL_VERSION".to_string()), Some(&"3.0.0".to_string()));
        },
        _ => panic!("expected a startup operation"),
    }
}

#[test]
fn test_supported_round_trip() {
    let m = supported_options();
    let mut body: Vec<u8> = Vec::new();
    encode_supported(&m, &mut body);
    let decoded = decode_supported(&body).unwrap();
    assert_eq!(decoded.entries.len(), 2);
    assert_eq!(decoded.get(&"CQL_VERSION".to_string()), Some(&"3.0.0".to_string()));
    assert_eq!(decoded.get(&"PROTOCOL_VERSIONS".to_string()), Some(&"4/v4".to_string()));
}

#[test]
fn test_error_body_round_trip() {
    let e = Error::new(0x2200, "bad statement".to_string());
    let mut body: Vec<u8> = Vec::new();
    encode_error(&e, &mut body);
    let d = decode_error(&body).unwrap();
    assert_eq!(d.code, 0x2200);
    assert_eq!(d.message, "bad statement");
}

#[test]
fn test_void_result_round_trip() {
    let mut body: Vec<u8> = Vec::new();
    encode_result(&CqlResult::Void, &mut body);
    assert_eq!(body, 1i32.to_be_bytes().to_vec());
    match decode_result(&body).unwrap() {
        CqlResult::Void => {},
        _ => panic!("expected a void result"),
    }
}

#[test]
fn test_set_keyspace_result_round_trip() {
    let mut body: Vec<u8> = Vec::new();
    encode_result(&CqlResult::SetKeyspace("ks".to_string()), &mut body);
    match decode_result(&body).unwrap() {
        CqlResult::SetKeyspace(s) => assert_eq!(s, "ks"),
        _ => panic!("expected a set-keyspace result"),
    }
}

#[test]
fn test_rows_result_round_trip() {
    let metadata = Metadata {
        flags: Flags { bits: 0x01 },
        paging_state: None,
        column_count: 2,
        global_table_spec: Some(GlobalTableSpec {
            keyspace: "ks".to_string(),
            table: "users".to_string(),
        }),
        column_specs: vec![
            ColumnSpec {
                keyspace: None,
                table: None,
                name: "id".to_string(),
                column_type: ColumnType::Int,
            },
            ColumnSpec {
                keyspace: None,
                table: None,
                name: "name".to_string(),
                column_type: ColumnType::Varchar,
            },
        ],
    };
    let rows = vec![
        Row { columns: vec![Some(Value::Int(1)), Some(Value::Varchar("Alice".to_string()))] },
        Row { columns: vec![Some(Value::Int(2)), None] },
    ];
    let res = CqlResult::Rows { metadata, row_count: 2, rows };
    let mut body: Vec<u8> = Vec::new();
    encode_result(&res, &mut body);
    match decode_result(&body).unwrap() {
        CqlResult::Rows { metadata, row_count, rows } => {
            assert_eq!(row_count, 2);
            assert_eq!(metadata.column_count, 2);
            assert_eq!(metadata.flags.bits(), 0x01);
            let g = metadata.global_table_spec.unwrap();
            assert_eq!(g.keyspace, "ks");
            assert_eq!(g.table, "users");
            assert_eq!(metadata.column_specs[0].name, "id");
            assert_eq!(metadata.column_specs[1].name, "name");
            assert_eq!(rows.len(), 2);
            assert_eq!(rows[0].columns[0], Some(Value::Int(1)));
            assert_eq!(rows[0].columns[1], Some(Value::Varchar("Alice".to_string())));
            assert_eq!(rows[1].columns[0], Some(Value::Int(2)));
            assert_eq!(rows[1].columns[1], None);
        },
        _ => panic!("expected a rows result"),
    }
}

#[test]
fn test_query_body_with_values_and_timestamp() {
    // a query body carrying two positional values, a page size, and a
    // timestamp, with the canonical flag bits
    let mut body: Vec<u8> = Vec::new();
    write_long_string(&mut body, "SELECT id FROM users");
    write_unsigned_short(&mut body, 0x0001);
    write_byte(&mut body, 0x01 | 0x04 | 0x20);
    write_unsigned_short(&mut body, 2);
    cqlite::wire::write_int(&mut body, 3);
    body.extend_from_slice(b"abc");
    cqlite::wire::write_int(&mut body, -1);
    cqlite::wire::write_int(&mut body, 4096);
    cqlite::wire::write_long(&mut body, 77);
    match decode_query(&body).unwrap() {
        Operation::Query(q) => {
            assert_eq!(q.query, "SELECT id FROM users");
            assert_eq!(q.query_options.consistency, Consistency::One);
            match q.query_options.values.unwrap() {
                cqlite::operation::Values::Unnamed(items) => assert_eq!(items.len(), 2),
                _ => panic!("expected positional values"),
            }
            assert!(!q.query_options.skip_metadata);
            assert_eq!(q.query_options.page_size, Some(4096));
            assert!(q.query_options.paging_state.is_none());
            assert_eq!(q.query_options.timestamp, Some(77));
        },
        _ => panic!("expected a query operation"),
    }
}

#[test]
fn test_query_body_truncated_is_protocol_error() {
    let mut body: Vec<u8> = Vec::new();
    write_long_string(&mut body, "SELECT id FROM users");
    write_unsigned_short(&mut body, 0x0001);
    write_byte(&mut body, 0x01);
    // the values flag is set but no count follows
    let r = decode_query(&body);
    assert!(r.is_err());
    assert_eq!(r.err().unwrap().code.to_code(), 0x000A);
}

#[test]
fn test_map_consistency_bounds() {
    assert_eq!(map_consistency(0x0000).unwrap(), Consistency::Any);
    assert_eq!(map_consistency(0x000A).unwrap(), Consistency::LocalOne);
    let r = map_consistency(0x000B);
    assert!(r.is_err());
    assert_eq!(r.err().unwrap().code.to_code(), 0x000A);
}

#[test]
fn test_exchange_startup_gets_ready() {
    let fjall = fjall::Database::open(fjall::Config::new(std::path::Path::new(
        "/tmp/test_db_session1",
    )))
    .unwrap();
    let mut db = Engine { name: "default".to_string(), tables: Tables::new(), fjall };
    let frame = exchange(&mut db, Operation::Startup(StringMap { entries: vec![] })).unwrap();
    // a ready response: version 0x84, opcode 0x02, empty body
    assert_eq!(frame[0], 0x84);
    assert_eq!(frame[4], 0x02);
    assert_eq!(&frame[5..9], &0i32.to_be_bytes());
    assert_eq!(frame.len(), 9);
}

#[test]
fn test_exchange_options_gets_supported() {
    let fjall = fjall::Database::open(fjall::Config::new(std::path::Path::new(
        "/tmp/test_db_session2",
    )))
    .unwrap();
    let mut db = Engine { name: "default".to_string(), tables: Tables::new(), fjall };
    let frame = exchange(&mut db, Operation::Options).unwrap();
    assert_eq!(frame[0], 0x84);
    assert_eq!(frame[4], 0x06);
    let body: Vec<u8> = frame[9..].to_vec();
    let m = decode_supported(&body).unwrap();
    assert_eq!(m.get(&"CQL_VERSION".to_string()), Some(&"3.0.0".to_string()));
    assert_eq!(m.get(&"PROTOCOL_VERSIONS".to_string()), Some(&"4/v4".to_string()));
}

#[test]
fn test_exchange_bad_query_gets_error_frame() {
    let fjall = fjall::Database::open(fjall::Config::new(std::path::Path::new(
        "/tmp/test_db_session3",
    )))
    .unwrap();
    let mut db = Engine { name: "default".to_string(), tables: Tables::new(), fjall };
    let mut codec = CqlFrameCodec::new();
    let frame = query_frame("SELECT * FROM unknown_table");
    let (op, _) = codec.decode(&frame).unwrap().unwrap();
    let response = exchange(&mut db, op).unwrap();
    assert_eq!(response[0], 0x84);
    assert_eq!(response[4], 0x00);
    let body: Vec<u8> = response[9..].to_vec();
    let e = decode_error(&body).unwrap();
    assert_eq!(e.code, 0x2200);
}

#[test]
fn test_exchange_query_gets_rows_frame() {
    let fjall = fjall::Database::open(fjall::Config::new(std::path::Path::new(
        "/tmp/test_db_session4",
    )))
    .unwrap();
    let mut db = Engine { name: "default".to_string(), tables: Tables::new(), fjall };
    let mut codec = CqlFrameCodec::new();

    let (create, _) = codec
        .decode(&query_frame("CREATE TABLE people (id INT PRIMARY KEY, name VARCHAR)"))
        .unwrap()
        .unwrap();
    let r1 = exchange(&mut db, create).unwrap();
    assert_eq!(r1[4], 0x08);

    let (insert, _) = codec
        .decode(&query_frame("INSERT INTO people (id, name) VALUES (5, 'Eve')"))
        .unwrap()
        .unwrap();
    let r2 = exchange(&mut db, insert).unwrap();
    assert_eq!(r2[4], 0x08);

    let (select, _) = codec
        .decode(&query_frame("SELECT id, name FROM people WHERE id = 5"))
        .unwrap()
        .unwrap();
    let r3 = exchange(&mut db, select).unwrap();
    assert_eq!(r3[4], 0x08);
    let body: Vec<u8> = r3[9..].to_vec();
    match decode_result(&body).unwrap() {
        CqlResult::Rows { metadata, row_count, rows } => {
            assert_eq!(metadata.column_count, 2);
            assert_eq!(row_count, 1);
            assert_eq!(rows[0].columns[0], Some(Value::Int(5)));
            assert_eq!(rows[0].columns[1], Some(Value::Varchar("Eve".to_string())));
        },
        _ => panic!("expected a rows result"),
    }
}
