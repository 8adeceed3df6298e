//! Tests for the CQL parser and planner.

use cqlite::data::ColumnType;
use cqlite::parse::parse;
use cqlite::parse::ParsedExpr;
use cqlite::parse::ParsedStatement;
use cqlite::schema::ColumnMetadata;
use cqlite::schema::Kind;
use cqlite::schema::TableMetadata;
use cqlite::schema::Tables;

fn users_table(id_type: ColumnType) -> TableMetadata {
    TableMetadata {
        name: "users".to_string(),
        partition_key: vec!["id".to_string()],
        cluster_key: vec![],
        columns: vec![
            ColumnMetadata {
                name: "id".to_string(),
                column_type: id_type,
                kind: Kind::PartitionKey,
            },
            ColumnMetadata {
                name: "name".to_string(),
                column_type: ColumnType::Varchar,
                kind: Kind::Regular,
            },
        ],
    }
}

#[test]
fn parse_insert_valid() {
    let mut tables = Tables::new();
    tables.insert(users_table(ColumnType::Int));

    let sql = "INSERT INTO users (id, name) VALUES (1, 'John Doe')".to_string();
    let result = parse(sql, &tables);
    assert!(result.is_ok());

    if let ParsedStatement::Insert(parsed_insert) = result.unwrap() {
        assert_eq!(parsed_insert.table.name, "users");
        assert_eq!(parsed_insert.values.len(), 2);
    } else {
        panic!("Expected ParsedStatement::Insert");
    }
}

#[test]
fn test_parse_create_table() {
    let tables = Tables::new();
    let sql = "CREATE TABLE users (id smallint PRIMARY KEY, name varchar)".to_string();

    let result = parse(sql, &tables);

    assert!(result.is_ok());

    if let ParsedStatement::Create(table) = result.unwrap() {
        assert_eq!(table.name, "users");
        assert_eq!(table.partition_key, vec!["id"]);
        assert_eq!(table.cluster_key.len(), 0);

        let id_column = table.get_column(&"id".to_string()).unwrap();

        assert_eq!(id_column.name, "id");
        assert_eq!(id_column.column_type, ColumnType::Smallint);
        assert_eq!(id_column.kind, Kind::PartitionKey);

        let name_column = table.get_column(&"name".to_string()).unwrap();

        assert_eq!(name_column.name, "name");
        assert_eq!(name_column.column_type, ColumnType::Varchar);
        assert_eq!(name_column.kind, Kind::Regular);
    } else {
        panic!("Expected ParsedStatement::Create");
    }
}

#[test]
fn test_parse() {
    let mut tables = Tables::new();
    tables.insert(users_table(ColumnType::Smallint));

    let sql = "SELECT id, name FROM users".to_string();

    let result = parse(sql, &tables);

    assert!(result.is_ok());

    match result.unwrap() {
        ParsedStatement::Select(parsed_query) => {
            assert_eq!(parsed_query.table.name, "users");
            assert_eq!(parsed_query.projection.len(), 2);

            if let ParsedExpr::Column(column) = &parsed_query.projection[0] {
                assert_eq!(column.resolved_name, "id");
                assert_eq!(column.column_metadata.name, "id");
            } else {
                panic!("Expected ParsedExpr::Column");
            }

            if let ParsedExpr::Column(column) = &parsed_query.projection[1] {
                assert_eq!(column.resolved_name, "name");
                assert_eq!(column.column_metadata.name, "name");
            } else {
                panic!("Expected ParsedExpr::Column");
            }
        },
        _ => {
            panic!("Expected SELECT")
        },
    }
}

#[test]
fn test_parse_unknown_table_is_invalid() {
    let tables = Tables::new();
    let r = parse("SELECT * FROM unknown_table".to_string(), &tables);
    assert!(r.is_err());
    assert_eq!(r.err().unwrap().code.to_code(), 0x2200);
}

#[test]
fn test_parse_unknown_column_is_invalid() {
    let mut tables = Tables::new();
    tables.insert(users_table(ColumnType::Int));
    let r = parse("SELECT missing FROM users".to_string(), &tables);
    assert!(r.is_err());
    assert_eq!(r.err().unwrap().code.to_code(), 0x2200);
}

#[test]
fn test_parse_two_statements_is_invalid() {
    let mut tables = Tables::new();
    tables.insert(users_table(ColumnType::Int));
    let r = parse("SELECT id FROM users; SELECT id FROM users".to_string(), &tables);
    assert!(r.is_err());
    assert_eq!(r.err().unwrap().code.to_code(), 0x2200);
}

#[test]
fn test_parse_unsupported_operator_is_invalid() {
    let mut tables = Tables::new();
    tables.insert(users_table(ColumnType::Int));
    let r = parse("SELECT id FROM users WHERE id > 3".to_string(), &tables);
    assert!(r.is_err());
    assert_eq!(r.err().unwrap().code.to_code(), 0x2200);
}

#[test]
fn test_parse_select_where_records_partition_key_text() {
    let mut tables = Tables::new();
    tables.insert(users_table(ColumnType::Int));
    let r = parse("SELECT id FROM users WHERE id = 7".to_string(), &tables).unwrap();
    if let ParsedStatement::Select(q) = r {
        assert_eq!(q.partition_key, vec!["7".to_string()]);
        assert_eq!(q.filters.len(), 1);
        assert_eq!(q.filters[0].0, "id");
    } else {
        panic!("Expected SELECT");
    }
}

#[test]
fn test_parse_insert_records_partition_key_text() {
    let mut tables = Tables::new();
    tables.insert(users_table(ColumnType::Int));
    let r = parse("INSERT INTO users (id, name) VALUES (7, 'x')".to_string(), &tables).unwrap();
    if let ParsedStatement::Insert(pi) = r {
        assert_eq!(pi.partition_key, vec!["7".to_string()]);
        assert_eq!(pi.clustering_key.len(), 0);
    } else {
        panic!("Expected INSERT");
    }
}

#[test]
fn test_parse_alias_resolution() {
    let mut tables = Tables::new();
    tables.insert(users_table(ColumnType::Int));
    let r = parse("SELECT name AS n FROM users".to_string(), &tables).unwrap();
    if let ParsedStatement::Select(q) = r {
        if let ParsedExpr::Column(c) = &q.projection[0] {
            assert_eq!(c.target_column, "name");
            assert_eq!(c.resolved_name, "n");
        } else {
            panic!("Expected ParsedExpr::Column");
        }
    } else {
        panic!("Expected SELECT");
    }
}

#[test]
fn test_parse_create_duplicate_column_last_wins() {
    let tables = Tables::new();
    let sql = "CREATE TABLE t (a int, a varchar PRIMARY KEY)".to_string();
    let r = parse(sql, &tables).unwrap();
    if let ParsedStatement::Create(table) = r {
        assert_eq!(table.columns.len(), 1);
        assert_eq!(table.columns[0].name, "a");
        assert_eq!(table.columns[0].column_type, ColumnType::Varchar);
        assert_eq!(table.columns[0].kind, Kind::PartitionKey);
        assert_eq!(table.partition_key, vec!["a"]);
    } else {
        panic!("Expected ParsedStatement::Create");
    }
}

#[test]
fn test_parse_trailing_semicolon_accepted() {
    let mut tables = Tables::new();
    tables.insert(users_table(ColumnType::Int));
    let r = parse("SELECT id FROM users;".to_string(), &tables);
    assert!(r.is_ok());
}

#[test]
fn test_parse_numeric_overflow_is_invalid() {
    let mut tables = Tables::new();
    tables.insert(users_table(ColumnType::Int));
    let r = parse(
        "INSERT INTO users (id, name) VALUES (99999999999, 'x')".to_string(),
        &tables,
    );
    assert!(r.is_err());
    assert_eq!(r.err().unwrap().code.to_code(), 0x2200);
}

#[test]
fn test_parse_null_literal() {
    let mut tables = Tables::new();
    tables.insert(users_table(ColumnType::Int));
    let r = parse("INSERT INTO users (id, name) VALUES (1, NULL)".to_string(), &tables).unwrap();
    if let ParsedStatement::Insert(pi) = r {
        assert!(matches!(pi.values[1], ParsedExpr::Literal(None)));
    } else {
        panic!("Expected INSERT");
    }
}
