//! Tests for the executor and the engine, against the real key-value
//! store.

use cqlite::data::ColumnType;
use cqlite::data::Row;
use cqlite::data::Value;
use cqlite::execution::execute_create_table;
use cqlite::execution::execute_insert;
use cqlite::execution::execute_select;
use cqlite::execution::Engine;
use cqlite::operation::Consistency;
use cqlite::operation::Query;
use cqlite::operation::QueryOptions;
use cqlite::parse::ParsedExpr;
use cqlite::parse::ParsedInsert;
use cqlite::parse::ParsedQuery;
use cqlite::parse::ProjectedColumn;
use cqlite::schema::ColumnMetadata;
use cqlite::schema::Kind;
use cqlite::schema::TableMetadata;
use cqlite::schema::Tables;

fn plain_query(text: &str) -> Query {
    Query {
        query: text.to_string(),
        query_options: QueryOptions {
            consistency: Consistency::One,
            values: None,
            skip_metadata: false,
            page_size: None,
            paging_state: None,
            timestamp: None,
        },
    }
}

fn users_table(id_type: ColumnType) -> TableMetadata {
    TableMetadata {
        name: "users".to_string(),
        partition_key: vec!["id".to_string()],
        cluster_key: vec![],
        columns: vec![
            ColumnMetadata {
                name: "id".to_string(),
                column_type: id_type,
                kind: Kind::PartitionKey,
            },
            ColumnMetadata {
                name: "name".to_string(),
                column_type: ColumnType::Varchar,
                kind: Kind::Regular,
            },
        ],
    }
}

fn projection_for(table: &TableMetadata) -> Vec<ParsedExpr> {
    vec![
        ParsedExpr::Column(ProjectedColumn {
            target_column: "id".to_string(),
            resolved_name: "id".to_string(),
            column_metadata: table.columns[0].clone(),
        }),
        ParsedExpr::Column(ProjectedColumn {
            target_column: "name".to_string(),
            resolved_name: "name".to_string(),
            column_metadata: table.columns[1].clone(),
        }),
    ]
}

#[test]
fn test_execute_full_flow() {
    let table_metadata = users_table(ColumnType::Int);

    let mut tables = Tables::new();
    let fjall = fjall::Database::open(fjall::Config::new(std::path::Path::new("/tmp/x"))).unwrap();

    let create_result = execute_create_table(&table_metadata, &mut tables);

    assert!(create_result.is_ok());
    assert!(tables.get(&"users".to_string()).is_some());

    let parsed_insert = ParsedInsert {
        table: table_metadata.duplicate(),
        partition_key: vec!["1".to_string()],
        clustering_key: vec![],
        columns: vec!["id".to_string(), "name".to_string()],
        values: vec![
            ParsedExpr::Literal(Some(Value::Int(1))),
            ParsedExpr::Literal(Some(Value::Varchar("John Doe".to_string()))),
        ],
    };

    let insert_result = execute_insert(&fjall, parsed_insert);
    assert!(insert_result.is_ok());

    let parsed_query = ParsedQuery {
        table: table_metadata.duplicate(),
        partition_key: vec!["1".to_string()],
        clustering_key: vec![],
        projection: projection_for(&table_metadata),
        filters: vec![],
        column_count: 2,
    };

    let select_result = execute_select(&fjall, parsed_query);
    assert!(select_result.is_ok());

    let results = select_result.unwrap();
    let row = &results.result[0];

    assert_eq!(row.len(), 2);
    assert_eq!(row[0], Some(Value::Int(1)));
    assert_eq!(row[1], Some(Value::Varchar("John Doe".to_string())));
}

#[test]
fn test_execute() {
    let table = users_table(ColumnType::Smallint);
    let mut tables = Tables::new();
    tables.insert(table.duplicate());

    let ks = fjall::Database::open(fjall::Config::new(std::path::Path::new("/tmp/x2"))).unwrap();
    let row_a = Row::from_values(vec![Value::Smallint(1), Value::Varchar("row1".to_string())]);
    let row_b = Row::from_values(vec![Value::Smallint(2), Value::Varchar("row2".to_string())]);
    let partition = ks
        .keyspace(&table.name, fjall::KeyspaceCreateOptions::default)
        .unwrap();

    partition.insert("1", row_a.to_bytes()).unwrap();
    partition.insert("2", row_b.to_bytes()).unwrap();

    let parsed_query = ParsedQuery {
        partition_key: vec![1u16.to_string()],
        clustering_key: vec![],
        projection: projection_for(&table),
        filters: vec![],
        table,
        column_count: 2,
    };

    let result = execute_select(&ks, parsed_query);

    assert!(result.is_ok());

    let results = result.unwrap();
    let row = &results.result[0];

    assert_eq!(row.len(), 2);
    assert_eq!(row[0], Some(Value::Smallint(1)));
    assert_eq!(row[1], Some(Value::Varchar("row1".to_string())));
}

#[test]
fn test_execute_create_table() {
    let table_metadata = users_table(ColumnType::Int);

    let mut tables = Tables::new();

    let result = execute_create_table(&table_metadata, &mut tables);

    assert!(result.is_ok());

    assert!(tables.get(&"users".to_string()).is_some());

    let created_table = tables.get(&"users".to_string()).unwrap();

    assert_eq!(created_table.name, "users");
    assert_eq!(created_table.columns.len(), 2);
    assert_eq!(created_table.columns[0].name, "id");
    assert_eq!(created_table.columns[1].name, "name");
}

#[test]
fn query_create_insert_select() {
    let tables = Tables::new();
    let fjall =
        fjall::Database::open(fjall::Config::new(std::path::Path::new("/tmp/test_db"))).unwrap();
    let mut database = Engine { name: "test_db".to_string(), tables, fjall };

    let create_table_query = "
            CREATE TABLE users (
                id INT PRIMARY KEY,
                name VARCHAR,
                age INT,
                is_active BOOLEAN
            )
        ";
    let create_result = database.query(plain_query(create_table_query));
    assert!(create_result.is_ok());

    let insert_query_1 = "
            INSERT INTO users (id, name, age, is_active)
            VALUES (1, 'Alice', 30, true)
        ";
    let insert_result_1 = database.query(plain_query(insert_query_1));
    assert!(insert_result_1.is_ok());

    let insert_query_2 = "
            INSERT INTO users (id, name, age, is_active)
            VALUES (2, 'Bob', NULL, NULL)
        ";
    let insert_result_2 = database.query(plain_query(insert_query_2));
    assert!(insert_result_2.is_ok());

    let select_query = "SELECT id, name, age, is_active FROM users";
    let select_result = database.query(plain_query(select_query));
    assert!(select_result.is_ok());

    let results = select_result.unwrap();

    let row1 = &results.result[0];
    assert_eq!(row1[0], Some(Value::Int(1)));
    assert_eq!(row1[1], Some(Value::Varchar("Alice".to_string())));
    assert_eq!(row1[2], Some(Value::Int(30)));
    assert_eq!(row1[3], Some(Value::Boolean(true)));

    let row2 = &results.result[1];
    assert_eq!(row2[0], Some(Value::Int(2)));
    assert_eq!(row2[1], Some(Value::Varchar("Bob".to_string())));
    assert_eq!(row2[2], None);
    assert_eq!(row2[3], None);
}

#[test]
fn query_single_record() {
    let tables = Tables::new();
    let fjall = fjall::Database::open(fjall::Config::new(std::path::Path::new(
        "/tmp/test_db_single",
    )))
    .unwrap();
    let mut database = Engine { name: "test_db".to_string(), tables, fjall };

    let create_table_query = "
            CREATE TABLE users (
                id INT PRIMARY KEY,
                name VARCHAR,
                age INT,
                is_active BOOLEAN
            )
        ";
    let create_result = database.query(plain_query(create_table_query));
    assert!(create_result.is_ok());

    let insert_query = "
            INSERT INTO users (id, name, age, is_active)
            VALUES (1, 'Alice', 30, true)
        ";
    let insert_result = database.query(plain_query(insert_query));
    assert!(insert_result.is_ok());

    let select_query = "SELECT id, name, age, is_active FROM users WHERE id = 1";
    let select_result = database.query(plain_query(select_query));
    assert!(select_result.is_ok());

    let results = select_result.unwrap();

    let row = &results.result[0];
    assert_eq!(row[0], Some(Value::Int(1)));
    assert_eq!(row[1], Some(Value::Varchar("Alice".to_string())));
    assert_eq!(row[2], Some(Value::Int(30)));
    assert_eq!(row[3], Some(Value::Boolean(true)));

    assert_eq!(results.result.len(), 1);
}

#[test]
fn query_unknown_table_returns_invalid() {
    let tables = Tables::new();
    let fjall = fjall::Database::open(fjall::Config::new(std::path::Path::new(
        "/tmp/test_db_unknown",
    )))
    .unwrap();
    let mut database = Engine { name: "test_db".to_string(), tables, fjall };
    let r = database.query(plain_query("SELECT * FROM unknown_table"));
    assert!(r.is_err());
    assert_eq!(r.err().unwrap().code.to_code(), 0x2200);
}

#[test]
fn query_rejects_untokenizable_text() {
    let tables = Tables::new();
    let fjall = fjall::Database::open(fjall::Config::new(std::path::Path::new(
        "/tmp/test_db_garbage",
    )))
    .unwrap();
    let mut database = Engine { name: "test_db".to_string(), tables, fjall };
    let r = database.query(plain_query("SELECT id FROM users @#"));
    assert!(r.is_err());
    assert_eq!(r.err().unwrap().code.to_code(), 0x2200);

    let r2 = database.query(plain_query("DROP TABLE users"));
    assert!(r2.is_err());
    assert_eq!(r2.err().unwrap().code.to_code(), 0x2200);
}

#[test]
fn query_select_sees_created_schema() {
    let tables = Tables::new();
    let fjall = fjall::Database::open(fjall::Config::new(std::path::Path::new(
        "/tmp/test_db_schema",
    )))
    .unwrap();
    let mut database = Engine { name: "test_db".to_string(), tables, fjall };

    let before = database.query(plain_query("SELECT id FROM fresh_table"));
    assert!(before.is_err());

    let create = database.query(plain_query("CREATE TABLE fresh_table (id INT PRIMARY KEY)"));
    assert!(create.is_ok());

    let after = database.query(plain_query("SELECT id FROM fresh_table"));
    assert!(after.is_ok());
}
