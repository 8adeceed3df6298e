//! The executor: create tables in the catalog, insert rows into the
//! key-value store, and select rows back out, decoding and projecting
//! them against the plan.

use vstd::prelude::*;
use vstd::string::StrSliceExecFns;
use vstd::string::StringExecFns;

use crate::data::opt_val_eq;
use crate::data::spec_row_decodable;
use crate::data::spec_row_encode;
use crate::data::val_eq;
use crate::data::Row;
use crate::data::Value;
use crate::error::DbError;
use crate::error::ErrorCode;
use crate::operation::Query;
use crate::parse::parse;
use crate::parse::spec_parse_create;
use crate::parse::ParsedExpr;
use crate::parse::ParsedInsert;
use crate::parse::ParsedQuery;
use crate::parse::ParsedStatement;
use crate::response::ColumnSpec;
use crate::schema::spec_find_column;
use crate::schema::spec_lookup_table;
use crate::schema::table_eqv;
use crate::schema::TableMetadata;
use crate::schema::Tables;
use crate::store::open_partition;
use crate::store::partition_insert;
use crate::store::partition_iter;
use crate::store::partition_prefix;

verus! {

/// Rows produced by one statement, and the projected columns they carry.
pub struct Results {
    pub result: Vec<Vec<Option<Value>>>,
    pub columns: Vec<ColumnSpec>,
    pub table: String,
}

/// Every present column value is well formed.
pub open spec fn wf_cols(cols: Seq<Option<Value>>) -> bool {
    forall|i: int| 0 <= i < cols.len() ==> (#[trigger] cols[i] matches Some(v) ==> v.wf())
}

/// Copy a value; the copy is equal by type and payload.
pub fn clone_value(v: &Value) -> (r: Value)
    ensures
        val_eq(r, *v),
{
    match v {
        Value::Ascii(b) => Value::Ascii(b.clone()),
        Value::Bigint(i) => Value::Bigint(*i),
        Value::Blob(b) => Value::Blob(b.clone()),
        Value::Boolean(t) => Value::Boolean(*t),
        Value::Counter(i) => Value::Counter(*i),
        Value::Decimal(b) => Value::Decimal(b.clone()),
        Value::Double(bits) => Value::Double(*bits),
        Value::Float(bits) => Value::Float(*bits),
        Value::Int(i) => Value::Int(*i),
        Value::Timestamp(i) => Value::Timestamp(*i),
        Value::Uuid(b) => Value::Uuid(b.clone()),
        Value::Varchar(s) => Value::Varchar(s.clone()),
        Value::Varint(b) => Value::Varint(b.clone()),
        Value::Timeuuid(b) => Value::Timeuuid(b.clone()),
        Value::Inet(b) => Value::Inet(b.clone()),
        Value::Date(i) => Value::Date(*i),
        Value::Time(i) => Value::Time(*i),
        Value::Smallint(i) => Value::Smallint(*i),
        Value::Tinyint(i) => Value::Tinyint(*i),
    }
}

/// What a planned expression evaluates to against a decoded row whose
/// columns follow the table's declared order: a resolved column reads its
/// position, a literal passes through, and anything else is null.
pub open spec fn spec_eval(
    e: ParsedExpr,
    table_cols: Seq<crate::schema::ColumnMetadata>,
    cols: Seq<Option<Value>>,
) -> Option<Value> {
    match e {
        ParsedExpr::Column(pc) => match spec_find_column(table_cols, pc.target_column@) {
            Some(j) => if j < cols.len() {
                cols[j]
            } else {
                None
            },
            None => None,
        },
        ParsedExpr::Literal(ov) => ov,
        ParsedExpr::Function(_, _) => None,
    }
}

/// The position of the column with the given name, if any.
pub fn find_column_index(table: &TableMetadata, name: &String) -> (r: Option<usize>)
    ensures
        r is Some <==> spec_find_column(table.columns@, name@) is Some,
        (r matches Some(i) ==> spec_find_column(table.columns@, name@) == Some(i as int)),
{
    proof {
        broadcast use crate::schema::lemma_find_column;

    }
    let mut i: usize = 0;
    while i < table.columns.len()
        invariant
            i <= table.columns@.len(),
            forall|j: int| 0 <= j < i ==> (#[trigger] table.columns@[j]).name@ != name@,
        decreases table.columns@.len() - i,
    {
        if table.columns[i].name.eq(name) {
            proof {
                crate::schema::lemma_find_column_prefix(table.columns@, name@, i as int);
            }
            return Some(i);
        }
        i = i + 1;
    }
    None
}

impl ParsedExpr {
    /// Evaluate this expression against a decoded row: a resolved column
    /// reads the position its name resolves to, a literal passes through,
    /// and a function call over the empty built-in catalog is null.
    pub fn resolve(&self, table: &TableMetadata, row: &Row) -> (r: Option<Value>)
        ensures
            opt_val_eq(r, spec_eval(*self, table.columns@, row.columns@)),
    {
        match self {
            ParsedExpr::Column(pc) => {
                match find_column_index(table, &pc.target_column) {
                    Some(j) => {
                        if j < row.columns.len() {
                            match &row.columns[j] {
                                Some(v) => Some(clone_value(v)),
                                None => None,
                            }
                        } else {
                            None
                        }
                    },
                    None => None,
                }
            },
            ParsedExpr::Literal(ov) => {
                match ov {
                    Some(v) => Some(clone_value(v)),
                    None => None,
                }
            },
            ParsedExpr::Function(_, _) => None,
        }
    }
}

/// The concatenated text of a list of key parts, without separators.
pub open spec fn spec_concat_texts(parts: Seq<String>) -> Seq<char>
    decreases parts.len(),
{
    if parts.len() == 0 {
        Seq::<char>::empty()
    } else {
        parts[0]@ + spec_concat_texts(parts.drop_first())
    }
}

/// Appending a part appends its text.
proof fn lemma_concat_texts_push(parts: Seq<String>, p: String)
    ensures
        spec_concat_texts(parts.push(p)) == spec_concat_texts(parts) + p@,
    decreases parts.len(),
{
    if parts.len() == 0 {
        assert(parts.push(p).drop_first() =~= parts);
        assert(spec_concat_texts(parts.push(p)) =~= spec_concat_texts(parts) + p@);
    } else {
        assert(parts.push(p).drop_first() =~= parts.drop_first().push(p));
        lemma_concat_texts_push(parts.drop_first(), p);
        assert(spec_concat_texts(parts.push(p)) =~= spec_concat_texts(parts) + p@);
    }
}

/// Key parts with the same texts concatenate to the same text.
pub proof fn lemma_concat_texts_eqv(a: Seq<String>, b: Seq<String>)
    requires
        a.len() == b.len(),
        forall|i: int| 0 <= i < a.len() ==> (#[trigger] a[i])@ == (#[trigger] b[i])@,
    ensures
        spec_concat_texts(a) == spec_concat_texts(b),
    decreases a.len(),
{
    if a.len() == 0 {
    } else {
        assert(forall|i: int|
            0 <= i < a.drop_first().len() ==> (#[trigger] a.drop_first()[i])@ == (
            #[trigger] b.drop_first()[i])@) by {
            assert(forall|i: int|
                0 <= i < a.drop_first().len() ==> a.drop_first()[i] == a[i + 1] && b.drop_first()[i]
                    == b[i + 1]);
        }
        lemma_concat_texts_eqv(a.drop_first(), b.drop_first());
    }
}

/// The storage-key text of a write or lookup: the partition-key texts,
/// then the clustering-key texts, in order, without separators.
pub open spec fn spec_key_text(pk: Seq<String>, ck: Seq<String>) -> Seq<char> {
    spec_concat_texts(pk) + spec_concat_texts(ck)
}

/// Concatenate key parts into one string.
pub fn concat_key(pk: &Vec<String>, ck: &Vec<String>) -> (r: String)
    ensures
        r@ == spec_key_text(pk@, ck@),
{
    let mut s = String::new();
    let mut i: usize = 0;
    while i < pk.len()
        invariant
            i <= pk@.len(),
            s@ == spec_concat_texts(pk@.take(i as int)),
        decreases pk@.len() - i,
    {
        s.append(pk[i].as_str());
        proof {
            lemma_concat_texts_push(pk@.take(i as int), pk@[i as int]);
            assert(pk@.take(i + 1) =~= pk@.take(i as int).push(pk@[i as int]));
        }
        i = i + 1;
    }
    assert(pk@.take(pk@.len() as int) =~= pk@);
    let mut j: usize = 0;
    while j < ck.len()
        invariant
            j <= ck@.len(),
            s@ == spec_concat_texts(pk@) + spec_concat_texts(ck@.take(j as int)),
        decreases ck@.len() - j,
    {
        s.append(ck[j].as_str());
        proof {
            lemma_concat_texts_push(ck@.take(j as int), ck@[j as int]);
            assert(ck@.take(j + 1) =~= ck@.take(j as int).push(ck@[j as int]));
        }
        j = j + 1;
    }
    assert(ck@.take(ck@.len() as int) =~= ck@);
    s
}

/// Law (partition prefix): an insert and a select that record the same
/// partition-key texts, with no clustering keys, address the same storage
/// key text, so the select's prefix lookup covers exactly such rows.
pub proof fn lemma_partition_prefix(pi: ParsedInsert, q: ParsedQuery)
    requires
        pi.partition_key@.len() == q.partition_key@.len(),
        forall|i: int|
            0 <= i < pi.partition_key@.len() ==> (#[trigger] pi.partition_key@[i])@ == (
            #[trigger] q.partition_key@[i])@,
        pi.clustering_key@.len() == 0,
        q.clustering_key@.len() == 0,
    ensures
        spec_key_text(pi.partition_key@, pi.clustering_key@) == spec_key_text(
            q.partition_key@,
            q.clustering_key@,
        ),
{
    lemma_concat_texts_eqv(pi.partition_key@, q.partition_key@);
}

/// The position of a name in a list of names, if any.
pub open spec fn spec_find_name(names: Seq<String>, name: Seq<char>) -> Option<int>
    decreases names.len(),
{
    if names.len() == 0 {
        None
    } else if names[0]@ == name {
        Some(0)
    } else {
        match spec_find_name(names.drop_first(), name) {
            None => None,
            Some(i) => Some(i + 1),
        }
    }
}

/// Find a name in a list of names.
fn find_name_index(names: &Vec<String>, name: &String) -> (r: Option<usize>)
    ensures
        r is Some <==> spec_find_name(names@, name@) is Some,
        (r matches Some(i) ==> spec_find_name(names@, name@) == Some(i as int) && i < names@.len()),
{
    let mut i: usize = 0;
    while i < names.len()
        invariant
            i <= names@.len(),
            forall|j: int| 0 <= j < i ==> (#[trigger] names@[j])@ != name@,
        decreases names@.len() - i,
    {
        if names[i].eq(name) {
            proof {
                lemma_find_name_at(names@, name@, i as int);
            }
            return Some(i);
        }
        i = i + 1;
    }
    proof {
        lemma_find_name_none(names@, name@);
    }
    None
}

/// When the first `k` names differ and name `k` matches, the find lands
/// on `k`.
proof fn lemma_find_name_at(names: Seq<String>, name: Seq<char>, k: int)
    requires
        0 <= k < names.len(),
        names[k]@ == name,
        forall|j: int| 0 <= j < k ==> (#[trigger] names[j])@ != name,
    ensures
        spec_find_name(names, name) == Some(k),
    decreases k,
{
    if k == 0 {
    } else {
        assert(forall|j: int| 1 <= j < names.len() ==> names[j] == names.drop_first()[j - 1]);
        lemma_find_name_at(names.drop_first(), name, k - 1);
    }
}

/// When no name matches, the find yields nothing.
proof fn lemma_find_name_none(names: Seq<String>, name: Seq<char>)
    requires
        forall|j: int| 0 <= j < names.len() ==> (#[trigger] names[j])@ != name,
    ensures
        spec_find_name(names, name) is None,
    decreases names.len(),
{
    if names.len() == 0 {
    } else {
        assert(forall|j: int| 1 <= j < names.len() ==> names[j] == names.drop_first()[j - 1]);
        lemma_find_name_none(names.drop_first(), name);
    }
}

/// The value an insert stores for the table's `j`-th declared column: the
/// literal named for it, or null when the insert does not name it.
pub open spec fn spec_insert_value(pi: ParsedInsert, j: int) -> Option<Value> {
    match spec_find_name(pi.columns@, pi.table.columns@[j].name@) {
        None => None,
        Some(i) => if 0 <= i < pi.values@.len() {
            match pi.values@[i] {
                ParsedExpr::Literal(ov) => ov,
                _ => None,
            }
        } else {
            None
        },
    }
}

/// Build the stored row of an insert: one column per declared table
/// column, in declared order; a column the insert does not name is null.
pub fn build_insert_row(pi: &ParsedInsert) -> (row: Row)
    requires
        forall|i: int|
            0 <= i < pi.values@.len() ==> (#[trigger] pi.values@[i] matches ParsedExpr::Literal(ov)
                ==> (ov matches Some(v) ==> v.wf())),
    ensures
        row.wf(),
        row.columns@.len() == pi.table.columns@.len(),
        forall|j: int|
            0 <= j < row.columns@.len() ==> opt_val_eq(
                #[trigger] row.columns@[j],
                spec_insert_value(*pi, j),
            ),
{
    let mut columns: Vec<Option<Value>> = Vec::new();
    let mut j: usize = 0;
    while j < pi.table.columns.len()
        invariant
            j <= pi.table.columns@.len(),
            columns@.len() == j,
            forall|i: int|
                0 <= i < pi.values@.len() ==> (#[trigger] pi.values@[i]
                    matches ParsedExpr::Literal(ov) ==> (ov matches Some(v) ==> v.wf())),
            forall|k: int|
                0 <= k < j ==> opt_val_eq(#[trigger] columns@[k], spec_insert_value(*pi, k)),
            forall|k: int|
                0 <= k < j ==> (#[trigger] columns@[k] matches Some(v) ==> v.wf()),
        decreases pi.table.columns@.len() - j,
    {
        let c: Option<Value> = match find_name_index(&pi.columns, &pi.table.columns[j].name) {
            None => None,
            Some(i) => {
                if i < pi.values.len() {
                    match &pi.values[i] {
                        ParsedExpr::Literal(ov) => match ov {
                            Some(v) => Some(clone_value(v)),
                            None => None,
                        },
                        _ => None,
                    }
                } else {
                    None
                }
            },
        };
        columns.push(c);
        j = j + 1;
    }
    Row { columns }
}

/// A write-failure error with the given message.
fn write_failure(msg: String) -> (e: DbError)
    ensures
        e.code == ErrorCode::WriteFailure,
{
    DbError::new(ErrorCode::WriteFailure, msg)
}

/// Execute an insert: open the table's partition, build the row in
/// declared column order, and store its encoding under the concatenated
/// key texts. A table name or storage key outside the store's limits is
/// refused before the store is touched; storage failures surface as
/// write failures; an insert returns no rows.
pub fn execute_insert(keyspace: &fjall::Database, parsed_insert: ParsedInsert) -> (r: Result<
    Results,
    DbError,
>)
    requires
        forall|i: int|
            0 <= i < parsed_insert.values@.len() ==> (#[trigger] parsed_insert.values@[i]
                matches ParsedExpr::Literal(ov) ==> (ov matches Some(v) ==> v.wf())),
    ensures
        (r matches Ok(res) ==> res.result@.len() == 0),
        (r matches Err(e) ==> e.code == ErrorCode::WriteFailure),
        !(1 <= vstd::utf8::encode_utf8(parsed_insert.table.name@).len() <= 255) ==> r is Err,
        !(1 <= vstd::utf8::encode_utf8(
            spec_key_text(parsed_insert.partition_key@, parsed_insert.clustering_key@),
        ).len() <= 65535) ==> r is Err,
{
    proof {
        broadcast use vstd::slice::axiom_spec_len;

    }
    let name_len = parsed_insert.table.name.as_str().as_bytes().len();
    if name_len == 0 || name_len > 255 {
        return Err(write_failure(String::from_str("invalid partition name")));
    }
    let prefix = concat_key(&parsed_insert.partition_key, &parsed_insert.clustering_key);
    let key = prefix.as_str().as_bytes_vec();
    if key.len() == 0 || key.len() > 65535 {
        return Err(write_failure(String::from_str("invalid storage key")));
    }
    let partition = match open_partition(keyspace, &parsed_insert.table.name) {
        Ok(p) => p,
        Err(msg) => {
            return Err(write_failure(msg));
        },
    };
    let row = build_insert_row(&parsed_insert);
    let bytes = row.to_bytes();
    if bytes.len() > u32::MAX as usize {
        return Err(write_failure(String::from_str("row too large")));
    }
    match partition_insert(&partition, &key, bytes) {
        Ok(()) => Ok(
            Results { result: Vec::new(), columns: Vec::new(), table: parsed_insert.table.name },
        ),
        Err(msg) => Err(write_failure(msg)),
    }
}

/// Project one stored row against a plan: decode it, then evaluate each
/// projected expression in the order written in the statement. For every
/// well-formed column sequence that encodes to the stored bytes — there
/// is exactly one — the output is its projection.
pub fn project_row(q: &ParsedQuery, raw: &Vec<u8>) -> (r: Result<Vec<Option<Value>>, DbError>)
    ensures
        r is Ok <==> spec_row_decodable(raw@),
        (r matches Ok(out) ==> out@.len() == q.projection@.len() && (forall|
            cols: Seq<Option<Value>>,
        |
            (wf_cols(cols) && spec_row_encode(cols) == raw@) ==> (forall|k: int|
                0 <= k < out@.len() ==> opt_val_eq(
                    #[trigger] out@[k],
                    spec_eval(q.projection@[k], q.table.columns@, cols),
                )))),
        (r matches Err(e) ==> e.code == ErrorCode::ServerError),
{
    let row = match Row::from_bytes(raw) {
        Ok(row) => row,
        Err(e) => {
            return Err(e);
        },
    };
    let mut out: Vec<Option<Value>> = Vec::new();
    let mut k: usize = 0;
    while k < q.projection.len()
        invariant
            k <= q.projection@.len(),
            out@.len() == k,
            row.wf(),
            forall|j: int|
                0 <= j < k ==> opt_val_eq(
                    #[trigger] out@[j],
                    spec_eval(q.projection@[j], q.table.columns@, row.columns@),
                ),
        decreases q.projection@.len() - k,
    {
        let v = q.projection[k].resolve(&q.table, &row);
        out.push(v);
        k = k + 1;
    }
    proof {
        assert forall|cols: Seq<Option<Value>>|
            (wf_cols(cols) && spec_row_encode(cols) == raw@) implies forall|j: int|
            0 <= j < out@.len() ==> opt_val_eq(
                #[trigger] out@[j],
                spec_eval(q.projection@[j], q.table.columns@, cols),
            ) by {
            crate::data::lemma_row_encode_injective(cols, row.columns@);
            assert forall|j: int| 0 <= j < out@.len() implies opt_val_eq(
                #[trigger] out@[j],
                spec_eval(q.projection@[j], q.table.columns@, cols),
            ) by {
                lemma_eval_respects_eqv(q.projection@[j], q.table.columns@, cols, row.columns@);
            }
        }
    }
    Ok(out)
}

/// Evaluating against column sequences that are pairwise equal by value
/// yields equal results.
proof fn lemma_eval_respects_eqv(
    e: ParsedExpr,
    table_cols: Seq<crate::schema::ColumnMetadata>,
    a: Seq<Option<Value>>,
    b: Seq<Option<Value>>,
)
    requires
        a.len() == b.len(),
        forall|i: int| 0 <= i < a.len() ==> opt_val_eq(#[trigger] a[i], b[i]),
    ensures
        opt_val_eq(spec_eval(e, table_cols, a), spec_eval(e, table_cols, b)),
{
    broadcast use crate::schema::lemma_find_column;

    match e {
        ParsedExpr::Column(pc) => {
            match spec_find_column(table_cols, pc.target_column@) {
                Some(j) => {
                    if 0 <= j < a.len() {
                        assert(opt_val_eq(a[j], b[j]));
                    }
                },
                None => {},
            }
        },
        ParsedExpr::Literal(ov) => {
            lemma_opt_val_eq_refl(ov);
        },
        ParsedExpr::Function(_, _) => {},
    }
}

/// Equality of nullable values is reflexive.
proof fn lemma_opt_val_eq_refl(a: Option<Value>)
    ensures
        opt_val_eq(a, a),
{
    match a {
        None => {},
        Some(v) => {
            assert(val_eq(v, v)) by {
                match v {
                    Value::Ascii(b) => {},
                    _ => {},
                }
            }
        },
    }
}

/// A read-failure error with the given message.
fn read_failure(msg: String) -> (e: DbError)
    ensures
        e.code == ErrorCode::ReadFailure,
{
    DbError::new(ErrorCode::ReadFailure, msg)
}

/// Execute a select: open the table's partition, scan it — by key prefix
/// when a partition key was given, in full otherwise — decode each stored
/// row, and project it in statement order: every returned row is one
/// projection, with one output per projected expression. An invalid
/// table name is refused before the store is touched; read failures
/// surface as read failures, malformed stored rows as server errors.
pub fn execute_select(keyspace: &fjall::Database, parsed_query: ParsedQuery) -> (r: Result<
    Results,
    DbError,
>)
    ensures
        (r matches Ok(res) ==> res.columns@.len() == parsed_query.projection@.len() && (forall|
            i: int,
        |
            0 <= i < res.columns@.len() ==> (parsed_query.projection@[i]
                matches ParsedExpr::Column(pc) ==> (#[trigger] res.columns@[i]).name@
                == pc.resolved_name@ && res.columns@[i].column_type
                == pc.column_metadata.column_type))),
        (r matches Ok(res) ==> forall|i: int|
            0 <= i < res.result@.len() ==> (#[trigger] res.result@[i])@.len()
                == parsed_query.projection@.len()),
        (r matches Err(e) ==> e.code == ErrorCode::ReadFailure || e.code
            == ErrorCode::ServerError),
        !(1 <= vstd::utf8::encode_utf8(parsed_query.table.name@).len() <= 255) ==> r is Err,
{
    proof {
        broadcast use vstd::slice::axiom_spec_len;

    }
    let name_len = parsed_query.table.name.as_str().as_bytes().len();
    if name_len == 0 || name_len > 255 {
        return Err(read_failure(String::from_str("invalid partition name")));
    }
    let partition = match open_partition(keyspace, &parsed_query.table.name) {
        Ok(p) => p,
        Err(msg) => {
            return Err(read_failure(msg));
        },
    };
    let prefix = concat_key(&parsed_query.partition_key, &parsed_query.clustering_key);
    let entries = if prefix.as_str().as_bytes().len() > 0 {
        match partition_prefix(&partition, &prefix.as_str().as_bytes_vec()) {
            Ok(es) => es,
            Err(msg) => {
                return Err(read_failure(msg));
            },
        }
    } else {
        match partition_iter(&partition) {
            Ok(es) => es,
            Err(msg) => {
                return Err(read_failure(msg));
            },
        }
    };
    let mut rows: Vec<Vec<Option<Value>>> = Vec::new();
    let mut i: usize = 0;
    while i < entries.len()
        invariant
            i <= entries@.len(),
            forall|x: int|
                0 <= x < rows@.len() ==> (#[trigger] rows@[x])@.len()
                    == parsed_query.projection@.len(),
        decreases entries@.len() - i,
    {
        match project_row(&parsed_query, &entries[i].1) {
            Ok(out) => rows.push(out),
            Err(e) => {
                return Err(e);
            },
        }
        i = i + 1;
    }
    let mut columns: Vec<ColumnSpec> = Vec::new();
    let mut k: usize = 0;
    while k < parsed_query.projection.len()
        invariant
            k <= parsed_query.projection@.len(),
            columns@.len() == k,
            forall|i: int|
                0 <= i < k ==> (parsed_query.projection@[i] matches ParsedExpr::Column(pc) ==> (
                #[trigger] columns@[i]).name@ == pc.resolved_name@ && columns@[i].column_type
                    == pc.column_metadata.column_type),
        decreases parsed_query.projection@.len() - k,
    {
        let spec = match &parsed_query.projection[k] {
            ParsedExpr::Column(pc) => ColumnSpec {
                keyspace: None,
                table: None,
                name: pc.resolved_name.clone(),
                column_type: pc.column_metadata.column_type,
            },
            _ => ColumnSpec {
                keyspace: None,
                table: None,
                name: String::new(),
                column_type: crate::data::ColumnType::Varchar,
            },
        };
        columns.push(spec);
        k = k + 1;
    }
    Ok(Results { result: rows, columns, table: parsed_query.table.name })
}

/// Law (catalog monotonicity): creating a table installs its metadata in
/// the catalog under its name, replacing any earlier entry and touching
/// no other, so every later lookup of that name sees the new schema.
pub fn execute_create_table(table_metadata: &TableMetadata, tables: &mut Tables) -> (r: Result<
    Results,
    DbError,
>)
    ensures
        r is Ok,
        (r matches Ok(res) ==> res.result@.len() == 0),
        (spec_lookup_table(final(tables).tables@, table_metadata.name@) matches Some(s)
            && table_eqv(s, *table_metadata)),
        forall|n: Seq<char>|
            n != table_metadata.name@ ==> #[trigger] spec_lookup_table(final(tables).tables@, n)
                == spec_lookup_table(old(tables).tables@, n),
{
    let copy = table_metadata.duplicate();
    assert(copy.name@ == table_metadata.name@);
    tables.insert(copy);
    Ok(Results { result: Vec::new(), columns: Vec::new(), table: table_metadata.name.clone() })
}

/// A database engine: its name, its schema catalog, and its key-value store.
pub struct Engine {
    pub name: String,
    pub tables: Tables,
    pub fjall: fjall::Database,
}

impl Engine {
    /// Parse one statement and execute it: a select returns its projected
    /// rows, a create installs its table, an insert stores its row.
    /// Untokenizable text and unknown statement kinds are invalid; a
    /// create or insert that succeeds returns no rows; planner rejections
    /// surface as invalid errors, storage failures by their kind.
    pub fn query(&mut self, query: Query) -> (r: Result<Results, DbError>)
        ensures
            final(self).name == old(self).name,
            (r matches Err(e) ==> e.code == ErrorCode::Invalid || e.code
                == ErrorCode::WriteFailure || e.code == ErrorCode::ReadFailure || e.code
                == ErrorCode::ServerError),
            (crate::parse::spec_tokenize(query.query@) is None ==> r is Err),
            (crate::parse::spec_tokenize(query.query@) matches Some(ts) ==> ((ts.len() == 0 || !(
            crate::parse::spec_tok_kw(ts[0], "create"@) || crate::parse::spec_tok_kw(
                ts[0],
                "insert"@,
            ) || crate::parse::spec_tok_kw(ts[0], "select"@))) ==> r is Err)),
            (r is Ok ==> (crate::parse::spec_tokenize(query.query@) matches Some(ts) && ts.len()
                > 0 && (crate::parse::spec_tok_kw(ts[0], "create"@) || crate::parse::spec_tok_kw(
                ts[0],
                "insert"@,
            ) || crate::parse::spec_tok_kw(ts[0], "select"@)))),
            (r matches Ok(res) ==> (crate::parse::spec_tokenize(query.query@) matches Some(ts)
                && ts.len() > 0 && (res.result@.len() == 0 || crate::parse::spec_tok_kw(
                ts[0],
                "select"@,
            )))),
            (crate::parse::spec_tokenize(query.query@) matches Some(ts) ==> ((r is Ok
                && spec_parse_create(ts) is Some) ==> ({
                let m = spec_parse_create(ts)->Some_0.0;
                spec_lookup_table(final(self).tables.tables@, m.0) matches Some(t2) && t2.name@
                    == m.0 && crate::parse::spec_cols_view(t2.columns@)
                    == crate::parse::spec_dedup_cols(m.1)
            }))),
            (crate::parse::spec_tokenize(query.query@) matches Some(ts) ==> ((ts.len() == 0
                || !crate::parse::spec_tok_kw(ts[0], "create"@)) ==> final(self).tables.tables@
                == old(self).tables.tables@)),
            (crate::parse::spec_tokenize(query.query@) matches Some(ts) ==> ((spec_parse_create(
                ts,
            ) matches Some((m, end)) && crate::parse::spec_statement_end_ok(ts, end)) ==> r
                is Ok)),
    {
        let parsed_query = match parse(query.query, &self.tables) {
            Ok(p) => p,
            Err(e) => {
                return Err(e);
            },
        };
        proof {
            let tk = crate::parse::spec_tokenize(query.query@);
            if tk is Some && tk->Some_0.len() > 0 {
                crate::parse::lemma_kw_disjoint(tk->Some_0[0]);
            }
        }
        match parsed_query {
            ParsedStatement::Select(q) => execute_select(&self.fjall, q),
            ParsedStatement::Create(table_metadata) => execute_create_table(
                &table_metadata,
                &mut self.tables,
            ),
            ParsedStatement::Insert(insert) => {
                proof {
                    assert forall|i: int|
                        0 <= i < insert.values@.len() implies (#[trigger] insert.values@[i]
                        matches ParsedExpr::Literal(ov) ==> (ov matches Some(v) ==> v.wf())) by {
                        assert(0 <= i < insert.columns@.len());
                        assert(spec_find_column(
                            insert.table.columns@,
                            (insert.columns@[i])@,
                        ) is Some);
                    }
                }
                execute_insert(&self.fjall, insert)
            },
        }
    }
}

} // verus!
