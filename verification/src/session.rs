//! The per-connection protocol driver's decisions: given one decoded
//! request, produce the encoded response frame. The surrounding socket
//! loop only moves bytes; every response built here is a well-formed
//! frame.

use vstd::prelude::*;
use vstd::string::StringExecFns;
use vstd::utf8::is_ascii_chars;

use crate::data::Row;
use crate::data::Value;
use crate::execution::Engine;
use crate::execution::Results;
use crate::error::DbError;
use crate::frame::spec_frame_encode;
use crate::frame::CqlFrameCodec;
use crate::operation::Operation;
use crate::response::check_value_cell;
use crate::response::ColumnSpec;
use crate::response::CqlResult;
use crate::response::Error;
use crate::response::Flags;
use crate::response::GlobalTableSpec;
use crate::response::Metadata;
use crate::response::GLOBAL_TABLES_SPEC_FLAG;
use crate::string_map::StringMap;

verus! {

/// The options the server announces: the CQL version it expects and the
/// protocol versions it speaks.
pub fn supported_options() -> (r: StringMap)
    ensures
        r.wf(),
        r.pairs() == seq![("CQL_VERSION"@, "3.0.0"@), ("PROTOCOL_VERSIONS"@, "4/v4"@)],
{
    proof {
        reveal_strlit("CQL_VERSION");
        reveal_strlit("3.0.0");
        reveal_strlit("PROTOCOL_VERSIONS");
        reveal_strlit("4/v4");
        broadcast use vstd::utf8::is_ascii_chars_encode_utf8;

        assert(is_ascii_chars("CQL_VERSION"@));
        assert(is_ascii_chars("3.0.0"@));
        assert(is_ascii_chars("PROTOCOL_VERSIONS"@));
        assert(is_ascii_chars("4/v4"@));
    }
    let mut m = StringMap::new();
    m.insert(String::from_str("CQL_VERSION"), String::from_str("3.0.0"));
    m.insert(String::from_str("PROTOCOL_VERSIONS"), String::from_str("4/v4"));
    assert(m.pairs() =~= seq![("CQL_VERSION"@, "3.0.0"@), ("PROTOCOL_VERSIONS"@, "4/v4"@)]);
    m
}

/// The pairs of the supported-options map: the CQL version the server
/// expects and the protocol versions it speaks.
pub open spec fn spec_supported_pairs() -> Seq<(Seq<char>, Seq<char>)> {
    seq![("CQL_VERSION"@, "3.0.0"@), ("PROTOCOL_VERSIONS"@, "4/v4"@)]
}

/// The whole wire frame answering an options request.
pub open spec fn spec_supported_frame() -> Seq<u8> {
    spec_frame_encode_supported(spec_supported_pairs())
}

/// The wire frame of a supported response carrying the given pairs.
pub open spec fn spec_frame_encode_supported(ps: Seq<(Seq<char>, Seq<char>)>) -> Seq<u8> {
    crate::header::spec_header_encode(
        (crate::header::Header {
            version: crate::header::spec_version_byte(
                crate::header::ProtocolVersion::V4,
                crate::header::MessageDirection::Response,
            ),
            flags: 0,
            stream_id: 0,
            op_code: crate::operation::SUPPORTED_OP_CODE,
            body_length: crate::string_map::spec_string_map_encode(ps).len() as i32,
        }),
    ) + crate::string_map::spec_string_map_encode(ps)
}

/// Encode an error frame: the code and the message, in one whole frame;
/// a message too long for its length field is replaced by an empty one.
fn error_frame(code: i32, message: String) -> (r: Vec<u8>)
    ensures
        (vstd::utf8::encode_utf8(message@).len() <= u16::MAX ==> r@ == spec_frame_encode(
            Operation::Error((Error { code, message })),
        )),
        r@.len() >= 9,
        r@[4] == crate::operation::ERROR_OP_CODE,
{
    proof {
        broadcast use vstd::slice::axiom_spec_len;

    }
    let msg = if message.as_str().as_bytes().len() <= u16::MAX as usize {
        message
    } else {
        String::new()
    };
    assert(vstd::utf8::encode_utf8(msg@).len() <= u16::MAX);
    let e = Error::new(code, msg);
    let mut codec = CqlFrameCodec::new();
    let mut out: Vec<u8> = Vec::new();
    let op = Operation::Error(e);
    match codec.encode(&op, &mut out) {
        Ok(()) => {
            proof {
                crate::frame::lemma_frame_shape(op);
            }
        },
        Err(_) => {
            assert(false);
        },
    }
    out
}

/// Build the rows response for a select's results: metadata carrying the
/// global table spec and the projected column specs, then the rows —
/// the results' columns under their names and types, and the results'
/// values cell by cell. Results whose strings or values cannot be carried
/// on the wire yield `None`.
fn build_rows_response(db_name: &String, results: Results) -> (r: Option<CqlResult>)
    ensures
        (r matches Some(res) ==> crate::response::spec_result_wf(res)),
        (r matches Some(res) ==> (res matches CqlResult::Rows { metadata, row_count, rows } && {
            &&& (metadata.global_table_spec matches Some(g) && g.keyspace@ == db_name@
                && g.table@ == results.table@)
            &&& metadata.column_specs@.len() == results.columns@.len()
            &&& (forall|i: int|
                0 <= i < results.columns@.len() ==> (#[trigger] metadata.column_specs@[i]).name@
                    == results.columns@[i].name@ && metadata.column_specs@[i].column_type
                    == results.columns@[i].column_type)
            &&& row_count == results.result@.len()
            &&& rows@.len() == results.result@.len()
            &&& (forall|x: int|
                0 <= x < rows@.len() ==> (#[trigger] rows@[x]).columns@.len()
                    == results.result@[x]@.len())
            &&& (forall|x: int, j: int|
                0 <= x < rows@.len() && 0 <= j < rows@[x].columns@.len()
                    ==> crate::data::opt_val_eq(
                    #[trigger] rows@[x].columns@[j],
                    #[trigger] results.result@[x]@[j],
                ))
        })),
{
    proof {
        broadcast use vstd::slice::axiom_spec_len;

    }
    if db_name.as_str().as_bytes().len() > u16::MAX as usize {
        return None;
    }
    if results.table.as_str().as_bytes().len() > u16::MAX as usize {
        return None;
    }
    if results.columns.len() > i32::MAX as usize {
        return None;
    }
    if results.result.len() > i32::MAX as usize {
        return None;
    }
    let mut specs: Vec<ColumnSpec> = Vec::new();
    let mut k: usize = 0;
    let columns = results.columns;
    while k < columns.len()
        invariant
            k <= columns@.len(),
            specs@.len() == k,
            forall|j: int|
                0 <= j < k ==> {
                    let c = #[trigger] specs@[j];
                    &&& vstd::utf8::encode_utf8(c.name@).len() <= u16::MAX
                    &&& c.keyspace is None
                    &&& c.table is None
                    &&& c.column_type == columns@[j].column_type
                    &&& c.name@ == columns@[j].name@
                },
        decreases columns@.len() - k,
    {
        let c = &columns[k];
        if c.name.as_str().as_bytes().len() > u16::MAX as usize {
            return None;
        }
        specs.push(
            ColumnSpec {
                keyspace: None,
                table: None,
                name: c.name.clone(),
                column_type: c.column_type,
            },
        );
        k = k + 1;
    }
    let mut rows: Vec<Row> = Vec::new();
    let mut i: usize = 0;
    let result = results.result;
    while i < result.len()
        invariant
            i <= result@.len(),
            rows@.len() == i,
            specs@.len() == columns@.len(),
            forall|j: int|
                0 <= j < specs@.len() ==> (#[trigger] specs@[j]).column_type
                    == columns@[j].column_type,
            forall|x: int|
                0 <= x < i ==> {
                    let cols = (#[trigger] rows@[x]).columns@;
                    &&& cols.len() == specs@.len()
                    &&& forall|j: int|
                        0 <= j < cols.len() ==> (#[trigger] cols[j] matches Some(v)
                            ==> crate::response::spec_cell_wf(v) && v.spec_column_type()
                            == specs@[j].column_type)
                },
            forall|x: int|
                0 <= x < i ==> (#[trigger] rows@[x]).columns@.len() == result@[x]@.len(),
            forall|x: int, j: int|
                0 <= x < i && 0 <= j < rows@[x].columns@.len() ==> crate::data::opt_val_eq(
                    #[trigger] rows@[x].columns@[j],
                    #[trigger] result@[x]@[j],
                ),
        decreases result@.len() - i,
    {
        let row_vals = &result[i];
        if row_vals.len() != specs.len() {
            return None;
        }
        let mut cells: Vec<Option<Value>> = Vec::new();
        let mut j: usize = 0;
        while j < row_vals.len()
            invariant
                j <= row_vals@.len(),
                row_vals@.len() == specs@.len(),
                specs@.len() == columns@.len(),
                forall|y: int|
                    0 <= y < specs@.len() ==> (#[trigger] specs@[y]).column_type
                        == columns@[y].column_type,
                cells@.len() == j,
                forall|y: int|
                    0 <= y < j ==> (#[trigger] cells@[y] matches Some(v)
                        ==> crate::response::spec_cell_wf(v) && v.spec_column_type()
                        == specs@[y].column_type),
                forall|y: int|
                    0 <= y < j ==> crate::data::opt_val_eq(
                        #[trigger] cells@[y],
                        row_vals@[y],
                    ),
            decreases row_vals@.len() - j,
        {
            match &row_vals[j] {
                None => cells.push(None),
                Some(v) => {
                    if !check_value_cell(v, columns[j].column_type) {
                        return None;
                    }
                    cells.push(Some(crate::execution::clone_value(v)));
                    proof {
                        lemma_cell_wf_respects_eqv(
                            cells@[cells@.len() - 1]->Some_0,
                            row_vals@[j as int]->Some_0,
                        );
                    }
                },
            }
            j = j + 1;
        }
        rows.push(Row { columns: cells });
        i = i + 1;
    }
    let row_count = rows.len() as i32;
    let column_count = specs.len() as i32;
    let metadata = Metadata {
        flags: (Flags { bits: GLOBAL_TABLES_SPEC_FLAG }),
        paging_state: None,
        column_count,
        global_table_spec: Some(
            (GlobalTableSpec { keyspace: db_name.clone(), table: results.table }),
        ),
        column_specs: specs,
    };
    assert(GLOBAL_TABLES_SPEC_FLAG & GLOBAL_TABLES_SPEC_FLAG == GLOBAL_TABLES_SPEC_FLAG)
        by (bit_vector);
    let res = CqlResult::Rows { metadata, row_count, rows };
    assert(crate::response::spec_result_wf(res));
    Some(res)
}

/// Values equal by type and payload are cell-compatible together.
proof fn lemma_cell_wf_respects_eqv(a: Value, b: Value)
    requires
        crate::data::val_eq(a, b),
        crate::response::spec_cell_wf(b),
    ensures
        crate::response::spec_cell_wf(a),
        a.spec_column_type() == b.spec_column_type(),
{
}

/// Answer one statement's outcome with a whole response frame: an error
/// is answered with an error frame carrying its code and message, a
/// result with a rows frame of its rows and columns, and a result too
/// large for the wire with an error frame.
pub fn query_response(db_name: &String, outcome: Result<Results, DbError>) -> (r: Vec<u8>)
    ensures
        r@.len() >= 9,
        r@[4] == crate::operation::RESULT_OP_CODE || r@[4] == crate::operation::ERROR_OP_CODE,
        (outcome matches Err(e) ==> (vstd::utf8::encode_utf8(e.message@).len() <= u16::MAX ==> r@
            == spec_frame_encode(
            Operation::Error((Error { code: e.code.spec_code(), message: e.message })),
        ))),
{
    let mut codec = CqlFrameCodec::new();
    match outcome {
        Ok(results) => {
            match build_rows_response(db_name, results) {
                None => error_frame(0x0000, String::from_str("response too large")),
                Some(res) => {
                    let mut out: Vec<u8> = Vec::new();
                    let response = Operation::Result(res);
                    match codec.encode(&response, &mut out) {
                        Ok(()) => {
                            proof {
                                crate::frame::lemma_frame_shape(response);
                            }
                            out
                        },
                        Err(_) => error_frame(
                            0x0000,
                            String::from_str("response too large"),
                        ),
                    }
                },
            }
        },
        Err(e) => {
            let code = e.code.to_code();
            error_frame(code, e.message)
        },
    }
}

/// Drive one request: a startup is answered with the `Ready` frame, an
/// options request with the `Supported` frame carrying the announced
/// pairs, and a query is parsed, executed, and answered with its result
/// or with the error it raised; other requests get no response. The
/// returned bytes are always one whole response frame.
pub fn exchange(db: &mut Engine, op: Operation) -> (r: Option<Vec<u8>>)
    ensures
        (op is Startup ==> (r matches Some(v) && v@ == spec_frame_encode(Operation::Ready))),
        (op is Options ==> (r matches Some(v) && v@ == spec_supported_frame())),
        (op is Query ==> (r matches Some(v) && v@.len() >= 9 && (v@[4]
            == crate::operation::RESULT_OP_CODE || v@[4] == crate::operation::ERROR_OP_CODE))),
        (!(op is Startup || op is Options || op is Query) ==> r is None),
{
    let mut codec = CqlFrameCodec::new();
    match op {
        Operation::Startup(_) => {
            let mut out: Vec<u8> = Vec::new();
            match codec.encode(&Operation::Ready, &mut out) {
                Ok(()) => {},
                Err(_) => {
                    assert(false);
                },
            }
            Some(out)
        },
        Operation::Options => {
            let m = supported_options();
            proof {
                lemma_supported_frame_fits();
            }
            let mut out: Vec<u8> = Vec::new();
            let supported = Operation::Supported(m);
            match codec.encode(&supported, &mut out) {
                Ok(()) => {
                    assert(out@ =~= spec_supported_frame());
                    Some(out)
                },
                Err(_) => {
                    assert(false);
                    None
                },
            }
        },
        Operation::Query(query) => {
            let outcome = db.query(query);
            Some(query_response(&db.name, outcome))
        },
        _ => None,
    }
}

/// The supported-options map is two short pairs, so its frame body fits
/// the length field.
proof fn lemma_supported_frame_fits()
    ensures
        crate::string_map::spec_string_map_encode(spec_supported_pairs()).len() <= i32::MAX,
{
    reveal_strlit("CQL_VERSION");
    reveal_strlit("3.0.0");
    reveal_strlit("PROTOCOL_VERSIONS");
    reveal_strlit("4/v4");
    broadcast use vstd::utf8::is_ascii_chars_encode_utf8;

    assert(is_ascii_chars("CQL_VERSION"@));
    assert(is_ascii_chars("3.0.0"@));
    assert(is_ascii_chars("PROTOCOL_VERSIONS"@));
    assert(is_ascii_chars("4/v4"@));
    assert(vstd::utf8::encode_utf8("CQL_VERSION"@).len() == 11);
    assert(vstd::utf8::encode_utf8("3.0.0"@).len() == 5);
    assert(vstd::utf8::encode_utf8("PROTOCOL_VERSIONS"@).len() == 17);
    assert(vstd::utf8::encode_utf8("4/v4"@).len() == 4);
    let ps = spec_supported_pairs();
    assert(ps[0] == ("CQL_VERSION"@, "3.0.0"@));
    assert(ps.drop_first() =~= seq![("PROTOCOL_VERSIONS"@, "4/v4"@)]);
    assert(ps.drop_first()[0] == ("PROTOCOL_VERSIONS"@, "4/v4"@));
    assert(ps.drop_first().drop_first() =~= Seq::<(Seq<char>, Seq<char>)>::empty());
    assert(crate::string_map::spec_pairs_encode(ps.drop_first().drop_first()) =~= Seq::<
        u8,
    >::empty());
    assert(crate::wire::spec_string_encode("CQL_VERSION"@).len() == 13);
    assert(crate::wire::spec_string_encode("3.0.0"@).len() == 7);
    assert(crate::wire::spec_string_encode("PROTOCOL_VERSIONS"@).len() == 19);
    assert(crate::wire::spec_string_encode("4/v4"@).len() == 6);
    assert(crate::string_map::spec_pairs_encode(ps.drop_first()).len() == 25);
    assert(crate::string_map::spec_pairs_encode(ps).len() == 45);
    assert(crate::string_map::spec_string_map_encode(ps).len() == 47);
}

} // verus!
