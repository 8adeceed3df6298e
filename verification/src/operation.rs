//! The operation model: every request and response message body, the
//! opcode mapping, and the request body decoders.

use vstd::prelude::*;
use vstd::string::StringExecFns;

use crate::error::DbError;
use crate::error::ErrorCode;
use crate::response::CqlResult;
use crate::string_map::read_string_map;
use crate::string_map::spec_read_string_map;
use crate::string_map::StringMap;
use crate::wire::read_bytes;
use crate::wire::read_int;
use crate::wire::read_long;
use crate::wire::read_long_string;
use crate::wire::read_string;
use crate::wire::read_unsigned_short;
use crate::wire::read_value;
use crate::wire::spec_read_long_string;
use crate::wire::spec_read_string;
use crate::wire::spec_u16_of;
use crate::wire::spec_u32_of;
use crate::wire::WireValue;

verus! {

pub const ERROR_OP_CODE: u8 = 0x00;

pub const STARTUP_OP_CODE: u8 = 0x01;

pub const READY_OP_CODE: u8 = 0x02;

pub const AUTHENTICATE_OP_CODE: u8 = 0x03;

pub const OPTIONS_OP_CODE: u8 = 0x05;

pub const SUPPORTED_OP_CODE: u8 = 0x06;

pub const QUERY_OP_CODE: u8 = 0x07;

pub const RESULT_OP_CODE: u8 = 0x08;

pub const PREPARE_OP_CODE: u8 = 0x09;

pub const EXECUTE_OP_CODE: u8 = 0x0A;

pub const REGISTER_OP_CODE: u8 = 0x0B;

pub const EVENT_OP_CODE: u8 = 0x0C;

pub const BATCH_OP_CODE: u8 = 0x0D;

pub const AUTH_CHALLENGE_OP_CODE: u8 = 0x0E;

pub const AUTH_RESPONSE_OP_CODE: u8 = 0x0F;

pub const AUTH_SUCCESS_OP_CODE: u8 = 0x10;

pub const QUERY_FLAG_VALUES: u8 = 0x01;

pub const QUERY_FLAG_SKIP_METADATA: u8 = 0x02;

pub const QUERY_FLAG_PAGE_SIZE: u8 = 0x04;

pub const QUERY_FLAG_PAGING_STATE: u8 = 0x08;

pub const QUERY_FLAG_SERIAL_CONSISTENCY: u8 = 0x10;

pub const QUERY_FLAG_TIMESTAMP: u8 = 0x20;

pub const QUERY_FLAG_NAMES_FOR_VALUES: u8 = 0x40;

/// A consistency level named in a query.
#[derive(Debug, Copy, Clone, PartialEq, Eq, Structural)]
pub enum Consistency {
    Any,
    One,
    Two,
    Three,
    Quorum,
    All,
    LocalQuorum,
    EachQuorum,
    Serial,
    LocalSerial,
    LocalOne,
}

/// The consistency a wire code denotes; codes above 0x0A are invalid.
pub open spec fn spec_map_consistency(value: u16) -> Option<Consistency> {
    if value == 0x0000 {
        Some(Consistency::Any)
    } else if value == 0x0001 {
        Some(Consistency::One)
    } else if value == 0x0002 {
        Some(Consistency::Two)
    } else if value == 0x0003 {
        Some(Consistency::Three)
    } else if value == 0x0004 {
        Some(Consistency::Quorum)
    } else if value == 0x0005 {
        Some(Consistency::All)
    } else if value == 0x0006 {
        Some(Consistency::LocalQuorum)
    } else if value == 0x0007 {
        Some(Consistency::EachQuorum)
    } else if value == 0x0008 {
        Some(Consistency::Serial)
    } else if value == 0x0009 {
        Some(Consistency::LocalSerial)
    } else if value == 0x000A {
        Some(Consistency::LocalOne)
    } else {
        None
    }
}

/// Decode a consistency code; an unknown code is a protocol error.
pub fn map_consistency(value: u16) -> (r: Result<Consistency, DbError>)
    ensures
        r is Ok <==> value <= 0x000A,
        (r matches Ok(c) ==> Some(c) == spec_map_consistency(value)),
        (r matches Err(e) ==> e.code == ErrorCode::ProtocolError),
{
    if value == 0x0000 {
        Ok(Consistency::Any)
    } else if value == 0x0001 {
        Ok(Consistency::One)
    } else if value == 0x0002 {
        Ok(Consistency::Two)
    } else if value == 0x0003 {
        Ok(Consistency::Three)
    } else if value == 0x0004 {
        Ok(Consistency::Quorum)
    } else if value == 0x0005 {
        Ok(Consistency::All)
    } else if value == 0x0006 {
        Ok(Consistency::LocalQuorum)
    } else if value == 0x0007 {
        Ok(Consistency::EachQuorum)
    } else if value == 0x0008 {
        Ok(Consistency::Serial)
    } else if value == 0x0009 {
        Ok(Consistency::LocalSerial)
    } else if value == 0x000A {
        Ok(Consistency::LocalOne)
    } else {
        Err(
            DbError::new(
                ErrorCode::ProtocolError,
                String::from_str("invalid consistency value"),
            ),
        )
    }
}

/// The values carried by a query, positional or named.
#[derive(Debug)]
pub enum Values {
    Unnamed(Vec<WireValue>),
    Named(Vec<(String, WireValue)>),
}

/// The options that follow a query's text on the wire.
#[derive(Debug)]
pub struct QueryOptions {
    pub consistency: Consistency,
    pub values: Option<Values>,
    pub skip_metadata: bool,
    pub page_size: Option<i32>,
    pub paging_state: Option<Vec<u8>>,
    pub timestamp: Option<i64>,
}

/// A query request: its CQL text and its options.
#[derive(Debug)]
pub struct Query {
    pub query: String,
    pub query_options: QueryOptions,
}

/// A request or response message body.
#[derive(Debug)]
pub enum Operation {
    Error(crate::response::Error),
    Startup(StringMap),
    Ready,
    Authenticate,
    Options,
    Supported(StringMap),
    Query(Query),
    Result(CqlResult),
    Prepare,
    Execute,
    Register,
    Event,
    Batch,
    AuthChallenge,
    AuthResponse,
    AuthSuccess,
}

impl Operation {
    /// The opcode of each message kind.
    pub open spec fn spec_op_code(self) -> u8 {
        match self {
            Operation::Error(_) => ERROR_OP_CODE,
            Operation::Startup(_) => STARTUP_OP_CODE,
            Operation::Ready => READY_OP_CODE,
            Operation::Authenticate => AUTHENTICATE_OP_CODE,
            Operation::Options => OPTIONS_OP_CODE,
            Operation::Supported(_) => SUPPORTED_OP_CODE,
            Operation::Query(_) => QUERY_OP_CODE,
            Operation::Result(_) => RESULT_OP_CODE,
            Operation::Prepare => PREPARE_OP_CODE,
            Operation::Execute => EXECUTE_OP_CODE,
            Operation::Register => REGISTER_OP_CODE,
            Operation::Event => EVENT_OP_CODE,
            Operation::Batch => BATCH_OP_CODE,
            Operation::AuthChallenge => AUTH_CHALLENGE_OP_CODE,
            Operation::AuthResponse => AUTH_RESPONSE_OP_CODE,
            Operation::AuthSuccess => AUTH_SUCCESS_OP_CODE,
        }
    }

    /// The opcode of this message.
    pub fn op_code(&self) -> (r: u8)
        ensures
            r == self.spec_op_code(),
    {
        match self {
            Operation::Error(_) => ERROR_OP_CODE,
            Operation::Startup(_) => STARTUP_OP_CODE,
            Operation::Ready => READY_OP_CODE,
            Operation::Authenticate => AUTHENTICATE_OP_CODE,
            Operation::Options => OPTIONS_OP_CODE,
            Operation::Supported(_) => SUPPORTED_OP_CODE,
            Operation::Query(_) => QUERY_OP_CODE,
            Operation::Result(_) => RESULT_OP_CODE,
            Operation::Prepare => PREPARE_OP_CODE,
            Operation::Execute => EXECUTE_OP_CODE,
            Operation::Register => REGISTER_OP_CODE,
            Operation::Event => EVENT_OP_CODE,
            Operation::Batch => BATCH_OP_CODE,
            Operation::AuthChallenge => AUTH_CHALLENGE_OP_CODE,
            Operation::AuthResponse => AUTH_RESPONSE_OP_CODE,
            Operation::AuthSuccess => AUTH_SUCCESS_OP_CODE,
        }
    }
}

/// Decode a startup body: a `string map` of options. Trailing bytes are
/// ignored, as the driver only consumes the options it knows.
pub fn decode_startup(body: &Vec<u8>) -> (r: Result<Operation, DbError>)
    ensures
        r is Ok <==> spec_read_string_map(body@, 0) is Some,
        (r matches Ok(op) ==> (op matches Operation::Startup(m) && spec_read_string_map(body@, 0)
            matches Some((ps, _)) && m.pairs() == ps)),
        (r matches Err(e) ==> e.code == ErrorCode::ProtocolError),
{
    match read_string_map(body, 0) {
        None => Err(
            DbError::new(
                ErrorCode::ProtocolError,
                String::from_str("malformed startup body"),
            ),
        ),
        Some((m, _)) => Ok(Operation::Startup(m)),
    }
}

/// Where the `[value]` starting at `pos` ends: null and not-set consume
/// their length field alone; lengths below -2 are malformed.
pub open spec fn spec_value_end(b: Seq<u8>, pos: int) -> Option<int> {
    if pos + 4 <= b.len() {
        let n = spec_u32_of(b[pos], b[pos + 1], b[pos + 2], b[pos + 3]) as i32;
        if n == -1 || n == -2 {
            Some(pos + 4)
        } else if n < -2 {
            None
        } else if pos + 4 + n <= b.len() {
            Some(pos + 4 + n)
        } else {
            None
        }
    } else {
        None
    }
}

/// Where the `[bytes]` starting at `pos` ends: any negative length means
/// absent and consumes its length field alone.
pub open spec fn spec_bytes_end(b: Seq<u8>, pos: int) -> Option<int> {
    if pos + 4 <= b.len() {
        let n = spec_u32_of(b[pos], b[pos + 1], b[pos + 2], b[pos + 3]) as i32;
        if n < 0 {
            Some(pos + 4)
        } else if pos + 4 + n <= b.len() {
            Some(pos + 4 + n)
        } else {
            None
        }
    } else {
        None
    }
}

/// Where `count` query values starting at `pos` end; a named value is
/// preceded by its name.
pub open spec fn spec_values_end(b: Seq<u8>, pos: int, count: int, named: bool) -> Option<int>
    decreases count,
{
    if count <= 0 {
        Some(pos)
    } else if named {
        match spec_read_string(b, pos) {
            None => None,
            Some((_, p1)) => match spec_value_end(b, p1) {
                None => None,
                Some(p2) => spec_values_end(b, p2, count - 1, named),
            },
        }
    } else {
        match spec_value_end(b, pos) {
            None => None,
            Some(p2) => spec_values_end(b, p2, count - 1, named),
        }
    }
}

/// Where a query body's values section ends: nothing without the values
/// flag, else a `short` count and that many values.
pub open spec fn spec_values_section_end(b: Seq<u8>, pos: int, f: u8) -> Option<int> {
    if f & QUERY_FLAG_VALUES == QUERY_FLAG_VALUES {
        if pos + 2 <= b.len() {
            spec_values_end(
                b,
                pos + 2,
                spec_u16_of(b[pos], b[pos + 1]) as int,
                f & QUERY_FLAG_NAMES_FOR_VALUES == QUERY_FLAG_NAMES_FOR_VALUES,
            )
        } else {
            None
        }
    } else {
        Some(pos)
    }
}

/// Where a query body's page-size section ends.
pub open spec fn spec_page_size_end(b: Seq<u8>, pos: int, f: u8) -> Option<int> {
    if f & QUERY_FLAG_PAGE_SIZE == QUERY_FLAG_PAGE_SIZE {
        if pos + 4 <= b.len() {
            Some(pos + 4)
        } else {
            None
        }
    } else {
        Some(pos)
    }
}

/// Where a query body's paging-state section ends.
pub open spec fn spec_paging_state_end(b: Seq<u8>, pos: int, f: u8) -> Option<int> {
    if f & QUERY_FLAG_PAGING_STATE == QUERY_FLAG_PAGING_STATE {
        spec_bytes_end(b, pos)
    } else {
        Some(pos)
    }
}

/// Whether a query body decodes: the text, a known consistency, the flag
/// byte, and every flagged section in order.
pub open spec fn spec_query_decodable(b: Seq<u8>) -> bool {
    match spec_read_long_string(b, 0) {
        None => false,
        Some((_, p1)) => {
            &&& b.len() - p1 >= 3
            &&& spec_map_consistency(spec_u16_of(b[p1], b[p1 + 1])) is Some
            &&& ({
                let f = b[p1 + 2];
                match spec_values_section_end(b, p1 + 3, f) {
                    None => false,
                    Some(p2) => match spec_page_size_end(b, p2, f) {
                        None => false,
                        Some(p3) => match spec_paging_state_end(b, p3, f) {
                            None => false,
                            Some(p4) => f & QUERY_FLAG_TIMESTAMP != QUERY_FLAG_TIMESTAMP || p4 + 8
                                <= b.len(),
                        },
                    },
                }
            })
        },
    }
}

/// What a decoded query states about the body it was read from: its text
/// is the leading `long string`, its consistency the `short` that
/// follows, and each optional section is present exactly as the flag
/// byte announces, with the page size, paging state and timestamp read
/// at the offsets where the earlier sections end.
pub open spec fn spec_query_matches(b: Seq<u8>, q: Query) -> bool {
    let ls = spec_read_long_string(b, 0);
    &&& ls is Some
    &&& q.query@ == ls->Some_0.0
    &&& {
        let p1 = ls->Some_0.1;
        &&& b.len() - p1 >= 3
        &&& spec_map_consistency(spec_u16_of(b[p1], b[p1 + 1])) == Some(q.query_options.consistency)
        &&& {
            let f = b[p1 + 2];
            &&& (q.query_options.values is Some <==> f & QUERY_FLAG_VALUES == QUERY_FLAG_VALUES)
            &&& (f & QUERY_FLAG_VALUES == QUERY_FLAG_VALUES && p1 + 5 <= b.len() ==> {
                let count = spec_u16_of(b[p1 + 3], b[p1 + 4]) as int;
                &&& (q.query_options.values->Some_0 matches Values::Named(items) ==> f
                    & QUERY_FLAG_NAMES_FOR_VALUES == QUERY_FLAG_NAMES_FOR_VALUES && items@.len()
                    == count)
                &&& (q.query_options.values->Some_0 matches Values::Unnamed(items) ==> f
                    & QUERY_FLAG_NAMES_FOR_VALUES != QUERY_FLAG_NAMES_FOR_VALUES && items@.len()
                    == count)
            })
            &&& q.query_options.skip_metadata == (f & QUERY_FLAG_SKIP_METADATA
                == QUERY_FLAG_SKIP_METADATA)
            &&& (q.query_options.page_size is Some <==> f & QUERY_FLAG_PAGE_SIZE
                == QUERY_FLAG_PAGE_SIZE)
            &&& (f & QUERY_FLAG_PAGING_STATE != QUERY_FLAG_PAGING_STATE
                ==> q.query_options.paging_state is None)
            &&& (q.query_options.timestamp is Some <==> f & QUERY_FLAG_TIMESTAMP
                == QUERY_FLAG_TIMESTAMP)
            &&& (spec_values_section_end(b, p1 + 3, f) matches Some(p2) ==> {
                &&& (q.query_options.page_size matches Some(v) ==> v == spec_u32_of(
                    b[p2],
                    b[p2 + 1],
                    b[p2 + 2],
                    b[p2 + 3],
                ) as i32)
                &&& (spec_page_size_end(b, p2, f) matches Some(p3) ==> {
                    &&& (f & QUERY_FLAG_PAGING_STATE == QUERY_FLAG_PAGING_STATE && p3 + 4
                        <= b.len() ==> (q.query_options.paging_state is Some <==> (spec_u32_of(
                        b[p3],
                        b[p3 + 1],
                        b[p3 + 2],
                        b[p3 + 3],
                    ) as i32) >= 0))
                    &&& (spec_paging_state_end(b, p3, f) matches Some(p4)
                        ==> (q.query_options.timestamp matches Some(t) ==> t == crate::wire::spec_u64_of(
                        b[p4],
                        b[p4 + 1],
                        b[p4 + 2],
                        b[p4 + 3],
                        b[p4 + 4],
                        b[p4 + 5],
                        b[p4 + 6],
                        b[p4 + 7],
                    ) as i64))
                })
            })
        }
    }
}

/// Read `count` named query values: each a `string` then a `[value]`.
fn read_named_values(body: &Vec<u8>, start: usize, count: u16) -> (r: Option<
    (Vec<(String, WireValue)>, usize),
>)
    requires
        start <= body@.len(),
    ensures
        r is Some <==> spec_values_end(body@, start as int, count as int, true) is Some,
        (r matches Some((items, p)) ==> spec_values_end(body@, start as int, count as int, true)
            == Some(p as int) && items@.len() == count && p <= body@.len()),
{
    let mut items: Vec<(String, WireValue)> = Vec::new();
    let mut pos: usize = start;
    let mut remaining: u16 = count;
    loop
        invariant
            pos <= body@.len(),
            items@.len() + remaining == count,
            spec_values_end(body@, start as int, count as int, true) is Some <==> spec_values_end(
                body@,
                pos as int,
                remaining as int,
                true,
            ) is Some,
            (spec_values_end(body@, pos as int, remaining as int, true) matches Some(q)
                ==> spec_values_end(body@, start as int, count as int, true) == Some(q)),
        decreases remaining,
    {
        if remaining == 0 {
            return Some((items, pos));
        }
        let ghost pos_old = pos as int;
        let ghost rem_old = remaining as int;
        let name = match read_string(body, pos) {
            None => {
                assert(spec_values_end(body@, pos_old, rem_old, true) is None);
                return None;
            },
            Some((s, p)) => {
                pos = p;
                s
            },
        };
        let ghost pos_mid = pos as int;
        let v = match read_value(body, pos) {
            None => {
                assert(spec_value_end(body@, pos_mid) is None);
                assert(spec_values_end(body@, pos_old, rem_old, true) is None);
                return None;
            },
            Some((v, p)) => {
                proof {
                    assert(spec_value_end(body@, pos_mid) == Some(p as int));
                }
                pos = p;
                v
            },
        };
        proof {
            assert(spec_read_string(body@, pos_old) == Some((name@, pos_mid)));
            assert(spec_values_end(body@, pos_old, rem_old, true) is Some <==> spec_values_end(
                body@,
                pos as int,
                rem_old - 1,
                true,
            ) is Some);
        }
        items.push((name, v));
        remaining = remaining - 1;
    }
}

/// Read `count` positional query values, each a `[value]`.
fn read_unnamed_values(body: &Vec<u8>, start: usize, count: u16) -> (r: Option<
    (Vec<WireValue>, usize),
>)
    requires
        start <= body@.len(),
    ensures
        r is Some <==> spec_values_end(body@, start as int, count as int, false) is Some,
        (r matches Some((items, p)) ==> spec_values_end(body@, start as int, count as int, false)
            == Some(p as int) && items@.len() == count && p <= body@.len()),
{
    let mut items: Vec<WireValue> = Vec::new();
    let mut pos: usize = start;
    let mut remaining: u16 = count;
    loop
        invariant
            pos <= body@.len(),
            items@.len() + remaining == count,
            spec_values_end(body@, start as int, count as int, false) is Some <==> spec_values_end(
                body@,
                pos as int,
                remaining as int,
                false,
            ) is Some,
            (spec_values_end(body@, pos as int, remaining as int, false) matches Some(q)
                ==> spec_values_end(body@, start as int, count as int, false) == Some(q)),
        decreases remaining,
    {
        if remaining == 0 {
            return Some((items, pos));
        }
        let ghost pos_old = pos as int;
        let ghost rem_old = remaining as int;
        let v = match read_value(body, pos) {
            None => {
                assert(spec_value_end(body@, pos_old) is None);
                assert(spec_values_end(body@, pos_old, rem_old, false) is None);
                return None;
            },
            Some((v, p)) => {
                proof {
                    assert(spec_value_end(body@, pos_old) == Some(p as int));
                }
                pos = p;
                v
            },
        };
        items.push(v);
        remaining = remaining - 1;
    }
}

/// Decode a query body: `long string` text, `short` consistency, a flag
/// byte, then the sections the flags announce. It succeeds exactly on
/// decodable bodies; a truncated body, an unknown consistency, or a
/// malformed `[value]` is a protocol error.
pub fn decode_query(body: &Vec<u8>) -> (r: Result<Operation, DbError>)
    ensures
        r is Ok <==> spec_query_decodable(body@),
        (r matches Ok(op) ==> (op matches Operation::Query(q) && spec_query_matches(body@, q))),
        (r matches Err(e) ==> e.code == ErrorCode::ProtocolError),
{
    let truncated = String::from_str("malformed query body");
    let query = match read_long_string(body, 0) {
        None => {
            return Err(DbError::new(ErrorCode::ProtocolError, truncated));
        },
        Some((s, p)) => (s, p),
    };
    let (query_text, p1) = query;
    if body.len() - p1 < 3 {
        return Err(DbError::new(ErrorCode::ProtocolError, truncated));
    }
    let consistency_code = match read_unsigned_short(body, p1) {
        None => {
            return Err(DbError::new(ErrorCode::ProtocolError, truncated));
        },
        Some((v, _)) => v,
    };
    let consistency = match map_consistency(consistency_code) {
        Err(e) => {
            return Err(e);
        },
        Ok(c) => c,
    };
    let flags: u8 = body[p1 + 2];
    let mut pos: usize = p1 + 3;
    let values: Option<Values> = if flags & QUERY_FLAG_VALUES == QUERY_FLAG_VALUES {
        let num_values = match read_unsigned_short(body, pos) {
            None => {
                assert(spec_values_section_end(body@, p1 + 3, flags) is None);
                return Err(DbError::new(ErrorCode::ProtocolError, truncated));
            },
            Some((n, p)) => {
                pos = p;
                n
            },
        };
        if flags & QUERY_FLAG_NAMES_FOR_VALUES == QUERY_FLAG_NAMES_FOR_VALUES {
            match read_named_values(body, pos, num_values) {
                None => {
                    return Err(DbError::new(ErrorCode::ProtocolError, truncated));
                },
                Some((items, p)) => {
                    pos = p;
                    Some(Values::Named(items))
                },
            }
        } else {
            match read_unnamed_values(body, pos, num_values) {
                None => {
                    return Err(DbError::new(ErrorCode::ProtocolError, truncated));
                },
                Some((items, p)) => {
                    pos = p;
                    Some(Values::Unnamed(items))
                },
            }
        }
    } else {
        None
    };
    assert(spec_values_section_end(body@, p1 + 3, flags) == Some(pos as int));
    let ghost p2 = pos as int;
    let skip_metadata = flags & QUERY_FLAG_SKIP_METADATA == QUERY_FLAG_SKIP_METADATA;
    let page_size: Option<i32> = if flags & QUERY_FLAG_PAGE_SIZE == QUERY_FLAG_PAGE_SIZE {
        match read_int(body, pos) {
            None => {
                assert(spec_page_size_end(body@, p2, flags) is None);
                return Err(DbError::new(ErrorCode::ProtocolError, truncated));
            },
            Some((v, p)) => {
                pos = p;
                Some(v)
            },
        }
    } else {
        None
    };
    assert(spec_page_size_end(body@, p2, flags) == Some(pos as int));
    let ghost p3 = pos as int;
    let paging_state: Option<Vec<u8>> = if flags & QUERY_FLAG_PAGING_STATE
        == QUERY_FLAG_PAGING_STATE {
        match read_bytes(body, pos) {
            None => {
                assert(spec_bytes_end(body@, p3) is None);
                return Err(DbError::new(ErrorCode::ProtocolError, truncated));
            },
            Some((v, p)) => {
                pos = p;
                v
            },
        }
    } else {
        None
    };
    assert(spec_paging_state_end(body@, p3, flags) == Some(pos as int));
    let ghost p4 = pos as int;
    let timestamp: Option<i64> = if flags & QUERY_FLAG_TIMESTAMP == QUERY_FLAG_TIMESTAMP {
        match read_long(body, pos) {
            None => {
                return Err(DbError::new(ErrorCode::ProtocolError, truncated));
            },
            Some((v, p)) => {
                pos = p;
                Some(v)
            },
        }
    } else {
        None
    };
    Ok(
        Operation::Query(
            Query {
                query: query_text,
                query_options: QueryOptions {
                    consistency,
                    values,
                    skip_metadata,
                    page_size,
                    paging_state,
                    timestamp,
                },
            },
        ),
    )
}

} // verus!
