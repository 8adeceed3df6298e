//! Response message bodies: `Error`, `Supported`, and the three `Result`
//! kinds (void, set-keyspace, rows), with their wire codecs.

use vstd::prelude::*;
use vstd::string::StringExecFns;
use vstd::utf8::decode_utf8;
use vstd::utf8::encode_utf8;

use crate::data::ColumnType;
use crate::data::Row;
use crate::data::Value;
use crate::wire::spec_be16;
use crate::wire::spec_be16i;
use crate::wire::spec_be32;
use crate::wire::spec_be32i;
use crate::wire::spec_be64;
use crate::wire::spec_be64i;
use crate::wire::read_int;
use crate::wire::read_long;
use crate::wire::read_raw;
use crate::wire::read_string_strict;
use crate::wire::spec_read_string_strict;
use crate::wire::lemma_read_string_of_encode;
use crate::wire::spec_read_string;
use crate::wire::read_u32;
use crate::wire::read_u64;
use crate::wire::read_unsigned_short;
use crate::wire::spec_string_encode;
use crate::wire::spec_u16_of;
use crate::wire::spec_u32_of;
use crate::wire::string_from_utf8;
use crate::string_map::read_string_map;
use crate::string_map::spec_read_string_map;
use crate::string_map::spec_string_map_encode;
use crate::string_map::write_string_map;
use crate::string_map::StringMap;
use crate::error::DbError;
use crate::error::ErrorCode;
use crate::wire::write_int;
use crate::wire::write_bool;
use crate::wire::write_long;
use crate::wire::write_raw;
use crate::wire::write_short;
use crate::wire::write_tinyint;
use crate::wire::write_u32;
use crate::wire::write_u64;
use crate::wire::write_string;
use crate::wire::write_unsigned_short;

verus! {

/// An error response body: a CQL error code and a message.
#[derive(Debug, Clone)]
pub struct Error {
    pub code: i32,
    pub message: String,
}

impl Error {
    /// Build an error body.
    pub fn new(code: i32, message: String) -> (r: Error)
        ensures
            r.code == code,
            r.message@ == message@,
    {
        Error { code, message }
    }

    /// The message fits its wire length field.
    pub open spec fn wf(self) -> bool {
        encode_utf8(self.message@).len() <= u16::MAX
    }
}

/// Wire form of an error body: `int` code, then `string` message.
pub open spec fn spec_error_encode(code: i32, message: Seq<char>) -> Seq<u8> {
    spec_be32i(code) + spec_string_encode(message)
}

/// Encode an error body.
pub fn encode_error(src: &Error, dst: &mut Vec<u8>)
    requires
        src.wf(),
    ensures
        final(dst)@ == old(dst)@ + spec_error_encode(src.code, src.message@),
{
    write_int(dst, src.code);
    write_string(dst, src.message.as_str());
    assert(final(dst)@ =~= old(dst)@ + spec_error_encode(src.code, src.message@));
}

pub const GLOBAL_TABLES_SPEC_FLAG: i32 = 0x01;

pub const HAS_PAGING_STATE_FLAG: i32 = 0x02;

pub const NO_METADATA_FLAG: i32 = 0x04;

/// Rows-metadata flag bits.
#[derive(Debug, Copy, Clone, PartialEq, Eq, Structural)]
pub struct Flags {
    pub bits: i32,
}

impl Flags {
    /// No flag set.
    pub fn empty() -> (r: Flags)
        ensures
            r.bits == 0,
    {
        Flags { bits: 0 }
    }

    /// The raw bit pattern.
    pub fn bits(&self) -> (r: i32)
        ensures
            r == self.bits,
    {
        self.bits
    }
}

/// The keyspace and table shared by all columns of a rows result.
#[derive(Debug, Clone)]
pub struct GlobalTableSpec {
    pub keyspace: String,
    pub table: String,
}

/// One column of a rows result: its name and type, and its keyspace and
/// table when no global spec is present.
#[derive(Debug, Clone)]
pub struct ColumnSpec {
    pub keyspace: Option<String>,
    pub table: Option<String>,
    pub name: String,
    pub column_type: ColumnType,
}

/// Rows-result metadata: flags, column count, and the column specs.
#[derive(Debug, Clone)]
pub struct Metadata {
    pub flags: Flags,
    pub paging_state: Option<String>,
    pub column_count: i32,
    pub global_table_spec: Option<GlobalTableSpec>,
    pub column_specs: Vec<ColumnSpec>,
}

impl Metadata {
    /// Metadata with the given flags and column count and no column specs
    /// yet.
    pub fn new(flags: Flags, column_count: i32) -> (r: Metadata)
        ensures
            r.flags == flags,
            r.paging_state is None,
            r.column_count == column_count,
            r.global_table_spec is None,
            r.column_specs@ == Seq::<ColumnSpec>::empty(),
    {
        Metadata {
            flags,
            paging_state: None,
            column_count,
            global_table_spec: None,
            column_specs: Vec::new(),
        }
    }

    /// Whether the global-tables-spec flag is set.
    pub open spec fn spec_global(self) -> bool {
        self.flags.bits & GLOBAL_TABLES_SPEC_FLAG == GLOBAL_TABLES_SPEC_FLAG
    }

    /// Metadata is well formed when the column count matches the specs,
    /// the global spec is present exactly when its flag is set, each
    /// column carries its keyspace and table when no global spec is
    /// present, and every string fits its wire length field.
    pub open spec fn wf(self) -> bool {
        &&& self.column_count == self.column_specs@.len()
        &&& (self.spec_global() ==> (self.global_table_spec matches Some(g)
            && encode_utf8(g.keyspace@).len() <= u16::MAX && encode_utf8(g.table@).len()
            <= u16::MAX))
        &&& (!self.spec_global() ==> self.global_table_spec is None)
        &&& forall|i: int|
            0 <= i < self.column_specs@.len() ==> {
                let c = #[trigger] self.column_specs@[i];
                &&& encode_utf8(c.name@).len() <= u16::MAX
                &&& (!self.spec_global() ==> (c.keyspace matches Some(k) && encode_utf8(k@).len()
                    <= u16::MAX) && (c.table matches Some(t) && encode_utf8(t@).len()
                    <= u16::MAX))
            }
    }
}

/// A result response body.
#[derive(Debug, Clone)]
pub enum CqlResult {
    Void,
    SetKeyspace(String),
    Rows { metadata: Metadata, row_count: i32, rows: Vec<Row> },
}

pub const VOID_RESULT_KIND: i32 = 0x0001;

pub const ROWS_RESULT_KIND: i32 = 0x0002;

pub const SET_KEYSPACE_RESULT_KIND: i32 = 0x0003;

/// Wire form of one column spec within a rows result.
pub open spec fn spec_column_spec_encode(c: ColumnSpec, global: bool) -> Seq<u8> {
    (if global {
        Seq::<u8>::empty()
    } else {
        spec_string_encode(c.keyspace->Some_0@) + spec_string_encode(c.table->Some_0@)
    }) + spec_string_encode(c.name@) + spec_be16(c.column_type.spec_type_id())
}

/// Wire form of a list of column specs.
pub open spec fn spec_column_specs_encode(cs: Seq<ColumnSpec>, global: bool) -> Seq<u8>
    decreases cs.len(),
{
    if cs.len() == 0 {
        Seq::<u8>::empty()
    } else {
        spec_column_spec_encode(cs[0], global) + spec_column_specs_encode(cs.drop_first(), global)
    }
}

/// Wire payload of one present row cell, by value: fixed-width types store
/// raw big-endian bytes, variable-width types their raw payload.
pub open spec fn spec_cell_payload(v: Value) -> Seq<u8> {
    match v {
        Value::Ascii(b) => b@,
        Value::Bigint(i) => spec_be64i(i),
        Value::Blob(b) => b@,
        Value::Boolean(t) => seq![if t { 1u8 } else { 0u8 }],
        Value::Counter(i) => spec_be64i(i),
        Value::Decimal(b) => b@,
        Value::Double(bits) => spec_be64(bits),
        Value::Float(bits) => spec_be32(bits),
        Value::Int(i) => spec_be32i(i),
        Value::Timestamp(i) => spec_be64i(i),
        Value::Uuid(b) => b@,
        Value::Varchar(s) => encode_utf8(s@),
        Value::Varint(b) => b@,
        Value::Timeuuid(b) => b@,
        Value::Inet(b) => b@,
        Value::Date(i) => spec_be32i(i),
        Value::Time(i) => spec_be64i(i),
        Value::Smallint(i) => spec_be16i(i),
        Value::Tinyint(i) => seq![i as u8],
    }
}

/// Wire form of one row cell as a CQL `[bytes]`: `int` -1 for null, else
/// `int` payload length and the payload.
pub open spec fn spec_cell_encode(c: Option<Value>) -> Seq<u8> {
    match c {
        None => spec_be32i(-1i32),
        Some(v) => spec_be32i(spec_cell_payload(v).len() as i32) + spec_cell_payload(v),
    }
}

/// Wire form of one row: its cells in column order.
pub open spec fn spec_row_cells_encode(cols: Seq<Option<Value>>) -> Seq<u8>
    decreases cols.len(),
{
    if cols.len() == 0 {
        Seq::<u8>::empty()
    } else {
        spec_cell_encode(cols[0]) + spec_row_cells_encode(cols.drop_first())
    }
}

/// Wire form of a list of rows.
pub open spec fn spec_rows_encode(rows: Seq<Row>) -> Seq<u8>
    decreases rows.len(),
{
    if rows.len() == 0 {
        Seq::<u8>::empty()
    } else {
        spec_row_cells_encode(rows[0].columns@) + spec_rows_encode(rows.drop_first())
    }
}

/// Wire form of a result body.
pub open spec fn spec_result_encode(r: CqlResult) -> Seq<u8> {
    match r {
        CqlResult::Void => spec_be32i(VOID_RESULT_KIND),
        CqlResult::SetKeyspace(s) => spec_be32i(SET_KEYSPACE_RESULT_KIND) + spec_string_encode(s@),
        CqlResult::Rows { metadata, row_count, rows } => spec_be32i(ROWS_RESULT_KIND) + spec_be32i(
            metadata.flags.bits,
        ) + spec_be32i(metadata.column_count) + (if metadata.spec_global() {
            spec_string_encode(metadata.global_table_spec->Some_0.keyspace@) + spec_string_encode(
                metadata.global_table_spec->Some_0.table@,
            )
        } else {
            Seq::<u8>::empty()
        }) + spec_column_specs_encode(metadata.column_specs@, metadata.spec_global())
            + spec_be32i(row_count) + spec_rows_encode(rows@),
    }
}

/// A value's cell payload fits a cell's 32-bit length field.
pub open spec fn spec_cell_wf(v: Value) -> bool {
    v.wf() && spec_cell_payload(v).len() <= i32::MAX
}

/// A result body is well formed when its metadata is, its row and column
/// counts match its contents, every cell value is well formed and typed as
/// its column spec declares, and every string fits its length field.
pub open spec fn spec_result_wf(r: CqlResult) -> bool {
    match r {
        CqlResult::Void => true,
        CqlResult::SetKeyspace(s) => encode_utf8(s@).len() <= u16::MAX,
        CqlResult::Rows { metadata, row_count, rows } => {
            &&& metadata.wf()
            &&& row_count == rows@.len()
            &&& forall|i: int|
                0 <= i < rows@.len() ==> {
                    let cols = (#[trigger] rows@[i]).columns@;
                    &&& cols.len() == metadata.column_specs@.len()
                    &&& forall|j: int|
                        0 <= j < cols.len() ==> (#[trigger] cols[j] matches Some(v) ==> spec_cell_wf(
                            v,
                        ) && v.spec_column_type() == metadata.column_specs@[j].column_type)
                }
        },
    }
}

/// Appending a column spec appends its wire form.
proof fn lemma_column_specs_push(cs: Seq<ColumnSpec>, c: ColumnSpec, global: bool)
    ensures
        spec_column_specs_encode(cs.push(c), global) == spec_column_specs_encode(cs, global)
            + spec_column_spec_encode(c, global),
    decreases cs.len(),
{
    if cs.len() == 0 {
        assert(cs.push(c).drop_first() =~= cs);
        assert(spec_column_specs_encode(cs.push(c), global) =~= spec_column_specs_encode(
            cs,
            global,
        ) + spec_column_spec_encode(c, global));
    } else {
        assert(cs.push(c).drop_first() =~= cs.drop_first().push(c));
        lemma_column_specs_push(cs.drop_first(), c, global);
        assert(spec_column_specs_encode(cs.push(c), global) =~= spec_column_specs_encode(
            cs,
            global,
        ) + spec_column_spec_encode(c, global));
    }
}

/// Appending a cell appends its wire form.
proof fn lemma_row_cells_push(cols: Seq<Option<Value>>, c: Option<Value>)
    ensures
        spec_row_cells_encode(cols.push(c)) == spec_row_cells_encode(cols) + spec_cell_encode(c),
    decreases cols.len(),
{
    if cols.len() == 0 {
        assert(cols.push(c).drop_first() =~= cols);
        assert(spec_row_cells_encode(cols.push(c)) =~= spec_row_cells_encode(cols)
            + spec_cell_encode(c));
    } else {
        assert(cols.push(c).drop_first() =~= cols.drop_first().push(c));
        lemma_row_cells_push(cols.drop_first(), c);
        assert(spec_row_cells_encode(cols.push(c)) =~= spec_row_cells_encode(cols)
            + spec_cell_encode(c));
    }
}

/// Appending a row appends its cells' wire form.
proof fn lemma_rows_push(rows: Seq<Row>, r: Row)
    ensures
        spec_rows_encode(rows.push(r)) == spec_rows_encode(rows) + spec_row_cells_encode(
            r.columns@,
        ),
    decreases rows.len(),
{
    if rows.len() == 0 {
        assert(rows.push(r).drop_first() =~= rows);
        assert(spec_rows_encode(rows.push(r)) =~= spec_rows_encode(rows) + spec_row_cells_encode(
            r.columns@,
        ));
    } else {
        assert(rows.push(r).drop_first() =~= rows.drop_first().push(r));
        lemma_rows_push(rows.drop_first(), r);
        assert(spec_rows_encode(rows.push(r)) =~= spec_rows_encode(rows) + spec_row_cells_encode(
            r.columns@,
        ));
    }
}

/// Serialize one present cell's payload.
pub fn cell_payload(v: &Value) -> (r: Vec<u8>)
    requires
        v.wf(),
    ensures
        r@ == spec_cell_payload(*v),
{
    let mut buf: Vec<u8> = Vec::new();
    match v {
        Value::Ascii(b) => write_raw(&mut buf, b.as_slice()),
        Value::Bigint(i) => write_long(&mut buf, *i),
        Value::Blob(b) => write_raw(&mut buf, b.as_slice()),
        Value::Boolean(t) => write_bool(&mut buf, *t),
        Value::Counter(i) => write_long(&mut buf, *i),
        Value::Decimal(b) => write_raw(&mut buf, b.as_slice()),
        Value::Double(bits) => write_u64(&mut buf, *bits),
        Value::Float(bits) => write_u32(&mut buf, *bits),
        Value::Int(i) => write_int(&mut buf, *i),
        Value::Timestamp(i) => write_long(&mut buf, *i),
        Value::Uuid(b) => write_raw(&mut buf, b.as_slice()),
        Value::Varchar(s) => write_raw(&mut buf, s.as_str().as_bytes()),
        Value::Varint(b) => write_raw(&mut buf, b.as_slice()),
        Value::Timeuuid(b) => write_raw(&mut buf, b.as_slice()),
        Value::Inet(b) => write_raw(&mut buf, b.as_slice()),
        Value::Date(i) => write_int(&mut buf, *i),
        Value::Time(i) => write_long(&mut buf, *i),
        Value::Smallint(i) => write_short(&mut buf, *i),
        Value::Tinyint(i) => write_tinyint(&mut buf, *i),
    }
    assert(buf@ =~= spec_cell_payload(*v));
    buf
}

/// Encode a result body.
#[verifier::rlimit(60)]
pub fn encode_result(src: &CqlResult, dst: &mut Vec<u8>)
    requires
        spec_result_wf(*src),
    ensures
        final(dst)@ == old(dst)@ + spec_result_encode(*src),
{
    match src {
        CqlResult::Void => {
            write_int(dst, VOID_RESULT_KIND);
        },
        CqlResult::SetKeyspace(s) => {
            write_int(dst, SET_KEYSPACE_RESULT_KIND);
            write_string(dst, s.as_str());
            assert(final(dst)@ =~= old(dst)@ + spec_result_encode(*src));
        },
        CqlResult::Rows { metadata, row_count, rows } => {
            write_int(dst, ROWS_RESULT_KIND);
            write_int(dst, metadata.flags.bits);
            write_int(dst, metadata.column_count);
            let global = metadata.flags.bits & GLOBAL_TABLES_SPEC_FLAG == GLOBAL_TABLES_SPEC_FLAG;
            if global {
                match &metadata.global_table_spec {
                    Some(g) => {
                        write_string(dst, g.keyspace.as_str());
                        write_string(dst, g.table.as_str());
                    },
                    None => {
                        assert(false);
                    },
                }
            }
            let ghost after_global = dst@;
            let mut i: usize = 0;
            while i < metadata.column_specs.len()
                invariant
                    metadata.wf(),
                    global == metadata.spec_global(),
                    i <= metadata.column_specs@.len(),
                    dst@ == after_global + spec_column_specs_encode(
                        metadata.column_specs@.take(i as int),
                        global,
                    ),
                decreases metadata.column_specs@.len() - i,
            {
                let ghost before = dst@;
                let c = &metadata.column_specs[i];
                assert(metadata.column_specs@[i as int] == *c);
                if !global {
                    match &c.keyspace {
                        Some(k) => write_string(dst, k.as_str()),
                        None => {
                            assert(false);
                        },
                    }
                    match &c.table {
                        Some(t) => write_string(dst, t.as_str()),
                        None => {
                            assert(false);
                        },
                    }
                }
                write_string(dst, c.name.as_str());
                write_unsigned_short(dst, c.column_type.type_identifier());
                proof {
                    assert(dst@ =~= before + spec_column_spec_encode(*c, global));
                    lemma_column_specs_push(
                        metadata.column_specs@.take(i as int),
                        metadata.column_specs@[i as int],
                        global,
                    );
                    assert(metadata.column_specs@.take(i + 1)
                        =~= metadata.column_specs@.take(i as int).push(
                        metadata.column_specs@[i as int],
                    ));
                }
                i = i + 1;
            }
            assert(metadata.column_specs@.take(metadata.column_specs@.len() as int)
                =~= metadata.column_specs@);
            write_int(dst, *row_count);
            let ghost after_count = dst@;
            let mut ri: usize = 0;
            while ri < rows.len()
                invariant
                    spec_result_wf(*src),
                    (src matches CqlResult::Rows { rows: rs, .. } && rs == rows),
                    ri <= rows@.len(),
                    dst@ == after_count + spec_rows_encode(rows@.take(ri as int)),
                decreases rows@.len() - ri,
            {
                let ghost row_before = dst@;
                let row = &rows[ri];
                assert(rows@[ri as int] == *row);
                let ghost cols = row.columns@;
                let mut ci: usize = 0;
                while ci < row.columns.len()
                    invariant
                        spec_result_wf(*src),
                        (src matches CqlResult::Rows { rows: rs, .. } && rs == rows),
                        ri < rows@.len(),
                        *row == rows@[ri as int],
                        cols == row.columns@,
                        ci <= cols.len(),
                        dst@ == row_before + spec_row_cells_encode(cols.take(ci as int)),
                    decreases cols.len() - ci,
                {
                    let ghost cell_before = dst@;
                    assert(rows@[ri as int].columns@[ci as int] matches Some(v) ==> spec_cell_wf(
                        v,
                    ));
                    match &row.columns[ci] {
                        None => {
                            write_int(dst, -1i32);
                            assert(dst@ =~= cell_before + spec_cell_encode(None));
                        },
                        Some(v) => {
                            let payload = cell_payload(v);
                            write_int(dst, payload.len() as i32);
                            write_raw(dst, payload.as_slice());
                            assert(dst@ =~= cell_before + spec_cell_encode(Some(*v)));
                        },
                    }
                    proof {
                        lemma_row_cells_push(cols.take(ci as int), cols[ci as int]);
                        assert(cols.take(ci + 1) =~= cols.take(ci as int).push(cols[ci as int]));
                    }
                    ci = ci + 1;
                }
                proof {
                    assert(cols.take(cols.len() as int) =~= cols);
                    lemma_rows_push(rows@.take(ri as int), rows@[ri as int]);
                    assert(rows@.take(ri + 1) =~= rows@.take(ri as int).push(rows@[ri as int]));
                }
                ri = ri + 1;
            }
            proof {
                assert(rows@.take(rows@.len() as int) =~= rows@);
                assert(dst@ =~= old(dst)@ + spec_result_encode(*src));
            }
        },
    }
}

/// Encode a `Supported` body: a `string map` of supported options.
pub fn encode_supported(src: &StringMap, dst: &mut Vec<u8>)
    requires
        src.wf(),
    ensures
        final(dst)@ == old(dst)@ + spec_string_map_encode(src.pairs()),
{
    write_string_map(dst, src);
}

/// Decode a `Supported` body.
pub fn decode_supported(body: &Vec<u8>) -> (r: Option<StringMap>)
    ensures
        r is Some <==> spec_read_string_map(body@, 0) is Some,
        (r matches Some(m) ==> spec_read_string_map(body@, 0) matches Some((ps, _)) && m.pairs()
            == ps),
{
    match read_string_map(body, 0) {
        None => None,
        Some((m, _)) => Some(m),
    }
}

/// Decode an error body: `int` code, then `string` message. It succeeds
/// exactly when the code and a valid message are present.
pub fn decode_error(body: &Vec<u8>) -> (r: Option<Error>)
    ensures
        r is Some <==> body@.len() >= 4 && spec_read_string_strict(body@, 4) is Some,
        (r matches Some(e) ==> e.wf() && spec_error_encode(e.code, e.message@) == body@.take(
            4 + 2 + encode_utf8(e.message@).len() as int,
        )),
{
    broadcast use crate::wire::lemma_be32_bytes;
    broadcast use crate::wire::lemma_u32_bits;

    let code = match read_int(body, 0) {
        None => {
            return None;
        },
        Some((c, _)) => c,
    };
    match read_string_strict(body, 4) {
        None => None,
        Some((s, p)) => {
            proof {
                assert(spec_be32i(code) =~= body@.take(4));
                assert(spec_error_encode(code, s@) =~= body@.take(
                    4 + 2 + encode_utf8(s@).len() as int,
                ));
            }
            Some(Error { code, message: s })
        },
    }
}

/// Law (error round trip): decoding an encoded error body yields its code
/// and message.
pub proof fn lemma_error_encode_injective(c1: i32, m1: Seq<char>, c2: i32, m2: Seq<char>)
    requires
        spec_error_encode(c1, m1) == spec_error_encode(c2, m2),
    ensures
        c1 == c2,
        m1 == m2,
{
    broadcast use vstd::utf8::encode_utf8_decode_utf8;
    broadcast use crate::wire::lemma_be16_of;

    let b = spec_error_encode(c1, m1);
    assert(spec_be32i(c1) =~= b.take(4));
    assert(spec_be32i(c2) =~= b.take(4));
    crate::wire::lemma_be32_injective(c1 as u32, c2 as u32);
    assert(((c1 as u32) as i32) == c1 && ((c2 as u32) as i32) == c2) by (bit_vector);
    let s1 = spec_string_encode(m1);
    let s2 = spec_string_encode(m2);
    assert(s1 =~= b.skip(4));
    assert(s2 =~= b.skip(4));
    assert(s1[0] == spec_be16(encode_utf8(m1).len() as u16)[0]);
    assert(spec_u16_of(s1[0], s1[1]) == encode_utf8(m1).len() as u16);
    assert(spec_u16_of(s2[0], s2[1]) == encode_utf8(m2).len() as u16);
    assert(encode_utf8(m1) =~= s1.skip(2));
    assert(encode_utf8(m2) =~= s2.skip(2));
    assert(decode_utf8(encode_utf8(m1)) == m1 && decode_utf8(encode_utf8(m2)) == m2);
}

/// Decode one row cell at `pos` as a value of the given column type.
/// The decoded cell is one whose encoding is exactly the consumed bytes.
#[verifier::rlimit(100)]
pub fn decode_cell(bytes: &Vec<u8>, pos: usize, ct: ColumnType) -> (r: Option<
    (Option<Value>, usize),
>)
    requires
        pos <= bytes@.len(),
    ensures
        (r matches Some((c, p)) ==> {
            &&& pos < p <= bytes@.len()
            &&& (c matches Some(v) ==> spec_cell_wf(v) && v.spec_column_type() == ct)
            &&& spec_cell_encode(c) == bytes@.subrange(pos as int, p as int)
        }),
{
    broadcast use crate::wire::lemma_be16_bytes;
    broadcast use crate::wire::lemma_be32_bytes;
    broadcast use crate::wire::lemma_be64_bytes;
    broadcast use crate::wire::lemma_u16_bits;
    broadcast use crate::wire::lemma_u32_bits;
    broadcast use crate::wire::lemma_u64_bits;
    broadcast use crate::wire::lemma_u8_bits;
    broadcast use vstd::utf8::decode_utf8_encode_utf8;

    let n: i32 = match read_int(bytes, pos) {
        None => {
            return None;
        },
        Some((n, _)) => n,
    };
    if n < 0 {
        if n == -1 {
            assert(spec_cell_encode(None) =~= bytes@.subrange(pos as int, pos + 4));
            return Some((None, pos + 4));
        }
        return None;
    }
    let p1 = pos + 4;
    let v: Value = match ct {
        ColumnType::Bigint => {
            if n != 8 {
                return None;
            }
            match read_long(bytes, p1) {
                None => {
                    return None;
                },
                Some((x, _)) => Value::Bigint(x),
            }
        },
        ColumnType::Counter => {
            if n != 8 {
                return None;
            }
            match read_long(bytes, p1) {
                None => {
                    return None;
                },
                Some((x, _)) => Value::Counter(x),
            }
        },
        ColumnType::Timestamp => {
            if n != 8 {
                return None;
            }
            match read_long(bytes, p1) {
                None => {
                    return None;
                },
                Some((x, _)) => Value::Timestamp(x),
            }
        },
        ColumnType::Time => {
            if n != 8 {
                return None;
            }
            match read_long(bytes, p1) {
                None => {
                    return None;
                },
                Some((x, _)) => Value::Time(x),
            }
        },
        ColumnType::Double => {
            if n != 8 {
                return None;
            }
            match read_u64(bytes, p1) {
                None => {
                    return None;
                },
                Some((x, _)) => Value::Double(x),
            }
        },
        ColumnType::Int => {
            if n != 4 {
                return None;
            }
            match read_int(bytes, p1) {
                None => {
                    return None;
                },
                Some((x, _)) => Value::Int(x),
            }
        },
        ColumnType::Date => {
            if n != 4 {
                return None;
            }
            match read_int(bytes, p1) {
                None => {
                    return None;
                },
                Some((x, _)) => Value::Date(x),
            }
        },
        ColumnType::Float => {
            if n != 4 {
                return None;
            }
            match read_u32(bytes, p1) {
                None => {
                    return None;
                },
                Some((x, _)) => Value::Float(x),
            }
        },
        ColumnType::Smallint => {
            if n != 2 {
                return None;
            }
            match read_unsigned_short(bytes, p1) {
                None => {
                    return None;
                },
                Some((x, _)) => Value::Smallint(
                    #[verifier::truncate]
                    (x as i16),
                ),
            }
        },
        ColumnType::Boolean => {
            if n != 1 {
                return None;
            }
            if bytes.len() - p1 < 1 {
                return None;
            }
            let b = bytes[p1];
            if b > 1 {
                return None;
            }
            Value::Boolean(b != 0)
        },
        ColumnType::Tinyint => {
            if n != 1 {
                return None;
            }
            if bytes.len() - p1 < 1 {
                return None;
            }
            Value::Tinyint(
                #[verifier::truncate]
                (bytes[p1] as i8),
            )
        },
        ColumnType::Uuid => {
            if n != 16 {
                return None;
            }
            match read_raw(bytes, p1, 16) {
                None => {
                    return None;
                },
                Some((b, _)) => Value::Uuid(b),
            }
        },
        ColumnType::Timeuuid => {
            if n != 16 {
                return None;
            }
            match read_raw(bytes, p1, 16) {
                None => {
                    return None;
                },
                Some((b, _)) => Value::Timeuuid(b),
            }
        },
        ColumnType::Ascii => {
            match read_raw(bytes, p1, n as usize) {
                None => {
                    return None;
                },
                Some((b, _)) => Value::Ascii(b),
            }
        },
        ColumnType::Blob => {
            match read_raw(bytes, p1, n as usize) {
                None => {
                    return None;
                },
                Some((b, _)) => Value::Blob(b),
            }
        },
        ColumnType::Decimal => {
            match read_raw(bytes, p1, n as usize) {
                None => {
                    return None;
                },
                Some((b, _)) => Value::Decimal(b),
            }
        },
        ColumnType::Varint => {
            match read_raw(bytes, p1, n as usize) {
                None => {
                    return None;
                },
                Some((b, _)) => Value::Varint(b),
            }
        },
        ColumnType::Inet => {
            match read_raw(bytes, p1, n as usize) {
                None => {
                    return None;
                },
                Some((b, _)) => Value::Inet(b),
            }
        },
        ColumnType::Varchar => {
            match read_raw(bytes, p1, n as usize) {
                None => {
                    return None;
                },
                Some((b, _)) => {
                    let ghost bv = b@;
                    match string_from_utf8(b) {
                        None => {
                            return None;
                        },
                        Some(s) => {
                            assert(encode_utf8(s@) == bv);
                            Value::Varchar(s)
                        },
                    }
                },
            }
        },
    };
    let p = p1 + n as usize;
    proof {
        assert(spec_cell_payload(v).len() == n);
        assert(spec_cell_encode(Some(v)) =~= bytes@.subrange(pos as int, p as int));
    }
    Some((Some(v), p))
}

/// Whether a value can stand in a row cell of the given column type: it
/// is well formed, its payload fits the cell's length field, and its type
/// is the declared one.
pub fn check_value_cell(v: &Value, ct: ColumnType) -> (r: bool)
    ensures
        r == (spec_cell_wf(*v) && v.spec_column_type() == ct),
{
    proof {
        broadcast use vstd::slice::axiom_spec_len;

    }
    if !(v.column_type() == ct) {
        return false;
    }
    match v {
        Value::Ascii(b) => b.len() <= i32::MAX as usize,
        Value::Blob(b) => b.len() <= i32::MAX as usize,
        Value::Decimal(b) => b.len() <= i32::MAX as usize,
        Value::Varint(b) => b.len() <= i32::MAX as usize,
        Value::Inet(b) => b.len() <= i32::MAX as usize,
        Value::Varchar(s) => s.as_str().as_bytes().len() <= i32::MAX as usize,
        Value::Uuid(b) => b.len() == 16,
        Value::Timeuuid(b) => b.len() == 16,
        _ => true,
    }
}

/// A protocol error for a body that cannot be decoded.
fn protocol_error() -> (e: DbError)
    ensures
        e.code == ErrorCode::ProtocolError,
{
    DbError::new(ErrorCode::ProtocolError, String::from_str("malformed result body"))
}

/// Decode a result body. The decoded result is well formed and is one
/// whose encoding is exactly the input; malformed bodies yield a protocol
/// error. Void and set-keyspace bodies succeed exactly when their kind
/// is followed by the body the kind demands.
#[verifier::rlimit(100)]
pub fn decode_result(body: &Vec<u8>) -> (r: Result<CqlResult, DbError>)
    ensures
        (r matches Ok(res) ==> spec_result_wf(res) && spec_result_encode(res) == body@),
        (r matches Err(e) ==> e.code == ErrorCode::ProtocolError),
        body@.len() < 4 ==> r is Err,
        (body@.len() >= 4 && (spec_u32_of(body@[0], body@[1], body@[2], body@[3]) as i32)
            == VOID_RESULT_KIND ==> (r is Ok <==> body@.len() == 4)),
        (body@.len() >= 4 && (spec_u32_of(body@[0], body@[1], body@[2], body@[3]) as i32)
            == SET_KEYSPACE_RESULT_KIND ==> (r is Ok <==> (spec_read_string_strict(body@, 4)
            matches Some((_, p)) && p == body@.len()))),
{
    broadcast use crate::wire::lemma_be32_bytes;
    broadcast use crate::wire::lemma_u32_bits;

    let kind: i32 = match read_int(body, 0) {
        None => {
            return Err(protocol_error());
        },
        Some((k, _)) => k,
    };
    assert(spec_be32i(kind) =~= body@.take(4));
    if kind == VOID_RESULT_KIND {
        if body.len() != 4 {
            return Err(protocol_error());
        }
        assert(spec_result_encode(CqlResult::Void) =~= body@);
        Ok(CqlResult::Void)
    } else if kind == SET_KEYSPACE_RESULT_KIND {
        match read_string_strict(body, 4) {
            None => Err(protocol_error()),
            Some((s, p)) => {
                if p != body.len() {
                    return Err(protocol_error());
                }
                assert(spec_result_encode(CqlResult::SetKeyspace(s)) =~= body@);
                Ok(CqlResult::SetKeyspace(s))
            },
        }
    } else if kind == ROWS_RESULT_KIND {
        let flags_bits: i32 = match read_int(body, 4) {
            None => {
                return Err(protocol_error());
            },
            Some((f, _)) => f,
        };
        let column_count: i32 = match read_int(body, 8) {
            None => {
                return Err(protocol_error());
            },
            Some((c, _)) => c,
        };
        if column_count < 0 {
            return Err(protocol_error());
        }
        let global = flags_bits & GLOBAL_TABLES_SPEC_FLAG == GLOBAL_TABLES_SPEC_FLAG;
        let mut pos: usize = 12;
        assert(spec_be32i(flags_bits) =~= body@.subrange(4, 8));
        assert(spec_be32i(column_count) =~= body@.subrange(8, 12));
        let global_table_spec: Option<GlobalTableSpec> = if global {
            let ks = match read_string_strict(body, pos) {
                None => {
                    return Err(protocol_error());
                },
                Some((s, p)) => {
                    pos = p;
                    s
                },
            };
            let tb = match read_string_strict(body, pos) {
                None => {
                    return Err(protocol_error());
                },
                Some((s, p)) => {
                    pos = p;
                    s
                },
            };
            Some(GlobalTableSpec { keyspace: ks, table: tb })
        } else {
            None
        };
        let ghost specs_start = pos as int;
        assert(body@.take(specs_start) =~= spec_be32i(ROWS_RESULT_KIND) + spec_be32i(flags_bits)
            + spec_be32i(column_count) + (if global {
            spec_string_encode(global_table_spec->Some_0.keyspace@) + spec_string_encode(
                global_table_spec->Some_0.table@,
            )
        } else {
            Seq::<u8>::empty()
        }));
        let mut column_specs: Vec<ColumnSpec> = Vec::new();
        let mut i: i32 = 0;
        assert(spec_column_specs_encode(column_specs@, global) =~= Seq::<u8>::empty());
        while i < column_count
            invariant
                body@.len() >= 4,
                (spec_u32_of(body@[0], body@[1], body@[2], body@[3]) as i32) == ROWS_RESULT_KIND,
                0 <= i <= column_count,
                column_specs@.len() == i,
                pos <= body@.len(),
                0 <= specs_start <= pos,
                body@.subrange(specs_start, pos as int) == spec_column_specs_encode(
                    column_specs@,
                    global,
                ),
                forall|k: int|
                    0 <= k < column_specs@.len() ==> {
                        let c = #[trigger] column_specs@[k];
                        &&& encode_utf8(c.name@).len() <= u16::MAX
                        &&& (!global ==> (c.keyspace matches Some(ks) && encode_utf8(
                            ks@,
                        ).len() <= u16::MAX) && (c.table matches Some(t) && encode_utf8(
                            t@,
                        ).len() <= u16::MAX))
                        &&& (global ==> c.keyspace is None && c.table is None)
                    },
            decreases column_count - i,
        {
            let ghost spec_before = column_specs@;
            let ghost pos_before = pos as int;
            let mut cks: Option<String> = None;
            let mut ctb: Option<String> = None;
            if !global {
                match read_string_strict(body, pos) {
                    None => {
                        return Err(protocol_error());
                    },
                    Some((s, p)) => {
                        cks = Some(s);
                        pos = p;
                    },
                }
                match read_string_strict(body, pos) {
                    None => {
                        return Err(protocol_error());
                    },
                    Some((s, p)) => {
                        ctb = Some(s);
                        pos = p;
                    },
                }
            }
            let name = match read_string_strict(body, pos) {
                None => {
                    return Err(protocol_error());
                },
                Some((s, p)) => {
                    pos = p;
                    s
                },
            };
            let tid = match read_unsigned_short(body, pos) {
                None => {
                    return Err(protocol_error());
                },
                Some((t, p)) => {
                    pos = p;
                    t
                },
            };
            let column_type = match crate::data::column_type_from_id(tid) {
                None => {
                    return Err(protocol_error());
                },
                Some(t) => t,
            };
            let c = ColumnSpec { keyspace: cks, table: ctb, name, column_type };
            proof {
                broadcast use crate::wire::lemma_be16_bytes;

                assert(spec_column_spec_encode(c, global) =~= body@.subrange(
                    pos_before,
                    pos as int,
                ));
                lemma_column_specs_push(spec_before, c, global);
                assert(body@.subrange(specs_start, pos as int) =~= body@.subrange(
                    specs_start,
                    pos_before,
                ) + body@.subrange(pos_before, pos as int));
            }
            column_specs.push(c);
            i = i + 1;
        }
        let row_count: i32 = match read_int(body, pos) {
            None => {
                return Err(protocol_error());
            },
            Some((c, p)) => {
                assert(spec_be32i(c) =~= body@.subrange(pos as int, p as int));
                pos = p;
                c
            },
        };
        if row_count < 0 {
            return Err(protocol_error());
        }
        let ghost rows_start = pos as int;
        let mut rows: Vec<Row> = Vec::new();
        let mut ri: i32 = 0;
        assert(spec_rows_encode(rows@) =~= Seq::<u8>::empty());
        while ri < row_count
            invariant
                body@.len() >= 4,
                (spec_u32_of(body@[0], body@[1], body@[2], body@[3]) as i32) == ROWS_RESULT_KIND,
                0 <= ri <= row_count,
                rows@.len() == ri,
                pos <= body@.len(),
                0 <= rows_start <= pos,
                column_specs@.len() == column_count,
                body@.subrange(rows_start, pos as int) == spec_rows_encode(rows@),
                forall|k: int|
                    0 <= k < rows@.len() ==> {
                        let cols = (#[trigger] rows@[k]).columns@;
                        &&& cols.len() == column_specs@.len()
                        &&& forall|j: int|
                            0 <= j < cols.len() ==> (#[trigger] cols[j] matches Some(v)
                                ==> spec_cell_wf(v) && v.spec_column_type()
                                == column_specs@[j].column_type)
                    },
            decreases row_count - ri,
        {
            let ghost rows_before = rows@;
            let ghost row_start = pos as int;
            let mut columns: Vec<Option<Value>> = Vec::new();
            let mut ci: usize = 0;
            assert(spec_row_cells_encode(columns@) =~= Seq::<u8>::empty());
            while ci < column_specs.len()
                invariant
                    body@.len() >= 4,
                    (spec_u32_of(body@[0], body@[1], body@[2], body@[3]) as i32) == ROWS_RESULT_KIND,
                    ci <= column_specs@.len(),
                    columns@.len() == ci,
                    pos <= body@.len(),
                    0 <= row_start <= pos,
                    body@.subrange(row_start, pos as int) == spec_row_cells_encode(columns@),
                    forall|j: int|
                        0 <= j < columns@.len() ==> (#[trigger] columns@[j] matches Some(v)
                            ==> spec_cell_wf(v) && v.spec_column_type()
                            == column_specs@[j].column_type),
                decreases column_specs@.len() - ci,
            {
                let ghost cols_before = columns@;
                let ghost cell_start = pos as int;
                match decode_cell(body, pos, column_specs[ci].column_type) {
                    None => {
                        return Err(protocol_error());
                    },
                    Some((c, p)) => {
                        proof {
                            lemma_row_cells_push(cols_before, c);
                            assert(body@.subrange(row_start, p as int) =~= body@.subrange(
                                row_start,
                                cell_start,
                            ) + body@.subrange(cell_start, p as int));
                        }
                        columns.push(c);
                        pos = p;
                    },
                }
                ci = ci + 1;
            }
            let row = Row { columns };
            proof {
                lemma_rows_push(rows_before, row);
                assert(body@.subrange(rows_start, pos as int) =~= body@.subrange(
                    rows_start,
                    row_start,
                ) + body@.subrange(row_start, pos as int));
            }
            rows.push(row);
            ri = ri + 1;
        }
        if pos != body.len() {
            return Err(protocol_error());
        }
        let metadata = Metadata {
            flags: Flags { bits: flags_bits },
            paging_state: None,
            column_count,
            global_table_spec,
            column_specs,
        };
        let res = CqlResult::Rows { metadata, row_count, rows };
        proof {
            assert(spec_result_wf(res));
            assert(spec_result_encode(res) =~= body@);
        }
        Ok(res)
    } else {
        Err(protocol_error())
    }
}

/// Two well-formed values of the same declared type with the same cell
/// payload are equal.
#[verifier::rlimit(100)]
proof fn lemma_cell_payload_injective(v1: Value, v2: Value)
    requires
        spec_cell_wf(v1),
        spec_cell_wf(v2),
        v1.spec_column_type() == v2.spec_column_type(),
        spec_cell_payload(v1) == spec_cell_payload(v2),
    ensures
        crate::data::val_eq(v1, v2),
{
    broadcast use vstd::utf8::encode_utf8_decode_utf8;

    let p = spec_cell_payload(v1);
    match (v1, v2) {
        (Value::Ascii(x), Value::Ascii(y)) => {},
        (Value::Bigint(x), Value::Bigint(y)) => {
            crate::wire::lemma_be64_injective(x as u64, y as u64);
            assert(((x as u64) as i64) == x && ((y as u64) as i64) == y) by (bit_vector);
        },
        (Value::Blob(x), Value::Blob(y)) => {},
        (Value::Boolean(x), Value::Boolean(y)) => {
            assert(p[0] == (if x {
                1u8
            } else {
                0u8
            }));
        },
        (Value::Counter(x), Value::Counter(y)) => {
            crate::wire::lemma_be64_injective(x as u64, y as u64);
            assert(((x as u64) as i64) == x && ((y as u64) as i64) == y) by (bit_vector);
        },
        (Value::Decimal(x), Value::Decimal(y)) => {},
        (Value::Double(x), Value::Double(y)) => {
            crate::wire::lemma_be64_injective(x, y);
        },
        (Value::Float(x), Value::Float(y)) => {
            crate::wire::lemma_be32_injective(x, y);
        },
        (Value::Int(x), Value::Int(y)) => {
            crate::wire::lemma_be32_injective(x as u32, y as u32);
            assert(((x as u32) as i32) == x && ((y as u32) as i32) == y) by (bit_vector);
        },
        (Value::Timestamp(x), Value::Timestamp(y)) => {
            crate::wire::lemma_be64_injective(x as u64, y as u64);
            assert(((x as u64) as i64) == x && ((y as u64) as i64) == y) by (bit_vector);
        },
        (Value::Uuid(x), Value::Uuid(y)) => {},
        (Value::Varchar(x), Value::Varchar(y)) => {
            assert(decode_utf8(encode_utf8(x@)) == x@ && decode_utf8(encode_utf8(y@)) == y@);
        },
        (Value::Varint(x), Value::Varint(y)) => {},
        (Value::Timeuuid(x), Value::Timeuuid(y)) => {},
        (Value::Inet(x), Value::Inet(y)) => {},
        (Value::Date(x), Value::Date(y)) => {
            crate::wire::lemma_be32_injective(x as u32, y as u32);
            assert(((x as u32) as i32) == x && ((y as u32) as i32) == y) by (bit_vector);
        },
        (Value::Time(x), Value::Time(y)) => {
            crate::wire::lemma_be64_injective(x as u64, y as u64);
            assert(((x as u64) as i64) == x && ((y as u64) as i64) == y) by (bit_vector);
        },
        (Value::Smallint(x), Value::Smallint(y)) => {
            assert(spec_be16(x as u16) =~= spec_be16(y as u16));
            crate::wire::lemma_be16_injective(x as u16, y as u16);
            assert(((x as u16) as i16) == x && ((y as u16) as i16) == y) by (bit_vector);
        },
        (Value::Tinyint(x), Value::Tinyint(y)) => {
            assert(p[0] == x as u8 && p[0] == y as u8);
            assert(((x as u8) as i8) == x && ((y as u8) as i8) == y) by (bit_vector);
        },
        _ => {
            assert(false);
        },
    }
}

/// Where the cell starting at `pos` ends, by its length field.
pub open spec fn spec_cell_end(b: Seq<u8>, pos: int) -> Option<int> {
    if pos + 4 <= b.len() {
        let n = spec_u32_of(b[pos], b[pos + 1], b[pos + 2], b[pos + 3]) as i32;
        if n < 0 {
            Some(pos + 4)
        } else if pos + 4 + n <= b.len() {
            Some(pos + 4 + n)
        } else {
            None
        }
    } else {
        None
    }
}

/// A well-formed cell's encoding announces its own end, tells null from
/// present, and carries its payload verbatim.
#[verifier::rlimit(60)]
proof fn lemma_cell_parse(c: Option<Value>, b: Seq<u8>, pos: int, tail: Seq<u8>)
    requires
        0 <= pos <= b.len(),
        (c matches Some(v) ==> spec_cell_wf(v)),
        b == b.take(pos) + spec_cell_encode(c) + tail,
    ensures
        spec_cell_end(b, pos) == Some(pos + spec_cell_encode(c).len()),
        (c is None <==> (spec_u32_of(b[pos], b[pos + 1], b[pos + 2], b[pos + 3]) as i32) < 0),
        (c matches Some(v) ==> spec_cell_payload(v) == b.subrange(
            pos + 4,
            pos + spec_cell_encode(c).len(),
        )),
{
    broadcast use crate::wire::lemma_be32_of;
    broadcast use crate::wire::lemma_u32_bits;
    broadcast use crate::wire::lemma_i32_bits;

    let enc = spec_cell_encode(c);
    assert(b.len() == pos + enc.len() + tail.len());
    match c {
        None => {
            let u = (-1i32) as u32;
            assert(b[pos] == (u >> 24) as u8 && b[pos + 1] == (u >> 16) as u8 && b[pos + 2] == (u
                >> 8) as u8 && b[pos + 3] == u as u8);
            assert(spec_u32_of(b[pos], b[pos + 1], b[pos + 2], b[pos + 3]) == u);
            assert((((-1i32) as u32) as i32) == -1) by (bit_vector);
        },
        Some(v) => {
            let n = spec_cell_payload(v).len() as i32;
            let u = n as u32;
            assert(b[pos] == (u >> 24) as u8 && b[pos + 1] == (u >> 16) as u8 && b[pos + 2] == (u
                >> 8) as u8 && b[pos + 3] == u as u8);
            assert(spec_u32_of(b[pos], b[pos + 1], b[pos + 2], b[pos + 3]) == u);
            assert((u as i32) == n);
            assert(n >= 0);
            assert(spec_cell_payload(v) =~= b.subrange(pos + 4, pos + enc.len()));
        },
    }
}

/// Cells of the same declared types with the same encoding hold equal
/// values, and the encodings end together.
#[verifier::rlimit(100)]
proof fn lemma_cells_injective(
    a: Seq<Option<Value>>,
    b2: Seq<Option<Value>>,
    ts: Seq<ColumnSpec>,
    big: Seq<u8>,
    pos: int,
    ta: Seq<u8>,
    tb: Seq<u8>,
)
    requires
        a.len() == ts.len(),
        b2.len() == ts.len(),
        forall|j: int|
            0 <= j < a.len() ==> (#[trigger] a[j] matches Some(v) ==> spec_cell_wf(v)
                && v.spec_column_type() == ts[j].column_type),
        forall|j: int|
            0 <= j < b2.len() ==> (#[trigger] b2[j] matches Some(v) ==> spec_cell_wf(v)
                && v.spec_column_type() == ts[j].column_type),
        0 <= pos <= big.len(),
        big == big.take(pos) + spec_row_cells_encode(a) + ta,
        big == big.take(pos) + spec_row_cells_encode(b2) + tb,
    ensures
        spec_row_cells_encode(a).len() == spec_row_cells_encode(b2).len(),
        forall|j: int| 0 <= j < a.len() ==> crate::data::opt_val_eq(#[trigger] a[j], b2[j]),
    decreases a.len(),
{
    if a.len() == 0 {
        assert(spec_row_cells_encode(a) =~= Seq::<u8>::empty());
        assert(spec_row_cells_encode(b2) =~= Seq::<u8>::empty());
    } else {
        let ea = spec_cell_encode(a[0]);
        let eb = spec_cell_encode(b2[0]);
        let ra = spec_row_cells_encode(a.drop_first());
        let rb = spec_row_cells_encode(b2.drop_first());
        assert(spec_row_cells_encode(a) == ea + ra);
        assert(spec_row_cells_encode(b2) == eb + rb);
        assert(big =~= big.take(pos) + ea + (ra + ta));
        assert(big =~= big.take(pos) + eb + (rb + tb));
        lemma_cell_parse(a[0], big, pos, ra + ta);
        lemma_cell_parse(b2[0], big, pos, rb + tb);
        assert(ea.len() == eb.len());
        let p2 = pos + ea.len();
        // the head cells hold equal values
        match (a[0], b2[0]) {
            (None, None) => {},
            (Some(x), Some(y)) => {
                assert(spec_cell_payload(x) == big.subrange(pos + 4, p2));
                assert(spec_cell_payload(y) == big.subrange(pos + 4, p2));
                lemma_cell_payload_injective(x, y);
            },
            _ => {
                assert(false);
            },
        }
        // the tails align
        assert(big =~= big.take(p2) + ra + ta);
        assert(big =~= big.take(p2) + rb + tb);
        assert(forall|j: int|
            0 <= j < a.drop_first().len() ==> a.drop_first()[j] == a[j + 1] && b2.drop_first()[j]
                == b2[j + 1] && ts.drop_first()[j] == ts[j + 1]);
        lemma_cells_injective(a.drop_first(), b2.drop_first(), ts.drop_first(), big, p2, ta, tb);
        assert forall|j: int| 1 <= j < a.len() implies crate::data::opt_val_eq(
            #[trigger] a[j],
            b2[j],
        ) by {
            assert(a.drop_first()[j - 1] == a[j] && b2.drop_first()[j - 1] == b2[j]);
            assert(crate::data::opt_val_eq(a.drop_first()[j - 1], b2.drop_first()[j - 1]));
        }
    }
}

/// Rows of the same declared column types with the same encoding hold
/// pairwise equal cells.
proof fn lemma_rows_injective(
    a: Seq<Row>,
    b2: Seq<Row>,
    ts: Seq<ColumnSpec>,
    big: Seq<u8>,
    pos: int,
    ta: Seq<u8>,
    tb: Seq<u8>,
)
    requires
        a.len() == b2.len(),
        forall|x: int|
            0 <= x < a.len() ==> {
                let cols = (#[trigger] a[x]).columns@;
                cols.len() == ts.len() && forall|j: int|
                    0 <= j < cols.len() ==> (#[trigger] cols[j] matches Some(v) ==> spec_cell_wf(v)
                        && v.spec_column_type() == ts[j].column_type)
            },
        forall|x: int|
            0 <= x < b2.len() ==> {
                let cols = (#[trigger] b2[x]).columns@;
                cols.len() == ts.len() && forall|j: int|
                    0 <= j < cols.len() ==> (#[trigger] cols[j] matches Some(v) ==> spec_cell_wf(v)
                        && v.spec_column_type() == ts[j].column_type)
            },
        0 <= pos <= big.len(),
        big == big.take(pos) + spec_rows_encode(a) + ta,
        big == big.take(pos) + spec_rows_encode(b2) + tb,
    ensures
        forall|x: int, j: int|
            0 <= x < a.len() && 0 <= j < ts.len() ==> crate::data::opt_val_eq(
                #[trigger] a[x].columns@[j],
                #[trigger] b2[x].columns@[j],
            ),
    decreases a.len(),
{
    if a.len() == 0 {
    } else {
        let ea = spec_row_cells_encode(a[0].columns@);
        let eb = spec_row_cells_encode(b2[0].columns@);
        let ra = spec_rows_encode(a.drop_first());
        let rb = spec_rows_encode(b2.drop_first());
        assert(spec_rows_encode(a) == ea + ra);
        assert(spec_rows_encode(b2) == eb + rb);
        assert(big =~= big.take(pos) + ea + (ra + ta));
        assert(big =~= big.take(pos) + eb + (rb + tb));
        lemma_cells_injective(
            a[0].columns@,
            b2[0].columns@,
            ts,
            big,
            pos,
            ra + ta,
            rb + tb,
        );
        let p2 = pos + ea.len();
        assert(big =~= big.take(p2) + ra + ta);
        assert(big =~= big.take(p2) + rb + tb);
        assert(forall|x: int|
            0 <= x < a.drop_first().len() ==> a.drop_first()[x] == a[x + 1]
                && b2.drop_first()[x] == b2[x + 1]);
        lemma_rows_injective(a.drop_first(), b2.drop_first(), ts, big, p2, ta, tb);
        assert forall|x: int, j: int|
            0 <= x < a.len() && 0 <= j < ts.len() implies crate::data::opt_val_eq(
            #[trigger] a[x].columns@[j],
            #[trigger] b2[x].columns@[j],
        ) by {
            if x == 0 {
                assert(crate::data::opt_val_eq(a[0].columns@[j], b2[0].columns@[j]));
            } else {
                assert(a.drop_first()[x - 1] == a[x] && b2.drop_first()[x - 1] == b2[x]);
                assert(crate::data::opt_val_eq(
                    a.drop_first()[x - 1].columns@[j],
                    b2.drop_first()[x - 1].columns@[j],
                ));
            }
        }
    }
}

/// The column spec starting at `pos`: its optional keyspace and table,
/// its name, its type identifier, and where it ends.
pub open spec fn spec_read_colspec(b: Seq<u8>, pos: int, global: bool) -> Option<
    ((Option<Seq<char>>, Option<Seq<char>>, Seq<char>, u16), int),
> {
    if global {
        match spec_read_string(b, pos) {
            None => None,
            Some((n, p1)) => if p1 + 2 <= b.len() {
                Some(((None, None, n, spec_u16_of(b[p1], b[p1 + 1])), p1 + 2))
            } else {
                None
            },
        }
    } else {
        match spec_read_string(b, pos) {
            None => None,
            Some((k, p1)) => match spec_read_string(b, p1) {
                None => None,
                Some((t, p2)) => match spec_read_string(b, p2) {
                    None => None,
                    Some((n, p3)) => if p3 + 2 <= b.len() {
                        Some(((Some(k), Some(t), n, spec_u16_of(b[p3], b[p3 + 1])), p3 + 2))
                    } else {
                        None
                    },
                },
            },
        }
    }
}

/// A well-formed column spec's encoding reads back as its own fields and
/// announces its own end.
#[verifier::rlimit(100)]
#[verifier::spinoff_prover]
proof fn lemma_read_colspec_of_encode(c: ColumnSpec, g: bool, b: Seq<u8>, pos: int, tail: Seq<u8>)
    requires
        0 <= pos <= b.len(),
        encode_utf8(c.name@).len() <= u16::MAX,
        (!g ==> (c.keyspace matches Some(k) && encode_utf8(k@).len() <= u16::MAX) && (c.table
            matches Some(t) && encode_utf8(t@).len() <= u16::MAX)),
        b == b.take(pos) + spec_column_spec_encode(c, g) + tail,
    ensures
        spec_read_colspec(b, pos, g) == Some(
            (
                (
                    if g {
                        None
                    } else {
                        Some(c.keyspace->Some_0@)
                    },
                    if g {
                        None
                    } else {
                        Some(c.table->Some_0@)
                    },
                    c.name@,
                    c.column_type.spec_type_id(),
                ),
                pos + spec_column_spec_encode(c, g).len(),
            ),
        ),
{
    broadcast use crate::wire::lemma_be16_of;

    let id = c.column_type.spec_type_id();
    let ne = spec_string_encode(c.name@);
    let enc = spec_column_spec_encode(c, g);
    assert(b.len() == pos + enc.len() + tail.len());
    if g {
        assert(b =~= b.take(pos) + ne + (spec_be16(id) + tail));
        lemma_read_string_of_encode(c.name@, b, pos, spec_be16(id) + tail);
        let p1 = pos + ne.len();
        assert(b[p1] == (id >> 8) as u8 && b[p1 + 1] == id as u8) by {
            assert(b =~= b.take(p1) + spec_be16(id) + tail);
        }
        assert(spec_u16_of(b[p1], b[p1 + 1]) == id);
    } else {
        let ke = spec_string_encode(c.keyspace->Some_0@);
        let te = spec_string_encode(c.table->Some_0@);
        assert(enc == ke + te + ne + spec_be16(id));
        assert(b =~= b.take(pos) + ke + (te + ne + spec_be16(id) + tail));
        lemma_read_string_of_encode(c.keyspace->Some_0@, b, pos, te + ne + spec_be16(id) + tail);
        let p1 = pos + ke.len();
        assert(b =~= b.take(p1) + te + (ne + spec_be16(id) + tail));
        lemma_read_string_of_encode(c.table->Some_0@, b, p1, ne + spec_be16(id) + tail);
        let p2 = p1 + te.len();
        assert(b =~= b.take(p2) + ne + (spec_be16(id) + tail));
        lemma_read_string_of_encode(c.name@, b, p2, spec_be16(id) + tail);
        let p3 = p2 + ne.len();
        assert(b[p3] == (id >> 8) as u8 && b[p3 + 1] == id as u8) by {
            assert(b =~= b.take(p3) + spec_be16(id) + tail);
        }
        assert(spec_u16_of(b[p3], b[p3 + 1]) == id);
    }
}

/// Two column specs carry the same wire-visible fields.
pub open spec fn colspec_eqv(x: ColumnSpec, y: ColumnSpec, global: bool) -> bool {
    &&& x.name@ == y.name@
    &&& x.column_type == y.column_type
    &&& (!global ==> x.keyspace->Some_0@ == y.keyspace->Some_0@ && x.table->Some_0@
        == y.table->Some_0@)
}

/// Two column specs with the same encoding at the same position carry
/// the same fields, and their encodings end together.
#[verifier::rlimit(100)]
proof fn lemma_colspec_head(
    ca: ColumnSpec,
    cb: ColumnSpec,
    g: bool,
    big: Seq<u8>,
    pos: int,
    ta: Seq<u8>,
    tb: Seq<u8>,
)
    requires
        encode_utf8(ca.name@).len() <= u16::MAX,
        encode_utf8(cb.name@).len() <= u16::MAX,
        (!g ==> (ca.keyspace matches Some(k) && encode_utf8(k@).len() <= u16::MAX) && (ca.table
            matches Some(t) && encode_utf8(t@).len() <= u16::MAX)),
        (!g ==> (cb.keyspace matches Some(k) && encode_utf8(k@).len() <= u16::MAX) && (cb.table
            matches Some(t) && encode_utf8(t@).len() <= u16::MAX)),
        0 <= pos <= big.len(),
        big == big.take(pos) + spec_column_spec_encode(ca, g) + ta,
        big == big.take(pos) + spec_column_spec_encode(cb, g) + tb,
    ensures
        colspec_eqv(ca, cb, g),
        spec_column_spec_encode(ca, g).len() == spec_column_spec_encode(cb, g).len(),
{
    lemma_read_colspec_of_encode(ca, g, big, pos, ta);
    lemma_read_colspec_of_encode(cb, g, big, pos, tb);
    assert(ca.column_type.spec_type_id() == cb.column_type.spec_type_id());
    crate::data::lemma_type_id_injective(ca.column_type, cb.column_type);
}

/// Column-spec lists of the same length with the same encoding carry the
/// same fields, and the encodings end together.
#[verifier::rlimit(100)]
proof fn lemma_colspecs_injective(
    sa: Seq<ColumnSpec>,
    sb: Seq<ColumnSpec>,
    g: bool,
    big: Seq<u8>,
    pos: int,
    ta: Seq<u8>,
    tb: Seq<u8>,
)
    requires
        sa.len() == sb.len(),
        forall|i: int|
            0 <= i < sa.len() ==> {
                let c = #[trigger] sa[i];
                encode_utf8(c.name@).len() <= u16::MAX && (!g ==> (c.keyspace matches Some(k)
                    && encode_utf8(k@).len() <= u16::MAX) && (c.table matches Some(t)
                    && encode_utf8(t@).len() <= u16::MAX))
            },
        forall|i: int|
            0 <= i < sb.len() ==> {
                let c = #[trigger] sb[i];
                encode_utf8(c.name@).len() <= u16::MAX && (!g ==> (c.keyspace matches Some(k)
                    && encode_utf8(k@).len() <= u16::MAX) && (c.table matches Some(t)
                    && encode_utf8(t@).len() <= u16::MAX))
            },
        0 <= pos <= big.len(),
        big == big.take(pos) + spec_column_specs_encode(sa, g) + ta,
        big == big.take(pos) + spec_column_specs_encode(sb, g) + tb,
    ensures
        spec_column_specs_encode(sa, g).len() == spec_column_specs_encode(sb, g).len(),
        forall|i: int| 0 <= i < sa.len() ==> colspec_eqv(#[trigger] sa[i], sb[i], g),
    decreases sa.len(),
{
    if sa.len() == 0 {
        assert(spec_column_specs_encode(sa, g) =~= Seq::<u8>::empty());
        assert(spec_column_specs_encode(sb, g) =~= Seq::<u8>::empty());
    } else {
        let ea = spec_column_spec_encode(sa[0], g);
        let eb = spec_column_spec_encode(sb[0], g);
        let ra = spec_column_specs_encode(sa.drop_first(), g);
        let rb = spec_column_specs_encode(sb.drop_first(), g);
        assert(spec_column_specs_encode(sa, g) == ea + ra);
        assert(spec_column_specs_encode(sb, g) == eb + rb);
        assert(big =~= big.take(pos) + ea + (ra + ta));
        assert(big =~= big.take(pos) + eb + (rb + tb));
        lemma_colspec_head(sa[0], sb[0], g, big, pos, ra + ta, rb + tb);
        let p2 = pos + ea.len();
        assert(big =~= big.take(p2) + ra + ta);
        assert(big =~= big.take(p2) + rb + tb);
        assert(forall|i: int|
            0 <= i < sa.drop_first().len() ==> sa.drop_first()[i] == sa[i + 1]
                && sb.drop_first()[i] == sb[i + 1]);
        lemma_colspecs_injective(sa.drop_first(), sb.drop_first(), g, big, p2, ta, tb);
        assert forall|i: int| 1 <= i < sa.len() implies colspec_eqv(
            #[trigger] sa[i],
            sb[i],
            g,
        ) by {
            assert(colspec_eqv(sa.drop_first()[i - 1], sb.drop_first()[i - 1], g));
        }
    }
}

/// Two result bodies carry the same wire-visible contents.
pub open spec fn result_eqv(a: CqlResult, b: CqlResult) -> bool {
    match (a, b) {
        (CqlResult::Void, CqlResult::Void) => true,
        (CqlResult::SetKeyspace(x), CqlResult::SetKeyspace(y)) => x@ == y@,
        (
            CqlResult::Rows { metadata: ma, row_count: ra, rows: rsa },
            CqlResult::Rows { metadata: mb, row_count: rb, rows: rsb },
        ) => {
            &&& ma.flags == mb.flags
            &&& ma.column_count == mb.column_count
            &&& ra == rb
            &&& (ma.spec_global() ==> ma.global_table_spec->Some_0.keyspace@
                == mb.global_table_spec->Some_0.keyspace@ && ma.global_table_spec->Some_0.table@
                == mb.global_table_spec->Some_0.table@)
            &&& ma.column_specs@.len() == mb.column_specs@.len()
            &&& (forall|i: int|
                0 <= i < ma.column_specs@.len() ==> colspec_eqv(
                    #[trigger] ma.column_specs@[i],
                    mb.column_specs@[i],
                    ma.spec_global(),
                ))
            &&& rsa@.len() == rsb@.len()
            &&& (forall|x: int, j: int|
                0 <= x < rsa@.len() && 0 <= j < ma.column_specs@.len()
                    ==> crate::data::opt_val_eq(
                    #[trigger] rsa@[x].columns@[j],
                    #[trigger] rsb@[x].columns@[j],
                ))
        },
        _ => false,
    }
}

/// Law (frame round trip, body level): the result encoding is injective,
/// so with the decoder's contract — it returns a well-formed result that
/// encodes to its input — decoding an encoded result yields its contents
/// back: the same kind, metadata, and rows, cell by cell.
#[verifier::rlimit(100)]
pub proof fn lemma_result_round_trip(a: CqlResult, b: CqlResult)
    requires
        spec_result_wf(a),
        spec_result_wf(b),
        spec_result_encode(b) == spec_result_encode(a),
    ensures
        result_eqv(a, b),
{
    broadcast use crate::wire::lemma_be32_of;
    broadcast use crate::wire::lemma_u32_bits;
    broadcast use crate::wire::lemma_i32_bits;

    let big = spec_result_encode(a);
    let ka = spec_result_kind(a);
    let kb = spec_result_kind(b);
    assert(spec_be32i(ka) =~= big.take(4));
    assert(spec_be32i(kb) =~= big.take(4));
    crate::wire::lemma_be32_injective(ka as u32, kb as u32);
    assert(((ka as u32) as i32) == ka && ((kb as u32) as i32) == kb) by (bit_vector);
    match (a, b) {
        (CqlResult::Void, CqlResult::Void) => {},
        (CqlResult::SetKeyspace(x), CqlResult::SetKeyspace(y)) => {
            assert(big =~= big.take(4) + spec_string_encode(x@) + Seq::<u8>::empty());
            assert(big =~= big.take(4) + spec_string_encode(y@) + Seq::<u8>::empty());
            lemma_read_string_of_encode(x@, big, 4, Seq::<u8>::empty());
            lemma_read_string_of_encode(y@, big, 4, Seq::<u8>::empty());
        },
        (
            CqlResult::Rows { metadata: ma, row_count: ra, rows: rsa },
            CqlResult::Rows { metadata: mb, row_count: rb, rows: rsb },
        ) => {
            lemma_rows_sections(ma, ra, rsa, mb, rb, rsb, big);
        },
        _ => {
            assert(false);
        },
    }
}

/// The result kind written first in a body.
pub open spec fn spec_result_kind(r: CqlResult) -> i32 {
    match r {
        CqlResult::Void => VOID_RESULT_KIND,
        CqlResult::SetKeyspace(_) => SET_KEYSPACE_RESULT_KIND,
        CqlResult::Rows { .. } => ROWS_RESULT_KIND,
    }
}

/// Wire form of a rows body's global table spec section.
pub open spec fn spec_global_encode(m: Metadata) -> Seq<u8> {
    if m.spec_global() {
        spec_string_encode(m.global_table_spec->Some_0.keyspace@) + spec_string_encode(
            m.global_table_spec->Some_0.table@,
        )
    } else {
        Seq::<u8>::empty()
    }
}

/// Carve a rows body into its sections: the kind, flags and column count
/// at their fixed offsets, then the global spec, the column specs, the
/// row count, and the rows, each at the offset the previous sections end.
#[verifier::rlimit(100)]
proof fn lemma_rows_carve(m: Metadata, rc: i32, rs: Vec<Row>, big: Seq<u8>)
    requires
        big == spec_result_encode((CqlResult::Rows { metadata: m, row_count: rc, rows: rs })),
    ensures
        ({
            let ge = spec_global_encode(m);
            let se = spec_column_specs_encode(m.column_specs@, m.spec_global());
            let re = spec_rows_encode(rs@);
            &&& big.len() == 12 + ge.len() + se.len() + 4 + re.len()
            &&& spec_be32i(m.flags.bits) == big.subrange(4, 8)
            &&& spec_be32i(m.column_count) == big.subrange(8, 12)
            &&& big == big.take(12) + ge + (se + (spec_be32i(rc) + re))
            &&& big == big.take(12 + ge.len() as int) + se + (spec_be32i(rc) + re)
            &&& spec_be32i(rc) == big.subrange(
                12 + ge.len() + se.len() as int,
                12 + ge.len() + se.len() + 4 as int,
            )
            &&& big == big.take(12 + ge.len() + se.len() + 4 as int) + re + Seq::<u8>::empty()
        }),
{
    let ge = spec_global_encode(m);
    let se = spec_column_specs_encode(m.column_specs@, m.spec_global());
    let re = spec_rows_encode(rs@);
    let r5 = spec_be32i(rc) + re;
    let r4 = se + r5;
    let r3 = ge + r4;
    let r2 = spec_be32i(m.column_count) + r3;
    let r1 = spec_be32i(m.flags.bits) + r2;
    assert(big =~= big.take(0) + (spec_be32i(ROWS_RESULT_KIND) + r1));
    crate::wire::lemma_carve_step(big, 0, spec_be32i(ROWS_RESULT_KIND), r1);
    crate::wire::lemma_carve_step(big, 4, spec_be32i(m.flags.bits), r2);
    crate::wire::lemma_carve_step(big, 8, spec_be32i(m.column_count), r3);
    crate::wire::lemma_carve_step(big, 12, ge, r4);
    crate::wire::lemma_carve_step(big, 12 + ge.len() as int, se, r5);
    crate::wire::lemma_carve_step(big, 12 + ge.len() + se.len() as int, spec_be32i(rc), re);
    assert(re =~= re + Seq::<u8>::empty());
    crate::wire::lemma_carve_step(
        big,
        12 + ge.len() + se.len() + 4 as int,
        re,
        Seq::<u8>::empty(),
    );
    assert(big =~= big.take(12) + ge + r4);
    assert(big =~= big.take(12 + ge.len() as int) + se + r5);
    assert(big =~= big.take(12 + ge.len() + se.len() + 4 as int) + re + Seq::<u8>::empty());
}

/// The global table spec of a rows body reads back from offset twelve, so
/// two equal encodings name the same keyspace and table there and their
/// global sections end together.
#[verifier::rlimit(100)]
proof fn lemma_global_section(ma: Metadata, mb: Metadata, big: Seq<u8>, ra: Seq<u8>, rb: Seq<u8>)
    requires
        ma.wf(),
        mb.wf(),
        ma.spec_global(),
        mb.spec_global(),
        12 <= big.len(),
        big == big.take(12) + spec_global_encode(ma) + ra,
        big == big.take(12) + spec_global_encode(mb) + rb,
    ensures
        ma.global_table_spec->Some_0.keyspace@ == mb.global_table_spec->Some_0.keyspace@,
        ma.global_table_spec->Some_0.table@ == mb.global_table_spec->Some_0.table@,
        spec_global_encode(ma).len() == spec_global_encode(mb).len(),
{
    let kae = spec_string_encode(ma.global_table_spec->Some_0.keyspace@);
    let tae = spec_string_encode(ma.global_table_spec->Some_0.table@);
    let kbe = spec_string_encode(mb.global_table_spec->Some_0.keyspace@);
    let tbe = spec_string_encode(mb.global_table_spec->Some_0.table@);
    assert(big =~= big.take(12) + kae + (tae + ra));
    assert(big =~= big.take(12) + kbe + (tbe + rb));
    lemma_read_string_of_encode(ma.global_table_spec->Some_0.keyspace@, big, 12, tae + ra);
    lemma_read_string_of_encode(mb.global_table_spec->Some_0.keyspace@, big, 12, tbe + rb);
    assert(kae.len() == kbe.len());
    let p1 = 12 + kae.len() as int;
    assert(big =~= big.take(p1) + tae + ra);
    assert(big =~= big.take(p1) + tbe + rb);
    lemma_read_string_of_encode(ma.global_table_spec->Some_0.table@, big, p1, ra);
    lemma_read_string_of_encode(mb.global_table_spec->Some_0.table@, big, p1, rb);
}

/// Walk two equal rows-body encodings section by section: the counts, the
/// global spec, the column specs, and the rows all agree.
#[verifier::rlimit(100)]
proof fn lemma_rows_sections(
    ma: Metadata,
    ra: i32,
    rsa: Vec<Row>,
    mb: Metadata,
    rb: i32,
    rsb: Vec<Row>,
    big: Seq<u8>,
)
    requires
        spec_result_wf((CqlResult::Rows { metadata: ma, row_count: ra, rows: rsa })),
        spec_result_wf((CqlResult::Rows { metadata: mb, row_count: rb, rows: rsb })),
        big == spec_result_encode((CqlResult::Rows { metadata: ma, row_count: ra, rows: rsa })),
        big == spec_result_encode((CqlResult::Rows { metadata: mb, row_count: rb, rows: rsb })),
    ensures
        result_eqv(
            (CqlResult::Rows { metadata: ma, row_count: ra, rows: rsa }),
            (CqlResult::Rows { metadata: mb, row_count: rb, rows: rsb }),
        ),
{
    broadcast use crate::wire::lemma_i32_bits;

    lemma_rows_carve(ma, ra, rsa, big);
    lemma_rows_carve(mb, rb, rsb, big);
    // flags and column count read from the same bytes
    crate::wire::lemma_be32_injective(ma.flags.bits as u32, mb.flags.bits as u32);
    let fa = ma.flags.bits;
    let fb = mb.flags.bits;
    assert(((fa as u32) as i32) == fa && ((fb as u32) as i32) == fb) by (bit_vector);
    assert(ma.flags.bits == mb.flags.bits);
    assert(ma.flags =~= mb.flags);
    crate::wire::lemma_be32_injective(ma.column_count as u32, mb.column_count as u32);
    let ca = ma.column_count;
    let cb2 = mb.column_count;
    assert(((ca as u32) as i32) == ca && ((cb2 as u32) as i32) == cb2) by (bit_vector);
    assert(ma.column_count == mb.column_count);
    let g = ma.spec_global();
    assert(mb.spec_global() == g);
    let gea = spec_global_encode(ma);
    let geb = spec_global_encode(mb);
    let sea = spec_column_specs_encode(ma.column_specs@, g);
    let seb = spec_column_specs_encode(mb.column_specs@, g);
    let rea = spec_rows_encode(rsa@);
    let reb = spec_rows_encode(rsb@);
    // the global section
    if g {
        lemma_global_section(
            ma,
            mb,
            big,
            sea + (spec_be32i(ra) + rea),
            seb + (spec_be32i(rb) + reb),
        );
    }
    assert(gea.len() == geb.len());
    // the column specs
    let p2 = 12 + gea.len() as int;
    lemma_colspecs_injective(
        ma.column_specs@,
        mb.column_specs@,
        g,
        big,
        p2,
        spec_be32i(ra) + rea,
        spec_be32i(rb) + reb,
    );
    assert(sea.len() == seb.len());
    // the row count
    crate::wire::lemma_be32_injective(ra as u32, rb as u32);
    assert(((ra as u32) as i32) == ra && ((rb as u32) as i32) == rb) by (bit_vector);
    assert(ra == rb);
    // the rows, cell by cell, typed by the agreed column specs
    let p3 = p2 + sea.len() + 4 as int;
    assert(forall|x: int|
        0 <= x < rsb@.len() ==> {
            let cols = (#[trigger] rsb@[x]).columns@;
            cols.len() == ma.column_specs@.len() && forall|j: int|
                0 <= j < cols.len() ==> (#[trigger] cols[j] matches Some(v) ==> spec_cell_wf(v)
                    && v.spec_column_type() == ma.column_specs@[j].column_type)
        }) by {
        assert(forall|i: int|
            0 <= i < ma.column_specs@.len() ==> (#[trigger] ma.column_specs@[i]).column_type
                == mb.column_specs@[i].column_type);
    }
    lemma_rows_injective(
        rsa@,
        rsb@,
        ma.column_specs@,
        big,
        p3,
        Seq::<u8>::empty(),
        Seq::<u8>::empty(),
    );
}

} // verus!
