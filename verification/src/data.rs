//! Typed column values, rows, and the self-describing on-disk row codec.
//!
//! A stored row is a concatenation of per-column records in declared
//! column order: one presence byte (0 = null, otherwise present), and for
//! present columns a 16-bit big-endian type identifier followed by the
//! payload. Fixed-width types store their raw big-endian bytes;
//! variable-width types store a 32-bit big-endian byte length and then the
//! payload.

use vstd::prelude::*;
use vstd::string::StrSliceExecFns;
use vstd::string::StringExecFns;
use vstd::utf8::encode_utf8;
use vstd::utf8::decode_utf8;
use vstd::utf8::valid_utf8;

use crate::wire::spec_be16;
use crate::wire::spec_be16i;
use crate::wire::spec_be32;
use crate::wire::spec_be32i;
use crate::wire::spec_be64;
use crate::wire::spec_be64i;
use crate::wire::read_int;
use crate::wire::read_long;
use crate::wire::read_raw;
use crate::wire::read_u32;
use crate::wire::read_u64;
use crate::wire::read_unsigned_short;
use crate::wire::spec_u16_of;
use crate::wire::spec_u32_of;
use crate::wire::string_from_utf8;
use crate::error::DbError;
use crate::error::ErrorCode;
use crate::wire::write_bool;
use crate::wire::write_int;
use crate::wire::write_long;
use crate::wire::write_raw;
use crate::wire::write_short;
use crate::wire::write_tinyint;
use crate::wire::write_u32;
use crate::wire::write_u64;
use crate::wire::write_unsigned_short;

verus! {

/// The closed set of CQL scalar column types.
#[derive(Debug, Copy, Clone, PartialEq, Eq, Structural)]
pub enum ColumnType {
    Ascii,
    Bigint,
    Blob,
    Boolean,
    Counter,
    Decimal,
    Double,
    Float,
    Int,
    Timestamp,
    Uuid,
    Varchar,
    Varint,
    Timeuuid,
    Inet,
    Date,
    Time,
    Smallint,
    Tinyint,
}

pub const ASCII_TYPE_ID: u16 = 0x0001;

pub const BIGINT_TYPE_ID: u16 = 0x0002;

pub const BLOB_TYPE_ID: u16 = 0x0003;

pub const BOOLEAN_TYPE_ID: u16 = 0x0004;

pub const COUNTER_TYPE_ID: u16 = 0x0005;

pub const DECIMAL_TYPE_ID: u16 = 0x0006;

pub const DOUBLE_TYPE_ID: u16 = 0x0007;

pub const FLOAT_TYPE_ID: u16 = 0x0008;

pub const INT_TYPE_ID: u16 = 0x0009;

pub const TIMESTAMP_TYPE_ID: u16 = 0x000B;

pub const UUID_TYPE_ID: u16 = 0x000C;

pub const VARCHAR_TYPE_ID: u16 = 0x000D;

pub const VARINT_TYPE_ID: u16 = 0x000E;

pub const TIMEUUID_TYPE_ID: u16 = 0x000F;

pub const INET_TYPE_ID: u16 = 0x0010;

pub const DATE_TYPE_ID: u16 = 0x0011;

pub const TIME_TYPE_ID: u16 = 0x0012;

pub const SMALLINT_TYPE_ID: u16 = 0x0013;

pub const TINYINT_TYPE_ID: u16 = 0x0014;

/// One character of a type name matches one character of a lowercase
/// pattern, ignoring ASCII case.
pub open spec fn char_ieq(x: char, y: char) -> bool {
    x == y || (97 <= y as u32 <= 122 && x as u32 == y as u32 - 32)
}

/// A type name matches a lowercase pattern, ignoring ASCII case.
pub open spec fn chars_ieq(a: Seq<char>, b: Seq<char>) -> bool {
    a.len() == b.len() && forall|i: int| 0 <= i < a.len() ==> char_ieq(#[trigger] a[i], b[i])
}

/// Whether a string matches a lowercase pattern, ignoring ASCII case.
pub fn str_ieq(s: &str, t: &str) -> (r: bool)
    ensures
        r == chars_ieq(s@, t@),
{
    let n = s.unicode_len();
    if n != t.unicode_len() {
        return false;
    }
    let mut i: usize = 0;
    while i < n
        invariant
            n == s@.len(),
            s@.len() == t@.len(),
            i <= n,
            forall|j: int| 0 <= j < i ==> char_ieq(#[trigger] s@[j], t@[j]),
        decreases n - i,
    {
        let x = s.get_char(i);
        let y = t.get_char(i);
        let xu = x as u32;
        let yu = y as u32;
        if !(xu == yu || (yu >= 97 && yu <= 122 && xu == yu - 32)) {
            return false;
        }
        i = i + 1;
    }
    true
}

impl ColumnType {
    /// The column type a CQL type name denotes, matched without regard to
    /// ASCII case; `text` is a synonym for `varchar`.
    pub open spec fn spec_from_cql_type(s: Seq<char>) -> Option<ColumnType> {
        if chars_ieq(s, "ascii"@) {
            Some(ColumnType::Ascii)
        } else if chars_ieq(s, "bigint"@) {
            Some(ColumnType::Bigint)
        } else if chars_ieq(s, "blob"@) {
            Some(ColumnType::Blob)
        } else if chars_ieq(s, "boolean"@) {
            Some(ColumnType::Boolean)
        } else if chars_ieq(s, "counter"@) {
            Some(ColumnType::Counter)
        } else if chars_ieq(s, "decimal"@) {
            Some(ColumnType::Decimal)
        } else if chars_ieq(s, "double"@) {
            Some(ColumnType::Double)
        } else if chars_ieq(s, "float"@) {
            Some(ColumnType::Float)
        } else if chars_ieq(s, "int"@) {
            Some(ColumnType::Int)
        } else if chars_ieq(s, "timestamp"@) {
            Some(ColumnType::Timestamp)
        } else if chars_ieq(s, "uuid"@) {
            Some(ColumnType::Uuid)
        } else if chars_ieq(s, "text"@) || chars_ieq(s, "varchar"@) {
            Some(ColumnType::Varchar)
        } else if chars_ieq(s, "varint"@) {
            Some(ColumnType::Varint)
        } else if chars_ieq(s, "timeuuid"@) {
            Some(ColumnType::Timeuuid)
        } else if chars_ieq(s, "inet"@) {
            Some(ColumnType::Inet)
        } else if chars_ieq(s, "date"@) {
            Some(ColumnType::Date)
        } else if chars_ieq(s, "time"@) {
            Some(ColumnType::Time)
        } else if chars_ieq(s, "smallint"@) {
            Some(ColumnType::Smallint)
        } else if chars_ieq(s, "tinyint"@) {
            Some(ColumnType::Tinyint)
        } else {
            None
        }
    }

    /// Parse a CQL type name, ignoring ASCII case; `text` is a synonym for
    /// `varchar`.
    pub fn from_cql_type(type_str: String) -> (r: Option<ColumnType>)
        ensures
            r == Self::spec_from_cql_type(type_str@),
    {
        let s = type_str.as_str();
        if str_ieq(s, "ascii") {
            Some(ColumnType::Ascii)
        } else if str_ieq(s, "bigint") {
            Some(ColumnType::Bigint)
        } else if str_ieq(s, "blob") {
            Some(ColumnType::Blob)
        } else if str_ieq(s, "boolean") {
            Some(ColumnType::Boolean)
        } else if str_ieq(s, "counter") {
            Some(ColumnType::Counter)
        } else if str_ieq(s, "decimal") {
            Some(ColumnType::Decimal)
        } else if str_ieq(s, "double") {
            Some(ColumnType::Double)
        } else if str_ieq(s, "float") {
            Some(ColumnType::Float)
        } else if str_ieq(s, "int") {
            Some(ColumnType::Int)
        } else if str_ieq(s, "timestamp") {
            Some(ColumnType::Timestamp)
        } else if str_ieq(s, "uuid") {
            Some(ColumnType::Uuid)
        } else if str_ieq(s, "text") || str_ieq(s, "varchar") {
            Some(ColumnType::Varchar)
        } else if str_ieq(s, "varint") {
            Some(ColumnType::Varint)
        } else if str_ieq(s, "timeuuid") {
            Some(ColumnType::Timeuuid)
        } else if str_ieq(s, "inet") {
            Some(ColumnType::Inet)
        } else if str_ieq(s, "date") {
            Some(ColumnType::Date)
        } else if str_ieq(s, "time") {
            Some(ColumnType::Time)
        } else if str_ieq(s, "smallint") {
            Some(ColumnType::Smallint)
        } else if str_ieq(s, "tinyint") {
            Some(ColumnType::Tinyint)
        } else {
            None
        }
    }

    /// The stable 16-bit on-disk identifier of each column type;
    /// 0x000A is reserved and never assigned.
    pub open spec fn spec_type_id(self) -> u16 {
        match self {
            ColumnType::Ascii => ASCII_TYPE_ID,
            ColumnType::Bigint => BIGINT_TYPE_ID,
            ColumnType::Blob => BLOB_TYPE_ID,
            ColumnType::Boolean => BOOLEAN_TYPE_ID,
            ColumnType::Counter => COUNTER_TYPE_ID,
            ColumnType::Decimal => DECIMAL_TYPE_ID,
            ColumnType::Double => DOUBLE_TYPE_ID,
            ColumnType::Float => FLOAT_TYPE_ID,
            ColumnType::Int => INT_TYPE_ID,
            ColumnType::Timestamp => TIMESTAMP_TYPE_ID,
            ColumnType::Uuid => UUID_TYPE_ID,
            ColumnType::Varchar => VARCHAR_TYPE_ID,
            ColumnType::Varint => VARINT_TYPE_ID,
            ColumnType::Timeuuid => TIMEUUID_TYPE_ID,
            ColumnType::Inet => INET_TYPE_ID,
            ColumnType::Date => DATE_TYPE_ID,
            ColumnType::Time => TIME_TYPE_ID,
            ColumnType::Smallint => SMALLINT_TYPE_ID,
            ColumnType::Tinyint => TINYINT_TYPE_ID,
        }
    }

    /// The stable on-disk type identifier.
    pub fn type_identifier(&self) -> (r: u16)
        ensures
            r == self.spec_type_id(),
    {
        match self {
            ColumnType::Ascii => ASCII_TYPE_ID,
            ColumnType::Bigint => BIGINT_TYPE_ID,
            ColumnType::Blob => BLOB_TYPE_ID,
            ColumnType::Boolean => BOOLEAN_TYPE_ID,
            ColumnType::Counter => COUNTER_TYPE_ID,
            ColumnType::Decimal => DECIMAL_TYPE_ID,
            ColumnType::Double => DOUBLE_TYPE_ID,
            ColumnType::Float => FLOAT_TYPE_ID,
            ColumnType::Int => INT_TYPE_ID,
            ColumnType::Timestamp => TIMESTAMP_TYPE_ID,
            ColumnType::Uuid => UUID_TYPE_ID,
            ColumnType::Varchar => VARCHAR_TYPE_ID,
            ColumnType::Varint => VARINT_TYPE_ID,
            ColumnType::Timeuuid => TIMEUUID_TYPE_ID,
            ColumnType::Inet => INET_TYPE_ID,
            ColumnType::Date => DATE_TYPE_ID,
            ColumnType::Time => TIME_TYPE_ID,
            ColumnType::Smallint => SMALLINT_TYPE_ID,
            ColumnType::Tinyint => TINYINT_TYPE_ID,
        }
    }
}

/// Two column types with the same on-disk identifier are the same type.
pub proof fn lemma_type_id_injective(t1: ColumnType, t2: ColumnType)
    requires
        t1.spec_type_id() == t2.spec_type_id(),
    ensures
        t1 == t2,
{
}

/// The column type a stable on-disk identifier denotes, if any.
pub open spec fn spec_column_type_from_id(id: u16) -> Option<ColumnType> {
    if id == ASCII_TYPE_ID {
        Some(ColumnType::Ascii)
    } else if id == BIGINT_TYPE_ID {
        Some(ColumnType::Bigint)
    } else if id == BLOB_TYPE_ID {
        Some(ColumnType::Blob)
    } else if id == BOOLEAN_TYPE_ID {
        Some(ColumnType::Boolean)
    } else if id == COUNTER_TYPE_ID {
        Some(ColumnType::Counter)
    } else if id == DECIMAL_TYPE_ID {
        Some(ColumnType::Decimal)
    } else if id == DOUBLE_TYPE_ID {
        Some(ColumnType::Double)
    } else if id == FLOAT_TYPE_ID {
        Some(ColumnType::Float)
    } else if id == INT_TYPE_ID {
        Some(ColumnType::Int)
    } else if id == TIMESTAMP_TYPE_ID {
        Some(ColumnType::Timestamp)
    } else if id == UUID_TYPE_ID {
        Some(ColumnType::Uuid)
    } else if id == VARCHAR_TYPE_ID {
        Some(ColumnType::Varchar)
    } else if id == VARINT_TYPE_ID {
        Some(ColumnType::Varint)
    } else if id == TIMEUUID_TYPE_ID {
        Some(ColumnType::Timeuuid)
    } else if id == INET_TYPE_ID {
        Some(ColumnType::Inet)
    } else if id == DATE_TYPE_ID {
        Some(ColumnType::Date)
    } else if id == TIME_TYPE_ID {
        Some(ColumnType::Time)
    } else if id == SMALLINT_TYPE_ID {
        Some(ColumnType::Smallint)
    } else if id == TINYINT_TYPE_ID {
        Some(ColumnType::Tinyint)
    } else {
        None
    }
}

/// Decode a stable on-disk type identifier; it is the inverse of
/// `type_identifier`.
pub fn column_type_from_id(id: u16) -> (r: Option<ColumnType>)
    ensures
        r == spec_column_type_from_id(id),
        (r matches Some(t) ==> t.spec_type_id() == id),
{
    if id == ASCII_TYPE_ID {
        Some(ColumnType::Ascii)
    } else if id == BIGINT_TYPE_ID {
        Some(ColumnType::Bigint)
    } else if id == BLOB_TYPE_ID {
        Some(ColumnType::Blob)
    } else if id == BOOLEAN_TYPE_ID {
        Some(ColumnType::Boolean)
    } else if id == COUNTER_TYPE_ID {
        Some(ColumnType::Counter)
    } else if id == DECIMAL_TYPE_ID {
        Some(ColumnType::Decimal)
    } else if id == DOUBLE_TYPE_ID {
        Some(ColumnType::Double)
    } else if id == FLOAT_TYPE_ID {
        Some(ColumnType::Float)
    } else if id == INT_TYPE_ID {
        Some(ColumnType::Int)
    } else if id == TIMESTAMP_TYPE_ID {
        Some(ColumnType::Timestamp)
    } else if id == UUID_TYPE_ID {
        Some(ColumnType::Uuid)
    } else if id == VARCHAR_TYPE_ID {
        Some(ColumnType::Varchar)
    } else if id == VARINT_TYPE_ID {
        Some(ColumnType::Varint)
    } else if id == TIMEUUID_TYPE_ID {
        Some(ColumnType::Timeuuid)
    } else if id == INET_TYPE_ID {
        Some(ColumnType::Inet)
    } else if id == DATE_TYPE_ID {
        Some(ColumnType::Date)
    } else if id == TIME_TYPE_ID {
        Some(ColumnType::Time)
    } else if id == SMALLINT_TYPE_ID {
        Some(ColumnType::Smallint)
    } else if id == TINYINT_TYPE_ID {
        Some(ColumnType::Tinyint)
    } else {
        None
    }
}

/// A typed column value. `Float` and `Double` hold IEEE-754 bit patterns;
/// `Uuid` and `Timeuuid` hold the 16 raw bytes; `Date` counts days and
/// `Time` nanoseconds.
#[derive(Debug, Clone)]
pub enum Value {
    Ascii(Vec<u8>),
    Bigint(i64),
    Blob(Vec<u8>),
    Boolean(bool),
    Counter(i64),
    Decimal(Vec<u8>),
    Double(u64),
    Float(u32),
    Int(i32),
    Timestamp(i64),
    Uuid(Vec<u8>),
    Varchar(String),
    Varint(Vec<u8>),
    Timeuuid(Vec<u8>),
    Inet(Vec<u8>),
    Date(i32),
    Time(i64),
    Smallint(i16),
    Tinyint(i8),
}

/// Two values are equal when they carry the same type and the same
/// payload; values of different types are unequal.
pub open spec fn val_eq(a: Value, b: Value) -> bool {
    match (a, b) {
        (Value::Ascii(x), Value::Ascii(y)) => x@ == y@,
        (Value::Bigint(x), Value::Bigint(y)) => x == y,
        (Value::Blob(x), Value::Blob(y)) => x@ == y@,
        (Value::Boolean(x), Value::Boolean(y)) => x == y,
        (Value::Counter(x), Value::Counter(y)) => x == y,
        (Value::Decimal(x), Value::Decimal(y)) => x@ == y@,
        (Value::Double(x), Value::Double(y)) => x == y,
        (Value::Float(x), Value::Float(y)) => x == y,
        (Value::Int(x), Value::Int(y)) => x == y,
        (Value::Timestamp(x), Value::Timestamp(y)) => x == y,
        (Value::Uuid(x), Value::Uuid(y)) => x@ == y@,
        (Value::Varchar(x), Value::Varchar(y)) => x@ == y@,
        (Value::Varint(x), Value::Varint(y)) => x@ == y@,
        (Value::Timeuuid(x), Value::Timeuuid(y)) => x@ == y@,
        (Value::Inet(x), Value::Inet(y)) => x@ == y@,
        (Value::Date(x), Value::Date(y)) => x == y,
        (Value::Time(x), Value::Time(y)) => x == y,
        (Value::Smallint(x), Value::Smallint(y)) => x == y,
        (Value::Tinyint(x), Value::Tinyint(y)) => x == y,
        _ => false,
    }
}

/// Equality of nullable values: two nulls are equal, a null never equals
/// a value.
pub open spec fn opt_val_eq(a: Option<Value>, b: Option<Value>) -> bool {
    match (a, b) {
        (Some(x), Some(y)) => val_eq(x, y),
        (None, None) => true,
        _ => false,
    }
}

/// Compare two byte vectors by contents.
pub fn bytes_eq(a: &Vec<u8>, b: &Vec<u8>) -> (r: bool)
    ensures
        r == (a@ == b@),
{
    if a.len() != b.len() {
        assert(a@ != b@);
        return false;
    }
    let mut i: usize = 0;
    while i < a.len()
        invariant
            a@.len() == b@.len(),
            i <= a@.len(),
            forall|j: int| 0 <= j < i ==> a@[j] == b@[j],
        decreases a@.len() - i,
    {
        if a[i] != b[i] {
            assert(a@ != b@);
            return false;
        }
        i = i + 1;
    }
    assert(a@ =~= b@);
    true
}

impl PartialEq for Value {
    /// Equality by tag and payload; across tags values compare unequal.
    fn eq(&self, other: &Value) -> (r: bool) {
        match (self, other) {
            (Value::Ascii(x), Value::Ascii(y)) => bytes_eq(x, y),
            (Value::Bigint(x), Value::Bigint(y)) => x == y,
            (Value::Blob(x), Value::Blob(y)) => bytes_eq(x, y),
            (Value::Boolean(x), Value::Boolean(y)) => x == y,
            (Value::Counter(x), Value::Counter(y)) => x == y,
            (Value::Decimal(x), Value::Decimal(y)) => bytes_eq(x, y),
            (Value::Double(x), Value::Double(y)) => x == y,
            (Value::Float(x), Value::Float(y)) => x == y,
            (Value::Int(x), Value::Int(y)) => x == y,
            (Value::Timestamp(x), Value::Timestamp(y)) => x == y,
            (Value::Uuid(x), Value::Uuid(y)) => bytes_eq(x, y),
            (Value::Varchar(x), Value::Varchar(y)) => x.eq(y),
            (Value::Varint(x), Value::Varint(y)) => bytes_eq(x, y),
            (Value::Timeuuid(x), Value::Timeuuid(y)) => bytes_eq(x, y),
            (Value::Inet(x), Value::Inet(y)) => bytes_eq(x, y),
            (Value::Date(x), Value::Date(y)) => x == y,
            (Value::Time(x), Value::Time(y)) => x == y,
            (Value::Smallint(x), Value::Smallint(y)) => x == y,
            (Value::Tinyint(x), Value::Tinyint(y)) => x == y,
            _ => false,
        }
    }
}

impl vstd::std_specs::cmp::PartialEqSpecImpl for Value {
    open spec fn obeys_eq_spec() -> bool {
        true
    }

    open spec fn eq_spec(&self, other: &Value) -> bool {
        val_eq(*self, *other)
    }
}

impl Value {
    /// The column type a value belongs to.
    pub open spec fn spec_column_type(self) -> ColumnType {
        match self {
            Value::Ascii(_) => ColumnType::Ascii,
            Value::Bigint(_) => ColumnType::Bigint,
            Value::Blob(_) => ColumnType::Blob,
            Value::Boolean(_) => ColumnType::Boolean,
            Value::Counter(_) => ColumnType::Counter,
            Value::Decimal(_) => ColumnType::Decimal,
            Value::Double(_) => ColumnType::Double,
            Value::Float(_) => ColumnType::Float,
            Value::Int(_) => ColumnType::Int,
            Value::Timestamp(_) => ColumnType::Timestamp,
            Value::Uuid(_) => ColumnType::Uuid,
            Value::Varchar(_) => ColumnType::Varchar,
            Value::Varint(_) => ColumnType::Varint,
            Value::Timeuuid(_) => ColumnType::Timeuuid,
            Value::Inet(_) => ColumnType::Inet,
            Value::Date(_) => ColumnType::Date,
            Value::Time(_) => ColumnType::Time,
            Value::Smallint(_) => ColumnType::Smallint,
            Value::Tinyint(_) => ColumnType::Tinyint,
        }
    }

    /// The column type a value belongs to.
    pub fn column_type(&self) -> (r: ColumnType)
        ensures
            r == self.spec_column_type(),
    {
        match self {
            Value::Ascii(_) => ColumnType::Ascii,
            Value::Bigint(_) => ColumnType::Bigint,
            Value::Blob(_) => ColumnType::Blob,
            Value::Boolean(_) => ColumnType::Boolean,
            Value::Counter(_) => ColumnType::Counter,
            Value::Decimal(_) => ColumnType::Decimal,
            Value::Double(_) => ColumnType::Double,
            Value::Float(_) => ColumnType::Float,
            Value::Int(_) => ColumnType::Int,
            Value::Timestamp(_) => ColumnType::Timestamp,
            Value::Uuid(_) => ColumnType::Uuid,
            Value::Varchar(_) => ColumnType::Varchar,
            Value::Varint(_) => ColumnType::Varint,
            Value::Timeuuid(_) => ColumnType::Timeuuid,
            Value::Inet(_) => ColumnType::Inet,
            Value::Date(_) => ColumnType::Date,
            Value::Time(_) => ColumnType::Time,
            Value::Smallint(_) => ColumnType::Smallint,
            Value::Tinyint(_) => ColumnType::Tinyint,
        }
    }

    /// A value is well formed when its payload fits the codec: UUIDs hold
    /// exactly 16 bytes, and variable-width payloads fit the 32-bit length
    /// field.
    pub open spec fn wf(self) -> bool {
        match self {
            Value::Ascii(b) => b@.len() <= u32::MAX,
            Value::Blob(b) => b@.len() <= u32::MAX,
            Value::Decimal(b) => b@.len() <= u32::MAX,
            Value::Varint(b) => b@.len() <= u32::MAX,
            Value::Inet(b) => b@.len() <= u32::MAX,
            Value::Varchar(s) => encode_utf8(s@).len() <= u32::MAX,
            Value::Uuid(b) => b@.len() == 16,
            Value::Timeuuid(b) => b@.len() == 16,
            _ => true,
        }
    }
}

/// A literal as written in a statement: a number, a quoted string, a
/// boolean, or NULL.
#[derive(Debug, Clone)]
pub enum Literal {
    Number(String),
    Text(String),
    Boolean(bool),
    Null,
}

/// Whether every character is an ASCII decimal digit.
pub open spec fn spec_is_digits(s: Seq<char>) -> bool {
    s.len() > 0 && forall|i: int| 0 <= i < s.len() ==> 48 <= (#[trigger] s[i]) as u32 <= 57
}

/// The non-negative integer a digit string denotes.
pub open spec fn spec_dec_val(s: Seq<char>) -> int
    decreases s.len(),
{
    if s.len() == 0 {
        0
    } else {
        spec_dec_val(s.drop_last()) * 10 + (s.last() as u32 - 48)
    }
}

/// A digit string denotes a non-negative value.
proof fn lemma_dec_val_nonneg(s: Seq<char>)
    requires
        forall|j: int| 0 <= j < s.len() ==> 48 <= (#[trigger] s[j]) as u32 <= 57,
    ensures
        spec_dec_val(s) >= 0,
    decreases s.len(),
{
    if s.len() == 0 {
    } else {
        assert(forall|j: int|
            0 <= j < s.drop_last().len() ==> 48 <= (#[trigger] s.drop_last()[j]) as u32 <= 57);
        lemma_dec_val_nonneg(s.drop_last());
    }
}

/// A longer digit string never denotes a smaller value.
proof fn lemma_dec_val_monotone(s: Seq<char>, i: int)
    requires
        0 <= i <= s.len(),
        forall|j: int| 0 <= j < s.len() ==> 48 <= (#[trigger] s[j]) as u32 <= 57,
    ensures
        spec_dec_val(s) >= spec_dec_val(s.take(i)),
    decreases s.len() - i,
{
    if i == s.len() {
        assert(s.take(i) =~= s);
    } else {
        assert(s.take(i + 1).drop_last() =~= s.take(i as int));
        assert(s.take(i + 1).last() == s[i]);
        assert(forall|j: int|
            0 <= j < s.take(i).len() ==> 48 <= (#[trigger] s.take(i)[j]) as u32 <= 57);
        lemma_dec_val_nonneg(s.take(i));
        assert(spec_dec_val(s.take(i + 1)) == spec_dec_val(s.take(i)) * 10 + (s[i] as u32 - 48));
        lemma_dec_val_monotone(s, i + 1);
    }
}

/// Parse a non-negative decimal integer. Succeeds exactly on non-empty
/// all-digit strings whose value fits a signed 64-bit integer.
pub fn parse_decimal(s: &str) -> (r: Option<i64>)
    ensures
        r is Some <==> spec_is_digits(s@) && spec_dec_val(s@) <= i64::MAX,
        (r matches Some(v) ==> v == spec_dec_val(s@) && v >= 0),
{
    let n = s.unicode_len();
    if n == 0 {
        return None;
    }
    let mut acc: i64 = 0;
    let mut i: usize = 0;
    while i < n
        invariant
            n == s@.len(),
            i <= n,
            0 <= acc,
            acc == spec_dec_val(s@.take(i as int)),
            forall|j: int| 0 <= j < i ==> 48 <= (#[trigger] s@[j]) as u32 <= 57,
        decreases n - i,
    {
        let c = s.get_char(i);
        let u = c as u32;
        if !(48 <= u && u <= 57) {
            return None;
        }
        let d: i64 = (u - 48) as i64;
        if acc > (i64::MAX - d) / 10 {
            proof {
                assert(acc * 10 + d > i64::MAX) by (nonlinear_arith)
                    requires
                        acc > (i64::MAX - d) / 10,
                        0 <= d <= 9,
                        acc >= 0,
                ;
                assert(s@.take(i + 1).drop_last() =~= s@.take(i as int));
                assert(s@.take(i + 1).last() == s@[i as int]);
                assert(spec_dec_val(s@.take(i + 1)) == acc * 10 + d);
                if spec_is_digits(s@) {
                    lemma_dec_val_monotone(s@, i + 1);
                }
            }
            return None;
        }
        proof {
            assert(acc * 10 + d <= i64::MAX) by (nonlinear_arith)
                requires
                    acc <= (i64::MAX - d) / 10,
                    0 <= d <= 9,
                    acc >= 0,
            ;
            assert(s@.take(i + 1).drop_last() =~= s@.take(i as int));
            assert(s@.take(i + 1).last() == s@[i as int]);
        }
        acc = acc * 10 + d;
        i = i + 1;
    }
    assert(s@.take(n as int) =~= s@);
    Some(acc)
}

/// The text of a literal as recorded in storage keys: a number's digits,
/// a string's contents, `true` or `false`, or `NULL`.
pub open spec fn spec_literal_text(lit: Literal) -> Seq<char> {
    match lit {
        Literal::Number(s) => s@,
        Literal::Text(s) => s@,
        Literal::Boolean(b) => if b {
            "true"@
        } else {
            "false"@
        },
        Literal::Null => "NULL"@,
    }
}

/// The storage-key text of a literal.
pub fn literal_text(lit: &Literal) -> (r: String)
    ensures
        r@ == spec_literal_text(*lit),
{
    match lit {
        Literal::Number(s) => s.clone(),
        Literal::Text(s) => s.clone(),
        Literal::Boolean(b) => {
            if *b {
                String::from_str("true")
            } else {
                String::from_str("false")
            }
        },
        Literal::Null => String::from_str("NULL"),
    }
}

/// The largest value a numeric literal may take for an integer column
/// type; non-integer types take no numeric literal.
pub open spec fn spec_numeric_max(ct: ColumnType) -> Option<int> {
    match ct {
        ColumnType::Bigint => Some(i64::MAX as int),
        ColumnType::Int => Some(i32::MAX as int),
        ColumnType::Smallint => Some(i16::MAX as int),
        ColumnType::Tinyint => Some(i8::MAX as int),
        _ => None,
    }
}

impl Value {
    /// Convert a statement literal into a typed value for the given
    /// column type, or `None` for NULL. A numeric literal succeeds
    /// exactly on an integer column whose width its digits fit, and
    /// carries the denoted number; a string literal succeeds exactly on a
    /// varchar column and carries its text; a boolean literal exactly on
    /// a boolean column, carrying its truth value.
    pub fn from_sql_value(column_type: ColumnType, value: &Literal) -> (r: Result<
        Option<Value>,
        DbError,
    >)
        ensures
            (r matches Ok(ov) ==> (ov matches Some(v) ==> v.wf() && v.spec_column_type()
                == column_type)),
            (r matches Ok(ov) ==> (ov is None <==> value is Null)),
            (r matches Err(e) ==> e.code == ErrorCode::Invalid),
            (value is Null ==> r is Ok),
            (value matches Literal::Number(s) ==> (r is Ok <==> (spec_numeric_max(column_type)
                matches Some(m) && spec_is_digits(s@) && spec_dec_val(s@) <= m))),
            (value matches Literal::Number(s) ==> (r matches Ok(Some(v)) ==> match v {
                Value::Bigint(x) => x == spec_dec_val(s@),
                Value::Int(x) => x == spec_dec_val(s@),
                Value::Smallint(x) => x == spec_dec_val(s@),
                Value::Tinyint(x) => x == spec_dec_val(s@),
                _ => false,
            })),
            (value matches Literal::Text(s) ==> (r is Ok <==> column_type == ColumnType::Varchar
                && encode_utf8(s@).len() <= u32::MAX)),
            (value matches Literal::Text(s) ==> (r matches Ok(Some(v)) ==> (v
                matches Value::Varchar(t) && t@ == s@))),
            (value matches Literal::Boolean(b) ==> (r is Ok <==> column_type
                == ColumnType::Boolean)),
            (value matches Literal::Boolean(b) ==> (r matches Ok(Some(v)) ==> v == (
            Value::Boolean(*b)))),
    {
        match value {
            Literal::Number(num) => {
                let v = match parse_decimal(num.as_str()) {
                    None => {
                        return Err(
                            DbError::new(
                                ErrorCode::Invalid,
                                String::from_str("invalid numeric literal"),
                            ),
                        );
                    },
                    Some(v) => v,
                };
                match column_type {
                    ColumnType::Bigint => Ok(Some(Value::Bigint(v))),
                    ColumnType::Int => {
                        if v > i32::MAX as i64 {
                            Err(
                                DbError::new(
                                    ErrorCode::Invalid,
                                    String::from_str("numeric literal out of range"),
                                ),
                            )
                        } else {
                            Ok(Some(Value::Int(v as i32)))
                        }
                    },
                    ColumnType::Smallint => {
                        if v > i16::MAX as i64 {
                            Err(
                                DbError::new(
                                    ErrorCode::Invalid,
                                    String::from_str("numeric literal out of range"),
                                ),
                            )
                        } else {
                            Ok(Some(Value::Smallint(v as i16)))
                        }
                    },
                    ColumnType::Tinyint => {
                        if v > i8::MAX as i64 {
                            Err(
                                DbError::new(
                                    ErrorCode::Invalid,
                                    String::from_str("numeric literal out of range"),
                                ),
                            )
                        } else {
                            Ok(Some(Value::Tinyint(v as i8)))
                        }
                    },
                    _ => Err(
                        DbError::new(
                            ErrorCode::Invalid,
                            String::from_str("numeric literal for non-numeric column"),
                        ),
                    ),
                }
            },
            Literal::Text(s) => {
                match column_type {
                    ColumnType::Varchar => {
                        proof {
                            broadcast use vstd::slice::axiom_spec_len;

                        }
                        let byte_len = s.as_str().as_bytes().len();
                        if byte_len > u32::MAX as usize {
                            Err(
                                DbError::new(
                                    ErrorCode::Invalid,
                                    String::from_str("string literal too long"),
                                ),
                            )
                        } else {
                            assert(encode_utf8(s@).len() == byte_len);
                            let copy = s.clone();
                            assert(copy@ == s@);
                            Ok(Some(Value::Varchar(copy)))
                        }
                    },
                    _ => Err(
                        DbError::new(
                            ErrorCode::Invalid,
                            String::from_str("string literal for non-varchar column"),
                        ),
                    ),
                }
            },
            Literal::Boolean(b) => {
                match column_type {
                    ColumnType::Boolean => Ok(Some(Value::Boolean(*b))),
                    _ => Err(
                        DbError::new(
                            ErrorCode::Invalid,
                            String::from_str("boolean literal for non-boolean column"),
                        ),
                    ),
                }
            },
            Literal::Null => Ok(None),
        }
    }
}

/// An ordered sequence of nullable column values; length and positions
/// follow the owning table's declared column order.
#[derive(Debug, Clone)]
pub struct Row {
    pub columns: Vec<Option<Value>>,
}

/// Pairwise equality of two rows' nullable values.
pub open spec fn row_eq(a: Row, b: Row) -> bool {
    &&& a.columns@.len() == b.columns@.len()
    &&& forall|i: int|
        0 <= i < a.columns@.len() ==> opt_val_eq(#[trigger] a.columns@[i], b.columns@[i])
}

impl PartialEq for Row {
    /// Rows are equal when their columns are pairwise equal.
    fn eq(&self, other: &Row) -> (r: bool) {
        if self.columns.len() != other.columns.len() {
            return false;
        }
        let mut i: usize = 0;
        while i < self.columns.len()
            invariant
                self.columns@.len() == other.columns@.len(),
                i <= self.columns@.len(),
                forall|j: int|
                    0 <= j < i ==> opt_val_eq(#[trigger] self.columns@[j], other.columns@[j]),
            decreases self.columns@.len() - i,
        {
            let equal = match (&self.columns[i], &other.columns[i]) {
                (Some(x), Some(y)) => x.eq(y),
                (None, None) => true,
                _ => false,
            };
            if !equal {
                return false;
            }
            i = i + 1;
        }
        true
    }
}

impl vstd::std_specs::cmp::PartialEqSpecImpl for Row {
    open spec fn obeys_eq_spec() -> bool {
        true
    }

    open spec fn eq_spec(&self, other: &Row) -> bool {
        row_eq(*self, *other)
    }
}

impl Row {
    /// All column values are well formed.
    pub open spec fn wf(self) -> bool {
        forall|i: int|
            0 <= i < self.columns@.len() ==> (#[trigger] self.columns@[i] matches Some(v) ==> v.wf())
    }

    /// An empty row.
    pub fn new() -> (r: Row)
        ensures
            r.columns@ == Seq::<Option<Value>>::empty(),
    {
        Row { columns: Vec::new() }
    }

    /// A row whose columns are the given values, all present.
    pub fn from_values(values: Vec<Value>) -> (r: Row)
        ensures
            r.columns@.len() == values@.len(),
            forall|i: int| 0 <= i < values@.len() ==> r.columns@[i] == Some(values@[i]),
    {
        let ghost orig = values@;
        let mut columns: Vec<Option<Value>> = Vec::new();
        let mut rest = values;
        while rest.len() > 0
            invariant
                columns@.len() + rest@.len() == orig.len(),
                forall|j: int| 0 <= j < columns@.len() ==> columns@[j] == Some(orig[j]),
                forall|j: int|
                    0 <= j < rest@.len() ==> rest@[j] == orig[columns@.len() + j],
            decreases rest@.len(),
        {
            let v = rest.remove(0);
            columns.push(Some(v));
        }
        Row { columns }
    }
}

/// On-disk payload of a value: fixed-width types store raw big-endian
/// bytes, variable-width types a 32-bit length then the bytes.
pub open spec fn spec_value_payload(v: Value) -> Seq<u8> {
    match v {
        Value::Ascii(b) => spec_be32(b@.len() as u32) + b@,
        Value::Bigint(i) => spec_be64i(i),
        Value::Blob(b) => spec_be32(b@.len() as u32) + b@,
        Value::Boolean(t) => seq![if t { 1u8 } else { 0u8 }],
        Value::Counter(i) => spec_be64i(i),
        Value::Decimal(b) => spec_be32(b@.len() as u32) + b@,
        Value::Double(bits) => spec_be64(bits),
        Value::Float(bits) => spec_be32(bits),
        Value::Int(i) => spec_be32i(i),
        Value::Timestamp(i) => spec_be64i(i),
        Value::Uuid(b) => b@,
        Value::Varchar(s) => spec_be32(encode_utf8(s@).len() as u32) + encode_utf8(s@),
        Value::Varint(b) => spec_be32(b@.len() as u32) + b@,
        Value::Timeuuid(b) => b@,
        Value::Inet(b) => spec_be32(b@.len() as u32) + b@,
        Value::Date(i) => spec_be32i(i),
        Value::Time(i) => spec_be64i(i),
        Value::Smallint(i) => spec_be16i(i),
        Value::Tinyint(i) => seq![i as u8],
    }
}

/// On-disk form of a present value: 16-bit type identifier, then payload.
pub open spec fn spec_value_encode(v: Value) -> Seq<u8> {
    spec_be16(v.spec_column_type().spec_type_id()) + spec_value_payload(v)
}

/// On-disk form of one column record: a presence byte, then for present
/// columns the value.
pub open spec fn spec_column_encode(c: Option<Value>) -> Seq<u8> {
    match c {
        None => seq![0u8],
        Some(v) => seq![1u8] + spec_value_encode(v),
    }
}

/// On-disk form of a row: its column records, concatenated in order.
pub open spec fn spec_row_encode(cols: Seq<Option<Value>>) -> Seq<u8>
    decreases cols.len(),
{
    if cols.len() == 0 {
        Seq::<u8>::empty()
    } else {
        spec_column_encode(cols[0]) + spec_row_encode(cols.drop_first())
    }
}

/// Appending a column appends its record.
pub proof fn lemma_row_encode_push(cols: Seq<Option<Value>>, c: Option<Value>)
    ensures
        spec_row_encode(cols.push(c)) == spec_row_encode(cols) + spec_column_encode(c),
    decreases cols.len(),
{
    if cols.len() == 0 {
        assert(cols.push(c).drop_first() =~= cols);
        assert(spec_row_encode(cols.push(c)) =~= spec_row_encode(cols) + spec_column_encode(c));
    } else {
        assert(cols.push(c).drop_first() =~= cols.drop_first().push(c));
        lemma_row_encode_push(cols.drop_first(), c);
        assert(spec_row_encode(cols.push(c)) =~= spec_row_encode(cols) + spec_column_encode(c));
    }
}

impl Value {
    /// Serialize a value to its on-disk form: type identifier and payload.
    pub fn to_bytes(&self) -> (r: Vec<u8>)
        requires
            self.wf(),
        ensures
            r@ == spec_value_encode(*self),
    {
        let mut buf: Vec<u8> = Vec::new();
        write_unsigned_short(&mut buf, self.column_type().type_identifier());
        match self {
            Value::Ascii(b) => {
                write_u32(&mut buf, b.len() as u32);
                write_raw(&mut buf, b.as_slice());
            },
            Value::Bigint(i) => write_long(&mut buf, *i),
            Value::Blob(b) => {
                write_u32(&mut buf, b.len() as u32);
                write_raw(&mut buf, b.as_slice());
            },
            Value::Boolean(t) => write_bool(&mut buf, *t),
            Value::Counter(i) => write_long(&mut buf, *i),
            Value::Decimal(b) => {
                write_u32(&mut buf, b.len() as u32);
                write_raw(&mut buf, b.as_slice());
            },
            Value::Double(bits) => write_u64(&mut buf, *bits),
            Value::Float(bits) => write_u32(&mut buf, *bits),
            Value::Int(i) => write_int(&mut buf, *i),
            Value::Timestamp(i) => write_long(&mut buf, *i),
            Value::Uuid(b) => write_raw(&mut buf, b.as_slice()),
            Value::Varchar(s) => {
                write_u32(&mut buf, s.as_str().len() as u32);
                write_raw(&mut buf, s.as_str().as_bytes());
            },
            Value::Varint(b) => {
                write_u32(&mut buf, b.len() as u32);
                write_raw(&mut buf, b.as_slice());
            },
            Value::Timeuuid(b) => write_raw(&mut buf, b.as_slice()),
            Value::Inet(b) => {
                write_u32(&mut buf, b.len() as u32);
                write_raw(&mut buf, b.as_slice());
            },
            Value::Date(i) => write_int(&mut buf, *i),
            Value::Time(i) => write_long(&mut buf, *i),
            Value::Smallint(i) => write_short(&mut buf, *i),
            Value::Tinyint(i) => write_tinyint(&mut buf, *i),
        }
        assert(buf@ =~= spec_value_encode(*self));
        buf
    }
}

impl Row {
    /// Serialize a row to its on-disk form: its column records in order.
    pub fn to_bytes(&self) -> (r: Vec<u8>)
        requires
            self.wf(),
        ensures
            r@ == spec_row_encode(self.columns@),
    {
        let mut buf: Vec<u8> = Vec::new();
        let mut i: usize = 0;
        while i < self.columns.len()
            invariant
                self.wf(),
                i <= self.columns@.len(),
                buf@ == spec_row_encode(self.columns@.take(i as int)),
            decreases self.columns@.len() - i,
        {
            let ghost before = buf@;
            match &self.columns[i] {
                None => {
                    buf.push(0u8);
                    assert(buf@ =~= before + spec_column_encode(None));
                },
                Some(v) => {
                    assert(self.columns@[i as int] matches Some(w) && w.wf());
                    buf.push(1u8);
                    let vb = v.to_bytes();
                    write_raw(&mut buf, vb.as_slice());
                    assert(buf@ =~= before + spec_column_encode(Some(*v)));
                },
            }
            proof {
                lemma_row_encode_push(
                    self.columns@.take(i as int),
                    self.columns@[i as int],
                );
                assert(self.columns@.take(i + 1) =~= self.columns@.take(i as int).push(
                    self.columns@[i as int],
                ));
            }
            i = i + 1;
        }
        assert(self.columns@.take(self.columns@.len() as int) =~= self.columns@);
        buf
    }
}

/// The payload width of a fixed-width type identifier, if it is one.
pub open spec fn spec_fixed_width(id: u16) -> Option<int> {
    if id == BIGINT_TYPE_ID || id == COUNTER_TYPE_ID || id == DOUBLE_TYPE_ID || id
        == TIMESTAMP_TYPE_ID || id == TIME_TYPE_ID {
        Some(8)
    } else if id == INT_TYPE_ID || id == FLOAT_TYPE_ID || id == DATE_TYPE_ID {
        Some(4)
    } else if id == BOOLEAN_TYPE_ID || id == TINYINT_TYPE_ID {
        Some(1)
    } else if id == SMALLINT_TYPE_ID {
        Some(2)
    } else if id == UUID_TYPE_ID || id == TIMEUUID_TYPE_ID {
        Some(16)
    } else {
        None
    }
}

/// Whether a type identifier denotes a variable-width type.
pub open spec fn spec_is_var_id(id: u16) -> bool {
    id == ASCII_TYPE_ID || id == BLOB_TYPE_ID || id == DECIMAL_TYPE_ID || id == VARCHAR_TYPE_ID
        || id == VARINT_TYPE_ID || id == INET_TYPE_ID
}

/// The byte length of the first column record of `b`, when its header is
/// present and its declared payload fits.
pub open spec fn spec_column_len(b: Seq<u8>) -> Option<int> {
    if b.len() < 1 {
        None
    } else if b[0] == 0 {
        Some(1)
    } else if b[0] == 1 && b.len() >= 3 {
        let id = spec_u16_of(b[1], b[2]);
        match spec_fixed_width(id) {
            Some(w) => if b.len() >= 3 + w {
                Some(3 + w)
            } else {
                None
            },
            None => if spec_is_var_id(id) {
                if b.len() >= 7 {
                    let n = spec_u32_of(b[3], b[4], b[5], b[6]) as int;
                    if b.len() >= 7 + n {
                        Some(7 + n)
                    } else {
                        None
                    }
                } else {
                    None
                }
            } else {
                None
            },
        }
    } else {
        None
    }
}

/// Whether the first column record of `b` decodes: its header and payload
/// are present, a varchar payload is valid UTF-8, and a boolean payload
/// byte is 0 or 1.
pub open spec fn spec_column_decodable(b: Seq<u8>) -> bool {
    match spec_column_len(b) {
        None => false,
        Some(l) => {
            if b[0] == 0 {
                true
            } else {
                let id = spec_u16_of(b[1], b[2]);
                &&& (id == VARCHAR_TYPE_ID ==> valid_utf8(b.subrange(7, l)))
                &&& (id == BOOLEAN_TYPE_ID ==> b[3] == 0 || b[3] == 1)
            }
        },
    }
}

/// Whether a whole byte string decodes as a row: a concatenation of
/// decodable column records with nothing left over.
pub open spec fn spec_row_decodable(b: Seq<u8>) -> bool
    decreases b.len(),
{
    if b.len() == 0 {
        true
    } else {
        match spec_column_len(b) {
            None => false,
            Some(l) => if 1 <= l <= b.len() && spec_column_decodable(b) {
                spec_row_decodable(b.skip(l))
            } else {
                false
            },
        }
    }
}

/// A well-formed column record announces its own length: however the
/// encoding continues, the record's header determines where it ends, and
/// the record decodes.
#[verifier::rlimit(60)]
pub proof fn lemma_column_encode_header(c: Option<Value>, tail: Seq<u8>)
    requires
        (c matches Some(v) ==> v.wf()),
    ensures
        spec_column_encode(c).len() >= 1,
        spec_column_len(spec_column_encode(c) + tail) == Some(spec_column_encode(c).len() as int),
        spec_column_decodable(spec_column_encode(c) + tail),
{
    broadcast use crate::wire::lemma_be16_of;
    broadcast use crate::wire::lemma_be32_of;
    broadcast use vstd::utf8::encode_utf8_valid_utf8;

    let enc = spec_column_encode(c);
    let b = enc + tail;
    match c {
        None => {
            assert(b[0] == 0);
        },
        Some(v) => {
            let id = v.spec_column_type().spec_type_id();
            let p = spec_value_payload(v);
            assert(enc == seq![1u8] + spec_be16(id) + p);
            assert(b[0] == 1);
            assert(b[1] == (id >> 8) as u8 && b[2] == id as u8);
            assert(spec_u16_of(b[1], b[2]) == id);
            match v {
                Value::Ascii(d) => {
                    assert(b.subrange(3, 7) =~= spec_be32(d@.len() as u32));
                    lemma_var_header(b, id, d@);
                },
                Value::Blob(d) => {
                    assert(b.subrange(3, 7) =~= spec_be32(d@.len() as u32));
                    lemma_var_header(b, id, d@);
                },
                Value::Decimal(d) => {
                    assert(b.subrange(3, 7) =~= spec_be32(d@.len() as u32));
                    lemma_var_header(b, id, d@);
                },
                Value::Varint(d) => {
                    assert(b.subrange(3, 7) =~= spec_be32(d@.len() as u32));
                    lemma_var_header(b, id, d@);
                },
                Value::Inet(d) => {
                    assert(b.subrange(3, 7) =~= spec_be32(d@.len() as u32));
                    lemma_var_header(b, id, d@);
                },
                Value::Varchar(s) => {
                    assert(b.subrange(3, 7) =~= spec_be32(encode_utf8(s@).len() as u32));
                    lemma_var_header(b, id, encode_utf8(s@));
                    assert(b.subrange(7, 7 + encode_utf8(s@).len() as int) =~= encode_utf8(s@));
                },
                Value::Boolean(t) => {
                    assert(spec_fixed_width(id) == Some(1int));
                    assert(b[3] == (if t {
                        1u8
                    } else {
                        0u8
                    }));
                },
                _ => {
                    assert(spec_fixed_width(id) is Some);
                    assert(b.len() >= 3 + spec_fixed_width(id)->Some_0);
                },
            }
        },
    }
}

/// Header arithmetic shared by the variable-width types: the length field
/// names the payload length.
proof fn lemma_var_header(b: Seq<u8>, id: u16, d: Seq<u8>)
    requires
        spec_is_var_id(id),
        d.len() <= u32::MAX,
        b.len() >= 7 + d.len(),
        b[0] == 1,
        spec_u16_of(b[1], b[2]) == id,
        b.subrange(3, 7) == spec_be32(d.len() as u32),
    ensures
        spec_column_len(b) == Some(7 + d.len() as int),
{
    broadcast use crate::wire::lemma_be32_of;

    let n = d.len() as u32;
    assert(b[3] == (n >> 24) as u8 && b[4] == (n >> 16) as u8 && b[5] == (n >> 8) as u8 && b[6]
        == n as u8);
    assert(spec_u32_of(b[3], b[4], b[5], b[6]) == n);
    assert(spec_fixed_width(id) is None);
}

/// Law: a row's on-disk encoding decodes; with the decoder's contract this
/// says the decoder accepts everything the encoder produces.
pub proof fn lemma_row_encode_decodable(cols: Seq<Option<Value>>)
    requires
        forall|i: int|
            0 <= i < cols.len() ==> (#[trigger] cols[i] matches Some(v) ==> v.wf()),
    ensures
        spec_row_decodable(spec_row_encode(cols)),
    decreases cols.len(),
{
    if cols.len() == 0 {
    } else {
        let c = cols[0];
        assert(cols[0] matches Some(v) ==> v.wf());
        let enc = spec_column_encode(c);
        let rest = spec_row_encode(cols.drop_first());
        let b = spec_row_encode(cols);
        assert(b == enc + rest);
        lemma_column_encode_header(c, rest);
        assert(forall|i: int|
            0 <= i < cols.drop_first().len() ==> (#[trigger] cols.drop_first()[i] matches Some(v)
                ==> v.wf()));
        lemma_row_encode_decodable(cols.drop_first());
        assert(b.skip(enc.len() as int) =~= rest);
    }
}

/// Two well-formed present values with the same encoding are equal.
#[verifier::rlimit(100)]
proof fn lemma_value_encode_injective(v1: Value, v2: Value)
    requires
        v1.wf(),
        v2.wf(),
        spec_value_encode(v1) == spec_value_encode(v2),
    ensures
        val_eq(v1, v2),
{
    let id1 = v1.spec_column_type().spec_type_id();
    let id2 = v2.spec_column_type().spec_type_id();
    let e = spec_value_encode(v1);
    assert(e[0] == (id1 >> 8) as u8 && e[1] == id1 as u8);
    assert(e[0] == (id2 >> 8) as u8 && e[1] == id2 as u8);
    assert(spec_be16(id1) =~= spec_be16(id2));
    crate::wire::lemma_be16_injective(id1, id2);
    let p = e.skip(2);
    assert(p =~= spec_value_payload(v1));
    assert(p =~= spec_value_payload(v2));
    match (v1, v2) {
        (Value::Ascii(x), Value::Ascii(y)) => {
            lemma_var_payload_injective(p, x@, y@);
        },
        (Value::Bigint(x), Value::Bigint(y)) => {
            crate::wire::lemma_be64_injective(x as u64, y as u64);
            assert(((x as u64) as i64) == x && ((y as u64) as i64) == y) by (bit_vector);
        },
        (Value::Blob(x), Value::Blob(y)) => {
            lemma_var_payload_injective(p, x@, y@);
        },
        (Value::Boolean(x), Value::Boolean(y)) => {
            assert(p[0] == (if x {
                1u8
            } else {
                0u8
            }));
        },
        (Value::Counter(x), Value::Counter(y)) => {
            crate::wire::lemma_be64_injective(x as u64, y as u64);
            assert(((x as u64) as i64) == x && ((y as u64) as i64) == y) by (bit_vector);
        },
        (Value::Decimal(x), Value::Decimal(y)) => {
            lemma_var_payload_injective(p, x@, y@);
        },
        (Value::Double(x), Value::Double(y)) => {
            crate::wire::lemma_be64_injective(x, y);
        },
        (Value::Float(x), Value::Float(y)) => {
            crate::wire::lemma_be32_injective(x, y);
        },
        (Value::Int(x), Value::Int(y)) => {
            crate::wire::lemma_be32_injective(x as u32, y as u32);
            assert(((x as u32) as i32) == x && ((y as u32) as i32) == y) by (bit_vector);
        },
        (Value::Timestamp(x), Value::Timestamp(y)) => {
            crate::wire::lemma_be64_injective(x as u64, y as u64);
            assert(((x as u64) as i64) == x && ((y as u64) as i64) == y) by (bit_vector);
        },
        (Value::Uuid(x), Value::Uuid(y)) => {
            assert(x@ == p && y@ == p);
        },
        (Value::Varchar(x), Value::Varchar(y)) => {
            broadcast use vstd::utf8::encode_utf8_decode_utf8;

            lemma_var_payload_injective(p, encode_utf8(x@), encode_utf8(y@));
            assert(decode_utf8(encode_utf8(x@)) == x@ && decode_utf8(encode_utf8(y@)) == y@);
        },
        (Value::Varint(x), Value::Varint(y)) => {
            lemma_var_payload_injective(p, x@, y@);
        },
        (Value::Timeuuid(x), Value::Timeuuid(y)) => {
            assert(x@ == p && y@ == p);
        },
        (Value::Inet(x), Value::Inet(y)) => {
            lemma_var_payload_injective(p, x@, y@);
        },
        (Value::Date(x), Value::Date(y)) => {
            crate::wire::lemma_be32_injective(x as u32, y as u32);
            assert(((x as u32) as i32) == x && ((y as u32) as i32) == y) by (bit_vector);
        },
        (Value::Time(x), Value::Time(y)) => {
            crate::wire::lemma_be64_injective(x as u64, y as u64);
            assert(((x as u64) as i64) == x && ((y as u64) as i64) == y) by (bit_vector);
        },
        (Value::Smallint(x), Value::Smallint(y)) => {
            assert(spec_be16(x as u16) =~= spec_be16(y as u16));
            crate::wire::lemma_be16_injective(x as u16, y as u16);
            assert(((x as u16) as i16) == x && ((y as u16) as i16) == y) by (bit_vector);
        },
        (Value::Tinyint(x), Value::Tinyint(y)) => {
            assert(p[0] == x as u8 && p[0] == y as u8);
            assert(((x as u8) as i8) == x && ((y as u8) as i8) == y) by (bit_vector);
        },
        _ => {
            assert(false);
        },
    }
}

/// A shared variable-width payload determines the data bytes.
proof fn lemma_var_payload_injective(p: Seq<u8>, x: Seq<u8>, y: Seq<u8>)
    requires
        x.len() <= u32::MAX,
        y.len() <= u32::MAX,
        p == spec_be32(x.len() as u32) + x,
        p == spec_be32(y.len() as u32) + y,
    ensures
        x == y,
{
    assert(spec_be32(x.len() as u32) =~= p.take(4));
    assert(spec_be32(y.len() as u32) =~= p.take(4));
    crate::wire::lemma_be32_injective(x.len() as u32, y.len() as u32);
    assert(x =~= y) by {
        assert(x =~= p.skip(4));
        assert(y =~= p.skip(4));
    }
}

/// Two well-formed column records with the same encoding hold equal
/// nullable values.
proof fn lemma_column_encode_injective(c1: Option<Value>, c2: Option<Value>)
    requires
        (c1 matches Some(v) ==> v.wf()),
        (c2 matches Some(v) ==> v.wf()),
        spec_column_encode(c1) == spec_column_encode(c2),
    ensures
        opt_val_eq(c1, c2),
{
    let e = spec_column_encode(c1);
    match (c1, c2) {
        (None, None) => {},
        (Some(v1), Some(v2)) => {
            assert(e.skip(1) =~= spec_value_encode(v1));
            assert(e.skip(1) =~= spec_value_encode(v2));
            lemma_value_encode_injective(v1, v2);
        },
        (None, Some(_)) => {
            assert(e[0] == 0 && e[0] == 1);
        },
        (Some(_), None) => {
            assert(e[0] == 1 && e[0] == 0);
        },
    }
}

/// Law: the row encoding is injective. Together with the decoder's
/// contract this gives the round trip: decoding a row's encoding yields an
/// equal row, nulls and all nineteen column types included.
pub proof fn lemma_row_encode_injective(a: Seq<Option<Value>>, b: Seq<Option<Value>>)
    requires
        forall|i: int| 0 <= i < a.len() ==> (#[trigger] a[i] matches Some(v) ==> v.wf()),
        forall|i: int| 0 <= i < b.len() ==> (#[trigger] b[i] matches Some(v) ==> v.wf()),
        spec_row_encode(a) == spec_row_encode(b),
    ensures
        a.len() == b.len(),
        forall|i: int| 0 <= i < a.len() ==> opt_val_eq(#[trigger] a[i], b[i]),
    decreases a.len(),
{
    let e = spec_row_encode(a);
    if a.len() == 0 {
        if b.len() > 0 {
            lemma_column_encode_header(b[0], spec_row_encode(b.drop_first()));
            assert(spec_row_encode(b).len() >= spec_column_encode(b[0]).len());
        }
    } else if b.len() == 0 {
        lemma_column_encode_header(a[0], spec_row_encode(a.drop_first()));
        assert(spec_row_encode(a).len() >= spec_column_encode(a[0]).len());
    } else {
        assert(a[0] matches Some(v) ==> v.wf());
        assert(b[0] matches Some(v) ==> v.wf());
        let ea = spec_column_encode(a[0]);
        let eb = spec_column_encode(b[0]);
        lemma_column_encode_header(a[0], spec_row_encode(a.drop_first()));
        lemma_column_encode_header(b[0], spec_row_encode(b.drop_first()));
        assert(spec_column_len(e) == Some(ea.len() as int));
        assert(spec_column_len(e) == Some(eb.len() as int));
        assert(ea =~= e.take(ea.len() as int));
        assert(eb =~= e.take(eb.len() as int));
        lemma_column_encode_injective(a[0], b[0]);
        assert(spec_row_encode(a.drop_first()) =~= e.skip(ea.len() as int));
        assert(spec_row_encode(b.drop_first()) =~= e.skip(eb.len() as int));
        assert(forall|i: int|
            0 <= i < a.drop_first().len() ==> (#[trigger] a.drop_first()[i] matches Some(v)
                ==> v.wf()));
        assert(forall|i: int|
            0 <= i < b.drop_first().len() ==> (#[trigger] b.drop_first()[i] matches Some(v)
                ==> v.wf()));
        lemma_row_encode_injective(a.drop_first(), b.drop_first());
        assert(forall|i: int| 0 <= i < a.len() ==> opt_val_eq(#[trigger] a[i], b[i])) by {
            assert(forall|i: int|
                1 <= i < a.len() ==> a[i] == a.drop_first()[i - 1] && b[i] == b.drop_first()[i
                    - 1]);
            assert(forall|i: int|
                1 <= i < a.len() ==> opt_val_eq(#[trigger] a.drop_first()[i - 1], b.drop_first()[i - 1]));
        }
    }
}

/// Law (row round trip): rows that encode to the same bytes are equal, so
/// the decoder's contract — which returns a row whose encoding is the
/// input — returns the encoded row itself.
pub proof fn lemma_row_round_trip(a: Row, b: Row)
    requires
        a.wf(),
        b.wf(),
        spec_row_encode(b.columns@) == spec_row_encode(a.columns@),
    ensures
        row_eq(b, a),
{
    lemma_row_encode_injective(b.columns@, a.columns@);
}

/// Read one column record at `pos`: `None` when the record is malformed
/// or truncated.
#[verifier::rlimit(100)]
pub fn read_column(bytes: &Vec<u8>, pos: usize) -> (r: Option<(Option<Value>, usize)>)
    requires
        pos <= bytes@.len(),
    ensures
        r is Some <==> spec_column_decodable(bytes@.skip(pos as int)),
        (r matches Some((c, p)) ==> {
            &&& pos < p <= bytes@.len()
            &&& (c matches Some(v) ==> v.wf())
            &&& spec_column_encode(c) == bytes@.subrange(pos as int, p as int)
            &&& spec_column_len(bytes@.skip(pos as int)) == Some((p - pos) as int)
        }),
{
    broadcast use crate::wire::lemma_be16_bytes;
    broadcast use crate::wire::lemma_be32_bytes;
    broadcast use crate::wire::lemma_be64_bytes;
    broadcast use crate::wire::lemma_u16_bits;
    broadcast use crate::wire::lemma_u32_bits;
    broadcast use crate::wire::lemma_u64_bits;
    broadcast use crate::wire::lemma_u8_bits;
    broadcast use vstd::utf8::decode_utf8_encode_utf8;

    let ghost tail = bytes@.skip(pos as int);
    proof {
        assert(tail.len() == bytes@.len() - pos);
        assert(forall|i: int| 0 <= i < tail.len() ==> tail[i] == bytes@[pos + i]);
    }
    if bytes.len() - pos < 1 {
        return None;
    }
    let b0 = bytes[pos];
    if b0 == 0 {
        assert(spec_column_encode(None) =~= bytes@.subrange(pos as int, pos + 1));
        return Some((None, pos + 1));
    }
    if b0 != 1 {
        return None;
    }
    if bytes.len() - pos < 3 {
        return None;
    }
    let id: u16 = match read_unsigned_short(bytes, pos + 1) {
        Some((id, _)) => id,
        None => {
            assert(false);
            0u16
        },
    };
    assert(id == spec_u16_of(tail[1], tail[2]));
    if id == BIGINT_TYPE_ID || id == COUNTER_TYPE_ID || id == TIMESTAMP_TYPE_ID || id
        == TIME_TYPE_ID {
        match read_long(bytes, pos + 3) {
            None => {
                assert(spec_column_len(tail) is None);
                None
            },
            Some((v, p)) => {
                let c = if id == BIGINT_TYPE_ID {
                    Value::Bigint(v)
                } else if id == COUNTER_TYPE_ID {
                    Value::Counter(v)
                } else if id == TIMESTAMP_TYPE_ID {
                    Value::Timestamp(v)
                } else {
                    Value::Time(v)
                };
                proof {
                    assert(spec_column_len(tail) == Some(11int));
                    assert(spec_column_decodable(tail));
                    assert(spec_column_encode(Some(c)) =~= bytes@.subrange(pos as int, p as int));
                }
                Some((Some(c), p))
            },
        }
    } else if id == DOUBLE_TYPE_ID {
        match read_u64(bytes, pos + 3) {
            None => {
                assert(spec_column_len(tail) is None);
                None
            },
            Some((v, p)) => {
                proof {
                    assert(spec_column_len(tail) == Some(11int));
                    assert(spec_column_decodable(tail));
                    assert(spec_column_encode(Some(Value::Double(v))) =~= bytes@.subrange(
                        pos as int,
                        p as int,
                    ));
                }
                Some((Some(Value::Double(v)), p))
            },
        }
    } else if id == INT_TYPE_ID || id == DATE_TYPE_ID {
        match read_int(bytes, pos + 3) {
            None => {
                assert(spec_column_len(tail) is None);
                None
            },
            Some((v, p)) => {
                let c = if id == INT_TYPE_ID {
                    Value::Int(v)
                } else {
                    Value::Date(v)
                };
                proof {
                    assert(spec_column_len(tail) == Some(7int));
                    assert(spec_column_decodable(tail));
                    assert(spec_column_encode(Some(c)) =~= bytes@.subrange(pos as int, p as int));
                }
                Some((Some(c), p))
            },
        }
    } else if id == FLOAT_TYPE_ID {
        match read_u32(bytes, pos + 3) {
            None => {
                assert(spec_column_len(tail) is None);
                None
            },
            Some((v, p)) => {
                proof {
                    assert(spec_column_len(tail) == Some(7int));
                    assert(spec_column_decodable(tail));
                    assert(spec_column_encode(Some(Value::Float(v))) =~= bytes@.subrange(
                        pos as int,
                        p as int,
                    ));
                }
                Some((Some(Value::Float(v)), p))
            },
        }
    } else if id == SMALLINT_TYPE_ID {
        match read_unsigned_short(bytes, pos + 3) {
            None => {
                assert(spec_column_len(tail) is None);
                None
            },
            Some((v, p)) => {
                let c = Value::Smallint(
                    #[verifier::truncate]
                    (v as i16),
                );
                proof {
                    assert(spec_column_len(tail) == Some(5int));
                    assert(spec_column_decodable(tail));
                    assert(spec_column_encode(Some(c)) =~= bytes@.subrange(pos as int, p as int));
                }
                Some((Some(c), p))
            },
        }
    } else if id == BOOLEAN_TYPE_ID || id == TINYINT_TYPE_ID {
        if bytes.len() - pos < 4 {
            assert(spec_column_len(tail) is None);
            return None;
        }
        let b3 = bytes[pos + 3];
        assert(spec_column_len(tail) == Some(4int));
        if id == BOOLEAN_TYPE_ID {
            if b3 > 1 {
                assert(!spec_column_decodable(tail));
                return None;
            }
            let c = Value::Boolean(b3 != 0);
            proof {
                assert(spec_column_decodable(tail));
                assert(spec_column_encode(Some(c)) =~= bytes@.subrange(pos as int, pos + 4));
            }
            Some((Some(c), pos + 4))
        } else {
            let c = Value::Tinyint(
                #[verifier::truncate]
                (b3 as i8),
            );
            proof {
                assert(spec_column_decodable(tail));
                assert(spec_column_encode(Some(c)) =~= bytes@.subrange(pos as int, pos + 4));
            }
            Some((Some(c), pos + 4))
        }
    } else if id == UUID_TYPE_ID || id == TIMEUUID_TYPE_ID {
        match read_raw(bytes, pos + 3, 16) {
            None => {
                assert(spec_column_len(tail) is None);
                None
            },
            Some((b, p)) => {
                let c = if id == UUID_TYPE_ID {
                    Value::Uuid(b)
                } else {
                    Value::Timeuuid(b)
                };
                proof {
                    assert(spec_column_len(tail) == Some(19int));
                    assert(spec_column_decodable(tail));
                    assert(spec_column_encode(Some(c)) =~= bytes@.subrange(pos as int, p as int));
                }
                Some((Some(c), p))
            },
        }
    } else if id == ASCII_TYPE_ID || id == BLOB_TYPE_ID || id == DECIMAL_TYPE_ID || id
        == VARINT_TYPE_ID || id == INET_TYPE_ID || id == VARCHAR_TYPE_ID {
        let n: u32 = match read_u32(bytes, pos + 3) {
            Some((n, _)) => n,
            None => {
                assert(spec_column_len(tail) is None);
                return None;
            },
        };
        match read_raw(bytes, pos + 7, n as usize) {
            None => {
                assert(spec_column_len(tail) is None);
                None
            },
            Some((b, p)) => {
                assert(spec_column_len(tail) == Some(7 + n as int));
                assert(b@.len() == n);
                assert(bytes@.subrange(pos as int, p as int) =~= seq![1u8] + spec_be16(id)
                    + spec_be32(n) + b@);
                if id == VARCHAR_TYPE_ID {
                    assert(b@ == tail.subrange(7, 7 + n as int)) by {
                        assert(tail.subrange(7, 7 + n as int) =~= b@);
                    }
                    match string_from_utf8(b) {
                        None => {
                            assert(!spec_column_decodable(tail));
                            None
                        },
                        Some(s) => {
                            let c = Value::Varchar(s);
                            proof {
                                assert(spec_column_decodable(tail));
                                assert(encode_utf8(s@) == bytes@.subrange(pos + 7, p as int)) by {
                                    assert(bytes@.subrange(pos + 7, p as int) =~= tail.subrange(
                                        7,
                                        7 + n as int,
                                    ));
                                }
                                assert(spec_column_encode(Some(c)) =~= bytes@.subrange(
                                    pos as int,
                                    p as int,
                                ));
                            }
                            Some((Some(c), p))
                        },
                    }
                } else {
                    let c = if id == ASCII_TYPE_ID {
                        Value::Ascii(b)
                    } else if id == BLOB_TYPE_ID {
                        Value::Blob(b)
                    } else if id == DECIMAL_TYPE_ID {
                        Value::Decimal(b)
                    } else if id == VARINT_TYPE_ID {
                        Value::Varint(b)
                    } else {
                        Value::Inet(b)
                    };
                    proof {
                        assert(spec_column_decodable(tail));
                        assert(spec_column_encode(Some(c)) =~= bytes@.subrange(
                            pos as int,
                            p as int,
                        ));
                    }
                    Some((Some(c), p))
                }
            },
        }
    } else {
        assert(spec_fixed_width(id) is None && !spec_is_var_id(id));
        assert(spec_column_len(tail) is None);
        None
    }
}

impl Row {
    /// Decode a stored row. Succeeds exactly on well-formed encodings;
    /// a malformed record yields a server error. The decoded row is the
    /// unique row whose encoding is the input.
    pub fn from_bytes(bytes: &Vec<u8>) -> (r: Result<Row, DbError>)
        ensures
            r is Ok <==> spec_row_decodable(bytes@),
            (r matches Ok(row) ==> row.wf() && spec_row_encode(row.columns@) == bytes@),
            (r matches Err(e) ==> e.code == ErrorCode::ServerError),
    {
        let mut columns: Vec<Option<Value>> = Vec::new();
        let mut pos: usize = 0;
        assert(spec_row_encode(columns@) =~= bytes@.take(0));
        assert(bytes@.skip(0) =~= bytes@);
        loop
            invariant
                pos <= bytes@.len(),
                spec_row_decodable(bytes@) <==> spec_row_decodable(bytes@.skip(pos as int)),
                spec_row_encode(columns@) == bytes@.take(pos as int),
                forall|i: int|
                    0 <= i < columns@.len() ==> (#[trigger] columns@[i] matches Some(v)
                        ==> v.wf()),
            decreases bytes@.len() - pos,
        {
            if pos == bytes.len() {
                assert(bytes@.skip(pos as int) =~= Seq::<u8>::empty());
                assert(bytes@.take(pos as int) =~= bytes@);
                let row = Row { columns };
                return Ok(row);
            }
            match read_column(bytes, pos) {
                None => {
                    assert(bytes@.skip(pos as int).len() > 0);
                    assert(!spec_row_decodable(bytes@.skip(pos as int)));
                    return Err(
                        DbError::new(
                            ErrorCode::ServerError,
                            String::from_str("malformed stored row"),
                        ),
                    );
                },
                Some((c, p)) => {
                    proof {
                        lemma_row_encode_push(columns@, c);
                        assert(bytes@.skip(pos as int).skip((p - pos) as int) =~= bytes@.skip(
                            p as int,
                        ));
                        assert(bytes@.take(p as int) =~= bytes@.take(pos as int) + bytes@.subrange(
                            pos as int,
                            p as int,
                        ));
                    }
                    columns.push(c);
                    pos = p;
                },
            }
        }
    }
}

} // verus!
