//! The CQL parser and planner: tokenize a statement, parse the supported
//! `CREATE TABLE`, `INSERT`, and `SELECT` forms, and lower them against
//! the catalog into a typed, executable plan.

use vstd::prelude::*;
use vstd::string::StrSliceExecFns;
use vstd::string::StringExecFns;

use crate::builtins::FilterKind;
use crate::data::literal_text;
use crate::data::str_ieq;
use crate::data::ColumnType;
use crate::data::Literal;
use crate::data::Value;
use crate::dialect::CassandraDialect;
use crate::error::DbError;
use crate::error::ErrorCode;
use crate::schema::clone_column;
use crate::schema::spec_find_column;
use crate::schema::spec_table_in;
use crate::schema::ColumnMetadata;
use crate::schema::Kind;
use crate::schema::TableMetadata;
use crate::schema::Tables;

verus! {

/// One token of a CQL statement.
#[derive(Debug, Clone)]
pub enum Token {
    Ident(String),
    Number(String),
    Text(String),
    LParen,
    RParen,
    Comma,
    Semi,
    Star,
    OpEq,
    OpNeq,
    OpLt,
    OpGt,
    OpLtEq,
    OpGtEq,
}

/// A statement lowered against the catalog.
pub enum ParsedStatement {
    Select(ParsedQuery),
    Create(TableMetadata),
    Insert(ParsedInsert),
}

/// A planned `SELECT`: the table, the projection, the filters, and the
/// partition-key prefix used for storage lookup.
#[derive(Debug)]
pub struct ParsedQuery {
    pub partition_key: Vec<String>,
    pub clustering_key: Vec<String>,
    pub projection: Vec<ParsedExpr>,
    pub filters: Vec<(String, ParsedFilter)>,
    pub table: TableMetadata,
    pub column_count: i32,
}

/// A parsed WHERE comparison: the built-in it names and its arguments.
#[derive(Debug)]
pub struct ParsedFilter {
    pub filter: FilterKind,
    pub args: Vec<ParsedExpr>,
}

/// A planned `INSERT`: the table, the named columns with their typed
/// values, and the key texts.
#[derive(Debug)]
pub struct ParsedInsert {
    pub table: TableMetadata,
    pub partition_key: Vec<String>,
    pub clustering_key: Vec<String>,
    pub columns: Vec<String>,
    pub values: Vec<ParsedExpr>,
}

/// A planned expression: a resolved column, a named function over
/// arguments, or a literal value.
#[derive(Debug)]
pub enum ParsedExpr {
    Column(ProjectedColumn),
    Function(String, Vec<ParsedExpr>),
    Literal(Option<Value>),
}

/// A projected column: the column it reads, the name it is returned
/// under, and the column's metadata.
#[derive(Debug)]
pub struct ProjectedColumn {
    pub target_column: String,
    pub resolved_name: String,
    pub column_metadata: ColumnMetadata,
}

/// The wire-independent view of one token: identifier, number and text
/// tokens carry their characters.
pub enum SpecToken {
    Ident(Seq<char>),
    Number(Seq<char>),
    Text(Seq<char>),
    LParen,
    RParen,
    Comma,
    Semi,
    Star,
    OpEq,
    OpNeq,
    OpLt,
    OpGt,
    OpLtEq,
    OpGtEq,
}

/// The view of a token.
pub open spec fn spec_tok_of(t: Token) -> SpecToken {
    match t {
        Token::Ident(s) => SpecToken::Ident(s@),
        Token::Number(s) => SpecToken::Number(s@),
        Token::Text(s) => SpecToken::Text(s@),
        Token::LParen => SpecToken::LParen,
        Token::RParen => SpecToken::RParen,
        Token::Comma => SpecToken::Comma,
        Token::Semi => SpecToken::Semi,
        Token::Star => SpecToken::Star,
        Token::OpEq => SpecToken::OpEq,
        Token::OpNeq => SpecToken::OpNeq,
        Token::OpLt => SpecToken::OpLt,
        Token::OpGt => SpecToken::OpGt,
        Token::OpLtEq => SpecToken::OpLtEq,
        Token::OpGtEq => SpecToken::OpGtEq,
    }
}

/// The views of a token list.
pub open spec fn spec_toks_of(ts: Seq<Token>) -> Seq<SpecToken> {
    ts.map_values(|t: Token| spec_tok_of(t))
}

/// Whether a character is statement whitespace.
pub open spec fn spec_is_ws(c: char) -> bool {
    c as u32 == 32 || c as u32 == 9 || c as u32 == 10 || c as u32 == 13
}

/// Whether a character is an ASCII decimal digit.
pub open spec fn spec_is_digit_char(c: char) -> bool {
    48 <= c as u32 <= 57
}

/// Where an identifier run that began before `j` ends.
pub open spec fn spec_ident_end(s: Seq<char>, j: int) -> int
    decreases s.len() - j,
    when 0 <= j <= s.len()
{
    if j < s.len() && crate::dialect::spec_is_identifier_part(s[j]) {
        spec_ident_end(s, j + 1)
    } else {
        j
    }
}

/// Where a digit run that began before `j` ends.
pub open spec fn spec_number_end(s: Seq<char>, j: int) -> int
    decreases s.len() - j,
    when 0 <= j <= s.len()
{
    if j < s.len() && spec_is_digit_char(s[j]) {
        spec_number_end(s, j + 1)
    } else {
        j
    }
}

/// The position of the closing quote at or after `j`, or the end.
pub open spec fn spec_quote_end(s: Seq<char>, j: int) -> int
    decreases s.len() - j,
    when 0 <= j <= s.len()
{
    if j < s.len() && s[j] as u32 != 39 {
        spec_quote_end(s, j + 1)
    } else {
        j
    }
}

/// A run end never runs backwards nor past the end.
pub proof fn lemma_run_end_bounds(s: Seq<char>, j: int)
    requires
        0 <= j <= s.len(),
    ensures
        j <= spec_ident_end(s, j) <= s.len(),
        j <= spec_number_end(s, j) <= s.len(),
        j <= spec_quote_end(s, j) <= s.len(),
    decreases s.len() - j,
{
    if j < s.len() {
        lemma_run_end_bounds(s, j + 1);
    }
}

/// The tokens of the statement text from position `i` on, or nothing when
/// a character cannot start a token or a quote never closes.
pub open spec fn spec_tokenize_from(s: Seq<char>, i: int) -> Option<Seq<SpecToken>>
    decreases s.len() - i, 0int,
    when 0 <= i <= s.len() via spec_tokenize_from_decreases
{
    if i >= s.len() {
        Some(Seq::<SpecToken>::empty())
    } else {
        let c = s[i];
        if spec_is_ws(c) {
            spec_tokenize_from(s, i + 1)
        } else if crate::dialect::spec_is_identifier_start(c) {
            let j = spec_ident_end(s, i + 1);
            match spec_tokenize_from(s, j) {
                None => None,
                Some(rest) => Some(seq![SpecToken::Ident(s.subrange(i, j))] + rest),
            }
        } else if spec_is_digit_char(c) {
            let j = spec_number_end(s, i + 1);
            match spec_tokenize_from(s, j) {
                None => None,
                Some(rest) => Some(seq![SpecToken::Number(s.subrange(i, j))] + rest),
            }
        } else if c as u32 == 39 {
            let j = spec_quote_end(s, i + 1);
            if j >= s.len() {
                None
            } else {
                match spec_tokenize_from(s, j + 1) {
                    None => None,
                    Some(rest) => Some(seq![SpecToken::Text(s.subrange(i + 1, j))] + rest),
                }
            }
        } else if c as u32 == 40 {
            spec_tokenize_push(s, i + 1, SpecToken::LParen)
        } else if c as u32 == 41 {
            spec_tokenize_push(s, i + 1, SpecToken::RParen)
        } else if c as u32 == 44 {
            spec_tokenize_push(s, i + 1, SpecToken::Comma)
        } else if c as u32 == 59 {
            spec_tokenize_push(s, i + 1, SpecToken::Semi)
        } else if c as u32 == 42 {
            spec_tokenize_push(s, i + 1, SpecToken::Star)
        } else if c as u32 == 61 {
            spec_tokenize_push(s, i + 1, SpecToken::OpEq)
        } else if c as u32 == 33 {
            if i + 1 < s.len() && s[i + 1] as u32 == 61 {
                spec_tokenize_push(s, i + 2, SpecToken::OpNeq)
            } else {
                None
            }
        } else if c as u32 == 60 {
            if i + 1 < s.len() && s[i + 1] as u32 == 61 {
                spec_tokenize_push(s, i + 2, SpecToken::OpLtEq)
            } else if i + 1 < s.len() && s[i + 1] as u32 == 62 {
                spec_tokenize_push(s, i + 2, SpecToken::OpNeq)
            } else {
                spec_tokenize_push(s, i + 1, SpecToken::OpLt)
            }
        } else if c as u32 == 62 {
            if i + 1 < s.len() && s[i + 1] as u32 == 61 {
                spec_tokenize_push(s, i + 2, SpecToken::OpGtEq)
            } else {
                spec_tokenize_push(s, i + 1, SpecToken::OpGt)
            }
        } else {
            None
        }
    }
}

/// One symbol token, then the tokens that follow it.
pub open spec fn spec_tokenize_push(s: Seq<char>, i: int, t: SpecToken) -> Option<Seq<SpecToken>>
    decreases s.len() - i, 1int,
    when 0 <= i <= s.len()
{
    match spec_tokenize_from(s, i) {
        None => None,
        Some(rest) => Some(seq![t] + rest),
    }
}

#[via_fn]
proof fn spec_tokenize_from_decreases(s: Seq<char>, i: int) {
    if 0 <= i <= s.len() && i < s.len() {
        lemma_run_end_bounds(s, i + 1);
    }
}

/// The tokens of a whole statement text.
pub open spec fn spec_tokenize(s: Seq<char>) -> Option<Seq<SpecToken>> {
    spec_tokenize_from(s, 0)
}

/// Whether a token is an identifier matching the lowercase keyword.
pub open spec fn spec_tok_kw(t: SpecToken, kw: Seq<char>) -> bool {
    t matches SpecToken::Ident(s) && crate::data::chars_ieq(s, kw)
}

/// The view of a literal.
pub enum SpecLit {
    Number(Seq<char>),
    Text(Seq<char>),
    Boolean(bool),
    Null,
}

/// The view of a parsed literal.
pub open spec fn spec_lit_of(l: Literal) -> SpecLit {
    match l {
        Literal::Number(s) => SpecLit::Number(s@),
        Literal::Text(s) => SpecLit::Text(s@),
        Literal::Boolean(b) => SpecLit::Boolean(b),
        Literal::Null => SpecLit::Null,
    }
}

/// The literal a token denotes: a number, a quoted string, or the
/// keywords `true`, `false` and `NULL`.
pub open spec fn spec_lit_of_token(t: SpecToken) -> Option<SpecLit> {
    match t {
        SpecToken::Number(s) => Some(SpecLit::Number(s)),
        SpecToken::Text(s) => Some(SpecLit::Text(s)),
        SpecToken::Ident(s) => if crate::data::chars_ieq(s, "true"@) {
            Some(SpecLit::Boolean(true))
        } else if crate::data::chars_ieq(s, "false"@) {
            Some(SpecLit::Boolean(false))
        } else if crate::data::chars_ieq(s, "null"@) {
            Some(SpecLit::Null)
        } else {
            None
        },
        _ => None,
    }
}

/// The storage-key text of a literal's view.
pub open spec fn spec_lit_text(l: SpecLit) -> Seq<char> {
    match l {
        SpecLit::Number(s) => s,
        SpecLit::Text(s) => s,
        SpecLit::Boolean(b) => if b {
            "true"@
        } else {
            "false"@
        },
        SpecLit::Null => "NULL"@,
    }
}

/// Whether a literal types against a column type, exactly as conversion
/// accepts it.
pub open spec fn spec_lit_types(l: SpecLit, ct: ColumnType) -> bool {
    match l {
        SpecLit::Number(s) => crate::data::spec_numeric_max(ct) matches Some(m)
            && crate::data::spec_is_digits(s) && crate::data::spec_dec_val(s) <= m,
        SpecLit::Text(s) => ct == ColumnType::Varchar && vstd::utf8::encode_utf8(s).len()
            <= u32::MAX,
        SpecLit::Boolean(_) => ct == ColumnType::Boolean,
        SpecLit::Null => true,
    }
}

/// Whether a converted value is the one a literal denotes for a column
/// type: the denoted number, text, truth value, or null.
pub open spec fn spec_lit_value(ov: Option<Value>, l: SpecLit, ct: ColumnType) -> bool {
    match l {
        SpecLit::Number(s) => ov matches Some(v) && v.spec_column_type() == ct && match v {
            Value::Bigint(x) => x == crate::data::spec_dec_val(s),
            Value::Int(x) => x == crate::data::spec_dec_val(s),
            Value::Smallint(x) => x == crate::data::spec_dec_val(s),
            Value::Tinyint(x) => x == crate::data::spec_dec_val(s),
            _ => false,
        },
        SpecLit::Text(s) => ov matches Some(v) && (v matches Value::Varchar(t) && t@ == s),
        SpecLit::Boolean(b) => ov == Some(Value::Boolean(b)),
        SpecLit::Null => ov is None,
    }
}

/// The view of a column: its name, type, and kind.
pub open spec fn spec_col_view(c: ColumnMetadata) -> (Seq<char>, ColumnType, Kind) {
    (c.name@, c.column_type, c.kind)
}

/// The views of a column list.
pub open spec fn spec_cols_view(cs: Seq<ColumnMetadata>) -> Seq<(Seq<char>, ColumnType, Kind)> {
    cs.map_values(|c: ColumnMetadata| spec_col_view(c))
}

/// The storage text of a literal is the storage text of its view.
pub proof fn lemma_literal_text_view(l: Literal)
    ensures
        crate::data::spec_literal_text(l) == spec_lit_text(spec_lit_of(l)),
{
}

/// An invalid-statement error.
fn invalid(msg: &str) -> (e: DbError)
    ensures
        e.code == ErrorCode::Invalid,
{
    DbError::new(ErrorCode::Invalid, String::from_str(msg))
}

/// Mapping a pushed token appends its view.
proof fn lemma_toks_push(ts: Seq<Token>, t: Token)
    ensures
        spec_toks_of(ts.push(t)) == spec_toks_of(ts).push(spec_tok_of(t)),
{
    assert(spec_toks_of(ts.push(t)) =~= spec_toks_of(ts).push(spec_tok_of(t)));
}

/// Split a statement into tokens, exactly as the token specification
/// reads them; anything unrecognized is invalid.
#[verifier::rlimit(100)]
fn tokenize(s: &str) -> (r: Result<Vec<Token>, DbError>)
    ensures
        r is Ok <==> spec_tokenize(s@) is Some,
        (r matches Ok(toks) ==> spec_tokenize(s@) == Some(spec_toks_of(toks@))),
        (r matches Err(e) ==> e.code == ErrorCode::Invalid),
{
    let dialect = CassandraDialect {  };
    let n = s.unicode_len();
    let mut toks: Vec<Token> = Vec::new();
    let mut i: usize = 0;
    assert(spec_toks_of(toks@) =~= Seq::<SpecToken>::empty());
    proof {
        let r0 = spec_tokenize_from(s@, 0);
        if r0 is Some {
            assert(spec_toks_of(toks@) + r0->Some_0 =~= r0->Some_0);
        }
    }
    while i < n
        invariant
            n == s@.len(),
            i <= n,
            spec_tokenize_from(s@, 0) is Some <==> spec_tokenize_from(s@, i as int) is Some,
            (spec_tokenize_from(s@, i as int) matches Some(rest) ==> spec_tokenize_from(s@, 0)
                == Some(spec_toks_of(toks@) + rest)),
        decreases n - i,
    {
        let ghost i0 = i as int;
        let ghost toks0 = toks@;
        let c = s.get_char(i);
        let u = c as u32;
        if u == 32 || u == 9 || u == 10 || u == 13 {
            i = i + 1;
        } else {
            let tok: Token = if dialect.is_identifier_start(c) {
                let start = i;
                i = i + 1;
                while i < n && dialect.is_identifier_part(s.get_char(i))
                    invariant
                        n == s@.len(),
                        start < i <= n,
                        spec_ident_end(s@, start + 1) == spec_ident_end(s@, i as int),
                    decreases n - i,
                {
                    i = i + 1;
                }
                assert(spec_ident_end(s@, start + 1) == i);
                let word = String::from_str(s.substring_char(start, i));
                let t = Token::Ident(word);
                proof {
                    assert(spec_tok_of(t) == SpecToken::Ident(s@.subrange(i0, i as int)));
                    assert(spec_tokenize_from(s@, i0) == spec_tokenize_push(
                        s@,
                        i as int,
                        spec_tok_of(t),
                    ));
                }
                t
            } else if 48 <= u && u <= 57 {
                let start = i;
                i = i + 1;
                while i < n && 48 <= s.get_char(i) as u32 && s.get_char(i) as u32 <= 57
                    invariant
                        n == s@.len(),
                        start < i <= n,
                        spec_number_end(s@, start + 1) == spec_number_end(s@, i as int),
                    decreases n - i,
                {
                    i = i + 1;
                }
                assert(spec_number_end(s@, start + 1) == i);
                let digits = String::from_str(s.substring_char(start, i));
                let t = Token::Number(digits);
                proof {
                    assert(spec_tok_of(t) == SpecToken::Number(s@.subrange(i0, i as int)));
                    assert(spec_tokenize_from(s@, i0) == spec_tokenize_push(
                        s@,
                        i as int,
                        spec_tok_of(t),
                    ));
                }
                t
            } else if u == 39 {
                i = i + 1;
                let start = i;
                while i < n && s.get_char(i) as u32 != 39
                    invariant
                        n == s@.len(),
                        start <= i <= n,
                        spec_quote_end(s@, start as int) == spec_quote_end(s@, i as int),
                    decreases n - i,
                {
                    i = i + 1;
                }
                assert(spec_quote_end(s@, start as int) == i);
                if i == n {
                    assert(spec_tokenize_from(s@, i0) is None);
                    return Err(invalid("unterminated string literal"));
                }
                let text = String::from_str(s.substring_char(start, i));
                let t = Token::Text(text);
                i = i + 1;
                proof {
                    assert(spec_tok_of(t) == SpecToken::Text(s@.subrange(i0 + 1, i - 1)));
                    assert(spec_tokenize_from(s@, i0) == spec_tokenize_push(
                        s@,
                        i as int,
                        spec_tok_of(t),
                    ));
                }
                t
            } else if u == 40 {
                i = i + 1;
                Token::LParen
            } else if u == 41 {
                i = i + 1;
                Token::RParen
            } else if u == 44 {
                i = i + 1;
                Token::Comma
            } else if u == 59 {
                i = i + 1;
                Token::Semi
            } else if u == 42 {
                i = i + 1;
                Token::Star
            } else if u == 61 {
                i = i + 1;
                Token::OpEq
            } else if u == 33 {
                if i + 1 < n && s.get_char(i + 1) as u32 == 61 {
                    i = i + 2;
                    Token::OpNeq
                } else {
                    assert(spec_tokenize_from(s@, i0) is None);
                    return Err(invalid("unexpected character"));
                }
            } else if u == 60 {
                if i + 1 < n && s.get_char(i + 1) as u32 == 61 {
                    i = i + 2;
                    Token::OpLtEq
                } else if i + 1 < n && s.get_char(i + 1) as u32 == 62 {
                    i = i + 2;
                    Token::OpNeq
                } else {
                    i = i + 1;
                    Token::OpLt
                }
            } else if u == 62 {
                if i + 1 < n && s.get_char(i + 1) as u32 == 61 {
                    i = i + 2;
                    Token::OpGtEq
                } else {
                    i = i + 1;
                    Token::OpGt
                }
            } else {
                assert(spec_tokenize_from(s@, i0) is None);
                return Err(invalid("unexpected character"));
            };
            proof {
                lemma_toks_push(toks0, tok);
                assert(spec_tokenize_from(s@, i0) == spec_tokenize_push(
                    s@,
                    i as int,
                    spec_tok_of(tok),
                ));
                let r_here = spec_tokenize_from(s@, i0);
                let r_next = spec_tokenize_from(s@, i as int);
                assert(r_here is Some <==> r_next is Some);
                if r_next is Some {
                    let rest = r_next->Some_0;
                    assert(r_here == Some(seq![spec_tok_of(tok)] + rest));
                    assert(spec_toks_of(toks0) + (seq![spec_tok_of(tok)] + rest)
                        =~= spec_toks_of(toks0.push(tok)) + rest);
                }
            }
            toks.push(tok);
        }
    }
    assert(spec_tokenize_from(s@, n as int) == Some(Seq::<SpecToken>::empty()));
    assert(spec_toks_of(toks@) + Seq::<SpecToken>::empty() =~= spec_toks_of(toks@));
    Ok(toks)
}

/// Whether a token is an identifier matching a lowercase keyword,
/// ignoring ASCII case.
fn tok_is_kw(t: &Token, kw: &str) -> (r: bool)
    ensures
        r == spec_tok_kw(spec_tok_of(*t), kw@),
{
    match t {
        Token::Ident(s) => str_ieq(s.as_str(), kw),
        _ => false,
    }
}

/// Take the identifier a token holds, if it is one.
fn tok_ident(t: &Token) -> (r: Option<&String>)
    ensures
        r is Some <==> spec_tok_of(*t) is Ident,
        (r matches Some(s) ==> spec_tok_of(*t) == SpecToken::Ident(s@)),
{
    match t {
        Token::Ident(s) => Some(s),
        _ => None,
    }
}

/// The partition-key column names of a column list, in declaration order.
pub open spec fn spec_pk_names(cols: Seq<ColumnMetadata>) -> Seq<Seq<char>>
    decreases cols.len(),
{
    if cols.len() == 0 {
        Seq::<Seq<char>>::empty()
    } else {
        (if cols[0].kind == Kind::PartitionKey {
            seq![cols[0].name@]
        } else {
            Seq::<Seq<char>>::empty()
        }) + spec_pk_names(cols.drop_first())
    }
}

/// Appending a column appends its name to the partition keys exactly when
/// it is one.
proof fn lemma_pk_names_push(cols: Seq<ColumnMetadata>, c: ColumnMetadata)
    ensures
        spec_pk_names(cols.push(c)) == spec_pk_names(cols) + (if c.kind == Kind::PartitionKey {
            seq![c.name@]
        } else {
            Seq::<Seq<char>>::empty()
        }),
    decreases cols.len(),
{
    if cols.len() == 0 {
        assert(cols.push(c).drop_first() =~= cols);
        assert(spec_pk_names(cols.push(c)) =~= spec_pk_names(cols) + (if c.kind
            == Kind::PartitionKey {
            seq![c.name@]
        } else {
            Seq::<Seq<char>>::empty()
        }));
    } else {
        assert(cols.push(c).drop_first() =~= cols.drop_first().push(c));
        lemma_pk_names_push(cols.drop_first(), c);
        assert(spec_pk_names(cols.push(c)) =~= spec_pk_names(cols) + (if c.kind
            == Kind::PartitionKey {
            seq![c.name@]
        } else {
            Seq::<Seq<char>>::empty()
        }));
    }
}

/// A freshly created table is well formed: unique column names, only
/// partition-key and regular columns, no clustering keys, and a
/// partition-key list that names exactly the partition-key columns in
/// declaration order.
pub open spec fn spec_create_wf(t: TableMetadata) -> bool {
    &&& t.wf()
    &&& t.cluster_key@.len() == 0
    &&& t.partition_key@.map_values(|s: String| s@) == spec_pk_names(t.columns@)
    &&& forall|i: int|
        0 <= i < t.columns@.len() ==> (#[trigger] t.columns@[i]).kind == Kind::PartitionKey || (
        #[trigger] t.columns@[i]).kind == Kind::Regular
}

/// A planned insert is well formed against the catalog: its table is the
/// stored one, each named column exists in it, and each value is a typed
/// literal matching its column's type.
pub open spec fn spec_insert_wf(pi: ParsedInsert, ts: Seq<TableMetadata>) -> bool {
    &&& spec_table_in(ts, pi.table)
    &&& pi.columns@.len() == pi.values@.len()
    &&& forall|i: int|
        0 <= i < pi.columns@.len() ==> {
            let f = spec_find_column(pi.table.columns@, (#[trigger] pi.columns@[i])@);
            &&& f is Some
            &&& (pi.values@[i] matches ParsedExpr::Literal(ov) && (ov matches Some(v) ==> v.wf()
                && v.spec_column_type() == pi.table.columns@[f->Some_0].column_type))
        }
}

/// A planned select is well formed against the catalog: its table is the
/// stored one, the projection resolves every column in the table with its
/// stored metadata, the column count matches the projection, and at most
/// one partition-key prefix is recorded.
pub open spec fn spec_select_wf(q: ParsedQuery, ts: Seq<TableMetadata>) -> bool {
    &&& spec_table_in(ts, q.table)
    &&& q.column_count == q.projection@.len()
    &&& q.clustering_key@.len() == 0
    &&& q.partition_key@.len() <= 1
    &&& forall|i: int|
        0 <= i < q.projection@.len() ==> (#[trigger] q.projection@[i]
            matches ParsedExpr::Column(pc) && (spec_find_column(q.table.columns@, pc.target_column@)
            matches Some(j) && pc.column_metadata == q.table.columns@[j]))
}

/// The column definitions a CREATE TABLE statement's tokens spell out,
/// starting at `i`: each a name, a resolved type, and its key kind, with
/// the position after the closing parenthesis. Nothing when the form or a
/// type name is wrong.
pub open spec fn spec_parse_coldefs(ts: Seq<SpecToken>, i: int) -> Option<
    (Seq<(Seq<char>, ColumnType, Kind)>, int),
>
    decreases ts.len() - i,
    when 0 <= i
{
    if i < ts.len() && ts[i] is Ident && i + 1 < ts.len() && ts[i + 1] is Ident {
        let name = ts[i]->Ident_0;
        match ColumnType::spec_from_cql_type(ts[i + 1]->Ident_0) {
            None => None,
            Some(ct) => {
                let primary = i + 2 < ts.len() && spec_tok_kw(ts[i + 2], "primary"@);
                if primary && !(i + 3 < ts.len() && spec_tok_kw(ts[i + 3], "key"@)) {
                    None
                } else {
                    let kind = if primary {
                        Kind::PartitionKey
                    } else {
                        Kind::Regular
                    };
                    let j = if primary {
                        i + 4
                    } else {
                        i + 2
                    };
                    let def = (name, ct, kind);
                    if j < ts.len() && ts[j] is Comma {
                        match spec_parse_coldefs(ts, j + 1) {
                            None => None,
                            Some((rest, end)) => Some((seq![def] + rest, end)),
                        }
                    } else if j < ts.len() && ts[j] is RParen {
                        Some((seq![def], j + 1))
                    } else {
                        None
                    }
                }
            },
        }
    } else {
        None
    }
}

/// The table name and column definitions a CREATE TABLE statement's
/// tokens spell out, with the position after the closing parenthesis.
pub open spec fn spec_parse_create(ts: Seq<SpecToken>) -> Option<
    ((Seq<char>, Seq<(Seq<char>, ColumnType, Kind)>), int),
> {
    if ts.len() >= 4 && spec_tok_kw(ts[0], "create"@) && spec_tok_kw(ts[1], "table"@) && ts[2]
        is Ident && ts[3] is LParen {
        match spec_parse_coldefs(ts, 4) {
            None => None,
            Some((defs, end)) => Some(((ts[2]->Ident_0, defs), end)),
        }
    } else {
        None
    }
}

/// Replace the first column of the same name, or append.
pub open spec fn spec_upsert_col(
    cols: Seq<(Seq<char>, ColumnType, Kind)>,
    c: (Seq<char>, ColumnType, Kind),
) -> Seq<(Seq<char>, ColumnType, Kind)>
    decreases cols.len(),
{
    if cols.len() == 0 {
        seq![c]
    } else if cols[0].0 == c.0 {
        seq![c] + cols.drop_first()
    } else {
        seq![cols[0]] + spec_upsert_col(cols.drop_first(), c)
    }
}

/// The column list a definition list denotes: each definition inserted in
/// order, the last definition of a name winning in place.
pub open spec fn spec_dedup_cols(defs: Seq<(Seq<char>, ColumnType, Kind)>) -> Seq<
    (Seq<char>, ColumnType, Kind),
>
    decreases defs.len(),
{
    if defs.len() == 0 {
        Seq::<(Seq<char>, ColumnType, Kind)>::empty()
    } else {
        spec_upsert_col(spec_dedup_cols(defs.drop_last()), defs.last())
    }
}

/// A created table carries a CREATE statement's name and exactly the
/// columns its definitions denote.
pub open spec fn spec_create_matches(
    t: TableMetadata,
    name: Seq<char>,
    defs: Seq<(Seq<char>, ColumnType, Kind)>,
) -> bool {
    &&& t.name@ == name
    &&& spec_cols_view(t.columns@) == spec_dedup_cols(defs)
}

/// Replacing at the first occurrence is what the upsert denotes.
proof fn lemma_upsert_at(
    views: Seq<(Seq<char>, ColumnType, Kind)>,
    cv: (Seq<char>, ColumnType, Kind),
    k: int,
)
    requires
        0 <= k < views.len(),
        views[k].0 == cv.0,
        forall|j: int| 0 <= j < k ==> (#[trigger] views[j]).0 != cv.0,
    ensures
        spec_upsert_col(views, cv) == views.update(k, cv),
    decreases k,
{
    if k == 0 {
        assert(spec_upsert_col(views, cv) =~= views.update(0, cv));
    } else {
        assert(forall|j: int|
            0 <= j < views.drop_first().len() ==> views.drop_first()[j] == views[j + 1]);
        lemma_upsert_at(views.drop_first(), cv, k - 1);
        assert(spec_upsert_col(views, cv) =~= views.update(k, cv));
    }
}

/// Appending when no name matches is what the upsert denotes.
proof fn lemma_upsert_push(views: Seq<(Seq<char>, ColumnType, Kind)>, cv: (Seq<char>, ColumnType, Kind))
    requires
        forall|j: int| 0 <= j < views.len() ==> (#[trigger] views[j]).0 != cv.0,
    ensures
        spec_upsert_col(views, cv) == views.push(cv),
    decreases views.len(),
{
    if views.len() == 0 {
        assert(spec_upsert_col(views, cv) =~= views.push(cv));
    } else {
        assert(forall|j: int|
            0 <= j < views.drop_first().len() ==> views.drop_first()[j] == views[j + 1]);
        lemma_upsert_push(views.drop_first(), cv);
        assert(spec_upsert_col(views, cv) =~= views.push(cv));
    }
}

/// Taking one more definition applies one more upsert.
proof fn lemma_dedup_push(defs: Seq<(Seq<char>, ColumnType, Kind)>, d: (Seq<char>, ColumnType, Kind))
    ensures
        spec_dedup_cols(defs.push(d)) == spec_upsert_col(spec_dedup_cols(defs), d),
{
    assert(defs.push(d).drop_last() =~= defs);
    assert(defs.push(d).last() == d);
}

/// Insert a column definition, replacing an earlier one with the same
/// name in place, as the last definition wins.
fn upsert_column(cols: &mut Vec<ColumnMetadata>, c: ColumnMetadata)
    requires
        forall|i: int, j: int|
            0 <= i < j < old(cols)@.len() ==> (#[trigger] old(cols)@[i]).name@ != (
            #[trigger] old(cols)@[j]).name@,
    ensures
        forall|i: int, j: int|
            0 <= i < j < final(cols)@.len() ==> (#[trigger] final(cols)@[i]).name@ != (
            #[trigger] final(cols)@[j]).name@,
        forall|i: int|
            0 <= i < final(cols)@.len() ==> (#[trigger] final(cols)@[i]) == c || old(
                cols,
            )@.contains(final(cols)@[i]),
        spec_cols_view(final(cols)@) == spec_upsert_col(
            spec_cols_view(old(cols)@),
            spec_col_view(c),
        ),
{
    let mut i: usize = 0;
    while i < cols.len()
        invariant
            i <= cols@.len(),
            cols@ == old(cols)@,
            forall|x: int, y: int|
                0 <= x < y < cols@.len() ==> (#[trigger] cols@[x]).name@ != (
                #[trigger] cols@[y]).name@,
            forall|j: int| 0 <= j < i ==> (#[trigger] cols@[j]).name@ != c.name@,
        decreases cols@.len() - i,
    {
        if cols[i].name.eq(&c.name) {
            let ghost cname = c.name@;
            let ghost cv = spec_col_view(c);
            cols.set(i, c);
            assert(forall|j: int|
                0 <= j < cols@.len() && j != i ==> cols@[j] == old(cols)@[j] && old(
                    cols,
                )@.contains(old(cols)@[j]));
            assert(cols@[i as int].name@ == old(cols)@[i as int].name@);
            assert(forall|x: int, y: int|
                0 <= x < y < cols@.len() ==> (#[trigger] cols@[x]).name@ != (
                #[trigger] cols@[y]).name@) by {
                assert(forall|x: int|
                    0 <= x < cols@.len() && x != i ==> (#[trigger] cols@[x]) == old(cols)@[x]);
            }
            proof {
                assert(forall|j: int|
                    0 <= j < i ==> (#[trigger] spec_cols_view(old(cols)@)[j]).0 == old(
                        cols,
                    )@[j].name@);
                lemma_upsert_at(spec_cols_view(old(cols)@), cv, i as int);
                assert(spec_cols_view(cols@) =~= spec_cols_view(old(cols)@).update(i as int, cv));
            }
            return ;
        }
        i = i + 1;
    }
    let ghost cv = spec_col_view(c);
    cols.push(c);
    assert(forall|j: int|
        0 <= j < old(cols)@.len() ==> cols@[j] == old(cols)@[j] && old(cols)@.contains(
            old(cols)@[j],
        ));
    proof {
        assert(forall|j: int|
            0 <= j < old(cols)@.len() ==> (#[trigger] spec_cols_view(old(cols)@)[j]).0 == old(
                cols,
            )@[j].name@);
        lemma_upsert_push(spec_cols_view(old(cols)@), cv);
        assert(spec_cols_view(cols@) =~= spec_cols_view(old(cols)@).push(cv));
    }
}

/// Parse `CREATE TABLE name (col type [PRIMARY KEY], …)`: the produced
/// table carries the written name and exactly the columns the statement's
/// definitions denote, in order, the last definition of a name winning; a
/// column marked `PRIMARY KEY` becomes the sole partition key. It
/// succeeds exactly when the tokens spell the form out.
#[verifier::rlimit(100)]
fn parse_create_table(toks: &Vec<Token>) -> (r: Result<(TableMetadata, usize), DbError>)
    ensures
        r is Ok <==> spec_parse_create(spec_toks_of(toks@)) is Some,
        (r matches Ok((t, used)) ==> (spec_parse_create(spec_toks_of(toks@)) matches Some(
            (m, end),
        ) && used == end && spec_create_matches(t, m.0, m.1) && spec_create_wf(t))),
        (r matches Err(e) ==> e.code == ErrorCode::Invalid),
{
    let ghost ts = spec_toks_of(toks@);
    assert(forall|k: int| 0 <= k < toks@.len() ==> ts[k] == spec_tok_of(#[trigger] toks@[k]));
    let mut pos: usize = 0;
    if !(pos < toks.len() && tok_is_kw(&toks[pos], "create")) {
        return Err(invalid("expected CREATE"));
    }
    pos = pos + 1;
    if !(pos < toks.len() && tok_is_kw(&toks[pos], "table")) {
        return Err(invalid("expected TABLE"));
    }
    pos = pos + 1;
    let name: String = if pos < toks.len() {
        match tok_ident(&toks[pos]) {
            Some(s) => s.clone(),
            None => {
                return Err(invalid("expected table name"));
            },
        }
    } else {
        return Err(invalid("expected table name"));
    };
    pos = pos + 1;
    if !(pos < toks.len() && (toks[pos] matches Token::LParen)) {
        return Err(invalid("expected column list"));
    }
    pos = pos + 1;
    assert(ts.len() >= 4 && spec_tok_kw(ts[0], "create"@) && spec_tok_kw(ts[1], "table"@) && ts[2]
        is Ident && ts[3] is LParen && name@ == ts[2]->Ident_0);
    let mut columns: Vec<ColumnMetadata> = Vec::new();
    let ghost defs = Seq::<(Seq<char>, ColumnType, Kind)>::empty();
    assert(spec_cols_view(columns@) =~= spec_dedup_cols(defs));
    proof {
        let rp = spec_parse_coldefs(ts, 4);
        if rp is Some {
            assert(defs + rp->Some_0.0 =~= rp->Some_0.0);
        }
    }
    loop
        invariant_except_break
            spec_parse_coldefs(ts, 4) is Some <==> spec_parse_coldefs(ts, pos as int) is Some,
            (spec_parse_coldefs(ts, pos as int) matches Some((rest, end))
                ==> spec_parse_coldefs(ts, 4) == Some((defs + rest, end))),
        invariant
            ts == spec_toks_of(toks@),
            ts.len() == toks@.len(),
            ts.len() >= 4,
            spec_tok_kw(ts[0], "create"@),
            spec_tok_kw(ts[1], "table"@),
            ts[2] is Ident,
            ts[3] is LParen,
            name@ == ts[2]->Ident_0,
            4 <= pos <= toks@.len(),
            spec_cols_view(columns@) == spec_dedup_cols(defs),
            forall|x: int, y: int|
                0 <= x < y < columns@.len() ==> (#[trigger] columns@[x]).name@ != (
                #[trigger] columns@[y]).name@,
            forall|x: int|
                0 <= x < columns@.len() ==> (#[trigger] columns@[x]).kind == Kind::PartitionKey
                    || (#[trigger] columns@[x]).kind == Kind::Regular,
        ensures
            spec_parse_coldefs(ts, 4) == Some((defs, pos as int)),
        decreases toks@.len() - pos,
    {
        let ghost p0 = pos as int;
        let ghost defs0 = defs;
        let col_name: String = if pos < toks.len() {
            match tok_ident(&toks[pos]) {
                Some(s) => s.clone(),
                None => {
                    assert(spec_parse_coldefs(ts, p0) is None);
                    return Err(invalid("expected column name"));
                },
            }
        } else {
            assert(spec_parse_coldefs(ts, p0) is None);
            return Err(invalid("expected column name"));
        };
        pos = pos + 1;
        let cql_type: String = if pos < toks.len() {
            match tok_ident(&toks[pos]) {
                Some(s) => s.clone(),
                None => {
                    assert(spec_parse_coldefs(ts, p0) is None);
                    return Err(invalid("expected column type"));
                },
            }
        } else {
            assert(spec_parse_coldefs(ts, p0) is None);
            return Err(invalid("expected column type"));
        };
        pos = pos + 1;
        let column_type = match ColumnType::from_cql_type(cql_type) {
            Some(t) => t,
            None => {
                assert(spec_parse_coldefs(ts, p0) is None);
                return Err(invalid("unknown column type"));
            },
        };
        let kind = if pos < toks.len() && tok_is_kw(&toks[pos], "primary") {
            pos = pos + 1;
            if !(pos < toks.len() && tok_is_kw(&toks[pos], "key")) {
                assert(spec_parse_coldefs(ts, p0) is None);
                return Err(invalid("expected KEY after PRIMARY"));
            }
            pos = pos + 1;
            Kind::PartitionKey
        } else {
            Kind::Regular
        };
        let ghost def = (col_name@, column_type, kind);
        let ghost cols_before = columns@;
        let c = ColumnMetadata { name: col_name, column_type, kind };
        proof {
            assert(spec_col_view(c) == def);
        }
        upsert_column(&mut columns, c);
        proof {
            defs = defs0.push(def);
            lemma_dedup_push(defs0, def);
        }
        if pos < toks.len() && (toks[pos] matches Token::Comma) {
            pos = pos + 1;
            proof {
                let rp = spec_parse_coldefs(ts, pos as int);
                assert(spec_parse_coldefs(ts, p0) is Some <==> rp is Some);
                if rp is Some {
                    let rest = rp->Some_0.0;
                    assert(spec_parse_coldefs(ts, p0) == Some(
                        (seq![def] + rest, rp->Some_0.1),
                    ));
                    assert(defs0 + (seq![def] + rest) =~= defs + rest);
                }
            }
        } else if pos < toks.len() && (toks[pos] matches Token::RParen) {
            pos = pos + 1;
            proof {
                assert(spec_parse_coldefs(ts, p0) == Some((seq![def], pos as int)));
                assert(defs0 + seq![def] =~= defs);
            }
            break ;
        } else {
            assert(spec_parse_coldefs(ts, p0) is None);
            return Err(invalid("expected , or ) in column list"));
        }
    }
    let mut partition_key: Vec<String> = Vec::new();
    let mut i: usize = 0;
    assert(partition_key@.map_values(|s: String| s@) =~= spec_pk_names(columns@.take(0)));
    while i < columns.len()
        invariant
            i <= columns@.len(),
            partition_key@.map_values(|s: String| s@) == spec_pk_names(columns@.take(i as int)),
        decreases columns@.len() - i,
    {
        let ghost pk_before = partition_key@;
        if matches!(&columns[i].kind, Kind::PartitionKey) {
            partition_key.push(columns[i].name.clone());
        }
        proof {
            lemma_pk_names_push(columns@.take(i as int), columns@[i as int]);
            assert(columns@.take(i + 1) =~= columns@.take(i as int).push(columns@[i as int]));
            assert(partition_key@.map_values(|s: String| s@) =~= spec_pk_names(
                columns@.take(i + 1),
            ));
        }
        i = i + 1;
    }
    assert(columns@.take(columns@.len() as int) =~= columns@);
    let table = TableMetadata { name, partition_key, cluster_key: Vec::new(), columns };
    Ok((table, pos))
}

/// Parse a literal token: a number, a quoted string, `true`, `false`, or
/// `NULL`.
fn parse_literal(t: &Token) -> (r: Result<Literal, DbError>)
    ensures
        r is Ok <==> spec_lit_of_token(spec_tok_of(*t)) is Some,
        (r matches Ok(l) ==> spec_lit_of_token(spec_tok_of(*t)) == Some(spec_lit_of(l))),
        (r matches Err(e) ==> e.code == ErrorCode::Invalid),
{
    match t {
        Token::Number(s) => Ok(Literal::Number(s.clone())),
        Token::Text(s) => Ok(Literal::Text(s.clone())),
        Token::Ident(s) => {
            if str_ieq(s.as_str(), "true") {
                Ok(Literal::Boolean(true))
            } else if str_ieq(s.as_str(), "false") {
                Ok(Literal::Boolean(false))
            } else if str_ieq(s.as_str(), "null") {
                Ok(Literal::Null)
            } else {
                Err(invalid("unsupported value expression"))
            }
        },
        _ => Err(invalid("unsupported value expression")),
    }
}

/// The identifiers a parenthesized, comma-separated list spells out,
/// starting at `i`, with the position after the closing parenthesis.
pub open spec fn spec_parse_ident_list(ts: Seq<SpecToken>, i: int) -> Option<(Seq<Seq<char>>, int)>
    decreases ts.len() - i,
    when 0 <= i
{
    if i < ts.len() && ts[i] is Ident {
        let name = ts[i]->Ident_0;
        if i + 1 < ts.len() && ts[i + 1] is Comma {
            match spec_parse_ident_list(ts, i + 2) {
                None => None,
                Some((rest, end)) => Some((seq![name] + rest, end)),
            }
        } else if i + 1 < ts.len() && ts[i + 1] is RParen {
            Some((seq![name], i + 2))
        } else {
            None
        }
    } else {
        None
    }
}

/// The literals a parenthesized, comma-separated list spells out,
/// starting at `i`, with the position after the closing parenthesis.
pub open spec fn spec_parse_lit_list(ts: Seq<SpecToken>, i: int) -> Option<(Seq<SpecLit>, int)>
    decreases ts.len() - i,
    when 0 <= i
{
    if i < ts.len() && spec_lit_of_token(ts[i]) is Some {
        let l = spec_lit_of_token(ts[i])->Some_0;
        if i + 1 < ts.len() && ts[i + 1] is Comma {
            match spec_parse_lit_list(ts, i + 2) {
                None => None,
                Some((rest, end)) => Some((seq![l] + rest, end)),
            }
        } else if i + 1 < ts.len() && ts[i + 1] is RParen {
            Some((seq![l], i + 2))
        } else {
            None
        }
    } else {
        None
    }
}

/// The table name, named columns, and literals an INSERT statement's
/// tokens spell out, with the position after the value list.
pub open spec fn spec_parse_insert(ts: Seq<SpecToken>) -> Option<
    ((Seq<char>, Seq<Seq<char>>, Seq<SpecLit>), int),
> {
    if ts.len() >= 4 && spec_tok_kw(ts[0], "insert"@) && spec_tok_kw(ts[1], "into"@) && ts[2]
        is Ident && ts[3] is LParen {
        match spec_parse_ident_list(ts, 4) {
            None => None,
            Some((cols, p)) => if p < ts.len() && spec_tok_kw(ts[p], "values"@) && p + 1 < ts.len()
                && ts[p + 1] is LParen {
                match spec_parse_lit_list(ts, p + 2) {
                    None => None,
                    Some((lits, end)) => Some(((ts[2]->Ident_0, cols, lits), end)),
                }
            } else {
                None
            },
        }
    } else {
        None
    }
}

/// Whether an INSERT's parts lower against the catalog: the table exists,
/// a literal is written for every named column, each named column exists,
/// and each literal types against its column.
pub open spec fn spec_insert_ok(
    name: Seq<char>,
    cols: Seq<Seq<char>>,
    lits: Seq<SpecLit>,
    cat: Seq<TableMetadata>,
) -> bool {
    &&& crate::schema::spec_lookup_table(cat, name) is Some
    &&& cols.len() <= lits.len()
    &&& forall|i: int|
        0 <= i < cols.len() ==> {
            let t = crate::schema::spec_lookup_table(cat, name)->Some_0;
            let f = spec_find_column(t.columns@, #[trigger] cols[i]);
            f is Some && spec_lit_types(lits[i], t.columns@[f->Some_0].column_type)
        }
}

/// The key texts an insert records for columns of the given kind: the
/// literal texts of the named columns of that kind, in statement order.
pub open spec fn spec_key_texts_upto(
    t: TableMetadata,
    cols: Seq<Seq<char>>,
    lits: Seq<SpecLit>,
    k: Kind,
    n: int,
) -> Seq<Seq<char>>
    decreases n,
{
    if n <= 0 {
        Seq::<Seq<char>>::empty()
    } else {
        let prev = spec_key_texts_upto(t, cols, lits, k, n - 1);
        match spec_find_column(t.columns@, cols[n - 1]) {
            Some(j) => if t.columns@[j].kind == k {
                prev.push(spec_lit_text(lits[n - 1]))
            } else {
                prev
            },
            None => prev,
        }
    }
}

/// A planned insert carries an INSERT statement's parts: its table is the
/// catalog's entry under the written name, its columns and typed values
/// are the written ones in order, and its key texts are the key columns'
/// literal texts.
pub open spec fn spec_insert_matches(
    pi: ParsedInsert,
    name: Seq<char>,
    cols: Seq<Seq<char>>,
    lits: Seq<SpecLit>,
    cat: Seq<TableMetadata>,
) -> bool {
    &&& (crate::schema::spec_lookup_table(cat, name) matches Some(t)
        && crate::schema::table_eqv(pi.table, t))
    &&& pi.columns@.map_values(|s: String| s@) == cols
    &&& pi.values@.len() == cols.len()
    &&& (forall|i: int|
        0 <= i < cols.len() ==> (#[trigger] pi.values@[i] matches ParsedExpr::Literal(ov) && {
            let t = crate::schema::spec_lookup_table(cat, name)->Some_0;
            let f = spec_find_column(t.columns@, cols[i]);
            f is Some && spec_lit_value(ov, lits[i], t.columns@[f->Some_0].column_type)
        }))
    &&& pi.partition_key@.map_values(|s: String| s@) == spec_key_texts_upto(
        crate::schema::spec_lookup_table(cat, name)->Some_0,
        cols,
        lits,
        Kind::PartitionKey,
        cols.len() as int,
    )
    &&& pi.clustering_key@.map_values(|s: String| s@) == spec_key_texts_upto(
        crate::schema::spec_lookup_table(cat, name)->Some_0,
        cols,
        lits,
        Kind::Clustering,
        cols.len() as int,
    )
}

/// Look a table up in the catalog and copy its metadata; it succeeds
/// exactly when the name is in the catalog.
fn derive_table_metadata(tables: &Tables, name: &String) -> (r: Result<TableMetadata, DbError>)
    ensures
        r is Ok <==> crate::schema::spec_lookup_table(tables.tables@, name@) is Some,
        (r matches Ok(t) ==> t.name@ == name@ && spec_table_in(tables.tables@, t)
            && crate::schema::table_eqv(
            t,
            crate::schema::spec_lookup_table(tables.tables@, name@)->Some_0,
        )),
        (r matches Err(e) ==> e.code == ErrorCode::Invalid),
{
    match tables.get(name) {
        None => Err(invalid("Table not found")),
        Some(t) => {
            proof {
                broadcast use crate::schema::lemma_find_table;

            }
            let copy = t.duplicate();
            assert(t.name@ == name@);
            assert(copy.name@ == name@);
            Ok(copy)
        },
    }
}

/// Parse `INSERT INTO name (cols) VALUES (lits)`: the plan's table is
/// the catalog's entry under the written name, its columns and typed
/// values are the written ones in order, and the key columns' literal
/// texts are recorded for key construction. It succeeds exactly when the
/// tokens spell the form out and every part lowers against the catalog.
#[verifier::rlimit(100)]
fn parse_insert(toks: &Vec<Token>, tables: &Tables) -> (r: Result<(ParsedInsert, usize), DbError>)
    ensures
        r is Ok <==> (spec_parse_insert(spec_toks_of(toks@)) matches Some((m, _))
            && spec_insert_ok(m.0, m.1, m.2, tables.tables@)),
        (r matches Ok((pi, used)) ==> (spec_parse_insert(spec_toks_of(toks@)) matches Some(
            (m, end),
        ) && used == end && spec_insert_matches(pi, m.0, m.1, m.2, tables.tables@)
            && spec_insert_wf(pi, tables.tables@))),
        (r matches Err(e) ==> e.code == ErrorCode::Invalid),
{
    let ghost ts = spec_toks_of(toks@);
    assert(forall|k: int| 0 <= k < toks@.len() ==> ts[k] == spec_tok_of(#[trigger] toks@[k]));
    let mut pos: usize = 0;
    if !(pos < toks.len() && tok_is_kw(&toks[pos], "insert")) {
        return Err(invalid("expected INSERT"));
    }
    pos = pos + 1;
    if !(pos < toks.len() && tok_is_kw(&toks[pos], "into")) {
        return Err(invalid("expected INTO"));
    }
    pos = pos + 1;
    let table_name: String = if pos < toks.len() {
        match tok_ident(&toks[pos]) {
            Some(s) => s.clone(),
            None => {
                return Err(invalid("expected table name"));
            },
        }
    } else {
        return Err(invalid("expected table name"));
    };
    pos = pos + 1;
    if !(pos < toks.len() && (toks[pos] matches Token::LParen)) {
        return Err(invalid("expected column list"));
    }
    pos = pos + 1;
    assert(ts.len() >= 4 && spec_tok_kw(ts[0], "insert"@) && spec_tok_kw(ts[1], "into"@) && ts[2]
        is Ident && ts[3] is LParen && table_name@ == ts[2]->Ident_0);
    let table = match derive_table_metadata(tables, &table_name) {
        Ok(t) => t,
        Err(e) => {
            return Err(e);
        },
    };
    let mut columns: Vec<String> = Vec::new();
    let ghost cols_model = Seq::<Seq<char>>::empty();
    proof {
        let rp = spec_parse_ident_list(ts, 4);
        if rp is Some {
            assert(cols_model + rp->Some_0.0 =~= rp->Some_0.0);
        }
        assert(columns@.map_values(|s: String| s@) =~= cols_model);
    }
    loop
        invariant_except_break
            spec_parse_ident_list(ts, 4) is Some <==> spec_parse_ident_list(
                ts,
                pos as int,
            ) is Some,
            (spec_parse_ident_list(ts, pos as int) matches Some((rest, end))
                ==> spec_parse_ident_list(ts, 4) == Some((cols_model + rest, end))),
        invariant
            ts == spec_toks_of(toks@),
            ts.len() == toks@.len(),
            ts.len() >= 4,
            spec_tok_kw(ts[0], "insert"@),
            spec_tok_kw(ts[1], "into"@),
            ts[2] is Ident,
            ts[3] is LParen,
            table_name@ == ts[2]->Ident_0,
            4 <= pos <= toks@.len(),
            columns@.map_values(|s: String| s@) == cols_model,
        ensures
            spec_parse_ident_list(ts, 4) == Some((cols_model, pos as int)),
        decreases toks@.len() - pos,
    {
        let ghost p0 = pos as int;
        let ghost cols0 = cols_model;
        let col: String = if pos < toks.len() {
            match tok_ident(&toks[pos]) {
                Some(s) => s.clone(),
                None => {
                    assert(spec_parse_ident_list(ts, p0) is None);
                    return Err(invalid("expected column name"));
                },
            }
        } else {
            assert(spec_parse_ident_list(ts, p0) is None);
            return Err(invalid("expected column name"));
        };
        pos = pos + 1;
        let ghost cv = col@;
        columns.push(col);
        proof {
            cols_model = cols0.push(cv);
            assert(columns@.map_values(|s: String| s@) =~= cols_model);
        }
        if pos < toks.len() && (toks[pos] matches Token::Comma) {
            pos = pos + 1;
            proof {
                let rp = spec_parse_ident_list(ts, pos as int);
                assert(spec_parse_ident_list(ts, p0) is Some <==> rp is Some);
                if rp is Some {
                    let rest = rp->Some_0.0;
                    assert(spec_parse_ident_list(ts, p0) == Some(
                        (seq![cv] + rest, rp->Some_0.1),
                    ));
                    assert(cols0 + (seq![cv] + rest) =~= cols_model + rest);
                }
            }
        } else if pos < toks.len() && (toks[pos] matches Token::RParen) {
            pos = pos + 1;
            proof {
                assert(spec_parse_ident_list(ts, p0) == Some((seq![cv], pos as int)));
                assert(cols0 + seq![cv] =~= cols_model);
            }
            break ;
        } else {
            assert(spec_parse_ident_list(ts, p0) is None);
            return Err(invalid("expected , or ) in column list"));
        }
    }
    let ghost cols_end = pos as int;
    assert(forall|k: int| 0 <= k < toks@.len() ==> ts[k] == spec_tok_of(#[trigger] toks@[k]));
    if !(pos < toks.len() && tok_is_kw(&toks[pos], "values")) {
        assert(spec_parse_insert(ts) is None);
        return Err(invalid("expected VALUES"));
    }
    assert(spec_tok_kw(ts[cols_end], "values"@));
    pos = pos + 1;
    if !(pos < toks.len() && (toks[pos] matches Token::LParen)) {
        assert(spec_parse_insert(ts) is None);
        return Err(invalid("expected value list"));
    }
    assert(ts[cols_end + 1] is LParen);
    pos = pos + 1;
    let mut literals: Vec<Literal> = Vec::new();
    let ghost lits_model = Seq::<SpecLit>::empty();
    let ghost lits_start = pos as int;
    proof {
        let rp = spec_parse_lit_list(ts, lits_start);
        if rp is Some {
            assert(lits_model + rp->Some_0.0 =~= rp->Some_0.0);
        }
        assert(literals@.map_values(|l: Literal| spec_lit_of(l)) =~= lits_model);
    }
    loop
        invariant_except_break
            spec_parse_lit_list(ts, lits_start) is Some <==> spec_parse_lit_list(
                ts,
                pos as int,
            ) is Some,
            (spec_parse_lit_list(ts, pos as int) matches Some((rest, end))
                ==> spec_parse_lit_list(ts, lits_start) == Some((lits_model + rest, end))),
        invariant
            ts == spec_toks_of(toks@),
            ts.len() == toks@.len(),
            ts.len() >= 4,
            spec_tok_kw(ts[0], "insert"@),
            spec_tok_kw(ts[1], "into"@),
            ts[2] is Ident,
            ts[3] is LParen,
            table_name@ == ts[2]->Ident_0,
            spec_parse_ident_list(ts, 4) == Some((cols_model, cols_end)),
            0 <= cols_end < ts.len(),
            spec_tok_kw(ts[cols_end], "values"@),
            cols_end + 1 < ts.len(),
            ts[cols_end + 1] is LParen,
            lits_start == cols_end + 2,
            0 <= lits_start <= pos <= toks@.len(),
            literals@.map_values(|l: Literal| spec_lit_of(l)) == lits_model,
        ensures
            spec_parse_lit_list(ts, lits_start) == Some((lits_model, pos as int)),
        decreases toks@.len() - pos,
    {
        let ghost p0 = pos as int;
        let ghost lits0 = lits_model;
        let lit: Literal = if pos < toks.len() {
            match parse_literal(&toks[pos]) {
                Ok(l) => l,
                Err(e) => {
                    assert(spec_parse_lit_list(ts, p0) is None);
                    return Err(e);
                },
            }
        } else {
            assert(spec_parse_lit_list(ts, p0) is None);
            return Err(invalid("expected value"));
        };
        pos = pos + 1;
        let ghost lv = spec_lit_of(lit);
        literals.push(lit);
        proof {
            lits_model = lits0.push(lv);
            assert(literals@.map_values(|l: Literal| spec_lit_of(l)) =~= lits_model);
        }
        if pos < toks.len() && (toks[pos] matches Token::Comma) {
            pos = pos + 1;
            proof {
                let rp = spec_parse_lit_list(ts, pos as int);
                assert(spec_parse_lit_list(ts, p0) is Some <==> rp is Some);
                if rp is Some {
                    let rest = rp->Some_0.0;
                    assert(spec_parse_lit_list(ts, p0) == Some((seq![lv] + rest, rp->Some_0.1)));
                    assert(lits0 + (seq![lv] + rest) =~= lits_model + rest);
                }
            }
        } else if pos < toks.len() && (toks[pos] matches Token::RParen) {
            pos = pos + 1;
            proof {
                assert(spec_parse_lit_list(ts, p0) == Some((seq![lv], pos as int)));
                assert(lits0 + seq![lv] =~= lits_model);
            }
            break ;
        } else {
            assert(spec_parse_lit_list(ts, p0) is None);
            return Err(invalid("expected , or ) in value list"));
        }
    }
    assert(spec_parse_insert(ts) == Some(
        ((table_name@, cols_model, lits_model), pos as int),
    ));
    let ghost stmt_end = pos as int;
    let ghost entry = crate::schema::spec_lookup_table(tables.tables@, table_name@)->Some_0;
    assert(crate::schema::table_eqv(table, entry));
    let mut partition_key: Vec<String> = Vec::new();
    let mut clustering_key: Vec<String> = Vec::new();
    let mut values: Vec<ParsedExpr> = Vec::new();
    let mut i: usize = 0;
    assert(partition_key@.map_values(|s: String| s@) =~= spec_key_texts_upto(
        entry,
        cols_model,
        lits_model,
        Kind::PartitionKey,
        0,
    ));
    assert(clustering_key@.map_values(|s: String| s@) =~= spec_key_texts_upto(
        entry,
        cols_model,
        lits_model,
        Kind::Clustering,
        0,
    ));
    while i < columns.len()
        invariant
            ts == spec_toks_of(toks@),
            i <= columns@.len(),
            values@.len() == i,
            spec_parse_insert(ts) == Some(((table_name@, cols_model, lits_model), stmt_end)),
            columns@.map_values(|s: String| s@) == cols_model,
            literals@.map_values(|l: Literal| spec_lit_of(l)) == lits_model,
            cols_model.len() == columns@.len(),
            lits_model.len() == literals@.len(),
            crate::schema::spec_lookup_table(tables.tables@, table_name@) matches Some(e2) && e2
                == entry,
            crate::schema::table_eqv(table, entry),
            forall|k: int|
                0 <= k < i ==> {
                    let f = spec_find_column(entry.columns@, #[trigger] cols_model[k]);
                    f is Some && spec_lit_types(lits_model[k], entry.columns@[f->Some_0].column_type)
                },
            forall|k: int|
                0 <= k < i ==> (#[trigger] values@[k] matches ParsedExpr::Literal(ov) && {
                    let f = spec_find_column(entry.columns@, cols_model[k]);
                    f is Some && spec_lit_value(
                        ov,
                        lits_model[k],
                        entry.columns@[f->Some_0].column_type,
                    )
                }),
            forall|k: int|
                0 <= k < i ==> (#[trigger] values@[k] matches ParsedExpr::Literal(ov) && (ov
                    matches Some(v) ==> v.wf())),
            i == 0 || i <= lits_model.len(),
            partition_key@.map_values(|s: String| s@) == spec_key_texts_upto(
                entry,
                cols_model,
                lits_model,
                Kind::PartitionKey,
                i as int,
            ),
            clustering_key@.map_values(|s: String| s@) == spec_key_texts_upto(
                entry,
                cols_model,
                lits_model,
                Kind::Clustering,
                i as int,
            ),
        decreases columns@.len() - i,
    {
        assert(cols_model[i as int] == columns@[i as int]@);
        let cm: ColumnMetadata = match table.get_column(&columns[i]) {
            Some(c) => clone_column(c),
            None => {
                assert(spec_find_column(entry.columns@, cols_model[i as int]) is None) by {
                    assert(table.columns@ == entry.columns@);
                }
                return Err(invalid("Column not found"));
            },
        };
        let ghost f = spec_find_column(entry.columns@, cols_model[i as int]);
        proof {
            assert(table.columns@ == entry.columns@);
            assert(f is Some && cm == entry.columns@[f->Some_0]);
        }
        if i >= literals.len() {
            assert(!(cols_model.len() <= lits_model.len()));
            return Err(invalid("Value not found"));
        }
        assert(lits_model[i as int] == spec_lit_of(literals@[i as int]));
        let ov = match Value::from_sql_value(cm.column_type, &literals[i]) {
            Ok(v) => v,
            Err(e) => {
                assert(!spec_lit_types(lits_model[i as int], cm.column_type));
                return Err(e);
            },
        };
        assert(spec_lit_types(lits_model[i as int], cm.column_type));
        assert(spec_lit_value(ov, lits_model[i as int], cm.column_type));
        let ghost pk0 = partition_key@;
        let ghost ck0 = clustering_key@;
        if matches!(&cm.kind, Kind::PartitionKey) {
            partition_key.push(literal_text(&literals[i]));
        } else if matches!(&cm.kind, Kind::Clustering) {
            clustering_key.push(literal_text(&literals[i]));
        }
        proof {
            lemma_literal_text_view(literals@[i as int]);
            assert(partition_key@.map_values(|s: String| s@) =~= spec_key_texts_upto(
                entry,
                cols_model,
                lits_model,
                Kind::PartitionKey,
                i + 1,
            ));
            assert(clustering_key@.map_values(|s: String| s@) =~= spec_key_texts_upto(
                entry,
                cols_model,
                lits_model,
                Kind::Clustering,
                i + 1,
            ));
        }
        values.push(ParsedExpr::Literal(ov));
        i = i + 1;
    }
    let pi = ParsedInsert { table, partition_key, clustering_key, columns, values };
    Ok((pi, pos))
}

/// The right side of a WHERE comparison: another column or a literal.
pub enum SpecRhs {
    Col(Seq<char>),
    Lit(SpecLit),
}

/// The projection items a SELECT statement's tokens spell out, starting
/// at `i`: each an identifier with an optional alias, or a `*`, with the
/// position after the last item.
pub open spec fn spec_parse_items(ts: Seq<SpecToken>, i: int) -> Option<
    (Seq<(Option<Seq<char>>, Option<Seq<char>>)>, int),
>
    decreases ts.len() - i,
    when 0 <= i
{
    if i < ts.len() && ts[i] is Star {
        spec_items_rest(ts, i + 1, (None, None))
    } else if i < ts.len() && ts[i] is Ident {
        let name = ts[i]->Ident_0;
        if i + 1 < ts.len() && spec_tok_kw(ts[i + 1], "as"@) {
            if i + 2 < ts.len() && ts[i + 2] is Ident {
                spec_items_rest(ts, i + 3, (Some(name), Some(ts[i + 2]->Ident_0)))
            } else {
                None
            }
        } else {
            spec_items_rest(ts, i + 1, (Some(name), None))
        }
    } else {
        None
    }
}

/// One parsed item, then the items that follow it after a comma.
pub open spec fn spec_items_rest(
    ts: Seq<SpecToken>,
    j: int,
    item: (Option<Seq<char>>, Option<Seq<char>>),
) -> Option<(Seq<(Option<Seq<char>>, Option<Seq<char>>)>, int)>
    decreases ts.len() - j, 1int,
    when 0 <= j
{
    if j < ts.len() && ts[j] is Comma {
        match spec_parse_items(ts, j + 1) {
            None => None,
            Some((rest, end)) => Some((seq![item] + rest, end)),
        }
    } else {
        Some((seq![item], j))
    }
}

/// The WHERE comparison a statement's tokens spell out, starting at `i`:
/// a column, a comparison token, and a column or literal, with the
/// position after it.
pub open spec fn spec_parse_where(ts: Seq<SpecToken>, i: int) -> Option<
    ((Seq<char>, SpecToken, SpecRhs), int),
> {
    if i < ts.len() && ts[i] is Ident && i + 1 < ts.len() && (ts[i + 1] is OpEq || ts[i + 1]
        is OpNeq || ts[i + 1] is OpLt || ts[i + 1] is OpGt || ts[i + 1] is OpLtEq || ts[i + 1]
        is OpGtEq) && i + 2 < ts.len() {
        let col = ts[i]->Ident_0;
        if ts[i + 2] is Ident {
            Some(((col, ts[i + 1], SpecRhs::Col(ts[i + 2]->Ident_0)), i + 3))
        } else {
            match spec_lit_of_token(ts[i + 2]) {
                None => None,
                Some(l) => Some(((col, ts[i + 1], SpecRhs::Lit(l)), i + 3)),
            }
        }
    } else {
        None
    }
}

/// The projection, table name, and optional WHERE comparison a SELECT
/// statement's tokens spell out, with the position after it.
pub open spec fn spec_parse_select(ts: Seq<SpecToken>) -> Option<
    (
        (
            Seq<(Option<Seq<char>>, Option<Seq<char>>)>,
            Seq<char>,
            Option<(Seq<char>, SpecToken, SpecRhs)>,
        ),
        int,
    ),
> {
    if ts.len() >= 1 && spec_tok_kw(ts[0], "select"@) {
        match spec_parse_items(ts, 1) {
            None => None,
            Some((items, p)) => if p < ts.len() && spec_tok_kw(ts[p], "from"@) && p + 1 < ts.len()
                && ts[p + 1] is Ident {
                let name = ts[p + 1]->Ident_0;
                if p + 2 < ts.len() && spec_tok_kw(ts[p + 2], "where"@) {
                    match spec_parse_where(ts, p + 3) {
                        None => None,
                        Some((wh, end)) => Some(((items, name, Some(wh)), end)),
                    }
                } else {
                    Some(((items, name, None), p + 2))
                }
            } else {
                None
            },
        }
    } else {
        None
    }
}

/// Whether a SELECT's parts lower against the catalog: the table exists,
/// every projected item is an identifier naming one of its columns with
/// the count in range, and a WHERE comparison names a column, uses an
/// implemented comparison, and compares against a column of the table or
/// a literal typing against the named column.
pub open spec fn spec_select_ok(
    items: Seq<(Option<Seq<char>>, Option<Seq<char>>)>,
    name: Seq<char>,
    wh: Option<(Seq<char>, SpecToken, SpecRhs)>,
    cat: Seq<TableMetadata>,
) -> bool {
    &&& crate::schema::spec_lookup_table(cat, name) is Some
    &&& items.len() <= i32::MAX
    &&& (forall|i: int|
        0 <= i < items.len() ==> (#[trigger] items[i]).0 is Some && spec_find_column(
            crate::schema::spec_lookup_table(cat, name)->Some_0.columns@,
            items[i].0->Some_0,
        ) is Some)
    &&& (wh matches Some((col, op, rhs)) ==> {
        let t = crate::schema::spec_lookup_table(cat, name)->Some_0;
        let f = spec_find_column(t.columns@, col);
        &&& f is Some
        &&& (op is OpEq || op is OpNeq)
        &&& match rhs {
            SpecRhs::Col(c2) => spec_find_column(t.columns@, c2) is Some,
            SpecRhs::Lit(l) => spec_lit_types(l, t.columns@[f->Some_0].column_type),
        }
    })
}

/// A resolved projected column carries the written target, the alias or
/// the target as its output name, and the catalog's metadata.
pub open spec fn spec_projected(
    e: ParsedExpr,
    item: (Option<Seq<char>>, Option<Seq<char>>),
    t: TableMetadata,
) -> bool {
    e matches ParsedExpr::Column(pc) && item.0 matches Some(n) && {
        &&& pc.target_column@ == n
        &&& pc.resolved_name@ == (match item.1 {
            Some(a) => a,
            None => n,
        })
        &&& spec_find_column(t.columns@, n) matches Some(j) && pc.column_metadata == t.columns@[j]
    }
}

/// A planned select carries a SELECT statement's parts: its table is the
/// catalog's entry under the written name, its projection resolves the
/// written items in order under their aliases, and a WHERE equality on a
/// partition-key column against a literal records that literal's text as
/// the partition-key prefix.
pub open spec fn spec_select_matches(
    q: ParsedQuery,
    items: Seq<(Option<Seq<char>>, Option<Seq<char>>)>,
    name: Seq<char>,
    wh: Option<(Seq<char>, SpecToken, SpecRhs)>,
    cat: Seq<TableMetadata>,
) -> bool {
    let t = crate::schema::spec_lookup_table(cat, name)->Some_0;
    &&& (crate::schema::spec_lookup_table(cat, name) matches Some(s)
        && crate::schema::table_eqv(q.table, s))
    &&& q.projection@.len() == items.len()
    &&& q.column_count == items.len()
    &&& (forall|i: int|
        0 <= i < items.len() ==> spec_projected(#[trigger] q.projection@[i], items[i], t))
    &&& q.clustering_key@.len() == 0
    &&& (wh is None ==> q.filters@.len() == 0 && q.partition_key@.len() == 0)
    &&& (wh matches Some(w) ==> spec_where_matches(q.filters@, q.partition_key@, w, t))
}

/// A lowered WHERE comparison carries the written column under the
/// written comparison, its arguments resolve the written sides, and an
/// equality on a partition-key column against a literal records the
/// literal's text as the only partition-key prefix.
pub open spec fn spec_where_matches(
    filters: Seq<(String, ParsedFilter)>,
    pk: Seq<String>,
    w: (Seq<char>, SpecToken, SpecRhs),
    t: TableMetadata,
) -> bool {
    let col = w.0;
    let op = w.1;
    let rhs = w.2;
    let f = spec_find_column(t.columns@, col);
    &&& filters.len() == 1
    &&& (filters[0].0)@ == col
    &&& filters[0].1.filter == (if op is OpEq {
        FilterKind::Eq
    } else {
        FilterKind::Neq
    })
    &&& filters[0].1.args@.len() == 2
    &&& spec_projected(filters[0].1.args@[0], (Some(col), None), t)
    &&& (match rhs {
        SpecRhs::Col(c2) => spec_projected(filters[0].1.args@[1], (Some(c2), None), t),
        SpecRhs::Lit(l) => filters[0].1.args@[1] matches ParsedExpr::Literal(ov) && f is Some
            && spec_lit_value(ov, l, t.columns@[f->Some_0].column_type),
    })
    &&& pk.map_values(|s: String| s@) == (if f is Some && t.columns@[f->Some_0].kind
        == Kind::PartitionKey && op is OpEq && rhs is Lit {
        seq![spec_lit_text(rhs->Lit_0)]
    } else {
        Seq::<Seq<char>>::empty()
    })
}

/// The view of a written projection item.
pub open spec fn spec_item_view(it: (Option<String>, Option<String>)) -> (
    Option<Seq<char>>,
    Option<Seq<char>>,
) {
    (
        match it.0 {
            Some(s) => Some(s@),
            None => None,
        },
        match it.1 {
            Some(s) => Some(s@),
            None => None,
        },
    )
}

/// The views of written projection items.
pub open spec fn spec_items_view(its: Seq<(Option<String>, Option<String>)>) -> Seq<
    (Option<Seq<char>>, Option<Seq<char>>),
> {
    its.map_values(|it: (Option<String>, Option<String>)| spec_item_view(it))
}

/// Parse `SELECT items FROM name [WHERE col op value]`: the plan's table
/// is the catalog's entry under the written name, its projection resolves
/// the written items in order under their aliases, and a WHERE equality
/// on a partition-key column against a literal records the literal's text
/// as the partition-key prefix. It succeeds exactly when the tokens spell
/// the form out and every part lowers against the catalog.
#[verifier::rlimit(100)]
fn parse_select(toks: &Vec<Token>, tables: &Tables) -> (r: Result<(ParsedQuery, usize), DbError>)
    ensures
        r is Ok <==> (spec_parse_select(spec_toks_of(toks@)) matches Some((m, _))
            && spec_select_ok(m.0, m.1, m.2, tables.tables@)),
        (r matches Ok((q, used)) ==> (spec_parse_select(spec_toks_of(toks@)) matches Some(
            (m, end),
        ) && used == end && spec_select_matches(q, m.0, m.1, m.2, tables.tables@)
            && spec_select_wf(q, tables.tables@))),
        (r matches Err(e) ==> e.code == ErrorCode::Invalid),
{
    let ghost ts = spec_toks_of(toks@);
    assert(forall|k: int| 0 <= k < toks@.len() ==> ts[k] == spec_tok_of(#[trigger] toks@[k]));
    let mut pos: usize = 0;
    if !(pos < toks.len() && tok_is_kw(&toks[pos], "select")) {
        return Err(invalid("expected SELECT"));
    }
    pos = pos + 1;
    let mut items: Vec<(Option<String>, Option<String>)> = Vec::new();
    let ghost items_model = Seq::<(Option<Seq<char>>, Option<Seq<char>>)>::empty();
    proof {
        let rp = spec_parse_items(ts, 1);
        if rp is Some {
            assert(items_model + rp->Some_0.0 =~= rp->Some_0.0);
        }
        assert(spec_items_view(items@) =~= items_model);
    }
    loop
        invariant_except_break
            spec_parse_items(ts, 1) is Some <==> spec_parse_items(ts, pos as int) is Some,
            (spec_parse_items(ts, pos as int) matches Some((rest, end)) ==> spec_parse_items(
                ts,
                1,
            ) == Some((items_model + rest, end))),
        invariant
            ts == spec_toks_of(toks@),
            ts.len() == toks@.len(),
            ts.len() >= 1,
            spec_tok_kw(ts[0], "select"@),
            1 <= pos <= toks@.len(),
            spec_items_view(items@) == items_model,
        ensures
            spec_parse_items(ts, 1) == Some((items_model, pos as int)),
        decreases toks@.len() - pos,
    {
        let ghost p0 = pos as int;
        let ghost items0 = items_model;
        let item: (Option<String>, Option<String>) = if pos < toks.len() && (toks[pos]
            matches Token::Star) {
            pos = pos + 1;
            (None, None)
        } else if pos < toks.len() {
            let name = match tok_ident(&toks[pos]) {
                Some(s) => s.clone(),
                None => {
                    assert(spec_parse_items(ts, p0) is None);
                    return Err(invalid("unsupported projection expression"));
                },
            };
            pos = pos + 1;
            if pos < toks.len() && tok_is_kw(&toks[pos], "as") {
                pos = pos + 1;
                if pos < toks.len() {
                    match tok_ident(&toks[pos]) {
                        Some(s) => {
                            let a = s.clone();
                            pos = pos + 1;
                            (Some(name), Some(a))
                        },
                        None => {
                            assert(spec_parse_items(ts, p0) is None);
                            return Err(invalid("expected alias"));
                        },
                    }
                } else {
                    assert(spec_parse_items(ts, p0) is None);
                    return Err(invalid("expected alias"));
                }
            } else {
                (Some(name), None)
            }
        } else {
            assert(spec_parse_items(ts, p0) is None);
            return Err(invalid("expected projection"));
        };
        let ghost iv = spec_item_view(item);
        proof {
            assert(spec_parse_items(ts, p0) == spec_items_rest(ts, pos as int, iv));
        }
        items.push(item);
        proof {
            items_model = items0.push(iv);
            assert(spec_items_view(items@) =~= items_model);
        }
        if pos < toks.len() && (toks[pos] matches Token::Comma) {
            pos = pos + 1;
            proof {
                let rp = spec_parse_items(ts, pos as int);
                assert(spec_parse_items(ts, p0) is Some <==> rp is Some);
                if rp is Some {
                    let rest = rp->Some_0.0;
                    assert(spec_parse_items(ts, p0) == Some((seq![iv] + rest, rp->Some_0.1)));
                    assert(items0 + (seq![iv] + rest) =~= items_model + rest);
                }
            }
        } else {
            proof {
                assert(spec_parse_items(ts, p0) == Some((seq![iv], pos as int)));
                assert(items0 + seq![iv] =~= items_model);
            }
            break ;
        }
    }
    let ghost items_end = pos as int;
    assert(forall|k: int| 0 <= k < toks@.len() ==> ts[k] == spec_tok_of(#[trigger] toks@[k]));
    if !(pos < toks.len() && tok_is_kw(&toks[pos], "from")) {
        assert(spec_parse_select(ts) is None);
        return Err(invalid("expected FROM"));
    }
    assert(spec_tok_kw(ts[items_end], "from"@));
    pos = pos + 1;
    let table_name: String = if pos < toks.len() {
        match tok_ident(&toks[pos]) {
            Some(s) => s.clone(),
            None => {
                assert(spec_parse_select(ts) is None);
                return Err(invalid("expected table name"));
            },
        }
    } else {
        assert(spec_parse_select(ts) is None);
        return Err(invalid("expected table name"));
    };
    pos = pos + 1;
    assert(ts[items_end + 1] is Ident && table_name@ == ts[items_end + 1]->Ident_0);
    let table = match derive_table_metadata(tables, &table_name) {
        Ok(t) => t,
        Err(e) => {
            return Err(e);
        },
    };
    let ghost entry = crate::schema::spec_lookup_table(tables.tables@, table_name@)->Some_0;
    assert(crate::schema::table_eqv(table, entry) && table.columns@ == entry.columns@);
    let projection = match derive_projection(&items, &table) {
        Ok(p) => p,
        Err(e) => {
            return Err(e);
        },
    };
    if projection.len() > i32::MAX as usize {
        return Err(invalid("too many projected columns"));
    }
    let mut filters: Vec<(String, ParsedFilter)> = Vec::new();
    let mut partition_key: Vec<String> = Vec::new();
    if pos < toks.len() && tok_is_kw(&toks[pos], "where") {
        assert(spec_tok_kw(ts[items_end + 2], "where"@));
        pos = pos + 1;
        let (fs, pk, p2) = match derive_filters(toks, pos, &table) {
            Ok(t) => t,
            Err(e) => {
                return Err(e);
            },
        };
        filters = fs;
        partition_key = pk;
        pos = p2;
        proof {
            let m = spec_parse_select(ts);
            assert(m matches Some((mm, end)) && mm.2 is Some && end == pos as int);
        }
    } else {
        assert(!(items_end + 2 < ts.len() && spec_tok_kw(ts[items_end + 2], "where"@)));
        assert(spec_parse_select(ts) == Some(
            ((items_model, table_name@, None::<(Seq<char>, SpecToken, SpecRhs)>), pos as int),
        ));
    }
    proof {
        assert(table.columns@ == entry.columns@);
        assert forall|i: int| 0 <= i < items_model.len() implies spec_projected(
            #[trigger] projection@[i],
            items_model[i],
            entry,
        ) by {
            assert(items_model[i] == spec_items_view(items@)[i]);
            assert(spec_projected(projection@[i], spec_items_view(items@)[i], table));
        }
        let m = spec_parse_select(ts);
        assert(partition_key@.len() == partition_key@.map_values(|s: String| s@).len());
        if m is Some && m->Some_0.0.2 is Some {
            let w = m->Some_0.0.2->Some_0;
            assert(spec_where_matches(filters@, partition_key@, w, table));
            assert(spec_where_matches(filters@, partition_key@, w, entry));
        }
    }
    let q = ParsedQuery {
        partition_key,
        clustering_key: Vec::new(),
        column_count: projection.len() as i32,
        projection,
        filters,
        table,
    };
    Ok((q, pos))
}

/// Resolve each projected item against the table: every identifier must
/// name a declared column, whose metadata is recorded under the item's
/// alias or name; the output order is the order written. A `*` item is
/// unsupported. It succeeds exactly when every item is an identifier
/// naming a column.
fn derive_projection(items: &Vec<(Option<String>, Option<String>)>, table: &TableMetadata) -> (r:
    Result<Vec<ParsedExpr>, DbError>)
    ensures
        r is Ok <==> (forall|i: int|
            0 <= i < items@.len() ==> (#[trigger] spec_items_view(items@)[i]).0 is Some
                && spec_find_column(
                table.columns@,
                spec_items_view(items@)[i].0->Some_0,
            ) is Some),
        (r matches Ok(p) ==> p@.len() == items@.len() && (forall|i: int|
            0 <= i < p@.len() ==> spec_projected(
                #[trigger] p@[i],
                spec_items_view(items@)[i],
                *table,
            ))),
        (r matches Err(e) ==> e.code == ErrorCode::Invalid),
{
    let mut out: Vec<ParsedExpr> = Vec::new();
    let mut i: usize = 0;
    while i < items.len()
        invariant
            i <= items@.len(),
            out@.len() == i,
            forall|k: int|
                0 <= k < i ==> (#[trigger] spec_items_view(items@)[k]).0 is Some
                    && spec_find_column(
                    table.columns@,
                    spec_items_view(items@)[k].0->Some_0,
                ) is Some,
            forall|k: int|
                0 <= k < i ==> spec_projected(
                    #[trigger] out@[k],
                    spec_items_view(items@)[k],
                    *table,
                ),
        decreases items@.len() - i,
    {
        assert(spec_items_view(items@)[i as int] == spec_item_view(items@[i as int]));
        let name: String = match &items[i].0 {
            Some(n) => n.clone(),
            None => {
                return Err(invalid("unsupported projection expression"));
            },
        };
        let cm: ColumnMetadata = match table.get_column(&name) {
            Some(c) => clone_column(c),
            None => {
                return Err(invalid("Column not found"));
            },
        };
        let resolved_name: String = match &items[i].1 {
            Some(a) => a.clone(),
            None => name.clone(),
        };
        out.push(
            ParsedExpr::Column(
                ProjectedColumn { target_column: name, resolved_name, column_metadata: cm },
            ),
        );
        i = i + 1;
    }
    Ok(out)
}

/// Parse and lower a WHERE clause of the shape `column op value`: the
/// filter carries the written column under the written comparison, and an
/// equality on a partition-key column against a literal records the
/// literal's text as the partition-key prefix. `=` and `!=` select the
/// built-in comparisons; the ordering comparisons are reserved. It
/// succeeds exactly when the tokens spell the form out and it lowers
/// against the table.
#[verifier::rlimit(100)]
fn derive_filters(toks: &Vec<Token>, start: usize, table: &TableMetadata) -> (r: Result<
    (Vec<(String, ParsedFilter)>, Vec<String>, usize),
    DbError,
>)
    requires
        start <= toks@.len(),
    ensures
        r is Ok <==> (spec_parse_where(spec_toks_of(toks@), start as int) matches Some((w, _))
            && {
            let f = spec_find_column(table.columns@, w.0);
            &&& f is Some
            &&& (w.1 is OpEq || w.1 is OpNeq)
            &&& (match w.2 {
                SpecRhs::Col(c2) => spec_find_column(table.columns@, c2) is Some,
                SpecRhs::Lit(l) => spec_lit_types(l, table.columns@[f->Some_0].column_type),
            })
        }),
        (r matches Ok((fs, pk, p)) ==> (spec_parse_where(spec_toks_of(toks@), start as int)
            matches Some((w, end)) && p == end && p <= toks@.len() && spec_where_matches(
            fs@,
            pk@,
            w,
            *table,
        ))),
        (r matches Err(e) ==> e.code == ErrorCode::Invalid),
{
    let ghost ts = spec_toks_of(toks@);
    assert(forall|k: int| 0 <= k < toks@.len() ==> ts[k] == spec_tok_of(#[trigger] toks@[k]));
    let mut pos = start;
    let column_name: String = if pos < toks.len() {
        match tok_ident(&toks[pos]) {
            Some(s) => s.clone(),
            None => {
                return Err(invalid("Left side of filter must be a column"));
            },
        }
    } else {
        return Err(invalid("Left side of filter must be a column"));
    };
    pos = pos + 1;
    let cm: ColumnMetadata = match table.get_column(&column_name) {
        Some(c) => clone_column(c),
        None => {
            return Err(invalid("Column not found"));
        },
    };
    let filter_kind: FilterKind = if pos < toks.len() {
        match &toks[pos] {
            Token::OpEq => FilterKind::Eq,
            Token::OpNeq => FilterKind::Neq,
            Token::OpLt => {
                return Err(invalid("Unsupported operator"));
            },
            Token::OpGt => {
                return Err(invalid("Unsupported operator"));
            },
            Token::OpLtEq => {
                return Err(invalid("Unsupported operator"));
            },
            Token::OpGtEq => {
                return Err(invalid("Unsupported operator"));
            },
            _ => {
                return Err(invalid("Unsupported where clause expression"));
            },
        }
    } else {
        return Err(invalid("Unsupported where clause expression"));
    };
    pos = pos + 1;
    let mut partition_key: Vec<String> = Vec::new();
    let ghost mut rhs_model: SpecRhs;
    let rhs: ParsedExpr = if pos < toks.len() {
        match tok_ident(&toks[pos]) {
            Some(id) => {
                // the right side names another column
                let rc: ColumnMetadata = match table.get_column(id) {
                    Some(c) => clone_column(c),
                    None => {
                        return Err(invalid("Column not found"));
                    },
                };
                let pc = ProjectedColumn {
                    target_column: id.clone(),
                    resolved_name: id.clone(),
                    column_metadata: rc,
                };
                proof {
                    rhs_model = SpecRhs::Col(ts[pos as int]->Ident_0);
                }
                pos = pos + 1;
                ParsedExpr::Column(pc)
            },
            None => {
                let lit = match parse_literal(&toks[pos]) {
                    Ok(l) => l,
                    Err(e) => {
                        return Err(e);
                    },
                };
                let ov = match Value::from_sql_value(cm.column_type, &lit) {
                    Ok(v) => v,
                    Err(e) => {
                        return Err(e);
                    },
                };
                proof {
                    rhs_model = SpecRhs::Lit(spec_lit_of(lit));
                }
                if matches!(&cm.kind, Kind::PartitionKey) && matches!(&filter_kind, FilterKind::Eq) {
                    partition_key.push(literal_text(&lit));
                    proof {
                        lemma_literal_text_view(lit);
                        assert(partition_key@.map_values(|s: String| s@) =~= seq![
                            spec_lit_text(spec_lit_of(lit)),
                        ]);
                    }
                } else {
                    assert(partition_key@.map_values(|s: String| s@) =~= Seq::<
                        Seq<char>,
                    >::empty());
                }
                pos = pos + 1;
                ParsedExpr::Literal(ov)
            },
        }
    } else {
        return Err(invalid("Unsupported filter expression"));
    };
    let lhs = ParsedExpr::Column(
        ProjectedColumn {
            target_column: column_name.clone(),
            resolved_name: column_name.clone(),
            column_metadata: cm,
        },
    );
    let mut args: Vec<ParsedExpr> = Vec::new();
    args.push(lhs);
    args.push(rhs);
    let mut filters: Vec<(String, ParsedFilter)> = Vec::new();
    filters.push((column_name, ParsedFilter { filter: filter_kind, args }));
    proof {
        if rhs_model is Col {
            assert(partition_key@.map_values(|s: String| s@) =~= Seq::<Seq<char>>::empty());
        }
    }
    Ok((filters, partition_key, pos))
}

/// Whether one statement's tokens end the statement text: nothing
/// follows it but at most one semicolon.
pub open spec fn spec_statement_end_ok(ts: Seq<SpecToken>, consumed: int) -> bool {
    consumed == ts.len() || (consumed + 1 == ts.len() && ts[consumed] is Semi)
}

/// No identifier is two of the statement keywords at once.
pub proof fn lemma_kw_disjoint(t: SpecToken)
    ensures
        !(spec_tok_kw(t, "create"@) && spec_tok_kw(t, "insert"@)),
        !(spec_tok_kw(t, "create"@) && spec_tok_kw(t, "select"@)),
        !(spec_tok_kw(t, "insert"@) && spec_tok_kw(t, "select"@)),
{
    reveal_strlit("create");
    reveal_strlit("insert");
    reveal_strlit("select");
    if t is Ident {
        let s = t->Ident_0;
        assert("create"@[0] == 'c' && "insert"@[0] == 'i' && "select"@[0] == 's');
        if crate::data::chars_ieq(s, "create"@) && crate::data::chars_ieq(s, "insert"@) {
            assert(crate::data::char_ieq(s[0], 'c') && crate::data::char_ieq(s[0], 'i'));
            assert(false);
        }
        if crate::data::chars_ieq(s, "create"@) && crate::data::chars_ieq(s, "select"@) {
            assert(crate::data::char_ieq(s[0], 'c') && crate::data::char_ieq(s[0], 's'));
            assert(false);
        }
        if crate::data::chars_ieq(s, "insert"@) && crate::data::chars_ieq(s, "select"@) {
            assert(crate::data::char_ieq(s[0], 'i') && crate::data::char_ieq(s[0], 's'));
            assert(false);
        }
    }
}

/// Parse one CQL statement against the catalog. Exactly the supported
/// `CREATE TABLE`, `INSERT`, and `SELECT` forms are accepted, a trailing
/// semicolon is allowed, and anything else — untokenizable text, a second
/// statement, an unknown leading keyword, an unknown table or column, an
/// unsupported expression — is invalid. A successful plan carries exactly
/// what the statement's tokens spell out, lowered against the catalog,
/// and success is owed whenever they spell a supported form that lowers.
#[verifier::rlimit(100)]
pub fn parse(sql: String, tables: &Tables) -> (r: Result<ParsedStatement, DbError>)
    ensures
        (r matches Ok(st) ==> match st {
            ParsedStatement::Create(t) => spec_create_wf(t),
            ParsedStatement::Insert(pi) => spec_insert_wf(pi, tables.tables@),
            ParsedStatement::Select(q) => spec_select_wf(q, tables.tables@),
        }),
        (r matches Ok(st) ==> (spec_tokenize(sql@) matches Some(ts) && ts.len() > 0 && match st {
            ParsedStatement::Create(_) => spec_tok_kw(ts[0], "create"@),
            ParsedStatement::Insert(_) => spec_tok_kw(ts[0], "insert"@),
            ParsedStatement::Select(_) => spec_tok_kw(ts[0], "select"@),
        })),
        (r matches Ok(st) ==> (spec_tokenize(sql@) matches Some(ts) && match st {
            ParsedStatement::Create(t) => spec_parse_create(ts) matches Some((m, end))
                && spec_statement_end_ok(ts, end) && spec_create_matches(t, m.0, m.1),
            ParsedStatement::Insert(pi) => spec_parse_insert(ts) matches Some((m, end))
                && spec_statement_end_ok(ts, end) && spec_insert_matches(
                pi,
                m.0,
                m.1,
                m.2,
                tables.tables@,
            ),
            ParsedStatement::Select(q) => spec_parse_select(ts) matches Some((m, end))
                && spec_statement_end_ok(ts, end) && spec_select_matches(
                q,
                m.0,
                m.1,
                m.2,
                tables.tables@,
            ),
        })),
        (spec_tokenize(sql@) matches Some(ts) ==> {
            &&& ((spec_parse_create(ts) matches Some((m, end)) && spec_statement_end_ok(ts, end))
                ==> r is Ok)
            &&& ((spec_parse_insert(ts) matches Some((m, end)) && spec_statement_end_ok(ts, end)
                && spec_insert_ok(m.0, m.1, m.2, tables.tables@)) ==> r is Ok)
            &&& ((spec_parse_select(ts) matches Some((m, end)) && spec_statement_end_ok(ts, end)
                && spec_select_ok(m.0, m.1, m.2, tables.tables@)) ==> r is Ok)
        }),
        (spec_tokenize(sql@) is None ==> r is Err),
        (spec_tokenize(sql@) matches Some(ts) ==> ((ts.len() == 0 || !(spec_tok_kw(
            ts[0],
            "create"@,
        ) || spec_tok_kw(ts[0], "insert"@) || spec_tok_kw(ts[0], "select"@))) ==> r is Err)),
        (r matches Err(e) ==> e.code == ErrorCode::Invalid),
{
    let toks = match tokenize(sql.as_str()) {
        Ok(t) => t,
        Err(e) => {
            return Err(e);
        },
    };
    assert(spec_tokenize(sql@) == Some(spec_toks_of(toks@)));
    let ghost ts = spec_toks_of(toks@);
    assert(forall|k: int| 0 <= k < toks@.len() ==> ts[k] == spec_tok_of(#[trigger] toks@[k]));
    if toks.len() == 0 {
        assert(spec_parse_create(ts) is None && spec_parse_insert(ts) is None
            && spec_parse_select(ts) is None);
        return Err(invalid("empty statement"));
    }
    proof {
        lemma_kw_disjoint(ts[0]);
    }
    let (stmt, used) = if tok_is_kw(&toks[0], "create") {
        match parse_create_table(&toks) {
            Ok((t, p)) => (ParsedStatement::Create(t), p),
            Err(e) => {
                return Err(e);
            },
        }
    } else if tok_is_kw(&toks[0], "insert") {
        assert(spec_parse_create(ts) is None);
        match parse_insert(&toks, tables) {
            Ok((pi, p)) => (ParsedStatement::Insert(pi), p),
            Err(e) => {
                return Err(e);
            },
        }
    } else if tok_is_kw(&toks[0], "select") {
        assert(spec_parse_create(ts) is None && spec_parse_insert(ts) is None);
        match parse_select(&toks, tables) {
            Ok((q, p)) => (ParsedStatement::Select(q), p),
            Err(e) => {
                return Err(e);
            },
        }
    } else {
        assert(spec_parse_create(ts) is None && spec_parse_insert(ts) is None
            && spec_parse_select(ts) is None);
        return Err(invalid("unsupported statement"));
    };
    let mut pos = used;
    if pos < toks.len() && (toks[pos] matches Token::Semi) {
        pos = pos + 1;
        assert(ts[used as int] is Semi);
    }
    if pos != toks.len() {
        assert(!spec_statement_end_ok(ts, used as int));
        return Err(invalid("Only one statement is supported"));
    }
    assert(spec_statement_end_ok(ts, used as int));
    Ok(stmt)
}

} // verus!
