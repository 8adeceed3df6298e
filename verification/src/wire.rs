//! CQL wire primitives: big-endian integers, length-prefixed strings and
//! byte blobs, read from and written to plain byte buffers.
//!
//! Readers take a buffer and a cursor and return the value together with
//! the advanced cursor; writers append to a growable buffer.

use vstd::prelude::*;
use vstd::string::StringSliceAdditionalSpecFns;
use vstd::utf8::decode_utf8;
use vstd::utf8::encode_utf8;
use vstd::utf8::valid_utf8;

verus! {

/// Big-endian bytes of an unsigned 16-bit integer.
pub open spec fn spec_be16(v: u16) -> Seq<u8> {
    seq![(v >> 8) as u8, v as u8]
}

/// Big-endian bytes of an unsigned 32-bit integer.
pub open spec fn spec_be32(v: u32) -> Seq<u8> {
    seq![(v >> 24) as u8, (v >> 16) as u8, (v >> 8) as u8, v as u8]
}

/// Big-endian bytes of an unsigned 64-bit integer.
pub open spec fn spec_be64(v: u64) -> Seq<u8> {
    seq![
        (v >> 56) as u8,
        (v >> 48) as u8,
        (v >> 40) as u8,
        (v >> 32) as u8,
        (v >> 24) as u8,
        (v >> 16) as u8,
        (v >> 8) as u8,
        v as u8,
    ]
}

/// The unsigned 16-bit integer with the given big-endian bytes.
pub open spec fn spec_u16_of(b0: u8, b1: u8) -> u16 {
    ((b0 as u16) << 8) | (b1 as u16)
}

/// The unsigned 32-bit integer with the given big-endian bytes.
pub open spec fn spec_u32_of(b0: u8, b1: u8, b2: u8, b3: u8) -> u32 {
    ((b0 as u32) << 24) | ((b1 as u32) << 16) | ((b2 as u32) << 8) | (b3 as u32)
}

/// The unsigned 64-bit integer with the given big-endian bytes.
pub open spec fn spec_u64_of(b0: u8, b1: u8, b2: u8, b3: u8, b4: u8, b5: u8, b6: u8, b7: u8) -> u64 {
    ((b0 as u64) << 56) | ((b1 as u64) << 48) | ((b2 as u64) << 40) | ((b3 as u64) << 32)
        | ((b4 as u64) << 24) | ((b5 as u64) << 16) | ((b6 as u64) << 8) | (b7 as u64)
}

/// Big-endian bytes of a signed 32-bit integer (two's complement).
pub open spec fn spec_be32i(v: i32) -> Seq<u8> {
    spec_be32(v as u32)
}

/// Big-endian bytes of a signed 64-bit integer (two's complement).
pub open spec fn spec_be64i(v: i64) -> Seq<u8> {
    spec_be64(v as u64)
}

/// Big-endian bytes of a signed 16-bit integer (two's complement).
pub open spec fn spec_be16i(v: i16) -> Seq<u8> {
    spec_be16(v as u16)
}

/// Reading the big-endian bytes of a 16-bit integer yields it back.
pub broadcast proof fn lemma_be16_of(v: u16)
    ensures
        #[trigger] spec_u16_of((v >> 8) as u8, v as u8) == v,
{
    assert(((((v >> 8) as u8) as u16) << 8) | ((v as u8) as u16) == v) by (bit_vector);
}

/// Reading the big-endian bytes of a 32-bit integer yields it back.
pub broadcast proof fn lemma_be32_of(v: u32)
    ensures
        #[trigger] spec_u32_of((v >> 24) as u8, (v >> 16) as u8, (v >> 8) as u8, v as u8) == v,
{
    assert(((((v >> 24) as u8) as u32) << 24) | ((((v >> 16) as u8) as u32) << 16)
        | ((((v >> 8) as u8) as u32) << 8) | ((v as u8) as u32) == v) by (bit_vector);
}

/// Reading the big-endian bytes of a 64-bit integer yields it back.
pub broadcast proof fn lemma_be64_of(v: u64)
    ensures
        #[trigger] spec_u64_of(
            (v >> 56) as u8,
            (v >> 48) as u8,
            (v >> 40) as u8,
            (v >> 32) as u8,
            (v >> 24) as u8,
            (v >> 16) as u8,
            (v >> 8) as u8,
            v as u8,
        ) == v,
{
    assert(((((v >> 56) as u8) as u64) << 56) | ((((v >> 48) as u8) as u64) << 48)
        | ((((v >> 40) as u8) as u64) << 40) | ((((v >> 32) as u8) as u64) << 32)
        | ((((v >> 24) as u8) as u64) << 24) | ((((v >> 16) as u8) as u64) << 16)
        | ((((v >> 8) as u8) as u64) << 8) | ((v as u8) as u64) == v) by (bit_vector);
}

/// Writing back a 16-bit integer read from two bytes yields those bytes.
pub broadcast proof fn lemma_be16_bytes(b0: u8, b1: u8)
    ensures
        #[trigger] spec_be16(spec_u16_of(b0, b1)) == seq![b0, b1],
{
    let v = spec_u16_of(b0, b1);
    assert((((((b0 as u16) << 8) | (b1 as u16)) >> 8) as u8) == b0 && ((((b0 as u16) << 8) | (
    b1 as u16)) as u8) == b1) by (bit_vector);
    assert(spec_be16(v) =~= seq![b0, b1]);
}

/// Writing back a 32-bit integer read from four bytes yields those bytes.
pub broadcast proof fn lemma_be32_bytes(b0: u8, b1: u8, b2: u8, b3: u8)
    ensures
        #[trigger] spec_be32(spec_u32_of(b0, b1, b2, b3)) == seq![b0, b1, b2, b3],
{
    let v = spec_u32_of(b0, b1, b2, b3);
    assert({
        let w = ((b0 as u32) << 24) | ((b1 as u32) << 16) | ((b2 as u32) << 8) | (b3 as u32);
        ((w >> 24) as u8) == b0 && ((w >> 16) as u8) == b1 && ((w >> 8) as u8) == b2 && (w as u8)
            == b3
    }) by (bit_vector);
    assert(spec_be32(v) =~= seq![b0, b1, b2, b3]);
}

/// Writing back a 64-bit integer read from eight bytes yields those bytes.
pub broadcast proof fn lemma_be64_bytes(b0: u8, b1: u8, b2: u8, b3: u8, b4: u8, b5: u8, b6: u8, b7: u8)
    ensures
        #[trigger] spec_be64(spec_u64_of(b0, b1, b2, b3, b4, b5, b6, b7)) == seq![
            b0,
            b1,
            b2,
            b3,
            b4,
            b5,
            b6,
            b7,
        ],
{
    let v = spec_u64_of(b0, b1, b2, b3, b4, b5, b6, b7);
    assert({
        let w = ((b0 as u64) << 56) | ((b1 as u64) << 48) | ((b2 as u64) << 40) | ((b3 as u64)
            << 32) | ((b4 as u64) << 24) | ((b5 as u64) << 16) | ((b6 as u64) << 8) | (b7 as u64);
        ((w >> 56) as u8) == b0 && ((w >> 48) as u8) == b1 && ((w >> 40) as u8) == b2 && ((w >> 32)
            as u8) == b3 && ((w >> 24) as u8) == b4 && ((w >> 16) as u8) == b5 && ((w >> 8) as u8)
            == b6 && (w as u8) == b7
    }) by (bit_vector);
    assert(spec_be64(v) =~= seq![b0, b1, b2, b3, b4, b5, b6, b7]);
}

/// Round trip of an unsigned 16-bit integer through its signed reading.
pub broadcast proof fn lemma_u16_bits(v: u16)
    ensures
        #[trigger] ((v as i16) as u16) == v,
{
    assert(((v as i16) as u16) == v) by (bit_vector);
}

/// Round trip of an unsigned 32-bit integer through its signed reading.
pub broadcast proof fn lemma_u32_bits(v: u32)
    ensures
        #[trigger] ((v as i32) as u32) == v,
{
    assert(((v as i32) as u32) == v) by (bit_vector);
}

/// Round trip of an unsigned 64-bit integer through its signed reading.
pub broadcast proof fn lemma_u64_bits(v: u64)
    ensures
        #[trigger] ((v as i64) as u64) == v,
{
    assert(((v as i64) as u64) == v) by (bit_vector);
}

/// Round trip of an unsigned 8-bit integer through its signed reading.
pub broadcast proof fn lemma_u8_bits(v: u8)
    ensures
        #[trigger] ((v as i8) as u8) == v,
{
    assert(((v as i8) as u8) == v) by (bit_vector);
}

/// Round trip of a signed 32-bit integer through its unsigned bit pattern.
pub broadcast proof fn lemma_i32_bits(v: i32)
    ensures
        #[trigger] ((v as u32) as i32) == v,
{
    assert(((v as u32) as i32) == v) by (bit_vector);
}

/// Round trip of a signed 64-bit integer through its unsigned bit pattern.
pub broadcast proof fn lemma_i64_bits(v: i64)
    ensures
        #[trigger] ((v as u64) as i64) == v,
{
    assert(((v as u64) as i64) == v) by (bit_vector);
}

/// Round trip of a signed 16-bit integer through its unsigned bit pattern.
pub broadcast proof fn lemma_i16_bits(v: i16)
    ensures
        #[trigger] ((v as u16) as i16) == v,
{
    assert(((v as u16) as i16) == v) by (bit_vector);
}

/// Round trip of a signed 8-bit integer through its unsigned bit pattern.
pub broadcast proof fn lemma_i8_bits(v: i8)
    ensures
        #[trigger] ((v as u8) as i8) == v,
{
    assert(((v as u8) as i8) == v) by (bit_vector);
}

/// Two 16-bit integers with the same big-endian bytes are equal.
pub proof fn lemma_be16_injective(x: u16, y: u16)
    requires
        spec_be16(x) == spec_be16(y),
    ensures
        x == y,
{
    assert(spec_be16(x)[0] == spec_be16(y)[0] && spec_be16(x)[1] == spec_be16(y)[1]);
    assert((((x >> 8) as u8) == ((y >> 8) as u8) && (x as u8) == (y as u8)) ==> x == y)
        by (bit_vector);
}

/// Two 32-bit integers with the same big-endian bytes are equal.
pub proof fn lemma_be32_injective(x: u32, y: u32)
    requires
        spec_be32(x) == spec_be32(y),
    ensures
        x == y,
{
    assert(forall|i: int| 0 <= i < 4 ==> spec_be32(x)[i] == spec_be32(y)[i]);
    assert((((x >> 24) as u8) == ((y >> 24) as u8) && ((x >> 16) as u8) == ((y >> 16) as u8) && ((x
        >> 8) as u8) == ((y >> 8) as u8) && (x as u8) == (y as u8)) ==> x == y) by (bit_vector);
}

/// Two 64-bit integers with the same big-endian bytes are equal.
pub proof fn lemma_be64_injective(x: u64, y: u64)
    requires
        spec_be64(x) == spec_be64(y),
    ensures
        x == y,
{
    assert(forall|i: int| 0 <= i < 8 ==> spec_be64(x)[i] == spec_be64(y)[i]);
    assert((((x >> 56) as u8) == ((y >> 56) as u8) && ((x >> 48) as u8) == ((y >> 48) as u8) && ((x
        >> 40) as u8) == ((y >> 40) as u8) && ((x >> 32) as u8) == ((y >> 32) as u8) && ((x >> 24)
        as u8) == ((y >> 24) as u8) && ((x >> 16) as u8) == ((y >> 16) as u8) && ((x >> 8) as u8)
        == ((y >> 8) as u8) && (x as u8) == (y as u8)) ==> x == y) by (bit_vector);
}

/// Carve one section out of a buffer: when the bytes from `pos` on start
/// with `part`, the section reads back verbatim and the rest follows it.
pub proof fn lemma_carve(big: Seq<u8>, pos: int, part: Seq<u8>, rest: Seq<u8>)
    requires
        0 <= pos <= big.len(),
        big == big.take(pos) + part + rest,
    ensures
        pos + part.len() <= big.len(),
        part == big.subrange(pos, pos + part.len()),
        big == big.take(pos + part.len()) + rest,
{
    assert(big.len() == pos + part.len() + rest.len());
    assert(part =~= big.subrange(pos, pos + part.len()));
    assert(big =~= big.take(pos + part.len()) + rest);
}

/// As `lemma_carve`, for a buffer decomposed with the section and its
/// rest grouped together.
pub proof fn lemma_carve_step(big: Seq<u8>, pos: int, part: Seq<u8>, rest: Seq<u8>)
    requires
        0 <= pos <= big.len(),
        big == big.take(pos) + (part + rest),
    ensures
        pos + part.len() <= big.len(),
        part == big.subrange(pos, pos + part.len()),
        big == big.take(pos + part.len()) + rest,
{
    assert(big =~= big.take(pos) + part + rest);
    lemma_carve(big, pos, part, rest);
}

/// Append one byte.
pub fn write_byte(buf: &mut Vec<u8>, v: u8)
    ensures
        final(buf)@ == old(buf)@.push(v),
{
    buf.push(v);
}

/// Append an unsigned 16-bit integer, big endian.
pub fn write_unsigned_short(buf: &mut Vec<u8>, v: u16)
    ensures
        final(buf)@ == old(buf)@ + spec_be16(v),
{
    buf.push((v >> 8) as u8);
    buf.push(v as u8);
    assert(final(buf)@ =~= old(buf)@ + spec_be16(v));
}

/// Append a signed 16-bit integer, big endian.
pub fn write_short(buf: &mut Vec<u8>, v: i16)
    ensures
        final(buf)@ == old(buf)@ + spec_be16i(v),
{
    write_unsigned_short(buf, v as u16);
}

/// Append an unsigned 32-bit integer, big endian.
pub fn write_u32(buf: &mut Vec<u8>, v: u32)
    ensures
        final(buf)@ == old(buf)@ + spec_be32(v),
{
    buf.push((v >> 24) as u8);
    buf.push((v >> 16) as u8);
    buf.push((v >> 8) as u8);
    buf.push(v as u8);
    assert(final(buf)@ =~= old(buf)@ + spec_be32(v));
}

/// Append a signed 32-bit integer, big endian, two's complement.
pub fn write_int(buf: &mut Vec<u8>, v: i32)
    ensures
        final(buf)@ == old(buf)@ + spec_be32i(v),
{
    write_u32(buf, v as u32);
}

/// Append an unsigned 64-bit integer, big endian.
pub fn write_u64(buf: &mut Vec<u8>, v: u64)
    ensures
        final(buf)@ == old(buf)@ + spec_be64(v),
{
    buf.push((v >> 56) as u8);
    buf.push((v >> 48) as u8);
    buf.push((v >> 40) as u8);
    buf.push((v >> 32) as u8);
    buf.push((v >> 24) as u8);
    buf.push((v >> 16) as u8);
    buf.push((v >> 8) as u8);
    buf.push(v as u8);
    assert(final(buf)@ =~= old(buf)@ + spec_be64(v));
}

/// Append a signed 64-bit integer, big endian, two's complement.
pub fn write_long(buf: &mut Vec<u8>, v: i64)
    ensures
        final(buf)@ == old(buf)@ + spec_be64i(v),
{
    write_u64(buf, v as u64);
}

/// Append a signed 8-bit integer as its single two's-complement byte.
pub fn write_tinyint(buf: &mut Vec<u8>, v: i8)
    ensures
        final(buf)@ == old(buf)@.push(v as u8),
{
    buf.push(v as u8);
}

/// Append a boolean as one byte: 1 for true, 0 for false.
pub fn write_bool(buf: &mut Vec<u8>, v: bool)
    ensures
        final(buf)@ == old(buf)@.push(if v { 1u8 } else { 0u8 }),
{
    if v {
        buf.push(1u8);
    } else {
        buf.push(0u8);
    }
}

/// Append a slice of bytes.
pub fn write_raw(buf: &mut Vec<u8>, v: &[u8])
    ensures
        final(buf)@ == old(buf)@ + v@,
{
    let mut i: usize = 0;
    while i < v.len()
        invariant
            i <= v@.len(),
            buf@ == old(buf)@ + v@.take(i as int),
        decreases v@.len() - i,
    {
        buf.push(v[i]);
        i = i + 1;
        assert(old(buf)@ + v@.take(i as int) =~= (old(buf)@ + v@.take(i - 1)).push(v@[i - 1]));
    }
    assert(v@.take(v@.len() as int) =~= v@);
}

/// Read one byte.
pub fn read_byte(buf: &Vec<u8>, pos: usize) -> (r: Option<(u8, usize)>)
    requires
        pos <= buf@.len(),
    ensures
        r is Some <==> buf@.len() - pos >= 1,
        (r matches Some((v, p)) ==> v == buf@[pos as int] && p == pos + 1),
{
    if buf.len() - pos >= 1 {
        Some((buf[pos], pos + 1))
    } else {
        None
    }
}

/// Read an unsigned 16-bit integer, big endian.
pub fn read_unsigned_short(buf: &Vec<u8>, pos: usize) -> (r: Option<(u16, usize)>)
    requires
        pos <= buf@.len(),
    ensures
        r is Some <==> buf@.len() - pos >= 2,
        (r matches Some((v, p)) ==> v == spec_u16_of(buf@[pos as int], buf@[pos + 1]) && p == pos
            + 2),
{
    if buf.len() - pos >= 2 {
        let v: u16 = ((buf[pos] as u16) << 8) | (buf[pos + 1] as u16);
        Some((v, pos + 2))
    } else {
        None
    }
}

/// Read an unsigned 32-bit integer, big endian.
pub fn read_u32(buf: &Vec<u8>, pos: usize) -> (r: Option<(u32, usize)>)
    requires
        pos <= buf@.len(),
    ensures
        r is Some <==> buf@.len() - pos >= 4,
        (r matches Some((v, p)) ==> v == spec_u32_of(
            buf@[pos as int],
            buf@[pos + 1],
            buf@[pos + 2],
            buf@[pos + 3],
        ) && p == pos + 4),
{
    if buf.len() - pos >= 4 {
        let v: u32 = ((buf[pos] as u32) << 24) | ((buf[pos + 1] as u32) << 16) | ((buf[pos
            + 2] as u32) << 8) | (buf[pos + 3] as u32);
        Some((v, pos + 4))
    } else {
        None
    }
}

/// Read a signed 32-bit integer, big endian, two's complement.
pub fn read_int(buf: &Vec<u8>, pos: usize) -> (r: Option<(i32, usize)>)
    requires
        pos <= buf@.len(),
    ensures
        r is Some <==> buf@.len() - pos >= 4,
        (r matches Some((v, p)) ==> v == spec_u32_of(
            buf@[pos as int],
            buf@[pos + 1],
            buf@[pos + 2],
            buf@[pos + 3],
        ) as i32 && p == pos + 4),
{
    match read_u32(buf, pos) {
        Some((v, p)) => Some(
            (
                #[verifier::truncate]
                (v as i32),
                p,
            ),
        ),
        None => None,
    }
}

/// Read an unsigned 64-bit integer, big endian.
pub fn read_u64(buf: &Vec<u8>, pos: usize) -> (r: Option<(u64, usize)>)
    requires
        pos <= buf@.len(),
    ensures
        r is Some <==> buf@.len() - pos >= 8,
        (r matches Some((v, p)) ==> v == spec_u64_of(
            buf@[pos as int],
            buf@[pos + 1],
            buf@[pos + 2],
            buf@[pos + 3],
            buf@[pos + 4],
            buf@[pos + 5],
            buf@[pos + 6],
            buf@[pos + 7],
        ) && p == pos + 8),
{
    if buf.len() - pos >= 8 {
        let v: u64 = ((buf[pos] as u64) << 56) | ((buf[pos + 1] as u64) << 48) | ((buf[pos
            + 2] as u64) << 40) | ((buf[pos + 3] as u64) << 32) | ((buf[pos + 4] as u64) << 24) | ((
        buf[pos + 5] as u64) << 16) | ((buf[pos + 6] as u64) << 8) | (buf[pos + 7] as u64);
        Some((v, pos + 8))
    } else {
        None
    }
}

/// Read a signed 64-bit integer, big endian, two's complement.
pub fn read_long(buf: &Vec<u8>, pos: usize) -> (r: Option<(i64, usize)>)
    requires
        pos <= buf@.len(),
    ensures
        r is Some <==> buf@.len() - pos >= 8,
        (r matches Some((v, p)) ==> v == spec_u64_of(
            buf@[pos as int],
            buf@[pos + 1],
            buf@[pos + 2],
            buf@[pos + 3],
            buf@[pos + 4],
            buf@[pos + 5],
            buf@[pos + 6],
            buf@[pos + 7],
        ) as i64 && p == pos + 8),
{
    match read_u64(buf, pos) {
        Some((v, p)) => Some(
            (
                #[verifier::truncate]
                (v as i64),
                p,
            ),
        ),
        None => None,
    }
}

/// Copy `n` bytes starting at `pos` into a fresh vector.
pub fn read_raw(buf: &Vec<u8>, pos: usize, n: usize) -> (r: Option<(Vec<u8>, usize)>)
    requires
        pos <= buf@.len(),
    ensures
        r is Some <==> buf@.len() - pos >= n,
        (r matches Some((v, p)) ==> v@ == buf@.subrange(pos as int, pos + n) && p == pos + n),
{
    if buf.len() - pos >= n {
        let mut v: Vec<u8> = Vec::new();
        let mut i: usize = 0;
        while i < n
            invariant
                i <= n,
                pos + n <= buf@.len(),
                buf@.len() <= usize::MAX,
                v@ == buf@.subrange(pos as int, pos + i),
            decreases n - i,
        {
            assert(pos + i < buf@.len());
            v.push(buf[pos + i]);
            i = i + 1;
            assert(buf@.subrange(pos as int, pos + i) =~= buf@.subrange(
                pos as int,
                pos + i - 1,
            ).push(buf@[pos + i - 1]));
        }
        Some((v, pos + n))
    } else {
        None
    }
}

/// What `String::from_utf8_lossy` returns for the given bytes; it depends
/// on the bytes alone.
pub uninterp spec fn lossy_utf8(b: Seq<u8>) -> Seq<char>;

/// Relies on `String::from_utf8_lossy`: the result depends on the bytes
/// alone, and bytes that are valid UTF-8 decode to exactly their characters.
#[verifier::external_body]
pub fn from_utf8_lossy(b: &Vec<u8>) -> (r: String)
    ensures
        r@ == lossy_utf8(b@),
        valid_utf8(b@) ==> r@ == decode_utf8(b@),
{
    String::from_utf8_lossy(b.as_slice()).into_owned()
}

/// Relies on `String::from_utf8`: it succeeds exactly on valid UTF-8 and
/// returns the string of those bytes.
#[verifier::external_body]
pub fn string_from_utf8(b: Vec<u8>) -> (r: Option<String>)
    ensures
        r is Some <==> valid_utf8(b@),
        (r matches Some(s) ==> s@ == decode_utf8(b@)),
{
    match String::from_utf8(b) {
        Ok(s) => Some(s),
        Err(_) => None,
    }
}

/// Wire form of a CQL `string`: unsigned 16-bit byte length, then the
/// UTF-8 bytes.
pub open spec fn spec_string_encode(s: Seq<char>) -> Seq<u8> {
    spec_be16(encode_utf8(s).len() as u16) + encode_utf8(s)
}

/// Wire form of a CQL `long string`: signed 32-bit byte length, then the
/// UTF-8 bytes.
pub open spec fn spec_long_string_encode(s: Seq<char>) -> Seq<u8> {
    spec_be32i(encode_utf8(s).len() as i32) + encode_utf8(s)
}

/// The characters a wire string with the given payload bytes decodes to:
/// valid UTF-8 decodes exactly, anything else decodes lossily.
pub open spec fn spec_utf8_chars(bs: Seq<u8>) -> Seq<char> {
    if valid_utf8(bs) {
        decode_utf8(bs)
    } else {
        lossy_utf8(bs)
    }
}

/// Result of reading a CQL `string` starting at `pos`: its characters and
/// the advanced cursor, or `None` when the buffer is too short.
pub open spec fn spec_read_string(b: Seq<u8>, pos: int) -> Option<(Seq<char>, int)> {
    if pos + 2 <= b.len() {
        let n = spec_u16_of(b[pos], b[pos + 1]) as int;
        if pos + 2 + n <= b.len() {
            Some((spec_utf8_chars(b.subrange(pos + 2, pos + 2 + n)), pos + 2 + n))
        } else {
            None
        }
    } else {
        None
    }
}

/// Result of reading a CQL `long string` starting at `pos`.
pub open spec fn spec_read_long_string(b: Seq<u8>, pos: int) -> Option<(Seq<char>, int)> {
    if pos + 4 <= b.len() {
        let n = spec_u32_of(b[pos], b[pos + 1], b[pos + 2], b[pos + 3]) as i32 as int;
        if n >= 0 && pos + 4 + n <= b.len() {
            Some((spec_utf8_chars(b.subrange(pos + 4, pos + 4 + n)), pos + 4 + n))
        } else {
            None
        }
    } else {
        None
    }
}

/// Append a CQL `string`: `short` byte length, then UTF-8 bytes.
pub fn write_string(buf: &mut Vec<u8>, s: &str)
    requires
        encode_utf8(s@).len() <= u16::MAX,
    ensures
        final(buf)@ == old(buf)@ + spec_string_encode(s@),
{
    let bytes = s.as_bytes();
    write_unsigned_short(buf, bytes.len() as u16);
    write_raw(buf, bytes);
    assert(final(buf)@ =~= old(buf)@ + spec_string_encode(s@));
}

/// Append a CQL `long string`: `int` byte length, then UTF-8 bytes.
pub fn write_long_string(buf: &mut Vec<u8>, s: &str)
    requires
        encode_utf8(s@).len() <= i32::MAX,
    ensures
        final(buf)@ == old(buf)@ + spec_long_string_encode(s@),
{
    let bytes = s.as_bytes();
    write_int(buf, bytes.len() as i32);
    write_raw(buf, bytes);
    assert(final(buf)@ =~= old(buf)@ + spec_long_string_encode(s@));
}

/// Read a CQL `string`. Invalid UTF-8 decodes lossily.
pub fn read_string(buf: &Vec<u8>, pos: usize) -> (r: Option<(String, usize)>)
    requires
        pos <= buf@.len(),
    ensures
        r is Some <==> spec_read_string(buf@, pos as int) is Some,
        (r matches Some((s, p)) ==> spec_read_string(buf@, pos as int) == Some((s@, p as int))),
{
    match read_unsigned_short(buf, pos) {
        None => None,
        Some((n, p1)) => match read_raw(buf, p1, n as usize) {
            None => None,
            Some((bs, p2)) => {
                let s = from_utf8_lossy(&bs);
                Some((s, p2))
            },
        },
    }
}

/// Read a CQL `long string`. Invalid UTF-8 decodes lossily. A negative
/// declared length yields `None`.
pub fn read_long_string(buf: &Vec<u8>, pos: usize) -> (r: Option<(String, usize)>)
    requires
        pos <= buf@.len(),
    ensures
        r is Some <==> spec_read_long_string(buf@, pos as int) is Some,
        (r matches Some((s, p)) ==> spec_read_long_string(buf@, pos as int) == Some(
            (s@, p as int),
        )),
{
    match read_int(buf, pos) {
        None => None,
        Some((n, p1)) => {
            if n < 0 {
                None
            } else {
                match read_raw(buf, p1, n as usize) {
                    None => None,
                    Some((bs, p2)) => {
                        let s = from_utf8_lossy(&bs);
                        Some((s, p2))
                    },
                }
            }
        },
    }
}

/// Reading back an encoded `string` yields its characters and consumes
/// exactly its own bytes.
pub proof fn lemma_read_string_of_encode(s: Seq<char>, b: Seq<u8>, pos: int, tail: Seq<u8>)
    requires
        0 <= pos <= b.len(),
        encode_utf8(s).len() <= u16::MAX,
        b == b.take(pos) + spec_string_encode(s) + tail,
    ensures
        spec_read_string(b, pos) == Some((s, pos + 2 + encode_utf8(s).len())),
{
    broadcast use vstd::utf8::encode_utf8_valid_utf8;
    broadcast use vstd::utf8::encode_utf8_decode_utf8;
    broadcast use lemma_be16_of;

    let se = spec_string_encode(s);
    let n = encode_utf8(s).len() as int;
    assert(b.len() == pos + se.len() + tail.len());
    assert(b.subrange(pos, pos + se.len()) =~= se);
    assert(b[pos] == se[0] && b[pos + 1] == se[1]);
    assert(spec_u16_of(b[pos], b[pos + 1]) == encode_utf8(s).len() as u16);
    assert(b.subrange(pos + 2, pos + 2 + n) =~= encode_utf8(s));
    assert(spec_utf8_chars(encode_utf8(s)) == s);
}

/// Result of reading a CQL `string` whose payload must be valid UTF-8.
pub open spec fn spec_read_string_strict(b: Seq<u8>, pos: int) -> Option<(Seq<char>, int)> {
    if pos + 2 <= b.len() {
        let n = spec_u16_of(b[pos], b[pos + 1]) as int;
        if pos + 2 + n <= b.len() && valid_utf8(b.subrange(pos + 2, pos + 2 + n)) {
            Some((decode_utf8(b.subrange(pos + 2, pos + 2 + n)), pos + 2 + n))
        } else {
            None
        }
    } else {
        None
    }
}

/// Read a CQL `string`, accepting only valid UTF-8: the decoded string's
/// bytes are exactly the bytes read.
pub fn read_string_strict(buf: &Vec<u8>, pos: usize) -> (r: Option<(String, usize)>)
    requires
        pos <= buf@.len(),
    ensures
        r is Some <==> spec_read_string_strict(buf@, pos as int) is Some,
        (r matches Some((s, p)) ==> spec_read_string_strict(buf@, pos as int) == Some(
            (s@, p as int),
        )),
        (r matches Some((s, p)) ==> {
            &&& pos < p <= buf@.len()
            &&& encode_utf8(s@).len() <= u16::MAX
            &&& spec_string_encode(s@) == buf@.subrange(pos as int, p as int)
        }),
{
    broadcast use vstd::utf8::decode_utf8_encode_utf8;

    match read_unsigned_short(buf, pos) {
        None => None,
        Some((n, p1)) => match read_raw(buf, p1, n as usize) {
            None => None,
            Some((bs, p2)) => {
                let ghost bsv = bs@;
                match string_from_utf8(bs) {
                    None => None,
                    Some(s) => {
                        proof {
                            assert(encode_utf8(s@) == bsv);
                            broadcast use lemma_be16_bytes;

                            assert(spec_string_encode(s@) =~= buf@.subrange(
                                pos as int,
                                p2 as int,
                            ));
                        }
                        Some((s, p2))
                    },
                }
            },
        },
    }
}

/// Wire form of a present CQL `[bytes]` payload: `int` length, then the
/// raw bytes.
pub open spec fn spec_bytes_encode(b: Seq<u8>) -> Seq<u8> {
    spec_be32i(b.len() as i32) + b
}

/// Wire form of an absent CQL `[bytes]` payload: `int` -1.
pub open spec fn spec_null_bytes_encode() -> Seq<u8> {
    spec_be32i(-1i32)
}

/// Append a CQL `[bytes]`: `int` length and the bytes when present,
/// `int` -1 when absent.
pub fn write_bytes(buf: &mut Vec<u8>, v: Option<&Vec<u8>>)
    requires
        (v matches Some(b) ==> b@.len() <= i32::MAX),
    ensures
        (v matches Some(b) ==> final(buf)@ == old(buf)@ + spec_bytes_encode(b@)),
        v is None ==> final(buf)@ == old(buf)@ + spec_null_bytes_encode(),
{
    match v {
        Some(b) => {
            write_int(buf, b.len() as i32);
            write_raw(buf, b.as_slice());
        },
        None => {
            write_int(buf, -1i32);
        },
    }
}

/// Read a CQL `[bytes]`: a negative declared length means absent.
pub fn read_bytes(buf: &Vec<u8>, pos: usize) -> (r: Option<(Option<Vec<u8>>, usize)>)
    requires
        pos <= buf@.len(),
    ensures
        r is Some <==> buf@.len() - pos >= 4 && (spec_u32_of(
            buf@[pos as int],
            buf@[pos + 1],
            buf@[pos + 2],
            buf@[pos + 3],
        ) as i32 >= 0 ==> buf@.len() - pos - 4 >= spec_u32_of(
            buf@[pos as int],
            buf@[pos + 1],
            buf@[pos + 2],
            buf@[pos + 3],
        ) as i32),
        (r matches Some((v, p)) ==> {
            let n = spec_u32_of(buf@[pos as int], buf@[pos + 1], buf@[pos + 2], buf@[pos + 3]) as i32;
            if n < 0 {
                v is None && p == pos + 4
            } else {
                &&& (v matches Some(bs) && bs@ == buf@.subrange(pos + 4, pos + 4 + n))
                &&& p == pos + 4 + n
            }
        }),
{
    match read_int(buf, pos) {
        None => None,
        Some((n, p1)) => {
            if n < 0 {
                Some((None, p1))
            } else {
                match read_raw(buf, p1, n as usize) {
                    None => None,
                    Some((bs, p2)) => Some((Some(bs), p2)),
                }
            }
        },
    }
}

/// A CQL `[value]`: a payload that may also be null or explicitly not set.
#[derive(Debug, Clone)]
pub enum WireValue {
    Null,
    NotSet,
    Payload(Vec<u8>),
}

/// Read a CQL `[value]`: `int` length -1 means null, -2 means not set,
/// lengths below -2 are malformed and yield `None`.
pub fn read_value(buf: &Vec<u8>, pos: usize) -> (r: Option<(WireValue, usize)>)
    requires
        pos <= buf@.len(),
    ensures
        r is Some <==> buf@.len() - pos >= 4 && {
            let n = spec_u32_of(buf@[pos as int], buf@[pos + 1], buf@[pos + 2], buf@[pos + 3]) as i32;
            &&& n >= -2
            &&& (n >= 0 ==> buf@.len() - pos - 4 >= n)
        },
        (r matches Some((v, p)) ==> {
            let n = spec_u32_of(buf@[pos as int], buf@[pos + 1], buf@[pos + 2], buf@[pos + 3]) as i32;
            if n == -1 {
                v is Null && p == pos + 4
            } else if n == -2 {
                v is NotSet && p == pos + 4
            } else {
                &&& (v matches WireValue::Payload(bs) && bs@ == buf@.subrange(pos + 4, pos + 4 + n))
                &&& p == pos + 4 + n
            }
        }),
{
    match read_int(buf, pos) {
        None => None,
        Some((n, p1)) => {
            if n == -1 {
                Some((WireValue::Null, p1))
            } else if n == -2 {
                Some((WireValue::NotSet, p1))
            } else if n < -2 {
                None
            } else {
                match read_raw(buf, p1, n as usize) {
                    None => None,
                    Some((bs, p2)) => Some((WireValue::Payload(bs), p2)),
                }
            }
        },
    }
}

} // verus!

