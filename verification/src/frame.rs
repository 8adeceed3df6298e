//! The frame codec: incremental decode of request frames and encode of
//! response frames, each a 9-byte header and a body of declared length.

use vstd::prelude::*;
use vstd::string::StringExecFns;
use vstd::utf8::encode_utf8;

use crate::error::DbError;
use crate::error::ErrorCode;
use crate::header::spec_header_decode;
use crate::header::spec_header_encode;
use crate::header::spec_version_byte;
use crate::header::Header;
use crate::header::MessageDirection;
use crate::header::ProtocolVersion;
use crate::operation::decode_query;
use crate::operation::decode_startup;
use crate::operation::spec_query_decodable;
use crate::operation::spec_query_matches;
use crate::operation::Operation;
use crate::operation::OPTIONS_OP_CODE;
use crate::operation::QUERY_OP_CODE;
use crate::operation::STARTUP_OP_CODE;
use crate::response::encode_error;
use crate::response::encode_result;
use crate::response::encode_supported;
use crate::response::spec_error_encode;
use crate::response::spec_result_encode;
use crate::response::spec_result_wf;
use crate::string_map::spec_read_string_map;
use crate::string_map::spec_string_map_encode;
use crate::wire::read_raw;

verus! {

/// The frame codec. Decoding is stateless across frames: a frame is
/// consumed only once all of its bytes are buffered.
pub struct CqlFrameCodec {}

/// Whether a buffer does not yet hold one whole frame: either the header
/// has not arrived, or the body has not.
pub open spec fn spec_needs_more(b: Seq<u8>) -> bool {
    b.len() < 9 || (spec_header_decode(b).body_length >= 0 && b.len() < 9 + spec_header_decode(
        b,
    ).body_length)
}

/// The wire form of a response body.
pub open spec fn spec_response_body(op: Operation) -> Seq<u8> {
    match op {
        Operation::Result(res) => spec_result_encode(res),
        Operation::Error(e) => spec_error_encode(e.code, e.message@),
        Operation::Supported(m) => spec_string_map_encode(m.pairs()),
        _ => Seq::<u8>::empty(),
    }
}

/// Which operations the encoder emits, and with well-formed contents.
pub open spec fn spec_encodable(op: Operation) -> bool {
    match op {
        Operation::Result(res) => spec_result_wf(res),
        Operation::Error(e) => e.wf(),
        Operation::Supported(m) => m.wf(),
        Operation::Ready => true,
        _ => false,
    }
}

/// The full wire form of a response frame: a version-4 response header
/// with flags 0 and stream id 0, then the body.
pub open spec fn spec_frame_encode(op: Operation) -> Seq<u8> {
    spec_header_encode(
        Header {
            version: spec_version_byte(ProtocolVersion::V4, MessageDirection::Response),
            flags: 0,
            stream_id: 0,
            op_code: op.spec_op_code(),
            body_length: spec_response_body(op).len() as i32,
        },
    ) + spec_response_body(op)
}

impl CqlFrameCodec {
    /// A fresh codec.
    pub fn new() -> (r: CqlFrameCodec) {
        CqlFrameCodec {}
    }

    /// Try to decode one request frame from the front of `src` without
    /// consuming anything; the caller drains `consumed` bytes on success.
    /// Yields nothing until a whole frame is buffered; an unknown opcode,
    /// a negative body length, or a malformed body is a protocol error.
    pub fn decode(&mut self, src: &Vec<u8>) -> (r: Result<Option<(Operation, usize)>, DbError>)
        ensures
            (r matches Ok(None) <==> spec_needs_more(src@)),
            (r matches Ok(Some((op, consumed))) ==> {
                let h = spec_header_decode(src@);
                let body = src@.subrange(9, 9 + h.body_length);
                &&& h.body_length >= 0
                &&& consumed == 9 + h.body_length
                &&& consumed <= src@.len()
                &&& op.spec_op_code() == h.op_code
                &&& (h.op_code == STARTUP_OP_CODE || h.op_code == OPTIONS_OP_CODE || h.op_code
                    == QUERY_OP_CODE)
                &&& (op matches Operation::Startup(m) ==> (spec_read_string_map(body, 0)
                    matches Some((ps, _)) && m.pairs() == ps))
                &&& (h.op_code == OPTIONS_OP_CODE ==> op is Options)
                &&& (op matches Operation::Query(q) ==> spec_query_matches(body, q))
            }),
            (!spec_needs_more(src@) ==> {
                let h = spec_header_decode(src@);
                let body = src@.subrange(9, 9 + h.body_length);
                &&& (h.body_length >= 0 && h.op_code == STARTUP_OP_CODE && spec_read_string_map(
                    body,
                    0,
                ) is Some ==> (r matches Ok(Some(_))))
                &&& (h.body_length >= 0 && h.op_code == OPTIONS_OP_CODE ==> (r matches Ok(
                Some(_))))
                &&& (h.body_length >= 0 && h.op_code == QUERY_OP_CODE && spec_query_decodable(
                    body,
                ) ==> (r matches Ok(Some(_))))
                &&& (h.body_length >= 0 && !(h.op_code == STARTUP_OP_CODE || h.op_code
                    == OPTIONS_OP_CODE || h.op_code == QUERY_OP_CODE) ==> r is Err)
            }),
            (r matches Err(e) ==> e.code == ErrorCode::ProtocolError),
    {
        if src.len() < 9 {
            return Ok(None);
        }
        let header = Header::from_bytes(src);
        if header.body_length < 0 {
            return Err(
                DbError::new(
                    ErrorCode::ProtocolError,
                    String::from_str("negative frame body length"),
                ),
            );
        }
        if src.len() - 9 < header.body_length as usize {
            return Ok(None);
        }
        let body = match read_raw(src, 9, header.body_length as usize) {
            None => {
                assert(false);
                return Ok(None);
            },
            Some((b, _)) => b,
        };
        let consumed = 9 + header.body_length as usize;
        if header.op_code == STARTUP_OP_CODE {
            match decode_startup(&body) {
                Ok(op) => Ok(Some((op, consumed))),
                Err(e) => Err(e),
            }
        } else if header.op_code == OPTIONS_OP_CODE {
            Ok(Some((Operation::Options, consumed)))
        } else if header.op_code == QUERY_OP_CODE {
            match decode_query(&body) {
                Ok(op) => Ok(Some((op, consumed))),
                Err(e) => Err(e),
            }
        } else {
            Err(
                DbError::new(ErrorCode::ProtocolError, String::from_str("invalid operation")),
            )
        }
    }

    /// Encode one response frame: serialize the body, then emit a
    /// version-4 response header carrying the body's length, then the
    /// body. A frame is never partially emitted: a body too long for the
    /// length field is refused with the buffer untouched.
    pub fn encode(&mut self, item: &Operation, dst: &mut Vec<u8>) -> (r: Result<(), DbError>)
        requires
            spec_encodable(*item),
        ensures
            r is Ok <==> spec_response_body(*item).len() <= i32::MAX,
            (r is Ok ==> final(dst)@ == old(dst)@ + spec_frame_encode(*item)),
            (r is Err ==> final(dst)@ == old(dst)@),
            (r matches Err(e) ==> e.code == ErrorCode::ProtocolError),
    {
        let mut payload: Vec<u8> = Vec::new();
        let op_code = item.op_code();
        match item {
            Operation::Result(res) => encode_result(res, &mut payload),
            Operation::Error(e) => encode_error(e, &mut payload),
            Operation::Supported(m) => encode_supported(m, &mut payload),
            Operation::Ready => {},
            _ => {
                assert(false);
            },
        }
        assert(payload@ == spec_response_body(*item));
        if payload.len() > i32::MAX as usize {
            return Err(
                DbError::new(ErrorCode::ProtocolError, String::from_str("response body too long")),
            );
        }
        let header = Header::new(
            ProtocolVersion::V4,
            MessageDirection::Response,
            0,
            0,
            op_code,
            payload.len() as i32,
        );
        header.to_bytes(dst);
        crate::wire::write_raw(dst, payload.as_slice());
        assert(final(dst)@ =~= old(dst)@ + spec_frame_encode(*item));
        Ok(())
    }
}

/// A response frame is at least one header long and announces the
/// response's opcode in its fifth byte.
pub proof fn lemma_frame_shape(op: Operation)
    ensures
        spec_frame_encode(op).len() >= 9,
        spec_frame_encode(op)[4] == op.spec_op_code(),
{
    let h = Header {
        version: spec_version_byte(ProtocolVersion::V4, MessageDirection::Response),
        flags: 0,
        stream_id: 0,
        op_code: op.spec_op_code(),
        body_length: spec_response_body(op).len() as i32,
    };
    assert(spec_header_encode(h).len() == 9);
    assert(spec_header_encode(h)[4] == h.op_code);
    assert(spec_frame_encode(op)[4] == spec_header_encode(h)[4]);
}

/// Law (framer partial input): feed a frame's bytes in any number of
/// slices; every proper prefix of a complete frame yields nothing, and
/// the decoder consumes exactly the whole frame once its last byte has
/// arrived.
pub proof fn lemma_frame_partial_input(b: Seq<u8>, i: int)
    requires
        b.len() >= 9,
        spec_header_decode(b).body_length == b.len() - 9,
        0 <= i < b.len(),
    ensures
        spec_needs_more(b.take(i)),
        !spec_needs_more(b),
{
    if i < 9 {
    } else {
        let p = b.take(i);
        assert(p[0] == b[0] && p[1] == b[1] && p[2] == b[2] && p[3] == b[3] && p[4] == b[4] && p[5]
            == b[5] && p[6] == b[6] && p[7] == b[7] && p[8] == b[8]);
        assert(spec_header_decode(p) == spec_header_decode(b));
    }
}

} // verus!
