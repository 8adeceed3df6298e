//! The 9-byte frame header: version byte (direction bit and protocol
//! version), flags, stream id, opcode, and body length.

use vstd::prelude::*;

use crate::wire::read_int;
use crate::wire::read_unsigned_short;
use crate::wire::spec_be16;
use crate::wire::spec_be32i;
use crate::wire::spec_u16_of;
use crate::wire::spec_u32_of;
use crate::wire::write_byte;
use crate::wire::write_int;
use crate::wire::write_unsigned_short;

verus! {

/// A CQL protocol version.
#[derive(Debug, Copy, Clone, PartialEq, Eq, Structural)]
pub enum ProtocolVersion {
    V1,
    V2,
    V3,
    V4,
    V5,
}

/// Whether a frame travels to the server or from it.
#[derive(Debug, Copy, Clone, PartialEq, Eq, Structural)]
pub enum MessageDirection {
    Request,
    Response,
}

pub const PROTOCOL_VERSION_MASK: u8 = 0x7F;

pub const MESSAGE_DIRECTION_MASK: u8 = 0x80;

/// A frame header.
#[derive(Debug, Clone)]
pub struct Header {
    pub version: u8,
    pub flags: u8,
    pub stream_id: u16,
    pub op_code: u8,
    pub body_length: i32,
}

impl ProtocolVersion {
    /// The protocol version a masked version byte denotes; anything above
    /// four reads as version five.
    pub open spec fn spec_from_u8(value: u8) -> ProtocolVersion {
        if value == 0x01 {
            ProtocolVersion::V1
        } else if value == 0x02 {
            ProtocolVersion::V2
        } else if value == 0x03 {
            ProtocolVersion::V3
        } else if value == 0x04 {
            ProtocolVersion::V4
        } else {
            ProtocolVersion::V5
        }
    }

    /// Decode a masked version byte.
    pub fn from_u8(value: u8) -> (r: ProtocolVersion)
        ensures
            r == Self::spec_from_u8(value),
    {
        if value == 0x01 {
            ProtocolVersion::V1
        } else if value == 0x02 {
            ProtocolVersion::V2
        } else if value == 0x03 {
            ProtocolVersion::V3
        } else if value == 0x04 {
            ProtocolVersion::V4
        } else {
            ProtocolVersion::V5
        }
    }
}

/// The version byte that encodes a protocol version and a direction;
/// only versions four and five are ever emitted.
pub open spec fn spec_version_byte(
    protocol_version: ProtocolVersion,
    message_direction: MessageDirection,
) -> u8 {
    match message_direction {
        MessageDirection::Request => if protocol_version == ProtocolVersion::V4 {
            0x04
        } else {
            0x05
        },
        MessageDirection::Response => if protocol_version == ProtocolVersion::V4 {
            0x84
        } else {
            0x85
        },
    }
}

/// Wire form of a header: version, flags, stream id, opcode, body length.
pub open spec fn spec_header_encode(h: Header) -> Seq<u8> {
    seq![h.version, h.flags] + spec_be16(h.stream_id) + seq![h.op_code] + spec_be32i(h.body_length)
}

/// The header whose wire form starts the given bytes.
pub open spec fn spec_header_decode(b: Seq<u8>) -> Header {
    Header {
        version: b[0],
        flags: b[1],
        stream_id: spec_u16_of(b[2], b[3]),
        op_code: b[4],
        body_length: spec_u32_of(b[5], b[6], b[7], b[8]) as i32,
    }
}

impl Header {
    /// The protocol version declared in the version byte.
    pub open spec fn spec_protocol_version(self) -> ProtocolVersion {
        ProtocolVersion::spec_from_u8(self.version & PROTOCOL_VERSION_MASK)
    }

    /// The protocol version declared in the version byte.
    pub fn protocol_version(&self) -> (r: ProtocolVersion)
        ensures
            r == self.spec_protocol_version(),
    {
        let byte = self.version & PROTOCOL_VERSION_MASK;
        ProtocolVersion::from_u8(byte)
    }

    /// The direction declared in the version byte's top bit.
    pub open spec fn spec_message_direction(self) -> MessageDirection {
        if self.version & MESSAGE_DIRECTION_MASK == 0x80 {
            MessageDirection::Response
        } else {
            MessageDirection::Request
        }
    }

    /// The direction declared in the version byte's top bit.
    pub fn message_direction(&self) -> (r: MessageDirection)
        ensures
            r == self.spec_message_direction(),
    {
        if self.version & MESSAGE_DIRECTION_MASK == 0x80 {
            MessageDirection::Response
        } else {
            MessageDirection::Request
        }
    }

    /// Build a header; only protocol versions four and five can be
    /// emitted.
    pub fn new(
        protocol_version: ProtocolVersion,
        message_direction: MessageDirection,
        flags: u8,
        stream_id: u16,
        op_code: u8,
        body_length: i32,
    ) -> (r: Header)
        requires
            protocol_version == ProtocolVersion::V4 || protocol_version == ProtocolVersion::V5,
        ensures
            r.version == spec_version_byte(protocol_version, message_direction),
            r.flags == flags,
            r.stream_id == stream_id,
            r.op_code == op_code,
            r.body_length == body_length,
            r.spec_protocol_version() == protocol_version,
            r.spec_message_direction() == message_direction,
    {
        let version: u8 = match message_direction {
            MessageDirection::Request => match protocol_version {
                ProtocolVersion::V4 => 0x04,
                _ => 0x05,
            },
            MessageDirection::Response => match protocol_version {
                ProtocolVersion::V4 => 0x84,
                _ => 0x85,
            },
        };
        assert((0x04u8 & 0x7F) == 0x04 && (0x05u8 & 0x7F) == 0x05 && (0x84u8 & 0x7F) == 0x04 && (
        0x85u8 & 0x7F) == 0x05) by (bit_vector);
        assert((0x04u8 & 0x80) == 0x00 && (0x05u8 & 0x80) == 0x00 && (0x84u8 & 0x80) == 0x80 && (
        0x85u8 & 0x80) == 0x80) by (bit_vector);
        Header { version, flags, stream_id, op_code, body_length }
    }

    /// Read a header from the first nine bytes of a buffer.
    pub fn from_bytes(src: &Vec<u8>) -> (r: Header)
        requires
            src@.len() >= 9,
        ensures
            r == spec_header_decode(src@),
    {
        let stream_id = match read_unsigned_short(src, 2) {
            Some((v, _)) => v,
            None => {
                assert(false);
                0u16
            },
        };
        let body_length = match read_int(src, 5) {
            Some((v, _)) => v,
            None => {
                assert(false);
                0i32
            },
        };
        Header { version: src[0], flags: src[1], stream_id, op_code: src[4], body_length }
    }

    /// Append a header's nine bytes to a buffer.
    pub fn to_bytes(&self, buf: &mut Vec<u8>)
        ensures
            final(buf)@ == old(buf)@ + spec_header_encode(*self),
    {
        write_byte(buf, self.version);
        write_byte(buf, self.flags);
        write_unsigned_short(buf, self.stream_id);
        write_byte(buf, self.op_code);
        write_int(buf, self.body_length);
        assert(final(buf)@ =~= old(buf)@ + spec_header_encode(*self));
    }
}

/// Law (header preservation): a header built from a protocol version, a
/// direction, flags, a stream id, an opcode and a body length, written to
/// its nine wire bytes and read back, yields those five fields and, through
/// the version byte, the same protocol version and direction.
pub proof fn lemma_header_round_trip(
    protocol_version: ProtocolVersion,
    message_direction: MessageDirection,
    flags: u8,
    stream_id: u16,
    op_code: u8,
    body_length: i32,
    h: Header,
)
    requires
        protocol_version == ProtocolVersion::V4 || protocol_version == ProtocolVersion::V5,
        0 <= body_length,
        h.version == spec_version_byte(protocol_version, message_direction),
        h.flags == flags,
        h.stream_id == stream_id,
        h.op_code == op_code,
        h.body_length == body_length,
    ensures
        ({
            let d = spec_header_decode(spec_header_encode(h));
            &&& d == h
            &&& d.spec_protocol_version() == protocol_version
            &&& d.spec_message_direction() == message_direction
            &&& d.flags == flags
            &&& d.stream_id == stream_id
            &&& d.op_code == op_code
            &&& d.body_length == body_length
        }),
{
    broadcast use crate::wire::lemma_be16_of;
    broadcast use crate::wire::lemma_be32_of;
    broadcast use crate::wire::lemma_i32_bits;

    let b = spec_header_encode(h);
    let d = spec_header_decode(b);
    assert(b[2] == (h.stream_id >> 8) as u8 && b[3] == h.stream_id as u8);
    let u = h.body_length as u32;
    assert(b[5] == (u >> 24) as u8 && b[6] == (u >> 16) as u8 && b[7] == (u >> 8) as u8 && b[8]
        == u as u8);
    assert(d.stream_id == h.stream_id);
    assert(d.body_length == h.body_length);
    assert((0x04u8 & 0x7F) == 0x04 && (0x05u8 & 0x7F) == 0x05 && (0x84u8 & 0x7F) == 0x04 && (0x85u8
        & 0x7F) == 0x05) by (bit_vector);
    assert((0x04u8 & 0x80) == 0x00 && (0x05u8 & 0x80) == 0x00 && (0x84u8 & 0x80) == 0x80 && (0x85u8
        & 0x80) == 0x80) by (bit_vector);
}

} // verus!
