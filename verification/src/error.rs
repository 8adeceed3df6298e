//! Engine-internal error kinds and their mapping to CQL error codes.

use vstd::prelude::*;

verus! {

/// An engine error: a kind and a human-readable message.
#[derive(Debug, Clone)]
pub struct DbError {
    pub code: ErrorCode,
    pub message: String,
}

impl DbError {
    /// Build an error from a kind and a message.
    pub fn new(code: ErrorCode, message: String) -> (r: DbError)
        ensures
            r.code == code,
            r.message@ == message@,
    {
        DbError { code, message }
    }
}

/// The engine's error kinds.
#[derive(Debug, Copy, Clone, PartialEq, Eq, Structural)]
pub enum ErrorCode {
    SyntaxError,
    Unauthorized,
    Invalid,
    ConfigError,
    AlreadyExists,
    Unprepared,
    ReadTimeout,
    WriteTimeout,
    ReadFailure,
    WriteFailure,
    FunctionFailure,
    ProtocolError,
    Overloaded,
    IsBootstrapping,
    TruncateError,
    ServerError,
    Unavailable,
}

impl ErrorCode {
    /// The CQL wire code of each error kind.
    pub open spec fn spec_code(self) -> i32 {
        match self {
            ErrorCode::SyntaxError => 0x2000,
            ErrorCode::Unauthorized => 0x2100,
            ErrorCode::Invalid => 0x2200,
            ErrorCode::ConfigError => 0x2300,
            ErrorCode::AlreadyExists => 0x2400,
            ErrorCode::Unprepared => 0x2500,
            ErrorCode::ReadTimeout => 0x1200,
            ErrorCode::WriteTimeout => 0x1300,
            ErrorCode::ReadFailure => 0x1400,
            ErrorCode::WriteFailure => 0x1500,
            ErrorCode::FunctionFailure => 0x1600,
            ErrorCode::ProtocolError => 0x000A,
            ErrorCode::Overloaded => 0x000B,
            ErrorCode::IsBootstrapping => 0x000C,
            ErrorCode::TruncateError => 0x000D,
            ErrorCode::ServerError => 0x0000,
            ErrorCode::Unavailable => 0x1000,
        }
    }

    /// Map an error kind to its CQL wire code.
    pub fn to_code(&self) -> (r: i32)
        ensures
            r == self.spec_code(),
    {
        match self {
            ErrorCode::SyntaxError => 0x2000,
            ErrorCode::Unauthorized => 0x2100,
            ErrorCode::Invalid => 0x2200,
            ErrorCode::ConfigError => 0x2300,
            ErrorCode::AlreadyExists => 0x2400,
            ErrorCode::Unprepared => 0x2500,
            ErrorCode::ReadTimeout => 0x1200,
            ErrorCode::WriteTimeout => 0x1300,
            ErrorCode::ReadFailure => 0x1400,
            ErrorCode::WriteFailure => 0x1500,
            ErrorCode::FunctionFailure => 0x1600,
            ErrorCode::ProtocolError => 0x000A,
            ErrorCode::Overloaded => 0x000B,
            ErrorCode::IsBootstrapping => 0x000C,
            ErrorCode::TruncateError => 0x000D,
            ErrorCode::ServerError => 0x0000,
            ErrorCode::Unavailable => 0x1000,
        }
    }
}

} // verus!
