//! Errors that reach the HTTP boundary.
use vstd::prelude::*;

use crate::playlist::{append_decimal, decimal};

verus! {

/// What went wrong while serving a playlist or a segment.
#[derive(Debug)]
pub enum AppError {
    VideoNotFound(String),
    InvalidSegmentName,
    InvalidStreamType(String),
    InvalidCodec(String),
    CommandFail(String),
    NativeCallFailed(i32),
    IndexOutOfRange,
    Error(String),
    NotImplemented,
}

/// HTTP status with which an error is answered: 404 for an unknown asset,
/// 500 for everything else.
pub open spec fn status_of(e: AppError) -> u16 {
    match e {
        AppError::VideoNotFound(_) => 404,
        _ => 500,
    }
}

/// Decimal text of a signed integer.
pub open spec fn signed_decimal(c: int) -> Seq<char> {
    if c < 0 {
        seq!['-'] + decimal((-c) as nat)
    } else {
        decimal(c as nat)
    }
}

/// The message with which an error is reported.
pub open spec fn message_of(e: AppError) -> Seq<char> {
    match e {
        AppError::VideoNotFound(m) => "Video Not Found: "@ + m@,
        AppError::InvalidSegmentName => "Video segment string is wrong"@,
        AppError::InvalidStreamType(m) => "Invalid stream type: "@ + m@,
        AppError::InvalidCodec(m) => "Invalid codec: "@ + m@,
        AppError::CommandFail(m) => "Command failed: "@ + m@,
        AppError::NativeCallFailed(c) => "native call failed with code "@ + signed_decimal(
            c as int,
        ),
        AppError::IndexOutOfRange => "segment index out of range"@,
        AppError::Error(m) => "generic error: "@ + m@,
        AppError::NotImplemented => "not implemented"@,
    }
}

impl AppError {
    /// The HTTP status with which this error is answered.
    pub fn status_code(&self) -> (r: u16)
        ensures
            r == status_of(*self),
    {
        match self {
            AppError::VideoNotFound(_) => 404,
            _ => 500,
        }
    }

    /// The message with which this error is reported.
    pub fn message(&self) -> (r: String)
        ensures
            r@ == message_of(*self),
    {
        match self {
            AppError::VideoNotFound(m) => String::from_str("Video Not Found: ").concat(m.as_str()),
            AppError::InvalidSegmentName => String::from_str("Video segment string is wrong"),
            AppError::InvalidStreamType(m) => String::from_str("Invalid stream type: ").concat(
                m.as_str(),
            ),
            AppError::InvalidCodec(m) => String::from_str("Invalid codec: ").concat(m.as_str()),
            AppError::CommandFail(m) => String::from_str("Command failed: ").concat(m.as_str()),
            AppError::NativeCallFailed(c) => {
                let mut out = String::from_str("native call failed with code ");
                if *c < 0 {
                    proof {
                        reveal_strlit("-");
                    }
                    out.append("-");
                    append_decimal(&mut out, (-(*c as i64)) as u64);
                } else {
                    append_decimal(&mut out, *c as u64);
                }
                assert(out@ =~= message_of(*self));
                out
            },
            AppError::IndexOutOfRange => String::from_str("segment index out of range"),
            AppError::Error(m) => String::from_str("generic error: ").concat(m.as_str()),
            AppError::NotImplemented => String::from_str("not implemented"),
        }
    }
}

} // verus!
