use vstd::prelude::*;

verus! {

/// Error codes carried on the wire and surfaced to callers.
#[derive(Clone, Copy, Debug, PartialEq, Eq, Structural)]
pub enum ErrorCode {
    NoError,
    Protocol,
    Internal,
    FlowControl,
    StreamClosed,
    FrameSize,
    StreamRefused,
    Cancel,
    EnhanceYourCalm,
    RemoteGoneAway,
    StreamsExhausted,
    SessionClosed,
    /// A code this side does not know, kept as it came.
    Unknown(u32),
}

/// The 32-bit wire value of an error code.
pub open spec fn code_of(e: ErrorCode) -> u32 {
    match e {
        ErrorCode::NoError => 0x00,
        ErrorCode::Protocol => 0x01,
        ErrorCode::Internal => 0x02,
        ErrorCode::FlowControl => 0x03,
        ErrorCode::StreamClosed => 0x04,
        ErrorCode::FrameSize => 0x05,
        ErrorCode::StreamRefused => 0x06,
        ErrorCode::Cancel => 0x07,
        ErrorCode::EnhanceYourCalm => 0x08,
        ErrorCode::RemoteGoneAway => 0x09,
        ErrorCode::StreamsExhausted => 0x0A,
        ErrorCode::SessionClosed => 0x0B,
        ErrorCode::Unknown(c) => c,
    }
}

/// The error code that a wire value names.
pub open spec fn error_of(c: u32) -> ErrorCode {
    if c == 0x00 {
        ErrorCode::NoError
    } else if c == 0x01 {
        ErrorCode::Protocol
    } else if c == 0x02 {
        ErrorCode::Internal
    } else if c == 0x03 {
        ErrorCode::FlowControl
    } else if c == 0x04 {
        ErrorCode::StreamClosed
    } else if c == 0x05 {
        ErrorCode::FrameSize
    } else if c == 0x06 {
        ErrorCode::StreamRefused
    } else if c == 0x07 {
        ErrorCode::Cancel
    } else if c == 0x08 {
        ErrorCode::EnhanceYourCalm
    } else if c == 0x09 {
        ErrorCode::RemoteGoneAway
    } else if c == 0x0A {
        ErrorCode::StreamsExhausted
    } else if c == 0x0B {
        ErrorCode::SessionClosed
    } else {
        ErrorCode::Unknown(c)
    }
}

/// A code is canonical when it is not an `Unknown` standing for a known value.
pub open spec fn canonical(e: ErrorCode) -> bool {
    match e {
        ErrorCode::Unknown(c) => c > 0x0B,
        _ => true,
    }
}

impl ErrorCode {
    /// The wire value of this code.
    pub fn code(&self) -> (r: u32)
        ensures
            r == code_of(*self),
    {
        match self {
            ErrorCode::NoError => 0x00,
            ErrorCode::Protocol => 0x01,
            ErrorCode::Internal => 0x02,
            ErrorCode::FlowControl => 0x03,
            ErrorCode::StreamClosed => 0x04,
            ErrorCode::FrameSize => 0x05,
            ErrorCode::StreamRefused => 0x06,
            ErrorCode::Cancel => 0x07,
            ErrorCode::EnhanceYourCalm => 0x08,
            ErrorCode::RemoteGoneAway => 0x09,
            ErrorCode::StreamsExhausted => 0x0A,
            ErrorCode::SessionClosed => 0x0B,
            ErrorCode::Unknown(c) => *c,
        }
    }

    /// The error code named by a wire value; unknown values are kept.
    pub fn from_code(c: u32) -> (r: ErrorCode)
        ensures
            r == error_of(c),
            canonical(r),
    {
        if c == 0x00 {
            ErrorCode::NoError
        } else if c == 0x01 {
            ErrorCode::Protocol
        } else if c == 0x02 {
            ErrorCode::Internal
        } else if c == 0x03 {
            ErrorCode::FlowControl
        } else if c == 0x04 {
            ErrorCode::StreamClosed
        } else if c == 0x05 {
            ErrorCode::FrameSize
        } else if c == 0x06 {
            ErrorCode::StreamRefused
        } else if c == 0x07 {
            ErrorCode::Cancel
        } else if c == 0x08 {
            ErrorCode::EnhanceYourCalm
        } else if c == 0x09 {
            ErrorCode::RemoteGoneAway
        } else if c == 0x0A {
            ErrorCode::StreamsExhausted
        } else if c == 0x0B {
            ErrorCode::SessionClosed
        } else {
            ErrorCode::Unknown(c)
        }
    }
}

/// Reading a code back from its wire value gives the code again, for every
/// canonical code; and every wire value survives the trip the other way.
pub proof fn lemma_code_round_trip(e: ErrorCode, c: u32)
    requires
        canonical(e),
    ensures
        error_of(code_of(e)) == e,
        code_of(error_of(c)) == c,
{
}

} // verus!
