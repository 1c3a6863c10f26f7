//! RFC-6455 websocket framing over a byte stream.
//!
//! The library holds what decides: the op-code and error types, the frame
//! writer that lays out a frame's bytes, and the frame reader, a state machine
//! that is fed what each read of the socket gave and says when a message is
//! complete. The socket itself (file descriptors, `fcntl`, `read`, `write`)
//! is driven by the program around it.

pub mod util;
pub mod reader;
pub mod writer;
pub mod laws;

use vstd::prelude::*;
use crate::util::{SetFdError, WriteError};

pub use crate::reader::ReadResult;

verus! {

/// Represents the result of setting a flag to file descriptor through syscalls
pub type SetFdResult = Result<(), SetFdError>;

/// Represents the result of attempting a syscall write on the file descriptor
pub type WriteResult = Result<u64, WriteError>;

/// Stream I/O mode
#[derive(Debug, Clone, Copy, PartialEq, Eq, Structural)]
pub enum Mode {
    /// Blocking I/O
    Block,
    /// Non-blocking I/O
    NonBlock,
}

/// Stage of the frame that the reader is waiting on
#[derive(Debug, Clone, Copy, PartialEq, Eq, Structural)]
pub enum State {
    /// The first byte of a frame, holding the op code
    OpCode,
    /// The second byte, holding the payload length or its key
    PayloadKey,
    /// The extended payload length (two or eight bytes)
    PayloadLength,
    /// The four bytes of the masking key
    MaskingKey,
    /// The payload itself
    Payload,
}

impl State {
    /// The name of the stage, as it is printed.
    pub fn to_string(&self) -> (s: String)
        ensures
            s@ == state_name(*self)@,
    {
        match self {
            State::OpCode => "OpCode".to_owned(),
            State::PayloadKey => "PayloadKey".to_owned(),
            State::PayloadLength => "PayloadLength".to_owned(),
            State::MaskingKey => "MaskingKey".to_owned(),
            State::Payload => "Payload".to_owned(),
        }
    }
}

/// The printed name of each stage.
pub open spec fn state_name(s: State) -> &'static str {
    match s {
        State::OpCode => "OpCode",
        State::PayloadKey => "PayloadKey",
        State::PayloadLength => "PayloadLength",
        State::MaskingKey => "MaskingKey",
        State::Payload => "Payload",
    }
}

} // verus!
