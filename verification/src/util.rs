//! Op codes, masks and the error types of the stream.

use vstd::prelude::*;

verus! {

/// Decodes OpCode
pub const OP_CODE_UN_MASK: u8 = 0b0000_1111;

/// Encodes OpCode
pub const OP_CODE_MASK: u8 = 0b1000_0000;

/// Decodes payload
pub const PAYLOAD_KEY_UN_MASK: u8 = 0b0111_1111;

/// Continuation Op byte
pub const OP_CONTINUATION: u8 = 0x0;

/// Text Op byte
pub const OP_TEXT: u8 = 0x1;

/// Binary Op byte
pub const OP_BINARY: u8 = 0x2;

/// Close Op byte
pub const OP_CLOSE: u8 = 0x8;

/// Ping Op byte
pub const OP_PING: u8 = 0x9;

/// Pong Op byte
pub const OP_PONG: u8 = 0xA;

/// Kind of a websocket frame
#[derive(Debug, Clone, Copy, PartialEq, Eq, Structural)]
pub enum OpCode {
    /// Continuation frame from last packed
    Continuation,
    /// UTF-8 text data
    Text,
    /// Binary data as u8
    Binary,
    /// Indicates client has closed connection
    Close,
    /// Heartbeat requested from client
    Ping,
    /// Heartbeat response to ping frame
    /// Can also be sent without a ping request
    Pong,
}

/// The four-bit code that stands for each op code on the wire.
pub open spec fn op_code_bits(op: OpCode) -> u8 {
    match op {
        OpCode::Continuation => OP_CONTINUATION,
        OpCode::Text => OP_TEXT,
        OpCode::Binary => OP_BINARY,
        OpCode::Close => OP_CLOSE,
        OpCode::Ping => OP_PING,
        OpCode::Pong => OP_PONG,
    }
}

/// The op code that a four-bit code stands for, if any.
pub open spec fn op_code_of_bits(bits: u8) -> Option<OpCode> {
    if bits == OP_CONTINUATION {
        Some(OpCode::Continuation)
    } else if bits == OP_TEXT {
        Some(OpCode::Text)
    } else if bits == OP_BINARY {
        Some(OpCode::Binary)
    } else if bits == OP_CLOSE {
        Some(OpCode::Close)
    } else if bits == OP_PING {
        Some(OpCode::Ping)
    } else if bits == OP_PONG {
        Some(OpCode::Pong)
    } else {
        None
    }
}

impl OpCode {
    /// The four-bit code of this op code.
    pub fn bits(&self) -> (b: u8)
        ensures
            b == op_code_bits(*self),
    {
        match self {
            OpCode::Continuation => OP_CONTINUATION,
            OpCode::Text => OP_TEXT,
            OpCode::Binary => OP_BINARY,
            OpCode::Close => OP_CLOSE,
            OpCode::Ping => OP_PING,
            OpCode::Pong => OP_PONG,
        }
    }

    /// The op code that the low four bits of a frame's first byte name;
    /// `None` for the codes that RFC-6455 reserves.
    pub fn from_first_byte(byte: u8) -> (op: Option<OpCode>)
        ensures
            op == op_code_of_bits(byte & OP_CODE_UN_MASK),
    {
        let bits = byte & OP_CODE_UN_MASK;
        if bits == OP_CONTINUATION {
            Some(OpCode::Continuation)
        } else if bits == OP_TEXT {
            Some(OpCode::Text)
        } else if bits == OP_BINARY {
            Some(OpCode::Binary)
        } else if bits == OP_CLOSE {
            Some(OpCode::Close)
        } else if bits == OP_PING {
            Some(OpCode::Ping)
        } else if bits == OP_PONG {
            Some(OpCode::Pong)
        } else {
            None
        }
    }
}

/// Errors of reading a frame
#[derive(Debug, Clone, Copy, PartialEq, Eq, Structural)]
pub enum ReadError {
    /// fd is not a valid file descriptor or is not open for reading
    EBADF,
    /// buf is outside your accessible address space
    EFAULT,
    /// The call was interrupted by a signal before any data was read
    EINTR,
    /// fd is attached to an object which is unsuitable for reading;
    /// or the file was opened with the O_DIRECT flag, and either the address
    /// specified in buf, the value specified in count, or the current file
    /// offset is not suitably aligned
    EINVAL,
    /// I/O error. This will happen for example when the process is in a
    /// background process group, tries to read from its controlling tty,
    /// and either it is ignoring or blocking SIGTTIN or its process group
    /// is orphaned. It may also occur when there is a low-level I/O error
    /// while reading from a disk or tape.
    EIO,
    /// fd refers to a directory.
    EISDIR,
    /// Invalid OpCode.
    /// According to RFC-6455: "If an unknown opcode is received,
    /// the receiving endpoint MUST _Fail the WebSocket Connection_"
    OpCode,
    /// Returned when the number of bytes requested to read is greater than
    /// zero, but the number of bytes read was zero
    DataStop,
    /// Returned when there is no data waiting to be read
    NoData,
    /// No data was waiting to be read and the read would have blocked
    /// (non-blocking mode)
    EAGAIN,
    /// The system could not give memory for the read
    ENOMEM,
}

/// Errors of writing a frame
#[derive(Debug, Clone, Copy, PartialEq, Eq, Structural)]
pub enum WriteError {
    /// Non-blocking I/O has been selected using O_NONBLOCK and the
    /// write would block.
    EAGAIN,
    /// fd is not a valid file descriptor or is not open for writing.
    EBADF,
    /// buf is outside your accessible address space.
    EFAULT,
    /// An attempt was made to write a file that exceeds the
    /// implementation-defined maximum file size or the process’ file size
    /// limit, or to write at a position past the maximum allowed offset.
    EFBIG,
    /// The call was interrupted by a signal before any data was written.
    EINTR,
    /// fd is attached to an object which is unsuitable for writing; or the
    /// file was opened with the O_DIRECT flag, and either the address
    /// specified in buf, the value specified in count, or the current file
    /// offset is not suitably aligned.
    EINVAL,
    /// A low-level I/O error occurred while modifying the inode.
    EIO,
    /// The device containing the file referred to by fd has no room for
    /// the data.
    ENOSPC,
    /// fd is connected to a pipe or socket whose reading end is closed.
    /// When this happens the writing process will also receive a SIGPIPE
    /// signal. (Thus, the write return value is seen only if the program
    /// catches, blocks or ignores this signal.)
    EPIPE,
}

/// Errors of setting a flag on the file descriptor
#[derive(Debug, Clone, Copy, PartialEq, Eq, Structural)]
pub enum SetFdError {
    /// Operation is prohibited by locks held by other processes.
    EACCES,
    /// Operation is prohibited by locks held by other processes.
    EAGAIN,
    /// fd is not an open file descriptor, or the command was F_SETLK or
    /// F_SETLKW and the file descriptor open mode doesn’t match with the
    /// type of lock requested.
    EBADF,
    /// It was detected that the specified F_SETLKW command would
    /// cause a deadlock.
    EDEADLK,
    /// lock is outside your accessible address space.
    EFAULT,
    /// For F_SETLKW, the command was interrupted by a signal. For F_GETLK
    /// and F_SETLK, the command was interrupted by a signal before the lock
    /// was checked or acquired. Most likely when locking a remote file
    /// (e.g. locking over NFS), but can sometimes happen locally.
    EINTR,
    /// For F_DUPFD, arg is negative or is greater than the maximum allowable
    /// value. For F_SETSIG, arg is not an allowable signal number.
    EINVAL,
    /// For F_DUPFD, the process already has the maximum number of file
    /// descriptors open.
    EMFILE,
    /// Too many segment locks open, lock table is full, or a remote locking
    /// protocol failed (e.g. locking over NFS).
    ENOLCK,
    /// Attempted to clear the O_APPEND flag on a file that has the
    /// append-only attribute set.
    EPERM,
}

/// The printed name of each read error.
pub open spec fn read_error_name(e: ReadError) -> &'static str {
    match e {
        ReadError::EBADF => "EBADF",
        ReadError::EFAULT => "EFAULT",
        ReadError::EINTR => "EINTR",
        ReadError::EINVAL => "EINVAL",
        ReadError::EIO => "EIO",
        ReadError::EISDIR => "EISDIR",
        ReadError::OpCode => "OpCode",
        ReadError::DataStop => "DataStop",
        ReadError::NoData => "NoData",
        ReadError::EAGAIN => "EAGAIN",
        ReadError::ENOMEM => "ENOMEM",
    }
}

/// The printed name of each write error.
pub open spec fn write_error_name(e: WriteError) -> &'static str {
    match e {
        WriteError::EAGAIN => "EAGAIN",
        WriteError::EBADF => "EBADF",
        WriteError::EFAULT => "EFAULT",
        WriteError::EFBIG => "EFBIG",
        WriteError::EINTR => "EINTR",
        WriteError::EINVAL => "EINVAL",
        WriteError::EIO => "EIO",
        WriteError::ENOSPC => "ENOSPC",
        WriteError::EPIPE => "EPIPE",
    }
}

/// The printed name of each error of setting a flag.
pub open spec fn set_fd_error_name(e: SetFdError) -> &'static str {
    match e {
        SetFdError::EACCES => "EACCES",
        SetFdError::EAGAIN => "EAGAIN",
        SetFdError::EBADF => "EBADF",
        SetFdError::EDEADLK => "EDEADLK",
        SetFdError::EFAULT => "EFAULT",
        SetFdError::EINTR => "EINTR",
        SetFdError::EINVAL => "EINVAL",
        SetFdError::EMFILE => "EMFILE",
        SetFdError::ENOLCK => "ENOLCK",
        SetFdError::EPERM => "EPERM",
    }
}

impl ReadError {
    /// The name of the error, as it is printed.
    pub fn to_string(&self) -> (s: String)
        ensures
            s@ == read_error_name(*self)@,
    {
        match self {
            ReadError::EBADF => "EBADF".to_owned(),
            ReadError::EFAULT => "EFAULT".to_owned(),
            ReadError::EINTR => "EINTR".to_owned(),
            ReadError::EINVAL => "EINVAL".to_owned(),
            ReadError::EIO => "EIO".to_owned(),
            ReadError::EISDIR => "EISDIR".to_owned(),
            ReadError::OpCode => "OpCode".to_owned(),
            ReadError::DataStop => "DataStop".to_owned(),
            ReadError::NoData => "NoData".to_owned(),
            ReadError::EAGAIN => "EAGAIN".to_owned(),
            ReadError::ENOMEM => "ENOMEM".to_owned(),
        }
    }
}

impl WriteError {
    /// The name of the error, as it is printed.
    pub fn to_string(&self) -> (s: String)
        ensures
            s@ == write_error_name(*self)@,
    {
        match self {
            WriteError::EAGAIN => "EAGAIN".to_owned(),
            WriteError::EBADF => "EBADF".to_owned(),
            WriteError::EFAULT => "EFAULT".to_owned(),
            WriteError::EFBIG => "EFBIG".to_owned(),
            WriteError::EINTR => "EINTR".to_owned(),
            WriteError::EINVAL => "EINVAL".to_owned(),
            WriteError::EIO => "EIO".to_owned(),
            WriteError::ENOSPC => "ENOSPC".to_owned(),
            WriteError::EPIPE => "EPIPE".to_owned(),
        }
    }
}

impl SetFdError {
    /// The name of the error, as it is printed.
    pub fn to_string(&self) -> (s: String)
        ensures
            s@ == set_fd_error_name(*self)@,
    {
        match self {
            SetFdError::EACCES => "EACCES".to_owned(),
            SetFdError::EAGAIN => "EAGAIN".to_owned(),
            SetFdError::EBADF => "EBADF".to_owned(),
            SetFdError::EDEADLK => "EDEADLK".to_owned(),
            SetFdError::EFAULT => "EFAULT".to_owned(),
            SetFdError::EINTR => "EINTR".to_owned(),
            SetFdError::EINVAL => "EINVAL".to_owned(),
            SetFdError::EMFILE => "EMFILE".to_owned(),
            SetFdError::ENOLCK => "ENOLCK".to_owned(),
            SetFdError::EPERM => "EPERM".to_owned(),
        }
    }
}

} // verus!
