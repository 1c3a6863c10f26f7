//! The frame reader: a state machine that is fed the outcome of each read of
//! the socket and says when a whole message has come in.
//!
//! A frame is read in stages (see [`State`]): the op-code byte, the payload
//! key byte, the extended payload length if the key asks for one, the four
//! bytes of the masking key, and the payload. Each stage keeps what came in
//! until it is whole, so a read that gives fewer bytes than were asked for
//! loses nothing. The payload is unmasked and handed out with its op code as
//! soon as its last byte has come in.
//!
//! While the payload is incomplete and a read finds no data waiting
//! (`EAGAIN`), the reader asks for three more reads; when these find nothing
//! either, it gives up on the message and waits for a new frame. A read that
//! gives zero bytes (the peer has stopped sending) ends the reading with
//! `ReadError::DataStop` and keeps what came in so far.

use vstd::prelude::*;
use crate::State;
use crate::util::{OpCode, ReadError, op_code_of_bits, OP_CODE_UN_MASK, PAYLOAD_KEY_UN_MASK};

verus! {

/// What a reading of a frame gives: the op code and the unmasked payload.
pub type ReadResult = Result<(OpCode, Vec<u8>), ReadError>;

/// How often the reader asks again for payload bytes that did not come,
/// before it gives the message up.
pub const PAYLOAD_RETRIES: u8 = 3;

/// The abstract state of a reader.
#[verifier::ext_equal]
pub struct ReaderView {
    /// The stage of the frame being read
    pub state: State,
    /// The op code of the frame being read
    pub op_code: OpCode,
    /// The payload key (the second byte, its mask bit removed)
    pub payload_key: u8,
    /// The payload length
    pub payload_len: u64,
    /// The masking key
    pub masking_key: Seq<u8>,
    /// The bytes of the current stage that have come in so far
    pub buf: Seq<u8>,
    /// How many reads in a row gave no payload data
    pub misses: nat,
}

/// Number of bytes of the extended payload length that a payload key calls for.
pub open spec fn length_bytes(key: u8) -> nat {
    if key == 126 {
        2
    } else if key == 127 {
        8
    } else {
        0
    }
}

/// The number that a sequence of bytes stands for, most significant byte first.
pub open spec fn be_value(s: Seq<u8>) -> u64
    decreases s.len(),
{
    if s.len() == 0 {
        0
    } else {
        (be_value(s.drop_last()) << 8u64) | (s.last() as u64)
    }
}

/// Each byte of `data` XORed with the byte of `mask` at its position modulo four.
pub open spec fn apply_mask(data: Seq<u8>, mask: Seq<u8>) -> Seq<u8> {
    Seq::new(data.len(), |i: int| data[i] ^ mask[i % 4])
}

/// The size of the field that the current stage reads.
pub open spec fn stage_size(m: ReaderView) -> nat {
    match m.state {
        State::OpCode => 1,
        State::PayloadKey => 1,
        State::PayloadLength => length_bytes(m.payload_key),
        State::MaskingKey => 4,
        State::Payload => m.payload_len as nat,
    }
}

/// A reader whose op-code stage has seen a byte with a reserved op code:
/// the connection has failed.
pub open spec fn failed(m: ReaderView) -> bool {
    m.state == State::OpCode && m.buf.len() > 0
}

/// What every reader keeps true.
pub open spec fn reader_wf(m: ReaderView) -> bool {
    &&& m.masking_key.len() == 4
    &&& m.misses <= PAYLOAD_RETRIES
    &&& match m.state {
        State::OpCode => m.buf.len() == 0 || (m.buf.len() == 1 && op_code_of_bits(
            m.buf[0] & OP_CODE_UN_MASK,
        ) is None),
        State::PayloadKey => m.buf.len() == 0,
        State::PayloadLength => (m.payload_key == 126 || m.payload_key == 127) && m.buf.len()
            < length_bytes(m.payload_key),
        State::MaskingKey => m.buf.len() < 4,
        State::Payload => m.buf.len() < m.payload_len,
    }
}

/// The number of bytes that the next read should ask for: one in the
/// op-code stage, else what the current field still lacks, capped at
/// `usize::MAX`.
pub open spec fn wanted_of(m: ReaderView) -> nat {
    if m.state == State::OpCode {
        1
    } else {
        let missing = (stage_size(m) - m.buf.len()) as nat;
        if missing > usize::MAX {
            usize::MAX as nat
        } else {
            missing
        }
    }
}

/// The reader after a message: waiting for the op code of the next frame.
pub open spec fn idle(m: ReaderView) -> ReaderView {
    ReaderView { state: State::OpCode, buf: Seq::empty(), misses: 0, ..m }
}

/// What the reader does with a read that found no data waiting (`EAGAIN`).
pub open spec fn on_no_data(m: ReaderView) -> (ReaderView, Option<Result<(OpCode, Seq<u8>), ReadError>>) {
    if m.state == State::Payload {
        if m.misses + 1 > PAYLOAD_RETRIES {
            (idle(m), Some(Err(ReadError::EAGAIN)))
        } else {
            (ReaderView { misses: m.misses + 1, ..m }, None)
        }
    } else {
        (m, Some(Err(ReadError::EAGAIN)))
    }
}

/// What the reader does with bytes that a read gave.
pub open spec fn on_data(m: ReaderView, bytes: Seq<u8>) -> (ReaderView, Option<Result<(OpCode, Seq<u8>), ReadError>>) {
    match m.state {
        State::OpCode => {
            if m.buf.len() > 0 {
                (m, Some(Err(ReadError::OpCode)))
            } else {
                match op_code_of_bits(bytes[0] & OP_CODE_UN_MASK) {
                    Some(op) => (
                        ReaderView { state: State::PayloadKey, op_code: op, buf: Seq::empty(), misses: 0, ..m },
                        None,
                    ),
                    None => (ReaderView { buf: seq![bytes[0]], ..m }, Some(Err(ReadError::OpCode))),
                }
            }
        },
        State::PayloadKey => {
            let key = bytes[0] & PAYLOAD_KEY_UN_MASK;
            if key == 126 || key == 127 {
                (ReaderView { state: State::PayloadLength, payload_key: key, buf: Seq::empty(), ..m }, None)
            } else {
                (
                    ReaderView {
                        state: State::MaskingKey,
                        payload_key: key,
                        payload_len: key as u64,
                        buf: Seq::empty(),
                        ..m
                    },
                    None,
                )
            }
        },
        State::PayloadLength => {
            let buf = m.buf + bytes;
            if buf.len() < length_bytes(m.payload_key) {
                (ReaderView { buf: buf, ..m }, None)
            } else {
                (
                    ReaderView {
                        state: State::MaskingKey,
                        payload_len: be_value(buf),
                        buf: Seq::empty(),
                        ..m
                    },
                    None,
                )
            }
        },
        State::MaskingKey => {
            let buf = m.buf + bytes;
            if buf.len() < 4 {
                (ReaderView { buf: buf, ..m }, None)
            } else if m.payload_len == 0 {
                (idle(ReaderView { masking_key: buf, ..m }), Some(Ok((m.op_code, Seq::empty()))))
            } else {
                (
                    ReaderView { state: State::Payload, masking_key: buf, buf: Seq::empty(), misses: 0, ..m },
                    None,
                )
            }
        },
        State::Payload => {
            let buf = m.buf + bytes;
            if buf.len() < m.payload_len {
                (ReaderView { buf: buf, misses: 0, ..m }, None)
            } else {
                (idle(m), Some(Ok((m.op_code, apply_mask(buf, m.masking_key)))))
            }
        },
    }
}

/// One step of the reader: its new state and, when the reading ends here,
/// what the reading gives (`None`: read again).
pub open spec fn step(m: ReaderView, got: Result<Seq<u8>, ReadError>) -> (ReaderView, Option<
    Result<(OpCode, Seq<u8>), ReadError>,
>) {
    match got {
        Ok(bytes) => if bytes.len() == 0 {
            (m, Some(Err(ReadError::DataStop)))
        } else {
            on_data(m, bytes)
        },
        Err(ReadError::EAGAIN) => on_no_data(m),
        Err(e) => (m, Some(Err(e))),
    }
}

/// The abstract value of a read's outcome.
pub open spec fn got_view(got: Result<Vec<u8>, ReadError>) -> Result<Seq<u8>, ReadError> {
    match got {
        Ok(v) => Ok(v@),
        Err(e) => Err(e),
    }
}

/// The abstract value of what a reading gives.
pub open spec fn outcome_view(r: Option<ReadResult>) -> Option<Result<(OpCode, Seq<u8>), ReadError>> {
    match r {
        None => None,
        Some(Ok((op, payload))) => Some(Ok((op, payload@))),
        Some(Err(e)) => Some(Err(e)),
    }
}

/// Reads websocket frames out of the outcomes of successive reads.
pub struct FrameReader {
    state: State,
    op_code: OpCode,
    payload_key: u8,
    payload_len: u64,
    masking_key: [u8; 4],
    buf: Vec<u8>,
    misses: u8,
}

impl View for FrameReader {
    type V = ReaderView;

    closed spec fn view(&self) -> ReaderView {
        ReaderView {
            state: self.state,
            op_code: self.op_code,
            payload_key: self.payload_key,
            payload_len: self.payload_len,
            masking_key: self.masking_key@,
            buf: self.buf@,
            misses: self.misses as nat,
        }
    }
}

impl FrameReader {
    #[verifier::type_invariant]
    closed spec fn inv(self) -> bool {
        reader_wf(self@)
    }

    /// A reader waiting for the first frame.
    pub fn new() -> (r: FrameReader)
        ensures
            r@.state == State::OpCode,
            r@.buf == Seq::<u8>::empty(),
            r@.misses == 0,
            r@.op_code == OpCode::Text,
            r@.payload_key == 0,
            r@.payload_len == 0,
            r@.masking_key == seq![0u8, 0u8, 0u8, 0u8],
    {
        let r = FrameReader {
            state: State::OpCode,
            op_code: OpCode::Text,
            payload_key: 0,
            payload_len: 0,
            masking_key: [0u8; 4],
            buf: Vec::new(),
            misses: 0,
        };
        assert(r.masking_key@ =~= seq![0u8, 0u8, 0u8, 0u8]);
        r
    }

    /// The stage of the frame that the reader is in.
    pub fn state(&self) -> (s: State)
        ensures
            s == self@.state,
    {
        self.state
    }

    /// How many bytes the next read should ask for; never zero.
    pub fn wanted(&self) -> (n: usize)
        ensures
            n == wanted_of(self@),
            n >= 1,
    {
        proof {
            use_type_invariant(self);
        }
        match self.state {
            State::OpCode => 1,
            State::PayloadKey => 1,
            State::PayloadLength => {
                if self.payload_key == 126 {
                    2 - self.buf.len()
                } else {
                    8 - self.buf.len()
                }
            },
            State::MaskingKey => 4 - self.buf.len(),
            State::Payload => {
                let missing: u64 = self.payload_len - self.buf.len() as u64;
                if missing > usize::MAX as u64 {
                    usize::MAX
                } else {
                    missing as usize
                }
            },
        }
    }
    /// Feeds the reader what a read of the socket gave: the bytes read, or
    /// the read's error. A read that gives no bytes ends the reading with
    /// `ReadError::DataStop` and leaves the reader as it was. Gives `None` when
    /// the reading goes on with another read of [`FrameReader::wanted`]
    /// bytes, else what the reading ends with.
    pub fn feed(&mut self, got: Result<Vec<u8>, ReadError>) -> (r: Option<ReadResult>)
        requires
            got matches Ok(bytes) ==> bytes@.len() <= wanted_of(old(self)@),
        ensures
            (final(self)@, outcome_view(r)) == step(old(self)@, got_view(got)),
            reader_wf(final(self)@),
    {
        proof {
            use_type_invariant(&*self);
        }
        let bytes = match got {
            Err(ReadError::EAGAIN) => {
                let r = self.on_no_data();
                proof {
                    use_type_invariant(&*self);
                }
                return r;
            },
            Err(e) => {
                return Some(Err(e));
            },
            Ok(bytes) => bytes,
        };
        if bytes.len() == 0 {
            return Some(Err(ReadError::DataStop));
        }
        let r = match self.state {
            State::OpCode => self.on_op_code(bytes[0]),
            State::PayloadKey => self.on_payload_key(bytes[0]),
            State::PayloadLength => self.on_length(bytes),
            State::MaskingKey => self.on_masking_key(bytes),
            State::Payload => self.on_payload(bytes),
        };
        proof {
            use_type_invariant(&*self);
        }
        r
    }

    fn on_no_data(&mut self) -> (r: Option<ReadResult>)
        ensures
            (final(self)@, outcome_view(r)) == on_no_data(old(self)@),
    {
        proof {
            use_type_invariant(&*self);
        }
        match self.state {
            State::Payload => {
                if self.misses >= PAYLOAD_RETRIES {
                    self.buf = Vec::new();
                    self.misses = 0;
                    self.state = State::OpCode;
                    Some(Err(ReadError::EAGAIN))
                } else {
                    self.misses = self.misses + 1;
                    None
                }
            },
            _ => Some(Err(ReadError::EAGAIN)),
        }
    }

    fn on_op_code(&mut self, byte: u8) -> (r: Option<ReadResult>)
        requires
            old(self)@.state == State::OpCode,
        ensures
            (final(self)@, outcome_view(r)) == on_data(old(self)@, seq![byte]),
    {
        proof {
            use_type_invariant(&*self);
        }
        if self.buf.len() > 0 {
            return Some(Err(ReadError::OpCode));
        }
        match OpCode::from_first_byte(byte) {
            Some(op) => {
                self.op_code = op;
                self.misses = 0;
                self.state = State::PayloadKey;
                None
            },
            None => {
                let mut buf = Vec::new();
                buf.push(byte);
                self.buf = buf;
                Some(Err(ReadError::OpCode))
            },
        }
    }

    fn on_payload_key(&mut self, byte: u8) -> (r: Option<ReadResult>)
        requires
            old(self)@.state == State::PayloadKey,
        ensures
            (final(self)@, outcome_view(r)) == on_data(old(self)@, seq![byte]),
    {
        proof {
            use_type_invariant(&*self);
        }
        let key = byte & PAYLOAD_KEY_UN_MASK;
        self.payload_key = key;
        if key == 126 || key == 127 {
            self.state = State::PayloadLength;
        } else {
            self.payload_len = key as u64;
            self.state = State::MaskingKey;
        }
        None
    }

    fn on_length(&mut self, bytes: Vec<u8>) -> (r: Option<ReadResult>)
        requires
            old(self)@.state == State::PayloadLength,
            bytes@.len() <= wanted_of(old(self)@),
        ensures
            (final(self)@, outcome_view(r)) == on_data(old(self)@, bytes@),
    {
        proof {
            use_type_invariant(&*self);
        }
        let mut bytes = bytes;
        let mut buf = Vec::new();
        std::mem::swap(&mut buf, &mut self.buf);
        buf.append(&mut bytes);
        let need: usize = if self.payload_key == 126 {
            2
        } else {
            8
        };
        if buf.len() < need {
            self.buf = buf;
        } else {
            self.payload_len = be_value_of(&buf);
            self.state = State::MaskingKey;
        }
        None
    }

    fn on_masking_key(&mut self, bytes: Vec<u8>) -> (r: Option<ReadResult>)
        requires
            old(self)@.state == State::MaskingKey,
            bytes@.len() <= wanted_of(old(self)@),
        ensures
            (final(self)@, outcome_view(r)) == on_data(old(self)@, bytes@),
    {
        proof {
            use_type_invariant(&*self);
        }
        let mut bytes = bytes;
        let mut buf = Vec::new();
        std::mem::swap(&mut buf, &mut self.buf);
        buf.append(&mut bytes);
        if buf.len() < 4 {
            self.buf = buf;
            None
        } else {
            let key = [buf[0], buf[1], buf[2], buf[3]];
            assert(key@ =~= buf@);
            self.masking_key = key;
            self.misses = 0;
            if self.payload_len == 0 {
                self.state = State::OpCode;
                Some(Ok((self.op_code, Vec::new())))
            } else {
                self.state = State::Payload;
                None
            }
        }
    }

    fn on_payload(&mut self, bytes: Vec<u8>) -> (r: Option<ReadResult>)
        requires
            old(self)@.state == State::Payload,
            bytes@.len() <= wanted_of(old(self)@),
        ensures
            (final(self)@, outcome_view(r)) == on_data(old(self)@, bytes@),
    {
        proof {
            use_type_invariant(&*self);
        }
        let mut bytes = bytes;
        let mut buf = Vec::new();
        std::mem::swap(&mut buf, &mut self.buf);
        buf.append(&mut bytes);
        if (buf.len() as u64) < self.payload_len {
            self.buf = buf;
            self.misses = 0;
            None
        } else {
            let payload = unmask(&buf, &self.masking_key);
            self.misses = 0;
            self.state = State::OpCode;
            Some(Ok((self.op_code, payload)))
        }
    }
}

impl Clone for FrameReader {
    /// A reader in the same state, with its own buffer.
    fn clone(&self) -> (r: FrameReader)
        ensures
            r@ == self@,
    {
        proof {
            use_type_invariant(self);
        }
        let buf = self.buf.clone();
        assert(buf@ =~= self.buf@);
        FrameReader {
            state: self.state,
            op_code: self.op_code,
            payload_key: self.payload_key,
            payload_len: self.payload_len,
            masking_key: self.masking_key,
            buf: buf,
            misses: self.misses,
        }
    }
}

/// The number that at most eight bytes stand for, most significant first.
fn be_value_of(buf: &Vec<u8>) -> (v: u64)
    requires
        buf@.len() <= 8,
    ensures
        v == be_value(buf@),
{
    let mut v: u64 = 0;
    let mut i: usize = 0;
    while i < buf.len()
        invariant
            i <= buf@.len(),
            v == be_value(buf@.take(i as int)),
        decreases buf@.len() - i,
    {
        assert(buf@.take(i + 1).drop_last() =~= buf@.take(i as int));
        v = (v << 8u64) | (buf[i] as u64);
        i = i + 1;
    }
    assert(buf@.take(i as int) =~= buf@);
    v
}

/// Unmasks (or masks) `data` with a four-byte masking key.
fn unmask(data: &Vec<u8>, mask: &[u8; 4]) -> (out: Vec<u8>)
    ensures
        out@ == apply_mask(data@, mask@),
{
    let mut out: Vec<u8> = Vec::new();
    let mut i: usize = 0;
    while i < data.len()
        invariant
            i <= data@.len(),
            out@ =~= apply_mask(data@.take(i as int), mask@),
        decreases data@.len() - i,
    {
        out.push(data[i] ^ mask[i % 4]);
        i = i + 1;
    }
    assert(data@.take(i as int) =~= data@);
    out
}

} // verus!
