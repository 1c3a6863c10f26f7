//! What holds of the reader and the writer together, over their abstract
//! states: the reader gives back the message of every frame that the writer
//! lays out and a client masks, and of every client frame whatever its FIN
//! and RSV bits, however the frame's bytes are split over reads and over
//! calls of `read()`, as long as no stall in the payload makes the reader
//! give the message up (a read that finds nothing waiting there, and three
//! more that find nothing either); and the reader's behaviour on errors, on
//! reads that give nothing, on short reads, and on a failed connection.

use vstd::prelude::*;
use crate::State;
use crate::util::{OpCode, ReadError, op_code_bits, op_code_of_bits, OP_CODE_UN_MASK, PAYLOAD_KEY_UN_MASK};
use crate::reader::{
    PAYLOAD_RETRIES, ReaderView, step, apply_mask, be_value, stage_size, reader_wf, failed, idle,
    wanted_of,
};
use crate::writer::{frame_header, length_field, byte_at, first_byte};

verus! {

/// The reader fed `bytes` one at a time, from state `m`, until a reading
/// ends: its state after that and what the reading gave (`None`: it still
/// waits for bytes).
pub open spec fn feed_each(m: ReaderView, bytes: Seq<u8>) -> (ReaderView, Option<
    Result<(OpCode, Seq<u8>), ReadError>,
>)
    decreases bytes.len(),
{
    if bytes.len() == 0 {
        (m, None)
    } else {
        let (m1, r) = step(m, Ok(seq![bytes[0]]));
        if r is Some {
            (m1, r)
        } else {
            feed_each(m1, bytes.drop_first())
        }
    }
}

/// The frame that a client sends (RFC-6455, section 5.3): a first byte
/// (the FIN and RSV bits and the op code), the payload-length field that
/// [`encode_frame`] writes with the mask bit set in its first byte, then the
/// masking key, then the payload masked with it. With
/// `first == first_byte(op)` the header is the one that [`encode_frame`]
/// writes for `op`, with the mask bit set.
pub open spec fn client_frame(first: u8, mask: Seq<u8>, payload: Seq<u8>) -> Seq<u8> {
    let lf = length_field(payload.len() as u64);
    seq![first, lf[0] | 0x80u8] + lf.drop_first() + mask + apply_mask(payload, mask)
}

/// The header of a client frame: the bytes before the masking key.
pub open spec fn client_header(first: u8, len: u64) -> Seq<u8> {
    let lf = length_field(len);
    seq![first, lf[0] | 0x80u8] + lf.drop_first()
}

/// With the writer's first byte, the client header is the writer's header
/// with the mask bit set.
pub proof fn lemma_client_header_of_writer(op: OpCode, len: u64)
    ensures
        client_header(first_byte(op), len) == ({
            let header = frame_header(op, len);
            header.update(1, header[1] | 0x80u8)
        }),
        op_code_of_bits(first_byte(op) & OP_CODE_UN_MASK) == Some(op),
{
    let header = frame_header(op, len);
    assert(client_header(first_byte(op), len) =~= header.update(1, header[1] | 0x80u8));
    lemma_op_code_roundtrip(op);
}

proof fn lemma_feed_concat(m: ReaderView, a: Seq<u8>, b: Seq<u8>)
    ensures
        feed_each(m, a + b) == (if feed_each(m, a).1 is Some {
            feed_each(m, a)
        } else {
            feed_each(feed_each(m, a).0, b)
        }),
    decreases a.len(),
{
    if a.len() == 0 {
        assert(a + b =~= b);
    } else {
        let (m1, r) = step(m, Ok(seq![a[0]]));
        assert((a + b)[0] == a[0]);
        assert((a + b).drop_first() =~= a.drop_first() + b);
        if r is None {
            lemma_feed_concat(m1, a.drop_first(), b);
        }
    }
}

/// Bytes that fall short of completing the current field are kept and
/// nothing else changes.
proof fn lemma_feed_partial(m: ReaderView, t: Seq<u8>)
    requires
        m.state == State::PayloadLength || m.state == State::MaskingKey || m.state == State::Payload,
        m.misses == 0,
        m.buf.len() + t.len() < stage_size(m),
    ensures
        feed_each(m, t) == (ReaderView { buf: m.buf + t, ..m }, None::<Result<(OpCode, Seq<u8>), ReadError>>),
    decreases t.len(),
{
    if t.len() == 0 {
        assert(m.buf + t =~= m.buf);
        assert(ReaderView { buf: m.buf + t, ..m } =~= m);
    } else {
        let m1 = ReaderView { buf: m.buf + seq![t[0]], ..m };
        assert(step(m, Ok(seq![t[0]])) == (m1, None::<Result<(OpCode, Seq<u8>), ReadError>>));
        lemma_feed_partial(m1, t.drop_first());
        assert(m1.buf + t.drop_first() =~= m.buf + t);
    }
}

proof fn lemma_be_push(s: Seq<u8>, x: u8)
    ensures
        be_value(s.push(x)) == (be_value(s) << 8u64) | (x as u64),
{
    assert(s.push(x).drop_last() =~= s);
}

proof fn lemma_length_field_16(len: u64)
    requires
        125 < len <= 65535,
    ensures
        be_value(length_field(len).drop_first()) == len,
{
    let a = byte_at(len, 8);
    let b = byte_at(len, 0);
    assert(length_field(len).drop_first() =~= Seq::<u8>::empty().push(a).push(b));
    lemma_be_push(Seq::<u8>::empty(), a);
    lemma_be_push(Seq::<u8>::empty().push(a), b);
    assert(((((0u64 << 8u64) | (((len >> 8u64) & 0xffu64) as u8 as u64)) << 8u64) | (((len >> 0u64)
        & 0xffu64) as u8 as u64)) == len) by (bit_vector)
        requires
            len <= 65535,
    ;
}

proof fn lemma_length_field_64(len: u64)
    requires
        65535 < len,
    ensures
        be_value(length_field(len).drop_first()) == len,
{
    let s0 = Seq::<u8>::empty();
    let s1 = s0.push(byte_at(len, 56));
    let s2 = s1.push(byte_at(len, 48));
    let s3 = s2.push(byte_at(len, 40));
    let s4 = s3.push(byte_at(len, 32));
    let s5 = s4.push(byte_at(len, 24));
    let s6 = s5.push(byte_at(len, 16));
    let s7 = s6.push(byte_at(len, 8));
    let s8 = s7.push(byte_at(len, 0));
    assert(length_field(len).drop_first() =~= s8);
    lemma_be_push(s0, byte_at(len, 56));
    lemma_be_push(s1, byte_at(len, 48));
    lemma_be_push(s2, byte_at(len, 40));
    lemma_be_push(s3, byte_at(len, 32));
    lemma_be_push(s4, byte_at(len, 24));
    lemma_be_push(s5, byte_at(len, 16));
    lemma_be_push(s6, byte_at(len, 8));
    lemma_be_push(s7, byte_at(len, 0));
    assert(((((((((((((((((0u64 << 8u64) | (((len >> 56u64) & 0xffu64) as u8 as u64)) << 8u64)
        | (((len >> 48u64) & 0xffu64) as u8 as u64)) << 8u64) | (((len >> 40u64) & 0xffu64) as u8
        as u64)) << 8u64) | (((len >> 32u64) & 0xffu64) as u8 as u64)) << 8u64) | (((len >> 24u64)
        & 0xffu64) as u8 as u64)) << 8u64) | (((len >> 16u64) & 0xffu64) as u8 as u64)) << 8u64)
        | (((len >> 8u64) & 0xffu64) as u8 as u64)) << 8u64) | (((len >> 0u64) & 0xffu64) as u8
        as u64)) == len) by (bit_vector);
}

/// Masking twice with the same key gives back what was masked.
pub proof fn lemma_mask_twice(data: Seq<u8>, mask: Seq<u8>)
    requires
        mask.len() == 4,
    ensures
        apply_mask(apply_mask(data, mask), mask) == data,
{
    assert forall|i: int| 0 <= i < data.len() implies #[trigger] apply_mask(
        apply_mask(data, mask),
        mask,
    )[i] == data[i] by {
        let a = data[i];
        let b = mask[i % 4];
        assert((a ^ b) ^ b == a) by (bit_vector);
    }
    assert(apply_mask(apply_mask(data, mask), mask) =~= data);
}

/// The op code of the first byte that the writer lays out is the op code
/// it was given.
pub proof fn lemma_op_code_roundtrip(op: OpCode)
    ensures
        op_code_of_bits(first_byte(op) & OP_CODE_UN_MASK) == Some(op),
{
    let b = op_code_bits(op);
    assert(b < 16);
    assert(forall|x: u8| x < 16 ==> ((x | 0x80u8) & 0x0fu8) == x) by (bit_vector);
}

/// Once a frame has begun with a reserved op code, the connection has
/// failed: every later read that gives data is answered with
/// `ReadError::OpCode`, and the reader stays as it is.
pub proof fn lemma_failed_connection_stays_failed(m: ReaderView, bytes: Seq<u8>)
    requires
        reader_wf(m),
        failed(m),
        bytes.len() > 0,
    ensures
        step(m, Ok(bytes)) == (m, Some(Err::<(OpCode, Seq<u8>), ReadError>(ReadError::OpCode))),
{
}

/// A read that fails with an error other than `EAGAIN` ends the reading
/// with that error and leaves the reader as it was, so the next reading
/// goes on where this one stopped.
pub proof fn lemma_error_keeps_progress(m: ReaderView, e: ReadError)
    requires
        e != ReadError::EAGAIN,
    ensures
        step(m, Err(e)) == (m, Some(Err::<(OpCode, Seq<u8>), ReadError>(e))),
{
}

/// Outside the payload, a read that finds no data waiting ends the reading
/// with `EAGAIN` and keeps what came in so far.
pub proof fn lemma_no_data_keeps_progress(m: ReaderView)
    requires
        m.state != State::Payload,
    ensures
        step(m, Err(ReadError::EAGAIN)) == (m, Some(
            Err::<(OpCode, Seq<u8>), ReadError>(ReadError::EAGAIN),
        )),
{
}

/// A read that gives zero bytes, where at least one was asked for, ends the
/// reading with `ReadError::DataStop` and keeps what came in so far, in
/// every stage.
pub proof fn lemma_zero_read_is_data_stop(m: ReaderView)
    ensures
        step(m, Ok(Seq::<u8>::empty())) == (m, Some(
            Err::<(OpCode, Seq<u8>), ReadError>(ReadError::DataStop),
        )),
{
}

/// While the payload is incomplete, a read that finds no data waiting is
/// followed by three more reads; when these find nothing either, the message is
/// given up with `EAGAIN` and the reader waits for a new frame.
pub proof fn lemma_payload_gives_up(m: ReaderView)
    requires
        reader_wf(m),
        m.state == State::Payload,
        m.misses == 0,
    ensures
        ({
            let (m1, r1) = step(m, Err(ReadError::EAGAIN));
            let (m2, r2) = step(m1, Err(ReadError::EAGAIN));
            let (m3, r3) = step(m2, Err(ReadError::EAGAIN));
            let (m4, r4) = step(m3, Err(ReadError::EAGAIN));
            &&& r1 is None
            &&& r2 is None
            &&& r3 is None
            &&& r4 == Some(Err::<(OpCode, Seq<u8>), ReadError>(ReadError::EAGAIN))
            &&& m4 == idle(m)
        }),
{
}

/// Every reader asks for at least one byte.
pub proof fn lemma_wanted_positive(m: ReaderView)
    requires
        reader_wf(m),
    ensures
        wanted_of(m) >= 1,
{
}

/// A read that gives fewer bytes than the current field lacks loses
/// nothing: two reads that give `a` and then `b` leave the reader where
/// one read that gives `a + b` does.
pub proof fn lemma_short_reads_lose_nothing(m: ReaderView, a: Seq<u8>, b: Seq<u8>)
    requires
        reader_wf(m),
        m.state == State::PayloadLength || m.state == State::MaskingKey || m.state == State::Payload,
        a.len() > 0,
        b.len() > 0,
        m.buf.len() + a.len() + b.len() <= stage_size(m),
    ensures
        step(m, Ok(a)).1 is None,
        step(step(m, Ok(a)).0, Ok(b)) == step(m, Ok(a + b)),
{
    assert(m.buf + a + b =~= m.buf + (a + b));
}

proof fn lemma_feed_one(m: ReaderView, b: u8)
    ensures
        feed_each(m, seq![b]) == step(m, Ok(seq![b])),
{
    assert(seq![b][0] == b);
    assert(seq![b].drop_first() =~= Seq::<u8>::empty());
    let (m1, r) = step(m, Ok(seq![b]));
    assert(feed_each(m1, Seq::<u8>::empty()) == (m1, None::<Result<(OpCode, Seq<u8>), ReadError>>));
}

/// Feeding a sequence is feeding all but its last byte, then its last byte.
proof fn lemma_feed_last(m: ReaderView, s: Seq<u8>)
    requires
        s.len() > 0,
        feed_each(m, s.drop_last()).1 is None,
    ensures
        feed_each(m, s) == step(feed_each(m, s.drop_last()).0, Ok(seq![s.last()])),
{
    assert(s =~= s.drop_last() + seq![s.last()]);
    lemma_feed_concat(m, s.drop_last(), seq![s.last()]);
    lemma_feed_one(feed_each(m, s.drop_last()).0, s.last());
}

/// A whole field fed to a stage that reads it: the stage is left with the
/// field in its buffer as the last byte comes in.
proof fn lemma_feed_field(m: ReaderView, field: Seq<u8>)
    requires
        m.state == State::PayloadLength || m.state == State::MaskingKey || m.state == State::Payload,
        m.misses == 0,
        m.buf.len() == 0,
        field.len() == stage_size(m),
        field.len() > 0,
    ensures
        feed_each(m, field) == on_data_last(m, field),
{
    lemma_feed_partial(m, field.drop_last());
    assert(m.buf + field.drop_last() =~= field.drop_last());
    lemma_feed_last(m, field);
    let m1 = ReaderView { buf: field.drop_last(), ..m };
    assert(m1.buf + seq![field.last()] =~= field);
}

/// What the last byte of a field does to a stage that holds the rest of it.
pub open spec fn on_data_last(m: ReaderView, field: Seq<u8>) -> (ReaderView, Option<
    Result<(OpCode, Seq<u8>), ReadError>,
>) {
    step(ReaderView { buf: field.drop_last(), ..m }, Ok(seq![field.last()]))
}

/// The header of a client frame, fed to a reader that waits for a frame,
/// leaves it waiting for the masking key, with the op code and the payload
/// length that the header carries.
proof fn lemma_feed_header(m: ReaderView, first: u8, op: OpCode, len: u64) -> (m2: ReaderView)
    requires
        m.state == State::OpCode,
        m.buf.len() == 0,
        op_code_of_bits(first & OP_CODE_UN_MASK) == Some(op),
    ensures
        feed_each(m, client_header(first, len)) == (m2, None::<Result<(OpCode, Seq<u8>), ReadError>>),
        m2.state == State::MaskingKey,
        m2.op_code == op,
        m2.payload_len == len,
        m2.buf.len() == 0,
        m2.misses == 0,
        m2.masking_key == m.masking_key,
{
    let hm = client_header(first, len);
    let lf = length_field(len);
    let b0 = first;
    let b1 = lf[0] | 0x80u8;
    let ext = lf.drop_first();
    assert(hm =~= seq![b0] + (seq![b1] + ext));
    let m1 = ReaderView {
        state: State::PayloadKey,
        op_code: op,
        buf: Seq::<u8>::empty(),
        misses: 0,
        ..m
    };
    lemma_feed_one(m, b0);
    assert(step(m, Ok(seq![b0])) == (m1, None::<Result<(OpCode, Seq<u8>), ReadError>>));
    lemma_feed_concat(m, seq![b0], seq![b1] + ext);
    let k = lf[0];
    assert(k < 128);
    assert(forall|x: u8| x < 128 ==> ((x | 0x80u8) & 0x7fu8) == x) by (bit_vector);
    assert(b1 & PAYLOAD_KEY_UN_MASK == k);
    lemma_feed_concat(m1, seq![b1], ext);
    lemma_feed_one(m1, b1);
    if len <= 125 {
        assert(ext =~= Seq::<u8>::empty());
        let m2 = ReaderView {
            state: State::MaskingKey,
            payload_key: k,
            payload_len: k as u64,
            buf: Seq::<u8>::empty(),
            ..m1
        };
        assert(feed_each(m2, ext) == (m2, None::<Result<(OpCode, Seq<u8>), ReadError>>));
        m2
    } else {
        let mk = ReaderView { state: State::PayloadLength, payload_key: k, buf: Seq::<u8>::empty(), ..m1 };
        assert(step(m1, Ok(seq![b1])) == (mk, None::<Result<(OpCode, Seq<u8>), ReadError>>));
        if len <= 65535 {
            lemma_length_field_16(len);
        } else {
            lemma_length_field_64(len);
        }
        lemma_feed_field(mk, ext);
        let m2 = ReaderView {
            state: State::MaskingKey,
            payload_len: be_value(ext),
            buf: Seq::<u8>::empty(),
            ..mk
        };
        assert(ReaderView { buf: ext.drop_last(), ..mk }.buf + seq![ext.last()] =~= ext);
        m2
    }
}

/// The masking key and the masked payload, fed to a reader that waits for
/// the masking key of a frame of that payload length: the reader still
/// waits after every byte but the last, and the last gives the payload
/// unmasked and leaves the reader waiting for a new frame.
proof fn lemma_feed_body(m: ReaderView, mask: Seq<u8>, payload: Seq<u8>)
    requires
        m.state == State::MaskingKey,
        m.buf.len() == 0,
        m.misses == 0,
        mask.len() == 4,
        m.payload_len == payload.len(),
    ensures
        ({
            let body = mask + apply_mask(payload, mask);
            let (m1, r) = feed_each(m, body.drop_last());
            &&& r is None
            &&& step(m1, Ok(seq![body.last()])).1 == Some(
                Ok::<(OpCode, Seq<u8>), ReadError>((m.op_code, payload)),
            )
            &&& step(m1, Ok(seq![body.last()])).0.state == State::OpCode
            &&& step(m1, Ok(seq![body.last()])).0.buf.len() == 0
        }),
{
    let masked = apply_mask(payload, mask);
    let body = mask + masked;
    lemma_feed_field(m, mask);
    assert(ReaderView { buf: mask.drop_last(), ..m }.buf + seq![mask.last()] =~= mask);
    if payload.len() == 0 {
        assert(masked =~= Seq::<u8>::empty());
        assert(body =~= mask);
        lemma_feed_partial(m, mask.drop_last());
        assert(payload =~= Seq::<u8>::empty());
    } else {
        let m3 = ReaderView {
            state: State::Payload,
            masking_key: mask,
            buf: Seq::<u8>::empty(),
            misses: 0,
            ..m
        };
        assert(feed_each(m, mask) == (m3, None::<Result<(OpCode, Seq<u8>), ReadError>>));
        assert(body.drop_last() =~= mask + masked.drop_last());
        assert(body.last() == masked.last());
        lemma_feed_concat(m, mask, masked.drop_last());
        lemma_feed_partial(m3, masked.drop_last());
        assert(m3.buf + masked.drop_last() =~= masked.drop_last());
        let m4 = ReaderView { buf: masked.drop_last(), ..m3 };
        assert(m4.buf + seq![masked.last()] =~= masked);
        lemma_mask_twice(payload, mask);
    }
}

/// The reader gives back the message of every client frame, whatever its
/// FIN and RSV bits, and so of every frame that the writer lays out once a
/// client has masked it: fed a client frame one byte at a time, a reader
/// that waits for a frame waits after every byte but the last, and the last
/// byte gives the op code of the frame's first byte and its payload
/// unmasked, and leaves the reader waiting for the next frame.
pub proof fn lemma_reader_decodes_client_frame(
    m: ReaderView,
    first: u8,
    op: OpCode,
    mask: Seq<u8>,
    payload: Seq<u8>,
)
    requires
        op_code_of_bits(first & OP_CODE_UN_MASK) == Some(op),
        reader_wf(m),
        m.state == State::OpCode,
        m.buf.len() == 0,
        mask.len() == 4,
        payload.len() <= u64::MAX,
    ensures
        ({
            let frame = client_frame(first, mask, payload);
            let (m1, r) = feed_each(m, frame.drop_last());
            &&& r is None
            &&& feed_each(m, frame) == step(m1, Ok(seq![frame.last()]))
            &&& feed_each(m, frame).1 == Some(Ok::<(OpCode, Seq<u8>), ReadError>((op, payload)))
            &&& feed_each(m, frame).0.state == State::OpCode
            &&& feed_each(m, frame).0.buf.len() == 0
        }),
{
    let len = payload.len() as u64;
    let hm = client_header(first, len);
    let body = mask + apply_mask(payload, mask);
    let frame = client_frame(first, mask, payload);
    assert(frame =~= hm + body);
    let m2 = lemma_feed_header(m, first, op, len);
    lemma_feed_body(m2, mask, payload);
    assert(frame.drop_last() =~= hm + body.drop_last());
    assert(frame.last() == body.last());
    lemma_feed_concat(m, hm, body.drop_last());
    lemma_feed_last(m, frame);
}

/// The reader fed the outcome of each read in `events`, from state `m`, as
/// a caller of `read()` meets them: a failed read ends at most the current
/// call, and the next call goes on; a read that gives bytes ends the
/// reading when a message is whole.
pub open spec fn feed_events(m: ReaderView, events: Seq<Result<Seq<u8>, ReadError>>) -> (
    ReaderView,
    Option<Result<(OpCode, Seq<u8>), ReadError>>,
)
    decreases events.len(),
{
    if events.len() == 0 {
        (m, None)
    } else {
        let (m1, r) = step(m, events[0]);
        if events[0] is Err {
            feed_events(m1, events.drop_first())
        } else if r is Some {
            (m1, r)
        } else {
            feed_events(m1, events.drop_first())
        }
    }
}

/// Every read in `events` that gives bytes gives at least one and at most
/// what the reader asks for at that point, and no read that finds nothing
/// waiting makes the reader give up a payload.
pub open spec fn events_fit(m: ReaderView, events: Seq<Result<Seq<u8>, ReadError>>) -> bool
    decreases events.len(),
{
    events.len() == 0 || ({
        let (m1, r) = step(m, events[0]);
        &&& match events[0] {
            Ok(c) => 0 < c.len() <= wanted_of(m),
            Err(e) => e == ReadError::EAGAIN ==> (m.state != State::Payload || m.misses + 1
                <= PAYLOAD_RETRIES),
        }
        &&& events_fit(m1, events.drop_first())
    })
}

/// The bytes that the reads in `events` gave, read by read.
pub open spec fn data_of(events: Seq<Result<Seq<u8>, ReadError>>) -> Seq<Seq<u8>>
    decreases events.len(),
{
    if events.len() == 0 {
        Seq::empty()
    } else {
        match events[0] {
            Ok(c) => seq![c] + data_of(events.drop_first()),
            Err(_) => data_of(events.drop_first()),
        }
    }
}

/// A step that gets bytes within what the reader asks for keeps the reader
/// valid.
proof fn lemma_step_wf(m: ReaderView, bytes: Seq<u8>)
    requires
        reader_wf(m),
        0 < bytes.len() <= wanted_of(m),
    ensures
        reader_wf(step(m, Ok(bytes)).0),
{
    if m.state == State::PayloadKey {
        assert(forall|x: u8| (x & 0x7fu8) <= 127) by (bit_vector);
    }
}

/// How many reads in a row found nothing waiting changes nothing of what
/// bytes do to the reader.
proof fn lemma_step_ignores_misses(m: ReaderView, bytes: Seq<u8>)
    requires
        bytes.len() > 0,
    ensures
        step((ReaderView { misses: 0, ..m }), Ok(bytes)).1 == step(m, Ok(bytes)).1,
        step((ReaderView { misses: 0, ..m }), Ok(bytes)).0 == (ReaderView {
            misses: 0,
            ..step(m, Ok(bytes)).0
        }),
{
}

/// Bytes that one read gives, within what the reader asks for, do what the
/// same bytes do fed one at a time.
proof fn lemma_chunk_is_bytes(m: ReaderView, c: Seq<u8>)
    requires
        reader_wf(m),
        0 < c.len() <= wanted_of(m),
    ensures
        feed_each(m, c) == step(m, Ok(c)),
    decreases c.len(),
{
    if c.len() == 1 {
        assert(c =~= seq![c[0]]);
        lemma_feed_one(m, c[0]);
    } else {
        let c0 = seq![c[0]];
        let rest = c.drop_first();
        assert(c =~= c0 + rest);
        lemma_feed_concat(m, c0, rest);
        lemma_feed_one(m, c[0]);
        let (m1, r1) = step(m, Ok(c0));
        lemma_step_wf(m, c0);
        assert(m.buf + c0 + rest =~= m.buf + c);
        assert(m1.buf =~= m.buf + c0);
        lemma_chunk_is_bytes(m1, rest);
        assert(ReaderView { buf: Seq::empty(), misses: 0, ..m1 } == ReaderView {
            buf: Seq::empty(),
            misses: 0,
            ..m
        });
        assert(ReaderView { buf: m1.buf + rest, misses: 0, ..m1 } == ReaderView {
            buf: m.buf + c,
            misses: 0,
            ..m
        });
        if m.state != State::Payload {
            assert(ReaderView { buf: m1.buf + rest, ..m1 } == ReaderView { buf: m.buf + c, ..m });
        }
    }
}

/// Reads across calls of `read()` do what their bytes do fed one at a time,
/// to a reader that has had no read find nothing waiting.
proof fn lemma_events_are_bytes(m: ReaderView, events: Seq<Result<Seq<u8>, ReadError>>)
    requires
        reader_wf(m),
        events_fit(m, events),
    ensures
        feed_events(m, events).1 == feed_each((ReaderView { misses: 0, ..m }), data_of(events).flatten()).1,
        (ReaderView { misses: 0, ..feed_events(m, events).0 }) == feed_each(
            (ReaderView { misses: 0, ..m }),
            data_of(events).flatten(),
        ).0,
    decreases events.len(),
{
    let b = ReaderView { misses: 0, ..m };
    if events.len() == 0 {
        assert(data_of(events).flatten() =~= Seq::<u8>::empty());
    } else {
        let rest = events.drop_first();
        let (m1, r) = step(m, events[0]);
        match events[0] {
            Err(e) => {
                assert(data_of(events) == data_of(rest));
                assert(ReaderView { misses: 0, ..m1 } == b);
                lemma_events_are_bytes(m1, rest);
            },
            Ok(c) => {
                let d = data_of(rest);
                assert(data_of(events) == seq![c] + d);
                assert((seq![c] + d).first() == c);
                assert((seq![c] + d).drop_first() =~= d);
                assert(data_of(events).flatten() == c + d.flatten());
                lemma_feed_concat(b, c, d.flatten());
                lemma_chunk_is_bytes(b, c);
                lemma_step_ignores_misses(m, c);
                if r is None {
                    lemma_step_wf(m, c);
                    lemma_events_are_bytes(m1, rest);
                }
            },
        }
    }
}

proof fn lemma_events_fit_drop_last(m: ReaderView, events: Seq<Result<Seq<u8>, ReadError>>)
    requires
        events_fit(m, events),
        events.len() > 0,
    ensures
        events_fit(m, events.drop_last()),
        (events.last() matches Ok(c) ==> c.len() > 0),
        (events.last() is Ok ==> data_of(events.drop_last()) + seq![events.last()->Ok_0] == data_of(events)),
    decreases events.len(),
{
    let rest = events.drop_first();
    if events.len() == 1 {
        assert(events.drop_last() =~= Seq::<Result<Seq<u8>, ReadError>>::empty());
        assert(events.last() == events[0]);
        if events[0] is Ok {
            assert(data_of(rest) =~= Seq::<Seq<u8>>::empty());
            assert(data_of(events.drop_last()) =~= Seq::<Seq<u8>>::empty());
            assert(data_of(events) =~= seq![events[0]->Ok_0]);
        }
    } else {
        let (m1, r) = step(m, events[0]);
        assert(events.drop_last().drop_first() =~= rest.drop_last());
        assert(events.drop_last()[0] == events[0]);
        assert(rest.last() == events.last());
        lemma_events_fit_drop_last(m1, rest);
        if events[0] is Ok && events.last() is Ok {
            assert(data_of(events.drop_last()) == seq![events[0]->Ok_0] + data_of(rest.drop_last()));
            assert(seq![events[0]->Ok_0] + data_of(rest.drop_last()) + seq![events.last()->Ok_0]
                =~= seq![events[0]->Ok_0] + (data_of(rest.drop_last()) + seq![events.last()->Ok_0]));
        }
    }
}

/// The reader gives back the message of a client frame, whatever its FIN
/// and RSV bits, however its bytes are split over reads and over calls of
/// `read()`, as long as no stall in the payload makes it give the message
/// up: for any reads that give at least one and at most the asked-for
/// number of bytes each, together the whole frame, with reads that fail or
/// find nothing waiting in between, none of these being the fourth read in
/// a row to find nothing while the payload is incomplete, the reading ends
/// with the last read, which gives the op code of the frame's first byte
/// and its payload unmasked and leaves the reader waiting for the next
/// frame.
pub proof fn lemma_reader_decodes_frame_in_pieces(
    m: ReaderView,
    first: u8,
    op: OpCode,
    mask: Seq<u8>,
    payload: Seq<u8>,
    events: Seq<Result<Seq<u8>, ReadError>>,
)
    requires
        op_code_of_bits(first & OP_CODE_UN_MASK) == Some(op),
        reader_wf(m),
        m.state == State::OpCode,
        m.buf.len() == 0,
        mask.len() == 4,
        payload.len() <= u64::MAX,
        events_fit(m, events),
        data_of(events).flatten() == client_frame(first, mask, payload),
        events.len() > 0,
        events.last() is Ok,
    ensures
        feed_events(m, events.drop_last()).1 is None,
        feed_events(m, events).1 == Some(Ok::<(OpCode, Seq<u8>), ReadError>((op, payload))),
        feed_events(m, events).0.state == State::OpCode,
        feed_events(m, events).0.buf.len() == 0,
{
    let b = ReaderView { misses: 0, ..m };
    let frame = client_frame(first, mask, payload);
    lemma_reader_decodes_client_frame(b, first, op, mask, payload);
    lemma_events_are_bytes(m, events);
    lemma_events_fit_drop_last(m, events);
    let front = events.drop_last();
    let c = events.last()->Ok_0;
    let d = data_of(events);
    lemma_events_are_bytes(m, front);
    d.lemma_flatten_and_flatten_alt_are_equivalent();
    data_of(front).lemma_flatten_and_flatten_alt_are_equivalent();
    assert(d.drop_last() =~= data_of(front));
    assert(d.last() == c);
    assert(frame == data_of(front).flatten() + c);
    assert(frame.drop_last() =~= data_of(front).flatten() + c.drop_last());
    lemma_feed_concat(b, data_of(front).flatten(), c.drop_last());
}

/// The first byte that the writer lays out for an op code has the FIN bit
/// set, the RSV bits clear, and in its low four bits the code that RFC-6455
/// gives the op code, which the reader reads back as that op code.
pub proof fn lemma_first_byte_law(op: OpCode)
    ensures
        first_byte(op) & 0xF0u8 == 0x80u8,
        op_code_of_bits(first_byte(op) & OP_CODE_UN_MASK) == Some(op),
        first_byte(op) == (match op {
            OpCode::Continuation => 0x80u8,
            OpCode::Text => 0x81u8,
            OpCode::Binary => 0x82u8,
            OpCode::Close => 0x88u8,
            OpCode::Ping => 0x89u8,
            OpCode::Pong => 0x8Au8,
        }),
{
    lemma_op_code_roundtrip(op);
    assert(forall|x: u8| x < 16 ==> ((x | 0x80u8) & 0xF0u8) == 0x80u8) by (bit_vector);
    assert((0x0u8 | 0x80u8) == 0x80u8 && (0x1u8 | 0x80u8) == 0x81u8 && (0x2u8 | 0x80u8) == 0x82u8
        && (0x8u8 | 0x80u8) == 0x88u8 && (0x9u8 | 0x80u8) == 0x89u8 && (0xAu8 | 0x80u8) == 0x8Au8)
        by (bit_vector);
}

/// The payload-length field that the writer lays out for a length: its
/// first byte has the mask bit clear (a frame from the writer is not
/// masked); a length of at most 125 is that byte itself; a length of at
/// most 65535 is the key 126 and two bytes, most significant first; a
/// longer one is the key 127 and eight bytes, which the reader reads back
/// as the length.
pub proof fn lemma_length_field_law(len: u64)
    ensures
        length_field(len).len() == (if len <= 125 {
            1nat
        } else if len <= 65535 {
            3nat
        } else {
            9nat
        }),
        length_field(len)[0] & 0x80u8 == 0,
        len <= 125 ==> length_field(len)[0] == len,
        125 < len <= 65535 ==> length_field(len)[0] == 126 && length_field(len)[1] as nat * 256
            + length_field(len)[2] as nat == len,
        65535 < len ==> length_field(len)[0] == 127 && be_value(length_field(len).drop_first())
            == len,
        65535 < len ==> length_field(len)[1] as nat * 0x100_0000_0000_0000 + length_field(len)[2] as nat
            * 0x1_0000_0000_0000 + length_field(len)[3] as nat * 0x100_0000_0000
            + length_field(len)[4] as nat * 0x1_0000_0000 + length_field(len)[5] as nat * 0x100_0000
            + length_field(len)[6] as nat * 0x1_0000 + length_field(len)[7] as nat * 0x100
            + length_field(len)[8] as nat == len,
{
    if len <= 125 {
        let b = len as u8;
        assert(b & 0x80u8 == 0) by (bit_vector)
            requires
                b <= 125,
        ;
    } else if len <= 65535 {
        assert(126u8 & 0x80u8 == 0) by (bit_vector);
        assert((((len >> 8u64) & 0xffu64) as u8) as int * 256 + (((len >> 0u64) & 0xffu64) as u8) as int
            == len) by (bit_vector)
            requires
                len <= 65535,
        ;
    } else {
        assert(127u8 & 0x80u8 == 0) by (bit_vector);
        lemma_length_field_64(len);
        assert((((len >> 56u64) & 0xffu64) as u8) as int * 0x100_0000_0000_0000 + (((len >> 48u64)
            & 0xffu64) as u8) as int * 0x1_0000_0000_0000 + (((len >> 40u64) & 0xffu64) as u8) as int
            * 0x100_0000_0000 + (((len >> 32u64) & 0xffu64) as u8) as int * 0x1_0000_0000 + (((len
            >> 24u64) & 0xffu64) as u8) as int * 0x100_0000 + (((len >> 16u64) & 0xffu64) as u8) as int
            * 0x1_0000 + (((len >> 8u64) & 0xffu64) as u8) as int * 0x100 + (((len >> 0u64) & 0xffu64)
            as u8) as int == len) by (bit_vector);
    }
}

/// The header that the writer lays out for a frame: the first byte of the
/// op code (see [`lemma_first_byte_law`]), then the payload-length field
/// for the length (see [`lemma_length_field_law`]), with the mask bit
/// clear.
pub proof fn lemma_writer_header(op: OpCode, len: u64)
    ensures
        frame_header(op, len)[0] & 0xF0u8 == 0x80u8,
        op_code_of_bits(frame_header(op, len)[0] & OP_CODE_UN_MASK) == Some(op),
        frame_header(op, len)[1] & 0x80u8 == 0,
        frame_header(op, len).drop_first() == length_field(len),
        len <= 125 ==> frame_header(op, len).len() == 2 && frame_header(op, len)[1] == len,
        125 < len <= 65535 ==> frame_header(op, len).len() == 4 && frame_header(op, len)[1] == 126
            && frame_header(op, len)[2] as nat * 256 + frame_header(op, len)[3] as nat == len,
        65535 < len ==> frame_header(op, len).len() == 10 && frame_header(op, len)[1] == 127
            && be_value(frame_header(op, len).subrange(2, 10)) == len,
        65535 < len ==> frame_header(op, len)[2] as nat * 0x100_0000_0000_0000 + frame_header(
            op,
            len,
        )[3] as nat * 0x1_0000_0000_0000 + frame_header(op, len)[4] as nat * 0x100_0000_0000
            + frame_header(op, len)[5] as nat * 0x1_0000_0000 + frame_header(op, len)[6] as nat
            * 0x100_0000 + frame_header(op, len)[7] as nat * 0x1_0000 + frame_header(op, len)[8] as nat
            * 0x100 + frame_header(op, len)[9] as nat == len,
{
    lemma_first_byte_law(op);
    lemma_length_field_law(len);
    let h = frame_header(op, len);
    assert(h.drop_first() =~= length_field(len));
    if 65535 < len {
        assert(h.subrange(2, 10) =~= length_field(len).drop_first());
    }
}

} // verus!
