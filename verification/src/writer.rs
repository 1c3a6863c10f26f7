//! The frame writer: lays out the bytes of a frame that carries a message.

use vstd::prelude::*;
use crate::util::{OpCode, op_code_bits, op_code_of_bits, OP_CODE_MASK, OP_CODE_UN_MASK};
use crate::reader::be_value;
use crate::laws::{lemma_first_byte_law, lemma_length_field_law, lemma_writer_header};

verus! {

/// The byte of `x` that stands `shift` bits above the lowest.
pub open spec fn byte_at(x: u64, shift: u64) -> u8 {
    ((x >> shift) & 0xffu64) as u8
}

/// The payload-length field of a frame header (RFC-6455, section 5.2): the
/// length itself when it is at most 125; else the key 126 and the length in
/// two bytes when it fits in sixteen bits; else the key 127 and the length
/// in eight bytes, most significant byte first.
pub open spec fn length_field(len: u64) -> Seq<u8> {
    if len <= 125 {
        seq![len as u8]
    } else if len <= 65535 {
        seq![126u8, byte_at(len, 8), byte_at(len, 0)]
    } else {
        seq![
            127u8,
            byte_at(len, 56),
            byte_at(len, 48),
            byte_at(len, 40),
            byte_at(len, 32),
            byte_at(len, 24),
            byte_at(len, 16),
            byte_at(len, 8),
            byte_at(len, 0),
        ]
    }
}

/// The first byte of a frame: the final-fragment bit and the op code.
pub open spec fn first_byte(op: OpCode) -> u8 {
    op_code_bits(op) | OP_CODE_MASK
}

/// The header of a frame that carries `len` bytes of payload.
pub open spec fn frame_header(op: OpCode, len: u64) -> Seq<u8> {
    seq![first_byte(op)] + length_field(len)
}

/// Appends the first byte of a frame: the FIN bit set, the RSV bits clear,
/// and the op code in the low four bits.
pub fn set_op_code(op: &OpCode, buf: &mut Vec<u8>)
    ensures
        final(buf)@ == old(buf)@.push(first_byte(*op)),
        final(buf)@.len() == old(buf)@.len() + 1,
        final(buf)@.drop_last() == old(buf)@,
        final(buf)@.last() & 0xF0u8 == 0x80u8,
        op_code_of_bits(final(buf)@.last() & OP_CODE_UN_MASK) == Some(*op),
{
    let op_code = op.bits();
    buf.push(op_code | OP_CODE_MASK);
    proof {
        lemma_first_byte_law(*op);
        assert(final(buf)@.drop_last() =~= old(buf)@);
    }
}

/// Appends the payload-length field for a payload of `len` bytes.
pub fn set_payload_info(len: usize, buf: &mut Vec<u8>)
    ensures
        final(buf)@ == old(buf)@ + length_field(len as u64),
        final(buf)@.subrange(0, old(buf)@.len() as int) == old(buf)@,
        final(buf)@[old(buf)@.len() as int] & 0x80u8 == 0,
        len <= 125 ==> final(buf)@.len() == old(buf)@.len() + 1 && final(buf)@[old(buf)@.len() as int]
            == len,
        125 < len <= 65535 ==> final(buf)@.len() == old(buf)@.len() + 3 && final(buf)@[old(
            buf,
        )@.len() as int] == 126 && final(buf)@[old(buf)@.len() as int + 1] as nat * 256 + final(buf)@[old(buf)@.len() as int
            + 2] as nat == len,
        65535 < len ==> final(buf)@.len() == old(buf)@.len() + 9 && final(buf)@[old(
            buf,
        )@.len() as int] == 127 && be_value(
            final(buf)@.subrange(old(buf)@.len() as int + 1, old(buf)@.len() as int + 9),
        ) == len,
        65535 < len ==> ({
            let f = final(buf)@;
            let k = old(buf)@.len() as int;
            f[k + 1] as nat * 0x100_0000_0000_0000 + f[k + 2] as nat * 0x1_0000_0000_0000 + f[k
                + 3] as nat * 0x100_0000_0000 + f[k + 4] as nat * 0x1_0000_0000 + f[k + 5] as nat
                * 0x100_0000 + f[k + 6] as nat * 0x1_0000 + f[k + 7] as nat * 0x100 + f[k + 8] as nat
                == len
        }),
{
    let l: u64 = len as u64;
    if l <= 125 {
        buf.push(l as u8);
    } else if l <= 65535 {
        buf.push(126u8);
        buf.push(((l >> 8u64) & 0xffu64) as u8);
        buf.push((l & 0xffu64) as u8);
    } else {
        buf.push(127u8);
        buf.push(((l >> 56u64) & 0xffu64) as u8);
        buf.push(((l >> 48u64) & 0xffu64) as u8);
        buf.push(((l >> 40u64) & 0xffu64) as u8);
        buf.push(((l >> 32u64) & 0xffu64) as u8);
        buf.push(((l >> 24u64) & 0xffu64) as u8);
        buf.push(((l >> 16u64) & 0xffu64) as u8);
        buf.push(((l >> 8u64) & 0xffu64) as u8);
        buf.push((l & 0xffu64) as u8);
    }
    proof {
        assert(byte_at(l, 0) == (l & 0xffu64) as u8) by (bit_vector);
    }
    assert(final(buf)@ =~= old(buf)@ + length_field(len as u64));
    proof {
        let k = old(buf)@.len() as int;
        let lf = length_field(len as u64);
        lemma_length_field_law(len as u64);
        assert(final(buf)@.subrange(0, k as int) =~= old(buf)@);
        assert(final(buf)@[k as int] == lf[0]);
        if 125 < len <= 65535 {
            assert(final(buf)@[k + 1] == lf[1]);
            assert(final(buf)@[k + 2] == lf[2]);
        }
        if 65535 < len {
            assert(final(buf)@.subrange(k + 1, k + 9) =~= lf.drop_first());
            assert(final(buf)@[k + 1] == lf[1] && final(buf)@[k + 2] == lf[2] && final(buf)@[k + 3]
                == lf[3] && final(buf)@[k + 4] == lf[4] && final(buf)@[k + 5] == lf[5] && final(buf)@[k + 6]
                == lf[6] && final(buf)@[k + 7] == lf[7] && final(buf)@[k + 8] == lf[8]);
        }
    }
}

/// The bytes of a frame that carries `payload` with op code `op`; the
/// payload moves into the frame and `payload` is left empty.
pub fn encode_frame(op: &OpCode, payload: &mut Vec<u8>) -> (out: Vec<u8>)
    ensures
        out@ == frame_header(*op, old(payload)@.len() as u64) + old(payload)@,
        final(payload)@ == Seq::<u8>::empty(),
        out@[0] & 0xF0u8 == 0x80u8,
        op_code_of_bits(out@[0] & OP_CODE_UN_MASK) == Some(*op),
        out@[1] & 0x80u8 == 0,
        old(payload)@.len() <= 125 ==> out@[1] == old(payload)@.len() && out@.skip(2) == old(
            payload,
        )@,
        125 < old(payload)@.len() <= 65535 ==> out@[1] == 126 && out@[2] as nat * 256
            + out@[3] as nat == old(payload)@.len() && out@.skip(4) == old(payload)@,
        65535 < old(payload)@.len() ==> out@[1] == 127 && be_value(out@.subrange(2, 10)) == old(
            payload,
        )@.len() && out@.skip(10) == old(payload)@,
        65535 < old(payload)@.len() ==> out@[2] as nat * 0x100_0000_0000_0000 + out@[3] as nat
            * 0x1_0000_0000_0000 + out@[4] as nat * 0x100_0000_0000 + out@[5] as nat * 0x1_0000_0000
            + out@[6] as nat * 0x100_0000 + out@[7] as nat * 0x1_0000 + out@[8] as nat * 0x100
            + out@[9] as nat == old(payload)@.len(),
{
    let mut out_buf: Vec<u8> = Vec::new();
    set_op_code(op, &mut out_buf);
    set_payload_info(payload.len(), &mut out_buf);
    out_buf.append(payload);
    assert(out_buf@ =~= frame_header(*op, old(payload)@.len() as u64) + old(payload)@);
    proof {
        let len = old(payload)@.len() as u64;
        let h = frame_header(*op, len);
        lemma_writer_header(*op, len);
        assert(out_buf@[0] == h[0]);
        assert(out_buf@[1] == h[1]);
        if len <= 125 {
            assert(out_buf@.skip(2) =~= old(payload)@);
        } else if len <= 65535 {
            assert(out_buf@[2] == h[2]);
            assert(out_buf@[3] == h[3]);
            assert(out_buf@.skip(4) =~= old(payload)@);
        } else {
            assert(out_buf@.subrange(2, 10) =~= h.subrange(2, 10));
            assert(out_buf@[2] == h[2] && out_buf@[3] == h[3] && out_buf@[4] == h[4] && out_buf@[5]
                == h[5] && out_buf@[6] == h[6] && out_buf@[7] == h[7] && out_buf@[8] == h[8]
                && out_buf@[9] == h[9]);
            assert(out_buf@.skip(10) =~= old(payload)@);
        }
    }
    out_buf
}

} // verus!
