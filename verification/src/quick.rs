//! The QUICK mode: literals and short back-references, one flag bit each.
//!
//! The payload is a bit stream. A set flag bit is followed by eight bits of
//! literal byte. A clear flag bit is followed by two bits of length (stored
//! less two, so 2 to 5 bytes) and eight bits of distance (stored less one,
//! so 1 to 256 places back). Tokens follow one another until the track is
//! full; the last token has to fill it exactly, and the stream has to end in
//! the byte that holds that token's last bit.

use vstd::prelude::*;
use crate::bits::{
    bit_at,
    bits_available,
    bits_value,
    bytes_touched,
    read_bit,
    read_bits,
};
use crate::dms::MAX_PACKED_LEN;
use crate::lz::{copy_back, lemma_lz_copy_extends, lz_copy};

verus! {

/// Decoding from bit `pos` on, with `out` already produced.
pub open spec fn quick_from(data: Seq<u8>, pos: int, out: Seq<u8>, out_len: nat) -> Option<
    Seq<u8>,
>
    decreases out_len - out.len(),
    via quick_from_terminates
{
    if out.len() >= out_len {
        if out.len() == out_len && bytes_touched(pos) == data.len() {
            Some(out)
        } else {
            None
        }
    } else if !bits_available(data, pos, 1) {
        None
    } else if bit_at(data, pos) == 1 {
        if !bits_available(data, pos, 9) {
            None
        } else {
            quick_from(data, pos + 9, out.push(bits_value(data, pos + 1, 8) as u8), out_len)
        }
    } else {
        if !bits_available(data, pos, 11) {
            None
        } else {
            let count = bits_value(data, pos + 1, 2) + 2;
            let dist = bits_value(data, pos + 3, 8) + 1;
            if out.len() + count > out_len {
                None
            } else {
                quick_from(data, pos + 11, lz_copy(out, dist, count), out_len)
            }
        }
    }
}

#[via_fn]
proof fn quick_from_terminates(data: Seq<u8>, pos: int, out: Seq<u8>, out_len: nat) {
    lemma_lz_copy_extends(out, bits_value(data, pos + 3, 8) + 1, bits_value(data, pos + 1, 2) + 2);
}

/// What a QUICK payload unpacks to, if it is a well-formed stream for a
/// track of `out_len` bytes.
pub open spec fn quick_unpacked(data: Seq<u8>, out_len: nat) -> Option<Seq<u8>> {
    quick_from(data, 0, Seq::empty(), out_len)
}

/// Whatever a QUICK payload unpacks to fills the track exactly.
pub proof fn lemma_quick_fills_track(data: Seq<u8>, pos: int, out: Seq<u8>, out_len: nat)
    ensures
        quick_from(data, pos, out, out_len) matches Some(bytes) ==> bytes.len() == out_len,
    decreases out_len - out.len(),
{
    if out.len() < out_len && bits_available(data, pos, 1) {
        if bit_at(data, pos) == 1 {
            if bits_available(data, pos, 9) {
                lemma_quick_fills_track(
                    data,
                    pos + 9,
                    out.push(bits_value(data, pos + 1, 8) as u8),
                    out_len,
                );
            }
        } else if bits_available(data, pos, 11) {
            let count = bits_value(data, pos + 1, 2) + 2;
            let dist = bits_value(data, pos + 3, 8) + 1;
            if out.len() + count <= out_len {
                lemma_lz_copy_extends(out, dist, count);
                lemma_quick_fills_track(data, pos + 11, lz_copy(out, dist, count), out_len);
            }
        }
    }
}

/// Unpacks a QUICK payload into a track of `out_len` bytes.
pub fn decode_quick(payload: &[u8], out_len: usize) -> (r: Option<Vec<u8>>)
    requires
        payload@.len() <= MAX_PACKED_LEN,
    ensures
        match r {
            Some(bytes) => quick_unpacked(payload@, out_len as nat) == Some(bytes@) && bytes@.len()
                == out_len,
            None => quick_unpacked(payload@, out_len as nat) is None,
        },
{
    let total_bits: usize = payload.len() * 8;
    let mut out: Vec<u8> = Vec::new();
    let mut pos: usize = 0;
    while out.len() < out_len
        invariant
            payload@.len() <= MAX_PACKED_LEN,
            total_bits == 8 * payload@.len(),
            pos <= total_bits,
            out@.len() <= out_len,
            quick_unpacked(payload@, out_len as nat) == quick_from(
                payload@,
                pos as int,
                out@,
                out_len as nat,
            ),
        decreases out_len - out@.len(),
    {
        if total_bits - pos < 1 {
            return None;
        }
        let flag = read_bit(payload, pos);
        if flag == 1 {
            if total_bits - pos < 9 {
                return None;
            }
            let byte = read_bits(payload, pos + 1, 8);
            proof {
                crate::bits::lemma_two_pow_values();
            }
            out.push(byte as u8);
            pos += 9;
        } else {
            if total_bits - pos < 11 {
                return None;
            }
            let count: usize = read_bits(payload, pos + 1, 2) as usize + 2;
            let dist: usize = read_bits(payload, pos + 3, 8) as usize + 1;
            if count > out_len - out.len() {
                return None;
            }
            copy_back(&mut out, dist, count);
            pos += 11;
        }
    }
    if (pos + 7) / 8 == payload.len() {
        Some(out)
    } else {
        None
    }
}

} // verus!
