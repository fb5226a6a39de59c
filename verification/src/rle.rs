//! The SIMPLE mode: run-length coding with an escape byte.
//!
//! Every byte but the escape `0x90` stands for itself. After an escape comes
//! a count byte: `0x00` stands for the escape byte itself; `0x01` to `0xFE`
//! is the length of a run, followed by the byte to repeat; `0xFF` is followed
//! by the byte to repeat and then by the length of the run as a big-endian
//! sixteen-bit number. The whole payload has to expand to exactly the track.

use vstd::prelude::*;

verus! {

/// The byte that introduces a run.
pub const RLE_ESCAPE: u8 = 0x90;

/// A run of `count` bytes `value`.
pub open spec fn run_of(value: u8, count: nat) -> Seq<u8> {
    Seq::new(count, |i: int| value)
}

/// The item that starts at byte `pos`: the bytes it stands for and the
/// number of payload bytes it takes up. `None` where the payload ends inside
/// the item.
pub open spec fn rle_item(data: Seq<u8>, pos: int) -> Option<(Seq<u8>, nat)> {
    if data[pos] != RLE_ESCAPE {
        Some((seq![data[pos]], 1))
    } else if pos + 1 >= data.len() {
        None
    } else if data[pos + 1] == 0 {
        Some((seq![RLE_ESCAPE], 2))
    } else if data[pos + 1] != 0xFF {
        if pos + 2 >= data.len() {
            None
        } else {
            Some((run_of(data[pos + 2], data[pos + 1] as nat), 3))
        }
    } else {
        if pos + 4 >= data.len() {
            None
        } else {
            Some(
                (run_of(data[pos + 2], (data[pos + 3] as nat) * 256 + data[pos + 4] as nat), 5),
            )
        }
    }
}

/// What the payload from byte `pos` to its end expands to.
pub open spec fn rle_expansion(data: Seq<u8>, pos: int) -> Option<Seq<u8>>
    decreases data.len() - pos,
{
    if pos < 0 || pos >= data.len() {
        Some(Seq::empty())
    } else {
        match rle_item(data, pos) {
            None => None,
            Some((bytes, used)) => match rle_expansion(data, pos + used) {
                None => None,
                Some(rest) => Some(bytes + rest),
            },
        }
    }
}

/// What a SIMPLE payload unpacks to, if it is well formed and expands to
/// exactly `out_len` bytes.
pub open spec fn simple_unpacked(data: Seq<u8>, out_len: nat) -> Option<Seq<u8>> {
    match rle_expansion(data, 0) {
        Some(bytes) => if bytes.len() == out_len {
            Some(bytes)
        } else {
            None
        },
        None => None,
    }
}

/// `front` followed by an expansion, where there is one.
pub open spec fn after(front: Seq<u8>, expansion: Option<Seq<u8>>) -> Option<Seq<u8>> {
    match expansion {
        Some(rest) => Some(front + rest),
        None => None,
    }
}

/// Expanding from `pos` on is expanding the item at `pos` and then the rest.
proof fn lemma_expansion_step(data: Seq<u8>, pos: int, front: Seq<u8>)
    requires
        0 <= pos < data.len(),
    ensures
        after(front, rle_expansion(data, pos)) == match rle_item(data, pos) {
            None => None::<Seq<u8>>,
            Some((bytes, used)) => after(front + bytes, rle_expansion(data, pos + used)),
        },
{
    match rle_item(data, pos) {
        None => {},
        Some((bytes, used)) => {
            match rle_expansion(data, pos + used) {
                None => {},
                Some(rest) => {
                    assert(front + (bytes + rest) =~= (front + bytes) + rest);
                },
            }
        },
    }
}

/// Appends a run of `count` bytes `value` to `out`.
pub fn push_run(out: &mut Vec<u8>, value: u8, count: usize)
    ensures
        final(out)@ == old(out)@ + run_of(value, count as nat),
{
    let mut k: usize = 0;
    assert(out@ =~= old(out)@ + run_of(value, 0));
    while k < count
        invariant
            k <= count,
            out@ == old(out)@ + run_of(value, k as nat),
        decreases count - k,
    {
        out.push(value);
        k += 1;
        assert(out@ =~= old(out)@ + run_of(value, k as nat));
    }
}

/// Unpacks a SIMPLE payload into a track of `out_len` bytes.
pub fn decode_simple(payload: &[u8], out_len: usize) -> (r: Option<Vec<u8>>)
    ensures
        match r {
            Some(bytes) => simple_unpacked(payload@, out_len as nat) == Some(bytes@) && bytes@.len()
                == out_len,
            None => simple_unpacked(payload@, out_len as nat) is None,
        },
{
    let mut out: Vec<u8> = Vec::new();
    let mut pos: usize = 0;
    let len = payload.len();
    proof {
        match rle_expansion(payload@, 0) {
            Some(all) => {
                assert(out@ + all =~= all);
            },
            None => {},
        }
    }
    while pos < len
        invariant
            len == payload@.len(),
            pos <= len,
            out@.len() <= out_len,
            rle_expansion(payload@, 0) == after(out@, rle_expansion(payload@, pos as int)),
        decreases len - pos,
    {
        proof {
            lemma_expansion_step(payload@, pos as int, out@);
        }
        let room: usize = out_len - out.len();
        let byte = payload[pos];
        if byte != RLE_ESCAPE {
            if room < 1 {
                return None;
            }
            let ghost before = out@;
            out.push(byte);
            assert(out@ =~= before + seq![byte]);
            pos += 1;
        } else if len - pos < 2 {
            return None;
        } else if payload[pos + 1] == 0 {
            if room < 1 {
                return None;
            }
            let ghost before = out@;
            out.push(RLE_ESCAPE);
            assert(out@ =~= before + seq![RLE_ESCAPE]);
            pos += 2;
        } else if payload[pos + 1] != 0xFF {
            if len - pos < 3 {
                return None;
            }
            let count: usize = payload[pos + 1] as usize;
            if room < count {
                return None;
            }
            push_run(&mut out, payload[pos + 2], count);
            pos += 3;
        } else {
            if len - pos < 5 {
                return None;
            }
            let count: usize = payload[pos + 3] as usize * 256 + payload[pos + 4] as usize;
            if room < count {
                return None;
            }
            push_run(&mut out, payload[pos + 2], count);
            pos += 5;
        }
    }
    assert(out@ + Seq::<u8>::empty() =~= out@);
    if out.len() == out_len {
        Some(out)
    } else {
        None
    }
}

} // verus!
