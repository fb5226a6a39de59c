//! The track checksum: the sum of the decoded bytes, kept to sixteen bits.

use vstd::prelude::*;

verus! {

/// The sum of all bytes of `data`.
pub open spec fn byte_sum(data: Seq<u8>) -> nat
    decreases data.len(),
{
    if data.len() == 0 {
        0
    } else {
        byte_sum(data.drop_last()) + data.last() as nat
    }
}

/// The checksum a track record declares for its decoded bytes.
pub open spec fn track_checksum(data: Seq<u8>) -> u16 {
    (byte_sum(data) % 0x1_0000) as u16
}

/// Computes the checksum of decoded track bytes.
pub fn checksum(data: &[u8]) -> (sum: u16)
    ensures
        sum == track_checksum(data@),
{
    let mut acc: u32 = 0;
    let mut i: usize = 0;
    while i < data.len()
        invariant
            i <= data@.len(),
            acc < 0x1_0000,
            acc == byte_sum(data@.take(i as int)) % 0x1_0000,
        decreases data@.len() - i,
    {
        assert(data@.take(i + 1).drop_last() =~= data@.take(i as int));
        acc = (acc + data[i] as u32) % 0x1_0000;
        i += 1;
    }
    assert(data@.take(i as int) =~= data@);
    acc as u16
}

} // verus!
