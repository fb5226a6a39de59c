//! Back-references into the bytes already decoded.

use vstd::prelude::*;

verus! {

/// The byte `dist` places back from the end of `out`. Places before the
/// start of the output read as zero, as does the distance zero.
pub open spec fn back_byte(out: Seq<u8>, dist: nat) -> u8 {
    if 1 <= dist <= out.len() {
        out[out.len() - dist]
    } else {
        0
    }
}

/// `out` extended by `count` bytes, each the byte `dist` places back from
/// where it is written. A copy may overlap what it writes.
pub open spec fn lz_copy(out: Seq<u8>, dist: nat, count: nat) -> Seq<u8>
    decreases count,
{
    if count == 0 {
        out
    } else {
        lz_copy(out.push(back_byte(out, dist)), dist, (count - 1) as nat)
    }
}

/// A copy adds `count` bytes and leaves what was there as it was.
pub proof fn lemma_lz_copy_extends(out: Seq<u8>, dist: nat, count: nat)
    ensures
        lz_copy(out, dist, count).len() == out.len() + count,
        lz_copy(out, dist, count).subrange(0, out.len() as int) == out,
    decreases count,
{
    if count > 0 {
        let next = out.push(back_byte(out, dist));
        lemma_lz_copy_extends(next, dist, (count - 1) as nat);
        let all = lz_copy(out, dist, count);
        assert(all.subrange(0, out.len() as int) =~= all.subrange(0, next.len() as int).subrange(
            0,
            out.len() as int,
        ));
        assert(next.subrange(0, out.len() as int) =~= out);
    } else {
        assert(out.subrange(0, out.len() as int) =~= out);
    }
}

/// Appends a back-reference of `count` bytes at distance `dist` to `out`.
pub fn copy_back(out: &mut Vec<u8>, dist: usize, count: usize)
    ensures
        final(out)@ == lz_copy(old(out)@, dist as nat, count as nat),
        final(out)@.len() == old(out)@.len() + count,
{
    let mut k: usize = 0;
    proof {
        lemma_lz_copy_extends(old(out)@, dist as nat, count as nat);
    }
    while k < count
        invariant
            k <= count,
            out@.len() == old(out)@.len() + k,
            lz_copy(old(out)@, dist as nat, count as nat) == lz_copy(
                out@,
                dist as nat,
                (count - k) as nat,
            ),
        decreases count - k,
    {
        let len = out.len();
        let byte = if 1 <= dist && dist <= len {
            out[len - dist]
        } else {
            0
        };
        out.push(byte);
        k += 1;
    }
}

} // verus!
