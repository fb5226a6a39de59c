//! Reading a byte string as a stream of bits, most significant bit first.

use vstd::prelude::*;

verus! {

/// Two to the power `n`.
pub open spec fn two_pow(n: nat) -> nat
    decreases n,
{
    if n == 0 {
        1
    } else {
        2 * two_pow((n - 1) as nat)
    }
}

/// Bit `i` of the stream: bit 0 is the top bit of the first byte.
pub open spec fn bit_at(data: Seq<u8>, i: int) -> nat {
    ((data[i / 8] >> ((7 - i % 8) as u8)) & 1u8) as nat
}

/// The number written by the `n` bits that start at bit `pos`, the first of
/// them being the most significant.
pub open spec fn bits_value(data: Seq<u8>, pos: int, n: nat) -> nat
    decreases n,
{
    if n == 0 {
        0
    } else {
        2 * bits_value(data, pos, (n - 1) as nat) + bit_at(data, pos + n - 1)
    }
}

/// The stream holds `n` more bits from bit `pos` on.
pub open spec fn bits_available(data: Seq<u8>, pos: int, n: nat) -> bool {
    0 <= pos && pos + n <= 8 * data.len()
}

/// The bytes of the stream that a reader standing at bit `pos` has touched.
pub open spec fn bytes_touched(pos: int) -> int {
    (pos + 7) / 8
}

/// Powers of two grow with the exponent and are at least one.
pub proof fn lemma_two_pow_monotonic(a: nat, b: nat)
    requires
        a <= b,
    ensures
        two_pow(a) <= two_pow(b),
        two_pow(a) >= 1,
    decreases b,
{
    if a < b {
        lemma_two_pow_monotonic(a, (b - 1) as nat);
    } else if a > 0 {
        lemma_two_pow_monotonic((a - 1) as nat, (a - 1) as nat);
    }
}

/// The powers of two that the decoders meet.
pub proof fn lemma_two_pow_values()
    ensures
        two_pow(0) == 1,
        two_pow(1) == 2,
        two_pow(2) == 4,
        two_pow(4) == 16,
        two_pow(8) == 256,
        two_pow(10) == 1024,
        two_pow(15) == 32768,
        two_pow(16) == 65536,
{
    reveal_with_fuel(two_pow, 17);
}

/// A bit is zero or one.
pub proof fn lemma_bit_at_bound(data: Seq<u8>, i: int)
    ensures
        bit_at(data, i) <= 1,
{
    let byte = data[i / 8];
    let shift = (7 - i % 8) as u8;
    assert((byte >> shift) & 1u8 <= 1) by (bit_vector);
}

/// Reads the single bit at `pos`.
pub fn read_bit(data: &[u8], pos: usize) -> (b: u8)
    requires
        pos < 8 * data@.len(),
    ensures
        b == bit_at(data@, pos as int),
        b <= 1,
{
    let byte = data[pos / 8];
    let shift: u8 = 7 - (pos % 8) as u8;
    let b = (byte >> shift) & 1u8;
    proof {
        lemma_bit_at_bound(data@, pos as int);
    }
    b
}

/// Reads `n` bits from `pos` on as one number.
pub fn read_bits(data: &[u8], pos: usize, n: usize) -> (v: u32)
    requires
        n <= 16,
        8 * data@.len() <= usize::MAX,
        bits_available(data@, pos as int, n as nat),
    ensures
        v == bits_value(data@, pos as int, n as nat),
        v < two_pow(n as nat),
        v < 65536,
{
    let mut v: u32 = 0;
    let mut k: usize = 0;
    while k < n
        invariant
            k <= n <= 16,
            8 * data@.len() <= usize::MAX,
            pos + n <= 8 * data@.len(),
            v == bits_value(data@, pos as int, k as nat),
            v < two_pow(k as nat),
        decreases n - k,
    {
        let b = read_bit(data, pos + k);
        proof {
            lemma_two_pow_monotonic(k as nat, 15);
            lemma_two_pow_values();
        }
        v = v * 2 + b as u32;
        k += 1;
    }
    proof {
        lemma_two_pow_monotonic(n as nat, 16);
        lemma_two_pow_values();
    }
    v
}

} // verus!
