//! Canonical prefix codes, given by the code length of each symbol.
//!
//! A table lists one code length per symbol; length zero means the symbol
//! has no code. Codes are handed out in the canonical way: shorter codes
//! come first, and among codes of one length the smaller symbol has the
//! smaller code. A table is malformed where a length exceeds fifteen bits or
//! where the lengths ask for more codes than there are.

use vstd::prelude::*;
use crate::bits::{bits_available, bits_value, read_bit, two_pow};

verus! {

/// The longest code, in bits.
pub const MAX_CODE_BITS: usize = 15;

/// The largest alphabet a table may describe.
pub const MAX_SYMBOLS: usize = 0x1_0000;

/// How many of the symbols below `upto` have a code of `bits` bits.
pub open spec fn count_before(lengths: Seq<u8>, upto: int, bits: nat) -> nat
    decreases upto,
{
    if upto <= 0 {
        0
    } else {
        count_before(lengths, upto - 1, bits) + if lengths[upto - 1] == bits {
            1nat
        } else {
            0nat
        }
    }
}

/// How many symbols have a code of `bits` bits.
pub open spec fn count_of(lengths: Seq<u8>, bits: nat) -> nat {
    count_before(lengths, lengths.len() as int, bits)
}

/// The smallest code of `bits` bits.
pub open spec fn first_code(lengths: Seq<u8>, bits: nat) -> nat
    decreases bits,
{
    if bits <= 1 {
        0
    } else {
        2 * (first_code(lengths, (bits - 1) as nat) + count_of(lengths, (bits - 1) as nat))
    }
}

/// The code of symbol `sym`, as a number of `lengths[sym]` bits.
pub open spec fn codeword(lengths: Seq<u8>, sym: int) -> nat {
    first_code(lengths, lengths[sym] as nat) + count_before(lengths, sym, lengths[sym] as nat)
}

/// The lengths describe a prefix code: none is longer than fifteen bits,
/// and for no length are more codes asked for than remain.
pub open spec fn is_prefix_code(lengths: Seq<u8>) -> bool {
    &&& forall|s: int| 0 <= s < lengths.len() ==> #[trigger] lengths[s] <= MAX_CODE_BITS
    &&& forall|bits: nat|
        1 <= bits <= MAX_CODE_BITS ==> #[trigger] first_code(lengths, bits) + count_of(
            lengths,
            bits,
        ) <= two_pow(bits)
}

/// Symbol `sym` has the code `value` of `bits` bits.
pub open spec fn has_code(lengths: Seq<u8>, sym: int, bits: nat, value: nat) -> bool {
    &&& 0 <= sym < lengths.len()
    &&& bits >= 1
    &&& lengths[sym] == bits
    &&& codeword(lengths, sym) == value
}

/// The symbol whose code is `value` in `bits` bits, if there is one.
pub open spec fn symbol_of(lengths: Seq<u8>, bits: nat, value: nat) -> Option<int> {
    if exists|s: int| has_code(lengths, s, bits, value) {
        Some(choose|s: int| has_code(lengths, s, bits, value))
    } else {
        None
    }
}

/// The next symbol of the stream, trying codes of `bits` bits and more: the
/// symbol and the number of bits its code takes.
pub open spec fn next_symbol_from(lengths: Seq<u8>, data: Seq<u8>, pos: int, bits: nat) -> Option<
    (int, nat),
>
    decreases 16 - bits,
{
    if bits > MAX_CODE_BITS || !bits_available(data, pos, bits) {
        None
    } else {
        match symbol_of(lengths, bits, bits_value(data, pos, bits)) {
            Some(sym) => Some((sym, bits)),
            None => next_symbol_from(lengths, data, pos, bits + 1),
        }
    }
}

/// The symbol whose code starts at bit `pos`, with the length of that code:
/// the shortest code that the bits from `pos` on begin with.
pub open spec fn next_symbol(lengths: Seq<u8>, data: Seq<u8>, pos: int) -> Option<(int, nat)> {
    next_symbol_from(lengths, data, pos, 1)
}

/// The count of codes of one length grows along the symbols, and strictly
/// past a symbol of that length.
pub proof fn lemma_count_before_monotonic(lengths: Seq<u8>, a: int, b: int, bits: nat)
    requires
        a <= b,
    ensures
        count_before(lengths, a, bits) <= count_before(lengths, b, bits),
        0 <= a < b && lengths[a] == bits ==> count_before(lengths, a, bits) < count_before(
            lengths,
            b,
            bits,
        ),
    decreases b - a,
{
    if a < b {
        lemma_count_before_monotonic(lengths, a, b - 1, bits);
    }
}

/// Two symbols with the same code are the same symbol.
pub proof fn lemma_code_is_unique(lengths: Seq<u8>, s: int, t: int, bits: nat, value: nat)
    requires
        has_code(lengths, s, bits, value),
        has_code(lengths, t, bits, value),
    ensures
        s == t,
{
    if s < t {
        lemma_count_before_monotonic(lengths, s, t, bits);
    } else if t < s {
        lemma_count_before_monotonic(lengths, t, s, bits);
    }
}

/// The codes of `bits` bits are the numbers from `first_code` on, one for
/// each symbol of that length.
pub proof fn lemma_code_range(lengths: Seq<u8>, s: int, bits: nat, value: nat)
    requires
        has_code(lengths, s, bits, value),
    ensures
        first_code(lengths, bits) <= value < first_code(lengths, bits) + count_of(lengths, bits),
{
    lemma_count_before_monotonic(lengths, s, lengths.len() as int, bits);
}

/// A decoded symbol is a symbol of the table, and its code lies within the
/// stream.
pub proof fn lemma_next_symbol_in_table(lengths: Seq<u8>, data: Seq<u8>, pos: int, bits: nat)
    requires
        1 <= bits,
    ensures
        next_symbol_from(lengths, data, pos, bits) matches Some((sym, used)) ==> {
            &&& 0 <= sym < lengths.len()
            &&& bits <= used <= MAX_CODE_BITS
            &&& lengths[sym] == used
            &&& bits_available(data, pos, used)
        },
    decreases 16 - bits,
{
    if bits <= MAX_CODE_BITS && bits_available(data, pos, bits) {
        if symbol_of(lengths, bits, bits_value(data, pos, bits)) is None {
            lemma_next_symbol_in_table(lengths, data, pos, bits + 1);
        }
    }
}

/// A prefix code ready for decoding.
pub struct CodeTable {
    lengths: Vec<u8>,
    first: Vec<u32>,
    count: Vec<u32>,
}

/// Counts the symbols whose code has `bits` bits.
fn count_symbols(lengths: &Vec<u8>, bits: u8) -> (c: u32)
    requires
        lengths@.len() <= MAX_SYMBOLS,
    ensures
        c == count_of(lengths@, bits as nat),
        c <= lengths@.len(),
{
    let mut c: u32 = 0;
    let mut s: usize = 0;
    while s < lengths.len()
        invariant
            s <= lengths@.len() <= MAX_SYMBOLS,
            c == count_before(lengths@, s as int, bits as nat),
            c <= s,
        decreases lengths@.len() - s,
    {
        if lengths[s] == bits {
            c += 1;
        }
        s += 1;
    }
    c
}

impl CodeTable {
    /// The code length of each symbol.
    pub closed spec fn code_lengths(&self) -> Seq<u8> {
        self.lengths@
    }

    /// The table is a prefix code and its decoding aids agree with it.
    pub closed spec fn wf(&self) -> bool {
        &&& self.lengths@.len() <= MAX_SYMBOLS
        &&& is_prefix_code(self.lengths@)
        &&& self.first@.len() == 16
        &&& self.count@.len() == 16
        &&& forall|b: int|
            1 <= b <= 15 ==> #[trigger] self.first@[b] == first_code(self.lengths@, b as nat)
                && self.count@[b] == count_of(self.lengths@, b as nat)
    }

    /// Builds the table for the given code lengths, or reports them
    /// malformed.
    pub fn build(lengths: Vec<u8>) -> (r: Option<CodeTable>)
        requires
            lengths@.len() <= MAX_SYMBOLS,
        ensures
            match r {
                Some(table) => table.wf() && table.code_lengths() == lengths@ && is_prefix_code(
                    lengths@,
                ),
                None => !is_prefix_code(lengths@),
            },
    {
        let n = lengths.len();
        let mut s: usize = 0;
        while s < n
            invariant
                n == lengths@.len(),
                s <= n,
                forall|j: int| 0 <= j < s ==> #[trigger] lengths@[j] <= MAX_CODE_BITS,
            decreases n - s,
        {
            if lengths[s] > 15 {
                return None;
            }
            s += 1;
        }
        let mut first: Vec<u32> = Vec::new();
        let mut count: Vec<u32> = Vec::new();
        first.push(0);
        count.push(0);
        let mut bits: usize = 1;
        let mut code: u32 = 0;
        let mut limit: u32 = 2;
        proof {
            crate::bits::lemma_two_pow_values();
        }
        while bits <= 15
            invariant
                lengths@.len() <= MAX_SYMBOLS,
                1 <= bits <= 16,
                first@.len() == bits,
                count@.len() == bits,
                limit == two_pow(bits as nat),
                limit <= 65536,
                bits <= 15 ==> limit <= 32768,
                code == first_code(lengths@, bits as nat),
                code <= limit,
                forall|b: int|
                    1 <= b < bits ==> #[trigger] first@[b] == first_code(lengths@, b as nat)
                        && count@[b] == count_of(lengths@, b as nat),
                forall|b: nat|
                    1 <= b < bits ==> #[trigger] first_code(lengths@, b) + count_of(lengths@, b)
                        <= two_pow(b),
            decreases 16 - bits,
        {
            let c = count_symbols(&lengths, bits as u8);
            if c > limit - code {
                return None;
            }
            first.push(code);
            count.push(c);
            proof {
                crate::bits::lemma_two_pow_monotonic(bits as nat + 1, 16);
                crate::bits::lemma_two_pow_values();
                if bits < 15 {
                    crate::bits::lemma_two_pow_monotonic(bits as nat + 1, 15);
                }
            }
            code = 2 * (code + c);
            limit = 2 * limit;
            bits += 1;
        }
        Some(CodeTable { lengths, first, count })
    }

    /// Finds the symbol whose code is `value` in `bits` bits.
    pub fn lookup(&self, bits: usize, value: u32) -> (r: Option<usize>)
        requires
            self.wf(),
            1 <= bits <= MAX_CODE_BITS,
        ensures
            match r {
                Some(sym) => symbol_of(self.code_lengths(), bits as nat, value as nat) == Some(
                    sym as int,
                ),
                None => symbol_of(self.code_lengths(), bits as nat, value as nat) is None,
            },
    {
        let ghost lengths = self.lengths@;
        let base = self.first[bits];
        let many = self.count[bits];
        if value < base || value - base >= many {
            proof {
                if exists|s: int| has_code(lengths, s, bits as nat, value as nat) {
                    let s = choose|s: int| has_code(lengths, s, bits as nat, value as nat);
                    lemma_code_range(lengths, s, bits as nat, value as nat);
                }
            }
            return None;
        }
        let rank = value - base;
        let n = self.lengths.len();
        let mut s: usize = 0;
        let mut seen: u32 = 0;
        while s < n
            invariant
                self.wf(),
                lengths == self.lengths@,
                n == lengths.len(),
                1 <= bits <= MAX_CODE_BITS,
                s <= n,
                seen == count_before(lengths, s as int, bits as nat),
                seen <= rank,
                base == first_code(lengths, bits as nat),
                rank == value - base,
                rank < count_of(lengths, bits as nat),
            decreases n - s,
        {
            if self.lengths[s] as usize == bits {
                if seen == rank {
                    proof {
                        assert(has_code(lengths, s as int, bits as nat, value as nat));
                        let c = choose|t: int| has_code(lengths, t, bits as nat, value as nat);
                        lemma_code_is_unique(lengths, s as int, c, bits as nat, value as nat);
                    }
                    return Some(s);
                }
                seen += 1;
            }
            s += 1;
        }
        None
    }

    /// Decodes the symbol whose code starts at bit `pos`: the symbol and the
    /// number of bits its code takes.
    pub fn decode(&self, data: &[u8], pos: usize) -> (r: Option<(usize, usize)>)
        requires
            self.wf(),
            8 * data@.len() + 16 <= usize::MAX,
            pos <= 8 * data@.len(),
        ensures
            match r {
                Some((sym, used)) => next_symbol(self.code_lengths(), data@, pos as int) == Some(
                    (sym as int, used as nat),
                ) && 1 <= used <= MAX_CODE_BITS && sym < self.code_lengths().len() && pos + used <= 8
                    * data@.len(),
                None => next_symbol(self.code_lengths(), data@, pos as int) is None,
            },
    {
        let total_bits: usize = data.len() * 8;
        let mut bits: usize = 1;
        let mut value: u32 = 0;
        while bits <= 15
            invariant
                self.wf(),
                total_bits == 8 * data@.len(),
                total_bits + 16 <= usize::MAX,
                pos <= total_bits,
                1 <= bits <= 16,
                value == bits_value(data@, pos as int, (bits - 1) as nat),
                value < two_pow((bits - 1) as nat),
                next_symbol(self.code_lengths(), data@, pos as int) == next_symbol_from(
                    self.code_lengths(),
                    data@,
                    pos as int,
                    bits as nat,
                ),
            decreases 16 - bits,
        {
            if total_bits - pos < bits {
                return None;
            }
            let b = read_bit(data, pos + (bits - 1));
            proof {
                crate::bits::lemma_two_pow_monotonic((bits - 1) as nat, 14);
                crate::bits::lemma_two_pow_values();
                reveal_with_fuel(two_pow, 15);
            }
            value = value * 2 + b as u32;
            match self.lookup(bits, value) {
                Some(sym) => {
                    return Some((sym, bits));
                },
                None => {},
            }
            bits += 1;
        }
        None
    }
}

} // verus!
