//! The MEDIUM and DEEP modes: back-references and literals under prefix
//! codes that each block brings along.
//!
//! The payload is a bit stream of blocks. A block opens with sixteen bits
//! that count its tokens (at least one), followed by three code tables, each
//! a row of four-bit code lengths: one for the 256 literal bytes, one for
//! the match lengths, one for the upper part of the match distances. The
//! tables hold for this block only. Then come the tokens. A set flag bit is
//! followed by the code of a literal byte. A clear flag bit is followed by
//! the code of a match length (stored less three), the code of the upper
//! part of the distance, and eight plain bits of its lower part (the
//! distance is stored less one). The last block has to end exactly where
//! the track is full, and the stream in the byte that holds its last bit.
//!
//! The two modes differ in the size of their alphabets: MEDIUM has 16 match
//! lengths (3 to 18) and reaches 16 KiB back, DEEP has 64 match lengths
//! (3 to 66) and reaches 32 KiB back.

use vstd::prelude::*;
use crate::bits::{
    bit_at,
    bits_available,
    bits_value,
    bytes_touched,
    read_bit,
    read_bits,
};
use crate::dms::MAX_PACKED_LEN;
use crate::huffman::{is_prefix_code, lemma_next_symbol_in_table, next_symbol, CodeTable};
use crate::lz::{copy_back, lemma_lz_copy_extends, lz_copy};

verus! {

/// Symbols in the literal alphabet.
pub const LITERAL_SYMBOLS: usize = 256;

/// The shortest match.
pub const MIN_MATCH: usize = 3;

/// Which of the two alphabets a payload uses.
#[derive(Clone, Copy, Debug, PartialEq, Eq, Structural)]
pub enum Depth {
    Medium,
    Deep,
}

impl Depth {
    pub open spec fn spec_length_symbols(self) -> nat {
        match self {
            Depth::Medium => 16,
            Depth::Deep => 64,
        }
    }

    pub open spec fn spec_distance_symbols(self) -> nat {
        match self {
            Depth::Medium => 64,
            Depth::Deep => 128,
        }
    }

    /// Symbols in the alphabet of match lengths.
    pub fn length_symbols(self) -> (n: usize)
        ensures
            n == self.spec_length_symbols(),
    {
        match self {
            Depth::Medium => 16,
            Depth::Deep => 64,
        }
    }

    /// Symbols in the alphabet of upper distance parts.
    pub fn distance_symbols(self) -> (n: usize)
        ensures
            n == self.spec_distance_symbols(),
    {
        match self {
            Depth::Medium => 64,
            Depth::Deep => 128,
        }
    }
}

/// The three code tables of a block, each by its code lengths.
pub struct CodeSet {
    pub literals: Seq<u8>,
    pub lengths: Seq<u8>,
    pub distances: Seq<u8>,
}

/// What stands at the head of a block: how many tokens follow, under which
/// codes, and the bit at which the first token starts.
pub struct BlockHead {
    pub tokens: nat,
    pub codes: CodeSet,
    pub body: int,
}

/// One token of the stream.
pub enum Token {
    /// A byte that stands for itself.
    Literal(u8),
    /// `count` bytes, each `dist` places back from where it is written.
    Copy { count: nat, dist: nat },
}

/// A token as the decoder holds it.
#[derive(Clone, Copy, Debug)]
pub enum Piece {
    Literal(u8),
    Copy { count: usize, dist: usize },
}

impl View for Piece {
    type V = Token;

    open spec fn view(&self) -> Token {
        match *self {
            Piece::Literal(byte) => Token::Literal(byte),
            Piece::Copy { count, dist } => Token::Copy { count: count as nat, dist: dist as nat },
        }
    }
}

/// The row of `symbols` four-bit code lengths that starts at bit `pos`.
pub open spec fn table_row(data: Seq<u8>, pos: int, symbols: nat) -> Seq<u8> {
    Seq::new(symbols, |i: int| bits_value(data, pos + 4 * i, 4) as u8)
}

/// The code table described from bit `pos` on, if it is all there and a
/// prefix code.
pub open spec fn table_at(data: Seq<u8>, pos: int, symbols: nat) -> Option<Seq<u8>> {
    if !bits_available(data, pos, 4 * symbols) || !is_prefix_code(table_row(data, pos, symbols)) {
        None
    } else {
        Some(table_row(data, pos, symbols))
    }
}

/// The head of the block that starts at bit `pos`.
pub open spec fn block_head(depth: Depth, data: Seq<u8>, pos: int) -> Option<BlockHead> {
    let literals_at = pos + 16;
    let lengths_at = literals_at + 4 * LITERAL_SYMBOLS;
    let distances_at = lengths_at + 4 * depth.spec_length_symbols();
    let body = distances_at + 4 * depth.spec_distance_symbols();
    if !bits_available(data, pos, 16) || bits_value(data, pos, 16) == 0 {
        None
    } else {
        match table_at(data, literals_at, LITERAL_SYMBOLS as nat) {
            None => None,
            Some(literals) => match table_at(data, lengths_at, depth.spec_length_symbols()) {
                None => None,
                Some(lengths) => match table_at(
                    data,
                    distances_at,
                    depth.spec_distance_symbols(),
                ) {
                    None => None,
                    Some(distances) => Some(
                        BlockHead {
                            tokens: bits_value(data, pos, 16),
                            codes: CodeSet { literals, lengths, distances },
                            body,
                        },
                    ),
                },
            },
        }
    }
}

/// The token that starts at bit `pos`, with the number of bits it takes.
pub open spec fn token_at(codes: CodeSet, data: Seq<u8>, pos: int) -> Option<(Token, nat)> {
    if !bits_available(data, pos, 1) {
        None
    } else if bit_at(data, pos) == 1 {
        match next_symbol(codes.literals, data, pos + 1) {
            None => None,
            Some((sym, used)) => Some((Token::Literal(sym as u8), 1 + used)),
        }
    } else {
        match next_symbol(codes.lengths, data, pos + 1) {
            None => None,
            Some((length_sym, length_bits)) => match next_symbol(
                codes.distances,
                data,
                pos + 1 + length_bits,
            ) {
                None => None,
                Some((upper, upper_bits)) => {
                    let low_at = pos + 1 + length_bits + upper_bits;
                    if !bits_available(data, low_at, 8) {
                        None
                    } else {
                        Some(
                            (
                                Token::Copy {
                                    count: (length_sym + MIN_MATCH) as nat,
                                    dist: (upper * 256 + bits_value(data, low_at, 8) + 1) as nat,
                                },
                                1 + length_bits + upper_bits + 8,
                            ),
                        )
                    }
                },
            },
        }
    }
}

/// `out` with the bytes of `token` appended.
pub open spec fn with_token(out: Seq<u8>, token: Token) -> Seq<u8> {
    match token {
        Token::Literal(byte) => out.push(byte),
        Token::Copy { count, dist } => lz_copy(out, dist, count),
    }
}

/// Decoding at a block boundary at bit `pos`, with `out` already produced.
pub open spec fn lzh_blocks(depth: Depth, data: Seq<u8>, pos: int, out: Seq<u8>, out_len: nat)
    -> Option<Seq<u8>>
    decreases out_len - out.len(), 1int,
{
    if out.len() >= out_len {
        if out.len() == out_len && bytes_touched(pos) == data.len() {
            Some(out)
        } else {
            None
        }
    } else {
        match block_head(depth, data, pos) {
            None => None,
            Some(head) => lzh_tokens(depth, data, head.body, out, out_len, head.codes, head.tokens),
        }
    }
}

/// Decoding inside a block that has `remaining` tokens to go.
pub open spec fn lzh_tokens(
    depth: Depth,
    data: Seq<u8>,
    pos: int,
    out: Seq<u8>,
    out_len: nat,
    codes: CodeSet,
    remaining: nat,
) -> Option<Seq<u8>>
    decreases out_len - out.len(), (if remaining == 0 { 2int } else { 0int }),
    via lzh_tokens_terminates
{
    if remaining == 0 {
        lzh_blocks(depth, data, pos, out, out_len)
    } else {
        match token_at(codes, data, pos) {
            None => None,
            Some((token, used)) => {
                let next = with_token(out, token);
                if next.len() > out_len {
                    None
                } else {
                    lzh_tokens(
                        depth,
                        data,
                        pos + used,
                        next,
                        out_len,
                        codes,
                        (remaining - 1) as nat,
                    )
                }
            },
        }
    }
}

#[via_fn]
proof fn lzh_tokens_terminates(
    depth: Depth,
    data: Seq<u8>,
    pos: int,
    out: Seq<u8>,
    out_len: nat,
    codes: CodeSet,
    remaining: nat,
) {
    if remaining > 0 {
        lemma_token_adds_bytes(codes, data, pos, out);
    }
}

/// Every token adds at least one byte to the output.
pub proof fn lemma_token_adds_bytes(codes: CodeSet, data: Seq<u8>, pos: int, out: Seq<u8>)
    ensures
        token_at(codes, data, pos) matches Some((token, used)) ==> with_token(out, token).len()
            > out.len() && used >= 2,
{
    lemma_next_symbol_in_table(codes.literals, data, pos + 1, 1);
    lemma_next_symbol_in_table(codes.lengths, data, pos + 1, 1);
    match token_at(codes, data, pos) {
        Some((Token::Copy { count, dist }, _)) => {
            lemma_lz_copy_extends(out, dist, count);
        },
        _ => {},
    }
}

/// What a MEDIUM or DEEP payload unpacks to, if it is a well-formed stream
/// for a track of `out_len` bytes.
pub open spec fn lzh_unpacked(depth: Depth, data: Seq<u8>, out_len: nat) -> Option<Seq<u8>> {
    lzh_blocks(depth, data, 0, Seq::empty(), out_len)
}

/// Whatever a MEDIUM or DEEP payload unpacks to fills the track exactly.
pub proof fn lemma_lzh_fills_track(
    depth: Depth,
    data: Seq<u8>,
    pos: int,
    out: Seq<u8>,
    out_len: nat,
)
    ensures
        lzh_blocks(depth, data, pos, out, out_len) matches Some(bytes) ==> bytes.len() == out_len,
    decreases out_len - out.len(), 1int,
{
    if out.len() < out_len {
        match block_head(depth, data, pos) {
            None => {},
            Some(head) => {
                lemma_lzh_tokens_fill_track(
                    depth,
                    data,
                    head.body,
                    out,
                    out_len,
                    head.codes,
                    head.tokens,
                );
            },
        }
    }
}

/// The same, from inside a block.
pub proof fn lemma_lzh_tokens_fill_track(
    depth: Depth,
    data: Seq<u8>,
    pos: int,
    out: Seq<u8>,
    out_len: nat,
    codes: CodeSet,
    remaining: nat,
)
    ensures
        lzh_tokens(depth, data, pos, out, out_len, codes, remaining) matches Some(bytes)
            ==> bytes.len() == out_len,
    decreases out_len - out.len(), (if remaining == 0 { 2int } else { 0int }),
{
    if remaining == 0 {
        lemma_lzh_fills_track(depth, data, pos, out, out_len);
    } else {
        lemma_token_adds_bytes(codes, data, pos, out);
        match token_at(codes, data, pos) {
            None => {},
            Some((token, used)) => {
                let next = with_token(out, token);
                if next.len() <= out_len {
                    lemma_lzh_tokens_fill_track(
                        depth,
                        data,
                        pos + used,
                        next,
                        out_len,
                        codes,
                        (remaining - 1) as nat,
                    );
                }
            },
        }
    }
}

/// The three tables of a block, ready for decoding.
pub struct BlockCodes {
    pub literals: CodeTable,
    pub lengths: CodeTable,
    pub distances: CodeTable,
}

impl BlockCodes {
    pub open spec fn wf(&self) -> bool {
        &&& self.literals.wf()
        &&& self.lengths.wf()
        &&& self.distances.wf()
        &&& self.literals.code_lengths().len() == LITERAL_SYMBOLS
        &&& self.lengths.code_lengths().len() <= 64
        &&& self.distances.code_lengths().len() <= 128
    }

    pub open spec fn view(&self) -> CodeSet {
        CodeSet {
            literals: self.literals.code_lengths(),
            lengths: self.lengths.code_lengths(),
            distances: self.distances.code_lengths(),
        }
    }
}

/// Reads the code table of `symbols` symbols described from bit `pos` on.
pub fn read_table(data: &[u8], pos: usize, symbols: usize) -> (r: Option<CodeTable>)
    requires
        data@.len() <= MAX_PACKED_LEN,
        pos <= 8 * data@.len(),
        symbols <= 256,
    ensures
        match r {
            Some(table) => table.wf() && table_at(data@, pos as int, symbols as nat) == Some(
                table.code_lengths(),
            ),
            None => table_at(data@, pos as int, symbols as nat) is None,
        },
{
    let total_bits: usize = data.len() * 8;
    if total_bits - pos < 4 * symbols {
        return None;
    }
    let mut row: Vec<u8> = Vec::new();
    let mut i: usize = 0;
    while i < symbols
        invariant
            data@.len() <= MAX_PACKED_LEN,
            total_bits == 8 * data@.len(),
            pos + 4 * symbols <= total_bits,
            i <= symbols <= 256,
            row@.len() == i,
            forall|j: int| 0 <= j < i ==> #[trigger] row@[j] == bits_value(data@, pos + 4 * j, 4) as u8,
        decreases symbols - i,
    {
        let v = read_bits(data, pos + 4 * i, 4);
        proof {
            crate::bits::lemma_two_pow_values();
        }
        row.push(v as u8);
        i += 1;
    }
    assert(row@ =~= table_row(data@, pos as int, symbols as nat));
    CodeTable::build(row)
}

/// Reads the head of the block that starts at bit `pos`: the number of its
/// tokens, its code tables and the bit at which its first token starts.
pub fn read_block_head(depth: Depth, data: &[u8], pos: usize) -> (r: Option<
    (usize, BlockCodes, usize),
>)
    requires
        data@.len() <= MAX_PACKED_LEN,
        pos <= 8 * data@.len(),
    ensures
        match r {
            Some((tokens, codes, body)) => {
                &&& codes.wf()
                &&& block_head(depth, data@, pos as int) == Some(
                    BlockHead { tokens: tokens as nat, codes: codes@, body: body as int },
                )
                &&& tokens >= 1
                &&& pos <= body <= 8 * data@.len()
            },
            None => block_head(depth, data@, pos as int) is None,
        },
{
    let total_bits: usize = data.len() * 8;
    if total_bits - pos < 16 {
        return None;
    }
    let tokens = read_bits(data, pos, 16) as usize;
    if tokens == 0 {
        return None;
    }
    let literals_at = pos + 16;
    let literals = match read_table(data, literals_at, LITERAL_SYMBOLS) {
        Some(table) => table,
        None => {
            return None;
        },
    };
    let lengths_at = literals_at + 4 * LITERAL_SYMBOLS;
    let lengths = match read_table(data, lengths_at, depth.length_symbols()) {
        Some(table) => table,
        None => {
            return None;
        },
    };
    let distances_at = lengths_at + 4 * depth.length_symbols();
    let distances = match read_table(data, distances_at, depth.distance_symbols()) {
        Some(table) => table,
        None => {
            return None;
        },
    };
    let body = distances_at + 4 * depth.distance_symbols();
    Some((tokens, BlockCodes { literals, lengths, distances }, body))
}

/// Reads the token that starts at bit `pos`, with the number of bits it
/// takes.
pub fn read_token(codes: &BlockCodes, data: &[u8], pos: usize) -> (r: Option<(Piece, usize)>)
    requires
        codes.wf(),
        data@.len() <= MAX_PACKED_LEN,
        pos <= 8 * data@.len(),
    ensures
        match r {
            Some((piece, used)) => {
                &&& token_at(codes@, data@, pos as int) == Some((piece@, used as nat))
                &&& pos + used <= 8 * data@.len()
                &&& piece matches Piece::Copy { count, dist } ==> count >= MIN_MATCH
            },
            None => token_at(codes@, data@, pos as int) is None,
        },
{
    let total_bits: usize = data.len() * 8;
    if total_bits - pos < 1 {
        return None;
    }
    let flag = read_bit(data, pos);
    if flag == 1 {
        match codes.literals.decode(data, pos + 1) {
            None => None,
            Some((sym, used)) => Some((Piece::Literal(sym as u8), 1 + used)),
        }
    } else {
        match codes.lengths.decode(data, pos + 1) {
            None => None,
            Some((length_sym, length_bits)) => {
                match codes.distances.decode(data, pos + 1 + length_bits) {
                    None => None,
                    Some((upper, upper_bits)) => {
                        let low_at = pos + 1 + length_bits + upper_bits;
                        if total_bits - low_at < 8 {
                            None
                        } else {
                            let low = read_bits(data, low_at, 8) as usize;
                            proof {
                                crate::bits::lemma_two_pow_values();
                            }
                            Some(
                                (
                                    Piece::Copy {
                                        count: length_sym + MIN_MATCH,
                                        dist: upper * 256 + low + 1,
                                    },
                                    1 + length_bits + upper_bits + 8,
                                ),
                            )
                        }
                    },
                }
            },
        }
    }
}

/// Unpacks a MEDIUM or DEEP payload into a track of `out_len` bytes.
pub fn decode_lzh(depth: Depth, payload: &[u8], out_len: usize) -> (r: Option<Vec<u8>>)
    requires
        payload@.len() <= MAX_PACKED_LEN,
    ensures
        match r {
            Some(bytes) => lzh_unpacked(depth, payload@, out_len as nat) == Some(bytes@)
                && bytes@.len() == out_len,
            None => lzh_unpacked(depth, payload@, out_len as nat) is None,
        },
{
    let mut out: Vec<u8> = Vec::new();
    let mut pos: usize = 0;
    while out.len() < out_len
        invariant
            payload@.len() <= MAX_PACKED_LEN,
            pos <= 8 * payload@.len(),
            out@.len() <= out_len,
            lzh_unpacked(depth, payload@, out_len as nat) == lzh_blocks(
                depth,
                payload@,
                pos as int,
                out@,
                out_len as nat,
            ),
        decreases out_len - out@.len(),
    {
        let (tokens, codes, body) = match read_block_head(depth, payload, pos) {
            Some(head) => head,
            None => {
                return None;
            },
        };
        pos = body;
        let mut remaining: usize = tokens;
        let ghost before = out@.len();
        while remaining > 0
            invariant
                codes.wf(),
                payload@.len() <= MAX_PACKED_LEN,
                pos <= 8 * payload@.len(),
                out@.len() <= out_len,
                remaining <= tokens,
                tokens >= 1,
                out@.len() >= before + (tokens - remaining),
                lzh_unpacked(depth, payload@, out_len as nat) == lzh_tokens(
                    depth,
                    payload@,
                    pos as int,
                    out@,
                    out_len as nat,
                    codes@,
                    remaining as nat,
                ),
            decreases remaining,
        {
            let (piece, used) = match read_token(&codes, payload, pos) {
                Some(found) => found,
                None => {
                    return None;
                },
            };
            match piece {
                Piece::Literal(byte) => {
                    if out.len() >= out_len {
                        return None;
                    }
                    out.push(byte);
                },
                Piece::Copy { count, dist } => {
                    proof {
                        lemma_lz_copy_extends(out@, dist as nat, count as nat);
                    }
                    if count > out_len - out.len() {
                        return None;
                    }
                    copy_back(&mut out, dist, count);
                },
            }
            pos += used;
            remaining -= 1;
        }
    }
    if (pos + 7) / 8 == payload.len() {
        Some(out)
    } else {
        None
    }
}

} // verus!
