use amidisk::bits::{read_bit, read_bits};
use amidisk::checksum::checksum;
use amidisk::dms::Mode;
use amidisk::huffman::CodeTable;
use amidisk::lz::copy_back;
use amidisk::lzh::{decode_lzh, read_block_head, read_table, read_token, Depth, Piece};
use amidisk::quick::decode_quick;
use amidisk::rle::{decode_simple, push_run};
use amidisk::track::unpack;

/// Writes bits, most significant first, and pads the last byte with zeros.
struct BitWriter {
    bytes: Vec<u8>,
    used: usize,
}

impl BitWriter {
    fn new() -> BitWriter {
        BitWriter { bytes: Vec::new(), used: 0 }
    }

    fn put(&mut self, value: u32, bits: usize) {
        for k in (0..bits).rev() {
            if self.used % 8 == 0 {
                self.bytes.push(0);
            }
            let bit = ((value >> k) & 1) as u8;
            let last = self.bytes.len() - 1;
            self.bytes[last] |= bit << (7 - self.used % 8);
            self.used += 1;
        }
    }

    fn finish(self) -> Vec<u8> {
        self.bytes
    }
}

/// The canonical code of each symbol, with its length.
fn canonical_codes(lengths: &[u8]) -> Vec<(u32, usize)> {
    let mut codes = vec![(0u32, 0usize); lengths.len()];
    let mut code: u32 = 0;
    for bits in 1..=15usize {
        for (sym, &len) in lengths.iter().enumerate() {
            if len as usize == bits {
                codes[sym] = (code, bits);
                code += 1;
            }
        }
        code <<= 1;
    }
    codes
}

fn put_table(w: &mut BitWriter, lengths: &[u8]) {
    for &len in lengths {
        w.put(len as u32, 4);
    }
}

struct Codes {
    literals: Vec<u8>,
    lengths: Vec<u8>,
    distances: Vec<u8>,
}

fn flat_codes(depth: Depth) -> Codes {
    match depth {
        Depth::Medium => Codes {
            literals: vec![8; 256],
            lengths: vec![4; 16],
            distances: vec![6; 64],
        },
        Depth::Deep => Codes {
            literals: vec![8; 256],
            lengths: vec![6; 64],
            distances: vec![7; 128],
        },
    }
}

fn put_head(w: &mut BitWriter, tokens: u32, codes: &Codes) {
    w.put(tokens, 16);
    put_table(w, &codes.literals);
    put_table(w, &codes.lengths);
    put_table(w, &codes.distances);
}

fn put_literal(w: &mut BitWriter, codes: &Codes, byte: u8) {
    let (code, bits) = canonical_codes(&codes.literals)[byte as usize];
    assert!(bits > 0);
    w.put(1, 1);
    w.put(code, bits);
}

fn put_copy(w: &mut BitWriter, codes: &Codes, count: usize, dist: usize) {
    let (lcode, lbits) = canonical_codes(&codes.lengths)[count - 3];
    let (dcode, dbits) = canonical_codes(&codes.distances)[(dist - 1) / 256];
    assert!(lbits > 0 && dbits > 0);
    w.put(0, 1);
    w.put(lcode, lbits);
    w.put(dcode, dbits);
    w.put(((dist - 1) % 256) as u32, 8);
}

#[test]
fn bits_are_read_most_significant_first() {
    let data = [0b1010_0000u8, 0b0000_0001, 0xFF];
    assert_eq!(read_bit(&data, 0), 1);
    assert_eq!(read_bit(&data, 1), 0);
    assert_eq!(read_bit(&data, 2), 1);
    assert_eq!(read_bit(&data, 15), 1);
    assert_eq!(read_bits(&data, 0, 3), 0b101);
    assert_eq!(read_bits(&data, 0, 8), 0xA0);
    assert_eq!(read_bits(&data, 0, 16), 0xA001);
    assert_eq!(read_bits(&data, 4, 12), 0x001);
    assert_eq!(read_bits(&data, 12, 8), 0x1F);
    assert_eq!(read_bits(&data, 5, 0), 0);
}

#[test]
fn checksum_is_the_byte_sum_in_sixteen_bits() {
    assert_eq!(checksum(&[]), 0);
    assert_eq!(checksum(&[1, 2, 3]), 6);
    assert_eq!(checksum(&[255, 255]), 510);
    // 300 bytes of 255 add up to 76500, which is 10964 more than 65536.
    assert_eq!(checksum(&vec![255u8; 300]), 10964);
    // 257 bytes of 255 add up to 65535, the largest checksum.
    assert_eq!(checksum(&vec![255u8; 257]), 65535);
}

#[test]
fn back_reference_copies_from_the_output() {
    let mut out = b"abc".to_vec();
    copy_back(&mut out, 3, 3);
    assert_eq!(out, b"abcabc".to_vec());
    copy_back(&mut out, 1, 2);
    assert_eq!(out, b"abcabccc".to_vec());
}

#[test]
fn back_reference_may_overlap_what_it_writes() {
    let mut out = b"xy".to_vec();
    copy_back(&mut out, 2, 5);
    assert_eq!(out, b"xyxyxyx".to_vec());
}

#[test]
fn back_reference_before_the_start_reads_zero() {
    let mut out = b"q".to_vec();
    copy_back(&mut out, 3, 4);
    assert_eq!(out, vec![b'q', 0, 0, b'q', 0]);
    let mut empty: Vec<u8> = Vec::new();
    copy_back(&mut empty, 0, 2);
    assert_eq!(empty, vec![0, 0]);
}

#[test]
fn run_is_appended() {
    let mut out = vec![1u8];
    push_run(&mut out, 9, 3);
    assert_eq!(out, vec![1, 9, 9, 9]);
    push_run(&mut out, 4, 0);
    assert_eq!(out, vec![1, 9, 9, 9]);
}

#[test]
fn simple_expands_literals_escapes_and_runs() {
    let payload = [0x41, 0x90, 0x00, 0x90, 0x03, 0x42, 0x90, 0xFF, 0x43, 0x01, 0x00];
    let mut expected = vec![0x41u8, 0x90, 0x42, 0x42, 0x42];
    expected.extend(std::iter::repeat(0x43u8).take(256));
    assert_eq!(decode_simple(&payload, 261), Some(expected));
}

#[test]
fn simple_must_fill_the_track_exactly() {
    let payload = [0x41, 0x90, 0x03, 0x42];
    assert_eq!(decode_simple(&payload, 4), Some(vec![0x41, 0x42, 0x42, 0x42]));
    assert_eq!(decode_simple(&payload, 3), None);
    assert_eq!(decode_simple(&payload, 5), None);
    assert_eq!(decode_simple(&[], 0), Some(vec![]));
    assert_eq!(decode_simple(&[], 1), None);
}

#[test]
fn simple_rejects_a_payload_that_ends_inside_an_item() {
    assert_eq!(decode_simple(&[0x90], 1), None);
    assert_eq!(decode_simple(&[0x90, 0x02], 2), None);
    assert_eq!(decode_simple(&[0x90, 0xFF, 0x41, 0x00], 2), None);
    assert_eq!(decode_simple(&[0x41, 0x90], 1), None);
}

#[test]
fn simple_long_run_fills_a_whole_track() {
    // 5632 is 0x1600.
    let payload = [0x90, 0xFF, 0xE5, 0x16, 0x00];
    assert_eq!(decode_simple(&payload, 5632), Some(vec![0xE5u8; 5632]));
}

#[test]
fn quick_decodes_literals_and_matches() {
    let mut w = BitWriter::new();
    w.put(1, 1);
    w.put(b'a' as u32, 8);
    w.put(1, 1);
    w.put(b'b' as u32, 8);
    w.put(0, 1);
    w.put(4 - 2, 2);
    w.put(2 - 1, 8);
    let payload = w.finish();
    assert_eq!(payload.len(), 4);
    assert_eq!(decode_quick(&payload, 6), Some(b"ababab".to_vec()));
}

#[test]
fn quick_must_fill_the_track_exactly() {
    let mut w = BitWriter::new();
    w.put(1, 1);
    w.put(b'a' as u32, 8);
    w.put(0, 1);
    w.put(3 - 2, 2);
    w.put(1 - 1, 8);
    let payload = w.finish();
    assert_eq!(decode_quick(&payload, 4), Some(b"aaaa".to_vec()));
    // The match would run past a track of three bytes.
    assert_eq!(decode_quick(&payload, 3), None);
    // A track of five bytes needs another token, and there is none.
    assert_eq!(decode_quick(&payload, 5), None);
    // A track of one byte leaves payload unread.
    assert_eq!(decode_quick(&payload, 1), None);
}

#[test]
fn quick_rejects_unread_payload_bytes() {
    let mut w = BitWriter::new();
    w.put(1, 1);
    w.put(0x7E, 8);
    let mut payload = w.finish();
    assert_eq!(decode_quick(&payload, 1), Some(vec![0x7E]));
    payload.push(0);
    assert_eq!(decode_quick(&payload, 1), None);
    assert_eq!(decode_quick(&[], 0), Some(vec![]));
    assert_eq!(decode_quick(&[0], 0), None);
}

#[test]
fn quick_match_before_the_start_reads_zero() {
    let mut w = BitWriter::new();
    w.put(0, 1);
    w.put(2 - 2, 2);
    w.put(256 - 1, 8);
    let payload = w.finish();
    assert_eq!(decode_quick(&payload, 2), Some(vec![0, 0]));
}

#[test]
fn code_table_hands_out_canonical_codes() {
    // Lengths 2, 1, 3, 3 give the codes 10, 0, 110, 111.
    let table = CodeTable::build(vec![2, 1, 3, 3]).unwrap();
    assert_eq!(table.lookup(1, 0b0), Some(1));
    assert_eq!(table.lookup(2, 0b10), Some(0));
    assert_eq!(table.lookup(3, 0b110), Some(2));
    assert_eq!(table.lookup(3, 0b111), Some(3));
    assert_eq!(table.lookup(1, 0b1), None);
    assert_eq!(table.lookup(2, 0b11), None);
    assert_eq!(table.lookup(2, 0b00), None);
    assert_eq!(table.lookup(4, 0b1110), None);
}

#[test]
fn code_table_decodes_the_shortest_matching_code() {
    let table = CodeTable::build(vec![2, 1, 3, 3]).unwrap();
    // 0 | 10 | 110 | 111 | 0 and seven bits of padding.
    let data = [0b0101_1011, 0b1000_0000];
    assert_eq!(table.decode(&data, 0), Some((1, 1)));
    assert_eq!(table.decode(&data, 1), Some((0, 2)));
    assert_eq!(table.decode(&data, 3), Some((2, 3)));
    assert_eq!(table.decode(&data, 6), Some((3, 3)));
    assert_eq!(table.decode(&data, 9), Some((1, 1)));
    assert_eq!(table.decode(&data, 16), None);
    // Two bits `11` at the very end begin no complete code.
    assert_eq!(table.decode(&[0b0000_0011], 6), None);
}

#[test]
fn code_table_skips_symbols_without_a_code() {
    let table = CodeTable::build(vec![0, 1, 0, 1]).unwrap();
    assert_eq!(table.lookup(1, 0), Some(1));
    assert_eq!(table.lookup(1, 1), Some(3));
    let empty = CodeTable::build(vec![0, 0, 0]).unwrap();
    assert_eq!(empty.decode(&[0xFF, 0xFF], 0), None);
}

#[test]
fn code_table_may_leave_codes_unused() {
    let table = CodeTable::build(vec![2]).unwrap();
    assert_eq!(table.lookup(2, 0), Some(0));
    assert_eq!(table.decode(&[0b0100_0000], 0), None);
    assert_eq!(table.decode(&[0b0000_0000], 0), Some((0, 2)));
}

#[test]
fn malformed_code_table_is_rejected() {
    // Three codes of one bit are one too many.
    assert!(CodeTable::build(vec![1, 1, 1]).is_none());
    // Two codes of one bit leave none of two bits.
    assert!(CodeTable::build(vec![1, 1, 2]).is_none());
    // No code has sixteen bits.
    assert!(CodeTable::build(vec![16]).is_none());
    assert!(CodeTable::build(vec![1, 1]).is_some());
    assert!(CodeTable::build(vec![15; 32768]).is_some());
    assert!(CodeTable::build(vec![]).is_some());
}

#[test]
fn table_row_is_read_from_four_bit_lengths() {
    let mut w = BitWriter::new();
    w.put(0b101, 3);
    put_table(&mut w, &[2, 1, 3, 3]);
    let data = w.finish();
    let table = read_table(&data, 3, 4).unwrap();
    assert_eq!(table.lookup(2, 0b10), Some(0));
    assert_eq!(table.lookup(3, 0b111), Some(3));
    // The padding of the last byte reads as a fifth symbol without a code,
    // but a sixth is not all there.
    assert!(read_table(&data, 3, 5).is_some());
    assert!(read_table(&data, 3, 6).is_none());
    // Lengths 1, 1, 1 are read at an offset of eleven bits from `1 1 1`.
    let mut w = BitWriter::new();
    put_table(&mut w, &[1, 1, 1]);
    let data = w.finish();
    assert!(read_table(&data, 0, 3).is_none());
    assert!(read_table(&data, 0, 2).is_some());
}

#[test]
fn block_head_gives_tokens_tables_and_body() {
    let codes = flat_codes(Depth::Medium);
    let mut w = BitWriter::new();
    put_head(&mut w, 5, &codes);
    let data = w.finish();
    let (tokens, _, body) = read_block_head(Depth::Medium, &data, 0).unwrap();
    assert_eq!(tokens, 5);
    assert_eq!(body, 16 + 4 * (256 + 16 + 64));
    // The same bits are too few for the larger alphabets.
    assert!(read_block_head(Depth::Deep, &data, 0).is_none());
    // A block without tokens is malformed.
    let mut w = BitWriter::new();
    put_head(&mut w, 0, &codes);
    assert!(read_block_head(Depth::Medium, &w.finish(), 0).is_none());
}

#[test]
fn token_is_a_literal_or_a_copy() {
    let codes = flat_codes(Depth::Medium);
    let mut w = BitWriter::new();
    put_head(&mut w, 2, &codes);
    put_literal(&mut w, &codes, 0x5A);
    put_copy(&mut w, &codes, 18, 16384);
    let data = w.finish();
    let (_, tables, body) = read_block_head(Depth::Medium, &data, 0).unwrap();
    match read_token(&tables, &data, body) {
        Some((Piece::Literal(byte), used)) => {
            assert_eq!(byte, 0x5A);
            assert_eq!(used, 9);
        },
        other => panic!("unexpected token {:?}", other),
    }
    match read_token(&tables, &data, body + 9) {
        Some((Piece::Copy { count, dist }, used)) => {
            assert_eq!(count, 18);
            assert_eq!(dist, 16384);
            assert_eq!(used, 1 + 4 + 6 + 8);
        },
        other => panic!("unexpected token {:?}", other),
    }
    assert!(read_token(&tables, &data, body + 9 + 19).is_none());
}

#[test]
fn medium_decodes_a_block() {
    let codes = flat_codes(Depth::Medium);
    let mut w = BitWriter::new();
    put_head(&mut w, 4, &codes);
    put_literal(&mut w, &codes, b'a');
    put_literal(&mut w, &codes, b'b');
    put_literal(&mut w, &codes, b'c');
    put_copy(&mut w, &codes, 6, 3);
    let payload = w.finish();
    assert_eq!(decode_lzh(Depth::Medium, &payload, 9), Some(b"abcabcabc".to_vec()));
    assert_eq!(decode_lzh(Depth::Medium, &payload, 8), None);
    assert_eq!(decode_lzh(Depth::Medium, &payload, 10), None);
    assert_eq!(decode_lzh(Depth::Deep, &payload, 9), None);
}

#[test]
fn medium_decodes_under_codes_of_mixed_lengths() {
    let mut literals = vec![0u8; 256];
    literals[b'a' as usize] = 1;
    literals[b'b' as usize] = 2;
    literals[b'c' as usize] = 2;
    let mut lengths = vec![0u8; 16];
    lengths[0] = 1;
    lengths[5] = 1;
    let mut distances = vec![0u8; 64];
    distances[0] = 1;
    let codes = Codes { literals, lengths, distances };
    let mut w = BitWriter::new();
    put_head(&mut w, 5, &codes);
    put_literal(&mut w, &codes, b'c');
    put_literal(&mut w, &codes, b'a');
    put_literal(&mut w, &codes, b'b');
    put_copy(&mut w, &codes, 3, 3);
    put_copy(&mut w, &codes, 8, 1);
    let payload = w.finish();
    assert_eq!(decode_lzh(Depth::Medium, &payload, 14), Some(b"cabcabbbbbbbbb".to_vec()));
}

#[test]
fn tables_are_rebuilt_for_each_block() {
    let mut first = flat_codes(Depth::Medium);
    first.literals = vec![0u8; 256];
    first.literals[b'x' as usize] = 1;
    first.literals[b'y' as usize] = 1;
    let second = flat_codes(Depth::Medium);
    let mut w = BitWriter::new();
    put_head(&mut w, 2, &first);
    put_literal(&mut w, &first, b'y');
    put_literal(&mut w, &first, b'x');
    put_head(&mut w, 2, &second);
    put_literal(&mut w, &second, b'z');
    put_copy(&mut w, &second, 3, 3);
    let payload = w.finish();
    assert_eq!(decode_lzh(Depth::Medium, &payload, 6), Some(b"yxzyxz".to_vec()));
    // The track is full in the middle of the second block.
    assert_eq!(decode_lzh(Depth::Medium, &payload, 3), None);
}

#[test]
fn malformed_table_makes_the_payload_corrupt() {
    let mut codes = flat_codes(Depth::Medium);
    codes.lengths = vec![1; 16];
    let mut w = BitWriter::new();
    put_head(&mut w, 1, &codes);
    w.put(1, 1);
    w.put(b'a' as u32, 8);
    assert_eq!(decode_lzh(Depth::Medium, &w.finish(), 1), None);
}

#[test]
fn bits_that_are_no_code_make_the_payload_corrupt() {
    let mut codes = flat_codes(Depth::Medium);
    codes.literals = vec![0u8; 256];
    codes.literals[b'a' as usize] = 1;
    let mut w = BitWriter::new();
    put_head(&mut w, 2, &codes);
    put_literal(&mut w, &codes, b'a');
    w.put(1, 1);
    w.put(0xFFFF, 16);
    assert_eq!(decode_lzh(Depth::Medium, &w.finish(), 2), None);
}

#[test]
fn deep_decodes_long_matches_and_far_distances() {
    let codes = flat_codes(Depth::Deep);
    let mut w = BitWriter::new();
    put_head(&mut w, 3, &codes);
    put_literal(&mut w, &codes, 7);
    put_copy(&mut w, &codes, 66, 1);
    put_copy(&mut w, &codes, 3, 32768);
    let payload = w.finish();
    let mut expected = vec![7u8; 67];
    expected.extend([0u8, 0, 0]);
    assert_eq!(decode_lzh(Depth::Deep, &payload, 70), Some(expected));
}

#[test]
fn empty_track_needs_an_empty_payload() {
    assert_eq!(decode_lzh(Depth::Medium, &[], 0), Some(vec![]));
    assert_eq!(decode_lzh(Depth::Medium, &[0], 0), None);
    assert_eq!(decode_lzh(Depth::Medium, &[], 1), None);
}

#[test]
fn mode_tags_stand_for_the_five_modes() {
    assert_eq!(Mode::from_tag(0), Some(Mode::NONE));
    assert_eq!(Mode::from_tag(1), Some(Mode::SIMPLE));
    assert_eq!(Mode::from_tag(2), Some(Mode::QUICK));
    assert_eq!(Mode::from_tag(3), Some(Mode::MEDIUM));
    assert_eq!(Mode::from_tag(4), Some(Mode::DEEP));
    assert_eq!(Mode::from_tag(5), None);
    assert_eq!(Mode::from_tag(255), None);
}

#[test]
fn unpack_dispatches_by_mode() {
    assert_eq!(unpack(Mode::NONE, &[1, 2, 3], 3), Some(vec![1, 2, 3]));
    assert_eq!(unpack(Mode::NONE, &[1, 2, 3], 4), None);
    assert_eq!(unpack(Mode::NONE, &[0x90, 0x03, 0x42], 3), Some(vec![0x90, 0x03, 0x42]));
    assert_eq!(unpack(Mode::SIMPLE, &[0x90, 0x03, 0x42], 3), Some(vec![0x42; 3]));
    let mut w = BitWriter::new();
    w.put(1, 1);
    w.put(0x33, 8);
    let quick = w.finish();
    assert_eq!(unpack(Mode::QUICK, &quick, 1), Some(vec![0x33]));
    let codes = flat_codes(Depth::Deep);
    let mut w = BitWriter::new();
    put_head(&mut w, 1, &codes);
    put_literal(&mut w, &codes, 0x44);
    let deep = w.finish();
    assert_eq!(unpack(Mode::DEEP, &deep, 1), Some(vec![0x44]));
    assert_eq!(unpack(Mode::MEDIUM, &deep, 1), None);
}
