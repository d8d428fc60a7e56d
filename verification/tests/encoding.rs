use alignment_circuits::encoding::{
    block_is_padded, blocks_are_padded, blocks_needed, decode_block, decode_sequence,
    decode_symbols, encode_sequence, symbols_are_valid, SYMBOLS_PER_BLOCK,
};
use alignment_circuits::field::Felt;

fn sample(n: usize) -> Vec<usize> {
    (0..n).map(|i| (i * 7 + i / 3) % 4).collect()
}

#[test]
fn encode_packs_two_bits_a_symbol() {
    let blocks = encode_sequence(&vec![1, 2, 3, 0, 1]);
    assert_eq!(blocks.len(), 1);
    // 1 + 2*4 + 3*16 + 0*64 + 1*256
    assert_eq!(blocks[0].limbs, [313, 0, 0, 0]);
}

#[test]
fn encode_fills_the_limbs_from_the_lowest() {
    let mut symbols = vec![0usize; 125];
    symbols[31] = 3;
    symbols[32] = 1;
    symbols[64] = 2;
    symbols[124] = 3;
    let blocks = encode_sequence(&symbols);
    assert_eq!(blocks.len(), 1);
    assert_eq!(blocks[0].limbs, [3 << 62, 1, 2, 3 << 56]);
}

#[test]
fn encode_starts_a_new_block_after_125_symbols() {
    let mut symbols = vec![0usize; 126];
    symbols[125] = 2;
    let blocks = encode_sequence(&symbols);
    assert_eq!(blocks.len(), 2);
    assert_eq!(blocks[0].limbs, [0, 0, 0, 0]);
    assert_eq!(blocks[1].limbs, [2, 0, 0, 0]);
}

#[test]
fn encode_of_nothing_is_nothing() {
    assert!(encode_sequence(&Vec::new()).is_empty());
    assert_eq!(decode_sequence(&Vec::new()), Some(Vec::new()));
}

#[test]
fn blocks_needed_rounds_up() {
    assert_eq!(SYMBOLS_PER_BLOCK, 125);
    assert_eq!(blocks_needed(0), 0);
    assert_eq!(blocks_needed(1), 1);
    assert_eq!(blocks_needed(125), 1);
    assert_eq!(blocks_needed(126), 2);
    assert_eq!(blocks_needed(8000), 64);
}

#[test]
fn round_trip_of_full_blocks() {
    for n in [125usize, 250, 8000] {
        let symbols = sample(n);
        let blocks = encode_sequence(&symbols);
        assert_eq!(blocks.len(), n / 125);
        assert_eq!(decode_sequence(&blocks), Some(symbols));
    }
}

#[test]
fn decode_returns_the_symbols_and_the_padding() {
    let symbols: Vec<usize> = vec![1, 2, 3, 0, 1];
    let decoded = decode_sequence(&encode_sequence(&symbols)).unwrap();
    assert_eq!(decoded.len(), 125);
    assert_eq!(&decoded[..5], &symbols[..]);
    assert!(decoded[5..].iter().all(|s| *s == 0));
}

#[test]
fn round_trip_of_a_partly_filled_block() {
    let symbols = sample(300);
    let decoded = decode_sequence(&encode_sequence(&symbols)).unwrap();
    assert_eq!(decoded.len(), 375);
    assert_eq!(&decoded[..300], &symbols[..]);
    assert!(decoded[300..].iter().all(|s| *s == 0));
}

#[test]
fn decode_rejects_a_padding_bit() {
    let block = Felt { limbs: [0, 0, 0, 1 << 58] };
    assert!(!block_is_padded(&block));
    assert!(decode_sequence(&vec![block]).is_none());
    let good = Felt { limbs: [u64::MAX, u64::MAX, u64::MAX, (1 << 58) - 1] };
    assert!(block_is_padded(&good));
    assert!(!blocks_are_padded(&vec![good, block]));
    assert!(blocks_are_padded(&vec![good, good]));
}

#[test]
fn decode_block_reads_the_low_bits_whatever_the_padding() {
    let block = Felt { limbs: [0b11_10_01, 0, 0, 1 << 58] };
    let symbols = decode_block(&block);
    assert_eq!(symbols.len(), 125);
    assert_eq!(&symbols[..4], &[1, 2, 3, 0]);
    assert_eq!(decode_symbols(&vec![block, block]).len(), 250);
}

#[test]
fn decode_of_the_largest_block() {
    let block = Felt { limbs: [u64::MAX, u64::MAX, u64::MAX, (1 << 58) - 1] };
    assert_eq!(decode_block(&block), vec![3usize; 125]);
    assert_eq!(encode_sequence(&vec![3usize; 125])[0].limbs, block.limbs);
}

#[test]
fn symbols_above_three_are_not_valid() {
    assert!(symbols_are_valid(&vec![0, 1, 2, 3]));
    assert!(!symbols_are_valid(&vec![0, 4]));
    assert!(symbols_are_valid(&Vec::new()));
}
