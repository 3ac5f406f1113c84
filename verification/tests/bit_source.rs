use digger_decoder::bit_iter_dat::BitIterDat;
use digger_decoder::bit_iter_ms_first::{iterate, BitIterMsFirst};

fn collect_bits(data: &[u8], starting_byte_bits: u8) -> Vec<bool> {
    let mut it = BitIterDat::new(data, starting_byte_bits);
    let mut out: Vec<bool> = Vec::new();
    while let Some(b) = it.next() {
        out.push(b);
    }
    out
}

#[test]
fn bitBitIterDat() {
    let input: Vec<u8> = vec![0b00001111, 0];

    let output1: Vec<bool> = collect_bits(&input, 1);
    assert_eq!(
        output1,
        vec![false, true, true, true, true, false, false, false, false,]
    );

    let output2: Vec<bool> = collect_bits(&input, 2);
    assert_eq!(
        output2,
        vec![false, false, true, true, true, true, false, false, false, false,]
    );

    let output8: Vec<bool> = collect_bits(&input, 8);
    assert_eq!(
        output8,
        vec![
            false, false, false, false, false, false, false, false, true, true, true, true,
            false, false, false, false,
        ]
    );
}

#[test]
fn text_next_byte() {
    let input: Vec<u8> = vec![0b00001111, 0];
    assert_eq!(BitIterDat::new(&input, 1).next_byte().unwrap(), 0b01111000);
    assert_eq!(BitIterDat::new(&input, 2).next_byte().unwrap(), 0b00111100);
    assert_eq!(BitIterDat::new(&input, 3).next_byte().unwrap(), 0b00011110);
    assert_eq!(BitIterDat::new(&input, 4).next_byte().unwrap(), 0b00001111);
    assert_eq!(BitIterDat::new(&input, 5).next_byte().unwrap(), 0b00000111);
    assert_eq!(BitIterDat::new(&input, 6).next_byte().unwrap(), 0b00000011);
    assert_eq!(BitIterDat::new(&input, 7).next_byte().unwrap(), 0b00000001);
    assert_eq!(BitIterDat::new(&input, 8).next_byte().unwrap(), 0b00000000);
}

#[test]
fn test_zero_valid_bits_skips_last_byte() {
    // zero valid bits in the first byte means the very last byte is
    // skipped and traversal starts at the byte below it, a full byte
    let input: Vec<u8> = vec![0xFF, 0xAB];
    let mut it = BitIterDat::new(&input, 0);
    assert_eq!(it.next_byte().unwrap(), 0xFF);
    assert_eq!(it.next_bit(), None);
}

#[test]
fn test_bit_source_exhaustion() {
    let input: Vec<u8> = vec![0x0F];
    let mut it = BitIterDat::new(&input, 4);
    assert_eq!(it.next_bit(), Some(1));
    assert_eq!(it.next_bit(), Some(1));
    assert_eq!(it.next_bit(), Some(1));
    assert_eq!(it.next_bit(), Some(1));
    assert_eq!(it.next_bit(), None);
    // a byte read that runs out of bits consumes the rest and fails
    let mut it2 = BitIterDat::new(&input, 4);
    assert_eq!(it2.next_byte(), None);
}

#[test]
fn test_iterate_msb_first() {
    let bits = iterate(&[0b10110000, 0b00000001]);
    assert_eq!(
        bits,
        vec![1, 0, 1, 1, 0, 0, 0, 0, 0, 0, 0, 0, 0, 0, 0, 1]
    );
}

#[test]
fn test_bit_iter_ms_first_next() {
    let byte: u8 = 0b11000001;
    let mut it = BitIterMsFirst::new(&byte);
    let mut out: Vec<u8> = Vec::new();
    while let Some(b) = it.next() {
        out.push(b);
    }
    assert_eq!(out, vec![1, 1, 0, 0, 0, 0, 0, 1]);
}
