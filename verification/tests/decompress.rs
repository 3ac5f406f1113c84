use digger_decoder::decompressor::{decompress, CompressedSection, DecompressError};

#[test]
fn test_empty_container_yields_no_buffers() {
    let dat: Vec<u8> = vec![];
    assert_eq!(decompress(&dat), Ok(vec![]));
}

#[test]
fn test_zero_size_section_yields_empty_buffer() {
    // a single section declaring zero decompressed bytes: no command is
    // ever issued
    let dat: Vec<u8> = vec![8, 0, 0, 0, 0, 0, 0, 0, 0, 10];
    assert_eq!(decompress(&dat), Ok(vec![vec![]]));
}

#[test]
fn test_two_sections_in_order() {
    let dat: Vec<u8> = vec![
        8, 0, 0, 0, 0, 0, 0, 0, 0, 10, //
        8, 0, 0, 0, 0, 0, 0, 0, 0, 10,
    ];
    assert_eq!(decompress(&dat), Ok(vec![vec![], vec![]]));
}

#[test]
fn test_end_to_end_literal_run() {
    // one short-literal-run command for three raw bytes, built so the
    // final full-buffer reversal yields them in documented order
    let dat: Vec<u8> = vec![
        8, 0, 0, 0, 0, 3, 0, 0, 0, 14, 0x0A, 0xBB, 0xA6, 0x68,
    ];
    assert_eq!(decompress(&dat), Ok(vec![vec![0xAA, 0xBB, 0xCC]]));
}

#[test]
fn test_copy_command_offset_zero_repeats_last_byte() {
    // a one-byte literal, then a copy-two command with offset zero: each
    // of its appends re-reads the byte most recently appended
    let dat: Vec<u8> = vec![8, 0, 0, 0, 0, 3, 0, 0, 0, 13, 0x00, 0x48, 0x40];
    assert_eq!(decompress(&dat), Ok(vec![vec![0x42, 0x42, 0x42]]));
}

#[test]
fn test_header_too_short_is_malformed() {
    assert_eq!(decompress(&[1, 2, 3]), Err(DecompressError::MalformedHeader));
}

#[test]
fn test_first_byte_bits_over_eight_is_malformed() {
    let dat: Vec<u8> = vec![9, 0, 0, 0, 0, 0, 0, 0, 0, 10];
    assert_eq!(decompress(&dat), Err(DecompressError::MalformedHeader));
}

#[test]
fn test_compressed_size_below_header_is_malformed() {
    let dat: Vec<u8> = vec![8, 0, 0, 0, 0, 0, 0, 0, 0, 5];
    assert_eq!(decompress(&dat), Err(DecompressError::MalformedHeader));
}

#[test]
fn test_compressed_size_past_container_is_truncated() {
    let dat: Vec<u8> = vec![8, 0, 0, 0, 0, 0, 0, 0, 0, 20];
    assert_eq!(decompress(&dat), Err(DecompressError::TruncatedSection));
}

#[test]
fn test_missing_payload_exhausts_bit_stream() {
    // one decompressed byte declared, but no payload bits at all
    let dat: Vec<u8> = vec![8, 0, 0, 0, 0, 1, 0, 0, 0, 10];
    assert_eq!(decompress(&dat), Err(DecompressError::BitStreamExhausted));
}

#[test]
fn test_truncation_mid_command_exhausts_bit_stream() {
    // a literal run announcing two bytes with bits left for only one:
    // the decoder stops with an error instead of reading past the payload
    let dat: Vec<u8> = vec![8, 0, 0, 0, 0, 2, 0, 0, 0, 12, 0x00, 0x10];
    assert_eq!(decompress(&dat), Err(DecompressError::BitStreamExhausted));
}

#[test]
fn test_copy_into_empty_buffer_is_invalid_back_reference() {
    // the first command is a copy: there is nothing to copy from yet
    let dat: Vec<u8> = vec![8, 0, 0, 0, 0, 2, 0, 0, 0, 12, 0x00, 0x02];
    assert_eq!(
        decompress(&dat),
        Err(DecompressError::InvalidBackReference)
    );
}

#[test]
fn test_section_framing_fields() {
    let dat: Vec<u8> = vec![
        8, 0, 0, 0, 0, 3, 0, 0, 0, 14, 0x0A, 0xBB, 0xA6, 0x68,
    ];
    let sec = CompressedSection::new(&dat).unwrap();
    assert_eq!(sec.num_bits_in_first_byte, 8);
    assert_eq!(sec.checksum, 0);
    assert_eq!(sec.decompressed_data_size, 3);
    assert_eq!(sec.compressed_data_size, 14);
    assert_eq!(sec.data, vec![0x0A, 0xBB, 0xA6, 0x68]);
    assert_eq!(sec.decompress(), Ok(vec![0xAA, 0xBB, 0xCC]));
}

#[test]
fn test_decoding_is_deterministic() {
    let dat: Vec<u8> = vec![
        8, 0, 0, 0, 0, 3, 0, 0, 0, 14, 0x0A, 0xBB, 0xA6, 0x68,
    ];
    assert_eq!(decompress(&dat), decompress(&dat));
}
