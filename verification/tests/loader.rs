use digger_decoder::decompressor::DecompressError;
use digger_decoder::file_finder::File;
use digger_decoder::grounds_loader::{load, LoadError};

fn ground_file(number: u32, data: Vec<u8>) -> File {
    File {
        path: format!("lemmings/ground{}o.dat", number),
        name: format!("ground{}o.dat", number),
        number,
        data,
    }
}

fn vgagr_file(number: u32, data: Vec<u8>) -> File {
    File {
        path: format!("lemmings/vgagr{}.dat", number),
        name: format!("vgagr{}.dat", number),
        number,
        data,
    }
}

/// One section declaring one decompressed byte, 0xFF, as a short literal.
fn one_byte_section() -> Vec<u8> {
    vec![8, 0, 0, 0, 0, 1, 0, 0, 0, 12, 0x1F, 0xE0]
}

/// A sprite container of two one-byte sections.
fn tiny_container() -> Vec<u8> {
    let mut v = one_byte_section();
    v.extend(one_byte_section());
    v
}

/// Ground metadata whose only drawable record is terrain 0, one by one
/// pixel at location zero.
fn tiny_ground_bytes() -> Vec<u8> {
    let mut d = vec![0u8; 1056];
    d[448] = 1; // terrain 0 width
    d[449] = 1; // terrain 0 height
    d
}

#[test]
fn test_load_matches_metadata_and_container() {
    let grounds = vec![ground_file(0, tiny_ground_bytes())];
    let vgagrs = vec![vgagr_file(0, tiny_container())];
    let loaded = load(&grounds, &vgagrs).unwrap();
    assert_eq!(loaded.len(), 1);
    let gwi = &loaded[&0];
    assert_eq!(gwi.ground.terrain_info[0].width, 1);
    assert_eq!(gwi.terrain.len(), 1);
    // the single decompressed byte 0xFF sets all four planes and the mask
    // bit: colour index 15, which is the eighth custom palette entry; on
    // zeroed metadata that entry is opaque black
    let img = &gwi.terrain[&0];
    assert_eq!(img.width, 1);
    assert_eq!(img.height, 1);
    assert_eq!(img.bitmap, vec![0x000000FF]);
    // no object record has pixels and frames
    assert_eq!(gwi.objects.len(), 0);
}

#[test]
fn test_load_skips_container_without_metadata() {
    let grounds = vec![ground_file(0, tiny_ground_bytes())];
    let vgagrs = vec![vgagr_file(7, tiny_container())];
    let loaded = load(&grounds, &vgagrs).unwrap();
    assert_eq!(loaded.len(), 0);
}

#[test]
fn test_load_rejects_wrong_ground_size() {
    let grounds = vec![ground_file(0, vec![0; 100])];
    let vgagrs = vec![vgagr_file(0, tiny_container())];
    match load(&grounds, &vgagrs) {
        Err(e) => assert_eq!(e, LoadError::BadGroundFile),
        Ok(_) => panic!("expected a bad ground file to fail"),
    }
}

#[test]
fn test_load_reports_bad_container() {
    let grounds = vec![ground_file(0, tiny_ground_bytes())];
    let vgagrs = vec![vgagr_file(0, vec![1, 2, 3])];
    match load(&grounds, &vgagrs) {
        Err(e) => assert_eq!(e, LoadError::Decompress(DecompressError::MalformedHeader)),
        Ok(_) => panic!("expected a bad container to fail"),
    }
}

#[test]
fn test_load_needs_two_sections() {
    let grounds = vec![ground_file(0, tiny_ground_bytes())];
    let vgagrs = vec![vgagr_file(0, one_byte_section())];
    match load(&grounds, &vgagrs) {
        Err(e) => assert_eq!(e, LoadError::MissingSections),
        Ok(_) => panic!("expected a one-section container to fail"),
    }
}

#[test]
fn test_load_rejects_out_of_range_imagery() {
    // terrain 0 claims a 16 by 16 sprite, far past the one-byte section
    let mut d = tiny_ground_bytes();
    d[448] = 16;
    d[449] = 16;
    let grounds = vec![ground_file(0, d)];
    let vgagrs = vec![vgagr_file(0, tiny_container())];
    match load(&grounds, &vgagrs) {
        Err(e) => assert_eq!(e, LoadError::ImageOutOfRange),
        Ok(_) => panic!("expected out-of-range imagery to fail"),
    }
}
