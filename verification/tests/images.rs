use digger_decoder::image::{Animation, Image, Mask};

fn test_palette() -> [u32; 16] {
    [10, 11, 12, 13, 14, 15, 16, 17, 18, 19, 20, 21, 22, 23, 24, 25]
}

#[test]
fn test_parse_1bpp_pixels() {
    let data: Vec<u8> = vec![0b10110000];
    let img = Image::parse_1bpp(&data, 4, 2);
    assert_eq!(img.width, 4);
    assert_eq!(img.height, 2);
    assert_eq!(
        img.bitmap,
        vec![0xffffffff, 0, 0xffffffff, 0xffffffff, 0, 0, 0, 0]
    );
}

#[test]
fn test_parse_2bpp_combines_planes() {
    // two pixels: plane 0 holds bits 1,0 and plane 1 holds bits 0,1, so
    // the colour indexes are 1 and 2
    let data: Vec<u8> = vec![0b10010000];
    let img = Image::parse_2bpp(&data, 2, 1, &test_palette());
    assert_eq!(img.bitmap, vec![11, 12]);
}

#[test]
fn test_parse_3bpp_combines_planes() {
    // one pixel, three planes of one bit each: 1 + 2 + 4 = colour 7
    let data: Vec<u8> = vec![0b11100000];
    let img = Image::parse_3bpp(&data, 1, 1, &test_palette());
    assert_eq!(img.bitmap, vec![17]);
}

#[test]
fn test_parse_4bpp_plus_mask_blanks_masked_pixels() {
    // one pixel of colour 15; the mask byte decides whether it shows
    let shown: Vec<u8> = vec![0xF0, 0x80];
    let img = Image::parse_4bpp_plus_mask(&shown, 1, 1, 0, 1, &test_palette());
    assert_eq!(img.bitmap, vec![25]);
    let hidden: Vec<u8> = vec![0xF0, 0x00];
    let img2 = Image::parse_4bpp_plus_mask(&hidden, 1, 1, 0, 1, &test_palette());
    assert_eq!(img2.bitmap, vec![0]);
}

#[test]
fn test_animation_parse_frames_in_order() {
    // two one-pixel frames at two bits per pixel: indexes 1 then 2
    let data: Vec<u8> = vec![0b10010000];
    let anim = Animation::parse(&data, 1, 1, 2, &test_palette(), 2);
    assert_eq!(anim.frames.len(), 2);
    assert_eq!(anim.frames[0], vec![11]);
    assert_eq!(anim.frames[1], vec![12]);
}

#[test]
fn test_animation_parse_4bpp_plus_mask_stride() {
    // two frames, one byte stride: each frame is one 4bpp pixel plus its
    // mask bit read from the frame's own offset
    let data: Vec<u8> = vec![0xF8, 0x98];
    let anim = Animation::parse_4bpp_plus_mask(&data, 1, 1, 2, 0, 0, &test_palette(), 1);
    assert_eq!(anim.frames.len(), 2);
    // frame 0: planes 1,1,1,1 -> colour 15; the mask bit is set
    assert_eq!(anim.frames[0], vec![25]);
    // frame 1: planes 1,0,0,1 -> colour 9; the mask bit is set
    assert_eq!(anim.frames[1], vec![19]);
}

#[test]
fn test_mask_parse_frames() {
    let data: Vec<u8> = vec![0b10100000];
    let m = Mask::parse(&data, 2, 1, 2);
    assert_eq!(m.width, 2);
    assert_eq!(m.height, 1);
    assert_eq!(m.frames, vec![vec![1, 0], vec![1, 0]]);
}
