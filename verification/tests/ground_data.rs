use digger_decoder::ground::{Ground, Palettes};

#[test]
fn test_ground_parse_object_record() {
    let mut data: Vec<u8> = vec![0; 1056];
    // object record 1 starts at byte 28
    data[28] = 0x01; // animation_flags low byte
    data[29] = 0x02; // animation_flags high byte (little-endian words)
    data[30] = 3; // start_animation_frame_index
    data[31] = 4; // frame_count
    data[32] = 5; // width
    data[33] = 6; // height
    data[34] = 0x10; // animation_frame_data_size
    data[36] = 0x20; // mask_offset_from_image
    data[42] = 7; // trigger_left
    data[44] = 8; // trigger_top
    data[46] = 9; // trigger_width
    data[47] = 10; // trigger_height
    data[48] = 11; // trigger_effect_id
    data[49] = 0x30; // animation_frames_base_loc
    data[51] = 0x40; // preview_image_index
    data[55] = 12; // trap_sound_effect_id
    let g = Ground::parse(&data);
    let o = &g.object_info[1];
    assert_eq!(o.animation_flags, 0x0201);
    assert_eq!(o.start_animation_frame_index, 3);
    assert_eq!(o.frame_count, 4);
    assert_eq!(o.width, 5);
    assert_eq!(o.height, 6);
    assert_eq!(o.animation_frame_data_size, 0x10);
    assert_eq!(o.mask_offset_from_image, 0x20);
    assert_eq!(o.trigger_left, 7);
    assert_eq!(o.trigger_top, 8);
    assert_eq!(o.trigger_width, 9);
    assert_eq!(o.trigger_height, 10);
    assert_eq!(o.trigger_effect_id, 11);
    assert_eq!(o.animation_frames_base_loc, 0x30);
    assert_eq!(o.preview_image_index, 0x40);
    assert_eq!(o.trap_sound_effect_id, 12);
    // the first object is always the exit, the second the entrance
    assert!(g.object_info[0].is_exit);
    assert!(!g.object_info[0].is_entrance);
    assert!(g.object_info[1].is_entrance);
    assert!(!g.object_info[1].is_exit);
}

#[test]
fn test_ground_parse_terrain_and_palette() {
    let mut data: Vec<u8> = vec![0; 1056];
    // terrain record 2 starts at byte 448 + 16
    data[464] = 17; // width
    data[465] = 18; // height
    data[466] = 0x34; // image_loc, little-endian
    data[467] = 0x12;
    data[468] = 0x78; // mask_loc
    data[469] = 0x56;
    // EGA palettes
    data[960] = 1;
    data[968] = 2;
    data[976] = 3;
    // first custom VGA entry: brightest red (0x3f is full brightness)
    data[984] = 0x3F;
    data[985] = 0x00;
    data[986] = 0x00;
    let g = Ground::parse(&data);
    let t = &g.terrain_info[2];
    assert_eq!(t.width, 17);
    assert_eq!(t.height, 18);
    assert_eq!(t.image_loc, 0x1234);
    assert_eq!(t.mask_loc, 0x5678);
    assert_eq!(g.palettes.ega[0], 1);
    assert_eq!(g.palettes.ega_standard[0], 2);
    assert_eq!(g.palettes.ega_preview[0], 3);
    // 0x3f upgrades to 0xff: brightest red, fully opaque
    assert_eq!(g.palettes.vga[0], 0xFF0000FF);
    // a zero channel stays exactly zero
    assert_eq!(g.palettes.vga[1], 0x000000FF);
}

#[test]
fn test_palette_as_rgba() {
    let p = Palettes {
        ega: vec![0; 8],
        ega_standard: vec![0; 8],
        ega_preview: vec![0; 8],
        vga: vec![1, 2, 3, 4, 5, 6, 7, 8],
        vga_standard: vec![0; 8],
        vga_preview: vec![0; 8],
    };
    let pal = p.as_rgba();
    // seven fixed colours
    assert_eq!(pal[0], 0x000000FF); // black
    assert_eq!(pal[3], 0xF3D3D3FF); // white, used for skin
    assert_eq!(pal[6], 0x838383FF); // grey
    // the first custom entry is doubled
    assert_eq!(pal[7], 1);
    assert_eq!(pal[8], 1);
    assert_eq!(pal[9], 2);
    assert_eq!(pal[15], 8);
}
