use std::collections::HashMap;
use digger_decoder::ground::{Ground, ObjectInfo, Palettes, TerrainInfo};
use digger_decoder::grounds_loader::GroundWithImages;
use digger_decoder::image::{Animation, Image};
use digger_decoder::level::{Level, LevelGlobals, ObjectEntry, ObjectModifier, TerrainEntry};
use digger_decoder::level_renderer::{render, LEVEL_BACKGROUND, LEVEL_HEIGHT};

fn zero_object() -> ObjectInfo {
    ObjectInfo {
        is_exit: false,
        is_entrance: false,
        animation_flags: 0,
        start_animation_frame_index: 0,
        frame_count: 0,
        width: 0,
        height: 0,
        animation_frame_data_size: 0,
        mask_offset_from_image: 0,
        trigger_left: 0,
        trigger_top: 0,
        trigger_width: 0,
        trigger_height: 0,
        trigger_effect_id: 0,
        animation_frames_base_loc: 0,
        preview_image_index: 0,
        trap_sound_effect_id: 0,
    }
}

fn zero_terrain() -> TerrainInfo {
    TerrainInfo { width: 0, height: 0, image_loc: 0, mask_loc: 0 }
}

fn test_ground(terrain_width: usize) -> Ground {
    let mut terrain_info: Vec<TerrainInfo> = Vec::new();
    for i in 0..64 {
        let mut t = zero_terrain();
        if i == 0 {
            t.width = terrain_width;
            t.height = 1;
        }
        terrain_info.push(t);
    }
    let mut object_info: Vec<ObjectInfo> = Vec::new();
    for _ in 0..16 {
        object_info.push(zero_object());
    }
    Ground {
        object_info,
        terrain_info,
        palettes: Palettes {
            ega: vec![0; 8],
            ega_standard: vec![0; 8],
            ega_preview: vec![0; 8],
            vga: vec![0; 8],
            vga_standard: vec![0; 8],
            vga_preview: vec![0; 8],
        },
    }
}

fn terrain_entry(x: i32) -> TerrainEntry {
    TerrainEntry {
        terrain_id: 0,
        x,
        y: 0,
        do_not_overwrite_existing_terrain: false,
        is_upside_down: false,
        remove_terrain: false,
    }
}

#[test]
fn test_render_places_terrain_sprite() {
    let mut terrain_images: HashMap<usize, Image> = HashMap::new();
    terrain_images.insert(
        0,
        Image { bitmap: vec![0xAABBCCFF, 0], width: 2, height: 1 },
    );
    let mut grounds: HashMap<u32, GroundWithImages> = HashMap::new();
    grounds.insert(
        0,
        GroundWithImages {
            ground: test_ground(2),
            terrain: terrain_images,
            objects: HashMap::new(),
        },
    );
    let level = Level {
        name: String::new(),
        globals: LevelGlobals { extended_graphic_set: 0, normal_graphic_set: 0 },
        terrain: vec![terrain_entry(5)],
        objects: vec![],
    };
    let img = render(&level, &grounds);
    // the canvas is as wide as the terrain extent: from x to x + width
    assert_eq!(img.width, 2);
    assert_eq!(img.height, LEVEL_HEIGHT);
    assert_eq!(img.bitmap.len(), 2 * LEVEL_HEIGHT);
    // the solid sprite pixel lands at the canvas origin; the transparent
    // one leaves background
    assert_eq!(img.bitmap[0], 0xAABBCCFF);
    assert_eq!(img.bitmap[1], LEVEL_BACKGROUND);
    assert_eq!(img.bitmap[2], LEVEL_BACKGROUND);
}

#[test]
fn test_render_do_not_overwrite_keeps_existing_terrain() {
    let mut terrain_images: HashMap<usize, Image> = HashMap::new();
    terrain_images.insert(
        0,
        Image { bitmap: vec![0x11111111, 0x22222222], width: 2, height: 1 },
    );
    let mut grounds: HashMap<u32, GroundWithImages> = HashMap::new();
    grounds.insert(
        0,
        GroundWithImages {
            ground: test_ground(2),
            terrain: terrain_images,
            objects: HashMap::new(),
        },
    );
    let mut second = terrain_entry(0);
    second.do_not_overwrite_existing_terrain = true;
    let level = Level {
        name: String::new(),
        globals: LevelGlobals { extended_graphic_set: 0, normal_graphic_set: 0 },
        terrain: vec![terrain_entry(0), second],
        objects: vec![],
    };
    let img = render(&level, &grounds);
    // the second pass may not paint over what the first one laid down
    assert_eq!(img.bitmap[0], 0x11111111);
    assert_eq!(img.bitmap[1], 0x22222222);
}

#[test]
fn test_render_remove_terrain_cuts_to_background() {
    let mut terrain_images: HashMap<usize, Image> = HashMap::new();
    terrain_images.insert(
        0,
        Image { bitmap: vec![0x11111111, 0x22222222], width: 2, height: 1 },
    );
    let mut grounds: HashMap<u32, GroundWithImages> = HashMap::new();
    grounds.insert(
        0,
        GroundWithImages {
            ground: test_ground(2),
            terrain: terrain_images,
            objects: HashMap::new(),
        },
    );
    let mut cutter = terrain_entry(0);
    cutter.remove_terrain = true;
    let level = Level {
        name: String::new(),
        globals: LevelGlobals { extended_graphic_set: 0, normal_graphic_set: 0 },
        terrain: vec![terrain_entry(0), cutter],
        objects: vec![],
    };
    let img = render(&level, &grounds);
    // wherever the cutter sprite is solid, the canvas returns to bare
    // background
    assert_eq!(img.bitmap[0], LEVEL_BACKGROUND);
    assert_eq!(img.bitmap[1], LEVEL_BACKGROUND);
}

#[test]
fn test_render_special_backdrop_extent() {
    let mut grounds: HashMap<u32, GroundWithImages> = HashMap::new();
    grounds.insert(
        0,
        GroundWithImages {
            ground: test_ground(0),
            terrain: HashMap::new(),
            objects: HashMap::new(),
        },
    );
    let level = Level {
        name: String::new(),
        globals: LevelGlobals { extended_graphic_set: 1, normal_graphic_set: 0 },
        terrain: vec![],
        objects: vec![],
    };
    let img = render(&level, &grounds);
    // a special backdrop level always spans the fixed backdrop width
    assert_eq!(img.width, 960);
    assert_eq!(img.height, LEVEL_HEIGHT);
    assert!(img.bitmap.iter().all(|&p| p == LEVEL_BACKGROUND));
}

#[test]
fn test_render_object_needs_terrain_underneath() {
    let mut terrain_images: HashMap<usize, Image> = HashMap::new();
    terrain_images.insert(
        0,
        Image { bitmap: vec![0x11111111, 0], width: 2, height: 1 },
    );
    let mut object_images: HashMap<usize, Animation> = HashMap::new();
    object_images.insert(
        3,
        Animation { frames: vec![vec![0x99999999, 0x99999999]], width: 2, height: 1 },
    );
    let mut grounds: HashMap<u32, GroundWithImages> = HashMap::new();
    grounds.insert(
        0,
        GroundWithImages {
            ground: test_ground(2),
            terrain: terrain_images,
            objects: object_images,
        },
    );
    let level = Level {
        name: String::new(),
        globals: LevelGlobals { extended_graphic_set: 0, normal_graphic_set: 0 },
        terrain: vec![terrain_entry(0)],
        objects: vec![ObjectEntry {
            obj_id: 3,
            x: 0,
            y: 0,
            is_upside_down: false,
            modifier: ObjectModifier {
                do_not_overwrite_existing_terrain: false,
                must_have_terrain_underneath_to_be_visible: true,
            },
        }],
    };
    let img = render(&level, &grounds);
    // the object shows only where terrain already exists underneath
    assert_eq!(img.bitmap[0], 0x99999999);
    assert_eq!(img.bitmap[1], LEVEL_BACKGROUND);
}

#[test]
fn test_object_modifier_accessors() {
    let m = ObjectModifier {
        do_not_overwrite_existing_terrain: true,
        must_have_terrain_underneath_to_be_visible: false,
    };
    assert!(m.is_do_not_overwrite_existing_terrain());
    assert!(!m.is_must_have_terrain_underneath_to_be_visible());
    let o = ObjectEntry { obj_id: 1, x: 0, y: 0, is_upside_down: false, modifier: m };
    assert_eq!(o.obj_id, 1);
}
