//! Fixed-offset parser for the ground metadata files: sixteen object
//! records, sixty-four terrain records, then the EGA and VGA palettes.
//! 16-bit words are little-endian here, unlike the section headers of the
//! compressed containers.

use vstd::prelude::*;

verus! {

/// One interactive object of a graphic set.
#[derive(Clone, Debug)]
pub struct ObjectInfo {
    /// The first object of any ground is the exit.
    pub is_exit: bool,
    /// The second object of any ground is the entrance.
    pub is_entrance: bool,
    /// Bit 0 is 0 for looping, 1 for triggered animations.
    pub animation_flags: u16,
    pub start_animation_frame_index: u8,
    pub frame_count: u8,
    pub width: usize,
    pub height: usize,
    pub animation_frame_data_size: u16,
    pub mask_offset_from_image: u16,
    pub trigger_left: u16,
    pub trigger_top: u16,
    pub trigger_width: u8,
    pub trigger_height: u8,
    /// 0 none, 1 exit, 4 trap, 5 drown, 6 disintegrate, 7 one-way wall
    /// left, 8 one-way right, 9 steel.
    pub trigger_effect_id: u8,
    pub animation_frames_base_loc: u16,
    pub preview_image_index: u16,
    pub trap_sound_effect_id: u8,
}

/// One terrain sprite of a graphic set.
#[derive(Clone, Copy, Debug)]
pub struct TerrainInfo {
    pub width: usize,
    pub height: usize,
    pub image_loc: u16,
    pub mask_loc: u16,
}

/// The palettes of a graphic set. VGA entries are stored as six-bit RGB and
/// upgraded to RGBA words here.
#[derive(Clone, Debug)]
pub struct Palettes {
    pub ega: Vec<u8>,
    pub ega_standard: Vec<u8>,
    pub ega_preview: Vec<u8>,
    pub vga: Vec<u32>,
    pub vga_standard: Vec<u32>,
    pub vga_preview: Vec<u32>,
}

/// One parsed ground file.
pub struct Ground {
    pub object_info: Vec<ObjectInfo>,
    pub terrain_info: Vec<TerrainInfo>,
    pub palettes: Palettes,
}

/// A little-endian 16-bit word at byte offset `off`.
pub open spec fn le16(d: Seq<u8>, off: int) -> u16
    recommends
        0 <= off,
        off + 2 <= d.len(),
{
    (d[off] + 256 * d[off + 1]) as u16
}

/// A six-bit colour channel widened to eight bits, keeping full black and
/// full white exact.
pub open spec fn spec_colour_upgrade(six: u8) -> u8 {
    if six == 0 {
        0u8
    } else {
        (((six << 2u8) + 3) as u8)
    }
}

/// The RGBA word built from eight-bit channels, alpha fully opaque.
pub open spec fn spec_rgba(r: u8, g: u8, b: u8) -> u32 {
    (r * 0x1000000 + g * 0x10000 + b * 0x100 + 0xff) as u32
}

/// The RGBA word read from three six-bit channels at byte offset `off`.
pub open spec fn spec_rgb_at(d: Seq<u8>, off: int) -> u32
    recommends
        0 <= off,
        off + 3 <= d.len(),
{
    spec_rgba(
        spec_colour_upgrade(d[off]),
        spec_colour_upgrade(d[off + 1]),
        spec_colour_upgrade(d[off + 2]),
    )
}

/// The object record at index `i` of a ground file, 28 bytes each from the
/// start of the file.
pub open spec fn object_info_ok(o: ObjectInfo, d: Seq<u8>, i: int) -> bool {
    let base = 28 * i;
    &&& o.is_exit == (i == 0)
    &&& o.is_entrance == (i == 1)
    &&& o.animation_flags == le16(d, base)
    &&& o.start_animation_frame_index == d[base + 2]
    &&& o.frame_count == d[base + 3]
    &&& o.width == d[base + 4]
    &&& o.height == d[base + 5]
    &&& o.animation_frame_data_size == le16(d, base + 6)
    &&& o.mask_offset_from_image == le16(d, base + 8)
    &&& o.trigger_left == le16(d, base + 14)
    &&& o.trigger_top == le16(d, base + 16)
    &&& o.trigger_width == d[base + 18]
    &&& o.trigger_height == d[base + 19]
    &&& o.trigger_effect_id == d[base + 20]
    &&& o.animation_frames_base_loc == le16(d, base + 21)
    &&& o.preview_image_index == le16(d, base + 23)
    &&& o.trap_sound_effect_id == d[base + 27]
}

/// The terrain record at index `i`, 8 bytes each from offset 448.
pub open spec fn terrain_info_ok(t: TerrainInfo, d: Seq<u8>, i: int) -> bool {
    let base = 448 + 8 * i;
    &&& t.width == d[base]
    &&& t.height == d[base + 1]
    &&& t.image_loc == le16(d, base + 2)
    &&& t.mask_loc == le16(d, base + 4)
}

/// The palettes read from offset 960: three blocks of eight EGA bytes, then
/// three blocks of eight three-byte VGA entries.
pub open spec fn palettes_ok(p: Palettes, d: Seq<u8>) -> bool {
    &&& p.ega@.len() == 8
    &&& p.ega_standard@.len() == 8
    &&& p.ega_preview@.len() == 8
    &&& p.vga@.len() == 8
    &&& p.vga_standard@.len() == 8
    &&& p.vga_preview@.len() == 8
    &&& forall|i: int| 0 <= i < 8 ==> p.ega@[i] == d[960 + i]
    &&& forall|i: int| 0 <= i < 8 ==> p.ega_standard@[i] == d[968 + i]
    &&& forall|i: int| 0 <= i < 8 ==> p.ega_preview@[i] == d[976 + i]
    &&& forall|i: int| 0 <= i < 8 ==> p.vga@[i] == spec_rgb_at(d, 984 + 3 * i)
    &&& forall|i: int| 0 <= i < 8 ==> p.vga_standard@[i] == spec_rgb_at(d, 1008 + 3 * i)
    &&& forall|i: int| 0 <= i < 8 ==> p.vga_preview@[i] == spec_rgb_at(d, 1032 + 3 * i)
}

/// A fully parsed ground file.
pub open spec fn ground_ok(g: Ground, d: Seq<u8>) -> bool {
    &&& g.object_info@.len() == 16
    &&& g.terrain_info@.len() == 64
    &&& forall|i: int| 0 <= i < 16 ==> object_info_ok(#[trigger] g.object_info@[i], d, i)
    &&& forall|i: int| 0 <= i < 64 ==> terrain_info_ok(#[trigger] g.terrain_info@[i], d, i)
    &&& palettes_ok(g.palettes, d)
}

impl Ground {
    /// Every sprite dimension in a parsed ground file came from one byte.
    pub open spec fn wf(self) -> bool {
        &&& self.object_info@.len() == 16
        &&& self.terrain_info@.len() == 64
        &&& forall|i: int|
            0 <= i < 64 ==> (#[trigger] self.terrain_info@[i]).width <= 255
                && self.terrain_info@[i].height <= 255
        &&& forall|i: int|
            0 <= i < 16 ==> (#[trigger] self.object_info@[i]).width <= 255
                && self.object_info@[i].height <= 255
    }

    /// Parses a ground file, which is always exactly 1056 bytes.
    pub fn parse(data: &[u8]) -> (g: Ground)
        requires
            data@.len() == 1056,
        ensures
            ground_ok(g, data@),
            g.wf(),
    {
        let mut object_info: Vec<ObjectInfo> = Vec::new();
        let mut i: usize = 0;
        while i < 16
            invariant
                data@.len() == 1056,
                i <= 16,
                object_info@.len() == i,
                forall|j: int| 0 <= j < i ==> object_info_ok(#[trigger] object_info@[j], data@, j),
                forall|j: int|
                    0 <= j < i ==> (#[trigger] object_info@[j]).width <= 255
                        && object_info@[j].height <= 255,
            decreases 16 - i,
        {
            let base = 28 * i;
            let o = ObjectInfo {
                is_exit: i == 0,
                is_entrance: i == 1,
                animation_flags: read_u16(data, base),
                start_animation_frame_index: data[base + 2],
                frame_count: data[base + 3],
                width: data[base + 4] as usize,
                height: data[base + 5] as usize,
                animation_frame_data_size: read_u16(data, base + 6),
                mask_offset_from_image: read_u16(data, base + 8),
                trigger_left: read_u16(data, base + 14),
                trigger_top: read_u16(data, base + 16),
                trigger_width: data[base + 18],
                trigger_height: data[base + 19],
                trigger_effect_id: data[base + 20],
                animation_frames_base_loc: read_u16(data, base + 21),
                preview_image_index: read_u16(data, base + 23),
                trap_sound_effect_id: data[base + 27],
            };
            object_info.push(o);
            i = i + 1;
        }
        let mut terrain_info: Vec<TerrainInfo> = Vec::new();
        let mut i: usize = 0;
        while i < 64
            invariant
                data@.len() == 1056,
                i <= 64,
                terrain_info@.len() == i,
                forall|j: int|
                    0 <= j < i ==> terrain_info_ok(#[trigger] terrain_info@[j], data@, j),
                forall|j: int|
                    0 <= j < i ==> (#[trigger] terrain_info@[j]).width <= 255
                        && terrain_info@[j].height <= 255,
            decreases 64 - i,
        {
            let base = 448 + 8 * i;
            let t = TerrainInfo {
                width: data[base] as usize,
                height: data[base + 1] as usize,
                image_loc: read_u16(data, base + 2),
                mask_loc: read_u16(data, base + 4),
            };
            terrain_info.push(t);
            i = i + 1;
        }
        let mut ega: Vec<u8> = Vec::new();
        let mut ega_standard: Vec<u8> = Vec::new();
        let mut ega_preview: Vec<u8> = Vec::new();
        let mut i: usize = 0;
        while i < 8
            invariant
                data@.len() == 1056,
                i <= 8,
                ega@.len() == i,
                ega_standard@.len() == i,
                ega_preview@.len() == i,
                forall|j: int| 0 <= j < i ==> ega@[j] == data@[960 + j],
                forall|j: int| 0 <= j < i ==> ega_standard@[j] == data@[968 + j],
                forall|j: int| 0 <= j < i ==> ega_preview@[j] == data@[976 + j],
            decreases 8 - i,
        {
            ega.push(data[960 + i]);
            ega_standard.push(data[968 + i]);
            ega_preview.push(data[976 + i]);
            i = i + 1;
        }
        let mut vga: Vec<u32> = Vec::new();
        let mut vga_standard: Vec<u32> = Vec::new();
        let mut vga_preview: Vec<u32> = Vec::new();
        let mut i: usize = 0;
        while i < 8
            invariant
                data@.len() == 1056,
                i <= 8,
                vga@.len() == i,
                vga_standard@.len() == i,
                vga_preview@.len() == i,
                forall|j: int| 0 <= j < i ==> vga@[j] == spec_rgb_at(data@, 984 + 3 * j),
                forall|j: int| 0 <= j < i ==> vga_standard@[j] == spec_rgb_at(data@, 1008 + 3 * j),
                forall|j: int| 0 <= j < i ==> vga_preview@[j] == spec_rgb_at(data@, 1032 + 3 * j),
            decreases 8 - i,
        {
            vga.push(read_rgb(data, 984 + 3 * i));
            vga_standard.push(read_rgb(data, 1008 + 3 * i));
            vga_preview.push(read_rgb(data, 1032 + 3 * i));
            i = i + 1;
        }
        let palettes = Palettes { ega, ega_standard, ega_preview, vga, vga_standard, vga_preview };
        Ground { object_info, terrain_info, palettes }
    }
}

/// Upgrades a six-bit colour to eight bits, keeping full black and full
/// white exact.
pub fn colour_upgrade(six: u8) -> (r: u8)
    ensures
        r == spec_colour_upgrade(six),
{
    if six == 0 {
        0
    } else {
        let shifted = six << 2u8;
        proof {
            assert((six << 2u8) <= 252) by (bit_vector);
        }
        shifted + 3
    }
}

/// Reads a little-endian 16-bit word.
pub fn read_u16(data: &[u8], off: usize) -> (r: u16)
    requires
        off + 2 <= data@.len(),
    ensures
        r == le16(data@, off as int),
{
    let little = data[off];
    let big = data[off + 1];
    (little as u16) + 256 * (big as u16)
}

/// Reads three six-bit RGB bytes as one opaque RGBA word. In the source
/// files 0x3f per channel is full brightness.
pub fn read_rgb(data: &[u8], off: usize) -> (r: u32)
    requires
        off + 3 <= data@.len(),
    ensures
        r == spec_rgb_at(data@, off as int),
{
    let r6 = data[off];
    let g6 = data[off + 1];
    let b6 = data[off + 2];
    let r8 = colour_upgrade(r6);
    let g8 = colour_upgrade(g6);
    let b8 = colour_upgrade(b6);
    (r8 as u32) * 0x1000000 + (g8 as u32) * 0x10000 + (b8 as u32) * 0x100 + 0xff
}

/// The sixteen-colour palette a graphic set paints with: seven fixed
/// colours for the lemmings and the panel, then the file's own VGA
/// entries, the first of them doubled as the game does.
pub open spec fn spec_as_rgba(p: Palettes) -> Seq<u32>
    recommends
        p.vga@.len() == 8,
{
    seq![
        spec_rgba(spec_colour_upgrade(0x00), spec_colour_upgrade(0x00), spec_colour_upgrade(0x00)),
        spec_rgba(spec_colour_upgrade(0x10), spec_colour_upgrade(0x10), spec_colour_upgrade(0x38)),
        spec_rgba(spec_colour_upgrade(0x00), spec_colour_upgrade(0x2C), spec_colour_upgrade(0x00)),
        spec_rgba(spec_colour_upgrade(0x3C), spec_colour_upgrade(0x34), spec_colour_upgrade(0x34)),
        spec_rgba(spec_colour_upgrade(0x2C), spec_colour_upgrade(0x2C), spec_colour_upgrade(0x00)),
        spec_rgba(spec_colour_upgrade(0x3C), spec_colour_upgrade(0x08), spec_colour_upgrade(0x08)),
        spec_rgba(spec_colour_upgrade(0x20), spec_colour_upgrade(0x20), spec_colour_upgrade(0x20)),
        p.vga@[0],
        p.vga@[0],
        p.vga@[1],
        p.vga@[2],
        p.vga@[3],
        p.vga@[4],
        p.vga@[5],
        p.vga@[6],
        p.vga@[7],
    ]
}

impl Palettes {
    /// The palette of `spec_as_rgba`, as an executable array.
    pub fn as_rgba(&self) -> (r: [u32; 16])
        requires
            self.vga@.len() == 8,
        ensures
            r@ == spec_as_rgba(*self),
    {
        let arr: [u32; 16] = [
            rgba_from_docs(0x00, 0x00, 0x00),  // black
            rgba_from_docs(0x10, 0x10, 0x38),  // blue, the lemmings' bodies
            rgba_from_docs(0x00, 0x2C, 0x00),  // green, hair
            rgba_from_docs(0x3C, 0x34, 0x34),  // white, skin
            rgba_from_docs(0x2C, 0x2C, 0x00),  // dirty yellow, skill panel
            rgba_from_docs(0x3C, 0x08, 0x08),  // red, nuke icon
            rgba_from_docs(0x20, 0x20, 0x20),  // grey, skill panel
            self.vga[0],  // the game duplicates the first custom entry
            self.vga[0],
            self.vga[1],
            self.vga[2],
            self.vga[3],
            self.vga[4],
            self.vga[5],
            self.vga[6],
            self.vga[7],
        ];
        proof {
            assert(arr@ =~= spec_as_rgba(*self));
        }
        arr
    }
}

/// One fixed palette entry, given as six-bit channels.
fn rgba_from_docs(r6: u8, g6: u8, b6: u8) -> (r: u32)
    ensures
        r == spec_rgba(spec_colour_upgrade(r6), spec_colour_upgrade(g6), spec_colour_upgrade(b6)),
{
    let r8 = colour_upgrade(r6);
    let g8 = colour_upgrade(g6);
    let b8 = colour_upgrade(b6);
    (r8 as u32) * 0x1000000 + (g8 as u32) * 0x10000 + (b8 as u32) * 0x100 + 0xff
}

} // verus!
