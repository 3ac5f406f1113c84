//! Decoder for the main asset container: the lemming animations, the
//! skill masks, the countdown digits, the skill panel, the game fonts and
//! the main menu imagery, each at its documented offset within the
//! container's decompressed sections.

use vstd::prelude::*;
use crate::bit_iter_ms_first::msb_bits;
use crate::image::{
    frame_1bpp_ok, frame_2bpp_ok, frame_3bpp_ok, frame_4bpp_ok, Animation, Image, Mask,
};

verus! {

/// Why the main asset container could not be decoded.
#[derive(Clone, Copy, Debug, PartialEq, Eq, Structural)]
pub enum MainDatError {
    /// The container holds fewer than the seven sections the format lays
    /// out.
    NotEnoughSections,
}

/// An animation whose frames were decoded from the planes at byte offset
/// `off` of `data`, at `bpp` bits per pixel.
pub open spec fn anim_ok(
    a: Animation,
    data: Seq<u8>,
    off: int,
    w: int,
    h: int,
    fc: int,
    bpp: int,
    pal: Seq<u32>,
) -> bool {
    &&& a.width == w
    &&& a.height == h
    &&& a.frames@.len() == fc
    &&& forall|f: int|
        0 <= f < fc ==> {
            let fr = (#[trigger] a.frames@[f])@;
            if bpp == 2 {
                frame_2bpp_ok(fr, data.skip(off), w, h, f * (w * h * 2), pal)
            } else if bpp == 3 {
                frame_3bpp_ok(fr, data.skip(off), w, h, f * (w * h * 3), pal)
            } else {
                frame_4bpp_ok(fr, data.skip(off), w, h, f * (w * h * 4), pal)
            }
        }
}

/// A static image decoded from the single plane at byte offset `off`.
pub open spec fn img1_ok(img: Image, data: Seq<u8>, off: int, w: int, h: int) -> bool {
    &&& img.width == w
    &&& img.height == h
    &&& frame_1bpp_ok(img.bitmap@, data.skip(off), w, h, 0)
}

/// A static image decoded from two planes at byte offset `off`.
pub open spec fn img2_ok(img: Image, data: Seq<u8>, off: int, w: int, h: int, pal: Seq<u32>) -> bool {
    &&& img.width == w
    &&& img.height == h
    &&& frame_2bpp_ok(img.bitmap@, data.skip(off), w, h, 0, pal)
}

/// A static image decoded from three planes at byte offset `off`.
pub open spec fn img3_ok(img: Image, data: Seq<u8>, off: int, w: int, h: int, pal: Seq<u32>) -> bool {
    &&& img.width == w
    &&& img.height == h
    &&& frame_3bpp_ok(img.bitmap@, data.skip(off), w, h, 0, pal)
}

/// A static image decoded from four planes at byte offset `off`.
pub open spec fn img4_ok(img: Image, data: Seq<u8>, off: int, w: int, h: int, pal: Seq<u32>) -> bool {
    &&& img.width == w
    &&& img.height == h
    &&& frame_4bpp_ok(img.bitmap@, data.skip(off), w, h, 0, pal)
}

/// One mask frame: one bit per pixel starting at bit `off`.
pub open spec fn mask_frame_ok(fr: Seq<u8>, data: Seq<u8>, pixels: int, off: int) -> bool {
    &&& fr.len() == pixels
    &&& forall|i: int| 0 <= i < pixels ==> fr[i] == msb_bits(data)[off + i]
}

/// A mask of `fc` frames of `w` by `h` bits each, read from byte offset
/// `off` of `data`.
pub open spec fn mask_ok(m: Mask, data: Seq<u8>, off: int, w: int, h: int, fc: int) -> bool {
    &&& m.width == w
    &&& m.height == h
    &&& m.frames@.len() == fc
    &&& forall|f: int|
        0 <= f < fc ==> mask_frame_ok((#[trigger] m.frames@[f])@, data.skip(off), w * h, f * (w * h))
}

/// The fixed sixteen-colour palette of the main menu.
pub open spec fn menu_palette_spec() -> Seq<u32> {
    seq![
        0u32,
        crate::ground::spec_rgba(128, 64, 32),
        crate::ground::spec_rgba(96, 48, 32),
        crate::ground::spec_rgba(48, 0, 16),
        crate::ground::spec_rgba(32, 8, 124),
        crate::ground::spec_rgba(64, 44, 144),
        crate::ground::spec_rgba(104, 88, 164),
        crate::ground::spec_rgba(152, 140, 188),
        crate::ground::spec_rgba(0, 80, 0),
        crate::ground::spec_rgba(0, 96, 16),
        crate::ground::spec_rgba(0, 112, 32),
        crate::ground::spec_rgba(0, 128, 64),
        crate::ground::spec_rgba(208, 208, 208),
        crate::ground::spec_rgba(176, 176, 0),
        crate::ground::spec_rgba(64, 80, 176),
        crate::ground::spec_rgba(224, 128, 144),
    ]
}

/// The in-game palette: the menu palette with the lemming and panel
/// colours replaced.
pub open spec fn game_palette_spec() -> Seq<u32> {
    menu_palette_spec().update(1, crate::ground::spec_rgba(64, 64, 224)).update(2, crate::ground::spec_rgba(0, 176, 0)).update(3, crate::ground::spec_rgba(240, 208, 208)).update(4, crate::ground::spec_rgba(176, 176, 0)).update(5, crate::ground::spec_rgba(240, 32, 32)).update(6, crate::ground::spec_rgba(128, 128, 128))
}

/// One opaque RGBA word from eight-bit channels.
fn rgba_from_rgb(r: u8, g: u8, b: u8) -> (c: u32)
    ensures
        c == crate::ground::spec_rgba(r, g, b),
{
    (r as u32) * 0x1000000 + (g as u32) * 0x10000 + (b as u32) * 0x100 + 0xff
}

/// The fixed main-menu palette as an executable array.
fn menu_palette() -> (r: [u32; 16])
    ensures
        r@ == menu_palette_spec(),
{
    let arr: [u32; 16] = [
        0,
        rgba_from_rgb(128, 64, 32),
        rgba_from_rgb(96, 48, 32),
        rgba_from_rgb(48, 0, 16),
        rgba_from_rgb(32, 8, 124),
        rgba_from_rgb(64, 44, 144),
        rgba_from_rgb(104, 88, 164),
        rgba_from_rgb(152, 140, 188),
        rgba_from_rgb(0, 80, 0),
        rgba_from_rgb(0, 96, 16),
        rgba_from_rgb(0, 112, 32),
        rgba_from_rgb(0, 128, 64),
        rgba_from_rgb(208, 208, 208),
        rgba_from_rgb(176, 176, 0),
        rgba_from_rgb(64, 80, 176),
        rgba_from_rgb(224, 128, 144),
    ];
    proof {
        assert(arr@ =~= menu_palette_spec());
    }
    arr
}

/// The in-game palette as an executable array.
fn game_palette() -> (r: [u32; 16])
    ensures
        r@ == game_palette_spec(),
{
    let arr: [u32; 16] = [
        0,
        rgba_from_rgb(64, 64, 224),
        rgba_from_rgb(0, 176, 0),
        rgba_from_rgb(240, 208, 208),
        rgba_from_rgb(176, 176, 0),
        rgba_from_rgb(240, 32, 32),
        rgba_from_rgb(128, 128, 128),
        rgba_from_rgb(152, 140, 188),
        rgba_from_rgb(0, 80, 0),
        rgba_from_rgb(0, 96, 16),
        rgba_from_rgb(0, 112, 32),
        rgba_from_rgb(0, 128, 64),
        rgba_from_rgb(208, 208, 208),
        rgba_from_rgb(176, 176, 0),
        rgba_from_rgb(64, 80, 176),
        rgba_from_rgb(224, 128, 144),
    ];
    proof {
        assert(arr@ =~= game_palette_spec());
    }
    arr
}

/// Everything decoded from the main asset container.
pub struct MainDat {
    pub lemming_animations: LemmingAnimations,
    pub masks: Masks,
    pub countdown_numbers: Vec<Image>,
    pub skill_panel_high_perf: Image,
    pub skill_number_digits: SkillNumberDigits,
    pub game_font_high_perf: GameFont,
    pub main_menu: MainMenu,
    pub skill_panel: Image,
    pub game_font: GameFont,
}

/// The main menu imagery.
pub struct MainMenu {
    pub background: Image,
    pub logo: Image,
    pub f1: Image,
    pub f2: Image,
    pub f3: Image,
    pub f4: Image,
    pub level_rating: Image,
    pub exit_to_dos: Image,
    pub music_note: Image,
    pub fx: Image,
    pub blink1: Animation,
    pub blink2: Animation,
    pub blink3: Animation,
    pub blink4: Animation,
    pub blink5: Animation,
    pub blink6: Animation,
    pub blink7: Animation,
    pub left_scroller: Animation,
    pub right_scroller: Animation,
    pub reel: Image,
    pub mayhem: Image,
    pub taxing: Image,
    pub tricky: Image,
    pub fun: Image,
    /// 94 frames of 16 by 16, the printable characters in order; an
    /// animation only to ease texture-atlas conversion.
    pub menu_font: Animation,
}

/// The in-game text font: percent sign, digits, dash and capitals.
pub struct GameFont {
    pub percent: Image,
    pub digits: Vec<Image>,
    pub dash: Image,
    pub letters: Vec<Image>,
}

/// The digits drawn left and right of a skill count.
pub struct SkillNumberDigits {
    pub left: Vec<Image>,
    pub right: Vec<Image>,
}

/// The lemming job animations.
pub struct LemmingAnimations {
    pub walking_right: Animation,
    pub jumping_right: Animation,
    pub walking_left: Animation,
    pub jumping_left: Animation,
    pub digging: Animation,
    pub climbing_right: Animation,
    pub climbing_left: Animation,
    pub drowning: Animation,
    pub post_climb_right: Animation,
    pub post_climb_left: Animation,
    pub brick_laying_right: Animation,
    pub brick_laying_left: Animation,
    pub bashing_right: Animation,
    pub bashing_left: Animation,
    pub mining_right: Animation,
    pub mining_left: Animation,
    pub falling_right: Animation,
    pub falling_left: Animation,
    pub pre_umbrella_right: Animation,
    pub umbrella_right: Animation,
    pub pre_umbrella_left: Animation,
    pub umbrella_left: Animation,
    pub splatting: Animation,
    pub exiting: Animation,
    pub fried: Animation,
    pub blocking: Animation,
    pub shrugging_right: Animation,
    pub shrugging_left: Animation,
    pub oh_no_ing: Animation,
    pub explosion: Animation,
}

/// The stencils the bashing, mining and exploding jobs cut into terrain.
pub struct Masks {
    pub bash_right: Mask,
    pub bash_left: Mask,
    pub mine_right: Mask,
    pub mine_left: Mask,
    pub explosion: Mask,
}

/// Every lemming animation decoded from its documented offset.
pub open spec fn lemming_animations_ok(l: LemmingAnimations, data: Seq<u8>, pal: Seq<u32>) -> bool {
    &&& anim_ok(l.walking_right, data, 0x0, 8, 16, 10, 2, pal)
    &&& anim_ok(l.jumping_right, data, 0x140, 1, 16, 10, 2, pal)
    &&& anim_ok(l.walking_left, data, 0x168, 8, 16, 10, 2, pal)
    &&& anim_ok(l.jumping_left, data, 0x2a8, 1, 16, 10, 2, pal)
    &&& anim_ok(l.digging, data, 0x2d0, 16, 16, 14, 3, pal)
    &&& anim_ok(l.climbing_right, data, 0x810, 8, 16, 12, 2, pal)
    &&& anim_ok(l.climbing_left, data, 0x990, 8, 16, 12, 2, pal)
    &&& anim_ok(l.drowning, data, 0xb10, 16, 16, 10, 2, pal)
    &&& anim_ok(l.post_climb_right, data, 0xd90, 8, 16, 12, 2, pal)
    &&& anim_ok(l.post_climb_left, data, 0xf10, 8, 16, 12, 2, pal)
    &&& anim_ok(l.brick_laying_right, data, 0x1090, 16, 16, 13, 3, pal)
    &&& anim_ok(l.brick_laying_left, data, 0x1570, 16, 16, 13, 3, pal)
    &&& anim_ok(l.bashing_right, data, 0x1a50, 32, 16, 10, 3, pal)
    &&& anim_ok(l.bashing_left, data, 0x21d0, 32, 16, 10, 3, pal)
    &&& anim_ok(l.mining_right, data, 0x2950, 24, 16, 13, 3, pal)
    &&& anim_ok(l.mining_left, data, 0x30a0, 24, 16, 13, 3, pal)
    &&& anim_ok(l.falling_right, data, 0x37f0, 4, 16, 10, 2, pal)
    &&& anim_ok(l.falling_left, data, 0x3890, 4, 16, 10, 2, pal)
    &&& anim_ok(l.pre_umbrella_right, data, 0x3930, 4, 16, 16, 3, pal)
    &&& anim_ok(l.umbrella_right, data, 0x3ab0, 4, 16, 16, 3, pal)
    &&& anim_ok(l.pre_umbrella_left, data, 0x3c30, 4, 16, 16, 3, pal)
    &&& anim_ok(l.umbrella_left, data, 0x3db0, 4, 16, 16, 3, pal)
    &&& anim_ok(l.splatting, data, 0x3f30, 16, 16, 10, 2, pal)
    &&& anim_ok(l.exiting, data, 0x41b0, 8, 16, 13, 2, pal)
    &&& anim_ok(l.fried, data, 0x4350, 14, 16, 14, 4, pal)
    &&& anim_ok(l.blocking, data, 0x4970, 16, 16, 10, 2, pal)
    &&& anim_ok(l.shrugging_right, data, 0x4bf0, 8, 16, 10, 2, pal)
    &&& anim_ok(l.shrugging_left, data, 0x4d30, 8, 16, 10, 2, pal)
    &&& anim_ok(l.oh_no_ing, data, 0x4e70, 16, 16, 10, 2, pal)
    &&& anim_ok(l.explosion, data, 0x50f0, 1, 32, 32, 3, pal)
}

impl LemmingAnimations {
    /// Decodes the lemming animations from the first section of the main
    /// container.
    pub fn parse(data: &[u8], palette: &[u32; 16]) -> (r: LemmingAnimations)
        requires
            data@.len() >= 21104,
            data@.len() * 8 <= usize::MAX,
        ensures
            lemming_animations_ok(r, data@, palette@),
    {
        let sub = vstd::slice::slice_subrange(data, 0x0, data.len());
        proof {
            assert(sub@ =~= data@.skip(0x0));
        }
        let walking_right = Animation::parse(sub, 8, 16, 10, palette, 2);
        let sub = vstd::slice::slice_subrange(data, 0x140, data.len());
        proof {
            assert(sub@ =~= data@.skip(0x140));
        }
        let jumping_right = Animation::parse(sub, 1, 16, 10, palette, 2);
        let sub = vstd::slice::slice_subrange(data, 0x168, data.len());
        proof {
            assert(sub@ =~= data@.skip(0x168));
        }
        let walking_left = Animation::parse(sub, 8, 16, 10, palette, 2);
        let sub = vstd::slice::slice_subrange(data, 0x2a8, data.len());
        proof {
            assert(sub@ =~= data@.skip(0x2a8));
        }
        let jumping_left = Animation::parse(sub, 1, 16, 10, palette, 2);
        let sub = vstd::slice::slice_subrange(data, 0x2d0, data.len());
        proof {
            assert(sub@ =~= data@.skip(0x2d0));
        }
        let digging = Animation::parse(sub, 16, 16, 14, palette, 3);
        let sub = vstd::slice::slice_subrange(data, 0x810, data.len());
        proof {
            assert(sub@ =~= data@.skip(0x810));
        }
        let climbing_right = Animation::parse(sub, 8, 16, 12, palette, 2);
        let sub = vstd::slice::slice_subrange(data, 0x990, data.len());
        proof {
            assert(sub@ =~= data@.skip(0x990));
        }
        let climbing_left = Animation::parse(sub, 8, 16, 12, palette, 2);
        let sub = vstd::slice::slice_subrange(data, 0xb10, data.len());
        proof {
            assert(sub@ =~= data@.skip(0xb10));
        }
        let drowning = Animation::parse(sub, 16, 16, 10, palette, 2);
        let sub = vstd::slice::slice_subrange(data, 0xd90, data.len());
        proof {
            assert(sub@ =~= data@.skip(0xd90));
        }
        let post_climb_right = Animation::parse(sub, 8, 16, 12, palette, 2);
        let sub = vstd::slice::slice_subrange(data, 0xf10, data.len());
        proof {
            assert(sub@ =~= data@.skip(0xf10));
        }
        let post_climb_left = Animation::parse(sub, 8, 16, 12, palette, 2);
        let sub = vstd::slice::slice_subrange(data, 0x1090, data.len());
        proof {
            assert(sub@ =~= data@.skip(0x1090));
        }
        let brick_laying_right = Animation::parse(sub, 16, 16, 13, palette, 3);
        let sub = vstd::slice::slice_subrange(data, 0x1570, data.len());
        proof {
            assert(sub@ =~= data@.skip(0x1570));
        }
        let brick_laying_left = Animation::parse(sub, 16, 16, 13, palette, 3);
        let sub = vstd::slice::slice_subrange(data, 0x1a50, data.len());
        proof {
            assert(sub@ =~= data@.skip(0x1a50));
        }
        let bashing_right = Animation::parse(sub, 32, 16, 10, palette, 3);
        let sub = vstd::slice::slice_subrange(data, 0x21d0, data.len());
        proof {
            assert(sub@ =~= data@.skip(0x21d0));
        }
        let bashing_left = Animation::parse(sub, 32, 16, 10, palette, 3);
        let sub = vstd::slice::slice_subrange(data, 0x2950, data.len());
        proof {
            assert(sub@ =~= data@.skip(0x2950));
        }
        let mining_right = Animation::parse(sub, 24, 16, 13, palette, 3);
        let sub = vstd::slice::slice_subrange(data, 0x30a0, data.len());
        proof {
            assert(sub@ =~= data@.skip(0x30a0));
        }
        let mining_left = Animation::parse(sub, 24, 16, 13, palette, 3);
        let sub = vstd::slice::slice_subrange(data, 0x37f0, data.len());
        proof {
            assert(sub@ =~= data@.skip(0x37f0));
        }
        let falling_right = Animation::parse(sub, 4, 16, 10, palette, 2);
        let sub = vstd::slice::slice_subrange(data, 0x3890, data.len());
        proof {
            assert(sub@ =~= data@.skip(0x3890));
        }
        let falling_left = Animation::parse(sub, 4, 16, 10, palette, 2);
        let sub = vstd::slice::slice_subrange(data, 0x3930, data.len());
        proof {
            assert(sub@ =~= data@.skip(0x3930));
        }
        let pre_umbrella_right = Animation::parse(sub, 4, 16, 16, palette, 3);
        let sub = vstd::slice::slice_subrange(data, 0x3ab0, data.len());
        proof {
            assert(sub@ =~= data@.skip(0x3ab0));
        }
        let umbrella_right = Animation::parse(sub, 4, 16, 16, palette, 3);
        let sub = vstd::slice::slice_subrange(data, 0x3c30, data.len());
        proof {
            assert(sub@ =~= data@.skip(0x3c30));
        }
        let pre_umbrella_left = Animation::parse(sub, 4, 16, 16, palette, 3);
        let sub = vstd::slice::slice_subrange(data, 0x3db0, data.len());
        proof {
            assert(sub@ =~= data@.skip(0x3db0));
        }
        let umbrella_left = Animation::parse(sub, 4, 16, 16, palette, 3);
        let sub = vstd::slice::slice_subrange(data, 0x3f30, data.len());
        proof {
            assert(sub@ =~= data@.skip(0x3f30));
        }
        let splatting = Animation::parse(sub, 16, 16, 10, palette, 2);
        let sub = vstd::slice::slice_subrange(data, 0x41b0, data.len());
        proof {
            assert(sub@ =~= data@.skip(0x41b0));
        }
        let exiting = Animation::parse(sub, 8, 16, 13, palette, 2);
        let sub = vstd::slice::slice_subrange(data, 0x4350, data.len());
        proof {
            assert(sub@ =~= data@.skip(0x4350));
        }
        let fried = Animation::parse(sub, 14, 16, 14, palette, 4);
        let sub = vstd::slice::slice_subrange(data, 0x4970, data.len());
        proof {
            assert(sub@ =~= data@.skip(0x4970));
        }
        let blocking = Animation::parse(sub, 16, 16, 10, palette, 2);
        let sub = vstd::slice::slice_subrange(data, 0x4bf0, data.len());
        proof {
            assert(sub@ =~= data@.skip(0x4bf0));
        }
        let shrugging_right = Animation::parse(sub, 8, 16, 10, palette, 2);
        let sub = vstd::slice::slice_subrange(data, 0x4d30, data.len());
        proof {
            assert(sub@ =~= data@.skip(0x4d30));
        }
        let shrugging_left = Animation::parse(sub, 8, 16, 10, palette, 2);
        let sub = vstd::slice::slice_subrange(data, 0x4e70, data.len());
        proof {
            assert(sub@ =~= data@.skip(0x4e70));
        }
        let oh_no_ing = Animation::parse(sub, 16, 16, 10, palette, 2);
        let sub = vstd::slice::slice_subrange(data, 0x50f0, data.len());
        proof {
            assert(sub@ =~= data@.skip(0x50f0));
        }
        let explosion = Animation::parse(sub, 1, 32, 32, palette, 3);
        LemmingAnimations {
            walking_right,
            jumping_right,
            walking_left,
            jumping_left,
            digging,
            climbing_right,
            climbing_left,
            drowning,
            post_climb_right,
            post_climb_left,
            brick_laying_right,
            brick_laying_left,
            bashing_right,
            bashing_left,
            mining_right,
            mining_left,
            falling_right,
            falling_left,
            pre_umbrella_right,
            umbrella_right,
            pre_umbrella_left,
            umbrella_left,
            splatting,
            exiting,
            fried,
            blocking,
            shrugging_right,
            shrugging_left,
            oh_no_ing,
            explosion,
        }
    }
}

impl Mask {
    /// Decodes `frame_count` one-bit frames laid out back to back.
    pub fn parse(data: &[u8], width: usize, height: usize, frame_count: usize) -> (r: Mask)
        requires
            frame_count * (width * height) <= data@.len() * 8,
            width * height <= usize::MAX,
            data@.len() * 8 <= usize::MAX,
        ensures
            mask_ok(r, data@, 0, width as int, height as int, frame_count as int),
    {
        let pixels = width * height;
        let bits = crate::bit_iter_ms_first::iterate(data);
        let mut frames: Vec<Vec<u8>> = Vec::new();
        let mut fi: usize = 0;
        proof {
            assert(data@.skip(0) =~= data@);
        }
        while fi < frame_count
            invariant
                fi <= frame_count,
                pixels == width * height,
                frame_count * pixels <= bits@.len(),
                bits@ == msb_bits(data@),
                bits@.len() == data@.len() * 8,
                bits@.len() <= usize::MAX,
                frames@.len() == fi,
                data@.skip(0) == data@,
                forall|f: int|
                    0 <= f < fi ==> mask_frame_ok(
                        (#[trigger] frames@[f])@,
                        data@,
                        pixels as int,
                        f * (pixels as int),
                    ),
            decreases frame_count - fi,
        {
            proof {
                crate::image::lemma_frame_stride_bound(
                    fi as int,
                    frame_count as int,
                    pixels as int,
                    bits@.len() as int,
                );
            }
            let offset = fi * pixels;
            let mut frame: Vec<u8> = Vec::new();
            let mut i: usize = 0;
            while i < pixels
                invariant
                    i <= pixels,
                    offset == fi * pixels,
                    offset + pixels <= bits@.len(),
                    bits@ == msb_bits(data@),
                    bits@.len() <= usize::MAX,
                    frame@.len() == i,
                    forall|j: int| 0 <= j < i ==> frame@[j] == msb_bits(data@)[offset + j],
                decreases pixels - i,
            {
                frame.push(bits[offset + i]);
                i = i + 1;
            }
            frames.push(frame);
            fi = fi + 1;
        }
        Mask { frames, width, height }
    }
}

/// Every terrain stencil decoded from its documented offset.
pub open spec fn masks_ok(m: Masks, data: Seq<u8>) -> bool {
    &&& mask_ok(m.bash_right, data, 0x0, 16, 10, 4)
    &&& mask_ok(m.bash_left, data, 0x50, 16, 10, 4)
    &&& mask_ok(m.mine_right, data, 0xa0, 16, 13, 2)
    &&& mask_ok(m.mine_left, data, 0xd4, 16, 13, 2)
    &&& mask_ok(m.explosion, data, 0x108, 16, 22, 1)
}

impl Masks {
    /// Decodes the five stencils from the second section of the main
    /// container.
    pub fn parse(data: &[u8]) -> (r: Masks)
        requires
            data@.len() >= 308,
            data@.len() * 8 <= usize::MAX,
        ensures
            masks_ok(r, data@),
    {
        let sub = vstd::slice::slice_subrange(data, 0x0, data.len());
        proof {
            assert(sub@ =~= data@.skip(0x0));
            assert(sub@.skip(0) =~= sub@);
        }
        let bash_right = Mask::parse(sub, 16, 10, 4);
        proof {
            assert(mask_ok(bash_right, data@, 0x0, 16, 10, 4));
        }
        let sub = vstd::slice::slice_subrange(data, 0x50, data.len());
        proof {
            assert(sub@ =~= data@.skip(0x50));
            assert(sub@.skip(0) =~= sub@);
        }
        let bash_left = Mask::parse(sub, 16, 10, 4);
        proof {
            assert(mask_ok(bash_left, data@, 0x50, 16, 10, 4));
        }
        let sub = vstd::slice::slice_subrange(data, 0xa0, data.len());
        proof {
            assert(sub@ =~= data@.skip(0xa0));
            assert(sub@.skip(0) =~= sub@);
        }
        let mine_right = Mask::parse(sub, 16, 13, 2);
        proof {
            assert(mask_ok(mine_right, data@, 0xa0, 16, 13, 2));
        }
        let sub = vstd::slice::slice_subrange(data, 0xd4, data.len());
        proof {
            assert(sub@ =~= data@.skip(0xd4));
            assert(sub@.skip(0) =~= sub@);
        }
        let mine_left = Mask::parse(sub, 16, 13, 2);
        proof {
            assert(mask_ok(mine_left, data@, 0xd4, 16, 13, 2));
        }
        let sub = vstd::slice::slice_subrange(data, 0x108, data.len());
        proof {
            assert(sub@ =~= data@.skip(0x108));
            assert(sub@.skip(0) =~= sub@);
        }
        let explosion = Mask::parse(sub, 16, 22, 1);
        proof {
            assert(mask_ok(explosion, data@, 0x108, 16, 22, 1));
        }
        Masks {
            bash_right,
            bash_left,
            mine_right,
            mine_left,
            explosion,
        }
    }
}

/// The ten countdown digits, stored just below the stencils; digit `d`
/// sits `8 * d` bytes before offset 0x0184.
pub open spec fn countdown_ok(imgs: Seq<Image>, data: Seq<u8>) -> bool {
    &&& imgs.len() == 10
    &&& forall|d: int| 0 <= d < 10 ==> img1_ok(#[trigger] imgs[d], data, 0x17c - 8 * d, 8, 8)
}

/// Decodes the countdown digits from the second section of the main
/// container.
pub fn parse_countdown_numbers(data: &[u8]) -> (r: Vec<Image>)
    requires
        data@.len() >= 388,
        data@.len() * 8 <= usize::MAX,
    ensures
        countdown_ok(r@, data@),
{
    let mut imgs: Vec<Image> = Vec::new();
    let mut d: usize = 0;
    while d < 10
        invariant
            d <= 10,
            data@.len() >= 388,
            data@.len() * 8 <= usize::MAX,
            imgs@.len() == d,
            forall|j: int| 0 <= j < d ==> img1_ok(#[trigger] imgs@[j], data@, 0x17c - 8 * j, 8, 8),
        decreases 10 - d,
    {
        let off = 0x17c - 8 * d;
        let sub = vstd::slice::slice_subrange(data, off, data.len());
        proof {
            assert(sub@ =~= data@.skip(off as int));
        }
        let img = Image::parse_1bpp(sub, 8, 8);
        imgs.push(img);
        d = d + 1;
    }
    imgs
}

/// The skill-count digits: ten right-hand digits every 16 bytes from
/// 0x1900, the left-hand digits 8 bytes above each.
pub open spec fn skill_digits_ok(s: SkillNumberDigits, data: Seq<u8>) -> bool {
    &&& s.left@.len() == 10
    &&& s.right@.len() == 10
    &&& forall|d: int| 0 <= d < 10 ==> img1_ok(#[trigger] s.left@[d], data, 0x1908 + 16 * d, 8, 8)
    &&& forall|d: int| 0 <= d < 10 ==> img1_ok(#[trigger] s.right@[d], data, 0x1900 + 16 * d, 8, 8)
}

impl SkillNumberDigits {
    /// Decodes the skill-count digits from the third section of the main
    /// container.
    pub fn parse(data: &[u8]) -> (r: SkillNumberDigits)
        requires
            data@.len() >= 6560,
            data@.len() * 8 <= usize::MAX,
        ensures
            skill_digits_ok(r, data@),
    {
        let mut left: Vec<Image> = Vec::new();
        let mut right: Vec<Image> = Vec::new();
        let mut d: usize = 0;
        while d < 10
            invariant
                d <= 10,
                data@.len() >= 6560,
                data@.len() * 8 <= usize::MAX,
                left@.len() == d,
                right@.len() == d,
                forall|j: int|
                    0 <= j < d ==> img1_ok(#[trigger] left@[j], data@, 0x1908 + 16 * j, 8, 8),
                forall|j: int|
                    0 <= j < d ==> img1_ok(#[trigger] right@[j], data@, 0x1900 + 16 * j, 8, 8),
            decreases 10 - d,
        {
            let off_l = 0x1908 + 16 * d;
            let sub_l = vstd::slice::slice_subrange(data, off_l, data.len());
            proof {
                assert(sub_l@ =~= data@.skip(off_l as int));
            }
            left.push(Image::parse_1bpp(sub_l, 8, 8));
            let off_r = 0x1900 + 16 * d;
            let sub_r = vstd::slice::slice_subrange(data, off_r, data.len());
            proof {
                assert(sub_r@ =~= data@.skip(off_r as int));
            }
            right.push(Image::parse_1bpp(sub_r, 8, 8));
            d = d + 1;
        }
        SkillNumberDigits { left, right }
    }
}

/// A font built of three-plane 8 by 16 glyphs every 0x30 bytes: the
/// percent sign, ten digits, a dash, then twenty-six capitals.
pub open spec fn game_font_ok(f: GameFont, data: Seq<u8>, pal: Seq<u32>) -> bool {
    &&& img3_ok(f.percent, data, 0, 8, 16, pal)
    &&& f.digits@.len() == 10
    &&& forall|d: int|
        0 <= d < 10 ==> img3_ok(#[trigger] f.digits@[d], data, 0x30 * (d + 1), 8, 16, pal)
    &&& img3_ok(f.dash, data, (0x30 * 11) as int, 8, 16, pal)
    &&& f.letters@.len() == 26
    &&& forall|d: int|
        0 <= d < 26 ==> img3_ok(#[trigger] f.letters@[d], data, 0x30 * (d + 12), 8, 16, pal)
}

impl GameFont {
    /// Decodes a game font laid out from the front of `data`.
    pub fn parse(data: &[u8], palette: &[u32; 16]) -> (r: GameFont)
        requires
            data@.len() >= 1824,
            data@.len() * 8 <= usize::MAX,
        ensures
            game_font_ok(r, data@, palette@),
    {
        let sub0 = vstd::slice::slice_subrange(data, 0, data.len());
        proof {
            assert(sub0@ =~= data@.skip(0));
        }
        let percent = Image::parse_3bpp(sub0, 8, 16, palette);
        let mut digits: Vec<Image> = Vec::new();
        let mut d: usize = 0;
        while d < 10
            invariant
                d <= 10,
                data@.len() >= 1824,
                data@.len() * 8 <= usize::MAX,
                digits@.len() == d,
                forall|j: int|
                    0 <= j < d ==> img3_ok(
                        #[trigger] digits@[j],
                        data@,
                        0x30 * (j + 1),
                        8,
                        16,
                        palette@,
                    ),
            decreases 10 - d,
        {
            let off = 0x30 * (d + 1);
            let sub = vstd::slice::slice_subrange(data, off, data.len());
            proof {
                assert(sub@ =~= data@.skip(off as int));
            }
            digits.push(Image::parse_3bpp(sub, 8, 16, palette));
            d = d + 1;
        }
        let sub_dash = vstd::slice::slice_subrange(data, 0x30 * 11, data.len());
        proof {
            assert(sub_dash@ =~= data@.skip((0x30 * 11) as int));
        }
        let dash = Image::parse_3bpp(sub_dash, 8, 16, palette);
        let mut letters: Vec<Image> = Vec::new();
        let mut d: usize = 0;
        while d < 26
            invariant
                d <= 26,
                data@.len() >= 1824,
                data@.len() * 8 <= usize::MAX,
                letters@.len() == d,
                forall|j: int|
                    0 <= j < d ==> img3_ok(
                        #[trigger] letters@[j],
                        data@,
                        0x30 * (j + 12),
                        8,
                        16,
                        palette@,
                    ),
            decreases 26 - d,
        {
            let off = 0x30 * (d + 12);
            let sub = vstd::slice::slice_subrange(data, off, data.len());
            proof {
                assert(sub@ =~= data@.skip(off as int));
            }
            letters.push(Image::parse_3bpp(sub, 8, 16, palette));
            d = d + 1;
        }
        GameFont { percent, digits, dash, letters }
    }
}

/// The menu palette with entry 0 made solid black, used for imagery
/// drawn over nothing.
pub open spec fn back_palette_spec(pal: Seq<u32>) -> Seq<u32> {
    pal.update(0, 0xff000000u32)
}

/// Every main-menu image and animation decoded from its documented
/// offset in the fourth and fifth sections.
pub open spec fn main_menu_ok(m: MainMenu, s3: Seq<u8>, s4: Seq<u8>, pal: Seq<u32>) -> bool {
    &&& img2_ok(m.background, s3, 0, 320, 104, back_palette_spec(pal))
    &&& img4_ok(m.logo, s3, 0x2080, 632, 94, pal)
    &&& img4_ok(m.f1, s3, 0x9488, 120, 61, pal)
    &&& img4_ok(m.f2, s3, 0xa2d4, 120, 61, pal)
    &&& img4_ok(m.f3, s3, 0xb120, 120, 61, pal)
    &&& img4_ok(m.f4, s3, 0xdc04, 120, 61, pal)
    &&& img4_ok(m.level_rating, s3, 0xbf6c, 120, 61, pal)
    &&& img4_ok(m.exit_to_dos, s3, 0xcdb8, 120, 61, pal)
    &&& img4_ok(m.music_note, s3, 0xea50, 64, 31, pal)
    &&& img4_ok(m.fx, s3, 0xee30, 64, 31, pal)
    &&& anim_ok(m.blink1, s4, 0x0, 8, 32, 12, 4, pal)
    &&& anim_ok(m.blink2, s4, 0x600, 8, 32, 12, 4, pal)
    &&& anim_ok(m.blink3, s4, 0xc00, 8, 32, 12, 4, pal)
    &&& anim_ok(m.blink4, s4, 0x1200, 8, 32, 12, 4, pal)
    &&& anim_ok(m.blink5, s4, 0x1800, 8, 32, 12, 4, pal)
    &&& anim_ok(m.blink6, s4, 0x1e00, 8, 32, 12, 4, pal)
    &&& anim_ok(m.blink7, s4, 0x2400, 8, 32, 12, 4, pal)
    &&& anim_ok(m.left_scroller, s4, 0x2a00, 16, 48, 16, 4, pal)
    &&& anim_ok(m.right_scroller, s4, 0x4200, 16, 48, 16, 4, pal)
    &&& anim_ok(m.menu_font, s4, 0x69b0, 94, 16, 16, 3, pal)
    &&& img4_ok(m.reel, s4, 0x5a00, 16, 16, pal)
    &&& img4_ok(m.mayhem, s4, 0x5a80, 72, 27, back_palette_spec(pal))
    &&& img4_ok(m.taxing, s4, 0x5e4c, 72, 27, back_palette_spec(pal))
    &&& img4_ok(m.tricky, s4, 0x6218, 72, 27, back_palette_spec(pal))
    &&& img4_ok(m.fun, s4, 0x65e4, 72, 27, back_palette_spec(pal))
}

impl MainMenu {
    /// Decodes the main menu from the fourth and fifth sections of the
    /// main container.
    pub fn parse(section_3: &[u8], section_4: &[u8], palette: &[u32; 16]) -> (r: MainMenu)
        requires
            section_3@.len() >= 61968,
            section_3@.len() * 8 <= usize::MAX,
            section_4@.len() >= 36080,
            section_4@.len() * 8 <= usize::MAX,
        ensures
            main_menu_ok(r, section_3@, section_4@, palette@),
    {
        // entry 0 solid black rather than transparent, for the background
        let back_palette: [u32; 16] = [
            0xff000000,
            palette[1],
            palette[2],
            palette[3],
            palette[4],
            palette[5],
            palette[6],
            palette[7],
            palette[8],
            palette[9],
            palette[10],
            palette[11],
            palette[12],
            palette[13],
            palette[14],
            palette[15],
        ];
        proof {
            assert(back_palette@ =~= back_palette_spec(palette@));
        }
        let sub_bg = vstd::slice::slice_subrange(section_3, 0, section_3.len());
        proof {
            assert(sub_bg@ =~= section_3@.skip(0));
        }
        let background = Image::parse_2bpp(sub_bg, 320, 104, &back_palette);
        let sub = vstd::slice::slice_subrange(section_3, 0x2080, section_3.len());
        proof {
            assert(sub@ =~= section_3@.skip(0x2080));
        }
        let logo = Image::parse_4bpp(sub, 632, 94, palette);
        let sub = vstd::slice::slice_subrange(section_3, 0x9488, section_3.len());
        proof {
            assert(sub@ =~= section_3@.skip(0x9488));
        }
        let f1 = Image::parse_4bpp(sub, 120, 61, palette);
        let sub = vstd::slice::slice_subrange(section_3, 0xa2d4, section_3.len());
        proof {
            assert(sub@ =~= section_3@.skip(0xa2d4));
        }
        let f2 = Image::parse_4bpp(sub, 120, 61, palette);
        let sub = vstd::slice::slice_subrange(section_3, 0xb120, section_3.len());
        proof {
            assert(sub@ =~= section_3@.skip(0xb120));
        }
        let f3 = Image::parse_4bpp(sub, 120, 61, palette);
        let sub = vstd::slice::slice_subrange(section_3, 0xdc04, section_3.len());
        proof {
            assert(sub@ =~= section_3@.skip(0xdc04));
        }
        let f4 = Image::parse_4bpp(sub, 120, 61, palette);
        let sub = vstd::slice::slice_subrange(section_3, 0xbf6c, section_3.len());
        proof {
            assert(sub@ =~= section_3@.skip(0xbf6c));
        }
        let level_rating = Image::parse_4bpp(sub, 120, 61, palette);
        let sub = vstd::slice::slice_subrange(section_3, 0xcdb8, section_3.len());
        proof {
            assert(sub@ =~= section_3@.skip(0xcdb8));
        }
        let exit_to_dos = Image::parse_4bpp(sub, 120, 61, palette);
        let sub = vstd::slice::slice_subrange(section_3, 0xea50, section_3.len());
        proof {
            assert(sub@ =~= section_3@.skip(0xea50));
        }
        let music_note = Image::parse_4bpp(sub, 64, 31, palette);
        let sub = vstd::slice::slice_subrange(section_3, 0xee30, section_3.len());
        proof {
            assert(sub@ =~= section_3@.skip(0xee30));
        }
        let fx = Image::parse_4bpp(sub, 64, 31, palette);
        let sub = vstd::slice::slice_subrange(section_4, 0x0, section_4.len());
        proof {
            assert(sub@ =~= section_4@.skip(0x0));
        }
        let blink1 = Animation::parse(sub, 8, 32, 12, palette, 4);
        let sub = vstd::slice::slice_subrange(section_4, 0x600, section_4.len());
        proof {
            assert(sub@ =~= section_4@.skip(0x600));
        }
        let blink2 = Animation::parse(sub, 8, 32, 12, palette, 4);
        let sub = vstd::slice::slice_subrange(section_4, 0xc00, section_4.len());
        proof {
            assert(sub@ =~= section_4@.skip(0xc00));
        }
        let blink3 = Animation::parse(sub, 8, 32, 12, palette, 4);
        let sub = vstd::slice::slice_subrange(section_4, 0x1200, section_4.len());
        proof {
            assert(sub@ =~= section_4@.skip(0x1200));
        }
        let blink4 = Animation::parse(sub, 8, 32, 12, palette, 4);
        let sub = vstd::slice::slice_subrange(section_4, 0x1800, section_4.len());
        proof {
            assert(sub@ =~= section_4@.skip(0x1800));
        }
        let blink5 = Animation::parse(sub, 8, 32, 12, palette, 4);
        let sub = vstd::slice::slice_subrange(section_4, 0x1e00, section_4.len());
        proof {
            assert(sub@ =~= section_4@.skip(0x1e00));
        }
        let blink6 = Animation::parse(sub, 8, 32, 12, palette, 4);
        let sub = vstd::slice::slice_subrange(section_4, 0x2400, section_4.len());
        proof {
            assert(sub@ =~= section_4@.skip(0x2400));
        }
        let blink7 = Animation::parse(sub, 8, 32, 12, palette, 4);
        let sub = vstd::slice::slice_subrange(section_4, 0x2a00, section_4.len());
        proof {
            assert(sub@ =~= section_4@.skip(0x2a00));
        }
        let left_scroller = Animation::parse(sub, 16, 48, 16, palette, 4);
        let sub = vstd::slice::slice_subrange(section_4, 0x4200, section_4.len());
        proof {
            assert(sub@ =~= section_4@.skip(0x4200));
        }
        let right_scroller = Animation::parse(sub, 16, 48, 16, palette, 4);
        let sub = vstd::slice::slice_subrange(section_4, 0x69b0, section_4.len());
        proof {
            assert(sub@ =~= section_4@.skip(0x69b0));
        }
        let menu_font = Animation::parse(sub, 94, 16, 16, palette, 3);
        let sub = vstd::slice::slice_subrange(section_4, 0x5a00, section_4.len());
        proof {
            assert(sub@ =~= section_4@.skip(0x5a00));
        }
        let reel = Image::parse_4bpp(sub, 16, 16, palette);
        let sub = vstd::slice::slice_subrange(section_4, 0x5a80, section_4.len());
        proof {
            assert(sub@ =~= section_4@.skip(0x5a80));
        }
        let mayhem = Image::parse_4bpp(sub, 72, 27, &back_palette);
        let sub = vstd::slice::slice_subrange(section_4, 0x5e4c, section_4.len());
        proof {
            assert(sub@ =~= section_4@.skip(0x5e4c));
        }
        let taxing = Image::parse_4bpp(sub, 72, 27, &back_palette);
        let sub = vstd::slice::slice_subrange(section_4, 0x6218, section_4.len());
        proof {
            assert(sub@ =~= section_4@.skip(0x6218));
        }
        let tricky = Image::parse_4bpp(sub, 72, 27, &back_palette);
        let sub = vstd::slice::slice_subrange(section_4, 0x65e4, section_4.len());
        proof {
            assert(sub@ =~= section_4@.skip(0x65e4));
        }
        let fun = Image::parse_4bpp(sub, 72, 27, &back_palette);
        MainMenu {
            background,
            logo,
            f1,
            f2,
            f3,
            f4,
            level_rating,
            exit_to_dos,
            music_note,
            fx,
            blink1,
            blink2,
            blink3,
            blink4,
            blink5,
            blink6,
            blink7,
            left_scroller,
            right_scroller,
            reel,
            mayhem,
            taxing,
            tricky,
            fun,
            menu_font,
        }
    }
}

/// Every decoded piece of the main container, against its section's
/// bytes.
pub open spec fn main_dat_ok(m: MainDat, sections: Seq<Seq<u8>>) -> bool {
    &&& lemming_animations_ok(m.lemming_animations, sections[0], game_palette_spec())
    &&& masks_ok(m.masks, sections[1])
    &&& countdown_ok(m.countdown_numbers@, sections[1])
    &&& img4_ok(m.skill_panel_high_perf, sections[2], 0, 320, 40, game_palette_spec())
    &&& skill_digits_ok(m.skill_number_digits, sections[2])
    &&& game_font_ok(m.game_font_high_perf, sections[2].skip(0x19a0), game_palette_spec())
    &&& main_menu_ok(m.main_menu, sections[3], sections[4], menu_palette_spec())
    &&& img4_ok(m.skill_panel, sections[6], 0, 320, 40, game_palette_spec())
    &&& game_font_ok(m.game_font, sections[6].skip(0x1900), game_palette_spec())
}

/// How long each section must at least be for every documented offset to
/// lie inside it.
pub open spec fn main_dat_sections_fit(sections: Seq<Seq<u8>>) -> bool {
    &&& sections.len() >= 7 ==> {
        &&& sections[0].len() >= 21104
        &&& sections[1].len() >= 388
        &&& sections[2].len() >= 8384
        &&& sections[3].len() >= 61968
        &&& sections[4].len() >= 36080
        &&& sections[6].len() >= 8224
        &&& sections[0].len() * 8 <= usize::MAX
        &&& sections[1].len() * 8 <= usize::MAX
        &&& sections[2].len() * 8 <= usize::MAX
        &&& sections[3].len() * 8 <= usize::MAX
        &&& sections[4].len() * 8 <= usize::MAX
        &&& sections[6].len() * 8 <= usize::MAX
    }
}

impl MainDat {
    /// Decodes the main container's decompressed sections. Fails exactly
    /// when fewer than seven sections exist.
    pub fn parse(sections: &Vec<Vec<u8>>) -> (r: Result<MainDat, MainDatError>)
        requires
            main_dat_sections_fit(sections.deep_view()),
        ensures
            match r {
                Ok(m) => sections@.len() >= 7 && main_dat_ok(m, sections.deep_view()),
                Err(e) => sections@.len() < 7 && e == MainDatError::NotEnoughSections,
            },
    {
        if sections.len() < 7 {
            return Err(MainDatError::NotEnoughSections);
        }
        let ghost secs = sections.deep_view();
        proof {
            assert(secs[0] == sections@[0]@);
            assert(secs[1] == sections@[1]@);
            assert(secs[2] == sections@[2]@);
            assert(secs[3] == sections@[3]@);
            assert(secs[4] == sections@[4]@);
            assert(secs[6] == sections@[6]@);
        }
        let menu_pal = menu_palette();
        let game_pal = game_palette();
        let lemming_animations = LemmingAnimations::parse(sections[0].as_slice(), &game_pal);
        let masks = Masks::parse(sections[1].as_slice());
        let countdown_numbers = parse_countdown_numbers(sections[1].as_slice());
        let skill_panel_high_perf = Image::parse_4bpp(
            vstd::slice::slice_subrange(sections[2].as_slice(), 0, sections[2].len()),
            320,
            40,
            &game_pal,
        );
        proof {
            assert(secs[2].skip(0) =~= secs[2]);
        }
        let skill_number_digits = SkillNumberDigits::parse(sections[2].as_slice());
        let font_sub = vstd::slice::slice_subrange(sections[2].as_slice(), 0x19a0, sections[2].len());
        proof {
            assert(font_sub@ =~= secs[2].skip(0x19a0));
        }
        let game_font_high_perf = GameFont::parse(font_sub, &game_pal);
        let main_menu = MainMenu::parse(sections[3].as_slice(), sections[4].as_slice(), &menu_pal);
        let skill_panel = Image::parse_4bpp(
            vstd::slice::slice_subrange(sections[6].as_slice(), 0, sections[6].len()),
            320,
            40,
            &game_pal,
        );
        proof {
            assert(secs[6].skip(0) =~= secs[6]);
        }
        let font_sub_6 = vstd::slice::slice_subrange(sections[6].as_slice(), 0x1900, sections[6].len());
        proof {
            assert(font_sub_6@ =~= secs[6].skip(0x1900));
        }
        let game_font = GameFont::parse(font_sub_6, &game_pal);
        Ok(
            MainDat {
                lemming_animations,
                masks,
                countdown_numbers,
                skill_panel_high_perf,
                skill_number_digits,
                game_font_high_perf,
                main_menu,
                skill_panel,
                game_font,
            },
        )
    }
}

} // verus!
