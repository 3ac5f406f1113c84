//! Composites one level into a static image: a background canvas sized
//! from the placed terrain, the terrain pieces blitted in order, then the
//! objects' first animation frames.

use vstd::prelude::*;
use std::collections::HashMap;
use crate::grounds_loader::GroundWithImages;
use crate::ground::TerrainInfo;
use crate::image::{Animation, Image};
use crate::level::{Level, ObjectEntry, TerrainEntry};

verus! {

/// Width of the pre-rendered special backdrops.
pub const SPECIAL_WIDTH: usize = 960;

/// Where the special backdrop starts on the horizontal axis.
pub const SPECIAL_LEFT_X: i64 = 320;

/// The colour of bare background; terrain rules compare against it.
pub const LEVEL_BACKGROUND: u32 = 0x000000ff;

/// Every level is this many pixels tall.
pub const LEVEL_HEIGHT: usize = 160;

/// How one sprite pixel lands on one canvas pixel: removal paints
/// background wherever the sprite is solid; otherwise the no-overwrite and
/// needs-terrain rules may keep the old pixel, and a solid sprite pixel
/// replaces it.
pub open spec fn blend_pixel(
    old_pix: u32,
    sprite_pix: u32,
    do_not_overwrite: bool,
    remove: bool,
    needs_terrain: bool,
) -> u32 {
    if remove {
        if sprite_pix != 0 {
            LEVEL_BACKGROUND
        } else {
            old_pix
        }
    } else if do_not_overwrite && old_pix != LEVEL_BACKGROUND {
        old_pix
    } else if needs_terrain && old_pix == LEVEL_BACKGROUND {
        old_pix
    } else if sprite_pix != 0 {
        sprite_pix
    } else {
        old_pix
    }
}

/// Which sprite row feeds canvas row `py` of the sprite's extent.
pub open spec fn sprite_row(sh: int, upside_down: bool, py: int) -> int {
    if upside_down {
        sh - 1 - py
    } else {
        py
    }
}

/// The canvas pixel at `idx` after one sprite is drawn at `(x, y)`.
pub open spec fn draw_pixel(
    canvas: Seq<u32>,
    sprite: Seq<u32>,
    sw: int,
    sh: int,
    x: int,
    y: int,
    cw: int,
    do_not_overwrite: bool,
    upside_down: bool,
    remove: bool,
    needs_terrain: bool,
    idx: int,
) -> u32 {
    let py = idx / cw - y;
    let px = idx % cw - x;
    if 0 <= py < sh && 0 <= px < sw {
        blend_pixel(
            canvas[idx],
            sprite[sprite_row(sh, upside_down, py) * sw + px],
            do_not_overwrite,
            remove,
            needs_terrain,
        )
    } else {
        canvas[idx]
    }
}

/// The whole canvas after one sprite is drawn.
pub open spec fn draw_spec(
    canvas: Seq<u32>,
    sprite: Seq<u32>,
    sw: int,
    sh: int,
    x: int,
    y: int,
    cw: int,
    do_not_overwrite: bool,
    upside_down: bool,
    remove: bool,
    needs_terrain: bool,
) -> Seq<u32> {
    Seq::new(
        canvas.len(),
        |idx: int|
            draw_pixel(
                canvas,
                sprite,
                sw,
                sh,
                x,
                y,
                cw,
                do_not_overwrite,
                upside_down,
                remove,
                needs_terrain,
                idx,
            ),
    )
}

/// The canvas after the sprite's rows below `py_done`, and of row
/// `py_done` the columns below `px_done`, have been drawn.
spec fn draw_upto(
    canvas: Seq<u32>,
    sprite: Seq<u32>,
    sw: int,
    sh: int,
    x: int,
    y: int,
    cw: int,
    do_not_overwrite: bool,
    upside_down: bool,
    remove: bool,
    needs_terrain: bool,
    py_done: int,
    px_done: int,
) -> Seq<u32> {
    Seq::new(
        canvas.len(),
        |idx: int|
            {
                let py = idx / cw - y;
                let px = idx % cw - x;
                if 0 <= py < sh && 0 <= px < sw && (py < py_done || (py == py_done && px
                    < px_done)) {
                    blend_pixel(
                        canvas[idx],
                        sprite[sprite_row(sh, upside_down, py) * sw + px],
                        do_not_overwrite,
                        remove,
                        needs_terrain,
                    )
                } else {
                    canvas[idx]
                }
            },
    )
}

/// Indices of a `cw` by `ch` canvas split exactly into row and column.
proof fn lemma_grid(cw: int, ch: int, idx: int)
    requires
        cw > 0,
        0 <= idx < cw * ch,
    ensures
        0 <= idx / cw < ch,
        0 <= idx % cw < cw,
        idx == cw * (idx / cw) + (idx % cw),
{
    vstd::arithmetic::div_mod::lemma_fundamental_div_mod(idx, cw);
    vstd::arithmetic::div_mod::lemma_mod_bound(idx, cw);
    assert(0 <= idx / cw < ch) by (nonlinear_arith)
        requires
            cw > 0,
            0 <= idx < cw * ch,
            idx == cw * (idx / cw) + (idx % cw),
            0 <= idx % cw < cw,
    ;
}

/// A row and column pair maps back to its canvas index.
proof fn lemma_rowcol(cw: int, cy: int, cx: int)
    requires
        cw > 0,
        0 <= cy,
        0 <= cx < cw,
    ensures
        (cy * cw + cx) / cw == cy,
        (cy * cw + cx) % cw == cx,
{
    vstd::arithmetic::div_mod::lemma_fundamental_div_mod_converse(cy * cw + cx, cw, cy, cx);
}

/// The canvas index of row `cy`, column `cx` lies inside the canvas.
proof fn lemma_rowcol_bound(cw: int, ch: int, cy: int, cx: int)
    requires
        cw > 0,
        0 <= cy < ch,
        0 <= cx < cw,
    ensures
        0 <= cy * cw + cx < cw * ch,
{
    assert(0 <= cy * cw + cx < cw * ch) by (nonlinear_arith)
        requires
            cw > 0,
            0 <= cy < ch,
            0 <= cx < cw,
    ;
}

/// Blits one sprite onto the canvas at `(x, y)`, clipping at the canvas
/// edges, per the blending rules of `blend_pixel`; an upside-down sprite
/// reads its rows bottom up.
#[verifier::rlimit(60)]
fn draw(
    sprite: &Vec<u32>,
    sprite_width: usize,
    sprite_height: usize,
    x: i64,
    y: i64,
    canvas: &mut Vec<u32>,
    canvas_width: usize,
    canvas_height: usize,
    do_not_overwrite_existing_terrain: bool,
    is_upside_down: bool,
    remove_terrain: bool,
    must_have_terrain_underneath_to_be_visible: bool,
)
    requires
        sprite@.len() == sprite_width * sprite_height,
        old(canvas)@.len() == canvas_width * canvas_height,
        sprite_width <= i64::MAX,
        sprite_height <= i64::MAX,
        canvas_width <= i64::MAX,
        canvas_height <= i64::MAX,
        x + sprite_width <= i64::MAX,
        y + sprite_height <= i64::MAX,
    ensures
        final(canvas)@ == draw_spec(
            old(canvas)@,
            sprite@,
            sprite_width as int,
            sprite_height as int,
            x as int,
            y as int,
            canvas_width as int,
            do_not_overwrite_existing_terrain,
            is_upside_down,
            remove_terrain,
            must_have_terrain_underneath_to_be_visible,
        ),
{
    let ghost canvas0 = old(canvas)@;
    proof {
        assert(sprite@.len() == sprite.len());
        assert(old(canvas)@.len() == old(canvas).len());
    }
    let ghost sw = sprite_width as int;
    let ghost sh = sprite_height as int;
    let ghost cw = canvas_width as int;
    let ghost ch = canvas_height as int;
    let mut py: usize = 0;
    while py < sprite_height
        invariant
            py <= sprite_height,
            sprite@.len() == sprite_width * sprite_height,
            sprite@.len() <= usize::MAX,
            canvas0.len() <= usize::MAX,
            canvas@.len() == canvas0.len(),
            canvas0.len() == canvas_width * canvas_height,
            sw == sprite_width as int,
            sh == sprite_height as int,
            cw == canvas_width as int,
            ch == canvas_height as int,
            sprite_width <= i64::MAX,
            sprite_height <= i64::MAX,
            canvas_width <= i64::MAX,
            canvas_height <= i64::MAX,
            x + sprite_width <= i64::MAX,
            y + sprite_height <= i64::MAX,
            canvas@ == draw_upto(
                canvas0,
                sprite@,
                sw,
                sh,
                x as int,
                y as int,
                cw,
                do_not_overwrite_existing_terrain,
                is_upside_down,
                remove_terrain,
                must_have_terrain_underneath_to_be_visible,
                py as int,
                0,
            ),
        decreases sprite_height - py,
    {
        let cy = y + (py as i64);
        if cy < 0 || cy >= (canvas_height as i64) {
            // the whole row lies outside the canvas
            proof {
                assert forall|idx: int| #![trigger canvas0[idx]] 0 <= idx < canvas0.len()
                    implies idx / cw - (y as int) != py as int by {
                    lemma_grid(cw, ch, idx);
                }
                assert(draw_upto(
                    canvas0,
                    sprite@,
                    sw,
                    sh,
                    x as int,
                    y as int,
                    cw,
                    do_not_overwrite_existing_terrain,
                    is_upside_down,
                    remove_terrain,
                    must_have_terrain_underneath_to_be_visible,
                    py as int,
                    0,
                ) =~= draw_upto(
                    canvas0,
                    sprite@,
                    sw,
                    sh,
                    x as int,
                    y as int,
                    cw,
                    do_not_overwrite_existing_terrain,
                    is_upside_down,
                    remove_terrain,
                    must_have_terrain_underneath_to_be_visible,
                    py as int + 1,
                    0,
                ));
            }
            py = py + 1;
            continue ;
        }
        let mut px: usize = 0;
        while px < sprite_width
            invariant
                px <= sprite_width,
                py < sprite_height,
                sprite@.len() == sprite_width * sprite_height,
                sprite@.len() <= usize::MAX,
                canvas0.len() <= usize::MAX,
                canvas@.len() == canvas0.len(),
                canvas0.len() == canvas_width * canvas_height,
                sw == sprite_width as int,
                sh == sprite_height as int,
                cw == canvas_width as int,
                ch == canvas_height as int,
                sprite_width <= i64::MAX,
                sprite_height <= i64::MAX,
                canvas_width <= i64::MAX,
                canvas_height <= i64::MAX,
                x + sprite_width <= i64::MAX,
                y + sprite_height <= i64::MAX,
                cy == y + py as i64,
                0 <= cy < ch,
                canvas@ == draw_upto(
                    canvas0,
                    sprite@,
                    sw,
                    sh,
                    x as int,
                    y as int,
                    cw,
                    do_not_overwrite_existing_terrain,
                    is_upside_down,
                    remove_terrain,
                    must_have_terrain_underneath_to_be_visible,
                    py as int,
                    px as int,
                ),
            decreases sprite_width - px,
        {
            let ghost pre = canvas@;
            let cx = x + (px as i64);
            if cx < 0 || cx >= (canvas_width as i64) {
                // this column lies outside the canvas
                proof {
                    assert forall|idx: int| #![trigger canvas0[idx]] 0 <= idx < canvas0.len()
                        implies !(idx / cw - (y as int) == py as int && idx % cw - (x as int)
                        == px as int) by {
                        lemma_grid(cw, ch, idx);
                    }
                    assert(pre =~= draw_upto(
                        canvas0,
                        sprite@,
                        sw,
                        sh,
                        x as int,
                        y as int,
                        cw,
                        do_not_overwrite_existing_terrain,
                        is_upside_down,
                        remove_terrain,
                        must_have_terrain_underneath_to_be_visible,
                        py as int,
                        px as int + 1,
                    ));
                }
                px = px + 1;
                continue ;
            }
            let row: usize = if is_upside_down {
                sprite_height - 1 - py
            } else {
                py
            };
            proof {
                lemma_rowcol_bound(sw, sh, row as int, px as int);
                lemma_rowcol_bound(cw, ch, cy as int, cx as int);
                lemma_rowcol(cw, cy as int, cx as int);
            }
            let sprite_pix = sprite[row * sprite_width + px];
            let ci = (cy as usize) * canvas_width + (cx as usize);
            let old_pix = canvas[ci];
            let blended: u32 = if remove_terrain {
                if sprite_pix != 0 {
                    LEVEL_BACKGROUND
                } else {
                    old_pix
                }
            } else if do_not_overwrite_existing_terrain && old_pix != LEVEL_BACKGROUND {
                old_pix
            } else if must_have_terrain_underneath_to_be_visible && old_pix == LEVEL_BACKGROUND {
                old_pix
            } else if sprite_pix != 0 {
                sprite_pix
            } else {
                old_pix
            };
            canvas[ci] = blended;
            proof {
                assert forall|idx: int| #![trigger canvas0[idx]] 0 <= idx < canvas0.len() && idx
                    != ci implies !(idx / cw - (y as int) == py as int && idx % cw - (x as int)
                    == px as int) by {
                    lemma_grid(cw, ch, idx);
                    if idx / cw - (y as int) == py as int && idx % cw - (x as int) == px as int {
                        assert(idx / cw == cy as int);
                        assert(idx % cw == cx as int);
                        assert(idx == cw * (cy as int) + (cx as int));
                        assert(ci == (cy as int) * cw + (cx as int));
                        vstd::arithmetic::mul::lemma_mul_is_commutative(cw, cy as int);
                        assert(false);
                    }
                }
                assert(pre[ci as int] == canvas0[ci as int]);
                assert(canvas@ =~= draw_upto(
                    canvas0,
                    sprite@,
                    sw,
                    sh,
                    x as int,
                    y as int,
                    cw,
                    do_not_overwrite_existing_terrain,
                    is_upside_down,
                    remove_terrain,
                    must_have_terrain_underneath_to_be_visible,
                    py as int,
                    px as int + 1,
                ));
            }
            px = px + 1;
        }
        proof {
            assert(canvas@ =~= draw_upto(
                canvas0,
                sprite@,
                sw,
                sh,
                x as int,
                y as int,
                cw,
                do_not_overwrite_existing_terrain,
                is_upside_down,
                remove_terrain,
                must_have_terrain_underneath_to_be_visible,
                py as int + 1,
                0,
            ));
        }
        py = py + 1;
    }
    proof {
        assert(canvas@ =~= draw_spec(
            canvas0,
            sprite@,
            sw,
            sh,
            x as int,
            y as int,
            cw,
            do_not_overwrite_existing_terrain,
            is_upside_down,
            remove_terrain,
            must_have_terrain_underneath_to_be_visible,
        ));
    }
}

/// The horizontal extent a level occupies: the leftmost terrain x and the
/// rightmost terrain x plus that piece's width, or the fixed extent of a
/// special backdrop.
struct LevelSize {
    min_x: i64,
    max_x: i64,
}

/// The least x among the first `n` terrain entries.
pub open spec fn terrain_min_x(ts: Seq<TerrainEntry>, n: int) -> int
    decreases n,
{
    if n <= 0 {
        i64::MAX as int
    } else {
        let prev = terrain_min_x(ts, n - 1);
        if ts[n - 1].x < prev {
            ts[n - 1].x as int
        } else {
            prev
        }
    }
}

/// The greatest x plus piece width among the first `n` terrain entries,
/// widths taken from the ground's terrain records.
pub open spec fn terrain_max_x(ts: Seq<TerrainEntry>, infos: Seq<TerrainInfo>, n: int) -> int
    decreases n,
{
    if n <= 0 {
        i64::MIN as int
    } else {
        let prev = terrain_max_x(ts, infos, n - 1);
        let v = ts[n - 1].x + infos[ts[n - 1].terrain_id as int].width;
        if v > prev {
            v
        } else {
            prev
        }
    }
}

/// With at least one terrain entry, the extent is a non-empty range of
/// 32-bit-sized coordinates.
proof fn lemma_extent_bounds(ts: Seq<TerrainEntry>, infos: Seq<TerrainInfo>, n: int)
    requires
        1 <= n <= ts.len(),
        infos.len() == 64,
        forall|i: int| 0 <= i < 64 ==> (#[trigger] infos[i]).width <= 255,
        forall|i: int| 0 <= i < n ==> (#[trigger] ts[i]).terrain_id < 64,
    ensures
        -0x8000_0000 <= terrain_min_x(ts, n),
        terrain_min_x(ts, n) <= terrain_max_x(ts, infos, n),
        terrain_max_x(ts, infos, n) <= 0x1_0000_0100,
    decreases n,
{
    if n == 1 {
        assert(terrain_min_x(ts, 0) == i64::MAX as int);
        assert(terrain_max_x(ts, infos, 0) == i64::MIN as int);
    } else {
        lemma_extent_bounds(ts, infos, n - 1);
    }
}

impl LevelSize {
    fn width(&self) -> (r: i64)
        requires
            -0x8000_0000 <= self.min_x <= self.max_x <= 0x1_0000_0100,
        ensures
            r == self.max_x - self.min_x,
    {
        self.max_x - self.min_x
    }

    fn from_level(level: &Level, grounds: &HashMap<u32, GroundWithImages>) -> (r: LevelSize)
        requires
            level.globals.extended_graphic_set == 0 ==> {
                let key = level.globals.normal_graphic_set as u32;
                &&& grounds@.contains_key(key)
                &&& grounds@[key].ground.wf()
                &&& level.terrain@.len() > 0
                &&& forall|i: int|
                    0 <= i < level.terrain@.len() ==> (#[trigger] level.terrain@[i]).terrain_id
                        < 64
            },
        ensures
            level.globals.extended_graphic_set != 0 ==> r.min_x == SPECIAL_LEFT_X && r.max_x
                == SPECIAL_LEFT_X + SPECIAL_WIDTH,
            level.globals.extended_graphic_set == 0 ==> r.min_x == terrain_min_x(
                level.terrain@,
                level.terrain@.len() as int,
            ) && r.max_x == terrain_max_x(
                level.terrain@,
                grounds@[level.globals.normal_graphic_set as u32].ground.terrain_info@,
                level.terrain@.len() as int,
            ),
            -0x8000_0000 <= r.min_x <= r.max_x <= 0x1_0000_0100,
    {
        if level.globals.extended_graphic_set != 0 {
            return LevelSize {
                min_x: SPECIAL_LEFT_X,
                max_x: SPECIAL_LEFT_X + (SPECIAL_WIDTH as i64),
            };
        }
        let key: u32 = level.globals.normal_graphic_set as u32;
        let gwi = match grounds.get(&key) {
            Some(g) => g,
            None => vstd::pervasive::unreached(),
        };
        let ghost ts = level.terrain@;
        let ghost infos = gwi.ground.terrain_info@;
        let mut min_x: i64 = i64::MAX;
        let mut max_x: i64 = i64::MIN;
        let mut i: usize = 0;
        while i < level.terrain.len()
            invariant
                i <= ts.len(),
                ts == level.terrain@,
                infos == gwi.ground.terrain_info@,
                gwi.ground.wf(),
                forall|k: int| 0 <= k < ts.len() ==> (#[trigger] ts[k]).terrain_id < 64,
                min_x == terrain_min_x(ts, i as int),
                max_x == terrain_max_x(ts, infos, i as int),
            decreases ts.len() - i,
        {
            let t = level.terrain[i];
            let w = gwi.ground.terrain_info[t.terrain_id].width;
            let xv = t.x as i64;
            if xv < min_x {
                min_x = xv;
            }
            let xe = (t.x as i64) + (w as i64);
            if xe > max_x {
                max_x = xe;
            }
            i = i + 1;
        }
        proof {
            lemma_extent_bounds(ts, infos, ts.len() as int);
        }
        LevelSize { min_x, max_x }
    }
}

/// A bare canvas of `pixels` background pixels.
pub open spec fn background_canvas(pixels: nat) -> Seq<u32> {
    Seq::new(pixels, |i: int| LEVEL_BACKGROUND)
}

/// The canvas after the first `n` terrain entries have been drawn, each
/// shifted left by `min_x`.
pub open spec fn terrain_pass(
    canvas: Seq<u32>,
    ts: Seq<TerrainEntry>,
    imgs: Map<usize, Image>,
    min_x: int,
    cw: int,
    n: int,
) -> Seq<u32>
    decreases n,
{
    if n <= 0 {
        canvas
    } else {
        let prev = terrain_pass(canvas, ts, imgs, min_x, cw, n - 1);
        let t = ts[n - 1];
        let img = imgs[t.terrain_id];
        draw_spec(
            prev,
            img.bitmap@,
            img.width as int,
            img.height as int,
            t.x - min_x,
            t.y as int,
            cw,
            t.do_not_overwrite_existing_terrain,
            t.is_upside_down,
            t.remove_terrain,
            false,
        )
    }
}

/// The canvas after the first `n` objects' first frames have been drawn.
pub open spec fn objects_pass(
    canvas: Seq<u32>,
    os: Seq<ObjectEntry>,
    anims: Map<usize, Animation>,
    min_x: int,
    cw: int,
    n: int,
) -> Seq<u32>
    decreases n,
{
    if n <= 0 {
        canvas
    } else {
        let prev = objects_pass(canvas, os, anims, min_x, cw, n - 1);
        let o = os[n - 1];
        let a = anims[o.obj_id];
        draw_spec(
            prev,
            a.frames@[0]@,
            a.width as int,
            a.height as int,
            o.x - min_x,
            o.y as int,
            cw,
            o.modifier.do_not_overwrite_existing_terrain,
            o.is_upside_down,
            false,
            o.modifier.must_have_terrain_underneath_to_be_visible,
        )
    }
}

/// A sprite whose pixel buffer matches its declared size and whose
/// dimensions fit 32 bits.
pub open spec fn image_wf(img: Image) -> bool {
    &&& img.bitmap@.len() == img.width * img.height
    &&& img.width < 0x8000_0000
    &&& img.height < 0x8000_0000
}

/// An animation with at least one frame of its declared size.
pub open spec fn anim_first_frame_wf(a: Animation) -> bool {
    &&& a.frames@.len() >= 1
    &&& a.frames@[0]@.len() == a.width * a.height
    &&& a.width < 0x8000_0000
    &&& a.height < 0x8000_0000
}

/// A terrain entry the renderer can place: its record index and sprite
/// exist in the ground.
pub open spec fn terrain_entry_ok(t: TerrainEntry, g: GroundWithImages) -> bool {
    &&& t.terrain_id < 64
    &&& g.terrain@.contains_key(t.terrain_id)
    &&& image_wf(g.terrain@[t.terrain_id])
}

/// An object entry the renderer can place.
pub open spec fn object_entry_ok(o: ObjectEntry, g: GroundWithImages) -> bool {
    &&& g.objects@.contains_key(o.obj_id)
    &&& anim_first_frame_wf(g.objects@[o.obj_id])
}

/// What `render` asks of its inputs: the level's ground is present and
/// well formed, every placed piece and object has its sprite, and the
/// resulting canvas fits the address space.
pub open spec fn render_requires(level: Level, grounds: Map<u32, GroundWithImages>) -> bool {
    let key = level.globals.normal_graphic_set as u32;
    &&& grounds.contains_key(key)
    &&& grounds[key].ground.wf()
    &&& (level.globals.extended_graphic_set == 0 ==> {
        &&& level.terrain@.len() > 0
        &&& (forall|i: int|
            0 <= i < level.terrain@.len() ==> terrain_entry_ok(
                #[trigger] level.terrain@[i],
                grounds[key],
            ))
        &&& (terrain_max_x(
            level.terrain@,
            grounds[key].ground.terrain_info@,
            level.terrain@.len() as int,
        ) - terrain_min_x(level.terrain@, level.terrain@.len() as int)) * (LEVEL_HEIGHT as int)
            <= usize::MAX
    })
    &&& forall|i: int|
        0 <= i < level.objects@.len() ==> object_entry_ok(#[trigger] level.objects@[i], grounds[key])
}

/// The canvas `render` produces: background, then the terrain pass (unless
/// a special backdrop level), then the object pass.
pub open spec fn render_spec(level: Level, grounds: Map<u32, GroundWithImages>) -> Seq<u32> {
    let key = level.globals.normal_graphic_set as u32;
    let gwi = grounds[key];
    let minx = if level.globals.extended_graphic_set != 0 {
        SPECIAL_LEFT_X as int
    } else {
        terrain_min_x(level.terrain@, level.terrain@.len() as int)
    };
    let maxx = if level.globals.extended_graphic_set != 0 {
        SPECIAL_LEFT_X + SPECIAL_WIDTH
    } else {
        terrain_max_x(level.terrain@, gwi.ground.terrain_info@, level.terrain@.len() as int)
    };
    let w = maxx - minx;
    let bg = background_canvas((w * LEVEL_HEIGHT) as nat);
    let base = if level.globals.extended_graphic_set == 0 {
        terrain_pass(bg, level.terrain@, gwi.terrain@, minx, w, level.terrain@.len() as int)
    } else {
        bg
    };
    objects_pass(base, level.objects@, gwi.objects@, minx, w, level.objects@.len() as int)
}

/// A vector of `n` copies of one pixel value.
fn filled(n: usize, v: u32) -> (r: Vec<u32>)
    ensures
        r@ == Seq::new(n as nat, |i: int| v),
{
    let mut r: Vec<u32> = Vec::new();
    let mut i: usize = 0;
    while i < n
        invariant
            i <= n,
            r@.len() == i,
            forall|j: int| 0 <= j < i ==> r@[j] == v,
        decreases n - i,
    {
        r.push(v);
        i = i + 1;
    }
    proof {
        assert(r@ =~= Seq::new(n as nat, |i: int| v));
    }
    r
}

/// Composites one level over its ground's sprites into a static image the
/// height of every level and as wide as its terrain extent (or the fixed
/// special-backdrop extent).
pub fn render(level: &Level, grounds: &HashMap<u32, GroundWithImages>) -> (r: Image)
    requires
        render_requires(*level, grounds@),
    ensures
        r.height == LEVEL_HEIGHT,
        r.bitmap@ == render_spec(*level, grounds@),
        level.globals.extended_graphic_set != 0 ==> r.width == SPECIAL_WIDTH,
        level.globals.extended_graphic_set == 0 ==> r.width == terrain_max_x(
            level.terrain@,
            grounds@[level.globals.normal_graphic_set as u32].ground.terrain_info@,
            level.terrain@.len() as int,
        ) - terrain_min_x(level.terrain@, level.terrain@.len() as int),
{
    let size = LevelSize::from_level(level, grounds);
    let width = size.width();
    let ghost w = width as int;
    let height: usize = LEVEL_HEIGHT;
    proof {
        if level.globals.extended_graphic_set == 0 {
            assert(w * (LEVEL_HEIGHT as int) <= usize::MAX);
        } else {
            assert(w == 960);
        }
        assert(w <= w * (LEVEL_HEIGHT as int)) by (nonlinear_arith)
            requires
                0 <= w,
        ;
    }
    let width_px: usize = width as usize;
    let pixels: usize = width_px * height;
    let mut bitmap = filled(pixels, LEVEL_BACKGROUND);
    let key: u32 = level.globals.normal_graphic_set as u32;
    let gwi = match grounds.get(&key) {
        Some(g) => g,
        None => vstd::pervasive::unreached(),
    };
    let ghost bg = background_canvas((w * LEVEL_HEIGHT) as nat);
    proof {
        assert(bitmap@ =~= bg);
    }
    if level.globals.extended_graphic_set == 0 {
        let ghost ts = level.terrain@;
        let mut i: usize = 0;
        while i < level.terrain.len()
            invariant
                i <= ts.len(),
                ts == level.terrain@,
                render_requires(*level, grounds@),
                level.globals.extended_graphic_set == 0,
                key == level.globals.normal_graphic_set as u32,
                grounds@.contains_key(key),
                *gwi == grounds@[key],
                size.min_x == terrain_min_x(ts, ts.len() as int),
                -0x8000_0000 <= size.min_x <= size.max_x <= 0x1_0000_0100,
                w == size.max_x - size.min_x,
                width_px == w,
                bitmap@.len() == width_px * height,
                height == LEVEL_HEIGHT,
                bitmap@ == terrain_pass(bg, ts, gwi.terrain@, size.min_x as int, w, i as int),
            decreases ts.len() - i,
        {
            let t = level.terrain[i];
            proof {
                assert(terrain_entry_ok(ts[i as int], grounds@[key]));
            }
            let sprite = match gwi.terrain.get(&t.terrain_id) {
                Some(s) => s,
                None => vstd::pervasive::unreached(),
            };
            draw(
                &sprite.bitmap,
                sprite.width,
                sprite.height,
                (t.x as i64) - size.min_x,
                t.y as i64,
                &mut bitmap,
                width_px,
                height,
                t.do_not_overwrite_existing_terrain,
                t.is_upside_down,
                t.remove_terrain,
                false,
            );
            i = i + 1;
        }
    }
    let ghost base = bitmap@;
    let ghost os = level.objects@;
    let mut i: usize = 0;
    while i < level.objects.len()
        invariant
            i <= os.len(),
            os == level.objects@,
            render_requires(*level, grounds@),
            key == level.globals.normal_graphic_set as u32,
            grounds@.contains_key(key),
            *gwi == grounds@[key],
            -0x8000_0000 <= size.min_x <= size.max_x <= 0x1_0000_0100,
            w == size.max_x - size.min_x,
            width_px == w,
            bitmap@.len() == width_px * height,
            height == LEVEL_HEIGHT,
            base.len() == width_px * height,
            bitmap@ == objects_pass(base, os, gwi.objects@, size.min_x as int, w, i as int),
        decreases os.len() - i,
    {
        let o = level.objects[i];
        proof {
            assert(object_entry_ok(os[i as int], grounds@[key]));
        }
        let anim = match gwi.objects.get(&o.obj_id) {
            Some(a) => a,
            None => vstd::pervasive::unreached(),
        };
        let frame = &anim.frames[0];
        draw(
            frame,
            anim.width,
            anim.height,
            (o.x as i64) - size.min_x,
            o.y as i64,
            &mut bitmap,
            width_px,
            height,
            o.modifier.is_do_not_overwrite_existing_terrain(),
            o.is_upside_down,
            false,
            o.modifier.is_must_have_terrain_underneath_to_be_visible(),
        );
        i = i + 1;
    }
    Image { bitmap, width: width_px, height }
}

} // verus!
