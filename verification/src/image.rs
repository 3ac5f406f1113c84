//! Bitplane image decoding. A sprite of `width * height` pixels is stored
//! as `bpp` consecutive one-bit planes, each plane one bit per pixel in
//! most-significant-first byte order; the planes combine into a palette
//! index per pixel, plane `k` contributing bit `k`.

use vstd::prelude::*;
use crate::bit_iter_ms_first::{iterate, msb_bits};

verus! {

/// A decoded static image: one RGBA word per pixel, row by row.
pub struct Image {
    pub bitmap: Vec<u32>,
    pub width: usize,
    pub height: usize,
}

/// A decoded animation: one bitmap per frame, all of one size.
pub struct Animation {
    pub frames: Vec<Vec<u32>>,
    pub width: usize,
    pub height: usize,
}

/// A one-bit-per-pixel stencil: 1 takes a pixel out, 0 leaves it alone.
pub struct Mask {
    pub frames: Vec<Vec<u8>>,
    pub width: usize,
    pub height: usize,
}

pub proof fn lemma_msb_bits_le_1(data: Seq<u8>, k: int)
    requires
        0 <= k < data.len() * 8,
    ensures
        msb_bits(data)[k] <= 1,
{
    let b = data[k / 8];
    let sh = (7 - k % 8) as u8;
    assert(sh < 8);
    assert((b >> sh) & 1 <= 1) by (bit_vector);
}

/// The palette index of pixel `i` in a two-plane sprite whose planes start
/// at bit `off`, each `pixels` bits long.
pub open spec fn colour_index_2bpp(bits: Seq<u8>, off: int, pixels: int, i: int) -> int {
    bits[off + i] + 2 * bits[off + pixels + i]
}

/// The palette index of pixel `i` in a three-plane sprite.
pub open spec fn colour_index_3bpp(bits: Seq<u8>, off: int, pixels: int, i: int) -> int {
    bits[off + i] + 2 * bits[off + pixels + i] + 4 * bits[off + 2 * pixels + i]
}

/// The palette index of pixel `i` in a four-plane sprite.
pub open spec fn colour_index_4bpp(bits: Seq<u8>, off: int, pixels: int, i: int) -> int {
    bits[off + i] + 2 * bits[off + pixels + i] + 4 * bits[off + 2 * pixels + i] + 8 * bits[off + 3
        * pixels + i]
}

/// A decoded single-plane frame: bit 0 is transparent, bit 1 white.
pub open spec fn frame_1bpp_ok(fr: Seq<u32>, data: Seq<u8>, w: int, h: int, off: int) -> bool {
    &&& fr.len() == w * h
    &&& forall|i: int|
        0 <= i < w * h ==> fr[i] == (if msb_bits(data)[off + i] == 0 {
            0u32
        } else {
            0xffffffffu32
        })
}

/// A decoded two-plane frame against a sixteen-entry palette.
pub open spec fn frame_2bpp_ok(
    fr: Seq<u32>,
    data: Seq<u8>,
    w: int,
    h: int,
    off: int,
    pal: Seq<u32>,
) -> bool {
    &&& fr.len() == w * h
    &&& forall|i: int|
        0 <= i < w * h ==> fr[i] == pal[colour_index_2bpp(msb_bits(data), off, w * h, i)]
}

/// A decoded three-plane frame against a sixteen-entry palette.
pub open spec fn frame_3bpp_ok(
    fr: Seq<u32>,
    data: Seq<u8>,
    w: int,
    h: int,
    off: int,
    pal: Seq<u32>,
) -> bool {
    &&& fr.len() == w * h
    &&& forall|i: int|
        0 <= i < w * h ==> fr[i] == pal[colour_index_3bpp(msb_bits(data), off, w * h, i)]
}

/// A decoded four-plane frame against a sixteen-entry palette.
pub open spec fn frame_4bpp_ok(
    fr: Seq<u32>,
    data: Seq<u8>,
    w: int,
    h: int,
    off: int,
    pal: Seq<u32>,
) -> bool {
    &&& fr.len() == w * h
    &&& forall|i: int|
        0 <= i < w * h ==> fr[i] == pal[colour_index_4bpp(msb_bits(data), off, w * h, i)]
}

/// A decoded four-plane frame with its transparency mask: a zero mask bit
/// blanks the pixel, byte offsets `image_loc` and `mask_loc` locate the
/// planes and the mask inside `data`.
pub open spec fn frame_4bpp_mask_ok(
    fr: Seq<u32>,
    data: Seq<u8>,
    w: int,
    h: int,
    image_loc: int,
    mask_loc: int,
    pal: Seq<u32>,
) -> bool {
    &&& fr.len() == w * h
    &&& forall|i: int|
        0 <= i < w * h ==> fr[i] == (if msb_bits(data)[8 * mask_loc + i] == 0 {
            0u32
        } else {
            pal[colour_index_4bpp(msb_bits(data), 8 * image_loc, w * h, i)]
        })
}

/// Frame `f` of a masked animation, at `stride` bytes per frame, lies
/// wholly inside `data`.
pub open spec fn mask_frame_fits(
    data: Seq<u8>,
    w: int,
    h: int,
    image_loc: int,
    mask_loc: int,
    stride: int,
    f: int,
) -> bool {
    &&& 8 * (f * stride + image_loc) + 4 * (w * h) <= data.len() * 8
    &&& 8 * (f * stride + mask_loc) + w * h <= data.len() * 8
}

impl Image {
    /// Parses a single-plane image where 0 is transparent and 1 white.
    pub fn parse_1bpp(data: &[u8], width: usize, height: usize) -> (r: Image)
        requires
            width * height <= data@.len() * 8,
            data@.len() * 8 <= usize::MAX,
        ensures
            r.width == width,
            r.height == height,
            frame_1bpp_ok(r.bitmap@, data@, width as int, height as int, 0),
    {
        let pixels = width * height;
        let bits = iterate(data);
        let mut bitmap: Vec<u32> = Vec::new();
        let mut i: usize = 0;
        while i < pixels
            invariant
                i <= pixels,
                pixels == width * height,
                pixels <= bits@.len(),
                bits@ == msb_bits(data@),
                bitmap@.len() == i,
                forall|j: int|
                    0 <= j < i ==> bitmap@[j] == (if msb_bits(data@)[j] == 0 {
                        0u32
                    } else {
                        0xffffffffu32
                    }),
            decreases pixels - i,
        {
            let bit = bits[i];
            bitmap.push(if bit == 0 {
                0
            } else {
                0xffffffff
            });
            i = i + 1;
        }
        Image { bitmap, width, height }
    }

    pub fn parse_2bpp(data: &[u8], width: usize, height: usize, palette: &[u32; 16]) -> (r: Image)
        requires
            2 * (width * height) <= data@.len() * 8,
            data@.len() * 8 <= usize::MAX,
        ensures
            r.width == width,
            r.height == height,
            frame_2bpp_ok(r.bitmap@, data@, width as int, height as int, 0, palette@),
    {
        let bitmap = parse_2bpp_frame(data, width, height, 0, palette);
        Image { bitmap, width, height }
    }

    pub fn parse_3bpp(data: &[u8], width: usize, height: usize, palette: &[u32; 16]) -> (r: Image)
        requires
            3 * (width * height) <= data@.len() * 8,
            data@.len() * 8 <= usize::MAX,
        ensures
            r.width == width,
            r.height == height,
            frame_3bpp_ok(r.bitmap@, data@, width as int, height as int, 0, palette@),
    {
        let bitmap = parse_3bpp_frame(data, width, height, 0, palette);
        Image { bitmap, width, height }
    }

    pub fn parse_4bpp(data: &[u8], width: usize, height: usize, palette: &[u32; 16]) -> (r: Image)
        requires
            4 * (width * height) <= data@.len() * 8,
            data@.len() * 8 <= usize::MAX,
        ensures
            r.width == width,
            r.height == height,
            frame_4bpp_ok(r.bitmap@, data@, width as int, height as int, 0, palette@),
    {
        let bitmap = parse_4bpp_frame(data, width, height, 0, palette);
        Image { bitmap, width, height }
    }

    pub fn parse_4bpp_plus_mask(
        data: &[u8],
        width: usize,
        height: usize,
        image_loc: usize,
        mask_loc: usize,
        palette: &[u32; 16],
    ) -> (r: Image)
        requires
            8 * image_loc + 4 * (width * height) <= data@.len() * 8,
            8 * mask_loc + width * height <= data@.len() * 8,
            data@.len() * 8 <= usize::MAX,
        ensures
            r.width == width,
            r.height == height,
            frame_4bpp_mask_ok(
                r.bitmap@,
                data@,
                width as int,
                height as int,
                image_loc as int,
                mask_loc as int,
                palette@,
            ),
    {
        let bitmap = parse_4bpp_plus_mask_frame(data, width, height, image_loc, mask_loc, palette);
        Image { bitmap, width, height }
    }
}

impl Animation {
    pub fn parse_4bpp_plus_mask(
        data: &[u8],
        width: usize,
        height: usize,
        frame_count: usize,
        image_loc: usize,
        mask_loc: usize,
        palette: &[u32; 16],
        stride: usize,
    ) -> (r: Animation)
        requires
            forall|f: int|
                0 <= f < frame_count ==> #[trigger] mask_frame_fits(
                    data@,
                    width as int,
                    height as int,
                    image_loc as int,
                    mask_loc as int,
                    stride as int,
                    f,
                ),
            data@.len() * 8 <= usize::MAX,
        ensures
            r.width == width,
            r.height == height,
            r.frames@.len() == frame_count,
            forall|f: int|
                0 <= f < frame_count ==> frame_4bpp_mask_ok(
                    (#[trigger] r.frames@[f])@,
                    data@,
                    width as int,
                    height as int,
                    f * stride + image_loc,
                    f * stride + mask_loc,
                    palette@,
                ),
    {
        let mut frames: Vec<Vec<u32>> = Vec::new();
        let mut fi: usize = 0;
        while fi < frame_count
            invariant
                fi <= frame_count,
                data@.len() * 8 <= usize::MAX,
                forall|f: int|
                    0 <= f < frame_count ==> #[trigger] mask_frame_fits(
                        data@,
                        width as int,
                        height as int,
                        image_loc as int,
                        mask_loc as int,
                        stride as int,
                        f,
                    ),
                frames@.len() == fi,
                forall|f: int|
                    0 <= f < fi ==> frame_4bpp_mask_ok(
                        (#[trigger] frames@[f])@,
                        data@,
                        width as int,
                        height as int,
                        f * stride + image_loc,
                        f * stride + mask_loc,
                        palette@,
                    ),
            decreases frame_count - fi,
        {
            proof {
                assert(mask_frame_fits(
                    data@,
                    width as int,
                    height as int,
                    image_loc as int,
                    mask_loc as int,
                    stride as int,
                    fi as int,
                ));
            }
            let offset = stride * fi;
            let frame = parse_4bpp_plus_mask_frame(
                data,
                width,
                height,
                offset + image_loc,
                offset + mask_loc,
                palette,
            );
            frames.push(frame);
            fi = fi + 1;
        }
        Animation { frames, width, height }
    }

    fn parse_4bpp(
        data: &[u8],
        width: usize,
        height: usize,
        frame_count: usize,
        palette: &[u32; 16],
    ) -> (r: Animation)
        requires
            frame_count * (width * height * 4) <= data@.len() * 8,
            data@.len() * 8 <= usize::MAX,
        ensures
            r.width == width,
            r.height == height,
            r.frames@.len() == frame_count,
            forall|f: int|
                0 <= f < frame_count ==> frame_4bpp_ok(
                    (#[trigger] r.frames@[f])@,
                    data@,
                    width as int,
                    height as int,
                    f * (width * height * 4),
                    palette@,
                ),
    {
        let mut frames: Vec<Vec<u32>> = Vec::new();
        let mut fi: usize = 0;
        while fi < frame_count
            invariant
                fi <= frame_count,
                data@.len() * 8 <= usize::MAX,
                frame_count * (width * height * 4) <= data@.len() * 8,
                frames@.len() == fi,
                forall|f: int|
                    0 <= f < fi ==> frame_4bpp_ok(
                        (#[trigger] frames@[f])@,
                        data@,
                        width as int,
                        height as int,
                        f * (width * height * 4),
                        palette@,
                    ),
            decreases frame_count - fi,
        {
            proof {
                lemma_frame_stride_bound(
                    fi as int,
                    frame_count as int,
                    (width * height * 4) as int,
                    data@.len() * 8 as int,
                );
            }
            let offset = fi * (width * height * 4);
            let frame = parse_4bpp_frame(data, width, height, offset, palette);
            frames.push(frame);
            fi = fi + 1;
        }
        Animation { frames, width, height }
    }

    fn parse_3bpp(
        data: &[u8],
        width: usize,
        height: usize,
        frame_count: usize,
        palette: &[u32; 16],
    ) -> (r: Animation)
        requires
            frame_count * (width * height * 3) <= data@.len() * 8,
            data@.len() * 8 <= usize::MAX,
        ensures
            r.width == width,
            r.height == height,
            r.frames@.len() == frame_count,
            forall|f: int|
                0 <= f < frame_count ==> frame_3bpp_ok(
                    (#[trigger] r.frames@[f])@,
                    data@,
                    width as int,
                    height as int,
                    f * (width * height * 3),
                    palette@,
                ),
    {
        let mut frames: Vec<Vec<u32>> = Vec::new();
        let mut fi: usize = 0;
        while fi < frame_count
            invariant
                fi <= frame_count,
                data@.len() * 8 <= usize::MAX,
                frame_count * (width * height * 3) <= data@.len() * 8,
                frames@.len() == fi,
                forall|f: int|
                    0 <= f < fi ==> frame_3bpp_ok(
                        (#[trigger] frames@[f])@,
                        data@,
                        width as int,
                        height as int,
                        f * (width * height * 3),
                        palette@,
                    ),
            decreases frame_count - fi,
        {
            proof {
                lemma_frame_stride_bound(
                    fi as int,
                    frame_count as int,
                    (width * height * 3) as int,
                    data@.len() * 8 as int,
                );
            }
            let offset = fi * (width * height * 3);
            let frame = parse_3bpp_frame(data, width, height, offset, palette);
            frames.push(frame);
            fi = fi + 1;
        }
        Animation { frames, width, height }
    }

    fn parse_2bpp(
        data: &[u8],
        width: usize,
        height: usize,
        frame_count: usize,
        palette: &[u32; 16],
    ) -> (r: Animation)
        requires
            frame_count * (width * height * 2) <= data@.len() * 8,
            data@.len() * 8 <= usize::MAX,
        ensures
            r.width == width,
            r.height == height,
            r.frames@.len() == frame_count,
            forall|f: int|
                0 <= f < frame_count ==> frame_2bpp_ok(
                    (#[trigger] r.frames@[f])@,
                    data@,
                    width as int,
                    height as int,
                    f * (width * height * 2),
                    palette@,
                ),
    {
        let mut frames: Vec<Vec<u32>> = Vec::new();
        let mut fi: usize = 0;
        while fi < frame_count
            invariant
                fi <= frame_count,
                data@.len() * 8 <= usize::MAX,
                frame_count * (width * height * 2) <= data@.len() * 8,
                frames@.len() == fi,
                forall|f: int|
                    0 <= f < fi ==> frame_2bpp_ok(
                        (#[trigger] frames@[f])@,
                        data@,
                        width as int,
                        height as int,
                        f * (width * height * 2),
                        palette@,
                    ),
            decreases frame_count - fi,
        {
            proof {
                lemma_frame_stride_bound(
                    fi as int,
                    frame_count as int,
                    (width * height * 2) as int,
                    data@.len() * 8 as int,
                );
            }
            let offset = fi * (width * height * 2);
            let frame = parse_2bpp_frame(data, width, height, offset, palette);
            frames.push(frame);
            fi = fi + 1;
        }
        Animation { frames, width, height }
    }

    /// Parses an animation of `frames` equally sized frames laid out one
    /// after another, at two, three or four bits per pixel.
    pub fn parse(
        data: &[u8],
        width: usize,
        height: usize,
        frames: usize,
        palette: &[u32; 16],
        bpp: u8,
    ) -> (r: Animation)
        requires
            bpp == 2 || bpp == 3 || bpp == 4,
            frames * (width * height * bpp) <= data@.len() * 8,
            data@.len() * 8 <= usize::MAX,
        ensures
            r.width == width,
            r.height == height,
            r.frames@.len() == frames,
            forall|f: int|
                0 <= f < frames ==> {
                    let off = f * (width * height * bpp);
                    if bpp == 2 {
                        frame_2bpp_ok(
                            (#[trigger] r.frames@[f])@,
                            data@,
                            width as int,
                            height as int,
                            off,
                            palette@,
                        )
                    } else if bpp == 3 {
                        frame_3bpp_ok(r.frames@[f]@, data@, width as int, height as int, off, palette@)
                    } else {
                        frame_4bpp_ok(r.frames@[f]@, data@, width as int, height as int, off, palette@)
                    }
                },
    {
        if bpp == 2 {
            Self::parse_2bpp(data, width, height, frames, palette)
        } else if bpp == 3 {
            Self::parse_3bpp(data, width, height, frames, palette)
        } else {
            Self::parse_4bpp(data, width, height, frames, palette)
        }
    }
}

/// An earlier frame's plane data lies within the bound that covers every
/// frame of the animation.
pub proof fn lemma_frame_stride_bound(f: int, count: int, size: int, limit: int)
    requires
        0 <= f < count,
        0 <= size,
        count * size <= limit,
    ensures
        f * size + size <= limit,
        f * size >= 0,
{
    assert(f * size + size <= limit && f * size >= 0) by (nonlinear_arith)
        requires
            0 <= f < count,
            0 <= size,
            count * size <= limit,
    ;
}

/// Decodes one four-plane frame with its mask; `image_loc` and `mask_loc`
/// are byte offsets into `data`, evaluated per frame by the callers.
pub fn parse_4bpp_plus_mask_frame(
    data: &[u8],
    width: usize,
    height: usize,
    image_loc: usize,
    mask_loc: usize,
    palette: &[u32; 16],
) -> (r: Vec<u32>)
    requires
        8 * image_loc + 4 * (width * height) <= data@.len() * 8,
        8 * mask_loc + width * height <= data@.len() * 8,
        data@.len() * 8 <= usize::MAX,
    ensures
        frame_4bpp_mask_ok(
            r@,
            data@,
            width as int,
            height as int,
            image_loc as int,
            mask_loc as int,
            palette@,
        ),
{
    let pixels = width * height;
    let bits = iterate(data);
    let img_base = 8 * image_loc;
    let mask_base = 8 * mask_loc;
    let mut bitmap: Vec<u32> = Vec::new();
    let mut i: usize = 0;
    while i < pixels
        invariant
            i <= pixels,
            pixels == width * height,
            img_base == 8 * image_loc,
            mask_base == 8 * mask_loc,
            img_base + 4 * pixels <= bits@.len(),
            mask_base + pixels <= bits@.len(),
            bits@ == msb_bits(data@),
            bits@.len() == data@.len() * 8,
            bits@.len() <= usize::MAX,
            bitmap@.len() == i,
            forall|j: int|
                0 <= j < i ==> bitmap@[j] == (if msb_bits(data@)[8 * (mask_loc as int) + j] == 0 {
                    0u32
                } else {
                    palette@[colour_index_4bpp(
                        msb_bits(data@),
                        8 * (image_loc as int),
                        pixels as int,
                        j,
                    )]
                }),
        decreases pixels - i,
    {
        proof {
            lemma_msb_bits_le_1(data@, img_base + i);
            lemma_msb_bits_le_1(data@, img_base + pixels + i);
            lemma_msb_bits_le_1(data@, img_base + 2 * pixels + i);
            lemma_msb_bits_le_1(data@, img_base + 3 * pixels + i);
        }
        let ci = (bits[img_base + i] + 2 * bits[img_base + pixels + i] + 4 * bits[img_base + 2
            * pixels + i] + 8 * bits[img_base + 3 * pixels + i]) as usize;
        let colour = palette[ci];
        let masked = if bits[mask_base + i] == 0 {
            0
        } else {
            colour
        };
        bitmap.push(masked);
        i = i + 1;
    }
    bitmap
}

/// Decodes one four-plane frame; `offset_bits` is 0 for images and
/// `frame_index * pixels * 4` for animations.
fn parse_4bpp_frame(
    data: &[u8],
    width: usize,
    height: usize,
    offset_bits: usize,
    palette: &[u32; 16],
) -> (r: Vec<u32>)
    requires
        offset_bits + 4 * (width * height) <= data@.len() * 8,
        data@.len() * 8 <= usize::MAX,
    ensures
        frame_4bpp_ok(r@, data@, width as int, height as int, offset_bits as int, palette@),
{
    let pixels = width * height;
    let bits = iterate(data);
    let mut bitmap: Vec<u32> = Vec::new();
    let mut i: usize = 0;
    while i < pixels
        invariant
            i <= pixels,
            pixels == width * height,
            offset_bits + 4 * pixels <= bits@.len(),
            bits@ == msb_bits(data@),
            bits@.len() == data@.len() * 8,
            bits@.len() <= usize::MAX,
            bitmap@.len() == i,
            forall|j: int|
                0 <= j < i ==> bitmap@[j] == palette@[colour_index_4bpp(
                    msb_bits(data@),
                    offset_bits as int,
                    pixels as int,
                    j,
                )],
        decreases pixels - i,
    {
        proof {
            lemma_msb_bits_le_1(data@, offset_bits + i);
            lemma_msb_bits_le_1(data@, offset_bits + pixels + i);
            lemma_msb_bits_le_1(data@, offset_bits + 2 * pixels + i);
            lemma_msb_bits_le_1(data@, offset_bits + 3 * pixels + i);
        }
        let ci = (bits[offset_bits + i] + 2 * bits[offset_bits + pixels + i] + 4 * bits[offset_bits
            + 2 * pixels + i] + 8 * bits[offset_bits + 3 * pixels + i]) as usize;
        bitmap.push(palette[ci]);
        i = i + 1;
    }
    bitmap
}

/// Decodes one three-plane frame.
fn parse_3bpp_frame(
    data: &[u8],
    width: usize,
    height: usize,
    offset_bits: usize,
    palette: &[u32; 16],
) -> (r: Vec<u32>)
    requires
        offset_bits + 3 * (width * height) <= data@.len() * 8,
        data@.len() * 8 <= usize::MAX,
    ensures
        frame_3bpp_ok(r@, data@, width as int, height as int, offset_bits as int, palette@),
{
    let pixels = width * height;
    let bits = iterate(data);
    let mut bitmap: Vec<u32> = Vec::new();
    let mut i: usize = 0;
    while i < pixels
        invariant
            i <= pixels,
            pixels == width * height,
            offset_bits + 3 * pixels <= bits@.len(),
            bits@ == msb_bits(data@),
            bits@.len() == data@.len() * 8,
            bits@.len() <= usize::MAX,
            bitmap@.len() == i,
            forall|j: int|
                0 <= j < i ==> bitmap@[j] == palette@[colour_index_3bpp(
                    msb_bits(data@),
                    offset_bits as int,
                    pixels as int,
                    j,
                )],
        decreases pixels - i,
    {
        proof {
            lemma_msb_bits_le_1(data@, offset_bits + i);
            lemma_msb_bits_le_1(data@, offset_bits + pixels + i);
            lemma_msb_bits_le_1(data@, offset_bits + 2 * pixels + i);
        }
        let ci = (bits[offset_bits + i] + 2 * bits[offset_bits + pixels + i] + 4 * bits[offset_bits
            + 2 * pixels + i]) as usize;
        bitmap.push(palette[ci]);
        i = i + 1;
    }
    bitmap
}

/// Decodes one two-plane frame.
fn parse_2bpp_frame(
    data: &[u8],
    width: usize,
    height: usize,
    offset_bits: usize,
    palette: &[u32; 16],
) -> (r: Vec<u32>)
    requires
        offset_bits + 2 * (width * height) <= data@.len() * 8,
        data@.len() * 8 <= usize::MAX,
    ensures
        frame_2bpp_ok(r@, data@, width as int, height as int, offset_bits as int, palette@),
{
    let pixels = width * height;
    let bits = iterate(data);
    let mut bitmap: Vec<u32> = Vec::new();
    let mut i: usize = 0;
    while i < pixels
        invariant
            i <= pixels,
            pixels == width * height,
            offset_bits + 2 * pixels <= bits@.len(),
            bits@ == msb_bits(data@),
            bits@.len() == data@.len() * 8,
            bits@.len() <= usize::MAX,
            bitmap@.len() == i,
            forall|j: int|
                0 <= j < i ==> bitmap@[j] == palette@[colour_index_2bpp(
                    msb_bits(data@),
                    offset_bits as int,
                    pixels as int,
                    j,
                )],
        decreases pixels - i,
    {
        proof {
            lemma_msb_bits_le_1(data@, offset_bits + i);
            lemma_msb_bits_le_1(data@, offset_bits + pixels + i);
        }
        let ci = (bits[offset_bits + i] + 2 * bits[offset_bits + pixels + i]) as usize;
        bitmap.push(palette[ci]);
        i = i + 1;
    }
    bitmap
}

} // verus!
