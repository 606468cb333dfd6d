//! Laying rasterized glyphs out on one image.
//!
//! The glyphs of a line of text come with their place on the pixel grid. The image of
//! the line is the smallest one that holds them all: white pixels whose opacity is the
//! coverage of the glyphs, on a transparent ground.

use crate::render::{add_texture_buffer, upd_texture_buffer, Bitmap, Texture, Textures};
use vstd::prelude::*;

verus! {

/// A pixel that a glyph covers: its place, counted from the upper left corner of the
/// glyph's box, and how opaque it is.
pub struct Dot {
    pub x: u32,
    pub y: u32,
    pub alpha: u8,
}

/// A rasterized glyph: its box on the pixel grid, and the pixels it covers.
pub struct Glyph {
    pub min_x: i32,
    pub min_y: i32,
    pub max_x: i32,
    pub max_y: i32,
    pub dots: Vec<Dot>,
}

/// A box on the pixel grid.
#[derive(Clone, Copy, PartialEq, Eq, Structural, Debug)]
pub struct Bounds {
    pub min_x: i32,
    pub max_x: i32,
    pub min_y: i32,
    pub max_y: i32,
}

impl Bounds {
    /// Width of the box in pixels.
    pub open spec fn width(self) -> int {
        self.max_x - self.min_x
    }

    /// Height of the box in pixels.
    pub open spec fn height(self) -> int {
        self.max_y - self.min_y
    }
}

/// The smaller of two numbers.
pub open spec fn least(a: i32, b: i32) -> i32 {
    if a <= b {
        a
    } else {
        b
    }
}

/// The larger of two numbers.
pub open spec fn most(a: i32, b: i32) -> i32 {
    if a >= b {
        a
    } else {
        b
    }
}

/// The smallest box that holds the boxes of all `glyphs`. Of no glyphs it is the box
/// turned inside out, which holds nothing.
pub open spec fn spread(glyphs: Seq<Glyph>) -> Bounds
    decreases glyphs.len(),
{
    if glyphs.len() == 0 {
        Bounds { min_x: i32::MAX, max_x: i32::MIN, min_y: i32::MAX, max_y: i32::MIN }
    } else {
        let rest = spread(glyphs.drop_last());
        let glyph = glyphs.last();
        Bounds {
            min_x: least(rest.min_x, glyph.min_x),
            max_x: most(rest.max_x, glyph.max_x),
            min_y: least(rest.min_y, glyph.min_y),
            max_y: most(rest.max_y, glyph.max_y),
        }
    }
}

/// The box of the image of `glyphs`: the smallest box that holds them all, or, where
/// that box holds nothing, a box of one pixel.
pub open spec fn bounds(glyphs: Seq<Glyph>) -> Bounds {
    let all = spread(glyphs);
    if all.min_x > all.max_x || all.min_y > all.max_y {
        Bounds { min_x: 0, max_x: 1, min_y: 0, max_y: 1 }
    } else {
        all
    }
}

/// `canvas`, an image `width` pixels wide and `height` high, with the pixel at `x`,
/// `y` white at opacity `alpha`. A place outside the image changes nothing.
pub open spec fn stamp(canvas: Seq<u8>, width: int, height: int, x: int, y: int, alpha: u8) -> Seq<u8> {
    let at = 4 * (y * width + x);
    if 0 <= x < width && 0 <= y < height && at + 3 < canvas.len() {
        canvas.update(at, 255u8).update(at + 1, 255u8).update(at + 2, 255u8).update(at + 3, alpha)
    } else {
        canvas
    }
}

/// `canvas` with `dots` stamped on it one after the other, each shifted by `off_x`,
/// `off_y`.
pub open spec fn stamp_dots(
    canvas: Seq<u8>,
    width: int,
    height: int,
    off_x: int,
    off_y: int,
    dots: Seq<Dot>,
) -> Seq<u8>
    decreases dots.len(),
{
    if dots.len() == 0 {
        canvas
    } else {
        let dot = dots.last();
        stamp(
            stamp_dots(canvas, width, height, off_x, off_y, dots.drop_last()),
            width,
            height,
            dot.x + off_x,
            dot.y + off_y,
            dot.alpha,
        )
    }
}

/// `canvas`, whose upper left corner lies at `min_x`, `min_y` of the pixel grid, with
/// `glyphs` stamped on it one after the other.
pub open spec fn stamp_glyphs(
    canvas: Seq<u8>,
    width: int,
    height: int,
    min_x: int,
    min_y: int,
    glyphs: Seq<Glyph>,
) -> Seq<u8>
    decreases glyphs.len(),
{
    if glyphs.len() == 0 {
        canvas
    } else {
        let glyph = glyphs.last();
        stamp_dots(
            stamp_glyphs(canvas, width, height, min_x, min_y, glyphs.drop_last()),
            width,
            height,
            glyph.min_x - min_x,
            glyph.min_y - min_y,
            glyph.dots@,
        )
    }
}

/// The pixels of the image of `glyphs`.
pub open spec fn text_pixels(glyphs: Seq<Glyph>) -> Seq<u8> {
    let frame = bounds(glyphs);
    stamp_glyphs(
        Seq::new((4 * frame.width() * frame.height()) as nat, |i: int| 0u8),
        frame.width(),
        frame.height(),
        frame.min_x as int,
        frame.min_y as int,
        glyphs,
    )
}

/// Whether the pixels of the image of `glyphs` can be counted in a `usize`.
pub open spec fn fits_memory(glyphs: Seq<Glyph>) -> bool {
    4 * bounds(glyphs).width() * bounds(glyphs).height() <= usize::MAX
}

/// The box of the image of `glyphs` holds the box of each of them, unless it is the
/// box of one pixel that stands for no glyphs.
pub proof fn spread_holds_every_glyph(glyphs: Seq<Glyph>, k: int)
    requires
        0 <= k < glyphs.len(),
    ensures
        spread(glyphs).min_x <= glyphs[k].min_x,
        spread(glyphs).max_x >= glyphs[k].max_x,
        spread(glyphs).min_y <= glyphs[k].min_y,
        spread(glyphs).max_y >= glyphs[k].max_y,
    decreases glyphs.len(),
{
    if k < glyphs.len() - 1 {
        spread_holds_every_glyph(glyphs.drop_last(), k);
    }
}

/// No covered pixel is lost: a dot that lies in the box of its glyph lies in the image,
/// provided there is a glyph with a box that holds anything.
pub proof fn dots_land_inside(glyphs: Seq<Glyph>, k: int, x: int, y: int)
    requires
        0 <= k < glyphs.len(),
        spread(glyphs) == bounds(glyphs),
        0 <= x < glyphs[k].max_x - glyphs[k].min_x,
        0 <= y < glyphs[k].max_y - glyphs[k].min_y,
    ensures
        0 <= x + (glyphs[k].min_x - bounds(glyphs).min_x) < bounds(glyphs).width(),
        0 <= y + (glyphs[k].min_y - bounds(glyphs).min_y) < bounds(glyphs).height(),
{
    spread_holds_every_glyph(glyphs, k);
}

/// The box of the image of `glyphs`.
pub fn text_bounds(glyphs: &Vec<Glyph>) -> (frame: Bounds)
    ensures
        frame == bounds(glyphs@),
        frame.min_x <= frame.max_x,
        frame.min_y <= frame.max_y,
{
    let mut all = Bounds { min_x: i32::MAX, max_x: i32::MIN, min_y: i32::MAX, max_y: i32::MIN };
    let mut i: usize = 0;
    assert(glyphs@.take(0) =~= Seq::<Glyph>::empty());
    while i < glyphs.len()
        invariant
            i <= glyphs@.len(),
            all == spread(glyphs@.take(i as int)),
        decreases glyphs@.len() - i,
    {
        let glyph = &glyphs[i];
        proof {
            assert(glyphs@.take(i + 1).drop_last() =~= glyphs@.take(i as int));
            assert(glyphs@.take(i + 1).last() == glyphs@[i as int]);
        }
        if glyph.min_x < all.min_x {
            all.min_x = glyph.min_x;
        }
        if glyph.max_x > all.max_x {
            all.max_x = glyph.max_x;
        }
        if glyph.min_y < all.min_y {
            all.min_y = glyph.min_y;
        }
        if glyph.max_y > all.max_y {
            all.max_y = glyph.max_y;
        }
        i += 1;
    }
    assert(glyphs@.take(i as int) =~= glyphs@);
    if all.min_x > all.max_x || all.min_y > all.max_y {
        Bounds { min_x: 0, max_x: 1, min_y: 0, max_y: 1 }
    } else {
        all
    }
}

/// Stamps one dot.
fn stamp_dot(canvas: &mut Vec<u8>, width: u32, height: u32, x: i64, y: i64, alpha: u8)
    requires
        old(canvas)@.len() == 4 * width * height,
    ensures
        final(canvas)@ == stamp(old(canvas)@, width as int, height as int, x as int, y as int, alpha),
{
    let size = canvas.len();
    if 0 <= x && x < width as i64 && 0 <= y && y < height as i64 {
        assert(4 * (y * width + x) + 3 < 4 * width * height && 0 <= y * width) by (nonlinear_arith)
            requires
                0 <= x < width,
                0 <= y < height,
        ;
        assert(size == 4 * width * height);
        let at: usize = 4 * ((y as usize) * (width as usize) + (x as usize));
        canvas[at] = 255;
        canvas[at + 1] = 255;
        canvas[at + 2] = 255;
        canvas[at + 3] = alpha;
    }
}

/// Builds the image of `glyphs`. There is no image where its pixels would not fit
/// into memory.
pub fn text_bitmap(glyphs: &Vec<Glyph>) -> (r: Option<Bitmap>)
    ensures
        r is Some <==> fits_memory(glyphs@),
        match r {
            Some(image) => {
                &&& image.width == bounds(glyphs@).width()
                &&& image.height == bounds(glyphs@).height()
                &&& image.rgba@ == text_pixels(glyphs@)
                &&& image.rgba@.len() == 4 * image.width * image.height
            },
            None => !fits_memory(glyphs@),
        },
{
    let frame = text_bounds(glyphs);
    let width: u32 = ((frame.max_x as i64) - (frame.min_x as i64)) as u32;
    let height: u32 = ((frame.max_y as i64) - (frame.min_y as i64)) as u32;
    assert(width * height <= 0xFFFF_FFFF * 0xFFFF_FFFF) by (nonlinear_arith)
        requires
            0 <= width <= 0xFFFF_FFFF,
            0 <= height <= 0xFFFF_FFFF,
    ;
    let area: u128 = (width as u128) * (height as u128);
    let pixels: u128 = 4 * area;
    assert(pixels == 4 * width * height) by (nonlinear_arith)
        requires
            pixels == 4 * area,
            area == width * height,
    ;
    if pixels > usize::MAX as u128 {
        return None;
    }
    let size: usize = pixels as usize;
    let mut canvas: Vec<u8> = Vec::new();
    let mut filled: usize = 0;
    while filled < size
        invariant
            filled <= size,
            canvas@.len() == filled,
            forall|j: int| 0 <= j < filled ==> canvas@[j] == 0u8,
        decreases size - filled,
    {
        canvas.push(0);
        filled += 1;
    }
    let ghost blank = Seq::new((4 * frame.width() * frame.height()) as nat, |i: int| 0u8);
    assert(canvas@ =~= blank);
    let mut i: usize = 0;
    assert(glyphs@.take(0) =~= Seq::<Glyph>::empty());
    while i < glyphs.len()
        invariant
            i <= glyphs@.len(),
            canvas@.len() == 4 * width * height,
            width == frame.width(),
            height == frame.height(),
            canvas@ == stamp_glyphs(
                blank,
                width as int,
                height as int,
                frame.min_x as int,
                frame.min_y as int,
                glyphs@.take(i as int),
            ),
        decreases glyphs@.len() - i,
    {
        let glyph = &glyphs[i];
        let off_x: i64 = (glyph.min_x as i64) - (frame.min_x as i64);
        let off_y: i64 = (glyph.min_y as i64) - (frame.min_y as i64);
        let ghost before = canvas@;
        let mut d: usize = 0;
        assert(glyph.dots@.take(0) =~= Seq::<Dot>::empty());
        while d < glyph.dots.len()
            invariant
                d <= glyph.dots@.len(),
                canvas@.len() == 4 * width * height,
                off_x == glyph.min_x - frame.min_x,
                off_y == glyph.min_y - frame.min_y,
                canvas@ == stamp_dots(
                    before,
                    width as int,
                    height as int,
                    off_x as int,
                    off_y as int,
                    glyph.dots@.take(d as int),
                ),
            decreases glyph.dots@.len() - d,
        {
            let dot = &glyph.dots[d];
            proof {
                assert(glyph.dots@.take(d + 1).drop_last() =~= glyph.dots@.take(d as int));
                assert(glyph.dots@.take(d + 1).last() == glyph.dots@[d as int]);
            }
            stamp_dot(&mut canvas, width, height, (dot.x as i64) + off_x, (dot.y as i64) + off_y, dot.alpha);
            d += 1;
        }
        proof {
            assert(glyph.dots@.take(d as int) =~= glyph.dots@);
            assert(glyphs@.take(i + 1).drop_last() =~= glyphs@.take(i as int));
            assert(glyphs@.take(i + 1).last() == glyphs@[i as int]);
        }
        i += 1;
    }
    assert(glyphs@.take(i as int) =~= glyphs@);
    Some(Bitmap { rgba: canvas, width, height })
}

/// Builds the image of `glyphs` and queues it: as the content of a new texture, or, if
/// `upd` names one, as the new content of that texture. Hands out the handle of the
/// texture, with the size of the image. Where the image would not fit into memory,
/// nothing is queued and there is no handle.
pub fn add_text(textures: &mut Textures, glyphs: &Vec<Glyph>, upd: Option<usize>) -> (r: Option<Texture>)
    requires
        upd is None ==> old(textures).next < usize::MAX,
    ensures
        !fits_memory(glyphs@) ==> r is None && *final(textures) == *old(textures),
        fits_memory(glyphs@) ==> r is Some && r->0.width == bounds(glyphs@).width() && r->0.height
            == bounds(glyphs@).height() && match upd {
            Some(id) => {
                &&& r->0.id == id
                &&& final(textures).next == old(textures).next
                &&& final(textures).made == old(textures).made
                &&& final(textures).buffer == old(textures).buffer
                &&& final(textures).update@.len() == old(textures).update@.len() + 1
                &&& final(textures).update@.drop_last() == old(textures).update@
                &&& final(textures).update@.last().0 == id
                &&& final(textures).update@.last().1.rgba@ == text_pixels(glyphs@)
                &&& final(textures).update@.last().1.width == r->0.width
                &&& final(textures).update@.last().1.height == r->0.height
            },
            None => {
                &&& r->0.id == old(textures).next
                &&& final(textures).next == old(textures).next + 1
                &&& final(textures).made == old(textures).made
                &&& final(textures).update == old(textures).update
                &&& final(textures).buffer@.len() == old(textures).buffer@.len() + 1
                &&& final(textures).buffer@.drop_last() == old(textures).buffer@
                &&& final(textures).buffer@.last().rgba@ == text_pixels(glyphs@)
                &&& final(textures).buffer@.last().width == r->0.width
                &&& final(textures).buffer@.last().height == r->0.height
            },
        },
{
    match text_bitmap(glyphs) {
        Some(image) => {
            let made = match upd {
                Some(id) => {
                    let made = upd_texture_buffer(textures, id, image.rgba, image.width, image.height);
                    assert(textures.update@.drop_last() =~= old(textures).update@);
                    made
                },
                None => {
                    let made = add_texture_buffer(textures, image.rgba, image.width, image.height);
                    assert(textures.buffer@.drop_last() =~= old(textures).buffer@);
                    made
                },
            };
            Some(made)
        },
        None => None,
    }
}

} // verus!
