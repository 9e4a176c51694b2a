//! The raster of a block group: one pixel per block, laid out along the
//! Hilbert curve. Free blocks are white; occupied blocks carry one of the
//! three palette colors.

use vstd::prelude::*;
use crate::curve::{hilbert_point, hilbert_coords};

verus! {

/// The only legal pixel values: white marks a free block, the other three
/// cycle over inserted extents.
#[derive(Clone, Copy, Debug, PartialEq, Eq, Structural)]
pub enum Color {
    White,
    Red,
    Green,
    Blue,
}

impl Color {
    /// The 24-bit RGB value of the pixel.
    pub open spec fn spec_rgb(self) -> (u8, u8, u8) {
        match self {
            Color::White => (255u8, 255u8, 255u8),
            Color::Red => (255u8, 0u8, 0u8),
            Color::Green => (0u8, 255u8, 0u8),
            Color::Blue => (0u8, 0u8, 255u8),
        }
    }

    /// The 24-bit RGB value of the pixel.
    pub fn rgb(&self) -> (r: (u8, u8, u8))
        ensures
            r == self.spec_rgb(),
    {
        match self {
            Color::White => (255, 255, 255),
            Color::Red => (255, 0, 0),
            Color::Green => (0, 255, 0),
            Color::Blue => (0, 0, 255),
        }
    }
}

/// Every pixel ever painted is drawn from the four-value palette
/// {white, red, green, blue}: the pixel type has no other value.
pub proof fn lemma_pixel_palette(c: Color)
    ensures
        c.spec_rgb() == (255u8, 255u8, 255u8) || c.spec_rgb() == (255u8, 0u8, 0u8)
            || c.spec_rgb() == (0u8, 255u8, 0u8) || c.spec_rgb() == (0u8, 0u8, 255u8),
{
}

/// A square canvas of `CANVAS_DIM` by `CANVAS_DIM` pixels, stored row by
/// row. The pixel at `(x, y)` sits at index `y * CANVAS_DIM + x`.
pub struct Raster {
    pub pixels: Vec<Color>,
}

impl View for Raster {
    type V = Seq<Color>;

    open spec fn view(&self) -> Seq<Color> {
        self.pixels@
    }
}

/// The all-white canvas every block group starts from.
pub open spec fn all_white() -> Seq<Color> {
    Seq::new((crate::CANVAS_DIM * crate::CANVAS_DIM) as nat, |i: int| Color::White)
}

impl Raster {
    /// A raster is a full canvas.
    pub open spec fn well_formed(&self) -> bool {
        self@.len() == crate::CANVAS_DIM * crate::CANVAS_DIM
    }

    /// A fresh, fully white canvas.
    pub fn new_white() -> (r: Raster)
        ensures
            r.well_formed(),
            r@ == all_white(),
    {
        let mut pixels: Vec<Color> = Vec::new();
        let n: usize = (crate::CANVAS_DIM * crate::CANVAS_DIM) as usize;
        while pixels.len() < n
            invariant
                pixels@.len() <= n,
                forall|i: int| 0 <= i < pixels@.len() ==> pixels@[i] == Color::White,
            decreases n - pixels@.len(),
        {
            pixels.push(Color::White);
        }
        proof {
            assert(pixels@ =~= all_white());
        }
        Raster { pixels }
    }

    /// Overwrite the pixel at `(x, y)`.
    pub fn put_pixel(&mut self, x: u32, y: u32, c: Color)
        requires
            old(self).well_formed(),
            x < crate::CANVAS_DIM,
            y < crate::CANVAS_DIM,
        ensures
            final(self).well_formed(),
            final(self)@ == old(self)@.update(y * crate::CANVAS_DIM + x, c),
    {
        let idx: usize = (y as usize) * (crate::CANVAS_DIM as usize) + (x as usize);
        self.pixels.set(idx, c);
    }

    /// Read the pixel at `(x, y)`.
    pub fn get_pixel(&self, x: u32, y: u32) -> (c: Color)
        requires
            self.well_formed(),
            x < crate::CANVAS_DIM,
            y < crate::CANVAS_DIM,
        ensures
            c == self@[y * crate::CANVAS_DIM + x],
    {
        let idx: usize = (y as usize) * (crate::CANVAS_DIM as usize) + (x as usize);
        self.pixels[idx]
    }
}

/// Where on the canvas the block with index `b` lands, if it lands on the
/// canvas at all. Blocks whose curve point falls outside the fixed canvas
/// are not painted.
pub open spec fn pixel_pos(b: int) -> Option<int> {
    if 0 <= b <= u64::MAX {
        let (x, y) = hilbert_point(b as u64);
        if x < crate::CANVAS_DIM && y < crate::CANVAS_DIM {
            Some(y * crate::CANVAS_DIM + x)
        } else {
            None
        }
    } else {
        None
    }
}

/// One block painted onto the canvas.
pub open spec fn paint_one(px: Seq<Color>, b: int, c: Color) -> Seq<Color> {
    match pixel_pos(b) {
        Some(p) => px.update(p, c),
        None => px,
    }
}

/// The canvas after the blocks `first .. first + count` are painted in
/// color `c`, in increasing block order.
pub open spec fn painted(px: Seq<Color>, first: int, count: int, c: Color) -> Seq<Color>
    decreases count,
{
    if count <= 0 {
        px
    } else {
        paint_one(painted(px, first, count - 1, c), first + count - 1, c)
    }
}

/// Whether some block in `first .. first + count` lands on pixel index `p`.
pub open spec fn touched(first: int, count: int, p: int) -> bool {
    exists|b: int| first <= b < first + count && pixel_pos(b) == Some(p)
}

/// Painting a block range sets exactly the pixels its blocks land on and
/// leaves every other pixel alone.
pub proof fn lemma_painted_pointwise(px: Seq<Color>, first: int, count: int, c: Color)
    requires
        px.len() == crate::CANVAS_DIM * crate::CANVAS_DIM,
    ensures
        painted(px, first, count, c).len() == px.len(),
        forall|p: int|
            0 <= p < px.len() ==> painted(px, first, count, c)[p] == (if touched(first, count, p) {
                c
            } else {
                px[p]
            }),
    decreases count,
{
    if count <= 0 {
        assert(forall|p: int| 0 <= p < px.len() ==> !touched(first, count, p));
    } else {
        lemma_painted_pointwise(px, first, count - 1, c);
        let prev = painted(px, first, count - 1, c);
        let last = first + count - 1;
        assert forall|p: int| 0 <= p < px.len() implies painted(px, first, count, c)[p] == (
        if touched(first, count, p) {
            c
        } else {
            px[p]
        }) by {
            match pixel_pos(last) {
                Some(q) => {
                    if p == q {
                        assert(touched(first, count, p));
                    } else {
                        if touched(first, count, p) {
                            let b = choose|b: int|
                                first <= b < first + count && pixel_pos(b) == Some(p);
                            assert(b != last);
                            assert(touched(first, count - 1, p));
                        }
                    }
                },
                None => {
                    if touched(first, count, p) {
                        let b = choose|b: int|
                            first <= b < first + count && pixel_pos(b) == Some(p);
                        assert(b != last);
                        assert(touched(first, count - 1, p));
                    }
                },
            }
        }
    }
}

/// Paint the blocks of one extent onto a block group's raster. `bg_start`
/// anchors the block group; the extent is given by its global byte offset
/// and its byte length. This is a free function, not a method of the block
/// group, so painting never has to re-enter the owning aggregate.
pub fn draw_extent(
    img: &mut Raster,
    bg_start: u64,
    extent_offset: u64,
    extent_len: u64,
    dim: u32,
    pixel: Color,
)
    requires
        old(img).well_formed(),
        bg_start <= extent_offset,
        extent_offset - bg_start <= u64::MAX - extent_len,
        dim == crate::CANVAS_DIM,
    ensures
        final(img).well_formed(),
        final(img)@ == painted(
            old(img)@,
            (extent_offset - bg_start) as int / crate::BLOCK as int,
            extent_len as int / crate::BLOCK as int,
            pixel,
        ),
{
    let ext_bg_off = crate::global_to_bg(bg_start, extent_offset);
    let ext_block_bg_off = crate::byte_to_block(ext_bg_off);
    let nr_blocks = crate::byte_to_block(extent_len);
    let ext_block_bg_end = ext_block_bg_off + nr_blocks;
    let mut bg_block = ext_block_bg_off;
    while bg_block < ext_block_bg_end
        invariant
            img.well_formed(),
            ext_block_bg_off <= bg_block <= ext_block_bg_end,
            img@ == painted(
                old(img)@,
                ext_block_bg_off as int,
                bg_block - ext_block_bg_off,
                pixel,
            ),
        decreases ext_block_bg_end - bg_block,
    {
        let (x, y) = hilbert_coords(bg_block);
        if x < crate::CANVAS_DIM && y < crate::CANVAS_DIM {
            img.put_pixel(x, y, pixel);
        }
        bg_block = bg_block + 1;
    }
}

} // verus!
