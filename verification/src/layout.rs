//! Where things go: cells of the sprite sheet and of the font sheet, and
//! text and boxes centred in a rectangle.

use vstd::prelude::*;
use vstd::std_specs::convert::FromSpecImpl;

verus! {

/// Width and height of a sprite, in pixels.
pub const SPRITE_SIZE: u8 = 8;

/// Sprites in one row of the sprite sheet.
pub const SPRITES_PER_ROW: u8 = 16;

/// Width of the sprite sheet, in pixels.
pub const GFX_WIDTH: usize = 128;

/// Width and height of a glyph, in pixels.
pub const FONT_SIZE: u8 = 8;

/// Columns from one glyph of a line to the next.
pub const FONT_ADVANCE: u8 = 4;

/// Width of the font sheet, in pixels.
pub const FONT_WIDTH: usize = 128;

/// Glyphs in one row of the font sheet.
pub const GLYPHS_PER_ROW: u8 = 16;

/// The sheet position of the top left pixel of a sprite.
pub fn get_sprite_xy(sprite_number: u8) -> (xy: (u8, u8))
    ensures
        xy.0 == (sprite_number % 16) * 8,
        xy.1 == (sprite_number / 16) * 8,
{
    ((sprite_number % SPRITES_PER_ROW) * SPRITE_SIZE, (sprite_number / SPRITES_PER_ROW)
        * SPRITE_SIZE)
}

/// The font sheet position of the top left pixel of a glyph.
pub fn get_char_xy(sprite_number: u8) -> (xy: (u8, u8))
    ensures
        xy.0 == (sprite_number % 16) * 8,
        xy.1 == (sprite_number / 16) * 8,
{
    ((sprite_number % GLYPHS_PER_ROW) * FONT_SIZE, (sprite_number / GLYPHS_PER_ROW) * FONT_SIZE)
}

/// An upright rectangle: its top left pixel, its width and its height.
#[derive(Clone, Copy, Debug)]
pub struct Rect {
    pub x: u8,
    pub y: u8,
    pub w: u8,
    pub h: u8,
}

impl Rect {
    /// The top left pixel.
    pub fn point(&self) -> (p: (u8, u8))
        ensures
            p == (self.x, self.y),
    {
        (self.x, self.y)
    }

    /// Width and height.
    pub fn dimensions(&self) -> (d: (u8, u8))
        ensures
            d == (self.w, self.h),
    {
        (self.w, self.h)
    }
}

impl From<(u8, u8, u8, u8)> for Rect {
    fn from(t: (u8, u8, u8, u8)) -> (r: Self) {
        Rect { x: t.0, y: t.1, w: t.2, h: t.3 }
    }
}

impl FromSpecImpl<(u8, u8, u8, u8)> for Rect {
    open spec fn obeys_from_spec() -> bool {
        true
    }

    open spec fn from_spec(t: (u8, u8, u8, u8)) -> Self {
        Rect { x: t.0, y: t.1, w: t.2, h: t.3 }
    }
}

impl From<((u8, u8), (u8, u8))> for Rect {
    fn from(t: ((u8, u8), (u8, u8))) -> (r: Self) {
        Rect { x: t.0.0, y: t.0.1, w: t.1.0, h: t.1.1 }
    }
}

impl FromSpecImpl<((u8, u8), (u8, u8))> for Rect {
    open spec fn obeys_from_spec() -> bool {
        true
    }

    open spec fn from_spec(t: ((u8, u8), (u8, u8))) -> Self {
        Rect { x: t.0.0, y: t.0.1, w: t.1.0, h: t.1.1 }
    }
}

impl From<Rect> for (u8, u8, u8, u8) {
    fn from(r: Rect) -> (t: Self) {
        (r.x, r.y, r.w, r.h)
    }
}

impl FromSpecImpl<Rect> for (u8, u8, u8, u8) {
    open spec fn obeys_from_spec() -> bool {
        true
    }

    open spec fn from_spec(r: Rect) -> Self {
        (r.x, r.y, r.w, r.h)
    }
}

impl From<Rect> for ((u8, u8), (u8, u8)) {
    fn from(r: Rect) -> (t: Self) {
        ((r.x, r.y), (r.w, r.h))
    }
}

impl FromSpecImpl<Rect> for ((u8, u8), (u8, u8)) {
    open spec fn obeys_from_spec() -> bool {
        true
    }

    open spec fn from_spec(r: Rect) -> Self {
        ((r.x, r.y), (r.w, r.h))
    }
}

/// `a - b`, or zero where `b` is the larger.
pub open spec fn minus_or_zero(a: int, b: int) -> int {
    if a >= b {
        a - b
    } else {
        0
    }
}

/// `a * b`, or 255 where the product is larger.
pub open spec fn times_up_to_255(a: int, b: int) -> int {
    if a * b > 255 {
        255
    } else {
        a * b
    }
}

/// Whether the middle of the rectangle can be held in a `u8` pair.
pub open spec fn has_middle(r: Rect) -> bool {
    r.x + r.w / 2 <= 255 && r.y + r.h / 2 <= 255
}

/// Where a line of `text_length` glyphs starts, to stand in the middle of
/// the rectangle; column 0 or row 0 where it would start before them.
pub fn center_line_in_rect(text_length: u8, r: Rect) -> (xy: (u8, u8))
    requires
        has_middle(r),
    ensures
        xy.0 == minus_or_zero(r.x + r.w / 2, text_length * 2),
        xy.1 == minus_or_zero(r.y + r.h / 2, 4),
{
    let middle_x: u8 = r.x + (r.w / 2);
    let middle_y: u8 = r.y + (r.h / 2);
    let half_length: usize = text_length as usize * FONT_ADVANCE as usize / 2;
    let half_height: usize = FONT_SIZE as usize / 2;
    let text_x: usize = if middle_x as usize >= half_length {
        middle_x as usize - half_length
    } else {
        0
    };
    let text_y: usize = if middle_y as usize >= half_height {
        middle_y as usize - half_height
    } else {
        0
    };
    (text_x as u8, text_y as u8)
}

/// Where a box of the given width and height starts, to stand in the
/// middle of the rectangle; column 0 or row 0 where it would start before
/// them.
pub fn center_rect_in_rect(dimensions: (u8, u8), r: Rect) -> (xy: (u8, u8))
    requires
        has_middle(r),
    ensures
        xy.0 == minus_or_zero(r.x + r.w / 2, dimensions.0 as int / 2),
        xy.1 == minus_or_zero(r.y + r.h / 2, dimensions.1 as int / 2),
{
    let middle_x: u8 = r.x + (r.w / 2);
    let middle_y: u8 = r.y + (r.h / 2);
    let half_width: u8 = dimensions.0 / 2;
    let half_height: u8 = dimensions.1 / 2;
    let left_x: u8 = if middle_x >= half_width {
        middle_x - half_width
    } else {
        0
    };
    let top_y: u8 = if middle_y >= half_height {
        middle_y - half_height
    } else {
        0
    };
    (left_x, top_y)
}

/// The longest line's length, as the lowest eight bits of each length
/// give it, among the first `count` lines.
pub open spec fn widest(lines: Seq<&[u8]>, count: nat) -> int
    decreases count,
{
    if count == 0 {
        0
    } else {
        let rest = widest(lines, (count - 1) as nat);
        let this = lines[count - 1]@.len() as int % 256;
        if this > rest {
            this
        } else {
            rest
        }
    }
}

/// The width and height, in pixels, that lines of text take: the
/// longest line's glyphs by the advance, the number of lines by the
/// glyph's height, each held at 255.
pub fn get_text_dimensions(lines: &[&[u8]]) -> (d: (u8, u8))
    ensures
        d.0 == times_up_to_255(widest(lines@, lines@.len()), 4),
        d.1 == times_up_to_255(
            if lines@.len() > 255 {
                255
            } else {
                lines@.len() as int
            },
            8,
        ),
{
    let mut width: u8 = 0;
    let mut height: u8 = 0;
    let mut i: usize = 0;
    while i < lines.len()
        invariant
            i <= lines@.len(),
            width == widest(lines@, i as nat),
            height == if i > 255 {
                255
            } else {
                i as int
            },
        decreases lines@.len() - i,
    {
        if height < 255 {
            height = height + 1;
        }
        let length: u8 = (lines[i].len() % 256) as u8;
        if length > width {
            width = length;
        }
        i += 1;
    }
    let wide: u8 = if width > 255 / FONT_ADVANCE {
        255
    } else {
        width * FONT_ADVANCE
    };
    let high: u8 = if height > 255 / FONT_SIZE {
        255
    } else {
        height * FONT_SIZE
    };
    (wide, high)
}

/// A line of text that fits takes, as a box, the place that it takes as a
/// line: centring its dimensions in a rectangle gives the start that
/// centring the line gives.
pub proof fn lemma_line_centres_as_its_box(text_length: u8, r: Rect)
    requires
        text_length * 4 <= 255,
    ensures
        minus_or_zero(r.x + r.w / 2, times_up_to_255(text_length as int, 4) / 2) == minus_or_zero(
            r.x + r.w / 2,
            text_length * 2,
        ),
        minus_or_zero(r.y + r.h / 2, times_up_to_255(1, 8) / 2) == minus_or_zero(
            r.y + r.h / 2,
            4,
        ),
{
}

} // verus!
