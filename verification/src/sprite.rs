//! Sprites and glyphs, copied out of a sheet of palette indices that the
//! caller holds.

use crate::colour::{palette_colour, PALETTE};
use crate::framebuffer::{
    lemma_paint_with_nothing, lemma_paint_with_put, lemma_paint_with_same, paint_with,
    Dimensions, FramebufferInternal,
};
use crate::layout::{get_sprite_xy, GFX_WIDTH, SPRITE_SIZE};
use vstd::prelude::*;

verus! {

/// The cell in column `x` and row `y` of a sheet, which is 128 cells
/// wide.
pub open spec fn sheet_cell(sheet: Seq<u8>, x: int, y: int) -> u8 {
    sheet[x + y * 128]
}

/// Whether the sheet holds every cell of the block of `width` by `height`
/// cells whose top left is `(x, y)`.
pub open spec fn sheet_holds(sheet: Seq<u8>, x: int, y: int, width: int, height: int) -> bool {
    width > 0 && height > 0 ==> (x + width - 1) + (y + height - 1) * 128 < sheet.len()
}

/// Whether every cell of the block of `width` by `height` cells whose top
/// left is `(x, y)` is a palette index, or equal to `clear`.
pub open spec fn block_in_palette(
    sheet: Seq<u8>,
    x: int,
    y: int,
    width: int,
    height: int,
    clear: u8,
) -> bool {
    forall|cx: int, cy: int|
        x <= cx < x + width && y <= cy < y + height ==> (#[trigger] sheet_cell(sheet, cx, cy)
            == clear || sheet_cell(sheet, cx, cy) < 8)
}

/// Whether every cell of the sheet is a palette index.
pub open spec fn palette_cells(sheet: Seq<u8>) -> bool {
    forall|k: int| 0 <= k < sheet.len() ==> #[trigger] sheet[k] < 8
}

/// Whether the sheet has all of its 128 rows, each cell a palette index:
/// then it holds every sprite that has a number.
pub open spec fn is_sprite_sheet(sheet: Seq<u8>) -> bool {
    sheet.len() >= 128 * 128 && palette_cells(sheet)
}

/// Whether the sheet has all of its 128 rows: then it holds every glyph.
pub open spec fn is_font_sheet(sheet: Seq<u8>) -> bool {
    sheet.len() >= 128 * 128
}

/// The colour that copying a block of the sheet to `(to_x, to_y)` gives
/// pixel `(px, py)`, if any. The block is `width` by `height` cells with
/// its top left at `(from_x, from_y)`; where `flipped`, it is copied
/// turned upside down and back to front. A cell equal to `clear` gives no
/// colour; another gives `ink` where there is one, and else the palette
/// colour of the cell.
pub open spec fn blit_colour(
    sheet: Seq<u8>,
    from_x: int,
    from_y: int,
    width: int,
    height: int,
    to_x: int,
    to_y: int,
    flipped: bool,
    clear: u8,
    ink: Option<u32>,
    px: int,
    py: int,
) -> Option<u32> {
    if to_x <= px < to_x + width && to_y <= py < to_y + height {
        let cell = if flipped {
            sheet_cell(
                sheet,
                from_x + width - 1 - (px - to_x),
                from_y + height - 1 - (py - to_y),
            )
        } else {
            sheet_cell(sheet, from_x + (px - to_x), from_y + (py - to_y))
        };
        if cell == clear {
            None
        } else {
            match ink {
                Some(colour) => Some(colour),
                None => Some(palette_colour(cell as int)),
            }
        }
    } else {
        None
    }
}

/// The buffer with a block of the sheet copied into it.
pub open spec fn blitted(
    buffer: Seq<u32>,
    screen_width: int,
    screen_height: int,
    sheet: Seq<u8>,
    from_x: int,
    from_y: int,
    width: int,
    height: int,
    to_x: int,
    to_y: int,
    flipped: bool,
    clear: u8,
    ink: Option<u32>,
) -> Seq<u32> {
    paint_with(
        buffer,
        screen_width,
        screen_height,
        |px: int, py: int|
            blit_colour(
                sheet,
                from_x,
                from_y,
                width,
                height,
                to_x,
                to_y,
                flipped,
                clear,
                ink,
                px,
                py,
            ),
    )
}

/// The part of a copy that is done when `rows` rows and, of the next row,
/// `columns` cells have been copied.
pub open spec fn blit_so_far(
    sheet: Seq<u8>,
    from_x: int,
    from_y: int,
    width: int,
    height: int,
    to_x: int,
    to_y: int,
    flipped: bool,
    clear: u8,
    ink: Option<u32>,
    rows: int,
    columns: int,
    px: int,
    py: int,
) -> Option<u32> {
    if py - to_y < rows || (py - to_y == rows && px - to_x < columns) {
        blit_colour(sheet, from_x, from_y, width, height, to_x, to_y, flipped, clear, ink, px, py)
    } else {
        None
    }
}

fn palette_entry(cell: u8) -> (colour: u32)
    requires
        cell < 8,
    ensures
        colour == palette_colour(cell as int),
{
    PALETTE[cell as usize]
}

impl<D: Dimensions> FramebufferInternal<D> {
    pub(crate) fn blit(
        &mut self,
        sheet: &[u8],
        from_x: u8,
        from_y: u8,
        width: u8,
        height: u8,
        to_x: u8,
        to_y: u8,
        flipped: bool,
        clear: u8,
        ink: Option<u32>,
    )
        requires
            sheet_holds(sheet@, from_x as int, from_y as int, width as int, height as int),
            ink.is_none() ==> block_in_palette(
                sheet@,
                from_x as int,
                from_y as int,
                width as int,
                height as int,
                clear,
            ),
        ensures
            final(self)@.len() == old(self)@.len(),
            final(self)@ == blitted(
                old(self)@,
                Self::width(),
                Self::height(),
                sheet@,
                from_x as int,
                from_y as int,
                width as int,
                height as int,
                to_x as int,
                to_y as int,
                flipped,
                clear,
                ink,
            ),
    {
        let ghost before = self@;
        let ghost w = Self::width();
        let ghost h = Self::height();
        let s_w: usize = width as usize;
        let s_h: usize = height as usize;
        let s_x: usize = from_x as usize;
        let s_y: usize = from_y as usize;
        let d_x: usize = to_x as usize;
        let d_y: usize = to_y as usize;
        proof {
            lemma_paint_with_nothing(
                before,
                w,
                h,
                |px: int, py: int|
                    blit_so_far(
                        sheet@,
                        s_x as int,
                        s_y as int,
                        s_w as int,
                        s_h as int,
                        d_x as int,
                        d_y as int,
                        flipped,
                        clear,
                        ink,
                        0,
                        0,
                        px,
                        py,
                    ),
            );
        }
        let mut row: usize = 0;
        while row < s_h
            invariant
                w == Self::width(),
                h == Self::height(),
                s_w == width,
                s_h == height,
                s_x == from_x,
                s_y == from_y,
                d_x == to_x,
                d_y == to_y,
                row <= s_h,
                sheet_holds(sheet@, s_x as int, s_y as int, s_w as int, s_h as int),
                ink.is_none() ==> block_in_palette(
                    sheet@,
                    s_x as int,
                    s_y as int,
                    s_w as int,
                    s_h as int,
                    clear,
                ),
                self@ == paint_with(
                    before,
                    w,
                    h,
                    |px: int, py: int|
                        blit_so_far(
                            sheet@,
                            s_x as int,
                            s_y as int,
                            s_w as int,
                            s_h as int,
                            d_x as int,
                            d_y as int,
                            flipped,
                            clear,
                            ink,
                            row as int,
                            0,
                            px,
                            py,
                        ),
                ),
            decreases s_h - row,
        {
            let mut column: usize = 0;
            while column < s_w
                invariant
                    w == Self::width(),
                    h == Self::height(),
                    s_w == width,
                    s_h == height,
                    s_x == from_x,
                    s_y == from_y,
                    d_x == to_x,
                    d_y == to_y,
                    row < s_h,
                    column <= s_w,
                    sheet_holds(sheet@, s_x as int, s_y as int, s_w as int, s_h as int),
                    ink.is_none() ==> block_in_palette(
                        sheet@,
                        s_x as int,
                        s_y as int,
                        s_w as int,
                        s_h as int,
                        clear,
                    ),
                    self@ == paint_with(
                        before,
                        w,
                        h,
                        |px: int, py: int|
                            blit_so_far(
                                sheet@,
                                s_x as int,
                                s_y as int,
                                s_w as int,
                                s_h as int,
                                d_x as int,
                                d_y as int,
                                flipped,
                                clear,
                                ink,
                                row as int,
                                column as int,
                                px,
                                py,
                            ),
                    ),
                decreases s_w - column,
            {
                let cell_x: usize = if flipped {
                    s_x + s_w - 1 - column
                } else {
                    s_x + column
                };
                let cell_y: usize = if flipped {
                    s_y + s_h - 1 - row
                } else {
                    s_y + row
                };
                assert(cell_x + cell_y * 128 <= (s_x + s_w - 1) + (s_y + s_h - 1) * 128);
                let cell: u8 = sheet[cell_x + cell_y * GFX_WIDTH];
                assert(cell == sheet_cell(sheet@, cell_x as int, cell_y as int));
                let ghost so_far = |px: int, py: int|
                    blit_so_far(
                        sheet@,
                        s_x as int,
                        s_y as int,
                        s_w as int,
                        s_h as int,
                        d_x as int,
                        d_y as int,
                        flipped,
                        clear,
                        ink,
                        row as int,
                        column as int,
                        px,
                        py,
                    );
                let ghost further = |px: int, py: int|
                    blit_so_far(
                        sheet@,
                        s_x as int,
                        s_y as int,
                        s_w as int,
                        s_h as int,
                        d_x as int,
                        d_y as int,
                        flipped,
                        clear,
                        ink,
                        row as int,
                        column + 1,
                        px,
                        py,
                    );
                if cell != clear {
                    let colour: u32 = match ink {
                        Some(c) => c,
                        None => palette_entry(cell),
                    };
                    proof {
                        lemma_paint_with_put(
                            before,
                            w,
                            h,
                            so_far,
                            d_x + column,
                            d_y + row,
                            colour,
                        );
                        lemma_paint_with_same(
                            before,
                            w,
                            h,
                            |px: int, py: int|
                                if px == d_x + column && py == d_y + row {
                                    Some(colour)
                                } else {
                                    so_far(px, py)
                                },
                            further,
                        );
                    }
                    self.set_pixel(d_x + column, d_y + row, colour);
                } else {
                    proof {
                        lemma_paint_with_same(before, w, h, so_far, further);
                    }
                }
                column += 1;
            }
            proof {
                lemma_paint_with_same(
                    before,
                    w,
                    h,
                    |px: int, py: int|
                        blit_so_far(
                            sheet@,
                            s_x as int,
                            s_y as int,
                            s_w as int,
                            s_h as int,
                            d_x as int,
                            d_y as int,
                            flipped,
                            clear,
                            ink,
                            row as int,
                            column as int,
                            px,
                            py,
                        ),
                    |px: int, py: int|
                        blit_so_far(
                            sheet@,
                            s_x as int,
                            s_y as int,
                            s_w as int,
                            s_h as int,
                            d_x as int,
                            d_y as int,
                            flipped,
                            clear,
                            ink,
                            row + 1,
                            0,
                            px,
                            py,
                        ),
                );
            }
            row += 1;
        }
        proof {
            lemma_paint_with_same(
                before,
                w,
                h,
                |px: int, py: int|
                    blit_so_far(
                        sheet@,
                        s_x as int,
                        s_y as int,
                        s_w as int,
                        s_h as int,
                        d_x as int,
                        d_y as int,
                        flipped,
                        clear,
                        ink,
                        row as int,
                        0,
                        px,
                        py,
                    ),
                |px: int, py: int|
                    blit_colour(
                        sheet@,
                        from_x as int,
                        from_y as int,
                        width as int,
                        height as int,
                        to_x as int,
                        to_y as int,
                        flipped,
                        clear,
                        ink,
                        px,
                        py,
                    ),
            );
        }
    }
}

/// The colour in which a sprite's cells equal to it are left out.
pub const SPRITE_CLEAR: u8 = 4;

/// The colour in which a flipped sprite's cells equal to it are left out.
pub const FLIPPED_SPRITE_CLEAR: u8 = 2;

/// The buffer with sprite `number` of the sheet drawn with its top left
/// at `(x, y)`.
pub open spec fn sprite_put(
    buffer: Seq<u32>,
    screen_width: int,
    screen_height: int,
    gfx: Seq<u8>,
    number: int,
    x: int,
    y: int,
) -> Seq<u32> {
    blitted(
        buffer,
        screen_width,
        screen_height,
        gfx,
        (number % 16) * 8,
        (number / 16) * 8,
        8,
        8,
        x,
        y,
        false,
        SPRITE_CLEAR,
        None,
    )
}

/// The buffer with sprite `number` of the sheet drawn upside down and
/// back to front, with its top left at `(x, y)`.
pub open spec fn sprite_put_flipped(
    buffer: Seq<u32>,
    screen_width: int,
    screen_height: int,
    gfx: Seq<u8>,
    number: int,
    x: int,
    y: int,
) -> Seq<u32> {
    blitted(
        buffer,
        screen_width,
        screen_height,
        gfx,
        (number % 16) * 8,
        (number / 16) * 8,
        8,
        8,
        x,
        y,
        true,
        FLIPPED_SPRITE_CLEAR,
        None,
    )
}

impl<D: Dimensions> FramebufferInternal<D> {
    /// Copies a block of the sprite sheet to `(display_x, display_y)`,
    /// leaving out the cells of colour 4. Pixels that the buffer lacks
    /// are passed over.
    pub fn sspr(
        &mut self,
        gfx: &[u8],
        sprite_x: u8,
        sprite_y: u8,
        sprite_w: u8,
        sprite_h: u8,
        display_x: u8,
        display_y: u8,
    )
        requires
            sheet_holds(gfx@, sprite_x as int, sprite_y as int, sprite_w as int, sprite_h as int),
            block_in_palette(
                gfx@,
                sprite_x as int,
                sprite_y as int,
                sprite_w as int,
                sprite_h as int,
                SPRITE_CLEAR,
            ),
        ensures
            final(self)@.len() == old(self)@.len(),
            final(self)@ == blitted(
                old(self)@,
                Self::width(),
                Self::height(),
                gfx@,
                sprite_x as int,
                sprite_y as int,
                sprite_w as int,
                sprite_h as int,
                display_x as int,
                display_y as int,
                false,
                SPRITE_CLEAR,
                None,
            ),
    {
        self.blit(
            gfx,
            sprite_x,
            sprite_y,
            sprite_w,
            sprite_h,
            display_x,
            display_y,
            false,
            SPRITE_CLEAR,
            None,
        );
    }

    /// Copies a block of the sprite sheet to `(display_x, display_y)`
    /// upside down and back to front, leaving out the cells of colour 2.
    /// Pixels that the buffer lacks are passed over.
    pub fn sspr_flip_both(
        &mut self,
        gfx: &[u8],
        sprite_x: u8,
        sprite_y: u8,
        sprite_w: u8,
        sprite_h: u8,
        display_x: u8,
        display_y: u8,
    )
        requires
            sheet_holds(gfx@, sprite_x as int, sprite_y as int, sprite_w as int, sprite_h as int),
            block_in_palette(
                gfx@,
                sprite_x as int,
                sprite_y as int,
                sprite_w as int,
                sprite_h as int,
                FLIPPED_SPRITE_CLEAR,
            ),
        ensures
            final(self)@.len() == old(self)@.len(),
            final(self)@ == blitted(
                old(self)@,
                Self::width(),
                Self::height(),
                gfx@,
                sprite_x as int,
                sprite_y as int,
                sprite_w as int,
                sprite_h as int,
                display_x as int,
                display_y as int,
                true,
                FLIPPED_SPRITE_CLEAR,
                None,
            ),
    {
        self.blit(
            gfx,
            sprite_x,
            sprite_y,
            sprite_w,
            sprite_h,
            display_x,
            display_y,
            true,
            FLIPPED_SPRITE_CLEAR,
            None,
        );
    }

    /// Draws sprite `sprite_number` with its top left at `(x, y)`.
    pub fn spr(&mut self, gfx: &[u8], sprite_number: u8, x: u8, y: u8)
        requires
            is_sprite_sheet(gfx@),
        ensures
            final(self)@.len() == old(self)@.len(),
            final(self)@ == sprite_put(
                old(self)@,
                Self::width(),
                Self::height(),
                gfx@,
                sprite_number as int,
                x as int,
                y as int,
            ),
    {
        let (sprite_x, sprite_y) = get_sprite_xy(sprite_number);
        self.sspr(gfx, sprite_x, sprite_y, SPRITE_SIZE, SPRITE_SIZE, x, y);
    }

    /// Draws sprite `sprite_number` upside down and back to front, with
    /// its top left at `(x, y)`.
    pub fn spr_flip_both(&mut self, gfx: &[u8], sprite_number: u8, x: u8, y: u8)
        requires
            is_sprite_sheet(gfx@),
        ensures
            final(self)@.len() == old(self)@.len(),
            final(self)@ == sprite_put_flipped(
                old(self)@,
                Self::width(),
                Self::height(),
                gfx@,
                sprite_number as int,
                x as int,
                y as int,
            ),
    {
        let (sprite_x, sprite_y) = get_sprite_xy(sprite_number);
        self.sspr_flip_both(gfx, sprite_x, sprite_y, SPRITE_SIZE, SPRITE_SIZE, x, y);
    }
}

} // verus!
