//! A small hexagon of eight rows, drawn whole or by halves.

use crate::framebuffer::{put_pixel, Dimensions, FramebufferInternal};
use vstd::prelude::*;

verus! {

/// The hexagon, row by row, eight cells to the row: 0 leaves the pixel as
/// it is, 1 is the interior, 2 the outline.
pub const HEXAGON: [u8; 64] = [
    0, 0, 0, 0, 2, 2, 2, 2,
    0, 0, 0, 2, 1, 1, 1, 2,
    0, 0, 2, 1, 1, 1, 1, 2,
    0, 2, 1, 1, 1, 1, 1, 2,
    2, 1, 1, 1, 1, 1, 2, 0,
    2, 1, 1, 1, 1, 2, 0, 0,
    2, 1, 1, 1, 2, 0, 0, 0,
    2, 2, 2, 2, 0, 0, 0, 0,
];

/// The colour that a cell of the hexagon asks for; zero where it asks for
/// none.
pub open spec fn hexagon_colour(colour_spec: u8, interior: u32, outline: u32) -> u32 {
    if colour_spec == 1 {
        interior
    } else if colour_spec == 2 {
        outline
    } else {
        0
    }
}

/// The buffer with the cell in column `hex_x` and row `hex_y` of the
/// hexagon drawn: the pixel lies `hex_y` rows below `y` and, counting the
/// column within its half, up to three columns right of `x`, both taken
/// round at 256. A cell that asks for no colour, or for the colour zero,
/// changes nothing.
pub open spec fn hexagon_cell(
    buffer: Seq<u32>,
    width: int,
    height: int,
    x: int,
    y: int,
    hex_x: int,
    hex_y: int,
    interior: u32,
    outline: u32,
) -> Seq<u32> {
    let colour = hexagon_colour(HEXAGON[hex_y * 8 + hex_x], interior, outline);
    if colour > 0 {
        put_pixel(buffer, width, height, (x + hex_x % 4) % 256, (y + hex_y) % 256, colour)
    } else {
        buffer
    }
}

/// The buffer with the first `cells` cells drawn of the hexagon's columns
/// from `first` on, `columns` of them, taken row by row.
pub open spec fn hexagon_cells(
    buffer: Seq<u32>,
    width: int,
    height: int,
    x: int,
    y: int,
    first: int,
    columns: int,
    cells: nat,
    interior: u32,
    outline: u32,
) -> Seq<u32>
    decreases cells,
{
    if cells == 0 {
        buffer
    } else {
        hexagon_cell(
            hexagon_cells(
                buffer,
                width,
                height,
                x,
                y,
                first,
                columns,
                (cells - 1) as nat,
                interior,
                outline,
            ),
            width,
            height,
            x,
            y,
            first + (cells - 1) % columns,
            (cells - 1) / columns,
            interior,
            outline,
        )
    }
}

fn cell_at(hex_x: u8, hex_y: u8) -> (cell: u8)
    requires
        hex_y * 8 + hex_x < 64,
    ensures
        cell == HEXAGON[hex_y * 8 + hex_x],
{
    HEXAGON[(hex_y * 8 + hex_x) as usize]
}

fn within_half(x: u8, hex_x: u8) -> (column: u8)
    ensures
        column == (x + hex_x % 4) % 256,
{
    assert(hex_x & 0b11 == hex_x % 4) by (bit_vector);
    x.wrapping_add(hex_x & 0b11)
}

impl<D: Dimensions> FramebufferInternal<D> {
    /// The colour that a cell of the hexagon asks for.
    pub fn hexagon_match(colour_spec: u8, interior: u32, outline: u32) -> (colour: u32)
        ensures
            colour == hexagon_colour(colour_spec, interior, outline),
    {
        match colour_spec {
            1 => interior,
            2 => outline,
            _ => 0,
        }
    }

    /// Draws one cell of the hexagon whose top left is `(x, y)`; a pixel
    /// that the buffer lacks is passed over. The cell is one of the
    /// hexagon's sixty-four, counted row by row.
    pub fn hexagon_set_pixel(
        &mut self,
        x: u8,
        y: u8,
        hex_x: u8,
        hex_y: u8,
        interior: u32,
        outline: u32,
    )
        requires
            hex_y * 8 + hex_x < 64,
        ensures
            final(self)@.len() == old(self)@.len(),
            final(self)@ == hexagon_cell(
                old(self)@,
                Self::width(),
                Self::height(),
                x as int,
                y as int,
                hex_x as int,
                hex_y as int,
                interior,
                outline,
            ),
    {
        let c: u32 = Self::hexagon_match(cell_at(hex_x, hex_y), interior, outline);
        if c > 0 {
            let column: u8 = within_half(x, hex_x);
            let row: u8 = y.wrapping_add(hex_y);
            self.set_pixel(column as usize, row as usize, c);
        }
    }

    fn hexagon_columns(
        &mut self,
        x: u8,
        y: u8,
        first: u8,
        columns: u8,
        interior: u32,
        outline: u32,
    )
        requires
            columns == 4 || columns == 8,
            first + columns <= 8,
        ensures
            final(self)@.len() == old(self)@.len(),
            final(self)@ == hexagon_cells(
                old(self)@,
                Self::width(),
                Self::height(),
                x as int,
                y as int,
                first as int,
                columns as int,
                (8 * columns) as nat,
                interior,
                outline,
            ),
    {
        let ghost before = self@;
        let mut hex_y: u8 = 0;
        while hex_y < 8
            invariant
                self@.len() == before.len(),
                hex_y <= 8,
                columns == 4 || columns == 8,
                first + columns <= 8,
                self@ == hexagon_cells(
                    before,
                    Self::width(),
                    Self::height(),
                    x as int,
                    y as int,
                    first as int,
                    columns as int,
                    (hex_y * columns) as nat,
                    interior,
                    outline,
                ),
            decreases 8 - hex_y,
        {
            let mut column: u8 = 0;
            while column < columns
                invariant
                    self@.len() == before.len(),
                    hex_y < 8,
                    column <= columns,
                    columns == 4 || columns == 8,
                    first + columns <= 8,
                    self@ == hexagon_cells(
                        before,
                        Self::width(),
                        Self::height(),
                        x as int,
                        y as int,
                        first as int,
                        columns as int,
                        (hex_y * columns + column) as nat,
                        interior,
                        outline,
                    ),
                decreases columns - column,
            {
                proof {
                    let cell = (hex_y * columns + column) as int;
                    assert(cell / (columns as int) == hex_y && cell % (columns as int) == column);
                }
                self.hexagon_set_pixel(x, y, first + column, hex_y, interior, outline);
                column += 1;
            }
            hex_y += 1;
        }
    }

    /// Draws the whole hexagon, cell by cell and row by row. Both halves
    /// fall on the same four columns, the right half over the left.
    pub fn hexagon(&mut self, x: u8, y: u8, interior: u32, outline: u32)
        ensures
            final(self)@.len() == old(self)@.len(),
            final(self)@ == hexagon_cells(
                old(self)@,
                Self::width(),
                Self::height(),
                x as int,
                y as int,
                0,
                8,
                64,
                interior,
                outline,
            ),
    {
        self.hexagon_columns(x, y, 0, 8, interior, outline);
    }

    /// Draws the left half of the hexagon.
    pub fn hexagon_left(&mut self, x: u8, y: u8, interior: u32, outline: u32)
        ensures
            final(self)@.len() == old(self)@.len(),
            final(self)@ == hexagon_cells(
                old(self)@,
                Self::width(),
                Self::height(),
                x as int,
                y as int,
                0,
                4,
                32,
                interior,
                outline,
            ),
    {
        self.hexagon_columns(x, y, 0, 4, interior, outline);
    }

    /// Draws the right half of the hexagon, on the four columns from `x`.
    pub fn hexagon_right(&mut self, x: u8, y: u8, interior: u32, outline: u32)
        ensures
            final(self)@.len() == old(self)@.len(),
            final(self)@ == hexagon_cells(
                old(self)@,
                Self::width(),
                Self::height(),
                x as int,
                y as int,
                4,
                4,
                32,
                interior,
                outline,
            ),
    {
        self.hexagon_columns(x, y, 4, 4, interior, outline);
    }
}

} // verus!
