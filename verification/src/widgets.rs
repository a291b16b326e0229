//! Windows, buttons, rows and checkboxes, put together from sprites.

use crate::framebuffer::{Dimensions, FramebufferInternal, SCREEN_HEIGHT, SCREEN_WIDTH};
use crate::sprite::{is_sprite_sheet, sprite_put};
use vstd::prelude::*;

verus! {

/// The numbers of the sprites that the widgets are made of. A window or a
/// button is given by its top left sprite, which has the rest of its top
/// row right of it in the sheet and its middle and bottom row below; a
/// row by its left sprite, which has its middle and its right sprite
/// right of it.
#[derive(Clone, Copy, Debug)]
pub struct WidgetSprites {
    pub window_top_left: u8,
    pub button_top_left: u8,
    pub button_hot_top_left: u8,
    pub button_pressed_top_left: u8,
    pub row_left_edge: u8,
    pub row_hot_left_edge: u8,
    pub row_pressed_left_edge: u8,
    pub row_marker_left_edge: u8,
    pub checked: u8,
    pub unchecked: u8,
    pub hot_checked: u8,
    pub hot_unchecked: u8,
    pub pressed_checked: u8,
    pub pressed_unchecked: u8,
}

/// The nine sprites of a box: its corners, its edges and its middle.
#[derive(Clone, Copy, Debug)]
pub struct Slices {
    pub top_left: u8,
    pub top: u8,
    pub top_right: u8,
    pub middle_left: u8,
    pub middle: u8,
    pub middle_right: u8,
    pub bottom_left: u8,
    pub bottom: u8,
    pub bottom_right: u8,
}

/// The nine sprites of the box whose top left sprite is `top_left`: three
/// in a row of the sheet, three in the row below, three in the row below
/// that.
pub open spec fn nine_slices(top_left: u8) -> Slices {
    Slices {
        top_left,
        top: (top_left + 1) as u8,
        top_right: (top_left + 2) as u8,
        middle_left: (top_left + 16) as u8,
        middle: (top_left + 17) as u8,
        middle_right: (top_left + 18) as u8,
        bottom_left: (top_left + 32) as u8,
        bottom: (top_left + 33) as u8,
        bottom_right: (top_left + 34) as u8,
    }
}

/// The same box without its top row: in its place stands the middle row.
pub open spec fn bottom_six_slices(top_left: u8) -> Slices {
    Slices {
        top_left: (top_left + 16) as u8,
        top: (top_left + 17) as u8,
        top_right: (top_left + 18) as u8,
        middle_left: (top_left + 16) as u8,
        middle: (top_left + 17) as u8,
        middle_right: (top_left + 18) as u8,
        bottom_left: (top_left + 32) as u8,
        bottom: (top_left + 33) as u8,
        bottom_right: (top_left + 34) as u8,
    }
}

/// `from + length`, held at 255.
pub open spec fn far_end(from: int, length: int) -> int {
    if from + length > 255 {
        255
    } else {
        from + length
    }
}

/// Where the last sprite of a run of `length` pixels from `from` starts:
/// a sprite's size before the run's end, and not before 0.
pub open spec fn last_start(from: int, length: int) -> int {
    if far_end(from, length) < 8 {
        0
    } else {
        far_end(from, length) - 8
    }
}

/// The buffer with sprite `number` drawn in row `y` at `from` and at
/// every eighth column after it that lies before `to`.
pub open spec fn sprites_across(
    buffer: Seq<u32>,
    screen_width: int,
    screen_height: int,
    gfx: Seq<u8>,
    number: int,
    from: int,
    to: int,
    y: int,
) -> Seq<u32>
    decreases
            (if to > from {
                to - from
            } else {
                0
            }),
{
    if from >= to {
        buffer
    } else {
        sprites_across(
            sprite_put(buffer, screen_width, screen_height, gfx, number, from, y),
            screen_width,
            screen_height,
            gfx,
            number,
            from + 8,
            to,
            y,
        )
    }
}

/// The buffer with such a run of sprites drawn in row `from_y` and in
/// every eighth row after it that lies before `to_y`.
pub open spec fn sprites_grid(
    buffer: Seq<u32>,
    screen_width: int,
    screen_height: int,
    gfx: Seq<u8>,
    number: int,
    from_x: int,
    to_x: int,
    from_y: int,
    to_y: int,
) -> Seq<u32>
    decreases
            (if to_y > from_y {
                to_y - from_y
            } else {
                0
            }),
{
    if from_y >= to_y {
        buffer
    } else {
        sprites_grid(
            sprites_across(
                buffer,
                screen_width,
                screen_height,
                gfx,
                number,
                from_x,
                to_x,
                from_y,
            ),
            screen_width,
            screen_height,
            gfx,
            number,
            from_x,
            to_x,
            from_y + 8,
            to_y,
        )
    }
}

/// The buffer with two runs of sprites drawn by turns: at each column
/// sprite `upper` in row `upper_y`, then sprite `lower` in row `lower_y`.
pub open spec fn sprite_pairs_across(
    buffer: Seq<u32>,
    screen_width: int,
    screen_height: int,
    gfx: Seq<u8>,
    upper: int,
    upper_y: int,
    lower: int,
    lower_y: int,
    from: int,
    to: int,
) -> Seq<u32>
    decreases
            (if to > from {
                to - from
            } else {
                0
            }),
{
    if from >= to {
        buffer
    } else {
        sprite_pairs_across(
            sprite_put(
                sprite_put(buffer, screen_width, screen_height, gfx, upper, from, upper_y),
                screen_width,
                screen_height,
                gfx,
                lower,
                from,
                lower_y,
            ),
            screen_width,
            screen_height,
            gfx,
            upper,
            upper_y,
            lower,
            lower_y,
            from + 8,
            to,
        )
    }
}

/// The buffer with two runs of sprites drawn downwards by turns: at each
/// row sprite `left` in column `left_x`, then sprite `right` in column
/// `right_x`.
pub open spec fn sprite_pairs_down(
    buffer: Seq<u32>,
    screen_width: int,
    screen_height: int,
    gfx: Seq<u8>,
    left: int,
    left_x: int,
    right: int,
    right_x: int,
    from: int,
    to: int,
) -> Seq<u32>
    decreases
            (if to > from {
                to - from
            } else {
                0
            }),
{
    if from >= to {
        buffer
    } else {
        sprite_pairs_down(
            sprite_put(
                sprite_put(buffer, screen_width, screen_height, gfx, left, left_x, from),
                screen_width,
                screen_height,
                gfx,
                right,
                right_x,
                from,
            ),
            screen_width,
            screen_height,
            gfx,
            left,
            left_x,
            right,
            right_x,
            from + 8,
            to,
        )
    }
}

/// The buffer with a box of the given sprites drawn: first its middle,
/// then its top and bottom edge, then its left and right edge, then its
/// four corners. The box has its top left at `(x, y)`; its right and
/// bottom sprites start a sprite's size before its far ends.
pub open spec fn sliced(
    buffer: Seq<u32>,
    screen_width: int,
    screen_height: int,
    gfx: Seq<u8>,
    parts: Slices,
    x: int,
    y: int,
    width: int,
    height: int,
) -> Seq<u32> {
    let left = far_end(x, 8);
    let right = last_start(x, width);
    let top = far_end(y, 8);
    let bottom = last_start(y, height);
    let middle = sprites_grid(
        buffer,
        screen_width,
        screen_height,
        gfx,
        parts.middle as int,
        left,
        right,
        top,
        bottom,
    );
    let ends = sprite_pairs_across(
        middle,
        screen_width,
        screen_height,
        gfx,
        parts.top as int,
        y,
        parts.bottom as int,
        bottom,
        left,
        right,
    );
    let sides = sprite_pairs_down(
        ends,
        screen_width,
        screen_height,
        gfx,
        parts.middle_left as int,
        x,
        parts.middle_right as int,
        right,
        top,
        bottom,
    );
    let first = sprite_put(sides, screen_width, screen_height, gfx, parts.top_left as int, x, y);
    let second = sprite_put(
        first,
        screen_width,
        screen_height,
        gfx,
        parts.top_right as int,
        right,
        y,
    );
    let third = sprite_put(
        second,
        screen_width,
        screen_height,
        gfx,
        parts.bottom_left as int,
        x,
        bottom,
    );
    sprite_put(third, screen_width, screen_height, gfx, parts.bottom_right as int, right, bottom)
}

/// The buffer with a row drawn: its left sprite at `(x, y)`, its middle
/// sprite over and over, and its right sprite a sprite's size before the
/// row's far end.
pub open spec fn three_sliced(
    buffer: Seq<u32>,
    screen_width: int,
    screen_height: int,
    gfx: Seq<u8>,
    left_edge: int,
    x: int,
    y: int,
    width: int,
) -> Seq<u32> {
    let first = sprite_put(buffer, screen_width, screen_height, gfx, left_edge, x, y);
    let middle = sprites_across(
        first,
        screen_width,
        screen_height,
        gfx,
        left_edge + 1,
        far_end(x, 8),
        last_start(x, width),
        y,
    );
    sprite_put(
        middle,
        screen_width,
        screen_height,
        gfx,
        left_edge + 2,
        last_start(x, width),
        y,
    )
}

fn until(from: u8, length: u8) -> (r: u8)
    ensures
        r == far_end(from as int, length as int),
{
    if from as u16 + length as u16 > 255 {
        255
    } else {
        from + length
    }
}

fn before_end(from: u8, length: u8) -> (r: u8)
    ensures
        r == last_start(from as int, length as int),
{
    let end: u8 = until(from, length);
    if end < 8 {
        0
    } else {
        end - 8
    }
}

impl<D: Dimensions> FramebufferInternal<D> {
    fn spr_across(&mut self, gfx: &[u8], number: u8, from: u8, to: u8, y: u8)
        requires
            is_sprite_sheet(gfx@),
        ensures
            final(self)@.len() == old(self)@.len(),
            final(self)@ == sprites_across(
                old(self)@,
                Self::width(),
                Self::height(),
                gfx@,
                number as int,
                from as int,
                to as int,
                y as int,
            ),
    {
        let ghost before = self@;
        let mut fill_x: u16 = from as u16;
        while fill_x < to as u16
            invariant
                is_sprite_sheet(gfx@),
                self@.len() == before.len(),
                from <= fill_x <= 263,
                sprites_across(
                    self@,
                    Self::width(),
                    Self::height(),
                    gfx@,
                    number as int,
                    fill_x as int,
                    to as int,
                    y as int,
                ) == sprites_across(
                    before,
                    Self::width(),
                    Self::height(),
                    gfx@,
                    number as int,
                    from as int,
                    to as int,
                    y as int,
                ),
            decreases 264 - fill_x,
        {
            self.spr(gfx, number, fill_x as u8, y);
            fill_x += 8;
        }
    }

    fn spr_grid(&mut self, gfx: &[u8], number: u8, from_x: u8, to_x: u8, from_y: u8, to_y: u8)
        requires
            is_sprite_sheet(gfx@),
        ensures
            final(self)@.len() == old(self)@.len(),
            final(self)@ == sprites_grid(
                old(self)@,
                Self::width(),
                Self::height(),
                gfx@,
                number as int,
                from_x as int,
                to_x as int,
                from_y as int,
                to_y as int,
            ),
    {
        let ghost before = self@;
        let mut fill_y: u16 = from_y as u16;
        while fill_y < to_y as u16
            invariant
                is_sprite_sheet(gfx@),
                self@.len() == before.len(),
                from_y <= fill_y <= 263,
                sprites_grid(
                    self@,
                    Self::width(),
                    Self::height(),
                    gfx@,
                    number as int,
                    from_x as int,
                    to_x as int,
                    fill_y as int,
                    to_y as int,
                ) == sprites_grid(
                    before,
                    Self::width(),
                    Self::height(),
                    gfx@,
                    number as int,
                    from_x as int,
                    to_x as int,
                    from_y as int,
                    to_y as int,
                ),
            decreases 264 - fill_y,
        {
            self.spr_across(gfx, number, from_x, to_x, fill_y as u8);
            fill_y += 8;
        }
    }

    fn spr_pairs_across(
        &mut self,
        gfx: &[u8],
        upper: u8,
        upper_y: u8,
        lower: u8,
        lower_y: u8,
        from: u8,
        to: u8,
    )
        requires
            is_sprite_sheet(gfx@),
        ensures
            final(self)@.len() == old(self)@.len(),
            final(self)@ == sprite_pairs_across(
                old(self)@,
                Self::width(),
                Self::height(),
                gfx@,
                upper as int,
                upper_y as int,
                lower as int,
                lower_y as int,
                from as int,
                to as int,
            ),
    {
        let ghost before = self@;
        let mut fill_x: u16 = from as u16;
        while fill_x < to as u16
            invariant
                is_sprite_sheet(gfx@),
                self@.len() == before.len(),
                from <= fill_x <= 263,
                sprite_pairs_across(
                    self@,
                    Self::width(),
                    Self::height(),
                    gfx@,
                    upper as int,
                    upper_y as int,
                    lower as int,
                    lower_y as int,
                    fill_x as int,
                    to as int,
                ) == sprite_pairs_across(
                    before,
                    Self::width(),
                    Self::height(),
                    gfx@,
                    upper as int,
                    upper_y as int,
                    lower as int,
                    lower_y as int,
                    from as int,
                    to as int,
                ),
            decreases 264 - fill_x,
        {
            self.spr(gfx, upper, fill_x as u8, upper_y);
            self.spr(gfx, lower, fill_x as u8, lower_y);
            fill_x += 8;
        }
    }

    fn spr_pairs_down(
        &mut self,
        gfx: &[u8],
        left: u8,
        left_x: u8,
        right: u8,
        right_x: u8,
        from: u8,
        to: u8,
    )
        requires
            is_sprite_sheet(gfx@),
        ensures
            final(self)@.len() == old(self)@.len(),
            final(self)@ == sprite_pairs_down(
                old(self)@,
                Self::width(),
                Self::height(),
                gfx@,
                left as int,
                left_x as int,
                right as int,
                right_x as int,
                from as int,
                to as int,
            ),
    {
        let ghost before = self@;
        let mut fill_y: u16 = from as u16;
        while fill_y < to as u16
            invariant
                is_sprite_sheet(gfx@),
                self@.len() == before.len(),
                from <= fill_y <= 263,
                sprite_pairs_down(
                    self@,
                    Self::width(),
                    Self::height(),
                    gfx@,
                    left as int,
                    left_x as int,
                    right as int,
                    right_x as int,
                    fill_y as int,
                    to as int,
                ) == sprite_pairs_down(
                    before,
                    Self::width(),
                    Self::height(),
                    gfx@,
                    left as int,
                    left_x as int,
                    right as int,
                    right_x as int,
                    from as int,
                    to as int,
                ),
            decreases 264 - fill_y,
        {
            self.spr(gfx, left, left_x, fill_y as u8);
            self.spr(gfx, right, right_x, fill_y as u8);
            fill_y += 8;
        }
    }

    fn draw_slices(&mut self, gfx: &[u8], parts: Slices, x: u8, y: u8, w: u8, h: u8)
        requires
            is_sprite_sheet(gfx@),
        ensures
            final(self)@.len() == old(self)@.len(),
            final(self)@ == sliced(
                old(self)@,
                Self::width(),
                Self::height(),
                gfx@,
                parts,
                x as int,
                y as int,
                w as int,
                h as int,
            ),
    {
        let after_left_corner: u8 = until(x, 8);
        let before_right_corner: u8 = before_end(x, w);
        let below_top_corner: u8 = until(y, 8);
        let above_bottom_corner: u8 = before_end(y, h);
        self.spr_grid(
            gfx,
            parts.middle,
            after_left_corner,
            before_right_corner,
            below_top_corner,
            above_bottom_corner,
        );
        self.spr_pairs_across(
            gfx,
            parts.top,
            y,
            parts.bottom,
            above_bottom_corner,
            after_left_corner,
            before_right_corner,
        );
        self.spr_pairs_down(
            gfx,
            parts.middle_left,
            x,
            parts.middle_right,
            before_right_corner,
            below_top_corner,
            above_bottom_corner,
        );
        self.spr(gfx, parts.top_left, x, y);
        self.spr(gfx, parts.top_right, before_right_corner, y);
        self.spr(gfx, parts.bottom_left, x, above_bottom_corner);
        self.spr(gfx, parts.bottom_right, before_right_corner, above_bottom_corner);
    }

    /// Draws a box of `w` by `h` pixels out of the nine sprites of which
    /// `top_left` is the first.
    pub fn nine_slice(&mut self, gfx: &[u8], top_left: u8, x: u8, y: u8, w: u8, h: u8)
        requires
            is_sprite_sheet(gfx@),
            top_left <= 221,
        ensures
            final(self)@.len() == old(self)@.len(),
            final(self)@ == sliced(
                old(self)@,
                Self::width(),
                Self::height(),
                gfx@,
                nine_slices(top_left),
                x as int,
                y as int,
                w as int,
                h as int,
            ),
    {
        let parts = Slices {
            top_left,
            top: top_left + 1,
            top_right: top_left + 2,
            middle_left: top_left + 16,
            middle: top_left + 17,
            middle_right: top_left + 18,
            bottom_left: top_left + 32,
            bottom: top_left + 33,
            bottom_right: top_left + 34,
        };
        self.draw_slices(gfx, parts, x, y, w, h);
    }

    /// Draws a box of `w` by `h` pixels out of the middle and bottom row
    /// of the nine sprites of which `top_left` is the first: the middle
    /// row stands for the top row too.
    pub fn bottom_six_slice(&mut self, gfx: &[u8], top_left: u8, x: u8, y: u8, w: u8, h: u8)
        requires
            is_sprite_sheet(gfx@),
            top_left <= 221,
        ensures
            final(self)@.len() == old(self)@.len(),
            final(self)@ == sliced(
                old(self)@,
                Self::width(),
                Self::height(),
                gfx@,
                bottom_six_slices(top_left),
                x as int,
                y as int,
                w as int,
                h as int,
            ),
    {
        let parts = Slices {
            top_left: top_left + 16,
            top: top_left + 17,
            top_right: top_left + 18,
            middle_left: top_left + 16,
            middle: top_left + 17,
            middle_right: top_left + 18,
            bottom_left: top_left + 32,
            bottom: top_left + 33,
            bottom_right: top_left + 34,
        };
        self.draw_slices(gfx, parts, x, y, w, h);
    }

    /// Draws a row of `w` pixels out of the three sprites of which
    /// `left_edge` is the first.
    pub fn three_slice(&mut self, gfx: &[u8], left_edge: u8, x: u8, y: u8, w: u8)
        requires
            is_sprite_sheet(gfx@),
            left_edge <= 253,
        ensures
            final(self)@.len() == old(self)@.len(),
            final(self)@ == three_sliced(
                old(self)@,
                Self::width(),
                Self::height(),
                gfx@,
                left_edge as int,
                x as int,
                y as int,
                w as int,
            ),
    {
        let after_left_corner: u8 = until(x, 8);
        let before_right_corner: u8 = before_end(x, w);
        self.spr(gfx, left_edge, x, y);
        self.spr_across(gfx, left_edge + 1, after_left_corner, before_right_corner, y);
        self.spr(gfx, left_edge + 2, before_right_corner, y);
    }

    /// Draws a window over the whole of the default screen.
    pub fn full_window(&mut self, gfx: &[u8], sprites: &WidgetSprites)
        requires
            is_sprite_sheet(gfx@),
            sprites.window_top_left <= 221,
        ensures
            final(self)@.len() == old(self)@.len(),
            final(self)@ == sliced(
                old(self)@,
                Self::width(),
                Self::height(),
                gfx@,
                nine_slices(sprites.window_top_left),
                0,
                0,
                128,
                128,
            ),
    {
        self.window(gfx, sprites, 0, 0, SCREEN_WIDTH as u8, SCREEN_HEIGHT as u8);
    }

    /// Draws a window over the middle of the default screen, half as wide
    /// and half as high as it.
    pub fn center_half_window(&mut self, gfx: &[u8], sprites: &WidgetSprites)
        requires
            is_sprite_sheet(gfx@),
            sprites.window_top_left <= 221,
        ensures
            final(self)@.len() == old(self)@.len(),
            final(self)@ == sliced(
                old(self)@,
                Self::width(),
                Self::height(),
                gfx@,
                nine_slices(sprites.window_top_left),
                32,
                32,
                64,
                64,
            ),
    {
        self.window(
            gfx,
            sprites,
            SCREEN_WIDTH as u8 / 4,
            SCREEN_HEIGHT as u8 / 4,
            SCREEN_WIDTH as u8 / 2,
            SCREEN_HEIGHT as u8 / 2,
        );
    }

    /// Draws a window of `w` by `h` pixels with its top left at `(x, y)`.
    pub fn window(&mut self, gfx: &[u8], sprites: &WidgetSprites, x: u8, y: u8, w: u8, h: u8)
        requires
            is_sprite_sheet(gfx@),
            sprites.window_top_left <= 221,
        ensures
            final(self)@.len() == old(self)@.len(),
            final(self)@ == sliced(
                old(self)@,
                Self::width(),
                Self::height(),
                gfx@,
                nine_slices(sprites.window_top_left),
                x as int,
                y as int,
                w as int,
                h as int,
            ),
    {
        self.nine_slice(gfx, sprites.window_top_left, x, y, w, h);
    }

    /// Draws a button of `w` by `h` pixels with its top left at `(x, y)`.
    pub fn button(&mut self, gfx: &[u8], sprites: &WidgetSprites, x: u8, y: u8, w: u8, h: u8)
        requires
            is_sprite_sheet(gfx@),
            sprites.button_top_left <= 221,
        ensures
            final(self)@.len() == old(self)@.len(),
            final(self)@ == sliced(
                old(self)@,
                Self::width(),
                Self::height(),
                gfx@,
                nine_slices(sprites.button_top_left),
                x as int,
                y as int,
                w as int,
                h as int,
            ),
    {
        self.nine_slice(gfx, sprites.button_top_left, x, y, w, h);
    }

    /// Draws a button as it looks under the pointer.
    pub fn button_hot(&mut self, gfx: &[u8], sprites: &WidgetSprites, x: u8, y: u8, w: u8, h: u8)
        requires
            is_sprite_sheet(gfx@),
            sprites.button_hot_top_left <= 221,
        ensures
            final(self)@.len() == old(self)@.len(),
            final(self)@ == sliced(
                old(self)@,
                Self::width(),
                Self::height(),
                gfx@,
                nine_slices(sprites.button_hot_top_left),
                x as int,
                y as int,
                w as int,
                h as int,
            ),
    {
        self.nine_slice(gfx, sprites.button_hot_top_left, x, y, w, h);
    }

    /// Draws a button as it looks while it is held down.
    pub fn button_pressed(&mut self, gfx: &[u8], sprites: &WidgetSprites, x: u8, y: u8, w: u8, h: u8)
        requires
            is_sprite_sheet(gfx@),
            sprites.button_pressed_top_left <= 221,
        ensures
            final(self)@.len() == old(self)@.len(),
            final(self)@ == sliced(
                old(self)@,
                Self::width(),
                Self::height(),
                gfx@,
                nine_slices(sprites.button_pressed_top_left),
                x as int,
                y as int,
                w as int,
                h as int,
            ),
    {
        self.nine_slice(gfx, sprites.button_pressed_top_left, x, y, w, h);
    }

    /// Draws a row of `w` pixels with its left end at `(x, y)`.
    pub fn row(&mut self, gfx: &[u8], sprites: &WidgetSprites, x: u8, y: u8, w: u8)
        requires
            is_sprite_sheet(gfx@),
            sprites.row_left_edge <= 253,
        ensures
            final(self)@.len() == old(self)@.len(),
            final(self)@ == three_sliced(
                old(self)@,
                Self::width(),
                Self::height(),
                gfx@,
                sprites.row_left_edge as int,
                x as int,
                y as int,
                w as int,
            ),
    {
        self.three_slice(gfx, sprites.row_left_edge, x, y, w);
    }

    /// Draws a row as it looks under the pointer.
    pub fn row_hot(&mut self, gfx: &[u8], sprites: &WidgetSprites, x: u8, y: u8, w: u8)
        requires
            is_sprite_sheet(gfx@),
            sprites.row_hot_left_edge <= 253,
        ensures
            final(self)@.len() == old(self)@.len(),
            final(self)@ == three_sliced(
                old(self)@,
                Self::width(),
                Self::height(),
                gfx@,
                sprites.row_hot_left_edge as int,
                x as int,
                y as int,
                w as int,
            ),
    {
        self.three_slice(gfx, sprites.row_hot_left_edge, x, y, w);
    }

    /// Draws a row as it looks while it is held down.
    pub fn row_pressed(&mut self, gfx: &[u8], sprites: &WidgetSprites, x: u8, y: u8, w: u8)
        requires
            is_sprite_sheet(gfx@),
            sprites.row_pressed_left_edge <= 253,
        ensures
            final(self)@.len() == old(self)@.len(),
            final(self)@ == three_sliced(
                old(self)@,
                Self::width(),
                Self::height(),
                gfx@,
                sprites.row_pressed_left_edge as int,
                x as int,
                y as int,
                w as int,
            ),
    {
        self.three_slice(gfx, sprites.row_pressed_left_edge, x, y, w);
    }

    /// Draws the marker of a row.
    pub fn row_marker(&mut self, gfx: &[u8], sprites: &WidgetSprites, x: u8, y: u8, w: u8)
        requires
            is_sprite_sheet(gfx@),
            sprites.row_marker_left_edge <= 253,
        ensures
            final(self)@.len() == old(self)@.len(),
            final(self)@ == three_sliced(
                old(self)@,
                Self::width(),
                Self::height(),
                gfx@,
                sprites.row_marker_left_edge as int,
                x as int,
                y as int,
                w as int,
            ),
    {
        self.three_slice(gfx, sprites.row_marker_left_edge, x, y, w);
    }

    /// Draws a checkbox, ticked or empty.
    pub fn checkbox(&mut self, gfx: &[u8], sprites: &WidgetSprites, x: u8, y: u8, checked: bool)
        requires
            is_sprite_sheet(gfx@),
        ensures
            final(self)@.len() == old(self)@.len(),
            final(self)@ == sprite_put(
                old(self)@,
                Self::width(),
                Self::height(),
                gfx@,
                if checked {
                    sprites.checked as int
                } else {
                    sprites.unchecked as int
                },
                x as int,
                y as int,
            ),
    {
        self.spr(
            gfx,
            if checked {
                sprites.checked
            } else {
                sprites.unchecked
            },
            x,
            y,
        );
    }

    /// Draws a checkbox as it looks under the pointer.
    pub fn checkbox_hot(&mut self, gfx: &[u8], sprites: &WidgetSprites, x: u8, y: u8, checked: bool)
        requires
            is_sprite_sheet(gfx@),
        ensures
            final(self)@.len() == old(self)@.len(),
            final(self)@ == sprite_put(
                old(self)@,
                Self::width(),
                Self::height(),
                gfx@,
                if checked {
                    sprites.hot_checked as int
                } else {
                    sprites.hot_unchecked as int
                },
                x as int,
                y as int,
            ),
    {
        self.spr(
            gfx,
            if checked {
                sprites.hot_checked
            } else {
                sprites.hot_unchecked
            },
            x,
            y,
        );
    }

    /// Draws a checkbox as it looks while it is held down.
    pub fn checkbox_pressed(&mut self, gfx: &[u8], sprites: &WidgetSprites, x: u8, y: u8, checked: bool)
        requires
            is_sprite_sheet(gfx@),
        ensures
            final(self)@.len() == old(self)@.len(),
            final(self)@ == sprite_put(
                old(self)@,
                Self::width(),
                Self::height(),
                gfx@,
                if checked {
                    sprites.pressed_checked as int
                } else {
                    sprites.pressed_unchecked as int
                },
                x as int,
                y as int,
            ),
    {
        self.spr(
            gfx,
            if checked {
                sprites.pressed_checked
            } else {
                sprites.pressed_unchecked
            },
            x,
            y,
        );
    }
}

} // verus!
