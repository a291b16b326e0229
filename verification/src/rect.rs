//! Upright rectangles: filled, outlined, and outlined with a colour that a
//! function chooses for each pixel.

use crate::framebuffer::{
    column_of, fill_where, lemma_coords_linear, lemma_fill_where_nothing, lemma_fill_where_put,
    lemma_fill_where_same, lemma_linear_coords, on_screen, row_of, Dimensions,
    FramebufferInternal,
};
use vstd::prelude::*;

verus! {

/// Whether pixel `(px, py)` lies in the rectangle whose top left pixel is
/// `(x, y)`.
pub open spec fn in_rect(x: int, y: int, width: int, height: int, px: int, py: int) -> bool {
    x <= px < x + width && y <= py < y + height
}

/// Whether pixel `(px, py)` lies in the rectangle's first or last column,
/// within its rows.
pub open spec fn on_rect_sides(x: int, y: int, width: int, height: int, px: int, py: int) -> bool {
    y <= py < y + height && (px == x || px == x + width - 1)
}

/// Whether pixel `(px, py)` lies in the rectangle's first or last row,
/// within its columns.
pub open spec fn on_rect_ends(x: int, y: int, width: int, height: int, px: int, py: int) -> bool {
    x <= px < x + width && (py == y || py == y + height - 1)
}

/// Whether pixel `(px, py)` lies on the rectangle's outline.
pub open spec fn on_rect_edge(x: int, y: int, width: int, height: int, px: int, py: int) -> bool {
    on_rect_sides(x, y, width, height, px, py) || on_rect_ends(x, y, width, height, px, py)
}

/// What holds of position `index` once an outline has been painted with
/// the colours of `shader`, `before` being what the position held and
/// `now` what it holds: on the first or last row `now` is a colour that
/// `shader` gives for the pixel's column and the first row; else on the
/// first or last column, one that it gives for the first column and the
/// pixel's row; elsewhere nothing has changed.
pub open spec fn shaded_outline_at<F: Fn(usize, usize, usize, usize) -> u32>(
    shader: F,
    x: usize,
    y: usize,
    width: usize,
    height: usize,
    index: int,
    screen_width: int,
    screen_height: int,
    before: u32,
    now: u32,
) -> bool {
    shaded_so_far(
        shader,
        x,
        y,
        width,
        height,
        y + height,
        x + width,
        index,
        screen_width,
        screen_height,
        before,
        now,
    )
}

/// The same while the painting is under way: of the first and last
/// column the rows above `rows_done` have been painted, of the first and
/// last row the columns left of `columns_done`.
pub open spec fn shaded_so_far<F: Fn(usize, usize, usize, usize) -> u32>(
    shader: F,
    x: usize,
    y: usize,
    width: usize,
    height: usize,
    rows_done: int,
    columns_done: int,
    index: int,
    screen_width: int,
    screen_height: int,
    before: u32,
    now: u32,
) -> bool {
    let px = column_of(index, screen_width);
    let py = row_of(index, screen_width);
    if on_screen(index, screen_width, screen_height) && on_rect_ends(
        x as int,
        y as int,
        width as int,
        height as int,
        px,
        py,
    ) && px < columns_done {
        call_ensures(shader, (px as usize, y, width, height), now)
    } else if on_screen(index, screen_width, screen_height) && on_rect_sides(
        x as int,
        y as int,
        width as int,
        height as int,
        px,
        py,
    ) && py < rows_done {
        call_ensures(shader, (x, py as usize, width, height), now)
    } else {
        now == before
    }
}

/// The last of `length` positions that start at `from`, where a `usize`
/// can hold it.
pub open spec fn end_of(from: int, length: int) -> Option<usize> {
    if 0 <= from + length - 1 <= usize::MAX {
        Some((from + length - 1) as usize)
    } else {
        None
    }
}

fn last_of(from: usize, length: usize) -> (last: Option<usize>)
    ensures
        last == end_of(from as int, length as int),
{
    if length == 0 {
        if from == 0 {
            None
        } else {
            Some(from - 1)
        }
    } else {
        from.checked_add(length - 1)
    }
}

/// The smaller of `from + length` and `limit`.
fn span_end(from: usize, length: usize, limit: usize) -> (end: usize)
    ensures
        end == if from + length < limit {
            from + length
        } else {
            limit as int
        },
{
    match from.checked_add(length) {
        Some(end) => if end < limit {
            end
        } else {
            limit
        },
        None => limit,
    }
}

impl<D: Dimensions> FramebufferInternal<D> {
    /// Paints every pixel of the rectangle that the buffer has.
    pub fn draw_filled_rect(
        &mut self,
        x: usize,
        y: usize,
        width: usize,
        height: usize,
        colour: u32,
    )
        ensures
            final(self)@.len() == old(self)@.len(),
            final(self)@ == fill_where(
                old(self)@,
                Self::width(),
                Self::height(),
                |px: int, py: int|
                    in_rect(x as int, y as int, width as int, height as int, px, py),
                colour,
            ),
    {
        let ghost before = self@;
        let ghost w = Self::width();
        let ghost h = Self::height();
        let (screen_width, screen_height) = D::get();
        let right: usize = span_end(x, width, screen_width);
        let bottom: usize = span_end(y, height, screen_height);
        proof {
            lemma_fill_where_nothing(
                before,
                w,
                h,
                |px: int, py: int|
                    in_rect(x as int, y as int, width as int, height as int, px, py) && py < y,
                colour,
            );
        }
        let mut current_y: usize = y;
        while current_y < bottom
            invariant
                w == Self::width(),
                h == Self::height(),
                y <= current_y,
                current_y <= bottom || bottom <= y,
                right <= w,
                bottom <= h,
                right == if x + width < w {
                    x + width
                } else {
                    w
                },
                bottom == if y + height < h {
                    y + height
                } else {
                    h
                },
                self@ == fill_where(
                    before,
                    w,
                    h,
                    |px: int, py: int|
                        in_rect(x as int, y as int, width as int, height as int, px, py) && py
                            < current_y,
                    colour,
                ),
            decreases bottom - current_y,
        {
            proof {
                lemma_fill_where_same(
                    before,
                    w,
                    h,
                    |px: int, py: int|
                        in_rect(x as int, y as int, width as int, height as int, px, py) && py
                            < current_y,
                    |px: int, py: int|
                        in_rect(x as int, y as int, width as int, height as int, px, py) && (py
                            < current_y || (py == current_y && px < x)),
                    colour,
                );
            }
            let mut current_x: usize = x;
            while current_x < right
                invariant
                    w == Self::width(),
                    h == Self::height(),
                    x <= current_x,
                    current_x <= right || right <= x,
                    y <= current_y < bottom,
                    right <= w,
                    bottom <= h,
                    right == if x + width < w {
                        x + width
                    } else {
                        w
                    },
                    bottom == if y + height < h {
                        y + height
                    } else {
                        h
                    },
                    self@ == fill_where(
                        before,
                        w,
                        h,
                        |px: int, py: int|
                            in_rect(x as int, y as int, width as int, height as int, px, py) && (py
                                < current_y || (py == current_y && px < current_x)),
                        colour,
                    ),
                decreases right - current_x,
            {
                proof {
                    lemma_fill_where_put(
                        before,
                        w,
                        h,
                        |px: int, py: int|
                            in_rect(x as int, y as int, width as int, height as int, px, py) && (py
                                < current_y || (py == current_y && px < current_x)),
                        current_x as int,
                        current_y as int,
                        colour,
                    );
                    lemma_fill_where_same(
                        before,
                        w,
                        h,
                        |px: int, py: int|
                            (in_rect(x as int, y as int, width as int, height as int, px, py) && (py
                                < current_y || (py == current_y && px < current_x))) || (px
                                == current_x as int && py == current_y as int),
                        |px: int, py: int|
                            in_rect(x as int, y as int, width as int, height as int, px, py) && (py
                                < current_y || (py == current_y && px < current_x + 1)),
                        colour,
                    );
                }
                self.set_pixel(current_x, current_y, colour);
                current_x += 1;
            }
            proof {
                lemma_fill_where_same(
                    before,
                    w,
                    h,
                    |px: int, py: int|
                        in_rect(x as int, y as int, width as int, height as int, px, py) && (py
                            < current_y || (py == current_y && px < current_x)),
                    |px: int, py: int|
                        in_rect(x as int, y as int, width as int, height as int, px, py) && py
                            < current_y + 1,
                    colour,
                );
            }
            current_y += 1;
        }
        proof {
            lemma_fill_where_same(
                before,
                w,
                h,
                |px: int, py: int|
                    in_rect(x as int, y as int, width as int, height as int, px, py) && py
                        < current_y,
                |px: int, py: int|
                    in_rect(x as int, y as int, width as int, height as int, px, py),
                colour,
            );
        }
    }

    /// Paints the outline of the rectangle: its first and last column
    /// within its rows, then its first and last row within its columns.
    pub fn draw_rect(&mut self, x: usize, y: usize, width: usize, height: usize, colour: u32)
        ensures
            final(self)@.len() == old(self)@.len(),
            final(self)@ == fill_where(
                old(self)@,
                Self::width(),
                Self::height(),
                |px: int, py: int|
                    on_rect_edge(x as int, y as int, width as int, height as int, px, py),
                colour,
            ),
    {
        let ghost before = self@;
        let ghost w = Self::width();
        let ghost h = Self::height();
        let (screen_width, screen_height) = D::get();
        let right: usize = span_end(x, width, screen_width);
        let bottom: usize = span_end(y, height, screen_height);
        let last_column: Option<usize> = last_of(x, width);
        let last_row: Option<usize> = last_of(y, height);
        proof {
            lemma_fill_where_nothing(
                before,
                w,
                h,
                |px: int, py: int|
                    on_rect_sides(x as int, y as int, width as int, height as int, px, py) && py
                        < y,
                colour,
            );
        }
        let mut current_y: usize = y;
        while current_y < bottom
            invariant
                w == Self::width(),
                h == Self::height(),
                y <= current_y,
                bottom == if y + height < h {
                    y + height
                } else {
                    h
                },
                last_column == end_of(x as int, width as int),
                self@ == fill_where(
                    before,
                    w,
                    h,
                    |px: int, py: int|
                        on_rect_sides(x as int, y as int, width as int, height as int, px, py)
                            && py < current_y,
                    colour,
                ),
            decreases bottom - current_y,
        {
            let ghost done = |px: int, py: int|
                on_rect_sides(x as int, y as int, width as int, height as int, px, py) && py
                    < current_y;
            let ghost left = |px: int, py: int|
                done(px, py) || (px == x as int && py == current_y as int);
            proof {
                lemma_fill_where_put(before, w, h, done, x as int, current_y as int, colour);
            }
            self.set_pixel(x, current_y, colour);
            match last_column {
                Some(column) => {
                    proof {
                        lemma_fill_where_put(
                            before,
                            w,
                            h,
                            left,
                            column as int,
                            current_y as int,
                            colour,
                        );
                        lemma_fill_where_same(
                            before,
                            w,
                            h,
                            |px: int, py: int|
                                left(px, py) || (px == column as int && py == current_y as int),
                            |px: int, py: int|
                                on_rect_sides(
                                    x as int,
                                    y as int,
                                    width as int,
                                    height as int,
                                    px,
                                    py,
                                ) && py < current_y + 1,
                            colour,
                        );
                    }
                    self.set_pixel(column, current_y, colour);
                },
                None => {
                    proof {
                        lemma_fill_where_same(
                            before,
                            w,
                            h,
                            left,
                            |px: int, py: int|
                                on_rect_sides(
                                    x as int,
                                    y as int,
                                    width as int,
                                    height as int,
                                    px,
                                    py,
                                ) && py < current_y + 1,
                            colour,
                        );
                    }
                },
            }
            current_y += 1;
        }
        proof {
            lemma_fill_where_same(
                before,
                w,
                h,
                |px: int, py: int|
                    on_rect_sides(x as int, y as int, width as int, height as int, px, py) && py
                        < current_y,
                |px: int, py: int|
                    on_rect_sides(x as int, y as int, width as int, height as int, px, py) || (
                    on_rect_ends(x as int, y as int, width as int, height as int, px, py) && px
                        < x),
                colour,
            );
        }
        let mut current_x: usize = x;
        while current_x < right
            invariant
                w == Self::width(),
                h == Self::height(),
                x <= current_x,
                right == if x + width < w {
                    x + width
                } else {
                    w
                },
                last_row == end_of(y as int, height as int),
                self@ == fill_where(
                    before,
                    w,
                    h,
                    |px: int, py: int|
                        on_rect_sides(x as int, y as int, width as int, height as int, px, py) || (
                        on_rect_ends(x as int, y as int, width as int, height as int, px, py) && px
                            < current_x),
                    colour,
                ),
            decreases right - current_x,
        {
            let ghost done = |px: int, py: int|
                on_rect_sides(x as int, y as int, width as int, height as int, px, py) || (
                on_rect_ends(x as int, y as int, width as int, height as int, px, py) && px
                    < current_x);
            let ghost top = |px: int, py: int|
                done(px, py) || (px == current_x as int && py == y as int);
            proof {
                lemma_fill_where_put(before, w, h, done, current_x as int, y as int, colour);
            }
            self.set_pixel(current_x, y, colour);
            match last_row {
                Some(row) => {
                    proof {
                        lemma_fill_where_put(
                            before,
                            w,
                            h,
                            top,
                            current_x as int,
                            row as int,
                            colour,
                        );
                        lemma_fill_where_same(
                            before,
                            w,
                            h,
                            |px: int, py: int|
                                top(px, py) || (px == current_x as int && py == row as int),
                            |px: int, py: int|
                                on_rect_sides(
                                    x as int,
                                    y as int,
                                    width as int,
                                    height as int,
                                    px,
                                    py,
                                ) || (on_rect_ends(
                                    x as int,
                                    y as int,
                                    width as int,
                                    height as int,
                                    px,
                                    py,
                                ) && px < current_x + 1),
                            colour,
                        );
                    }
                    self.set_pixel(current_x, row, colour);
                },
                None => {
                    proof {
                        lemma_fill_where_same(
                            before,
                            w,
                            h,
                            top,
                            |px: int, py: int|
                                on_rect_sides(
                                    x as int,
                                    y as int,
                                    width as int,
                                    height as int,
                                    px,
                                    py,
                                ) || (on_rect_ends(
                                    x as int,
                                    y as int,
                                    width as int,
                                    height as int,
                                    px,
                                    py,
                                ) && px < current_x + 1),
                            colour,
                        );
                    }
                },
            }
            current_x += 1;
        }
        proof {
            lemma_fill_where_same(
                before,
                w,
                h,
                |px: int, py: int|
                    on_rect_sides(x as int, y as int, width as int, height as int, px, py) || (
                    on_rect_ends(x as int, y as int, width as int, height as int, px, py) && px
                        < current_x),
                |px: int, py: int|
                    on_rect_edge(x as int, y as int, width as int, height as int, px, py),
                colour,
            );
        }
    }

    /// Paints the outline of the rectangle with colours that `shader`
    /// chooses. For a pixel of the first or last column it is asked with
    /// the rectangle's first column and the pixel's row; for a pixel of
    /// the first or last row, which is painted later, with the pixel's
    /// column and the rectangle's first row. The rectangle's width and
    /// height are handed to it each time. It is asked only for pixels that
    /// the buffer has, and must take what it is asked with.
    pub fn draw_rect_with_shader<F>(
        &mut self,
        x: usize,
        y: usize,
        width: usize,
        height: usize,
        shader: F,
    ) where F: Fn(usize, usize, usize, usize) -> u32
        requires
            forall|row: usize|
                y <= row < y + height ==> call_requires(shader, (x, row, width, height)),
            forall|column: usize|
                x <= column < x + width ==> call_requires(shader, (column, y, width, height)),
        ensures
            final(self)@.len() == old(self)@.len(),
            forall|i: int|
                0 <= i < old(self)@.len() ==> shaded_outline_at(
                    shader,
                    x,
                    y,
                    width,
                    height,
                    i,
                    Self::width(),
                    Self::height(),
                    old(self)@[i],
                    #[trigger] final(self)@[i],
                ),
    {
        let ghost before = self@;
        let ghost w = Self::width();
        let ghost h = Self::height();
        let (screen_width, screen_height) = D::get();
        let right: usize = span_end(x, width, screen_width);
        let bottom: usize = span_end(y, height, screen_height);
        let last_column: Option<usize> = last_of(x, width);
        let last_row: Option<usize> = last_of(y, height);
        let mut current_y: usize = y;
        while current_y < bottom
            invariant
                w == Self::width(),
                h == Self::height(),
                y <= current_y,
                bottom == if y + height < h {
                    y + height
                } else {
                    h
                },
                last_column == end_of(x as int, width as int),
                forall|row: usize|
                    y <= row < y + height ==> call_requires(shader, (x, row, width, height)),
                forall|column: usize|
                    x <= column < x + width ==> call_requires(
                        shader,
                        (column, y, width, height),
                    ),
                self@.len() == before.len(),
                forall|i: int|
                    0 <= i < before.len() ==> shaded_so_far(
                        shader,
                        x,
                        y,
                        width,
                        height,
                        current_y as int,
                        x as int,
                        i,
                        w,
                        h,
                        before[i],
                        #[trigger] self@[i],
                    ),
            decreases bottom - current_y,
        {
            match self.locate(x, current_y) {
                Some(i) => {
                    proof {
                        lemma_linear_coords(w, x as int, current_y as int);
                    }
                    self.buffer[i] = shader(x, current_y, width, height);
                },
                None => {},
            }
            match last_column {
                Some(column) => {
                    match self.locate(column, current_y) {
                        Some(i) => {
                            proof {
                                lemma_linear_coords(w, column as int, current_y as int);
                            }
                            self.buffer[i] = shader(x, current_y, width, height);
                        },
                        None => {},
                    }
                },
                None => {},
            }
            proof {
                assert forall|i: int| 0 <= i < before.len() implies shaded_so_far(
                    shader,
                    x,
                    y,
                    width,
                    height,
                    current_y + 1,
                    x as int,
                    i,
                    w,
                    h,
                    before[i],
                    #[trigger] self@[i],
                ) by {
                    if 0 < w {
                        lemma_coords_linear(w, i);
                    }
                }
            }
            current_y += 1;
        }
        proof {
            assert forall|i: int| 0 <= i < before.len() implies shaded_so_far(
                shader,
                x,
                y,
                width,
                height,
                y + height,
                x as int,
                i,
                w,
                h,
                before[i],
                #[trigger] self@[i],
            ) by {
                if 0 < w {
                    lemma_coords_linear(w, i);
                }
            }
        }
        let mut current_x: usize = x;
        while current_x < right
            invariant
                w == Self::width(),
                h == Self::height(),
                x <= current_x,
                right == if x + width < w {
                    x + width
                } else {
                    w
                },
                last_row == end_of(y as int, height as int),
                forall|row: usize|
                    y <= row < y + height ==> call_requires(shader, (x, row, width, height)),
                forall|column: usize|
                    x <= column < x + width ==> call_requires(
                        shader,
                        (column, y, width, height),
                    ),
                self@.len() == before.len(),
                forall|i: int|
                    0 <= i < before.len() ==> shaded_so_far(
                        shader,
                        x,
                        y,
                        width,
                        height,
                        y + height,
                        current_x as int,
                        i,
                        w,
                        h,
                        before[i],
                        #[trigger] self@[i],
                    ),
            decreases right - current_x,
        {
            match self.locate(current_x, y) {
                Some(i) => {
                    proof {
                        lemma_linear_coords(w, current_x as int, y as int);
                    }
                    self.buffer[i] = shader(current_x, y, width, height);
                },
                None => {},
            }
            match last_row {
                Some(row) => {
                    match self.locate(current_x, row) {
                        Some(i) => {
                            proof {
                                lemma_linear_coords(w, current_x as int, row as int);
                            }
                            self.buffer[i] = shader(current_x, y, width, height);
                        },
                        None => {},
                    }
                },
                None => {},
            }
            proof {
                assert forall|i: int| 0 <= i < before.len() implies shaded_so_far(
                    shader,
                    x,
                    y,
                    width,
                    height,
                    y + height,
                    current_x + 1,
                    i,
                    w,
                    h,
                    before[i],
                    #[trigger] self@[i],
                ) by {
                    if 0 < w {
                        lemma_coords_linear(w, i);
                    }
                }
            }
            current_x += 1;
        }
        proof {
            assert forall|i: int| 0 <= i < before.len() implies shaded_outline_at(
                shader,
                x,
                y,
                width,
                height,
                i,
                w,
                h,
                before[i],
                #[trigger] self@[i],
            ) by {
                if 0 < w {
                    lemma_coords_linear(w, i);
                }
                assert(shaded_so_far(
                    shader,
                    x,
                    y,
                    width,
                    height,
                    y + height,
                    current_x as int,
                    i,
                    w,
                    h,
                    before[i],
                    self@[i],
                ));
            }
        }
    }
}

} // verus!
