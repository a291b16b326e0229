//! Filled triangles and quadrilaterals, by edge functions.

use crate::framebuffer::{
    addressable, column_of, fill_where, lemma_fill_where_same, lemma_put_pixel_at, linear,
    on_screen, row_of, Dimensions, FramebufferInternal,
};
use vstd::prelude::*;

verus! {

/// Twice the signed area of the triangle `a`, `b`, `c`: positive where `c`
/// lies on one side of the line from `a` to `b`, negative on the other, zero
/// on the line.
pub open spec fn orient(ax: int, ay: int, bx: int, by: int, cx: int, cy: int) -> int {
    (bx - ax) * (cy - ay) - (by - ay) * (cx - ax)
}

/// The least of three.
pub open spec fn min3(a: int, b: int, c: int) -> int {
    if a <= b && a <= c {
        a
    } else if b <= c {
        b
    } else {
        c
    }
}

/// The greatest of three.
pub open spec fn max3(a: int, b: int, c: int) -> int {
    if a >= b && a >= c {
        a
    } else if b >= c {
        b
    } else {
        c
    }
}

/// Whether `(px, py)` is inside or on the edges of a triangle whose
/// vertices are given in an order for which `orient` is not negative.
pub open spec fn inside_edges(
    x0: int,
    y0: int,
    x1: int,
    y1: int,
    x2: int,
    y2: int,
    px: int,
    py: int,
) -> bool {
    &&& min3(x0, x1, x2) <= px <= max3(x0, x1, x2)
    &&& min3(y0, y1, y2) <= py <= max3(y0, y1, y2)
    &&& orient(x1, y1, x2, y2, px, py) >= 0
    &&& orient(x2, y2, x0, y0, px, py) >= 0
    &&& orient(x0, y0, x1, y1, px, py) >= 0
}

/// Whether a filled triangle with the given vertices covers pixel
/// `(px, py)`. The second and third vertex change places first where the
/// three are given clockwise.
pub open spec fn triangle_covers(
    x0: int,
    y0: int,
    x1: int,
    y1: int,
    x2: int,
    y2: int,
    px: int,
    py: int,
) -> bool {
    if orient(x0, y0, x1, y1, x2, y2) < 0 {
        inside_edges(x0, y0, x2, y2, x1, y1, px, py)
    } else {
        inside_edges(x0, y0, x1, y1, x2, y2, px, py)
    }
}

/// Whether a filled quadrilateral covers pixel `(px, py)`: the triangle of
/// its first three vertices does, or that of its last three.
pub open spec fn quad_covers(
    x0: int,
    y0: int,
    x1: int,
    y1: int,
    x2: int,
    y2: int,
    x3: int,
    y3: int,
    px: int,
    py: int,
) -> bool {
    triangle_covers(x0, y0, x1, y1, x2, y2, px, py) || triangle_covers(
        x1,
        y1,
        x2,
        y2,
        x3,
        y3,
        px,
        py,
    )
}

/// With coordinates of at most 256 an edge function stays far inside `i32`.
pub proof fn lemma_orient_bound(ax: int, ay: int, bx: int, by: int, cx: int, cy: int)
    requires
        0 <= ax <= 256,
        0 <= ay <= 256,
        0 <= bx <= 256,
        0 <= by <= 256,
        0 <= cx <= 256,
        0 <= cy <= 256,
    ensures
        -131072 <= orient(ax, ay, bx, by, cx, cy) <= 131072,
{
    lemma_product_bound(bx - ax, cy - ay);
    lemma_product_bound(by - ay, cx - ax);
}

proof fn lemma_product_bound(a: int, b: int)
    requires
        -256 <= a <= 256,
        -256 <= b <= 256,
    ensures
        -65536 <= a * b <= 65536,
{
    assert(-65536 <= a * b <= 65536) by (nonlinear_arith)
        requires
            -256 <= a <= 256,
            -256 <= b <= 256,
    ;
}

/// One column to the right, an edge function grows by the edge's fall; one
/// row down, by its run.
pub proof fn lemma_orient_step(ax: int, ay: int, bx: int, by: int, cx: int, cy: int)
    ensures
        orient(ax, ay, bx, by, cx + 1, cy) == orient(ax, ay, bx, by, cx, cy) + (ay - by),
        orient(ax, ay, bx, by, cx, cy + 1) == orient(ax, ay, bx, by, cx, cy) + (bx - ax),
{
    assert((by - ay) * (cx + 1 - ax) == (by - ay) * (cx - ax) + (by - ay)) by (nonlinear_arith);
    assert((bx - ax) * (cy + 1 - ay) == (bx - ax) * (cy - ay) + (bx - ax)) by (nonlinear_arith);
}

fn least(a: u8, b: u8, c: u8) -> (r: u8)
    ensures
        r == min3(a as int, b as int, c as int),
{
    if a <= b && a <= c {
        a
    } else if b <= c {
        b
    } else {
        c
    }
}

fn greatest(a: u8, b: u8, c: u8) -> (r: u8)
    ensures
        r == max3(a as int, b as int, c as int),
{
    if a >= b && a >= c {
        a
    } else if b >= c {
        b
    } else {
        c
    }
}

impl<D: Dimensions> FramebufferInternal<D> {
    /// The edge function of the line from `a` to `b` at `c`.
    pub fn orient_2d(ax: u8, ay: u8, bx: u8, by: u8, cx: u8, cy: u8) -> (r: i32)
        ensures
            r == orient(ax as int, ay as int, bx as int, by as int, cx as int, cy as int),
    {
        proof {
            lemma_product_bound(bx - ax, cy - ay);
            lemma_product_bound(by - ay, cx - ax);
        }
        (bx as i32 - ax as i32) * (cy as i32 - ay as i32) - (by as i32 - ay as i32) * (cx as i32
            - ax as i32)
    }

    /// Paints every pixel inside or on the edges of the triangle with
    /// `colour`; pixels that the buffer lacks are passed over.
    pub fn draw_filled_triangle(
        &mut self,
        x0: u8,
        y0: u8,
        x1: u8,
        y1: u8,
        x2: u8,
        y2: u8,
        colour: u32,
    )
        ensures
            final(self)@.len() == old(self)@.len(),
            final(self)@ == fill_where(
                old(self)@,
                Self::width(),
                Self::height(),
                |px: int, py: int|
                    triangle_covers(
                        x0 as int,
                        y0 as int,
                        x1 as int,
                        y1 as int,
                        x2 as int,
                        y2 as int,
                        px,
                        py,
                    ),
                colour,
            ),
    {
        let ghost before = self@;
        let ghost width = Self::width();
        let ghost height = Self::height();
        let is_clockwise = Self::orient_2d(x0, y0, x1, y1, x2, y2) < 0;
        let (bx, by, cx, cy) = if is_clockwise {
            (x2, y2, x1, y1)
        } else {
            (x1, y1, x2, y2)
        };
        let ghost covers = |px: int, py: int|
            inside_edges(
                x0 as int,
                y0 as int,
                bx as int,
                by as int,
                cx as int,
                cy as int,
                px,
                py,
            );

        let min_x = least(x0, bx, cx);
        let min_y = least(y0, by, cy);
        let max_x = greatest(x0, bx, cx);
        let max_y = greatest(y0, by, cy);

        let a_01: i32 = y0 as i32 - by as i32;
        let b_01: i32 = bx as i32 - x0 as i32;
        let a_12: i32 = by as i32 - cy as i32;
        let b_12: i32 = cx as i32 - bx as i32;
        let a_20: i32 = cy as i32 - y0 as i32;
        let b_20: i32 = x0 as i32 - cx as i32;

        let mut w0_row: i32 = Self::orient_2d(bx, by, cx, cy, min_x, min_y);
        let mut w1_row: i32 = Self::orient_2d(cx, cy, x0, y0, min_x, min_y);
        let mut w2_row: i32 = Self::orient_2d(x0, y0, bx, by, min_x, min_y);

        let mut py: usize = min_y as usize;
        while py <= max_y as usize
            invariant
                min_y <= py <= max_y + 1,
                min_x <= max_x,
                width == Self::width(),
                height == Self::height(),
                min_x == min3(x0 as int, bx as int, cx as int),
                max_x == max3(x0 as int, bx as int, cx as int),
                min_y == min3(y0 as int, by as int, cy as int),
                max_y == max3(y0 as int, by as int, cy as int),
                a_01 == y0 - by,
                b_01 == bx - x0,
                a_12 == by - cy,
                b_12 == cx - bx,
                a_20 == cy - y0,
                b_20 == x0 - cx,
                w0_row == orient(bx as int, by as int, cx as int, cy as int, min_x as int, py as int),
                w1_row == orient(cx as int, cy as int, x0 as int, y0 as int, min_x as int, py as int),
                w2_row == orient(x0 as int, y0 as int, bx as int, by as int, min_x as int, py as int),
                covers == |px: int, py: int|
                    inside_edges(
                        x0 as int,
                        y0 as int,
                        bx as int,
                        by as int,
                        cx as int,
                        cy as int,
                        px,
                        py,
                    ),
                self@.len() == before.len(),
                forall|i: int|
                    0 <= i < before.len() ==> #[trigger] self@[i] == if on_screen(i, width, height)
                        && covers(column_of(i, width), row_of(i, width)) && row_of(i, width)
                        < py {
                        colour
                    } else {
                        before[i]
                    },
            decreases max_y + 1 - py,
        {
            let mut w0: i32 = w0_row;
            let mut w1: i32 = w1_row;
            let mut w2: i32 = w2_row;

            let mut px: usize = min_x as usize;
            while px <= max_x as usize
                invariant
                    min_x <= px <= max_x + 1,
                    min_y <= py <= max_y,
                    width == Self::width(),
                    height == Self::height(),
                    min_x == min3(x0 as int, bx as int, cx as int),
                    max_x == max3(x0 as int, bx as int, cx as int),
                    min_y == min3(y0 as int, by as int, cy as int),
                    max_y == max3(y0 as int, by as int, cy as int),
                    a_01 == y0 - by,
                    a_12 == by - cy,
                    a_20 == cy - y0,
                    w0 == orient(bx as int, by as int, cx as int, cy as int, px as int, py as int),
                    w1 == orient(cx as int, cy as int, x0 as int, y0 as int, px as int, py as int),
                    w2 == orient(x0 as int, y0 as int, bx as int, by as int, px as int, py as int),
                    covers == |px: int, py: int|
                        inside_edges(
                            x0 as int,
                            y0 as int,
                            bx as int,
                            by as int,
                            cx as int,
                            cy as int,
                            px,
                            py,
                        ),
                    self@.len() == before.len(),
                    forall|i: int|
                        0 <= i < before.len() ==> #[trigger] self@[i] == if on_screen(
                            i,
                            width,
                            height,
                        ) && covers(column_of(i, width), row_of(i, width)) && (row_of(i, width)
                            < py || (row_of(i, width) == py && column_of(i, width) < px)) {
                            colour
                        } else {
                            before[i]
                        },
                decreases max_x + 1 - px,
            {
                if w0 >= 0 && w1 >= 0 && w2 >= 0 {
                    proof {
                        lemma_put_pixel_at(self@, width, height, px as int, py as int, colour);
                    }
                    self.set_pixel(px, py, colour);
                }
                proof {
                    lemma_orient_step(bx as int, by as int, cx as int, cy as int, px as int, py as int);
                    lemma_orient_step(cx as int, cy as int, x0 as int, y0 as int, px as int, py as int);
                    lemma_orient_step(x0 as int, y0 as int, bx as int, by as int, px as int, py as int);
                    lemma_orient_bound(bx as int, by as int, cx as int, cy as int, px + 1, py as int);
                    lemma_orient_bound(cx as int, cy as int, x0 as int, y0 as int, px + 1, py as int);
                    lemma_orient_bound(x0 as int, y0 as int, bx as int, by as int, px + 1, py as int);
                }
                w0 += a_12;
                w1 += a_20;
                w2 += a_01;
                px += 1;
            }

            proof {
                lemma_orient_step(bx as int, by as int, cx as int, cy as int, min_x as int, py as int);
                lemma_orient_step(cx as int, cy as int, x0 as int, y0 as int, min_x as int, py as int);
                lemma_orient_step(x0 as int, y0 as int, bx as int, by as int, min_x as int, py as int);
                lemma_orient_bound(bx as int, by as int, cx as int, cy as int, min_x as int, py + 1);
                lemma_orient_bound(cx as int, cy as int, x0 as int, y0 as int, min_x as int, py + 1);
                lemma_orient_bound(x0 as int, y0 as int, bx as int, by as int, min_x as int, py + 1);
            }
            w0_row += b_12;
            w1_row += b_20;
            w2_row += b_01;
            py += 1;
        }
        assert(self@ =~= fill_where(
            before,
            width,
            height,
            |px: int, py: int|
                triangle_covers(
                    x0 as int,
                    y0 as int,
                    x1 as int,
                    y1 as int,
                    x2 as int,
                    y2 as int,
                    px,
                    py,
                ),
            colour,
        ));
    }

    /// Paints the triangle of the first three vertices, then that of the
    /// last three.
    pub fn draw_filled_quad(
        &mut self,
        x0: u8,
        y0: u8,
        x1: u8,
        y1: u8,
        x2: u8,
        y2: u8,
        x3: u8,
        y3: u8,
        colour: u32,
    )
        ensures
            final(self)@.len() == old(self)@.len(),
            final(self)@ == fill_where(
                old(self)@,
                Self::width(),
                Self::height(),
                |px: int, py: int|
                    quad_covers(
                        x0 as int,
                        y0 as int,
                        x1 as int,
                        y1 as int,
                        x2 as int,
                        y2 as int,
                        x3 as int,
                        y3 as int,
                        px,
                        py,
                    ),
                colour,
            ),
    {
        self.draw_filled_triangle(x0, y0, x1, y1, x2, y2, colour);
        self.draw_filled_triangle(x1, y1, x2, y2, x3, y3, colour);
        assert(self@ =~= fill_where(
            old(self)@,
            Self::width(),
            Self::height(),
            |px: int, py: int|
                quad_covers(
                    x0 as int,
                    y0 as int,
                    x1 as int,
                    y1 as int,
                    x2 as int,
                    y2 as int,
                    x3 as int,
                    y3 as int,
                    px,
                    py,
                ),
            colour,
        ));
    }
}

/// Exchanging the two ends of an edge negates its edge function.
pub proof fn lemma_orient_reverse(ax: int, ay: int, bx: int, by: int, cx: int, cy: int)
    ensures
        orient(bx, by, ax, ay, cx, cy) == -orient(ax, ay, bx, by, cx, cy),
{
    assert((ax - bx) * (cy - by) - (ay - by) * (cx - bx) == -((bx - ax) * (cy - ay) - (by - ay) * (
    cx - ax))) by (nonlinear_arith);
}

/// Rotating the three points leaves the signed area as it is; exchanging
/// two of them negates it.
pub proof fn lemma_orient_permute(ax: int, ay: int, bx: int, by: int, cx: int, cy: int)
    ensures
        orient(bx, by, cx, cy, ax, ay) == orient(ax, ay, bx, by, cx, cy),
        orient(cx, cy, ax, ay, bx, by) == orient(ax, ay, bx, by, cx, cy),
        orient(ax, ay, cx, cy, bx, by) == -orient(ax, ay, bx, by, cx, cy),
{
    assert((cx - bx) * (ay - by) - (cy - by) * (ax - bx) == (bx - ax) * (cy - ay) - (by - ay) * (cx
        - ax)) by (nonlinear_arith);
    assert((ax - cx) * (by - cy) - (ay - cy) * (bx - cx) == (bx - ax) * (cy - ay) - (by - ay) * (cx
        - ax)) by (nonlinear_arith);
    assert((cx - ax) * (by - ay) - (cy - ay) * (bx - ax) == -((bx - ax) * (cy - ay) - (by - ay) * (
    cx - ax))) by (nonlinear_arith);
}

proof fn lemma_expand(a: int, b: int, c: int, d: int)
    ensures
        (a - b) * (c - d) == a * c - a * d - b * c + b * d,
{
    assert((a - b) * (c - d) == a * c - a * d - b * c + b * d) by (nonlinear_arith);
}

/// The three edge functions of a triangle add up, at any point, to the
/// triangle's signed area.
pub proof fn lemma_orient_sum(
    x0: int,
    y0: int,
    x1: int,
    y1: int,
    x2: int,
    y2: int,
    px: int,
    py: int,
)
    ensures
        orient(x1, y1, x2, y2, px, py) + orient(x2, y2, x0, y0, px, py) + orient(
            x0,
            y0,
            x1,
            y1,
            px,
            py,
        ) == orient(x0, y0, x1, y1, x2, y2),
{
    lemma_expand(x2, x1, py, y1);
    lemma_expand(y2, y1, px, x1);
    lemma_expand(x0, x2, py, y2);
    lemma_expand(y0, y2, px, x2);
    lemma_expand(x1, x0, py, y0);
    lemma_expand(y1, y0, px, x0);
    lemma_expand(x1, x0, y2, y0);
    lemma_expand(y1, y0, x2, x0);
}

/// Exchanging the second and third vertex leaves the covered pixels as
/// they are.
pub proof fn lemma_triangle_exchange(
    x0: int,
    y0: int,
    x1: int,
    y1: int,
    x2: int,
    y2: int,
    px: int,
    py: int,
)
    ensures
        triangle_covers(x0, y0, x2, y2, x1, y1, px, py) == triangle_covers(
            x0,
            y0,
            x1,
            y1,
            x2,
            y2,
            px,
            py,
        ),
{
    lemma_orient_permute(x0, y0, x1, y1, x2, y2);
    if orient(x0, y0, x1, y1, x2, y2) == 0 {
        lemma_orient_sum(x0, y0, x1, y1, x2, y2, px, py);
        lemma_orient_reverse(x1, y1, x2, y2, px, py);
        lemma_orient_reverse(x2, y2, x0, y0, px, py);
        lemma_orient_reverse(x0, y0, x1, y1, px, py);
    }
}

/// Rotating the three vertices leaves the covered pixels as they are.
pub proof fn lemma_triangle_rotate(
    x0: int,
    y0: int,
    x1: int,
    y1: int,
    x2: int,
    y2: int,
    px: int,
    py: int,
)
    ensures
        triangle_covers(x1, y1, x2, y2, x0, y0, px, py) == triangle_covers(
            x0,
            y0,
            x1,
            y1,
            x2,
            y2,
            px,
            py,
        ),
{
    lemma_orient_permute(x0, y0, x1, y1, x2, y2);
    lemma_orient_permute(x1, y1, x2, y2, x0, y0);
}

/// A triangle covers the same pixels in whichever of the six orders its
/// three vertices are given.
pub proof fn lemma_winding_invariance(
    x0: int,
    y0: int,
    x1: int,
    y1: int,
    x2: int,
    y2: int,
    px: int,
    py: int,
)
    ensures
        triangle_covers(x0, y0, x2, y2, x1, y1, px, py) == triangle_covers(
            x0,
            y0,
            x1,
            y1,
            x2,
            y2,
            px,
            py,
        ),
        triangle_covers(x1, y1, x0, y0, x2, y2, px, py) == triangle_covers(
            x0,
            y0,
            x1,
            y1,
            x2,
            y2,
            px,
            py,
        ),
        triangle_covers(x1, y1, x2, y2, x0, y0, px, py) == triangle_covers(
            x0,
            y0,
            x1,
            y1,
            x2,
            y2,
            px,
            py,
        ),
        triangle_covers(x2, y2, x0, y0, x1, y1, px, py) == triangle_covers(
            x0,
            y0,
            x1,
            y1,
            x2,
            y2,
            px,
            py,
        ),
        triangle_covers(x2, y2, x1, y1, x0, y0, px, py) == triangle_covers(
            x0,
            y0,
            x1,
            y1,
            x2,
            y2,
            px,
            py,
        ),
{
    lemma_triangle_exchange(x0, y0, x1, y1, x2, y2, px, py);
    lemma_triangle_rotate(x0, y0, x1, y1, x2, y2, px, py);
    lemma_triangle_rotate(x1, y1, x2, y2, x0, y0, px, py);
    lemma_triangle_exchange(x1, y1, x2, y2, x0, y0, px, py);
    lemma_triangle_exchange(x2, y2, x0, y0, x1, y1, px, py);
}

/// A triangle whose vertices are given with a signed area that is not
/// negative has each of them inside its edges.
proof fn lemma_inside_vertices(x0: int, y0: int, x1: int, y1: int, x2: int, y2: int)
    requires
        orient(x0, y0, x1, y1, x2, y2) >= 0,
    ensures
        inside_edges(x0, y0, x1, y1, x2, y2, x0, y0),
        inside_edges(x0, y0, x1, y1, x2, y2, x1, y1),
        inside_edges(x0, y0, x1, y1, x2, y2, x2, y2),
{
    let area = orient(x0, y0, x1, y1, x2, y2);
    lemma_orient_permute(x0, y0, x1, y1, x2, y2);
    lemma_orient_flat(x0, y0, x1, y1);
    lemma_orient_flat(x1, y1, x2, y2);
    lemma_orient_flat(x2, y2, x0, y0);
    assert(orient(x1, y1, x2, y2, x0, y0) == area);
    assert(orient(x2, y2, x0, y0, x0, y0) == 0);
    assert(orient(x0, y0, x1, y1, x0, y0) == 0);
    assert(orient(x1, y1, x2, y2, x1, y1) == 0);
    assert(orient(x2, y2, x0, y0, x1, y1) == area);
    assert(orient(x0, y0, x1, y1, x1, y1) == 0);
    assert(orient(x1, y1, x2, y2, x2, y2) == 0);
    assert(orient(x2, y2, x0, y0, x2, y2) == 0);
    assert(orient(x0, y0, x1, y1, x2, y2) == area);
}

/// A triangle covers each of its own vertices.
pub proof fn lemma_triangle_covers_vertices(
    x0: int,
    y0: int,
    x1: int,
    y1: int,
    x2: int,
    y2: int,
)
    ensures
        triangle_covers(x0, y0, x1, y1, x2, y2, x0, y0),
        triangle_covers(x0, y0, x1, y1, x2, y2, x1, y1),
        triangle_covers(x0, y0, x1, y1, x2, y2, x2, y2),
{
    if orient(x0, y0, x1, y1, x2, y2) < 0 {
        lemma_orient_permute(x0, y0, x1, y1, x2, y2);
        lemma_inside_vertices(x0, y0, x2, y2, x1, y1);
    } else {
        lemma_inside_vertices(x0, y0, x1, y1, x2, y2);
    }
}

/// An edge function is zero at both ends of its edge.
pub proof fn lemma_orient_flat(ax: int, ay: int, bx: int, by: int)
    ensures
        orient(ax, ay, bx, by, ax, ay) == 0,
        orient(ax, ay, bx, by, bx, by) == 0,
{
    assert((bx - ax) * (ay - ay) - (by - ay) * (ax - ax) == 0) by (nonlinear_arith);
    assert((bx - ax) * (by - ay) - (by - ay) * (bx - ax) == 0) by (nonlinear_arith);
}

/// A filled quadrilateral covers each of its four vertices, whatever its
/// shape and the order of the vertices.
pub proof fn lemma_quad_covers_corners(
    x0: int,
    y0: int,
    x1: int,
    y1: int,
    x2: int,
    y2: int,
    x3: int,
    y3: int,
)
    ensures
        quad_covers(x0, y0, x1, y1, x2, y2, x3, y3, x0, y0),
        quad_covers(x0, y0, x1, y1, x2, y2, x3, y3, x1, y1),
        quad_covers(x0, y0, x1, y1, x2, y2, x3, y3, x2, y2),
        quad_covers(x0, y0, x1, y1, x2, y2, x3, y3, x3, y3),
{
    lemma_triangle_covers_vertices(x0, y0, x1, y1, x2, y2);
    lemma_triangle_covers_vertices(x1, y1, x2, y2, x3, y3);
}

/// Whether `p` lies between `a` and `b`, whichever of the two is smaller.
pub open spec fn between(p: int, a: int, b: int) -> bool {
    (a <= p <= b) || (b <= p <= a)
}

proof fn lemma_same_sign(u: int, t: int, s: int)
    requires
        between(s, 0, t),
    ensures
        u * t >= 0 ==> u * s >= 0,
        u * t <= 0 ==> u * s <= 0,
{
    assert(u * t >= 0 ==> u * s >= 0) by (nonlinear_arith)
        requires
            (0 <= s <= t) || (t <= s <= 0),
    ;
    assert(u * t <= 0 ==> u * s <= 0) by (nonlinear_arith)
        requires
            (0 <= s <= t) || (t <= s <= 0),
    ;
}

/// An upright right-angled triangle, with its right angle at `(cx, cy)` and
/// its other vertices at `(hx, cy)` and `(cx, vy)`, covers the points of
/// its bounding box that lie on the right angle's side of the long edge,
/// or on that edge.
proof fn lemma_right_triangle(cx: int, cy: int, hx: int, vy: int, px: int, py: int)
    requires
        between(px, cx, hx),
        between(py, cy, vy),
        ({
            let area = (hx - cx) * (vy - cy);
            let part = (hx - cx) * (py - cy) + (vy - cy) * (px - cx);
            (area >= 0 && part <= area) || (area <= 0 && part >= area)
        }),
    ensures
        triangle_covers(cx, cy, hx, cy, cx, vy, px, py),
{
    let area = (hx - cx) * (vy - cy);
    let along = (hx - cx) * (py - cy);
    let up = (vy - cy) * (px - cx);
    assert(orient(cx, cy, hx, cy, cx, vy) == area) by {
        assert((cy - cy) * (cx - cx) == 0) by (nonlinear_arith);
    }
    assert(orient(cx, cy, hx, cy, px, py) == along) by {
        assert((cy - cy) * (px - cx) == 0) by (nonlinear_arith);
    }
    assert(orient(cx, vy, cx, cy, px, py) == up) by {
        assert((cx - cx) * (py - vy) == 0) by (nonlinear_arith);
        assert(-((cy - vy) * (px - cx)) == (vy - cy) * (px - cx)) by (nonlinear_arith);
    }
    lemma_orient_sum(cx, cy, hx, cy, cx, vy, px, py);
    lemma_same_sign(hx - cx, vy - cy, py - cy);
    lemma_same_sign(vy - cy, hx - cx, px - cx);
    assert((vy - cy) * (hx - cx) == area) by (nonlinear_arith)
        requires
            area == (hx - cx) * (vy - cy),
    ;
    if area < 0 {
        lemma_orient_reverse(hx, cy, cx, vy, px, py);
        lemma_orient_reverse(cx, vy, cx, cy, px, py);
        lemma_orient_reverse(cx, cy, hx, cy, px, py);
    } else if area == 0 {
        assert(along == 0 && up == 0);
    }
}

/// A quadrilateral whose first and last vertex are opposite corners of an
/// upright rectangle, and whose second and third vertex are the other two
/// corners, covers every point of that rectangle.
pub proof fn lemma_rectangle_quad_covers(
    x0: int,
    y0: int,
    x1: int,
    y1: int,
    x2: int,
    y2: int,
    x3: int,
    y3: int,
    px: int,
    py: int,
)
    requires
        (x1 == x0 && y1 == y3 && x2 == x3 && y2 == y0) || (x1 == x3 && y1 == y0 && x2 == x0 && y2
            == y3),
        between(px, x0, x3),
        between(py, y0, y3),
    ensures
        quad_covers(x0, y0, x1, y1, x2, y2, x3, y3, px, py),
{
    let area = (x3 - x0) * (y3 - y0);
    let part = (x3 - x0) * (py - y0) + (y3 - y0) * (px - x0);
    let far_area = (x0 - x3) * (y0 - y3);
    let far_part = (x0 - x3) * (py - y3) + (y0 - y3) * (px - x3);
    assert(far_area == area) by (nonlinear_arith)
        requires
            area == (x3 - x0) * (y3 - y0),
            far_area == (x0 - x3) * (y0 - y3),
    ;
    assert(far_part == 2 * area - part) by (nonlinear_arith)
        requires
            area == (x3 - x0) * (y3 - y0),
            part == (x3 - x0) * (py - y0) + (y3 - y0) * (px - x0),
            far_part == (x0 - x3) * (py - y3) + (y0 - y3) * (px - x3),
    ;
    if (area >= 0 && part <= area) || (area <= 0 && part >= area) {
        lemma_right_triangle(x0, y0, x3, y3, px, py);
        lemma_winding_invariance(x0, y0, x3, y0, x0, y3, px, py);
    } else {
        lemma_right_triangle(x3, y3, x0, y0, px, py);
        lemma_winding_invariance(x3, y3, x0, y3, x3, y0, px, py);
    }
}

/// Where the first and last vertex of a quadrilateral are opposite extreme
/// corners of the buffer and the second and third are the other two,
/// filling it sets every pixel.
pub proof fn lemma_full_quad_saturates(
    buffer: Seq<u32>,
    width: int,
    height: int,
    x0: int,
    y0: int,
    x1: int,
    y1: int,
    x2: int,
    y2: int,
    x3: int,
    y3: int,
    colour: u32,
)
    requires
        0 < width,
        0 < height,
        buffer.len() == width * height,
        (x0 == 0 && x3 == width - 1) || (x0 == width - 1 && x3 == 0),
        (y0 == 0 && y3 == height - 1) || (y0 == height - 1 && y3 == 0),
        (x1 == x0 && y1 == y3 && x2 == x3 && y2 == y0) || (x1 == x3 && y1 == y0 && x2 == x0 && y2
            == y3),
    ensures
        fill_where(
            buffer,
            width,
            height,
            |px: int, py: int| quad_covers(x0, y0, x1, y1, x2, y2, x3, y3, px, py),
            colour,
        ) == Seq::new(buffer.len(), |i: int| colour),
{
    let filled = fill_where(
        buffer,
        width,
        height,
        |px: int, py: int| quad_covers(x0, y0, x1, y1, x2, y2, x3, y3, px, py),
        colour,
    );
    assert forall|i: int| 0 <= i < buffer.len() implies filled[i] == colour by {
        crate::framebuffer::lemma_coords_linear(width, i);
        vstd::arithmetic::div_mod::lemma_multiply_divide_lt(i, width, height);
        lemma_rectangle_quad_covers(
            x0,
            y0,
            x1,
            y1,
            x2,
            y2,
            x3,
            y3,
            column_of(i, width),
            row_of(i, width),
        );
    }
    assert(filled =~= Seq::new(buffer.len(), |i: int| colour));
}

/// Filling a triangle gives the same buffer in whichever of the six orders
/// its three vertices are given.
pub proof fn lemma_triangle_fills_alike(
    buffer: Seq<u32>,
    width: int,
    height: int,
    x0: int,
    y0: int,
    x1: int,
    y1: int,
    x2: int,
    y2: int,
    colour: u32,
)
    ensures
        fill_where(
            buffer,
            width,
            height,
            |px: int, py: int| triangle_covers(x0, y0, x2, y2, x1, y1, px, py),
            colour,
        ) == fill_where(
            buffer,
            width,
            height,
            |px: int, py: int| triangle_covers(x0, y0, x1, y1, x2, y2, px, py),
            colour,
        ),
        fill_where(
            buffer,
            width,
            height,
            |px: int, py: int| triangle_covers(x1, y1, x0, y0, x2, y2, px, py),
            colour,
        ) == fill_where(
            buffer,
            width,
            height,
            |px: int, py: int| triangle_covers(x0, y0, x1, y1, x2, y2, px, py),
            colour,
        ),
        fill_where(
            buffer,
            width,
            height,
            |px: int, py: int| triangle_covers(x1, y1, x2, y2, x0, y0, px, py),
            colour,
        ) == fill_where(
            buffer,
            width,
            height,
            |px: int, py: int| triangle_covers(x0, y0, x1, y1, x2, y2, px, py),
            colour,
        ),
        fill_where(
            buffer,
            width,
            height,
            |px: int, py: int| triangle_covers(x2, y2, x0, y0, x1, y1, px, py),
            colour,
        ) == fill_where(
            buffer,
            width,
            height,
            |px: int, py: int| triangle_covers(x0, y0, x1, y1, x2, y2, px, py),
            colour,
        ),
        fill_where(
            buffer,
            width,
            height,
            |px: int, py: int| triangle_covers(x2, y2, x1, y1, x0, y0, px, py),
            colour,
        ) == fill_where(
            buffer,
            width,
            height,
            |px: int, py: int| triangle_covers(x0, y0, x1, y1, x2, y2, px, py),
            colour,
        ),
{
    assert forall|px: int, py: int|
        triangle_covers(x0, y0, x2, y2, x1, y1, px, py) == #[trigger] triangle_covers(
            x0,
            y0,
            x1,
            y1,
            x2,
            y2,
            px,
            py,
        ) && triangle_covers(x1, y1, x0, y0, x2, y2, px, py) == triangle_covers(
            x0,
            y0,
            x1,
            y1,
            x2,
            y2,
            px,
            py,
        ) && triangle_covers(x1, y1, x2, y2, x0, y0, px, py) == triangle_covers(
            x0,
            y0,
            x1,
            y1,
            x2,
            y2,
            px,
            py,
        ) && triangle_covers(x2, y2, x0, y0, x1, y1, px, py) == triangle_covers(
            x0,
            y0,
            x1,
            y1,
            x2,
            y2,
            px,
            py,
        ) && triangle_covers(x2, y2, x1, y1, x0, y0, px, py) == triangle_covers(
            x0,
            y0,
            x1,
            y1,
            x2,
            y2,
            px,
            py,
        ) by {
        lemma_winding_invariance(x0, y0, x1, y1, x2, y2, px, py);
    }
    lemma_fill_where_same(
        buffer,
        width,
        height,
        |px: int, py: int| triangle_covers(x0, y0, x2, y2, x1, y1, px, py),
        |px: int, py: int| triangle_covers(x0, y0, x1, y1, x2, y2, px, py),
        colour,
    );
    lemma_fill_where_same(
        buffer,
        width,
        height,
        |px: int, py: int| triangle_covers(x1, y1, x0, y0, x2, y2, px, py),
        |px: int, py: int| triangle_covers(x0, y0, x1, y1, x2, y2, px, py),
        colour,
    );
    lemma_fill_where_same(
        buffer,
        width,
        height,
        |px: int, py: int| triangle_covers(x1, y1, x2, y2, x0, y0, px, py),
        |px: int, py: int| triangle_covers(x0, y0, x1, y1, x2, y2, px, py),
        colour,
    );
    lemma_fill_where_same(
        buffer,
        width,
        height,
        |px: int, py: int| triangle_covers(x2, y2, x0, y0, x1, y1, px, py),
        |px: int, py: int| triangle_covers(x0, y0, x1, y1, x2, y2, px, py),
        colour,
    );
    lemma_fill_where_same(
        buffer,
        width,
        height,
        |px: int, py: int| triangle_covers(x2, y2, x1, y1, x0, y0, px, py),
        |px: int, py: int| triangle_covers(x0, y0, x1, y1, x2, y2, px, py),
        colour,
    );
}

/// After a quadrilateral has been filled, each of its four vertices that
/// is a pixel of the buffer holds the fill colour.
pub proof fn lemma_quad_paints_corners(
    buffer: Seq<u32>,
    width: int,
    height: int,
    x0: int,
    y0: int,
    x1: int,
    y1: int,
    x2: int,
    y2: int,
    x3: int,
    y3: int,
    colour: u32,
    cx: int,
    cy: int,
)
    requires
        (cx == x0 && cy == y0) || (cx == x1 && cy == y1) || (cx == x2 && cy == y2) || (cx == x3
            && cy == y3),
        addressable(buffer.len() as int, width, height, cx, cy),
    ensures
        fill_where(
            buffer,
            width,
            height,
            |px: int, py: int| quad_covers(x0, y0, x1, y1, x2, y2, x3, y3, px, py),
            colour,
        )[linear(width, cx, cy)] == colour,
{
    crate::framebuffer::lemma_linear_coords(width, cx, cy);
    lemma_quad_covers_corners(x0, y0, x1, y1, x2, y2, x3, y3);
}

} // verus!
