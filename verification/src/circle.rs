//! Circles, drawn by a midpoint walk along one quarter of the outline whose
//! every position is mirrored into the other three quarters.

use crate::colour::{set_alpha, with_alpha};
use crate::framebuffer::{
    blend_pixel, fill_where, lemma_fill_where_nothing, lemma_fill_where_put,
    lemma_fill_where_same, put_pixel, Dimensions, FramebufferInternal,
};
use vstd::prelude::*;

verus! {

/// A position of the walk: `x` runs from minus the radius up to zero, `y`
/// from zero upwards, and `err` tells how far the position diagonally
/// ahead lies from the true circle.
pub struct Walk {
    pub x: int,
    pub y: int,
    pub err: int,
}

/// Where every walk starts: at the leftmost point of the circle.
pub open spec fn walk_start(radius: int) -> Walk {
    Walk { x: -radius, y: 0, err: 2 - 2 * radius }
}

/// One round of the hard-edged walk: `y` advances where the error is at
/// most `y`; then `x` advances where the error was above `x`, or is now
/// above `y`.
pub open spec fn crisp_step(s: Walk) -> Walk {
    let rises = s.err <= s.y;
    let y = if rises {
        s.y + 1
    } else {
        s.y
    };
    let err = if rises {
        s.err + 2 * y + 1
    } else {
        s.err
    };
    if s.err > s.x || err > y {
        Walk { x: s.x + 1, y, err: err + 2 * (s.x + 1) + 1 }
    } else {
        Walk { x: s.x, y, err }
    }
}

/// The position of the hard-edged walk after `rounds` rounds.
pub open spec fn crisp_walk(radius: int, rounds: nat) -> Walk
    decreases rounds,
{
    if rounds == 0 {
        walk_start(radius)
    } else {
        crisp_step(crisp_walk(radius, (rounds - 1) as nat))
    }
}

/// Whether the walk paints its position after `rounds` rounds: the start
/// always, a later one while `x` is still negative.
pub open spec fn crisp_plotted(radius: int, rounds: nat) -> bool {
    rounds == 0 || crisp_walk(radius, rounds).x < 0
}

/// Whether the offset `(dx, dy)` from the centre is one of the four
/// mirror images of the position `s`.
pub open spec fn mirrored(s: Walk, dx: int, dy: int) -> bool {
    ||| (dx == -s.x && dy == s.y)
    ||| (dx == -s.y && dy == -s.x)
    ||| (dx == s.x && dy == -s.y)
    ||| (dx == s.y && dy == s.x)
}

/// Whether the hard-edged outline of the given radius holds the pixel at
/// offset `(dx, dy)` from the centre.
pub open spec fn crisp_outline(radius: int, dx: int, dy: int) -> bool {
    exists|rounds: nat| #[trigger]
        crisp_plotted(radius, rounds) && mirrored(crisp_walk(radius, rounds), dx, dy)
}

/// Whether a hard-edged circle round `(cx, cy)` covers pixel `(px, py)`.
/// A circle that would reach left of column 0 or above row 0 covers
/// nothing.
pub open spec fn crisp_circle_covers(cx: int, cy: int, radius: int, px: int, py: int) -> bool {
    cx >= radius && cy >= radius && crisp_outline(radius, px - cx, py - cy)
}

/// Whether one of the first `rounds` positions of the walk has `(dx, dy)`
/// among its mirror images.
pub open spec fn crisp_seen(radius: int, rounds: nat, dx: int, dy: int) -> bool
    decreases rounds,
{
    rounds > 0 && (crisp_seen(radius, (rounds - 1) as nat, dx, dy) || mirrored(
        crisp_walk(radius, (rounds - 1) as nat),
        dx,
        dy,
    ))
}

/// `x` never goes back.
proof fn lemma_crisp_x_grows(radius: int, earlier: nat, later: nat)
    requires
        earlier <= later,
    ensures
        crisp_walk(radius, earlier).x <= crisp_walk(radius, later).x,
    decreases later,
{
    if earlier < later {
        lemma_crisp_x_grows(radius, earlier, (later - 1) as nat);
    }
}

proof fn lemma_seen_has_round(radius: int, rounds: nat, dx: int, dy: int) -> (round: nat)
    requires
        crisp_seen(radius, rounds, dx, dy),
    ensures
        round < rounds,
        mirrored(crisp_walk(radius, round), dx, dy),
    decreases rounds,
{
    if mirrored(crisp_walk(radius, (rounds - 1) as nat), dx, dy) {
        (rounds - 1) as nat
    } else {
        lemma_seen_has_round(radius, (rounds - 1) as nat, dx, dy)
    }
}

proof fn lemma_round_is_seen(radius: int, rounds: nat, round: nat, dx: int, dy: int)
    requires
        round < rounds,
        mirrored(crisp_walk(radius, round), dx, dy),
    ensures
        crisp_seen(radius, rounds, dx, dy),
    decreases rounds,
{
    if round + 1 < rounds {
        lemma_round_is_seen(radius, (rounds - 1) as nat, round, dx, dy);
    }
}

/// Once the walk has ended, the outline is what its rounds have seen.
proof fn lemma_outline_is_seen(radius: int, rounds: nat, dx: int, dy: int)
    requires
        rounds >= 1,
        crisp_plotted(radius, (rounds - 1) as nat),
        crisp_walk(radius, rounds).x >= 0,
    ensures
        crisp_outline(radius, dx, dy) == crisp_seen(radius, rounds, dx, dy),
{
    if crisp_seen(radius, rounds, dx, dy) {
        let round = lemma_seen_has_round(radius, rounds, dx, dy);
        lemma_crisp_x_grows(radius, round, (rounds - 1) as nat);
        assert(crisp_plotted(radius, round));
    }
    if crisp_outline(radius, dx, dy) {
        let round = choose|round: nat| #[trigger]
            crisp_plotted(radius, round) && mirrored(crisp_walk(radius, round), dx, dy);
        if round >= rounds {
            lemma_crisp_x_grows(radius, rounds, round);
        }
        lemma_round_is_seen(radius, rounds, round, dx, dy);
    }
}

/// While the walk is on the circle's left half and below its top, a rise
/// is called for only below the top.
proof fn lemma_rise_stays_inside(x: int, y: int, radius: int, err: int)
    requires
        -radius <= x < 0,
        0 <= y <= radius,
        err == x * x + y * y - radius * radius + 2 * x + 2 * y + 2,
        err <= y || err + x <= 0,
    ensures
        y < radius,
{
    assert(y < radius) by (nonlinear_arith)
        requires
            -radius <= x < 0,
            0 <= y <= radius,
            err == x * x + y * y - radius * radius + 2 * x + 2 * y + 2,
            err <= y || err + x <= 0,
    ;
}

proof fn lemma_square_step(v: int)
    ensures
        (v + 1) * (v + 1) == v * v + 2 * v + 1,
{
    assert((v + 1) * (v + 1) == v * v + 2 * v + 1) by (nonlinear_arith);
}

impl<D: Dimensions> FramebufferInternal<D> {
    /// Draws the hard-edged outline of a circle. Does nothing where the
    /// centre lies less than `radius` from column 0 or from row 0; pixels
    /// that the buffer lacks are passed over.
    pub fn draw_crisp_circle(&mut self, x_mid: usize, y_mid: usize, radius: usize, colour: u32)
        ensures
            final(self)@.len() == old(self)@.len(),
            final(self)@ == fill_where(
                old(self)@,
                Self::width(),
                Self::height(),
                |px: int, py: int|
                    crisp_circle_covers(x_mid as int, y_mid as int, radius as int, px, py),
                colour,
            ),
    {
        let ghost before = self@;
        let ghost width = Self::width();
        let ghost height = Self::height();
        if x_mid < radius || y_mid < radius {
            proof {
                lemma_fill_where_nothing(
                    before,
                    width,
                    height,
                    |px: int, py: int|
                        crisp_circle_covers(x_mid as int, y_mid as int, radius as int, px, py),
                    colour,
                );
            }
            return ;
        }
        let cx: i128 = x_mid as i128;
        let cy: i128 = y_mid as i128;
        let r: i128 = radius as i128;
        let mut x: i128 = -r;
        let mut y: i128 = 0;
        let mut err: i128 = 2 - 2 * r;
        let ghost mut rounds: nat = 0;
        proof {
            lemma_fill_where_nothing(
                before,
                width,
                height,
                |px: int, py: int| crisp_seen(r as int, rounds, px - cx, py - cy),
                colour,
            );
            assert(x * x == r * r) by (nonlinear_arith)
                requires
                    x == -r,
            ;
        }
        loop
            invariant_except_break
                x < 0 || rounds == 0,
            invariant
                width == Self::width(),
                height == Self::height(),
                cx == x_mid,
                cy == y_mid,
                0 <= r == radius,
                r <= cx,
                r <= cy,
                (Walk { x: x as int, y: y as int, err: err as int }) == crisp_walk(r as int, rounds),
                -r <= x <= 1,
                0 <= y <= r,
                r == 0 ==> y == 0,
                err == x * x + y * y - r * r + 2 * x + 2 * y + 2,
                -(r + 1) <= x * x + y * y - r * r <= r + 1,
                self@ == fill_where(
                    before,
                    width,
                    height,
                    |px: int, py: int| crisp_seen(r as int, rounds, px - cx, py - cy),
                    colour,
                ),
            ensures
                rounds >= 1,
                crisp_plotted(r as int, (rounds - 1) as nat),
                x >= 0,
            decreases -x + 1, r + 1 - (x * x + y * y - r * r),
        {
            let ghost seen = |px: int, py: int| crisp_seen(r as int, rounds, px - cx, py - cy);
            let ghost here = Walk { x: x as int, y: y as int, err: err as int };
            let ghost one = |px: int, py: int| seen(px, py) || (px == cx - x && py == cy + y);
            let ghost two = |px: int, py: int| one(px, py) || (px == cx - y && py == cy - x);
            let ghost three = |px: int, py: int| two(px, py) || (px == cx + x && py == cy - y);
            let ghost four = |px: int, py: int| three(px, py) || (px == cx + y && py == cy + x);
            proof {
                lemma_fill_where_put(before, width, height, seen, cx - x, cy + y, colour);
                lemma_fill_where_put(before, width, height, one, cx - y, cy - x, colour);
                lemma_fill_where_put(before, width, height, two, cx + x, cy - y, colour);
                lemma_fill_where_put(before, width, height, three, cx + y, cy + x, colour);
            }
            self.plot(cx - x, cy + y, colour);
            self.plot(cx - y, cy - x, colour);
            self.plot(cx + x, cy - y, colour);
            self.plot(cx + y, cy + x, colour);
            proof {
                assert(self@ == fill_where(before, width, height, four, colour));
                assert forall|px: int, py: int| #[trigger]
                    four(px, py) == crisp_seen(r as int, rounds + 1, px - cx, py - cy) by {
                    assert(crisp_walk(r as int, rounds) == here);
                }
                lemma_fill_where_same(
                    before,
                    width,
                    height,
                    four,
                    |px: int, py: int| crisp_seen(r as int, rounds + 1, px - cx, py - cy),
                    colour,
                );
                if x < 0 {
                    if err <= y {
                        lemma_rise_stays_inside(x as int, y as int, r as int, err as int);
                    }
                }
                lemma_square_step(x as int);
                lemma_square_step(y as int);
            }
            let e: i128 = err;
            if e <= y {
                y += 1;
                err += y * 2 + 1;
            }
            if e > x || err > y {
                x += 1;
                err += x * 2 + 1;
            }
            proof {
                rounds = rounds + 1;
                assert(crisp_walk(r as int, rounds) == crisp_step(here));
            }
            if !(x < 0) {
                break ;
            }
        }
        proof {
            assert forall|px: int, py: int| #[trigger]
                crisp_seen(r as int, rounds, px - cx, py - cy) == crisp_circle_covers(
                    x_mid as int,
                    y_mid as int,
                    radius as int,
                    px,
                    py,
                ) by {
                lemma_outline_is_seen(r as int, rounds, px - cx, py - cy);
            }
            lemma_fill_where_same(
                before,
                width,
                height,
                |px: int, py: int| crisp_seen(r as int, rounds, px - cx, py - cy),
                |px: int, py: int|
                    crisp_circle_covers(x_mid as int, y_mid as int, radius as int, px, py),
                colour,
            );
        }
    }
}

/// A quarter turn round the centre maps the hard-edged outline onto
/// itself.
pub proof fn lemma_crisp_outline_quarter_turn(radius: int, dx: int, dy: int)
    ensures
        crisp_outline(radius, -dy, dx) == crisp_outline(radius, dx, dy),
{
    if crisp_outline(radius, dx, dy) {
        let round = choose|round: nat| #[trigger]
            crisp_plotted(radius, round) && mirrored(crisp_walk(radius, round), dx, dy);
        assert(crisp_plotted(radius, round) && mirrored(crisp_walk(radius, round), -dy, dx));
    }
    if crisp_outline(radius, -dy, dx) {
        let round = choose|round: nat| #[trigger]
            crisp_plotted(radius, round) && mirrored(crisp_walk(radius, round), -dy, dx);
        assert(crisp_plotted(radius, round) && mirrored(crisp_walk(radius, round), dx, dy));
    }
}

/// How far outside the true circle the position lies: the square of its
/// distance from the centre less the square of the radius.
pub open spec fn drift(s: Walk) -> int {
    s.err - 2 * s.x - 2 * s.y - 2
}

/// The larger of the position's two distances from the centre lines.
pub open spec fn reach(s: Walk) -> int {
    if -s.x >= s.y {
        -s.x
    } else {
        s.y
    }
}

/// What holds of every position of the hard-edged walk: it lies within
/// half a pixel of the true circle along its longer distance, and where
/// it lies on the diagonal it is not the outermost such pixel.
pub open spec fn on_track(s: Walk) -> bool {
    &&& s.x <= 0
    &&& s.y >= 0
    &&& -reach(s) <= drift(s) <= reach(s) - 1
    &&& !(-s.x == s.y && drift(s) == s.y - 1)
}

/// The position's mirror image in the diagonal.
pub open spec fn swapped(s: Walk) -> Walk {
    Walk { x: -s.y, y: -s.x, err: s.err - 4 * s.x - 4 * s.y }
}

/// A round leads from a position on the track to a position on the track,
/// and from the mirror image of the second back to that of the first.
proof fn lemma_step_on_track(s: Walk)
    requires
        on_track(s),
        s.x < 0,
    ensures
        on_track(crisp_step(s)),
        crisp_step(swapped(crisp_step(s))) == swapped(s),
        s.x <= crisp_step(s).x <= s.x + 1,
{
}

/// Every position that the walk reaches is on the track.
proof fn lemma_walk_on_track(radius: int, rounds: nat)
    requires
        radius >= 1,
        rounds == 0 || crisp_walk(radius, (rounds - 1) as nat).x < 0,
    ensures
        on_track(crisp_walk(radius, rounds)),
    decreases rounds,
{
    if rounds > 0 {
        let previous = (rounds - 1) as nat;
        if previous > 0 {
            lemma_crisp_x_grows(radius, (previous - 1) as nat, previous);
        }
        lemma_walk_on_track(radius, previous);
        lemma_step_on_track(crisp_walk(radius, previous));
    }
}

/// The walk ends: from any position that it reaches, some later round
/// is the first to bring `x` to zero.
proof fn lemma_walk_ends(radius: int, rounds: nat) -> (end: nat)
    requires
        radius >= 1,
        rounds == 0 || crisp_walk(radius, (rounds - 1) as nat).x < 0,
        crisp_walk(radius, rounds).x < 0,
    ensures
        end > rounds,
        crisp_walk(radius, end).x == 0,
        crisp_walk(radius, (end - 1) as nat).x < 0,
    decreases
            -crisp_walk(radius, rounds).x,
            (if -crisp_walk(radius, rounds).x - 2 * crisp_walk(radius, rounds).y - drift(
                crisp_walk(radius, rounds),
            ) > 0 {
                -crisp_walk(radius, rounds).x - 2 * crisp_walk(radius, rounds).y - drift(
                    crisp_walk(radius, rounds),
                )
            } else {
                0
            }),
{
    let here = crisp_walk(radius, rounds);
    let next = crisp_walk(radius, rounds + 1);
    assert(next == crisp_step(here));
    lemma_walk_on_track(radius, rounds);
    lemma_step_on_track(here);
    if next.x >= 0 {
        rounds + 1
    } else {
        lemma_walk_ends(radius, rounds + 1)
    }
}

/// The error term of every position is what its distance from the true
/// circle makes it.
proof fn lemma_walk_drift(radius: int, rounds: nat)
    ensures
        drift(crisp_walk(radius, rounds)) == crisp_walk(radius, rounds).x * crisp_walk(
            radius,
            rounds,
        ).x + crisp_walk(radius, rounds).y * crisp_walk(radius, rounds).y - radius * radius,
    decreases rounds,
{
    let here = crisp_walk(radius, rounds);
    if rounds == 0 {
        assert(here.x * here.x == radius * radius) by (nonlinear_arith)
            requires
                here.x == -radius,
        ;
        assert(here.y * here.y == 0) by (nonlinear_arith)
            requires
                here.y == 0,
        ;
    } else {
        let s = crisp_walk(radius, (rounds - 1) as nat);
        lemma_walk_drift(radius, (rounds - 1) as nat);
        assert(here == crisp_step(s));
        assert(here.x * here.x == if here.x == s.x {
            s.x * s.x
        } else {
            s.x * s.x + 2 * s.x + 1
        }) by (nonlinear_arith)
            requires
                here.x == s.x || here.x == s.x + 1,
        ;
        assert(here.y * here.y == if here.y == s.y {
            s.y * s.y
        } else {
            s.y * s.y + 2 * s.y + 1
        }) by (nonlinear_arith)
            requires
                here.y == s.y || here.y == s.y + 1,
        ;
    }
}

/// The walk ends at the top of the circle.
proof fn lemma_walk_end_is_top(radius: int, end: nat)
    requires
        radius >= 1,
        end >= 1,
        crisp_walk(radius, end).x == 0,
        crisp_walk(radius, (end - 1) as nat).x < 0,
    ensures
        crisp_walk(radius, end) == (Walk { x: 0, y: radius, err: 2 * radius + 2 }),
{
    let last = crisp_walk(radius, end);
    lemma_walk_on_track(radius, end);
    lemma_walk_drift(radius, end);
    let y = last.y;
    assert(y == radius) by (nonlinear_arith)
        requires
            radius >= 1,
            y >= 0,
            -y <= y * y - radius * radius <= y - 1,
    ;
}

/// The walk is its own mirror image in the diagonal, run backwards.
proof fn lemma_walk_mirror(radius: int, end: nat, rounds: nat)
    requires
        radius >= 1,
        end >= 1,
        crisp_walk(radius, end).x == 0,
        crisp_walk(radius, (end - 1) as nat).x < 0,
        rounds <= end,
    ensures
        crisp_walk(radius, rounds) == swapped(crisp_walk(radius, (end - rounds) as nat)),
    decreases rounds,
{
    if rounds == 0 {
        lemma_walk_end_is_top(radius, end);
    } else {
        let from = (end - rounds) as nat;
        lemma_walk_mirror(radius, end, (rounds - 1) as nat);
        lemma_crisp_x_grows(radius, from, (end - 1) as nat);
        if from > 0 {
            lemma_crisp_x_grows(radius, (from - 1) as nat, from);
        }
        lemma_walk_on_track(radius, from);
        lemma_step_on_track(crisp_walk(radius, from));
        assert(crisp_walk(radius, from + 1) == crisp_step(crisp_walk(radius, from)));
    }
}

proof fn lemma_outline_flips(radius: int, dx: int, dy: int)
    requires
        radius >= 0,
        crisp_outline(radius, dx, dy),
    ensures
        crisp_outline(radius, -dx, dy),
{
    let round = choose|round: nat| #[trigger]
        crisp_plotted(radius, round) && mirrored(crisp_walk(radius, round), dx, dy);
    if round == 0 {
        assert(crisp_plotted(radius, 0) && mirrored(crisp_walk(radius, 0), -dx, dy));
    } else {
        lemma_crisp_x_grows(radius, 0, round);
        lemma_crisp_x_grows(radius, (round - 1) as nat, round);
        let end = lemma_walk_ends(radius, 0);
        if round >= end {
            lemma_crisp_x_grows(radius, end, round);
        }
        lemma_walk_mirror(radius, end, round);
        let twin = (end - round) as nat;
        lemma_crisp_x_grows(radius, twin, (end - 1) as nat);
        assert(crisp_plotted(radius, twin) && mirrored(crisp_walk(radius, twin), -dx, dy));
    }
}

/// The hard-edged outline is its own mirror image in the upright line
/// through the centre, and in the level line through it.
pub proof fn lemma_crisp_outline_symmetric(radius: int, dx: int, dy: int)
    requires
        radius >= 0,
    ensures
        crisp_outline(radius, -dx, dy) == crisp_outline(radius, dx, dy),
        crisp_outline(radius, dx, -dy) == crisp_outline(radius, dx, dy),
{
    if crisp_outline(radius, dx, dy) {
        lemma_outline_flips(radius, dx, dy);
    }
    if crisp_outline(radius, -dx, dy) {
        lemma_outline_flips(radius, -dx, dy);
    }
    lemma_crisp_outline_quarter_turn(radius, dx, dy);
    lemma_crisp_outline_quarter_turn(radius, -dy, dx);
    assert(crisp_outline(radius, -dx, -dy) == crisp_outline(radius, dx, dy));
    if crisp_outline(radius, dx, -dy) {
        lemma_outline_flips(radius, dx, -dy);
    }
    if crisp_outline(radius, -dx, -dy) {
        lemma_outline_flips(radius, -dx, -dy);
    }
}

/// A hard-edged circle covers a pixel exactly where it covers the pixel
/// as far on the other side of its centre's column, and of its centre's
/// row.
pub proof fn lemma_crisp_circle_symmetric(cx: int, cy: int, radius: int, dx: int, dy: int)
    requires
        radius >= 0,
    ensures
        crisp_circle_covers(cx, cy, radius, cx - dx, cy + dy) == crisp_circle_covers(
            cx,
            cy,
            radius,
            cx + dx,
            cy + dy,
        ),
        crisp_circle_covers(cx, cy, radius, cx + dx, cy - dy) == crisp_circle_covers(
            cx,
            cy,
            radius,
            cx + dx,
            cy + dy,
        ),
{
    lemma_crisp_outline_symmetric(radius, dx, dy);
    assert(cx - dx - cx == -dx && cx + dx - cx == dx && cy + dy - cy == dy && cy - dy - cy == -dy);
}

/// The larger of two distances from the centre lines, each taken without
/// its sign.
pub open spec fn farther(dx: int, dy: int) -> int {
    let across = if dx < 0 {
        -dx
    } else {
        dx
    };
    let along = if dy < 0 {
        -dy
    } else {
        dy
    };
    if across >= along {
        across
    } else {
        along
    }
}

/// Every pixel of the hard-edged outline lies within half a pixel of the
/// true circle, measured along the centre line that it is farther from:
/// the square of its distance from the centre differs from the square
/// of the radius by less than that farther distance, or falls short of it
/// by just as much.
pub proof fn lemma_crisp_outline_hugs_circle(radius: int, dx: int, dy: int)
    requires
        radius >= 1,
        crisp_outline(radius, dx, dy),
    ensures
        -farther(dx, dy) <= dx * dx + dy * dy - radius * radius <= farther(dx, dy) - 1,
{
    let round = choose|round: nat| #[trigger]
        crisp_plotted(radius, round) && mirrored(crisp_walk(radius, round), dx, dy);
    let s = crisp_walk(radius, round);
    if round > 0 {
        lemma_crisp_x_grows(radius, (round - 1) as nat, round);
    }
    lemma_walk_on_track(radius, round);
    lemma_walk_drift(radius, round);
    assert(dx * dx + dy * dy == s.x * s.x + s.y * s.y) by (nonlinear_arith)
        requires
            (dx == -s.x && dy == s.y) || (dx == -s.y && dy == -s.x) || (dx == s.x && dy == -s.y)
                || (dx == s.y && dy == s.x),
    ;
}

/// One round of the soft-edged walk: `x` advances where the error
/// outweighs `y`, and `y` advances where the error, as it was, does not
/// outweigh `x`.
pub open spec fn soft_step(s: Walk) -> Walk {
    let advances = s.err + s.y > 0;
    let rises = s.err + s.x <= 0;
    let x = if advances {
        s.x + 1
    } else {
        s.x
    };
    let err = if advances {
        s.err + 2 * x + 1
    } else {
        s.err
    };
    if rises {
        Walk { x, y: s.y + 1, err: err + 2 * (s.y + 1) + 1 }
    } else {
        Walk { x, y: s.y, err }
    }
}

/// `colour` at the opacity of a pixel whose distance from the true circle
/// is `distance` parts of `diameter`: a pixel on the circle is opaque, one
/// a full `diameter` away is clear.
pub open spec fn shade(colour: u32, distance: int, diameter: int) -> u32 {
    with_alpha(colour, (255 - 255 * distance / diameter) as u32)
}

/// Whether a pixel at that distance is painted at all.
pub open spec fn shows(distance: int, diameter: int) -> bool {
    255 * distance / diameter < 256
}

/// The buffer with `colour` blended over the pixel at offset `(dx, dy)`
/// from the centre and over its three images under quarter turns, in the
/// order of the turns.
pub open spec fn blend_turns(
    buffer: Seq<u32>,
    width: int,
    height: int,
    cx: int,
    cy: int,
    dx: int,
    dy: int,
    colour: u32,
) -> Seq<u32> {
    let first = blend_pixel(buffer, width, height, cx + dx, cy + dy, colour);
    let second = blend_pixel(first, width, height, cx - dy, cy + dx, colour);
    let third = blend_pixel(second, width, height, cx - dx, cy - dy, colour);
    blend_pixel(third, width, height, cx + dy, cy - dx, colour)
}

/// The distance of a position from the true circle, without its sign.
pub open spec fn off_circle(s: Walk) -> int {
    if drift(s) < 0 {
        -drift(s)
    } else {
        drift(s)
    }
}

/// The part of a round that the soft outline and the filled circle share:
/// the position itself is blended in at its shade, and where `x` is about
/// to advance, so is the pixel outward of it, if it shows.
pub open spec fn soft_edge(
    buffer: Seq<u32>,
    width: int,
    height: int,
    cx: int,
    cy: int,
    radius: int,
    s: Walk,
    colour: u32,
) -> Seq<u32> {
    let diameter = 2 * radius - 1;
    let on = blend_turns(
        buffer,
        width,
        height,
        cx,
        cy,
        -s.x,
        s.y,
        shade(colour, off_circle(s), diameter),
    );
    let outward = s.err - 2 * s.x - 1;
    if s.err + s.y > 0 && shows(outward, diameter) {
        blend_turns(on, width, height, cx, cy, -s.x, s.y + 1, shade(colour, outward, diameter))
    } else {
        on
    }
}

/// What one round of the soft outline paints: the shared part, and where
/// `y` is about to advance, the pixel inward of the position, if it
/// shows.
pub open spec fn soft_round(
    buffer: Seq<u32>,
    width: int,
    height: int,
    cx: int,
    cy: int,
    radius: int,
    s: Walk,
    colour: u32,
) -> Seq<u32> {
    let diameter = 2 * radius - 1;
    let edge = soft_edge(buffer, width, height, cx, cy, radius, s, colour);
    let inward = 2 * s.y + 3 - s.err;
    if s.err + s.x <= 0 && shows(inward, diameter) {
        blend_turns(edge, width, height, cx, cy, -s.x - 1, s.y, shade(colour, inward, diameter))
    } else {
        edge
    }
}

/// How many rounds without an advance of `x` may still follow.
pub open spec fn soft_slack(s: Walk) -> int {
    if s.err + s.y <= 0 {
        1 - (s.err + s.y)
    } else {
        0
    }
}

/// The buffer after the soft outline's walk has gone on from position
/// `s` to its end, where `x` reaches zero.
pub open spec fn soft_from(
    buffer: Seq<u32>,
    width: int,
    height: int,
    cx: int,
    cy: int,
    radius: int,
    s: Walk,
    colour: u32,
) -> Seq<u32>
    decreases -s.x, soft_slack(s),
    when s.x < 0 && s.y >= 0
{
    let painted = soft_round(buffer, width, height, cx, cy, radius, s, colour);
    let next = soft_step(s);
    if next.x < 0 {
        soft_from(painted, width, height, cx, cy, radius, next, colour)
    } else {
        painted
    }
}

/// The buffer with a soft-edged circle outline drawn into it. A circle
/// that would reach left of column 0 or above row 0 leaves the buffer as
/// it was; one of radius 0 is its centre pixel, opaque.
pub open spec fn soft_circle(
    buffer: Seq<u32>,
    width: int,
    height: int,
    cx: int,
    cy: int,
    radius: int,
    colour: u32,
) -> Seq<u32> {
    if cx < radius || cy < radius {
        buffer
    } else if radius == 0 {
        blend_pixel(buffer, width, height, cx, cy, with_alpha(colour, 255))
    } else {
        soft_from(buffer, width, height, cx, cy, radius, walk_start(radius), colour)
    }
}

/// What holds of every position of the soft-edged walk.
pub open spec fn soft_track(s: Walk, radius: int) -> bool {
    &&& -radius <= s.x <= 0
    &&& 0 <= s.y <= radius
    &&& drift(s) == s.x * s.x + s.y * s.y - radius * radius
    &&& 1 - 2 * radius <= drift(s) <= 2 * radius - 1
    &&& drift(s) + 2 * s.y >= 0
    &&& s.x < 0 ==> drift(s) <= 1 - 2 * s.x
}

/// A round of the soft-edged walk keeps it on its track.
proof fn lemma_soft_step_on_track(s: Walk, radius: int)
    requires
        soft_track(s, radius),
        s.x < 0,
    ensures
        soft_track(soft_step(s), radius),
        soft_step(s).x > s.x || soft_slack(soft_step(s)) < soft_slack(s),
        s.err + s.y > 0 ==> s.err - 2 * s.x - 1 >= 0,
        s.err + s.x <= 0 ==> 2 * s.y + 3 - s.err >= 0,
{
    let t = soft_step(s);
    if s.err + s.x <= 0 {
        lemma_rise_stays_inside(s.x, s.y, radius, s.err);
    }
    assert(t.x * t.x == if t.x == s.x {
        s.x * s.x
    } else {
        s.x * s.x + 2 * s.x + 1
    }) by (nonlinear_arith)
        requires
            t.x == s.x || t.x == s.x + 1,
    ;
    assert(t.y * t.y == if t.y == s.y {
        s.y * s.y
    } else {
        s.y * s.y + 2 * s.y + 1
    }) by (nonlinear_arith)
        requires
            t.y == s.y || t.y == s.y + 1,
    ;
}

/// A distance of at most a diameter gives an opacity of at most 255.
proof fn lemma_shade_bound(distance: int, diameter: int)
    requires
        0 <= distance,
        0 < diameter,
    ensures
        0 <= 255 * distance / diameter,
        distance <= diameter ==> 255 * distance / diameter <= 255,
{
    vstd::arithmetic::div_mod::lemma_div_pos_is_pos(255 * distance, diameter);
    if distance <= diameter {
        assert(255 * distance <= 255 * diameter);
        vstd::arithmetic::div_mod::lemma_div_is_ordered(255 * distance, 255 * diameter, diameter);
        vstd::arithmetic::div_mod::lemma_div_multiples_vanish(255, diameter);
        assert(diameter * 255 == 255 * diameter) by (nonlinear_arith);
    }
}

/// `colour` at the shade of the given distance, where the pixel shows.
fn shade_of(colour: u32, distance: i128, diameter: i128) -> (r: Option<u32>)
    requires
        0 <= distance <= 0x1_0000_0000_0000_0000_0000,
        0 < diameter,
    ensures
        r == if shows(distance as int, diameter as int) {
            Some(shade(colour, distance as int, diameter as int))
        } else {
            None
        },
{
    proof {
        lemma_shade_bound(distance as int, diameter as int);
    }
    let scaled: u128 = 255 * (distance as u128);
    let alpha: u128 = scaled / (diameter as u128);
    if alpha < 256 {
        let opacity: u8 = (255 - alpha) as u8;
        Some(set_alpha(colour, opacity))
    } else {
        None
    }
}

impl<D: Dimensions> FramebufferInternal<D> {
    /// Blends `colour` over the pixel at offset `(dx, dy)` from the centre
    /// and over its three images under quarter turns.
    fn blend_quarter_turns(&mut self, cx: i128, cy: i128, dx: i128, dy: i128, colour: u32)
        requires
            -0x2_0000_0000_0000_0000 <= cx <= 0x2_0000_0000_0000_0000,
            -0x2_0000_0000_0000_0000 <= cy <= 0x2_0000_0000_0000_0000,
            -0x2_0000_0000_0000_0000 <= dx <= 0x2_0000_0000_0000_0000,
            -0x2_0000_0000_0000_0000 <= dy <= 0x2_0000_0000_0000_0000,
        ensures
            final(self)@.len() == old(self)@.len(),
            final(self)@ == blend_turns(
                old(self)@,
                Self::width(),
                Self::height(),
                cx as int,
                cy as int,
                dx as int,
                dy as int,
                colour,
            ),
    {
        self.blend_at(cx + dx, cy + dy, colour);
        self.blend_at(cx - dy, cy + dx, colour);
        self.blend_at(cx - dx, cy - dy, colour);
        self.blend_at(cx + dy, cy - dx, colour);
    }

    /// Paints what the soft outline and the filled circle share of one
    /// round.
    fn paint_soft_edge(&mut self, cx: i128, cy: i128, r: i128, x: i128, y: i128, err: i128, colour: u32)
        requires
            0 <= cx <= usize::MAX,
            0 <= cy <= usize::MAX,
            1 <= r <= usize::MAX,
            soft_track(Walk { x: x as int, y: y as int, err: err as int }, r as int),
            x < 0,
        ensures
            final(self)@.len() == old(self)@.len(),
            final(self)@ == soft_edge(
                old(self)@,
                Self::width(),
                Self::height(),
                cx as int,
                cy as int,
                r as int,
                Walk { x: x as int, y: y as int, err: err as int },
                colour,
            ),
    {
        let ghost s = Walk { x: x as int, y: y as int, err: err as int };
        proof {
            lemma_soft_step_on_track(s, r as int);
            lemma_shade_bound(off_circle(s), 2 * r - 1);
        }
        let diameter: i128 = 2 * r - 1;
        let d: i128 = err - 2 * (x + y) - 2;
        let distance: i128 = if d < 0 {
            -d
        } else {
            d
        };
        match shade_of(colour, distance, diameter) {
            Some(c) => {
                self.blend_quarter_turns(cx, cy, -x, y, c);
            },
            None => {},
        }
        if err + y > 0 {
            match shade_of(colour, err - 2 * x - 1, diameter) {
                Some(c) => {
                    self.blend_quarter_turns(cx, cy, -x, y + 1, c);
                },
                None => {},
            }
        }
    }

    /// Draws the outline of a circle with a soft edge: each pixel near the
    /// true circle is blended in, the more opaque the nearer it lies.
    /// Does nothing where the centre lies less than `radius` from column 0
    /// or from row 0; pixels that the buffer lacks are passed over.
    pub fn draw_circle(&mut self, x_mid: usize, y_mid: usize, radius: usize, colour: u32)
        ensures
            final(self)@.len() == old(self)@.len(),
            final(self)@ == soft_circle(
                old(self)@,
                Self::width(),
                Self::height(),
                x_mid as int,
                y_mid as int,
                radius as int,
                colour,
            ),
    {
        let ghost before = self@;
        let ghost width = Self::width();
        let ghost height = Self::height();
        if x_mid < radius || y_mid < radius {
            return ;
        }
        let cx: i128 = x_mid as i128;
        let cy: i128 = y_mid as i128;
        let r: i128 = radius as i128;
        if radius == 0 {
            self.blend_at(cx, cy, set_alpha(colour, 255));
            return ;
        }
        let mut x: i128 = -r;
        let mut y: i128 = 0;
        let mut err: i128 = 2 - 2 * r;
        let diameter: i128 = 2 * r - 1;
        proof {
            assert(x * x == r * r) by (nonlinear_arith)
                requires
                    x == -r,
            ;
        }
        loop
            invariant_except_break
                x < 0,
                soft_from(
                    self@,
                    width,
                    height,
                    cx as int,
                    cy as int,
                    r as int,
                    Walk { x: x as int, y: y as int, err: err as int },
                    colour,
                ) == soft_from(
                    before,
                    width,
                    height,
                    cx as int,
                    cy as int,
                    r as int,
                    walk_start(r as int),
                    colour,
                ),
            invariant
                self@.len() == before.len(),
                width == Self::width(),
                height == Self::height(),
                cx == x_mid,
                cy == y_mid,
                1 <= r == radius,
                diameter == 2 * r - 1,
                soft_track(Walk { x: x as int, y: y as int, err: err as int }, r as int),
            ensures
                self@ == soft_from(
                    before,
                    width,
                    height,
                    cx as int,
                    cy as int,
                    r as int,
                    walk_start(r as int),
                    colour,
                ),
            decreases -x, soft_slack(Walk { x: x as int, y: y as int, err: err as int }),
        {
            let ghost s = Walk { x: x as int, y: y as int, err: err as int };
            let ghost entry = self@;
            proof {
                lemma_soft_step_on_track(s, r as int);
            }
            self.paint_soft_edge(cx, cy, r, x, y, err, colour);
            let e2: i128 = err;
            let x2: i128 = x;
            if err + y > 0 {
                x += 1;
                err += x * 2 + 1;
            }
            if e2 + x2 <= 0 {
                match shade_of(colour, 2 * y + 3 - e2, diameter) {
                    Some(c) => {
                        self.blend_quarter_turns(cx, cy, -x2 - 1, y, c);
                    },
                    None => {},
                }
                y += 1;
                err += y * 2 + 1;
            }
            proof {
                assert(self@ == soft_round(
                    entry,
                    width,
                    height,
                    cx as int,
                    cy as int,
                    r as int,
                    s,
                    colour,
                ));
                assert((Walk { x: x as int, y: y as int, err: err as int }) == soft_step(s));
            }
            if !(x < 0) {
                break ;
            }
        }
    }
}

/// The buffer with `count` pixels set to `colour`: the first at
/// `(x, y)`, each further one `step_x` columns and `step_y` rows on.
pub open spec fn solid_run(
    buffer: Seq<u32>,
    width: int,
    height: int,
    x: int,
    y: int,
    step_x: int,
    step_y: int,
    count: nat,
    colour: u32,
) -> Seq<u32>
    decreases count,
{
    if count == 0 {
        buffer
    } else {
        solid_run(
            put_pixel(buffer, width, height, x, y, colour),
            width,
            height,
            x + step_x,
            y + step_y,
            step_x,
            step_y,
            (count - 1) as nat,
            colour,
        )
    }
}

/// The four runs that fill inwards from a position `across` columns and
/// `up` rows from the centre, one into each quarter: each starts at an
/// image of the position and goes diagonally towards the centre lines,
/// until it has reached or passed both.
pub open spec fn inward_runs(
    buffer: Seq<u32>,
    width: int,
    height: int,
    cx: int,
    cy: int,
    across: int,
    up: int,
    colour: u32,
) -> Seq<u32> {
    let count = (if across >= up {
        across
    } else {
        up
    }) as nat;
    let first = solid_run(buffer, width, height, cx + across, cy + up, -1, -1, count, colour);
    let second = solid_run(first, width, height, cx + up, cy - across, -1, 1, count, colour);
    let third = solid_run(second, width, height, cx - up, cy + across, 1, -1, count, colour);
    solid_run(third, width, height, cx - across, cy - up, 1, 1, count, colour)
}

/// What one round of the filled circle paints: the part shared with the
/// soft outline, and where `y` is about to advance, the four inward runs
/// from the pixel inward of the position.
pub open spec fn filled_round(
    buffer: Seq<u32>,
    width: int,
    height: int,
    cx: int,
    cy: int,
    radius: int,
    s: Walk,
    colour: u32,
) -> Seq<u32> {
    let edge = soft_edge(buffer, width, height, cx, cy, radius, s, colour);
    if s.err + s.x <= 0 {
        inward_runs(edge, width, height, cx, cy, -s.x - 1, s.y, colour)
    } else {
        edge
    }
}

/// The buffer after the filled circle's walk has gone on from position
/// `s` to its end, where `x` reaches zero.
pub open spec fn filled_from(
    buffer: Seq<u32>,
    width: int,
    height: int,
    cx: int,
    cy: int,
    radius: int,
    s: Walk,
    colour: u32,
) -> Seq<u32>
    decreases -s.x, soft_slack(s),
    when s.x < 0 && s.y >= 0
{
    let painted = filled_round(buffer, width, height, cx, cy, radius, s, colour);
    let next = soft_step(s);
    if next.x < 0 {
        filled_from(painted, width, height, cx, cy, radius, next, colour)
    } else {
        painted
    }
}

/// The buffer with a filled circle drawn into it: the walk of the soft
/// outline with its inward runs, and the centre pixel set last. A circle
/// that would reach left of column 0 or above row 0 leaves the buffer as
/// it was; one of radius 0 is its centre pixel.
pub open spec fn filled_circle(
    buffer: Seq<u32>,
    width: int,
    height: int,
    cx: int,
    cy: int,
    radius: int,
    colour: u32,
) -> Seq<u32> {
    if cx < radius || cy < radius {
        buffer
    } else if radius == 0 {
        put_pixel(buffer, width, height, cx, cy, colour)
    } else {
        put_pixel(
            filled_from(buffer, width, height, cx, cy, radius, walk_start(radius), colour),
            width,
            height,
            cx,
            cy,
            colour,
        )
    }
}

impl<D: Dimensions> FramebufferInternal<D> {
    /// Sets `count` pixels, the first at `(x, y)`, each further one a
    /// diagonal step on.
    fn draw_run(
        &mut self,
        x: i128,
        y: i128,
        step_x: i128,
        step_y: i128,
        count: i128,
        colour: u32,
    )
        requires
            -0x2_0000_0000_0000_0000 <= x <= 0x2_0000_0000_0000_0000,
            -0x2_0000_0000_0000_0000 <= y <= 0x2_0000_0000_0000_0000,
            0 <= count <= 0x2_0000_0000_0000_0000,
            step_x == 1 || step_x == -1,
            step_y == 1 || step_y == -1,
        ensures
            final(self)@.len() == old(self)@.len(),
            final(self)@ == solid_run(
                old(self)@,
                Self::width(),
                Self::height(),
                x as int,
                y as int,
                step_x as int,
                step_y as int,
                count as nat,
                colour,
            ),
    {
        let ghost before = self@;
        let ghost width = Self::width();
        let ghost height = Self::height();
        let mut current_x: i128 = x;
        let mut current_y: i128 = y;
        let mut left: i128 = count;
        while left > 0
            invariant
                self@.len() == before.len(),
                width == Self::width(),
                height == Self::height(),
                0 <= left <= count <= 0x2_0000_0000_0000_0000,
                step_x == 1 || step_x == -1,
                step_y == 1 || step_y == -1,
                -0x2_0000_0000_0000_0000 <= x <= 0x2_0000_0000_0000_0000,
                -0x2_0000_0000_0000_0000 <= y <= 0x2_0000_0000_0000_0000,
                current_x == x + step_x * (count - left),
                current_y == y + step_y * (count - left),
                solid_run(
                    self@,
                    width,
                    height,
                    current_x as int,
                    current_y as int,
                    step_x as int,
                    step_y as int,
                    left as nat,
                    colour,
                ) == solid_run(
                    before,
                    width,
                    height,
                    x as int,
                    y as int,
                    step_x as int,
                    step_y as int,
                    count as nat,
                    colour,
                ),
            decreases left,
        {
            self.plot(current_x, current_y, colour);
            current_x += step_x;
            current_y += step_y;
            left -= 1;
        }
    }

    /// Draws a filled circle with a soft edge. Does nothing where the
    /// centre lies less than `radius` from column 0 or from row 0; pixels
    /// that the buffer lacks are passed over.
    pub fn draw_filled_circle(&mut self, x_mid: usize, y_mid: usize, radius: usize, colour: u32)
        ensures
            final(self)@.len() == old(self)@.len(),
            final(self)@ == filled_circle(
                old(self)@,
                Self::width(),
                Self::height(),
                x_mid as int,
                y_mid as int,
                radius as int,
                colour,
            ),
    {
        let ghost before = self@;
        let ghost width = Self::width();
        let ghost height = Self::height();
        if x_mid < radius || y_mid < radius {
            return ;
        }
        let cx: i128 = x_mid as i128;
        let cy: i128 = y_mid as i128;
        let r: i128 = radius as i128;
        if radius == 0 {
            self.plot(cx, cy, colour);
            return ;
        }
        let mut x: i128 = -r;
        let mut y: i128 = 0;
        let mut err: i128 = 2 - 2 * r;
        proof {
            assert(x * x == r * r) by (nonlinear_arith)
                requires
                    x == -r,
            ;
        }
        loop
            invariant_except_break
                x < 0,
                filled_from(
                    self@,
                    width,
                    height,
                    cx as int,
                    cy as int,
                    r as int,
                    Walk { x: x as int, y: y as int, err: err as int },
                    colour,
                ) == filled_from(
                    before,
                    width,
                    height,
                    cx as int,
                    cy as int,
                    r as int,
                    walk_start(r as int),
                    colour,
                ),
            invariant
                self@.len() == before.len(),
                width == Self::width(),
                height == Self::height(),
                cx == x_mid,
                cy == y_mid,
                1 <= r == radius,
                soft_track(Walk { x: x as int, y: y as int, err: err as int }, r as int),
            ensures
                self@ == filled_from(
                    before,
                    width,
                    height,
                    cx as int,
                    cy as int,
                    r as int,
                    walk_start(r as int),
                    colour,
                ),
            decreases -x, soft_slack(Walk { x: x as int, y: y as int, err: err as int }),
        {
            let ghost s = Walk { x: x as int, y: y as int, err: err as int };
            let ghost entry = self@;
            proof {
                lemma_soft_step_on_track(s, r as int);
            }
            self.paint_soft_edge(cx, cy, r, x, y, err, colour);
            let e2: i128 = err;
            let x2: i128 = x;
            if err + y > 0 {
                x += 1;
                err += x * 2 + 1;
            }
            if e2 + x2 <= 0 {
                let across: i128 = -x2 - 1;
                let count: i128 = if across >= y {
                    across
                } else {
                    y
                };
                self.draw_run(cx + across, cy + y, -1, -1, count, colour);
                self.draw_run(cx + y, cy - across, -1, 1, count, colour);
                self.draw_run(cx - y, cy + across, 1, -1, count, colour);
                self.draw_run(cx - across, cy - y, 1, 1, count, colour);
                y += 1;
                err += y * 2 + 1;
            }
            proof {
                assert(self@ == filled_round(
                    entry,
                    width,
                    height,
                    cx as int,
                    cy as int,
                    r as int,
                    s,
                    colour,
                ));
                assert((Walk { x: x as int, y: y as int, err: err as int }) == soft_step(s));
            }
            if !(x < 0) {
                break ;
            }
        }
        self.plot(cx, cy, colour);
    }
}

} // verus!
