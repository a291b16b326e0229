//! The pixel buffer: a row-major sequence of packed colours whose width and
//! height come from its type.

use crate::colour::{blend_colours, blend_over, BLUE, PALETTE};
use vstd::std_specs::cmp::PartialEqSpecImpl;
use vstd::std_specs::convert::IntoSpec;
use std::marker::PhantomData;
use vstd::prelude::*;

verus! {

/// The width and height of a pixel buffer, fixed by a type.
pub trait Dimensions {
    /// `(width, height)`, in pixels.
    spec fn size() -> (usize, usize);

    /// `(width, height)`, in pixels.
    fn get() -> (r: (usize, usize))
        ensures
            r == Self::size(),
    ;
}

/// The dimensions of the default screen.
pub struct ScreenDim;

/// Width of the default screen, in pixels.
pub const SCREEN_WIDTH: usize = 128;

/// Height of the default screen, in pixels.
pub const SCREEN_HEIGHT: usize = 128;

impl Dimensions for ScreenDim {
    open spec fn size() -> (usize, usize) {
        (SCREEN_WIDTH, SCREEN_HEIGHT)
    }

    fn get() -> (r: (usize, usize)) {
        (SCREEN_WIDTH, SCREEN_HEIGHT)
    }
}

/// A pixel buffer of the dimensions `D`.
pub struct FramebufferInternal<D: Dimensions> {
    pub buffer: Vec<u32>,
    pub _marker: PhantomData<D>,
}

/// A pixel buffer of the default screen's dimensions.
pub type Framebuffer = FramebufferInternal<ScreenDim>;

/// The linear position of pixel `(x, y)` in a buffer `width` pixels wide.
pub open spec fn linear(width: int, x: int, y: int) -> int {
    y * width + x
}

/// The column of the pixel at linear position `index`.
pub open spec fn column_of(index: int, width: int) -> int {
    index % width
}

/// The row of the pixel at linear position `index`.
pub open spec fn row_of(index: int, width: int) -> int {
    index / width
}

/// Whether linear position `index` belongs to a pixel of a `width` by
/// `height` buffer.
pub open spec fn on_screen(index: int, width: int, height: int) -> bool {
    0 <= index && 0 < width && row_of(index, width) < height
}

/// Whether `(x, y)` names a pixel of a `width` by `height` buffer that holds
/// `len` colours.
pub open spec fn addressable(len: int, width: int, height: int, x: int, y: int) -> bool {
    0 <= x < width && 0 <= y < height && linear(width, x, y) < len
}

/// Whether linear position `index` is that of pixel `(x, y)` of a `width`
/// by `height` buffer.
pub open spec fn is_pixel(index: int, width: int, height: int, x: int, y: int) -> bool {
    0 <= x < width && 0 <= y < height && column_of(index, width) == x && row_of(index, width)
        == y
}

/// The buffer with pixel `(x, y)` set to `colour`; unchanged where `(x, y)`
/// names no pixel.
pub open spec fn put_pixel(
    buffer: Seq<u32>,
    width: int,
    height: int,
    x: int,
    y: int,
    colour: u32,
) -> Seq<u32> {
    if addressable(buffer.len() as int, width, height, x, y) {
        buffer.update(linear(width, x, y), colour)
    } else {
        buffer
    }
}

/// The buffer with `colour` blended over pixel `(x, y)`; unchanged where
/// `(x, y)` names no pixel.
pub open spec fn blend_pixel(
    buffer: Seq<u32>,
    width: int,
    height: int,
    x: int,
    y: int,
    colour: u32,
) -> Seq<u32> {
    if addressable(buffer.len() as int, width, height, x, y) {
        buffer.update(
            linear(width, x, y),
            blend_colours(colour, buffer[linear(width, x, y)]),
        )
    } else {
        buffer
    }
}

/// The buffer with every pixel whose column and row satisfy `region` set to
/// `colour`, and every other position as it was.
pub open spec fn fill_where(
    buffer: Seq<u32>,
    width: int,
    height: int,
    region: spec_fn(int, int) -> bool,
    colour: u32,
) -> Seq<u32> {
    Seq::new(
        buffer.len(),
        |i: int|
            if on_screen(i, width, height) && region(column_of(i, width), row_of(i, width)) {
                colour
            } else {
                buffer[i]
            },
    )
}

/// `y * width + x`, or the largest `usize` where that does not fit.
pub open spec fn saturated_index(width: int, x: int, y: int) -> int {
    if linear(width, x, y) > usize::MAX {
        usize::MAX as int
    } else {
        linear(width, x, y)
    }
}

/// A linear position determines its column and row, and they determine it.
pub proof fn lemma_linear_coords(width: int, x: int, y: int)
    requires
        0 <= x < width,
        0 <= y,
    ensures
        column_of(linear(width, x, y), width) == x,
        row_of(linear(width, x, y), width) == y,
        linear(width, x, y) >= 0,
{
    vstd::arithmetic::div_mod::lemma_fundamental_div_mod_converse(
        linear(width, x, y),
        width,
        y,
        x,
    );
    assert(y * width >= 0) by (nonlinear_arith)
        requires
            y >= 0,
            width > 0,
    ;
}

/// A position is the linear position of its own column and row.
pub proof fn lemma_coords_linear(width: int, index: int)
    requires
        0 < width,
        0 <= index,
    ensures
        linear(width, column_of(index, width), row_of(index, width)) == index,
        0 <= column_of(index, width) < width,
        0 <= row_of(index, width),
{
    vstd::arithmetic::div_mod::lemma_fundamental_div_mod(index, width);
    vstd::arithmetic::div_mod::lemma_mod_bound(index, width);
    vstd::arithmetic::div_mod::lemma_div_pos_is_pos(index, width);
    assert(width * (index / width) == (index / width) * width) by (nonlinear_arith);
}

/// Setting a pixel changes the position of that pixel and no other.
pub proof fn lemma_put_pixel_at(
    buffer: Seq<u32>,
    width: int,
    height: int,
    x: int,
    y: int,
    colour: u32,
)
    ensures
        put_pixel(buffer, width, height, x, y, colour).len() == buffer.len(),
        forall|i: int|
            0 <= i < buffer.len() ==> #[trigger] put_pixel(buffer, width, height, x, y, colour)[i]
                == if is_pixel(i, width, height, x, y) {
                colour
            } else {
                buffer[i]
            },
{
    if 0 <= x < width && 0 <= y < height {
        lemma_linear_coords(width, x, y);
        assert forall|i: int| 0 <= i < buffer.len() implies #[trigger] put_pixel(
            buffer,
            width,
            height,
            x,
            y,
            colour,
        )[i] == if is_pixel(i, width, height, x, y) {
            colour
        } else {
            buffer[i]
        } by {
            lemma_coords_linear(width, i);
        }
    }
}

/// Setting one more pixel of a region to the region's colour widens the
/// region by that pixel.
pub proof fn lemma_fill_where_put(
    before: Seq<u32>,
    width: int,
    height: int,
    region: spec_fn(int, int) -> bool,
    x: int,
    y: int,
    colour: u32,
)
    ensures
        put_pixel(fill_where(before, width, height, region, colour), width, height, x, y, colour)
            == fill_where(
            before,
            width,
            height,
            |px: int, py: int| region(px, py) || (px == x && py == y),
            colour,
        ),
{
    let filled = fill_where(before, width, height, region, colour);
    let wider = fill_where(
        before,
        width,
        height,
        |px: int, py: int| region(px, py) || (px == x && py == y),
        colour,
    );
    lemma_put_pixel_at(filled, width, height, x, y, colour);
    assert forall|i: int| 0 <= i < before.len() implies put_pixel(
        filled,
        width,
        height,
        x,
        y,
        colour,
    )[i] == wider[i] by {
        if 0 < width {
            lemma_coords_linear(width, i);
        }
    }
    assert(put_pixel(filled, width, height, x, y, colour) =~= wider);
}

/// Regions that hold the same pixels of the buffer fill alike.
pub proof fn lemma_fill_where_same(
    before: Seq<u32>,
    width: int,
    height: int,
    first: spec_fn(int, int) -> bool,
    second: spec_fn(int, int) -> bool,
    colour: u32,
)
    requires
        forall|x: int, y: int|
            0 <= x < width && 0 <= y < height ==> #[trigger] first(x, y) == second(x, y),
    ensures
        fill_where(before, width, height, first, colour) == fill_where(
            before,
            width,
            height,
            second,
            colour,
        ),
{
    let one = fill_where(before, width, height, first, colour);
    let other = fill_where(before, width, height, second, colour);
    assert forall|i: int| 0 <= i < before.len() implies one[i] == other[i] by {
        if 0 < width {
            lemma_coords_linear(width, i);
        }
    }
    assert(one =~= other);
}

/// Filling the empty region changes nothing.
pub proof fn lemma_fill_where_nothing(
    before: Seq<u32>,
    width: int,
    height: int,
    region: spec_fn(int, int) -> bool,
    colour: u32,
)
    requires
        forall|x: int, y: int| !#[trigger] region(x, y),
    ensures
        fill_where(before, width, height, region, colour) == before,
{
    assert(fill_where(before, width, height, region, colour) =~= before);
}

/// The buffer with every pixel for which `colour_at` gives a colour set to
/// that colour, and every other position as it was.
pub open spec fn paint_with(
    buffer: Seq<u32>,
    width: int,
    height: int,
    colour_at: spec_fn(int, int) -> Option<u32>,
) -> Seq<u32> {
    Seq::new(
        buffer.len(),
        |i: int|
            if on_screen(i, width, height) {
                match colour_at(column_of(i, width), row_of(i, width)) {
                    Some(colour) => colour,
                    None => buffer[i],
                }
            } else {
                buffer[i]
            },
    )
}

/// Setting a pixel of a painted buffer is painting with that pixel's
/// colour changed.
pub proof fn lemma_paint_with_put(
    before: Seq<u32>,
    width: int,
    height: int,
    colour_at: spec_fn(int, int) -> Option<u32>,
    x: int,
    y: int,
    colour: u32,
)
    ensures
        put_pixel(paint_with(before, width, height, colour_at), width, height, x, y, colour)
            == paint_with(
            before,
            width,
            height,
            |px: int, py: int|
                if px == x && py == y {
                    Some(colour)
                } else {
                    colour_at(px, py)
                },
        ),
{
    let painted = paint_with(before, width, height, colour_at);
    let more = paint_with(
        before,
        width,
        height,
        |px: int, py: int|
            if px == x && py == y {
                Some(colour)
            } else {
                colour_at(px, py)
            },
    );
    lemma_put_pixel_at(painted, width, height, x, y, colour);
    assert forall|i: int| 0 <= i < before.len() implies put_pixel(
        painted,
        width,
        height,
        x,
        y,
        colour,
    )[i] == more[i] by {
        if 0 < width {
            lemma_coords_linear(width, i);
        }
    }
    assert(put_pixel(painted, width, height, x, y, colour) =~= more);
}

/// Paintings that give the pixels of the buffer the same colours are the
/// same.
pub proof fn lemma_paint_with_same(
    before: Seq<u32>,
    width: int,
    height: int,
    first: spec_fn(int, int) -> Option<u32>,
    second: spec_fn(int, int) -> Option<u32>,
)
    requires
        forall|x: int, y: int|
            0 <= x < width && 0 <= y < height ==> #[trigger] first(x, y) == second(x, y),
    ensures
        paint_with(before, width, height, first) == paint_with(before, width, height, second),
{
    let one = paint_with(before, width, height, first);
    let other = paint_with(before, width, height, second);
    assert forall|i: int| 0 <= i < before.len() implies one[i] == other[i] by {
        if 0 < width {
            lemma_coords_linear(width, i);
        }
    }
    assert(one =~= other);
}

/// Painting with no colour for any pixel of the buffer changes nothing.
pub proof fn lemma_paint_with_nothing(
    before: Seq<u32>,
    width: int,
    height: int,
    colour_at: spec_fn(int, int) -> Option<u32>,
)
    requires
        forall|x: int, y: int|
            0 <= x < width && 0 <= y < height ==> (#[trigger] colour_at(x, y)).is_none(),
    ensures
        paint_with(before, width, height, colour_at) == before,
{
    let painted = paint_with(before, width, height, colour_at);
    assert forall|i: int| 0 <= i < before.len() implies painted[i] == before[i] by {
        if 0 < width {
            lemma_coords_linear(width, i);
        }
    }
    assert(painted =~= before);
}

impl<D: Dimensions> FramebufferInternal<D> {
    /// The colours held, row by row.
    pub open spec fn view(&self) -> Seq<u32> {
        self.buffer@
    }

    /// Width in pixels.
    pub open spec fn width() -> int {
        D::size().0 as int
    }

    /// Height in pixels.
    pub open spec fn height() -> int {
        D::size().1 as int
    }

    /// The number of colours a buffer of these dimensions is made with.
    pub open spec fn area() -> int {
        if Self::width() * Self::height() > usize::MAX {
            usize::MAX as int
        } else {
            Self::width() * Self::height()
        }
    }

    /// The buffer holds exactly one colour for each pixel.
    pub open spec fn wf(&self) -> bool {
        self.buffer@.len() == Self::width() * Self::height()
    }

    /// A buffer with every pixel of the background colour, the first of
    /// the palette.
    pub fn new() -> (r: FramebufferInternal<D>)
        ensures
            r@ == Seq::new(Self::area() as nat, |i: int| BLUE),
            Self::width() * Self::height() <= usize::MAX ==> r.wf(),
    {
        let (w, h) = D::get();
        let len: usize = match w.checked_mul(h) {
            Some(n) => n,
            None => usize::MAX,
        };
        let mut buffer: Vec<u32> = Vec::new();
        let mut i: usize = 0;
        while i < len
            invariant
                i <= len,
                buffer@.len() == i,
                forall|j: int| 0 <= j < i ==> buffer@[j] == BLUE,
            decreases len - i,
        {
            buffer.push(PALETTE[0]);
            i += 1;
        }
        assert(buffer@ =~= Seq::new(Self::area() as nat, |i: int| BLUE));
        FramebufferInternal { buffer, _marker: PhantomData }
    }

    /// The linear position of `(x, y)`, as large as a `usize` can hold:
    /// that of the column and row that `x` and `y` convert to.
    pub fn xy_to_i<U1: Into<usize>, U2: Into<usize>>(x: U1, y: U2) -> (i: usize)
        ensures
            exists|column: usize, row: usize|
                #![trigger call_ensures(U1::into, (x,), column), call_ensures(U2::into, (y,), row)]
                call_ensures(U1::into, (x,), column) && call_ensures(U2::into, (y,), row) && i
                    == saturated_index(Self::width(), column as int, row as int),
            U1::obeys_into_spec() && U2::obeys_into_spec() ==> i == saturated_index(
                Self::width(),
                x.into_spec() as int,
                y.into_spec() as int,
            ),
    {
        let column: usize = x.into();
        let row: usize = y.into();
        let (w, _h) = D::get();
        let i: usize = match row.checked_mul(w) {
            Some(start) => match start.checked_add(column) {
                Some(i) => i,
                None => usize::MAX,
            },
            None => usize::MAX,
        };
        assert(call_ensures(U1::into, (x,), column) && call_ensures(U2::into, (y,), row) && i
            == saturated_index(Self::width(), column as int, row as int));
        i
    }

    /// The position of pixel `(x, y)`, where the buffer has that pixel.
    pub(crate) fn locate(&self, x: usize, y: usize) -> (r: Option<usize>)
        ensures
            match r {
                Some(i) => addressable(
                    self@.len() as int,
                    Self::width(),
                    Self::height(),
                    x as int,
                    y as int,
                ) && i == linear(Self::width(), x as int, y as int),
                None => !addressable(
                    self@.len() as int,
                    Self::width(),
                    Self::height(),
                    x as int,
                    y as int,
                ),
            },
    {
        let (w, h) = D::get();
        let len: usize = self.buffer.len();
        if x < w && y < h {
            match y.checked_mul(w) {
                Some(row) => match row.checked_add(x) {
                    Some(i) => if i < len {
                        Some(i)
                    } else {
                        None
                    },
                    None => None,
                },
                None => None,
            }
        } else {
            None
        }
    }

    /// Sets pixel `(x, y)` where the buffer has it.
    pub fn set_pixel(&mut self, x: usize, y: usize, colour: u32)
        ensures
            final(self)@.len() == old(self)@.len(),
            final(self)@ == put_pixel(
                old(self)@,
                Self::width(),
                Self::height(),
                x as int,
                y as int,
                colour,
            ),
    {
        match self.locate(x, y) {
            Some(i) => {
                self.buffer[i] = colour;
            },
            None => {},
        }
    }

    /// Sets the pixel at column `x` and row `y`, where both are columns
    /// and rows of the buffer.
    pub(crate) fn plot(&mut self, x: i128, y: i128, colour: u32)
        ensures
            final(self)@.len() == old(self)@.len(),
            final(self)@ == put_pixel(
                old(self)@,
                Self::width(),
                Self::height(),
                x as int,
                y as int,
                colour,
            ),
    {
        if 0 <= x && x <= usize::MAX as i128 && 0 <= y && y <= usize::MAX as i128 {
            self.set_pixel(x as usize, y as usize, colour);
        }
    }

    /// Blends `colour` over the pixel at column `x` and row `y`, where
    /// both are columns and rows of the buffer.
    pub(crate) fn blend_at(&mut self, x: i128, y: i128, colour: u32)
        ensures
            final(self)@.len() == old(self)@.len(),
            final(self)@ == blend_pixel(
                old(self)@,
                Self::width(),
                Self::height(),
                x as int,
                y as int,
                colour,
            ),
    {
        if 0 <= x && x <= usize::MAX as i128 && 0 <= y && y <= usize::MAX as i128 {
            self.blend_xy(x as usize, y as usize, colour);
        }
    }

    /// Sets every position to zero.
    pub fn clear(&mut self)
        ensures
            final(self)@.len() == old(self)@.len(),
            final(self)@ == Seq::new(old(self)@.len(), |i: int| 0u32),
    {
        self.clear_to(0);
    }

    /// Sets every position to `colour`.
    pub fn clear_to(&mut self, colour: u32)
        ensures
            final(self)@.len() == old(self)@.len(),
            final(self)@ == Seq::new(old(self)@.len(), |i: int| colour),
    {
        let len: usize = self.buffer.len();
        let mut i: usize = 0;
        while i < len
            invariant
                i <= len,
                self.buffer@.len() == len,
                forall|j: int| 0 <= j < i ==> self.buffer@[j] == colour,
            decreases len - i,
        {
            self.buffer[i] = colour;
            i += 1;
        }
        assert(self.buffer@ =~= Seq::new(old(self)@.len(), |i: int| colour));
    }

    /// Blends `colour` over the colour at position `i`; does nothing where
    /// the buffer has no such position.
    pub fn blend(&mut self, i: usize, colour: u32)
        ensures
            final(self)@.len() == old(self)@.len(),
            final(self)@ == if i < old(self)@.len() {
                old(self)@.update(i as int, blend_colours(colour, old(self)@[i as int]))
            } else {
                old(self)@
            },
    {
        if i < self.buffer.len() {
            let background: u32 = self.buffer[i];
            self.buffer[i] = blend_over(colour, background);
        }
    }

    /// Blends `colour` over pixel `(x, y)` where the buffer has it.
    pub fn blend_xy(&mut self, x: usize, y: usize, colour: u32)
        ensures
            final(self)@.len() == old(self)@.len(),
            final(self)@ == blend_pixel(
                old(self)@,
                Self::width(),
                Self::height(),
                x as int,
                y as int,
                colour,
            ),
    {
        match self.locate(x, y) {
            Some(i) => {
                self.blend(i, colour);
            },
            None => {},
        }
    }
}

impl<D: Dimensions> Default for FramebufferInternal<D> {
    fn default() -> (r: Self)
        ensures
            r@ == Seq::new(Self::area() as nat, |i: int| BLUE),
    {
        Self::new()
    }
}

impl<D: Dimensions> PartialEq for FramebufferInternal<D> {
    fn eq(&self, other: &FramebufferInternal<D>) -> (r: bool) {
        let len: usize = self.buffer.len();
        if other.buffer.len() != len {
            return false;
        }
        let mut i: usize = 0;
        while i < len
            invariant
                i <= len,
                self.buffer@.len() == len,
                other.buffer@.len() == len,
                forall|j: int| 0 <= j < i ==> self.buffer@[j] == other.buffer@[j],
            decreases len - i,
        {
            if self.buffer[i] != other.buffer[i] {
                return false;
            }
            i += 1;
        }
        assert(self.buffer@ =~= other.buffer@);
        true
    }
}

impl<D: Dimensions> PartialEqSpecImpl for FramebufferInternal<D> {
    open spec fn obeys_eq_spec() -> bool {
        true
    }

    open spec fn eq_spec(&self, other: &FramebufferInternal<D>) -> bool {
        self.buffer@ == other.buffer@
    }
}

impl<D: Dimensions> Eq for FramebufferInternal<D> {

}

} // verus!
