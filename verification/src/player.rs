//! What is shown, frame by frame: the bytes as a run of quadrilaterals, or
//! the bytes as pixels of three bits each.

use crate::colour::{palette_colour, BLACK, PALETTE};
use crate::decoder::{render_from_lsb, render_from_msb, rendered};
use crate::framebuffer::{fill_where, Framebuffer};
use crate::triangle::quad_covers;
use vstd::prelude::*;

verus! {

/// Where the run of quadrilaterals has got to: the position of the next
/// quadrilateral's first byte.
pub struct QuadrilateralState {
    pub byte_index: usize,
}

impl Default for QuadrilateralState {
    fn default() -> (r: Self)
        ensures
            r.byte_index == 0,
    {
        QuadrilateralState { byte_index: 0 }
    }
}

/// Where the pixel view starts in the bytes, and whether it has been
/// drawn yet.
pub struct ThreeBitsPerPixelState {
    pub byte_index: usize,
    pub done_first_render: bool,
}

impl Default for ThreeBitsPerPixelState {
    fn default() -> (r: Self)
        ensures
            r.byte_index == 0,
            !r.done_first_render,
    {
        ThreeBitsPerPixelState { byte_index: 0, done_first_render: false }
    }
}

/// The two ways of showing the bytes.
pub enum RenderMode {
    Quadrilateral(QuadrilateralState),
    ThreeBitsPerPixel(ThreeBitsPerPixelState),
}

impl Default for RenderMode {
    fn default() -> (r: Self)
        ensures
            r == RenderMode::Quadrilateral(QuadrilateralState { byte_index: 0 }),
    {
        RenderMode::Quadrilateral(QuadrilateralState { byte_index: 0 })
    }
}

/// The bytes that are shown, and how.
pub struct GameState {
    pub render_mode: RenderMode,
    pub bytes: Vec<u8>,
}

/// The buttons that went down in this frame, of those that matter here.
#[derive(Clone, Copy, Debug)]
pub struct Presses {
    pub start: bool,
    pub left: bool,
    pub right: bool,
}

/// The mode in its first state.
pub open spec fn fresh(mode: RenderMode) -> RenderMode {
    match mode {
        RenderMode::Quadrilateral(_) => RenderMode::Quadrilateral(
            QuadrilateralState { byte_index: 0 },
        ),
        RenderMode::ThreeBitsPerPixel(_) => RenderMode::ThreeBitsPerPixel(
            ThreeBitsPerPixelState { byte_index: 0, done_first_render: false },
        ),
    }
}

/// The other mode, in its first state.
pub open spec fn other(mode: RenderMode) -> RenderMode {
    match mode {
        RenderMode::Quadrilateral(_) => RenderMode::ThreeBitsPerPixel(
            ThreeBitsPerPixelState { byte_index: 0, done_first_render: false },
        ),
        RenderMode::ThreeBitsPerPixel(_) => RenderMode::Quadrilateral(
            QuadrilateralState { byte_index: 0 },
        ),
    }
}

impl GameState {
    /// A state that shows `bytes` as quadrilaterals, from their start.
    pub fn new(bytes: Vec<u8>) -> (r: GameState)
        ensures
            r.bytes == bytes,
            r.render_mode == RenderMode::Quadrilateral(QuadrilateralState { byte_index: 0 }),
    {
        GameState { render_mode: RenderMode::default(), bytes }
    }

    /// Takes new bytes to show, and starts the mode that is on afresh.
    pub fn update_bytes(&mut self, bytes: Vec<u8>)
        ensures
            final(self).bytes == bytes,
            final(self).render_mode == fresh(old(self).render_mode),
    {
        self.bytes = bytes;
        let restarted = match self.render_mode {
            RenderMode::Quadrilateral(_) => RenderMode::Quadrilateral(
                QuadrilateralState::default(),
            ),
            RenderMode::ThreeBitsPerPixel(_) => RenderMode::ThreeBitsPerPixel(
                ThreeBitsPerPixelState::default(),
            ),
        };
        self.render_mode = restarted;
    }
}

/// The byte at `position`, or zero past the end.
pub open spec fn byte_or_zero(bytes: Seq<u8>, position: int) -> int {
    if 0 <= position < bytes.len() {
        bytes[position] as int
    } else {
        0
    }
}

/// The buffer after one frame of the run of quadrilaterals: cleared to
/// black where the run starts over, then with the quadrilateral painted
/// whose four vertices the eight bytes from `byte_index` give, in the
/// palette colour that the quadrilateral's number picks.
pub open spec fn quadrilateral_frame(
    buffer: Seq<u32>,
    width: int,
    height: int,
    bytes: Seq<u8>,
    byte_index: int,
) -> Seq<u32> {
    let ground = if byte_index == 0 {
        Seq::new(buffer.len(), |i: int| BLACK)
    } else {
        buffer
    };
    fill_where(
        ground,
        width,
        height,
        |px: int, py: int|
            quad_covers(
                byte_or_zero(bytes, byte_index),
                byte_or_zero(bytes, byte_index + 1),
                byte_or_zero(bytes, byte_index + 2),
                byte_or_zero(bytes, byte_index + 3),
                byte_or_zero(bytes, byte_index + 4),
                byte_or_zero(bytes, byte_index + 5),
                byte_or_zero(bytes, byte_index + 6),
                byte_or_zero(bytes, byte_index + 7),
                px,
                py,
            ),
        palette_colour((byte_index / 8) % 8),
    )
}

/// Where the run of quadrilaterals goes on: eight bytes further, or at
/// the start where that is not before the end.
pub open spec fn next_quadrilateral(len: int, byte_index: int) -> int {
    if byte_index + 8 >= len {
        0
    } else {
        byte_index + 8
    }
}

fn extract_or_zero(bytes: &[u8], byte_index: usize, offset: usize) -> (byte: u8)
    ensures
        byte == byte_or_zero(bytes@, byte_index + offset),
{
    let len: usize = bytes.len();
    match byte_index.checked_add(offset) {
        Some(i) => if i < len {
            bytes[i]
        } else {
            0
        },
        None => 0,
    }
}

/// Paints the next quadrilateral of the run and moves on to the one
/// after.
pub fn update_and_render_quadrilateral(
    framebuffer: &mut Framebuffer,
    state: &mut QuadrilateralState,
    bytes: &[u8],
)
    ensures
        final(framebuffer)@ == quadrilateral_frame(
            old(framebuffer)@,
            Framebuffer::width(),
            Framebuffer::height(),
            bytes@,
            old(state).byte_index as int,
        ),
        final(state).byte_index == next_quadrilateral(
            bytes@.len() as int,
            old(state).byte_index as int,
        ),
{
    if state.byte_index == 0 {
        framebuffer.clear_to(PALETTE[7]);
    }
    let x0: u8 = extract_or_zero(bytes, state.byte_index, 0);
    let y0: u8 = extract_or_zero(bytes, state.byte_index, 1);
    let x1: u8 = extract_or_zero(bytes, state.byte_index, 2);
    let y1: u8 = extract_or_zero(bytes, state.byte_index, 3);
    let x2: u8 = extract_or_zero(bytes, state.byte_index, 4);
    let y2: u8 = extract_or_zero(bytes, state.byte_index, 5);
    let x3: u8 = extract_or_zero(bytes, state.byte_index, 6);
    let y3: u8 = extract_or_zero(bytes, state.byte_index, 7);
    let colour: u32 = PALETTE[(state.byte_index / 8) % 8];
    framebuffer.draw_filled_quad(x0, y0, x1, y1, x2, y2, x3, y3, colour);
    let len: usize = bytes.len();
    state.byte_index = match state.byte_index.checked_add(8) {
        Some(next) => if next >= len {
            0
        } else {
            next
        },
        None => 0,
    };
}

/// Which way, if any, a frame of the pixel view decodes: highest bits
/// first for the first drawing and after a press of left, lowest bits
/// first after a press of right, which goes before left.
pub open spec fn decoding(done_first_render: bool, input: Presses) -> Option<bool> {
    if !done_first_render {
        Some(true)
    } else if input.right {
        Some(false)
    } else if input.left {
        Some(true)
    } else {
        None
    }
}

/// Draws the pixel view where it has not been drawn yet, and draws it
/// again after a press of right or left.
pub fn update_and_render_three_bits_per_pixel(
    framebuffer: &mut Framebuffer,
    state: &mut ThreeBitsPerPixelState,
    input: Presses,
    bytes: &[u8],
)
    requires
        bytes@.len() > 0,
    ensures
        final(framebuffer)@ == match decoding(old(state).done_first_render, input) {
            Some(msb_first) => rendered(
                bytes@,
                old(framebuffer)@,
                old(state).byte_index as int,
                msb_first,
            ),
            None => old(framebuffer)@,
        },
        final(state).done_first_render,
        final(state).byte_index == old(state).byte_index,
{
    if !state.done_first_render {
        render_from_msb(bytes, framebuffer.buffer.as_mut_slice(), state.byte_index);
        state.done_first_render = true;
        return ;
    }
    if input.right {
        render_from_lsb(bytes, framebuffer.buffer.as_mut_slice(), state.byte_index);
    } else if input.left {
        render_from_msb(bytes, framebuffer.buffer.as_mut_slice(), state.byte_index);
    }
}

/// What the frame buffer holds after a frame, `mode` being the mode
/// that the frame is drawn in.
pub open spec fn frame_shown(
    buffer: Seq<u32>,
    width: int,
    height: int,
    bytes: Seq<u8>,
    mode: RenderMode,
    input: Presses,
) -> Seq<u32> {
    match mode {
        RenderMode::Quadrilateral(q) => quadrilateral_frame(
            buffer,
            width,
            height,
            bytes,
            q.byte_index as int,
        ),
        RenderMode::ThreeBitsPerPixel(t) => match decoding(t.done_first_render, input) {
            Some(msb_first) => rendered(bytes, buffer, t.byte_index as int, msb_first),
            None => buffer,
        },
    }
}

/// The mode after a frame that is drawn in `mode`.
pub open spec fn mode_after(len: int, mode: RenderMode) -> RenderMode {
    match mode {
        RenderMode::Quadrilateral(q) => RenderMode::Quadrilateral(
            QuadrilateralState {
                byte_index: next_quadrilateral(len, q.byte_index as int) as usize,
            },
        ),
        RenderMode::ThreeBitsPerPixel(t) => RenderMode::ThreeBitsPerPixel(
            ThreeBitsPerPixelState { byte_index: t.byte_index, done_first_render: true },
        ),
    }
}

/// The mode that a frame is drawn in: the other one, from its start,
/// after a press of start.
pub open spec fn mode_drawn(mode: RenderMode, input: Presses) -> RenderMode {
    if input.start {
        other(mode)
    } else {
        mode
    }
}

/// One frame: a press of start changes the mode, and the mode that is
/// then on draws. The pixel view needs a byte to show.
pub fn update_and_render(framebuffer: &mut Framebuffer, state: &mut GameState, input: Presses)
    requires
        mode_drawn(old(state).render_mode, input) is ThreeBitsPerPixel ==> old(state).bytes@.len()
            > 0,
    ensures
        final(state).bytes == old(state).bytes,
        final(framebuffer)@ == frame_shown(
            old(framebuffer)@,
            Framebuffer::width(),
            Framebuffer::height(),
            old(state).bytes@,
            mode_drawn(old(state).render_mode, input),
            input,
        ),
        final(state).render_mode == mode_after(
            old(state).bytes@.len() as int,
            mode_drawn(old(state).render_mode, input),
        ),
{
    if input.start {
        let changed = match state.render_mode {
            RenderMode::Quadrilateral(_) => RenderMode::ThreeBitsPerPixel(
                ThreeBitsPerPixelState::default(),
            ),
            RenderMode::ThreeBitsPerPixel(_) => RenderMode::Quadrilateral(
                QuadrilateralState::default(),
            ),
        };
        state.render_mode = changed;
    }
    match &mut state.render_mode {
        RenderMode::Quadrilateral(q_state) => {
            update_and_render_quadrilateral(framebuffer, q_state, state.bytes.as_slice());
        },
        RenderMode::ThreeBitsPerPixel(t_state) => {
            update_and_render_three_bits_per_pixel(
                framebuffer,
                t_state,
                input,
                state.bytes.as_slice(),
            );
        },
    }
}

} // verus!
