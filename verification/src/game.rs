//! The plain pixel view: a buffer of the screen's size that shows bytes
//! as pixels of three bits each, and nothing else.

use crate::colour::BLACK;
use crate::decoder::{render_from_lsb, render_from_msb, rendered};
use crate::framebuffer::{SCREEN_HEIGHT, SCREEN_WIDTH};
use crate::player::Presses;
use vstd::prelude::*;
use vstd::std_specs::cmp::PartialEqSpecImpl;

verus! {

/// A pixel buffer of the screen's size.
pub struct Framebuffer {
    pub buffer: Vec<u32>,
}

impl Framebuffer {
    /// The colours held, row by row.
    pub open spec fn view(&self) -> Seq<u32> {
        self.buffer@
    }

    /// A buffer with every pixel black.
    pub fn new() -> (r: Framebuffer)
        ensures
            r@ == Seq::new((SCREEN_WIDTH * SCREEN_HEIGHT) as nat, |i: int| BLACK),
    {
        let len: usize = SCREEN_WIDTH * SCREEN_HEIGHT;
        let mut buffer: Vec<u32> = Vec::new();
        let mut i: usize = 0;
        while i < len
            invariant
                i <= len,
                buffer@.len() == i,
                forall|j: int| 0 <= j < i ==> buffer@[j] == BLACK,
            decreases len - i,
        {
            buffer.push(BLACK);
            i += 1;
        }
        assert(buffer@ =~= Seq::new((SCREEN_WIDTH * SCREEN_HEIGHT) as nat, |i: int| BLACK));
        Framebuffer { buffer }
    }
}

impl Default for Framebuffer {
    fn default() -> (r: Self)
        ensures
            r@ == Seq::new((SCREEN_WIDTH * SCREEN_HEIGHT) as nat, |i: int| BLACK),
    {
        Framebuffer::new()
    }
}

impl PartialEq for Framebuffer {
    fn eq(&self, other: &Framebuffer) -> (r: bool) {
        let len: usize = self.buffer.len();
        if other.buffer.len() != len {
            return false;
        }
        let mut i: usize = 0;
        while i < len
            invariant
                i <= len,
                self.buffer@.len() == len,
                other.buffer@.len() == len,
                forall|j: int| 0 <= j < i ==> self.buffer@[j] == other.buffer@[j],
            decreases len - i,
        {
            if self.buffer[i] != other.buffer[i] {
                return false;
            }
            i += 1;
        }
        assert(self.buffer@ =~= other.buffer@);
        true
    }
}

impl PartialEqSpecImpl for Framebuffer {
    open spec fn obeys_eq_spec() -> bool {
        true
    }

    open spec fn eq_spec(&self, other: &Framebuffer) -> bool {
        self.buffer@ == other.buffer@
    }
}

impl Eq for Framebuffer {

}

/// Where the view starts in the bytes, and whether it is still to be
/// drawn for the first time.
pub struct GameState {
    pub byte_index: usize,
    pub need_first_render: bool,
}

impl Default for GameState {
    fn default() -> (r: Self)
        ensures
            r.byte_index == 0,
            !r.need_first_render,
    {
        GameState { byte_index: 0, need_first_render: false }
    }
}

/// Which way, if any, a frame decodes: highest bits first for the first
/// drawing and after a press of left, lowest bits first after a press of
/// right, which goes before left.
pub open spec fn decoding(need_first_render: bool, input: Presses) -> Option<bool> {
    if need_first_render {
        Some(true)
    } else if input.right {
        Some(false)
    } else if input.left {
        Some(true)
    } else {
        None
    }
}

/// One frame: draws the view where it is still to be drawn, and draws
/// it again after a press of right or left.
pub fn update_and_render(
    framebuffer: &mut Framebuffer,
    state: &mut GameState,
    input: Presses,
    bytes: &[u8],
)
    requires
        bytes@.len() > 0,
    ensures
        final(framebuffer)@ == match decoding(old(state).need_first_render, input) {
            Some(msb_first) => rendered(
                bytes@,
                old(framebuffer)@,
                old(state).byte_index as int,
                msb_first,
            ),
            None => old(framebuffer)@,
        },
        !final(state).need_first_render,
        final(state).byte_index == old(state).byte_index,
{
    if state.need_first_render {
        render_from_msb(bytes, framebuffer.buffer.as_mut_slice(), state.byte_index);
        state.need_first_render = false;
        return ;
    }
    if input.right {
        render_from_lsb(bytes, framebuffer.buffer.as_mut_slice(), state.byte_index);
    } else if input.left {
        render_from_msb(bytes, framebuffer.buffer.as_mut_slice(), state.byte_index);
    }
}

} // verus!
