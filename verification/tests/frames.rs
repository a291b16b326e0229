use rendering::colour::{BLACK, BLUE, GREEN, PALETTE, RED};
use rendering::decoder::{render_from_lsb, render_from_msb};
use rendering::framebuffer::{Framebuffer, SCREEN_HEIGHT, SCREEN_WIDTH};
use rendering::game;
use rendering::player::{
    update_and_render, update_and_render_quadrilateral, update_and_render_three_bits_per_pixel,
    GameState, Presses, QuadrilateralState, RenderMode, ThreeBitsPerPixelState,
};

const NOTHING: Presses = Presses { start: false, left: false, right: false };
const START: Presses = Presses { start: true, left: false, right: false };
const LEFT: Presses = Presses { start: false, left: true, right: false };
const RIGHT: Presses = Presses { start: false, left: false, right: true };
const BOTH: Presses = Presses { start: false, left: true, right: true };

const LEN: usize = SCREEN_WIDTH * SCREEN_HEIGHT;

fn quad_by_hand(ground: Vec<u32>, v: [u8; 8], colour: u32) -> Vec<u32> {
    let mut expected = Framebuffer::new();
    expected.buffer = ground;
    expected.draw_filled_quad(v[0], v[1], v[2], v[3], v[4], v[5], v[6], v[7], colour);
    expected.buffer
}

#[test]
fn states_start_at_the_first_byte() {
    assert_eq!(QuadrilateralState::default().byte_index, 0);
    let t = ThreeBitsPerPixelState::default();
    assert_eq!((t.byte_index, t.done_first_render), (0, false));
    assert!(matches!(RenderMode::default(), RenderMode::Quadrilateral(QuadrilateralState { byte_index: 0 })));
    let state = GameState::new(vec![1, 2, 3]);
    assert_eq!(state.bytes, vec![1, 2, 3]);
    assert!(matches!(state.render_mode, RenderMode::Quadrilateral(QuadrilateralState { byte_index: 0 })));
    let g = game::GameState::default();
    assert_eq!((g.byte_index, g.need_first_render), (0, false));
}

#[test]
fn the_run_of_quadrilaterals_goes_eight_bytes_at_a_time() {
    let bytes: Vec<u8> = vec![
        0, 0, 0, 127, 127, 0, 127, 127, // the whole screen
        10, 10, 100, 20, 20, 100, 110, 110, //
        5, 6, 7, // three bytes of a third, the rest zero
    ];
    let mut framebuffer = Framebuffer::new();
    let mut state = QuadrilateralState::default();

    update_and_render_quadrilateral(&mut framebuffer, &mut state, &bytes);
    assert_eq!(state.byte_index, 8);
    assert_eq!(framebuffer.buffer, vec![PALETTE[0]; LEN]);

    update_and_render_quadrilateral(&mut framebuffer, &mut state, &bytes);
    assert_eq!(state.byte_index, 16);
    let second = quad_by_hand(vec![BLUE; LEN], [10, 10, 100, 20, 20, 100, 110, 110], PALETTE[1]);
    assert_eq!(framebuffer.buffer, second);
    assert_eq!(framebuffer.buffer[10 * SCREEN_WIDTH + 10], GREEN);

    update_and_render_quadrilateral(&mut framebuffer, &mut state, &bytes);
    assert_eq!(state.byte_index, 0);
    let third = quad_by_hand(second, [5, 6, 7, 0, 0, 0, 0, 0], PALETTE[2]);
    assert_eq!(framebuffer.buffer, third);
    assert_eq!(framebuffer.buffer[0], RED);

    // the run starts over on a buffer cleared to black
    update_and_render_quadrilateral(&mut framebuffer, &mut state, &bytes);
    assert_eq!(state.byte_index, 8);
    assert_eq!(framebuffer.buffer, vec![PALETTE[0]; LEN]);
    let mut framebuffer = Framebuffer::new();
    let mut state = QuadrilateralState::default();
    update_and_render_quadrilateral(&mut framebuffer, &mut state, &[9, 9, 9, 9, 9, 9, 9, 9]);
    assert_eq!(state.byte_index, 0);
    let mut expected = vec![BLACK; LEN];
    expected[9 * SCREEN_WIDTH + 9] = BLUE;
    assert_eq!(framebuffer.buffer, expected);
}

#[test]
fn the_palette_colour_goes_round_with_the_quadrilaterals_number() {
    let bytes = vec![3u8; 100];
    let mut framebuffer = Framebuffer::new();
    let mut state = QuadrilateralState { byte_index: 72 };
    update_and_render_quadrilateral(&mut framebuffer, &mut state, &bytes);
    assert_eq!(state.byte_index, 80);
    assert_eq!(framebuffer.buffer[3 * SCREEN_WIDTH + 3], PALETTE[1]);
    let mut state = QuadrilateralState { byte_index: 92 };
    update_and_render_quadrilateral(&mut framebuffer, &mut state, &bytes);
    assert_eq!(state.byte_index, 0);
    assert_eq!(framebuffer.buffer[3 * SCREEN_WIDTH + 3], PALETTE[3]);
    let mut state = QuadrilateralState { byte_index: usize::MAX - 3 };
    update_and_render_quadrilateral(&mut framebuffer, &mut state, &bytes);
    assert_eq!(state.byte_index, 0);
    assert_eq!(framebuffer.buffer[0], PALETTE[((usize::MAX - 3) / 8) % 8]);
    // without bytes every vertex is the first pixel
    let mut state = QuadrilateralState { byte_index: 16 };
    update_and_render_quadrilateral(&mut framebuffer, &mut state, &[]);
    assert_eq!(state.byte_index, 0);
    assert_eq!(framebuffer.buffer[0], PALETTE[2]);
}

#[test]
fn the_pixel_view_is_drawn_once_and_again_on_left_or_right() {
    let bytes: Vec<u8> = (0..=255u8).collect();
    let mut msb = vec![0u32; LEN];
    render_from_msb(&bytes, &mut msb, 5);
    let mut lsb = vec![0u32; LEN];
    render_from_lsb(&bytes, &mut lsb, 5);
    assert_ne!(msb, lsb);

    for first in [NOTHING, LEFT, RIGHT, BOTH, START] {
        let mut framebuffer = Framebuffer::new();
        let mut state = ThreeBitsPerPixelState { byte_index: 5, done_first_render: false };
        update_and_render_three_bits_per_pixel(&mut framebuffer, &mut state, first, &bytes);
        assert!(state.done_first_render);
        assert_eq!(state.byte_index, 5);
        assert_eq!(framebuffer.buffer, msb);

        framebuffer.clear();
        update_and_render_three_bits_per_pixel(&mut framebuffer, &mut state, NOTHING, &bytes);
        assert_eq!(framebuffer.buffer, vec![0; LEN]);
        update_and_render_three_bits_per_pixel(&mut framebuffer, &mut state, RIGHT, &bytes);
        assert_eq!(framebuffer.buffer, lsb);
        update_and_render_three_bits_per_pixel(&mut framebuffer, &mut state, LEFT, &bytes);
        assert_eq!(framebuffer.buffer, msb);
        update_and_render_three_bits_per_pixel(&mut framebuffer, &mut state, BOTH, &bytes);
        assert_eq!(framebuffer.buffer, lsb);
        assert!(state.done_first_render);
        assert_eq!(state.byte_index, 5);
    }
}

#[test]
fn start_changes_the_mode_and_the_new_mode_draws() {
    let bytes: Vec<u8> = vec![0, 0, 0, 127, 127, 0, 127, 127, 1, 2, 3, 4, 5, 6, 7, 8, 9];
    let mut msb = vec![0u32; LEN];
    render_from_msb(&bytes, &mut msb, 0);

    let mut framebuffer = Framebuffer::new();
    let mut state = GameState::new(bytes.clone());
    update_and_render(&mut framebuffer, &mut state, NOTHING);
    assert!(matches!(state.render_mode, RenderMode::Quadrilateral(QuadrilateralState { byte_index: 8 })));
    assert_eq!(framebuffer.buffer, vec![BLUE; LEN]);

    update_and_render(&mut framebuffer, &mut state, START);
    assert!(matches!(
        state.render_mode,
        RenderMode::ThreeBitsPerPixel(ThreeBitsPerPixelState { byte_index: 0, done_first_render: true })
    ));
    assert_eq!(framebuffer.buffer, msb);
    assert_eq!(state.bytes, bytes);

    framebuffer.clear();
    update_and_render(&mut framebuffer, &mut state, NOTHING);
    assert_eq!(framebuffer.buffer, vec![0; LEN]);

    update_and_render(&mut framebuffer, &mut state, START);
    assert!(matches!(state.render_mode, RenderMode::Quadrilateral(QuadrilateralState { byte_index: 8 })));
    assert_eq!(framebuffer.buffer, vec![BLUE; LEN]);
}

#[test]
fn new_bytes_start_the_mode_afresh() {
    let mut state = GameState::new(vec![1; 40]);
    let mut framebuffer = Framebuffer::new();
    update_and_render(&mut framebuffer, &mut state, NOTHING);
    update_and_render(&mut framebuffer, &mut state, NOTHING);
    assert!(matches!(state.render_mode, RenderMode::Quadrilateral(QuadrilateralState { byte_index: 16 })));
    state.update_bytes(vec![2; 9]);
    assert_eq!(state.bytes, vec![2; 9]);
    assert!(matches!(state.render_mode, RenderMode::Quadrilateral(QuadrilateralState { byte_index: 0 })));

    update_and_render(&mut framebuffer, &mut state, START);
    assert!(matches!(
        state.render_mode,
        RenderMode::ThreeBitsPerPixel(ThreeBitsPerPixelState { byte_index: 0, done_first_render: true })
    ));
    state.update_bytes(vec![3; 5]);
    assert_eq!(state.bytes, vec![3; 5]);
    assert!(matches!(
        state.render_mode,
        RenderMode::ThreeBitsPerPixel(ThreeBitsPerPixelState { byte_index: 0, done_first_render: false })
    ));
}

#[test]
fn the_plain_view_starts_black_and_draws_when_asked() {
    let bytes: Vec<u8> = (0..=255u8).collect();
    let mut msb = vec![0u32; LEN];
    render_from_msb(&bytes, &mut msb, 2);
    let mut lsb = vec![0u32; LEN];
    render_from_lsb(&bytes, &mut lsb, 2);

    let mut framebuffer = game::Framebuffer::new();
    assert_eq!(framebuffer.buffer, vec![BLACK; LEN]);
    assert!(framebuffer == game::Framebuffer::default());

    let mut state = game::GameState { byte_index: 2, need_first_render: true };
    game::update_and_render(&mut framebuffer, &mut state, RIGHT, &bytes);
    assert_eq!(framebuffer.buffer, msb);
    assert!(!state.need_first_render);
    assert_eq!(state.byte_index, 2);

    framebuffer.buffer = vec![0; LEN];
    game::update_and_render(&mut framebuffer, &mut state, NOTHING, &bytes);
    assert_eq!(framebuffer.buffer, vec![0; LEN]);
    assert!(framebuffer != game::Framebuffer::new());
    game::update_and_render(&mut framebuffer, &mut state, START, &bytes);
    assert_eq!(framebuffer.buffer, vec![0; LEN]);
    game::update_and_render(&mut framebuffer, &mut state, RIGHT, &bytes);
    assert_eq!(framebuffer.buffer, lsb);
    game::update_and_render(&mut framebuffer, &mut state, LEFT, &bytes);
    assert_eq!(framebuffer.buffer, msb);
    game::update_and_render(&mut framebuffer, &mut state, BOTH, &bytes);
    assert_eq!(framebuffer.buffer, lsb);
}
