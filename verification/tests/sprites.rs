use rendering::colour::{BLUE, PALETTE};
use rendering::framebuffer::{Dimensions, FramebufferInternal};
use rendering::layout::{get_char_xy, get_sprite_xy};
use rendering::text::digits_of;
use rendering::widgets::WidgetSprites;

struct Medium;

impl Dimensions for Medium {
    fn size() -> (usize, usize) {
        (16, 16)
    }

    fn get() -> (usize, usize) {
        (16, 16)
    }
}

struct Long;

impl Dimensions for Long {
    fn size() -> (usize, usize) {
        (48, 40)
    }

    fn get() -> (usize, usize) {
        (48, 40)
    }
}

type Framebuffer = FramebufferInternal<Medium>;

fn cell(x: usize, y: usize) -> u8 {
    ((x * 3 + y * 5 + (x / 8) + (y / 8)) % 8) as u8
}

fn sheet() -> Vec<u8> {
    let mut cells = vec![0u8; 128 * 128];
    for y in 0..128 {
        for x in 0..128 {
            cells[x + y * 128] = cell(x, y);
        }
    }
    cells
}

fn font() -> Vec<u8> {
    let mut cells = vec![0u8; 128 * 128];
    for y in 0..128 {
        for x in 0..128 {
            cells[x + y * 128] = if (x + 2 * y + x / 8) % 3 == 0 { 0 } else { 1 + (x % 200) as u8 };
        }
    }
    cells
}

fn sprites() -> WidgetSprites {
    WidgetSprites {
        window_top_left: 0,
        button_top_left: 3,
        button_hot_top_left: 6,
        button_pressed_top_left: 9,
        row_left_edge: 48,
        row_hot_left_edge: 51,
        row_pressed_left_edge: 54,
        row_marker_left_edge: 57,
        checked: 60,
        unchecked: 61,
        hot_checked: 62,
        hot_unchecked: 63,
        pressed_checked: 76,
        pressed_unchecked: 77,
    }
}

/// Copies a block of the sheet by hand.
fn copy(
    buffer: &mut [u32],
    width: usize,
    cells: &[u8],
    from: (usize, usize),
    size: (usize, usize),
    to: (usize, usize),
    flipped: bool,
    clear: u8,
    ink: Option<u32>,
) {
    let height = buffer.len() / width;
    for j in 0..size.1 {
        for i in 0..size.0 {
            let (sx, sy) = if flipped {
                (from.0 + size.0 - 1 - i, from.1 + size.1 - 1 - j)
            } else {
                (from.0 + i, from.1 + j)
            };
            let c = cells[sx + sy * 128];
            if c != clear && to.0 + i < width && to.1 + j < height {
                buffer[to.0 + i + (to.1 + j) * width] = ink.unwrap_or(PALETTE[(c % 8) as usize]);
            }
        }
    }
}

fn sprite_by_hand(buffer: &mut [u32], width: usize, cells: &[u8], number: u8, x: usize, y: usize) {
    let from = ((number as usize % 16) * 8, (number as usize / 16) * 8);
    copy(buffer, width, cells, from, (8, 8), (x, y), false, 4, None);
}

#[test]
fn sprites_and_glyphs_lie_sixteen_to_the_row() {
    assert_eq!(get_sprite_xy(0), (0, 0));
    assert_eq!(get_sprite_xy(1), (8, 0));
    assert_eq!(get_sprite_xy(15), (120, 0));
    assert_eq!(get_sprite_xy(16), (0, 8));
    assert_eq!(get_sprite_xy(37), (40, 16));
    assert_eq!(get_sprite_xy(255), (120, 120));
    assert_eq!(get_char_xy(0), (0, 0));
    assert_eq!(get_char_xy(b'A'), (8, 32));
    assert_eq!(get_char_xy(255), (120, 120));
}

#[test]
fn sspr_copies_a_block_but_for_colour_four() {
    let cells = sheet();
    let mut framebuffer = Framebuffer::new();
    framebuffer.sspr(&cells, 3, 5, 6, 4, 2, 9);
    let mut expected = vec![BLUE; 256];
    let mut skipped = 0;
    for j in 0..4 {
        for i in 0..6 {
            let c = cell(3 + i, 5 + j);
            if c == 4 {
                skipped += 1;
            } else {
                expected[(2 + i) + (9 + j) * 16] = PALETTE[c as usize];
            }
        }
    }
    assert!(skipped > 0);
    assert_eq!(framebuffer.buffer, expected);
}

#[test]
fn sspr_flip_both_copies_a_block_turned_round_but_for_colour_two() {
    let cells = sheet();
    let mut framebuffer = Framebuffer::new();
    framebuffer.sspr_flip_both(&cells, 3, 5, 6, 4, 2, 9);
    let mut expected = vec![BLUE; 256];
    let mut skipped = 0;
    for j in 0..4 {
        for i in 0..6 {
            let c = cell(3 + 5 - i, 5 + 3 - j);
            if c == 2 {
                skipped += 1;
            } else {
                expected[(2 + i) + (9 + j) * 16] = PALETTE[c as usize];
            }
        }
    }
    assert!(skipped > 0);
    assert_eq!(framebuffer.buffer, expected);
    // the first row and the first column of the sheet can be copied too
    let mut framebuffer = Framebuffer::new();
    framebuffer.sspr_flip_both(&cells, 0, 0, 2, 2, 0, 0);
    assert_eq!(framebuffer.buffer[0], PALETTE[cell(1, 1) as usize]);
}

#[test]
fn a_block_is_cut_off_at_the_buffers_edges() {
    let cells = sheet();
    let mut framebuffer = Framebuffer::new();
    framebuffer.sspr(&cells, 0, 0, 100, 100, 12, 13);
    let mut expected = vec![BLUE; 256];
    copy(&mut expected, 16, &cells, (0, 0), (100, 100), (12, 13), false, 4, None);
    assert_eq!(framebuffer.buffer, expected);
    assert_eq!(framebuffer.buffer[12], BLUE);
    framebuffer.sspr(&cells, 8, 8, 8, 8, 200, 200);
    framebuffer.sspr(&cells, 8, 8, 0, 8, 0, 0);
    framebuffer.sspr(&cells, 8, 8, 8, 0, 0, 0);
    assert_eq!(framebuffer.buffer, expected);
}

#[test]
fn spr_draws_a_numbered_sprite() {
    let cells = sheet();
    for number in [0u8, 1, 16, 37, 255] {
        let mut framebuffer = Framebuffer::new();
        framebuffer.spr(&cells, number, 4, 6);
        let mut expected = vec![BLUE; 256];
        sprite_by_hand(&mut expected, 16, &cells, number, 4, 6);
        assert_eq!(framebuffer.buffer, expected);
        assert_ne!(framebuffer.buffer, vec![BLUE; 256]);

        let mut framebuffer = Framebuffer::new();
        framebuffer.spr_flip_both(&cells, number, 4, 6);
        let mut expected = vec![BLUE; 256];
        let from = ((number as usize % 16) * 8, (number as usize / 16) * 8);
        copy(&mut expected, 16, &cells, from, (8, 8), (4, 6), true, 2, None);
        assert_eq!(framebuffer.buffer, expected);
    }
}

#[test]
fn a_glyph_is_drawn_in_one_colour_where_the_font_is_not_zero() {
    let cells = font();
    let mut framebuffer = Framebuffer::new();
    framebuffer.print_char(&cells, b'A', 3, 2, 2);
    let mut expected = vec![BLUE; 256];
    copy(&mut expected, 16, &cells, (8, 32), (8, 8), (3, 2), false, 0, Some(PALETTE[2]));
    assert_eq!(framebuffer.buffer, expected);
    assert!(framebuffer.buffer.contains(&PALETTE[2]));
    assert!(framebuffer.buffer[2 * 16 + 3..2 * 16 + 11].contains(&BLUE));

    // only the lowest four bits of the colour count
    let mut framebuffer = Framebuffer::new();
    framebuffer.print_char_raw(&cells, 8, 32, 8, 8, 3, 2, 16 + 2);
    assert_eq!(framebuffer.buffer, expected);
}

#[test]
fn a_line_advances_by_four_columns_and_stops_at_column_255() {
    let cells = font();
    let mut framebuffer = FramebufferInternal::<Long>::new();
    framebuffer.print_line(&cells, b"Hi!", 5, 7, 6);
    let mut expected = vec![BLUE; 48 * 40];
    for (k, c) in b"Hi!".iter().enumerate() {
        let from = ((*c as usize % 16) * 8, (*c as usize / 16) * 8);
        copy(&mut expected, 48, &cells, from, (8, 8), (5 + 4 * k, 7), false, 0, Some(PALETTE[6]));
    }
    assert_eq!(framebuffer.buffer, expected);

    let mut raw = FramebufferInternal::<Long>::new();
    raw.print_line_raw(&cells, b"Hi!", 5, 7, 6);
    assert!(raw == framebuffer);

    let mut framebuffer = FramebufferInternal::<Long>::new();
    framebuffer.print_line(&cells, b"", 5, 7, 6);
    framebuffer.print_line(&cells, b"far right", 250, 7, 6);
    assert_eq!(framebuffer.buffer, vec![BLUE; 48 * 40]);
}

#[test]
fn lines_stand_eight_rows_apart() {
    let cells = font();
    let mut framebuffer = FramebufferInternal::<Long>::new();
    let lines: [&[u8]; 3] = [b"ab", b"", b"cde"];
    framebuffer.print(&cells, &lines, 1, 2, 3);
    let mut expected = FramebufferInternal::<Long>::new();
    expected.print_line(&cells, b"ab", 1, 2, 3);
    expected.print_line(&cells, b"cde", 1, 18, 3);
    assert!(framebuffer == expected);
    assert_ne!(framebuffer.buffer, vec![BLUE; 48 * 40]);
}

#[test]
fn numbers_are_written_in_base_ten() {
    assert_eq!(digits_of(0), b"0".to_vec());
    assert_eq!(digits_of(7), b"7".to_vec());
    assert_eq!(digits_of(10), b"10".to_vec());
    assert_eq!(digits_of(12345), b"12345".to_vec());
    assert_eq!(digits_of(9_000_001), b"9000001".to_vec());
    assert_eq!(digits_of(usize::MAX), usize::MAX.to_string().into_bytes());

    let cells = font();
    let mut framebuffer = FramebufferInternal::<Long>::new();
    framebuffer.print_single_line_number(&cells, 4096, 2, 3, 1);
    let mut expected = FramebufferInternal::<Long>::new();
    expected.print_line(&cells, b"4096", 2, 3, 1);
    assert!(framebuffer == expected);
}

/// A box by hand, in the order in which its sprites are drawn.
fn box_by_hand(cells: &[u8], parts: [u8; 9], x: usize, y: usize, w: usize, h: usize) -> Vec<u32> {
    let mut buffer = vec![BLUE; 48 * 40];
    let left = (x + 8).min(255);
    let right = (x + w).min(255).saturating_sub(8);
    let top = (y + 8).min(255);
    let bottom = (y + h).min(255).saturating_sub(8);
    for fill_y in (top..bottom).step_by(8) {
        for fill_x in (left..right).step_by(8) {
            sprite_by_hand(&mut buffer, 48, cells, parts[4], fill_x, fill_y);
        }
    }
    for fill_x in (left..right).step_by(8) {
        sprite_by_hand(&mut buffer, 48, cells, parts[1], fill_x, y);
        sprite_by_hand(&mut buffer, 48, cells, parts[7], fill_x, bottom);
    }
    for fill_y in (top..bottom).step_by(8) {
        sprite_by_hand(&mut buffer, 48, cells, parts[3], x, fill_y);
        sprite_by_hand(&mut buffer, 48, cells, parts[5], right, fill_y);
    }
    sprite_by_hand(&mut buffer, 48, cells, parts[0], x, y);
    sprite_by_hand(&mut buffer, 48, cells, parts[2], right, y);
    sprite_by_hand(&mut buffer, 48, cells, parts[6], x, bottom);
    sprite_by_hand(&mut buffer, 48, cells, parts[8], right, bottom);
    buffer
}

fn nine(t: u8) -> [u8; 9] {
    [t, t + 1, t + 2, t + 16, t + 17, t + 18, t + 32, t + 33, t + 34]
}

#[test]
fn a_box_is_put_together_from_nine_sprites() {
    let cells = sheet();
    for (x, y, w, h) in [(3u8, 2u8, 37u8, 30u8), (0, 0, 48, 40), (5, 5, 16, 16), (1, 1, 8, 8), (7, 9, 3, 0), (20, 10, 255, 255)] {
        let mut framebuffer = FramebufferInternal::<Long>::new();
        framebuffer.nine_slice(&cells, 67, x, y, w, h);
        let expected = box_by_hand(&cells, nine(67), x as usize, y as usize, w as usize, h as usize);
        assert_eq!(framebuffer.buffer, expected, "{:?}", (x, y, w, h));
    }
}

#[test]
fn a_box_without_its_top_row_has_its_middle_row_there() {
    let cells = sheet();
    let mut framebuffer = FramebufferInternal::<Long>::new();
    framebuffer.bottom_six_slice(&cells, 67, 3, 2, 37, 30);
    let parts = [67 + 16, 67 + 17, 67 + 18, 67 + 16, 67 + 17, 67 + 18, 67 + 32, 67 + 33, 67 + 34];
    assert_eq!(framebuffer.buffer, box_by_hand(&cells, parts, 3, 2, 37, 30));
    let mut whole = FramebufferInternal::<Long>::new();
    whole.nine_slice(&cells, 67, 3, 2, 37, 30);
    assert!(whole != framebuffer);
}

fn row_by_hand(cells: &[u8], left_edge: u8, x: usize, y: usize, w: usize) -> Vec<u32> {
    let mut buffer = vec![BLUE; 48 * 40];
    let left = (x + 8).min(255);
    let right = (x + w).min(255).saturating_sub(8);
    sprite_by_hand(&mut buffer, 48, cells, left_edge, x, y);
    for fill_x in (left..right).step_by(8) {
        sprite_by_hand(&mut buffer, 48, cells, left_edge + 1, fill_x, y);
    }
    sprite_by_hand(&mut buffer, 48, cells, left_edge + 2, right, y);
    buffer
}

#[test]
fn a_row_is_put_together_from_three_sprites() {
    let cells = sheet();
    for (x, y, w) in [(3u8, 2u8, 37u8), (0, 30, 48), (5, 5, 16), (40, 1, 0), (2, 2, 255)] {
        let mut framebuffer = FramebufferInternal::<Long>::new();
        framebuffer.three_slice(&cells, 21, x, y, w);
        assert_eq!(framebuffer.buffer, row_by_hand(&cells, 21, x as usize, y as usize, w as usize));
    }
}

#[test]
fn widgets_are_boxes_and_rows_of_their_own_sprites() {
    let cells = sheet();
    let s = sprites();
    let mut framebuffer = FramebufferInternal::<Long>::new();
    framebuffer.window(&cells, &s, 3, 2, 37, 30);
    assert_eq!(framebuffer.buffer, box_by_hand(&cells, nine(0), 3, 2, 37, 30));
    let mut framebuffer = FramebufferInternal::<Long>::new();
    framebuffer.button(&cells, &s, 3, 2, 37, 30);
    assert_eq!(framebuffer.buffer, box_by_hand(&cells, nine(3), 3, 2, 37, 30));
    let mut framebuffer = FramebufferInternal::<Long>::new();
    framebuffer.button_hot(&cells, &s, 3, 2, 37, 30);
    assert_eq!(framebuffer.buffer, box_by_hand(&cells, nine(6), 3, 2, 37, 30));
    let mut framebuffer = FramebufferInternal::<Long>::new();
    framebuffer.button_pressed(&cells, &s, 3, 2, 37, 30);
    assert_eq!(framebuffer.buffer, box_by_hand(&cells, nine(9), 3, 2, 37, 30));
    let mut framebuffer = FramebufferInternal::<Long>::new();
    framebuffer.full_window(&cells, &s);
    assert_eq!(framebuffer.buffer, box_by_hand(&cells, nine(0), 0, 0, 128, 128));
    let mut framebuffer = FramebufferInternal::<Long>::new();
    framebuffer.center_half_window(&cells, &s);
    assert_eq!(framebuffer.buffer, box_by_hand(&cells, nine(0), 32, 32, 64, 64));

    let mut framebuffer = FramebufferInternal::<Long>::new();
    framebuffer.row(&cells, &s, 3, 2, 37);
    assert_eq!(framebuffer.buffer, row_by_hand(&cells, 48, 3, 2, 37));
    let mut framebuffer = FramebufferInternal::<Long>::new();
    framebuffer.row_hot(&cells, &s, 3, 2, 37);
    assert_eq!(framebuffer.buffer, row_by_hand(&cells, 51, 3, 2, 37));
    let mut framebuffer = FramebufferInternal::<Long>::new();
    framebuffer.row_pressed(&cells, &s, 3, 2, 37);
    assert_eq!(framebuffer.buffer, row_by_hand(&cells, 54, 3, 2, 37));
    let mut framebuffer = FramebufferInternal::<Long>::new();
    framebuffer.row_marker(&cells, &s, 3, 2, 37);
    assert_eq!(framebuffer.buffer, row_by_hand(&cells, 57, 3, 2, 37));
}

#[test]
fn a_checkbox_is_one_sprite() {
    let cells = sheet();
    let s = sprites();
    let by_hand = |number: u8| {
        let mut buffer = vec![BLUE; 48 * 40];
        sprite_by_hand(&mut buffer, 48, &cells, number, 9, 11);
        buffer
    };
    let mut framebuffer = FramebufferInternal::<Long>::new();
    framebuffer.checkbox(&cells, &s, 9, 11, true);
    assert_eq!(framebuffer.buffer, by_hand(60));
    let mut framebuffer = FramebufferInternal::<Long>::new();
    framebuffer.checkbox(&cells, &s, 9, 11, false);
    assert_eq!(framebuffer.buffer, by_hand(61));
    let mut framebuffer = FramebufferInternal::<Long>::new();
    framebuffer.checkbox_hot(&cells, &s, 9, 11, true);
    assert_eq!(framebuffer.buffer, by_hand(62));
    let mut framebuffer = FramebufferInternal::<Long>::new();
    framebuffer.checkbox_hot(&cells, &s, 9, 11, false);
    assert_eq!(framebuffer.buffer, by_hand(63));
    let mut framebuffer = FramebufferInternal::<Long>::new();
    framebuffer.checkbox_pressed(&cells, &s, 9, 11, true);
    assert_eq!(framebuffer.buffer, by_hand(76));
    let mut framebuffer = FramebufferInternal::<Long>::new();
    framebuffer.checkbox_pressed(&cells, &s, 9, 11, false);
    assert_eq!(framebuffer.buffer, by_hand(77));
}
