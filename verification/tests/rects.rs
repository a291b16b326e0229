use rendering::colour::{BLUE, GREEN, RED};
use rendering::framebuffer::{Dimensions, FramebufferInternal};

struct Small;

impl Dimensions for Small {
    fn size() -> (usize, usize) {
        (8, 8)
    }

    fn get() -> (usize, usize) {
        (8, 8)
    }
}

type Framebuffer = FramebufferInternal<Small>;

fn picture(buffer: &[u32], width: usize, colour: u32) -> Vec<String> {
    buffer
        .chunks(width)
        .map(|row| row.iter().map(|c| if *c == colour { '#' } else { '.' }).collect())
        .collect()
}

#[test]
fn a_filled_rect_covers_its_columns_and_rows() {
    let mut framebuffer = Framebuffer::new();
    framebuffer.draw_filled_rect(2, 1, 4, 3, GREEN);
    let expected = [
        "........",
        "..####..",
        "..####..",
        "..####..",
        "........",
        "........",
        "........",
        "........",
    ];
    assert_eq!(picture(&framebuffer.buffer, 8, GREEN), expected);
    assert!(framebuffer.buffer.iter().all(|c| *c == GREEN || *c == BLUE));
}

#[test]
fn a_filled_rect_is_cut_off_at_the_buffers_edges() {
    let mut framebuffer = Framebuffer::new();
    framebuffer.draw_filled_rect(6, 5, 10, usize::MAX, GREEN);
    let expected = [
        "........",
        "........",
        "........",
        "........",
        "........",
        "......##",
        "......##",
        "......##",
    ];
    assert_eq!(picture(&framebuffer.buffer, 8, GREEN), expected);
    framebuffer.draw_filled_rect(8, 0, 3, 3, RED);
    framebuffer.draw_filled_rect(0, 8, 3, 3, RED);
    framebuffer.draw_filled_rect(3, 3, 0, 3, RED);
    framebuffer.draw_filled_rect(3, 3, 3, 0, RED);
    framebuffer.draw_filled_rect(usize::MAX, usize::MAX, usize::MAX, usize::MAX, RED);
    assert_eq!(picture(&framebuffer.buffer, 8, GREEN), expected);
    assert!(!framebuffer.buffer.contains(&RED));
}

#[test]
fn a_rect_is_its_outline() {
    let mut framebuffer = Framebuffer::new();
    framebuffer.draw_rect(1, 2, 5, 4, GREEN);
    let expected = [
        "........",
        "........",
        ".#####..",
        ".#...#..",
        ".#...#..",
        ".#####..",
        "........",
        "........",
    ];
    assert_eq!(picture(&framebuffer.buffer, 8, GREEN), expected);
}

#[test]
fn a_rect_is_cut_off_at_the_buffers_edges() {
    let mut framebuffer = Framebuffer::new();
    framebuffer.draw_rect(5, 6, 6, 6, GREEN);
    let expected = [
        "........",
        "........",
        "........",
        "........",
        "........",
        "........",
        ".....###",
        ".....#..",
    ];
    assert_eq!(picture(&framebuffer.buffer, 8, GREEN), expected);
    let mut framebuffer = Framebuffer::new();
    framebuffer.draw_rect(0, 0, usize::MAX, usize::MAX, RED);
    let expected = [
        "########",
        "#.......",
        "#.......",
        "#.......",
        "#.......",
        "#.......",
        "#.......",
        "#.......",
    ];
    assert_eq!(picture(&framebuffer.buffer, 8, RED), expected);
}

#[test]
fn a_rect_without_width_or_height() {
    // no width: the first column, and the column before it as the last
    let mut framebuffer = Framebuffer::new();
    framebuffer.draw_rect(3, 1, 0, 2, GREEN);
    let expected = [
        "........",
        "..##....",
        "..##....",
        "........",
        "........",
        "........",
        "........",
        "........",
    ];
    assert_eq!(picture(&framebuffer.buffer, 8, GREEN), expected);
    // no height: the first row, and the row above it as the last
    let mut framebuffer = Framebuffer::new();
    framebuffer.draw_rect(3, 1, 2, 0, GREEN);
    let expected = [
        "...##...",
        "...##...",
        "........",
        "........",
        "........",
        "........",
        "........",
        "........",
    ];
    assert_eq!(picture(&framebuffer.buffer, 8, GREEN), expected);
    let mut framebuffer = Framebuffer::new();
    framebuffer.draw_rect(0, 0, 0, 2, GREEN);
    framebuffer.draw_rect(2, 0, 2, 0, RED);
    let expected = [
        "#.......",
        "#.......",
        "........",
        "........",
        "........",
        "........",
        "........",
        "........",
    ];
    assert_eq!(picture(&framebuffer.buffer, 8, GREEN), expected);
    assert_eq!(framebuffer.buffer[2], RED);
    assert_eq!(framebuffer.buffer[3], RED);
    assert_eq!(framebuffer.buffer[4], BLUE);
}

#[test]
fn a_shader_is_asked_with_the_first_column_or_the_first_row() {
    let mut framebuffer = Framebuffer::new();
    framebuffer.draw_rect_with_shader(1, 2, 5, 4, |x, y, w, h| {
        (x as u32) << 24 | (y as u32) << 16 | (w as u32) << 8 | h as u32
    });
    let side = |y: u32| 1 << 24 | y << 16 | 5 << 8 | 4;
    let end = |x: u32| x << 24 | 2 << 16 | 5 << 8 | 4;
    let mut expected = vec![BLUE; 64];
    for y in 2..6usize {
        expected[y * 8 + 1] = side(y as u32);
        expected[y * 8 + 5] = side(y as u32);
    }
    for x in 1..6usize {
        expected[2 * 8 + x] = end(x as u32);
        expected[5 * 8 + x] = end(x as u32);
    }
    assert_eq!(framebuffer.buffer, expected);
}

#[test]
fn a_shader_is_asked_for_pixels_of_the_buffer_only() {
    let mut framebuffer = Framebuffer::new();
    let asked = std::cell::Cell::new(0usize);
    framebuffer.draw_rect_with_shader(6, 6, 100, 100, |x, y, _w, _h| {
        asked.set(asked.get() + 1);
        assert!(x < 8 && y < 8);
        RED
    });
    // the first column in rows 6 and 7, the first row in columns 6 and 7
    assert_eq!(asked.get(), 4);
    let mut expected = vec![BLUE; 64];
    expected[6 * 8 + 6] = RED;
    expected[6 * 8 + 7] = RED;
    expected[7 * 8 + 6] = RED;
    assert_eq!(framebuffer.buffer, expected);
}
