use rendering::colour::{BLACK, BLUE, GREEN, RED, WHITE};
use rendering::framebuffer::{Dimensions, FramebufferInternal};

struct Small;

impl Dimensions for Small {
    fn size() -> (usize, usize) {
        (8, 8)
    }

    fn get() -> (usize, usize) {
        (8, 8)
    }
}

struct Medium;

impl Dimensions for Medium {
    fn size() -> (usize, usize) {
        (16, 16)
    }

    fn get() -> (usize, usize) {
        (16, 16)
    }
}

struct Wide;

impl Dimensions for Wide {
    fn size() -> (usize, usize) {
        (40, 33)
    }

    fn get() -> (usize, usize) {
        (40, 33)
    }
}

fn picture(buffer: &[u32], width: usize, colour: u32) -> Vec<String> {
    buffer
        .chunks(width)
        .map(|row| row.iter().map(|c| if *c == colour { '#' } else { '.' }).collect())
        .collect()
}

fn at(buffer: &[u32], width: usize, x: i64, y: i64) -> Option<u32> {
    let height = (buffer.len() / width) as i64;
    if 0 <= x && x < width as i64 && 0 <= y && y < height {
        Some(buffer[y as usize * width + x as usize])
    } else {
        None
    }
}

#[test]
fn crisp_circle_of_radius_three() {
    let mut framebuffer = FramebufferInternal::<Medium>::new();
    framebuffer.draw_crisp_circle(8, 8, 3, GREEN);
    let expected = [
        "................",
        "................",
        "................",
        "................",
        "................",
        ".......###......",
        "......#...#.....",
        ".....#.....#....",
        ".....#.....#....",
        ".....#.....#....",
        "......#...#.....",
        ".......###......",
        "................",
        "................",
        "................",
        "................",
    ];
    assert_eq!(picture(&framebuffer.buffer, 16, GREEN), expected);
    assert!(framebuffer.buffer.iter().all(|c| *c == GREEN || *c == BLUE));
}

#[test]
fn crisp_circle_of_radius_five() {
    let mut framebuffer = FramebufferInternal::<Medium>::new();
    framebuffer.draw_crisp_circle(8, 8, 5, GREEN);
    let expected = [
        "................",
        "................",
        "................",
        "......#####.....",
        ".....#.....#....",
        "....#.......#...",
        "...#.........#..",
        "...#.........#..",
        "...#.........#..",
        "...#.........#..",
        "...#.........#..",
        "....#.......#...",
        ".....#.....#....",
        "......#####.....",
        "................",
        "................",
    ];
    assert_eq!(picture(&framebuffer.buffer, 16, GREEN), expected);
}

#[test]
fn crisp_circle_of_radius_zero_is_its_centre() {
    let mut framebuffer = FramebufferInternal::<Medium>::new();
    framebuffer.draw_crisp_circle(8, 8, 0, GREEN);
    let mut expected = vec![BLUE; 256];
    expected[8 * 16 + 8] = GREEN;
    assert_eq!(framebuffer.buffer, expected);
}

#[test]
fn crisp_circle_is_its_own_mirror_image_in_both_centre_lines() {
    for radius in 0..=16usize {
        let mut framebuffer = FramebufferInternal::<Wide>::new();
        framebuffer.draw_crisp_circle(20, 16, radius, RED);
        let mut painted = 0;
        for dy in -16i64..=16 {
            for dx in -19i64..=19 {
                let here = at(&framebuffer.buffer, 40, 20 + dx, 16 + dy);
                assert_eq!(here, at(&framebuffer.buffer, 40, 20 - dx, 16 + dy), "radius {}", radius);
                assert_eq!(here, at(&framebuffer.buffer, 40, 20 + dx, 16 - dy), "radius {}", radius);
                if here == Some(RED) {
                    painted += 1;
                }
            }
        }
        assert!(painted >= 1);
        assert_eq!(at(&framebuffer.buffer, 40, 20 + radius as i64, 16), Some(RED));
        assert_eq!(at(&framebuffer.buffer, 40, 20, 16 - radius as i64), Some(RED));
    }
}

#[test]
fn a_circle_that_would_reach_past_the_first_column_or_row_is_not_drawn() {
    let mut framebuffer = FramebufferInternal::<Medium>::new();
    framebuffer.draw_crisp_circle(2, 8, 3, GREEN);
    framebuffer.draw_crisp_circle(8, 2, 3, GREEN);
    framebuffer.draw_circle(2, 8, 3, GREEN);
    framebuffer.draw_circle(8, 2, 3, GREEN);
    framebuffer.draw_filled_circle(2, 8, 3, GREEN);
    framebuffer.draw_filled_circle(8, 2, 3, GREEN);
    assert_eq!(framebuffer.buffer, vec![BLUE; 256]);
    framebuffer.draw_crisp_circle(3, 3, 3, GREEN);
    assert_ne!(framebuffer.buffer, vec![BLUE; 256]);
}

#[test]
fn circles_near_the_edges_are_cut_off_at_them() {
    let mut framebuffer = FramebufferInternal::<Small>::new();
    framebuffer.draw_crisp_circle(6, 6, 4, WHITE);
    let expected = [
        "........",
        "........",
        ".....###",
        "....#...",
        "...#....",
        "..#.....",
        "..#.....",
        "..#.....",
    ];
    assert_eq!(picture(&framebuffer.buffer, 8, WHITE), expected);

    for radius in 0..=12usize {
        for centre in radius..=(radius + 9) {
            let mut framebuffer = FramebufferInternal::<Small>::new();
            framebuffer.draw_crisp_circle(centre, centre, radius, WHITE);
            framebuffer.draw_circle(centre, radius, radius, RED);
            framebuffer.draw_filled_circle(radius, centre, radius, GREEN);
            assert_eq!(framebuffer.buffer.len(), 64);
        }
    }
}

#[test]
fn a_circle_far_outside_the_buffer_changes_nothing() {
    let mut framebuffer = FramebufferInternal::<Small>::new();
    framebuffer.draw_crisp_circle(100_000, 100_000, 1_000, WHITE);
    framebuffer.draw_circle(100_000, 100_000, 1_000, WHITE);
    framebuffer.draw_filled_circle(5_000, 5_000, 200, WHITE);
    assert_eq!(framebuffer.buffer, vec![BLUE; 64]);
}

#[test]
fn soft_circle_of_radius_three() {
    let mut framebuffer = FramebufferInternal::<Small>::new();
    framebuffer.draw_circle(4, 4, 3, RED);
    let expected: Vec<u32> = vec![
        0xFFEE8533, 0xFFEE8533, 0xFFEE8533, 0xFFEE8533, 0xFFEE8533, 0xFFEE8533, 0xFFEE8533, 0xFFEE8533,
        0xFFEE8533, 0xFFEE8533, 0xFFC87A56, 0xFF585CBE, 0xFF3352E1, 0xFF585CBE, 0xFFC87A56, 0xFFEE8533,
        0xFFEE8533, 0xFFC87A56, 0xFF585CBE, 0xFFEE8533, 0xFFEE8533, 0xFFEE8533, 0xFF585CBE, 0xFFC87A56,
        0xFFEE8533, 0xFF585CBE, 0xFFEE8533, 0xFFEE8533, 0xFFEE8533, 0xFFEE8533, 0xFFEE8533, 0xFF585CBE,
        0xFFEE8533, 0xFF3352E1, 0xFFEE8533, 0xFFEE8533, 0xFFEE8533, 0xFFEE8533, 0xFFEE8533, 0xFF3352E1,
        0xFFEE8533, 0xFF585CBE, 0xFFEE8533, 0xFFEE8533, 0xFFEE8533, 0xFFEE8533, 0xFFEE8533, 0xFF585CBE,
        0xFFEE8533, 0xFFC87A56, 0xFF585CBE, 0xFFEE8533, 0xFFEE8533, 0xFFEE8533, 0xFF585CBE, 0xFFC87A56,
        0xFFEE8533, 0xFFEE8533, 0xFFC87A56, 0xFF585CBE, 0xFF3352E1, 0xFF585CBE, 0xFFC87A56, 0xFFEE8533,
    ];
    assert_eq!(framebuffer.buffer, expected);
}

#[test]
fn filled_circle_of_radius_three() {
    let mut framebuffer = FramebufferInternal::<Small>::new();
    framebuffer.draw_filled_circle(4, 4, 3, RED);
    let expected: Vec<u32> = vec![
        0xFFEE8533, 0xFFEE8533, 0xFFEE8533, 0xFFEE8533, 0xFFEE8533, 0xFFEE8533, 0xFFEE8533, 0xFFEE8533,
        0xFFEE8533, 0xFFEE8533, 0xFFC87A56, 0xFF585CBE, 0xFF3352E1, 0xFF585CBE, 0xFFC87A56, 0xFFEE8533,
        0xFFEE8533, 0xFFC87A56, 0xFF585CBE, 0xFF3352E1, 0xFF3352E1, 0xFF3352E1, 0xFF585CBE, 0xFFC87A56,
        0xFFEE8533, 0xFF585CBE, 0xFF3352E1, 0xFF3352E1, 0xFF3352E1, 0xFF3352E1, 0xFF3352E1, 0xFF585CBE,
        0xFFEE8533, 0xFF3352E1, 0xFF3352E1, 0xFF3352E1, 0xFF3352E1, 0xFF3352E1, 0xFF3352E1, 0xFF3352E1,
        0xFFEE8533, 0xFF585CBE, 0xFF3352E1, 0xFF3352E1, 0xFF3352E1, 0xFF3352E1, 0xFF3352E1, 0xFF585CBE,
        0xFFEE8533, 0xFFC87A56, 0xFF585CBE, 0xFF3352E1, 0xFF3352E1, 0xFF3352E1, 0xFF585CBE, 0xFFC87A56,
        0xFFEE8533, 0xFFEE8533, 0xFFC87A56, 0xFF585CBE, 0xFF3352E1, 0xFF585CBE, 0xFFC87A56, 0xFFEE8533,
    ];
    assert_eq!(framebuffer.buffer, expected);
}

#[test]
fn soft_circle_of_radius_six_over_black() {
    let mut framebuffer = FramebufferInternal::<Medium>::new();
    framebuffer.clear_to(BLACK);
    framebuffer.draw_circle(7, 8, 6, 0x12FF_FFFF);
    let expected: Vec<u32> = vec![
        0xFF222222, 0xFF222222, 0xFF222222, 0xFF222222, 0xFF222222, 0xFF222222, 0xFF222222, 0xFF222222, 0xFF222222, 0xFF222222, 0xFF222222, 0xFF222222, 0xFF222222, 0xFF222222, 0xFF222222, 0xFF222222,
        0xFF222222, 0xFF222222, 0xFF222222, 0xFF222222, 0xFF222222, 0xFF222222, 0xFF222222, 0xFF222222, 0xFF222222, 0xFF222222, 0xFF222222, 0xFF222222, 0xFF222222, 0xFF222222, 0xFF222222, 0xFF222222,
        0xFF222222, 0xFF222222, 0xFF222222, 0xFF222222, 0xFF4B4B4B, 0xFFAFAFAF, 0xFFEBEBEB, 0xFFFFFFFF, 0xFFEBEBEB, 0xFFAFAFAF, 0xFF4B4B4B, 0xFF222222, 0xFF222222, 0xFF222222, 0xFF222222, 0xFF222222,
        0xFF222222, 0xFF222222, 0xFF222222, 0xFF9B9B9B, 0xFFD7D7D7, 0xFF737373, 0xFF222222, 0xFF222222, 0xFF222222, 0xFF4B4B4B, 0xFFAFAFAF, 0xFF9B9B9B, 0xFF222222, 0xFF222222, 0xFF222222, 0xFF222222,
        0xFF222222, 0xFF222222, 0xFF9B9B9B, 0xFF878787, 0xFF222222, 0xFF222222, 0xFF222222, 0xFF222222, 0xFF222222, 0xFF222222, 0xFF222222, 0xFF878787, 0xFF9B9B9B, 0xFF222222, 0xFF222222, 0xFF222222,
        0xFF222222, 0xFF4B4B4B, 0xFFAFAFAF, 0xFF222222, 0xFF222222, 0xFF222222, 0xFF222222, 0xFF222222, 0xFF222222, 0xFF222222, 0xFF222222, 0xFF222222, 0xFFD7D7D7, 0xFF4B4B4B, 0xFF222222, 0xFF222222,
        0xFF222222, 0xFFAFAFAF, 0xFF4B4B4B, 0xFF222222, 0xFF222222, 0xFF222222, 0xFF222222, 0xFF222222, 0xFF222222, 0xFF222222, 0xFF222222, 0xFF222222, 0xFF737373, 0xFFAFAFAF, 0xFF222222, 0xFF222222,
        0xFF222222, 0xFFEBEBEB, 0xFF222222, 0xFF222222, 0xFF222222, 0xFF222222, 0xFF222222, 0xFF222222, 0xFF222222, 0xFF222222, 0xFF222222, 0xFF222222, 0xFF222222, 0xFFEBEBEB, 0xFF222222, 0xFF222222,
        0xFF222222, 0xFFFFFFFF, 0xFF222222, 0xFF222222, 0xFF222222, 0xFF222222, 0xFF222222, 0xFF222222, 0xFF222222, 0xFF222222, 0xFF222222, 0xFF222222, 0xFF222222, 0xFFFFFFFF, 0xFF222222, 0xFF222222,
        0xFF222222, 0xFFEBEBEB, 0xFF222222, 0xFF222222, 0xFF222222, 0xFF222222, 0xFF222222, 0xFF222222, 0xFF222222, 0xFF222222, 0xFF222222, 0xFF222222, 0xFF222222, 0xFFEBEBEB, 0xFF222222, 0xFF222222,
        0xFF222222, 0xFFAFAFAF, 0xFF737373, 0xFF222222, 0xFF222222, 0xFF222222, 0xFF222222, 0xFF222222, 0xFF222222, 0xFF222222, 0xFF222222, 0xFF222222, 0xFF4B4B4B, 0xFFAFAFAF, 0xFF222222, 0xFF222222,
        0xFF222222, 0xFF4B4B4B, 0xFFD7D7D7, 0xFF222222, 0xFF222222, 0xFF222222, 0xFF222222, 0xFF222222, 0xFF222222, 0xFF222222, 0xFF222222, 0xFF222222, 0xFFAFAFAF, 0xFF4B4B4B, 0xFF222222, 0xFF222222,
        0xFF222222, 0xFF222222, 0xFF9B9B9B, 0xFF878787, 0xFF222222, 0xFF222222, 0xFF222222, 0xFF222222, 0xFF222222, 0xFF222222, 0xFF222222, 0xFF878787, 0xFF9B9B9B, 0xFF222222, 0xFF222222, 0xFF222222,
        0xFF222222, 0xFF222222, 0xFF222222, 0xFF9B9B9B, 0xFFAFAFAF, 0xFF4B4B4B, 0xFF222222, 0xFF222222, 0xFF222222, 0xFF737373, 0xFFD7D7D7, 0xFF9B9B9B, 0xFF222222, 0xFF222222, 0xFF222222, 0xFF222222,
        0xFF222222, 0xFF222222, 0xFF222222, 0xFF222222, 0xFF4B4B4B, 0xFFAFAFAF, 0xFFEBEBEB, 0xFFFFFFFF, 0xFFEBEBEB, 0xFFAFAFAF, 0xFF4B4B4B, 0xFF222222, 0xFF222222, 0xFF222222, 0xFF222222, 0xFF222222,
        0xFF222222, 0xFF222222, 0xFF222222, 0xFF222222, 0xFF222222, 0xFF222222, 0xFF222222, 0xFF222222, 0xFF222222, 0xFF222222, 0xFF222222, 0xFF222222, 0xFF222222, 0xFF222222, 0xFF222222, 0xFF222222,
    ];
    assert_eq!(framebuffer.buffer, expected);
}

#[test]
fn filled_circle_of_radius_six_over_black() {
    let mut framebuffer = FramebufferInternal::<Medium>::new();
    framebuffer.clear_to(BLACK);
    framebuffer.draw_filled_circle(7, 8, 6, 0x12FF_FFFF);
    let expected: Vec<u32> = vec![
        0xFF222222, 0xFF222222, 0xFF222222, 0xFF222222, 0xFF222222, 0xFF222222, 0xFF222222, 0xFF222222, 0xFF222222, 0xFF222222, 0xFF222222, 0xFF222222, 0xFF222222, 0xFF222222, 0xFF222222, 0xFF222222,
        0xFF222222, 0xFF222222, 0xFF222222, 0xFF222222, 0xFF222222, 0xFF222222, 0xFF222222, 0xFF222222, 0xFF222222, 0xFF222222, 0xFF222222, 0xFF222222, 0xFF222222, 0xFF222222, 0xFF222222, 0xFF222222,
        0xFF222222, 0xFF222222, 0xFF222222, 0xFF222222, 0xFF4B4B4B, 0xFFAFAFAF, 0xFFEBEBEB, 0xFFFFFFFF, 0xFFEBEBEB, 0xFFAFAFAF, 0xFF4B4B4B, 0xFF222222, 0xFF222222, 0xFF222222, 0xFF222222, 0xFF222222,
        0xFF222222, 0xFF222222, 0xFF222222, 0xFF9B9B9B, 0xFFD7D7D7, 0xFF737373, 0x12FFFFFF, 0x12FFFFFF, 0x12FFFFFF, 0x12FFFFFF, 0x12FFFFFF, 0xFF9B9B9B, 0xFF222222, 0xFF222222, 0xFF222222, 0xFF222222,
        0xFF222222, 0xFF222222, 0xFF9B9B9B, 0x12FFFFFF, 0xFF222222, 0xFF222222, 0x12FFFFFF, 0x12FFFFFF, 0x12FFFFFF, 0x12FFFFFF, 0xFF222222, 0x12FFFFFF, 0xFF9B9B9B, 0xFF222222, 0xFF222222, 0xFF222222,
        0xFF222222, 0xFF4B4B4B, 0x12FFFFFF, 0xFF222222, 0x12FFFFFF, 0x12FFFFFF, 0x12FFFFFF, 0x12FFFFFF, 0x12FFFFFF, 0x12FFFFFF, 0x12FFFFFF, 0xFF222222, 0xFFD7D7D7, 0xFF4B4B4B, 0xFF222222, 0xFF222222,
        0xFF222222, 0xFFAFAFAF, 0x12FFFFFF, 0x12FFFFFF, 0x12FFFFFF, 0x12FFFFFF, 0x12FFFFFF, 0x12FFFFFF, 0x12FFFFFF, 0x12FFFFFF, 0x12FFFFFF, 0xFF222222, 0xFF737373, 0xFFAFAFAF, 0xFF222222, 0xFF222222,
        0xFF222222, 0xFFEBEBEB, 0x12FFFFFF, 0x12FFFFFF, 0x12FFFFFF, 0x12FFFFFF, 0x12FFFFFF, 0xFF222222, 0x12FFFFFF, 0x12FFFFFF, 0x12FFFFFF, 0x12FFFFFF, 0x12FFFFFF, 0xFFEBEBEB, 0xFF222222, 0xFF222222,
        0xFF222222, 0xFFFFFFFF, 0x12FFFFFF, 0x12FFFFFF, 0x12FFFFFF, 0x12FFFFFF, 0xFF222222, 0x12FFFFFF, 0xFF222222, 0x12FFFFFF, 0x12FFFFFF, 0x12FFFFFF, 0x12FFFFFF, 0xFFFFFFFF, 0xFF222222, 0xFF222222,
        0xFF222222, 0xFFEBEBEB, 0x12FFFFFF, 0x12FFFFFF, 0x12FFFFFF, 0x12FFFFFF, 0x12FFFFFF, 0xFF222222, 0x12FFFFFF, 0x12FFFFFF, 0x12FFFFFF, 0x12FFFFFF, 0x12FFFFFF, 0xFFEBEBEB, 0xFF222222, 0xFF222222,
        0xFF222222, 0xFFAFAFAF, 0xFF737373, 0xFF222222, 0x12FFFFFF, 0x12FFFFFF, 0x12FFFFFF, 0x12FFFFFF, 0x12FFFFFF, 0x12FFFFFF, 0x12FFFFFF, 0x12FFFFFF, 0x12FFFFFF, 0xFFAFAFAF, 0xFF222222, 0xFF222222,
        0xFF222222, 0xFF4B4B4B, 0xFFD7D7D7, 0xFF222222, 0x12FFFFFF, 0x12FFFFFF, 0x12FFFFFF, 0x12FFFFFF, 0x12FFFFFF, 0x12FFFFFF, 0x12FFFFFF, 0xFF222222, 0x12FFFFFF, 0xFF4B4B4B, 0xFF222222, 0xFF222222,
        0xFF222222, 0xFF222222, 0xFF9B9B9B, 0x12FFFFFF, 0xFF222222, 0x12FFFFFF, 0x12FFFFFF, 0x12FFFFFF, 0x12FFFFFF, 0xFF222222, 0xFF222222, 0x12FFFFFF, 0xFF9B9B9B, 0xFF222222, 0xFF222222, 0xFF222222,
        0xFF222222, 0xFF222222, 0xFF222222, 0xFF9B9B9B, 0x12FFFFFF, 0x12FFFFFF, 0x12FFFFFF, 0x12FFFFFF, 0x12FFFFFF, 0xFF737373, 0xFFD7D7D7, 0xFF9B9B9B, 0xFF222222, 0xFF222222, 0xFF222222, 0xFF222222,
        0xFF222222, 0xFF222222, 0xFF222222, 0xFF222222, 0xFF4B4B4B, 0xFFAFAFAF, 0xFFEBEBEB, 0xFFFFFFFF, 0xFFEBEBEB, 0xFFAFAFAF, 0xFF4B4B4B, 0xFF222222, 0xFF222222, 0xFF222222, 0xFF222222, 0xFF222222,
        0xFF222222, 0xFF222222, 0xFF222222, 0xFF222222, 0xFF222222, 0xFF222222, 0xFF222222, 0xFF222222, 0xFF222222, 0xFF222222, 0xFF222222, 0xFF222222, 0xFF222222, 0xFF222222, 0xFF222222, 0xFF222222,
    ];
    assert_eq!(framebuffer.buffer, expected);
}

#[test]
fn soft_circles_of_radius_zero_are_their_centre() {
    let mut framebuffer = FramebufferInternal::<Small>::new();
    framebuffer.draw_circle(4, 4, 0, 0x0012_3456);
    let mut expected = vec![BLUE; 64];
    expected[4 * 8 + 4] = 0xFF12_3456;
    assert_eq!(framebuffer.buffer, expected);

    let mut framebuffer = FramebufferInternal::<Small>::new();
    framebuffer.draw_filled_circle(4, 4, 0, 0x0012_3456);
    let mut expected = vec![BLUE; 64];
    expected[4 * 8 + 4] = 0x0012_3456;
    assert_eq!(framebuffer.buffer, expected);
}

#[test]
fn filled_circle_sets_its_centre_to_the_colour_itself() {
    let mut framebuffer = FramebufferInternal::<Small>::new();
    framebuffer.draw_filled_circle(3, 3, 2, WHITE);
    let expected = [
        "........",
        "...#....",
        "..###...",
        ".#####..",
        "..###...",
        "...#....",
        "........",
        "........",
    ];
    assert_eq!(picture(&framebuffer.buffer, 8, WHITE), expected);
    assert_eq!(framebuffer.buffer[3 * 8 + 3], WHITE);
}
