use rendering::colour::{BLUE, GREEN, RED};
use rendering::framebuffer::{Dimensions, FramebufferInternal};
use rendering::hexagon::HEXAGON;

struct Medium;

impl Dimensions for Medium {
    fn size() -> (usize, usize) {
        (16, 16)
    }

    fn get() -> (usize, usize) {
        (16, 16)
    }
}

type Framebuffer = FramebufferInternal<Medium>;

fn picture(buffer: &[u32], interior: u32, outline: u32) -> Vec<String> {
    buffer
        .chunks(16)
        .map(|row| {
            row.iter()
                .map(|c| {
                    if *c == interior {
                        'i'
                    } else if *c == outline {
                        'o'
                    } else {
                        '.'
                    }
                })
                .collect()
        })
        .collect()
}

fn blank() -> Vec<String> {
    vec!["................".to_string(); 16]
}

fn with_rows(from: usize, rows: [&str; 8]) -> Vec<String> {
    let mut all = blank();
    for (i, row) in rows.iter().enumerate() {
        all[from + i] = row.to_string();
    }
    all
}

#[test]
fn hexagon_match_picks_the_colour_of_a_cell() {
    assert_eq!(Framebuffer::hexagon_match(0, GREEN, RED), 0);
    assert_eq!(Framebuffer::hexagon_match(1, GREEN, RED), GREEN);
    assert_eq!(Framebuffer::hexagon_match(2, GREEN, RED), RED);
    assert_eq!(Framebuffer::hexagon_match(3, GREEN, RED), 0);
    assert_eq!(Framebuffer::hexagon_match(255, GREEN, RED), 0);
    assert_eq!(HEXAGON.len(), 64);
    assert_eq!(HEXAGON[4], 2);
    assert_eq!(HEXAGON[12], 1);
}

#[test]
fn the_left_half_of_a_hexagon() {
    let mut framebuffer = Framebuffer::new();
    framebuffer.hexagon_left(2, 3, GREEN, RED);
    let expected = with_rows(
        3,
        [
            "................",
            ".....o..........",
            "....oi..........",
            "...oii..........",
            "..oiii..........",
            "..oiii..........",
            "..oiii..........",
            "..oooo..........",
        ],
    );
    assert_eq!(picture(&framebuffer.buffer, GREEN, RED), expected);
}

#[test]
fn the_right_half_of_a_hexagon_falls_on_the_same_four_columns() {
    let mut framebuffer = Framebuffer::new();
    framebuffer.hexagon_right(2, 3, GREEN, RED);
    let expected = with_rows(
        3,
        [
            "..oooo..........",
            "..iiio..........",
            "..iiio..........",
            "..iiio..........",
            "..iio...........",
            "..io............",
            "..o.............",
            "................",
        ],
    );
    assert_eq!(picture(&framebuffer.buffer, GREEN, RED), expected);
}

#[test]
fn a_whole_hexagon_has_its_right_half_over_its_left() {
    let mut framebuffer = Framebuffer::new();
    framebuffer.hexagon(2, 3, GREEN, RED);
    let expected = with_rows(
        3,
        [
            "..oooo..........",
            "..iiio..........",
            "..iiio..........",
            "..iiio..........",
            "..iioi..........",
            "..ioii..........",
            "..oiii..........",
            "..oooo..........",
        ],
    );
    assert_eq!(picture(&framebuffer.buffer, GREEN, RED), expected);
}

#[test]
fn one_cell_of_a_hexagon() {
    let mut framebuffer = Framebuffer::new();
    framebuffer.hexagon_set_pixel(2, 3, 4, 0, GREEN, RED);
    framebuffer.hexagon_set_pixel(2, 3, 0, 0, GREEN, RED);
    framebuffer.hexagon_set_pixel(2, 3, 5, 2, GREEN, RED);
    let mut expected = vec![BLUE; 256];
    expected[3 * 16 + 2] = RED;
    expected[5 * 16 + 3] = GREEN;
    assert_eq!(framebuffer.buffer, expected);
}

#[test]
fn a_hexagon_past_the_edge_goes_round_at_256_and_is_cut_off() {
    let mut framebuffer = Framebuffer::new();
    framebuffer.hexagon(254, 250, GREEN, RED);
    // columns 254, 255, 0, 1 and rows 250 to 255, 0, 1: what the buffer has of
    // them are columns 0 and 1 of rows 0 and 1, the last two rows of the hexagon
    let mut expected = vec![BLUE; 256];
    expected[0] = GREEN;
    expected[1] = GREEN;
    expected[16] = RED;
    expected[17] = RED;
    assert_eq!(framebuffer.buffer, expected);
    // a zero colour paints nothing
    let mut framebuffer = Framebuffer::new();
    framebuffer.hexagon(0, 0, 0, 0);
    assert_eq!(framebuffer.buffer, vec![BLUE; 256]);
}
