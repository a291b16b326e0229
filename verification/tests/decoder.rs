use rendering::colour::{BLACK, BLUE, GREEN, GREY, PURPLE, RED, WHITE, YELLOW};
use rendering::decoder::{colour_from_byte, render_from_lsb, render_from_msb};

const DOUBLE_RAINBOW: [u32; 16] = [
    BLUE, GREEN, RED, YELLOW, PURPLE, GREY, WHITE, BLACK, BLUE, GREEN, RED, YELLOW, PURPLE, GREY,
    WHITE, BLACK,
];

const MSB_TWO_BYTES: [u32; 32] = [
    BLUE, GREEN, RED, YELLOW, PURPLE, PURPLE, BLUE, GREY, GREEN, WHITE, RED, BLUE, RED, PURPLE,
    BLACK, GREEN, // and again
    BLUE, GREEN, RED, YELLOW, PURPLE, PURPLE, BLUE, GREY, GREEN, WHITE, RED, BLUE, RED, PURPLE,
    BLACK, GREEN,
];

fn names(colours: &[u32]) -> Vec<&'static str> {
    colours
        .iter()
        .map(|colour| match *colour {
            BLUE => "Blue",
            GREEN => "Green",
            RED => "Red",
            YELLOW => "Yellow",
            PURPLE => "Purple",
            GREY => "Grey",
            WHITE => "White",
            BLACK => "Black",
            _ => "Unknown colour",
        })
        .collect()
}

fn lsb_rainbow_bytes() -> [u8; 6] {
    [
        0b10_001_000,
        0b1_100_011_0,
        0b111_110_10,
        0b10_001_000,
        0b1_100_011_0,
        0b111_110_10,
    ]
}

fn msb_rainbow_bytes() -> [u8; 6] {
    [
        0b000_001_01,
        0b0_011_100_1,
        0b01_110_111,
        0b000_001_01,
        0b0_011_100_1,
        0b01_110_111,
    ]
}

#[test]
fn player_lsb_0_to_7_twice() {
    let bytes = lsb_rainbow_bytes();

    let mut buffer = [0; 16];

    render_from_lsb(&bytes, &mut buffer, 0);

    assert_eq!(names(&DOUBLE_RAINBOW), names(&buffer));
}

#[test]
fn player_msb_0_to_7_twice() {
    let bytes = msb_rainbow_bytes();

    let mut buffer = [0; 16];

    render_from_msb(&bytes, &mut buffer, 0);

    assert_eq!(names(&DOUBLE_RAINBOW), names(&buffer));
}

#[test]
fn player_msb_0_to_4_then_1_bit() {
    let bytes = [0b000_001_01, 0b0_011_100_1];

    let mut buffer = [0; 32];

    render_from_msb(&bytes, &mut buffer, 0);

    assert_eq!(names(&MSB_TWO_BYTES), names(&buffer));
}

#[test]
fn game_lsb_0_to_7_twice() {
    let bytes = lsb_rainbow_bytes();

    let mut buffer = [0; 16];

    render_from_lsb(&bytes, &mut buffer, 0);

    assert_eq!(DOUBLE_RAINBOW, buffer);
}

#[test]
fn game_msb_0_to_7_twice() {
    let bytes = msb_rainbow_bytes();

    let mut buffer = [0; 16];

    render_from_msb(&bytes, &mut buffer, 0);

    assert_eq!(DOUBLE_RAINBOW, buffer);
}

#[test]
fn game_msb_0_to_4_then_1_bit() {
    let bytes = [0b000_001_01, 0b0_011_100_1];

    let mut buffer = [0; 32];

    render_from_msb(&bytes, &mut buffer, 0);

    assert_eq!(MSB_TWO_BYTES, buffer);
}

#[test]
fn colour_from_byte_reads_the_three_lowest_bits() {
    let palette = [BLUE, GREEN, RED, YELLOW, PURPLE, GREY, WHITE, BLACK];
    for byte in 0..=255u8 {
        assert_eq!(colour_from_byte(byte), palette[(byte & 7) as usize]);
    }
}

#[test]
fn lsb_three_byte_ramp_fills_any_length_in_order() {
    let palette = [BLUE, GREEN, RED, YELLOW, PURPLE, GREY, WHITE, BLACK];
    let bytes = [0b1000_1000u8, 0b1100_0110, 0b1111_1010];
    for len in 1..70usize {
        let mut buffer = vec![0u32; len];
        render_from_lsb(&bytes, &mut buffer, 0);
        for (i, colour) in buffer.iter().enumerate() {
            assert_eq!(*colour, palette[i % 8], "len {} pixel {}", len, i);
        }
    }
}

#[test]
fn msb_three_byte_ramp_fills_any_length_in_order() {
    let palette = [BLUE, GREEN, RED, YELLOW, PURPLE, GREY, WHITE, BLACK];
    let bytes = [0b0000_0101u8, 0b0011_1001, 0b0111_0111];
    for len in 1..70usize {
        let mut buffer = vec![0u32; len];
        render_from_msb(&bytes, &mut buffer, 0);
        for (i, colour) in buffer.iter().enumerate() {
            assert_eq!(*colour, palette[i % 8], "len {} pixel {}", len, i);
        }
    }
}

#[test]
fn decoding_twice_gives_the_same_pixels() {
    let bytes = [0x12u8, 0xF3, 0x5A, 0x99, 0x07];
    for start in 0..7usize {
        let mut first = vec![0u32; 41];
        let mut second = vec![1u32; 41];
        render_from_lsb(&bytes, &mut first, start);
        render_from_lsb(&bytes, &mut second, start);
        assert_eq!(first, second);
        render_from_msb(&bytes, &mut first, start);
        render_from_msb(&bytes, &mut second, start);
        assert_eq!(first, second);
    }
}

#[test]
fn a_single_byte_tiles_the_whole_buffer() {
    // 0b1010_1010 over and over is the bit pattern 01 repeated, lowest bit first.
    let bytes = [0b1010_1010u8];
    let mut buffer = vec![0u32; 100];
    render_from_lsb(&bytes, &mut buffer, 0);
    // pixel k holds stream bits 3k, 3k+1, 3k+2, bit j being 1 for odd j.
    for (k, colour) in buffer.iter().enumerate() {
        let palette = [BLUE, GREEN, RED, YELLOW, PURPLE, GREY, WHITE, BLACK];
        let bit = |j: usize| j % 2;
        let index = bit(3 * k) + 2 * bit(3 * k + 1) + 4 * bit(3 * k + 2);
        assert_eq!(*colour, palette[index]);
    }
    assert_eq!(buffer[0], RED);
    assert_eq!(buffer[1], GREY);
}

#[test]
fn pixels_repeat_after_eight_times_the_source_length() {
    let bytes = [0x12u8, 0xF3, 0x5A, 0x99, 0x07];
    let mut buffer = vec![0u32; 3 * 8 * bytes.len()];
    render_from_msb(&bytes, &mut buffer, 2);
    for k in 0..(2 * 8 * bytes.len()) {
        assert_eq!(buffer[k], buffer[k + 8 * bytes.len()]);
    }
}

#[test]
fn a_start_moves_the_stream_by_whole_bytes() {
    let bytes = [0b1000_1000u8, 0b1100_0110, 0b1111_1010, 0xFF];
    let mut buffer = vec![0u32; 4];
    render_from_lsb(&bytes, &mut buffer, 3);
    // the stream starts at the last byte, all ones, then wraps to the first.
    assert_eq!(buffer, vec![BLACK, BLACK, YELLOW, PURPLE]);
}

#[test]
fn a_start_at_or_past_the_buffer_length_changes_nothing() {
    let bytes = [0u8, 1, 2];
    let mut buffer = vec![7u32; 5];
    render_from_lsb(&bytes, &mut buffer, 5);
    assert_eq!(buffer, vec![7u32; 5]);
    render_from_msb(&bytes, &mut buffer, 6);
    assert_eq!(buffer, vec![7u32; 5]);
    render_from_msb(&bytes, &mut buffer, 4);
    assert_ne!(buffer, vec![7u32; 5]);
    let mut empty: Vec<u32> = Vec::new();
    render_from_lsb(&bytes, &mut empty, 0);
    assert!(empty.is_empty());
}
