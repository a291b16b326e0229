//! Turns a byte stream into pixels of three bits each.
//!
//! The stream is read in groups of three bytes; past its last byte it goes
//! on from its first. Each group is one number of twenty-four bits, and
//! its eight digits in base eight are eight palette indices.

use crate::colour::{palette_colour, BLACK, BLUE, GREEN, GREY, PURPLE, RED, WHITE, YELLOW};
use vstd::prelude::*;

verus! {

/// The byte at `position` of the endless stream that repeats `bytes`.
pub open spec fn cyclic_byte(bytes: Seq<u8>, position: int) -> int {
    bytes[position % (bytes.len() as int)] as int
}

/// The number that the three bytes of group `group` make, in a stream
/// that starts at byte `start`: the first byte is the least significant,
/// or the most significant where `msb_first`.
pub open spec fn group_word(bytes: Seq<u8>, start: int, group: int, msb_first: bool) -> int {
    let first = cyclic_byte(bytes, start + 3 * group);
    let second = cyclic_byte(bytes, start + 3 * group + 1);
    let third = cyclic_byte(bytes, start + 3 * group + 2);
    if msb_first {
        65536 * first + 256 * second + third
    } else {
        first + 256 * second + 65536 * third
    }
}

/// Eight to the power `place`, for places below eight.
pub open spec fn eight_to(place: int) -> int {
    if place <= 0 {
        1
    } else if place == 1 {
        8
    } else if place == 2 {
        64
    } else if place == 3 {
        512
    } else if place == 4 {
        4096
    } else if place == 5 {
        32768
    } else if place == 6 {
        262144
    } else {
        2097152
    }
}

/// The digit of `word` at `place` in base eight, place 0 being the least
/// significant.
pub open spec fn octal_digit(word: int, place: int) -> int {
    (word / eight_to(place)) % 8
}

/// The palette index of pixel `pixel`: the pixels of a group are its
/// digits, from the least significant up, or from the most significant
/// down where `msb_first`.
pub open spec fn decoded_index(bytes: Seq<u8>, start: int, pixel: int, msb_first: bool) -> int {
    let word = group_word(bytes, start, pixel / 8, msb_first);
    if msb_first {
        octal_digit(word, 7 - pixel % 8)
    } else {
        octal_digit(word, pixel % 8)
    }
}

/// The first `len` pixels of the stream that starts at byte `start`.
pub open spec fn decoded(bytes: Seq<u8>, start: int, len: nat, msb_first: bool) -> Seq<u32> {
    Seq::new(len, |pixel: int| palette_colour(decoded_index(bytes, start, pixel, msb_first)))
}

/// What a buffer holds after decoding into it: it is filled from the
/// stream, unless the start lies at or past its length, which leaves it
/// as it was.
pub open spec fn rendered(bytes: Seq<u8>, buffer: Seq<u32>, start: int, msb_first: bool) -> Seq<
    u32,
> {
    if start >= buffer.len() {
        buffer
    } else {
        decoded(bytes, start, buffer.len(), msb_first)
    }
}

proof fn lemma_word_of_bytes(first: u32, second: u32, third: u32)
    by (bit_vector)
    requires
        first <= 255,
        second <= 255,
        third <= 255,
    ensures
        first | (second << 8) | (third << 16) == first + 256 * second + 65536 * third,
        first | (second << 8) | (third << 16) < 16777216,
{
}

proof fn lemma_digits_of_word(word: u32)
    by (bit_vector)
    requires
        word < 16777216,
    ensures
        (word >> 0) & 7 == (word / 1) % 8,
        (word >> 3) & 7 == (word / 8) % 8,
        (word >> 6) & 7 == (word / 64) % 8,
        (word >> 9) & 7 == (word / 512) % 8,
        (word >> 12) & 7 == (word / 4096) % 8,
        (word >> 15) & 7 == (word / 32768) % 8,
        (word >> 18) & 7 == (word / 262144) % 8,
        (word >> 21) & 7 == (word / 2097152) % 8,
{
}

/// The position after `position` in a cycle of `len`.
proof fn lemma_mod_successor(position: int, len: int)
    requires
        0 < len,
    ensures
        (position + 1) % len == if position % len + 1 == len {
            0
        } else {
            position % len + 1
        },
{
    vstd::arithmetic::div_mod::lemma_fundamental_div_mod(position, len);
    vstd::arithmetic::div_mod::lemma_mod_bound(position, len);
    let q = position / len;
    let r = position % len;
    assert(len * q == q * len) by (nonlinear_arith);
    if r + 1 == len {
        assert(position + 1 == (q + 1) * len + 0) by (nonlinear_arith)
            requires
                position == q * len + r,
                r + 1 == len,
        ;
        vstd::arithmetic::div_mod::lemma_fundamental_div_mod_converse(position + 1, len, q + 1, 0);
    } else {
        vstd::arithmetic::div_mod::lemma_fundamental_div_mod_converse(position + 1, len, q, r + 1);
    }
}

/// The palette colour of the three lowest bits of `byte`.
pub fn colour_from_byte(byte: u8) -> (colour: u32)
    ensures
        colour == palette_colour(byte as int % 8),
{
    assert(byte & 0b111 == byte % 8) by (bit_vector);
    match byte & 0b111 {
        0 => BLUE,
        1 => GREEN,
        2 => RED,
        3 => YELLOW,
        4 => PURPLE,
        5 => GREY,
        6 => WHITE,
        7 => BLACK,
        _ => 0,
    }
}

fn successor(position: usize, len: usize) -> (next: usize)
    requires
        position < len,
    ensures
        next < len,
        next == if position + 1 == len {
            0
        } else {
            position + 1
        },
{
    if position + 1 == len {
        0
    } else {
        position + 1
    }
}

fn render_from(bytes: &[u8], buffer: &mut [u32], byte_index: usize, msb_first: bool)
    requires
        bytes@.len() > 0,
    ensures
        final(buffer)@ == rendered(bytes@, old(buffer)@, byte_index as int, msb_first),
{
    let len: usize = buffer.len();
    if byte_index >= len {
        return ;
    }
    let n: usize = bytes.len();
    let mut position: usize = byte_index % n;
    let mut i: usize = 0;
    while i < len
        invariant
            n == bytes@.len(),
            n > 0,
            position < n,
            buffer@.len() == len,
            i <= len,
            i % 8 == 0 || i == len,
            i < len ==> position == (byte_index + 3 * (i / 8)) % (n as int),
            forall|k: int|
                0 <= k < i ==> #[trigger] buffer@[k] == palette_colour(
                    decoded_index(bytes@, byte_index as int, k, msb_first),
                ),
        decreases len - i,
    {
        let ghost group: int = i as int / 8;
        let ghost base: int = byte_index + 3 * group;
        let second: usize = successor(position, n);
        let third: usize = successor(second, n);
        let after: usize = successor(third, n);
        proof {
            lemma_mod_successor(base, n as int);
            lemma_mod_successor(base + 1, n as int);
            lemma_mod_successor(base + 2, n as int);
        }
        let b0: u32 = bytes[position] as u32;
        let b1: u32 = bytes[second] as u32;
        let b2: u32 = bytes[third] as u32;
        let word: u32 = if msb_first {
            b2 | (b1 << 8) | (b0 << 16)
        } else {
            b0 | (b1 << 8) | (b2 << 16)
        };
        proof {
            if msb_first {
                lemma_word_of_bytes(b2, b1, b0);
            } else {
                lemma_word_of_bytes(b0, b1, b2);
            }
            lemma_digits_of_word(word);
            assert(word == group_word(bytes@, byte_index as int, group, msb_first));
        }
        let mut j: u32 = 0;
        while j < 8 && i < len
            invariant
                buffer@.len() == len,
                0 <= j <= 8,
                i == 8 * group + j,
                i <= len,
                word < 16777216,
                word == group_word(bytes@, byte_index as int, group, msb_first),
                (word >> 0) & 7 == (word / 1) % 8,
                (word >> 3) & 7 == (word / 8) % 8,
                (word >> 6) & 7 == (word / 64) % 8,
                (word >> 9) & 7 == (word / 512) % 8,
                (word >> 12) & 7 == (word / 4096) % 8,
                (word >> 15) & 7 == (word / 32768) % 8,
                (word >> 18) & 7 == (word / 262144) % 8,
                (word >> 21) & 7 == (word / 2097152) % 8,
                forall|k: int|
                    0 <= k < i ==> #[trigger] buffer@[k] == palette_colour(
                        decoded_index(bytes@, byte_index as int, k, msb_first),
                    ),
            decreases 8 - j,
        {
            let place: u32 = if msb_first {
                7 - j
            } else {
                j
            };
            let digit: u32 = (word >> (3 * place)) & 7;
            assert(digit == octal_digit(word as int, place as int)) by {
                assert(place == 0 || place == 1 || place == 2 || place == 3 || place == 4 || place
                    == 5 || place == 6 || place == 7);
            }
            assert(i as int / 8 == group && i as int % 8 == j);
            buffer[i] = colour_from_byte(digit as u8);
            i += 1;
            j += 1;
        }
        position = after;
    }
    assert(buffer@ =~= decoded(bytes@, byte_index as int, len as nat, msb_first));
}

/// Fills `buffer` with the pixels of the stream that repeats `bytes` and
/// starts at byte `byte_index`, each byte's lowest bits first. Does
/// nothing where `byte_index` is not below the buffer's length.
pub fn render_from_lsb(bytes: &[u8], buffer: &mut [u32], byte_index: usize)
    requires
        bytes@.len() > 0,
    ensures
        final(buffer)@ == rendered(bytes@, old(buffer)@, byte_index as int, false),
{
    render_from(bytes, buffer, byte_index, false);
}

/// Fills `buffer` with the pixels of the stream that repeats `bytes` and
/// starts at byte `byte_index`, each byte's highest bits first. Does
/// nothing where `byte_index` is not below the buffer's length.
pub fn render_from_msb(bytes: &[u8], buffer: &mut [u32], byte_index: usize)
    requires
        bytes@.len() > 0,
    ensures
        final(buffer)@ == rendered(bytes@, old(buffer)@, byte_index as int, true),
{
    render_from(bytes, buffer, byte_index, true);
}

/// The byte at `position` of the three-byte pattern whose digits, read
/// lowest bits first, are 0 to 7 in order.
pub open spec fn ramp_lsb(position: int) -> u8 {
    if position % 3 == 0 {
        0b1000_1000u8
    } else if position % 3 == 1 {
        0b1100_0110u8
    } else {
        0b1111_1010u8
    }
}

/// The byte at `position` of the three-byte pattern whose digits, read
/// highest bits first, are 0 to 7 in order.
pub open spec fn ramp_msb(position: int) -> u8 {
    if position % 3 == 0 {
        0b0000_0101u8
    } else if position % 3 == 1 {
        0b0011_1001u8
    } else {
        0b0111_0111u8
    }
}

proof fn lemma_ramp_position(group: int, offset: int, len: int)
    requires
        0 < len,
        len % 3 == 0,
        0 <= offset < 3,
    ensures
        ((3 * group + offset) % len) % 3 == offset,
        0 <= (3 * group + offset) % len < len,
{
    let third = len / 3;
    assert(len == 3 * third);
    vstd::arithmetic::div_mod::lemma_mod_mod(3 * group + offset, 3, third);
    vstd::arithmetic::div_mod::lemma_fundamental_div_mod_converse(
        3 * group + offset,
        3,
        group,
        offset,
    );
    vstd::arithmetic::div_mod::lemma_mod_bound(3 * group + offset, len);
}

/// Whole turns round the source lead back to the same byte.
proof fn lemma_cyclic_turns(bytes: Seq<u8>, position: int, turns: int)
    requires
        bytes.len() > 0,
    ensures
        cyclic_byte(bytes, position + turns * bytes.len()) == cyclic_byte(bytes, position),
{
    let len = bytes.len() as int;
    vstd::arithmetic::div_mod::lemma_mod_multiples_vanish(turns, position, len);
    assert(position + turns * len == len * turns + position) by (nonlinear_arith);
}

/// A source that repeats the pattern of the digits 0 to 7 decodes, from
/// its start, to the palette indices 0 to 7 over and over, however long
/// the output is.
pub proof fn lemma_ramp_decodes_in_order(bytes: Seq<u8>, pixel: int, msb_first: bool)
    requires
        bytes.len() > 0,
        bytes.len() % 3 == 0,
        0 <= pixel,
        forall|j: int|
            0 <= j < bytes.len() ==> #[trigger] bytes[j] == if msb_first {
                ramp_msb(j)
            } else {
                ramp_lsb(j)
            },
    ensures
        decoded_index(bytes, 0, pixel, msb_first) == pixel % 8,
{
    let len = bytes.len() as int;
    let group = pixel / 8;
    lemma_ramp_position(group, 0, len);
    lemma_ramp_position(group, 1, len);
    lemma_ramp_position(group, 2, len);
    let first = (3 * group + 0) % len;
    let second = (3 * group + 1) % len;
    let last = (3 * group + 2) % len;
    assert(first % 3 == 0 && second % 3 == 1 && last % 3 == 2);
    assert(cyclic_byte(bytes, 0 + 3 * group) == bytes[first]);
    assert(cyclic_byte(bytes, 0 + 3 * group + 1) == bytes[second]);
    assert(cyclic_byte(bytes, 0 + 3 * group + 2) == bytes[last]);
    if msb_first {
        assert(group_word(bytes, 0, group, msb_first) == 65536 * 0b0000_0101 + 256 * 0b0011_1001
            + 0b0111_0111);
    } else {
        assert(group_word(bytes, 0, group, msb_first) == 0b1000_1000 + 256 * 0b1100_0110 + 65536
            * 0b1111_1010);
    }
}

/// Past the end of the source the stream goes on from its start: the
/// pixels repeat after eight times the source's length, and a start one
/// source length further on gives the same pixels.
pub proof fn lemma_decoding_wraps(bytes: Seq<u8>, start: int, pixel: int, msb_first: bool)
    requires
        bytes.len() > 0,
        0 <= pixel,
    ensures
        decoded_index(bytes, start, pixel + 8 * bytes.len(), msb_first) == decoded_index(
            bytes,
            start,
            pixel,
            msb_first,
        ),
        decoded_index(bytes, start + bytes.len(), pixel, msb_first) == decoded_index(
            bytes,
            start,
            pixel,
            msb_first,
        ),
{
    let len = bytes.len() as int;
    let group = pixel / 8;
    vstd::arithmetic::div_mod::lemma_fundamental_div_mod(pixel, 8);
    vstd::arithmetic::div_mod::lemma_mod_bound(pixel, 8);
    vstd::arithmetic::div_mod::lemma_fundamental_div_mod_converse(
        pixel + 8 * len,
        8,
        group + len,
        pixel % 8,
    );
    lemma_cyclic_turns(bytes, start + 3 * group + 0, 3);
    lemma_cyclic_turns(bytes, start + 3 * group + 1, 3);
    lemma_cyclic_turns(bytes, start + 3 * group + 2, 3);
    lemma_cyclic_turns(bytes, start + 3 * group + 0, 1);
    lemma_cyclic_turns(bytes, start + 3 * group + 1, 1);
    lemma_cyclic_turns(bytes, start + 3 * group + 2, 1);
    assert(start + 3 * (group + len) + 0 == start + 3 * group + 0 + 3 * len);
    assert(start + 3 * (group + len) + 1 == start + 3 * group + 1 + 3 * len);
    assert(start + 3 * (group + len) + 2 == start + 3 * group + 2 + 3 * len);
    assert(start + len + 3 * group + 0 == start + 3 * group + 0 + 1 * len);
    assert(start + len + 3 * group + 1 == start + 3 * group + 1 + 1 * len);
    assert(start + len + 3 * group + 2 == start + 3 * group + 2 + 1 * len);
}

/// What a buffer holds after decoding depends on the bytes, the start and
/// the buffer's length alone, not on what it held before; so decoding a
/// second time changes nothing.
pub proof fn lemma_decoding_is_determined(
    bytes: Seq<u8>,
    first: Seq<u32>,
    second: Seq<u32>,
    start: int,
    msb_first: bool,
)
    requires
        first.len() == second.len(),
        start < first.len(),
    ensures
        rendered(bytes, first, start, msb_first) == rendered(bytes, second, start, msb_first),
        rendered(bytes, rendered(bytes, first, start, msb_first), start, msb_first) == rendered(
            bytes,
            first,
            start,
            msb_first,
        ),
{
}

/// Two to the power `place`, for places below eight.
pub open spec fn two_to(place: int) -> int {
    if place <= 0 {
        1
    } else if place == 1 {
        2
    } else if place == 2 {
        4
    } else if place == 3 {
        8
    } else if place == 4 {
        16
    } else if place == 5 {
        32
    } else if place == 6 {
        64
    } else {
        128
    }
}

/// The bit at `position` of the stream that starts at byte `start`,
/// counting eight bits to the byte: each byte's bits from the lowest up,
/// or from the highest down where `msb_first`.
pub open spec fn stream_bit(bytes: Seq<u8>, start: int, position: int, msb_first: bool) -> int {
    let byte = cyclic_byte(bytes, start + position / 8);
    if msb_first {
        (byte / two_to(7 - position % 8)) % 2
    } else {
        (byte / two_to(position % 8)) % 2
    }
}

proof fn lemma_digits_are_bits_lsb(word: u32, first: u32, second: u32, third: u32)
    by (bit_vector)
    requires
        first <= 255,
        second <= 255,
        third <= 255,
        word == first | (second << 8) | (third << 16),
    ensures
        (word / 1) % 8 == ((first >> 0) & 1) | (((first >> 1) & 1) << 1) | (((first >> 2) & 1) << 2),
        (word / 8) % 8 == ((first >> 3) & 1) | (((first >> 4) & 1) << 1) | (((first >> 5) & 1) << 2),
        (word / 64) % 8 == ((first >> 6) & 1) | (((first >> 7) & 1) << 1) | (((second >> 0) & 1) << 2),
        (word / 512) % 8 == ((second >> 1) & 1) | (((second >> 2) & 1) << 1) | (((second >> 3) & 1) << 2),
        (word / 4096) % 8 == ((second >> 4) & 1) | (((second >> 5) & 1) << 1) | (((second >> 6) & 1) << 2),
        (word / 32768) % 8 == ((second >> 7) & 1) | (((third >> 0) & 1) << 1) | (((third >> 1) & 1) << 2),
        (word / 262144) % 8 == ((third >> 2) & 1) | (((third >> 3) & 1) << 1) | (((third >> 4) & 1) << 2),
        (word / 2097152) % 8 == ((third >> 5) & 1) | (((third >> 6) & 1) << 1) | (((third >> 7) & 1) << 2),
{
}

proof fn lemma_digits_are_bits_msb(word: u32, first: u32, second: u32, third: u32)
    by (bit_vector)
    requires
        first <= 255,
        second <= 255,
        third <= 255,
        word == third | (second << 8) | (first << 16),
    ensures
        (word / 2097152) % 8 == ((first >> 5) & 1) | (((first >> 6) & 1) << 1) | (((first >> 7) & 1) << 2),
        (word / 262144) % 8 == ((first >> 2) & 1) | (((first >> 3) & 1) << 1) | (((first >> 4) & 1) << 2),
        (word / 32768) % 8 == ((second >> 7) & 1) | (((first >> 0) & 1) << 1) | (((first >> 1) & 1) << 2),
        (word / 4096) % 8 == ((second >> 4) & 1) | (((second >> 5) & 1) << 1) | (((second >> 6) & 1) << 2),
        (word / 512) % 8 == ((second >> 1) & 1) | (((second >> 2) & 1) << 1) | (((second >> 3) & 1) << 2),
        (word / 64) % 8 == ((third >> 6) & 1) | (((third >> 7) & 1) << 1) | (((second >> 0) & 1) << 2),
        (word / 8) % 8 == ((third >> 3) & 1) | (((third >> 4) & 1) << 1) | (((third >> 5) & 1) << 2),
        (word / 1) % 8 == ((third >> 0) & 1) | (((third >> 1) & 1) << 1) | (((third >> 2) & 1) << 2),
{
}

proof fn lemma_bit_of_byte(byte: u32)
    by (bit_vector)
    requires
        byte <= 255,
    ensures
        (byte >> 0) & 1 == (byte / 1) % 2,
        (byte >> 1) & 1 == (byte / 2) % 2,
        (byte >> 2) & 1 == (byte / 4) % 2,
        (byte >> 3) & 1 == (byte / 8) % 2,
        (byte >> 4) & 1 == (byte / 16) % 2,
        (byte >> 5) & 1 == (byte / 32) % 2,
        (byte >> 6) & 1 == (byte / 64) % 2,
        (byte >> 7) & 1 == (byte / 128) % 2,
{
}

proof fn lemma_three_bits(low: u32, middle: u32, high: u32)
    by (bit_vector)
    requires
        low <= 1,
        middle <= 1,
        high <= 1,
    ensures
        low | (middle << 1) | (high << 2) == low + 2 * middle + 4 * high,
{
}

/// The bit at `position` of three bytes in a row, counted as in a
/// stream.
pub open spec fn bit_of_three(
    first: int,
    second: int,
    third: int,
    position: int,
    msb_first: bool,
) -> int {
    let byte = if position / 8 == 0 {
        first
    } else if position / 8 == 1 {
        second
    } else {
        third
    };
    if msb_first {
        (byte / two_to(7 - position % 8)) % 2
    } else {
        (byte / two_to(position % 8)) % 2
    }
}

proof fn lemma_digit_is_three_bits_lsb(first: u32, second: u32, third: u32, place: int)
    requires
        first <= 255,
        second <= 255,
        third <= 255,
        0 <= place < 8,
    ensures
        octal_digit(first + 256 * second + 65536 * third, place) == bit_of_three(
            first as int,
            second as int,
            third as int,
            3 * place,
            false,
        ) + 2 * bit_of_three(first as int, second as int, third as int, 3 * place + 1, false) + 4
            * bit_of_three(first as int, second as int, third as int, 3 * place + 2, false),
{
    lemma_bit_of_byte(first);
    lemma_bit_of_byte(second);
    lemma_bit_of_byte(third);
    let word = first | (second << 8) | (third << 16);
    lemma_word_of_bytes(first, second, third);
    lemma_digits_are_bits_lsb(word, first, second, third);
    if place == 0 {
        assert(bit_of_three(first as int, second as int, third as int, 0, false) == (first >> 0) & 1);
        assert(bit_of_three(first as int, second as int, third as int, 1, false) == (first >> 1) & 1);
        assert(bit_of_three(first as int, second as int, third as int, 2, false) == (first >> 2) & 1);
        lemma_three_bits(((first >> 0) & 1), ((first >> 1) & 1), ((first >> 2) & 1));
        assert(octal_digit(word as int, 0) == (word / 1) % 8);
    } else if place == 1 {
        assert(bit_of_three(first as int, second as int, third as int, 3, false) == (first >> 3) & 1);
        assert(bit_of_three(first as int, second as int, third as int, 4, false) == (first >> 4) & 1);
        assert(bit_of_three(first as int, second as int, third as int, 5, false) == (first >> 5) & 1);
        lemma_three_bits(((first >> 3) & 1), ((first >> 4) & 1), ((first >> 5) & 1));
        assert(octal_digit(word as int, 1) == (word / 8) % 8);
    } else if place == 2 {
        assert(bit_of_three(first as int, second as int, third as int, 6, false) == (first >> 6) & 1);
        assert(bit_of_three(first as int, second as int, third as int, 7, false) == (first >> 7) & 1);
        assert(bit_of_three(first as int, second as int, third as int, 8, false) == (second >> 0) & 1);
        lemma_three_bits(((first >> 6) & 1), ((first >> 7) & 1), ((second >> 0) & 1));
        assert(octal_digit(word as int, 2) == (word / 64) % 8);
    } else if place == 3 {
        assert(bit_of_three(first as int, second as int, third as int, 9, false) == (second >> 1) & 1);
        assert(bit_of_three(first as int, second as int, third as int, 10, false) == (second >> 2) & 1);
        assert(bit_of_three(first as int, second as int, third as int, 11, false) == (second >> 3) & 1);
        lemma_three_bits(((second >> 1) & 1), ((second >> 2) & 1), ((second >> 3) & 1));
        assert(octal_digit(word as int, 3) == (word / 512) % 8);
    } else if place == 4 {
        assert(bit_of_three(first as int, second as int, third as int, 12, false) == (second >> 4) & 1);
        assert(bit_of_three(first as int, second as int, third as int, 13, false) == (second >> 5) & 1);
        assert(bit_of_three(first as int, second as int, third as int, 14, false) == (second >> 6) & 1);
        lemma_three_bits(((second >> 4) & 1), ((second >> 5) & 1), ((second >> 6) & 1));
        assert(octal_digit(word as int, 4) == (word / 4096) % 8);
    } else if place == 5 {
        assert(bit_of_three(first as int, second as int, third as int, 15, false) == (second >> 7) & 1);
        assert(bit_of_three(first as int, second as int, third as int, 16, false) == (third >> 0) & 1);
        assert(bit_of_three(first as int, second as int, third as int, 17, false) == (third >> 1) & 1);
        lemma_three_bits(((second >> 7) & 1), ((third >> 0) & 1), ((third >> 1) & 1));
        assert(octal_digit(word as int, 5) == (word / 32768) % 8);
    } else if place == 6 {
        assert(bit_of_three(first as int, second as int, third as int, 18, false) == (third >> 2) & 1);
        assert(bit_of_three(first as int, second as int, third as int, 19, false) == (third >> 3) & 1);
        assert(bit_of_three(first as int, second as int, third as int, 20, false) == (third >> 4) & 1);
        lemma_three_bits(((third >> 2) & 1), ((third >> 3) & 1), ((third >> 4) & 1));
        assert(octal_digit(word as int, 6) == (word / 262144) % 8);
    } else {
        assert(bit_of_three(first as int, second as int, third as int, 21, false) == (third >> 5) & 1);
        assert(bit_of_three(first as int, second as int, third as int, 22, false) == (third >> 6) & 1);
        assert(bit_of_three(first as int, second as int, third as int, 23, false) == (third >> 7) & 1);
        lemma_three_bits(((third >> 5) & 1), ((third >> 6) & 1), ((third >> 7) & 1));
        assert(octal_digit(word as int, 7) == (word / 2097152) % 8);
    }
}

proof fn lemma_digit_is_three_bits_msb(first: u32, second: u32, third: u32, place: int)
    requires
        first <= 255,
        second <= 255,
        third <= 255,
        0 <= place < 8,
    ensures
        octal_digit(65536 * first + 256 * second + third, 7 - place) == 4 * bit_of_three(
            first as int,
            second as int,
            third as int,
            3 * place,
            true,
        ) + 2 * bit_of_three(first as int, second as int, third as int, 3 * place + 1, true)
            + bit_of_three(first as int, second as int, third as int, 3 * place + 2, true),
{
    lemma_bit_of_byte(first);
    lemma_bit_of_byte(second);
    lemma_bit_of_byte(third);
    let word = third | (second << 8) | (first << 16);
    lemma_word_of_bytes(third, second, first);
    lemma_digits_are_bits_msb(word, first, second, third);
    if place == 0 {
        assert(bit_of_three(first as int, second as int, third as int, 0, true) == (first >> 7) & 1);
        assert(bit_of_three(first as int, second as int, third as int, 1, true) == (first >> 6) & 1);
        assert(bit_of_three(first as int, second as int, third as int, 2, true) == (first >> 5) & 1);
        lemma_three_bits(((first >> 5) & 1), ((first >> 6) & 1), ((first >> 7) & 1));
        assert(octal_digit(word as int, 7) == (word / 2097152) % 8);
    } else if place == 1 {
        assert(bit_of_three(first as int, second as int, third as int, 3, true) == (first >> 4) & 1);
        assert(bit_of_three(first as int, second as int, third as int, 4, true) == (first >> 3) & 1);
        assert(bit_of_three(first as int, second as int, third as int, 5, true) == (first >> 2) & 1);
        lemma_three_bits(((first >> 2) & 1), ((first >> 3) & 1), ((first >> 4) & 1));
        assert(octal_digit(word as int, 6) == (word / 262144) % 8);
    } else if place == 2 {
        assert(bit_of_three(first as int, second as int, third as int, 6, true) == (first >> 1) & 1);
        assert(bit_of_three(first as int, second as int, third as int, 7, true) == (first >> 0) & 1);
        assert(bit_of_three(first as int, second as int, third as int, 8, true) == (second >> 7) & 1);
        lemma_three_bits(((second >> 7) & 1), ((first >> 0) & 1), ((first >> 1) & 1));
        assert(octal_digit(word as int, 5) == (word / 32768) % 8);
    } else if place == 3 {
        assert(bit_of_three(first as int, second as int, third as int, 9, true) == (second >> 6) & 1);
        assert(bit_of_three(first as int, second as int, third as int, 10, true) == (second >> 5) & 1);
        assert(bit_of_three(first as int, second as int, third as int, 11, true) == (second >> 4) & 1);
        lemma_three_bits(((second >> 4) & 1), ((second >> 5) & 1), ((second >> 6) & 1));
        assert(octal_digit(word as int, 4) == (word / 4096) % 8);
    } else if place == 4 {
        assert(bit_of_three(first as int, second as int, third as int, 12, true) == (second >> 3) & 1);
        assert(bit_of_three(first as int, second as int, third as int, 13, true) == (second >> 2) & 1);
        assert(bit_of_three(first as int, second as int, third as int, 14, true) == (second >> 1) & 1);
        lemma_three_bits(((second >> 1) & 1), ((second >> 2) & 1), ((second >> 3) & 1));
        assert(octal_digit(word as int, 3) == (word / 512) % 8);
    } else if place == 5 {
        assert(bit_of_three(first as int, second as int, third as int, 15, true) == (second >> 0) & 1);
        assert(bit_of_three(first as int, second as int, third as int, 16, true) == (third >> 7) & 1);
        assert(bit_of_three(first as int, second as int, third as int, 17, true) == (third >> 6) & 1);
        lemma_three_bits(((third >> 6) & 1), ((third >> 7) & 1), ((second >> 0) & 1));
        assert(octal_digit(word as int, 2) == (word / 64) % 8);
    } else if place == 6 {
        assert(bit_of_three(first as int, second as int, third as int, 18, true) == (third >> 5) & 1);
        assert(bit_of_three(first as int, second as int, third as int, 19, true) == (third >> 4) & 1);
        assert(bit_of_three(first as int, second as int, third as int, 20, true) == (third >> 3) & 1);
        lemma_three_bits(((third >> 3) & 1), ((third >> 4) & 1), ((third >> 5) & 1));
        assert(octal_digit(word as int, 1) == (word / 8) % 8);
    } else {
        assert(bit_of_three(first as int, second as int, third as int, 21, true) == (third >> 2) & 1);
        assert(bit_of_three(first as int, second as int, third as int, 22, true) == (third >> 1) & 1);
        assert(bit_of_three(first as int, second as int, third as int, 23, true) == (third >> 0) & 1);
        lemma_three_bits(((third >> 0) & 1), ((third >> 1) & 1), ((third >> 2) & 1));
        assert(octal_digit(word as int, 0) == (word / 1) % 8);
    }
}

proof fn lemma_bit_of_group(bytes: Seq<u8>, start: int, pixel: int, offset: int, msb_first: bool)
    requires
        0 <= pixel,
        0 <= offset < 3,
    ensures
        stream_bit(bytes, start, 3 * pixel + offset, msb_first) == bit_of_three(
            cyclic_byte(bytes, start + 3 * (pixel / 8)),
            cyclic_byte(bytes, start + 3 * (pixel / 8) + 1),
            cyclic_byte(bytes, start + 3 * (pixel / 8) + 2),
            3 * (pixel % 8) + offset,
            msb_first,
        ),
{
    let group = pixel / 8;
    let place = pixel % 8;
    let within = 3 * place + offset;
    assert(3 * pixel + offset == 24 * group + within);
    assert((3 * pixel + offset) / 8 == 3 * group + within / 8);
    assert((3 * pixel + offset) % 8 == within % 8);
}

/// Three bits to the pixel: pixel number `pixel` is made of the three
/// bits of the stream from position `3 * pixel` on. The first of them is
/// the pixel's lowest bit, or its highest where `msb_first`; so a pixel
/// may take its bits from two bytes.
pub proof fn lemma_pixel_is_three_bits(bytes: Seq<u8>, start: int, pixel: int, msb_first: bool)
    requires
        bytes.len() > 0,
        0 <= pixel,
    ensures
        decoded_index(bytes, start, pixel, msb_first) == if msb_first {
            4 * stream_bit(bytes, start, 3 * pixel, true) + 2 * stream_bit(
                bytes,
                start,
                3 * pixel + 1,
                true,
            ) + stream_bit(bytes, start, 3 * pixel + 2, true)
        } else {
            stream_bit(bytes, start, 3 * pixel, false) + 2 * stream_bit(
                bytes,
                start,
                3 * pixel + 1,
                false,
            ) + 4 * stream_bit(bytes, start, 3 * pixel + 2, false)
        },
{
    let group = pixel / 8;
    let first = cyclic_byte(bytes, start + 3 * group) as u32;
    let second = cyclic_byte(bytes, start + 3 * group + 1) as u32;
    let third = cyclic_byte(bytes, start + 3 * group + 2) as u32;
    lemma_bit_of_group(bytes, start, pixel, 0, msb_first);
    lemma_bit_of_group(bytes, start, pixel, 1, msb_first);
    lemma_bit_of_group(bytes, start, pixel, 2, msb_first);
    if msb_first {
        lemma_digit_is_three_bits_msb(first, second, third, pixel % 8);
    } else {
        lemma_digit_is_three_bits_lsb(first, second, third, pixel % 8);
    }
}

} // verus!
