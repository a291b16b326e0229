//! Packed 32-bit colours: channel access, the display palette and blending.

use vstd::prelude::*;

verus! {

/// Palette entry 0, and the colour of a new buffer.
pub const BLUE: u32 = 0xFFEE_8533;

/// Palette entry 1.
pub const GREEN: u32 = 0xFF30_B06E;

/// Palette entry 2.
pub const RED: u32 = 0xFF33_52E1;

/// Palette entry 3.
pub const YELLOW: u32 = 0xFF35_D3DE;

/// Palette entry 4.
pub const PURPLE: u32 = 0xFFDE_49A2;

/// Palette entry 5.
pub const GREY: u32 = 0xFF5A_7D8B;

/// Palette entry 6.
pub const WHITE: u32 = 0xFFEE_EEEE;

/// Palette entry 7.
pub const BLACK: u32 = 0xFF22_2222;

/// The display palette; a palette index is a position in it.
pub const PALETTE: [u32; 8] = [BLUE, GREEN, RED, YELLOW, PURPLE, GREY, WHITE, BLACK];

/// The colour that a palette index stands for, for indices below eight.
pub open spec fn palette_colour(index: int) -> u32 {
    if index == 0 {
        BLUE
    } else if index == 1 {
        GREEN
    } else if index == 2 {
        RED
    } else if index == 3 {
        YELLOW
    } else if index == 4 {
        PURPLE
    } else if index == 5 {
        GREY
    } else if index == 6 {
        WHITE
    } else {
        BLACK
    }
}

/// Red channel: bits 0 to 7.
pub open spec fn red_of(colour: u32) -> u32 {
    colour & 0xFF
}

/// Green channel: bits 8 to 15.
pub open spec fn green_of(colour: u32) -> u32 {
    (colour >> 8) & 0xFF
}

/// Blue channel: bits 16 to 23.
pub open spec fn blue_of(colour: u32) -> u32 {
    (colour >> 16) & 0xFF
}

/// Alpha channel: bits 24 to 31.
pub open spec fn alpha_of(colour: u32) -> u32 {
    (colour >> 24) & 0xFF
}

/// The colour with the four given channels, each below 256.
pub open spec fn pack(red: u32, green: u32, blue: u32, alpha: u32) -> u32 {
    red | (green << 8) | (blue << 16) | (alpha << 24)
}

/// `colour` with its alpha channel replaced by `alpha`, which is below 256.
pub open spec fn with_alpha(colour: u32, alpha: u32) -> u32 {
    (colour & 0x00FF_FFFF) | (alpha << 24)
}

/// One channel of a blend: the source weighted by `alpha + 1`, the
/// destination by what is left of 256, the sum divided by 256.
pub open spec fn mix(alpha: int, source: int, destination: int) -> int {
    ((alpha + 1) * source + (256 - (alpha + 1)) * destination) / 256
}

/// The source colour laid over the destination with the source's alpha; the
/// result is opaque.
pub open spec fn blend_colours(source: u32, destination: u32) -> u32 {
    let a = alpha_of(source) as int;
    pack(
        mix(a, red_of(source) as int, red_of(destination) as int) as u32,
        mix(a, green_of(source) as int, green_of(destination) as int) as u32,
        mix(a, blue_of(source) as int, blue_of(destination) as int) as u32,
        0xFF,
    )
}

/// A blended channel lies between its two inputs' bounds.
pub proof fn lemma_mix_in_range(alpha: int, source: int, destination: int)
    requires
        0 <= alpha <= 255,
        0 <= source <= 255,
        0 <= destination <= 255,
    ensures
        0 <= mix(alpha, source, destination) <= 255,
{
    assert((alpha + 1) * source + (256 - (alpha + 1)) * destination <= 256 * 255
        && (alpha + 1) * source + (256 - (alpha + 1)) * destination >= 0) by (nonlinear_arith)
        requires
            0 <= alpha <= 255,
            0 <= source <= 255,
            0 <= destination <= 255,
    ;
}

/// At alpha 255 a blended channel is the source's.
pub proof fn lemma_mix_opaque(source: int, destination: int)
    ensures
        mix(255, source, destination) == source,
{
    assert((255 + 1) * source + (256 - (255 + 1)) * destination == 256 * source)
        by (nonlinear_arith);
}

/// At alpha 0 a blended channel is the destination's where the source's is
/// at least as large, and one less where it is smaller.
pub proof fn lemma_mix_transparent(source: int, destination: int)
    requires
        0 <= source <= 255,
        0 <= destination <= 255,
    ensures
        mix(0, source, destination) == if source >= destination {
            destination
        } else {
            destination - 1
        },
{
    assert((0 + 1) * source + (256 - (0 + 1)) * destination == source + 255 * destination)
        by (nonlinear_arith);
}

fn red(colour: u32) -> (r: u32)
    ensures
        r == red_of(colour),
        r <= 255,
{
    assert(colour & 0xFF <= 255) by (bit_vector);
    colour & 0xFF
}

fn green(colour: u32) -> (r: u32)
    ensures
        r == green_of(colour),
        r <= 255,
{
    assert((colour & 0xFF00) >> 8 == (colour >> 8) & 0xFF) by (bit_vector);
    assert((colour >> 8) & 0xFF <= 255) by (bit_vector);
    (colour & 0xFF_00) >> 8
}

fn blue(colour: u32) -> (r: u32)
    ensures
        r == blue_of(colour),
        r <= 255,
{
    assert((colour & 0xFF0000) >> 16 == (colour >> 16) & 0xFF) by (bit_vector);
    assert((colour >> 16) & 0xFF <= 255) by (bit_vector);
    (colour & 0xFF_00_00) >> 16
}

fn alpha(colour: u32) -> (r: u32)
    ensures
        r == alpha_of(colour),
        r <= 255,
{
    assert((colour & 0xFF000000) >> 24 == (colour >> 24) & 0xFF) by (bit_vector);
    assert((colour >> 24) & 0xFF <= 255) by (bit_vector);
    (colour & 0xFF_00_00_00) >> 24
}

/// Replaces the alpha channel of `colour`.
pub fn set_alpha(colour: u32, alpha: u8) -> (r: u32)
    ensures
        r == with_alpha(colour, alpha as u32),
{
    let a: u32 = alpha as u32;
    (colour & 0x00FF_FFFF) | (a << 24)
}

fn mix_channel(alpha: u32, source: u32, destination: u32) -> (r: u32)
    requires
        alpha <= 255,
        source <= 255,
        destination <= 255,
    ensures
        r == mix(alpha as int, source as int, destination as int),
        r <= 255,
{
    proof {
        lemma_mix_in_range(alpha as int, source as int, destination as int);
        assert((alpha + 1) * source <= 256 * 255) by (nonlinear_arith)
            requires
                alpha <= 255,
                source <= 255,
        ;
        assert((255 - alpha) * destination <= 255 * 255) by (nonlinear_arith)
            requires
                alpha <= 255,
                destination <= 255,
        ;
    }
    let weight: u32 = alpha + 1;
    let rest: u32 = 256 - weight;
    let sum: u32 = weight * source + rest * destination;
    assert(sum >> 8 == sum / 256) by (bit_vector);
    sum >> 8
}

/// Lays `colour` over `background` with the alpha of `colour`.
pub fn blend_over(colour: u32, background: u32) -> (r: u32)
    ensures
        r == blend_colours(colour, background),
{
    let a: u32 = alpha(colour);
    let r: u32 = mix_channel(a, red(colour), red(background));
    let g: u32 = mix_channel(a, green(colour), green(background));
    let b: u32 = mix_channel(a, blue(colour), blue(background));
    r | (g << 8) | (b << 16) | (0xFFu32 << 24)
}

/// A fully opaque source replaces the destination.
pub proof fn lemma_blend_opaque(source: u32, destination: u32)
    requires
        alpha_of(source) == 255,
    ensures
        blend_colours(source, destination) == source,
{
    let r = red_of(source);
    let g = green_of(source);
    let b = blue_of(source);
    assert(r <= 255 && g <= 255 && b <= 255) by (bit_vector)
        requires
            r == source & 0xFF,
            g == (source >> 8) & 0xFF,
            b == (source >> 16) & 0xFF,
    ;
    lemma_mix_opaque(r as int, red_of(destination) as int);
    lemma_mix_opaque(g as int, green_of(destination) as int);
    lemma_mix_opaque(b as int, blue_of(destination) as int);
    assert(pack(r, g, b, 0xFF) == source) by (bit_vector)
        requires
            r == source & 0xFF,
            g == (source >> 8) & 0xFF,
            b == (source >> 16) & 0xFF,
            (source >> 24) & 0xFF == 255,
    ;
}

/// A fully transparent source over an opaque destination leaves it as it
/// was where no source channel is below the destination's.
pub proof fn lemma_blend_transparent(source: u32, destination: u32)
    requires
        alpha_of(source) == 0,
        alpha_of(destination) == 255,
        red_of(source) >= red_of(destination),
        green_of(source) >= green_of(destination),
        blue_of(source) >= blue_of(destination),
    ensures
        blend_colours(source, destination) == destination,
{
    let r = red_of(destination);
    let g = green_of(destination);
    let b = blue_of(destination);
    assert(r <= 255 && g <= 255 && b <= 255 && red_of(source) <= 255 && green_of(source) <= 255
        && blue_of(source) <= 255) by (bit_vector)
        requires
            r == destination & 0xFF,
            g == (destination >> 8) & 0xFF,
            b == (destination >> 16) & 0xFF,
            red_of(source) == source & 0xFF,
            green_of(source) == (source >> 8) & 0xFF,
            blue_of(source) == (source >> 16) & 0xFF,
    ;
    lemma_mix_transparent(red_of(source) as int, r as int);
    lemma_mix_transparent(green_of(source) as int, g as int);
    lemma_mix_transparent(blue_of(source) as int, b as int);
    assert(pack(r, g, b, 0xFF) == destination) by (bit_vector)
        requires
            r == destination & 0xFF,
            g == (destination >> 8) & 0xFF,
            b == (destination >> 16) & 0xFF,
            (destination >> 24) & 0xFF == 255,
    ;
}

/// Whatever is blended, the result is opaque.
pub proof fn lemma_blend_is_opaque(source: u32, destination: u32)
    ensures
        alpha_of(blend_colours(source, destination)) == 255,
{
    let a = alpha_of(source);
    let sr = red_of(source);
    let sg = green_of(source);
    let sb = blue_of(source);
    let dr = red_of(destination);
    let dg = green_of(destination);
    let db = blue_of(destination);
    assert(a <= 255 && sr <= 255 && sg <= 255 && sb <= 255) by (bit_vector)
        requires
            a == (source >> 24) & 0xFF,
            sr == source & 0xFF,
            sg == (source >> 8) & 0xFF,
            sb == (source >> 16) & 0xFF,
    ;
    assert(dr <= 255 && dg <= 255 && db <= 255) by (bit_vector)
        requires
            dr == destination & 0xFF,
            dg == (destination >> 8) & 0xFF,
            db == (destination >> 16) & 0xFF,
    ;
    lemma_mix_in_range(a as int, sr as int, dr as int);
    lemma_mix_in_range(a as int, sg as int, dg as int);
    lemma_mix_in_range(a as int, sb as int, db as int);
    let r = mix(a as int, sr as int, dr as int) as u32;
    let g = mix(a as int, sg as int, dg as int) as u32;
    let b = mix(a as int, sb as int, db as int) as u32;
    assert((pack(r, g, b, 0xFF) >> 24) & 0xFF == 255) by (bit_vector)
        requires
            r <= 255,
            g <= 255,
            b <= 255,
    ;
}

} // verus!
