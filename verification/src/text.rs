//! Text, drawn glyph by glyph out of a font sheet that the caller holds.

use crate::colour::{palette_colour, PALETTE};
use crate::framebuffer::{Dimensions, FramebufferInternal};
use crate::layout::{get_char_xy, FONT_ADVANCE, FONT_SIZE};
use crate::sprite::{blitted, is_font_sheet, sheet_holds};
use vstd::prelude::*;

verus! {

/// The palette colour that a text colour stands for: the colour's lowest
/// four bits are its palette index.
pub open spec fn ink_of(colour: u8) -> u32 {
    palette_colour(colour as int % 16)
}

/// Whether a text colour picks one of the palette's colours.
pub open spec fn is_ink(colour: u8) -> bool {
    colour as int % 16 < 8
}

/// `a + b`, or 255 where the sum is larger.
pub open spec fn plus_up_to_255(a: int, b: int) -> int {
    if a + b > 255 {
        255
    } else {
        a + b
    }
}

/// The buffer with a block of the font sheet drawn in `colour`: every
/// cell but those that hold zero gives its pixel that colour.
pub open spec fn glyph_block(
    buffer: Seq<u32>,
    screen_width: int,
    screen_height: int,
    font: Seq<u8>,
    from_x: int,
    from_y: int,
    width: int,
    height: int,
    x: int,
    y: int,
    colour: u8,
) -> Seq<u32> {
    blitted(
        buffer,
        screen_width,
        screen_height,
        font,
        from_x,
        from_y,
        width,
        height,
        x,
        y,
        false,
        0,
        Some(ink_of(colour)),
    )
}

/// The buffer with the glyph of `character` drawn with its top left at
/// `(x, y)`.
pub open spec fn glyph_put(
    buffer: Seq<u32>,
    screen_width: int,
    screen_height: int,
    font: Seq<u8>,
    character: u8,
    x: int,
    y: int,
    colour: u8,
) -> Seq<u32> {
    glyph_block(
        buffer,
        screen_width,
        screen_height,
        font,
        (character as int % 16) * 8,
        (character as int / 16) * 8,
        8,
        8,
        x,
        y,
        colour,
    )
}

/// The buffer with the glyphs of `bytes` from position `from` on drawn in
/// a line, the first at `(x, y)`, each next one four columns further
/// right, and none further right than column 255.
pub open spec fn line_printed(
    buffer: Seq<u32>,
    screen_width: int,
    screen_height: int,
    font: Seq<u8>,
    bytes: Seq<u8>,
    from: int,
    x: int,
    y: int,
    colour: u8,
) -> Seq<u32>
    decreases bytes.len() - from,
{
    if from < 0 || from >= bytes.len() {
        buffer
    } else {
        line_printed(
            glyph_put(buffer, screen_width, screen_height, font, bytes[from], x, y, colour),
            screen_width,
            screen_height,
            font,
            bytes,
            from + 1,
            plus_up_to_255(x, 4),
            y,
            colour,
        )
    }
}

/// The buffer with the lines from position `from` on drawn one below the
/// other, the first at `(x, y)`, each next one eight rows further down,
/// and none further down than row 255.
pub open spec fn lines_printed(
    buffer: Seq<u32>,
    screen_width: int,
    screen_height: int,
    font: Seq<u8>,
    lines: Seq<&[u8]>,
    from: int,
    x: int,
    y: int,
    colour: u8,
) -> Seq<u32>
    decreases lines.len() - from,
{
    if from < 0 || from >= lines.len() {
        buffer
    } else {
        lines_printed(
            line_printed(buffer, screen_width, screen_height, font, lines[from]@, 0, x, y, colour),
            screen_width,
            screen_height,
            font,
            lines,
            from + 1,
            x,
            plus_up_to_255(y, 8),
            colour,
        )
    }
}

/// The digits of `number` in base ten, as characters, the most
/// significant first.
pub open spec fn decimal_digits(number: nat) -> Seq<u8>
    decreases number,
{
    if number < 10 {
        seq![(48 + number) as u8]
    } else {
        decimal_digits(number / 10).push((48 + number % 10) as u8)
    }
}

/// The digits of `number` in base ten, as characters.
pub fn digits_of(number: usize) -> (digits: Vec<u8>)
    ensures
        digits@ == decimal_digits(number as nat),
{
    let mut reversed: Vec<u8> = Vec::new();
    let mut rest: usize = number;
    while rest >= 10
        invariant
            decimal_digits(number as nat) == decimal_digits(rest as nat) + reversed@.reverse(),
        decreases rest,
    {
        let digit: u8 = 48 + (rest % 10) as u8;
        proof {
            let shorter = decimal_digits((rest / 10) as nat);
            assert(decimal_digits(rest as nat) == shorter.push(digit));
            assert(reversed@.push(digit).reverse() =~= seq![digit] + reversed@.reverse());
            assert(shorter + (seq![digit] + reversed@.reverse()) =~= shorter.push(digit)
                + reversed@.reverse());
        }
        reversed.push(digit);
        rest = rest / 10;
    }
    let mut digits: Vec<u8> = Vec::new();
    digits.push(48 + rest as u8);
    let mut i: usize = reversed.len();
    while i > 0
        invariant
            i <= reversed@.len(),
            digits@ == decimal_digits(rest as nat) + reversed@.reverse().subrange(
                0,
                reversed@.len() - i,
            ),
        decreases i,
    {
        i -= 1;
        digits.push(reversed[i]);
        proof {
            let turned = reversed@.reverse();
            assert(turned.subrange(0, reversed@.len() - i) =~= turned.subrange(
                0,
                reversed@.len() - i - 1,
            ).push(reversed@[i as int]));
            assert(digits@ =~= decimal_digits(rest as nat) + turned.subrange(
                0,
                reversed@.len() - i,
            ));
        }
    }
    proof {
        assert(reversed@.reverse().subrange(0, reversed@.len() as int) =~= reversed@.reverse());
    }
    digits
}

fn ink(colour: u8) -> (r: u32)
    requires
        is_ink(colour),
    ensures
        r == ink_of(colour),
{
    assert(colour & 15 == colour % 16) by (bit_vector);
    PALETTE[(colour & 15) as usize]
}

fn advanced(position: u8, by: u8) -> (r: u8)
    ensures
        r == plus_up_to_255(position as int, by as int),
{
    if position as u16 + by as u16 > 255 {
        255
    } else {
        position + by
    }
}

impl<D: Dimensions> FramebufferInternal<D> {
    /// Draws a block of the font sheet in the palette colour that
    /// `colour` stands for, leaving out the cells that hold zero. Pixels
    /// that the buffer lacks are passed over.
    pub fn print_char_raw(
        &mut self,
        font: &[u8],
        sprite_x: u8,
        sprite_y: u8,
        sprite_w: u8,
        sprite_h: u8,
        display_x: u8,
        display_y: u8,
        colour: u8,
    )
        requires
            sheet_holds(font@, sprite_x as int, sprite_y as int, sprite_w as int, sprite_h as int),
            is_ink(colour),
        ensures
            final(self)@.len() == old(self)@.len(),
            final(self)@ == glyph_block(
                old(self)@,
                Self::width(),
                Self::height(),
                font@,
                sprite_x as int,
                sprite_y as int,
                sprite_w as int,
                sprite_h as int,
                display_x as int,
                display_y as int,
                colour,
            ),
    {
        let shade: u32 = ink(colour);
        self.blit(
            font,
            sprite_x,
            sprite_y,
            sprite_w,
            sprite_h,
            display_x,
            display_y,
            false,
            0,
            Some(shade),
        );
    }

    /// Draws the glyph of `character` with its top left at `(x, y)`.
    pub fn print_char(&mut self, font: &[u8], character: u8, x: u8, y: u8, colour: u8)
        requires
            is_font_sheet(font@),
            is_ink(colour),
        ensures
            final(self)@.len() == old(self)@.len(),
            final(self)@ == glyph_put(
                old(self)@,
                Self::width(),
                Self::height(),
                font@,
                character,
                x as int,
                y as int,
                colour,
            ),
    {
        let (sprite_x, sprite_y) = get_char_xy(character);
        self.print_char_raw(font, sprite_x, sprite_y, FONT_SIZE, FONT_SIZE, x, y, colour);
    }

    /// Draws the glyphs of `bytes` in a line that starts at `(x, y)`.
    pub fn print_line(&mut self, font: &[u8], bytes: &[u8], x: u8, y: u8, colour: u8)
        requires
            is_font_sheet(font@),
            is_ink(colour),
        ensures
            final(self)@.len() == old(self)@.len(),
            final(self)@ == line_printed(
                old(self)@,
                Self::width(),
                Self::height(),
                font@,
                bytes@,
                0,
                x as int,
                y as int,
                colour,
            ),
    {
        let ghost before = self@;
        let len: usize = bytes.len();
        let mut at: u8 = x;
        let mut i: usize = 0;
        while i < len
            invariant
                self@.len() == before.len(),
                len == bytes@.len(),
                i <= len,
                is_font_sheet(font@),
                is_ink(colour),
                line_printed(
                    self@,
                    Self::width(),
                    Self::height(),
                    font@,
                    bytes@,
                    i as int,
                    at as int,
                    y as int,
                    colour,
                ) == line_printed(
                    before,
                    Self::width(),
                    Self::height(),
                    font@,
                    bytes@,
                    0,
                    x as int,
                    y as int,
                    colour,
                ),
            decreases len - i,
        {
            self.print_char(font, bytes[i], at, y, colour);
            at = advanced(at, FONT_ADVANCE);
            i += 1;
        }
    }

    /// Draws the glyphs of `bytes` in a line that starts at `(x, y)`.
    pub fn print_line_raw(&mut self, font: &[u8], bytes: &[u8], x: u8, y: u8, colour: u8)
        requires
            is_font_sheet(font@),
            is_ink(colour),
        ensures
            final(self)@.len() == old(self)@.len(),
            final(self)@ == line_printed(
                old(self)@,
                Self::width(),
                Self::height(),
                font@,
                bytes@,
                0,
                x as int,
                y as int,
                colour,
            ),
    {
        self.print_line(font, bytes, x, y, colour);
    }

    /// Draws `number` in base ten, in a line that starts at `(x, y)`.
    pub fn print_single_line_number(
        &mut self,
        font: &[u8],
        number: usize,
        x: u8,
        y: u8,
        colour: u8,
    )
        requires
            is_font_sheet(font@),
            is_ink(colour),
        ensures
            final(self)@.len() == old(self)@.len(),
            final(self)@ == line_printed(
                old(self)@,
                Self::width(),
                Self::height(),
                font@,
                decimal_digits(number as nat),
                0,
                x as int,
                y as int,
                colour,
            ),
    {
        let digits: Vec<u8> = digits_of(number);
        self.print_line_raw(font, digits.as_slice(), x, y, colour);
    }

    /// Draws the lines one below the other, the first at `(x, y)`.
    pub fn print(&mut self, font: &[u8], lines: &[&[u8]], x: u8, y: u8, colour: u8)
        requires
            is_font_sheet(font@),
            is_ink(colour),
        ensures
            final(self)@.len() == old(self)@.len(),
            final(self)@ == lines_printed(
                old(self)@,
                Self::width(),
                Self::height(),
                font@,
                lines@,
                0,
                x as int,
                y as int,
                colour,
            ),
    {
        let ghost before = self@;
        let len: usize = lines.len();
        let mut at: u8 = y;
        let mut i: usize = 0;
        while i < len
            invariant
                self@.len() == before.len(),
                len == lines@.len(),
                i <= len,
                is_font_sheet(font@),
                is_ink(colour),
                lines_printed(
                    self@,
                    Self::width(),
                    Self::height(),
                    font@,
                    lines@,
                    i as int,
                    x as int,
                    at as int,
                    colour,
                ) == lines_printed(
                    before,
                    Self::width(),
                    Self::height(),
                    font@,
                    lines@,
                    0,
                    x as int,
                    y as int,
                    colour,
                ),
            decreases len - i,
        {
            self.print_line(font, lines[i], x, at, colour);
            at = advanced(at, FONT_SIZE);
            i += 1;
        }
    }
}

} // verus!
