use vstd::prelude::*;

use crate::color::CellColor;
use crate::color::ColorMode;
use crate::color::spec_quantize_256;
use crate::color::quantize_256;
use crate::framebuffer::FrameBuffer;

verus! {

/// The decimal digit character for a value 0-9.
pub open spec fn spec_digit(d: int) -> char {
    if d == 0 {
        '0'
    } else if d == 1 {
        '1'
    } else if d == 2 {
        '2'
    } else if d == 3 {
        '3'
    } else if d == 4 {
        '4'
    } else if d == 5 {
        '5'
    } else if d == 6 {
        '6'
    } else if d == 7 {
        '7'
    } else if d == 8 {
        '8'
    } else {
        '9'
    }
}

/// Decimal digits of a byte value, without leading zeros.
pub open spec fn spec_dec(n: int) -> Seq<char> {
    if n < 10 {
        seq![spec_digit(n)]
    } else if n < 100 {
        seq![spec_digit(n / 10), spec_digit(n % 10)]
    } else {
        seq![spec_digit(n / 100), spec_digit(n / 10 % 10), spec_digit(n % 10)]
    }
}

/// The escape that arms a cell's color, if any: named colors use their SGR
/// code, RGB cells use a 24-bit escape in truecolor mode and a quantized
/// palette escape in 256-color mode, and monochrome mode never emits one.
pub open spec fn spec_color_prefix(c: CellColor, mode: ColorMode) -> Seq<char> {
    if mode is Mono {
        Seq::empty()
    } else {
        match c {
            CellColor::Blank => Seq::empty(),
            CellColor::Named(n) => seq!['\u{1b}', '['] + spec_dec(n as int) + seq!['m'],
            CellColor::Rgb(r, g, b) => {
                if mode is TrueColor {
                    seq!['\u{1b}', '[', '3', '8', ';', '2', ';'] + spec_dec(r as int) + seq![';']
                        + spec_dec(g as int) + seq![';'] + spec_dec(b as int) + seq!['m']
                } else {
                    seq!['\u{1b}', '[', '3', '8', ';', '5', ';'] + spec_dec(
                        spec_quantize_256(r as int, g as int, b as int),
                    ) + seq!['m']
                }
            },
        }
    }
}

/// The reset that follows a colored glyph.
pub open spec fn spec_color_suffix(c: CellColor, mode: ColorMode) -> Seq<char> {
    if mode is Mono || c is Blank {
        Seq::empty()
    } else {
        seq!['\u{1b}', '[', '0', 'm']
    }
}

/// What one cell contributes to the frame: a bare space for empty cells,
/// otherwise color escape, glyph, reset.
pub open spec fn spec_cell_chars(g: char, c: CellColor, mode: ColorMode) -> Seq<char> {
    if g == ' ' {
        seq![' ']
    } else {
        spec_color_prefix(c, mode) + seq![g] + spec_color_suffix(c, mode)
    }
}

/// The first `upto` cells serialized row-major, a newline closing each row.
pub open spec fn spec_cells_chars(
    glyphs: Seq<char>,
    colors: Seq<CellColor>,
    w: int,
    mode: ColorMode,
    upto: int,
) -> Seq<char>
    decreases upto,
{
    if upto <= 0 {
        Seq::empty()
    } else {
        spec_cells_chars(glyphs, colors, w, mode, upto - 1) + spec_cell_chars(
            glyphs[upto - 1],
            colors[upto - 1],
            mode,
        ) + if upto % w == 0 {
            seq!['\n']
        } else {
            Seq::empty()
        }
    }
}

/// A whole frame: cursor home, every cell row-major with newlines, and a
/// clear-to-end that erases any longer content drawn before.
pub open spec fn spec_frame_chars(fb: FrameBuffer, mode: ColorMode) -> Seq<char> {
    seq!['\u{1b}', '[', 'H'] + spec_cells_chars(
        fb.glyphs@,
        fb.colors@,
        fb.width as int,
        mode,
        fb.glyphs@.len() as int,
    ) + seq!['\u{1b}', '[', 'J']
}

/// Appends the decimal digits of a byte.
pub(crate) fn push_dec(out: &mut Vec<char>, n: u8)
    ensures
        final(out)@ == old(out)@ + spec_dec(n as int),
{
    let ghost pre = out@;
    if n >= 100 {
        out.push(digit_char(n / 100));
        out.push(digit_char(n / 10 % 10));
        out.push(digit_char(n % 10));
        proof {
            assert(out@ =~= pre + spec_dec(n as int));
        }
    } else if n >= 10 {
        out.push(digit_char(n / 10));
        out.push(digit_char(n % 10));
        proof {
            assert(out@ =~= pre + spec_dec(n as int));
        }
    } else {
        out.push(digit_char(n));
        proof {
            assert(out@ =~= pre + spec_dec(n as int));
        }
    }
}

/// The character for one decimal digit.
fn digit_char(d: u8) -> (c: char)
    requires
        d <= 9,
    ensures
        c == spec_digit(d as int),
{
    match d {
        0 => '0',
        1 => '1',
        2 => '2',
        3 => '3',
        4 => '4',
        5 => '5',
        6 => '6',
        7 => '7',
        8 => '8',
        _ => '9',
    }
}

/// Appends one cell's serialization.
fn push_cell(out: &mut Vec<char>, g: char, c: CellColor, mode: ColorMode)
    ensures
        final(out)@ == old(out)@ + spec_cell_chars(g, c, mode),
{
    let ghost pre = out@;
    if g == ' ' {
        out.push(' ');
        proof {
            assert(out@ =~= pre + spec_cell_chars(g, c, mode));
        }
        return ;
    }
    if matches!(mode, ColorMode::Mono) || matches!(c, CellColor::Blank) {
        out.push(g);
        proof {
            assert(spec_color_prefix(c, mode) =~= Seq::<char>::empty());
            assert(spec_color_suffix(c, mode) =~= Seq::<char>::empty());
            assert(out@ =~= pre + spec_cell_chars(g, c, mode));
        }
        return ;
    }
    match c {
        CellColor::Blank => {},
        CellColor::Named(n) => {
            out.push('\u{1b}');
            out.push('[');
            push_dec(out, n);
            out.push('m');
        },
        CellColor::Rgb(r, g2, b) => {
            if matches!(mode, ColorMode::TrueColor) {
                out.push('\u{1b}');
                out.push('[');
                out.push('3');
                out.push('8');
                out.push(';');
                out.push('2');
                out.push(';');
                push_dec(out, r);
                out.push(';');
                push_dec(out, g2);
                out.push(';');
                push_dec(out, b);
                out.push('m');
            } else {
                let q = quantize_256(r, g2, b);
                out.push('\u{1b}');
                out.push('[');
                out.push('3');
                out.push('8');
                out.push(';');
                out.push('5');
                out.push(';');
                push_dec(out, q);
                out.push('m');
            }
        },
    }
    proof {
        assert(out@ =~= pre + spec_color_prefix(c, mode));
    }
    out.push(g);
    out.push('\u{1b}');
    out.push('[');
    out.push('0');
    out.push('m');
    proof {
        assert(out@ =~= pre + spec_cell_chars(g, c, mode));
    }
}

/// Serializes a composed frame to one escape-sequence string, as a
/// sequence of characters: cursor home, then every cell row-major in the
/// requested color mode with a newline after each row, then clear-to-end.
pub fn render_frame(fb: &FrameBuffer, mode: ColorMode) -> (out: Vec<char>)
    requires
        fb.wf(),
        fb.width >= 1,
    ensures
        out@ == spec_frame_chars(*fb, mode),
{
    let mut out: Vec<char> = Vec::new();
    out.push('\u{1b}');
    out.push('[');
    out.push('H');
    let ghost header = out@;
    proof {
        assert(header =~= seq!['\u{1b}', '[', 'H']);
    }
    let total: usize = fb.glyphs.len();
    let mut i: usize = 0;
    while i < total
        invariant
            i <= total,
            fb.wf(),
            fb.width >= 1,
            total == fb.glyphs@.len(),
            header =~= seq!['\u{1b}', '[', 'H'],
            out@ == header + spec_cells_chars(
                fb.glyphs@,
                fb.colors@,
                fb.width as int,
                mode,
                i as int,
            ),
        decreases total - i,
    {
        push_cell(&mut out, fb.glyphs[i], fb.colors[i], mode);
        if (i + 1) % fb.width == 0 {
            out.push('\n');
            proof {
                assert(out@ =~= header + spec_cells_chars(
                    fb.glyphs@,
                    fb.colors@,
                    fb.width as int,
                    mode,
                    i + 1,
                ));
            }
        } else {
            proof {
                assert(out@ =~= header + spec_cells_chars(
                    fb.glyphs@,
                    fb.colors@,
                    fb.width as int,
                    mode,
                    i + 1,
                ));
            }
        }
        i = i + 1;
    }
    out.push('\u{1b}');
    out.push('[');
    out.push('J');
    proof {
        assert(out@ =~= spec_frame_chars(*fb, mode));
    }
    out
}

} // verus!
