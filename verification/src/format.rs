//! The formatter: renders a color into any of the six literal notations.
//! Hexadecimal output is uppercase with no `#` prefix; the alpha byte of
//! the `hexa` notation is rounded to the nearest integer, not truncated.

use vstd::prelude::*;

use crate::color::alpha_to_byte;
use crate::color::alpha_to_byte_exec;
use crate::color::color_value_wf;
use crate::color::ColorValue;
use crate::parse::Color;

verus! {

/// One of the six output notations; a parsed literal's own notation is the
/// variant of `Color` that produced it.
#[derive(Clone, Copy, Debug, PartialEq, Eq, Structural)]
pub enum ColorModel {
    Hsl,
    Hsla,
    Rgb,
    Rgba,
    Hex,
    Hexa,
}

/// The notation a parsed literal came from, which is its default output
/// notation.
pub open spec fn spec_model(c: Color) -> ColorModel {
    match c {
        Color::Hsl(_) => ColorModel::Hsl,
        Color::Hsla(_) => ColorModel::Hsla,
        Color::Rgb(_) => ColorModel::Rgb,
        Color::Rgba(_) => ColorModel::Rgba,
        Color::Hex(_) => ColorModel::Hex,
        Color::Hexa(_) => ColorModel::Hexa,
    }
}

impl Color {
    /// The notation this literal was written in.
    pub fn model(&self) -> (out: ColorModel)
        ensures
            out == spec_model(*self),
    {
        match self {
            Color::Hsl(_) => ColorModel::Hsl,
            Color::Hsla(_) => ColorModel::Hsla,
            Color::Rgb(_) => ColorModel::Rgb,
            Color::Rgba(_) => ColorModel::Rgba,
            Color::Hex(_) => ColorModel::Hex,
            Color::Hexa(_) => ColorModel::Hexa,
        }
    }
}

/// The order in which the parser tries the six grammars: the first full
/// match wins, so an earlier notation shadows a later one on any string
/// both could match.
pub fn notation_priority() -> (out: Vec<ColorModel>)
    ensures
        out@ =~= seq![
            ColorModel::Hsla,
            ColorModel::Hsl,
            ColorModel::Rgba,
            ColorModel::Rgb,
            ColorModel::Hexa,
            ColorModel::Hex,
        ],
{
    let mut out: Vec<ColorModel> = Vec::new();
    out.push(ColorModel::Hsla);
    out.push(ColorModel::Hsl);
    out.push(ColorModel::Rgba);
    out.push(ColorModel::Rgb);
    out.push(ColorModel::Hexa);
    out.push(ColorModel::Hex);
    out
}

/// The character of one decimal digit.
pub open spec fn digit_char(d: int) -> char {
    if d == 0 {
        '0'
    } else if d == 1 {
        '1'
    } else if d == 2 {
        '2'
    } else if d == 3 {
        '3'
    } else if d == 4 {
        '4'
    } else if d == 5 {
        '5'
    } else if d == 6 {
        '6'
    } else if d == 7 {
        '7'
    } else if d == 8 {
        '8'
    } else {
        '9'
    }
}

/// The uppercase character of one hexadecimal digit.
pub open spec fn hex_char(d: int) -> char {
    if d < 10 {
        digit_char(d)
    } else if d == 10 {
        'A'
    } else if d == 11 {
        'B'
    } else if d == 12 {
        'C'
    } else if d == 13 {
        'D'
    } else if d == 14 {
        'E'
    } else {
        'F'
    }
}

/// The decimal digits of a nonnegative integer, no leading zeros.
pub open spec fn dec_chars(n: int) -> Seq<char>
    decreases n,
{
    if n < 10 {
        seq![digit_char(n)]
    } else {
        dec_chars(n / 10) + seq![digit_char(n % 10)]
    }
}

/// The decimal digits of a signed integer, with a leading minus sign for
/// a negative value.
pub open spec fn sdec_chars(n: int) -> Seq<char> {
    if n < 0 {
        seq!['-'] + dec_chars(-n)
    } else {
        dec_chars(n)
    }
}

/// Two uppercase hexadecimal digits of a byte.
pub open spec fn hex_pair_chars(b: int) -> Seq<char> {
    seq![hex_char(b / 16), hex_char(b % 16)]
}

/// The text of an alpha in thousandths: `0` and `1` at the extremes, else
/// `0.` followed by up to three digits, trailing zeros trimmed.
pub open spec fn alpha_chars(a: int) -> Seq<char> {
    if a == 1000 {
        seq!['1']
    } else if a == 0 {
        seq!['0']
    } else if a % 10 != 0 {
        seq!['0', '.', digit_char(a / 100), digit_char((a / 10) % 10), digit_char(a % 10)]
    } else if a % 100 != 0 {
        seq!['0', '.', digit_char(a / 100), digit_char((a / 10) % 10)]
    } else {
        seq!['0', '.', digit_char(a / 100)]
    }
}

/// The text that `color` produces for each notation: the HSL-family
/// notations print the HSL view, the RGB-family and hexadecimal
/// notations the RGB view, so a literal re-rendered in its own notation
/// keeps its exact channels; notations without alpha drop it.
pub open spec fn spec_format(cv: ColorValue, m: ColorModel) -> Seq<char> {
    let c = cv.hsla;
    let rgb = cv.rgba;
    match m {
        ColorModel::Hsl => "hsl("@ + sdec_chars(c.h as int) + ", "@ + dec_chars(c.s as int)
            + "%, "@ + dec_chars(c.l as int) + "%)"@,
        ColorModel::Hsla => "hsla("@ + sdec_chars(c.h as int) + ", "@ + dec_chars(c.s as int)
            + "%, "@ + dec_chars(c.l as int) + "%, "@ + alpha_chars(c.a as int) + ")"@,
        ColorModel::Rgb => "rgb("@ + dec_chars(rgb.r as int) + ", "@ + dec_chars(rgb.g as int)
            + ", "@ + dec_chars(rgb.b as int) + ")"@,
        ColorModel::Rgba => "rgba("@ + dec_chars(rgb.r as int) + ", "@ + dec_chars(rgb.g as int)
            + ", "@ + dec_chars(rgb.b as int) + ", "@ + alpha_chars(rgb.a as int) + ")"@,
        ColorModel::Hex => hex_pair_chars(rgb.r as int) + hex_pair_chars(rgb.g as int)
            + hex_pair_chars(rgb.b as int),
        ColorModel::Hexa => hex_pair_chars(rgb.r as int) + hex_pair_chars(rgb.g as int)
            + hex_pair_chars(rgb.b as int) + hex_pair_chars(alpha_to_byte(rgb.a as int)),
    }
}

/// One decimal digit as text.
fn digit_str(d: u8) -> (out: &'static str)
    requires
        d < 10,
    ensures
        out@ =~= seq![digit_char(d as int)],
{
    proof {
        reveal_strlit("0");
        reveal_strlit("1");
        reveal_strlit("2");
        reveal_strlit("3");
        reveal_strlit("4");
        reveal_strlit("5");
        reveal_strlit("6");
        reveal_strlit("7");
        reveal_strlit("8");
        reveal_strlit("9");
    }
    match d {
        0 => "0",
        1 => "1",
        2 => "2",
        3 => "3",
        4 => "4",
        5 => "5",
        6 => "6",
        7 => "7",
        8 => "8",
        _ => "9",
    }
}

/// One uppercase hexadecimal digit as text.
fn hex_digit_str(d: u8) -> (out: &'static str)
    requires
        d < 16,
    ensures
        out@ =~= seq![hex_char(d as int)],
{
    proof {
        reveal_strlit("A");
        reveal_strlit("B");
        reveal_strlit("C");
        reveal_strlit("D");
        reveal_strlit("E");
        reveal_strlit("F");
    }
    if d < 10 {
        digit_str(d)
    } else {
        match d {
            10 => "A",
            11 => "B",
            12 => "C",
            13 => "D",
            14 => "E",
            _ => "F",
        }
    }
}

/// Appends the decimal digits of `n`.
fn push_dec(out: &mut String, n: u32)
    ensures
        final(out)@ == old(out)@ + dec_chars(n as int),
    decreases n,
{
    if n < 10 {
        out.append(digit_str(n as u8));
    } else {
        push_dec(out, n / 10);
        out.append(digit_str((n % 10) as u8));
        proof {
            assert(final(out)@ =~= old(out)@ + dec_chars(n as int));
        }
    }
}

/// Appends the decimal digits of `n` with a sign for negative values.
fn push_sdec(out: &mut String, n: i32)
    ensures
        final(out)@ == old(out)@ + sdec_chars(n as int),
{
    if n < 0 {
        out.append("-");
        let mag: u32 = (-(n as i64)) as u32;
        push_dec(out, mag);
        proof {
            reveal_strlit("-");
            assert(("-")@ =~= seq!['-']);
            assert(final(out)@ =~= old(out)@ + sdec_chars(n as int));
        }
    } else {
        push_dec(out, n as u32);
    }
}

/// Appends the two uppercase hexadecimal digits of a byte.
fn push_hex_pair(out: &mut String, b: u8)
    ensures
        final(out)@ == old(out)@ + hex_pair_chars(b as int),
{
    out.append(hex_digit_str(b / 16));
    out.append(hex_digit_str(b % 16));
    proof {
        assert(final(out)@ =~= old(out)@ + hex_pair_chars(b as int));
    }
}

/// Appends the text of an alpha in thousandths.
fn push_alpha(out: &mut String, a: u16)
    requires
        a <= 1000,
    ensures
        final(out)@ == old(out)@ + alpha_chars(a as int),
{
    if a == 1000 {
        out.append("1");
        proof {
            reveal_strlit("1");
            assert(final(out)@ =~= old(out)@ + alpha_chars(a as int));
        }
    } else if a == 0 {
        out.append("0");
        proof {
            reveal_strlit("0");
            assert(final(out)@ =~= old(out)@ + alpha_chars(a as int));
        }
    } else {
        out.append("0.");
        out.append(digit_str((a / 100) as u8));
        if a % 10 != 0 {
            out.append(digit_str(((a / 10) % 10) as u8));
            out.append(digit_str((a % 10) as u8));
        } else if a % 100 != 0 {
            out.append(digit_str(((a / 10) % 10) as u8));
        }
        proof {
            reveal_strlit("0.");
            assert(("0.")@ =~= seq!['0', '.']);
            assert(final(out)@ =~= old(out)@ + alpha_chars(a as int));
        }
    }
}

/// Renders a color into the requested notation; a total function that
/// yields the literal text.
pub fn color(cv: ColorValue, model: ColorModel) -> (out: String)
    requires
        color_value_wf(cv),
    ensures
        out@ == spec_format(cv, model),
{
    let mut out = String::new();
    match model {
        ColorModel::Hsl => {
            out.append("hsl(");
            push_sdec(&mut out, cv.hsla.h);
            out.append(", ");
            push_dec(&mut out, cv.hsla.s as u32);
            out.append("%, ");
            push_dec(&mut out, cv.hsla.l as u32);
            out.append("%)");
            proof {
                assert(out@ =~= spec_format(cv, model));
            }
        },
        ColorModel::Hsla => {
            out.append("hsla(");
            push_sdec(&mut out, cv.hsla.h);
            out.append(", ");
            push_dec(&mut out, cv.hsla.s as u32);
            out.append("%, ");
            push_dec(&mut out, cv.hsla.l as u32);
            out.append("%, ");
            push_alpha(&mut out, cv.hsla.a);
            out.append(")");
            proof {
                assert(out@ =~= spec_format(cv, model));
            }
        },
        ColorModel::Rgb => {
            out.append("rgb(");
            push_dec(&mut out, cv.rgba.r as u32);
            out.append(", ");
            push_dec(&mut out, cv.rgba.g as u32);
            out.append(", ");
            push_dec(&mut out, cv.rgba.b as u32);
            out.append(")");
            proof {
                assert(out@ =~= spec_format(cv, model));
            }
        },
        ColorModel::Rgba => {
            out.append("rgba(");
            push_dec(&mut out, cv.rgba.r as u32);
            out.append(", ");
            push_dec(&mut out, cv.rgba.g as u32);
            out.append(", ");
            push_dec(&mut out, cv.rgba.b as u32);
            out.append(", ");
            push_alpha(&mut out, cv.rgba.a);
            out.append(")");
            proof {
                assert(out@ =~= spec_format(cv, model));
            }
        },
        ColorModel::Hex => {
            push_hex_pair(&mut out, cv.rgba.r);
            push_hex_pair(&mut out, cv.rgba.g);
            push_hex_pair(&mut out, cv.rgba.b);
            proof {
                assert(out@ =~= spec_format(cv, model));
            }
        },
        ColorModel::Hexa => {
            push_hex_pair(&mut out, cv.rgba.r);
            push_hex_pair(&mut out, cv.rgba.g);
            push_hex_pair(&mut out, cv.rgba.b);
            push_hex_pair(&mut out, alpha_to_byte_exec(cv.rgba.a));
            proof {
                assert(out@ =~= spec_format(cv, model));
            }
        },
    }
    out
}

} // verus!
