//! The color data model: exact integer channels for hue, saturation,
//! lightness, red, green, blue, and alpha, together with the color algebra
//! (lighten, darken, fade, mix) and the HSL/RGB conversions.
//!
//! Saturation and lightness are integer percentages in `[0, 100]`; red,
//! green and blue are bytes; hue is a signed integer number of degrees,
//! unranged (consumers take it modulo 360); alpha is an integer number of
//! thousandths in `[0, 1000]`, so `500` stands for an opacity of one half.
//! Every quotient is rounded to the nearest integer, halves away from zero.

use vstd::prelude::*;

verus! {

/// Hue, saturation and lightness; fully opaque.
#[derive(Clone, Copy, Debug, PartialEq, Eq, Structural)]
pub struct Hsl {
    pub h: i32,
    pub s: u8,
    pub l: u8,
}

/// Hue, saturation, lightness and alpha in thousandths.
#[derive(Clone, Copy, Debug, PartialEq, Eq, Structural)]
pub struct Hsla {
    pub h: i32,
    pub s: u8,
    pub l: u8,
    pub a: u16,
}

/// Red, green and blue bytes; fully opaque.
#[derive(Clone, Copy, Debug, PartialEq, Eq, Structural)]
pub struct Rgb {
    pub r: u8,
    pub g: u8,
    pub b: u8,
}

/// Red, green and blue bytes and alpha in thousandths.
#[derive(Clone, Copy, Debug, PartialEq, Eq, Structural)]
pub struct Rgba {
    pub r: u8,
    pub g: u8,
    pub b: u8,
    pub a: u16,
}

pub open spec fn hsl_wf(c: Hsl) -> bool {
    c.s <= 100 && c.l <= 100
}

pub open spec fn hsla_wf(c: Hsla) -> bool {
    c.s <= 100 && c.l <= 100 && c.a <= 1000
}

pub open spec fn rgba_wf(c: Rgba) -> bool {
    c.a <= 1000
}

/// The quotient `n / d` rounded to the nearest integer, halves rounded up,
/// for a nonnegative numerator and a positive denominator.
pub open spec fn round_div(n: int, d: int) -> int {
    (2 * n + d) / (2 * d)
}

/// A ratio argument in thousandths, clamped into `[0, 1000]`; ratios out of
/// range are clamped, never rejected.
pub open spec fn clamp_ratio(r: int) -> int {
    if r < 0 {
        0
    } else if r > 1000 {
        1000
    } else {
        r
    }
}

/// Linear interpolation from `a` (ratio 0) to `b` (ratio 1000 thousandths),
/// rounded to the nearest integer, halves away from `a`.
pub open spec fn lerp(a: int, b: int, m: int) -> int {
    if b >= a {
        a + round_div(m * (b - a), 1000)
    } else {
        a - round_div(m * (a - b), 1000)
    }
}

pub proof fn lemma_round_div_le(m: int, d: int)
    requires
        0 <= m <= 1000,
        0 <= d,
    ensures
        0 <= m * d <= 1000 * d,
        0 <= round_div(m * d, 1000) <= d,
        m == 1000 ==> round_div(m * d, 1000) == d,
        m == 0 ==> round_div(m * d, 1000) == 0,
{
    assert(m * d <= 1000 * d && 0 <= m * d) by (nonlinear_arith)
        requires
            0 <= m <= 1000,
            0 <= d,
    ;
    assert(0 <= (2 * (m * d) + 1000) / 2000 <= d) by (nonlinear_arith)
        requires
            0 <= m * d <= 1000 * d,
            0 <= d,
    ;
    assert((2 * (1000 * d) + 1000) / 2000 == d) by (nonlinear_arith)
        requires
            0 <= d,
    ;
}

/// Clamps a caller-supplied ratio in thousandths into `[0, 1000]`.
pub fn clamp_ratio_exec(r: i32) -> (out: u16)
    ensures
        out as int == clamp_ratio(r as int),
{
    if r < 0 {
        0
    } else if r > 1000 {
        1000
    } else {
        r as u16
    }
}

/// Interpolates one channel; the endpoints may be any values that fit in
/// 33 bits, which covers every channel this crate uses.
fn lerp_exec(a: i64, b: i64, m: u16) -> (out: i64)
    requires
        m <= 1000,
        -0x1_0000_0000 <= a <= 0x1_0000_0000,
        -0x1_0000_0000 <= b <= 0x1_0000_0000,
    ensures
        out == lerp(a as int, b as int, m as int),
        b >= a ==> a <= out <= b,
        b < a ==> b <= out <= a,
{
    if b >= a {
        let d: i64 = b - a;
        proof {
            lemma_round_div_le(m as int, d as int);
        }
        let prod: i64 = (m as i64) * d;
        a + (2 * prod + 1000) / 2000
    } else {
        let d: i64 = a - b;
        proof {
            lemma_round_div_le(m as int, d as int);
        }
        let prod: i64 = (m as i64) * d;
        a - (2 * prod + 1000) / 2000
    }
}

/// Lightness moves toward 100 by the ratio of the remaining headroom.
pub open spec fn spec_lighten(c: Hsla, r: int) -> Hsla {
    let m = clamp_ratio(r);
    Hsla { h: c.h, s: c.s, l: (c.l + round_div(m * (100 - c.l), 1000)) as u8, a: c.a }
}

/// Lightness moves toward 0 by the ratio of its current value.
pub open spec fn spec_darken(c: Hsla, r: int) -> Hsla {
    let m = clamp_ratio(r);
    Hsla { h: c.h, s: c.s, l: (c.l - round_div(m * c.l, 1000)) as u8, a: c.a }
}

/// Alpha moves toward 1000 by the ratio of the remaining headroom, the same
/// rule that `spec_lighten` applies to lightness.
pub open spec fn spec_fade(c: Hsla, r: int) -> Hsla {
    let m = clamp_ratio(r);
    Hsla { h: c.h, s: c.s, l: c.l, a: (c.a + round_div(m * (1000 - c.a), 1000)) as u16 }
}

/// Every channel of the HSL+alpha form is interpolated linearly; hue blends
/// as a plain numeric value, with no shortest-arc wraparound.
pub open spec fn spec_mix(c: Hsla, o: Hsla, r: int) -> Hsla {
    let m = clamp_ratio(r);
    Hsla {
        h: lerp(c.h as int, o.h as int, m) as i32,
        s: lerp(c.s as int, o.s as int, m) as u8,
        l: lerp(c.l as int, o.l as int, m) as u8,
        a: lerp(c.a as int, o.a as int, m) as u16,
    }
}

impl Hsla {
    pub fn lighten(&self, r: i32) -> (out: Hsla)
        requires
            hsla_wf(*self),
        ensures
            out == spec_lighten(*self, r as int),
            hsla_wf(out),
    {
        let m: u16 = clamp_ratio_exec(r);
        let head: u32 = 100 - self.l as u32;
        proof {
            lemma_round_div_le(m as int, head as int);
        }
        let prod: u32 = (m as u32) * head;
        let grow: u32 = (2 * prod + 1000) / 2000;
        Hsla { h: self.h, s: self.s, l: self.l + grow as u8, a: self.a }
    }

    pub fn darken(&self, r: i32) -> (out: Hsla)
        requires
            hsla_wf(*self),
        ensures
            out == spec_darken(*self, r as int),
            hsla_wf(out),
    {
        let m: u16 = clamp_ratio_exec(r);
        proof {
            lemma_round_div_le(m as int, self.l as int);
        }
        let prod: u32 = (m as u32) * (self.l as u32);
        let cut: u32 = (2 * prod + 1000) / 2000;
        Hsla { h: self.h, s: self.s, l: self.l - cut as u8, a: self.a }
    }

    pub fn fade(&self, r: i32) -> (out: Hsla)
        requires
            hsla_wf(*self),
        ensures
            out == spec_fade(*self, r as int),
            hsla_wf(out),
    {
        let m: u16 = clamp_ratio_exec(r);
        let head: u32 = 1000 - self.a as u32;
        proof {
            lemma_round_div_le(m as int, head as int);
        }
        let prod: u32 = (m as u32) * head;
        let grow: u32 = (2 * prod + 1000) / 2000;
        Hsla { h: self.h, s: self.s, l: self.l, a: self.a + grow as u16 }
    }

    pub fn mix(&self, other: &Hsla, r: i32) -> (out: Hsla)
        requires
            hsla_wf(*self),
            hsla_wf(*other),
        ensures
            out == spec_mix(*self, *other, r as int),
            hsla_wf(out),
    {
        let m: u16 = clamp_ratio_exec(r);
        let h: i64 = lerp_exec(self.h as i64, other.h as i64, m);
        let s: i64 = lerp_exec(self.s as i64, other.s as i64, m);
        let l: i64 = lerp_exec(self.l as i64, other.l as i64, m);
        let a: i64 = lerp_exec(self.a as i64, other.a as i64, m);
        Hsla { h: h as i32, s: s as u8, l: l as u8, a: a as u16 }
    }
}


/// The magnitude of an integer.
pub open spec fn abs_int(x: int) -> int {
    if x < 0 {
        -x
    } else {
        x
    }
}

/// A hue brought into `[0, 360)`.
pub open spec fn hue_norm(h: int) -> int {
    ((h % 360) + 360) % 360
}

/// The signed hue offset `60 * num / d` rounded to the nearest integer,
/// halves away from zero.
pub open spec fn hue_offset(num: int, d: int) -> int {
    if num >= 0 {
        round_div(60 * num, d)
    } else {
        -round_div(60 * (-num), d)
    }
}

/// The standard RGB-to-HSL conversion, every channel rounded to the
/// nearest integer: lightness and saturation become percentages, hue a
/// degree in `[0, 360)`; a gray (all channels equal) has hue 0 and
/// saturation 0.
pub open spec fn spec_rgb_to_hsl(c: Rgb) -> Hsl {
    let mx = if c.r >= c.g && c.r >= c.b {
        c.r as int
    } else if c.g >= c.b {
        c.g as int
    } else {
        c.b as int
    };
    let mn = if c.r <= c.g && c.r <= c.b {
        c.r as int
    } else if c.g <= c.b {
        c.g as int
    } else {
        c.b as int
    };
    let sum = mx + mn;
    let d = mx - mn;
    let l = round_div(sum * 100, 510);
    let s = if d == 0 {
        0
    } else {
        round_div(d * 100, 255 - abs_int(sum - 255))
    };
    let h = if d == 0 {
        0
    } else {
        let off = if mx == c.r as int {
            hue_offset(c.g as int - c.b as int, d)
        } else if mx == c.g as int {
            120 + hue_offset(c.b as int - c.r as int, d)
        } else {
            240 + hue_offset(c.r as int - c.g as int, d)
        };
        if off < 0 {
            off + 360
        } else {
            off
        }
    };
    Hsl { h: h as i32, s: s as u8, l: l as u8 }
}

/// One RGB channel from the standard HSL-to-RGB conversion. `v12` is the
/// channel value scaled by 1,200,000; the result is the byte nearest to
/// `255 * v12 / 1200000`.
pub open spec fn chan_byte(v12: int) -> int {
    round_div(255 * v12, 1200000)
}

/// The chroma of an HSL color, scaled by 10,000.
pub open spec fn chroma_num(s: int, l: int) -> int {
    (100 - abs_int(2 * l - 100)) * s
}

/// The standard HSL-to-RGB conversion over integer channels, each output
/// byte rounded to the nearest integer.
pub open spec fn spec_hsl_to_rgb(c: Hsl) -> Rgb {
    let hh = hue_norm(c.h as int);
    let cn = chroma_num(c.s as int, c.l as int);
    let xf = 60 - abs_int(hh % 120 - 60);
    let m12 = 12000 * c.l - 60 * cn;
    let c12 = m12 + 120 * cn;
    let x12 = m12 + 2 * cn * xf;
    let sector = hh / 60;
    let (r12, g12, b12): (int, int, int) = if sector == 0 {
        (c12, x12, m12)
    } else if sector == 1 {
        (x12, c12, m12)
    } else if sector == 2 {
        (m12, c12, x12)
    } else if sector == 3 {
        (m12, x12, c12)
    } else if sector == 4 {
        (x12, m12, c12)
    } else {
        (c12, m12, x12)
    };
    Rgb { r: chan_byte(r12) as u8, g: chan_byte(g12) as u8, b: chan_byte(b12) as u8 }
}

/// Bounds of the scaled channel values of `spec_hsl_to_rgb`, enough to show
/// that every output channel is a byte.
proof fn lemma_hsl_to_rgb_bounds(s: int, l: int, xf: int)
    requires
        0 <= s <= 100,
        0 <= l <= 100,
        0 <= xf <= 60,
    ensures
        0 <= chroma_num(s, l) <= 10000,
        0 <= 12000 * l - 60 * chroma_num(s, l),
        12000 * l + 60 * chroma_num(s, l) <= 1200000,
        0 <= 2 * chroma_num(s, l) * xf <= 120 * chroma_num(s, l),
{
    let w = 100 - abs_int(2 * l - 100);
    assert(0 <= w <= 100);
    assert(0 <= w * s <= 10000) by (nonlinear_arith)
        requires
            0 <= w <= 100,
            0 <= s <= 100,
    ;
    assert(w * s <= 200 * l) by (nonlinear_arith)
        requires
            0 <= s <= 100,
            0 <= l <= 100,
            w == 100 - abs_int(2 * l - 100),
    ;
    assert(200 * l + w * s <= 20000) by (nonlinear_arith)
        requires
            0 <= s <= 100,
            0 <= l <= 100,
            w == 100 - abs_int(2 * l - 100),
    ;
    assert(0 <= 2 * (w * s) * xf <= 120 * (w * s)) by (nonlinear_arith)
        requires
            0 <= xf <= 60,
            0 <= w * s,
    ;
}

/// `round_div(n, d) <= q` whenever `n <= q * d`, for a positive divisor.
pub proof fn lemma_round_div_bound(n: int, d: int, q: int)
    requires
        0 <= n,
        1 <= d,
        0 <= q,
        n <= q * d,
    ensures
        0 <= round_div(n, d) <= q,
{
    assert(0 <= (2 * n + d) / (2 * d) <= q) by (nonlinear_arith)
        requires
            0 <= n,
            1 <= d,
            0 <= q,
            n <= q * d,
    ;
}

impl Rgb {
    /// The HSL projection of an RGB color.
    pub fn to_hsl(&self) -> (out: Hsl)
        ensures
            out == spec_rgb_to_hsl(*self),
            hsl_wf(out),
    {
        let mx: u32 = if self.r >= self.g && self.r >= self.b {
            self.r as u32
        } else if self.g >= self.b {
            self.g as u32
        } else {
            self.b as u32
        };
        let mn: u32 = if self.r <= self.g && self.r <= self.b {
            self.r as u32
        } else if self.g <= self.b {
            self.g as u32
        } else {
            self.b as u32
        };
        let sum: u32 = mx + mn;
        let d: u32 = mx - mn;
        let l: u32 = (2 * (sum * 100) + 510) / 1020;
        let s: u32 = if d == 0 {
            0
        } else {
            let denom: u32 = if sum > 255 {
                510 - sum
            } else {
                sum
            };
            proof {
                lemma_round_div_bound(d as int * 100, denom as int, 100);
            }
            (2 * (d * 100) + denom) / (2 * denom)
        };
        let h: i32 = if d == 0 {
            0
        } else {
            let off: i32 = if mx == self.r as u32 {
                hue_offset_exec(self.g as i32 - self.b as i32, d)
            } else if mx == self.g as u32 {
                120 + hue_offset_exec(self.b as i32 - self.r as i32, d)
            } else {
                240 + hue_offset_exec(self.r as i32 - self.g as i32, d)
            };
            if off < 0 {
                off + 360
            } else {
                off
            }
        };
        Hsl { h, s: s as u8, l: l as u8 }
    }
}

/// The signed rounded hue offset `60 * num / d`; `num` is a difference of
/// two bytes and `d` bounds its magnitude.
fn hue_offset_exec(num: i32, d: u32) -> (out: i32)
    requires
        1 <= d <= 255,
        -(d as int) <= num as int <= d as int,
    ensures
        out as int == hue_offset(num as int, d as int),
        -60 <= out <= 60,
{
    if num >= 0 {
        proof {
            lemma_round_div_bound(60 * num as int, d as int, 60);
        }
        ((2 * (60 * (num as u32)) + d) / (2 * d)) as i32
    } else {
        let mag: u32 = (-num) as u32;
        proof {
            lemma_round_div_bound(60 * mag as int, d as int, 60);
        }
        -(((2 * (60 * mag) + d) / (2 * d)) as i32)
    }
}

/// One output channel of the HSL-to-RGB conversion.
fn chan_byte_exec(v12: u32) -> (out: u8)
    requires
        v12 <= 1200000,
    ensures
        out as int == chan_byte(v12 as int),
{
    ((2 * (255 * (v12 as u64)) + 1200000) / 2400000) as u8
}

impl Hsl {
    /// The RGB projection of an HSL color.
    pub fn to_rgb(&self) -> (out: Rgb)
        requires
            hsl_wf(*self),
        ensures
            out == spec_hsl_to_rgb(*self),
    {
        let r360: i32 = self.h % 360;
        let hh: i32 = if r360 < 0 {
            r360 + 360
        } else {
            r360
        };
        assert(hh as int == hue_norm(self.h as int));
        let hp: i32 = hh % 120;
        let dev: i32 = if hp >= 60 {
            hp - 60
        } else {
            60 - hp
        };
        let xf: u32 = (60 - dev) as u32;
        assert(xf as int == 60 - abs_int(hue_norm(self.h as int) % 120 - 60));
        let ldev: i32 = if self.l >= 50 {
            2 * (self.l as i32) - 100
        } else {
            100 - 2 * (self.l as i32)
        };
        let w: u32 = (100 - ldev) as u32;
        proof {
            lemma_hsl_to_rgb_bounds(self.s as int, self.l as int, xf as int);
        }
        let cn: u32 = w * (self.s as u32);
        let m12: u32 = 12000 * (self.l as u32) - 60 * cn;
        let c12: u32 = m12 + 120 * cn;
        let x12: u32 = m12 + 2 * cn * xf;
        let sector: i32 = hh / 60;
        let (r12, g12, b12): (u32, u32, u32) = if sector == 0 {
            (c12, x12, m12)
        } else if sector == 1 {
            (x12, c12, m12)
        } else if sector == 2 {
            (m12, c12, x12)
        } else if sector == 3 {
            (m12, x12, c12)
        } else if sector == 4 {
            (x12, m12, c12)
        } else {
            (c12, m12, x12)
        };
        Rgb { r: chan_byte_exec(r12), g: chan_byte_exec(g12), b: chan_byte_exec(b12) }
    }

    /// The fully opaque HSL+alpha form of this color.
    pub fn to_hsla(&self) -> (out: Hsla)
        ensures
            out == (Hsla { h: self.h, s: self.s, l: self.l, a: 1000u16 }),
    {
        Hsla { h: self.h, s: self.s, l: self.l, a: 1000 }
    }
}

/// Alpha in thousandths from an alpha byte, rounded to the nearest
/// thousandth.
pub open spec fn alpha_from_byte(b: int) -> int {
    round_div(b * 1000, 255)
}

/// The alpha byte nearest to an alpha given in thousandths.
pub open spec fn alpha_to_byte(a: int) -> int {
    round_div(a * 255, 1000)
}

/// Converts an alpha byte to thousandths.
pub fn alpha_from_byte_exec(b: u8) -> (out: u16)
    ensures
        out as int == alpha_from_byte(b as int),
        out <= 1000,
{
    proof {
        lemma_round_div_bound(b as int * 1000, 255, 1000);
    }
    ((2 * ((b as u32) * 1000) + 255) / 510) as u16
}

/// Converts an alpha in thousandths to the nearest alpha byte.
pub fn alpha_to_byte_exec(a: u16) -> (out: u8)
    requires
        a <= 1000,
    ensures
        out as int == alpha_to_byte(a as int),
{
    proof {
        lemma_round_div_bound(a as int * 255, 1000, 255);
    }
    ((2 * ((a as u32) * 255) + 1000) / 2000) as u8
}

impl Hsla {
    /// Drops the alpha channel.
    pub fn to_hsl(&self) -> (out: Hsl)
        ensures
            out == (Hsl { h: self.h, s: self.s, l: self.l }),
    {
        Hsl { h: self.h, s: self.s, l: self.l }
    }

    /// The RGB projection, alpha dropped.
    pub fn to_rgb(&self) -> (out: Rgb)
        requires
            hsla_wf(*self),
        ensures
            out == spec_hsl_to_rgb(Hsl { h: self.h, s: self.s, l: self.l }),
    {
        let hsl = Hsl { h: self.h, s: self.s, l: self.l };
        hsl.to_rgb()
    }

    /// The RGB+alpha projection.
    pub fn to_rgba(&self) -> (out: Rgba)
        requires
            hsla_wf(*self),
        ensures
            ({
                let rgb = spec_hsl_to_rgb(Hsl { h: self.h, s: self.s, l: self.l });
                out == (Rgba { r: rgb.r, g: rgb.g, b: rgb.b, a: self.a })
            }),
            rgba_wf(out),
    {
        let rgb = self.to_rgb();
        Rgba { r: rgb.r, g: rgb.g, b: rgb.b, a: self.a }
    }
}

impl Rgba {
    /// Drops the alpha channel.
    pub fn to_rgb(&self) -> (out: Rgb)
        ensures
            out == (Rgb { r: self.r, g: self.g, b: self.b }),
    {
        Rgb { r: self.r, g: self.g, b: self.b }
    }

    /// The HSL+alpha projection: the RGB channels converted, alpha kept.
    pub fn to_hsla(&self) -> (out: Hsla)
        requires
            rgba_wf(*self),
        ensures
            ({
                let hsl = spec_rgb_to_hsl(Rgb { r: self.r, g: self.g, b: self.b });
                out == (Hsla { h: hsl.h, s: hsl.s, l: hsl.l, a: self.a })
            }),
            hsla_wf(out),
    {
        let hsl = self.to_rgb().to_hsl();
        Hsla { h: hsl.h, s: hsl.s, l: hsl.l, a: self.a }
    }
}

impl Rgb {
    /// The fully opaque HSL+alpha projection.
    pub fn to_hsla(&self) -> (out: Hsla)
        ensures
            ({
                let hsl = spec_rgb_to_hsl(*self);
                out == (Hsla { h: hsl.h, s: hsl.s, l: hsl.l, a: 1000u16 })
            }),
            hsla_wf(out),
    {
        let hsl = self.to_hsl();
        Hsla { h: hsl.h, s: hsl.s, l: hsl.l, a: 1000 }
    }
}



/// Idempotent extreme: lightening a color whose lightness is already 100
/// leaves lightness at 100, whatever the ratio.
pub proof fn lemma_lighten_at_white(c: Hsla, r: int)
    requires
        c.l == 100,
    ensures
        spec_lighten(c, r).l == 100,
{
    let m = clamp_ratio(r);
    assert(m * (100 - c.l) == 0) by (nonlinear_arith)
        requires
            c.l == 100,
    ;
    assert(1000int / 2000int == 0) by (nonlinear_arith);
    assert(1000int / 2000int == 0) by (nonlinear_arith);
    assert(round_div(0, 1000) == 0);
}

/// Idempotent extreme: darkening a color whose lightness is already 0
/// leaves lightness at 0, whatever the ratio.
pub proof fn lemma_darken_at_black(c: Hsla, r: int)
    requires
        c.l == 0,
    ensures
        spec_darken(c, r).l == 0,
{
    let m = clamp_ratio(r);
    assert(m * (c.l as int) == 0) by (nonlinear_arith)
        requires
            c.l == 0,
    ;
    assert(1000int / 2000int == 0) by (nonlinear_arith);
    assert(round_div(0, 1000) == 0);
}



/// The canonical color representation: both the HSL+alpha and the
/// RGB+alpha view of one color. A parsed literal keeps its exact channels
/// in the view its grammar wrote, with the other view derived by the
/// standard conversion; the formatter then reads whichever view the
/// requested notation needs, so a literal re-rendered in its own notation
/// keeps its exact channels.
#[derive(Clone, Copy, Debug, PartialEq, Eq, Structural)]
pub struct ColorValue {
    pub hsla: Hsla,
    pub rgba: Rgba,
}

pub open spec fn color_value_wf(cv: ColorValue) -> bool {
    hsla_wf(cv.hsla) && rgba_wf(cv.rgba) && cv.hsla.a == cv.rgba.a
}

/// The canonical value of an HSL+alpha color: its RGB view is derived.
pub open spec fn spec_value_of_hsla(c: Hsla) -> ColorValue {
    let rgb = spec_hsl_to_rgb(Hsl { h: c.h, s: c.s, l: c.l });
    ColorValue { hsla: c, rgba: Rgba { r: rgb.r, g: rgb.g, b: rgb.b, a: c.a } }
}

/// The canonical value of an RGB+alpha color: its HSL view is derived.
pub open spec fn spec_value_of_rgba(c: Rgba) -> ColorValue {
    let hsl = spec_rgb_to_hsl(Rgb { r: c.r, g: c.g, b: c.b });
    ColorValue { hsla: Hsla { h: hsl.h, s: hsl.s, l: hsl.l, a: c.a }, rgba: c }
}

impl Hsla {
    /// Completes this HSL+alpha color into a canonical value.
    pub fn to_value(&self) -> (out: ColorValue)
        requires
            hsla_wf(*self),
        ensures
            out == spec_value_of_hsla(*self),
            color_value_wf(out),
    {
        ColorValue { hsla: *self, rgba: self.to_rgba() }
    }
}

impl Rgba {
    /// Completes this RGB+alpha color into a canonical value.
    pub fn to_value(&self) -> (out: ColorValue)
        requires
            rgba_wf(*self),
        ensures
            out == spec_value_of_rgba(*self),
            color_value_wf(out),
    {
        ColorValue { hsla: self.to_hsla(), rgba: *self }
    }
}



/// The HSL projection of any RGB color is well formed: saturation and
/// lightness land in `[0, 100]`.
pub proof fn lemma_rgb_to_hsl_wf(c: Rgb)
    ensures
        hsl_wf(spec_rgb_to_hsl(c)),
{
    let mx = if c.r >= c.g && c.r >= c.b {
        c.r as int
    } else if c.g >= c.b {
        c.g as int
    } else {
        c.b as int
    };
    let mn = if c.r <= c.g && c.r <= c.b {
        c.r as int
    } else if c.g <= c.b {
        c.g as int
    } else {
        c.b as int
    };
    let sum = mx + mn;
    let d = mx - mn;
    assert(0 <= round_div(sum * 100, 510) <= 100);
    if d != 0 {
        let denom = 255 - abs_int(sum - 255);
        assert(d <= denom);
        lemma_round_div_bound(d * 100, denom, 100);
    }
}

/// Alpha-byte stability: converting an alpha byte to thousandths and back
/// returns the same byte, so hexadecimal alpha never drifts through the
/// pipeline.
pub proof fn lemma_alpha_byte_roundtrip(b: int)
    requires
        0 <= b <= 255,
    ensures
        alpha_to_byte(alpha_from_byte(b)) == b,
{
    let a = alpha_from_byte(b);
    assert(a == (2000 * b + 255) / 510);
    assert(510 * a <= 2000 * b + 255 < 510 * (a + 1)) by (nonlinear_arith)
        requires
            a == (2000 * b + 255) / 510,
            0 <= b,
    ;
    assert(alpha_to_byte(a) == (510 * a + 1000) / 2000) by {
        assert(2 * (a * 255) + 1000 == 510 * a + 1000);
    }
    assert((510 * a + 1000) / 2000 == b) by (nonlinear_arith)
        requires
            2000 * b - 254 <= 510 * a <= 2000 * b + 255,
            0 <= b,
    ;
}


} // verus!
