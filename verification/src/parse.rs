//! The parser for the six color-literal grammars: `hsl(H, S%, L%)`,
//! `hsla(H, S%, L%, A)`, `rgb(R, G, B)`, `rgba(R, G, B, A)`, and bare or
//! `#`-prefixed six- and eight-digit hexadecimal strings.
//!
//! The grammars are tried in a fixed priority order — `hsla`, `hsl`,
//! `rgba`, `rgb`, `hexa`, `hex` — and a grammar matches only if it consumes
//! the whole input: a leftover suffix fails that grammar and the next one
//! is tried. Out-of-range or overflowing numeric components are a parse
//! failure of the grammar at hand, never a panic.

use vstd::prelude::*;

use crate::color::alpha_from_byte;
use crate::color::alpha_from_byte_exec;
use crate::color::color_value_wf;
use crate::color::spec_value_of_hsla;
use crate::color::spec_value_of_rgba;
use crate::color::ColorValue;
use crate::color::spec_hsl_to_rgb;
use crate::color::spec_rgb_to_hsl;
use crate::color::Hsl;
use crate::color::Hsla;
use crate::color::Rgb;
use crate::color::Rgba;
use crate::color::hsl_wf;
use crate::color::hsla_wf;
use crate::color::rgba_wf;

verus! {

pub open spec fn is_digit(c: char) -> bool {
    48 <= c as int && c as int <= 57
}

pub open spec fn digit_val(c: char) -> int {
    c as int - 48
}

pub open spec fn is_ws(c: char) -> bool {
    c == ' ' || c == '\t' || c == '\n' || c == '\r'
}

pub open spec fn is_hex_digit(c: char) -> bool {
    is_digit(c) || (97 <= c as int && c as int <= 102) || (65 <= c as int && c as int <= 70)
}

/// The value of one hexadecimal digit, either case.
pub open spec fn hex_val(c: char) -> int {
    if is_digit(c) {
        c as int - 48
    } else if 97 <= c as int && c as int <= 102 {
        c as int - 87
    } else {
        c as int - 55
    }
}

/// The first position at or after `i` that does not hold a decimal digit.
pub open spec fn scan_digits(s: Seq<char>, i: int) -> int
    decreases s.len() - i,
{
    if 0 <= i < s.len() && is_digit(s[i]) {
        scan_digits(s, i + 1)
    } else {
        i
    }
}

/// The first position at or after `i` that does not hold whitespace.
pub open spec fn skip_ws(s: Seq<char>, i: int) -> int
    decreases s.len() - i,
{
    if 0 <= i < s.len() && is_ws(s[i]) {
        skip_ws(s, i + 1)
    } else {
        i
    }
}

/// The value of the decimal digits `s[i..j)`.
pub open spec fn dec_val(s: Seq<char>, i: int, j: int) -> int
    decreases j - i,
{
    if i < j {
        dec_val(s, i, j - 1) * 10 + digit_val(s[j - 1])
    } else {
        0
    }
}

pub proof fn lemma_scan_digits(s: Seq<char>, i: int)
    requires
        0 <= i <= s.len(),
    ensures
        i <= scan_digits(s, i) <= s.len(),
        forall|k: int| i <= k < scan_digits(s, i) ==> is_digit(s[k]),
        scan_digits(s, i) < s.len() ==> !is_digit(s[scan_digits(s, i)]),
    decreases s.len() - i,
{
    if i < s.len() && is_digit(s[i]) {
        lemma_scan_digits(s, i + 1);
    }
}

pub proof fn lemma_skip_ws(s: Seq<char>, i: int)
    requires
        0 <= i <= s.len(),
    ensures
        i <= skip_ws(s, i) <= s.len(),
        forall|k: int| i <= k < skip_ws(s, i) ==> is_ws(s[k]),
        skip_ws(s, i) < s.len() ==> !is_ws(s[skip_ws(s, i)]),
    decreases s.len() - i,
{
    if i < s.len() && is_ws(s[i]) {
        lemma_skip_ws(s, i + 1);
    }
}

pub proof fn lemma_dec_val_nonneg(s: Seq<char>, i: int, j: int)
    requires
        forall|k: int| i <= k < j ==> is_digit(s[k]),
    ensures
        0 <= dec_val(s, i, j),
    decreases j - i,
{
    if i < j {
        lemma_dec_val_nonneg(s, i, j - 1);
        assert(dec_val(s, i, j - 1) * 10 >= 0) by (nonlinear_arith)
            requires
                dec_val(s, i, j - 1) >= 0,
        ;
    }
}

fn is_digit_exec(c: char) -> (out: bool)
    ensures
        out == is_digit(c),
{
    let u: u32 = c as u32;
    48 <= u && u <= 57
}

fn is_ws_exec(c: char) -> (out: bool)
    ensures
        out == is_ws(c),
{
    c == ' ' || c == '\t' || c == '\n' || c == '\r'
}

fn is_hex_digit_exec(c: char) -> (out: bool)
    ensures
        out == is_hex_digit(c),
{
    let u: u32 = c as u32;
    (48 <= u && u <= 57) || (97 <= u && u <= 102) || (65 <= u && u <= 70)
}

fn hex_val_exec(c: char) -> (out: u8)
    requires
        is_hex_digit(c),
    ensures
        out as int == hex_val(c),
        out <= 15,
{
    let u: u32 = c as u32;
    if 48 <= u && u <= 57 {
        (u - 48) as u8
    } else if 97 <= u && u <= 102 {
        (u - 87) as u8
    } else {
        (u - 55) as u8
    }
}

fn scan_digits_exec(v: &Vec<char>, i: usize) -> (out: usize)
    requires
        i <= v@.len(),
    ensures
        out as int == scan_digits(v@, i as int),
        i <= out <= v@.len(),
{
    proof {
        lemma_scan_digits(v@, i as int);
    }
    let mut j: usize = i;
    while j < v.len() && is_digit_exec(v[j])
        invariant
            i <= j <= v@.len(),
            scan_digits(v@, i as int) == scan_digits(v@, j as int),
        decreases v@.len() - j,
    {
        j = j + 1;
    }
    j
}

fn skip_ws_exec(v: &Vec<char>, i: usize) -> (out: usize)
    requires
        i <= v@.len(),
    ensures
        out as int == skip_ws(v@, i as int),
        i <= out <= v@.len(),
{
    proof {
        lemma_skip_ws(v@, i as int);
    }
    let mut j: usize = i;
    while j < v.len() && is_ws_exec(v[j])
        invariant
            i <= j <= v@.len(),
            skip_ws(v@, i as int) == skip_ws(v@, j as int),
        decreases v@.len() - j,
    {
        j = j + 1;
    }
    j
}

/// The value of the digit run `v[i..j)` capped at `cap`: the exact value
/// where it does not exceed `cap`, and `cap + 1` where it does. The cap
/// keeps the accumulator small however many digits the run has.
fn dec_val_capped(v: &Vec<char>, i: usize, j: usize, cap: u32) -> (out: u32)
    requires
        i <= j <= v@.len(),
        cap <= 0x8000_0000,
        forall|k: int| i <= k < j ==> is_digit(v@[k]),
    ensures
        dec_val(v@, i as int, j as int) <= cap as int ==> out as int == dec_val(
            v@,
            i as int,
            j as int,
        ),
        dec_val(v@, i as int, j as int) > cap as int ==> out as int == cap as int + 1,
{
    let mut acc: u64 = 0;
    let mut k: usize = i;
    proof {
        lemma_dec_val_nonneg(v@, i as int, k as int);
    }
    while k < j
        invariant
            i <= k <= j <= v@.len(),
            forall|q: int| i <= q < j ==> is_digit(v@[q]),
            dec_val(v@, i as int, k as int) <= cap as int ==> acc as int == dec_val(
                v@,
                i as int,
                k as int,
            ),
            dec_val(v@, i as int, k as int) > cap as int ==> acc as int == cap as int + 1,
            acc <= cap as u64 + 1,
        decreases j - k,
    {
        proof {
            lemma_dec_val_nonneg(v@, i as int, k as int);
            lemma_dec_val_nonneg(v@, i as int, k as int + 1);
            assert(dec_val(v@, i as int, k as int) > cap as int ==> dec_val(
                v@,
                i as int,
                k as int + 1,
            ) > cap as int) by {
                if dec_val(v@, i as int, k as int) > cap as int {
                    assert(dec_val(v@, i as int, k as int) * 10 >= dec_val(
                        v@,
                        i as int,
                        k as int,
                    )) by (nonlinear_arith)
                        requires
                            dec_val(v@, i as int, k as int) >= 0,
                    ;
                }
            }
        }
        let u: u32 = v[k] as u32;
        let d: u64 = (u - 48) as u64;
        if acc > cap as u64 {
            acc = cap as u64 + 1;
        } else {
            acc = acc * 10 + d;
            if acc > cap as u64 {
                acc = cap as u64 + 1;
            }
        }
        k = k + 1;
    }
    acc as u32
}


/// An unsigned decimal integer token no greater than `max`: its value and
/// the position just past its digits. Overflow past `max` fails the token.
pub open spec fn p_uint(s: Seq<char>, i: int, max: int) -> Option<(int, int)> {
    let j = scan_digits(s, i);
    if j == i {
        None
    } else if dec_val(s, i, j) > max {
        None
    } else {
        Some((dec_val(s, i, j), j))
    }
}

/// A signed decimal integer token with an optional `+` or `-` sign, whose
/// value must fit in a 32-bit signed integer.
pub open spec fn p_hue(s: Seq<char>, i: int) -> Option<(int, int)> {
    if 0 <= i < s.len() && (s[i] == '-' || s[i] == '+') {
        match p_uint(s, i + 1, if s[i] == '-' {
            0x8000_0000
        } else {
            0x7FFF_FFFF
        }) {
            Some((v, j)) => Some(((if s[i] == '-' {
                -v
            } else {
                v
            }), j)),
            None => None,
        }
    } else {
        p_uint(s, i, 0x7FFF_FFFF)
    }
}

/// A percentage token: an integer in `[0, 100]` followed by `%`.
pub open spec fn p_pct(s: Seq<char>, i: int) -> Option<(int, int)> {
    match p_uint(s, i, 100) {
        Some((v, j)) => if j < s.len() && s[j] == '%' {
            Some((v, j + 1))
        } else {
            None
        },
        None => None,
    }
}

/// An argument separator: optional whitespace, a comma, optional
/// whitespace; the position just past it.
pub open spec fn p_sep(s: Seq<char>, i: int) -> Option<int> {
    let a = skip_ws(s, i);
    if a < s.len() && s[a] == ',' {
        Some(skip_ws(s, a + 1))
    } else {
        None
    }
}

/// The first three fractional digits of `s[i..j)` read as thousandths;
/// digits past the third are ignored.
pub open spec fn frac_thousandths(s: Seq<char>, i: int, j: int) -> int {
    (if i < j {
        digit_val(s[i]) * 100
    } else {
        0
    }) + (if i + 1 < j {
        digit_val(s[i + 1]) * 10
    } else {
        0
    }) + (if i + 2 < j {
        digit_val(s[i + 2])
    } else {
        0
    })
}

pub open spec fn all_zero_digits(s: Seq<char>, i: int, j: int) -> bool {
    forall|k: int| i <= k < j ==> s[k] == '0'
}

/// An alpha token: a decimal number made of digits with one optional
/// point, holding at least one digit, whose value is at most one. The
/// result is in thousandths; fractional digits past the third are
/// ignored.
pub open spec fn p_alpha(s: Seq<char>, i: int) -> Option<(int, int)> {
    let j = scan_digits(s, i);
    let ip = dec_val(s, i, j);
    if j < s.len() && s[j] == '.' {
        let k = scan_digits(s, j + 1);
        if j == i && k == j + 1 {
            None
        } else if ip == 0 {
            Some((frac_thousandths(s, j + 1, k), k))
        } else if ip == 1 && all_zero_digits(s, j + 1, k) {
            Some((1000, k))
        } else {
            None
        }
    } else if j == i {
        None
    } else if ip == 0 {
        Some((0, j))
    } else if ip == 1 {
        Some((1000, j))
    } else {
        None
    }
}

fn p_uint_exec(v: &Vec<char>, i: usize, max: u32) -> (out: Option<(u32, usize)>)
    requires
        i <= v@.len(),
        max <= 0x8000_0000,
    ensures
        match out {
            Some((val, j)) => p_uint(v@, i as int, max as int) == Some((val as int, j as int))
                && val <= max && i < j <= v@.len(),
            None => p_uint(v@, i as int, max as int) is None,
        },
{
    let j = scan_digits_exec(v, i);
    proof {
        lemma_scan_digits(v@, i as int);
    }
    if j == i {
        return None;
    }
    let val = dec_val_capped(v, i, j, max);
    proof {
        lemma_dec_val_nonneg(v@, i as int, j as int);
    }
    if val > max {
        None
    } else {
        Some((val, j))
    }
}

fn p_hue_exec(v: &Vec<char>, i: usize) -> (out: Option<(i32, usize)>)
    requires
        i <= v@.len(),
    ensures
        match out {
            Some((val, j)) => p_hue(v@, i as int) == Some((val as int, j as int)) && i < j
                <= v@.len(),
            None => p_hue(v@, i as int) is None,
        },
{
    if i < v.len() && (v[i] == '-' || v[i] == '+') {
        let neg = v[i] == '-';
        let max: u32 = if neg {
            0x8000_0000
        } else {
            0x7FFF_FFFF
        };
        match p_uint_exec(v, i + 1, max) {
            Some((val, j)) => {
                let signed: i64 = if neg {
                    -(val as i64)
                } else {
                    val as i64
                };
                Some((signed as i32, j))
            },
            None => None,
        }
    } else {
        match p_uint_exec(v, i, 0x7FFF_FFFF) {
            Some((val, j)) => Some((val as i32, j)),
            None => None,
        }
    }
}

fn p_pct_exec(v: &Vec<char>, i: usize) -> (out: Option<(u8, usize)>)
    requires
        i <= v@.len(),
    ensures
        match out {
            Some((val, j)) => p_pct(v@, i as int) == Some((val as int, j as int)) && val <= 100
                && i < j <= v@.len(),
            None => p_pct(v@, i as int) is None,
        },
{
    match p_uint_exec(v, i, 100) {
        Some((val, j)) => {
            if j < v.len() && v[j] == '%' {
                Some((val as u8, j + 1))
            } else {
                None
            }
        },
        None => None,
    }
}

fn p_sep_exec(v: &Vec<char>, i: usize) -> (out: Option<usize>)
    requires
        i <= v@.len(),
    ensures
        match out {
            Some(j) => p_sep(v@, i as int) == Some(j as int) && i <= j <= v@.len(),
            None => p_sep(v@, i as int) is None,
        },
{
    let a = skip_ws_exec(v, i);
    if a < v.len() && v[a] == ',' {
        Some(skip_ws_exec(v, a + 1))
    } else {
        None
    }
}

fn p_alpha_exec(v: &Vec<char>, i: usize) -> (out: Option<(u16, usize)>)
    requires
        i <= v@.len(),
    ensures
        match out {
            Some((val, j)) => p_alpha(v@, i as int) == Some((val as int, j as int)) && val <= 1000
                && i < j <= v@.len(),
            None => p_alpha(v@, i as int) is None,
        },
{
    let j = scan_digits_exec(v, i);
    proof {
        lemma_scan_digits(v@, i as int);
        lemma_dec_val_nonneg(v@, i as int, j as int);
    }
    let ip = dec_val_capped(v, i, j, 1);
    if j < v.len() && v[j] == '.' {
        let k = scan_digits_exec(v, j + 1);
        proof {
            lemma_scan_digits(v@, j as int + 1);
        }
        if j == i && k == j + 1 {
            None
        } else if ip == 0 {
            let rem: usize = k - (j + 1);
            let d1: u16 = if rem >= 1 {
                (v[j + 1] as u32 - 48) as u16
            } else {
                0
            };
            let d2: u16 = if rem >= 2 {
                (v[j + 2] as u32 - 48) as u16
            } else {
                0
            };
            let d3: u16 = if rem >= 3 {
                (v[j + 3] as u32 - 48) as u16
            } else {
                0
            };
            Some((d1 * 100 + d2 * 10 + d3, k))
        } else if ip == 1 {
            let mut q: usize = j + 1;
            let mut zeros = true;
            while q < k
                invariant
                    j + 1 <= q <= k <= v@.len(),
                    forall|t: int| j + 1 <= t < k ==> is_digit(v@[t]),
                    zeros == all_zero_digits(v@, j as int + 1, q as int),
                decreases k - q,
            {
                if v[q] != '0' {
                    zeros = false;
                }
                q = q + 1;
            }
            if zeros {
                Some((1000, k))
            } else {
                None
            }
        } else {
            None
        }
    } else if j == i {
        None
    } else if ip == 0 {
        Some((0, j))
    } else if ip == 1 {
        Some((1000, j))
    } else {
        None
    }
}



pub open spec fn head_hsla(s: Seq<char>) -> bool {
    s.len() >= 5 && s[0] == 'h' && s[1] == 's' && s[2] == 'l' && s[3] == 'a' && s[4] == '('
}

pub open spec fn head_hsl(s: Seq<char>) -> bool {
    s.len() >= 4 && s[0] == 'h' && s[1] == 's' && s[2] == 'l' && s[3] == '('
}

pub open spec fn head_rgba(s: Seq<char>) -> bool {
    s.len() >= 5 && s[0] == 'r' && s[1] == 'g' && s[2] == 'b' && s[3] == 'a' && s[4] == '('
}

pub open spec fn head_rgb(s: Seq<char>) -> bool {
    s.len() >= 4 && s[0] == 'r' && s[1] == 'g' && s[2] == 'b' && s[3] == '('
}

/// After a head of `n` characters, the argument list runs to the first
/// closing parenthesis, which must be the last character of the input:
/// anything after it would be a leftover suffix.
pub open spec fn paren_ok(s: Seq<char>, n: int) -> bool {
    s.len() >= n + 1 && s[s.len() - 1] == ')' && (forall|k: int|
        n <= k < s.len() - 1 ==> s[k] != ')')
}

/// The characters between the head and the closing parenthesis.
pub open spec fn inner_of(s: Seq<char>, n: int) -> Seq<char> {
    s.subrange(n, s.len() - 1)
}

/// The argument list of `hsl`: hue, separator, saturation percentage,
/// separator, lightness percentage, end of input.
pub open spec fn hsl_inner(t: Seq<char>) -> Option<Hsl> {
    match p_hue(t, 0) {
        None => None,
        Some((h, i1)) => match p_sep(t, i1) {
            None => None,
            Some(i2) => match p_pct(t, i2) {
                None => None,
                Some((sv, i3)) => match p_sep(t, i3) {
                    None => None,
                    Some(i4) => match p_pct(t, i4) {
                        None => None,
                        Some((lv, i5)) => if i5 == t.len() {
                            Some(Hsl { h: h as i32, s: sv as u8, l: lv as u8 })
                        } else {
                            None
                        },
                    },
                },
            },
        },
    }
}

/// The argument list of `hsla`: as `hsl`, then a separator and an alpha.
pub open spec fn hsla_inner(t: Seq<char>) -> Option<Hsla> {
    match p_hue(t, 0) {
        None => None,
        Some((h, i1)) => match p_sep(t, i1) {
            None => None,
            Some(i2) => match p_pct(t, i2) {
                None => None,
                Some((sv, i3)) => match p_sep(t, i3) {
                    None => None,
                    Some(i4) => match p_pct(t, i4) {
                        None => None,
                        Some((lv, i5)) => match p_sep(t, i5) {
                            None => None,
                            Some(i6) => match p_alpha(t, i6) {
                                None => None,
                                Some((av, i7)) => if i7 == t.len() {
                                    Some(
                                        Hsla {
                                            h: h as i32,
                                            s: sv as u8,
                                            l: lv as u8,
                                            a: av as u16,
                                        },
                                    )
                                } else {
                                    None
                                },
                            },
                        },
                    },
                },
            },
        },
    }
}

/// The argument list of `rgb`: three byte values with separators.
pub open spec fn rgb_inner(t: Seq<char>) -> Option<Rgb> {
    match p_uint(t, 0, 255) {
        None => None,
        Some((rv, i1)) => match p_sep(t, i1) {
            None => None,
            Some(i2) => match p_uint(t, i2, 255) {
                None => None,
                Some((gv, i3)) => match p_sep(t, i3) {
                    None => None,
                    Some(i4) => match p_uint(t, i4, 255) {
                        None => None,
                        Some((bv, i5)) => if i5 == t.len() {
                            Some(Rgb { r: rv as u8, g: gv as u8, b: bv as u8 })
                        } else {
                            None
                        },
                    },
                },
            },
        },
    }
}

/// The argument list of `rgba`: as `rgb`, then a separator and an alpha.
pub open spec fn rgba_inner(t: Seq<char>) -> Option<Rgba> {
    match p_uint(t, 0, 255) {
        None => None,
        Some((rv, i1)) => match p_sep(t, i1) {
            None => None,
            Some(i2) => match p_uint(t, i2, 255) {
                None => None,
                Some((gv, i3)) => match p_sep(t, i3) {
                    None => None,
                    Some(i4) => match p_uint(t, i4, 255) {
                        None => None,
                        Some((bv, i5)) => match p_sep(t, i5) {
                            None => None,
                            Some(i6) => match p_alpha(t, i6) {
                                None => None,
                                Some((av, i7)) => if i7 == t.len() {
                                    Some(
                                        Rgba {
                                            r: rv as u8,
                                            g: gv as u8,
                                            b: bv as u8,
                                            a: av as u16,
                                        },
                                    )
                                } else {
                                    None
                                },
                            },
                        },
                    },
                },
            },
        },
    }
}

/// The input with one optional leading `#` removed.
pub open spec fn strip_hash(s: Seq<char>) -> Seq<char> {
    if s.len() > 0 && s[0] == '#' {
        s.subrange(1, s.len() as int)
    } else {
        s
    }
}

pub open spec fn all_hex(s: Seq<char>) -> bool {
    forall|k: int| 0 <= k < s.len() ==> is_hex_digit(s[k])
}

/// The byte value of the two hexadecimal digits at `i` and `i + 1`.
pub open spec fn hex_byte(s: Seq<char>, i: int) -> int {
    hex_val(s[i]) * 16 + hex_val(s[i + 1])
}

pub open spec fn hsla_match(s: Seq<char>) -> Option<Hsla> {
    if head_hsla(s) && paren_ok(s, 5) {
        hsla_inner(inner_of(s, 5))
    } else {
        None
    }
}

pub open spec fn hsl_match(s: Seq<char>) -> Option<Hsl> {
    if head_hsl(s) && paren_ok(s, 4) {
        hsl_inner(inner_of(s, 4))
    } else {
        None
    }
}

pub open spec fn rgba_match(s: Seq<char>) -> Option<Rgba> {
    if head_rgba(s) && paren_ok(s, 5) {
        rgba_inner(inner_of(s, 5))
    } else {
        None
    }
}

pub open spec fn rgb_match(s: Seq<char>) -> Option<Rgb> {
    if head_rgb(s) && paren_ok(s, 4) {
        rgb_inner(inner_of(s, 4))
    } else {
        None
    }
}

/// Exactly six hexadecimal digits after the optional `#`: an opaque color.
pub open spec fn hex_match(s: Seq<char>) -> Option<Rgb> {
    let t = strip_hash(s);
    if t.len() == 6 && all_hex(t) {
        Some(Rgb { r: hex_byte(t, 0) as u8, g: hex_byte(t, 2) as u8, b: hex_byte(t, 4) as u8 })
    } else {
        None
    }
}

/// Exactly eight hexadecimal digits after the optional `#`: the last pair
/// is an alpha byte, scaled to thousandths.
pub open spec fn hexa_match(s: Seq<char>) -> Option<Rgba> {
    let t = strip_hash(s);
    if t.len() == 8 && all_hex(t) {
        Some(
            Rgba {
                r: hex_byte(t, 0) as u8,
                g: hex_byte(t, 2) as u8,
                b: hex_byte(t, 4) as u8,
                a: alpha_from_byte(hex_byte(t, 6)) as u16,
            },
        )
    } else {
        None
    }
}

/// A parsed color literal; the variant records which grammar produced it,
/// and that grammar is the literal's default output notation.
#[derive(Clone, Copy, Debug, PartialEq, Eq, Structural)]
pub enum Color {
    Hsl(Hsl),
    Hsla(Hsla),
    Rgb(Rgb),
    Rgba(Rgba),
    Hex(Rgb),
    Hexa(Rgba),
}

pub open spec fn color_wf(c: Color) -> bool {
    match c {
        Color::Hsl(x) => hsl_wf(x),
        Color::Hsla(x) => hsla_wf(x),
        Color::Rgb(_) => true,
        Color::Rgba(x) => rgba_wf(x),
        Color::Hex(_) => true,
        Color::Hexa(x) => rgba_wf(x),
    }
}

/// The whole parser: the six grammars tried in priority order — `hsla`,
/// `hsl`, `rgba`, `rgb`, `hexa`, `hex` — and the first full match taken.
pub open spec fn spec_parse(s: Seq<char>) -> Option<Color> {
    match hsla_match(s) {
        Some(c) => Some(Color::Hsla(c)),
        None => match hsl_match(s) {
            Some(c) => Some(Color::Hsl(c)),
            None => match rgba_match(s) {
                Some(c) => Some(Color::Rgba(c)),
                None => match rgb_match(s) {
                    Some(c) => Some(Color::Rgb(c)),
                    None => match hexa_match(s) {
                        Some(c) => Some(Color::Hexa(c)),
                        None => match hex_match(s) {
                            Some(c) => Some(Color::Hex(c)),
                            None => None,
                        },
                    },
                },
            },
        },
    }
}

/// The input string of a literal that matched none of the six grammars.
#[derive(Debug)]
pub struct ParseError {
    pub literal: String,
}

/// Collects the characters of a string slice into a vector.
pub(crate) fn chars_of(s: &str) -> (out: Vec<char>)
    ensures
        out@ == s@,
{
    let n = s.unicode_len();
    let mut out: Vec<char> = Vec::new();
    let mut i: usize = 0;
    while i < n
        invariant
            n == s@.len(),
            i <= n,
            out@ == s@.subrange(0, i as int),
        decreases n - i,
    {
        let c = s.get_char(i);
        out.push(c);
        proof {
            assert(out@ =~= s@.subrange(0, i as int + 1));
        }
        i = i + 1;
    }
    proof {
        assert(out@ =~= s@);
    }
    out
}

/// Copies the characters `v[a..b)` into a fresh vector.
fn copy_range(v: &Vec<char>, a: usize, b: usize) -> (out: Vec<char>)
    requires
        a <= b <= v@.len(),
    ensures
        out@ == v@.subrange(a as int, b as int),
{
    let mut out: Vec<char> = Vec::new();
    let mut i: usize = a;
    while i < b
        invariant
            a <= i <= b <= v@.len(),
            out@ == v@.subrange(a as int, i as int),
        decreases b - i,
    {
        let c = v[i];
        out.push(c);
        proof {
            assert(out@ =~= v@.subrange(a as int, i as int + 1));
        }
        i = i + 1;
    }
    out
}

/// The position of the first closing parenthesis at or after `n`, or the
/// length of the input if there is none.
fn find_close(v: &Vec<char>, n: usize) -> (out: usize)
    requires
        n <= v@.len(),
    ensures
        n <= out <= v@.len(),
        forall|k: int| n <= k < out ==> v@[k] != ')',
        out < v@.len() ==> v@[out as int] == ')',
{
    let mut p: usize = n;
    while p < v.len() && v[p] != ')'
        invariant
            n <= p <= v@.len(),
            forall|k: int| n <= k < p ==> v@[k] != ')',
        decreases v@.len() - p,
    {
        p = p + 1;
    }
    p
}

fn parse_hsl_inner(t: &Vec<char>) -> (out: Option<Hsl>)
    ensures
        out == hsl_inner(t@),
        out matches Some(c) ==> hsl_wf(c),
{
    match p_hue_exec(t, 0) {
        None => None,
        Some((h, i1)) => match p_sep_exec(t, i1) {
            None => None,
            Some(i2) => match p_pct_exec(t, i2) {
                None => None,
                Some((sv, i3)) => match p_sep_exec(t, i3) {
                    None => None,
                    Some(i4) => match p_pct_exec(t, i4) {
                        None => None,
                        Some((lv, i5)) => if i5 == t.len() {
                            Some(Hsl { h, s: sv, l: lv })
                        } else {
                            None
                        },
                    },
                },
            },
        },
    }
}

fn parse_hsla_inner(t: &Vec<char>) -> (out: Option<Hsla>)
    ensures
        out == hsla_inner(t@),
        out matches Some(c) ==> hsla_wf(c),
{
    match p_hue_exec(t, 0) {
        None => None,
        Some((h, i1)) => match p_sep_exec(t, i1) {
            None => None,
            Some(i2) => match p_pct_exec(t, i2) {
                None => None,
                Some((sv, i3)) => match p_sep_exec(t, i3) {
                    None => None,
                    Some(i4) => match p_pct_exec(t, i4) {
                        None => None,
                        Some((lv, i5)) => match p_sep_exec(t, i5) {
                            None => None,
                            Some(i6) => match p_alpha_exec(t, i6) {
                                None => None,
                                Some((av, i7)) => if i7 == t.len() {
                                    Some(Hsla { h, s: sv, l: lv, a: av })
                                } else {
                                    None
                                },
                            },
                        },
                    },
                },
            },
        },
    }
}

fn parse_rgb_inner(t: &Vec<char>) -> (out: Option<Rgb>)
    ensures
        out == rgb_inner(t@),
{
    match p_uint_exec(t, 0, 255) {
        None => None,
        Some((rv, i1)) => match p_sep_exec(t, i1) {
            None => None,
            Some(i2) => match p_uint_exec(t, i2, 255) {
                None => None,
                Some((gv, i3)) => match p_sep_exec(t, i3) {
                    None => None,
                    Some(i4) => match p_uint_exec(t, i4, 255) {
                        None => None,
                        Some((bv, i5)) => if i5 == t.len() {
                            Some(Rgb { r: rv as u8, g: gv as u8, b: bv as u8 })
                        } else {
                            None
                        },
                    },
                },
            },
        },
    }
}

fn parse_rgba_inner(t: &Vec<char>) -> (out: Option<Rgba>)
    ensures
        out == rgba_inner(t@),
        out matches Some(c) ==> rgba_wf(c),
{
    match p_uint_exec(t, 0, 255) {
        None => None,
        Some((rv, i1)) => match p_sep_exec(t, i1) {
            None => None,
            Some(i2) => match p_uint_exec(t, i2, 255) {
                None => None,
                Some((gv, i3)) => match p_sep_exec(t, i3) {
                    None => None,
                    Some(i4) => match p_uint_exec(t, i4, 255) {
                        None => None,
                        Some((bv, i5)) => match p_sep_exec(t, i5) {
                            None => None,
                            Some(i6) => match p_alpha_exec(t, i6) {
                                None => None,
                                Some((av, i7)) => if i7 == t.len() {
                                    Some(Rgba { r: rv as u8, g: gv as u8, b: bv as u8, a: av })
                                } else {
                                    None
                                },
                            },
                        },
                    },
                },
            },
        },
    }
}

/// Checks the head of a function-call grammar, locates the closing
/// parenthesis, and hands the argument list to the inner parser. `ch3`
/// selects between the three- and four-letter heads.
fn call_args(v: &Vec<char>, c0: char, c1: char, c2: char, four: bool) -> (out: Option<Vec<char>>)
    ensures
        ({
            let n: int = if four {
                5
            } else {
                4
            };
            let head_len_ok = v@.len() >= n && v@[0] == c0 && v@[1] == c1 && v@[2] == c2 && (
            four ==> v@[3] == 'a') && v@[n - 1] == '(';
            match out {
                Some(t) => head_len_ok && paren_ok(v@, n) && t@ == inner_of(v@, n),
                None => !(head_len_ok && paren_ok(v@, n)),
            }
        }),
{
    let n: usize = if four {
        5
    } else {
        4
    };
    if v.len() < n {
        return None;
    }
    if !(v[0] == c0 && v[1] == c1 && v[2] == c2) {
        return None;
    }
    if four && v[3] != 'a' {
        return None;
    }
    if v[n - 1] != '(' {
        return None;
    }
    let p = find_close(v, n);
    if p < v.len() && v.len() - p == 1 {
        Some(copy_range(v, n, p))
    } else {
        proof {
            if paren_ok(v@, n as int) {
                assert(v@[v@.len() - 1] == ')');
                assert(p < v@.len());
            }
        }
        None
    }
}

impl Color {
    /// Parses a color literal, trying the six grammars in priority order;
    /// a string that matches none of them is returned inside the error.
    pub fn from_str(s: &str) -> (out: Result<Color, ParseError>)
        ensures
            match out {
                Ok(c) => spec_parse(s@) == Some(c) && color_wf(c),
                Err(e) => spec_parse(s@) is None && e.literal@ == s@,
            },
    {
        let v = chars_of(s);
        if let Some(t) = call_args(&v, 'h', 's', 'l', true) {
            if let Some(c) = parse_hsla_inner(&t) {
                return Ok(Color::Hsla(c));
            }
        }
        if let Some(t) = call_args(&v, 'h', 's', 'l', false) {
            if let Some(c) = parse_hsl_inner(&t) {
                return Ok(Color::Hsl(c));
            }
        }
        if let Some(t) = call_args(&v, 'r', 'g', 'b', true) {
            if let Some(c) = parse_rgba_inner(&t) {
                return Ok(Color::Rgba(c));
            }
        }
        if let Some(t) = call_args(&v, 'r', 'g', 'b', false) {
            if let Some(c) = parse_rgb_inner(&t) {
                return Ok(Color::Rgb(c));
            }
        }
        if let Some(c) = try_hexa(&v) {
            return Ok(Color::Hexa(c));
        }
        if let Some(c) = try_hex(&v) {
            return Ok(Color::Hex(c));
        }
        Err(ParseError { literal: s.to_owned() })
    }
}

fn try_hex(v: &Vec<char>) -> (out: Option<Rgb>)
    ensures
        out == hex_match(v@),
{
    let start: usize = if v.len() > 0 && v[0] == '#' {
        1
    } else {
        0
    };
    proof {
        assert(strip_hash(v@) =~= v@.subrange(start as int, v@.len() as int));
    }
    if v.len() - start != 6 {
        return None;
    }
    match hex_pairs(v, start, 3) {
        Some(bytes) => Some(Rgb { r: bytes[0], g: bytes[1], b: bytes[2] }),
        None => None,
    }
}

fn try_hexa(v: &Vec<char>) -> (out: Option<Rgba>)
    ensures
        out == hexa_match(v@),
        out matches Some(c) ==> rgba_wf(c),
{
    let start: usize = if v.len() > 0 && v[0] == '#' {
        1
    } else {
        0
    };
    proof {
        assert(strip_hash(v@) =~= v@.subrange(start as int, v@.len() as int));
    }
    if v.len() - start != 8 {
        return None;
    }
    match hex_pairs(v, start, 4) {
        Some(bytes) => Some(
            Rgba { r: bytes[0], g: bytes[1], b: bytes[2], a: alpha_from_byte_exec(bytes[3]) },
        ),
        None => None,
    }
}

/// Reads `count` pairs of hexadecimal digits starting at `start`; `None`
/// if any character in that range is not a hexadecimal digit.
fn hex_pairs(v: &Vec<char>, start: usize, count: usize) -> (out: Option<Vec<u8>>)
    requires
        start + 2 * count <= v@.len(),
    ensures
        match out {
            Some(bytes) => {
                &&& bytes@.len() == count
                &&& forall|k: int|
                    0 <= k < count ==> bytes@[k] as int == hex_byte(
                        v@.subrange(start as int, v@.len() as int),
                        2 * k,
                    )
                &&& forall|k: int| start <= k < start + 2 * count ==> is_hex_digit(v@[k])
            },
            None => exists|k: int| start <= k < start + 2 * count && !is_hex_digit(v@[k]),
        },
{
    let ghost t = v@.subrange(start as int, v@.len() as int);
    let vlen = v.len();
    let mut bytes: Vec<u8> = Vec::new();
    let mut i: usize = 0;
    let mut pos: usize = start;
    while i < count
        invariant
            vlen == v@.len(),
            start + 2 * count <= v@.len(),
            i <= count,
            pos == start + 2 * i,
            t == v@.subrange(start as int, v@.len() as int),
            bytes@.len() == i,
            forall|k: int| 0 <= k < i ==> bytes@[k] as int == hex_byte(t, 2 * k),
            forall|k: int| start <= k < start + 2 * i ==> is_hex_digit(v@[k]),
        decreases count - i,
    {
        let a = v[pos];
        let b = v[pos + 1];
        if !(is_hex_digit_exec(a) && is_hex_digit_exec(b)) {
            return None;
        }
        let hv = hex_val_exec(a);
        let lv = hex_val_exec(b);
        bytes.push(hv * 16 + lv);
        proof {
            assert(t[2 * i as int] == v@[start + 2 * i]);
            assert(t[2 * i as int + 1] == v@[start + 2 * i + 1]);
        }
        pos = pos + 2;
        i = i + 1;
    }
    Some(bytes)
}



/// The canonical RGB projection of a parsed color: hex and RGB literals
/// keep their exact bytes; HSL-family literals are converted.
pub open spec fn spec_color_to_rgb(c: Color) -> Rgb {
    match c {
        Color::Hsl(x) => spec_hsl_to_rgb(x),
        Color::Hsla(x) => spec_hsl_to_rgb(Hsl { h: x.h, s: x.s, l: x.l }),
        Color::Rgb(x) => x,
        Color::Rgba(x) => Rgb { r: x.r, g: x.g, b: x.b },
        Color::Hex(x) => x,
        Color::Hexa(x) => Rgb { r: x.r, g: x.g, b: x.b },
    }
}

/// The HSL+alpha projection of a parsed color, the form the algebra
/// operates on: RGB-family literals are converted, alpha defaults to
/// fully opaque where the grammar had none.
pub open spec fn spec_color_to_hsla(c: Color) -> Hsla {
    match c {
        Color::Hsl(x) => Hsla { h: x.h, s: x.s, l: x.l, a: 1000 },
        Color::Hsla(x) => x,
        Color::Rgb(x) => {
            let hsl = spec_rgb_to_hsl(x);
            Hsla { h: hsl.h, s: hsl.s, l: hsl.l, a: 1000 }
        },
        Color::Rgba(x) => {
            let hsl = spec_rgb_to_hsl(Rgb { r: x.r, g: x.g, b: x.b });
            Hsla { h: hsl.h, s: hsl.s, l: hsl.l, a: x.a }
        },
        Color::Hex(x) => {
            let hsl = spec_rgb_to_hsl(x);
            Hsla { h: hsl.h, s: hsl.s, l: hsl.l, a: 1000 }
        },
        Color::Hexa(x) => {
            let hsl = spec_rgb_to_hsl(Rgb { r: x.r, g: x.g, b: x.b });
            Hsla { h: hsl.h, s: hsl.s, l: hsl.l, a: x.a }
        },
    }
}

impl Color {
    /// The canonical RGB projection; per-notation equality of two parsed
    /// colors is equality of this value.
    pub fn to_rgb(&self) -> (out: Rgb)
        requires
            color_wf(*self),
        ensures
            out == spec_color_to_rgb(*self),
    {
        match self {
            Color::Hsl(x) => x.to_rgb(),
            Color::Hsla(x) => x.to_rgb(),
            Color::Rgb(x) => *x,
            Color::Rgba(x) => x.to_rgb(),
            Color::Hex(x) => *x,
            Color::Hexa(x) => x.to_rgb(),
        }
    }

    /// The HSL+alpha projection that the algebra operates on.
    pub fn to_hsla(&self) -> (out: Hsla)
        requires
            color_wf(*self),
        ensures
            out == spec_color_to_hsla(*self),
            hsla_wf(out),
    {
        match self {
            Color::Hsl(x) => x.to_hsla(),
            Color::Hsla(x) => *x,
            Color::Rgb(x) => x.to_hsla(),
            Color::Rgba(x) => x.to_hsla(),
            Color::Hex(x) => x.to_hsla(),
            Color::Hexa(x) => x.to_hsla(),
        }
    }

    /// The red byte of the canonical RGB projection.
    pub fn red(&self) -> (out: u8)
        requires
            color_wf(*self),
        ensures
            out == spec_color_to_rgb(*self).r,
    {
        self.to_rgb().r
    }

    /// The green byte of the canonical RGB projection.
    pub fn green(&self) -> (out: u8)
        requires
            color_wf(*self),
        ensures
            out == spec_color_to_rgb(*self).g,
    {
        self.to_rgb().g
    }

    /// The blue byte of the canonical RGB projection.
    pub fn blue(&self) -> (out: u8)
        requires
            color_wf(*self),
        ensures
            out == spec_color_to_rgb(*self).b,
    {
        self.to_rgb().b
    }
}



/// The canonical value of a parsed literal: its own view holds the exact
/// parsed channels, the other view is derived.
pub open spec fn spec_color_to_value(c: Color) -> ColorValue {
    match c {
        Color::Hsl(x) => spec_value_of_hsla(Hsla { h: x.h, s: x.s, l: x.l, a: 1000 }),
        Color::Hsla(x) => spec_value_of_hsla(x),
        Color::Rgb(x) => spec_value_of_rgba(Rgba { r: x.r, g: x.g, b: x.b, a: 1000 }),
        Color::Rgba(x) => spec_value_of_rgba(x),
        Color::Hex(x) => spec_value_of_rgba(Rgba { r: x.r, g: x.g, b: x.b, a: 1000 }),
        Color::Hexa(x) => spec_value_of_rgba(x),
    }
}

/// The alpha of a parsed literal in thousandths; grammars without an
/// alpha component mean fully opaque.
pub open spec fn spec_color_alpha(c: Color) -> int {
    match c {
        Color::Hsl(_) => 1000,
        Color::Hsla(x) => x.a as int,
        Color::Rgb(_) => 1000,
        Color::Rgba(x) => x.a as int,
        Color::Hex(_) => 1000,
        Color::Hexa(x) => x.a as int,
    }
}

impl Color {
    /// Equality of colors is equality of their canonical RGB+alpha
    /// projections, independent of the notation each was written in.
    pub fn canonical_eq(&self, other: &Color) -> (out: bool)
        requires
            color_wf(*self),
            color_wf(*other),
        ensures
            out == (spec_color_to_rgb(*self) == spec_color_to_rgb(*other) && spec_color_alpha(
                *self,
            ) == spec_color_alpha(*other)),
    {
        let a = self.to_rgb();
        let b = other.to_rgb();
        let aa = match self {
            Color::Hsl(_) => 1000u16,
            Color::Hsla(x) => x.a,
            Color::Rgb(_) => 1000u16,
            Color::Rgba(x) => x.a,
            Color::Hex(_) => 1000u16,
            Color::Hexa(x) => x.a,
        };
        let ba = match other {
            Color::Hsl(_) => 1000u16,
            Color::Hsla(x) => x.a,
            Color::Rgb(_) => 1000u16,
            Color::Rgba(x) => x.a,
            Color::Hex(_) => 1000u16,
            Color::Hexa(x) => x.a,
        };
        a.r == b.r && a.g == b.g && a.b == b.b && aa == ba
    }

    /// Completes a parsed literal into the canonical dual-view value.
    pub fn to_value(&self) -> (out: ColorValue)
        requires
            color_wf(*self),
        ensures
            out == spec_color_to_value(*self),
            color_value_wf(out),
    {
        match self {
            Color::Hsl(x) => x.to_hsla().to_value(),
            Color::Hsla(x) => x.to_value(),
            Color::Rgb(x) => Rgba { r: x.r, g: x.g, b: x.b, a: 1000 }.to_value(),
            Color::Rgba(x) => x.to_value(),
            Color::Hex(x) => Rgba { r: x.r, g: x.g, b: x.b, a: 1000 }.to_value(),
            Color::Hexa(x) => x.to_value(),
        }
    }
}


} // verus!
