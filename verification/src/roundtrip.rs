//! Round-trip closure: every literal the formatter produces is parsed
//! back by the parser, in the same notation, to the same channels — up
//! to the documented quantization of the `hexa` alpha byte and the
//! dropped alpha of the alpha-less notations.

use vstd::prelude::*;

use vstd::seq_lib::lemma_concat_associative;

use crate::color::alpha_from_byte;
use crate::color::alpha_to_byte;
use crate::color::color_value_wf;
use crate::color::ColorValue;
use crate::color::Hsl;
use crate::color::Hsla;
use crate::color::Rgb;
use crate::color::Rgba;
use crate::format::alpha_chars;
use crate::format::dec_chars;
use crate::format::digit_char;
use crate::format::hex_char;
use crate::format::sdec_chars;
use crate::format::spec_format;
use crate::format::spec_model;
use crate::format::ColorModel;
use crate::parse::all_hex;
use crate::parse::dec_val;
use crate::parse::digit_val;
use crate::parse::hex_byte;
use crate::parse::hex_val;
use crate::parse::hex_match;
use crate::parse::hexa_match;
use crate::parse::hsl_match;
use crate::parse::hsla_match;
use crate::parse::is_digit;
use crate::parse::is_hex_digit;
use crate::parse::is_ws;
use crate::parse::p_alpha;
use crate::parse::p_hue;
use crate::parse::p_pct;
use crate::parse::p_sep;
use crate::parse::p_uint;
use crate::parse::rgb_match;
use crate::parse::rgba_match;
use crate::parse::scan_digits;
use crate::parse::skip_ws;
use crate::parse::spec_parse;
use crate::parse::strip_hash;
use crate::parse::Color;

verus! {

/// A character the formatter can place inside an argument list: never a
/// parenthesis, a quote, or a `#`.
pub open spec fn arg_char(c: char) -> bool {
    is_digit(c) || c == '-' || c == '.' || c == ',' || c == ' ' || c == '%'
}

proof fn lemma_digit_char(d: int)
    requires
        0 <= d <= 9,
    ensures
        is_digit(digit_char(d)),
        digit_val(digit_char(d)) == d,
{
}

proof fn lemma_hex_char(d: int)
    requires
        0 <= d <= 15,
    ensures
        is_hex_digit(hex_char(d)),
        hex_val(hex_char(d)) == d,
{
}

proof fn lemma_dec_chars_props(n: int)
    requires
        n >= 0,
    ensures
        dec_chars(n).len() >= 1,
        forall|k: int| 0 <= k < dec_chars(n).len() ==> #[trigger] is_digit(dec_chars(n)[k]),
        forall|k: int| 0 <= k < dec_chars(n).len() ==> #[trigger] arg_char(dec_chars(n)[k]),
    decreases n,
{
    if n < 10 {
        lemma_digit_char(n);
    } else {
        lemma_dec_chars_props(n / 10);
        lemma_digit_char(n % 10);
        assert forall|k: int| 0 <= k < dec_chars(n).len() implies #[trigger] is_digit(
            dec_chars(n)[k],
        ) && arg_char(dec_chars(n)[k]) by {
            if k < dec_chars(n / 10).len() {
                assert(dec_chars(n)[k] == dec_chars(n / 10)[k]);
            } else {
                assert(dec_chars(n)[k] == digit_char(n % 10));
            }
        }
    }
}

proof fn lemma_sdec_chars_props(n: int)
    ensures
        sdec_chars(n).len() >= 1,
        forall|k: int| 0 <= k < sdec_chars(n).len() ==> #[trigger] arg_char(sdec_chars(n)[k]),
    decreases n,
{
    if n < 0 {
        lemma_dec_chars_props(-n);
        assert forall|k: int| 0 <= k < sdec_chars(n).len() implies #[trigger] arg_char(
            sdec_chars(n)[k],
        ) by {
            if k == 0 {
                assert(sdec_chars(n)[0] == '-');
            } else {
                assert(sdec_chars(n)[k] == dec_chars(-n)[k - 1]);
                assert(arg_char(dec_chars(-n)[k - 1]));
            }
        }
    } else {
        lemma_dec_chars_props(n);
    }
}

proof fn lemma_alpha_chars_props(a: int)
    requires
        0 <= a <= 1000,
    ensures
        alpha_chars(a).len() >= 1,
        forall|k: int| 0 <= k < alpha_chars(a).len() ==> #[trigger] arg_char(alpha_chars(a)[k]),
{
    if a != 0 && a != 1000 {
        lemma_digit_char(a / 100);
        lemma_digit_char((a / 10) % 10);
        lemma_digit_char(a % 10);
    }
}

/// Digits embedded at `i` followed by a non-digit scan exactly to their
/// end.
proof fn lemma_scan_exact(s: Seq<char>, i: int, j: int)
    requires
        0 <= i <= j <= s.len(),
        forall|k: int| i <= k < j ==> is_digit(s[k]),
        j < s.len() ==> !is_digit(s[j]),
    ensures
        scan_digits(s, i) == j,
    decreases j - i,
{
    if i < j {
        lemma_scan_exact(s, i + 1, j);
    }
}

proof fn lemma_skip_exact(s: Seq<char>, i: int, j: int)
    requires
        0 <= i <= j <= s.len(),
        forall|k: int| i <= k < j ==> is_ws(s[k]),
        j < s.len() ==> !is_ws(s[j]),
    ensures
        skip_ws(s, i) == j,
    decreases j - i,
{
    if i < j {
        lemma_skip_exact(s, i + 1, j);
    }
}

/// The decimal digits of `n` embedded at `i` read back as `n`.
proof fn lemma_dec_val_embedded(s: Seq<char>, i: int, n: int)
    requires
        n >= 0,
        0 <= i,
        i + dec_chars(n).len() <= s.len(),
        forall|k: int| 0 <= k < dec_chars(n).len() ==> s[i + k] == dec_chars(n)[k],
    ensures
        dec_val(s, i, i + dec_chars(n).len()) == n,
    decreases n,
{
    let ln = dec_chars(n).len() as int;
    if n < 10 {
        lemma_digit_char(n);
        assert(s[i] == dec_chars(n)[0]);
        assert(dec_val(s, i, i + 1) == dec_val(s, i, i) * 10 + digit_val(s[i]));
    } else {
        let m = n / 10;
        let lm = dec_chars(m).len() as int;
        assert(ln == lm + 1);
        assert forall|k: int| 0 <= k < lm implies s[i + k] == dec_chars(m)[k] by {
            assert(dec_chars(n)[k] == dec_chars(m)[k]);
        }
        lemma_dec_val_embedded(s, i, m);
        lemma_digit_char(n % 10);
        assert(s[i + ln - 1] == dec_chars(n)[ln - 1]);
        assert(dec_chars(n)[ln - 1] == digit_char(n % 10));
        assert(dec_val(s, i, i + ln) == dec_val(s, i, i + ln - 1) * 10 + digit_val(s[i + ln - 1]));
    }
}

/// An unsigned integer token embedded at `i` parses to its value.
proof fn lemma_p_uint_at(s: Seq<char>, i: int, n: int, max: int)
    requires
        0 <= n <= max,
        0 <= i,
        i + dec_chars(n).len() <= s.len(),
        forall|k: int| 0 <= k < dec_chars(n).len() ==> s[i + k] == dec_chars(n)[k],
        i + dec_chars(n).len() < s.len() ==> !is_digit(s[i + dec_chars(n).len()]),
    ensures
        p_uint(s, i, max) == Some((n, i + dec_chars(n).len() as int)),
{
    let ln = dec_chars(n).len() as int;
    lemma_dec_chars_props(n);
    assert forall|k: int| i <= k < i + ln implies is_digit(s[k]) by {
        assert(s[k] == dec_chars(n)[k - i]);
        assert(is_digit(dec_chars(n)[k - i]));
    }
    lemma_scan_exact(s, i, i + ln);
    lemma_dec_val_embedded(s, i, n);
}

/// A signed integer token embedded at `i` parses to its value.
proof fn lemma_p_hue_at(s: Seq<char>, i: int, h: int)
    requires
        -0x8000_0000 <= h <= 0x7FFF_FFFF,
        0 <= i,
        i + sdec_chars(h).len() <= s.len(),
        forall|k: int| 0 <= k < sdec_chars(h).len() ==> s[i + k] == sdec_chars(h)[k],
        i + sdec_chars(h).len() < s.len() ==> !is_digit(s[i + sdec_chars(h).len()]),
    ensures
        p_hue(s, i) == Some((h, i + sdec_chars(h).len() as int)),
{
    if h < 0 {
        assert(s[i] == sdec_chars(h)[0]);
        assert(s[i] == '-');
        assert forall|k: int| 0 <= k < dec_chars(-h).len() implies s[i + 1 + k] == #[trigger] dec_chars(
            -h,
        )[k] by {
            assert(s[i + 1 + k] == sdec_chars(h)[1 + k]);
        }
        lemma_p_uint_at(s, i + 1, -h, 0x8000_0000);
    } else {
        lemma_dec_chars_props(h);
        assert(s[i] == sdec_chars(h)[0]);
        assert(is_digit(s[i]));
        assert(s[i] != '-' && s[i] != '+');
        lemma_p_uint_at(s, i, h, 0x7FFF_FFFF);
    }
}

/// A percentage token embedded at `i` parses to its value.
proof fn lemma_p_pct_at(s: Seq<char>, i: int, v: int)
    requires
        0 <= v <= 100,
        0 <= i,
        i + dec_chars(v).len() + 1 <= s.len(),
        forall|k: int| 0 <= k < dec_chars(v).len() ==> s[i + k] == dec_chars(v)[k],
        s[i + dec_chars(v).len()] == '%',
    ensures
        p_pct(s, i) == Some((v, i + dec_chars(v).len() + 1)),
{
    lemma_p_uint_at(s, i, v, 100);
}

/// A `", "` separator embedded at `i`, followed by a non-blank, parses.
proof fn lemma_p_sep_at(s: Seq<char>, i: int)
    requires
        0 <= i,
        i + 2 <= s.len(),
        s[i] == ',',
        s[i + 1] == ' ',
        i + 2 < s.len() ==> !is_ws(s[i + 2]),
        i + 2 == s.len() ==> false,
    ensures
        p_sep(s, i) == Some(i + 2),
{
    lemma_skip_exact(s, i, i);
    lemma_skip_exact(s, i + 1, i + 2);
}

/// An alpha token that fills the rest of the input parses to its value.
proof fn lemma_p_alpha_at(s: Seq<char>, i: int, a: int)
    requires
        0 <= a <= 1000,
        0 <= i,
        i + alpha_chars(a).len() == s.len(),
        forall|k: int| 0 <= k < alpha_chars(a).len() ==> s[i + k] == alpha_chars(a)[k],
    ensures
        p_alpha(s, i) == Some((a, s.len() as int)),
{
    let la = alpha_chars(a).len() as int;
    assert forall|k: int| 0 <= k < la implies s[i + k] == alpha_chars(a)[k] by {}
    assert(s[i + 0] == alpha_chars(a)[0]);
    if a == 1000 {
        assert(s[i] == '1');
        lemma_digit_char(1);
        assert(dec_chars(1) =~= seq![digit_char(1)]);
        lemma_scan_exact(s, i, i + 1);
        assert(dec_val(s, i, i + 1) == dec_val(s, i, i) * 10 + digit_val(s[i]));
    } else if a == 0 {
        assert(s[i] == '0');
        lemma_digit_char(0);
        lemma_scan_exact(s, i, i + 1);
        assert(dec_val(s, i, i + 1) == dec_val(s, i, i) * 10 + digit_val(s[i]));
    } else {
        let d1 = a / 100;
        let d2 = (a / 10) % 10;
        let d3 = a % 10;
        lemma_digit_char(d1);
        lemma_digit_char(d2);
        lemma_digit_char(d3);
        assert(s[i] == '0');
        assert(s[i + 1] == alpha_chars(a)[1]);
        assert(s[i + 1] == '.');
        lemma_scan_exact(s, i, i + 1);
        assert(dec_val(s, i, i + 1) == dec_val(s, i, i) * 10 + digit_val(s[i]));
        assert(dec_val(s, i, i + 1) == 0);
        if d3 != 0 {
            assert(la == 5);
            assert(s[i + 2] == alpha_chars(a)[2]);
            assert(s[i + 3] == alpha_chars(a)[3]);
            assert(s[i + 4] == alpha_chars(a)[4]);
            assert(s[i + 2] == digit_char(d1));
            assert(s[i + 3] == digit_char(d2));
            assert(s[i + 4] == digit_char(d3));
            lemma_scan_exact(s, i + 2, i + 5);
            assert(a == d1 * 100 + d2 * 10 + d3);
        } else if d2 != 0 {
            assert(la == 4);
            assert(s[i + 2] == alpha_chars(a)[2]);
            assert(s[i + 3] == alpha_chars(a)[3]);
            assert(s[i + 2] == digit_char(d1));
            assert(s[i + 3] == digit_char(d2));
            lemma_scan_exact(s, i + 2, i + 4);
            assert(a == d1 * 100 + d2 * 10);
        } else {
            assert(la == 3);
            assert(s[i + 2] == alpha_chars(a)[2]);
            assert(s[i + 2] == digit_char(d1));
            lemma_scan_exact(s, i + 2, i + 3);
            assert(a % 100 == 0);
            assert(a == d1 * 100);
        }
    }
}


/// The formatted `hsl` argument list parses back to its channels.
#[verifier::rlimit(60)]
#[verifier::spinoff_prover]
proof fn lemma_hsl_args(t: Seq<char>, h: int, sv: int, lv: int)
    requires
        -0x8000_0000 <= h <= 0x7FFF_FFFF,
        0 <= sv <= 100,
        0 <= lv <= 100,
        t == sdec_chars(h) + ", "@ + dec_chars(sv) + "%, "@ + dec_chars(lv) + "%"@,
    ensures
        crate::parse::hsl_inner(t) == Some(Hsl { h: h as i32, s: sv as u8, l: lv as u8 }),
        forall|k: int| 0 <= k < t.len() ==> #[trigger] arg_char(t[k]),
{
    reveal_strlit(", ");
    reveal_strlit("%, ");
    reveal_strlit("%");
    let lh = sdec_chars(h).len() as int;
    let ls = dec_chars(sv).len() as int;
    let ll = dec_chars(lv).len() as int;
    lemma_sdec_chars_props(h);
    lemma_dec_chars_props(sv);
    lemma_dec_chars_props(lv);
    assert(t.len() == lh + 2 + ls + 3 + ll + 1);
    assert forall|k: int| 0 <= k < lh implies t[k] == sdec_chars(h)[k] by {}
    assert(t[lh] == ',');
    assert(t[lh + 1] == ' ');
    assert forall|k: int| 0 <= k < ls implies t[lh + 2 + k] == dec_chars(sv)[k] by {}
    assert(t[lh + 2 + ls] == '%');
    assert(t[lh + 2 + ls + 1] == ',');
    assert(t[lh + 2 + ls + 2] == ' ');
    assert forall|k: int| 0 <= k < ll implies t[lh + 2 + ls + 3 + k] == dec_chars(lv)[k] by {}
    assert(t[lh + 2 + ls + 3 + ll] == '%');
    lemma_p_hue_at(t, 0, h);
    assert(is_digit(t[lh + 2])) by {
        assert(t[lh + 2] == dec_chars(sv)[0]);
    }
    lemma_p_sep_at(t, lh);
    lemma_p_pct_at(t, lh + 2, sv);
    assert(is_digit(t[lh + 2 + ls + 3])) by {
        assert(t[lh + 2 + ls + 3] == dec_chars(lv)[0]);
    }
    lemma_p_sep_at(t, lh + 2 + ls + 1);
    lemma_p_pct_at(t, lh + 2 + ls + 3, lv);
    assert(p_pct(t, lh + 2 + ls + 3) == Some((lv, t.len() as int)));
    assert forall|k: int| 0 <= k < t.len() implies #[trigger] arg_char(t[k]) by {
        if k < lh {
            assert(t[k] == sdec_chars(h)[k]);
            assert(arg_char(sdec_chars(h)[k]));
        } else if k < lh + 2 {
        } else if k < lh + 2 + ls {
            assert(t[k] == dec_chars(sv)[k - (lh + 2)]);
            assert(arg_char(dec_chars(sv)[k - (lh + 2)]));
        } else if k < lh + 2 + ls + 3 {
        } else if k < lh + 2 + ls + 3 + ll {
            assert(t[k] == dec_chars(lv)[k - (lh + 2 + ls + 3)]);
            assert(arg_char(dec_chars(lv)[k - (lh + 2 + ls + 3)]));
        }
    }
}

/// The formatted `hsla` argument list parses back to its channels.
#[verifier::rlimit(60)]
#[verifier::spinoff_prover]
proof fn lemma_hsla_args(t: Seq<char>, h: int, sv: int, lv: int, a: int)
    requires
        -0x8000_0000 <= h <= 0x7FFF_FFFF,
        0 <= sv <= 100,
        0 <= lv <= 100,
        0 <= a <= 1000,
        t == sdec_chars(h) + ", "@ + dec_chars(sv) + "%, "@ + dec_chars(lv) + "%, "@
            + alpha_chars(a),
    ensures
        crate::parse::hsla_inner(t) == Some(
            Hsla { h: h as i32, s: sv as u8, l: lv as u8, a: a as u16 },
        ),
        forall|k: int| 0 <= k < t.len() ==> #[trigger] arg_char(t[k]),
{
    reveal_strlit(", ");
    reveal_strlit("%, ");
    let lh = sdec_chars(h).len() as int;
    let ls = dec_chars(sv).len() as int;
    let ll = dec_chars(lv).len() as int;
    let la = alpha_chars(a).len() as int;
    lemma_sdec_chars_props(h);
    lemma_dec_chars_props(sv);
    lemma_dec_chars_props(lv);
    lemma_alpha_chars_props(a);
    assert(t.len() == lh + 2 + ls + 3 + ll + 3 + la);
    assert forall|k: int| 0 <= k < lh implies t[k] == sdec_chars(h)[k] by {}
    assert(t[lh] == ',');
    assert(t[lh + 1] == ' ');
    assert forall|k: int| 0 <= k < ls implies t[lh + 2 + k] == dec_chars(sv)[k] by {}
    assert(t[lh + 2 + ls] == '%');
    assert(t[lh + 2 + ls + 1] == ',');
    assert(t[lh + 2 + ls + 2] == ' ');
    assert forall|k: int| 0 <= k < ll implies t[lh + 2 + ls + 3 + k] == dec_chars(lv)[k] by {}
    let n4 = lh + 2 + ls + 3 + ll;
    assert(t[n4] == '%');
    assert(t[n4 + 1] == ',');
    assert(t[n4 + 2] == ' ');
    assert forall|k: int| 0 <= k < la implies t[n4 + 3 + k] == alpha_chars(a)[k] by {}
    lemma_p_hue_at(t, 0, h);
    assert(is_digit(t[lh + 2])) by {
        assert(t[lh + 2] == dec_chars(sv)[0]);
    }
    lemma_p_sep_at(t, lh);
    lemma_p_pct_at(t, lh + 2, sv);
    assert(is_digit(t[lh + 2 + ls + 3])) by {
        assert(t[lh + 2 + ls + 3] == dec_chars(lv)[0]);
    }
    lemma_p_sep_at(t, lh + 2 + ls + 1);
    lemma_p_pct_at(t, lh + 2 + ls + 3, lv);
    assert(!is_ws(t[n4 + 3])) by {
        assert(t[n4 + 3] == alpha_chars(a)[0]);
        assert(arg_char(alpha_chars(a)[0]));
    }
    lemma_p_sep_at(t, n4 + 1);
    lemma_p_alpha_at(t, n4 + 3, a);
    assert forall|k: int| 0 <= k < t.len() implies #[trigger] arg_char(t[k]) by {
        if k < lh {
            assert(t[k] == sdec_chars(h)[k]);
            assert(arg_char(sdec_chars(h)[k]));
        } else if k < lh + 2 {
        } else if k < lh + 2 + ls {
            assert(t[k] == dec_chars(sv)[k - (lh + 2)]);
            assert(arg_char(dec_chars(sv)[k - (lh + 2)]));
        } else if k < lh + 2 + ls + 3 {
        } else if k < n4 {
            assert(t[k] == dec_chars(lv)[k - (lh + 2 + ls + 3)]);
            assert(arg_char(dec_chars(lv)[k - (lh + 2 + ls + 3)]));
        } else if k < n4 + 3 {
        } else {
            assert(t[k] == alpha_chars(a)[k - (n4 + 3)]);
            assert(arg_char(alpha_chars(a)[k - (n4 + 3)]));
        }
    }
}

/// The formatted `rgb` argument list parses back to its bytes.
#[verifier::rlimit(60)]
#[verifier::spinoff_prover]
proof fn lemma_rgb_args(t: Seq<char>, rv: int, gv: int, bv: int)
    requires
        0 <= rv <= 255,
        0 <= gv <= 255,
        0 <= bv <= 255,
        t == dec_chars(rv) + ", "@ + dec_chars(gv) + ", "@ + dec_chars(bv),
    ensures
        crate::parse::rgb_inner(t) == Some(Rgb { r: rv as u8, g: gv as u8, b: bv as u8 }),
        forall|k: int| 0 <= k < t.len() ==> #[trigger] arg_char(t[k]),
{
    reveal_strlit(", ");
    let lr = dec_chars(rv).len() as int;
    let lg = dec_chars(gv).len() as int;
    let lb = dec_chars(bv).len() as int;
    lemma_dec_chars_props(rv);
    lemma_dec_chars_props(gv);
    lemma_dec_chars_props(bv);
    assert(t.len() == lr + 2 + lg + 2 + lb);
    assert forall|k: int| 0 <= k < lr implies t[k] == dec_chars(rv)[k] by {}
    assert(t[lr] == ',');
    assert(t[lr + 1] == ' ');
    assert forall|k: int| 0 <= k < lg implies t[lr + 2 + k] == dec_chars(gv)[k] by {}
    assert(t[lr + 2 + lg] == ',');
    assert(t[lr + 2 + lg + 1] == ' ');
    assert forall|k: int| 0 <= k < lb implies t[lr + 2 + lg + 2 + k] == dec_chars(bv)[k] by {}
    lemma_p_uint_at(t, 0, rv, 255);
    assert(is_digit(t[lr + 2])) by {
        assert(t[lr + 2] == dec_chars(gv)[0]);
    }
    lemma_p_sep_at(t, lr);
    lemma_p_uint_at(t, lr + 2, gv, 255);
    assert(is_digit(t[lr + 2 + lg + 2])) by {
        assert(t[lr + 2 + lg + 2] == dec_chars(bv)[0]);
    }
    lemma_p_sep_at(t, lr + 2 + lg);
    lemma_p_uint_at(t, lr + 2 + lg + 2, bv, 255);
    assert forall|k: int| 0 <= k < t.len() implies #[trigger] arg_char(t[k]) by {
        if k < lr {
            assert(t[k] == dec_chars(rv)[k]);
            assert(arg_char(dec_chars(rv)[k]));
        } else if k < lr + 2 {
        } else if k < lr + 2 + lg {
            assert(t[k] == dec_chars(gv)[k - (lr + 2)]);
            assert(arg_char(dec_chars(gv)[k - (lr + 2)]));
        } else if k < lr + 2 + lg + 2 {
        } else {
            assert(t[k] == dec_chars(bv)[k - (lr + 2 + lg + 2)]);
            assert(arg_char(dec_chars(bv)[k - (lr + 2 + lg + 2)]));
        }
    }
}

/// The formatted `rgba` argument list parses back to its channels.
#[verifier::rlimit(60)]
#[verifier::spinoff_prover]
proof fn lemma_rgba_args(t: Seq<char>, rv: int, gv: int, bv: int, a: int)
    requires
        0 <= rv <= 255,
        0 <= gv <= 255,
        0 <= bv <= 255,
        0 <= a <= 1000,
        t == dec_chars(rv) + ", "@ + dec_chars(gv) + ", "@ + dec_chars(bv) + ", "@
            + alpha_chars(a),
    ensures
        crate::parse::rgba_inner(t) == Some(
            Rgba { r: rv as u8, g: gv as u8, b: bv as u8, a: a as u16 },
        ),
        forall|k: int| 0 <= k < t.len() ==> #[trigger] arg_char(t[k]),
{
    reveal_strlit(", ");
    let lr = dec_chars(rv).len() as int;
    let lg = dec_chars(gv).len() as int;
    let lb = dec_chars(bv).len() as int;
    let la = alpha_chars(a).len() as int;
    lemma_dec_chars_props(rv);
    lemma_dec_chars_props(gv);
    lemma_dec_chars_props(bv);
    lemma_alpha_chars_props(a);
    assert(t.len() == lr + 2 + lg + 2 + lb + 2 + la);
    assert forall|k: int| 0 <= k < lr implies t[k] == dec_chars(rv)[k] by {}
    assert(t[lr] == ',');
    assert(t[lr + 1] == ' ');
    assert forall|k: int| 0 <= k < lg implies t[lr + 2 + k] == dec_chars(gv)[k] by {}
    assert(t[lr + 2 + lg] == ',');
    assert(t[lr + 2 + lg + 1] == ' ');
    assert forall|k: int| 0 <= k < lb implies t[lr + 2 + lg + 2 + k] == dec_chars(bv)[k] by {}
    let n3 = lr + 2 + lg + 2 + lb;
    assert(t[n3] == ',');
    assert(t[n3 + 1] == ' ');
    assert forall|k: int| 0 <= k < la implies t[n3 + 2 + k] == alpha_chars(a)[k] by {}
    lemma_p_uint_at(t, 0, rv, 255);
    assert(is_digit(t[lr + 2])) by {
        assert(t[lr + 2] == dec_chars(gv)[0]);
    }
    lemma_p_sep_at(t, lr);
    lemma_p_uint_at(t, lr + 2, gv, 255);
    assert(is_digit(t[lr + 2 + lg + 2])) by {
        assert(t[lr + 2 + lg + 2] == dec_chars(bv)[0]);
    }
    lemma_p_sep_at(t, lr + 2 + lg);
    lemma_p_uint_at(t, lr + 2 + lg + 2, bv, 255);
    assert(!is_ws(t[n3 + 2])) by {
        assert(t[n3 + 2] == alpha_chars(a)[0]);
        assert(arg_char(alpha_chars(a)[0]));
    }
    lemma_p_sep_at(t, n3);
    lemma_p_alpha_at(t, n3 + 2, a);
    assert forall|k: int| 0 <= k < t.len() implies #[trigger] arg_char(t[k]) by {
        if k < lr {
            assert(t[k] == dec_chars(rv)[k]);
            assert(arg_char(dec_chars(rv)[k]));
        } else if k < lr + 2 {
        } else if k < lr + 2 + lg {
            assert(t[k] == dec_chars(gv)[k - (lr + 2)]);
            assert(arg_char(dec_chars(gv)[k - (lr + 2)]));
        } else if k < lr + 2 + lg + 2 {
        } else if k < n3 {
            assert(t[k] == dec_chars(bv)[k - (lr + 2 + lg + 2)]);
            assert(arg_char(dec_chars(bv)[k - (lr + 2 + lg + 2)]));
        } else if k < n3 + 2 {
        } else {
            assert(t[k] == alpha_chars(a)[k - (n3 + 2)]);
            assert(arg_char(alpha_chars(a)[k - (n3 + 2)]));
        }
    }
}



/// What a formatted literal parses back to: the very channels of the
/// view its notation prints — the HSL view for the HSL family, the RGB
/// view for the rest — except that notations without alpha drop it and
/// the `hexa` alpha passes through its byte quantization.
pub open spec fn reparse_of(cv: ColorValue, m: ColorModel) -> Color {
    match m {
        ColorModel::Hsl => Color::Hsl(Hsl { h: cv.hsla.h, s: cv.hsla.s, l: cv.hsla.l }),
        ColorModel::Hsla => Color::Hsla(cv.hsla),
        ColorModel::Rgb => Color::Rgb(Rgb { r: cv.rgba.r, g: cv.rgba.g, b: cv.rgba.b }),
        ColorModel::Rgba => Color::Rgba(cv.rgba),
        ColorModel::Hex => Color::Hex(Rgb { r: cv.rgba.r, g: cv.rgba.g, b: cv.rgba.b }),
        ColorModel::Hexa => Color::Hexa(
            Rgba {
                r: cv.rgba.r,
                g: cv.rgba.g,
                b: cv.rgba.b,
                a: alpha_from_byte(alpha_to_byte(cv.rgba.a as int)) as u16,
            },
        ),
    }
}

proof fn lemma_arg_not_paren(c: char)
    requires
        arg_char(c),
    ensures
        c != ')',
{
}

/// A head, an argument list of plain argument characters, and a closing
/// parenthesis: the shape every function-call literal the formatter
/// emits has. The closing parenthesis is the only one in sight, so the
/// whole call matches and the argument list is exactly `t`.
proof fn lemma_call_structure(s: Seq<char>, hd: Seq<char>, t: Seq<char>, n: int)
    requires
        s == (hd + t) + ")"@,
        hd.len() == n,
        4 <= n <= 5,
        forall|k: int| 0 <= k < t.len() ==> #[trigger] arg_char(t[k]),
    ensures
        crate::parse::paren_ok(s, n),
        crate::parse::inner_of(s, n) =~= t,
        forall|j: int| 0 <= j < n ==> s[j] == hd[j],
        s.len() == n + t.len() + 1,
{
    reveal_strlit(")");
    assert(s.len() == n + t.len() + 1);
    assert(s[s.len() - 1] == ')');
    assert forall|k: int| n <= k < s.len() - 1 implies s[k] != ')' by {
        assert(s[k] == t[k - n]);
        assert(arg_char(t[k - n]));
        lemma_arg_not_paren(t[k - n]);
    }
    assert(crate::parse::inner_of(s, n) =~= t);
    assert forall|j: int| 0 <= j < n implies s[j] == hd[j] by {}
}

#[verifier::rlimit(80)]
#[verifier::spinoff_prover]
proof fn lemma_rt_hsl(cv: ColorValue)
    requires
        color_value_wf(cv),
    ensures
        spec_parse(spec_format(cv, ColorModel::Hsl)) == Some(reparse_of(cv, ColorModel::Hsl)),
{
    let s = spec_format(cv, ColorModel::Hsl);
    let h = cv.hsla.h as int;
    let sv = cv.hsla.s as int;
    let lv = cv.hsla.l as int;
    let hd = "hsl("@;
    let pa = sdec_chars(h);
    let pb = ", "@;
    let pc = dec_chars(sv);
    let pd = "%, "@;
    let pe = dec_chars(lv);
    let pf = "%"@;
    let t = pa + pb + pc + pd + pe + pf;
    reveal_strlit("hsl(");
    reveal_strlit("%");
    reveal_strlit("%)");
    reveal_strlit(")");
    lemma_hsl_args(t, h, sv, lv);
    lemma_concat_associative(hd, pa, pb);
    lemma_concat_associative(hd, pa + pb, pc);
    lemma_concat_associative(hd, pa + pb + pc, pd);
    lemma_concat_associative(hd, pa + pb + pc + pd, pe);
    lemma_concat_associative(hd, pa + pb + pc + pd + pe, pf);
    assert(s =~= (hd + t) + ")"@);
    lemma_call_structure(s, hd, t, 4);
    assert(crate::parse::head_hsl(s));
    assert(!crate::parse::head_hsla(s)) by {
        assert(s[3] == '(');
    }
    assert(hsl_match(s) == Some(Hsl { h: cv.hsla.h, s: cv.hsla.s, l: cv.hsla.l }));
    assert(hsla_match(s) is None);
}

#[verifier::rlimit(80)]
#[verifier::spinoff_prover]
proof fn lemma_rt_hsla(cv: ColorValue)
    requires
        color_value_wf(cv),
    ensures
        spec_parse(spec_format(cv, ColorModel::Hsla)) == Some(reparse_of(cv, ColorModel::Hsla)),
{
    let s = spec_format(cv, ColorModel::Hsla);
    let h = cv.hsla.h as int;
    let sv = cv.hsla.s as int;
    let lv = cv.hsla.l as int;
    let a = cv.hsla.a as int;
    let hd = "hsla("@;
    let pa = sdec_chars(h);
    let pb = ", "@;
    let pc = dec_chars(sv);
    let pd = "%, "@;
    let pe = dec_chars(lv);
    let pf = "%, "@;
    let pg = alpha_chars(a);
    let t = pa + pb + pc + pd + pe + pf + pg;
    reveal_strlit("hsla(");
    reveal_strlit(")");
    lemma_hsla_args(t, h, sv, lv, a);
    lemma_concat_associative(hd, pa, pb);
    lemma_concat_associative(hd, pa + pb, pc);
    lemma_concat_associative(hd, pa + pb + pc, pd);
    lemma_concat_associative(hd, pa + pb + pc + pd, pe);
    lemma_concat_associative(hd, pa + pb + pc + pd + pe, pf);
    lemma_concat_associative(hd, pa + pb + pc + pd + pe + pf, pg);
    assert(s =~= (hd + t) + ")"@);
    lemma_call_structure(s, hd, t, 5);
    assert(crate::parse::head_hsla(s));
    assert(hsla_match(s) == Some(cv.hsla));
}

#[verifier::rlimit(80)]
#[verifier::spinoff_prover]
proof fn lemma_rt_rgb(cv: ColorValue)
    requires
        color_value_wf(cv),
    ensures
        spec_parse(spec_format(cv, ColorModel::Rgb)) == Some(reparse_of(cv, ColorModel::Rgb)),
{
    let s = spec_format(cv, ColorModel::Rgb);
    let rgb = cv.rgba;
    let hd = "rgb("@;
    let pa = dec_chars(rgb.r as int);
    let pb = ", "@;
    let pc = dec_chars(rgb.g as int);
    let pd = ", "@;
    let pe = dec_chars(rgb.b as int);
    let t = pa + pb + pc + pd + pe;
    reveal_strlit("rgb(");
    reveal_strlit(")");
    lemma_rgb_args(t, rgb.r as int, rgb.g as int, rgb.b as int);
    lemma_concat_associative(hd, pa, pb);
    lemma_concat_associative(hd, pa + pb, pc);
    lemma_concat_associative(hd, pa + pb + pc, pd);
    lemma_concat_associative(hd, pa + pb + pc + pd, pe);
    assert(s =~= (hd + t) + ")"@);
    lemma_call_structure(s, hd, t, 4);
    assert(crate::parse::head_rgb(s));
    assert(!crate::parse::head_hsla(s)) by {
        assert(s[0] == 'r');
    }
    assert(!crate::parse::head_hsl(s)) by {
        assert(s[0] == 'r');
    }
    assert(!crate::parse::head_rgba(s)) by {
        assert(s[3] == '(');
    }
    assert(rgb_match(s) == Some(Rgb { r: rgb.r, g: rgb.g, b: rgb.b }));
    assert(hsla_match(s) is None);
    assert(hsl_match(s) is None);
    assert(rgba_match(s) is None);
}

#[verifier::rlimit(80)]
#[verifier::spinoff_prover]
proof fn lemma_rt_rgba(cv: ColorValue)
    requires
        color_value_wf(cv),
    ensures
        spec_parse(spec_format(cv, ColorModel::Rgba)) == Some(reparse_of(cv, ColorModel::Rgba)),
{
    let s = spec_format(cv, ColorModel::Rgba);
    let rgb = cv.rgba;
    let a = rgb.a as int;
    let hd = "rgba("@;
    let pa = dec_chars(rgb.r as int);
    let pb = ", "@;
    let pc = dec_chars(rgb.g as int);
    let pd = ", "@;
    let pe = dec_chars(rgb.b as int);
    let pf = ", "@;
    let pg = alpha_chars(a);
    let t = pa + pb + pc + pd + pe + pf + pg;
    reveal_strlit("rgba(");
    reveal_strlit(")");
    lemma_rgba_args(t, rgb.r as int, rgb.g as int, rgb.b as int, a);
    lemma_concat_associative(hd, pa, pb);
    lemma_concat_associative(hd, pa + pb, pc);
    lemma_concat_associative(hd, pa + pb + pc, pd);
    lemma_concat_associative(hd, pa + pb + pc + pd, pe);
    lemma_concat_associative(hd, pa + pb + pc + pd + pe, pf);
    lemma_concat_associative(hd, pa + pb + pc + pd + pe + pf, pg);
    assert(s =~= (hd + t) + ")"@);
    lemma_call_structure(s, hd, t, 5);
    assert(crate::parse::head_rgba(s));
    assert(!crate::parse::head_hsla(s)) by {
        assert(s[0] == 'r');
    }
    assert(!crate::parse::head_hsl(s)) by {
        assert(s[0] == 'r');
    }
    assert(rgba_match(s) == Some(rgb));
    assert(hsla_match(s) is None);
    assert(hsl_match(s) is None);
}

/// Hexadecimal digit characters head off every function-call grammar and
/// the `#` strip.
proof fn lemma_hex_char_classes(c: char)
    requires
        is_hex_digit(c),
    ensures
        c != '#' && c != '(' && c != 'h' && c != 'r',
{
}

#[verifier::rlimit(80)]
#[verifier::spinoff_prover]
proof fn lemma_rt_hex(cv: ColorValue)
    requires
        color_value_wf(cv),
    ensures
        spec_parse(spec_format(cv, ColorModel::Hex)) == Some(reparse_of(cv, ColorModel::Hex)),
{
    let s = spec_format(cv, ColorModel::Hex);
    let rgb = cv.rgba;
    lemma_hex_char(rgb.r as int / 16);
    lemma_hex_char(rgb.r as int % 16);
    lemma_hex_char(rgb.g as int / 16);
    lemma_hex_char(rgb.g as int % 16);
    lemma_hex_char(rgb.b as int / 16);
    lemma_hex_char(rgb.b as int % 16);
    assert(s.len() == 6);
    assert(s[0] == hex_char(rgb.r as int / 16));
    assert(s[1] == hex_char(rgb.r as int % 16));
    assert(s[2] == hex_char(rgb.g as int / 16));
    assert(s[3] == hex_char(rgb.g as int % 16));
    assert(s[4] == hex_char(rgb.b as int / 16));
    assert(s[5] == hex_char(rgb.b as int % 16));
    assert(all_hex(s)) by {
        assert forall|k: int| 0 <= k < s.len() implies is_hex_digit(s[k]) by {}
    }
    lemma_hex_char_classes(s[0]);
    lemma_hex_char_classes(s[3]);
    lemma_hex_char_classes(s[4]);
    assert(!crate::parse::head_hsla(s));
    assert(!crate::parse::head_hsl(s));
    assert(!crate::parse::head_rgba(s));
    assert(!crate::parse::head_rgb(s));
    assert(strip_hash(s) == s);
    assert(hexa_match(s) is None);
    assert(hex_byte(s, 0) == rgb.r as int);
    assert(hex_byte(s, 2) == rgb.g as int);
    assert(hex_byte(s, 4) == rgb.b as int);
    assert(hex_match(s) == Some(Rgb { r: rgb.r, g: rgb.g, b: rgb.b }));
    assert(hsla_match(s) is None);
    assert(hsl_match(s) is None);
    assert(rgba_match(s) is None);
    assert(rgb_match(s) is None);
}

#[verifier::rlimit(80)]
#[verifier::spinoff_prover]
proof fn lemma_rt_hexa(cv: ColorValue)
    requires
        color_value_wf(cv),
    ensures
        spec_parse(spec_format(cv, ColorModel::Hexa)) == Some(reparse_of(cv, ColorModel::Hexa)),
{
    let s = spec_format(cv, ColorModel::Hexa);
    let rgb = cv.rgba;
    let ab = alpha_to_byte(rgb.a as int);
    crate::color::lemma_round_div_bound(rgb.a as int * 255, 1000, 255);
    lemma_hex_char(rgb.r as int / 16);
    lemma_hex_char(rgb.r as int % 16);
    lemma_hex_char(rgb.g as int / 16);
    lemma_hex_char(rgb.g as int % 16);
    lemma_hex_char(rgb.b as int / 16);
    lemma_hex_char(rgb.b as int % 16);
    lemma_hex_char(ab / 16);
    lemma_hex_char(ab % 16);
    assert(s.len() == 8);
    assert(s[0] == hex_char(rgb.r as int / 16));
    assert(s[1] == hex_char(rgb.r as int % 16));
    assert(s[2] == hex_char(rgb.g as int / 16));
    assert(s[3] == hex_char(rgb.g as int % 16));
    assert(s[4] == hex_char(rgb.b as int / 16));
    assert(s[5] == hex_char(rgb.b as int % 16));
    assert(s[6] == hex_char(ab / 16));
    assert(s[7] == hex_char(ab % 16));
    assert(all_hex(s)) by {
        assert forall|k: int| 0 <= k < s.len() implies is_hex_digit(s[k]) by {}
    }
    lemma_hex_char_classes(s[0]);
    lemma_hex_char_classes(s[3]);
    lemma_hex_char_classes(s[4]);
    assert(!crate::parse::head_hsla(s));
    assert(!crate::parse::head_hsl(s));
    assert(!crate::parse::head_rgba(s));
    assert(!crate::parse::head_rgb(s));
    assert(strip_hash(s) == s);
    assert(hex_byte(s, 0) == rgb.r as int);
    assert(hex_byte(s, 2) == rgb.g as int);
    assert(hex_byte(s, 4) == rgb.b as int);
    assert(hex_byte(s, 6) == ab);
    assert(hexa_match(s) == Some(
        Rgba { r: rgb.r, g: rgb.g, b: rgb.b, a: alpha_from_byte(ab) as u16 },
    ));
    assert(hsla_match(s) is None);
    assert(hsl_match(s) is None);
    assert(rgba_match(s) is None);
    assert(rgb_match(s) is None);
}

/// Round-trip closure: every literal the formatter produces parses back,
/// in the very notation it was rendered in, to the reparse projection of
/// the rendered value — the identity on every channel the notation can
/// express.
pub proof fn lemma_format_parse_roundtrip(cv: ColorValue, m: ColorModel)
    requires
        color_value_wf(cv),
    ensures
        spec_parse(spec_format(cv, m)) == Some(reparse_of(cv, m)),
        spec_model(reparse_of(cv, m)) == m,
{
    match m {
        ColorModel::Hsl => lemma_rt_hsl(cv),
        ColorModel::Hsla => lemma_rt_hsla(cv),
        ColorModel::Rgb => lemma_rt_rgb(cv),
        ColorModel::Rgba => lemma_rt_rgba(cv),
        ColorModel::Hex => lemma_rt_hex(cv),
        ColorModel::Hexa => lemma_rt_hexa(cv),
    }
}

/// Full closure on parsed literals: a parsed color, re-rendered in its
/// own notation, parses back to the identical value — the pipeline is the
/// identity on every literal, whatever its notation.
pub proof fn lemma_parse_format_exact(s: Seq<char>, c: Color)
    requires
        spec_parse(s) == Some(c),
        crate::parse::color_wf(c),
    ensures
        spec_parse(spec_format(crate::parse::spec_color_to_value(c), spec_model(c))) == Some(c),
{
    let cv = crate::parse::spec_color_to_value(c);
    match c {
        Color::Hsl(_) => {
            lemma_rt_hsl(cv);
        },
        Color::Hsla(_) => {
            lemma_rt_hsla(cv);
        },
        Color::Rgb(x) => {
            crate::color::lemma_rgb_to_hsl_wf(Rgb { r: x.r, g: x.g, b: x.b });
            lemma_rt_rgb(cv);
        },
        Color::Rgba(x) => {
            crate::color::lemma_rgb_to_hsl_wf(Rgb { r: x.r, g: x.g, b: x.b });
            lemma_rt_rgba(cv);
        },
        Color::Hex(x) => {
            crate::color::lemma_rgb_to_hsl_wf(x);
            lemma_rt_hex(cv);
        },
        Color::Hexa(x) => {
            crate::color::lemma_rgb_to_hsl_wf(Rgb { r: x.r, g: x.g, b: x.b });
            lemma_rt_hexa(cv);
            assert(hexa_match(s) == Some(x));
            let t = strip_hash(s);
            let byte = hex_byte(t, 6);
            assert(is_hex_digit(t[6]) && is_hex_digit(t[7]));
            assert(0 <= byte <= 255);
            assert(x.a as int == alpha_from_byte(byte));
            crate::color::lemma_round_div_bound(byte * 1000, 255, 1000);
            crate::color::lemma_alpha_byte_roundtrip(byte);
            assert(alpha_from_byte(alpha_to_byte(cv.rgba.a as int)) == x.a as int);
        },
    }
}

/// Grammar priority: the parser returns the first grammar, in the order
/// hsla, hsl, rgba, rgb, hexa, hex, that matches the whole input; so a
/// string that matches exactly one grammar parses as that grammar.
pub proof fn lemma_priority_order(s: Seq<char>)
    ensures
        hsla_match(s) is Some ==> spec_parse(s) == Some(Color::Hsla(hsla_match(s)->0)),
        hsla_match(s) is None && hsl_match(s) is Some ==> spec_parse(s) == Some(
            Color::Hsl(hsl_match(s)->0),
        ),
        hsla_match(s) is None && hsl_match(s) is None && rgba_match(s) is Some
            ==> spec_parse(s) == Some(Color::Rgba(rgba_match(s)->0)),
        hsla_match(s) is None && hsl_match(s) is None && rgba_match(s) is None && rgb_match(s)
            is Some ==> spec_parse(s) == Some(Color::Rgb(rgb_match(s)->0)),
        hsla_match(s) is None && hsl_match(s) is None && rgba_match(s) is None && rgb_match(s)
            is None && hexa_match(s) is Some ==> spec_parse(s) == Some(Color::Hexa(hexa_match(s)->0)),
        hsla_match(s) is None && hsl_match(s) is None && rgba_match(s) is None && rgb_match(s)
            is None && hexa_match(s) is None && hex_match(s) is Some ==> spec_parse(s)
            == Some(Color::Hex(hex_match(s)->0)),
        hsla_match(s) is None && hsl_match(s) is None && rgba_match(s) is None && rgb_match(s)
            is None && hexa_match(s) is None && hex_match(s) is None ==> spec_parse(s) is None,
{
}

/// Digit-count dispatch: after the optional `#`, six hexadecimal digits
/// always parse as `hex` and eight always as `hexa`; the count alone
/// decides, and the two shapes can never collide.
pub proof fn lemma_hex_length_dispatch(s: Seq<char>)
    requires
        all_hex(strip_hash(s)),
        strip_hash(s).len() == 6 || strip_hash(s).len() == 8,
    ensures
        strip_hash(s).len() == 6 ==> (spec_parse(s) matches Some(c) && c is Hex),
        strip_hash(s).len() == 8 ==> (spec_parse(s) matches Some(c) && c is Hexa),
{
    let t = strip_hash(s);
    assert(s.len() >= 6);
    if s[0] == '#' {
        assert(!crate::parse::head_hsla(s));
        assert(!crate::parse::head_hsl(s));
        assert(!crate::parse::head_rgba(s));
        assert(!crate::parse::head_rgb(s));
    } else {
        assert(t == s);
        assert(is_hex_digit(s[0]));
        lemma_hex_char_classes(s[0]);
        assert(!crate::parse::head_hsla(s));
        assert(!crate::parse::head_hsl(s));
        assert(!crate::parse::head_rgba(s));
        assert(!crate::parse::head_rgb(s));
    }
}


} // verus!
