//! The template-callable helper layer. Every color-taking helper parses
//! its argument, applies the requested algebra on the HSL+alpha
//! projection, and re-renders in the literal's own notation. A string
//! that parses as no color literal is passed through unchanged, with a
//! warning carried in the returned value rather than thrown: a render
//! must never abort because one argument was free text or an
//! already-resolved palette token.

use vstd::prelude::*;

use crate::color::spec_darken;
use crate::color::spec_fade;
use crate::color::spec_lighten;
use crate::color::spec_mix;
use crate::color::spec_value_of_hsla;
use crate::color::Hsla;
use crate::format::color;
use crate::format::spec_format;
use crate::format::spec_model;
use crate::parse::spec_color_to_hsla;
use crate::parse::spec_parse;
use crate::parse::Color;
use crate::postprocess::b64_encode;
use crate::postprocess::b64_of;
use crate::postprocess::envelope_chars;
use crate::postprocess::lemma_envelope_roundtrip;
use crate::postprocess::spec_postprocess;
use vstd::string::StrSliceExecFns;
use vstd::utf8::encode_utf8;

verus! {

/// What a helper returns: the rendered text, and the offending literal of
/// at most one diagnostic warning. The caller forwards the warning to its
/// diagnostic stream; it is never mixed into the rendered text.
pub struct HelperOutput {
    pub text: String,
    pub warning: Option<String>,
}

/// The three single-color algebra operations a helper can request.
#[derive(Clone, Copy, Debug, PartialEq, Eq, Structural)]
pub enum ColorOp {
    Lighten,
    Darken,
    Fade,
}

pub open spec fn spec_apply_op(c: Hsla, op: ColorOp, r: int) -> Hsla {
    match op {
        ColorOp::Lighten => spec_lighten(c, r),
        ColorOp::Darken => spec_darken(c, r),
        ColorOp::Fade => spec_fade(c, r),
    }
}

/// The text a single-color helper produces: the input itself when it is
/// not a color literal, else the transformed color re-rendered in the
/// input's own notation.
pub open spec fn spec_transform(s: Seq<char>, op: ColorOp, r: int) -> Seq<char> {
    match spec_parse(s) {
        None => s,
        Some(c) => spec_format(
            spec_value_of_hsla(spec_apply_op(spec_color_to_hsla(c), op, r)),
            spec_model(c),
        ),
    }
}

/// The projection `mix` uses in place of an unparsable second color:
/// fully opaque black. The choice is arbitrary but fixed, so the fallback
/// path is defined rather than ambiguous.
pub open spec fn default_mix_partner() -> Hsla {
    Hsla { h: 0, s: 0, l: 0, a: 1000 }
}

/// The text the `mix` helper produces: the first literal's notation is
/// kept; an unparsable first argument is passed through, while a parse
/// failure on the second is silently ignored by mixing toward the fixed
/// default projection instead.
pub open spec fn spec_mix_strings(a: Seq<char>, b: Seq<char>, r: int) -> Seq<char> {
    match spec_parse(a) {
        None => a,
        Some(ca) => {
            let partner = match spec_parse(b) {
                None => default_mix_partner(),
                Some(cb) => spec_color_to_hsla(cb),
            };
            spec_format(
                spec_value_of_hsla(spec_mix(spec_color_to_hsla(ca), partner, r)),
                spec_model(ca),
            )
        },
    }
}

/// The shared body of the single-color helpers: parse, transform, render
/// in the original notation; pass an unparsable string through with a
/// warning naming it.
pub fn format_color_string(color_string: &str, op: ColorOp, ratio: i32) -> (out: HelperOutput)
    ensures
        out.text@ == spec_transform(color_string@, op, ratio as int),
        out.warning is Some <==> spec_parse(color_string@) is None,
        out.warning matches Some(w) ==> w@ == color_string@,
{
    match Color::from_str(color_string) {
        Ok(c) => {
            let hsla = c.to_hsla();
            let transformed = match op {
                ColorOp::Lighten => hsla.lighten(ratio),
                ColorOp::Darken => hsla.darken(ratio),
                ColorOp::Fade => hsla.fade(ratio),
            };
            HelperOutput { text: color(transformed.to_value(), c.model()), warning: None }
        },
        Err(e) => HelperOutput { text: color_string.to_owned(), warning: Some(e.literal) },
    }
}

/// Raises lightness toward 100 by `ratio` thousandths of the headroom;
/// `ratio` is clamped into `[0, 1000]`. A non-literal argument comes back
/// unchanged with one warning.
pub fn lighten(color_string: &str, ratio: i32) -> (out: HelperOutput)
    ensures
        out.text@ == spec_transform(color_string@, ColorOp::Lighten, ratio as int),
        out.warning is Some <==> spec_parse(color_string@) is None,
        out.warning matches Some(w) ==> w@ == color_string@,
{
    format_color_string(color_string, ColorOp::Lighten, ratio)
}

/// Lowers lightness toward 0 by `ratio` thousandths of its value;
/// `ratio` is clamped into `[0, 1000]`. A non-literal argument comes back
/// unchanged with one warning.
pub fn darken(color_string: &str, ratio: i32) -> (out: HelperOutput)
    ensures
        out.text@ == spec_transform(color_string@, ColorOp::Darken, ratio as int),
        out.warning is Some <==> spec_parse(color_string@) is None,
        out.warning matches Some(w) ==> w@ == color_string@,
{
    format_color_string(color_string, ColorOp::Darken, ratio)
}

/// Raises alpha toward fully opaque by `ratio` thousandths of the
/// headroom, the alias for fading; `ratio` is clamped into `[0, 1000]`.
pub fn opacity(color_string: &str, ratio: i32) -> (out: HelperOutput)
    ensures
        out.text@ == spec_transform(color_string@, ColorOp::Fade, ratio as int),
        out.warning is Some <==> spec_parse(color_string@) is None,
        out.warning matches Some(w) ==> w@ == color_string@,
{
    format_color_string(color_string, ColorOp::Fade, ratio)
}

/// Interpolates every HSL+alpha channel from the first color (ratio 0)
/// toward the second (ratio 1000 thousandths), rendering in the first
/// literal's notation. An unparsable first argument is passed through
/// with one warning naming it; a parse failure on the second is silently
/// ignored, its projection taken as the fixed default.
pub fn mix(color_a: &str, color_b: &str, ratio: i32) -> (out: HelperOutput)
    ensures
        out.text@ == spec_mix_strings(color_a@, color_b@, ratio as int),
        out.warning is Some <==> spec_parse(color_a@) is None,
        out.warning matches Some(w) ==> w@ == color_a@,
{
    match Color::from_str(color_a) {
        Ok(ca) => {
            let partner: Hsla = match Color::from_str(color_b) {
                Ok(cb) => cb.to_hsla(),
                Err(_) => Hsla { h: 0, s: 0, l: 0, a: 1000 },
            };
            let mixed = ca.to_hsla().mix(&partner, ratio);
            HelperOutput { text: color(mixed.to_value(), ca.model()), warning: None }
        },
        Err(e) => HelperOutput { text: color_a.to_owned(), warning: Some(e.literal) },
    }
}

/// Picks the second argument when the active palette variant is the light
/// one, else the first.
pub fn darklight(dark: &str, light: &str, is_light: bool) -> (out: String)
    ensures
        out@ == if is_light {
            light@
        } else {
            dark@
        },
{
    if is_light {
        light.to_owned()
    } else {
        dark.to_owned()
    }
}

/// What `str::to_uppercase` returns; it depends on the characters alone.
pub uninterp spec fn upper_of(s: Seq<char>) -> Seq<char>;

/// What `str::to_lowercase` returns; it depends on the characters alone.
pub uninterp spec fn lower_of(s: Seq<char>) -> Seq<char>;

/// What `titlecase::titlecase` returns; it depends on the characters
/// alone.
pub uninterp spec fn title_of(s: Seq<char>) -> Seq<char>;

/// Relies on str::to_uppercase: the uppercase mapping of a string, a pure
/// function of its characters.
#[verifier::external_body]
fn to_uppercase_outside(s: &str) -> (out: String)
    ensures
        out@ == upper_of(s@),
{
    s.to_uppercase()
}

/// Relies on str::to_lowercase: the lowercase mapping of a string, a pure
/// function of its characters.
#[verifier::external_body]
fn to_lowercase_outside(s: &str) -> (out: String)
    ensures
        out@ == lower_of(s@),
{
    s.to_lowercase()
}

/// Relies on titlecase::titlecase: the title-case mapping of a string, a
/// pure function of its characters.
#[verifier::external_body]
fn titlecase_outside(s: &str) -> (out: String)
    ensures
        out@ == title_of(s@),
{
    titlecase::titlecase(s)
}

/// The uppercase text helper.
pub fn uppercase(s: &str) -> (out: String)
    ensures
        out@ == upper_of(s@),
{
    to_uppercase_outside(s)
}

/// The lowercase text helper.
pub fn lowercase(s: &str) -> (out: String)
    ensures
        out@ == lower_of(s@),
{
    to_lowercase_outside(s)
}

/// The title-case text helper.
pub fn titlecase(s: &str) -> (out: String)
    ensures
        out@ == title_of(s@),
{
    titlecase_outside(s)
}

/// Clamping: a ratio above one acts as exactly one, and a ratio below
/// zero as exactly zero, in every single-color helper.
pub proof fn lemma_ratio_clamped(s: Seq<char>, op: ColorOp, r: int)
    ensures
        r > 1000 ==> spec_transform(s, op, r) == spec_transform(s, op, 1000),
        r < 0 ==> spec_transform(s, op, r) == spec_transform(s, op, 0),
{
}

/// Clamping for `mix`: ratios beyond either end act as that end.
pub proof fn lemma_mix_ratio_clamped(a: Seq<char>, b: Seq<char>, r: int)
    ensures
        r > 1000 ==> spec_mix_strings(a, b, r) == spec_mix_strings(a, b, 1000),
        r < 0 ==> spec_mix_strings(a, b, r) == spec_mix_strings(a, b, 0),
{
}


/// Declares serde_json's `Value` so that signatures of this crate can
/// carry one; the value stays opaque to the verifier.
#[verifier::external_type_specification]
#[verifier::external_body]
pub struct ExValue(serde_json::Value);

/// What `serde_json::to_string` prints for a JSON value; it depends on
/// the value alone.
pub uninterp spec fn json_text_of(v: serde_json::Value) -> Seq<char>;

/// Relies on serde_json::to_string: the JSON text of a value, a pure
/// function of the value. Serializing a `Value` cannot fail: its maps
/// carry string keys, and the writer is an in-memory vector.
#[verifier::external_body]
fn json_to_string_outside(v: &serde_json::Value) -> (out: String)
    ensures
        out@ == json_text_of(*v),
{
    serde_json::to_string(v).expect("serializing a JSON value cannot fail")
}

/// Encodes a JSON value for raw embedding: its JSON text, base64 without
/// padding, wrapped in the unquote envelope. The template engine renders
/// the envelope inside quotes; the postprocessing pass then replaces the
/// quoted envelope with the JSON text itself, which the second `ensures`
/// clause states exactly.
pub fn unquote(value: &serde_json::Value) -> (out: String)
    ensures
        out@ == envelope_chars(b64_of(encode_utf8(json_text_of(*value)))),
        spec_postprocess(seq!['"'] + out@ + seq!['"']) == json_text_of(*value),
{
    let text = json_to_string_outside(value);
    let bytes = text.as_str().as_bytes_vec();
    let payload = b64_encode(&bytes);
    let mut env = String::new();
    env.append("{WHISKERS:UNQUOTE:");
    env.append(payload.as_str());
    env.append("}");
    proof {
        lemma_envelope_roundtrip(text@, payload@);
        assert(env@ =~= envelope_chars(payload@));
    }
    env
}


} // verus!
