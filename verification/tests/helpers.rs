use whiskers::format::color;
use whiskers::format::ColorModel;
use whiskers::format::notation_priority;
use whiskers::helper::darken;
use whiskers::helper::darklight;
use whiskers::helper::lighten;
use whiskers::helper::lowercase;
use whiskers::helper::mix;
use whiskers::helper::opacity;
use whiskers::helper::titlecase;
use whiskers::helper::uppercase;
use whiskers::parse::Color;

#[test]
fn format_keeps_the_parsed_notation_exact() {
    let c = Color::from_str("hsl(120, 50%, 50%)").unwrap();
    assert_eq!(color(c.to_value(), ColorModel::Hsl), "hsl(120, 50%, 50%)");
    let c = Color::from_str("rgba(1, 2, 3, 0.25)").unwrap();
    assert_eq!(color(c.to_value(), ColorModel::Rgba), "rgba(1, 2, 3, 0.25)");
    let c = Color::from_str("hsla(-30, 25%, 75%, 0.502)").unwrap();
    assert_eq!(color(c.to_value(), ColorModel::Hsla), "hsla(-30, 25%, 75%, 0.502)");
    let c = Color::from_str("#94e2d580").unwrap();
    assert_eq!(color(c.to_value(), ColorModel::Hexa), "94E2D580");
}

#[test]
fn format_hex_from_parsed_hex_is_exact() {
    let c = Color::from_str("#94e2d5").unwrap();
    assert_eq!(color(c.to_value(), ColorModel::Hexa), "94E2D5FF");
    assert_eq!(color(c.to_value(), ColorModel::Hex), "94E2D5");
}

#[test]
fn lighten_to_the_maximum_is_white() {
    let out = lighten("#94e2d5", 1000);
    assert_eq!(out.text, "FFFFFF");
    assert!(out.warning.is_none());
}

#[test]
fn mix_black_and_white_is_mid_gray() {
    let out = mix("rgb(0,0,0)", "rgb(255,255,255)", 500);
    assert_eq!(out.text, "rgb(128, 128, 128)");
    assert!(out.warning.is_none());
}

#[test]
fn ratios_are_clamped_never_rejected() {
    assert_eq!(lighten("hsl(10, 20%, 30%)", 1500).text, lighten("hsl(10, 20%, 30%)", 1000).text);
    assert_eq!(darken("hsl(10, 20%, 30%)", -500).text, darken("hsl(10, 20%, 30%)", 0).text);
}

#[test]
fn lightness_extremes_are_fixed_points() {
    assert_eq!(lighten("#ffffff", 300).text, "FFFFFF");
    assert_eq!(lighten("hsl(40, 80%, 100%)", 999).text, "hsl(40, 80%, 100%)");
    assert_eq!(darken("#000000", 700).text, "000000");
    assert_eq!(darken("hsl(40, 80%, 0%)", 999).text, "hsl(40, 80%, 0%)");
}

#[test]
fn darken_halves_lightness() {
    assert_eq!(darken("hsl(120, 50%, 50%)", 500).text, "hsl(120, 50%, 25%)");
}

#[test]
fn lighten_moves_by_headroom() {
    // 40 + 0.25 * (100 - 40) = 55
    assert_eq!(lighten("hsl(0, 10%, 40%)", 250).text, "hsl(0, 10%, 55%)");
}

#[test]
fn opacity_moves_alpha_by_headroom() {
    assert_eq!(opacity("rgba(128, 128, 128, 0)", 500).text, "rgba(128, 128, 128, 0.5)");
    assert_eq!(opacity("hsla(1, 2%, 3%, 0.5)", 1000).text, "hsla(1, 2%, 3%, 1)");
}

#[test]
fn unparsable_color_passes_through_with_one_warning() {
    let out = lighten("not-a-color", 200);
    assert_eq!(out.text, "not-a-color");
    assert_eq!(out.warning.as_deref(), Some("not-a-color"));
}

#[test]
fn mix_passes_through_an_unparsable_first_color() {
    let out = mix("nope", "rgb(0,0,0)", 500);
    assert_eq!(out.text, "nope");
    assert_eq!(out.warning.as_deref(), Some("nope"));
}

#[test]
fn mix_takes_opaque_black_for_an_unparsable_second_color() {
    // the default projection is opaque black, and the failure is silent
    let out = mix("rgb(255,255,255)", "bad", 500);
    assert_eq!(out.text, "rgb(128, 128, 128)");
    assert!(out.warning.is_none());
    let out = mix("rgb(0,0,0)", "bad", 1000);
    assert_eq!(out.text, "rgb(0, 0, 0)");
    assert!(out.warning.is_none());
}

#[test]
fn text_case_helpers() {
    assert_eq!(uppercase("mocha"), "MOCHA");
    assert_eq!(lowercase("MoChA"), "mocha");
    assert_eq!(titlecase("the quick brown fox"), "The Quick Brown Fox");
}

#[test]
fn darklight_picks_by_variant() {
    assert_eq!(darklight("#111111", "#eeeeee", true), "#eeeeee");
    assert_eq!(darklight("#111111", "#eeeeee", false), "#111111");
}

#[test]
fn priority_tries_the_longer_grammars_first() {
    let order = notation_priority();
    assert_eq!(
        order,
        vec![
            ColorModel::Hsla,
            ColorModel::Hsl,
            ColorModel::Rgba,
            ColorModel::Rgb,
            ColorModel::Hexa,
            ColorModel::Hex,
        ]
    );
}
