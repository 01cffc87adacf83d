use whiskers::color::Hsl;
use whiskers::color::Hsla;
use whiskers::color::Rgb;
use whiskers::color::Rgba;
use whiskers::parse::Color;

#[test]
fn parse_hsl() {
    let result = Color::from_str("hsl(120, 50%, 50%)").unwrap();
    assert_eq!(result, Color::Hsl(Hsl { h: 120, s: 50, l: 50 }));
}

#[test]
fn parse_hsla() {
    let result = Color::from_str("hsla(120, 50%, 50%, 0.5)").unwrap();
    assert_eq!(result, Color::Hsla(Hsla { h: 120, s: 50, l: 50, a: 500 }));
}

#[test]
fn parse_rgb() {
    let result = Color::from_str("rgb(123, 56, 78)").unwrap();
    assert_eq!(result, Color::Rgb(Rgb { r: 123, g: 56, b: 78 }));
}

#[test]
fn parse_rgba() {
    let result = Color::from_str("rgba(123, 56, 78, 0.5)").unwrap();
    assert_eq!(result, Color::Rgba(Rgba { r: 123, g: 56, b: 78, a: 500 }));
}

#[test]
fn parse_hex() {
    let result = Color::from_str("#94e2d5").unwrap();
    assert_eq!(result, Color::Hex(Rgb { r: 148, g: 226, b: 213 }));
}

#[test]
fn parse_hex_no_hash() {
    let result = Color::from_str("94e2d5").unwrap();
    assert_eq!(result, Color::Hex(Rgb { r: 148, g: 226, b: 213 }));
}

#[test]
fn parse_hexa() {
    // the alpha byte 0x80 is 128/255, which is 502 thousandths rounded
    let result = Color::from_str("#94e2d580").unwrap();
    assert_eq!(result, Color::Hexa(Rgba { r: 148, g: 226, b: 213, a: 502 }));
}

#[test]
fn parse_hexa_no_hash() {
    let result = Color::from_str("94e2d580").unwrap();
    assert_eq!(result, Color::Hexa(Rgba { r: 148, g: 226, b: 213, a: 502 }));
}

#[test]
fn parse_uppercase_hex_digits() {
    let result = Color::from_str("#94E2D5").unwrap();
    assert_eq!(result, Color::Hex(Rgb { r: 148, g: 226, b: 213 }));
}

#[test]
fn parse_negative_hue() {
    let result = Color::from_str("hsl(-30, 25%, 75%)").unwrap();
    assert_eq!(result, Color::Hsl(Hsl { h: -30, s: 25, l: 75 }));
}

#[test]
fn parse_without_spaces() {
    let result = Color::from_str("rgb(0,0,0)").unwrap();
    assert_eq!(result, Color::Rgb(Rgb { r: 0, g: 0, b: 0 }));
}

#[test]
fn parse_rejects_free_text() {
    let err = Color::from_str("not-a-color").unwrap_err();
    assert_eq!(err.literal, "not-a-color");
}

#[test]
fn parse_rejects_trailing_suffix() {
    assert!(Color::from_str("hsl(120, 50%, 50%) ").is_err());
    assert!(Color::from_str("94e2d5ff00").is_err());
}

#[test]
fn parse_rejects_out_of_range_components() {
    assert!(Color::from_str("hsl(120, 200%, 50%)").is_err());
    assert!(Color::from_str("rgb(256, 0, 0)").is_err());
    assert!(Color::from_str("rgba(0, 0, 0, 1.5)").is_err());
    assert!(Color::from_str("hsl(99999999999, 50%, 50%)").is_err());
}

#[test]
fn parse_rejects_wrong_digit_counts() {
    assert!(Color::from_str("#94e2d").is_err());
    assert!(Color::from_str("#94e2d58").is_err());
    assert!(Color::from_str("#94e2d5800").is_err());
}

#[test]
fn parse_channel_getters() {
    let c = Color::from_str("#94e2d5").unwrap();
    assert_eq!(c.red(), 148);
    assert_eq!(c.green(), 226);
    assert_eq!(c.blue(), 213);
}

#[test]
fn canonical_equality_ignores_notation() {
    let a = Color::from_str("rgb(1, 2, 3)").unwrap();
    let b = Color::from_str("#010203").unwrap();
    assert!(a.canonical_eq(&b));
    let c = Color::from_str("rgba(1, 2, 3, 0.5)").unwrap();
    assert!(!a.canonical_eq(&c));
}
