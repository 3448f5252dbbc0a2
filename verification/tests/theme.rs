use alfred::theme::{lookup_color, new_theme, parse_color, NamedColor, ThemeColor};


// -----------------------------------------------------------------------
// Unit tests (10-02): parse_color
// Test Budget: 6 behaviors x 2 = 12 max
// -----------------------------------------------------------------------

#[test]
fn given_hex_color_when_parse_color_then_returns_rgb() {
    assert_eq!(parse_color("#ff5733"), Some(ThemeColor::Rgb(255, 87, 51)));
}

#[test]
fn given_hex_all_zeros_when_parse_color_then_returns_rgb_black() {
    assert_eq!(parse_color("#000000"), Some(ThemeColor::Rgb(0, 0, 0)));
}

#[test]
fn given_hex_all_ff_when_parse_color_then_returns_rgb_white() {
    assert_eq!(parse_color("#ffffff"), Some(ThemeColor::Rgb(255, 255, 255)));
}

#[test]
fn given_hex_uppercase_when_parse_color_then_returns_rgb() {
    assert_eq!(parse_color("#FF5733"), Some(ThemeColor::Rgb(255, 87, 51)));
}

#[test]
fn given_named_color_red_when_parse_color_then_returns_named_red() {
    assert_eq!(parse_color("red"), Some(ThemeColor::Named(NamedColor::Red)));
}

#[test]
fn given_named_color_dark_gray_when_parse_color_then_returns_named_dark_gray() {
    assert_eq!(
        parse_color("dark-gray"),
        Some(ThemeColor::Named(NamedColor::DarkGray))
    );
}

#[test]
fn given_named_color_darkgray_when_parse_color_then_returns_named_dark_gray() {
    assert_eq!(
        parse_color("darkgray"),
        Some(ThemeColor::Named(NamedColor::DarkGray))
    );
}

#[test]
fn given_default_when_parse_color_then_returns_none() {
    assert_eq!(parse_color("default"), None);
}

#[test]
fn given_invalid_string_when_parse_color_then_returns_none() {
    assert_eq!(parse_color("not-a-color"), None);
}

#[test]
fn given_short_hex_when_parse_color_then_returns_none() {
    assert_eq!(parse_color("#fff"), None);
}

#[test]
fn given_hex_with_invalid_chars_when_parse_color_then_returns_none() {
    assert_eq!(parse_color("#gggggg"), None);
}

// -----------------------------------------------------------------------
// Unit tests (10-02): lookup_color
// -----------------------------------------------------------------------

#[test]
fn given_theme_with_key_when_lookup_then_returns_theme_color() {
    let mut theme = new_theme();
    theme.insert("text-fg".to_string(), ThemeColor::Rgb(100, 200, 50));

    let result = lookup_color(&theme, "text-fg", ThemeColor::Named(NamedColor::White));
    assert_eq!(result, ThemeColor::Rgb(100, 200, 50));
}

#[test]
fn given_theme_without_key_when_lookup_then_returns_fallback() {
    let theme = new_theme();

    let result = lookup_color(&theme, "missing-key", ThemeColor::Named(NamedColor::White));
    assert_eq!(result, ThemeColor::Named(NamedColor::White));
}

