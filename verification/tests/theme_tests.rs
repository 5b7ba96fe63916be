use layernotes::config::ThemeConfig;
use layernotes::theme::{parse_hex, theme_colors};

#[test]
fn hex_colours_parse() {
    assert_eq!(parse_hex("#f9e2af"), Some((0xf9, 0xe2, 0xaf)));
    assert_eq!(parse_hex("  #abc "), Some((0xaa, 0xbb, 0xcc)));
    assert_eq!(parse_hex("##123456"), Some((0x12, 0x34, 0x56)));
    assert_eq!(parse_hex("ABCDEF"), Some((0xab, 0xcd, 0xef)));
}

#[test]
fn malformed_colours_are_none() {
    assert_eq!(parse_hex("#12345"), None);
    assert_eq!(parse_hex("#ggg"), None);
    assert_eq!(parse_hex("#+ff"), None);
    assert_eq!(parse_hex("+f+f+f"), None);
    assert_eq!(parse_hex("#-12345"), None);
    assert_eq!(parse_hex("#éa"), None);
    assert_eq!(parse_hex("ééé"), None);
    assert_eq!(parse_hex(""), None);
}

#[test]
fn theme_falls_back_per_colour() {
    let mut theme = ThemeConfig::default();
    theme.accent = "not a colour".to_owned();
    let colors = theme_colors(&theme);
    assert_eq!(colors.text, (0xcd, 0xd6, 0xf4));
    assert_eq!(colors.accent, (0x89, 0xb4, 0xfa));
    theme.accent = "#000".to_owned();
    assert_eq!(theme_colors(&theme).accent, (0, 0, 0));
}

#[test]
fn colours_with_wide_characters_are_none() {
    // Six bytes but not six hex digits: no colour, and no panic.
    assert_eq!(parse_hex("éaabb"), None);
    assert_eq!(parse_hex("aébbb"), None);
    assert_eq!(parse_hex("€abc"), None);
}
