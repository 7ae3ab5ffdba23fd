use konster::style::{apply_token, decode_style, parse_u8, AttrSet, Attribute, Color, Style};

fn empty_attrs() -> AttrSet {
    AttrSet {
        bold: false,
        dim: false,
        italic: false,
        underlined: false,
        blink: false,
        reverse: false,
        hidden: false,
    }
}

fn plain() -> Style {
    Style {
        foreground: None,
        background: None,
        fg_bright: false,
        bg_bright: false,
        attributes: empty_attrs(),
        force: None,
        for_stderr: false,
    }
}

#[test]
fn named_foreground_colors() {
    assert_eq!(decode_style(b"black").foreground, Some(Color::Black));
    assert_eq!(decode_style(b"red").foreground, Some(Color::Red));
    assert_eq!(decode_style(b"green").foreground, Some(Color::Green));
    assert_eq!(decode_style(b"yellow").foreground, Some(Color::Yellow));
    assert_eq!(decode_style(b"blue").foreground, Some(Color::Blue));
    assert_eq!(decode_style(b"magenta").foreground, Some(Color::Magenta));
    assert_eq!(decode_style(b"cyan").foreground, Some(Color::Cyan));
    assert_eq!(decode_style(b"white").foreground, Some(Color::White));
}

#[test]
fn named_background_colors() {
    assert_eq!(decode_style(b"on_black").background, Some(Color::Black));
    assert_eq!(decode_style(b"on_white").background, Some(Color::White));
    let s = decode_style(b"red.on_blue");
    assert_eq!(s, Style {
        foreground: Some(Color::Red),
        background: Some(Color::Blue),
        ..plain()
    });
}

#[test]
fn brightness_flags() {
    let s = decode_style(b"bright.on_bright");
    assert!(s.fg_bright);
    assert!(s.bg_bright);
    assert_eq!(s.foreground, None);
    assert_eq!(s.background, None);
}

#[test]
fn attributes_collect_as_a_set() {
    let s = decode_style(b"bold.dim.underlined");
    assert!(s.attributes.bold);
    assert!(s.attributes.dim);
    assert!(s.attributes.underlined);
    assert!(!s.attributes.italic);
    assert!(s.attributes.has(Attribute::Bold));
    assert!(!s.attributes.has(Attribute::Hidden));
    // insertion order does not matter for equality
    assert_eq!(decode_style(b"bold.dim"), decode_style(b"dim.bold"));
}

#[test]
fn applying_a_token_twice_is_applying_it_once() {
    assert_eq!(decode_style(b"bold.bold"), decode_style(b"bold"));
    assert_eq!(decode_style(b"red.red"), decode_style(b"red"));
    let once = apply_token(plain(), b"underlined");
    let twice = apply_token(once, b"underlined");
    assert_eq!(once, twice);
    let once = apply_token(plain(), b"on_cyan");
    let twice = apply_token(once, b"on_cyan");
    assert_eq!(once, twice);
}

#[test]
fn palette_range_is_checked() {
    assert_eq!(decode_style(b"256").foreground, None);
    assert_eq!(decode_style(b"255").foreground, Some(Color::Color256(255)));
    assert_eq!(decode_style(b"0").foreground, Some(Color::Color256(0)));
}

#[test]
fn background_palette_indices() {
    assert_eq!(decode_style(b"on_17").background, Some(Color::Color256(17)));
    assert_eq!(decode_style(b"on_999").background, None);
    assert_eq!(decode_style(b"on_").background, None);
    assert_eq!(decode_style(b"on_x").background, None);
}

#[test]
fn unknown_tokens_are_skipped() {
    assert_eq!(decode_style(b"zzz.red"), decode_style(b"red"));
    assert_eq!(decode_style(b"RED"), plain());
    assert_eq!(decode_style(b"12a"), plain());
    assert_eq!(decode_style(b""), plain());
}

#[test]
fn empty_tokens_are_skipped() {
    assert_eq!(decode_style(b"..red.."), decode_style(b"red"));
    assert_eq!(decode_style(b"."), plain());
}

#[test]
fn later_colors_overwrite_earlier_ones() {
    let s = decode_style(b"red.green");
    assert_eq!(s.foreground, Some(Color::Green));
    let s = decode_style(b"17.42");
    assert_eq!(s.foreground, Some(Color::Color256(42)));
}

#[test]
fn leading_zeros_parse() {
    assert_eq!(decode_style(b"007").foreground, Some(Color::Color256(7)));
}

#[test]
fn reserved_flags_stay_unset() {
    let s = decode_style(b"red.on_blue.bold.bright.on_bright.42");
    assert_eq!(s.force, None);
    assert!(!s.for_stderr);
}

#[test]
fn parse_u8_bounds() {
    assert_eq!(parse_u8(b"0"), Some(0));
    assert_eq!(parse_u8(b"9"), Some(9));
    assert_eq!(parse_u8(b"255"), Some(255));
    assert_eq!(parse_u8(b"256"), None);
    assert_eq!(parse_u8(b"999999999999999999999999"), None);
    assert_eq!(parse_u8(b""), None);
    assert_eq!(parse_u8(b"1x"), None);
    assert_eq!(parse_u8(b"+1"), None);
    assert_eq!(parse_u8(b"-1"), None);
}
