use segstyle::color::ColorValue;
use segstyle::color::NamedColor;
use segstyle::color::resolve;
use segstyle::style::StyleAttributes;
use segstyle::style::fold;

fn plain() -> StyleAttributes {
    StyleAttributes::default()
}

#[test]
fn table_get_styles_bold_italic_underline_green_dimmy_silly_caps() {
    let mystyle = fold("bOlD ItAlIc uNdErLiNe GrEeN diMMeD").unwrap();
    assert!(mystyle.bold);
    assert!(mystyle.italic);
    assert!(mystyle.underline);
    assert!(mystyle.dimmed);
    assert_eq!(
        mystyle,
        StyleAttributes {
            bold: true,
            italic: true,
            underline: true,
            dimmed: true,
            foreground: Some(ColorValue::Named(NamedColor::Green)),
            background: None,
        }
    );
}

#[test]
fn table_get_styles_plain_and_broken_styles() {
    // A "plain" style with no formatting
    let plain_style = fold("").unwrap();
    assert_eq!(plain_style, plain());

    // A string that's clearly broken
    assert!(fold("djklgfhjkldhlhk;j").is_none());

    // A string that's nullified by `none`
    assert!(fold("fg:red bg:green bold none").is_none());

    // A string that's nullified by `none` at the start
    assert!(fold("none fg:red bg:green bold").is_none());
}

#[test]
fn table_get_styles_ordered() {
    // A background style with inverted order (also hex + fixed)
    let flipped_style = fold("bg:#050505 underline fg:120").unwrap();
    assert_eq!(
        flipped_style,
        StyleAttributes {
            underline: true,
            foreground: Some(ColorValue::Fixed(120)),
            background: Some(ColorValue::Rgb(5, 5, 5)),
            ..plain()
        }
    );

    // The last color for a channel is always the one used
    let multi_style = fold("bg:120 bg:125 bg:127 fg:127 122 125").unwrap();
    assert_eq!(
        multi_style,
        StyleAttributes {
            foreground: Some(ColorValue::Fixed(125)),
            background: Some(ColorValue::Fixed(127)),
            ..plain()
        }
    );
}

#[test]
fn fold_empty_is_explicit_noop_style() {
    assert_eq!(fold(""), Some(plain()));
    assert_eq!(fold("   \t \n "), Some(plain()));
}

#[test]
fn fold_none_nullifies() {
    assert_eq!(fold("none"), None);
    assert_eq!(fold("bold none"), None);
    assert_eq!(fold("none bold"), None);
}

#[test]
fn fold_stops_at_first_nullifier() {
    // Garbage after `none` is never inspected and cannot change the outcome
    assert_eq!(fold("none djklgfhjkldhlhk;j"), None);
    assert_eq!(fold("fg:red none #zzz +++"), None);
}

#[test]
fn fold_is_case_insensitive() {
    assert_eq!(fold("BOLD green"), fold("bold GREEN"));
    assert_eq!(fold("FG:RED Bg:Blue UNDERLINE"), fold("fg:red bg:blue underline"));
}

#[test]
fn fold_prefixed_flag_keywords() {
    // A channel prefix is stripped before the body is recognized, so a
    // prefixed flag keyword still sets its flag
    assert_eq!(
        fold("fg:bold"),
        Some(StyleAttributes { bold: true, ..plain() })
    );
    assert_eq!(fold("bg:none"), None);
}

#[test]
fn fold_repeated_flags_are_idempotent() {
    assert_eq!(
        fold("bold dimmed BOLD"),
        Some(StyleAttributes { bold: true, dimmed: true, ..plain() })
    );
}

#[test]
fn fold_unknown_token_invalidates_everything() {
    assert_eq!(fold("bold bogus-color underline"), None);
    assert_eq!(fold("#05050"), None);
    assert_eq!(fold("fg:"), None);
}

#[test]
fn fold_mixed_channels() {
    assert_eq!(
        fold("bg:#050505 underline fg:120"),
        Some(StyleAttributes {
            underline: true,
            foreground: Some(ColorValue::Fixed(120)),
            background: Some(ColorValue::Rgb(5, 5, 5)),
            ..plain()
        })
    );
}

#[test]
fn resolve_hex_colors() {
    assert_eq!(resolve("#050505"), Some(ColorValue::Rgb(5, 5, 5)));
    assert_eq!(resolve("#A1b2C3"), Some(ColorValue::Rgb(161, 178, 195)));
    assert_eq!(resolve("#ffffff"), Some(ColorValue::Rgb(255, 255, 255)));
    // Too short, too long, or not hexadecimal: the token fails as a whole
    assert_eq!(resolve("#"), None);
    assert_eq!(resolve("#05050"), None);
    assert_eq!(resolve("#0505057"), None);
    assert_eq!(resolve("#05050g"), None);
    // A leading hash commits to the hex form: no fallback to names
    assert_eq!(resolve("#red"), None);
}

#[test]
fn resolve_fixed_colors() {
    assert_eq!(resolve("0"), Some(ColorValue::Fixed(0)));
    assert_eq!(resolve("120"), Some(ColorValue::Fixed(120)));
    assert_eq!(resolve("255"), Some(ColorValue::Fixed(255)));
    assert_eq!(resolve("007"), Some(ColorValue::Fixed(7)));
    assert_eq!(resolve("+42"), Some(ColorValue::Fixed(42)));
    assert_eq!(resolve("256"), None);
    assert_eq!(resolve("99999999999999999999"), None);
    assert_eq!(resolve("-1"), None);
    assert_eq!(resolve("+"), None);
    assert_eq!(resolve(""), None);
}

#[test]
fn resolve_named_colors() {
    assert_eq!(resolve("black"), Some(ColorValue::Named(NamedColor::Black)));
    assert_eq!(resolve("RED"), Some(ColorValue::Named(NamedColor::Red)));
    assert_eq!(resolve("Purple"), Some(ColorValue::Named(NamedColor::Purple)));
    assert_eq!(resolve("white"), Some(ColorValue::Named(NamedColor::White)));
    assert_eq!(resolve("bright-black"), Some(ColorValue::Fixed(8)));
    assert_eq!(resolve("BRIGHT-RED"), Some(ColorValue::Fixed(9)));
    assert_eq!(resolve("bright-white"), Some(ColorValue::Fixed(15)));
    assert_eq!(resolve("grey"), None);
}
