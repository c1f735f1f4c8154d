use dekor::HexError;
use dekor::Style;
use dekor::as_rgb;
use dekor::style;
use dekor::styler;
use dekor::to_rgb;

#[test]
fn test_to_rgb_valid_hex() {
    assert_eq!(to_rgb("#FF5733").unwrap(), (255, 87, 51));
    assert_eq!(to_rgb("FF5733").unwrap(), (255, 87, 51));
    assert_eq!(to_rgb("#ff5733").unwrap(), (255, 87, 51)); // Test case sensitivity
}

#[test]
fn test_to_rgb_invalid_hex() {
    match to_rgb("GGGGGG") {
        Err(HexError::ParseError(_)) => (),
        _ => panic!("Expected ParseError"),
    }
    assert!(matches!(to_rgb("123"), Err(HexError::InvalidLength)));
}

#[test]
fn test_style_output() {
    let styles = vec![Style::Bold, Style::FGRed];
    let input = "Hello, world!";
    let expected = "\x1b[1;31mHello, world!\x1b[0m"; // Expected ANSI escape code sequence
    assert_eq!(style(&styles, input), expected);
}

#[test]
fn test_styler_with_rgb() {
    let styles = vec![
        (Style::FGRGB, 255, 0, 0), // Red foreground
        (Style::BGRGB, 0, 0, 255), // Blue background
    ];
    let input = "Hello, RGB!";
    let expected = "\x1b[38;2;255;0;0;48;2;0;0;255mHello, RGB!\x1b[0m";
    assert_eq!(styler(&styles, input), expected);
}

#[test]
fn test_hash_prefix_immaterial() {
    assert_eq!(to_rgb("1A2b3C").unwrap(), to_rgb("#1A2b3C").unwrap());
    assert_eq!(as_rgb("1A2b3C"), as_rgb("#1A2b3C"));
    assert_eq!(to_rgb("000000").unwrap(), to_rgb("#000000").unwrap());
}

#[test]
fn test_hex_round_trip() {
    let (r, g, b) = to_rgb("ff5733").unwrap();
    assert_eq!(format!("{:02X}{:02X}{:02X}", r, g, b), "FF5733");
    let (r, g, b) = to_rgb("#00a1Fe").unwrap();
    assert_eq!(format!("{:02X}{:02X}{:02X}", r, g, b), "00A1FE");
}

#[test]
fn test_to_rgb_wrong_lengths() {
    assert!(matches!(to_rgb(""), Err(HexError::InvalidLength)));
    assert!(matches!(to_rgb("#"), Err(HexError::InvalidLength)));
    assert!(matches!(to_rgb("12345"), Err(HexError::InvalidLength)));
    assert!(matches!(to_rgb("1234567"), Err(HexError::InvalidLength)));
    assert!(matches!(to_rgb("#12345"), Err(HexError::InvalidLength)));
    assert!(matches!(to_rgb("#1234567"), Err(HexError::InvalidLength)));
}

#[test]
fn test_to_rgb_malformed_groups() {
    assert_eq!(to_rgb("GGGGGG"), Err(HexError::ParseError(0)));
    assert_eq!(to_rgb("12345G"), Err(HexError::ParseError(2)));
    assert_eq!(to_rgb("12G456"), Err(HexError::ParseError(1)));
    assert_eq!(to_rgb("##12345"), Err(HexError::ParseError(0)));
}

#[test]
fn test_as_rgb_lenient() {
    assert_eq!(as_rgb("#FF5733"), (255, 87, 51));
    assert_eq!(as_rgb("this is not valid"), (0, 0, 0));
    assert_eq!(as_rgb("GGGGGG"), (0, 0, 0));
    assert_eq!(as_rgb("12345G"), (18, 52, 0));
    assert_eq!(as_rgb(""), (0, 0, 0));
}

#[test]
fn test_attribute_order_preserved() {
    let ab = style(&vec![Style::Bold, Style::FGRed], "t");
    let ba = style(&vec![Style::FGRed, Style::Bold], "t");
    assert_eq!(ab, "\x1b[1;31mt\x1b[0m");
    assert_eq!(ba, "\x1b[31;1mt\x1b[0m");
    assert_ne!(ab, ba);
}

#[test]
fn test_styler_agrees_with_style() {
    let entries = vec![(Style::BGBlue, 9, 9, 9), (Style::FGRed, 0, 1, 2), (Style::Underline, 7, 7, 7)];
    let styles = vec![Style::BGBlue, Style::FGRed, Style::Underline];
    assert_eq!(styler(&entries, "Hello, world!"), style(&styles, "Hello, world!"));
}

#[test]
fn test_styler_mixed_entries() {
    let entries = vec![
        (Style::Bold, 0, 0, 0),
        (Style::FGRGB, 255, 100, 50),
        (Style::Underline, 0, 0, 0),
        (Style::BGRGB, 20, 40, 60),
    ];
    let expected = "\x1b[1;38;2;255;100;50;4;48;2;20;40;60mx\x1b[0m";
    assert_eq!(styler(&entries, "x"), expected);
}

#[test]
fn test_style_no_attributes() {
    assert_eq!(style(&vec![], "plain"), "\x1b[mplain\x1b[0m");
}

#[test]
fn test_style_codes() {
    assert_eq!(Style::Reset.code(), 0);
    assert_eq!(Style::Bold.code(), 1);
    assert_eq!(Style::Italic.code(), 3);
    assert_eq!(Style::Underline.code(), 4);
    assert_eq!(Style::FGBlack.code(), 30);
    assert_eq!(Style::FGWhite.code(), 37);
    assert_eq!(Style::FGRGB.code(), 38);
    assert_eq!(Style::BGBlack.code(), 40);
    assert_eq!(Style::BGWhite.code(), 47);
    assert_eq!(Style::BGRGB.code(), 48);
    assert_eq!(Style::BGPurple.code_string(), "45");
    assert_eq!(Style::Reset.code_string(), "0");
}
