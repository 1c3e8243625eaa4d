use gen_color::{hex_code, parse_hex_color, random_color, Rgb8};

fn rgb(r: u8, g: u8, b: u8) -> Rgb8 {
    Rgb8 { r, g, b }
}

#[test]
fn parses_six_digit_codes() {
    assert_eq!(parse_hex_color("#ff8000"), Some(rgb(255, 128, 0)));
    assert_eq!(parse_hex_color("00FFaa"), Some(rgb(0, 255, 170)));
}

#[test]
fn parses_three_digit_codes() {
    assert_eq!(parse_hex_color("#f08"), Some(rgb(255, 0, 0x88)));
}

#[test]
fn rejects_malformed_codes() {
    assert_eq!(parse_hex_color("#ff00"), None);
    assert_eq!(parse_hex_color("#gg0000"), None);
    assert_eq!(parse_hex_color("##ff0000"), None);
    assert_eq!(parse_hex_color("+f+f+f"), None);
    assert_eq!(parse_hex_color("é12"), None);
    assert_eq!(parse_hex_color(""), None);
}

#[test]
fn hex_code_has_no_padding() {
    assert_eq!(hex_code(rgb(255, 0, 10)), "#ff0a");
    assert_eq!(hex_code(rgb(0x12, 0xab, 0x0f)), "#12abf");
}

#[test]
fn random_color_prints_as_hex() {
    for _ in 0..50 {
        let c = random_color();
        assert!(c.r < 255 && c.g < 255 && c.b < 255);
        let code = hex_code(c);
        assert!(code.starts_with('#'));
        let body = &code[1..];
        assert!(body.len() >= 3 && body.len() <= 6);
        assert!(body.chars().all(|ch| ch.is_ascii_hexdigit() && !ch.is_ascii_uppercase()));
        assert_eq!(code, format!("#{:x}{:x}{:x}", c.r, c.g, c.b));
    }
}
