use theme_test::{black, hsla, red, white, Hsla, ParseError, CHANNEL_MAX};

fn units(x: f64) -> i64 {
    (x * CHANNEL_MAX as f64).round() as i64
}

fn channels(color: Hsla) -> [i64; 4] {
    [color.h() as i64, color.s() as i64, color.l() as i64, color.a() as i64]
}

#[test]
fn test_hsla() {
    let color = hsla(units(0.5), units(0.5), units(0.5), units(0.5));
    assert_eq!(channels(color), [units(0.5), units(0.5), units(0.5), units(0.5)]);
}

#[test]
fn test_hsla_clamping() {
    let color = hsla(units(1.5), units(-0.5), units(0.5), units(0.5));
    assert_eq!(channels(color), [units(1.0), units(0.0), units(0.5), units(0.5)]);
    assert_eq!(color, hsla(units(1.0), units(0.0), units(0.5), units(0.5)));
}

#[test]
fn hsla_clamps_the_extremes() {
    let color = hsla(i64::MAX, i64::MIN, units(f64::INFINITY), units(f64::NEG_INFINITY));
    assert_eq!(channels(color), [30600, 0, 30600, 0]);
    assert_eq!(channels(hsla(30601, -1, 30600, 0)), [30600, 0, 30600, 0]);
    assert_eq!(channels(hsla(1, 30599, 2, 3)), [1, 30599, 2, 3]);
}

#[test]
fn channel_scale_holds_bytes_degrees_and_percent() {
    assert_eq!(CHANNEL_MAX, 30600);
    assert_eq!(CHANNEL_MAX % 255, 0);
    assert_eq!(CHANNEL_MAX % 360, 0);
    assert_eq!(CHANNEL_MAX % 100, 0);
}

#[test]
fn named_colors() {
    assert_eq!(channels(black()), [0, 0, 0, 30600]);
    assert_eq!(channels(white()), [0, 0, 30600, 30600]);
    assert_eq!(channels(red()), [0, 30600, 15300, 30600]);
}

#[test]
fn hex_round_trip_with_alpha() {
    let color = Hsla::from_hex("#FF00FF80").unwrap();
    assert_eq!(channels(color), [30600, 0, 30600, 128 * 120]);
    assert_eq!(color.to_hex(), "#FF00FF80");
}

#[test]
fn hex_without_alpha_is_opaque() {
    let color = Hsla::from_hex("#FEFEFE").unwrap();
    assert_eq!(channels(color), [254 * 120, 254 * 120, 254 * 120, 30600]);
    assert_eq!(color.to_hex(), "#FEFEFEFF");
}

#[test]
fn hex_digits_of_either_case() {
    let lower = Hsla::from_hex("#abcdef09").unwrap();
    let upper = Hsla::from_hex("#ABCDEF09").unwrap();
    let mixed = Hsla::from_hex("#aBcDeF09").unwrap();
    assert_eq!(lower, upper);
    assert_eq!(lower, mixed);
    assert_eq!(channels(lower), [0xAB * 120, 0xCD * 120, 0xEF * 120, 9 * 120]);
    assert_eq!(lower.to_hex(), "#ABCDEF09");
}

#[test]
fn hex_round_trip_of_every_byte() {
    for byte in 0..=255u32 {
        let text = format!("#{:02X}{:02X}{:02X}{:02X}", byte, 255 - byte, byte / 2, byte);
        let color = Hsla::from_hex(&text).unwrap();
        assert_eq!(color.h(), byte * 120);
        assert_eq!(color.to_hex(), text);
    }
}

#[test]
fn hex_of_wrong_length_fails() {
    for text in ["", "#", "#12345", "#1234567", "#123456789", "invalid!", "#FFF"] {
        assert_eq!(Hsla::from_hex(text), Err(ParseError::HexLength), "{}", text);
    }
}

#[test]
fn hex_without_prefix_fails() {
    for text in ["invalid", "1234567", "FF00FF80F", " #12345", "é123456"] {
        assert_eq!(Hsla::from_hex(text), Err(ParseError::HexPrefix), "{}", text);
    }
}

#[test]
fn hex_with_other_characters_fails() {
    for text in ["#12345G", "#+12345", "#12 456", "#12345é", "#FF00FF8g", "#-1-1-1", "#0x0x0x"] {
        assert_eq!(Hsla::from_hex(text), Err(ParseError::HexDigit), "{}", text);
    }
}

#[test]
fn to_hex_cuts_off_and_does_not_round() {
    assert_eq!(hsla(119, 120, 239, 240).to_hex(), "#00010102");
    assert_eq!(hsla(30599, 30600, 30480, 30479).to_hex(), "#FEFFFEFD");
    assert_eq!(hsla(units(0.5), 0, 0, 0).to_hex(), "#7F000000");
}
