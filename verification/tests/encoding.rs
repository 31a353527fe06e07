use theme_test::{
    hsla, hsla_to_zed_hsla, BoundsError, Channel, Hsla, ParseError, StandardHsla, ThemeError,
    ZedHsla, CHANNEL_MAX,
};

fn parts(color: Hsla) -> [u32; 4] {
    [color.h(), color.s(), color.l(), color.a()]
}

#[test]
fn standard_full_scale_is_one() {
    let standard = StandardHsla::new([360, 100, 100, 100]).unwrap();
    assert_eq!(parts(standard.to_hsla()), [CHANNEL_MAX; 4]);
    assert_eq!(standard.values(), [360, 100, 100, 100]);
}

#[test]
fn standard_zero_is_zero() {
    let standard = StandardHsla::new([0, 0, 0, 0]).unwrap();
    assert_eq!(parts(standard.to_hsla()), [0; 4]);
    assert_eq!(standard.to_hsla(), Hsla::default());
}

#[test]
fn standard_values_are_divided_by_their_scale() {
    let standard = StandardHsla::new([180, 50, 25, 75]).unwrap();
    assert_eq!(parts(standard.to_hsla()), [15300, 15300, 7650, 22950]);
    let standard = StandardHsla::new([1, 1, 99, 33]).unwrap();
    assert_eq!(parts(standard.to_hsla()), [85, 306, 30294, 10098]);
    let standard = StandardHsla::new([359, 0, 100, 1]).unwrap();
    assert_eq!(parts(standard.to_hsla()), [30515, 0, 30600, 306]);
}

#[test]
fn standard_bounds_of_hue() {
    assert!(StandardHsla::new([360, 0, 0, 0]).is_ok());
    assert_eq!(
        StandardHsla::new([361, 0, 0, 0]),
        Err(BoundsError { channel: Channel::Hue, value: 361 })
    );
    assert_eq!(
        StandardHsla::new([-1, 0, 0, 0]),
        Err(BoundsError { channel: Channel::Hue, value: -1 })
    );
}

#[test]
fn standard_bounds_of_the_other_channels() {
    assert!(StandardHsla::new([0, 100, 100, 100]).is_ok());
    assert_eq!(
        StandardHsla::new([0, 101, 0, 0]),
        Err(BoundsError { channel: Channel::Saturation, value: 101 })
    );
    assert_eq!(
        StandardHsla::new([0, 0, 101, 0]),
        Err(BoundsError { channel: Channel::Lightness, value: 101 })
    );
    assert_eq!(
        StandardHsla::new([0, 0, 0, 101]),
        Err(BoundsError { channel: Channel::Alpha, value: 101 })
    );
    assert_eq!(
        StandardHsla::new([0, 0, 0, i64::MIN]),
        Err(BoundsError { channel: Channel::Alpha, value: i64::MIN })
    );
    assert_eq!(
        StandardHsla::new([0, 360, 0, 0]),
        Err(BoundsError { channel: Channel::Saturation, value: 360 })
    );
}

#[test]
fn standard_reports_the_first_value_out_of_bounds() {
    assert_eq!(
        StandardHsla::new([400, 200, -3, 70000]),
        Err(BoundsError { channel: Channel::Hue, value: 400 })
    );
    assert_eq!(
        StandardHsla::new([360, 100, -3, 70000]),
        Err(BoundsError { channel: Channel::Lightness, value: -3 })
    );
    assert_eq!(
        StandardHsla::new([0, 100, 3, 65536 + 50]),
        Err(BoundsError { channel: Channel::Alpha, value: 65586 })
    );
}

#[test]
fn bounds_error_messages() {
    let message = |channel| BoundsError { channel, value: 0 }.message();
    assert_eq!(message(Channel::Hue), "H is out of bounds");
    assert_eq!(message(Channel::Saturation), "S is out of bounds");
    assert_eq!(message(Channel::Lightness), "L is out of bounds");
    assert_eq!(message(Channel::Alpha), "A is out of bounds");
}

#[test]
fn either_encoding_denotes_a_color() {
    let standard = ZedHsla::StandardHsla(StandardHsla::new([90, 10, 20, 30]).unwrap());
    assert_eq!(parts(standard.to_hsla()), [7650, 3060, 6120, 9180]);
    let normalized = ZedHsla::Hsla(hsla(7650, 3060, 6120, 9180));
    assert_eq!(normalized.to_hsla(), standard.to_hsla());
    assert_ne!(normalized, standard);
}

#[test]
fn text_in_standard_units() {
    assert_eq!(hsla_to_zed_hsla("360,100,100,100").map(parts), Ok([CHANNEL_MAX; 4]));
    assert_eq!(hsla_to_zed_hsla("0,0,0,0").map(parts), Ok([0; 4]));
    assert_eq!(hsla_to_zed_hsla("180,50,25,75").map(parts), Ok([15300, 15300, 7650, 22950]));
    assert_eq!(hsla_to_zed_hsla("007,050,0,00100").map(parts), Ok([595, 15300, 0, 30600]));
    assert_eq!(StandardHsla::from_text("210,40,30,100").map(|s| s.values()), Ok([210, 40, 30, 100]));
}

#[test]
fn text_after_a_fourth_comma_is_not_read() {
    assert_eq!(hsla_to_zed_hsla("1,2,3,4,5").map(parts), Ok([85, 612, 918, 1224]));
    assert_eq!(hsla_to_zed_hsla("1,2,3,4,").map(parts), Ok([85, 612, 918, 1224]));
    assert_eq!(hsla_to_zed_hsla("1,2,3,4,x,,é").map(parts), Ok([85, 612, 918, 1224]));
}

#[test]
fn text_with_fewer_than_four_fields_fails() {
    for text in ["", "1", "1,2", "1,2,3", "x,y,z", ",,", "360 100 100 100"] {
        assert_eq!(hsla_to_zed_hsla(text), Err(ThemeError::Parse(ParseError::Fields)), "{:?}", text);
    }
}

#[test]
fn text_with_a_field_that_is_no_whole_number_fails() {
    for text in [
        ",,,", "1,2,3,", "1,2,3,x", "x,2,3,4", "1,,3,4", " 1,2,3,4", "1,2,3,4 ", "1.5,2,3,4",
        "+1,2,3,4", "-1,2,3,4", "1,2,3,4e0", "1,2,٣,4", "1,2,3,４", "361,x,0,0,0",
    ] {
        assert_eq!(hsla_to_zed_hsla(text), Err(ThemeError::Parse(ParseError::Number)), "{:?}", text);
    }
}

#[test]
fn text_with_a_number_out_of_bounds_fails() {
    let bounds = |channel, value| Err(ThemeError::Bounds(BoundsError { channel, value }));
    assert_eq!(hsla_to_zed_hsla("361,0,0,0"), bounds(Channel::Hue, 361));
    assert_eq!(hsla_to_zed_hsla("360,101,0,0"), bounds(Channel::Saturation, 101));
    assert_eq!(hsla_to_zed_hsla("360,100,1000,0"), bounds(Channel::Lightness, 1000));
    assert_eq!(hsla_to_zed_hsla("360,100,100,101"), bounds(Channel::Alpha, 101));
    assert_eq!(hsla_to_zed_hsla("400,500,600,700"), bounds(Channel::Hue, 400));
    assert!(hsla_to_zed_hsla("360,0,0,0").is_ok());
}

#[test]
fn text_with_a_number_beyond_the_machine_reports_the_largest() {
    let bounds = |channel, value| Err(ThemeError::Bounds(BoundsError { channel, value }));
    assert_eq!(hsla_to_zed_hsla("9223372036854775806,0,0,0"), bounds(Channel::Hue, i64::MAX - 1));
    assert_eq!(hsla_to_zed_hsla("9223372036854775807,0,0,0"), bounds(Channel::Hue, i64::MAX));
    assert_eq!(hsla_to_zed_hsla("9223372036854775808,0,0,0"), bounds(Channel::Hue, i64::MAX));
    assert_eq!(
        hsla_to_zed_hsla("0,0,0,99999999999999999999999999999999999999"),
        bounds(Channel::Alpha, i64::MAX)
    );
    assert_eq!(hsla_to_zed_hsla("0,00000000000000000000000000000000000100,0,0").map(parts), Ok([0, 30600, 0, 0]));
}
