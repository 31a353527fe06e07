use theme_test::{
    black, hsla, red, white, Appearance, ColorType, NotFoundError, ParseError, Theme, ThemeColor,
};

#[test]
fn test_color_type_conversion() {
    let test_cases = [
        ("fg", ColorType::Fg),
        ("bg", ColorType::Bg),
        ("border", ColorType::Border),
    ];

    for (input, expected) in &test_cases {
        let from_str = ColorType::from_name(input).unwrap();
        assert_eq!(from_str, *expected, "ColorType::from failed for {}", input);
        assert_eq!(from_str.name(), *input, "ColorType::name failed for {}", input);
    }
}

#[test]
fn unknown_color_type_is_not_found() {
    assert_eq!(ColorType::from_name("unknown"), Err(NotFoundError::ColorType));
    assert_eq!(ColorType::from_name(""), Err(NotFoundError::ColorType));
    assert_eq!(ColorType::from_name("Fg"), Err(NotFoundError::ColorType));
    assert_eq!(ColorType::from_name("borders"), Err(NotFoundError::ColorType));
}

#[test]
fn test_theme_color_from_hsla() {
    let hsla = hsla(0, 0, 0, 0);

    let color = ThemeColor::new(ColorType::Fg, hsla, Some("Test Color".to_string()));
    assert_eq!(color.color_type(), ColorType::Fg, "ThemeColor::from_hsla created color with incorrect type");
    assert_eq!(color.name(), "fg", "ThemeColor::from_hsla created color with incorrect name");
    assert_eq!(color.documentation().clone().unwrap(), "Test Color", "ThemeColor::from_hsla created color with incorrect documentation");
    assert_eq!(color.value(), hsla);
}

#[test]
fn test_theme_color_from_hex() {
    let color = ThemeColor::from_hex(ColorType::Fg, "#FEFEFE".to_string(), None);
    assert!(color.is_ok(), "ThemeColor::from_hex failed for valid 6 value hex input");
}

#[test]
fn test_theme_color_from_hex8() {
    let color = ThemeColor::from_hex(ColorType::Fg, "#FAFAFAEE".to_string(), None);
    assert!(color.is_ok(), "ThemeColor::from_hex failed for valid 8 value hex input");
}

#[test]
fn test_theme_color_from_hex_fail() {
    let color = ThemeColor::from_hex(ColorType::Fg, "invalid".to_string(), None);
    assert!(color.is_err(), "ThemeColor::from_hex did not fail for invalid input");
}

#[test]
fn theme_color_from_hex_keeps_type_value_and_note() {
    let color = ThemeColor::from_hex(ColorType::Border, "#FF00FF80".to_string(), Some("edge".to_string())).unwrap();
    assert_eq!(color.color_type(), ColorType::Border);
    assert_eq!(color.name(), "border");
    assert_eq!(color.value().to_hex(), "#FF00FF80");
    assert_eq!(color.documentation(), &Some("edge".to_string()));
    let failed = ThemeColor::from_hex(ColorType::Bg, "#12".to_string(), None);
    assert_eq!(failed.err(), Some(ParseError::HexLength));
}

#[test]
fn theme_color_clone_is_equal() {
    let color = ThemeColor::new(ColorType::Bg, red(), Some("note".to_string()));
    let copy = color.clone();
    assert_eq!(copy.color_type(), ColorType::Bg);
    assert_eq!(copy.value(), red());
    assert_eq!(copy.documentation(), color.documentation());
}

#[test]
fn test_theme_color_color_type() {
    let hsla = hsla(0, 0, 0, 0);

    let color = ThemeColor::new(ColorType::Fg, hsla, None);
    assert_eq!(color.color_type(), ColorType::Fg, "ThemeColor::color_type returned incorrect type");
}

#[test]
fn appearance_names_and_keys() {
    assert_eq!(Appearance::Light.name(), "Light");
    assert_eq!(Appearance::Dark.name(), "Dark");
    assert_eq!(Appearance::Light.key(), "light");
    assert_eq!(Appearance::Dark.key(), "dark");
    assert_eq!(Appearance::from_key("light"), Ok(Appearance::Light));
    assert_eq!(Appearance::from_key("dark"), Ok(Appearance::Dark));
    assert_eq!(Appearance::from_key("Dark"), Err(ParseError::Appearance));
    assert_eq!(Appearance::from_key("auto"), Err(ParseError::Appearance));
}

#[test]
fn test_theme_creation() {
    let theme = Theme::new(
        "Test Theme".to_string(),
        Appearance::Dark,
        Vec::new()
    );
    assert_eq!(theme.name, "Test Theme");
    assert_eq!(theme.appearance, Appearance::Dark);
    assert!(theme.colors.is_empty());
}

#[test]
fn test_adding_theme_colors() {
    let theme = Theme::new(
        "Test Theme".to_string(),
        Appearance::Dark,
        vec![
            ThemeColor::new(ColorType::Fg, red(), None),
            ThemeColor::new(ColorType::Bg, white(), None),
            ThemeColor::new(ColorType::Border, black(), None)
        ]
    );

    assert_eq!(theme.colors.len(), 3);
    assert_eq!(theme.colors[2].color_type(), ColorType::Border);
}
