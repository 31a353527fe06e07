use theme_test::{
    hsla, Appearance, ColorScaleSet, ColorType, NotFoundError, Theme, ThemeColor, ThemeFamily,
    ThemeRegistry,
};

fn names(themes: &[&Theme]) -> Vec<String> {
    themes.iter().map(|theme| theme.name.clone()).collect()
}

#[test]
fn test_theme_family_creation() {
    let theme_family = ThemeFamily::new("Test Family".to_string(), "Test Author".to_string());
    assert_eq!(theme_family.name, "Test Family");
    assert_eq!(theme_family.author, "Test Author");
    assert!(theme_family.variants.is_empty());
}

#[test]
fn test_theme_family_variant_addition() {
    let mut theme_family = ThemeFamily::new("Test Family".to_string(), "Test Author".to_string());
    let theme = Theme::new("Test Theme".to_string(), Appearance::Dark, Vec::new());
    theme_family.add_variant(theme);
    assert_eq!(theme_family.variants.len(), 1);
}

#[test]
fn test_theme_registry_creation() {
    let theme_registry = ThemeRegistry::new();
    assert!(theme_registry.families.is_empty());
}

#[test]
fn test_theme_registry_family_addition() {
    let mut theme_registry = ThemeRegistry::new();
    let theme_family = ThemeFamily::new("Test Family".to_string(), "Test Author".to_string());
    theme_registry.add_family(theme_family);
    assert_eq!(theme_registry.families.len(), 1);
}

#[test]
fn test_theme_registry_all_themes() {
    let mut theme_registry = ThemeRegistry::new();
    let mut theme_family = ThemeFamily::new("Test Family".to_string(), "Test Author".to_string());
    let theme = Theme::new("Test Theme".to_string(), Appearance::Dark, Vec::new());
    theme_family.add_variant(theme);
    theme_registry.add_family(theme_family);
    assert_eq!(theme_registry.all_themes().len(), 1);
}

#[test]
fn test_theme_registry_all_dark() {
    let mut theme_registry = ThemeRegistry::new();
    let mut theme_family = ThemeFamily::new("Test Family".to_string(), "Test Author".to_string());
    let theme = Theme::new("Test Theme".to_string(), Appearance::Dark, Vec::new());
    theme_family.add_variant(theme);
    theme_registry.add_family(theme_family);
    assert_eq!(theme_registry.all_dark().len(), 1);
}

#[test]
fn test_theme_registry_all_light() {
    let mut theme_registry = ThemeRegistry::new();
    let mut theme_family = ThemeFamily::new("Test Family".to_string(), "Test Author".to_string());
    let theme = Theme::new("Test Theme".to_string(), Appearance::Light, Vec::new());
    theme_family.add_variant(theme);
    theme_registry.add_family(theme_family);
    assert_eq!(theme_registry.all_light().len(), 1);
}

#[test]
fn registry_filters_by_appearance_and_orders_by_name() {
    let mut family = ThemeFamily::new("Family".to_string(), "Author".to_string());
    family.add_variant(Theme::new("A".to_string(), Appearance::Dark, Vec::new()));
    family.add_variant(Theme::new("B".to_string(), Appearance::Light, Vec::new()));
    family.add_variant(Theme::new("C".to_string(), Appearance::Dark, Vec::new()));
    let mut registry = ThemeRegistry::new();
    registry.add_family(family);
    assert_eq!(names(&registry.all_dark()), vec!["A", "C"]);
    assert_eq!(names(&registry.all_light()), vec!["B"]);
    assert_eq!(names(&registry.all_themes()), vec!["A", "B", "C"]);
}

#[test]
fn registry_sorts_across_families() {
    let mut first = ThemeFamily::new("One".to_string(), "Author".to_string());
    first.add_variant(Theme::new("Zenith".to_string(), Appearance::Dark, Vec::new()));
    first.add_variant(Theme::new("Mist".to_string(), Appearance::Light, Vec::new()));
    let mut second = ThemeFamily::new("Two".to_string(), "Author".to_string());
    second.add_variant(Theme::new("Amber".to_string(), Appearance::Light, Vec::new()));
    second.add_variant(Theme::new("Noon".to_string(), Appearance::Dark, Vec::new()));
    let mut registry = ThemeRegistry::new();
    registry.add_family(first);
    registry.add_family(second);
    assert_eq!(names(&registry.all_themes()), vec!["Amber", "Mist", "Noon", "Zenith"]);
    assert_eq!(names(&registry.all_dark()), vec!["Noon", "Zenith"]);
    assert_eq!(names(&registry.all_light()), vec!["Amber", "Mist"]);
}

#[test]
fn registry_orders_names_by_their_bytes() {
    let mut family = ThemeFamily::new("Family".to_string(), "Author".to_string());
    for name in ["b", "a", "B", "ab", "", "é", "z", "a"] {
        family.add_variant(Theme::new(name.to_string(), Appearance::Dark, Vec::new()));
    }
    let mut registry = ThemeRegistry::new();
    registry.add_family(family);
    assert_eq!(names(&registry.all_themes()), vec!["", "B", "a", "a", "ab", "b", "z", "é"]);
}

#[test]
fn registry_keeps_variants_of_one_name_in_the_order_of_addition() {
    let mut first = ThemeFamily::new("One".to_string(), "Author".to_string());
    first.add_variant(Theme::new("Same".to_string(), Appearance::Dark, Vec::new()));
    first.add_variant(Theme::new("Other".to_string(), Appearance::Dark, Vec::new()));
    first.add_variant(Theme::new("Same".to_string(), Appearance::Light, Vec::new()));
    let mut second = ThemeFamily::new("Two".to_string(), "Author".to_string());
    second.add_variant(Theme::new(
        "Same".to_string(),
        Appearance::Dark,
        vec![ThemeColor::new(ColorType::Fg, hsla(0, 0, 0, 0), None)],
    ));
    let mut registry = ThemeRegistry::new();
    registry.add_family(first);
    registry.add_family(second);
    let all = registry.all_themes();
    assert_eq!(names(&all), vec!["Other", "Same", "Same", "Same"]);
    assert_eq!(all[1].appearance, Appearance::Dark);
    assert_eq!(all[1].colors.len(), 0);
    assert_eq!(all[2].appearance, Appearance::Light);
    assert_eq!(all[3].appearance, Appearance::Dark);
    assert_eq!(all[3].colors.len(), 1);
    let dark = registry.all_dark();
    assert_eq!(names(&dark), vec!["Other", "Same", "Same"]);
    assert_eq!(dark[1].colors.len(), 0);
    assert_eq!(dark[2].colors.len(), 1);
}

#[test]
fn empty_registry_lists_nothing() {
    let mut registry = ThemeRegistry::new();
    assert!(registry.all_themes().is_empty());
    registry.add_family(ThemeFamily::new("Empty".to_string(), "Author".to_string()));
    assert!(registry.all_themes().is_empty());
    assert!(registry.all_dark().is_empty());
    assert!(registry.all_light().is_empty());
}

#[test]
fn queries_leave_the_registry_as_it_was() {
    let mut family = ThemeFamily::new("Family".to_string(), "Author".to_string());
    family.add_variant(Theme::new("B".to_string(), Appearance::Dark, Vec::new()));
    family.add_variant(Theme::new("A".to_string(), Appearance::Dark, Vec::new()));
    let mut registry = ThemeRegistry::new();
    registry.add_family(family);
    assert_eq!(names(&registry.all_themes()), vec!["A", "B"]);
    assert_eq!(registry.families[0].variants[0].name, "B");
    assert_eq!(registry.families[0].variants[1].name, "A");
    assert_eq!(names(&registry.all_themes()), vec!["A", "B"]);
}

#[test]
fn family_finds_variants_by_index() {
    let mut family = ThemeFamily::new("Family".to_string(), "Author".to_string());
    assert_eq!(family.variant(0).err(), Some(NotFoundError::Variant));
    family.add_variant(Theme::new("First".to_string(), Appearance::Dark, Vec::new()));
    family.add_variant(Theme::new("Second".to_string(), Appearance::Light, Vec::new()));
    assert_eq!(family.variant(0).unwrap().name, "First");
    assert_eq!(family.variant(1).unwrap().name, "Second");
    assert_eq!(family.variant(2).err(), Some(NotFoundError::Variant));
}

#[test]
fn family_keeps_the_last_scale_set_of_a_name() {
    let scale = |l: i64| [hsla(0, 0, l, 30600); 12];
    let first = ColorScaleSet::new("neutral".to_string(), scale(1), scale(2), scale(3), scale(4));
    let second = ColorScaleSet::new("neutral".to_string(), scale(5), scale(6), scale(7), scale(8));
    let mut family = ThemeFamily::new("Family".to_string(), "Author".to_string());
    assert_eq!(family.color_scale_set("neutral").err(), Some(NotFoundError::ScaleSet));
    family.add_color_scale_set(first);
    family.add_color_scale_set(second.clone());
    assert_eq!(family.color_scale_sets.len(), 1);
    assert_eq!(family.color_scale_set("neutral"), Ok(&second));
    assert_eq!(family.color_scale_set("slate").err(), Some(NotFoundError::ScaleSet));
}
