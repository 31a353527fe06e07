use theme_test::{hsla, ColorScaleName, ColorScaleSet, ColorScales, CHANNEL_MAX};

fn scaled(x: f64) -> i64 {
    (x * CHANNEL_MAX as f64).round() as i64
}

#[test]
fn test_color_scale_set() {
    let light = [hsla(scaled(0.0), scaled(0.0), scaled(1.0), scaled(1.0)); 12];
    let dark = [hsla(scaled(0.0), scaled(0.0), scaled(0.0), scaled(1.0)); 12];
    let light_alpha = [hsla(scaled(0.0), scaled(0.0), scaled(1.0), scaled(0.5)); 12];
    let dark_alpha = [hsla(scaled(0.0), scaled(0.0), scaled(0.0), scaled(0.5)); 12];

    let set = ColorScaleSet::new("test".to_string(), light, dark, light_alpha, dark_alpha);

    assert_eq!(set.name, "test");
    assert_eq!(set.light[0], hsla(scaled(0.0), scaled(0.0), scaled(1.0), scaled(1.0)));
    assert_eq!(set.dark[0], hsla(scaled(0.0), scaled(0.0), scaled(0.0), scaled(1.0)));
    assert_eq!(set.light_alpha[0], hsla(scaled(0.0), scaled(0.0), scaled(1.0), scaled(0.5)));
    assert_eq!(set.dark_alpha[0], hsla(scaled(0.0), scaled(0.0), scaled(0.0), scaled(0.5)));
}

#[test]
fn color_scale_keeps_its_twelve_steps_in_order() {
    let mut light = [hsla(0, 0, 0, CHANNEL_MAX as i64); 12];
    for step in 0..12 {
        light[step] = hsla(0, 0, 100 * (11 - step as i64), CHANNEL_MAX as i64);
    }
    let rest = [hsla(0, 0, 0, 0); 12];
    let set = ColorScaleSet::new("steps".to_string(), light, rest, rest, rest);
    assert_eq!(set.light.len(), 12);
    for step in 0..12 {
        assert_eq!(set.light[step].l(), 100 * (11 - step as u32));
    }
    let copy = set.clone();
    assert_eq!(copy, set);
}

#[test]
fn color_scale_names() {
    assert_eq!(ColorScaleName::Slate.name(), "slate");
    assert_eq!(ColorScaleName::Red.name(), "red");
}

#[test]
fn last_scale_set_of_a_name_wins() {
    let scale = |l: i64| [hsla(0, 0, l, 0); 12];
    let first = ColorScaleSet::new("neutral".to_string(), scale(1), scale(1), scale(1), scale(1));
    let second = ColorScaleSet::new("neutral".to_string(), scale(2), scale(2), scale(2), scale(2));
    let other = ColorScaleSet::new(ColorScaleName::Slate.name(), scale(3), scale(3), scale(3), scale(3));
    let mut scales = ColorScales::new();
    assert_eq!(scales.len(), 0);
    assert_eq!(scales.get("neutral"), None);
    scales.insert(first.clone());
    assert_eq!(scales.len(), 1);
    assert_eq!(scales.get("neutral"), Some(&first));
    scales.insert(other.clone());
    scales.insert(second.clone());
    assert_eq!(scales.len(), 2);
    assert_eq!(scales.get("neutral"), Some(&second));
    assert_eq!(scales.get("slate"), Some(&other));
    assert_eq!(scales.get("red"), None);
    scales.insert(second.clone());
    assert_eq!(scales.len(), 2);
    assert_eq!(scales.get("neutral"), Some(&second));
}
