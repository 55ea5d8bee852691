use devtoolbox::theme::{palette, Rgb, ThemeMode, TRANSITION_MS};
use devtoolbox::visual_harness::reference_metrics;

#[test]
fn legacy_theme_values_remain_compatible() {
    assert_eq!(ThemeMode::from_preference("light"), ThemeMode::Light);
    assert_eq!(ThemeMode::from_preference("dark"), ThemeMode::Dark);
    assert_eq!(ThemeMode::from_preference("system"), ThemeMode::System);
}

#[test]
fn motion_is_short_and_never_loops() {
    assert!((120..=180).contains(&TRANSITION_MS));
}

#[test]
fn french_and_padded_preferences_are_understood() {
    assert_eq!(ThemeMode::from_preference("  Clair "), ThemeMode::Light);
    assert_eq!(ThemeMode::from_preference("SOMBRE"), ThemeMode::Dark);
    assert_eq!(ThemeMode::from_preference("darkish"), ThemeMode::System);
    assert_eq!(ThemeMode::from_preference(""), ThemeMode::System);
}

#[test]
fn reference_metrics_describe_the_viewport_and_budget() {
    for (width, height) in [(400, 300), (1280, 800)] {
        let metrics = reference_metrics(width, height, false);
        assert_eq!(metrics.viewport, [width, height]);
        assert_eq!(metrics.theme, "light");
        assert!(!metrics.idle_repaint_requested);
        assert!(metrics.transition_budget_ms <= 180);
    }
    assert_eq!(reference_metrics(1, 1, true).theme, "dark");
}

fn relative_luminance(color: Rgb) -> f32 {
    fn channel(value: u8) -> f32 {
        let value = value as f32 / 255.0;
        if value <= 0.04045 {
            value / 12.92
        } else {
            ((value + 0.055) / 1.055).powf(2.4)
        }
    }
    0.2126 * channel(color.r) + 0.7152 * channel(color.g) + 0.0722 * channel(color.b)
}

fn contrast_ratio(a: Rgb, b: Rgb) -> f32 {
    let (a, b) = (relative_luminance(a), relative_luminance(b));
    let (bright, dark) = if a > b { (a, b) } else { (b, a) };
    (bright + 0.05) / (dark + 0.05)
}

#[test]
fn text_and_controls_meet_aa_contrast() {
    for colors in [palette(false), palette(true)] {
        assert!(contrast_ratio(colors.text, colors.surface) >= 4.5);
        assert!(contrast_ratio(colors.text_muted, colors.surface) >= 4.5);
        assert!(contrast_ratio(colors.accent_text, colors.accent) >= 4.5);
        assert!(contrast_ratio(colors.border, colors.surface) >= 1.3);
    }
}

#[test]
fn the_two_palettes_differ_where_the_themes_do() {
    let light = palette(false);
    let dark = palette(true);
    assert_eq!(light.surface, Rgb { r: 255, g: 255, b: 255 });
    assert_eq!(dark.canvas, Rgb { r: 18, g: 20, b: 25 });
    assert_ne!(light.text, dark.text);
}
