use devtoolbox::icon_picker::{
    button_label, is_curated, pick_icon, shows_out_of_set, CURATED_ICONS,
};

/// Every icon the bundled actions use.
const BUILTIN_ACTIONS_ICONS: &[&str] =
    &["🔄", "🧪", "💼", "🏠", "🤖", "📬", "🚀", "🛠️", "🏗️", "🎵"];

/// Every icon the bundled default commands use.
const FALLBACK_CONFIG_ICONS: &[&str] = &["📝", "💻", "🌐"];

#[test]
fn curated_icons_include_every_builtin_actions_icon() {
    for icon in BUILTIN_ACTIONS_ICONS {
        assert!(
            CURATED_ICONS.contains(icon),
            "CURATED_ICONS is missing the bundled action icon {icon:?}"
        );
    }
}

#[test]
fn curated_icons_include_every_fallback_config_icon() {
    for icon in FALLBACK_CONFIG_ICONS {
        assert!(
            CURATED_ICONS.contains(icon),
            "CURATED_ICONS is missing the default command icon {icon:?}"
        );
    }
}

#[test]
fn curated_icons_has_no_duplicates() {
    let mut seen = std::collections::HashSet::new();
    for icon in CURATED_ICONS {
        assert!(
            seen.insert(icon),
            "duplicate icon in CURATED_ICONS: {icon:?}"
        );
    }
}

#[test]
fn is_curated_true_for_seeded_icon_false_for_arbitrary_value() {
    assert!(is_curated("📝"));
    assert!(!is_curated("🦄🦄🦄-not-a-real-single-icon"));
    assert!(!is_curated(""));
}

#[test]
fn every_curated_icon_is_recognised() {
    for icon in CURATED_ICONS {
        assert!(is_curated(icon));
    }
    assert!(is_curated("❓"));
}

fn tile_of(icon: &str) -> usize {
    CURATED_ICONS.iter().position(|i| *i == icon).unwrap()
}

#[test]
fn picking_a_curated_tile_selects_it() {
    let mut current = "💻".to_string();
    assert!(pick_icon(&mut current, tile_of("🌐")));
    assert_eq!(current, "🌐");
}

#[test]
fn picking_the_already_selected_tile_reports_no_change() {
    let mut current = "💻".to_string();
    assert!(!pick_icon(&mut current, tile_of("💻")));
    assert_eq!(current, "💻");
}

#[test]
fn an_out_of_set_value_is_kept_apart_until_a_tile_is_picked() {
    let mut current = "🦄".to_string();
    assert!(shows_out_of_set(&current));
    assert_eq!(button_label(&current), "🦄");
    assert!(pick_icon(&mut current, tile_of("🚀")));
    assert_eq!(current, "🚀");
    assert!(!shows_out_of_set(&current));
    assert!(!shows_out_of_set(""));
    assert_eq!(button_label(&String::new()), "Choisir…");
}
