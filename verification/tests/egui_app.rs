use devtoolbox::egui_app::{
    automations_placeholder_message, badge_message, can_launch_card, format_exit_line,
    user_script_command, user_script_id,
};

#[test]
fn format_exit_line_spells_out_the_exit_status_instead_of_the_debug_form() {
    assert_eq!(format_exit_line(Some(0)), "(terminé — succès)");
    assert_eq!(format_exit_line(Some(2)), "(terminé — code 2)");
    assert_eq!(
        format_exit_line(None),
        "(terminé — interrompu par un signal)",
        "a signal-killed child must not surface as the raw `None` debug form"
    );
}

#[test]
fn badge_message_combines_the_disabled_diagnostic_and_the_free_text_info() {
    assert_eq!(badge_message(None, None), None);
    assert_eq!(
        badge_message(None, Some("Nécessite le VPN")).as_deref(),
        Some("Nécessite le VPN")
    );
    assert_eq!(
        badge_message(Some("Non configuré"), None).as_deref(),
        Some("Non configuré")
    );
    assert_eq!(
        badge_message(Some("Non configuré"), Some("Nécessite le VPN")).as_deref(),
        Some("Non configuré\n\nNécessite le VPN"),
        "the unconfigured diagnostic must come first, then the free-text note"
    );
    assert_eq!(
        badge_message(None, Some("   ")),
        None,
        "a whitespace-only info string must not raise a badge"
    );
}

#[test]
fn can_launch_card_blocks_any_click_while_another_command_is_in_flight() {
    assert!(
        !can_launch_card(true, true),
        "a configured card must not be launchable while another command is running"
    );
    assert!(
        can_launch_card(true, false),
        "a configured card must be launchable when no command is in flight"
    );
    assert!(
        !can_launch_card(false, false),
        "an unconfigured card must never be launchable, even with no command in flight"
    );
}

#[test]
fn negative_exit_codes_keep_their_sign() {
    assert_eq!(format_exit_line(Some(-1)), "(terminé — code -1)");
    assert_eq!(
        format_exit_line(Some(i32::MIN)),
        "(terminé — code -2147483648)"
    );
}

#[test]
fn the_badge_note_is_trimmed() {
    assert_eq!(
        badge_message(Some("D"), Some("  note \n")).as_deref(),
        Some("D\n\nnote")
    );
}

#[test]
fn user_scripts_become_portable_actions() {
    assert_eq!(
        user_script_command(r"tools\backup.py"),
        "@python \"tools/backup.py\""
    );
    assert_eq!(user_script_id("tools/Backup Now"), "user-script-tools-backup-now");
    assert_eq!(user_script_id("__init"), "user-script-init");
    assert_eq!(user_script_id("--"), "user-script-");
    assert_eq!(automations_placeholder_message(), "Aucune automatisation trouvée.");
}

#[test]
fn any_running_job_makes_the_window_busy() {
    assert!(!devtoolbox::egui_app::command_busy(false, false, false, false));
    assert!(devtoolbox::egui_app::command_busy(true, false, false, false));
    assert!(devtoolbox::egui_app::command_busy(false, true, false, false));
    assert!(devtoolbox::egui_app::command_busy(false, false, true, false));
    assert!(devtoolbox::egui_app::command_busy(false, false, false, true));
}

#[test]
fn signed_decimals_cover_the_whole_range() {
    let mut s = String::from("code ");
    devtoolbox::text::push_signed_decimal(&mut s, i64::MIN);
    assert_eq!(s, "code -9223372036854775808");
    let mut t = String::new();
    devtoolbox::text::push_signed_decimal(&mut t, -42);
    assert_eq!(t, "-42");
}
