use devtoolbox::launcher_cards::{
    build_display_groups, partition_by_variant_group, partition_preferences_rows,
    position_of_id, preferences_groups, resolution_fields, submitted_command, ActionForm,
    CardData, Category, CategoryCommands, Command, CommandGroup, CommandResolution, DisplayGroup,
    PreferencesRow,
};

const MAPPING: &str = "/home/user/.config/devtoolbox/machine-commands.json";

fn plain(id: &str, name: &str, command: &str, icon: &str, is_favorite: bool) -> Command {
    Command {
        id: id.into(),
        name: name.into(),
        command: command.into(),
        category: "system".into(),
        icon: icon.into(),
        is_favorite,
        shortcut: None,
        variant_group: None,
        group_name: None,
        variant_label: None,
        machine_specific: false,
        info: None,
    }
}

fn sample_commands() -> Vec<Command> {
    vec![
        plain("notepad", "Bloc-notes", "notepad.exe", "📝", true),
        plain("cmd", "Invite de commandes", "cmd.exe", "💻", false),
    ]
}

fn variant_command(
    id: &str,
    variant_group: &str,
    group_name: &str,
    variant_label: &str,
    command: &str,
    is_favorite: bool,
) -> Command {
    Command {
        id: id.into(),
        name: variant_label.into(),
        command: command.into(),
        category: "system".into(),
        icon: "🔧".into(),
        is_favorite,
        shortcut: None,
        variant_group: Some(variant_group.into()),
        group_name: Some(group_name.into()),
        variant_label: Some(variant_label.into()),
        machine_specific: false,
        info: None,
    }
}

/// The resolution of commands that are not machine-specific: their own
/// command line.
fn resolved(commands: &[Command]) -> Vec<CommandResolution> {
    commands
        .iter()
        .map(|c| CommandResolution::Resolved(c.command.clone()))
        .collect()
}

/// All commands in the single "Système" category.
fn display(show_categories: bool, commands: Vec<Command>) -> Vec<DisplayGroup> {
    let resolutions = resolved(&commands);
    let by_category = vec![CommandGroup {
        category_name: Some("Système".into()),
        commands: commands.clone(),
        resolutions: resolutions.clone(),
    }];
    build_display_groups(show_categories, &by_category, &commands, &resolutions, MAPPING)
}

fn all_cards(groups: &[DisplayGroup]) -> Vec<&CardData> {
    groups.iter().flat_map(|g| &g.cards).collect()
}

#[test]
fn flat_mode_returns_only_favorites_in_a_single_headerless_group() {
    let groups = display(false, sample_commands());

    assert_eq!(groups.len(), 1);
    assert_eq!(groups[0].header, None);
    assert_eq!(groups[0].cards.len(), 1);
    assert_eq!(groups[0].cards[0].command_id, "notepad");
}

#[test]
fn grouped_mode_labels_orphan_commands_as_sans_categorie() {
    let mut orphan = plain("orphan", "Orphelin", "true", "❓", false);
    orphan.category = "does-not-exist".into();
    let system = sample_commands();
    let mut commands = system.clone();
    commands.push(orphan.clone());
    let by_category = vec![
        CommandGroup {
            category_name: Some("Système".into()),
            resolutions: resolved(&system),
            commands: system,
        },
        CommandGroup {
            category_name: None,
            resolutions: resolved(std::slice::from_ref(&orphan)),
            commands: vec![orphan],
        },
    ];
    let resolutions = resolved(&commands);

    let groups = build_display_groups(true, &by_category, &commands, &resolutions, MAPPING);

    assert!(groups
        .iter()
        .any(|g| g.header.as_deref() == Some("Système") && g.cards.len() == 2));
    assert!(groups
        .iter()
        .any(|g| g.header.as_deref() == Some("Sans catégorie")
            && g.cards.iter().any(|c| c.command_id == "orphan")));
}

#[test]
fn variant_group_commands_consolidate_into_one_card_with_all_variants() {
    let commands = vec![
        variant_command("sftp-pro", "sftp-sync", "Synchroniser", "Pro", "sync.sh pro", true),
        variant_command("sftp-perso", "sftp-sync", "Synchroniser", "Perso", "sync.sh perso", true),
        variant_command(
            "sftp-hermes",
            "sftp-sync",
            "Synchroniser",
            "Hermes",
            "sync.sh hermes",
            true,
        ),
        variant_command("sftp-tout", "sftp-sync", "Synchroniser", "Tout", "sync.sh tout", true),
    ];

    for show_categories in [true, false] {
        let groups = display(show_categories, commands.clone());
        let cards = all_cards(&groups);

        assert_eq!(
            cards.len(),
            1,
            "show_categories={show_categories}: expected exactly one grouped card"
        );
        assert_eq!(cards[0].variants.len(), 4);
        assert_eq!(cards[0].group_name.as_deref(), Some("Synchroniser"));
    }
}

#[test]
fn a_single_favorite_variant_still_pulls_in_all_its_siblings_in_favorites_mode() {
    let commands = vec![
        variant_command("e2m-tray", "email-to-markdown", "Email to Markdown", "Tray auto", "e2m.sh tray", true),
        variant_command(
            "e2m-release",
            "email-to-markdown",
            "Email to Markdown",
            "Tray release",
            "e2m.sh release",
            false,
        ),
        variant_command(
            "e2m-debug",
            "email-to-markdown",
            "Email to Markdown",
            "Tray debug",
            "e2m.sh debug",
            false,
        ),
        variant_command(
            "e2m-build-release",
            "email-to-markdown",
            "Email to Markdown",
            "Build+launch release",
            "e2m.sh build-release",
            false,
        ),
        variant_command(
            "e2m-build-debug",
            "email-to-markdown",
            "Email to Markdown",
            "Build+launch debug",
            "e2m.sh build-debug",
            false,
        ),
    ];

    let groups = display(false, commands);

    assert_eq!(groups.len(), 1);
    assert_eq!(groups[0].cards.len(), 1);
    assert_eq!(
        groups[0].cards[0].variants.len(),
        5,
        "non-favorite siblings must still ride along in the dropdown"
    );
}

#[test]
fn an_ungrouped_command_still_produces_exactly_one_plain_card() {
    for show_categories in [true, false] {
        let groups = display(show_categories, sample_commands());
        let cards = all_cards(&groups);

        let notepad = cards
            .iter()
            .find(|c| c.command_id == "notepad")
            .expect("notepad card present");
        assert!(notepad.variants.is_empty());
        assert_eq!(notepad.group_name, None);
    }
}

#[test]
fn non_machine_specific_cards_are_always_configured_regardless_of_overrides() {
    let groups = display(true, sample_commands());

    for group in &groups {
        for card in &group.cards {
            assert!(card.is_configured, "card {:?} must be configured", card.command_id);
            assert!(
                card.disabled_message.is_none(),
                "card {:?} must never carry a disabled message",
                card.command_id
            );
        }
    }
}

fn deploy() -> Command {
    let mut c = plain("deploy", "Déploiement", "deploy.sh", "🚀", true);
    c.machine_specific = true;
    c
}

#[test]
fn machine_specific_command_with_no_matching_mapping_entry_renders_disabled_with_message() {
    let mut commands = sample_commands();
    commands.push(deploy());
    let mut resolutions = resolved(&commands[..2]);
    resolutions.push(CommandResolution::Unconfigured {
        command_id: "deploy".into(),
        machine_id: "laptop-x".into(),
    });

    let groups = build_display_groups(false, &Vec::new(), &commands, &resolutions, MAPPING);

    let card = all_cards(&groups)
        .into_iter()
        .find(|c| c.command_id == "deploy")
        .expect("the machine-specific 'deploy' card must still be present, just disabled");
    assert!(!card.is_configured);
    let message = card
        .disabled_message
        .as_ref()
        .expect("an unconfigured card must carry an inline disabled message");
    assert!(message.contains("laptop-x"));
    assert!(message.contains(MAPPING));
    assert_eq!(card.command, "");
}

#[test]
fn machine_specific_command_with_a_matching_mapping_entry_renders_configured() {
    let mut commands = sample_commands();
    commands.push(deploy());
    let mut resolutions = resolved(&commands[..2]);
    resolutions.push(CommandResolution::Resolved("deploy.sh --prod".into()));

    let groups = build_display_groups(false, &Vec::new(), &commands, &resolutions, MAPPING);

    let card = all_cards(&groups)
        .into_iter()
        .find(|c| c.command_id == "deploy")
        .expect("the 'deploy' card must be present");
    assert!(card.is_configured);
    assert!(card.disabled_message.is_none());
    assert_eq!(card.command, "deploy.sh --prod");
}

#[test]
fn a_commands_info_string_reaches_its_card_and_its_variants() {
    let mut commands = sample_commands();
    let mut vpn = plain("vpn-card", "VPN", "vpn up", "🔧", true);
    vpn.info = Some("Nécessite le VPN".into());
    commands.push(vpn);
    let mut grouped = variant_command("grouped-card", "report", "Rapport", "Complet", "report --full", true);
    grouped.name = "Rapport complet".into();
    grouped.info = Some("Prend 3 minutes".into());
    commands.push(grouped);

    let groups = display(false, commands);
    let cards = all_cards(&groups);

    let simple = cards
        .iter()
        .find(|c| c.command_id == "vpn-card")
        .expect("the 'vpn-card' card must be present");
    assert_eq!(simple.info.as_deref(), Some("Nécessite le VPN"));

    let grouped = cards
        .iter()
        .find(|c| c.group_name.as_deref() == Some("Rapport"))
        .expect("the grouped 'Rapport' card must be present");
    assert_eq!(grouped.info, None);
    assert_eq!(grouped.variants[0].info.as_deref(), Some("Prend 3 minutes"));
}

#[test]
fn unconfigured_diagnostic_names_machine_command_and_mapping_file() {
    let (configured, message, command) = resolution_fields(
        &CommandResolution::Unconfigured {
            command_id: "deploy".into(),
            machine_id: "laptop-x".into(),
        },
        "/etc/map.json",
    );
    assert!(!configured);
    assert_eq!(
        message.as_deref(),
        Some("Non configuré pour la machine « laptop-x » — ajoutez 'deploy' dans /etc/map.json")
    );
    assert_eq!(command, "");
    let (configured, message, command) =
        resolution_fields(&CommandResolution::Resolved("ls -l".into()), "/etc/map.json");
    assert!(configured);
    assert_eq!(message, None);
    assert_eq!(command, "ls -l");
}

#[test]
fn interleaved_groups_keep_first_seen_order_and_member_order() {
    let commands = vec![
        variant_command("a1", "a", "Groupe A", "Un", "a 1", false),
        plain("solo", "Solo", "solo", "⭐", false),
        variant_command("b1", "b", "Groupe B", "Un", "b 1", true),
        variant_command("a2", "a", "Groupe A", "Deux", "a 2", true),
        plain("other", "Autre", "other", "⭐", true),
    ];
    let resolutions = resolved(&commands);

    let all = partition_by_variant_group(&commands, &resolutions, MAPPING, false);
    let ids: Vec<&str> = all.iter().map(|c| c.command_id.as_str()).collect();
    assert_eq!(ids, ["a1", "solo", "b1", "other"]);
    let labels: Vec<&str> = all[0].variants.iter().map(|v| v.label.as_str()).collect();
    assert_eq!(labels, ["Un", "Deux"]);
    assert_eq!(all[0].name, "Groupe A");
    assert!(all[0].is_favorite, "a group is a favourite when any variant is");
    assert!(!all[0].is_configured);
    assert_eq!(all[0].variants[1].command, "a 2");

    let favorites = partition_by_variant_group(&commands, &resolutions, MAPPING, true);
    let ids: Vec<&str> = favorites.iter().map(|c| c.command_id.as_str()).collect();
    assert_eq!(ids, ["a1", "b1", "other"], "the favourite a2 brings its group's card, opened by a1");
}

#[test]
fn a_group_without_group_name_is_titled_after_its_first_command() {
    let mut first = variant_command("x1", "x", "ignored", "Premier", "x 1", true);
    first.group_name = None;
    first.variant_label = None;
    let second = variant_command("x2", "x", "Autre titre", "Second", "x 2", true);
    let commands = vec![first, second];
    let cards = partition_by_variant_group(&commands, &resolved(&commands), MAPPING, false);
    assert_eq!(cards.len(), 1);
    assert_eq!(cards[0].group_name.as_deref(), Some("Premier"));
    assert_eq!(cards[0].variants[0].label, "Premier", "a variant without label shows its name");
}

#[test]
fn preferences_view_collapses_a_variant_group_into_a_single_row() {
    let commands = vec![
        plain("notepad", "Bloc-notes", "notepad.exe", "📝", true),
        variant_command("sftp-pro", "sftp-sync", "Synchroniser", "Pro", "sync.sh pro", true),
        variant_command("sftp-perso", "sftp-sync", "Synchroniser", "Perso", "sync.sh perso", false),
    ];
    let rows = partition_preferences_rows(commands.clone());
    assert_eq!(rows.len(), 2);
    assert_eq!(rows[0], PreferencesRow::Single(commands[0].clone()));
    match &rows[1] {
        PreferencesRow::Group {
            key,
            group_name,
            icon,
            variants,
        } => {
            assert_eq!(key, "sftp-sync");
            assert_eq!(group_name, "Synchroniser");
            assert_eq!(icon, "🔧");
            assert_eq!(variants, &commands[1..].to_vec());
        }
        other => panic!("expected a group row, got {other:?}"),
    }
}

#[test]
fn preferences_groups_keep_each_category_and_its_rows() {
    let category = Category {
        id: "system".into(),
        name: "Système".into(),
        icon: "🖥️".into(),
    };
    let groups = vec![
        CategoryCommands {
            category: Some(category.clone()),
            commands: sample_commands(),
        },
        CategoryCommands {
            category: None,
            commands: vec![plain("orphan", "Orphelin", "true", "❓", false)],
        },
    ];
    let result = preferences_groups(&groups);
    assert_eq!(result.len(), 2);
    assert_eq!(result[0].category, Some(category));
    assert_eq!(result[0].rows.len(), 2);
    assert_eq!(result[1].category, None);
    assert_eq!(result[1].rows, vec![PreferencesRow::Single(groups[1].commands[0].clone())]);
}

fn form(editing_id: Option<&str>, name: &str, shortcut: &str, info: &str) -> ActionForm {
    ActionForm {
        editing_id: editing_id.map(Into::into),
        name: name.into(),
        category: "system".into(),
        icon: "🔧".into(),
        is_favorite: true,
        shortcut: shortcut.into(),
        info: info.into(),
    }
}

#[test]
fn a_blank_action_name_is_refused() {
    let result = submitted_command(&form(None, "   ", "", ""), "ls", &Vec::new(), "new");
    assert_eq!(result, Err("Le nom de l'action est requis.".to_string()));
}

#[test]
fn a_new_action_is_trimmed_and_gets_the_generated_id() {
    let command = submitted_command(
        &form(None, "  Lister  ", "  ", "  Rapide "),
        "ls -l",
        &sample_commands(),
        "lister",
    )
    .unwrap();
    assert_eq!(command.id, "lister");
    assert_eq!(command.name, "Lister");
    assert_eq!(command.command, "ls -l");
    assert_eq!(command.shortcut, None);
    assert_eq!(command.info.as_deref(), Some("Rapide"));
    assert_eq!(command.variant_group, None);
    assert!(!command.machine_specific);
}

#[test]
fn an_edit_keeps_the_fields_the_form_does_not_show() {
    let mut existing = variant_command("sftp-pro", "sftp-sync", "Synchroniser", "Pro", "sync.sh pro", true);
    existing.machine_specific = true;
    let commands = vec![plain("notepad", "Bloc-notes", "notepad.exe", "📝", true), existing];
    let edited = submitted_command(
        &form(Some("sftp-pro"), "Pro+", "Ctrl+P", ""),
        "sync.sh pro --all",
        &commands,
        "unused",
    )
    .unwrap();
    assert_eq!(edited.id, "sftp-pro");
    assert_eq!(edited.name, "Pro+");
    assert_eq!(edited.shortcut.as_deref(), Some("Ctrl+P"));
    assert_eq!(edited.info, None);
    assert_eq!(edited.variant_group.as_deref(), Some("sftp-sync"));
    assert_eq!(edited.group_name.as_deref(), Some("Synchroniser"));
    assert_eq!(edited.variant_label.as_deref(), Some("Pro"));
    assert!(edited.machine_specific);

    let missing = submitted_command(&form(Some("gone"), "X", "", ""), "x", &commands, "unused");
    assert_eq!(missing, Err("Action introuvable.".to_string()));
    assert_eq!(position_of_id(&commands, "sftp-pro"), Some(1));
    assert_eq!(position_of_id(&commands, "gone"), None);
}

#[test]
fn the_form_prefills_from_a_command() {
    let mut command = plain("vpn", "VPN", "vpn up", "🔒", true);
    command.info = Some("Nécessite le VPN".into());
    let prefilled = ActionForm::from_command(&command);
    assert_eq!(prefilled.editing_id.as_deref(), Some("vpn"));
    assert_eq!(prefilled.name, "VPN");
    assert_eq!(prefilled.shortcut, "");
    assert_eq!(prefilled.info, "Nécessite le VPN");
    let empty = ActionForm::new();
    assert_eq!(empty.editing_id, None);
    assert!(empty.name.is_empty() && !empty.is_favorite);
}

#[test]
fn deleting_asks_first_and_names_what_goes() {
    let (title, body) = devtoolbox::launcher_cards::removal_confirmation("VPN");
    assert_eq!(title, "Supprimer l'action");
    assert_eq!(body, "Supprimer l'action « VPN » ? Cette opération est irréversible.");
    let (title, body) = devtoolbox::launcher_cards::group_removal_confirmation("Synchroniser", 4);
    assert_eq!(title, "Supprimer l'application");
    assert_eq!(
        body,
        "Supprimer « Synchroniser » et ses 4 variantes ? Cette opération est irréversible."
    );
}

#[test]
fn the_fallback_offers_three_system_favorites() {
    let commands = devtoolbox::launcher_cards::fallback_commands();
    let ids: Vec<&str> = commands.iter().map(|c| c.id.as_str()).collect();
    assert_eq!(ids, ["notepad", "cmd", "ipconfig"]);
    assert_eq!(commands[2].command, "ipconfig /all");
    assert!(commands.iter().all(|c| c.is_favorite && c.category == "system"));
    let groups = display(false, commands);
    assert_eq!(groups[0].cards.len(), 3);
}
