use devtoolbox::launcher_cards::{Category, Command};
use devtoolbox::user_scripts::{
    already_configured, import_status, inject_user_scripts, retain_unimported,
    selected_script_count, sort_scripts, UserScript, UserScriptProposal,
};

fn plain(id: &str, command: &str) -> Command {
    Command {
        id: id.into(),
        name: id.into(),
        command: command.into(),
        category: "system".into(),
        icon: "📝".into(),
        is_favorite: false,
        shortcut: None,
        variant_group: None,
        group_name: None,
        variant_label: None,
        machine_specific: false,
        info: None,
    }
}

fn script(relative_path: &str, without_extension: &str, stem: &str) -> UserScript {
    UserScript {
        relative_path: relative_path.into(),
        without_extension: without_extension.into(),
        file_stem: Some(stem.into()),
    }
}

#[test]
fn selected_scripts_become_actions_under_the_scripts_category() {
    let mut commands = vec![plain("notepad", "notepad.exe"), plain("cmd", "cmd.exe")];
    let mut categories = vec![Category {
        id: "system".into(),
        name: "Système".into(),
        icon: "🖥️".into(),
    }];
    let scripts = vec![
        script("backup.py", "backup", "backup"),
        script("tools/report_daily.py", "tools/report_daily", "report_daily"),
    ];

    let added = inject_user_scripts(&mut commands, &mut categories, &scripts);

    assert_eq!(added, 2);
    assert_eq!(import_status(added), "2 action(s) ajoutée(s).");
    assert!(categories.iter().any(|c| c.id == "user-scripts" && c.name == "Scripts utilisateur"));
    let backup = &commands[2];
    assert_eq!(backup.command, "@python \"backup.py\"");
    assert_eq!(backup.id, "user-script-backup");
    assert_eq!(backup.category, "user-scripts");
    assert_eq!(backup.icon, "🐍");
    assert_eq!(backup.info.as_deref(), Some("Importé depuis backup.py"));
    let report = &commands[3];
    assert_eq!(report.command, "@python \"tools/report_daily.py\"");
    assert_eq!(report.id, "user-script-tools-report-daily");
    assert_eq!(report.name, "report daily");
}

#[test]
fn an_imported_script_is_not_imported_twice_and_ids_get_suffixes() {
    let mut commands = vec![
        plain("user-script-backup", "@python \"other/backup.py\""),
        plain("user-script-backup-2", "x"),
    ];
    let mut categories = vec![Category {
        id: "user-scripts".into(),
        name: "Mes scripts".into(),
        icon: "🐍".into(),
    }];
    let scripts = vec![
        script("other/backup.py", "other/backup", "backup"),
        script("backup.py", "backup", "backup"),
        script("backup.pyw", "backup", "backup"),
    ];

    let added = inject_user_scripts(&mut commands, &mut categories, &scripts);

    assert_eq!(added, 2, "the already imported script is skipped");
    assert_eq!(commands[2].id, "user-script-backup-3");
    assert_eq!(commands[3].id, "user-script-backup-4");
    assert_eq!(categories.len(), 1, "an existing category of that id is kept as is");
    assert_eq!(categories[0].name, "Mes scripts");
}

#[test]
fn nothing_new_leaves_everything_unchanged() {
    let mut commands = vec![plain("a", "@python \"a.py\"")];
    let mut categories = Vec::new();
    let added = inject_user_scripts(&mut commands, &mut categories, &vec![script("a.py", "a", "a")]);
    assert_eq!(added, 0);
    assert_eq!(commands.len(), 1);
    assert!(categories.is_empty());
    assert_eq!(import_status(0), "Aucune nouvelle action à ajouter.");
}

#[test]
fn imported_proposals_leave_the_list() {
    let commands = vec![plain("a", "@python \"a.py\"")];
    let proposals = vec![
        UserScriptProposal {
            relative_path: "a.py".into(),
            selected: true,
        },
        UserScriptProposal {
            relative_path: "b.py".into(),
            selected: false,
        },
    ];
    let left = retain_unimported(proposals, &commands);
    assert_eq!(left.len(), 1);
    assert_eq!(left[0].relative_path, "b.py");
}

#[test]
fn a_script_without_stem_is_named_by_its_path() {
    let mut commands = Vec::new();
    let mut categories = Vec::new();
    let scripts = vec![UserScript {
        relative_path: "dir/.py".into(),
        without_extension: "dir/.py".into(),
        file_stem: None,
    }];
    assert_eq!(inject_user_scripts(&mut commands, &mut categories, &scripts), 1);
    assert_eq!(commands[0].name, "dir/.py");
}

#[test]
fn proposals_already_imported_are_flagged_and_not_counted() {
    let commands = vec![plain("a", "@python \"tools/a.py\"")];
    let done = UserScriptProposal { relative_path: "tools/a.py".into(), selected: true };
    let fresh = UserScriptProposal { relative_path: "b.py".into(), selected: true };
    let unticked = UserScriptProposal { relative_path: "c.py".into(), selected: false };
    assert!(already_configured(&done, &commands));
    assert!(!already_configured(&fresh, &commands));
    assert_eq!(selected_script_count(&vec![done, fresh, unticked], &commands), 1);
}

#[test]
fn scanned_scripts_are_sorted_case_insensitively_and_stably() {
    let sorted = sort_scripts(vec![
        "b.py".to_string(),
        "A.py".to_string(),
        "a.py".to_string(),
        "C/x.py".to_string(),
        "c/a.py".to_string(),
    ]);
    assert_eq!(sorted, vec!["A.py", "a.py", "b.py", "c/a.py", "C/x.py"]);
}
