use devtoolbox::docker_confirm::DockerPending;
use devtoolbox::launcher_cards::Command;
use devtoolbox::pending_actions::{
    batch_status, docker_done_status, form_stays_after_group_removal, form_stays_after_removal,
    host_scan_status, pending_action_step, port_rewrite_status, save_failure_status,
    ConfirmedAction, Effect, ModelsJob,
};

#[test]
fn a_busy_window_refuses_cleanups_and_model_jobs() {
    assert_eq!(
        pending_action_step(ConfirmedAction::CleanModule("npm".into()), true, "/m", 0),
        Effect::Refused {
            message: "Une autre commande est en cours — nettoyage annulé.".into(),
            in_status: true
        }
    );
    assert_eq!(
        pending_action_step(
            ConfirmedAction::RecoverModelOperation {
                operation_id: "op".into(),
                action: "discard-partial".into()
            },
            true,
            "/m",
            0
        ),
        Effect::Refused {
            message: "Une autre commande est active; reprise non appliquée.".into(),
            in_status: false
        }
    );
    assert_eq!(
        pending_action_step(ConfirmedAction::CleanModule("npm".into()), false, "/m", 0),
        Effect::Clean("npm".into())
    );
}

#[test]
fn confirmed_model_actions_run_the_tool_with_their_command_line() {
    match pending_action_step(
        ConfirmedAction::GuideModel {
            artifact_id: "a-1".into(),
            destination: "ollama".into(),
            category: None,
        },
        false,
        "/m",
        99,
    ) {
        Effect::ModelMutation { job, arguments } => {
            assert_eq!(job, ModelsJob::GuidedWrite);
            assert_eq!(arguments[6], "ui-guided-99");
        }
        other => panic!("{other:?}"),
    }
    match pending_action_step(
        ConfirmedAction::RecoverModelOperation {
            operation_id: "op".into(),
            action: "discard-partial".into(),
        },
        false,
        "/lib",
        0,
    ) {
        Effect::ModelMutation { job, arguments } => {
            assert_eq!(job, ModelsJob::RecoveryWrite);
            assert_eq!(arguments[..3], ["recover", "--root", "/lib"]);
        }
        other => panic!("{other:?}"),
    }
}

#[test]
fn docker_actions_wait_behind_their_status() {
    assert_eq!(
        pending_action_step(
            ConfirmedAction::Docker(DockerPending::StopContainer {
                id: "c1".into(),
                name: "web".into()
            }),
            true,
            "",
            0
        ),
        Effect::DeferDocker {
            status: "Arrêt de web…".into()
        }
    );
    assert_eq!(
        pending_action_step(ConfirmedAction::DeleteSelection { count: 3 }, false, "", 0),
        Effect::DeferDocker {
            status: "Suppression de 3 ressource(s)…".into()
        }
    );
}

#[test]
fn the_form_closes_when_its_action_is_deleted() {
    assert!(!form_stays_after_removal(Some("vpn"), "vpn"));
    assert!(form_stays_after_removal(Some("vpn"), "other"));
    assert!(form_stays_after_removal(None, "vpn"));
    let remaining = vec![Command {
        id: "kept".into(),
        name: "Kept".into(),
        command: "k".into(),
        category: "system".into(),
        icon: "🔧".into(),
        is_favorite: false,
        shortcut: None,
        variant_group: None,
        group_name: None,
        variant_label: None,
        machine_specific: false,
        info: None,
    }];
    assert!(form_stays_after_group_removal(Some("kept"), &remaining));
    assert!(!form_stays_after_group_removal(Some("gone"), &remaining));
    assert!(form_stays_after_group_removal(None, &remaining));
    assert_eq!(save_failure_status("disk full"), "Échec de sauvegarde: disk full");
}

#[test]
fn a_finished_docker_action_reports_its_name_or_its_error() {
    let stop = DockerPending::StopContainer { id: "c1".into(), name: "web".into() };
    assert_eq!(docker_done_status(&stop, Ok(())), ("Conteneur web arrêté.".to_string(), false, true));
    let image = DockerPending::RemoveImage { reference: "sha".into(), name: "nginx:1".into() };
    assert_eq!(docker_done_status(&image, Ok(())), ("Image nginx:1 supprimée.".to_string(), false, true));
    let volume = DockerPending::RemoveVolume("data".into());
    assert_eq!(docker_done_status(&volume, Ok(())), ("Volume data supprimé.".to_string(), false, true));
    assert_eq!(
        docker_done_status(&volume, Err("in use".into())),
        ("in use".to_string(), true, false)
    );
}

#[test]
fn a_batch_deletion_counts_successes_and_failures() {
    let all_ok: Vec<Result<(), String>> = vec![Ok(()), Ok(())];
    assert_eq!(batch_status(&all_ok), ("2 ressource(s) supprimée(s).".to_string(), false));
    let mixed: Vec<Result<(), String>> = vec![Ok(()), Err("busy".into()), Err("gone".into())];
    assert_eq!(
        batch_status(&mixed),
        ("1 supprimée(s), 2 en échec — voir le rapport.".to_string(), true)
    );
}

#[test]
fn port_rewrites_and_host_scans_are_counted() {
    assert_eq!(
        port_rewrite_status(3, 0),
        ("3 port(s) réécrit(s). Relancer les stacks avec --force-recreate.".to_string(), false)
    );
    assert_eq!(
        port_rewrite_status(1, 2),
        ("1 port(s) réécrit(s), 2 refusé(s) — voir le détail.".to_string(), true)
    );
    assert_eq!(host_scan_status(12), "12 port(s) à l'écoute sur l'hôte.");
}
