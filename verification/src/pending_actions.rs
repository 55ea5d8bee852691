//! What the window does once the user confirms a guarded action: refuse it
//! while another command runs, start the model tool or the cleanup with
//! the right command line, or defer a slow Docker call behind an
//! "in progress" status; and whether the action form stays open after a
//! deletion; and what the status bar says once a deferred Docker action
//! has run.

use vstd::prelude::*;

use crate::docker_confirm::DockerPending;
use crate::launcher_cards::Command;
use crate::model_commands::{guided_start_arguments, recovery_arguments, settings_arguments};
use crate::text::{decimal, opt_chars, push_decimal, str_eq, strings_view};

verus! {

/// The model tool's job in flight.
#[derive(Clone, Copy, Debug, PartialEq, Eq, Structural)]
pub enum ModelsJob {
    Inventory,
    Resolve,
    Download,
    SettingsRead,
    SettingsWrite,
    RecoveryRead,
    RecoveryWrite,
    GuidedWrite,
}

/// A confirmed action that runs a command.
#[derive(Clone, Debug, PartialEq, Eq)]
pub enum ConfirmedAction {
    /// Cleaning a cache module.
    CleanModule(String),
    SaveModelSettings {
        root: String,
        provider_order: String,
        enabled_providers: String,
        xet_enabled: bool,
        keep_patterns: String,
    },
    RecoverModelOperation { operation_id: String, action: String },
    GuideModel { artifact_id: String, destination: String, category: Option<String> },
    /// A Docker action, as its confirmation carried it.
    Docker(DockerPending),
    /// Deleting a selection of `count` Docker objects.
    DeleteSelection { count: usize },
}

/// What the window then does.
#[derive(Clone, Debug, PartialEq, Eq)]
pub enum Effect {
    /// Nothing runs: the message goes to the status bar (`in_status`) or to
    /// the models view's error.
    Refused { message: String, in_status: bool },
    /// The cleanup of that module starts.
    Clean(String),
    /// The model tool runs with these arguments, as that job.
    ModelMutation { job: ModelsJob, arguments: Vec<String> },
    /// The Docker call waits for the next frame, once this status shows.
    DeferDocker { status: String },
}

/// The status shown while a deferred Docker action waits.
pub open spec fn docker_status(p: DockerPending) -> Seq<char> {
    match p {
        DockerPending::StopContainer { id, name } => "Arrêt de "@ + name@ + "…"@,
        DockerPending::RemoveContainer { id, name } => "Suppression de "@ + name@ + "…"@,
        DockerPending::RemoveImage { reference, name } => "Suppression de "@ + name@ + "…"@,
        DockerPending::RemoveVolume(name) => "Suppression de "@ + name@ + "…"@,
        DockerPending::ApplyPortReassignment(moves) => "Réattribution de "@ + decimal(
            moves@.len(),
        ) + " port(s)…"@,
    }
}

/// `r` is the refusal `message`, shown in the status bar or not.
pub open spec fn refused(r: Effect, message: Seq<char>, in_status: bool) -> bool {
    r matches Effect::Refused { message: m, in_status: s } && m@ == message && s == in_status
}

/// `r` runs the model tool as `job` with `arguments`.
pub open spec fn runs_model(r: Effect, job: ModelsJob, arguments: Seq<Seq<char>>) -> bool {
    r matches Effect::ModelMutation { job: j, arguments: a } && j == job && strings_view(a@)
        == arguments
}

/// What a confirmed action does. While another command runs (`busy`), a
/// cleanup or a model-tool action is refused with its own message; else
/// the cleanup starts, or the model tool runs with the settings, recovery
/// or guided-integration command line (see `model_commands`; the library
/// root is the current one, the migration id is taken at `millis`). A
/// Docker action is always deferred behind its "in progress" status.
pub fn pending_action_step(
    action: ConfirmedAction,
    busy: bool,
    library_root: &str,
    millis: u64,
) -> (r: Effect)
    ensures
        match action {
            ConfirmedAction::CleanModule(module) => if busy {
                refused(r, "Une autre commande est en cours — nettoyage annulé."@, true)
            } else {
                r == Effect::Clean(module)
            },
            ConfirmedAction::SaveModelSettings {
                root,
                provider_order,
                enabled_providers,
                xet_enabled,
                keep_patterns,
            } => if busy {
                refused(r, "Une autre commande est active; réglage non modifié."@, false)
            } else {
                runs_model(
                    r,
                    ModelsJob::SettingsWrite,
                    seq![
                        "settings"@,
                        "--set-library-root"@,
                        root@,
                        "--set-provider-order"@,
                        provider_order@,
                        "--set-enabled-providers"@,
                        enabled_providers@,
                        if xet_enabled {
                            "--xet-enabled"@
                        } else {
                            "--no-xet-enabled"@
                        },
                        "--set-keep-patterns"@,
                        keep_patterns@,
                    ],
                )
            },
            ConfirmedAction::RecoverModelOperation { operation_id, action: a } => if busy {
                refused(r, "Une autre commande est active; reprise non appliquée."@, false)
            } else {
                runs_model(
                    r,
                    ModelsJob::RecoveryWrite,
                    seq![
                        "recover"@,
                        "--root"@,
                        library_root@,
                        "--operation-id"@,
                        operation_id@,
                        "--action"@,
                        a@,
                        "--capability"@,
                        a@,
                    ],
                )
            },
            ConfirmedAction::GuideModel { artifact_id, destination, category } => if busy {
                refused(r, "Une autre commande est active; intégration non préparée."@, false)
            } else {
                runs_model(
                    r,
                    ModelsJob::GuidedWrite,
                    seq![
                        "guided-start"@,
                        "--artifact-id"@,
                        artifact_id@,
                        "--destination"@,
                        destination@,
                        "--migration-id"@,
                        "ui-guided-"@ + decimal(millis as nat),
                    ] + match category {
                        Some(c) => seq!["--category"@, c@],
                        None => Seq::empty(),
                    },
                )
            },
            ConfirmedAction::Docker(p) => r matches Effect::DeferDocker { status } && status@
                == docker_status(p),
            ConfirmedAction::DeleteSelection { count } => r matches Effect::DeferDocker { status }
                && status@ == "Suppression de "@ + decimal(count as nat) + " ressource(s)…"@,
        },
{
    match action {
        ConfirmedAction::CleanModule(module) => {
            if busy {
                Effect::Refused {
                    message: String::from_str("Une autre commande est en cours — nettoyage annulé."),
                    in_status: true,
                }
            } else {
                Effect::Clean(module)
            }
        },
        ConfirmedAction::SaveModelSettings {
            root,
            provider_order,
            enabled_providers,
            xet_enabled,
            keep_patterns,
        } => {
            if busy {
                Effect::Refused {
                    message: String::from_str("Une autre commande est active; réglage non modifié."),
                    in_status: false,
                }
            } else {
                Effect::ModelMutation {
                    job: ModelsJob::SettingsWrite,
                    arguments: settings_arguments(
                        root.as_str(),
                        provider_order.as_str(),
                        enabled_providers.as_str(),
                        xet_enabled,
                        keep_patterns.as_str(),
                    ),
                }
            }
        },
        ConfirmedAction::RecoverModelOperation { operation_id, action } => {
            if busy {
                Effect::Refused {
                    message: String::from_str("Une autre commande est active; reprise non appliquée."),
                    in_status: false,
                }
            } else {
                Effect::ModelMutation {
                    job: ModelsJob::RecoveryWrite,
                    arguments: recovery_arguments(library_root, operation_id.as_str(), action.as_str()),
                }
            }
        },
        ConfirmedAction::GuideModel { artifact_id, destination, category } => {
            if busy {
                Effect::Refused {
                    message: String::from_str(
                        "Une autre commande est active; intégration non préparée.",
                    ),
                    in_status: false,
                }
            } else {
                let c = match &category {
                    Some(c) => Some(c.as_str()),
                    None => None,
                };
                Effect::ModelMutation {
                    job: ModelsJob::GuidedWrite,
                    arguments: guided_start_arguments(
                        artifact_id.as_str(),
                        destination.as_str(),
                        millis,
                        c,
                    ),
                }
            }
        },
        ConfirmedAction::Docker(p) => {
            let status = match &p {
                DockerPending::StopContainer { id, name } => {
                    let mut s = String::from_str("Arrêt de ");
                    s.append(name.as_str());
                    s.append("…");
                    s
                },
                DockerPending::RemoveContainer { id, name } => {
                    let mut s = String::from_str("Suppression de ");
                    s.append(name.as_str());
                    s.append("…");
                    s
                },
                DockerPending::RemoveImage { reference, name } => {
                    let mut s = String::from_str("Suppression de ");
                    s.append(name.as_str());
                    s.append("…");
                    s
                },
                DockerPending::RemoveVolume(name) => {
                    let mut s = String::from_str("Suppression de ");
                    s.append(name.as_str());
                    s.append("…");
                    s
                },
                DockerPending::ApplyPortReassignment(moves) => {
                    let mut s = String::from_str("Réattribution de ");
                    push_decimal(&mut s, moves.len() as u64);
                    s.append(" port(s)…");
                    s
                },
            };
            Effect::DeferDocker { status }
        },
        ConfirmedAction::DeleteSelection { count } => {
            let mut s = String::from_str("Suppression de ");
            push_decimal(&mut s, count as u64);
            s.append(" ressource(s)…");
            Effect::DeferDocker { status: s }
        },
    }
}

/// Whether the action form stays open once the action `removed_id` is
/// deleted: not when it was editing that very action.
pub fn form_stays_after_removal(editing_id: Option<&str>, removed_id: &str) -> (r: bool)
    ensures
        r == !(editing_id matches Some(e) && e@ == removed_id@),
{
    match editing_id {
        Some(e) => !str_eq(e, removed_id),
        None => true,
    }
}

/// Whether the action form stays open once an application's variants are
/// deleted, `remaining` being the commands left: not when it was editing an
/// action that no longer exists.
pub fn form_stays_after_group_removal(editing_id: Option<&str>, remaining: &Vec<Command>) -> (r: bool)
    ensures
        editing_id is None ==> r,
        editing_id matches Some(e) ==> (r <==> exists|k: int|
            0 <= k < remaining.len() && (#[trigger] remaining@[k]).id@ == e@),
{
    match editing_id {
        None => true,
        Some(e) => {
            let mut k: usize = 0;
            while k < remaining.len()
                invariant
                    k <= remaining.len(),
                    editing_id == Some(e),
                    forall|j: int| 0 <= j < k ==> (#[trigger] remaining@[j]).id@ != e@,
                decreases remaining.len() - k,
            {
                if str_eq(remaining[k].id.as_str(), e) {
                    assert(remaining@[k as int].id@ == e@);
                    return true;
                }
                k += 1;
            }
            false
        },
    }
}

/// The status after a failed save.
pub fn save_failure_status(error: &str) -> (r: String)
    ensures
        r@ == "Échec de sauvegarde: "@ + error@,
{
    let mut r = String::from_str("Échec de sauvegarde: ");
    r.append(error);
    r
}

// ---------------------------------------------------------------------------
// Reports of deferred Docker actions
// ---------------------------------------------------------------------------

/// What the status bar says once a single Docker action succeeded.
pub open spec fn done_message(p: DockerPending) -> Seq<char> {
    match p {
        DockerPending::StopContainer { id, name } => "Conteneur "@ + name@ + " arrêté."@,
        DockerPending::RemoveContainer { id, name } => "Conteneur "@ + name@ + " supprimé."@,
        DockerPending::RemoveImage { reference, name } => "Image "@ + name@ + " supprimée."@,
        DockerPending::RemoveVolume(name) => "Volume "@ + name@ + " supprimé."@,
        DockerPending::ApplyPortReassignment(moves) => Seq::empty(),
    }
}

fn framed(before: &str, name: &String, after: &str) -> (r: String)
    ensures
        r@ == before@ + name@ + after@,
{
    let mut r = String::from_str(before);
    r.append(name.as_str());
    r.append(after);
    r
}

/// The status once a container, image or volume action has run, as
/// `(message, is_error, refetch)`: the success wording and a refresh of the
/// Docker view, or the failure as an error and no refresh. (A port
/// reassignment reports through [`port_rewrite_status`].)
pub fn docker_done_status(p: &DockerPending, result: Result<(), String>) -> (r: (String, bool, bool))
    requires
        !(p is ApplyPortReassignment),
    ensures
        match result {
            Ok(()) => r.0@ == done_message(*p) && !r.1 && r.2,
            Err(e) => r.0@ == e@ && r.1 && !r.2,
        },
{
    match result {
        Err(e) => (e, true, false),
        Ok(()) => {
            let message = match p {
                DockerPending::StopContainer { id, name } => framed("Conteneur ", name, " arrêté."),
                DockerPending::RemoveContainer { id, name } => framed("Conteneur ", name, " supprimé."),
                DockerPending::RemoveImage { reference, name } => framed("Image ", name, " supprimée."),
                DockerPending::RemoveVolume(name) => framed("Volume ", name, " supprimé."),
                DockerPending::ApplyPortReassignment(_) => String::new(),
            };
            (message, false, true)
        },
    }
}

/// How many outcomes of `report` failed.
pub open spec fn failures_in(report: Seq<Result<(), String>>) -> nat
    decreases report.len(),
{
    if report.len() == 0 {
        0
    } else {
        failures_in(report.drop_last()) + if report.last() is Err {
            1nat
        } else {
            0nat
        }
    }
}

/// The status of a batch deletion that removed `succeeded` objects and
/// failed on `failures`.
pub open spec fn batch_message(succeeded: nat, failures: nat) -> Seq<char> {
    if failures == 0 {
        decimal(succeeded) + " ressource(s) supprimée(s)."@
    } else {
        decimal(succeeded) + " supprimée(s), "@ + decimal(failures) + " en échec — voir le rapport."@
    }
}

/// The status once a batch deletion has run, from its per-object outcomes:
/// `(message, is_error)`, an error when any object failed.
pub fn batch_status(report: &Vec<Result<(), String>>) -> (r: (String, bool))
    ensures
        failures_in(report@) <= report@.len(),
        r.0@ == batch_message((report@.len() - failures_in(report@)) as nat, failures_in(report@)),
        r.1 == (failures_in(report@) > 0),
{
    let mut failures: usize = 0;
    let mut i: usize = 0;
    while i < report.len()
        invariant
            i <= report.len(),
            failures == failures_in(report@.take(i as int)),
            failures <= i,
        decreases report.len() - i,
    {
        assert(report@.take(i + 1).drop_last() =~= report@.take(i as int));
        if report[i].is_err() {
            failures += 1;
        }
        i += 1;
    }
    assert(report@.take(report.len() as int) =~= report@);
    let succeeded = report.len() - failures;
    let mut message = String::new();
    push_decimal(&mut message, succeeded as u64);
    if failures == 0 {
        message.append(" ressource(s) supprimée(s).");
    } else {
        message.append(" supprimée(s), ");
        push_decimal(&mut message, failures as u64);
        message.append(" en échec — voir le rapport.");
    }
    (message, failures > 0)
}

/// The status of a port reassignment that rewrote `written` lines and
/// refused `refused`.
pub open spec fn port_rewrite_message(written: nat, refused: nat) -> Seq<char> {
    if refused == 0 {
        decimal(written) + " port(s) réécrit(s). Relancer les stacks avec --force-recreate."@
    } else {
        decimal(written) + " port(s) réécrit(s), "@ + decimal(refused) + " refusé(s) — voir le détail."@
    }
}

/// The status once a port reassignment has been written: `(message,
/// is_error)`, an error when any line was refused.
pub fn port_rewrite_status(written: u64, refused: u64) -> (r: (String, bool))
    ensures
        r.0@ == port_rewrite_message(written as nat, refused as nat),
        r.1 == (refused > 0),
{
    let mut message = String::new();
    push_decimal(&mut message, written);
    if refused == 0 {
        message.append(" port(s) réécrit(s). Relancer les stacks avec --force-recreate.");
    } else {
        message.append(" port(s) réécrit(s), ");
        push_decimal(&mut message, refused);
        message.append(" refusé(s) — voir le détail.");
    }
    (message, refused > 0)
}

/// The status once the host's listening ports were scanned.
pub fn host_scan_status(count: u64) -> (r: String)
    ensures
        r@ == decimal(count as nat) + " port(s) à l'écoute sur l'hôte."@,
{
    let mut message = String::new();
    push_decimal(&mut message, count);
    message.append(" port(s) à l'écoute sur l'hôte.");
    message
}

} // verus!
