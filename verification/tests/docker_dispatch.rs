use devtoolbox::docker_confirm::DockerAction;
use devtoolbox::docker_dispatch::{
    adopt_port_plan, docker_view_step, selection_after_batch, toggle_selection, DeferredRead,
    DockerViewAction, DockerViewEffect, DockerViewSession, SelectionKey,
};
use devtoolbox::port_plan::{MoveReason, PortMove, ReassignmentPlan};

fn key(kind: &str, id: &str) -> SelectionKey {
    SelectionKey { kind: kind.into(), id: id.into() }
}

fn session() -> DockerViewSession<u8, String, String> {
    DockerViewSession {
        selection: vec![key("container", "c1")],
        batch_report: vec!["old report".into()],
        active_list: 0,
        deferred: None,
        status: None,
        port_plan: None,
        port_edits: vec!["old edit".into()],
    }
}

#[test]
fn ticking_toggles_and_clears_the_report() {
    let mut s = session();
    let effect = docker_view_step(&mut s, DockerViewAction::ToggleSelection(key("image", "i1")));
    assert_eq!(effect, DockerViewEffect::PruneSelection);
    assert_eq!(s.selection, vec![key("container", "c1"), key("image", "i1")]);
    assert!(s.batch_report.is_empty());
    docker_view_step(&mut s, DockerViewAction::ToggleSelection(key("container", "c1")));
    assert_eq!(s.selection, vec![key("image", "i1")]);
    let mut plain = vec![key("volume", "v")];
    toggle_selection(&mut plain, key("volume", "v"));
    assert!(plain.is_empty());
}

#[test]
fn switching_lists_keeps_the_report_and_reads_are_deferred() {
    let mut s = session();
    assert_eq!(docker_view_step(&mut s, DockerViewAction::SelectList(2)), DockerViewEffect::Nothing);
    assert_eq!(s.active_list, 2);
    assert_eq!(s.batch_report, vec!["old report".to_string()]);
    docker_view_step(&mut s, DockerViewAction::ScanHostPorts);
    assert_eq!(s.deferred, Some(DeferredRead::ScanHostPorts));
    assert_eq!(s.status, Some(("Analyse des ports de l'hôte…".to_string(), false)));
    docker_view_step(&mut s, DockerViewAction::ComputeVolumeSizes);
    assert_eq!(s.deferred, Some(DeferredRead::ComputeVolumeSizes));
    assert_eq!(docker_view_step(&mut s, DockerViewAction::Refresh), DockerViewEffect::Refetch);
    assert!(s.batch_report.is_empty());
    docker_view_step(&mut s, DockerViewAction::ClearSelection);
    assert!(s.selection.is_empty());
    let remove = DockerAction::RemoveVolume("data".into());
    assert_eq!(
        docker_view_step(&mut s, DockerViewAction::Destructive(remove.clone())),
        DockerViewEffect::Confirm(remove)
    );
}

#[test]
fn a_port_plan_is_adopted_with_its_count_and_cleared_with_its_edits() {
    let mut s = session();
    adopt_port_plan(&mut s, ReassignmentPlan { moves: Vec::new(), blocked: Vec::new() });
    assert_eq!(s.status, Some(("Aucun conflit de port à corriger.".to_string(), false)));
    assert!(s.port_edits.is_empty());
    let mv = PortMove {
        file: "/a.yml".into(),
        service: "web".into(),
        protocol: "tcp".into(),
        from: 80,
        to: 1024,
        reason: MoveReason::TakenByHost("nginx".into()),
    };
    adopt_port_plan(&mut s, ReassignmentPlan { moves: vec![mv], blocked: Vec::new() });
    assert_eq!(
        s.status,
        Some(("1 réattribution(s) proposée(s), 0 conflit(s) non réglable(s).".to_string(), false))
    );
    docker_view_step(&mut s, DockerViewAction::ClearPortPlan);
    assert!(s.port_plan.is_none());
}

#[test]
fn a_batch_unticks_what_it_deleted_and_keeps_failures() {
    let selection = vec![key("container", "c1"), key("image", "i1"), key("volume", "v1")];
    let processed = vec![key("volume", "v1"), key("container", "c1"), key("image", "i1")];
    let outcomes: Vec<Result<(), String>> = vec![Ok(()), Err("busy".into()), Ok(())];
    assert_eq!(
        selection_after_batch(&selection, &processed, &outcomes),
        vec![key("container", "c1")]
    );
}
