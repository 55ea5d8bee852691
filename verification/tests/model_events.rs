use devtoolbox::model_events::{
    expected_reply, model_action_step, model_event_step, model_reply_step, ModelCommand,
    ModelEvent, ModelQuery, ModelReply, ModelSettings, ModelsSession, OperationEnd, ReplyKind,
};
use devtoolbox::models::{AcquisitionOffer, CatalogSnapshot};
use devtoolbox::models_view::{ModelsAction, ModelsSection, ModelsUiState};
use devtoolbox::pending_actions::{ConfirmedAction, ModelsJob};

type Session = ModelsSession<u32, u32, u32>;

fn session(job: Option<ModelsJob>, spawning: bool) -> Session {
    ModelsSession {
        job,
        error: None,
        snapshot: None,
        offers: Vec::new(),
        ui: ModelsUiState::default(),
        recovery: Vec::new(),
        guided: None,
        progress: Vec::new(),
        terminal: None,
        cancellable: true,
        spawning,
    }
}

fn offer(provider: &str) -> AcquisitionOffer {
    AcquisitionOffer { provider: provider.into(), ..Default::default() }
}

fn snapshot() -> CatalogSnapshot {
    CatalogSnapshot {
        schema_version: 1,
        generated_at: "fixed".into(),
        platform: "test".into(),
        artifacts: Vec::new(),
        source_errors: Vec::new(),
        warnings: Vec::new(),
    }
}

#[test]
fn each_job_reads_its_own_reply() {
    assert_eq!(expected_reply(Some(ModelsJob::Resolve)), ReplyKind::Offers);
    assert_eq!(expected_reply(Some(ModelsJob::SettingsRead)), ReplyKind::Settings);
    assert_eq!(expected_reply(Some(ModelsJob::SettingsWrite)), ReplyKind::Settings);
    assert_eq!(expected_reply(Some(ModelsJob::RecoveryRead)), ReplyKind::Journals);
    assert_eq!(expected_reply(Some(ModelsJob::GuidedWrite)), ReplyKind::Guided);
    assert_eq!(expected_reply(Some(ModelsJob::RecoveryWrite)), ReplyKind::Received);
    assert_eq!(expected_reply(None), ReplyKind::Received);
}

#[test]
fn resolved_offers_put_the_manual_provider_first() {
    let mut s = session(Some(ModelsJob::Resolve), true);
    s.ui.manual_provider = "  direct ".into();
    s.ui.selected_offer = Some(2);
    let offers = vec![offer("ollama"), offer("direct"), offer("hf"), offer("direct")];
    let q = model_reply_step(&mut s, Ok(ModelReply::Offers(Ok(offers))));
    assert_eq!(q, None);
    let providers: Vec<&str> = s.offers.iter().map(|o| o.provider.as_str()).collect();
    assert_eq!(providers, vec!["direct", "direct", "ollama", "hf"]);
    assert_eq!(s.ui.selected_offer, None);
    assert_eq!(s.job, None);
}

#[test]
fn settings_read_fills_the_form_then_reads_the_journals() {
    let mut s = session(Some(ModelsJob::SettingsRead), true);
    let settings = ModelSettings {
        library_root: "/models".into(),
        provider_order: vec!["direct".into(), "ollama".into()],
        enabled_providers: vec!["direct".into()],
        xet_enabled: false,
        keep_patterns: Vec::new(),
    };
    let q = model_reply_step(&mut s, Ok(ModelReply::Settings(Ok(settings))));
    assert_eq!(s.ui.provider_order, "direct,ollama");
    assert_eq!(s.ui.enabled_providers, "direct");
    assert_eq!(s.ui.keep_pattern, "");
    assert!(!s.ui.xet_enabled);
    assert_eq!(
        q,
        Some(ModelQuery::Run(vec!["recovery".into(), "--root".into(), "/models".into()]))
    );
    assert_eq!(s.job, Some(ModelsJob::RecoveryRead));
}

#[test]
fn settings_write_is_followed_by_an_inventory() {
    let mut s = session(Some(ModelsJob::SettingsWrite), true);
    s.error = Some("old".into());
    let settings = ModelSettings {
        library_root: String::new(),
        provider_order: Vec::new(),
        enabled_providers: Vec::new(),
        xet_enabled: true,
        keep_patterns: vec!["a".into(), "b".into()],
    };
    let q = model_reply_step(&mut s, Ok(ModelReply::Settings(Ok(settings))));
    assert_eq!(q, Some(ModelQuery::Inventory));
    assert_eq!(s.job, Some(ModelsJob::Inventory));
    assert_eq!(s.ui.keep_pattern, "a,b");
    assert_eq!(s.error, None);
}

#[test]
fn unreadable_and_unexpected_replies_are_errors() {
    let mut s = session(Some(ModelsJob::RecoveryRead), true);
    let q = model_reply_step(&mut s, Ok(ModelReply::Journals(Err("bad".into()))));
    assert_eq!(q, None);
    assert_eq!(s.error.as_deref(), Some("journaux modèles invalides: bad"));
    let mut s = session(Some(ModelsJob::Download), true);
    model_reply_step(&mut s, Ok(ModelReply::Received));
    assert_eq!(s.error.as_deref(), Some("réponse modèles reçue pour un job inattendu"));
    let mut s = session(Some(ModelsJob::Resolve), true);
    model_reply_step(&mut s, Err("tool failed".into()));
    assert_eq!(s.error.as_deref(), Some("tool failed"));
    assert_eq!(s.job, None);
}

#[test]
fn guided_integration_opens_the_operations_section() {
    let mut s = session(Some(ModelsJob::GuidedWrite), true);
    model_reply_step(&mut s, Ok(ModelReply::Guided(Ok(7))));
    assert_eq!(s.guided, Some(7));
    assert_eq!(s.ui.section, ModelsSection::Operations);
}

#[test]
fn first_inventory_asks_for_the_settings() {
    let mut s = session(Some(ModelsJob::Inventory), true);
    let q = model_event_step(&mut s, ModelEvent::Inventory(Ok(snapshot())));
    assert_eq!(q, Some(ModelQuery::Run(vec!["settings".into()])));
    assert_eq!(s.job, Some(ModelsJob::SettingsRead));
    assert!(s.snapshot.is_some());
    let mut quiet = session(Some(ModelsJob::Inventory), false);
    assert_eq!(model_event_step(&mut quiet, ModelEvent::Inventory(Ok(snapshot()))), None);
    assert_eq!(quiet.job, None);
}

#[test]
fn progress_is_appended() {
    let mut s = session(Some(ModelsJob::Download), true);
    model_event_step(&mut s, ModelEvent::Progress(1));
    model_event_step(&mut s, ModelEvent::Progress(2));
    assert_eq!(s.progress, vec![1, 2]);
    assert_eq!(s.job, Some(ModelsJob::Download));
}

#[test]
fn an_ending_that_did_not_complete_shows_its_message() {
    let mut s = session(Some(ModelsJob::Download), false);
    let end = OperationEnd { kind: "failed".into(), message: Some("disk full".into()) };
    let q = model_event_step(&mut s, ModelEvent::Terminal(Ok(end.clone())));
    assert_eq!(q, None);
    assert_eq!(s.error.as_deref(), Some("disk full"));
    assert_eq!(s.terminal, Some(end));
    assert!(!s.cancellable);
    let mut live = session(Some(ModelsJob::Download), true);
    let end = OperationEnd { kind: "completed".into(), message: None };
    let q = model_event_step(&mut live, ModelEvent::Terminal(Ok(end)));
    assert_eq!(q, Some(ModelQuery::Inventory));
    assert_eq!(live.job, Some(ModelsJob::Inventory));
}

#[test]
fn resolving_queries_the_typed_locator_and_alternatives() {
    let mut s = session(None, true);
    s.ui.locator = "  org/model ".into();
    s.ui.alternatives = "a, b\nc".into();
    s.error = Some("old".into());
    let c = model_action_step(&mut s, ModelsAction::Resolve, 0);
    let expected: Vec<String> = ["resolve", "org/model", "--family", "llm", "--alternative", "a",
        "--alternative", "b", "--alternative", "c"]
        .iter()
        .map(|a| a.to_string())
        .collect();
    assert_eq!(c, ModelCommand::Query(ModelQuery::Run(expected)));
    assert_eq!(s.job, Some(ModelsJob::Resolve));
    assert_eq!(s.error, None);
}

#[test]
fn running_the_reviewed_offer_starts_its_download() {
    let mut s = session(None, true);
    s.cancellable = false;
    s.progress = vec![9];
    s.offers = vec![AcquisitionOffer {
        locator: "org/model".into(),
        family: "llm".into(),
        review_digest: Some("sha256:r".into()),
        ..Default::default()
    }];
    assert_eq!(model_action_step(&mut s, ModelsAction::Review(0), 0), ModelCommand::Nothing);
    let c = model_action_step(&mut s, ModelsAction::RunReviewed, 42);
    let expected: Vec<String> = ["download", "org/model", "--family", "llm", "--operation-id",
        "ui-download-42", "--review-digest", "sha256:r"]
        .iter()
        .map(|a| a.to_string())
        .collect();
    assert_eq!(
        c,
        ModelCommand::Operation { operation_id: "ui-download-42".into(), arguments: expected }
    );
    assert_eq!(s.job, Some(ModelsJob::Download));
    assert!(s.progress.is_empty());
    assert!(s.cancellable);
    assert_eq!(s.ui.section, ModelsSection::Operations);
}

#[test]
fn running_without_a_reviewed_offer_only_explains() {
    let mut s = session(Some(ModelsJob::Inventory), true);
    assert_eq!(model_action_step(&mut s, ModelsAction::RunReviewed, 1), ModelCommand::Nothing);
    assert_eq!(s.error.as_deref(), Some("Aucun plan exact revu."));
    assert_eq!(s.job, Some(ModelsJob::Inventory));
}

#[test]
fn recovery_and_library_changes_ask_first() {
    let mut s = session(None, true);
    s.ui.library_root = "/lib".into();
    let c = model_action_step(
        &mut s,
        ModelsAction::Recover { operation_id: "op1".into(), action: "discard-partial".into() },
        0,
    );
    assert_eq!(
        c,
        ModelCommand::Confirm {
            title: "Récupérer l'opération ?".into(),
            message: "Appliquer « discard-partial » uniquement au staging possédé de l'opération exacte « op1 » ?".into(),
            on_confirm: ConfirmedAction::RecoverModelOperation {
                operation_id: "op1".into(),
                action: "discard-partial".into(),
            },
        }
    );
    match model_action_step(&mut s, ModelsAction::SaveSettings, 0) {
        ModelCommand::Confirm { on_confirm: ConfirmedAction::SaveModelSettings { root, .. }, .. } => {
            assert_eq!(root, "/lib")
        }
        other => panic!("unexpected {other:?}"),
    }
    let mut idle = session(None, true);
    idle.cancellable = false;
    assert_eq!(model_action_step(&mut idle, ModelsAction::Cancel, 0), ModelCommand::Nothing);
}

#[test]
fn a_failed_cancel_is_shown_as_the_error() {
    let mut s = session(Some(ModelsJob::Download), true);
    devtoolbox::model_events::model_cancel_failed(&mut s, "already finished".into());
    assert_eq!(s.error.as_deref(), Some("already finished"));
    assert_eq!(s.job, Some(ModelsJob::Download));
    assert!(s.cancellable);
}
