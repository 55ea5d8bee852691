use devtoolbox::models::{
    AcquisitionOffer, Artifact, ArtifactIdentity, ArtifactReference, CatalogSnapshot, Protection,
};
use devtoolbox::models_view::{
    artifact_status, guide_action, guide_offers, GuideOffers, can_compare, can_review, filtered_artifacts, proven_offer_indices, recovery_action,
    reviewed_offer_index, ModelFilters, ModelsAction, ModelsSection, ModelsUiState,
};

fn snapshot(artifacts: Vec<Artifact>) -> CatalogSnapshot {
    CatalogSnapshot {
        schema_version: 1,
        generated_at: "fixed".into(),
        platform: "test".into(),
        artifacts,
        source_errors: Vec::new(),
        warnings: Vec::new(),
    }
}

#[test]
fn filters_protected_duplicates_and_variants_without_confusing_sizes() {
    let artifact = Artifact {
        artifact_id: "llama-q4".into(),
        family: "llm".into(),
        format: "gguf".into(),
        quantization: Some("Q4_K_M".into()),
        logical_size: Some(10),
        allocated_size: Some(20),
        duplicate_group: Some("sha256:x".into()),
        protection: Protection {
            protected: true,
            reasons: vec!["keep".into()],
        },
        identity: ArtifactIdentity {
            state: "verified".into(),
        },
        ..Default::default()
    };
    let snapshot = snapshot(vec![artifact]);
    let filters = ModelFilters {
        family: "llm".into(),
        format: "gguf".into(),
        variant: "q4".into(),
        protected_only: true,
        duplicates_only: true,
        ..Default::default()
    };
    let rows = filtered_artifacts(&snapshot, &filters);
    assert_eq!(rows.len(), 1);
    assert_eq!(rows[0].logical_size, Some(10));
    assert_eq!(rows[0].allocated_size, Some(20));
}

#[test]
fn only_same_byte_offers_are_comparable() {
    let primary = AcquisitionOffer {
        trusted_digest: Some("sha256:a".into()),
        immutable_revision: Some("rev".into()),
        filename: "model.gguf".into(),
        format: "gguf".into(),
        ..Default::default()
    };
    let mut same = primary.clone();
    same.provider = "other".into();
    let mut changed = primary.clone();
    changed.trusted_digest = Some("sha256:b".into());
    assert_eq!(proven_offer_indices(&[primary, same, changed]), vec![0, 1]);
}

#[test]
fn provisional_or_conversion_offer_cannot_be_run() {
    let offer = AcquisitionOffer {
        executable: false,
        conversion_required: true,
        review_digest: None,
        ..Default::default()
    };
    assert!(offer.review_digest.is_none());
    assert!(!offer.executable);
}

#[test]
fn each_filter_excludes_what_it_names() {
    let base = Artifact {
        artifact_id: "mistral-7b".into(),
        family: "llm".into(),
        format: "gguf".into(),
        category: Some("Chat".into()),
        references: vec![ArtifactReference {
            tool: "ollama".into(),
        }],
        ..Default::default()
    };
    let other = Artifact {
        artifact_id: "sdxl".into(),
        family: "image".into(),
        format: "safetensors".into(),
        ..Default::default()
    };
    let snapshot = snapshot(vec![base, other]);
    let by_tool = ModelFilters {
        tool: "ollama".into(),
        ..Default::default()
    };
    let rows = filtered_artifacts(&snapshot, &by_tool);
    assert_eq!(rows.len(), 1);
    assert_eq!(rows[0].artifact_id, "mistral-7b");
    let by_category = ModelFilters {
        variant: "CHAT".into(),
        ..Default::default()
    };
    assert_eq!(filtered_artifacts(&snapshot, &by_category).len(), 1);
    let protected = ModelFilters {
        protected_only: true,
        ..Default::default()
    };
    assert!(filtered_artifacts(&snapshot, &protected).is_empty());
    assert_eq!(
        filtered_artifacts(&snapshot, &ModelFilters::default()).len(),
        2
    );
}

#[test]
fn an_unproven_primary_is_only_comparable_with_itself() {
    let primary = AcquisitionOffer {
        filename: "model.gguf".into(),
        ..Default::default()
    };
    let same = primary.clone();
    assert_eq!(proven_offer_indices(&[primary, same]), vec![0]);
    assert!(proven_offer_indices(&[]).is_empty());
}

#[test]
fn the_workspace_opens_on_the_catalog_with_every_provider() {
    let state = ModelsUiState::default();
    assert_eq!(state.section, ModelsSection::Catalog);
    assert_eq!(state.family, "llm");
    assert_eq!(state.provider_order, "ollama,huggingface,lm-studio,direct");
    assert!(state.xet_enabled);
    assert_eq!(state.selected_offer, None);
}

#[test]
fn comparing_and_reviewing_wait_for_an_idle_workspace() {
    assert!(can_compare(false, " hf:model "));
    assert!(!can_compare(false, "   "));
    assert!(!can_compare(true, "hf:model"));
    let runnable = AcquisitionOffer {
        executable: true,
        ..Default::default()
    };
    assert!(can_review(&runnable, false));
    assert!(!can_review(&runnable, true));
    let conversion = AcquisitionOffer {
        executable: true,
        conversion_required: true,
        ..Default::default()
    };
    assert!(!can_review(&conversion, false));
}

#[test]
fn only_a_selected_offer_with_a_digest_is_a_reviewed_plan() {
    let offers = vec![
        AcquisitionOffer::default(),
        AcquisitionOffer {
            review_digest: Some("a".repeat(64)),
            ..Default::default()
        },
    ];
    assert_eq!(reviewed_offer_index(&offers, Some(1)), Some(1));
    assert_eq!(reviewed_offer_index(&offers, Some(0)), None);
    assert_eq!(reviewed_offer_index(&offers, Some(2)), None);
    assert_eq!(reviewed_offer_index(&offers, None), None);
}

#[test]
fn restart_recovery_offers_only_the_exact_owned_discard_action() {
    assert_eq!(
        recovery_action("discardable", "exact-op"),
        Some(ModelsAction::Recover {
            operation_id: "exact-op".into(),
            action: "discard-partial".into(),
        })
    );
    assert_eq!(recovery_action("resumable", "exact-op"), None);
}

fn library_artifact(family: &str, state: &str, category: Option<&str>) -> Artifact {
    Artifact {
        artifact_id: "library:m1".into(),
        family: family.into(),
        category: category.map(|c| c.to_string()),
        identity: ArtifactIdentity { state: state.into() },
        ..Default::default()
    }
}

#[test]
fn catalog_status_prefers_protection_then_duplicates() {
    let mut a = library_artifact("llm", "verified", None);
    assert_eq!(artifact_status(&a), "verified");
    a.duplicate_group = Some("g".into());
    assert_eq!(artifact_status(&a), "doublon exact vérifié");
    a.protection = Protection { protected: true, reasons: vec!["ollama".into(), "pinned".into()] };
    assert_eq!(artifact_status(&a), "protégé : ollama, pinned");
}

#[test]
fn only_verified_library_artifacts_can_be_guided() {
    let llm = library_artifact("llm", "verified", None);
    assert_eq!(
        guide_offers(&llm, false),
        GuideOffers { in_library: true, jan: Some(true), comfyui: None, explain_identity: false }
    );
    assert_eq!(guide_offers(&llm, true).jan, Some(false));
    let image = library_artifact("image", "verified", None);
    assert_eq!(guide_offers(&image, false).comfyui, Some(false));
    let weak = library_artifact("image", "provisional", Some("checkpoints"));
    assert_eq!(
        guide_offers(&weak, false),
        GuideOffers { in_library: true, jan: None, comfyui: Some(false), explain_identity: true }
    );
    let mut outside = llm.clone();
    outside.artifact_id = "ollama:m1".into();
    assert!(!guide_offers(&outside, false).in_library);
    assert_eq!(
        guide_action(&weak, true),
        ModelsAction::Guide {
            artifact_id: "library:m1".into(),
            destination: "comfyui".into(),
            category: Some("checkpoints".into()),
        }
    );
    assert_eq!(
        guide_action(&llm, false),
        ModelsAction::Guide { artifact_id: "library:m1".into(), destination: "jan".into(), category: None }
    );
}
