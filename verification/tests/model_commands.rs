use devtoolbox::model_commands::{
    download_arguments, download_operation_id, guided_confirmation, guided_start_arguments,
    library_change_confirmation, recovery_arguments, recovery_confirmation, resolve_arguments,
    settings_arguments,
};
use devtoolbox::models::AcquisitionOffer;

#[test]
fn resolve_trims_the_locator_and_splits_alternatives_on_commas_and_newlines() {
    let args = resolve_arguments("  ollama:mistral  ", "llm", "hf:a, ,lm:b\n  direct:c  \n");
    assert_eq!(
        args,
        [
            "resolve",
            "ollama:mistral",
            "--family",
            "llm",
            "--alternative",
            "hf:a",
            "--alternative",
            "lm:b",
            "--alternative",
            "direct:c",
        ]
    );
    assert_eq!(resolve_arguments("x", "llm", ""), ["resolve", "x", "--family", "llm"]);
}

fn reviewed_offer() -> AcquisitionOffer {
    AcquisitionOffer {
        locator: "hf:mistral".into(),
        family: "llm".into(),
        provider: "huggingface".into(),
        review_digest: Some("sha256:abc".into()),
        ..Default::default()
    }
}

#[test]
fn download_refusals_and_the_root_flag() {
    let offers = vec![AcquisitionOffer::default(), reviewed_offer()];
    assert_eq!(
        download_arguments(&offers, None, "op", ""),
        Err("Aucun plan exact revu.".to_string())
    );
    assert_eq!(
        download_arguments(&offers, Some(7), "op", ""),
        Err("Aucun plan exact revu.".to_string())
    );
    assert_eq!(
        download_arguments(&offers, Some(0), "op", ""),
        Err("Le plan revu n'a pas de digest immuable.".to_string())
    );
    let id = download_operation_id(1234);
    assert_eq!(id, "ui-download-1234");
    let args = download_arguments(&offers, Some(1), &id, "  ").unwrap();
    assert_eq!(
        args,
        [
            "download",
            "hf:mistral",
            "--family",
            "llm",
            "--operation-id",
            "ui-download-1234",
            "--review-digest",
            "sha256:abc",
        ]
    );
    let args = download_arguments(&offers, Some(1), &id, "/models").unwrap();
    assert_eq!(&args[8..], ["--root", "/models"]);
}

#[test]
fn settings_recovery_and_guided_command_lines() {
    assert_eq!(
        settings_arguments("/m", "ollama,direct", "ollama", false, "*.gguf"),
        [
            "settings",
            "--set-library-root",
            "/m",
            "--set-provider-order",
            "ollama,direct",
            "--set-enabled-providers",
            "ollama",
            "--no-xet-enabled",
            "--set-keep-patterns",
            "*.gguf",
        ]
    );
    assert_eq!(settings_arguments("/m", "", "", true, "")[7], "--xet-enabled");
    assert_eq!(
        recovery_arguments("/m", "op-1", "discard"),
        [
            "recover",
            "--root",
            "/m",
            "--operation-id",
            "op-1",
            "--action",
            "discard",
            "--capability",
            "discard",
        ]
    );
    assert_eq!(
        guided_start_arguments("a-1", "ollama", 42, Some("Chat")),
        [
            "guided-start",
            "--artifact-id",
            "a-1",
            "--destination",
            "ollama",
            "--migration-id",
            "ui-guided-42",
            "--category",
            "Chat",
        ]
    );
    assert_eq!(guided_start_arguments("a-1", "ollama", 0, None).len(), 7);
}

#[test]
fn model_confirmations_name_what_they_change() {
    let (title, body) = library_change_confirmation("/new");
    assert_eq!(title, "Changer de bibliothèque ?");
    assert_eq!(
        body,
        "Utiliser « /new » pour les prochains artefacts ?\nLes fichiers existants ne seront ni déplacés ni supprimés."
    );
    let (title, body) = recovery_confirmation("op-1", "discard");
    assert_eq!(title, "Récupérer l'opération ?");
    assert!(body.contains("« discard »") && body.contains("« op-1 »"));
    let (title, body) = guided_confirmation("a-1", "ollama");
    assert_eq!(title, "Préparer l'intégration guidée ?");
    assert!(body.starts_with("Préparer l'artefact exact « a-1 » pour ollama ?"));
}

#[test]
fn model_download_requires_and_preserves_the_review_digest() {
    let mut offers = vec![AcquisitionOffer {
        provider: "direct".into(),
        locator: "https://example.test/model.gguf".into(),
        family: "llm".into(),
        filename: "model.gguf".into(),
        format: "gguf".into(),
        executable: true,
        review_digest: Some("a".repeat(64)),
        ..Default::default()
    }];
    let args = download_arguments(&offers, Some(0), "ui-download-1", "").unwrap();
    assert_eq!(args[7], "a".repeat(64));

    offers[0].review_digest = None;
    let error = download_arguments(&offers, Some(0), "ui-download-1", "").unwrap_err();
    assert!(error.contains("digest"));
}
