use base64::Engine as _;
use ed25519_dalek::{Signer, SigningKey};
use sha2::{Digest, Sha256};

use devtoolbox::update::keys::KeyRing;
use devtoolbox::update::manifest::{
    select_asset, validate_release_url, verify_payload, verify_recovery_payload, ClientContext,
    PackageFormat, PayloadSignature, RecoveryAsset, ReleaseAsset, ReleaseManifest, Version,
    MAX_PAYLOAD_BYTES,
};

fn fixture() -> (ReleaseManifest, KeyRing, Vec<u8>) {
    let payload = b"fixture update".to_vec();
    let recovery_payload = b"fixture recovery".to_vec();
    let signing = SigningKey::from_bytes(&[9; 32]);
    let key = base64::engine::general_purpose::STANDARD.encode(signing.verifying_key().as_bytes());
    let signature =
        base64::engine::general_purpose::STANDARD.encode(signing.sign(&payload).to_bytes());
    let digest = Sha256::digest(&payload);
    let recovery_signature = base64::engine::general_purpose::STANDARD
        .encode(signing.sign(&recovery_payload).to_bytes());
    let recovery_digest = Sha256::digest(&recovery_payload);
    (
        ReleaseManifest {
            schema_version: 1,
            version: Version::parse("0.11.0").unwrap(),
            notes: "fixture".into(),
            assets: vec![ReleaseAsset {
                os: "windows".into(),
                arch: "x86_64".into(),
                format: PackageFormat::Nsis,
                url: "https://github.com/RebelliousSmile/DevToolBox/releases/download/v0.11.0/DevToolBox.exe".into(),
                size: payload.len() as u64,
                sha256: format!("{digest:x}"),
                signatures: vec![PayloadSignature {
                    key_id: "fixture".into(),
                    signature,
                    activated_minor: 11,
                    valid_until_epoch_days: 30_000,
                }],
                recovery: Some(RecoveryAsset {
                    version: Version::parse("0.10.0").unwrap(),
                    os: "windows".into(),
                    arch: "x86_64".into(),
                    format: PackageFormat::Nsis,
                    url: "https://github.com/RebelliousSmile/DevToolBox/releases/download/v0.10.0/DevToolBox.exe".into(),
                    size: recovery_payload.len() as u64,
                    sha256: format!("{recovery_digest:x}"),
                    signatures: vec![PayloadSignature {
                        key_id: "fixture".into(),
                        signature: recovery_signature,
                        activated_minor: 10,
                        valid_until_epoch_days: 30_000,
                    }],
                }),
            }],
        },
        KeyRing::from_json(&format!(r#"{{"fixture":"{key}"}}"#)).unwrap(),
        payload,
    )
}

fn context(current: &Version) -> ClientContext {
    ClientContext {
        current: current.clone(),
        os: "windows".into(),
        arch: "x86_64".into(),
        format: PackageFormat::Nsis,
        now_epoch_days: 20_000,
        first_updater: Version::parse("0.9.0").unwrap(),
    }
}

#[test]
fn newer_matching_signed_payload_is_accepted() {
    let (manifest, ring, payload) = fixture();
    let current = Version::parse("0.10.0").unwrap();
    let asset = select_asset(&manifest, &context(&current)).unwrap();
    assert_eq!(
        verify_payload(asset, &payload, &ring, manifest.version.minor(), 20_000).unwrap(),
        "fixture"
    );
}

#[test]
fn downgrade_wrong_platform_external_url_and_oversize_are_rejected() {
    let (mut manifest, _, _) = fixture();
    let current = Version::parse("0.11.0").unwrap();
    assert!(select_asset(&manifest, &context(&current)).is_err());
    let current = Version::parse("0.10.0").unwrap();
    manifest.assets[0].os = "macos".into();
    assert!(select_asset(&manifest, &context(&current)).is_err());
    manifest.assets[0].os = "windows".into();
    manifest.assets[0].url = "https://example.com/payload".into();
    assert!(select_asset(&manifest, &context(&current)).is_err());
    manifest.assets[0].url =
        "https://github.com/RebelliousSmile/DevToolBox/releases/download/v0.11.0/a".into();
    manifest.assets[0].size = MAX_PAYLOAD_BYTES + 1;
    assert!(select_asset(&manifest, &context(&current)).is_err());
}

#[test]
fn missing_recovery_or_modified_payload_blocks_auto_install() {
    let (mut manifest, ring, mut payload) = fixture();
    let current = Version::parse("0.10.0").unwrap();
    manifest.assets[0].recovery = None;
    assert!(select_asset(&manifest, &context(&current)).is_err());
    let (valid_manifest, _, _) = fixture();
    manifest.assets[0].recovery = valid_manifest.assets[0].recovery.clone();
    let asset = select_asset(&manifest, &context(&current)).unwrap();
    payload[0] ^= 1;
    assert!(verify_payload(asset, &payload, &ring, 11, 20_000).is_err());
}

#[test]
fn recovery_must_match_current_platform_tag_and_signature() {
    let (mut manifest, ring, _) = fixture();
    let current = Version::parse("0.10.0").unwrap();
    manifest.assets[0].recovery.as_mut().unwrap().arch = "aarch64".into();
    assert!(select_asset(&manifest, &context(&current)).is_err());

    let (mut manifest, _, _) = fixture();
    let recovery = manifest.assets[0].recovery.as_mut().unwrap();
    recovery.url =
        "https://github.com/RebelliousSmile/DevToolBox/releases/download/v0.9.1/old.exe".into();
    assert!(select_asset(&manifest, &context(&current)).is_err());

    let (manifest, _, _) = fixture();
    let recovery = manifest.assets[0].recovery.as_ref().unwrap();
    assert!(verify_recovery_payload(recovery, b"tampered recovery", &ring, 20_000).is_err());
}

#[test]
fn each_refusal_names_its_reason() {
    let (mut manifest, ring, payload) = fixture();
    let current = Version::parse("0.10.0").unwrap();
    let mut too_old = context(&current);
    too_old.first_updater = Version::parse("0.10.1").unwrap();
    assert_eq!(
        select_asset(&manifest, &too_old).unwrap_err(),
        "manual installation required before integrated updates"
    );
    assert_eq!(
        select_asset(&manifest, &context(&Version::parse("0.11.0").unwrap())).unwrap_err(),
        "release is not newer than the installed version"
    );
    manifest.schema_version = 2;
    assert_eq!(
        select_asset(&manifest, &context(&current)).unwrap_err(),
        "unsupported update manifest schema"
    );
    let (mut manifest, _, _) = fixture();
    manifest.assets[0].signatures[0].valid_until_epoch_days = 19_999;
    assert_eq!(
        select_asset(&manifest, &context(&current)).unwrap_err(),
        "no signature inside the rotation window"
    );
    let (manifest, _, _) = fixture();
    let asset = &manifest.assets[0];
    assert_eq!(
        verify_payload(asset, &payload[1..], &ring, 11, 20_000).unwrap_err(),
        "downloaded payload size mismatch"
    );
    assert_eq!(
        verify_payload(asset, &payload, &ring, 14, 20_000).unwrap_err(),
        "no known valid signature accepted the payload"
    );
}

#[test]
fn update_urls_must_be_project_release_downloads() {
    assert!(validate_release_url(
        "https://github.com/RebelliousSmile/DevToolBox/releases/download/v1.0.0/x"
    )
    .is_ok());
    assert_eq!(
        validate_release_url("http://github.com/RebelliousSmile/DevToolBox/releases/download/v1/x")
            .unwrap_err(),
        "update URL must be an immutable DevToolBox GitHub release asset"
    );
    assert!(validate_release_url("not a url")
        .unwrap_err()
        .starts_with("invalid update URL: "));
}

#[test]
fn versions_follow_semver_precedence_and_print_canonically() {
    let a = Version::parse("1.2.3-alpha.1").unwrap();
    let b = Version::parse("1.2.3").unwrap();
    assert_eq!(a.compare(&b), -1);
    assert_eq!(b.compare(&a), 1);
    assert_eq!(b.compare(&b.clone()), 0);
    assert_eq!(a.to_text(), "1.2.3-alpha.1");
    assert_eq!(Version::parse("4.5.6+build.7").unwrap().to_text(), "4.5.6+build.7");
    assert_eq!(Version::parse("0.10.0").unwrap().minor(), 10);
    assert!(Version::parse("1.2").is_err());
}
