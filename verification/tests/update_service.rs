use std::collections::HashMap;
use std::sync::{Arc, Mutex};

use base64::Engine as _;
use ed25519_dalek::{Signer as _, SigningKey};
use sha2::{Digest as _, Sha256};

use devtoolbox::update::keys::KeyRing;
use devtoolbox::update::manifest::{
    PackageFormat, PayloadSignature, RecoveryAsset, ReleaseAsset, ReleaseManifest, Version,
};
use devtoolbox::update::service::{
    backoff_seconds, download_requests, install_request, machine_jitter_secs, recovery_step,
    recovery_strategy, retry_delay, should_auto_check, CheckOnlyInstaller, Installer,
    RecoveryStrategy, Transport, UpdateService, UpdateState, VerifiedRecovery,
};

struct Fixtures(Mutex<HashMap<String, Vec<u8>>>);

impl Transport for Fixtures {
    fn get(&self, url: &str, maximum_bytes: u64) -> Result<Vec<u8>, String> {
        let value = self.0.lock().unwrap().get(url).cloned().ok_or("offline")?;
        if value.len() as u64 > maximum_bytes {
            Err("fixture exceeds limit".into())
        } else {
            Ok(value)
        }
    }
}

struct RecoveryRecorder(Arc<Mutex<Vec<bool>>>);

impl Installer for RecoveryRecorder {
    fn install(
        &self,
        _format: PackageFormat,
        _payload: &[u8],
        recovery: Option<&VerifiedRecovery>,
    ) -> Result<UpdateState, String> {
        self.0.lock().unwrap().push(recovery.is_some());
        Ok(UpdateState::RestartRequired)
    }
}

type SignedFixture = (
    UpdateService<Fixtures, RecoveryRecorder>,
    ReleaseManifest,
    ReleaseAsset,
    Arc<Mutex<Vec<bool>>>,
);

fn signed_fixture(tamper_recovery: bool) -> SignedFixture {
    let update = b"update-v0.11.0".to_vec();
    let recovery = b"recovery-v0.10.0".to_vec();
    let signing = SigningKey::from_bytes(&[7; 32]);
    let encode_signature = |bytes: &[u8], minor| PayloadSignature {
        key_id: "fixture".into(),
        signature: base64::engine::general_purpose::STANDARD.encode(signing.sign(bytes).to_bytes()),
        activated_minor: minor,
        valid_until_epoch_days: 30_000,
    };
    let recovery_asset = RecoveryAsset {
        version: Version::parse("0.10.0").unwrap(),
        os: "windows".into(),
        arch: "x86_64".into(),
        format: PackageFormat::Nsis,
        url: "https://github.com/RebelliousSmile/DevToolBox/releases/download/v0.10.0/DevToolBox-recovery.exe".into(),
        size: recovery.len() as u64,
        sha256: format!("{:x}", Sha256::digest(&recovery)),
        signatures: vec![encode_signature(&recovery, 10)],
    };
    let asset = ReleaseAsset {
        os: "windows".into(),
        arch: "x86_64".into(),
        format: PackageFormat::Nsis,
        url: "https://github.com/RebelliousSmile/DevToolBox/releases/download/v0.11.0/DevToolBox-update.exe".into(),
        size: update.len() as u64,
        sha256: format!("{:x}", Sha256::digest(&update)),
        signatures: vec![encode_signature(&update, 11)],
        recovery: Some(recovery_asset.clone()),
    };
    let manifest = ReleaseManifest {
        schema_version: 1,
        version: Version::parse("0.11.0").unwrap(),
        notes: "fixture".into(),
        assets: vec![asset.clone()],
    };
    let mut responses = HashMap::new();
    responses.insert(asset.url.clone(), update);
    responses.insert(
        recovery_asset.url.clone(),
        if tamper_recovery {
            b"tampered-recovery".to_vec()
        } else {
            recovery
        },
    );
    let public_key =
        base64::engine::general_purpose::STANDARD.encode(signing.verifying_key().as_bytes());
    let calls = Arc::new(Mutex::new(Vec::new()));
    let service = UpdateService::new(
        Fixtures(Mutex::new(responses)),
        RecoveryRecorder(Arc::clone(&calls)),
        KeyRing::from_json(&format!(r#"{{"fixture":"{public_key}"}}"#)).unwrap(),
    );
    (service, manifest, asset, calls)
}

#[test]
fn cadence_jitter_and_backoff_are_bounded() {
    assert!(should_auto_check(None, 1, 99_999));
    assert!(!should_auto_check(Some(100), 86_500, 3600));
    assert!(should_auto_check(Some(100), 90_100, 3600));
    assert_eq!(backoff_seconds(429, 10), Some(1920));
    assert_eq!(backoff_seconds(500, 1), None);
    assert!(machine_jitter_secs("fixture") <= 3600);
}

#[test]
fn empty_production_ring_disables_network_before_transport() {
    let service = UpdateService::new(
        Fixtures(Mutex::new(HashMap::new())),
        CheckOnlyInstaller,
        KeyRing::default(),
    );
    assert!(service
        .fetch_manifest("https://example.invalid")
        .unwrap_err()
        .contains("non configuré"));
}

#[test]
fn recovery_is_downloaded_and_verified_before_installer_runs() {
    let (service, manifest, asset, calls) = signed_fixture(false);
    assert_eq!(
        service.download_and_install(&manifest, &asset, 20_000),
        Ok(UpdateState::RestartRequired)
    );
    assert_eq!(*calls.lock().unwrap(), vec![true]);
}

#[test]
fn invalid_recovery_blocks_installation_without_touching_current_version() {
    let (service, manifest, asset, calls) = signed_fixture(true);
    let error = service
        .download_and_install(&manifest, &asset, 20_000)
        .unwrap_err();
    assert!(error.contains("recovery"));
    assert!(calls.lock().unwrap().is_empty());
}

#[test]
fn interrupted_installation_has_a_deterministic_recovery_strategy() {
    assert_eq!(
        recovery_strategy(PackageFormat::Appimage),
        RecoveryStrategy::RestorePreviousAppImage
    );
    assert_eq!(
        recovery_strategy(PackageFormat::Nsis),
        RecoveryStrategy::ReinstallNsis
    );
    assert_eq!(
        recovery_strategy(PackageFormat::App),
        RecoveryStrategy::RestoreMacApp
    );
    assert_eq!(
        recovery_strategy(PackageFormat::Deb),
        RecoveryStrategy::SystemPackageManager
    );
}

#[test]
fn debian_packages_are_handed_to_the_package_manager() {
    let (service, manifest, mut asset, calls) = signed_fixture(false);
    asset.format = PackageFormat::Deb;
    assert_eq!(
        service.download_and_install(&manifest, &asset, 20_000),
        Ok(UpdateState::HandOff(
            "Mise à jour déléguée au gestionnaire de paquets système.".to_string()
        ))
    );
    assert!(calls.lock().unwrap().is_empty());
    asset.format = PackageFormat::Nsis;
    asset.recovery = None;
    assert_eq!(
        service.download_and_install(&manifest, &asset, 20_000),
        Err("payload de récupération absent; réinstallation manuelle requise".to_string())
    );
}

#[test]
fn backoff_doubles_from_thirty_seconds() {
    assert_eq!(backoff_seconds(403, 0), Some(30));
    assert_eq!(backoff_seconds(429, 1), Some(60));
    assert_eq!(backoff_seconds(429, 6), Some(1920));
    assert_eq!(backoff_seconds(200, 0), None);
    assert!(should_auto_check(Some(0), 86_400, 0));
    assert!(!should_auto_check(Some(0), 86_399, 0));
    assert!(!should_auto_check(Some(100), 50, 0));
    assert_eq!(machine_jitter_secs("a"), machine_jitter_secs("a"));
}

#[test]
fn an_installation_requests_the_recovery_then_the_payload_at_their_sizes() {
    let (_, _, asset, _) = signed_fixture(false);
    let (recovery, payload) = download_requests(&asset).unwrap();
    let rec = asset.recovery.clone().unwrap();
    assert_eq!(recovery, Some((rec.url.clone(), rec.size)));
    assert_eq!(payload, (asset.url.clone(), asset.size));
    let mut without = asset.clone();
    without.recovery = None;
    assert_eq!(
        download_requests(&without),
        Err("payload de récupération absent; réinstallation manuelle requise".to_string())
    );
    let mut appimage = without.clone();
    appimage.format = PackageFormat::Appimage;
    assert_eq!(download_requests(&appimage).unwrap().0, None);
}

#[test]
fn only_verified_bytes_reach_the_installer() {
    let (service, manifest, asset, _) = signed_fixture(false);
    let _ = (&service, &manifest);
    let ring_json = {
        let signing = SigningKey::from_bytes(&[7; 32]);
        let key = base64::engine::general_purpose::STANDARD.encode(signing.verifying_key().as_bytes());
        format!(r#"{{"fixture":"{key}"}}"#)
    };
    let ring = KeyRing::from_json(&ring_json).unwrap();
    let recovery_bytes = b"recovery-v0.10.0".to_vec();
    let verified = recovery_step(&asset, Some(Ok(recovery_bytes.clone())), &ring, 20_000)
        .unwrap()
        .unwrap();
    assert_eq!(verified.payload, recovery_bytes);
    assert!(recovery_step(&asset, Some(Ok(b"tampered".to_vec())), &ring, 20_000)
        .unwrap_err()
        .starts_with("recovery verification failed: "));
    assert_eq!(
        recovery_step(&asset, Some(Err("offline".into())), &ring, 20_000),
        Err("recovery download failed: offline".to_string())
    );
    assert!(recovery_step(&asset, None, &ring, 20_000).is_err());

    let (format, payload, recovery) = install_request(
        &asset,
        Some(verified.clone()),
        Ok(b"update-v0.11.0".to_vec()),
        &ring,
        11,
        20_000,
    )
    .unwrap();
    assert_eq!(format, PackageFormat::Nsis);
    assert_eq!(payload, b"update-v0.11.0".to_vec());
    assert!(recovery.is_some());
    assert!(install_request(&asset, None, Ok(b"update-v0.11.1".to_vec()), &ring, 11, 20_000).is_err());
    assert_eq!(
        install_request(&asset, None, Err("offline".into()), &ring, 11, 20_000),
        Err("offline".to_string())
    );
}

#[test]
fn the_manifest_is_requested_capped_only_with_keys() {
    let (service, _, _, _) = signed_fixture(false);
    assert_eq!(
        service.manifest_request("https://example.test/latest.json"),
        Ok(("https://example.test/latest.json".to_string(), 1024 * 1024))
    );
    let unconfigured = UpdateService::new(
        Fixtures(Mutex::new(HashMap::new())),
        CheckOnlyInstaller,
        KeyRing::default(),
    );
    assert!(unconfigured.manifest_request("x").is_err());
}

#[test]
fn only_refusals_with_a_backoff_are_retried_twice() {
    assert_eq!(retry_delay(Some(429), 0), Some(30));
    assert_eq!(retry_delay(Some(403), 1), Some(60));
    assert_eq!(retry_delay(Some(429), 2), None);
    assert_eq!(retry_delay(Some(500), 0), None);
    assert_eq!(retry_delay(None, 0), None);
}
