//! The update service: when to check, how to back off, what to do with a
//! release once selected (download the recovery payload first for the
//! formats that roll back, verify everything, then install), and how each
//! package format recovers from an interrupted installation.

use std::collections::hash_map::DefaultHasher;

use vstd::prelude::*;
use vstd::std_specs::hash::DefaultHasherAdditionalSpecFns;

use super::keys::KeyRing;
use super::manifest::{
    needs_recovery, payload_outcome, verify_payload, verify_recovery_payload, PackageFormat, RecoveryAsset,
    ReleaseAsset, ReleaseManifest, Version,
};

verus! {

/// Where the updater stands, as the window shows it.
#[derive(Clone, Debug, PartialEq)]
pub enum UpdateState {
    Disabled(String),
    Idle,
    Checking,
    Available { manifest: ReleaseManifest, asset: Box<ReleaseAsset> },
    Downloading,
    Verifying,
    Installing,
    RestartRequired,
    Recovery(String),
    Failed(String),
    UpToDate,
    HandOff(String),
}

/// Fetches a URL's body, at most `maximum_bytes` of it.
pub trait Transport: Send + Sync + 'static {
    fn get(&self, url: &str, maximum_bytes: u64) -> Result<Vec<u8>, String>;
}

/// Installs a verified payload, with the verified recovery payload when the
/// format rolls back through one. The library calls it only with bytes that
/// passed their checks.
pub trait Installer: Send + Sync + 'static {
    fn install(
        &self,
        format: PackageFormat,
        payload: &[u8],
        recovery: Option<&VerifiedRecovery>,
    ) -> Result<UpdateState, String>
        requires
            checked_payload(format, payload@),
            needs_recovery(format) ==> recovery is Some,
            recovery matches Some(r) ==> checked_recovery(*r),
    ;
}

/// `payload` passed the checks of a release asset of this format (size,
/// digest and a signature of a signing key in its rotation window).
pub open spec fn checked_payload(format: PackageFormat, payload: Seq<u8>) -> bool {
    exists|asset: ReleaseAsset, ring: Map<Seq<char>, Seq<u8>>, release_minor: u64, now_epoch_days: u64|
        asset.format == format && #[trigger] install_request_spec(
            asset,
            Ok(payload),
            ring,
            release_minor,
            now_epoch_days,
        ) is Ok
}

/// The recovery payload passed the checks of its recovery asset.
pub open spec fn checked_recovery(r: VerifiedRecovery) -> bool {
    exists|asset: RecoveryAsset, ring: Map<Seq<char>, Seq<u8>>, now_epoch_days: u64|
        same_recovery(asset, r.asset) && #[trigger] recovery_step_outcome(
            asset,
            Ok(r.payload@),
            ring,
            now_epoch_days,
        ) is Ok
}

/// A recovery payload whose size, digest and signature were checked.
#[derive(Clone, Debug, PartialEq, Eq)]
pub struct VerifiedRecovery {
    pub asset: RecoveryAsset,
    pub payload: Vec<u8>,
}

/// How an interrupted installation is recovered, per package format.
#[derive(Clone, Copy, Debug, PartialEq, Eq, Structural)]
pub enum RecoveryStrategy {
    RestorePreviousAppImage,
    ReinstallNsis,
    RestoreMacApp,
    SystemPackageManager,
}

pub open spec fn recovery_strategy_spec(format: PackageFormat) -> RecoveryStrategy {
    match format {
        PackageFormat::Appimage => RecoveryStrategy::RestorePreviousAppImage,
        PackageFormat::Nsis => RecoveryStrategy::ReinstallNsis,
        PackageFormat::App => RecoveryStrategy::RestoreMacApp,
        PackageFormat::Deb => RecoveryStrategy::SystemPackageManager,
    }
}

/// The recovery strategy of a package format: keep the previous AppImage,
/// reinstall through NSIS, restore the macOS bundle, or leave it to the
/// system package manager.
pub fn recovery_strategy(format: PackageFormat) -> (r: RecoveryStrategy)
    ensures
        r == recovery_strategy_spec(format),
{
    match format {
        PackageFormat::Appimage => RecoveryStrategy::RestorePreviousAppImage,
        PackageFormat::Nsis => RecoveryStrategy::ReinstallNsis,
        PackageFormat::App => RecoveryStrategy::RestoreMacApp,
        PackageFormat::Deb => RecoveryStrategy::SystemPackageManager,
    }
}

/// Each format has its own strategy: no two formats share one.
pub proof fn law_recovery_strategy_is_one_to_one(a: PackageFormat, b: PackageFormat)
    ensures
        recovery_strategy_spec(a) == recovery_strategy_spec(b) ==> a == b,
{
}

/// An installer for check-only sessions: it never installs.
pub struct CheckOnlyInstaller;

/// Message of the check-only installer.
pub open spec fn confirmation_needed() -> Seq<char> {
    "installation requires explicit user confirmation"@
}

impl Installer for CheckOnlyInstaller {
    fn install(
        &self,
        format: PackageFormat,
        payload: &[u8],
        recovery: Option<&VerifiedRecovery>,
    ) -> (r: Result<UpdateState, String>)
        ensures
            r matches Err(e) && e@ == confirmation_needed(),
    {
        Err(String::from_str("installation requires explicit user confirmation"))
    }
}

/// The message handing an update over to the system package manager.
pub open spec fn package_manager_hand_off() -> Seq<char> {
    "Mise à jour déléguée au gestionnaire de paquets système."@
}

/// The message when a format that rolls back has no recovery payload.
pub open spec fn recovery_missing() -> Seq<char> {
    "payload de récupération absent; réinstallation manuelle requise"@
}

/// The largest manifest fetched, in bytes.
pub const MANIFEST_MAX_BYTES: u64 = 1024 * 1024;

/// The message when no production key is embedded.
pub open spec fn updater_unconfigured() -> Seq<char> {
    "updater non configuré: aucune clé de production embarquée"@
}

/// What downloading and checking the recovery payload gives: the download
/// error or the verification error, each prefixed; otherwise the verified
/// payload.
pub open spec fn recovery_step_outcome(
    asset: RecoveryAsset,
    download: Result<Seq<u8>, Seq<char>>,
    ring: Map<Seq<char>, Seq<u8>>,
    now_epoch_days: u64,
) -> Result<Seq<u8>, Seq<char>> {
    match download {
        Err(e) => Err("recovery download failed: "@ + e),
        Ok(bytes) => match payload_outcome(
            "recovery payload"@,
            asset.size,
            asset.sha256@,
            asset.signatures@,
            bytes,
            ring,
            asset.version@.minor,
            now_epoch_days,
        ) {
            Err(e) => Err("recovery verification failed: "@ + e),
            Ok(_) => Ok(bytes),
        },
    }
}

/// Turns the recovery payload's download into a verified recovery, or the
/// error that stops the update before anything is installed.
pub fn verify_recovery_download(
    asset: &RecoveryAsset,
    download: Result<Vec<u8>, String>,
    ring: &KeyRing,
    now_epoch_days: u64,
) -> (r: Result<VerifiedRecovery, String>)
    ensures
        match (r, recovery_step_outcome(
            *asset,
            match download {
                Ok(b) => Ok::<Seq<u8>, Seq<char>>(b@),
                Err(e) => Err::<Seq<u8>, Seq<char>>(e@),
            },
            ring@,
            now_epoch_days,
        )) {
            (Ok(v), Ok(bytes)) => v.payload@ == bytes && same_recovery(v.asset, *asset),
            (Err(m), Err(e)) => m@ == e,
            _ => false,
        },
{
    let payload = match download {
        Ok(bytes) => bytes,
        Err(error) => {
            let mut message = String::from_str("recovery download failed: ");
            message.append(error.as_str());
            return Err(message);
        },
    };
    match verify_recovery_payload(asset, payload.as_slice(), ring, now_epoch_days) {
        Ok(_) => {},
        Err(error) => {
            let mut message = String::from_str("recovery verification failed: ");
            message.append(error.as_str());
            return Err(message);
        },
    }
    Ok(VerifiedRecovery { asset: clone_recovery(asset), payload })
}

/// The signatures' parts.
pub open spec fn signatures_view(s: Seq<super::manifest::PayloadSignature>) -> Seq<(Seq<char>, Seq<char>, u64, u64)> {
    s.map_values(|x: super::manifest::PayloadSignature| (x.key_id@, x.signature@, x.activated_minor, x.valid_until_epoch_days))
}

/// Two recovery assets describe the same payload.
pub open spec fn same_recovery(a: RecoveryAsset, b: RecoveryAsset) -> bool {
    &&& a.version@ == b.version@
    &&& a.os@ == b.os@
    &&& a.arch@ == b.arch@
    &&& a.format == b.format
    &&& a.url@ == b.url@
    &&& a.size == b.size
    &&& a.sha256@ == b.sha256@
    &&& signatures_view(a.signatures@) == signatures_view(b.signatures@)
}

proof fn lemma_same_recovery_symmetric(a: RecoveryAsset, b: RecoveryAsset)
    requires
        same_recovery(a, b),
    ensures
        same_recovery(b, a),
{
}

fn clone_recovery(asset: &RecoveryAsset) -> (r: RecoveryAsset)
    ensures
        same_recovery(r, *asset),
{
    RecoveryAsset {
        version: asset.version.clone(),
        os: crate::text::copy_string(&asset.os),
        arch: crate::text::copy_string(&asset.arch),
        format: asset.format,
        url: crate::text::copy_string(&asset.url),
        size: asset.size,
        sha256: crate::text::copy_string(&asset.sha256),
        signatures: clone_signatures(&asset.signatures),
    }
}

fn clone_signatures(sigs: &Vec<super::manifest::PayloadSignature>) -> (r: Vec<super::manifest::PayloadSignature>)
    ensures
        signatures_view(r@) == signatures_view(sigs@),
{
    let mut out: Vec<super::manifest::PayloadSignature> = Vec::new();
    let mut i: usize = 0;
    while i < sigs.len()
        invariant
            i <= sigs@.len(),
            signatures_view(out@) == signatures_view(sigs@.take(i as int)),
        decreases sigs@.len() - i,
    {
        let s = &sigs[i];
        let x = super::manifest::PayloadSignature {
            key_id: crate::text::copy_string(&s.key_id),
            signature: crate::text::copy_string(&s.signature),
            activated_minor: s.activated_minor,
            valid_until_epoch_days: s.valid_until_epoch_days,
        };
        let ghost before = out@;
        let ghost gx = x;
        out.push(x);
        proof {
            assert(signatures_view(out@) =~= signatures_view(before).push(
                (gx.key_id@, gx.signature@, gx.activated_minor, gx.valid_until_epoch_days),
            ));
            assert(sigs@.take(i + 1) =~= sigs@.take(i as int).push(sigs@[i as int]));
            assert(signatures_view(sigs@.take(i + 1)) =~= signatures_view(sigs@.take(i as int)).push(
                (s.key_id@, s.signature@, s.activated_minor, s.valid_until_epoch_days),
            ));
        }
        i = i + 1;
    }
    assert(sigs@.take(sigs@.len() as int) =~= sigs@);
    out
}

/// The download an installation makes, as URL and byte cap: the recovery
/// payload of a format that rolls back (NSIS, macOS bundle) and, always,
/// the payload itself; each is capped at its announced size. A format that
/// rolls back but names no recovery payload is refused.
pub fn download_requests(asset: &ReleaseAsset) -> (r: Result<(Option<(String, u64)>, (String, u64)), String>)
    ensures
        needs_recovery(asset.format) && asset.recovery is None ==> (r matches Err(e) && e@
            == recovery_missing()),
        !(needs_recovery(asset.format) && asset.recovery is None) ==> (r matches Ok(q) && q.1.0@
            == asset.url@ && q.1.1 == asset.size && (if needs_recovery(asset.format) {
            q.0 matches Some(rq) && rq.0@ == asset.recovery.unwrap().url@ && rq.1
                == asset.recovery.unwrap().size
        } else {
            q.0 is None
        })),
{
    let recovery = if asset.format == PackageFormat::Nsis || asset.format == PackageFormat::App {
        match &asset.recovery {
            Some(rec) => Some((rec.url.clone(), rec.size)),
            None => return Err(String::from_str("payload de récupération absent; réinstallation manuelle requise")),
        }
    } else {
        None
    };
    Ok((recovery, (asset.url.clone(), asset.size)))
}

pub open spec fn download_view(d: Result<Vec<u8>, String>) -> Result<Seq<u8>, Seq<char>> {
    match d {
        Ok(b) => Ok(b@),
        Err(e) => Err(e@),
    }
}

/// What the recovery step of an installation gives: nothing for a format
/// that does not roll back; otherwise the recovery payload's download,
/// checked (see [`recovery_step_outcome`]), or the refusal when there is
/// no recovery payload or no download of it.
pub open spec fn recovery_step_spec(
    asset: ReleaseAsset,
    download: Option<Result<Seq<u8>, Seq<char>>>,
    ring: Map<Seq<char>, Seq<u8>>,
    now_epoch_days: u64,
) -> Result<Option<Seq<u8>>, Seq<char>> {
    if !needs_recovery(asset.format) {
        Ok(None)
    } else {
        match (asset.recovery, download) {
            (Some(rec), Some(d)) => match recovery_step_outcome(rec, d, ring, now_epoch_days) {
                Ok(bytes) => Ok(Some(bytes)),
                Err(e) => Err(e),
            },
            _ => Err(recovery_missing()),
        }
    }
}

/// The recovery step of an installation (see [`recovery_step_spec`]): the
/// verified recovery payload, handed on with its asset.
pub fn recovery_step(
    asset: &ReleaseAsset,
    download: Option<Result<Vec<u8>, String>>,
    ring: &KeyRing,
    now_epoch_days: u64,
) -> (r: Result<Option<VerifiedRecovery>, String>)
    ensures
        match (r, recovery_step_spec(
            *asset,
            match download {
                Some(d) => Some(download_view(d)),
                None => None,
            },
            ring@,
            now_epoch_days,
        )) {
            (Ok(None), Ok(None)) => true,
            (Ok(Some(v)), Ok(Some(bytes))) => v.payload@ == bytes && same_recovery(
                v.asset,
                asset.recovery.unwrap(),
            ),
            (Err(m), Err(e)) => m@ == e,
            _ => false,
        },
{
    if !(asset.format == PackageFormat::Nsis || asset.format == PackageFormat::App) {
        return Ok(None);
    }
    match (&asset.recovery, download) {
        (Some(rec), Some(d)) => {
            let ghost dv = download_view(d);
            assert(dv == match d {
                Ok(b) => Ok::<Seq<u8>, Seq<char>>(b@),
                Err(e) => Err::<Seq<u8>, Seq<char>>(e@),
            });
            match verify_recovery_download(rec, d, ring, now_epoch_days) {
                Ok(v) => Ok(Some(v)),
                Err(e) => Err(e),
            }
        },
        _ => Err(String::from_str("payload de récupération absent; réinstallation manuelle requise")),
    }
}

/// What an installation hands the installer, once the recovery step has
/// passed: the format and the downloaded payload, when the download
/// succeeded and the payload passed its checks (see [`payload_outcome`]);
/// otherwise the download's or the check's error.
pub open spec fn install_request_spec(
    asset: ReleaseAsset,
    download: Result<Seq<u8>, Seq<char>>,
    ring: Map<Seq<char>, Seq<u8>>,
    release_minor: u64,
    now_epoch_days: u64,
) -> Result<Seq<u8>, Seq<char>> {
    match download {
        Err(e) => Err(e),
        Ok(p) => match payload_outcome(
            "payload"@,
            asset.size,
            asset.sha256@,
            asset.signatures@,
            p,
            ring,
            release_minor,
            now_epoch_days,
        ) {
            Ok(_) => Ok(p),
            Err(e) => Err(e),
        },
    }
}

/// The installer's inputs for `asset` (see [`install_request_spec`]): its
/// format, the verified payload, and the verified recovery handed on.
pub fn install_request(
    asset: &ReleaseAsset,
    recovery: Option<VerifiedRecovery>,
    download: Result<Vec<u8>, String>,
    ring: &KeyRing,
    release_minor: u64,
    now_epoch_days: u64,
) -> (r: Result<(PackageFormat, Vec<u8>, Option<VerifiedRecovery>), String>)
    ensures
        match (r, install_request_spec(
            *asset,
            download_view(download),
            ring@,
            release_minor,
            now_epoch_days,
        )) {
            (Ok(q), Ok(bytes)) => q.0 == asset.format && q.1@ == bytes && q.2 == recovery,
            (Err(m), Err(e)) => m@ == e,
            _ => false,
        },
{
    let payload = match download {
        Ok(bytes) => bytes,
        Err(e) => return Err(e),
    };
    match verify_payload(asset, payload.as_slice(), ring, release_minor, now_epoch_days) {
        Ok(_) => {},
        Err(e) => return Err(e),
    }
    Ok((asset.format, payload, recovery))
}

/// Checking the recovery step and then the installer's inputs lets only
/// verified bytes through: whenever both succeed, the payload passed its
/// checks and, for a format that rolls back, so did the recovery payload.
pub proof fn law_only_verified_bytes_are_installed(
    asset: ReleaseAsset,
    recovery_download: Option<Result<Seq<u8>, Seq<char>>>,
    payload_download: Result<Seq<u8>, Seq<char>>,
    ring: Map<Seq<char>, Seq<u8>>,
    release_minor: u64,
    now_epoch_days: u64,
)
    requires
        recovery_step_spec(asset, recovery_download, ring, now_epoch_days) is Ok,
        install_request_spec(asset, payload_download, ring, release_minor, now_epoch_days) is Ok,
    ensures
        payload_download matches Ok(p) && payload_outcome(
            "payload"@,
            asset.size,
            asset.sha256@,
            asset.signatures@,
            p,
            ring,
            release_minor,
            now_epoch_days,
        ) is Ok,
        needs_recovery(asset.format) ==> (asset.recovery matches Some(rec) && recovery_download
            matches Some(d) && recovery_step_outcome(rec, d, ring, now_epoch_days) is Ok),
{
}

/// The update service: a transport, an installer and the signing keys.
pub struct UpdateService<T, I> {
    transport: T,
    installer: I,
    ring: KeyRing,
}

impl<T: Transport, I: Installer> UpdateService<T, I> {
    /// The signing keys, by id.
    pub closed spec fn keys(&self) -> Map<Seq<char>, Seq<u8>> {
        self.ring@
    }

    pub fn new(transport: T, installer: I, ring: KeyRing) -> (r: Self)
        ensures
            r.keys() == ring@,
    {
        UpdateService { transport, installer, ring }
    }

    /// The manifest request: `endpoint`, capped at [`MANIFEST_MAX_BYTES`];
    /// without any embedded key the updater reports itself unconfigured and
    /// nothing is requested.
    pub fn manifest_request(&self, endpoint: &str) -> (r: Result<(String, u64), String>)
        ensures
            (self.keys().dom().len() == 0) <==> r is Err,
            r matches Err(e) ==> e@ == updater_unconfigured(),
            r matches Ok(q) ==> q.0@ == endpoint@ && q.1 == MANIFEST_MAX_BYTES,
    {
        if self.ring.is_empty() {
            return Err(String::from_str("updater non configuré: aucune clé de production embarquée"));
        }
        Ok((String::from_str(endpoint), MANIFEST_MAX_BYTES))
    }

    /// Fetches the raw manifest as [`UpdateService::manifest_request`]
    /// says: without any embedded key, the network is not touched and the
    /// updater reports itself unconfigured.
    pub fn fetch_manifest(&self, endpoint: &str) -> (r: Result<Vec<u8>, String>)
        ensures
            self.keys().dom().len() == 0 ==> (r matches Err(e) && e@ == updater_unconfigured()),
    {
        match self.manifest_request(endpoint) {
            Err(e) => Err(e),
            Ok((url, cap)) => self.transport.get(url.as_str(), cap),
        }
    }

    /// Downloads and installs a selected release (see
    /// [`UpdateService::download_and_install_with_progress`]).
    pub fn download_and_install(
        &self,
        manifest: &ReleaseManifest,
        asset: &ReleaseAsset,
        now_epoch_days: u64,
    ) -> (r: Result<UpdateState, String>)
        ensures
            asset.format == PackageFormat::Deb ==> (r matches Ok(UpdateState::HandOff(m)) && m@
                == package_manager_hand_off()),
            (asset.format == PackageFormat::Nsis || asset.format == PackageFormat::App)
                && asset.recovery is None ==> (r matches Err(e) && e@ == recovery_missing()),
    {
        self.download_and_install_with_progress(manifest, asset, now_epoch_days, |state: UpdateState| {})
    }

    /// Downloads and installs a selected release, reporting each stage to
    /// `progress`. A Debian package is handed over to the system package
    /// manager. For the formats that roll back (NSIS, macOS bundle) the
    /// recovery payload is downloaded and verified first; then the payload
    /// is downloaded and verified; only then does the installer run.
    pub fn download_and_install_with_progress<F: Fn(UpdateState)>(
        &self,
        manifest: &ReleaseManifest,
        asset: &ReleaseAsset,
        now_epoch_days: u64,
        progress: F,
    ) -> (r: Result<UpdateState, String>)
        requires
            forall|s: UpdateState| progress.requires((s,)),
        ensures
            asset.format == PackageFormat::Deb ==> (r matches Ok(UpdateState::HandOff(m)) && m@
                == package_manager_hand_off()),
            (asset.format == PackageFormat::Nsis || asset.format == PackageFormat::App)
                && asset.recovery is None ==> (r matches Err(e) && e@ == recovery_missing()),
    {
        if asset.format == PackageFormat::Deb {
            return Ok(UpdateState::HandOff(String::from_str("Mise à jour déléguée au gestionnaire de paquets système.")));
        }
        progress(UpdateState::Downloading);
        let (recovery_url, payload_url) = match download_requests(asset) {
            Ok(q) => q,
            Err(e) => return Err(e),
        };
        let recovery_download = match recovery_url {
            Some((url, cap)) => Some(self.transport.get(url.as_str(), cap)),
            None => None,
        };
        let recovery = match recovery_step(asset, recovery_download, &self.ring, now_epoch_days) {
            Ok(v) => v,
            Err(e) => return Err(e),
        };
        let download = self.transport.get(payload_url.0.as_str(), payload_url.1);
        if download.is_ok() {
            progress(UpdateState::Verifying);
        }
        let release_minor = manifest.version.minor();
        let (format, payload, recovery) = match install_request(
            asset,
            recovery,
            download,
            &self.ring,
            release_minor,
            now_epoch_days,
        ) {
            Ok(q) => q,
            Err(e) => return Err(e),
        };
        proof {
            assert(install_request_spec(*asset, Ok(payload@), self.ring@, release_minor, now_epoch_days) is Ok);
            if recovery is Some {
                let v = recovery.unwrap();
                let rec = asset.recovery.unwrap();
                lemma_same_recovery_symmetric(v.asset, rec);
                assert(recovery_step_outcome(rec, Ok(v.payload@), self.ring@, now_epoch_days) is Ok);
            }
        }
        progress(UpdateState::Installing);
        self.installer.install(format, payload.as_slice(), recovery.as_ref())
    }
}

/// `a - b`, saturating at zero.
pub open spec fn sat_sub(a: u64, b: u64) -> int {
    if a < b {
        0
    } else {
        a - b
    }
}

/// Seconds in a day.
pub const DAY_SECS: u64 = 86_400;

/// Largest cadence jitter, in seconds.
pub const MAX_JITTER_SECS: u64 = 3600;

pub open spec fn should_auto_check_spec(last: Option<u64>, now: u64, jitter: u64) -> bool {
    match last {
        None => true,
        Some(l) => sat_sub(now, l) >= DAY_SECS + (if jitter < MAX_JITTER_SECS {
            jitter
        } else {
            MAX_JITTER_SECS
        }),
    }
}

/// Whether to check for updates now: always when no check was recorded;
/// otherwise once a day has passed since the last one, plus the machine's
/// jitter (at most an hour).
pub fn should_auto_check(last_epoch_secs: Option<u64>, now_epoch_secs: u64, jitter_secs: u64) -> (r: bool)
    ensures
        r == should_auto_check_spec(last_epoch_secs, now_epoch_secs, jitter_secs),
{
    let jitter = if jitter_secs < MAX_JITTER_SECS {
        jitter_secs
    } else {
        MAX_JITTER_SECS
    };
    match last_epoch_secs {
        None => true,
        Some(last) => now_epoch_secs.saturating_sub(last) >= DAY_SECS + jitter,
    }
}

/// Checks are at least a day apart and at most a day and an hour apart.
pub proof fn law_auto_check_cadence(last: u64, now: u64, jitter: u64)
    ensures
        sat_sub(now, last) < DAY_SECS ==> !should_auto_check_spec(Some(last), now, jitter),
        sat_sub(now, last) >= DAY_SECS + MAX_JITTER_SECS ==> should_auto_check_spec(Some(last), now, jitter),
{
}

/// `2^k` for `k <= 6`.
pub open spec fn pow2_small(k: u32) -> u64 {
    if k == 0 {
        1
    } else if k == 1 {
        2
    } else if k == 2 {
        4
    } else if k == 3 {
        8
    } else if k == 4 {
        16
    } else if k == 5 {
        32
    } else {
        64
    }
}

pub open spec fn backoff_spec(status: u16, attempt: u32) -> Option<u64> {
    if status == 403 || status == 429 {
        let k: u32 = if attempt < 6 {
            attempt
        } else {
            6
        };
        let d = 30 * pow2_small(k);
        Some((if d < 3600 {
            d
        } else {
            3600
        }) as u64)
    } else {
        None
    }
}

/// The wait before retrying a request refused with `status`, after
/// `attempt` retries: only for 403 and 429, 30 seconds doubled per attempt
/// (up to six doublings), never more than an hour.
pub fn backoff_seconds(status: u16, attempt: u32) -> (r: Option<u64>)
    ensures
        r == backoff_spec(status, attempt),
{
    if status == 403 || status == 429 {
        let k: u32 = if attempt < 6 {
            attempt
        } else {
            6
        };
        let shift: u64 = 1u64 << k;
        assert(shift == pow2_small(k)) by (bit_vector)
            requires
                k <= 6,
                shift == 1u64 << k,
        ;
        let d = 30 * shift;
        Some(if d < 3600 {
            d
        } else {
            3600
        })
    } else {
        None
    }
}

/// Most retries of one request.
pub const MAX_RETRIES: u32 = 2;

/// Whether, and after how long, a failed request is retried: only an HTTP
/// status that has a backoff (see [`backoff_seconds`]), and only while
/// fewer than [`MAX_RETRIES`] retries were made; any other failure is
/// final.
pub fn retry_delay(status: Option<u16>, attempt: u32) -> (r: Option<u64>)
    ensures
        r == (match status {
            Some(code) => if attempt < MAX_RETRIES {
                backoff_spec(code, attempt)
            } else {
                None
            },
            None => None,
        }),
{
    match status {
        Some(code) => {
            let delay = backoff_seconds(code, attempt);
            if delay.is_some() && attempt < MAX_RETRIES {
                delay
            } else {
                None
            }
        },
        None => None,
    }
}

/// A backoff is only ever proposed for 403 and 429, and never exceeds an
/// hour.
pub proof fn law_backoff_bounded(status: u16, attempt: u32)
    ensures
        backoff_spec(status, attempt) matches Some(d) ==> d <= 3600 && (status == 403 || status
            == 429),
        (status == 403 || status == 429) ==> backoff_spec(status, attempt) is Some,
{
}

/// The writes that `Hash for str` makes into a hasher for `text` (std
/// writes the string's bytes and then a terminator; the exact calls are
/// std's own).
pub uninterp spec fn str_hash_writes(text: Seq<char>) -> Seq<Seq<u8>>;

/// `Hash for str` into a `DefaultHasher`: it appends the writes named by
/// [`str_hash_writes`] to the hasher's record of writes.
#[verifier::external_body]
fn hash_str(text: &str, hasher: &mut std::collections::hash_map::DefaultHasher)
    ensures
        final(hasher)@ == old(hasher)@ + str_hash_writes(text@),
{
    std::hash::Hash::hash(text, hasher)
}

/// The jitter that a machine-id hash gives: the hash modulo 3601, so at
/// most an hour.
pub fn jitter_of_hash(hash: u64) -> (r: u64)
    ensures
        r == hash % 3601,
        r <= MAX_JITTER_SECS,
{
    hash % 3601
}

/// A per-machine jitter for the update cadence, at most an hour: the
/// machine id's hash by a fresh `DefaultHasher`, modulo 3601.
pub fn machine_jitter_secs(machine_id: &str) -> (r: u64)
    ensures
        r == DefaultHasher::spec_finish(str_hash_writes(machine_id@)) % 3601,
        r <= MAX_JITTER_SECS,
{
    let mut hasher = std::collections::hash_map::DefaultHasher::new();
    hash_str(machine_id, &mut hasher);
    assert(hasher@ =~= str_hash_writes(machine_id@));
    let h = std::hash::Hasher::finish(&hasher);
    jitter_of_hash(h)
}

/// How a failed check is shown: an up-to-date installation when the release
/// is not newer, a recovery problem when the error is about recovery,
/// otherwise a failure.
pub fn check_failure_state(error: String) -> (r: UpdateState)
    ensures
        crate::text::find(error@, "not newer"@) is Some ==> r is UpToDate,
        crate::text::find(error@, "not newer"@) is None && crate::text::find(error@, "recovery"@) is Some
            ==> (r matches UpdateState::Recovery(m) && m@ == error@),
        crate::text::find(error@, "not newer"@) is None && crate::text::find(error@, "recovery"@) is None
            ==> (r matches UpdateState::Failed(m) && m@ == error@),
{
    if crate::text::contains_str(error.as_str(), "not newer") {
        UpdateState::UpToDate
    } else {
        install_failure_state(error)
    }
}

/// How a failed installation is shown: a recovery problem when the error
/// is about recovery, otherwise a failure.
pub fn install_failure_state(error: String) -> (r: UpdateState)
    ensures
        crate::text::find(error@, "recovery"@) is Some ==> (r matches UpdateState::Recovery(m) && m@
            == error@),
        crate::text::find(error@, "recovery"@) is None ==> (r matches UpdateState::Failed(m) && m@
            == error@),
{
    if crate::text::contains_str(error.as_str(), "recovery") {
        UpdateState::Recovery(error)
    } else {
        UpdateState::Failed(error)
    }
}

/// The time of the last check, from the text of its record: the trimmed
/// text read as a `u64` (an optional `+` and decimal digits), if it is one.
pub fn parse_last_check(text: &str) -> (r: Option<u64>)
    ensures
        r == crate::text::parse_u64_spec(crate::text::trim(text@)),
{
    let v = crate::text::chars_of(text);
    let (start, end) = crate::text::trim_bounds(&v, 0, v.len());
    assert(v@.subrange(0, v@.len() as int) =~= text@);
    crate::text::parse_u64(&v, start, end)
}

/// Why an integrated update is unavailable to an installation not made
/// from a package.
pub open spec fn not_packaged() -> Seq<char> {
    "Mise à jour intégrée réservée aux paquets installés; utilisez GitHub Releases."@
}

/// What starts an update check: the installation's package format, the
/// embedded key ring and the running version, each of which may be
/// missing. Without a package format the updater is disabled (it points
/// to the releases page), and so it is with an unreadable key ring; an
/// unreadable version is a failure. Otherwise the check proceeds with the
/// three.
pub fn prepare_update_check(
    format: Option<PackageFormat>,
    ring: Result<KeyRing, String>,
    current: Result<Version, String>,
) -> (r: Result<(PackageFormat, KeyRing, Version), UpdateState>)
    ensures
        format is None ==> (r matches Err(UpdateState::Disabled(m)) && m@ == not_packaged()),
        format is Some && ring is Err ==> (r matches Err(UpdateState::Disabled(m)) && m@
            == "Trousseau de mise à jour invalide."@),
        format is Some && ring is Ok && current is Err ==> (r matches Err(UpdateState::Failed(m))
            && m@ == "Version applicative invalide."@),
        format matches Some(f) ==> (ring matches Ok(k) ==> (current matches Ok(v) ==> (r matches Ok(
            t,
        ) && t.0 == f && t.1@ == k@ && t.2@ == v@))),
{
    let format = match format {
        Some(f) => f,
        None => return Err(
            UpdateState::Disabled(
                String::from_str(
                    "Mise à jour intégrée réservée aux paquets installés; utilisez GitHub Releases.",
                ),
            ),
        ),
    };
    let ring = match ring {
        Ok(k) => k,
        Err(_) => return Err(
            UpdateState::Disabled(String::from_str("Trousseau de mise à jour invalide.")),
        ),
    };
    let current = match current {
        Ok(v) => v,
        Err(_) => return Err(
            UpdateState::Failed(String::from_str("Version applicative invalide.")),
        ),
    };
    Ok((format, ring, current))
}

/// The day of a check at `now_epoch_secs`, and the time recorded for it
/// (the start of that day).
pub fn check_day(now_epoch_secs: u64) -> (r: (u64, u64))
    ensures
        r.0 == now_epoch_secs / DAY_SECS,
        r.1 == r.0 * DAY_SECS,
{
    let days = now_epoch_secs / DAY_SECS;
    assert(days * DAY_SECS <= now_epoch_secs) by (nonlinear_arith)
        requires
            days == now_epoch_secs / DAY_SECS,
    ;
    (days, days * DAY_SECS)
}

/// The state to show after the updater's pending reports: the latest one,
/// if any; the updater keeps listening only while that state is
/// `Checking`.
pub fn settle_update_reports(reports: Vec<UpdateState>) -> (r: (Option<UpdateState>, bool))
    ensures
        reports.len() == 0 ==> r.0 is None && r.1,
        reports.len() > 0 ==> r.0 == Some(reports@.last()) && r.1 == (reports@.last() is Checking),
{
    let mut reports = reports;
    match reports.pop() {
        None => (None, true),
        Some(state) => {
            let listening = match &state {
                UpdateState::Checking => true,
                _ => false,
            };
            (Some(state), listening)
        },
    }
}

} // verus!
