//! The release manifest and the rules an update must pass: a supported
//! schema, an installed version recent enough to update itself, a strictly
//! newer release, an asset for this platform whose size, URL, recovery
//! payload and signatures are acceptable; then, once downloaded, the
//! payload's size, digest and signature.

use vstd::prelude::*;

use super::keys::{sha256_hex, sha256_lower_hex, verify_outcome, KeyRing};
use crate::text::{
    ascii_lower_range, ascii_lower_seq, chars_eq, chars_of, contains_str, decimal, find,
    push_decimal, starts_with, str_eq, str_starts_with,
};

verus! {

/// The manifest schema this client reads.
pub const SCHEMA_VERSION: u32 = 1;

/// The largest payload accepted, in bytes.
pub const MAX_PAYLOAD_BYTES: u64 = 512 * 1024 * 1024;

/// How an application build is packaged.
#[derive(Clone, Copy, Debug, PartialEq, Eq, Structural)]
pub enum PackageFormat {
    App,
    Nsis,
    Appimage,
    Deb,
}

// ---------------------------------------------------------------------------
// Versions
// ---------------------------------------------------------------------------

/// A semantic version's parts.
pub struct VersionView {
    pub major: u64,
    pub minor: u64,
    pub patch: u64,
    pub pre: Seq<char>,
    pub build: Seq<char>,
}

/// What `semver::Version::parse` makes of `text`: the version's parts, or
/// its error's text.
pub uninterp spec fn semver_parse(text: Seq<char>) -> Result<VersionView, Seq<char>>;

/// How `semver::Version`'s order (`Ord`) places `a` against `b`: `-1`, `0`
/// or `1`; `None` when semver's `Prerelease::new` or `BuildMetadata::new`
/// rejects one of the versions' identifiers.
pub uninterp spec fn semver_order(a: VersionView, b: VersionView) -> Option<int>;

/// semver accepts the version's identifiers.
pub open spec fn semver_valid(v: VersionView) -> bool {
    semver_order(v, v) is Some
}

/// `(major, minor, patch)` of `a` is below that of `b`.
pub open spec fn core_lt(a: VersionView, b: VersionView) -> bool {
    a.major < b.major || (a.major == b.major && (a.minor < b.minor || (a.minor == b.minor
        && a.patch < b.patch)))
}

/// `semver::Version::parse`, the version handed out as its parts.
#[verifier::external_body]
fn parse_version_parts(text: &str) -> (r: Result<(u64, u64, u64, String, String), String>)
    ensures
        match r {
            Ok(p) => {
                let v = VersionView { major: p.0, minor: p.1, patch: p.2, pre: p.3@, build: p.4@ };
                semver_parse(text@) == Ok::<VersionView, Seq<char>>(v) && semver_valid(v)
            },
            Err(e) => semver_parse(text@) == Err::<VersionView, Seq<char>>(e@),
        },
{
    match semver::Version::parse(text) {
        Ok(v) => Ok((v.major, v.minor, v.patch, v.pre.as_str().to_string(), v.build.as_str().to_string())),
        Err(error) => Err(error.to_string()),
    }
}

/// semver's order of two versions given by their parts (`Ord for
/// semver::Version`): it compares major, minor and patch numerically first,
/// and finds two versions equal exactly when all their parts are equal.
#[verifier::external_body]
fn compare_version_parts(a: &Version, b: &Version) -> (r: Option<i8>)
    ensures
        match r {
            Some(c) => semver_order(a@, b@) matches Some(x) && x == c,
            None => semver_order(a@, b@) is None,
        },
        semver_valid(a@) && semver_valid(b@) ==> r is Some,
        r matches Some(c) ==> (c == -1 || c == 0 || c == 1),
        r matches Some(c) ==> (c == 0 <==> a@ == b@),
        r matches Some(c) ==> (core_lt(a@, b@) ==> c == -1),
        r matches Some(c) ==> (core_lt(b@, a@) ==> c == 1),
{
    let x = semver::Version { major: a.major, minor: a.minor, patch: a.patch, pre: semver::Prerelease::new(&a.pre).ok()?, build: semver::BuildMetadata::new(&a.build).ok()? };
    let y = semver::Version { major: b.major, minor: b.minor, patch: b.patch, pre: semver::Prerelease::new(&b.pre).ok()?, build: semver::BuildMetadata::new(&b.build).ok()? };
    match x.cmp(&y) {
        std::cmp::Ordering::Less => Some(-1),
        std::cmp::Ordering::Equal => Some(0),
        std::cmp::Ordering::Greater => Some(1),
    }
}

/// A semantic version that semver accepts.
#[derive(Debug, PartialEq, Eq)]
pub struct Version {
    major: u64,
    minor: u64,
    patch: u64,
    pre: String,
    build: String,
}

impl Clone for Version {
    fn clone(&self) -> (r: Self)
        ensures
            r@ == self@,
    {
        proof {
            use_type_invariant(self);
        }
        Version {
            major: self.major,
            minor: self.minor,
            patch: self.patch,
            pre: crate::text::copy_string(&self.pre),
            build: crate::text::copy_string(&self.build),
        }
    }
}

impl View for Version {
    type V = VersionView;

    closed spec fn view(&self) -> VersionView {
        VersionView {
            major: self.major,
            minor: self.minor,
            patch: self.patch,
            pre: self.pre@,
            build: self.build@,
        }
    }
}

/// `semver`'s text of a version: `major.minor.patch`, then `-pre` and
/// `+build` when present.
pub open spec fn version_text(v: VersionView) -> Seq<char> {
    decimal(v.major as nat) + "."@ + decimal(v.minor as nat) + "."@ + decimal(v.patch as nat) + (
    if v.pre.len() > 0 {
        "-"@ + v.pre
    } else {
        Seq::empty()
    }) + (if v.build.len() > 0 {
        "+"@ + v.build
    } else {
        Seq::empty()
    })
}

/// The order of two versions that semver accepts.
pub open spec fn version_order(a: VersionView, b: VersionView) -> int {
    match semver_order(a, b) {
        Some(c) => c,
        None => 0,
    }
}

impl Version {
    #[verifier::type_invariant]
    spec fn accepted(&self) -> bool {
        semver_valid(self@)
    }

    /// Parses a semantic version (`semver::Version::parse`).
    pub fn parse(text: &str) -> (r: Result<Version, String>)
        ensures
            match r {
                Ok(v) => semver_parse(text@) == Ok::<VersionView, Seq<char>>(v@),
                Err(e) => semver_parse(text@) == Err::<VersionView, Seq<char>>(e@),
            },
    {
        match parse_version_parts(text) {
            Ok((major, minor, patch, pre, build)) => Ok(Version { major, minor, patch, pre, build }),
            Err(e) => Err(e),
        }
    }

    pub fn major(&self) -> (r: u64)
        ensures
            r == self@.major,
    {
        self.major
    }

    pub fn minor(&self) -> (r: u64)
        ensures
            r == self@.minor,
    {
        self.minor
    }

    pub fn patch(&self) -> (r: u64)
        ensures
            r == self@.patch,
    {
        self.patch
    }

    /// The version accepts semver's identifiers.
    pub fn is_accepted(&self) -> (r: bool)
        ensures
            r,
            semver_valid(self@),
    {
        proof {
            use_type_invariant(self);
        }
        true
    }

    /// semver's order of `self` against `other`: `-1`, `0` or `1`.
    pub fn compare(&self, other: &Version) -> (r: i8)
        ensures
            r == version_order(self@, other@),
            r == -1 || r == 0 || r == 1,
            (r == 0) == (self@ == other@),
            core_lt(self@, other@) ==> r == -1,
            core_lt(other@, self@) ==> r == 1,
    {
        proof {
            use_type_invariant(self);
            use_type_invariant(other);
        }
        match compare_version_parts(self, other) {
            Some(c) => c,
            None => 0,
        }
    }

    /// The version's text (semver's `Display`).
    pub fn to_text(&self) -> (r: String)
        ensures
            r@ == version_text(self@),
    {
        let mut r = String::new();
        push_decimal(&mut r, self.major);
        r.append(".");
        push_decimal(&mut r, self.minor);
        r.append(".");
        push_decimal(&mut r, self.patch);
        if !self.pre.as_str().is_empty() {
            r.append("-");
            r.append(self.pre.as_str());
        }
        if !self.build.as_str().is_empty() {
            r.append("+");
            r.append(self.build.as_str());
        }
        proof {
            let v = self@;
            assert(Seq::<char>::empty() + decimal(v.major as nat) == decimal(v.major as nat));
        }
        r
    }
}


// ---------------------------------------------------------------------------
// The manifest
// ---------------------------------------------------------------------------

/// One signature of a payload, valid from a release line for a while.
#[derive(Clone, Debug, PartialEq, Eq)]
pub struct PayloadSignature {
    pub key_id: String,
    pub signature: String,
    pub activated_minor: u64,
    pub valid_until_epoch_days: u64,
}

/// The installed version's own package, needed to roll back a failed
/// update.
#[derive(Clone, Debug, PartialEq, Eq)]
pub struct RecoveryAsset {
    pub version: Version,
    pub os: String,
    pub arch: String,
    pub format: PackageFormat,
    pub url: String,
    pub size: u64,
    pub sha256: String,
    pub signatures: Vec<PayloadSignature>,
}

/// One downloadable package of a release.
#[derive(Clone, Debug, PartialEq, Eq)]
pub struct ReleaseAsset {
    pub os: String,
    pub arch: String,
    pub format: PackageFormat,
    pub url: String,
    pub size: u64,
    pub sha256: String,
    pub signatures: Vec<PayloadSignature>,
    pub recovery: Option<RecoveryAsset>,
}

/// A release as the update endpoint describes it.
#[derive(Clone, Debug, PartialEq, Eq)]
pub struct ReleaseManifest {
    pub schema_version: u32,
    pub version: Version,
    pub notes: String,
    pub assets: Vec<ReleaseAsset>,
}

/// The installed application as the manifest is judged against it.
#[derive(Clone, Debug)]
pub struct ClientContext {
    /// The installed version.
    pub current: Version,
    pub os: String,
    pub arch: String,
    pub format: PackageFormat,
    /// Today, in days since the Unix epoch.
    pub now_epoch_days: u64,
    /// The first version able to update itself; older ones must be
    /// reinstalled by hand.
    pub first_updater: Version,
}

/// `a + b`, saturating at `u64::MAX`.
pub open spec fn sat_add_u64(a: u64, b: u64) -> int {
    if a + b > u64::MAX {
        u64::MAX as int
    } else {
        a + b
    }
}

/// A signature may vouch for a release of minor version `minor` today:
/// it has not expired, and at most two minor versions separate the release
/// from the one the key was activated with.
pub open spec fn signature_in_window(sig: PayloadSignature, minor: u64, now_epoch_days: u64) -> bool {
    now_epoch_days <= sig.valid_until_epoch_days && minor <= sat_add_u64(sig.activated_minor, 2)
}

pub open spec fn any_in_window(sigs: Seq<PayloadSignature>, minor: u64, now_epoch_days: u64) -> bool {
    exists|k: int| 0 <= k < sigs.len() && signature_in_window(#[trigger] sigs[k], minor, now_epoch_days)
}

fn in_window(sig: &PayloadSignature, minor: u64, now_epoch_days: u64) -> (r: bool)
    ensures
        r == signature_in_window(*sig, minor, now_epoch_days),
{
    now_epoch_days <= sig.valid_until_epoch_days && minor <= sig.activated_minor.saturating_add(2)
}

fn has_signature_in_window(sigs: &Vec<PayloadSignature>, minor: u64, now_epoch_days: u64) -> (r: bool)
    ensures
        r == any_in_window(sigs@, minor, now_epoch_days),
{
    let mut i: usize = 0;
    while i < sigs.len()
        invariant
            i <= sigs@.len(),
            forall|k: int| 0 <= k < i ==> !signature_in_window(#[trigger] sigs@[k], minor, now_epoch_days),
        decreases sigs@.len() - i,
    {
        if in_window(&sigs[i], minor, now_epoch_days) {
            return true;
        }
        i = i + 1;
    }
    false
}

// ---------------------------------------------------------------------------
// URLs
// ---------------------------------------------------------------------------

/// What the `url` crate's `Url::parse` makes of `text`: its scheme, host
/// and path, or its error's text.
pub uninterp spec fn url_parts(text: Seq<char>) -> Result<(Seq<char>, Option<Seq<char>>, Seq<char>), Seq<char>>;

/// `Url::parse` (as `cargo_packager_updater::url`), handing out `scheme()`,
/// `host_str()` and `path()`.
#[verifier::external_body]
fn parse_url(text: &str) -> (r: Result<(String, Option<String>, String), String>)
    ensures
        match r {
            Ok(p) => url_parts(text@) == Ok::<(Seq<char>, Option<Seq<char>>, Seq<char>), Seq<char>>(
                (p.0@, crate::text::opt_chars(p.1), p.2@),
            ),
            Err(e) => url_parts(text@) == Err::<(Seq<char>, Option<Seq<char>>, Seq<char>), Seq<char>>(
                e@,
            ),
        },
{
    match cargo_packager_updater::url::Url::parse(text) {
        Ok(url) => Ok((url.scheme().to_string(), url.host_str().map(|host| host.to_string()), url.path().to_string())),
        Err(error) => Err(error.to_string()),
    }
}

/// The path prefix of this project's GitHub release downloads.
pub open spec fn release_download_prefix() -> Seq<char> {
    "/RebelliousSmile/DevToolBox/releases/download/"@
}

/// An update URL must be an HTTPS GitHub release asset of this project.
pub open spec fn url_outcome(text: Seq<char>) -> Result<(), Seq<char>> {
    match url_parts(text) {
        Err(e) => Err("invalid update URL: "@ + e),
        Ok(parts) => if parts.0 == "https"@ && parts.1 == Some("github.com"@) && starts_with(
            parts.2,
            release_download_prefix(),
        ) {
            Ok(())
        } else {
            Err("update URL must be an immutable DevToolBox GitHub release asset"@)
        },
    }
}

/// Checks that `value` is an HTTPS URL of one of this project's GitHub
/// release downloads.
pub fn validate_release_url(value: &str) -> (r: Result<(), String>)
    ensures
        match (r, url_outcome(value@)) {
            (Ok(()), Ok(())) => true,
            (Err(m), Err(e)) => m@ == e,
            _ => false,
        },
{
    let (scheme, host, path) = match parse_url(value) {
        Ok(parts) => parts,
        Err(error) => {
            let mut message = String::from_str("invalid update URL: ");
            message.append(error.as_str());
            return Err(message);
        },
    };
    let host_ok = match &host {
        Some(h) => str_eq(h.as_str(), "github.com"),
        None => false,
    };
    if str_eq(scheme.as_str(), "https") && host_ok && str_starts_with(
        path.as_str(),
        "/RebelliousSmile/DevToolBox/releases/download/",
    ) {
        Ok(())
    } else {
        Err(String::from_str("update URL must be an immutable DevToolBox GitHub release asset"))
    }
}

// ---------------------------------------------------------------------------
// Selecting and validating an asset
// ---------------------------------------------------------------------------

/// The tag path a recovery payload of version `v` must sit under.
pub open spec fn version_tag(v: VersionView) -> Seq<char> {
    "/releases/download/v"@ + version_text(v) + "/"@
}

pub open spec fn size_ok(size: u64) -> bool {
    size != 0 && size <= MAX_PAYLOAD_BYTES
}

/// Whether the recovery payload fits the installed application: the same
/// version, platform and format, a sane size, a release URL under the
/// installed version's tag, and a signature in its rotation window.
pub open spec fn recovery_outcome(rec: RecoveryAsset, ctx: ClientContext) -> Result<(), Seq<char>> {
    if rec.version@ != ctx.current@ || rec.os@ != ctx.os@ || rec.arch@ != ctx.arch@ || rec.format
        != ctx.format {
        Err("recovery payload does not match the installed application"@)
    } else if !size_ok(rec.size) {
        Err("recovery payload size is outside the accepted range"@)
    } else if url_outcome(rec.url@) is Err {
        url_outcome(rec.url@)
    } else if find(rec.url@, version_tag(rec.version@)) is None {
        Err("recovery payload URL must reference the installed version tag"@)
    } else if !any_in_window(rec.signatures@, rec.version@.minor, ctx.now_epoch_days) {
        Err("recovery payload has no signature inside the rotation window"@)
    } else {
        Ok(())
    }
}

pub open spec fn needs_recovery(format: PackageFormat) -> bool {
    format == PackageFormat::App || format == PackageFormat::Nsis
}

/// Whether an asset of release `release` is acceptable: a sane size, a
/// release URL, an acceptable recovery payload for the formats that roll
/// back (app bundle, NSIS installer), and a signature in its rotation
/// window.
pub open spec fn asset_outcome(asset: ReleaseAsset, release: VersionView, ctx: ClientContext) -> Result<(), Seq<char>> {
    if !size_ok(asset.size) {
        Err("update payload size is outside the accepted range"@)
    } else if url_outcome(asset.url@) is Err {
        url_outcome(asset.url@)
    } else if needs_recovery(asset.format) && asset.recovery is None {
        Err("signed recovery payload is required"@)
    } else if needs_recovery(asset.format) && recovery_outcome(asset.recovery->Some_0, ctx) is Err {
        recovery_outcome(asset.recovery->Some_0, ctx)
    } else if !any_in_window(asset.signatures@, release.minor, ctx.now_epoch_days) {
        Err("no signature inside the rotation window"@)
    } else {
        Ok(())
    }
}

/// The asset is built for the client's platform and format.
pub open spec fn asset_matches(asset: ReleaseAsset, ctx: ClientContext) -> bool {
    asset.os@ == ctx.os@ && asset.arch@ == ctx.arch@ && asset.format == ctx.format
}

/// The first asset from `i` on that matches the client.
pub open spec fn first_match_from(assets: Seq<ReleaseAsset>, ctx: ClientContext, i: int) -> Option<int>
    decreases assets.len() - i,
{
    if i < 0 || i >= assets.len() {
        None
    } else if asset_matches(assets[i], ctx) {
        Some(i)
    } else {
        first_match_from(assets, ctx, i + 1)
    }
}

/// Which asset of `manifest` the client installs (by index), or why none.
pub open spec fn select_outcome(manifest: ReleaseManifest, ctx: ClientContext) -> Result<int, Seq<char>> {
    if manifest.schema_version != SCHEMA_VERSION {
        Err("unsupported update manifest schema"@)
    } else if version_order(ctx.current@, ctx.first_updater@) < 0 {
        Err("manual installation required before integrated updates"@)
    } else if version_order(manifest.version@, ctx.current@) <= 0 {
        Err("release is not newer than the installed version"@)
    } else {
        match first_match_from(manifest.assets@, ctx, 0) {
            None => Err("no update asset for this platform"@),
            Some(i) => match asset_outcome(manifest.assets@[i], manifest.version@, ctx) {
                Err(e) => Err(e),
                Ok(()) => Ok(i),
            },
        }
    }
}

fn same_version(a: &Version, b: &Version) -> (r: bool)
    ensures
        r == (a@ == b@),
{
    a.compare(b) == 0
}

fn validate_recovery(recovery: &RecoveryAsset, context: &ClientContext) -> (r: Result<(), String>)
    ensures
        match (r, recovery_outcome(*recovery, *context)) {
            (Ok(()), Ok(())) => true,
            (Err(m), Err(e)) => m@ == e,
            _ => false,
        },
{
    if !same_version(&recovery.version, &context.current) || !str_eq(recovery.os.as_str(), context.os.as_str())
        || !str_eq(recovery.arch.as_str(), context.arch.as_str()) || recovery.format != context.format {
        return Err(String::from_str("recovery payload does not match the installed application"));
    }
    if recovery.size == 0 || recovery.size > MAX_PAYLOAD_BYTES {
        return Err(String::from_str("recovery payload size is outside the accepted range"));
    }
    match validate_release_url(recovery.url.as_str()) {
        Ok(()) => {},
        Err(e) => return Err(e),
    }
    let mut tag = String::from_str("/releases/download/v");
    let text = recovery.version.to_text();
    tag.append(text.as_str());
    tag.append("/");
    if !contains_str(recovery.url.as_str(), tag.as_str()) {
        return Err(String::from_str("recovery payload URL must reference the installed version tag"));
    }
    if !has_signature_in_window(&recovery.signatures, recovery.version.minor(), context.now_epoch_days) {
        return Err(String::from_str("recovery payload has no signature inside the rotation window"));
    }
    Ok(())
}

fn validate_asset(asset: &ReleaseAsset, release: &Version, context: &ClientContext) -> (r: Result<(), String>)
    ensures
        match (r, asset_outcome(*asset, release@, *context)) {
            (Ok(()), Ok(())) => true,
            (Err(m), Err(e)) => m@ == e,
            _ => false,
        },
{
    if asset.size == 0 || asset.size > MAX_PAYLOAD_BYTES {
        return Err(String::from_str("update payload size is outside the accepted range"));
    }
    match validate_release_url(asset.url.as_str()) {
        Ok(()) => {},
        Err(e) => return Err(e),
    }
    if asset.format == PackageFormat::App || asset.format == PackageFormat::Nsis {
        match &asset.recovery {
            None => return Err(String::from_str("signed recovery payload is required")),
            Some(recovery) => match validate_recovery(recovery, context) {
                Ok(()) => {},
                Err(e) => return Err(e),
            },
        }
    }
    if !has_signature_in_window(&asset.signatures, release.minor(), context.now_epoch_days) {
        return Err(String::from_str("no signature inside the rotation window"));
    }
    Ok(())
}

/// The asset of `manifest` to install on the client: the schema must be
/// supported, the installed version at least the first self-updating one,
/// the release strictly newer (semver order), and the first asset built for
/// the client's platform and format must pass [`asset_outcome`].
pub fn select_asset<'a>(manifest: &'a ReleaseManifest, context: &ClientContext) -> (r: Result<&'a ReleaseAsset, String>)
    ensures
        match (r, select_outcome(*manifest, *context)) {
            (Ok(asset), Ok(i)) => 0 <= i < manifest.assets@.len() && *asset == manifest.assets@[i],
            (Err(m), Err(e)) => m@ == e,
            _ => false,
        },
{
    if manifest.schema_version != SCHEMA_VERSION {
        return Err(String::from_str("unsupported update manifest schema"));
    }
    if context.current.compare(&context.first_updater) < 0 {
        return Err(String::from_str("manual installation required before integrated updates"));
    }
    if manifest.version.compare(&context.current) <= 0 {
        return Err(String::from_str("release is not newer than the installed version"));
    }
    let mut i: usize = 0;
    while i < manifest.assets.len()
        invariant
            i <= manifest.assets@.len(),
            manifest.schema_version == SCHEMA_VERSION,
            version_order(context.current@, context.first_updater@) >= 0,
            version_order(manifest.version@, context.current@) > 0,
            first_match_from(manifest.assets@, *context, 0) == first_match_from(manifest.assets@, *context, i as int),
        decreases manifest.assets@.len() - i,
    {
        let asset = &manifest.assets[i];
        if str_eq(asset.os.as_str(), context.os.as_str()) && str_eq(asset.arch.as_str(), context.arch.as_str())
            && asset.format == context.format {
            return match validate_asset(asset, &manifest.version, context) {
                Ok(()) => Ok(asset),
                Err(e) => Err(e),
            };
        }
        i = i + 1;
    }
    Err(String::from_str("no update asset for this platform"))
}

// ---------------------------------------------------------------------------
// Verifying a downloaded payload
// ---------------------------------------------------------------------------

/// The first signature from `k` on, inside its rotation window, that the
/// keyring accepts for `payload`.
pub open spec fn first_accepting(
    sigs: Seq<PayloadSignature>,
    ring: Map<Seq<char>, Seq<u8>>,
    payload: Seq<u8>,
    minor: u64,
    now_epoch_days: u64,
    k: int,
) -> Option<int>
    decreases sigs.len() - k,
{
    if k < 0 || k >= sigs.len() {
        None
    } else if signature_in_window(sigs[k], minor, now_epoch_days) && verify_outcome(
        ring,
        sigs[k].key_id@,
        payload,
        sigs[k].signature@,
    ) is Ok {
        Some(k)
    } else {
        first_accepting(sigs, ring, payload, minor, now_epoch_days, k + 1)
    }
}

/// What checking a downloaded payload gives: its size must be the
/// announced one, its SHA-256 the announced digest (compared in lowercase),
/// and one signature in its window must check under the keyring; the key id
/// of the first such signature is the answer. `what` names the payload in
/// the messages (`payload` or `recovery payload`).
pub open spec fn payload_outcome(
    what: Seq<char>,
    size: u64,
    sha256: Seq<char>,
    sigs: Seq<PayloadSignature>,
    payload: Seq<u8>,
    ring: Map<Seq<char>, Seq<u8>>,
    minor: u64,
    now_epoch_days: u64,
) -> Result<Seq<char>, Seq<char>> {
    if payload.len() != size {
        Err("downloaded "@ + what + " size mismatch"@)
    } else if sha256_lower_hex(payload) != ascii_lower_seq(sha256) {
        Err("downloaded "@ + what + " hash mismatch"@)
    } else {
        match first_accepting(sigs, ring, payload, minor, now_epoch_days, 0) {
            Some(k) => Ok(sigs[k].key_id@),
            None => Err("no known valid signature accepted the "@ + what),
        }
    }
}

fn check_payload(
    what: &str,
    size: u64,
    sha256: &String,
    signatures: &Vec<PayloadSignature>,
    payload: &[u8],
    ring: &KeyRing,
    minor: u64,
    now_epoch_days: u64,
) -> (r: Result<String, String>)
    ensures
        match (r, payload_outcome(what@, size, sha256@, signatures@, payload@, ring@, minor, now_epoch_days)) {
            (Ok(k), Ok(e)) => k@ == e,
            (Err(m), Err(e)) => m@ == e,
            _ => false,
        },
{
    if payload.len() as u64 != size {
        let mut message = String::from_str("downloaded ");
        message.append(what);
        message.append(" size mismatch");
        return Err(message);
    }
    let digest = sha256_hex(payload);
    let expected_chars = chars_of(sha256.as_str());
    let expected = ascii_lower_range(&expected_chars, 0, expected_chars.len());
    let digest_chars = chars_of(digest.as_str());
    assert(expected_chars@.subrange(0, expected_chars@.len() as int) =~= sha256@);
    if !chars_eq(&digest_chars, &expected) {
        let mut message = String::from_str("downloaded ");
        message.append(what);
        message.append(" hash mismatch");
        return Err(message);
    }
    let mut i: usize = 0;
    while i < signatures.len()
        invariant
            i <= signatures@.len(),
            payload@.len() == size,
            sha256_lower_hex(payload@) == ascii_lower_seq(sha256@),
            first_accepting(signatures@, ring@, payload@, minor, now_epoch_days, 0) == first_accepting(
                signatures@,
                ring@,
                payload@,
                minor,
                now_epoch_days,
                i as int,
            ),
        decreases signatures@.len() - i,
    {
        let signature = &signatures[i];
        if in_window(signature, minor, now_epoch_days) {
            if ring.verify(signature.key_id.as_str(), payload, signature.signature.as_str()).is_ok() {
                return Ok(crate::text::copy_string(&signature.key_id));
            }
        }
        i = i + 1;
    }
    let mut message = String::from_str("no known valid signature accepted the ");
    message.append(what);
    Err(message)
}

/// Checks a downloaded update payload against its asset: size, SHA-256,
/// then the asset's signatures in their window for the release's minor
/// version; the answer is the key id that vouched for it.
pub fn verify_payload(
    asset: &ReleaseAsset,
    payload: &[u8],
    ring: &KeyRing,
    release_minor: u64,
    now_epoch_days: u64,
) -> (r: Result<String, String>)
    ensures
        match (r, payload_outcome("payload"@, asset.size, asset.sha256@, asset.signatures@, payload@, ring@, release_minor, now_epoch_days)) {
            (Ok(k), Ok(e)) => k@ == e,
            (Err(m), Err(e)) => m@ == e,
            _ => false,
        },
{
    check_payload("payload", asset.size, &asset.sha256, &asset.signatures, payload, ring, release_minor, now_epoch_days)
}

/// Checks a downloaded recovery payload against its asset, the signature
/// window taken from the recovery version's minor number.
pub fn verify_recovery_payload(
    asset: &RecoveryAsset,
    payload: &[u8],
    ring: &KeyRing,
    now_epoch_days: u64,
) -> (r: Result<String, String>)
    ensures
        match (r, payload_outcome("recovery payload"@, asset.size, asset.sha256@, asset.signatures@, payload@, ring@, asset.version@.minor, now_epoch_days)) {
            (Ok(k), Ok(e)) => k@ == e,
            (Err(m), Err(e)) => m@ == e,
            _ => false,
        },
{
    check_payload("recovery payload", asset.size, &asset.sha256, &asset.signatures, payload, ring, asset.version.minor(), now_epoch_days)
}


// ---------------------------------------------------------------------------
// Laws
// ---------------------------------------------------------------------------

proof fn lemma_first_match(assets: Seq<ReleaseAsset>, ctx: ClientContext, i: int)
    requires
        0 <= i,
    ensures
        first_match_from(assets, ctx, i) matches Some(j) ==> i <= j < assets.len() && asset_matches(
            assets[j],
            ctx,
        ),
    decreases assets.len() - i,
{
    if i < assets.len() && !asset_matches(assets[i], ctx) {
        lemma_first_match(assets, ctx, i + 1);
    }
}

/// An accepted release is strictly newer than the installed version, which
/// is itself recent enough to update itself; the chosen asset is built for
/// the client's platform and format, has a sane size and a project release
/// URL, carries an acceptable recovery payload when its format rolls back,
/// and has a signature inside its rotation window.
pub proof fn law_accepted_release(manifest: ReleaseManifest, ctx: ClientContext)
    ensures
        select_outcome(manifest, ctx) matches Ok(i) ==> {
            let asset = manifest.assets@[i];
            &&& 0 <= i < manifest.assets@.len()
            &&& manifest.schema_version == SCHEMA_VERSION
            &&& version_order(ctx.current@, ctx.first_updater@) >= 0
            &&& version_order(manifest.version@, ctx.current@) > 0
            &&& asset_matches(asset, ctx)
            &&& size_ok(asset.size)
            &&& url_outcome(asset.url@) is Ok
            &&& (needs_recovery(asset.format) ==> (asset.recovery matches Some(r) && recovery_outcome(
                r,
                ctx,
            ) is Ok))
            &&& any_in_window(asset.signatures@, manifest.version@.minor, ctx.now_epoch_days)
        },
{
    lemma_first_match(manifest.assets@, ctx, 0);
}

proof fn lemma_first_accepting(
    sigs: Seq<PayloadSignature>,
    ring: Map<Seq<char>, Seq<u8>>,
    payload: Seq<u8>,
    minor: u64,
    now_epoch_days: u64,
    k: int,
)
    requires
        0 <= k,
    ensures
        first_accepting(sigs, ring, payload, minor, now_epoch_days, k) matches Some(j) ==> k <= j
            < sigs.len() && signature_in_window(sigs[j], minor, now_epoch_days) && verify_outcome(
            ring,
            sigs[j].key_id@,
            payload,
            sigs[j].signature@,
        ) is Ok,
    decreases sigs.len() - k,
{
    if k < sigs.len() && !(signature_in_window(sigs[k], minor, now_epoch_days) && verify_outcome(
        ring,
        sigs[k].key_id@,
        payload,
        sigs[k].signature@,
    ) is Ok) {
        lemma_first_accepting(sigs, ring, payload, minor, now_epoch_days, k + 1);
    }
}

/// A payload is accepted only when its size is the announced one, its
/// SHA-256 the announced digest, and one of the listed signatures, inside
/// its rotation window, checks under the key it names, the key answered.
pub proof fn law_accepted_payload_is_signed(
    what: Seq<char>,
    size: u64,
    sha256: Seq<char>,
    sigs: Seq<PayloadSignature>,
    payload: Seq<u8>,
    ring: Map<Seq<char>, Seq<u8>>,
    minor: u64,
    now_epoch_days: u64,
)
    ensures
        payload_outcome(what, size, sha256, sigs, payload, ring, minor, now_epoch_days) matches Ok(
            key,
        ) ==> {
            &&& payload.len() == size
            &&& sha256_lower_hex(payload) == ascii_lower_seq(sha256)
            &&& exists|j: int|
                0 <= j < sigs.len() && (#[trigger] sigs[j]).key_id@ == key && signature_in_window(
                    sigs[j],
                    minor,
                    now_epoch_days,
                ) && verify_outcome(ring, key, payload, sigs[j].signature@) is Ok
        },
{
    lemma_first_accepting(sigs, ring, payload, minor, now_epoch_days, 0);
}

/// The asset of `manifest` at `j` is built for the client: same operating
/// system, same architecture, same package format.
pub open spec fn built_for(manifest: ReleaseManifest, ctx: ClientContext, j: int) -> bool {
    let a = manifest.assets@[j];
    a.os@ == ctx.os@ && a.arch@ == ctx.arch@ && a.format == ctx.format
}

proof fn lemma_first_match_is(assets: Seq<ReleaseAsset>, ctx: ClientContext, i: int, j: int)
    requires
        0 <= i <= j < assets.len(),
        assets[j].os@ == ctx.os@ && assets[j].arch@ == ctx.arch@ && assets[j].format == ctx.format,
        forall|k: int|
            i <= k < j ==> !(#[trigger] assets[k].os@ == ctx.os@ && assets[k].arch@ == ctx.arch@
                && assets[k].format == ctx.format),
    ensures
        first_match_from(assets, ctx, i) == Some(j),
    decreases j - i,
{
    if i < j {
        assert(!(assets[i].os@ == ctx.os@ && assets[i].arch@ == ctx.arch@ && assets[i].format == ctx.format));
        lemma_first_match_is(assets, ctx, i + 1, j);
    }
}

/// The client installs only an asset built for it: an accepted asset has
/// the client's operating system, architecture and package format. And
/// when the update is due (supported schema, updatable installed version,
/// newer release), the first asset built for the client is the one
/// installed as soon as it passes its checks.
pub proof fn law_selected_asset_fits_the_client(manifest: ReleaseManifest, ctx: ClientContext, j: int)
    ensures
        select_outcome(manifest, ctx) matches Ok(i) ==> 0 <= i < manifest.assets@.len()
            && manifest.assets@[i].os@ == ctx.os@ && manifest.assets@[i].arch@ == ctx.arch@
            && manifest.assets@[i].format == ctx.format,
        ({
            &&& manifest.schema_version == SCHEMA_VERSION
            &&& version_order(ctx.current@, ctx.first_updater@) >= 0
            &&& version_order(manifest.version@, ctx.current@) > 0
            &&& 0 <= j < manifest.assets@.len()
            &&& built_for(manifest, ctx, j)
            &&& forall|k: int| 0 <= k < j ==> !#[trigger] built_for(manifest, ctx, k)
            &&& asset_outcome(manifest.assets@[j], manifest.version@, ctx) is Ok
        }) ==> select_outcome(manifest, ctx) == Ok::<int, Seq<char>>(j),
        (forall|k: int| 0 <= k < manifest.assets@.len() ==> !#[trigger] built_for(manifest, ctx, k))
            ==> select_outcome(manifest, ctx) is Err,
        ({
            &&& 0 <= j < manifest.assets@.len()
            &&& built_for(manifest, ctx, j)
            &&& forall|k: int| 0 <= k < j ==> !#[trigger] built_for(manifest, ctx, k)
            &&& asset_outcome(manifest.assets@[j], manifest.version@, ctx) is Err
        }) ==> select_outcome(manifest, ctx) is Err,
{
    lemma_first_match(manifest.assets@, ctx, 0);
    if manifest.schema_version == SCHEMA_VERSION && version_order(ctx.current@, ctx.first_updater@) >= 0
        && version_order(manifest.version@, ctx.current@) > 0 && 0 <= j < manifest.assets@.len()
        && built_for(manifest, ctx, j) && (forall|k: int| 0 <= k < j ==> !#[trigger] built_for(manifest, ctx, k))
        && asset_outcome(manifest.assets@[j], manifest.version@, ctx) is Ok {
        let assets = manifest.assets@;
        assert forall|k: int|
            0 <= k < j implies !(#[trigger] assets[k].os@ == ctx.os@ && assets[k].arch@ == ctx.arch@
                && assets[k].format == ctx.format) by {
            assert(!built_for(manifest, ctx, k));
        }
        lemma_first_match_is(assets, ctx, 0, j);
    }
    if 0 <= j < manifest.assets@.len() && built_for(manifest, ctx, j) && (forall|k: int|
        0 <= k < j ==> !#[trigger] built_for(manifest, ctx, k)) {
        let assets = manifest.assets@;
        assert forall|k: int|
            0 <= k < j implies !(#[trigger] assets[k].os@ == ctx.os@ && assets[k].arch@ == ctx.arch@
                && assets[k].format == ctx.format) by {
            assert(!built_for(manifest, ctx, k));
        }
        lemma_first_match_is(assets, ctx, 0, j);
    }
    if forall|k: int| 0 <= k < manifest.assets@.len() ==> !#[trigger] built_for(manifest, ctx, k) {
        if first_match_from(manifest.assets@, ctx, 0) is Some {
            let i = first_match_from(manifest.assets@, ctx, 0)->Some_0;
            assert(built_for(manifest, ctx, i));
        }
    }
}

} // verus!
