//! Native-material policy: which window material (macOS vibrancy, Windows
//! Mica, or opaque) the launcher asks for, from the platform, the user's
//! preference, the accessibility setting and what the system and renderer
//! support.

use vstd::prelude::*;

verus! {

/// The window material in use.
#[derive(Clone, Copy, Debug, PartialEq, Eq, Structural)]
pub enum NativeProfile {
    MacVibrancy,
    WindowsMica,
    Opaque,
}

/// The operating system the launcher runs on.
#[derive(Clone, Copy, Debug, PartialEq, Eq, Structural)]
pub enum HostPlatform {
    MacOS,
    Windows,
    Linux,
    Other,
}

/// The graphics backend the renderer runs on.
#[derive(Clone, Copy, Debug, PartialEq, Eq, Structural)]
pub enum RendererBackend {
    Dx12,
    Metal,
    Other,
    Unavailable,
}

/// Everything the material decision depends on.
#[derive(Clone, Copy, Debug)]
pub struct MaterialInputs {
    pub platform: HostPlatform,
    /// The user's preference for native effects.
    pub native_effects: bool,
    /// The accessibility request to reduce transparency.
    pub reduce_transparency: bool,
    /// The system offers the material.
    pub system_support: bool,
    /// The renderer can show it.
    pub renderer_support: bool,
}

/// Some input rules the material out.
pub open spec fn material_disabled(inputs: MaterialInputs) -> bool {
    !inputs.native_effects || inputs.reduce_transparency || !inputs.system_support
        || !inputs.renderer_support
}

pub open spec fn decide_spec(inputs: MaterialInputs) -> NativeProfile {
    if material_disabled(inputs) {
        NativeProfile::Opaque
    } else {
        match inputs.platform {
            HostPlatform::MacOS => NativeProfile::MacVibrancy,
            HostPlatform::Windows => NativeProfile::WindowsMica,
            _ => NativeProfile::Opaque,
        }
    }
}

/// The material to use: opaque when the user turned effects off, asked for
/// reduced transparency, or the system or renderer lacks support; otherwise
/// vibrancy on macOS, Mica on Windows and opaque elsewhere.
pub fn decide(inputs: MaterialInputs) -> (r: NativeProfile)
    ensures
        r == decide_spec(inputs),
{
    if !inputs.native_effects || inputs.reduce_transparency || !inputs.system_support
        || !inputs.renderer_support {
        return NativeProfile::Opaque;
    }
    match inputs.platform {
        HostPlatform::MacOS => NativeProfile::MacVibrancy,
        HostPlatform::Windows => NativeProfile::WindowsMica,
        HostPlatform::Linux | HostPlatform::Other => NativeProfile::Opaque,
    }
}

/// Any disabling input gives the opaque profile, whatever the platform.
pub proof fn law_disabling_input_forces_opaque(inputs: MaterialInputs)
    requires
        material_disabled(inputs),
    ensures
        decide_spec(inputs) == NativeProfile::Opaque,
{
}

/// A material other than opaque is only chosen on its own platform, and
/// only when nothing disables it.
pub proof fn law_material_matches_platform(inputs: MaterialInputs)
    ensures
        decide_spec(inputs) == NativeProfile::MacVibrancy <==> (!material_disabled(inputs)
            && inputs.platform == HostPlatform::MacOS),
        decide_spec(inputs) == NativeProfile::WindowsMica <==> (!material_disabled(inputs)
            && inputs.platform == HostPlatform::Windows),
{
}

pub open spec fn renderer_supports_spec(platform: HostPlatform, backend: RendererBackend) -> bool {
    (platform == HostPlatform::Windows && backend == RendererBackend::Dx12) || (platform
        == HostPlatform::MacOS && backend == RendererBackend::Metal)
}

/// The renderer can show the native material only as the platform's own
/// pair: DX12 on Windows, Metal on macOS.
pub fn renderer_supports_material(platform: HostPlatform, backend: RendererBackend) -> (r: bool)
    ensures
        r == renderer_supports_spec(platform, backend),
{
    match (platform, backend) {
        (HostPlatform::Windows, RendererBackend::Dx12) => true,
        (HostPlatform::MacOS, RendererBackend::Metal) => true,
        _ => false,
    }
}

/// The profile after applying `desired` gave `result`: unchanged on
/// success; on error, opaque with the error as the one diagnostic.
pub fn fallback_after_error(desired: NativeProfile, result: Result<(), &str>) -> (r: (
    NativeProfile,
    Option<String>,
))
    ensures
        match result {
            Ok(()) => r.0 == desired && r.1 is None,
            Err(e) => r.0 == NativeProfile::Opaque && (r.1 matches Some(d) && d@ == e@),
        },
{
    match result {
        Ok(()) => (desired, None),
        Err(error) => (NativeProfile::Opaque, Some(String::from_str(error))),
    }
}

/// Applying a material where no native material exists (neither macOS nor
/// Windows): nothing to do, the desired profile stands.
pub fn apply<T>(window: &T, previous: NativeProfile, desired: NativeProfile, dark: bool) -> (r:
    Result<NativeProfile, String>)
    ensures
        r matches Ok(p) && p == desired,
{
    Ok(desired)
}

/// Whether the value of the reduce-transparency setting asks for it:
/// `1`, `true` or `TRUE`.
pub fn transparency_reduction_requested(value: &str) -> (r: bool)
    ensures
        r == (value@ == "1"@ || value@ == "true"@ || value@ == "TRUE"@),
{
    crate::text::str_eq(value, "1") || crate::text::str_eq(value, "true") || crate::text::str_eq(
        value,
        "TRUE",
    )
}

} // verus!
