use devtoolbox::native_window::{
    apply, decide, fallback_after_error, renderer_supports_material,
    transparency_reduction_requested, HostPlatform, MaterialInputs, NativeProfile,
    RendererBackend,
};

fn inputs(platform: HostPlatform) -> MaterialInputs {
    MaterialInputs {
        platform,
        native_effects: true,
        reduce_transparency: false,
        system_support: true,
        renderer_support: true,
    }
}

#[test]
fn every_combination_selects_exactly_one_profile() {
    assert_eq!(
        decide(inputs(HostPlatform::MacOS)),
        NativeProfile::MacVibrancy
    );
    assert_eq!(
        decide(inputs(HostPlatform::Windows)),
        NativeProfile::WindowsMica
    );
    assert_eq!(decide(inputs(HostPlatform::Linux)), NativeProfile::Opaque);
    assert_eq!(decide(inputs(HostPlatform::Other)), NativeProfile::Opaque);
}

#[test]
fn preference_accessibility_and_missing_support_force_opaque() {
    let mut value = inputs(HostPlatform::MacOS);
    value.native_effects = false;
    assert_eq!(decide(value), NativeProfile::Opaque);
    value.native_effects = true;
    value.reduce_transparency = true;
    assert_eq!(decide(value), NativeProfile::Opaque);
    value.reduce_transparency = false;
    value.system_support = false;
    assert_eq!(decide(value), NativeProfile::Opaque);
    value.system_support = true;
    value.renderer_support = false;
    assert_eq!(decide(value), NativeProfile::Opaque);
}

#[test]
fn accessibility_changes_are_recomputed_without_sticky_state() {
    let mut value = inputs(HostPlatform::Windows);
    assert_eq!(decide(value), NativeProfile::WindowsMica);
    value.reduce_transparency = true;
    assert_eq!(decide(value), NativeProfile::Opaque);
}

#[test]
fn native_api_errors_produce_an_opaque_profile_and_one_diagnostic() {
    let (profile, diagnostic) =
        fallback_after_error(NativeProfile::MacVibrancy, Err("permission refused"));
    assert_eq!(profile, NativeProfile::Opaque);
    assert_eq!(diagnostic.as_deref(), Some("permission refused"));
}

#[test]
fn native_material_requires_the_platform_renderer_pair() {
    assert!(renderer_supports_material(
        HostPlatform::Windows,
        RendererBackend::Dx12
    ));
    assert!(!renderer_supports_material(
        HostPlatform::Windows,
        RendererBackend::Other
    ));
    assert!(renderer_supports_material(
        HostPlatform::MacOS,
        RendererBackend::Metal
    ));
    assert!(!renderer_supports_material(
        HostPlatform::Linux,
        RendererBackend::Dx12
    ));
}

#[test]
fn a_successful_application_keeps_the_desired_profile() {
    assert_eq!(
        fallback_after_error(NativeProfile::WindowsMica, Ok(())),
        (NativeProfile::WindowsMica, None)
    );
    assert_eq!(
        apply(&(), NativeProfile::Opaque, NativeProfile::MacVibrancy, true),
        Ok(NativeProfile::MacVibrancy)
    );
}

#[test]
fn only_explicit_values_reduce_transparency() {
    assert!(transparency_reduction_requested("1"));
    assert!(transparency_reduction_requested("true"));
    assert!(transparency_reduction_requested("TRUE"));
    assert!(!transparency_reduction_requested("True"));
    assert!(!transparency_reduction_requested("0"));
    assert!(!transparency_reduction_requested(""));
}

#[test]
fn any_disabling_input_wins_on_every_platform() {
    for platform in [
        HostPlatform::MacOS,
        HostPlatform::Windows,
        HostPlatform::Linux,
        HostPlatform::Other,
    ] {
        let mut value = inputs(platform);
        value.renderer_support = false;
        assert_eq!(decide(value), NativeProfile::Opaque);
    }
}
