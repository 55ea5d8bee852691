use devtoolbox::registry::{
    hresult_from_win32, is_not_found, quoted_executable, startup_enabled, to_wide, RegistryError,
    APP_VALUE_NAME, ERROR_FILE_NOT_FOUND, HRESULT_FILE_NOT_FOUND, RUN_KEY_PATH,
};

/// Throwaway subkey of the registry tests: never the real Run key.
const TEST_SUBKEY: &str = "Software\\WinFXStart\\Test";

#[test]
fn app_value_name_constant() {
    assert_eq!(APP_VALUE_NAME, "WinFXStart");
}

#[test]
fn no_test_references_run_key() {
    assert!(
        !TEST_SUBKEY.contains("Run"),
        "TEST_SUBKEY must not reference the real Run key"
    );
    assert!(RUN_KEY_PATH.ends_with("\\Run"));
}

#[test]
fn to_wide_null_terminated() {
    let w = to_wide("X");
    assert_eq!(w, vec![88u16, 0u16]);
}

#[test]
fn to_wide_empty_string() {
    let w = to_wide("");
    assert_eq!(w, vec![0u16]);
}

#[test]
fn to_wide_matches_utf16_with_surrogates() {
    let text = "é😀a";
    let mut expected: Vec<u16> = text.encode_utf16().collect();
    expected.push(0);
    assert_eq!(to_wide(text), expected);
}

#[test]
fn executable_value_is_double_quoted() {
    let val = quoted_executable(r"C:\Program Files\DevToolBox\devtoolbox.exe");
    assert!(val.starts_with('"'), "expected leading quote, got: {}", val);
    assert!(val.ends_with('"'), "expected trailing quote, got: {}", val);
}

#[test]
fn file_not_found_is_the_win32_hresult() {
    assert_eq!(hresult_from_win32(ERROR_FILE_NOT_FOUND), HRESULT_FILE_NOT_FOUND);
    assert_eq!(HRESULT_FILE_NOT_FOUND as u32, 0x8007_0002);
    assert!(is_not_found(HRESULT_FILE_NOT_FOUND));
    assert!(!is_not_found(hresult_from_win32(5)));
}

#[test]
fn registry_errors_print_the_hresult_in_hex() {
    assert_eq!(
        RegistryError::Win32 {
            code: HRESULT_FILE_NOT_FOUND
        }
        .to_string(),
        "Win32 registry error: HRESULT 0x80070002"
    );
    assert_eq!(
        RegistryError::Win32 { code: 0x1A }.to_string(),
        "Win32 registry error: HRESULT 0x0000001A"
    );
    assert_eq!(
        RegistryError::ExePath.to_string(),
        "could not determine current executable path"
    );
}

#[test]
fn only_an_existing_value_means_startup_is_enabled() {
    assert!(startup_enabled(Ok(Some("\"x\"".to_string()))));
    assert!(!startup_enabled(Ok(None)));
    assert!(!startup_enabled(Err(RegistryError::ExePath)));
}

#[test]
fn a_failed_call_keeps_its_hresult() {
    let error = RegistryError::from_hresult(-2147024894);
    assert!(matches!(error, RegistryError::Win32 { code: -2147024894 }));
    assert_eq!(error.to_string(), "Win32 registry error: HRESULT 0x80070002");
}
