use devtoolbox::egui_app::{is_user_script, should_descend_into_script_entry};

#[test]
fn hidden_cache_and_dependency_directories_are_not_scanned() {
    assert!(should_descend_into_script_entry(true, 0, ".hidden-root"));
    assert!(!should_descend_into_script_entry(true, 1, ".venv"));
    assert!(!should_descend_into_script_entry(true, 2, "__pycache__"));
    assert!(!should_descend_into_script_entry(true, 1, "node_modules"));
    assert!(should_descend_into_script_entry(true, 1, "tools"));
    assert!(should_descend_into_script_entry(false, 3, ".hidden.py"));
}

#[test]
fn python_files_except_package_markers_are_scripts() {
    assert!(is_user_script(true, Some("py"), Some("backup.py")));
    assert!(is_user_script(true, Some("PY"), Some("BACKUP.PY")));
    assert!(!is_user_script(true, Some("py"), Some("__init__.py")));
    assert!(!is_user_script(true, Some("py"), Some("__INIT__.PY")));
    assert!(!is_user_script(true, Some("txt"), Some("notes.txt")));
    assert!(!is_user_script(false, Some("py"), Some("dir.py")));
    assert!(!is_user_script(true, None, Some("Makefile")));
}
