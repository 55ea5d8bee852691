use devtoolbox::process::{
    choose_python, normalize_separators, resolve_action, script_action, script_not_found, spawn_error,
    tokenize, LaunchError, CREATE_NO_WINDOW,
};
use devtoolbox::terminal_view::ActionRequest;

#[test]
fn tokenize_bare_exe() {
    let (prog, args) = tokenize("notepad.exe").unwrap();
    assert_eq!(prog, "notepad.exe");
    assert!(args.is_empty());
}

#[test]
fn tokenize_exe_with_one_arg() {
    let (prog, args) = tokenize("cmd.exe /c").unwrap();
    assert_eq!(prog, "cmd.exe");
    assert_eq!(args, vec!["/c"]);
}

#[test]
fn tokenize_exe_with_multiple_args() {
    let (prog, args) = tokenize("ipconfig /all").unwrap();
    assert_eq!(prog, "ipconfig");
    assert_eq!(args, vec!["/all"]);
}

#[test]
fn tokenize_quoted_path_with_spaces() {
    let (prog, args) = tokenize(r#""C:\Program Files\App\app.exe" /flag"#).unwrap();
    assert_eq!(prog, r"C:\Program Files\App\app.exe");
    assert_eq!(args, vec!["/flag"]);
}

#[test]
fn tokenize_quoted_path_no_args() {
    let (prog, args) = tokenize(r#""C:\Program Files\My App\tool.exe""#).unwrap();
    assert_eq!(prog, r"C:\Program Files\My App\tool.exe");
    assert!(args.is_empty());
}

#[test]
fn tokenize_empty_string_returns_error() {
    assert!(matches!(tokenize(""), Err(LaunchError::Empty)));
}

#[test]
fn tokenize_whitespace_only_returns_error() {
    assert!(matches!(tokenize("   \t  "), Err(LaunchError::Empty)));
}

#[test]
fn create_no_window_flag_value() {
    assert_eq!(CREATE_NO_WINDOW, 0x0800_0000);
}

#[test]
fn launch_error_display_empty() {
    let msg = LaunchError::Empty.to_string();
    assert!(msg.contains("empty"), "got: {}", msg);
}

#[test]
fn launch_error_display_not_found() {
    let err = LaunchError::NotFound {
        program: "foo.exe".into(),
    };
    let msg = err.to_string();
    assert!(msg.contains("foo.exe"), "got: {}", msg);
}

#[test]
fn process_legacy_command_resolves_unchanged() {
    match resolve_action("ipconfig /all", '\\') {
        Ok(ActionRequest::Program(spec)) => {
            assert_eq!(spec.program, "ipconfig");
            assert_eq!(spec.args, vec!["/all"]);
            assert_eq!(spec.working_directory, None);
        }
        _ => panic!("a plain command passes through"),
    }
}

#[test]
fn process_python_action_requires_script_path() {
    assert!(matches!(
        resolve_action("@python", '\\'),
        Err(LaunchError::InvalidAction { .. })
    ));
}

#[test]
fn python_action_script_uses_the_platform_separator() {
    match resolve_action("@python scripts/sample/sample.py config.yaml --only pro", '\\') {
        Ok(ActionRequest::Python { script, script_args }) => {
            assert_eq!(script, r"scripts\sample\sample.py");
            assert_eq!(script_args, vec!["config.yaml", "--only", "pro"]);
        }
        _ => panic!("an @python command is a Python action"),
    }
    assert_eq!(normalize_separators("a/b/c", '/'), "a/b/c");
}

#[test]
fn error_messages_spell_out_the_failure() {
    assert_eq!(LaunchError::Empty.to_string(), "command string is empty");
    assert_eq!(
        LaunchError::InvalidAction {
            message: "x".into()
        }
        .to_string(),
        "invalid action: x"
    );
    let spawn = LaunchError::Spawn {
        source: std::io::Error::new(std::io::ErrorKind::Other, "boom"),
    };
    assert_eq!(spawn.to_string(), "failed to spawn process: boom");
    match script_not_found(r"C:\s.py") {
        LaunchError::InvalidAction { message } => {
            assert_eq!(message, r"Python script not found: C:\s.py")
        }
        _ => panic!("a missing script is an invalid action"),
    }
}

#[test]
fn the_interpreter_cascade_prefers_the_local_venv() {
    assert_eq!(
        choose_python(Some("venv.exe".into()), Some("conf".into())),
        "venv.exe"
    );
    assert_eq!(choose_python(None, Some("conf".into())), "conf");
    assert_eq!(choose_python(None, None), "python3");
    let spec = script_action(
        "python3".into(),
        r"C:\s.py".into(),
        &["a".to_string()],
        Some(r"C:\".into()),
    );
    assert_eq!(spec.args, vec![r"C:\s.py", "a"]);
}

#[test]
fn a_missing_executable_is_reported_as_not_found() {
    let missing = spawn_error(
        "nope".into(),
        std::io::Error::from(std::io::ErrorKind::NotFound),
    );
    assert!(matches!(missing, LaunchError::NotFound { ref program } if program == "nope"));
    let denied = spawn_error(
        "nope".into(),
        std::io::Error::from(std::io::ErrorKind::PermissionDenied),
    );
    assert!(matches!(denied, LaunchError::Spawn { .. }));
    assert!(denied.to_string().starts_with("failed to spawn process: "));
}

#[test]
fn tokens_are_separated_by_any_ascii_whitespace() {
    let (program, args) = tokenize("ipconfig\n/all").unwrap();
    assert_eq!(program, "ipconfig");
    assert_eq!(args, vec!["/all"]);
    let (program, args) = tokenize("a\r\nb\x0cc\td").unwrap();
    assert_eq!(program, "a");
    assert_eq!(args, vec!["b", "c", "d"]);
    let (program, args) = tokenize("\"x\ny\" z").unwrap();
    assert_eq!(program, "x\ny");
    assert_eq!(args, vec!["z"]);
}
