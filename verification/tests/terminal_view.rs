use std::collections::VecDeque;

use devtoolbox::terminal_view::{
    feed_text, interpreter_for, python_action, resolve_action, script_location, script_not_found_message,
    tokenize, trim_lines, ActionRequest, ScriptLocation, MAX_LINES, TRIMMED_LINES,
};

#[test]
fn feed_text_splits_crlf_lines() {
    let mut lines = VecDeque::new();
    let mut partial = String::new();
    feed_text(&mut lines, &mut partial, "alpha\r\nbeta\nchar");
    assert_eq!(lines.into_iter().collect::<Vec<_>>(), vec!["alpha", "beta"]);
    assert_eq!(partial, "char");
}

#[test]
fn tokenize_splits_on_whitespace_respecting_quotes() {
    let (program, args) = tokenize("\"/opt/my app/run\" --flag value").unwrap();
    assert_eq!(program, "/opt/my app/run");
    assert_eq!(args, vec!["--flag", "value"]);
}

#[test]
fn tokenize_rejects_empty_command() {
    assert!(tokenize("   ").is_err());
}

#[test]
fn trim_lines_caps_buffer_once_over_max() {
    let mut lines: VecDeque<String> = (0..MAX_LINES + 1).map(|i| i.to_string()).collect();
    trim_lines(&mut lines);
    assert_eq!(lines.len(), TRIMMED_LINES);
}

#[test]
fn trim_lines_also_trims_when_over_trimmed_cap_but_under_max() {
    // The trim runs down to TRIMMED_LINES any time the buffer exceeds it,
    // not only once MAX_LINES is exceeded.
    let mut lines: VecDeque<String> = (0..TRIMMED_LINES + 50).map(|i| i.to_string()).collect();
    trim_lines(&mut lines);
    assert_eq!(lines.len(), TRIMMED_LINES);
}

#[test]
fn terminal_view_legacy_command_resolves_unchanged() {
    match resolve_action("ip addr").unwrap() {
        ActionRequest::Program(spec) => {
            assert_eq!(spec.program, "ip");
            assert_eq!(spec.args, vec!["addr"]);
            assert_eq!(spec.working_directory, None);
        }
        ActionRequest::Python { .. } => panic!("a plain command is not a Python action"),
    }
}

#[test]
fn terminal_view_python_action_requires_script_path() {
    assert!(resolve_action("@python").is_err());
}

#[test]
fn tokenize_error_names_the_empty_command() {
    assert_eq!(tokenize(" \t ").unwrap_err(), "la commande est vide");
}

#[test]
fn tokenize_keeps_the_words_after_the_program_in_order() {
    let (program, args) = tokenize("  git  commit -m \"a b\"  ").unwrap();
    assert_eq!(program, "git");
    assert_eq!(args, vec!["commit", "-m", "a b"]);
}

#[test]
fn python_action_splits_script_and_its_arguments() {
    match resolve_action("@python scripts/sample/sample.py config.yaml --only pro").unwrap() {
        ActionRequest::Python { script, script_args } => {
            assert_eq!(script, "scripts/sample/sample.py");
            assert_eq!(script_args, vec!["config.yaml", "--only", "pro"]);
        }
        ActionRequest::Program(_) => panic!("an @python command is a Python action"),
    }
    assert_eq!(
        resolve_action("@python").err().unwrap(),
        "@python requires a script path"
    );
}

#[test]
fn bundled_scripts_win_over_the_user_directory() {
    assert_eq!(script_location(true, false, true), ScriptLocation::AsGiven);
    assert_eq!(script_location(false, true, true), ScriptLocation::Bundled);
    assert_eq!(script_location(false, false, true), ScriptLocation::User);
    assert_eq!(script_location(false, false, false), ScriptLocation::Bundled);
}

#[test]
fn python_action_runs_unbuffered_in_the_script_directory() {
    let spec = python_action(
        "python3".to_string(),
        "/tmp/x/run.py".to_string(),
        &["a".to_string(), "b".to_string()],
        Some("/tmp/x".to_string()),
    );
    assert_eq!(spec.program, "python3");
    assert_eq!(spec.args, vec!["-u", "/tmp/x/run.py", "a", "b"]);
    assert_eq!(spec.working_directory.as_deref(), Some("/tmp/x"));
    assert_eq!(
        script_not_found_message("/tmp/x/run.py"),
        "Python script not found: /tmp/x/run.py"
    );
}

#[test]
fn a_partial_line_survives_until_its_newline_arrives() {
    let mut lines = VecDeque::new();
    let mut partial = String::new();
    feed_text(&mut lines, &mut partial, "hel");
    feed_text(&mut lines, &mut partial, "lo\r\n\nx");
    assert_eq!(lines.into_iter().collect::<Vec<_>>(), vec!["hello", ""]);
    assert_eq!(partial, "x");
}

#[test]
fn a_short_buffer_is_left_alone_and_the_newest_lines_are_kept() {
    let mut short: VecDeque<String> = (0..10).map(|i| i.to_string()).collect();
    trim_lines(&mut short);
    assert_eq!(short.len(), 10);
    let mut long: VecDeque<String> = (0..MAX_LINES + 7).map(|i| i.to_string()).collect();
    trim_lines(&mut long);
    assert_eq!(long.front().unwrap(), &(MAX_LINES + 7 - TRIMMED_LINES).to_string());
    assert_eq!(long.back().unwrap(), &(MAX_LINES + 6).to_string());
}

#[test]
fn feeding_in_two_pieces_equals_feeding_at_once() {
    let mut lines_a: VecDeque<String> = VecDeque::new();
    let mut partial_a = String::new();
    feed_text(&mut lines_a, &mut partial_a, "first li");
    feed_text(&mut lines_a, &mut partial_a, "ne\r\nsecond\nthi");
    let mut lines_b: VecDeque<String> = VecDeque::new();
    let mut partial_b = String::new();
    feed_text(&mut lines_b, &mut partial_b, "first line\r\nsecond\nthi");
    assert_eq!(lines_a, lines_b);
    assert_eq!(partial_a, partial_b);
    assert_eq!(lines_a, VecDeque::from(vec!["first line".to_string(), "second".to_string()]));
    assert_eq!(partial_a, "thi");
}

#[test]
fn the_interpreter_cascade_prefers_the_local_environment() {
    assert_eq!(
        interpreter_for(Some("/s/.venv/bin/python".into()), Some("/opt/py".into()), true, true),
        "/s/.venv/bin/python"
    );
    assert_eq!(interpreter_for(None, Some("/opt/py".into()), true, true), "/opt/py");
    assert_eq!(interpreter_for(None, None, true, true), "python3");
    assert_eq!(interpreter_for(None, None, false, true), "python");
    assert_eq!(interpreter_for(None, None, false, false), "python3");
}

#[test]
fn feeding_splits_the_partial_line_and_text_at_newlines() {
    let mut lines: VecDeque<String> = VecDeque::from(vec!["earlier".to_string()]);
    let mut partial = String::from("pen");
    feed_text(&mut lines, &mut partial, "ding\r\n\nlast\rpart");
    assert_eq!(
        lines,
        VecDeque::from(vec!["earlier".to_string(), "pending".to_string(), String::new()])
    );
    assert_eq!(partial, "lastpart");
}
