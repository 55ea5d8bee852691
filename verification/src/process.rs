//! Launching commands on Windows: the tokenizer, the typed launch error,
//! and the decisions of `@python` action resolution. Spawning (with the
//! `CREATE_NO_WINDOW` creation flag) and file probes are the application's
//! part.

use vstd::prelude::*;

use crate::command_line::{command_words, split_command, tokenizable};
use crate::terminal_view::{missing_script_message, python_marker, ActionRequest, ActionSpec};
use crate::text::{
    starts_with,
    chars_of, copy_string, lemma_strings_view_push, push_char, str_eq, strings_view, trim,
    trim_bounds,
};

verus! {

/// `CREATE_NO_WINDOW`: keeps a spawned console program from opening a
/// stray console window.
pub const CREATE_NO_WINDOW: u32 = 0x0800_0000;

#[verifier::external_type_specification]
#[verifier::external_body]
pub struct ExIoError(std::io::Error);

/// Errors that can occur when launching a command.
#[derive(Debug)]
pub enum LaunchError {
    /// The command string was empty or contained only whitespace.
    Empty,
    /// A structured action is malformed or references a missing script.
    InvalidAction { message: String },
    /// The executable was not found.
    NotFound { program: String },
    /// Any other I/O error during spawn.
    Spawn { source: std::io::Error },
}

/// std's `Display` text of an I/O error. It comes from the operating
/// system, so nothing is stated of it.
#[verifier::external_body]
fn io_error_text(e: &std::io::Error) -> String {
    e.to_string()
}

/// Whether an I/O error is of kind `NotFound` (std's `io::Error::kind`).
/// The kind is the operating system's answer, so nothing is stated of it.
#[verifier::external_body]
fn io_error_is_not_found(e: &std::io::Error) -> bool {
    e.kind() == std::io::ErrorKind::NotFound
}

impl LaunchError {
    /// The error's message.
    pub fn to_string(&self) -> (r: String)
        ensures
            match self {
                LaunchError::Empty => r@ == "command string is empty"@,
                LaunchError::InvalidAction { message } => r@ == "invalid action: "@ + message@,
                LaunchError::NotFound { program } => r@ == "executable not found: "@ + program@,
                LaunchError::Spawn { .. } => starts_with(r@, "failed to spawn process: "@),
            },
    {
        match self {
            LaunchError::Empty => String::from_str("command string is empty"),
            LaunchError::InvalidAction { message } => {
                let mut r = String::from_str("invalid action: ");
                r.append(message.as_str());
                r
            },
            LaunchError::NotFound { program } => {
                let mut r = String::from_str("executable not found: ");
                r.append(program.as_str());
                r
            },
            LaunchError::Spawn { source } => {
                let mut r = String::from_str("failed to spawn process: ");
                let ghost p = r@;
                let t = io_error_text(source);
                r.append(t.as_str());
                assert(r@.subrange(0, p.len() as int) =~= p);
                r
            },
        }
    }
}

/// The error for a failed spawn of `program`: `NotFound` (naming the
/// program) when the system reports the executable missing, otherwise
/// `Spawn` carrying the system's error itself.
pub fn spawn_error(program: String, error: std::io::Error) -> (r: LaunchError)
    ensures
        match r {
            LaunchError::NotFound { program: p } => p@ == program@,
            LaunchError::Spawn { source } => source == error,
            _ => false,
        },
{
    if io_error_is_not_found(&error) {
        LaunchError::NotFound { program }
    } else {
        LaunchError::Spawn { source: error }
    }
}

/// Parses a raw command string into `(program, args)`: trimmed, split on
/// ASCII whitespace outside double quotes, quotes stripped. An empty or
/// whitespace-only string is `LaunchError::Empty`.
pub fn tokenize(command: &str) -> (r: Result<(String, Vec<String>), LaunchError>)
    requires
        tokenizable(command@),
    ensures
        match r {
            Ok((program, args)) => {
                &&& trim(command@).len() > 0
                &&& program@ == command_words(trim(command@))[0]
                &&& strings_view(args@) == command_words(trim(command@)).drop_first()
            },
            Err(e) => trim(command@).len() == 0 && e is Empty,
        },
{
    let v = chars_of(command);
    let (start, end) = trim_bounds(&v, 0, v.len());
    assert(v@.subrange(0, v@.len() as int) =~= command@);
    if start == end {
        return Err(LaunchError::Empty);
    }
    let mut words = split_command(command);
    let ghost all = words@;
    let program = words.remove(0);
    proof {
        assert(words@ =~= all.drop_first());
        assert(strings_view(words@) =~= strings_view(all).drop_first());
    }
    Ok((program, words))
}

/// `s` with every `/` replaced by `separator`.
pub open spec fn with_separator(s: Seq<char>, separator: char) -> Seq<char> {
    s.map_values(|c: char| if c == '/' { separator } else { c })
}

/// Replaces every `/` in `s` by `separator` (the platform's path separator).
pub fn normalize_separators(s: &str, separator: char) -> (r: String)
    ensures
        r@ == with_separator(s@, separator),
{
    let v = chars_of(s);
    let mut r = String::new();
    let mut i: usize = 0;
    while i < v.len()
        invariant
            i <= v.len(),
            v@ == s@,
            r@ == with_separator(s@.take(i as int), separator),
        decreases v.len() - i,
    {
        let c = v[i];
        if c == '/' {
            push_char(&mut r, separator);
        } else {
            push_char(&mut r, c);
        }
        i = i + 1;
        assert(r@ =~= with_separator(s@.take(i as int), separator));
    }
    assert(s@.take(v.len() as int) =~= s@);
    r
}

/// Recognises what `command` asks for. A blank command is
/// `LaunchError::Empty`; a program other than `@python` passes through
/// unchanged; `@python` needs a script path (else `InvalidAction`), whose
/// `/` separators become `separator`.
pub fn resolve_action(command: &str, separator: char) -> (r: Result<ActionRequest, LaunchError>)
    requires
        tokenizable(command@),
    ensures
        ({
            let w = command_words(trim(command@));
            match r {
                Err(LaunchError::Empty) => trim(command@).len() == 0,
                Err(LaunchError::InvalidAction { message }) => {
                    &&& trim(command@).len() > 0
                    &&& w[0] == python_marker()
                    &&& w.len() == 1
                    &&& message@ == missing_script_message()
                },
                Err(_) => false,
                Ok(ActionRequest::Program(spec)) => {
                    &&& trim(command@).len() > 0
                    &&& w[0] != python_marker()
                    &&& spec.program@ == w[0]
                    &&& strings_view(spec.args@) == w.drop_first()
                    &&& spec.working_directory is None
                },
                Ok(ActionRequest::Python { script, script_args }) => {
                    &&& trim(command@).len() > 0
                    &&& w[0] == python_marker()
                    &&& w.len() >= 2
                    &&& script@ == with_separator(w[1], separator)
                    &&& strings_view(script_args@) == w.skip(2)
                },
            }
        }),
{
    let (program, mut args) = match tokenize(command) {
        Ok(pair) => pair,
        Err(e) => return Err(e),
    };
    let ghost w = command_words(trim(command@));
    assert(program@ == w[0]);
    assert(w.len() > 0);
    assert(strings_view(args@).len() == args@.len());
    if !str_eq(program.as_str(), "@python") {
        assert(w[0] != python_marker());
        return Ok(ActionRequest::Program(ActionSpec { program, args, working_directory: None }));
    }
    assert(w[0] == python_marker());
    if args.len() == 0 {
        assert(w.len() == 1);
        let message = String::from_str("@python requires a script path");
        proof {
            reveal_strlit("@python requires a script path");
        }
        return Err(LaunchError::InvalidAction { message });
    }
    let ghost all = args@;
    let script = args.remove(0);
    proof {
        assert(args@ =~= all.drop_first());
        assert(strings_view(args@) =~= strings_view(all).drop_first());
        assert(strings_view(all)[0] == all[0]@);
        assert(w.len() >= 2);
        assert(script@ == w[1]);
        assert(w.skip(2) =~= w.drop_first().drop_first());
    }
    let normalized = normalize_separators(script.as_str(), separator);
    Ok(ActionRequest::Python { script: normalized, script_args: args })
}

/// The error for a script that is not a file.
pub fn script_not_found(display: &str) -> (r: LaunchError)
    ensures
        match r {
            LaunchError::InvalidAction { message } => message@ == "Python script not found: "@
                + display@,
            _ => false,
        },
{
    let mut message = String::from_str("Python script not found: ");
    message.append(display);
    LaunchError::InvalidAction { message }
}

/// The interpreter for a script: the script directory's own
/// `.venv\Scripts\python.exe` when it exists, else the configured
/// `WINFXSTART_PYTHON`, else `python3`.
pub fn choose_python(local_venv: Option<String>, configured: Option<String>) -> (r: String)
    ensures
        r@ == (match local_venv {
            Some(p) => p@,
            None => match configured {
                Some(c) => c@,
                None => "python3"@,
            },
        }),
{
    match local_venv {
        Some(p) => p,
        None => match configured {
            Some(c) => c,
            None => String::from_str("python3"),
        },
    }
}

/// The run of a located script: `python <script> [args...]` in the
/// script's directory.
pub fn script_action(
    python: String,
    script_display: String,
    script_args: &[String],
    working_directory: Option<String>,
) -> (r: ActionSpec)
    ensures
        r.program@ == python@,
        strings_view(r.args@) == seq![script_display@] + strings_view(script_args@),
        r.working_directory == working_directory,
{
    let mut args: Vec<String> = Vec::new();
    let ghost sd = script_display@;
    args.push(script_display);
    assert(strings_view(args@) =~= seq![sd]);
    let mut i: usize = 0;
    while i < script_args.len()
        invariant
            i <= script_args.len(),
            strings_view(args@) == seq![sd] + strings_view(script_args@.take(i as int)),
        decreases script_args.len() - i,
    {
        let ghost before = args@;
        let a = copy_string(&script_args[i]);
        let ghost ga = a;
        args.push(a);
        proof {
            lemma_strings_view_push(before, ga);
            assert(script_args@.take(i + 1) =~= script_args@.take(i as int).push(
                script_args@[i as int],
            ));
            lemma_strings_view_push(script_args@.take(i as int), script_args@[i as int]);
        }
        i = i + 1;
    }
    assert(script_args@.take(script_args.len() as int) =~= script_args@);
    ActionSpec { program: python, args, working_directory }
}

/// One scheduled task of the automations view.
#[derive(Debug, Clone)]
pub struct ScheduledTask {
    pub name: String,
    pub category: String,
    pub next_run: String,
    pub state: String,
    pub author: String,
}

/// Streaming events from a launched action.
#[derive(Debug)]
pub enum ActionEvent {
    Started { command: String, pid: u32 },
    Output(String),
    Finished { code: Option<i32> },
    Failed(String),
    AutomationsLoaded(Result<Vec<ScheduledTask>, String>),
}

impl Clone for ActionEvent {
    fn clone(&self) -> (r: Self) {
        match self {
            ActionEvent::Started { command, pid } => ActionEvent::Started {
                command: command.clone(),
                pid: *pid,
            },
            ActionEvent::Output(line) => ActionEvent::Output(line.clone()),
            ActionEvent::Finished { code } => ActionEvent::Finished { code: *code },
            ActionEvent::Failed(message) => ActionEvent::Failed(message.clone()),
            ActionEvent::AutomationsLoaded(Ok(tasks)) => ActionEvent::AutomationsLoaded(
                Ok(tasks.clone()),
            ),
            ActionEvent::AutomationsLoaded(Err(message)) => ActionEvent::AutomationsLoaded(
                Err(message.clone()),
            ),
        }
    }
}

} // verus!
