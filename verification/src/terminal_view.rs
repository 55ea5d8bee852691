//! Terminal view: turning a command line into something to run, and the
//! line buffer the integrated terminal renders.
//!
//! Spawning the process and streaming its output are the application's
//! part; here are the decisions around them: tokenizing, recognising the
//! `@python <script> [args...]` actions, choosing where a relative script
//! is looked up, the interpreter's arguments, and the buffer rules
//! (`\r` dropped, `\n` flushes, two-stage trimming).

use vstd::prelude::*;

use crate::command_line::{command_words, split_command, tokenizable};
use crate::text::{
    chars_of, copy_string, lemma_split_acc_push, lemma_split_acc_push_sep, lemma_split_acc_whole,
    lemma_strings_view_push, split_char, opt_chars, push_char, str_eq, strings_view, trim,
    trim_bounds,
};

verus! {

/// Buffer cap: past this many lines the buffer is trimmed.
pub const MAX_LINES: usize = 5_000;

/// Size the buffer is trimmed down to.
pub const TRIMMED_LINES: usize = 3_500;

/// Streaming events from a launched process.
#[derive(Debug, Clone)]
pub enum TerminalEvent {
    /// The process started.
    Started { command: String, pid: u32 },
    /// One line of its standard output or error.
    Output(String),
    /// It exited, with its exit code when it has one.
    Finished { code: Option<i32> },
    /// Launching or reading it failed.
    Failed(String),
}

/// Message of the error for a blank command.
pub open spec fn empty_command_message() -> Seq<char> {
    "la commande est vide"@
}

/// Parses a raw command line into `(program, args)`: trimmed, split on
/// ASCII whitespace outside double quotes, quotes removed. A blank command
/// is an error.
pub fn tokenize(command: &str) -> (r: Result<(String, Vec<String>), String>)
    requires
        tokenizable(command@),
    ensures
        match r {
            Ok((program, args)) => {
                &&& trim(command@).len() > 0
                &&& program@ == command_words(trim(command@))[0]
                &&& strings_view(args@) == command_words(trim(command@)).drop_first()
            },
            Err(e) => trim(command@).len() == 0 && e@ == empty_command_message(),
        },
{
    let v = chars_of(command);
    let (start, end) = trim_bounds(&v, 0, v.len());
    assert(v@.subrange(0, v@.len() as int) =~= command@);
    if start == end {
        let e = String::from_str("la commande est vide");
        proof {
            reveal_strlit("la commande est vide");
        }
        return Err(e);
    }
    let mut words = split_command(command);
    let ghost all = words@;
    let program = words.remove(0);
    proof {
        assert(words@ =~= all.drop_first());
        assert(strings_view(words@) =~= strings_view(all).drop_first());
    }
    Ok((program, words))
}

/// What a command line asks for.
pub enum ActionRequest {
    /// A plain program with its arguments, run as given.
    Program(ActionSpec),
    /// `@python <script> [args...]`: a Python script to locate and run.
    Python { script: String, script_args: Vec<String> },
}

/// A resolved program, its arguments and its working directory.
#[derive(Debug, Clone, PartialEq, Eq)]
pub struct ActionSpec {
    pub program: String,
    pub args: Vec<String>,
    pub working_directory: Option<String>,
}

/// The marker of a Python action.
pub open spec fn python_marker() -> Seq<char> {
    "@python"@
}

/// Message of the error for `@python` without a script.
pub open spec fn missing_script_message() -> Seq<char> {
    "@python requires a script path"@
}

/// Recognises what `command` asks for. A blank command is an error; a
/// command whose program is not `@python` passes through unchanged with no
/// working directory; `@python` needs a script path, which is followed by
/// the script's own arguments.
pub fn resolve_action(command: &str) -> (r: Result<ActionRequest, String>)
    requires
        tokenizable(command@),
    ensures
        ({
            let w = command_words(trim(command@));
            match r {
                Err(e) => if trim(command@).len() == 0 {
                    e@ == empty_command_message()
                } else {
                    w[0] == python_marker() && w.len() == 1 && e@ == missing_script_message()
                },
                Ok(ActionRequest::Program(spec)) => {
                    &&& trim(command@).len() > 0
                    &&& w[0] != python_marker()
                    &&& spec.program@ == w[0]
                    &&& strings_view(spec.args@) == w.drop_first()
                    &&& spec.working_directory is None
                },
                Ok(ActionRequest::Python { script, script_args }) => {
                    &&& trim(command@).len() > 0
                    &&& w[0] == python_marker()
                    &&& w.len() >= 2
                    &&& script@ == w[1]
                    &&& strings_view(script_args@) == w.skip(2)
                },
            }
        }),
{
    let (program, mut args) = match tokenize(command) {
        Ok(pair) => pair,
        Err(e) => return Err(e),
    };
    let ghost w = command_words(trim(command@));
    assert(program@ == w[0]);
    assert(w.len() > 0);
    assert(strings_view(args@).len() == args@.len());
    if !str_eq(program.as_str(), "@python") {
        assert(w[0] != python_marker());
        return Ok(ActionRequest::Program(ActionSpec { program, args, working_directory: None }));
    }
    assert(w[0] == python_marker());
    if args.len() == 0 {
        assert(w.len() == 1);
        let e = String::from_str("@python requires a script path");
        proof {
            reveal_strlit("@python requires a script path");
        }
        return Err(e);
    }
    let ghost all = args@;
    let script = args.remove(0);
    proof {
        assert(args@ =~= all.drop_first());
        assert(strings_view(args@) =~= strings_view(all).drop_first());
        assert(strings_view(all)[0] == all[0]@);
        assert(w.len() >= 2);
        assert(script@ == w[1]);
        assert(w.skip(2) =~= w.drop_first().drop_first());
    }
    Ok(ActionRequest::Python { script, script_args: args })
}

/// Where a `@python` script is taken from.
#[derive(Debug, Clone, Copy, PartialEq, Eq)]
pub enum ScriptLocation {
    /// The path as written (it is absolute).
    AsGiven,
    /// Joined onto the bundled distribution root.
    Bundled,
    /// Joined onto the user's scripts directory.
    User,
}

/// Chooses where a script is looked up: an absolute path is used as is; a
/// relative one is taken from the bundled root when a file exists there,
/// else from the user's scripts directory when one is configured, else from
/// the bundled root (which then reports the missing file). Bundled scripts
/// are never shadowed by the user's directory.
pub fn script_location(is_absolute: bool, bundled_is_file: bool, has_user_root: bool) -> (r:
    ScriptLocation)
    ensures
        r == (if is_absolute {
            ScriptLocation::AsGiven
        } else if bundled_is_file {
            ScriptLocation::Bundled
        } else if has_user_root {
            ScriptLocation::User
        } else {
            ScriptLocation::Bundled
        }),
{
    if is_absolute {
        ScriptLocation::AsGiven
    } else if bundled_is_file {
        ScriptLocation::Bundled
    } else if has_user_root {
        ScriptLocation::User
    } else {
        ScriptLocation::Bundled
    }
}

/// The message for a script that is not a file.
pub fn script_not_found_message(display: &str) -> (r: String)
    ensures
        r@ == "Python script not found: "@ + display@,
{
    let mut r = String::from_str("Python script not found: ");
    r.append(display);
    r
}

/// Which interpreter runs a script: the script directory's own virtual
/// environment when it has one, then the configured interpreter, then
/// `python3` (or `python` when only that one is on `PATH`).
pub open spec fn interpreter_spec(
    venv_python: Option<Seq<char>>,
    configured: Option<Seq<char>>,
    python3_on_path: bool,
    python_on_path: bool,
) -> Seq<char> {
    match venv_python {
        Some(v) => v,
        None => match configured {
            Some(c) => c,
            None => if !python3_on_path && python_on_path {
                "python"@
            } else {
                "python3"@
            },
        },
    }
}

/// The interpreter for a script, from what was found around it (see
/// [`interpreter_spec`]).
pub fn interpreter_for(
    venv_python: Option<String>,
    configured: Option<String>,
    python3_on_path: bool,
    python_on_path: bool,
) -> (r: String)
    ensures
        r@ == interpreter_spec(opt_chars(venv_python), opt_chars(configured), python3_on_path, python_on_path),
{
    match venv_python {
        Some(v) => v,
        None => match configured {
            Some(c) => c,
            None => if !python3_on_path && python_on_path {
                String::from_str("python")
            } else {
                String::from_str("python3")
            },
        },
    }
}

/// The run of a located script: `python -u <script> [args...]` in the
/// script's directory (`-u` keeps piped output unbuffered).
pub fn python_action(
    python: String,
    script_display: String,
    script_args: &[String],
    working_directory: Option<String>,
) -> (r: ActionSpec)
    ensures
        r.program@ == python@,
        strings_view(r.args@) == seq!["-u"@, script_display@] + strings_view(script_args@),
        r.working_directory == working_directory,
{
    let mut args: Vec<String> = Vec::new();
    let ghost sd = script_display@;
    args.push(String::from_str("-u"));
    args.push(script_display);
    proof {
        reveal_strlit("-u");
        assert(strings_view(args@) =~= seq!["-u"@, sd]);
    }
    let mut i: usize = 0;
    while i < script_args.len()
        invariant
            i <= script_args.len(),
            strings_view(args@) == seq!["-u"@, sd] + strings_view(script_args@.take(i as int)),
        decreases script_args.len() - i,
    {
        let ghost before = args@;
        let a = copy_string(&script_args[i]);
        let ghost ga = a;
        args.push(a);
        proof {
            lemma_strings_view_push(before, ga);
            assert(script_args@.take(i + 1) =~= script_args@.take(i as int).push(script_args@[i as int]));
            lemma_strings_view_push(script_args@.take(i as int), script_args@[i as int]);
        }
        i = i + 1;
    }
    assert(script_args@.take(script_args.len() as int) =~= script_args@);
    ActionSpec { program: python, args, working_directory }
}

/// The buffer after feeding `text`: `\r` is dropped, `\n` moves the
/// pending partial line into the buffer, any other character extends it.
pub open spec fn feed_spec(lines: Seq<Seq<char>>, partial: Seq<char>, text: Seq<char>) -> (
    Seq<Seq<char>>,
    Seq<char>,
)
    decreases text.len(),
{
    if text.len() == 0 {
        (lines, partial)
    } else {
        let prev = feed_spec(lines, partial, text.drop_last());
        let ch = text.last();
        if ch == '\r' {
            prev
        } else if ch == '\n' {
            (prev.0.push(prev.1), Seq::empty())
        } else {
            (prev.0, prev.1.push(ch))
        }
    }
}

/// Splits `text` into complete lines pushed to `lines`, keeping a trailing
/// partial line in `partial`.
pub fn feed_text(lines: &mut std::collections::VecDeque<String>, partial: &mut String, text: &str)
    ensures
        feed_spec(strings_view(old(lines)@), old(partial)@, text@) == (
            strings_view(final(lines)@),
            final(partial)@,
        ),
{
    let v = chars_of(text);
    let mut i: usize = 0;
    assert(text@.take(0) =~= Seq::<char>::empty());
    while i < v.len()
        invariant
            i <= v.len(),
            v@ == text@,
            feed_spec(strings_view(old(lines)@), old(partial)@, text@.take(i as int)) == (
                strings_view(lines@),
                partial@,
            ),
        decreases v.len() - i,
    {
        let ch = v[i];
        assert(text@.take(i + 1).drop_last() =~= text@.take(i as int));
        if ch == '\r' {
        } else if ch == '\n' {
            let mut done = String::new();
            std::mem::swap(&mut done, partial);
            let ghost before = lines@;
            let ghost d = done;
            lines.push_back(done);
            proof {
                lemma_strings_view_push(before, d);
            }
        } else {
            push_char(partial, ch);
        }
        i = i + 1;
    }
    assert(text@.take(v.len() as int) =~= text@);
}

/// The buffer after trimming: once it holds more than `TRIMMED_LINES`
/// lines, only the newest `TRIMMED_LINES` are kept.
pub open spec fn trimmed<T>(lines: Seq<T>) -> Seq<T> {
    if lines.len() > TRIMMED_LINES {
        lines.skip(lines.len() - TRIMMED_LINES)
    } else {
        lines
    }
}

/// Trims `lines` in two stages: down to `MAX_LINES` while over it, then down
/// to `TRIMMED_LINES` while over that, dropping the oldest lines first.
pub fn trim_lines(lines: &mut std::collections::VecDeque<String>)
    ensures
        final(lines)@ == trimmed(old(lines)@),
        final(lines)@.len() <= TRIMMED_LINES,
{
    while lines.len() > MAX_LINES
        invariant
            old(lines)@.len() <= MAX_LINES ==> lines@ == old(lines)@,
            lines@.len() <= old(lines)@.len(),
            old(lines)@.len() > TRIMMED_LINES ==> lines@.len() >= TRIMMED_LINES,
            lines@ == old(lines)@.skip(old(lines)@.len() - lines@.len()),
        decreases lines@.len(),
    {
        let _ = lines.pop_front();
        assert(lines@ =~= old(lines)@.skip(old(lines)@.len() - lines@.len()));
    }
    while lines.len() > TRIMMED_LINES
        invariant
            lines@.len() <= old(lines)@.len(),
            old(lines)@.len() <= TRIMMED_LINES ==> lines@ == old(lines)@,
            old(lines)@.len() > TRIMMED_LINES ==> lines@.len() >= TRIMMED_LINES,
            lines@ == old(lines)@.skip(old(lines)@.len() - lines@.len()),
        decreases lines@.len(),
    {
        let _ = lines.pop_front();
        assert(lines@ =~= old(lines)@.skip(old(lines)@.len() - lines@.len()));
    }
    assert(lines@ =~= trimmed(old(lines)@));
}

/// Feeding `a` and then `b` leaves the same lines and partial line as
/// feeding `a + b` at once.
pub proof fn law_feed_composes(lines: Seq<Seq<char>>, partial: Seq<char>, a: Seq<char>, b: Seq<char>)
    ensures
        feed_spec(lines, partial, a + b) == feed_spec(
            feed_spec(lines, partial, a).0,
            feed_spec(lines, partial, a).1,
            b,
        ),
    decreases b.len(),
{
    if b.len() == 0 {
        assert(a + b =~= a);
    } else {
        assert((a + b).drop_last() =~= a + b.drop_last());
        assert((a + b).last() == b.last());
        law_feed_composes(lines, partial, a, b.drop_last());
    }
}

/// `text` without its carriage returns.
pub open spec fn without_cr(text: Seq<char>) -> Seq<char>
    decreases text.len(),
{
    if text.len() == 0 {
        Seq::empty()
    } else if text.last() == '\r' {
        without_cr(text.drop_last())
    } else {
        without_cr(text.drop_last()).push(text.last())
    }
}

/// Feeding text splits the pending partial line followed by the text (its
/// carriage returns dropped) at each `\n`: every piece but the last becomes
/// a line, the last is the new partial line. (The partial line holds no
/// `\n`, as feeding always leaves it.)
pub proof fn law_feed_splits_on_newlines(lines: Seq<Seq<char>>, partial: Seq<char>, text: Seq<char>)
    requires
        forall|i: int| 0 <= i < partial.len() ==> #[trigger] partial[i] != '\n',
    ensures
        feed_spec(lines, partial, text).0 == lines + split_char(partial + without_cr(text), '\n').drop_last(),
        feed_spec(lines, partial, text).1 == split_char(partial + without_cr(text), '\n').last(),
    decreases text.len(),
{
    if text.len() == 0 {
        lemma_split_acc_whole(Seq::empty(), partial, '\n', '\n');
        assert(partial + without_cr(text) =~= partial);
        assert(Seq::<char>::empty() + partial =~= partial);
        assert(lines + seq![partial].drop_last() =~= lines);
    } else {
        let t = text.drop_last();
        let ch = text.last();
        law_feed_splits_on_newlines(lines, partial, t);
        let parts = split_char(partial + without_cr(t), '\n');
        if ch == '\r' {
        } else if ch == '\n' {
            assert(partial + without_cr(text) =~= (partial + without_cr(t)).push('\n'));
            lemma_split_acc_push_sep(Seq::empty(), partial + without_cr(t), '\n', '\n');
            crate::text::lemma_split_acc_nonempty(Seq::empty(), partial + without_cr(t), '\n', '\n');
            assert((lines + parts.drop_last()).push(parts.last()) =~= lines + parts.push(
                Seq::empty(),
            ).drop_last());
        } else {
            assert(partial + without_cr(text) =~= (partial + without_cr(t)).push(ch));
            lemma_split_acc_push(Seq::empty(), partial + without_cr(t), ch, '\n', '\n');
            crate::text::lemma_split_acc_nonempty(Seq::empty(), partial + without_cr(t), '\n', '\n');
            assert(parts.drop_last().push(parts.last().push(ch)).drop_last() =~= parts.drop_last());
        }
    }
}

} // verus!
