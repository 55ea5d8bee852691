//! The launcher window's small rules: when a card may launch, how a
//! finished command is reported, what a card's info badge says, and how a
//! user's Python script becomes an action.

use vstd::prelude::*;

use crate::text::{
    chars_of, push_char, push_signed_decimal, signed_decimal, string_of_range, trim, trim_bounds,
};

verus! {

/// A command is in flight when a card action or a terminal command runs,
/// or a cleanup or model job is under way: the window runs one at a time.
pub fn command_busy(
    action_running: bool,
    terminal_running: bool,
    cleanup_job: bool,
    models_job: bool,
) -> (r: bool)
    ensures
        r == (action_running || terminal_running || cleanup_job || models_job),
{
    action_running || terminal_running || cleanup_job || models_job
}

/// A card launches only when it is configured and no other command (card,
/// terminal or cleanup run) is in flight: one command at a time.
pub fn can_launch_card(is_configured: bool, command_busy: bool) -> (r: bool)
    ensures
        r == (is_configured && !command_busy),
{
    is_configured && !command_busy
}

/// The closing line of a finished command: success for exit code 0, the
/// code otherwise, and an interruption when a signal ended it (no code).
pub fn format_exit_line(code: Option<i32>) -> (r: String)
    ensures
        r@ == (match code {
            Some(c) => if c == 0 {
                "(terminé — succès)"@
            } else {
                "(terminé — code "@ + signed_decimal(c as int) + ")"@
            },
            None => "(terminé — interrompu par un signal)"@,
        }),
{
    match code {
        Some(0) => String::from_str("(terminé — succès)"),
        Some(c) => {
            let mut r = String::from_str("(terminé — code ");
            push_signed_decimal(&mut r, c as i64);
            r.append(")");
            r
        },
        None => String::from_str("(terminé — interrompu par un signal)"),
    }
}

/// The text of a card's info badge: the unconfigured diagnostic first,
/// then the command's own note (trimmed; a blank note counts as none),
/// separated by a blank line; `None` when there is nothing to say.
pub open spec fn badge_spec(disabled: Option<Seq<char>>, info: Option<Seq<char>>) -> Option<
    Seq<char>,
> {
    let note = match info {
        Some(i) => if trim(i).len() > 0 {
            Some(trim(i))
        } else {
            None
        },
        None => None,
    };
    match (disabled, note) {
        (Some(d), Some(n)) => Some(d + "\n\n"@ + n),
        (Some(d), None) => Some(d),
        (None, Some(n)) => Some(n),
        (None, None) => None,
    }
}

pub open spec fn opt_str_view(o: Option<&str>) -> Option<Seq<char>> {
    match o {
        Some(s) => Some(s@),
        None => None,
    }
}

pub open spec fn opt_string_view(o: Option<String>) -> Option<Seq<char>> {
    match o {
        Some(s) => Some(s@),
        None => None,
    }
}

/// The info badge of a card (see [`badge_spec`]).
pub fn badge_message(disabled_message: Option<&str>, info: Option<&str>) -> (r: Option<String>)
    ensures
        opt_string_view(r) == badge_spec(opt_str_view(disabled_message), opt_str_view(info)),
{
    let note: Option<String> = match info {
        Some(i) => {
            let v = chars_of(i);
            let (start, end) = trim_bounds(&v, 0, v.len());
            assert(v@.subrange(0, v@.len() as int) =~= i@);
            if start < end {
                Some(string_of_range(&v, start, end))
            } else {
                None
            }
        },
        None => None,
    };
    match (disabled_message, note) {
        (Some(d), Some(n)) => {
            let mut r = String::from_str(d);
            r.append("\n\n");
            r.append(n.as_str());
            Some(r)
        },
        (Some(d), None) => Some(String::from_str(d)),
        (None, Some(n)) => Some(n),
        (None, None) => None,
    }
}

/// `s` with every `\` replaced by `/`.
pub open spec fn portable_path(s: Seq<char>) -> Seq<char> {
    s.map_values(|c: char| if c == '\\' { '/' } else { c })
}

/// The action command of a user script, from its path relative to the
/// scripts directory: `@python "<path>"` with `/` separators.
pub fn user_script_command(relative_path: &str) -> (r: String)
    ensures
        r@ == "@python \""@ + portable_path(relative_path@) + "\""@,
{
    let v = chars_of(relative_path);
    let mut r = String::from_str("@python \"");
    let ghost prefix = r@;
    let mut i: usize = 0;
    while i < v.len()
        invariant
            i <= v.len(),
            v@ == relative_path@,
            r@ == prefix + portable_path(relative_path@.take(i as int)),
        decreases v.len() - i,
    {
        let c = v[i];
        if c == '\\' {
            push_char(&mut r, '/');
        } else {
            push_char(&mut r, c);
        }
        i = i + 1;
        assert(r@ =~= prefix + portable_path(relative_path@.take(i as int)));
    }
    assert(relative_path@.take(v.len() as int) =~= relative_path@);
    r.append("\"");
    r
}

/// `char::is_ascii_alphanumeric`.
pub open spec fn ascii_alnum(c: char) -> bool {
    ('0' <= c && c <= '9') || ('a' <= c && c <= 'z') || ('A' <= c && c <= 'Z')
}

/// The slug character of `c`: ASCII letters and digits lowercased, anything
/// else a dash.
pub open spec fn slug_char(c: char) -> char {
    if ascii_alnum(c) {
        crate::text::ascii_lower(c)
    } else {
        '-'
    }
}

/// Leading dashes of `s`.
pub open spec fn dash_prefix(s: Seq<char>) -> nat
    decreases s.len(),
{
    if s.len() > 0 && s[0] == '-' {
        1 + dash_prefix(s.drop_first())
    } else {
        0
    }
}

/// Trailing dashes of `s`.
pub open spec fn dash_suffix(s: Seq<char>) -> nat
    decreases s.len(),
{
    if s.len() > 0 && s.last() == '-' {
        1 + dash_suffix(s.drop_last())
    } else {
        0
    }
}

/// `s` without its leading and trailing dashes (`str::trim_matches('-')`).
pub open spec fn trim_dashes(s: Seq<char>) -> Seq<char> {
    let t = s.skip(dash_prefix(s) as int);
    t.take(t.len() - dash_suffix(t))
}

proof fn lemma_dash_prefix_bound(s: Seq<char>)
    ensures
        dash_prefix(s) <= s.len(),
    decreases s.len(),
{
    if s.len() > 0 && s[0] == '-' {
        lemma_dash_prefix_bound(s.drop_first());
    }
}

proof fn lemma_dash_suffix_bound(s: Seq<char>)
    ensures
        dash_suffix(s) <= s.len(),
    decreases s.len(),
{
    if s.len() > 0 && s.last() == '-' {
        lemma_dash_suffix_bound(s.drop_last());
    }
}

/// The action id of a user script, from its relative path without the
/// extension: `user-script-` and the slug of the path, whose dashes at
/// either end are dropped.
pub fn user_script_id(path_without_extension: &str) -> (r: String)
    ensures
        r@ == "user-script-"@ + trim_dashes(path_without_extension@.map_values(|c: char| slug_char(c))),
{
    let v = chars_of(path_without_extension);
    let ghost slug = path_without_extension@.map_values(|c: char| slug_char(c));
    let mut s: Vec<char> = Vec::new();
    let mut i: usize = 0;
    while i < v.len()
        invariant
            i <= v.len(),
            v@ == path_without_extension@,
            slug == path_without_extension@.map_values(|c: char| slug_char(c)),
            s@ == slug.take(i as int),
        decreases v.len() - i,
    {
        let c = v[i];
        let alnum = ('0' <= c && c <= '9') || ('a' <= c && c <= 'z') || ('A' <= c && c <= 'Z');
        let d = if alnum {
            crate::text::to_ascii_lower_char(c)
        } else {
            '-'
        };
        s.push(d);
        i = i + 1;
        assert(s@ =~= slug.take(i as int));
    }
    assert(slug.take(v.len() as int) =~= slug);
    let mut start: usize = 0;
    while start < s.len() && s[start] == '-'
        invariant
            start <= s.len(),
            dash_prefix(slug) == start + dash_prefix(slug.skip(start as int)),
            s@ == slug,
        decreases s.len() - start,
    {
        assert(slug.skip(start as int).drop_first() =~= slug.skip(start + 1));
        start = start + 1;
    }
    proof {
        lemma_dash_prefix_bound(slug);
        assert(dash_prefix(slug.skip(start as int)) == 0);
    }
    let ghost t = slug.skip(start as int);
    let mut end: usize = s.len();
    while end > start && s[end - 1] == '-'
        invariant
            start <= end <= s.len(),
            s@ == slug,
            t == slug.skip(start as int),
            dash_suffix(t) == (s.len() - end) + dash_suffix(slug.subrange(start as int, end as int)),
        decreases end - start,
    {
        assert(slug.subrange(start as int, end as int).drop_last() =~= slug.subrange(
            start as int,
            end - 1,
        ));
        end = end - 1;
    }
    proof {
        assert(t =~= slug.subrange(start as int, s.len() as int));
        assert(dash_suffix(slug.subrange(start as int, end as int)) == 0);
        lemma_dash_suffix_bound(t);
        assert(t.take(t.len() - dash_suffix(t)) =~= slug.subrange(start as int, end as int));
    }
    let mut r = String::from_str("user-script-");
    let body = string_of_range(&s, start, end);
    r.append(body.as_str());
    r
}

/// Empty-state message of the automations view.
pub fn automations_placeholder_message() -> (r: &'static str)
    ensures
        r@ == "Aucune automatisation trouvée."@,
{
    "Aucune automatisation trouvée."
}


/// `str::eq_ignore_ascii_case`.
pub open spec fn eq_ignore_ascii_case(a: Seq<char>, b: Seq<char>) -> bool {
    crate::text::ascii_lower_seq(a) == crate::text::ascii_lower_seq(b)
}

fn eq_ignore_ascii_case_exec(a: &str, b: &str) -> (r: bool)
    ensures
        r == eq_ignore_ascii_case(a@, b@),
{
    let av = chars_of(a);
    let bv = chars_of(b);
    let al = crate::text::ascii_lower_range(&av, 0, av.len());
    let bl = crate::text::ascii_lower_range(&bv, 0, bv.len());
    assert(av@.subrange(0, av@.len() as int) =~= a@);
    assert(bv@.subrange(0, bv@.len() as int) =~= b@);
    crate::text::chars_eq(&al, &bl)
}

/// Whether the script scan enters a directory entry: files always, and the
/// scanned root itself; other directories unless hidden (a leading dot),
/// `__pycache__` or `node_modules`.
pub fn should_descend_into_script_entry(is_dir: bool, depth: usize, name: &str) -> (r: bool)
    ensures
        r == (!is_dir || depth == 0 || !(crate::text::starts_with(name@, "."@) || name@
            == "__pycache__"@ || name@ == "node_modules"@)),
{
    if !is_dir || depth == 0 {
        return true;
    }
    !(crate::text::str_starts_with(name, ".") || crate::text::str_eq(name, "__pycache__")
        || crate::text::str_eq(name, "node_modules"))
}

/// Whether a scanned entry is a user script: a file with a `.py` extension
/// (any case) that is not a package marker `__init__.py` (any case).
pub fn is_user_script(is_file: bool, extension: Option<&str>, file_name: Option<&str>) -> (r: bool)
    ensures
        r == (is_file && (extension matches Some(e) && eq_ignore_ascii_case(e@, "py"@)) && !(
        file_name matches Some(n) && eq_ignore_ascii_case(n@, "__init__.py"@))),
{
    let is_python = match extension {
        Some(e) => eq_ignore_ascii_case_exec(e, "py"),
        None => false,
    };
    let is_marker = match file_name {
        Some(n) => eq_ignore_ascii_case_exec(n, "__init__.py"),
        None => false,
    };
    is_file && is_python && !is_marker
}

} // verus!
