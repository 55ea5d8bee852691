//! Importing the user's Python scripts as launcher actions: one action per
//! selected script that is not imported yet, each under an id of its own,
//! in the "Scripts utilisateur" category; the scanned scripts are proposed
//! in case-insensitive order.

use vstd::prelude::*;

use crate::egui_app::{portable_path, slug_char, trim_dashes, user_script_command, user_script_id};
use crate::launcher_cards::{Category, Command};
use crate::text::{
    decimal, lemma_decimal_injective, lemma_seq_lt_asymmetric,
    lemma_seq_lt_transitive, opt_chars, push_char, push_decimal, seq_lt, str_eq, str_lowercase,
    str_lt, strings_view, to_lowercase,
};

verus! {

/// A script the user selected, by its path relative to the scripts
/// directory.
#[derive(Clone, Debug, PartialEq, Eq)]
pub struct UserScript {
    /// The relative path, as displayed.
    pub relative_path: String,
    /// The relative path without its extension.
    pub without_extension: String,
    /// The file name without its extension, when the path has one.
    pub file_stem: Option<String>,
}

/// A script proposed for import, and whether the user selected it.
#[derive(Clone, Debug, PartialEq, Eq)]
pub struct UserScriptProposal {
    pub relative_path: String,
    pub selected: bool,
}

/// The action command of a script (see `user_script_command`).
pub open spec fn script_command_spec(relative_path: Seq<char>) -> Seq<char> {
    "@python \""@ + portable_path(relative_path) + "\""@
}

/// The base id of a script's action (see `user_script_id`).
pub open spec fn script_id_spec(without_extension: Seq<char>) -> Seq<char> {
    "user-script-"@ + trim_dashes(without_extension.map_values(|c: char| slug_char(c)))
}

pub open spec fn name_char(c: char) -> char {
    if c == '_' || c == '-' {
        ' '
    } else {
        c
    }
}

/// The action's name: the file stem with `_` and `-` read as spaces, else
/// the relative path.
pub open spec fn script_name_spec(script: UserScript) -> Seq<char> {
    match script.file_stem {
        Some(s) => s@.map_values(|c: char| name_char(c)),
        None => script.relative_path@,
    }
}

/// The ids of a list of commands.
pub open spec fn ids_of(s: Seq<Command>) -> Seq<Seq<char>> {
    s.map_values(|c: Command| c.id@)
}

/// `base-k`.
pub open spec fn suffixed(base: Seq<char>, k: nat) -> Seq<char> {
    base + "-"@ + decimal(k)
}

/// `k` is the first suffix from 2 on whose id is free.
pub open spec fn is_first_free_suffix(used: Seq<Seq<char>>, base: Seq<char>, k: nat) -> bool {
    &&& k >= 2
    &&& !used.contains(suffixed(base, k))
    &&& forall|k2: nat| 2 <= k2 < k ==> used.contains(#[trigger] suffixed(base, k2))
}

/// The id a new action takes: its base id when free, else the base with
/// the first free suffix among `-2`, `-3`, ….
pub open spec fn fresh_id(used: Seq<Seq<char>>, base: Seq<char>) -> Seq<char> {
    if !used.contains(base) {
        base
    } else {
        suffixed(base, choose|k: nat| is_first_free_suffix(used, base, k))
    }
}

/// Some command runs `text`.
pub open spec fn has_command_line(s: Seq<Command>, text: Seq<char>) -> bool {
    exists|j: int| 0 <= j < s.len() && (#[trigger] s[j]).command@ == text
}

/// The actions that importing `scripts` into `initial` adds, in order: for
/// each script whose command no initial command runs, its index and the
/// fresh id it takes among the ids in use (those of `initial` and of the
/// actions added before it).
pub open spec fn injection(initial: Seq<Command>, scripts: Seq<UserScript>) -> Seq<(int, Seq<char>)>
    decreases scripts.len(),
{
    if scripts.len() == 0 {
        Seq::empty()
    } else {
        let prev = injection(initial, scripts.drop_last());
        let i = scripts.len() - 1;
        if has_command_line(initial, script_command_spec(scripts[i].relative_path@)) {
            prev
        } else {
            let used = ids_of(initial) + prev.map_values(|p: (int, Seq<char>)| p.1);
            prev.push((i, fresh_id(used, script_id_spec(scripts[i].without_extension@))))
        }
    }
}

/// The action imported from `script` under `id`.
pub open spec fn imported_action(c: Command, script: UserScript, id: Seq<char>) -> bool {
    &&& c.id@ == id
    &&& c.name@ == script_name_spec(script)
    &&& c.command@ == script_command_spec(script.relative_path@)
    &&& c.category@ == "user-scripts"@
    &&& c.icon@ == "🐍"@
    &&& !c.is_favorite
    &&& c.shortcut is None
    &&& c.variant_group is None
    &&& c.group_name is None
    &&& c.variant_label is None
    &&& !c.machine_specific
    &&& opt_chars(c.info) == Some("Importé depuis "@ + script.relative_path@)
}

/// The category of imported scripts.
pub open spec fn scripts_category(c: Category) -> bool {
    &&& c.id@ == "user-scripts"@
    &&& c.name@ == "Scripts utilisateur"@
    &&& c.icon@ == "🐍"@
}

/// If every suffix from 2 up to `m` (excluded) is in use, there are at
/// least that many ids in use.
proof fn lemma_suffixes_bounded(used: Seq<Seq<char>>, base: Seq<char>, m: nat)
    requires
        forall|k: nat| 2 <= k < m ==> used.contains(#[trigger] suffixed(base, k)),
    ensures
        m <= used.len() + 2,
{
    if m > used.len() + 2 {
        let x = vstd::set_lib::set_int_range(2, m as int);
        let f = |k: int| suffixed(base, k as nat);
        vstd::set_lib::lemma_int_range(2, m as int);
        assert forall|a: int, b: int|
            x.contains(a) && x.contains(b) && #[trigger] f(a) == #[trigger] f(b) implies a == b by {
            let p = base + "-"@;
            assert(f(a).subrange(p.len() as int, f(a).len() as int) =~= decimal(a as nat));
            assert(f(b).subrange(p.len() as int, f(b).len() as int) =~= decimal(b as nat));
            lemma_decimal_injective(a as nat, b as nat);
        }
        let y = x.map(f);
        vstd::set_lib::lemma_map_size(x, y, f);
        assert forall|e: Seq<char>| y.contains(e) implies used.to_set().contains(e) by {
            let a = choose|a: int| x.contains(a) && e == f(a);
            assert(used.contains(suffixed(base, a as nat)));
        }
        used.lemma_cardinality_of_set();
        vstd::set_lib::lemma_len_subset(y, used.to_set());
    }
}

fn id_in_use(commands: &Vec<Command>, id: &str) -> (r: bool)
    ensures
        r == ids_of(commands@).contains(id@),
{
    let mut j: usize = 0;
    while j < commands.len()
        invariant
            j <= commands.len(),
            forall|x: int| 0 <= x < j ==> (#[trigger] commands@[x]).id@ != id@,
        decreases commands.len() - j,
    {
        if str_eq(commands[j].id.as_str(), id) {
            assert(ids_of(commands@)[j as int] == id@);
            return true;
        }
        j += 1;
    }
    assert forall|x: int| 0 <= x < ids_of(commands@).len() implies ids_of(commands@)[x] != id@ by {
        assert(commands@[x].id@ != id@);
    }
    false
}

/// The id an action based on `base` takes among `commands` (see
/// [`fresh_id`]).
fn unique_id(commands: &Vec<Command>, base: String) -> (r: String)
    requires
        commands.len() + 3 <= usize::MAX,
    ensures
        r@ == fresh_id(ids_of(commands@), base@),
{
    let ghost used = ids_of(commands@);
    if !id_in_use(commands, base.as_str()) {
        return base;
    }
    let mut suffix: usize = 2;
    loop
        invariant
            2 <= suffix <= commands.len() + 2,
            commands.len() + 3 <= usize::MAX,
            used == ids_of(commands@),
            used.contains(base@),
            forall|k2: nat| 2 <= k2 < suffix ==> used.contains(#[trigger] suffixed(base@, k2)),
        decreases commands.len() + 2 - suffix,
    {
        let mut candidate = base.clone();
        push_char(&mut candidate, '-');
        push_decimal(&mut candidate, suffix as u64);
        proof {
            reveal_strlit("-");
        }
        assert(candidate@ =~= suffixed(base@, suffix as nat));
        if !id_in_use(commands, candidate.as_str()) {
            proof {
                let k = suffix as nat;
                assert(is_first_free_suffix(used, base@, k));
                let c = choose|c: nat| is_first_free_suffix(used, base@, c);
                if c < k {
                    assert(used.contains(suffixed(base@, c)));
                } else if c > k {
                    assert(used.contains(suffixed(base@, k)));
                }
                assert(c == k);
            }
            return candidate;
        }
        proof {
            assert forall|k2: nat| 2 <= k2 < suffix + 1 implies used.contains(
                #[trigger] suffixed(base@, k2),
            ) by {
                if k2 == suffix {
                    assert(suffixed(base@, k2) == candidate@);
                }
            }
            lemma_suffixes_bounded(used, base@, (suffix + 1) as nat);
        }
        suffix += 1;
    }
}

fn has_command_line_before(commands: &Vec<Command>, n: usize, text: &str) -> (r: bool)
    requires
        n <= commands.len(),
    ensures
        r == has_command_line(commands@.subrange(0, n as int), text@),
{
    let ghost s = commands@.subrange(0, n as int);
    let mut j: usize = 0;
    while j < n
        invariant
            j <= n <= commands.len(),
            s == commands@.subrange(0, n as int),
            forall|x: int| 0 <= x < j ==> (#[trigger] s[x]).command@ != text@,
        decreases n - j,
    {
        if str_eq(commands[j].command.as_str(), text) {
            assert(s[j as int].command@ == text@);
            return true;
        }
        j += 1;
    }
    false
}

fn script_name(script: &UserScript) -> (r: String)
    ensures
        r@ == script_name_spec(*script),
{
    match &script.file_stem {
        Some(stem) => {
            let v = crate::text::chars_of(stem.as_str());
            let mut r = String::new();
            let mut i: usize = 0;
            while i < v.len()
                invariant
                    i <= v.len(),
                    v@ == stem@,
                    r@ == v@.take(i as int).map_values(|c: char| name_char(c)),
                decreases v.len() - i,
            {
                let c = v[i];
                let d = if c == '_' || c == '-' {
                    ' '
                } else {
                    c
                };
                push_char(&mut r, d);
                assert(v@.take(i + 1).map_values(|c: char| name_char(c)) =~= v@.take(
                    i as int,
                ).map_values(|c: char| name_char(c)).push(d));
                i += 1;
            }
            assert(v@.take(v@.len() as int) =~= v@);
            r
        },
        None => script.relative_path.clone(),
    }
}

fn import_action(script: &UserScript, id: String) -> (c: Command)
    ensures
        imported_action(c, *script, id@),
{
    let mut info = String::from_str("Importé depuis ");
    info.append(script.relative_path.as_str());
    Command {
        id,
        name: script_name(script),
        command: user_script_command(script.relative_path.as_str()),
        category: String::from_str("user-scripts"),
        icon: String::from_str("🐍"),
        is_favorite: false,
        shortcut: None,
        variant_group: None,
        group_name: None,
        variant_label: None,
        machine_specific: false,
        info: Some(info),
    }
}

fn has_scripts_category(categories: &Vec<Category>) -> (r: bool)
    ensures
        r == exists|j: int| 0 <= j < categories.len() && (#[trigger] categories@[j]).id@ == "user-scripts"@,
{
    let mut j: usize = 0;
    while j < categories.len()
        invariant
            j <= categories.len(),
            forall|x: int| 0 <= x < j ==> (#[trigger] categories@[x]).id@ != "user-scripts"@,
        decreases categories.len() - j,
    {
        if str_eq(categories[j].id.as_str(), "user-scripts") {
            return true;
        }
        j += 1;
    }
    false
}

/// Imports the selected scripts as actions (see [`injection`]): each
/// script whose command no existing action runs becomes an action under a
/// fresh id; when any was added, the "Scripts utilisateur" category is
/// created unless a category with its id exists. Returns how many actions
/// were added.
pub fn inject_user_scripts(
    commands: &mut Vec<Command>,
    categories: &mut Vec<Category>,
    scripts: &Vec<UserScript>,
) -> (added: usize)
    requires
        old(commands).len() + scripts.len() + 3 <= usize::MAX,
    ensures
        added == injection(old(commands)@, scripts@).len(),
        final(commands)@.len() == old(commands)@.len() + added,
        final(commands)@.subrange(0, old(commands)@.len() as int) == old(commands)@,
        forall|t: int|
            0 <= t < added ==> imported_action(
                #[trigger] final(commands)@[old(commands)@.len() + t],
                scripts@[injection(old(commands)@, scripts@)[t].0],
                injection(old(commands)@, scripts@)[t].1,
            ),
        added > 0 && !(exists|j: int|
            0 <= j < old(categories)@.len() && (#[trigger] old(categories)@[j]).id@
                == "user-scripts"@) ==> final(categories)@.len() == old(categories)@.len() + 1
            && final(categories)@.drop_last() == old(categories)@ && scripts_category(
            final(categories)@.last(),
        ),
        !(added > 0 && !(exists|j: int|
            0 <= j < old(categories)@.len() && (#[trigger] old(categories)@[j]).id@
                == "user-scripts"@)) ==> final(categories)@ == old(categories)@,
{
    let ghost initial = commands@;
    let n0 = commands.len();
    let mut added: usize = 0;
    let mut k: usize = 0;
    assert(scripts@.take(0) =~= Seq::<UserScript>::empty());
    while k < scripts.len()
        invariant
            k <= scripts.len(),
            n0 == initial.len(),
            n0 + scripts.len() + 3 <= usize::MAX,
            added == injection(initial, scripts@.take(k as int)).len(),
            added <= k,
            commands@.len() == n0 + added,
            commands@.subrange(0, n0 as int) == initial,
            ids_of(commands@) == ids_of(initial) + injection(initial, scripts@.take(k as int)).map_values(
                |p: (int, Seq<char>)| p.1,
            ),
            forall|t: int|
                0 <= t < added ==> {
                    let p = #[trigger] injection(initial, scripts@.take(k as int))[t];
                    0 <= p.0 < k && imported_action(commands@[n0 + t], scripts@[p.0], p.1)
                },
        decreases scripts.len() - k,
    {
        let ghost before = commands@;
        let ghost inj = injection(initial, scripts@.take(k as int));
        assert(scripts@.take(k + 1).drop_last() =~= scripts@.take(k as int));
        assert(scripts@.take(k + 1)[k as int] == scripts@[k as int]);
        let script = &scripts[k];
        let text = user_script_command(script.relative_path.as_str());
        if !has_command_line_before(commands, n0, text.as_str()) {
            let base = user_script_id(script.without_extension.as_str());
            let id = unique_id(commands, base);
            let action = import_action(script, id);
            commands.push(action);
            proof {
                let inj2 = injection(initial, scripts@.take(k + 1));
                assert(inj2 == inj.push((k as int, id@)));
                assert(commands@.subrange(0, n0 as int) =~= before.subrange(0, n0 as int));
                assert(ids_of(commands@) =~= ids_of(before).push(id@));
                assert(inj2.map_values(|p: (int, Seq<char>)| p.1) =~= inj.map_values(
                    |p: (int, Seq<char>)| p.1,
                ).push(id@));
            }
            added += 1;
        } else {
            assert(injection(initial, scripts@.take(k + 1)) == inj);
        }
        k += 1;
    }
    assert(scripts@.take(scripts.len() as int) =~= scripts@);
    if added > 0 && !has_scripts_category(categories) {
        categories.push(
            Category {
                id: String::from_str("user-scripts"),
                name: String::from_str("Scripts utilisateur"),
                icon: String::from_str("🐍"),
            },
        );
        assert(categories@.drop_last() =~= old(categories)@);
    }
    added
}

/// The proposals left after an import: those whose command no action runs
/// yet.
pub open spec fn unimported(proposals: Seq<UserScriptProposal>, commands: Seq<Command>) -> Seq<
    UserScriptProposal,
>
    decreases proposals.len(),
{
    if proposals.len() == 0 {
        Seq::empty()
    } else {
        let rest = unimported(proposals.drop_last(), commands);
        if has_command_line(commands, script_command_spec(proposals.last().relative_path@)) {
            rest
        } else {
            rest.push(proposals.last())
        }
    }
}

/// Drops the proposals whose script is now an action (see [`unimported`]).
pub fn retain_unimported(proposals: Vec<UserScriptProposal>, commands: &Vec<Command>) -> (r: Vec<
    UserScriptProposal,
>)
    ensures
        r@ == unimported(proposals@, commands@),
{
    let mut r: Vec<UserScriptProposal> = Vec::new();
    let mut i: usize = 0;
    assert(proposals@.take(0) =~= Seq::<UserScriptProposal>::empty());
    while i < proposals.len()
        invariant
            i <= proposals.len(),
            r@ == unimported(proposals@.take(i as int), commands@),
        decreases proposals.len() - i,
    {
        assert(proposals@.take(i + 1).drop_last() =~= proposals@.take(i as int));
        let text = user_script_command(proposals[i].relative_path.as_str());
        if !has_command_line_before(commands, commands.len(), text.as_str()) {
            assert(commands@.subrange(0, commands@.len() as int) =~= commands@);
            let kept = UserScriptProposal {
                relative_path: proposals[i].relative_path.clone(),
                selected: proposals[i].selected,
            };
            assert(kept == proposals@.take(i + 1).last());
            r.push(kept);
        } else {
            assert(commands@.subrange(0, commands@.len() as int) =~= commands@);
        }
        i += 1;
    }
    assert(proposals@.take(proposals.len() as int) =~= proposals@);
    r
}

/// The status after an import of `added` actions.
pub fn import_status(added: usize) -> (r: String)
    ensures
        r@ == (if added == 0 {
            "Aucune nouvelle action à ajouter."@
        } else {
            decimal(added as nat) + " action(s) ajoutée(s)."@
        }),
{
    if added == 0 {
        String::from_str("Aucune nouvelle action à ajouter.")
    } else {
        let mut r = String::new();
        push_decimal(&mut r, added as u64);
        r.append(" action(s) ajoutée(s).");
        r
    }
}

// ---------------------------------------------------------------------------
// Laws
// ---------------------------------------------------------------------------

proof fn lemma_free_suffix_from(used: Seq<Seq<char>>, base: Seq<char>, m: nat)
    requires
        m >= 2,
        forall|k: nat| 2 <= k < m ==> used.contains(#[trigger] suffixed(base, k)),
    ensures
        exists|k: nat| is_first_free_suffix(used, base, k),
    decreases used.len() + 3 - m,
{
    lemma_suffixes_bounded(used, base, m);
    if !used.contains(suffixed(base, m)) {
        assert(is_first_free_suffix(used, base, m));
    } else {
        assert forall|k: nat| 2 <= k < m + 1 implies used.contains(#[trigger] suffixed(base, k)) by {
            if k == m {
            }
        }
        lemma_suffixes_bounded(used, base, m + 1);
        lemma_free_suffix_from(used, base, m + 1);
    }
}

/// A fresh id is never one in use.
pub proof fn law_fresh_id_is_free(used: Seq<Seq<char>>, base: Seq<char>)
    ensures
        !used.contains(fresh_id(used, base)),
{
    if used.contains(base) {
        lemma_free_suffix_from(used, base, 2);
    }
}

/// The actions an import adds take ids that no existing action has, and no
/// two of them share an id.
pub proof fn law_imported_ids_are_unique(initial: Seq<Command>, scripts: Seq<UserScript>)
    ensures
        forall|t: int|
            0 <= t < injection(initial, scripts).len() ==> !ids_of(initial).contains(
                (#[trigger] injection(initial, scripts)[t]).1,
            ),
        forall|t1: int, t2: int|
            0 <= t1 < t2 < injection(initial, scripts).len() ==> (#[trigger] injection(
                initial,
                scripts,
            )[t1]).1 != (#[trigger] injection(initial, scripts)[t2]).1,
    decreases scripts.len(),
{
    if scripts.len() > 0 {
        law_imported_ids_are_unique(initial, scripts.drop_last());
        let prev = injection(initial, scripts.drop_last());
        let i = scripts.len() - 1;
        if !has_command_line(initial, script_command_spec(scripts[i].relative_path@)) {
            let ids = prev.map_values(|p: (int, Seq<char>)| p.1);
            let used = ids_of(initial) + ids;
            let id = fresh_id(used, script_id_spec(scripts[i].without_extension@));
            law_fresh_id_is_free(used, script_id_spec(scripts[i].without_extension@));
            let cur = injection(initial, scripts);
            assert(cur == prev.push((i, id)));
            assert forall|t: int| 0 <= t < cur.len() implies !ids_of(initial).contains(
                (#[trigger] cur[t]).1,
            ) by {
                if t == prev.len() {
                    if ids_of(initial).contains(id) {
                        let x = choose|x: int| 0 <= x < ids_of(initial).len() && ids_of(initial)[x] == id;
                        assert(used[x] == id);
                    }
                } else {
                    assert(cur[t] == prev[t]);
                }
            }
            assert forall|t1: int, t2: int| 0 <= t1 < t2 < cur.len() implies (#[trigger] cur[t1]).1
                != (#[trigger] cur[t2]).1 by {
                if t2 == prev.len() {
                    assert(cur[t1] == prev[t1]);
                    assert(used[ids_of(initial).len() + t1] == prev[t1].1);
                } else {
                    assert(cur[t1] == prev[t1]);
                    assert(cur[t2] == prev[t2]);
                }
            }
        }
    }
}

/// An import never adds an action whose command an existing action
/// already runs, and it takes the scripts in order.
pub proof fn law_imports_skip_existing_commands(initial: Seq<Command>, scripts: Seq<UserScript>)
    ensures
        forall|t: int|
            0 <= t < injection(initial, scripts).len() ==> {
                let p = #[trigger] injection(initial, scripts)[t];
                0 <= p.0 < scripts.len() && !has_command_line(
                    initial,
                    script_command_spec(scripts[p.0].relative_path@),
                )
            },
        forall|t1: int, t2: int|
            0 <= t1 < t2 < injection(initial, scripts).len() ==> (#[trigger] injection(
                initial,
                scripts,
            )[t1]).0 < (#[trigger] injection(initial, scripts)[t2]).0,
    decreases scripts.len(),
{
    if scripts.len() > 0 {
        let short = scripts.drop_last();
        law_imports_skip_existing_commands(initial, short);
        let prev = injection(initial, short);
        let cur = injection(initial, scripts);
        assert forall|t: int| 0 <= t < prev.len() implies {
            let p = #[trigger] prev[t];
            0 <= p.0 < scripts.len() && !has_command_line(
                initial,
                script_command_spec(scripts[p.0].relative_path@),
            )
        } by {
            assert(short[prev[t].0] == scripts[prev[t].0]);
        }
    }
}

/// A proposal is already an action: some action runs its command.
pub fn already_configured(proposal: &UserScriptProposal, commands: &Vec<Command>) -> (r: bool)
    ensures
        r == has_command_line(commands@, script_command_spec(proposal.relative_path@)),
{
    let text = user_script_command(proposal.relative_path.as_str());
    assert(commands@.subrange(0, commands@.len() as int) =~= commands@);
    has_command_line_before(commands, commands.len(), text.as_str())
}

/// How many proposals an import would add: the selected ones that are not
/// already actions.
pub open spec fn importable_count(proposals: Seq<UserScriptProposal>, commands: Seq<Command>) -> nat
    decreases proposals.len(),
{
    if proposals.len() == 0 {
        0
    } else {
        importable_count(proposals.drop_last(), commands) + if proposals.last().selected
            && !has_command_line(commands, script_command_spec(proposals.last().relative_path@)) {
            1nat
        } else {
            0nat
        }
    }
}

/// The count on the import button (see [`importable_count`]); the button is
/// enabled when it is not zero.
pub fn selected_script_count(proposals: &Vec<UserScriptProposal>, commands: &Vec<Command>) -> (r: usize)
    ensures
        r == importable_count(proposals@, commands@),
{
    let mut count: usize = 0;
    let mut i: usize = 0;
    while i < proposals.len()
        invariant
            i <= proposals.len(),
            count == importable_count(proposals@.take(i as int), commands@),
            count <= i,
        decreases proposals.len() - i,
    {
        assert(proposals@.take(i + 1).drop_last() =~= proposals@.take(i as int));
        if proposals[i].selected && !already_configured(&proposals[i], commands) {
            count = count + 1;
        }
        i = i + 1;
    }
    assert(proposals@.take(proposals.len() as int) =~= proposals@);
    count
}

// ---------------------------------------------------------------------------
// The order of the proposals
// ---------------------------------------------------------------------------

/// Where a path whose lowercase form is `k` goes among `t`: before the
/// first one whose lowercase form sorts after it, so that equal forms keep
/// their order.
pub open spec fn lower_insert_pos(t: Seq<Seq<char>>, k: Seq<char>, i: int) -> int
    decreases t.len() - i,
{
    if i < 0 || i >= t.len() || seq_lt(k, str_lowercase(t[i])) {
        i
    } else {
        lower_insert_pos(t, k, i + 1)
    }
}

/// The paths sorted by their lowercase form, a stable sort: each path in
/// turn goes after every earlier one whose lowercase form does not sort
/// after its own.
pub open spec fn sort_by_lowercase(s: Seq<Seq<char>>) -> Seq<Seq<char>>
    decreases s.len(),
{
    if s.len() == 0 {
        Seq::empty()
    } else {
        let t = sort_by_lowercase(s.drop_last());
        t.insert(lower_insert_pos(t, str_lowercase(s.last()), 0), s.last())
    }
}

proof fn lemma_lower_insert_pos(t: Seq<Seq<char>>, k: Seq<char>, i: int)
    requires
        0 <= i <= t.len(),
        forall|q: int| 0 <= q < i ==> !seq_lt(k, str_lowercase(#[trigger] t[q])),
    ensures
        i <= lower_insert_pos(t, k, i) <= t.len(),
        forall|q: int| 0 <= q < lower_insert_pos(t, k, i) ==> !seq_lt(k, str_lowercase(#[trigger] t[q])),
        lower_insert_pos(t, k, i) < t.len() ==> seq_lt(k, str_lowercase(t[lower_insert_pos(t, k, i)])),
    decreases t.len() - i,
{
    if i < t.len() && !seq_lt(k, str_lowercase(t[i])) {
        lemma_lower_insert_pos(t, k, i + 1);
    }
}

/// Sorts the scanned scripts' paths case-insensitively (see
/// [`sort_by_lowercase`]).
pub fn sort_scripts(paths: Vec<String>) -> (r: Vec<String>)
    ensures
        strings_view(r@) == sort_by_lowercase(strings_view(paths@)),
{
    let ghost pv = strings_view(paths@);
    let mut out: Vec<String> = Vec::new();
    let mut keys: Vec<String> = Vec::new();
    let mut paths = paths;
    let n = paths.len();
    let mut i: usize = 0;
    assert(pv.take(0) =~= Seq::<Seq<char>>::empty());
    assert(pv.skip(0) =~= pv);
    while i < n
        invariant
            i <= n,
            n == pv.len(),
            strings_view(paths@) == pv.skip(i as int),
            strings_view(out@) == sort_by_lowercase(pv.take(i as int)),
            keys@.len() == out@.len(),
            forall|q: int| 0 <= q < keys@.len() ==> (#[trigger] keys@[q])@ == str_lowercase(out@[q]@),
        decreases n - i,
    {
        assert(pv.take(i + 1).drop_last() =~= pv.take(i as int));
        assert(strings_view(paths@).len() == paths@.len());
        assert(paths@.len() == n - i);
        assert(strings_view(paths@)[0] == pv[i as int]);
        let ghost pb = paths@;
        let p = paths.remove(0);
        assert(paths@ =~= pb.drop_first());
        assert forall|q: int| 0 <= q < paths@.len() implies #[trigger] strings_view(paths@)[q] == pv.skip(
            i + 1,
        )[q] by {
            assert(strings_view(paths@)[q] == paths@[q]@);
            assert(paths@[q] == pb[q + 1]);
            assert(strings_view(pb)[q + 1] == pv.skip(i as int)[q + 1]);
        }
        assert(strings_view(paths@) =~= pv.skip(i + 1));
        let k = to_lowercase(p.as_str());
        let ghost t = strings_view(out@);
        let mut pos: usize = 0;
        proof {
            lemma_lower_insert_pos(t, k@, 0);
        }
        while pos < keys.len() && !str_lt(k.as_str(), keys[pos].as_str())
            invariant
                pos <= keys@.len(),
                keys@.len() == out@.len(),
                t == strings_view(out@),
                forall|q: int| 0 <= q < keys@.len() ==> (#[trigger] keys@[q])@ == str_lowercase(out@[q]@),
                lower_insert_pos(t, k@, 0) == lower_insert_pos(t, k@, pos as int),
            decreases keys@.len() - pos,
        {
            assert(keys@[pos as int]@ == str_lowercase(t[pos as int]));
            pos = pos + 1;
        }
        proof {
            if pos < keys.len() {
                assert(keys@[pos as int]@ == str_lowercase(t[pos as int]));
            }
            assert(lower_insert_pos(t, k@, pos as int) == pos);
        }
        let ghost pg = p@;
        let ghost kg = k@;
        let ghost kb = keys@;
        let ghost ob = out@;
        out.insert(pos, p);
        keys.insert(pos, k);
        assert(strings_view(out@) =~= t.insert(pos as int, pg));
        assert(pv.take(i + 1).last() == pg);
        assert forall|q: int| 0 <= q < keys@.len() implies (#[trigger] keys@[q])@ == str_lowercase(out@[q]@) by {
            if q < pos {
                assert(keys@[q] == kb[q] && out@[q] == ob[q]);
            } else if q == pos {
                assert(kg == str_lowercase(pg));
            } else {
                assert(keys@[q] == kb[q - 1] && out@[q] == ob[q - 1]);
            }
        }
        i = i + 1;
    }
    assert(pv.take(n as int) =~= pv);
    out
}

/// The proposals come ordered by their lowercase form, none lost or added:
/// no path sorts, case-insensitively, before one listed ahead of it.
pub proof fn law_scripts_sorted_case_insensitively(s: Seq<Seq<char>>)
    ensures
        sort_by_lowercase(s).len() == s.len(),
        forall|i: int, j: int|
            0 <= i < j < sort_by_lowercase(s).len() ==> !seq_lt(
                str_lowercase(#[trigger] sort_by_lowercase(s)[j]),
                str_lowercase(#[trigger] sort_by_lowercase(s)[i]),
            ),
    decreases s.len(),
{
    if s.len() > 0 {
        law_scripts_sorted_case_insensitively(s.drop_last());
        let t = sort_by_lowercase(s.drop_last());
        let x = s.last();
        let k = str_lowercase(x);
        lemma_lower_insert_pos(t, k, 0);
        let p = lower_insert_pos(t, k, 0);
        let r = t.insert(p, x);
        assert(r == sort_by_lowercase(s));
        assert forall|i: int, j: int| 0 <= i < j < r.len() implies !seq_lt(
            str_lowercase(#[trigger] r[j]),
            str_lowercase(#[trigger] r[i]),
        ) by {
            if j < p {
                assert(r[i] == t[i] && r[j] == t[j]);
            } else if j == p {
                assert(r[i] == t[i] && r[j] == x);
            } else if i == p {
                assert(r[i] == x && r[j] == t[j - 1]);
                let kp = str_lowercase(t[p]);
                let kj = str_lowercase(t[j - 1]);
                lemma_seq_lt_asymmetric(k, kp);
                lemma_seq_lt_transitive(kj, k, kp);
            } else if i < p {
                assert(r[i] == t[i] && r[j] == t[j - 1]);
            } else {
                assert(r[i] == t[i - 1] && r[j] == t[j - 1]);
            }
        }
    }
}

} // verus!
