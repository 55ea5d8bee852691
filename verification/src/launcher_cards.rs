//! How the launcher lays its commands out: one card per command, the
//! variants of a group consolidated into one card that offers all of them,
//! the favourites filter, each command resolved for this machine, and the
//! preferences' one row per application.

use vstd::prelude::*;

use crate::text::{
    chars_of, decimal, opt_chars, push_decimal, str_eq, string_of_range, trim, trim_bounds,
};

verus! {

// ---------------------------------------------------------------------------
// Commands and their resolution
// ---------------------------------------------------------------------------

/// A launcher command as the configuration stores it.
#[derive(Debug, PartialEq, Eq)]
pub struct Command {
    pub id: String,
    pub name: String,
    pub command: String,
    pub category: String,
    pub icon: String,
    pub is_favorite: bool,
    /// A keyboard shortcut, if one is set.
    pub shortcut: Option<String>,
    /// Commands sharing a variant group are one application.
    pub variant_group: Option<String>,
    /// The application's title, for a variant group.
    pub group_name: Option<String>,
    /// The variant's label in the group's selector.
    pub variant_label: Option<String>,
    /// Its command line depends on the machine.
    pub machine_specific: bool,
    /// A free-text note shown in the card's badge.
    pub info: Option<String>,
}

fn copy_opt(o: &Option<String>) -> (r: Option<String>)
    ensures
        r == *o,
{
    match o {
        Some(s) => Some(s.clone()),
        None => None,
    }
}

impl Clone for Command {
    fn clone(&self) -> (r: Self)
        ensures
            r == *self,
    {
        Command {
            id: self.id.clone(),
            name: self.name.clone(),
            command: self.command.clone(),
            category: self.category.clone(),
            icon: self.icon.clone(),
            is_favorite: self.is_favorite,
            shortcut: copy_opt(&self.shortcut),
            variant_group: copy_opt(&self.variant_group),
            group_name: copy_opt(&self.group_name),
            variant_label: copy_opt(&self.variant_label),
            machine_specific: self.machine_specific,
            info: copy_opt(&self.info),
        }
    }
}

/// What a command resolves to on this machine: its command line, or, for
/// a machine-specific command, no entry in the machine's mapping.
#[derive(Clone, Debug, PartialEq, Eq)]
pub enum CommandResolution {
    Resolved(String),
    Unconfigured { command_id: String, machine_id: String },
}

/// The diagnostic of a command that the machine's mapping lacks.
pub open spec fn unconfigured_message(
    machine_id: Seq<char>,
    command_id: Seq<char>,
    mapping_path: Seq<char>,
) -> Seq<char> {
    "Non configuré pour la machine « "@ + machine_id + " » — ajoutez '"@ + command_id
        + "' dans "@ + mapping_path
}

/// A card's resolution fields: configured or not, the diagnostic when not,
/// and the command line to run (empty when not configured).
pub open spec fn resolution_spec(r: CommandResolution, mapping_path: Seq<char>) -> (
    bool,
    Option<Seq<char>>,
    Seq<char>,
) {
    match r {
        CommandResolution::Resolved(c) => (true, None, c@),
        CommandResolution::Unconfigured { command_id, machine_id } => (
            false,
            Some(unconfigured_message(machine_id@, command_id@, mapping_path)),
            Seq::empty(),
        ),
    }
}

/// The resolution fields of a card (see [`resolution_spec`]); the mapping
/// file's path is named in the diagnostic.
pub fn resolution_fields(resolution: &CommandResolution, mapping_path: &str) -> (r: (
    bool,
    Option<String>,
    String,
))
    ensures
        (r.0, opt_chars(r.1), r.2@) == resolution_spec(*resolution, mapping_path@),
{
    match resolution {
        CommandResolution::Resolved(c) => (true, None, c.clone()),
        CommandResolution::Unconfigured { command_id, machine_id } => {
            let mut m = String::from_str("Non configuré pour la machine « ");
            m.append(machine_id.as_str());
            m.append(" » — ajoutez '");
            m.append(command_id.as_str());
            m.append("' dans ");
            m.append(mapping_path);
            (false, Some(m), String::new())
        },
    }
}

// ---------------------------------------------------------------------------
// Partitioning
// ---------------------------------------------------------------------------

/// The bucket of a command: its variant group, or, without one, the
/// command alone (keyed by its id).
pub open spec fn key_of(c: Command) -> (bool, Seq<char>) {
    match c.variant_group {
        Some(g) => (true, g@),
        None => (false, c.id@),
    }
}

fn same_key(a: &Command, b: &Command) -> (r: bool)
    ensures
        r == (key_of(*a) == key_of(*b)),
{
    match (&a.variant_group, &b.variant_group) {
        (Some(x), Some(y)) => str_eq(x.as_str(), y.as_str()),
        (None, None) => str_eq(a.id.as_str(), b.id.as_str()),
        _ => false,
    }
}

/// Whether a command passes the filter: every command, or only favourites.
pub open spec fn visible(c: Command, favorites_only: bool) -> bool {
    !favorites_only || c.is_favorite
}

/// No earlier command shares the bucket of command `i`.
pub open spec fn first_of_key(s: Seq<Command>, i: int) -> bool {
    forall|j: int| 0 <= j < i ==> key_of(#[trigger] s[j]) != key_of(s[i])
}

/// Some command of bucket `k` passes the filter.
pub open spec fn key_shown(s: Seq<Command>, k: (bool, Seq<char>), favorites_only: bool) -> bool {
    exists|j: int| 0 <= j < s.len() && key_of(#[trigger] s[j]) == k && visible(s[j], favorites_only)
}

/// The indices below `n` of the commands of bucket `k`, in order.
pub open spec fn member_indices(s: Seq<Command>, k: (bool, Seq<char>), n: int) -> Seq<int>
    decreases n,
{
    if n <= 0 {
        Seq::empty()
    } else {
        let prev = member_indices(s, k, n - 1);
        if key_of(s[n - 1]) == k {
            prev.push(n - 1)
        } else {
            prev
        }
    }
}

/// The indices below `n` of the commands that open a card: the first
/// command of each bucket, in order, when the bucket passes the filter.
pub open spec fn card_indices(s: Seq<Command>, favorites_only: bool, n: int) -> Seq<int>
    decreases n,
{
    if n <= 0 {
        Seq::empty()
    } else {
        let prev = card_indices(s, favorites_only, n - 1);
        if first_of_key(s, n - 1) && key_shown(s, key_of(s[n - 1]), favorites_only) {
            prev.push(n - 1)
        } else {
            prev
        }
    }
}

/// The title of a variant group: its group name, else its first command's
/// name.
pub open spec fn group_title(c: Command) -> Seq<char> {
    match c.group_name {
        Some(g) => g@,
        None => c.name@,
    }
}

/// The label of a variant: its variant label, else its name.
pub open spec fn variant_label_of(c: Command) -> Seq<char> {
    match c.variant_label {
        Some(l) => l@,
        None => c.name@,
    }
}

// ---------------------------------------------------------------------------
// Cards
// ---------------------------------------------------------------------------

/// One variant of a grouped card.
#[derive(Clone, Debug, PartialEq)]
pub struct VariantCardData {
    pub command_id: String,
    pub label: String,
    pub is_favorite: bool,
    pub is_configured: bool,
    pub disabled_message: Option<String>,
    pub info: Option<String>,
    pub command: String,
}

/// A card of the actions view: a single command, or a variant group with
/// all its variants (its own resolution fields are then empty).
#[derive(Clone, Debug, PartialEq)]
pub struct CardData {
    pub command_id: String,
    pub name: String,
    pub icon: String,
    pub is_favorite: bool,
    pub is_configured: bool,
    pub disabled_message: Option<String>,
    pub info: Option<String>,
    pub command: String,
    pub group_name: Option<String>,
    pub variants: Vec<VariantCardData>,
}

/// A variant of a grouped card shows its command.
pub open spec fn variant_matches(
    v: VariantCardData,
    c: Command,
    r: CommandResolution,
    path: Seq<char>,
) -> bool {
    let f = resolution_spec(r, path);
    &&& v.command_id@ == c.id@
    &&& v.label@ == variant_label_of(c)
    &&& v.is_favorite == c.is_favorite
    &&& v.is_configured == f.0
    &&& opt_chars(v.disabled_message) == f.1
    &&& opt_chars(v.info) == opt_chars(c.info)
    &&& v.command@ == f.2
}

/// The card opened by command `i`: the command itself when it has no
/// variant group; otherwise the group, titled after `i`, favourite when
/// any variant is, carrying every command of the group (in order) as a
/// variant.
pub open spec fn card_matches(
    card: CardData,
    s: Seq<Command>,
    rs: Seq<CommandResolution>,
    path: Seq<char>,
    i: int,
) -> bool {
    let c = s[i];
    match c.variant_group {
        None => {
            let f = resolution_spec(rs[i], path);
            &&& card.command_id@ == c.id@
            &&& card.name@ == c.name@
            &&& card.icon@ == c.icon@
            &&& card.is_favorite == c.is_favorite
            &&& card.is_configured == f.0
            &&& opt_chars(card.disabled_message) == f.1
            &&& opt_chars(card.info) == opt_chars(c.info)
            &&& card.command@ == f.2
            &&& card.group_name is None
            &&& card.variants@.len() == 0
        },
        Some(_) => {
            let m = member_indices(s, key_of(c), s.len() as int);
            &&& card.command_id@ == c.id@
            &&& card.name@ == group_title(c)
            &&& card.icon@ == c.icon@
            &&& card.is_favorite == key_shown(s, key_of(c), true)
            &&& !card.is_configured
            &&& card.disabled_message is None
            &&& card.info is None
            &&& card.command@ == Seq::<char>::empty()
            &&& opt_chars(card.group_name) == Some(group_title(c))
            &&& card.variants@.len() == m.len()
            &&& forall|t: int|
                0 <= t < m.len() ==> variant_matches(
                    #[trigger] card.variants@[t],
                    s[m[t]],
                    rs[m[t]],
                    path,
                )
        },
    }
}

/// The cards of `s`: one per bucket that passes the filter, in the order
/// of the buckets' first commands.
pub open spec fn cards_match(
    cards: Seq<CardData>,
    s: Seq<Command>,
    rs: Seq<CommandResolution>,
    path: Seq<char>,
    favorites_only: bool,
) -> bool {
    let ci = card_indices(s, favorites_only, s.len() as int);
    &&& cards.len() == ci.len()
    &&& forall|t: int| 0 <= t < ci.len() ==> card_matches(#[trigger] cards[t], s, rs, path, ci[t])
}

fn is_first_of_key(commands: &Vec<Command>, i: usize) -> (r: bool)
    requires
        i < commands.len(),
    ensures
        r == first_of_key(commands@, i as int),
{
    let mut j: usize = 0;
    while j < i
        invariant
            j <= i,
            i < commands.len(),
            forall|x: int| 0 <= x < j ==> key_of(#[trigger] commands@[x]) != key_of(commands@[i as int]),
        decreases i - j,
    {
        if same_key(&commands[j], &commands[i]) {
            assert(key_of(commands@[j as int]) == key_of(commands@[i as int]));
            return false;
        }
        j += 1;
    }
    true
}

fn is_key_shown(commands: &Vec<Command>, i: usize, favorites_only: bool) -> (r: bool)
    requires
        i < commands.len(),
    ensures
        r == key_shown(commands@, key_of(commands@[i as int]), favorites_only),
{
    let mut j: usize = 0;
    while j < commands.len()
        invariant
            j <= commands.len(),
            i < commands.len(),
            forall|x: int|
                0 <= x < j ==> !(key_of(#[trigger] commands@[x]) == key_of(commands@[i as int])
                    && visible(commands@[x], favorites_only)),
        decreases commands.len() - j,
    {
        if same_key(&commands[j], &commands[i]) && (!favorites_only || commands[j].is_favorite) {
            assert(key_of(commands@[j as int]) == key_of(commands@[i as int]) && visible(
                commands@[j as int],
                favorites_only,
            ));
            return true;
        }
        j += 1;
    }
    false
}

fn build_variant(c: &Command, r: &CommandResolution, path: &str) -> (v: VariantCardData)
    ensures
        variant_matches(v, *c, *r, path@),
{
    let (is_configured, disabled_message, command) = resolution_fields(r, path);
    let label = match &c.variant_label {
        Some(l) => l.clone(),
        None => c.name.clone(),
    };
    VariantCardData {
        command_id: c.id.clone(),
        label,
        is_favorite: c.is_favorite,
        is_configured,
        disabled_message,
        info: copy_opt(&c.info),
        command,
    }
}

fn build_card(
    commands: &Vec<Command>,
    resolutions: &Vec<CommandResolution>,
    path: &str,
    i: usize,
) -> (card: CardData)
    requires
        i < commands.len(),
        commands.len() == resolutions.len(),
    ensures
        card_matches(card, commands@, resolutions@, path@, i as int),
{
    let c = &commands[i];
    match &c.variant_group {
        None => {
            let (is_configured, disabled_message, command) = resolution_fields(&resolutions[i], path);
            CardData {
                command_id: c.id.clone(),
                name: c.name.clone(),
                icon: c.icon.clone(),
                is_favorite: c.is_favorite,
                is_configured,
                disabled_message,
                info: copy_opt(&c.info),
                command,
                group_name: None,
                variants: Vec::new(),
            }
        },
        Some(_) => {
            let ghost s = commands@;
            let ghost k = key_of(s[i as int]);
            let mut variants: Vec<VariantCardData> = Vec::new();
            let mut j: usize = 0;
            while j < commands.len()
                invariant
                    j <= commands.len(),
                    i < commands.len(),
                    commands.len() == resolutions.len(),
                    s == commands@,
                    k == key_of(s[i as int]),
                    variants@.len() == member_indices(s, k, j as int).len(),
                    forall|t: int|
                        0 <= t < variants@.len() ==> variant_matches(
                            #[trigger] variants@[t],
                            s[member_indices(s, k, j as int)[t]],
                            resolutions@[member_indices(s, k, j as int)[t]],
                            path@,
                        ),
                decreases commands.len() - j,
            {
                let ghost before = member_indices(s, k, j as int);
                if same_key(&commands[j], &commands[i]) {
                    let v = build_variant(&commands[j], &resolutions[j], path);
                    variants.push(v);
                    assert(member_indices(s, k, j + 1) == before.push(j as int));
                } else {
                    assert(member_indices(s, k, j + 1) == before);
                }
                j += 1;
            }
            let title = match &c.group_name {
                Some(g) => g.clone(),
                None => c.name.clone(),
            };
            let name = title.clone();
            let is_favorite = is_key_shown(commands, i, true);
            CardData {
                command_id: c.id.clone(),
                name,
                icon: c.icon.clone(),
                is_favorite,
                is_configured: false,
                disabled_message: None,
                info: None,
                command: String::new(),
                group_name: Some(title),
                variants,
            }
        },
    }
}

/// The cards of the actions view for `commands` (each with its resolution
/// at the same index): commands sharing a variant group consolidate into
/// one card carrying all of them as variants, in order; a command without
/// one is a card of its own. With `favorites_only`, a card is emitted only
/// when one of its commands is a favourite, and then still offers every
/// variant of its group.
pub fn partition_by_variant_group(
    commands: &Vec<Command>,
    resolutions: &Vec<CommandResolution>,
    mapping_path: &str,
    favorites_only: bool,
) -> (r: Vec<CardData>)
    requires
        commands.len() == resolutions.len(),
    ensures
        cards_match(r@, commands@, resolutions@, mapping_path@, favorites_only),
{
    let ghost s = commands@;
    let mut cards: Vec<CardData> = Vec::new();
    let mut i: usize = 0;
    while i < commands.len()
        invariant
            i <= commands.len(),
            commands.len() == resolutions.len(),
            s == commands@,
            cards@.len() == card_indices(s, favorites_only, i as int).len(),
            forall|t: int|
                0 <= t < cards@.len() ==> card_matches(
                    #[trigger] cards@[t],
                    s,
                    resolutions@,
                    mapping_path@,
                    card_indices(s, favorites_only, i as int)[t],
                ),
        decreases commands.len() - i,
    {
        let ghost before = card_indices(s, favorites_only, i as int);
        if is_first_of_key(commands, i) && is_key_shown(commands, i, favorites_only) {
            let card = build_card(commands, resolutions, mapping_path, i);
            cards.push(card);
            assert(card_indices(s, favorites_only, i + 1) == before.push(i as int));
        } else {
            assert(card_indices(s, favorites_only, i + 1) == before);
        }
        i += 1;
    }
    cards
}

// ---------------------------------------------------------------------------
// Display groups
// ---------------------------------------------------------------------------

/// The commands of one category (or, without a category, of the orphan
/// bucket), each with its resolution at the same index.
#[derive(Clone, Debug, PartialEq, Eq)]
pub struct CommandGroup {
    pub category_name: Option<String>,
    pub commands: Vec<Command>,
    pub resolutions: Vec<CommandResolution>,
}

/// A block of cards of the actions view: under a category's header, or
/// headerless in favourites mode.
#[derive(Clone, Debug, PartialEq)]
pub struct DisplayGroup {
    pub header: Option<String>,
    pub cards: Vec<CardData>,
}

/// The header of a category block; orphans go under "Sans catégorie".
pub open spec fn header_of(category_name: Option<String>) -> Seq<char> {
    match category_name {
        Some(n) => n@,
        None => "Sans catégorie"@,
    }
}

/// The blocks of the actions view. With categories shown: one block per
/// category group, under its header, with all its cards. Otherwise: a
/// single headerless block with the cards of the favourites among all
/// `commands`.
pub fn build_display_groups(
    show_categories: bool,
    by_category: &Vec<CommandGroup>,
    commands: &Vec<Command>,
    resolutions: &Vec<CommandResolution>,
    mapping_path: &str,
) -> (r: Vec<DisplayGroup>)
    requires
        commands.len() == resolutions.len(),
        forall|g: int|
            0 <= g < by_category.len() ==> (#[trigger] by_category@[g]).commands.len()
                == by_category@[g].resolutions.len(),
    ensures
        show_categories ==> r.len() == by_category.len() && forall|g: int|
            0 <= g < r.len() ==> opt_chars((#[trigger] r@[g]).header) == Some(
                header_of(by_category@[g].category_name),
            ) && cards_match(
                r@[g].cards@,
                by_category@[g].commands@,
                by_category@[g].resolutions@,
                mapping_path@,
                false,
            ),
        !show_categories ==> r.len() == 1 && r@[0].header is None && cards_match(
            r@[0].cards@,
            commands@,
            resolutions@,
            mapping_path@,
            true,
        ),
{
    let mut groups: Vec<DisplayGroup> = Vec::new();
    if show_categories {
        let mut g: usize = 0;
        while g < by_category.len()
            invariant
                g <= by_category.len(),
                forall|x: int|
                    0 <= x < by_category.len() ==> (#[trigger] by_category@[x]).commands.len()
                        == by_category@[x].resolutions.len(),
                groups@.len() == g,
                forall|x: int|
                    0 <= x < g ==> opt_chars((#[trigger] groups@[x]).header) == Some(
                        header_of(by_category@[x].category_name),
                    ) && cards_match(
                        groups@[x].cards@,
                        by_category@[x].commands@,
                        by_category@[x].resolutions@,
                        mapping_path@,
                        false,
                    ),
            decreases by_category.len() - g,
        {
            let group = &by_category[g];
            let header = match &group.category_name {
                Some(n) => n.clone(),
                None => String::from_str("Sans catégorie"),
            };
            let cards = partition_by_variant_group(
                &group.commands,
                &group.resolutions,
                mapping_path,
                false,
            );
            groups.push(DisplayGroup { header: Some(header), cards });
            g += 1;
        }
    } else {
        let cards = partition_by_variant_group(commands, resolutions, mapping_path, true);
        groups.push(DisplayGroup { header: None, cards });
    }
    groups
}

// ---------------------------------------------------------------------------
// Preferences rows
// ---------------------------------------------------------------------------

/// A row of the preferences list: one command, or a whole variant group
/// (one row per application; its variants are edited by expanding it).
#[derive(Clone, Debug, PartialEq)]
pub enum PreferencesRow {
    Single(Command),
    Group { key: String, group_name: String, icon: String, variants: Vec<Command> },
}

/// The row opened by command `i`: the command itself, or its group (keyed
/// by the group id, titled after `i`, with `i`'s icon and every command of
/// the group, in order).
pub open spec fn row_matches(row: PreferencesRow, s: Seq<Command>, i: int) -> bool {
    let c = s[i];
    match c.variant_group {
        None => row == PreferencesRow::Single(c),
        Some(g) => {
            let m = member_indices(s, key_of(c), s.len() as int);
            &&& row is Group
            &&& row->Group_key@ == g@
            &&& row->Group_group_name@ == group_title(c)
            &&& row->Group_icon@ == c.icon@
            &&& row->Group_variants@.len() == m.len()
            &&& forall|t: int| 0 <= t < m.len() ==> #[trigger] row->Group_variants@[t] == s[m[t]]
        },
    }
}

/// The rows of `s`: one per bucket, in the order of the buckets' first
/// commands.
pub open spec fn rows_match(rows: Seq<PreferencesRow>, s: Seq<Command>) -> bool {
    let ci = card_indices(s, false, s.len() as int);
    &&& rows.len() == ci.len()
    &&& forall|t: int| 0 <= t < ci.len() ==> row_matches(#[trigger] rows[t], s, ci[t])
}

fn build_row(commands: &Vec<Command>, i: usize) -> (row: PreferencesRow)
    requires
        i < commands.len(),
    ensures
        row_matches(row, commands@, i as int),
{
    let c = &commands[i];
    match &c.variant_group {
        None => PreferencesRow::Single(c.clone()),
        Some(g) => {
            let ghost s = commands@;
            let ghost k = key_of(s[i as int]);
            let mut variants: Vec<Command> = Vec::new();
            let mut j: usize = 0;
            while j < commands.len()
                invariant
                    j <= commands.len(),
                    i < commands.len(),
                    s == commands@,
                    k == key_of(s[i as int]),
                    variants@.len() == member_indices(s, k, j as int).len(),
                    forall|t: int|
                        0 <= t < variants@.len() ==> #[trigger] variants@[t] == s[member_indices(
                            s,
                            k,
                            j as int,
                        )[t]],
                decreases commands.len() - j,
            {
                let ghost before = member_indices(s, k, j as int);
                if same_key(&commands[j], &commands[i]) {
                    variants.push(commands[j].clone());
                    assert(member_indices(s, k, j + 1) == before.push(j as int));
                } else {
                    assert(member_indices(s, k, j + 1) == before);
                }
                j += 1;
            }
            let group_name = match &c.group_name {
                Some(n) => n.clone(),
                None => c.name.clone(),
            };
            PreferencesRow::Group { key: g.clone(), group_name, icon: c.icon.clone(), variants }
        },
    }
}

/// The preferences rows of `commands`, in first-seen order: a command
/// without a variant group is a row of its own; the commands of a group
/// collapse into one row carrying all of them.
pub fn partition_preferences_rows(commands: Vec<Command>) -> (r: Vec<PreferencesRow>)
    ensures
        rows_match(r@, commands@),
{
    let ghost s = commands@;
    let mut rows: Vec<PreferencesRow> = Vec::new();
    let mut i: usize = 0;
    while i < commands.len()
        invariant
            i <= commands.len(),
            s == commands@,
            rows@.len() == card_indices(s, false, i as int).len(),
            forall|t: int|
                0 <= t < rows@.len() ==> row_matches(
                    #[trigger] rows@[t],
                    s,
                    card_indices(s, false, i as int)[t],
                ),
        decreases commands.len() - i,
    {
        let ghost before = card_indices(s, false, i as int);
        if is_first_of_key(&commands, i) && is_key_shown(&commands, i, false) {
            let row = build_row(&commands, i);
            rows.push(row);
            assert(card_indices(s, false, i + 1) == before.push(i as int));
        } else {
            assert(card_indices(s, false, i + 1) == before);
        }
        i += 1;
    }
    rows
}

/// A category of the configuration.
#[derive(Debug, PartialEq, Eq)]
pub struct Category {
    pub id: String,
    pub name: String,
    pub icon: String,
}

impl Clone for Category {
    fn clone(&self) -> (r: Self)
        ensures
            r == *self,
    {
        Category { id: self.id.clone(), name: self.name.clone(), icon: self.icon.clone() }
    }
}

/// The commands of one category, or of the orphan bucket (`None`).
#[derive(Clone, Debug, PartialEq, Eq)]
pub struct CategoryCommands {
    pub category: Option<Category>,
    pub commands: Vec<Command>,
}

/// A category's block of the preferences list.
#[derive(Clone, Debug, PartialEq)]
pub struct PreferencesGroup {
    pub category: Option<Category>,
    pub rows: Vec<PreferencesRow>,
}

fn copy_commands(commands: &Vec<Command>) -> (r: Vec<Command>)
    ensures
        r@ == commands@,
{
    let mut r: Vec<Command> = Vec::new();
    let mut i: usize = 0;
    while i < commands.len()
        invariant
            i <= commands.len(),
            r@ == commands@.subrange(0, i as int),
        decreases commands.len() - i,
    {
        r.push(commands[i].clone());
        i += 1;
    }
    assert(commands@.subrange(0, commands.len() as int) =~= commands@);
    r
}

/// The preferences list: one block per category group, in order, with the
/// group's rows (see [`partition_preferences_rows`]).
pub fn preferences_groups(groups: &Vec<CategoryCommands>) -> (r: Vec<PreferencesGroup>)
    ensures
        r.len() == groups.len(),
        forall|g: int|
            0 <= g < r.len() ==> (#[trigger] r@[g]).category == groups@[g].category && rows_match(
                r@[g].rows@,
                groups@[g].commands@,
            ),
{
    let mut r: Vec<PreferencesGroup> = Vec::new();
    let mut g: usize = 0;
    while g < groups.len()
        invariant
            g <= groups.len(),
            r@.len() == g,
            forall|x: int|
                0 <= x < g ==> (#[trigger] r@[x]).category == groups@[x].category && rows_match(
                    r@[x].rows@,
                    groups@[x].commands@,
                ),
        decreases groups.len() - g,
    {
        let group = &groups[g];
        let category = match &group.category {
            Some(c) => Some(c.clone()),
            None => None,
        };
        let rows = partition_preferences_rows(copy_commands(&group.commands));
        r.push(PreferencesGroup { category, rows });
        g += 1;
    }
    r
}

// ---------------------------------------------------------------------------
// Laws
// ---------------------------------------------------------------------------

proof fn lemma_card_indices(s: Seq<Command>, favorites_only: bool, n: int)
    requires
        0 <= n <= s.len(),
    ensures
        forall|t: int|
            0 <= t < card_indices(s, favorites_only, n).len() ==> {
                let i = #[trigger] card_indices(s, favorites_only, n)[t];
                &&& 0 <= i < n
                &&& first_of_key(s, i)
                &&& key_shown(s, key_of(s[i]), favorites_only)
            },
        forall|t1: int, t2: int|
            0 <= t1 < t2 < card_indices(s, favorites_only, n).len() ==> #[trigger] card_indices(
                s,
                favorites_only,
                n,
            )[t1] < #[trigger] card_indices(s, favorites_only, n)[t2],
        forall|i: int|
            0 <= i < n && first_of_key(s, i) && key_shown(s, key_of(s[i]), favorites_only)
                ==> #[trigger] card_indices(s, favorites_only, n).contains(i),
    decreases n,
{
    if n > 0 {
        lemma_card_indices(s, favorites_only, n - 1);
        let prev = card_indices(s, favorites_only, n - 1);
        let cur = card_indices(s, favorites_only, n);
        assert forall|i: int|
            0 <= i < n && first_of_key(s, i) && key_shown(
                s,
                key_of(s[i]),
                favorites_only,
            ) implies #[trigger] cur.contains(i) by {
            if i < n - 1 {
                assert(prev.contains(i));
                let t = choose|t: int| 0 <= t < prev.len() && prev[t] == i;
                assert(cur[t] == i);
            } else {
                assert(cur[cur.len() - 1] == i);
            }
        }
    }
}

proof fn lemma_member_indices(s: Seq<Command>, k: (bool, Seq<char>), n: int)
    requires
        0 <= n <= s.len(),
    ensures
        forall|t: int|
            0 <= t < member_indices(s, k, n).len() ==> {
                let j = #[trigger] member_indices(s, k, n)[t];
                0 <= j < n && key_of(s[j]) == k
            },
        forall|t1: int, t2: int|
            0 <= t1 < t2 < member_indices(s, k, n).len() ==> #[trigger] member_indices(s, k, n)[t1]
                < #[trigger] member_indices(s, k, n)[t2],
        forall|j: int|
            0 <= j < n && key_of(s[j]) == k ==> #[trigger] member_indices(s, k, n).contains(j),
    decreases n,
{
    if n > 0 {
        lemma_member_indices(s, k, n - 1);
        let prev = member_indices(s, k, n - 1);
        let cur = member_indices(s, k, n);
        assert forall|j: int| 0 <= j < n && key_of(s[j]) == k implies #[trigger] cur.contains(j) by {
            if j < n - 1 {
                assert(prev.contains(j));
                let t = choose|t: int| 0 <= t < prev.len() && prev[t] == j;
                assert(cur[t] == j);
            } else {
                assert(cur[cur.len() - 1] == j);
            }
        }
    }
}

proof fn lemma_first_of_bucket(s: Seq<Command>, j: int) -> (f: int)
    requires
        0 <= j < s.len(),
    ensures
        0 <= f <= j,
        key_of(s[f]) == key_of(s[j]),
        first_of_key(s, f),
    decreases j,
{
    if first_of_key(s, j) {
        j
    } else {
        let x = choose|x: int| 0 <= x < j && key_of(#[trigger] s[x]) == key_of(s[j]);
        lemma_first_of_bucket(s, x)
    }
}

/// No two cards (or preferences rows) stand for the same bucket: a variant
/// group is one card, and so is each ungrouped command.
pub proof fn law_one_card_per_bucket(s: Seq<Command>, favorites_only: bool)
    ensures
        forall|t1: int, t2: int|
            0 <= t1 < card_indices(s, favorites_only, s.len() as int).len() && 0 <= t2
                < card_indices(s, favorites_only, s.len() as int).len() && t1 != t2 ==> key_of(
                s[#[trigger] card_indices(s, favorites_only, s.len() as int)[t1]],
            ) != key_of(s[#[trigger] card_indices(s, favorites_only, s.len() as int)[t2]]),
{
    let ci = card_indices(s, favorites_only, s.len() as int);
    lemma_card_indices(s, favorites_only, s.len() as int);
    assert forall|t1: int, t2: int|
        0 <= t1 < ci.len() && 0 <= t2 < ci.len() && t1 != t2 implies key_of(
        s[#[trigger] ci[t1]],
    ) != key_of(s[#[trigger] ci[t2]]) by {
        if t1 < t2 {
            assert(ci[t1] < ci[t2]);
            assert(first_of_key(s, ci[t2]));
            assert(key_of(s[ci[t1]]) != key_of(s[ci[t2]]));
        } else {
            assert(ci[t2] < ci[t1]);
            assert(first_of_key(s, ci[t1]));
            assert(key_of(s[ci[t2]]) != key_of(s[ci[t1]]));
        }
    }
}

/// Every command that passes the filter has its card: the card of its
/// bucket (with every command when the filter is off).
pub proof fn law_every_shown_command_has_its_card(s: Seq<Command>, favorites_only: bool, j: int)
    requires
        0 <= j < s.len(),
        visible(s[j], favorites_only),
    ensures
        exists|t: int|
            0 <= t < card_indices(s, favorites_only, s.len() as int).len() && key_of(
                s[#[trigger] card_indices(s, favorites_only, s.len() as int)[t]],
            ) == key_of(s[j]),
{
    let ci = card_indices(s, favorites_only, s.len() as int);
    lemma_card_indices(s, favorites_only, s.len() as int);
    let f = lemma_first_of_bucket(s, j);
    assert(key_of(s[j]) == key_of(s[f]) && visible(s[j], favorites_only));
    assert(key_shown(s, key_of(s[f]), favorites_only));
    assert(ci.contains(f));
    let t = choose|t: int| 0 <= t < ci.len() && ci[t] == f;
    assert(key_of(s[ci[t]]) == key_of(s[j]));
}

/// In favourites mode a card is shown only when one of its commands is a
/// favourite.
pub proof fn law_favorites_cards_hold_a_favorite(s: Seq<Command>)
    ensures
        forall|t: int|
            0 <= t < card_indices(s, true, s.len() as int).len() ==> key_shown(
                s,
                key_of(s[#[trigger] card_indices(s, true, s.len() as int)[t]]),
                true,
            ),
{
    lemma_card_indices(s, true, s.len() as int);
}

/// A group's variants are exactly the commands of its bucket, in the order
/// of the commands: each belongs to it, they come in order, and none is
/// left out.
pub proof fn law_group_holds_every_member(s: Seq<Command>, k: (bool, Seq<char>))
    ensures
        forall|t: int|
            0 <= t < member_indices(s, k, s.len() as int).len() ==> key_of(
                s[#[trigger] member_indices(s, k, s.len() as int)[t]],
            ) == k,
        forall|t1: int, t2: int|
            0 <= t1 < t2 < member_indices(s, k, s.len() as int).len() ==> #[trigger] member_indices(
                s,
                k,
                s.len() as int,
            )[t1] < #[trigger] member_indices(s, k, s.len() as int)[t2],
        forall|j: int|
            0 <= j < s.len() && key_of(s[j]) == k ==> #[trigger] member_indices(
                s,
                k,
                s.len() as int,
            ).contains(j),
{
    lemma_member_indices(s, k, s.len() as int);
}

// ---------------------------------------------------------------------------
// The action form
// ---------------------------------------------------------------------------

/// The action form's fields, for a new action (`editing_id` is `None`) or
/// an existing one. Its command line is edited by a widget of its own.
#[derive(Clone, Debug, PartialEq, Eq)]
pub struct ActionForm {
    pub editing_id: Option<String>,
    pub name: String,
    pub category: String,
    pub icon: String,
    pub is_favorite: bool,
    pub shortcut: String,
    pub info: String,
}

impl ActionForm {
    /// An empty form for a new action.
    pub fn new() -> (r: Self)
        ensures
            r.editing_id is None,
            r.name@.len() == 0 && r.category@.len() == 0 && r.icon@.len() == 0,
            r.shortcut@.len() == 0 && r.info@.len() == 0,
            !r.is_favorite,
    {
        ActionForm {
            editing_id: None,
            name: String::new(),
            category: String::new(),
            icon: String::new(),
            is_favorite: false,
            shortcut: String::new(),
            info: String::new(),
        }
    }

    /// The form prefilled from an existing command, to edit it; a missing
    /// shortcut or note becomes an empty field.
    pub fn from_command(command: &Command) -> (r: Self)
        ensures
            opt_chars(r.editing_id) == Some(command.id@),
            r.name@ == command.name@,
            r.category@ == command.category@,
            r.icon@ == command.icon@,
            r.is_favorite == command.is_favorite,
            r.shortcut@ == (match command.shortcut {
                Some(s) => s@,
                None => Seq::empty(),
            }),
            r.info@ == (match command.info {
                Some(s) => s@,
                None => Seq::empty(),
            }),
    {
        ActionForm {
            editing_id: Some(command.id.clone()),
            name: command.name.clone(),
            category: command.category.clone(),
            icon: command.icon.clone(),
            is_favorite: command.is_favorite,
            shortcut: match &command.shortcut {
                Some(s) => s.clone(),
                None => String::new(),
            },
            info: match &command.info {
                Some(s) => s.clone(),
                None => String::new(),
            },
        }
    }
}

/// A text field's value: trimmed, and none when blank.
pub open spec fn nonblank(s: Seq<char>) -> Option<Seq<char>> {
    if trim(s).len() > 0 {
        Some(trim(s))
    } else {
        None
    }
}

fn nonblank_field(s: &String) -> (r: Option<String>)
    ensures
        opt_chars(r) == nonblank(s@),
{
    let v = chars_of(s.as_str());
    let (start, end) = trim_bounds(&v, 0, v.len());
    assert(v@.subrange(0, v@.len() as int) =~= s@);
    if start < end {
        Some(string_of_range(&v, start, end))
    } else {
        None
    }
}

/// The refusal of an action without a name.
pub open spec fn name_required() -> Seq<char> {
    "Le nom de l'action est requis."@
}

/// The refusal of an edit whose action no longer exists.
pub open spec fn action_not_found() -> Seq<char> {
    "Action introuvable."@
}

/// The first command of `commands` whose id is `id`.
pub fn position_of_id(commands: &Vec<Command>, id: &str) -> (r: Option<usize>)
    ensures
        match r {
            Some(k) => k < commands.len() && commands@[k as int].id@ == id@ && forall|j: int|
                0 <= j < k ==> (#[trigger] commands@[j]).id@ != id@,
            None => forall|j: int| 0 <= j < commands.len() ==> (#[trigger] commands@[j]).id@ != id@,
        },
{
    let mut k: usize = 0;
    while k < commands.len()
        invariant
            k <= commands.len(),
            forall|j: int| 0 <= j < k ==> (#[trigger] commands@[j]).id@ != id@,
        decreases commands.len() - k,
    {
        if str_eq(commands[k].id.as_str(), id) {
            return Some(k);
        }
        k += 1;
    }
    None
}

/// The form's fields as a command: the name, shortcut and note trimmed
/// (a blank shortcut or note is none), the command line from the widget.
pub open spec fn form_fields_match(c: Command, form: ActionForm, command_line: Seq<char>) -> bool {
    &&& c.name@ == trim(form.name@)
    &&& c.command@ == command_line
    &&& c.category@ == form.category@
    &&& c.icon@ == form.icon@
    &&& c.is_favorite == form.is_favorite
    &&& opt_chars(c.shortcut) == nonblank(form.shortcut@)
    &&& opt_chars(c.info) == nonblank(form.info@)
}

/// The outcome of submitting an edit of the action `id`: the edited
/// command, built from the form and from the first command with that id
/// (see [`submitted_command`]), or the refusal when there is none.
pub open spec fn edit_outcome(
    r: Result<Command, String>,
    form: ActionForm,
    command_line: Seq<char>,
    commands: Seq<Command>,
    id: Seq<char>,
) -> bool {
    if exists|k: int| 0 <= k < commands.len() && (#[trigger] commands[k]).id@ == id {
        exists|k: int|
            0 <= k < commands.len() && (#[trigger] commands[k]).id@ == id && (forall|j: int|
                0 <= j < k ==> (#[trigger] commands[j]).id@ != id) && (r matches Ok(c) && c.id@
                == id && form_fields_match(c, form, command_line) && c.variant_group
                == commands[k].variant_group && c.group_name == commands[k].group_name
                && c.variant_label == commands[k].variant_label && c.machine_specific
                == commands[k].machine_specific)
    } else {
        r matches Err(e) && e@ == action_not_found()
    }
}

/// The command a submitted action form saves, with `command_line` from the
/// form's command widget. A blank name is refused. A new action gets
/// `new_id` (the slug generated for its name) and no variant group, and is
/// not machine-specific. An edit keeps the id and, from the first command
/// with that id in `commands`, the fields the form does not show (variant
/// group, group name, variant label, machine-specific); it is refused when
/// no command has that id.
pub fn submitted_command(
    form: &ActionForm,
    command_line: &str,
    commands: &Vec<Command>,
    new_id: &str,
) -> (r: Result<Command, String>)
    ensures
        trim(form.name@).len() == 0 ==> (r matches Err(e) && e@ == name_required()),
        trim(form.name@).len() > 0 && form.editing_id is None ==> (r matches Ok(c) && c.id@
            == new_id@ && form_fields_match(c, *form, command_line@) && c.variant_group is None
            && c.group_name is None && c.variant_label is None && !c.machine_specific),
        form.editing_id matches Some(id) ==> (trim(form.name@).len() > 0 ==> edit_outcome(
            r,
            *form,
            command_line@,
            commands@,
            id@,
        )),
{
    let name = match nonblank_field(&form.name) {
        Some(n) => n,
        None => return Err(String::from_str("Le nom de l'action est requis.")),
    };
    let shortcut = nonblank_field(&form.shortcut);
    let info = nonblank_field(&form.info);
    match &form.editing_id {
        None => Ok(
            Command {
                id: String::from_str(new_id),
                name,
                command: String::from_str(command_line),
                category: form.category.clone(),
                icon: form.icon.clone(),
                is_favorite: form.is_favorite,
                shortcut,
                variant_group: None,
                group_name: None,
                variant_label: None,
                machine_specific: false,
                info,
            },
        ),
        Some(id) => {
            match position_of_id(commands, id.as_str()) {
                None => Err(String::from_str("Action introuvable.")),
                Some(k) => {
                    let existing = &commands[k];
                    let c = Command {
                        id: id.clone(),
                        name,
                        command: String::from_str(command_line),
                        category: form.category.clone(),
                        icon: form.icon.clone(),
                        is_favorite: form.is_favorite,
                        shortcut,
                        variant_group: copy_opt(&existing.variant_group),
                        group_name: copy_opt(&existing.group_name),
                        variant_label: copy_opt(&existing.variant_label),
                        machine_specific: existing.machine_specific,
                        info,
                    };
                    assert(commands@[k as int].id@ == id@);
                    Ok(c)
                },
            }
        },
    }
}

/// The confirmation asked before deleting an action: its title and its
/// question.
pub fn removal_confirmation(name: &str) -> (r: (String, String))
    ensures
        r.0@ == "Supprimer l'action"@,
        r.1@ == "Supprimer l'action « "@ + name@ + " » ? Cette opération est irréversible."@,
{
    let mut body = String::from_str("Supprimer l'action « ");
    body.append(name);
    body.append(" » ? Cette opération est irréversible.");
    (String::from_str("Supprimer l'action"), body)
}

/// The confirmation asked before deleting an application with all its
/// variants.
pub fn group_removal_confirmation(group_name: &str, count: usize) -> (r: (String, String))
    ensures
        r.0@ == "Supprimer l'application"@,
        r.1@ == "Supprimer « "@ + group_name@ + " » et ses "@ + decimal(count as nat)
            + " variantes ? Cette opération est irréversible."@,
{
    let mut body = String::from_str("Supprimer « ");
    body.append(group_name);
    body.append(" » et ses ");
    push_decimal(&mut body, count as u64);
    body.append(" variantes ? Cette opération est irréversible.");
    (String::from_str("Supprimer l'application"), body)
}

/// A command of the built-in fallback, in the system category, a
/// favourite, with no variant group, shortcut or note.
pub open spec fn fallback_command(c: Command, id: Seq<char>, name: Seq<char>, command: Seq<char>, icon: Seq<char>) -> bool {
    &&& c.id@ == id
    &&& c.name@ == name
    &&& c.command@ == command
    &&& c.category@ == "system"@
    &&& c.icon@ == icon
    &&& c.is_favorite
    &&& c.shortcut is None
    &&& c.variant_group is None
    &&& c.group_name is None
    &&& c.variant_label is None
    &&& !c.machine_specific
    &&& c.info is None
}

fn system_favorite(id: &str, name: &str, command: &str, icon: &str) -> (c: Command)
    ensures
        fallback_command(c, id@, name@, command@, icon@),
{
    Command {
        id: String::from_str(id),
        name: String::from_str(name),
        command: String::from_str(command),
        category: String::from_str("system"),
        icon: String::from_str(icon),
        is_favorite: true,
        shortcut: None,
        variant_group: None,
        group_name: None,
        variant_label: None,
        machine_specific: false,
        info: None,
    }
}

/// The commands of the built-in configuration that boots when the saved
/// one cannot be read: Bloc-notes, the command prompt and the IP address,
/// all favourites of the system category (which that configuration does
/// not declare, so they show under "Sans catégorie").
pub fn fallback_commands() -> (r: Vec<Command>)
    ensures
        r.len() == 3,
        fallback_command(r@[0], "notepad"@, "Bloc-notes"@, "notepad.exe"@, "📝"@),
        fallback_command(r@[1], "cmd"@, "Invite de commandes"@, "cmd.exe"@, "💻"@),
        fallback_command(r@[2], "ipconfig"@, "Adresse IP"@, "ipconfig /all"@, "🌐"@),
{
    let mut r: Vec<Command> = Vec::new();
    r.push(system_favorite("notepad", "Bloc-notes", "notepad.exe", "📝"));
    r.push(system_favorite("cmd", "Invite de commandes", "cmd.exe", "💻"));
    r.push(system_favorite("ipconfig", "Adresse IP", "ipconfig /all", "🌐"));
    r
}

} // verus!
