//! The curated icon set offered by the icon picker in place of free-text
//! icon entry. It starts with every icon the bundled actions and default
//! commands already use, so existing values show up as selected, then adds
//! a general-purpose set (files, network, terminal, media, communication,
//! status).

use vstd::prelude::*;

use crate::text::{copy_string, str_eq};

verus! {

/// Number of curated icons.
pub const CURATED_COUNT: usize = 40;

/// The curated icons, seeded ones first.
pub const CURATED_ICONS: [&'static str; 40] = [
    "🔄",
    "🧪",
    "💼",
    "🏠",
    "🤖",
    "📬",
    "🚀",
    "🛠️",
    "🏗️",
    "🎵",
    "📝",
    "💻",
    "🌐",
    "📁",
    "📂",
    "📄",
    "📋",
    "🗂️",
    "🔗",
    "🌍",
    "📡",
    "☁️",
    "🖥️",
    "⚙️",
    "🔧",
    "🐚",
    "⌨️",
    "🎬",
    "🎧",
    "🖼️",
    "📷",
    "🎮",
    "💬",
    "📧",
    "☎️",
    "🔒",
    "🔑",
    "✅",
    "⚠️",
    "❓",
];

/// The curated icons as character sequences.
pub open spec fn curated_spec() -> Seq<Seq<char>> {
    seq![
        "🔄"@,
        "🧪"@,
        "💼"@,
        "🏠"@,
        "🤖"@,
        "📬"@,
        "🚀"@,
        "🛠️"@,
        "🏗️"@,
        "🎵"@,
        "📝"@,
        "💻"@,
        "🌐"@,
        "📁"@,
        "📂"@,
        "📄"@,
        "📋"@,
        "🗂️"@,
        "🔗"@,
        "🌍"@,
        "📡"@,
        "☁️"@,
        "🖥️"@,
        "⚙️"@,
        "🔧"@,
        "🐚"@,
        "⌨️"@,
        "🎬"@,
        "🎧"@,
        "🖼️"@,
        "📷"@,
        "🎮"@,
        "💬"@,
        "📧"@,
        "☎️"@,
        "🔒"@,
        "🔑"@,
        "✅"@,
        "⚠️"@,
        "❓"@,
    ]
}

/// Whether `icon` is one of the curated icons.
pub fn is_curated(icon: &str) -> (r: bool)
    ensures
        r == curated_spec().contains(icon@),
{
    let icons = CURATED_ICONS;
    assert(icons@.map_values(|s: &'static str| s@) =~= curated_spec());
    let mut i: usize = 0;
    while i < CURATED_COUNT
        invariant
            i <= CURATED_COUNT,
            icons@.map_values(|s: &'static str| s@) == curated_spec(),
            forall|j: int| 0 <= j < i ==> curated_spec()[j] != icon@,
        decreases CURATED_COUNT - i,
    {
        assert(curated_spec()[i as int] == icons@[i as int]@);
        if str_eq(icons[i], icon) {
            return true;
        }
        i = i + 1;
    }
    false
}

/// The label of the picker's button: the current icon, or an invitation
/// to choose one when there is none.
pub fn button_label(current: &String) -> (r: String)
    ensures
        r@ == (if current@.len() == 0 {
            "Choisir…"@
        } else {
            current@
        }),
{
    if current.as_str().is_empty() {
        String::from_str("Choisir…")
    } else {
        copy_string(current)
    }
}

/// A click on the curated tile `tile`: the tile's icon becomes the current
/// one. Returns whether the value changed (a click on the tile already
/// selected changes nothing).
pub fn pick_icon(current: &mut String, tile: usize) -> (changed: bool)
    requires
        tile < CURATED_COUNT,
    ensures
        final(current)@ == curated_spec()[tile as int],
        changed == (old(current)@ != curated_spec()[tile as int]),
{
    let icons = CURATED_ICONS;
    assert(icons@.map_values(|s: &'static str| s@) =~= curated_spec());
    assert(curated_spec()[tile as int] == icons@[tile as int]@);
    let icon = icons[tile];
    if str_eq(current.as_str(), icon) {
        false
    } else {
        *current = String::from_str(icon);
        true
    }
}

/// Whether the picker lists the current value apart, as an icon outside
/// the curated set (it is kept until a tile is picked).
pub fn shows_out_of_set(current: &str) -> (r: bool)
    ensures
        r == (current@.len() > 0 && !curated_spec().contains(current@)),
{
    !current.is_empty() && !is_curated(current)
}

} // verus!
