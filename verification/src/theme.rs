//! Visual tokens and the theme preference.

use vstd::prelude::*;

use crate::text::{ascii_lower_range, ascii_lower_seq, chars_eq, chars_of, trim, trim_bounds};

verus! {

/// Corner radius of cards.
pub const RADIUS_CARD: u8 = 12;

/// Corner radius of controls.
pub const RADIUS_CONTROL: u8 = 8;

/// Duration of a view transition, in milliseconds.
pub const TRANSITION_MS: u64 = 160;

/// The theme the user asked for.
#[derive(Clone, Copy, Debug, PartialEq, Eq, Structural)]
pub enum ThemeMode {
    System,
    Light,
    Dark,
}

pub open spec fn theme_of(value: Seq<char>) -> ThemeMode {
    let t = ascii_lower_seq(trim(value));
    if t == "light"@ || t == "clair"@ {
        ThemeMode::Light
    } else if t == "dark"@ || t == "sombre"@ {
        ThemeMode::Dark
    } else {
        ThemeMode::System
    }
}

impl ThemeMode {
    /// Reads a stored preference, trimmed and ASCII-case-insensitive:
    /// `light`/`clair` and `dark`/`sombre` (English or French), anything
    /// else follows the system.
    pub fn from_preference(value: &str) -> (r: Self)
        ensures
            r == theme_of(value@),
    {
        let v = chars_of(value);
        let (start, end) = trim_bounds(&v, 0, v.len());
        assert(v@.subrange(0, v@.len() as int) =~= value@);
        let t = ascii_lower_range(&v, start, end);
        let light = chars_of("light");
        let clair = chars_of("clair");
        let dark = chars_of("dark");
        let sombre = chars_of("sombre");
        if chars_eq(&t, &light) || chars_eq(&t, &clair) {
            ThemeMode::Light
        } else if chars_eq(&t, &dark) || chars_eq(&t, &sombre) {
            ThemeMode::Dark
        } else {
            ThemeMode::System
        }
    }
}

/// A colour of the palette, as red, green and blue channels.
#[derive(Clone, Copy, Debug, PartialEq, Eq, Structural)]
pub struct Rgb {
    pub r: u8,
    pub g: u8,
    pub b: u8,
}

/// The colours of one theme.
#[derive(Clone, Copy, Debug, PartialEq, Eq, Structural)]
pub struct Palette {
    pub canvas: Rgb,
    pub surface: Rgb,
    pub surface_raised: Rgb,
    pub text: Rgb,
    pub text_muted: Rgb,
    pub accent: Rgb,
    pub accent_text: Rgb,
    pub border: Rgb,
    pub success: Rgb,
    pub warning: Rgb,
    pub danger: Rgb,
}

pub open spec fn rgb(r: u8, g: u8, b: u8) -> Rgb {
    Rgb { r, g, b }
}

/// The dark theme's colours.
pub open spec fn dark_palette() -> Palette {
    Palette {
        canvas: rgb(18, 20, 25),
        surface: rgb(29, 32, 39),
        surface_raised: rgb(38, 42, 51),
        text: rgb(244, 246, 250),
        text_muted: rgb(181, 188, 201),
        accent: rgb(114, 145, 255),
        accent_text: rgb(8, 14, 32),
        border: rgb(65, 70, 82),
        success: rgb(102, 210, 151),
        warning: rgb(255, 196, 92),
        danger: rgb(255, 124, 124),
    }
}

/// The light theme's colours.
pub open spec fn light_palette() -> Palette {
    Palette {
        canvas: rgb(245, 247, 251),
        surface: rgb(255, 255, 255),
        surface_raised: rgb(248, 250, 255),
        text: rgb(26, 31, 43),
        text_muted: rgb(82, 91, 110),
        accent: rgb(61, 95, 220),
        accent_text: rgb(255, 255, 255),
        border: rgb(211, 216, 227),
        success: rgb(21, 112, 67),
        warning: rgb(139, 83, 0),
        danger: rgb(174, 38, 38),
    }
}

/// The palette of the dark or the light theme.
pub fn palette(dark: bool) -> (r: Palette)
    ensures
        r == (if dark {
            dark_palette()
        } else {
            light_palette()
        }),
{
    if dark {
        Palette {
            canvas: Rgb { r: 18, g: 20, b: 25 },
            surface: Rgb { r: 29, g: 32, b: 39 },
            surface_raised: Rgb { r: 38, g: 42, b: 51 },
            text: Rgb { r: 244, g: 246, b: 250 },
            text_muted: Rgb { r: 181, g: 188, b: 201 },
            accent: Rgb { r: 114, g: 145, b: 255 },
            accent_text: Rgb { r: 8, g: 14, b: 32 },
            border: Rgb { r: 65, g: 70, b: 82 },
            success: Rgb { r: 102, g: 210, b: 151 },
            warning: Rgb { r: 255, g: 196, b: 92 },
            danger: Rgb { r: 255, g: 124, b: 124 },
        }
    } else {
        Palette {
            canvas: Rgb { r: 245, g: 247, b: 251 },
            surface: Rgb { r: 255, g: 255, b: 255 },
            surface_raised: Rgb { r: 248, g: 250, b: 255 },
            text: Rgb { r: 26, g: 31, b: 43 },
            text_muted: Rgb { r: 82, g: 91, b: 110 },
            accent: Rgb { r: 61, g: 95, b: 220 },
            accent_text: Rgb { r: 255, g: 255, b: 255 },
            border: Rgb { r: 211, g: 216, b: 227 },
            success: Rgb { r: 21, g: 112, b: 67 },
            warning: Rgb { r: 139, g: 83, b: 0 },
            danger: Rgb { r: 174, g: 38, b: 38 },
        }
    }
}

} // verus!
