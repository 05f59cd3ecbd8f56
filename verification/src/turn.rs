//! Typed pieces of a finished conversation turn, the theme mode and the
//! choice of palette it leads to, and the input drain bound.

use vstd::prelude::*;
use crate::text::{chars_of, contains, ends_with, has_infix, has_suffix, lowercase, to_lowercase};

verus! {

/// One typed element of a conversation turn.
#[derive(Debug, Clone, PartialEq, Eq)]
pub enum TurnElement {
    /// Markdown body text.
    Markdown(String),
    /// Persisted reasoning, with the stream's duration in seconds and its
    /// output token count.
    Thinking { body: String, secs: u64, tokens: u64 },
    /// Citation URLs or file paths the assistant referenced.
    Sources(Vec<String>),
    /// The project-relative paths the agent touched this turn.
    FilesChanged(Vec<String>),
    /// A tool-call placeholder: the call id of its tool card.
    ToolCard(String),
}

/// The color theme the user chose: light, dark, or decided from the
/// terminal's background.
#[derive(Debug, Clone, Copy, PartialEq, Eq, Structural)]
pub enum ThemeMode {
    Light,
    Dark,
    Auto,
}

impl Default for ThemeMode {
    /// Dark, the interface's home look.
    fn default() -> (r: Self)
        ensures
            r == ThemeMode::Dark,
    {
        ThemeMode::Dark
    }
}

/// The most input events drained from the terminal in one tick; anything
/// past it waits for the next tick.
pub const MAX_DRAIN: usize = 8_192;

/// The palettes the interface can draw with.
#[derive(Debug, Clone, Copy, PartialEq, Eq, Structural)]
pub enum Palette {
    /// The dark truecolor palette.
    Hearth,
    /// The dark palette pinned to the 256-color cube.
    Hearth256,
    /// The light truecolor palette.
    HearthLight,
    /// The light palette pinned to the 256-color cube.
    HearthLight256,
    /// No color at all.
    NoColor,
}

/// The terminal programs known to draw truecolor.
pub open spec fn truecolor_program(prog: Seq<char>) -> bool {
    has_infix(prog, "iterm.app"@) || has_infix(prog, "wezterm"@) || has_infix(prog, "ghostty"@)
        || has_infix(prog, "alacritty"@) || has_infix(prog, "kitty"@)
}

/// The terminal draws 24-bit color: `COLORTERM` is `truecolor` or `24bit`
/// (in any case), `TERM_PROGRAM` names a known truecolor emulator, or
/// `TERM` ends in `-direct`.
pub open spec fn truecolor_of(colorterm: Option<Seq<char>>, term_program: Option<Seq<char>>, term: Option<Seq<char>>) -> bool {
    (match colorterm {
        Some(v) => lowercase(v) == "truecolor"@ || lowercase(v) == "24bit"@,
        None => false,
    }) || (match term_program {
        Some(v) => truecolor_program(lowercase(v)),
        None => false,
    }) || (match term {
        Some(v) => has_suffix(v, "-direct"@),
        None => false,
    })
}

fn has_word(hay: &[char], w: &str) -> (r: bool)
    ensures
        r == has_infix(hay@, w@),
{
    let p = chars_of(w);
    contains(hay, p.as_slice())
}

/// Whether the terminal draws 24-bit color, from the values of the
/// `COLORTERM`, `TERM_PROGRAM` and `TERM` variables.
pub fn terminal_has_truecolor(colorterm: Option<&str>, term_program: Option<&str>, term: Option<&str>) -> (r: bool)
    ensures
        r == truecolor_of(
            match colorterm { Some(v) => Some(v@), None => None },
            match term_program { Some(v) => Some(v@), None => None },
            match term { Some(v) => Some(v@), None => None },
        ),
{
    match colorterm {
        Some(v) => {
            let l = to_lowercase(v);
            let lc = chars_of(l.as_str());
            if crate::text::is_word(lc.as_slice(), "truecolor") || crate::text::is_word(lc.as_slice(), "24bit") {
                return true;
            }
        },
        None => {},
    }
    match term_program {
        Some(v) => {
            let l = to_lowercase(v);
            let lc = chars_of(l.as_str());
            let s = lc.as_slice();
            if has_word(s, "iterm.app") || has_word(s, "wezterm") || has_word(s, "ghostty")
                || has_word(s, "alacritty") || has_word(s, "kitty") {
                return true;
            }
        },
        None => {},
    }
    match term {
        Some(v) => {
            let tc = chars_of(v);
            let d = chars_of("-direct");
            ends_with(tc.as_slice(), d.as_slice())
        },
        None => false,
    }
}

/// The palette for a theme mode: no color when `NO_COLOR` is set and not
/// empty; otherwise light or dark (for `Auto`, as the terminal's
/// background was detected), truecolor when the terminal draws it.
pub open spec fn palette_of(mode: ThemeMode, no_color: Option<Seq<char>>, truecolor: bool, light_background: bool) -> Palette {
    let light = match mode {
        ThemeMode::Light => true,
        ThemeMode::Dark => false,
        ThemeMode::Auto => light_background,
    };
    match no_color {
        Some(v) if v.len() > 0 => Palette::NoColor,
        _ => if light {
            if truecolor { Palette::HearthLight } else { Palette::HearthLight256 }
        } else {
            if truecolor { Palette::Hearth } else { Palette::Hearth256 }
        },
    }
}

/// The palette to draw with.
pub fn palette_for(mode: ThemeMode, no_color: Option<&str>, truecolor: bool, light_background: bool) -> (r: Palette)
    ensures
        r == palette_of(mode, match no_color { Some(v) => Some(v@), None => None }, truecolor, light_background),
{
    let light = match mode {
        ThemeMode::Light => true,
        ThemeMode::Dark => false,
        ThemeMode::Auto => light_background,
    };
    match no_color {
        Some(v) => {
            if !v.is_empty() {
                return Palette::NoColor;
            }
        },
        None => {},
    }
    if light {
        if truecolor { Palette::HearthLight } else { Palette::HearthLight256 }
    } else {
        if truecolor { Palette::Hearth } else { Palette::Hearth256 }
    }
}

} // verus!
