//! `~/.config/sanae/config.toml`. Every field has a default; the file is optional.
//! Reading and writing the file is the program's business; this is the data
//! and the choices made from it.

use vstd::prelude::*;

use crate::text::{copy_str, str_eq};

verus! {

#[derive(Debug, Default)]
pub struct Config {
    pub general: General,
    pub theme: ThemeConfig,
}

#[derive(Debug)]
pub struct General {
    /// paru, yay, or auto (first one found).
    pub aur_helper: String,
    /// sudo, doas, or auto.
    pub privilege: String,
    /// Ask before applying the queue.
    pub confirm: bool,
    /// Look for a newer Sanae at start.
    pub check_updates: bool,
    /// Interface language: a code from the language list, or auto.
    pub language: String,
}

impl Default for General {
    fn default() -> (r: Self)
        ensures
            r.aur_helper@ == "auto"@,
            r.privilege@ == "auto"@,
            r.confirm,
            r.check_updates,
            r.language@ == "auto"@,
    {
        General {
            aur_helper: copy_str("auto"),
            privilege: copy_str("auto"),
            confirm: true,
            check_updates: true,
            language: copy_str("auto"),
        }
    }
}

#[derive(Debug)]
pub struct ThemeConfig {
    /// Main accent, hex. Moriya green by default.
    pub accent: String,
    /// Second accent, hex. Lake blue.
    pub accent2: String,
    /// Use Nerd Font glyphs instead of plain Unicode marks.
    pub nerd_font: bool,
}

impl Default for ThemeConfig {
    fn default() -> (r: Self)
        ensures
            r.accent@ == "#5fd7a7"@,
            r.accent2@ == "#87afff"@,
            !r.nerd_font,
    {
        ThemeConfig { accent: copy_str("#5fd7a7"), accent2: copy_str("#87afff"), nerd_font: false }
    }
}

/// Which of the programs Sanae can delegate to are on `PATH`.
#[derive(Debug, Clone, Copy, Default)]
pub struct Tools {
    pub sudo: bool,
    pub doas: bool,
    pub paru: bool,
    pub yay: bool,
}

/// A setting left to Sanae: "auto" or empty.
pub open spec fn is_auto(s: Seq<char>) -> bool {
    s == "auto"@ || s.len() == 0
}

/// The AUR helper a configuration asks for, given what is installed.
pub open spec fn spec_aur_helper(setting: Seq<char>, tools: Tools) -> Option<Seq<char>> {
    if is_auto(setting) {
        if tools.paru {
            Some("paru"@)
        } else if tools.yay {
            Some("yay"@)
        } else {
            None
        }
    } else {
        Some(setting)
    }
}

/// The privilege tool a configuration asks for, given what is installed.
pub open spec fn spec_privilege(setting: Seq<char>, tools: Tools) -> Seq<char> {
    if is_auto(setting) {
        if tools.sudo {
            "sudo"@
        } else if tools.doas {
            "doas"@
        } else {
            "sudo"@
        }
    } else {
        setting
    }
}

/// Whether a setting is left to Sanae.
pub fn setting_is_auto(s: &str) -> (r: bool)
    ensures
        r == is_auto(s@),
{
    str_eq(s, "auto") || s.is_empty()
}

impl Config {
    /// The AUR helper to use, if any is installed.
    pub fn aur_helper(&self, tools: &Tools) -> (r: Option<String>)
        ensures
            match r {
                Some(h) => spec_aur_helper(self.general.aur_helper@, *tools) == Some(h@),
                None => spec_aur_helper(self.general.aur_helper@, *tools) is None,
            },
    {
        if setting_is_auto(self.general.aur_helper.as_str()) {
            if tools.paru {
                Some(copy_str("paru"))
            } else if tools.yay {
                Some(copy_str("yay"))
            } else {
                None
            }
        } else {
            Some(self.general.aur_helper.clone())
        }
    }

    /// sudo or doas.
    pub fn privilege(&self, tools: &Tools) -> (r: String)
        ensures
            r@ == spec_privilege(self.general.privilege@, *tools),
    {
        if setting_is_auto(self.general.privilege.as_str()) {
            if tools.sudo {
                copy_str("sudo")
            } else if tools.doas {
                copy_str("doas")
            } else {
                copy_str("sudo")
            }
        } else {
            self.general.privilege.clone()
        }
    }
}

} // verus!
