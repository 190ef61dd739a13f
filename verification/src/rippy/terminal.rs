//! Choosing the terminal application and the AppleScript that opens the
//! history browser in it.

use vstd::prelude::*;
use vstd::string::*;
use crate::text::{chars_of, eq_str};

verus! {

pub const ITERM_HEAD: &'static str = "tell application \"iTerm2\"\n                activate\n                create window with default profile command \"";
pub const ITERM_TAIL: &'static str = " ; exit\"\n            end tell";
pub const ALACRITTY_HEAD: &'static str = "do shell script \"open -a Alacritty --args -e ";
pub const WEZTERM_HEAD: &'static str = "do shell script \"open -a WezTerm --args start -- ";
pub const SHELL_TAIL: &'static str = "\"\n            ";
pub const TERMINAL_HEAD: &'static str = "tell application \"Terminal\"\n                activate\n                do script \"";
pub const TERMINAL_TAIL: &'static str = " ; exit\"\n            end tell";

/// Where iTerm is installed.
pub const ITERM_APP_PATH: &'static str = "/Applications/iTerm.app";

/// The terminal chosen for a preference: `auto` means iTerm2 when it is
/// installed and Terminal otherwise; any other preference is used as given.
pub open spec fn terminal_choice(pref: Seq<char>, iterm_installed: bool) -> Seq<char> {
    if pref == "auto"@ {
        if iterm_installed {
            "iTerm2"@
        } else {
            "Terminal"@
        }
    } else {
        pref
    }
}

/// The terminal for a preference, given whether iTerm is installed.
pub fn resolve_terminal<'a>(pref: &'a str, iterm_installed: bool) -> (r: &'a str)
    ensures
        r@ == terminal_choice(pref@, iterm_installed),
{
    let p = chars_of(pref);
    if eq_str(&p, "auto") {
        if iterm_installed {
            "iTerm2"
        } else {
            "Terminal"
        }
    } else {
        pref
    }
}

/// Detects which terminal app to use: checks for iTerm when the preference
/// is `auto`.
pub fn detect_terminal(pref: &str) -> (r: &str)
    ensures
        pref@ != "auto"@ ==> r@ == pref@,
        pref@ == "auto"@ ==> (r@ == "iTerm2"@ || r@ == "Terminal"@),
{
    let p = chars_of(pref);
    if eq_str(&p, "auto") {
        let installed = crate::cli_core::path_exists(ITERM_APP_PATH);
        resolve_terminal(pref, installed)
    } else {
        pref
    }
}

/// The AppleScript that opens `terminal` running `binary_path`: iTerm2,
/// Alacritty and WezTerm by name (in their spellings), Terminal otherwise.
pub open spec fn launch_script(terminal: Seq<char>, binary_path: Seq<char>) -> Seq<char> {
    if terminal == "iTerm2"@ || terminal == "iterm2"@ || terminal == "iterm"@ {
        ITERM_HEAD@ + binary_path + ITERM_TAIL@
    } else if terminal == "Alacritty"@ || terminal == "alacritty"@ {
        ALACRITTY_HEAD@ + binary_path + SHELL_TAIL@
    } else if terminal == "WezTerm"@ || terminal == "wezterm"@ {
        WEZTERM_HEAD@ + binary_path + SHELL_TAIL@
    } else {
        TERMINAL_HEAD@ + binary_path + TERMINAL_TAIL@
    }
}

/// Builds the AppleScript that opens a terminal with the history browser,
/// without running it.
pub fn build_launch_script(terminal: &str, binary_path: &str) -> (r: String)
    ensures
        r@ == launch_script(terminal@, binary_path@),
{
    let t = chars_of(terminal);
    let (head, tail) = if eq_str(&t, "iTerm2") || eq_str(&t, "iterm2") || eq_str(&t, "iterm") {
        (ITERM_HEAD, ITERM_TAIL)
    } else if eq_str(&t, "Alacritty") || eq_str(&t, "alacritty") {
        (ALACRITTY_HEAD, SHELL_TAIL)
    } else if eq_str(&t, "WezTerm") || eq_str(&t, "wezterm") {
        (WEZTERM_HEAD, SHELL_TAIL)
    } else {
        (TERMINAL_HEAD, TERMINAL_TAIL)
    };
    let mut s = String::from_str(head);
    s.append(binary_path);
    s.append(tail);
    s
}

} // verus!
