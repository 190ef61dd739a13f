//! Hotkey, terminal and history settings, and the mapping of key and modifier
//! names to macOS codes.

use vstd::prelude::*;
use vstd::string::*;
use crate::text::{
    chars_of, eq_str, join_chars, join_with, lowercase, path_join, path_join_exec, push_all, push_str,
    string_of, to_lowercase, to_uppercase, uppercase, views,
};

verus! {

/// Settings of the clipboard manager.
pub struct Config {
    pub hotkey: HotkeyConfig,
    pub terminal: TerminalConfig,
    pub history: HistoryConfig,
}

/// How much history to keep.
pub struct HistoryConfig {
    /// Maximum number of entries to keep. Oldest entries are pruned on insert.
    pub max_entries: usize,
    /// Entries whose clipboard content disappears within this many seconds are
    /// deleted again (0 = disabled).
    pub auto_expire_seconds: u64,
}

/// The global hotkey.
pub struct HotkeyConfig {
    pub key: String,
    pub modifiers: Vec<String>,
}

/// The terminal application that opens the history browser.
pub struct TerminalConfig {
    pub app: String,
}

/// The views of a list of strings.
pub open spec fn string_views(v: Seq<String>) -> Seq<Seq<char>> {
    v.map_values(|s: String| s@)
}

/// Default history size.
pub fn default_max_entries() -> (n: usize)
    ensures
        n == 10_000,
{
    10_000
}

/// Default hotkey key.
pub fn default_key() -> (s: String)
    ensures
        s@ == "v"@,
{
    String::from_str("v")
}

/// Default hotkey modifiers.
pub fn default_modifiers() -> (v: Vec<String>)
    ensures
        string_views(v@) == seq!["cmd"@, "shift"@],
{
    let mut v: Vec<String> = Vec::new();
    v.push(String::from_str("cmd"));
    v.push(String::from_str("shift"));
    assert(string_views(v@) =~= seq!["cmd"@, "shift"@]);
    v
}

/// Default terminal preference.
pub fn default_app() -> (s: String)
    ensures
        s@ == "auto"@,
{
    String::from_str("auto")
}

impl Default for HistoryConfig {
    fn default() -> (r: Self)
        ensures
            r.max_entries == 10_000,
            r.auto_expire_seconds == 0,
    {
        HistoryConfig { max_entries: default_max_entries(), auto_expire_seconds: 0 }
    }
}

impl Default for HotkeyConfig {
    fn default() -> (r: Self)
        ensures
            r.key@ == "v"@,
            string_views(r.modifiers@) == seq!["cmd"@, "shift"@],
    {
        HotkeyConfig { key: default_key(), modifiers: default_modifiers() }
    }
}

impl Default for TerminalConfig {
    fn default() -> (r: Self)
        ensures
            r.app@ == "auto"@,
    {
        TerminalConfig { app: default_app() }
    }
}

impl Default for Config {
    fn default() -> (r: Self)
        ensures
            r.hotkey.key@ == "v"@,
            string_views(r.hotkey.modifiers@) == seq!["cmd"@, "shift"@],
            r.terminal.app@ == "auto"@,
            r.history.max_entries == 10_000,
            r.history.auto_expire_seconds == 0,
    {
        Config {
            hotkey: HotkeyConfig::default(),
            terminal: TerminalConfig::default(),
            history: HistoryConfig::default(),
        }
    }
}

impl Config {
    /// The configuration file inside the data directory.
    pub fn path(data_dir: &str) -> (p: String)
        ensures
            p@ == path_join(data_dir@, "config.toml"@),
    {
        path_join_exec(data_dir, "config.toml")
    }
}

/// The macOS virtual keycode of a lowercased key name.
pub open spec fn keycode_of(k: Seq<char>) -> Option<u16> {
    if k == "a"@ { Some(0x00) }
    else if k == "s"@ { Some(0x01) }
    else if k == "d"@ { Some(0x02) }
    else if k == "f"@ { Some(0x03) }
    else if k == "h"@ { Some(0x04) }
    else if k == "g"@ { Some(0x05) }
    else if k == "z"@ { Some(0x06) }
    else if k == "x"@ { Some(0x07) }
    else if k == "c"@ { Some(0x08) }
    else if k == "v"@ { Some(0x09) }
    else if k == "b"@ { Some(0x0B) }
    else if k == "q"@ { Some(0x0C) }
    else if k == "w"@ { Some(0x0D) }
    else if k == "e"@ { Some(0x0E) }
    else if k == "r"@ { Some(0x0F) }
    else if k == "y"@ { Some(0x10) }
    else if k == "t"@ { Some(0x11) }
    else if k == "1"@ { Some(0x12) }
    else if k == "2"@ { Some(0x13) }
    else if k == "3"@ { Some(0x14) }
    else if k == "4"@ { Some(0x15) }
    else if k == "6"@ { Some(0x16) }
    else if k == "5"@ { Some(0x17) }
    else if k == "9"@ { Some(0x19) }
    else if k == "7"@ { Some(0x1A) }
    else if k == "8"@ { Some(0x1C) }
    else if k == "0"@ { Some(0x1D) }
    else if k == "o"@ { Some(0x1F) }
    else if k == "u"@ { Some(0x20) }
    else if k == "i"@ { Some(0x22) }
    else if k == "p"@ { Some(0x23) }
    else if k == "l"@ { Some(0x25) }
    else if k == "j"@ { Some(0x26) }
    else if k == "k"@ { Some(0x28) }
    else if k == "n"@ { Some(0x2D) }
    else if k == "m"@ { Some(0x2E) }
    else if k == "space"@ { Some(0x31) }
    else if k == "escape"@ || k == "esc"@ { Some(0x35) }
    else if k == "f1"@ { Some(0x7A) }
    else if k == "f2"@ { Some(0x78) }
    else if k == "f3"@ { Some(0x63) }
    else if k == "f4"@ { Some(0x76) }
    else if k == "f5"@ { Some(0x60) }
    else if k == "f6"@ { Some(0x61) }
    else if k == "f7"@ { Some(0x62) }
    else if k == "f8"@ { Some(0x64) }
    else if k == "f9"@ { Some(0x65) }
    else if k == "f10"@ { Some(0x6D) }
    else if k == "f11"@ { Some(0x67) }
    else if k == "f12"@ { Some(0x6F) }
    else { None }
}

fn keycode_of_exec(k: &Vec<char>) -> (r: Option<u16>)
    ensures
        r == keycode_of(k@),
{
    if eq_str(k, "a") { Some(0x00) }
    else if eq_str(k, "s") { Some(0x01) }
    else if eq_str(k, "d") { Some(0x02) }
    else if eq_str(k, "f") { Some(0x03) }
    else if eq_str(k, "h") { Some(0x04) }
    else if eq_str(k, "g") { Some(0x05) }
    else if eq_str(k, "z") { Some(0x06) }
    else if eq_str(k, "x") { Some(0x07) }
    else if eq_str(k, "c") { Some(0x08) }
    else if eq_str(k, "v") { Some(0x09) }
    else if eq_str(k, "b") { Some(0x0B) }
    else if eq_str(k, "q") { Some(0x0C) }
    else if eq_str(k, "w") { Some(0x0D) }
    else if eq_str(k, "e") { Some(0x0E) }
    else if eq_str(k, "r") { Some(0x0F) }
    else if eq_str(k, "y") { Some(0x10) }
    else if eq_str(k, "t") { Some(0x11) }
    else if eq_str(k, "1") { Some(0x12) }
    else if eq_str(k, "2") { Some(0x13) }
    else if eq_str(k, "3") { Some(0x14) }
    else if eq_str(k, "4") { Some(0x15) }
    else if eq_str(k, "6") { Some(0x16) }
    else if eq_str(k, "5") { Some(0x17) }
    else if eq_str(k, "9") { Some(0x19) }
    else if eq_str(k, "7") { Some(0x1A) }
    else if eq_str(k, "8") { Some(0x1C) }
    else if eq_str(k, "0") { Some(0x1D) }
    else if eq_str(k, "o") { Some(0x1F) }
    else if eq_str(k, "u") { Some(0x20) }
    else if eq_str(k, "i") { Some(0x22) }
    else if eq_str(k, "p") { Some(0x23) }
    else if eq_str(k, "l") { Some(0x25) }
    else if eq_str(k, "j") { Some(0x26) }
    else if eq_str(k, "k") { Some(0x28) }
    else if eq_str(k, "n") { Some(0x2D) }
    else if eq_str(k, "m") { Some(0x2E) }
    else if eq_str(k, "space") { Some(0x31) }
    else if eq_str(k, "escape") || eq_str(k, "esc") { Some(0x35) }
    else if eq_str(k, "f1") { Some(0x7A) }
    else if eq_str(k, "f2") { Some(0x78) }
    else if eq_str(k, "f3") { Some(0x63) }
    else if eq_str(k, "f4") { Some(0x76) }
    else if eq_str(k, "f5") { Some(0x60) }
    else if eq_str(k, "f6") { Some(0x61) }
    else if eq_str(k, "f7") { Some(0x62) }
    else if eq_str(k, "f8") { Some(0x64) }
    else if eq_str(k, "f9") { Some(0x65) }
    else if eq_str(k, "f10") { Some(0x6D) }
    else if eq_str(k, "f11") { Some(0x67) }
    else if eq_str(k, "f12") { Some(0x6F) }
    else { None }
}

/// The keycode that `keycode_for` gives for a key name.
pub open spec fn keycode_spec(name: Seq<char>) -> Option<u16> {
    keycode_of(lowercase(name))
}

/// Maps a human-readable key name (any case) to a macOS virtual keycode.
pub fn keycode_for(name: &str) -> (r: Option<u16>)
    ensures
        r == keycode_spec(name@),
{
    let lower = to_lowercase(name);
    let k = chars_of(lower.as_str());
    keycode_of_exec(&k)
}

/// Key names that differ only in case map to the same keycode.
pub proof fn keycode_for_ignores_case(a: Seq<char>, b: Seq<char>)
    requires
        lowercase(a) == lowercase(b),
    ensures
        keycode_spec(a) == keycode_spec(b),
{
}

/// Different key names give different keycodes, except `escape` and `esc`;
/// every keycode is below `0x80`.
#[verifier::rlimit(100)]
pub proof fn keycodes_are_distinct(a: Seq<char>, b: Seq<char>)
    requires
        keycode_of(a) is Some,
        keycode_of(a) == keycode_of(b),
    ensures
        a == b || ((a == "escape"@ || a == "esc"@) && (b == "escape"@ || b == "esc"@)),
        keycode_of(a)->0 < 0x80,
{
}

/// The CGEventFlags bit of a lowercased modifier name.
pub open spec fn modifier_bit_of(k: Seq<char>) -> Option<u64> {
    if k == "cmd"@ || k == "command"@ {
        Some(1u64 << 20)
    } else if k == "shift"@ {
        Some(1u64 << 17)
    } else if k == "ctrl"@ || k == "control"@ {
        Some(1u64 << 18)
    } else if k == "alt"@ || k == "option"@ || k == "opt"@ {
        Some(1u64 << 19)
    } else {
        None
    }
}

/// The flag that `modifier_flag` gives for a modifier name.
pub open spec fn modifier_flag_spec(name: Seq<char>) -> Option<u64> {
    modifier_bit_of(lowercase(name))
}

/// Maps a modifier name (any case) to its CGEventFlags bitmask.
pub fn modifier_flag(name: &str) -> (r: Option<u64>)
    ensures
        r == modifier_flag_spec(name@),
{
    let lower = to_lowercase(name);
    let k = chars_of(lower.as_str());
    if eq_str(&k, "cmd") || eq_str(&k, "command") {
        Some(1u64 << 20)
    } else if eq_str(&k, "shift") {
        Some(1u64 << 17)
    } else if eq_str(&k, "ctrl") || eq_str(&k, "control") {
        Some(1u64 << 18)
    } else if eq_str(&k, "alt") || eq_str(&k, "option") || eq_str(&k, "opt") {
        Some(1u64 << 19)
    } else {
        None
    }
}

/// The four modifier flags are single, distinct bits.
pub proof fn modifier_flags_distinct_bits()
    ensures
        (1u64 << 20) & (1u64 << 17) == 0,
        (1u64 << 20) & (1u64 << 18) == 0,
        (1u64 << 20) & (1u64 << 19) == 0,
        (1u64 << 17) & (1u64 << 18) == 0,
        (1u64 << 17) & (1u64 << 19) == 0,
        (1u64 << 18) & (1u64 << 19) == 0,
        (1u64 << 20) == 0x10_0000u64,
        (1u64 << 17) == 0x2_0000u64,
        (1u64 << 18) == 0x4_0000u64,
        (1u64 << 19) == 0x8_0000u64,
{
    assert((1u64 << 20) & (1u64 << 17) == 0) by (bit_vector);
    assert((1u64 << 20) & (1u64 << 18) == 0) by (bit_vector);
    assert((1u64 << 20) & (1u64 << 19) == 0) by (bit_vector);
    assert((1u64 << 17) & (1u64 << 18) == 0) by (bit_vector);
    assert((1u64 << 17) & (1u64 << 19) == 0) by (bit_vector);
    assert((1u64 << 18) & (1u64 << 19) == 0) by (bit_vector);
    assert((1u64 << 20) == 0x10_0000u64) by (bit_vector);
    assert((1u64 << 17) == 0x2_0000u64) by (bit_vector);
    assert((1u64 << 18) == 0x4_0000u64) by (bit_vector);
    assert((1u64 << 19) == 0x8_0000u64) by (bit_vector);
}

/// The bitwise OR of the flags of the known modifier names; unknown names
/// contribute nothing.
pub open spec fn mask_of(names: Seq<Seq<char>>) -> u64
    decreases names.len(),
{
    if names.len() == 0 {
        0
    } else {
        let rest = mask_of(names.drop_last());
        match modifier_flag_spec(names.last()) {
            Some(f) => rest | f,
            None => rest,
        }
    }
}

/// Combines modifier names into a single bitmask.
pub fn modifiers_mask(names: &[String]) -> (r: u64)
    ensures
        r == mask_of(string_views(names@)),
{
    let mut acc: u64 = 0;
    let mut i: usize = 0;
    while i < names.len()
        invariant
            i <= names.len(),
            acc == mask_of(string_views(names@).take(i as int)),
        decreases names.len() - i,
    {
        let f = modifier_flag(names[i].as_str());
        proof {
            assert(string_views(names@).take(i + 1).drop_last() =~= string_views(names@).take(
                i as int,
            ));
        }
        match f {
            Some(b) => {
                acc = acc | b;
            },
            None => {},
        }
        i = i + 1;
    }
    assert(string_views(names@).take(i as int) =~= string_views(names@));
    acc
}

/// The `pbs` symbol of a lowercased modifier name (`@` Cmd, `$` Shift,
/// `^` Ctrl, `~` Option); unknown names have none.
pub open spec fn pbs_symbol(k: Seq<char>) -> Seq<char> {
    if k == "cmd"@ || k == "command"@ {
        seq!['@']
    } else if k == "shift"@ {
        seq!['$']
    } else if k == "ctrl"@ || k == "control"@ {
        seq!['^']
    } else if k == "alt"@ || k == "option"@ || k == "opt"@ {
        seq!['~']
    } else {
        Seq::empty()
    }
}

/// The symbols of the modifiers, in order.
pub open spec fn pbs_symbols(mods: Seq<Seq<char>>) -> Seq<char>
    decreases mods.len(),
{
    if mods.len() == 0 {
        Seq::empty()
    } else {
        pbs_symbols(mods.drop_last()) + pbs_symbol(lowercase(mods.last()))
    }
}

/// The `pbs` key equivalent string for a hotkey: modifier symbols followed by
/// the lowercased key.
pub open spec fn pbs_spec(key: Seq<char>, mods: Seq<Seq<char>>) -> Seq<char> {
    pbs_symbols(mods) + lowercase(key)
}

/// Converts a hotkey to the macOS `pbs` key equivalent used to bind a
/// keyboard shortcut to a Service.
pub fn pbs_key_equivalent(cfg: &HotkeyConfig) -> (r: String)
    ensures
        r@ == pbs_spec(cfg.key@, string_views(cfg.modifiers@)),
{
    let mut eq: Vec<char> = Vec::new();
    let mut i: usize = 0;
    while i < cfg.modifiers.len()
        invariant
            i <= cfg.modifiers.len(),
            eq@ == pbs_symbols(string_views(cfg.modifiers@).take(i as int)),
        decreases cfg.modifiers.len() - i,
    {
        let lower = to_lowercase(cfg.modifiers[i].as_str());
        let k = chars_of(lower.as_str());
        proof {
            assert(string_views(cfg.modifiers@).take(i + 1).drop_last() =~= string_views(
                cfg.modifiers@,
            ).take(i as int));
        }
        let ghost before = eq@;
        if eq_str(&k, "cmd") || eq_str(&k, "command") {
            eq.push('@');
        } else if eq_str(&k, "shift") {
            eq.push('$');
        } else if eq_str(&k, "ctrl") || eq_str(&k, "control") {
            eq.push('^');
        } else if eq_str(&k, "alt") || eq_str(&k, "option") || eq_str(&k, "opt") {
            eq.push('~');
        }
        assert(eq@ =~= before + pbs_symbol(k@));
        i = i + 1;
    }
    assert(string_views(cfg.modifiers@).take(i as int) =~= string_views(cfg.modifiers@));
    let lower_key = to_lowercase(cfg.key.as_str());
    let mut out = string_of(&eq);
    out.append(lower_key.as_str());
    out
}

/// The display name of a modifier as written (`cmd` shows as `Cmd`, ...);
/// names that are not recognised show as themselves.
pub open spec fn modifier_display(m: Seq<char>) -> Seq<char> {
    if m == "cmd"@ || m == "command"@ {
        "Cmd"@
    } else if m == "shift"@ {
        "Shift"@
    } else if m == "ctrl"@ || m == "control"@ {
        "Ctrl"@
    } else if m == "alt"@ || m == "option"@ || m == "opt"@ {
        "Opt"@
    } else {
        m
    }
}

/// The text of `format_hotkey`: display names joined by `+`, then `+` and the
/// uppercased key.
pub open spec fn hotkey_text(key: Seq<char>, mods: Seq<Seq<char>>) -> Seq<char> {
    join_with(mods.map_values(|m: Seq<char>| modifier_display(m)), "+"@) + "+"@ + uppercase(key)
}

/// Formats a hotkey as a human-readable string such as `Cmd+Shift+V`.
pub fn format_hotkey(cfg: &HotkeyConfig) -> (r: String)
    ensures
        r@ == hotkey_text(cfg.key@, string_views(cfg.modifiers@)),
{
    let mut names: Vec<Vec<char>> = Vec::new();
    let mut i: usize = 0;
    while i < cfg.modifiers.len()
        invariant
            i <= cfg.modifiers.len(),
            views(names@) == string_views(cfg.modifiers@).take(i as int).map_values(
                |m: Seq<char>| modifier_display(m),
            ),
        decreases cfg.modifiers.len() - i,
    {
        let m = chars_of(cfg.modifiers[i].as_str());
        let ghost mv = m@;
        let shown = if eq_str(&m, "cmd") || eq_str(&m, "command") {
            chars_of("Cmd")
        } else if eq_str(&m, "shift") {
            chars_of("Shift")
        } else if eq_str(&m, "ctrl") || eq_str(&m, "control") {
            chars_of("Ctrl")
        } else if eq_str(&m, "alt") || eq_str(&m, "option") || eq_str(&m, "opt") {
            chars_of("Opt")
        } else {
            m
        };
        assert(shown@ == modifier_display(mv));
        assert(mv == string_views(cfg.modifiers@)[i as int]);
        let ghost before = views(names@);
        names.push(shown);
        assert(views(names@) =~= before.push(modifier_display(mv)));
        assert(views(names@) =~= string_views(cfg.modifiers@).take(i + 1).map_values(
            |m: Seq<char>| modifier_display(m),
        ));
        i = i + 1;
    }
    assert(string_views(cfg.modifiers@).take(i as int) =~= string_views(cfg.modifiers@));
    let mut out = join_chars(&names, "+");
    push_str(&mut out, "+");
    let upper = to_uppercase(cfg.key.as_str());
    let up = chars_of(upper.as_str());
    push_all(&mut out, &up);
    string_of(&out)
}

} // verus!
