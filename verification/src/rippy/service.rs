//! Texts of the command line: the launchd service and its app bundle, and
//! the answers of the copy and clear commands.

use vstd::prelude::*;
use crate::rippy::entries::{truncate, truncatable, truncate_spec};
use crate::text::{chars_of, decimal, push_all, push_decimal, push_str, string_of};

verus! {

/// The `Info.plist` of the app bundle that wraps the watcher, so that macOS
/// can grant it Accessibility permission by name.
pub const INFO_PLIST: &'static str = "<?xml version=\"1.0\" encoding=\"UTF-8\"?>\n<!DOCTYPE plist PUBLIC \"-//Apple//DTD PLIST 1.0//EN\" \"http://www.apple.com/DTDs/PropertyList-1.0.dtd\">\n<plist version=\"1.0\">\n<dict>\n    <key>CFBundleIdentifier</key>\n    <string>com.rippy.watcher</string>\n    <key>CFBundleName</key>\n    <string>Rippy</string>\n    <key>CFBundleExecutable</key>\n    <string>rippy</string>\n    <key>LSUIElement</key>\n    <true/>\n</dict>\n</plist>";

/// The part of the launchd job before the bundle's path.
pub const PLIST_HEAD: &'static str = "<?xml version=\"1.0\" encoding=\"UTF-8\"?>\n<!DOCTYPE plist PUBLIC \"-//Apple//DTD PLIST 1.0//EN\" \"http://www.apple.com/DTDs/PropertyList-1.0.dtd\">\n<plist version=\"1.0\">\n<dict>\n    <key>Label</key>\n    <string>com.rippy.watcher</string>\n    <key>ProgramArguments</key>\n    <array>\n        <string>/usr/bin/open</string>\n        <string>-W</string>\n        <string>";

/// The part between the bundle's path and the first log path.
pub const PLIST_MIDDLE: &'static str = "</string>\n        <string>--args</string>\n        <string>watch</string>\n    </array>\n    <key>RunAtLoad</key>\n    <true/>\n    <key>KeepAlive</key>\n    <true/>\n    <key>AssociatedBundleIdentifiers</key>\n    <string>com.rippy.watcher</string>\n    <key>StandardErrorPath</key>\n    <string>";

/// The part between the two log paths.
pub const PLIST_LOG_SEP: &'static str = "</string>\n    <key>StandardOutPath</key>\n    <string>";

/// The end of the launchd job.
pub const PLIST_TAIL: &'static str = "</string>\n</dict>\n</plist>";

/// The launchd job, which opens the app bundle at `app_path` with the
/// argument `watch`, keeps it alive, and sends both outputs to `log_path`.
pub open spec fn launchd_plist_text(app_path: Seq<char>, log_path: Seq<char>) -> Seq<char> {
    PLIST_HEAD@ + app_path + PLIST_MIDDLE@ + log_path + PLIST_LOG_SEP@ + log_path + PLIST_TAIL@
}

/// The launchd job for the bundle at `app_path`, logging to `log_path`.
pub fn launchd_plist(app_path: &str, log_path: &str) -> (r: String)
    ensures
        r@ == launchd_plist_text(app_path@, log_path@),
{
    let mut out: Vec<char> = Vec::new();
    push_str(&mut out, PLIST_HEAD);
    push_str(&mut out, app_path);
    push_str(&mut out, PLIST_MIDDLE);
    push_str(&mut out, log_path);
    push_str(&mut out, PLIST_LOG_SEP);
    push_str(&mut out, log_path);
    push_str(&mut out, PLIST_TAIL);
    string_of(&out)
}

/// What `install` reports: the service, the bundle's place, the hotkey and
/// the permission it needs.
pub open spec fn install_text(bundle_dir: Seq<char>, hotkey: Seq<char>) -> Seq<char> {
    "Installed launchd service.\nClipboard is now monitored 24/7, even when rippy isn't open."@
        + "\nApp bundle: "@ + bundle_dir
        + "\n\nGlobal hotkey ("@ + hotkey
        + ") is active. To change it: rippy hotkey set --key <key> --modifiers <mods>"@
        + "\n\nNote: The hotkey requires Accessibility permission."@
        + "\n  Grant it to \"Rippy\" in System Settings > Privacy & Security > Accessibility"@
}

/// The report of `install` for the bundle at `bundle_dir` and the hotkey
/// written as `hotkey`.
pub fn install_message(bundle_dir: &str, hotkey: &str) -> (r: String)
    ensures
        r@ == install_text(bundle_dir@, hotkey@),
{
    let mut out: Vec<char> = Vec::new();
    push_str(&mut out, "Installed launchd service.\nClipboard is now monitored 24/7, even when rippy isn't open.");
    push_str(&mut out, "\nApp bundle: ");
    push_str(&mut out, bundle_dir);
    push_str(&mut out, "\n\nGlobal hotkey (");
    push_str(&mut out, hotkey);
    push_str(&mut out, ") is active. To change it: rippy hotkey set --key <key> --modifiers <mods>");
    push_str(&mut out, "\n\nNote: The hotkey requires Accessibility permission.");
    push_str(&mut out, "\n  Grant it to \"Rippy\" in System Settings > Privacy & Security > Accessibility");
    string_of(&out)
}

/// What `uninstall` reports: nothing was installed, or the job is gone and
/// the bundle at `bundle_dir` is kept.
pub open spec fn uninstall_text(installed: bool, bundle_dir: Seq<char>) -> Seq<char> {
    if installed {
        "Uninstalled launchd service. App bundle kept at: "@ + bundle_dir
            + "\n  To remove everything: rm -rf "@ + bundle_dir
    } else {
        "No launchd service installed."@
    }
}

/// The report of `uninstall`, where `installed` says whether a job was there.
pub fn uninstall_message(installed: bool, bundle_dir: &str) -> (r: String)
    ensures
        r@ == uninstall_text(installed, bundle_dir@),
{
    let mut out: Vec<char> = Vec::new();
    if installed {
        push_str(&mut out, "Uninstalled launchd service. App bundle kept at: ");
        push_str(&mut out, bundle_dir);
        push_str(&mut out, "\n  To remove everything: rm -rf ");
        push_str(&mut out, bundle_dir);
    } else {
        push_str(&mut out, "No launchd service installed.");
    }
    string_of(&out)
}

/// The width, in bytes, to which `copy` shortens what it reports.
pub const COPY_PREVIEW_BYTES: usize = 60;

/// The report of `copy` for an entry holding `content`.
pub fn copied_message(content: &str) -> (r: String)
    requires
        truncatable(content@, COPY_PREVIEW_BYTES as nat),
    ensures
        r@ == "Copied to clipboard: "@ + truncate_spec(content@, COPY_PREVIEW_BYTES as nat),
{
    let t = truncate(content, COPY_PREVIEW_BYTES);
    let tv = chars_of(&t);
    let mut out: Vec<char> = Vec::new();
    push_str(&mut out, "Copied to clipboard: ");
    push_all(&mut out, &tv);
    string_of(&out)
}

/// The report of `copy` for an id that names no entry.
pub fn not_found_message(id: i64) -> (r: String)
    ensures
        r@ == "Entry "@ + crate::text::decimal_signed(id as int) + " not found."@,
{
    let mut out: Vec<char> = Vec::new();
    push_str(&mut out, "Entry ");
    crate::text::push_decimal_signed(&mut out, id);
    push_str(&mut out, " not found.");
    string_of(&out)
}

/// The report of `clear`, which removed `count` entries.
pub fn cleared_message(count: usize) -> (r: String)
    ensures
        r@ == "Cleared "@ + decimal(count as nat) + " entries."@,
{
    let mut out: Vec<char> = Vec::new();
    push_str(&mut out, "Cleared ");
    push_decimal(&mut out, count as u64);
    push_str(&mut out, " entries.");
    string_of(&out)
}

} // verus!
