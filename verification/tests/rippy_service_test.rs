use clis::rippy::service::{
    cleared_message, copied_message, install_message, launchd_plist, not_found_message,
    uninstall_message, INFO_PLIST,
};
use clis::rippy::tui::{list_preview, row_highlight, RowHighlight};

#[test]
fn plist_names_bundle_and_log() {
    let p = launchd_plist("/Users/me/Applications/Rippy.app", "/data/service.log");
    assert!(p.contains("<string>/Users/me/Applications/Rippy.app</string>"));
    assert_eq!(p.matches("<string>/data/service.log</string>").count(), 2);
    assert!(p.contains("<string>watch</string>"));
    assert!(p.starts_with("<?xml"));
    assert!(p.ends_with("</plist>"));
    assert!(INFO_PLIST.contains("<string>com.rippy.watcher</string>"));
}

#[test]
fn command_messages() {
    assert_eq!(cleared_message(3), "Cleared 3 entries.");
    assert_eq!(not_found_message(42), "Entry 42 not found.");
    assert_eq!(copied_message("hello\nworld"), "Copied to clipboard: hello…");
    assert_eq!(uninstall_message(false, "/A"), "No launchd service installed.");
    assert_eq!(
        uninstall_message(true, "/A"),
        "Uninstalled launchd service. App bundle kept at: /A\n  To remove everything: rm -rf /A"
    );
    let m = install_message("/A", "Cmd+Shift+V");
    assert!(m.starts_with("Installed launchd service.\n"));
    assert!(m.contains("\nApp bundle: /A"));
    assert!(m.contains("Global hotkey (Cmd+Shift+V) is active."));
}

#[test]
fn preview_takes_first_line_up_to_limit() {
    assert_eq!(list_preview("one\ntwo"), "one");
    assert_eq!(list_preview(""), "");
    let long = "x".repeat(250);
    assert_eq!(list_preview(&long).chars().count(), 200);
    assert_eq!(list_preview("a\r\nb"), "a");
}

#[test]
fn row_highlight_priority() {
    assert_eq!(row_highlight(true, true, true), RowHighlight::Selected);
    assert_eq!(row_highlight(false, true, true), RowHighlight::Copied);
    assert_eq!(row_highlight(false, false, true), RowHighlight::Marked);
    assert_eq!(row_highlight(false, false, false), RowHighlight::Plain);
}
