use clis::cdt::conflicts::changed_file_list;
use clis::cdt::tui::status_text as cdt_status;
use clis::rippy::tui::status_text as rippy_status;
use clis::cdt::scanner::{summarize, Workspace};
use clis::tui_core::{handle_key, make_test_key, make_test_key_with_mods, mode_label, search_bar_text, KeyCode, KeyModifiers, Mode, NavAction};

#[test]
fn rippy_status_line() {
    assert_eq!(rippy_status(3, 10, true, Mode::Normal, true, 2), " Copied! ");
    assert_eq!(
        rippy_status(3, 10, false, Mode::Normal, false, 0),
        " 3/10 │ j/k move │ Space select │ Enter copy │ s pin │ dd delete │ p preview │ / search │ ? help │ q quit"
    );
    assert_eq!(
        rippy_status(3, 10, false, Mode::Normal, true, 2),
        " 3/10 (2 selected) │ j/k move │ Space select │ Enter copy │ s pin │ dd delete │ p preview │ C-j/k scroll │ / search │ ? help │ q quit"
    );
    assert_eq!(
        rippy_status(0, 0, false, Mode::Insert, true, 5),
        " 0/0 │ type to filter │ Enter copy │ Esc normal mode"
    );
}

#[test]
fn cdt_status_line() {
    assert_eq!(
        cdt_status(1, 4, Mode::Normal, "/ws/p/a"),
        " 1/4 │ j/k move │ Enter select │ / search │ ? help │ q quit  /ws/p/a"
    );
    assert_eq!(cdt_status(0, 4, Mode::Insert, ""), " 0/4 │ type to filter │ Enter select │ Esc normal  ");
}

#[test]
fn search_bar_texts() {
    assert_eq!(search_bar_text("", Mode::Insert, "Type…"), " Type…");
    assert_eq!(search_bar_text("ab", Mode::Insert, "Type…"), " ab█");
    assert_eq!(search_bar_text("", Mode::Normal, "Type…"), " Press / to search");
    assert_eq!(search_bar_text("ab", Mode::Normal, "Type…"), " ab");
    assert_eq!(mode_label("cdt", Mode::Normal), " cdt [NORMAL] ");
    assert_eq!(mode_label("rippy", Mode::Insert), " rippy [INSERT] ");
}

#[test]
fn changed_files_skip_blank_lines() {
    assert_eq!(changed_file_list("src/a.rs\n\nREADME.md\n"), vec!["src/a.rs", "README.md"]);
    assert!(changed_file_list("").is_empty());
}

fn ws(name: &str, merged: Option<bool>, dirty: bool) -> Workspace {
    Workspace {
        project: "p".into(),
        name: name.into(),
        path: format!("/ws/p/{name}"),
        merged,
        branch: None,
        last_commit: None,
        dirty,
        pr: None,
    }
}

#[test]
fn summary_counts_each_workspace_once() {
    let list = vec![ws("a", Some(true), true), ws("b", Some(false), false), ws("c", None, false)];
    assert_eq!(summarize(&list), "3 workspace(s): 1 open, 1 merged, 1 dirty, 1 unknown");
    assert_eq!(summarize(&[]), "No workspaces.");
}

#[test]
fn ctrl_c_quits_and_gg_jumps_to_top() {
    let ctrl_c = make_test_key_with_mods(KeyCode::Char('c'), KeyModifiers::control());
    let mut pending = Some('g');
    assert_eq!(handle_key(ctrl_c, Mode::Insert, &mut pending, &[]), Some(NavAction::Quit));
    let mut pending = None;
    assert_eq!(handle_key(make_test_key(KeyCode::Char('g')), Mode::Normal, &mut pending, &[]), Some(NavAction::Noop));
    assert_eq!(pending, Some('g'));
    assert_eq!(handle_key(make_test_key(KeyCode::Char('g')), Mode::Normal, &mut pending, &[]), Some(NavAction::MoveToTop));
    assert_eq!(pending, None);
    let mut pending = None;
    assert_eq!(handle_key(make_test_key(KeyCode::Char('q')), Mode::Insert, &mut pending, &[]), Some(NavAction::TypeChar('q')));
}
