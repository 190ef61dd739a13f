use clis::rippy::entries::ClipEntry;
use clis::rippy::tui::{apply_action, handle_key, Action, App, Effect};
use clis::tui_core::{make_test_key, make_test_key_with_mods, KeyCode, KeyModifiers, Mode, NavAction};

fn entry(id: i64, content: &str) -> ClipEntry {
    ClipEntry {
        id,
        content: content.to_string(),
        hash: String::new(),
        timestamp: 0,
        app_name: None,
        pinned: false,
    }
}

fn test_app(contents: &[&str]) -> App {
    // newest first, as the store lists them
    let n = contents.len() as i64;
    let entries: Vec<ClipEntry> = contents.iter().enumerate().rev().map(|(i, c)| entry(i as i64 + 1, c)).collect();
    assert_eq!(entries.len() as i64, n);
    App::new(entries)
}

#[test]
fn toggle_multi_select_adds_and_removes() {
    let mut app = test_app(&["aaa", "bbb", "ccc"]);
    assert!(app.multi_selected.is_empty());

    // Select first entry
    apply_action(&mut app, Action::ToggleMultiSelect);
    assert_eq!(app.multi_selected.len(), 1);
    let first_id = app.selected_entry().unwrap().id;
    assert!(app.multi_selected.contains(&first_id));

    // Toggle again to deselect
    apply_action(&mut app, Action::ToggleMultiSelect);
    assert!(app.multi_selected.is_empty());
}

#[test]
fn multi_select_multiple_entries() {
    let mut app = test_app(&["aaa", "bbb", "ccc"]);

    // Select first
    apply_action(&mut app, Action::ToggleMultiSelect);
    // Move down and select second
    apply_action(&mut app, Action::Nav(NavAction::MoveDown));
    apply_action(&mut app, Action::ToggleMultiSelect);

    assert_eq!(app.multi_selected.len(), 2);
}

#[test]
fn refilter_clears_multi_select() {
    let mut app = test_app(&["aaa", "bbb", "ccc"]);
    apply_action(&mut app, Action::ToggleMultiSelect);
    assert_eq!(app.multi_selected.len(), 1);

    // Typing a character triggers refilter, which clears selections
    apply_action(&mut app, Action::Nav(NavAction::EnterInsert));
    apply_action(&mut app, Action::Nav(NavAction::TypeChar('a')));
    assert!(app.multi_selected.is_empty());
}

#[test]
fn multi_select_empty_list_is_noop() {
    let mut app = test_app(&[]);
    apply_action(&mut app, Action::ToggleMultiSelect);
    assert!(app.multi_selected.is_empty());
}

#[test]
fn copy_single_entry_and_quit() {
    let mut app = test_app(&["aaa", "bbb"]);
    let effect = apply_action(&mut app, Action::CopyAndQuit);
    assert_eq!(effect, Effect::Copy("bbb".to_string()));
    assert_eq!(app.copied_id, Some(2));
    assert!(app.should_quit);
}

#[test]
fn copy_marked_entries_in_list_order() {
    let mut app = test_app(&["aaa", "bbb", "ccc"]);
    // rows: ccc, bbb, aaa; mark ccc and aaa
    apply_action(&mut app, Action::ToggleMultiSelect);
    apply_action(&mut app, Action::Nav(NavAction::MoveToBottom));
    apply_action(&mut app, Action::ToggleMultiSelect);
    let effect = apply_action(&mut app, Action::CopyAndQuit);
    assert_eq!(effect, Effect::Copy("ccc\naaa".to_string()));
}

#[test]
fn delete_and_pin_ask_the_store() {
    let mut app = test_app(&["aaa", "bbb"]);
    assert_eq!(apply_action(&mut app, Action::DeleteSelected), Effect::Delete(2));
    assert_eq!(apply_action(&mut app, Action::TogglePinSelected), Effect::TogglePin(2));
    let mut empty = test_app(&[]);
    assert_eq!(apply_action(&mut empty, Action::DeleteSelected), Effect::Nothing);
}

#[test]
fn refresh_keeps_selection_on_same_entry() {
    let mut app = test_app(&["aaa", "bbb", "ccc"]);
    apply_action(&mut app, Action::Nav(NavAction::MoveDown)); // on bbb (id 2)
    // a new entry arrives at the top
    let entries = vec![entry(4, "ddd"), entry(3, "ccc"), entry(2, "bbb"), entry(1, "aaa")];
    app.refresh(entries);
    assert_eq!(app.selected, 2);
    assert_eq!(app.selected_entry().unwrap().id, 2);
}

#[test]
fn preview_scroll_resets_when_selection_moves() {
    let mut app = test_app(&["aaa", "bbb"]);
    apply_action(&mut app, Action::ScrollPreviewDown);
    apply_action(&mut app, Action::ScrollPreviewDown);
    assert_eq!(app.preview_scroll, 6);
    apply_action(&mut app, Action::ScrollPreviewUp);
    assert_eq!(app.preview_scroll, 3);
    apply_action(&mut app, Action::Nav(NavAction::MoveDown));
    assert_eq!(app.preview_scroll, 0);
}

#[test]
fn browser_keys() {
    let mut pending = Some('d');
    assert_eq!(handle_key(make_test_key(KeyCode::Char('d')), Mode::Normal, &mut pending), Action::DeleteSelected);
    assert!(pending.is_none());
    let mut pending = Some('d');
    assert_eq!(handle_key(make_test_key(KeyCode::Char('x')), Mode::Normal, &mut pending), Action::Nav(NavAction::Noop));
    let mut pending = None;
    assert_eq!(handle_key(make_test_key(KeyCode::Char('s')), Mode::Normal, &mut pending), Action::TogglePinSelected);
    assert_eq!(handle_key(make_test_key(KeyCode::Char('p')), Mode::Normal, &mut pending), Action::TogglePreview);
    assert_eq!(handle_key(make_test_key(KeyCode::Char(' ')), Mode::Normal, &mut pending), Action::ToggleMultiSelect);
    assert_eq!(
        handle_key(make_test_key_with_mods(KeyCode::Char('j'), KeyModifiers::control()), Mode::Normal, &mut pending),
        Action::ScrollPreviewDown
    );
    assert_eq!(
        handle_key(make_test_key_with_mods(KeyCode::Char('k'), KeyModifiers::control()), Mode::Normal, &mut pending),
        Action::ScrollPreviewUp
    );
    // in insert mode these are typed
    assert_eq!(handle_key(make_test_key(KeyCode::Char('s')), Mode::Insert, &mut pending), Action::Nav(NavAction::TypeChar('s')));
    assert_eq!(handle_key(make_test_key(KeyCode::Enter), Mode::Normal, &mut pending), Action::CopyAndQuit);
    // a lone `d` starts the combination and waits for the second
    let mut pending = None;
    assert_eq!(handle_key(make_test_key(KeyCode::Char('d')), Mode::Normal, &mut pending), Action::Nav(NavAction::Noop));
    assert_eq!(pending, Some('d'));
    assert_eq!(handle_key(make_test_key(KeyCode::Char('d')), Mode::Normal, &mut pending), Action::DeleteSelected);
    assert_eq!(pending, None);
}
