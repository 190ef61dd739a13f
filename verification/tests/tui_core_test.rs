use clis::tui_core::{
    adjust_scroll, apply_navigation, handle_key, make_test_key, make_test_key_with_mods, KeyCode,
    KeyModifiers, Mode, NavAction,
};


// --- handle_key tests ---

#[test]
fn lib_ctrl_c_always_quits() {
    let mut pending = None;
    assert_eq!(
        handle_key(make_test_key_with_mods(KeyCode::Char('c'), KeyModifiers::control()), Mode::Normal, &mut pending, &[]),
        Some(NavAction::Quit)
    );
    assert_eq!(
        handle_key(make_test_key_with_mods(KeyCode::Char('c'), KeyModifiers::control()), Mode::Insert, &mut pending, &[]),
        Some(NavAction::Quit)
    );
}

#[test]
fn lib_normal_q_quits() {
    let mut pending = None;
    assert_eq!(handle_key(make_test_key(KeyCode::Char('q')), Mode::Normal, &mut pending, &[]), Some(NavAction::Quit));
}

#[test]
fn lib_normal_esc_quits() {
    let mut pending = None;
    assert_eq!(handle_key(make_test_key(KeyCode::Esc), Mode::Normal, &mut pending, &[]), Some(NavAction::Quit));
}

#[test]
fn lib_normal_j_moves_down() {
    let mut pending = None;
    assert_eq!(handle_key(make_test_key(KeyCode::Char('j')), Mode::Normal, &mut pending, &[]), Some(NavAction::MoveDown));
}

#[test]
fn lib_normal_k_moves_up() {
    let mut pending = None;
    assert_eq!(handle_key(make_test_key(KeyCode::Char('k')), Mode::Normal, &mut pending, &[]), Some(NavAction::MoveUp));
}

#[test]
fn lib_normal_big_g_moves_to_bottom() {
    let mut pending = None;
    assert_eq!(handle_key(make_test_key(KeyCode::Char('G')), Mode::Normal, &mut pending, &[]), Some(NavAction::MoveToBottom));
}

#[test]
fn lib_normal_gg_moves_to_top() {
    let mut pending = None;
    let action = handle_key(make_test_key(KeyCode::Char('g')), Mode::Normal, &mut pending, &[]);
    assert_eq!(action, Some(NavAction::Noop));
    assert_eq!(pending, Some('g'));
    let action = handle_key(make_test_key(KeyCode::Char('g')), Mode::Normal, &mut pending, &[]);
    assert_eq!(action, Some(NavAction::MoveToTop));
    assert!(pending.is_none());
}

#[test]
fn normal_g_then_other_is_noop() {
    let mut pending = None;
    handle_key(make_test_key(KeyCode::Char('g')), Mode::Normal, &mut pending, &[]);
    let action = handle_key(make_test_key(KeyCode::Char('x')), Mode::Normal, &mut pending, &[]);
    assert_eq!(action, Some(NavAction::Noop));
}

#[test]
fn normal_n_next_match() {
    let mut pending = None;
    assert_eq!(handle_key(make_test_key(KeyCode::Char('n')), Mode::Normal, &mut pending, &[]), Some(NavAction::NextMatch));
}

#[test]
fn normal_shift_n_prev_match() {
    let mut pending = None;
    assert_eq!(handle_key(make_test_key(KeyCode::Char('N')), Mode::Normal, &mut pending, &[]), Some(NavAction::PrevMatch));
}

#[test]
fn normal_question_mark_shows_help() {
    let mut pending = None;
    assert_eq!(handle_key(make_test_key(KeyCode::Char('?')), Mode::Normal, &mut pending, &[]), Some(NavAction::ShowHelp));
}

#[test]
fn lib_normal_slash_enters_insert() {
    let mut pending = None;
    assert_eq!(handle_key(make_test_key(KeyCode::Char('/')), Mode::Normal, &mut pending, &[]), Some(NavAction::EnterInsert));
}

#[test]
fn lib_normal_ctrl_d_half_page_down() {
    let mut pending = None;
    assert_eq!(
        handle_key(make_test_key_with_mods(KeyCode::Char('d'), KeyModifiers::control()), Mode::Normal, &mut pending, &[]),
        Some(NavAction::HalfPageDown)
    );
}

#[test]
fn lib_normal_ctrl_u_half_page_up() {
    let mut pending = None;
    assert_eq!(
        handle_key(make_test_key_with_mods(KeyCode::Char('u'), KeyModifiers::control()), Mode::Normal, &mut pending, &[]),
        Some(NavAction::HalfPageUp)
    );
}

#[test]
fn normal_enter_returns_none() {
    let mut pending = None;
    assert_eq!(handle_key(make_test_key(KeyCode::Enter), Mode::Normal, &mut pending, &[]), None);
}

#[test]
fn lib_insert_esc_exits() {
    let mut pending = None;
    assert_eq!(handle_key(make_test_key(KeyCode::Esc), Mode::Insert, &mut pending, &[]), Some(NavAction::ExitInsert));
}

#[test]
fn insert_enter_returns_none() {
    let mut pending = None;
    assert_eq!(handle_key(make_test_key(KeyCode::Enter), Mode::Insert, &mut pending, &[]), None);
}

#[test]
fn lib_insert_char_types() {
    let mut pending = None;
    assert_eq!(handle_key(make_test_key(KeyCode::Char('a')), Mode::Insert, &mut pending, &[]), Some(NavAction::TypeChar('a')));
}

#[test]
fn lib_insert_backspace() {
    let mut pending = None;
    assert_eq!(handle_key(make_test_key(KeyCode::Backspace), Mode::Insert, &mut pending, &[]), Some(NavAction::Backspace));
}

#[test]
fn lib_insert_ctrl_u_clears() {
    let mut pending = None;
    assert_eq!(
        handle_key(make_test_key_with_mods(KeyCode::Char('u'), KeyModifiers::control()), Mode::Insert, &mut pending, &[]),
        Some(NavAction::ClearSearch)
    );
}

#[test]
fn lib_insert_arrows_navigate() {
    let mut pending = None;
    assert_eq!(handle_key(make_test_key(KeyCode::Up), Mode::Insert, &mut pending, &[]), Some(NavAction::MoveUp));
    assert_eq!(handle_key(make_test_key(KeyCode::Down), Mode::Insert, &mut pending, &[]), Some(NavAction::MoveDown));
}

#[test]
fn extra_pending_key_returns_none() {
    let mut pending = None;
    let action = handle_key(make_test_key(KeyCode::Char('d')), Mode::Normal, &mut pending, &['d']);
    assert_eq!(action, None);
    assert_eq!(pending, Some('d'));
}

#[test]
fn extra_pending_combo_returns_none() {
    let mut pending = Some('d');
    let action = handle_key(make_test_key(KeyCode::Char('d')), Mode::Normal, &mut pending, &['d']);
    // 'd' is not 'g', so the combo ('d','d') falls through to the extra_pending branch
    assert_eq!(action, None);
}

// --- apply_navigation tests ---

#[test]
fn nav_move_up() {
    assert_eq!(apply_navigation(&NavAction::MoveUp, 2, 5, 10), 1);
}

#[test]
fn nav_move_up_at_top() {
    assert_eq!(apply_navigation(&NavAction::MoveUp, 0, 5, 10), 0);
}

#[test]
fn nav_move_down() {
    assert_eq!(apply_navigation(&NavAction::MoveDown, 1, 5, 10), 2);
}

#[test]
fn nav_move_down_at_bottom() {
    assert_eq!(apply_navigation(&NavAction::MoveDown, 4, 5, 10), 4);
}

#[test]
fn nav_move_to_top() {
    assert_eq!(apply_navigation(&NavAction::MoveToTop, 3, 5, 10), 0);
}

#[test]
fn nav_move_to_bottom() {
    assert_eq!(apply_navigation(&NavAction::MoveToBottom, 0, 5, 10), 4);
}

#[test]
fn nav_half_page_down() {
    assert_eq!(apply_navigation(&NavAction::HalfPageDown, 0, 5, 4), 2);
}

#[test]
fn nav_half_page_up() {
    assert_eq!(apply_navigation(&NavAction::HalfPageUp, 4, 5, 4), 2);
}

#[test]
fn nav_half_page_down_clamps() {
    assert_eq!(apply_navigation(&NavAction::HalfPageDown, 3, 5, 20), 4);
}

#[test]
fn nav_next_match_wraps() {
    assert_eq!(apply_navigation(&NavAction::NextMatch, 4, 5, 10), 0);
}

#[test]
fn nav_next_match_advances() {
    assert_eq!(apply_navigation(&NavAction::NextMatch, 2, 5, 10), 3);
}

#[test]
fn nav_prev_match_wraps() {
    assert_eq!(apply_navigation(&NavAction::PrevMatch, 0, 5, 10), 4);
}

#[test]
fn nav_prev_match_retreats() {
    assert_eq!(apply_navigation(&NavAction::PrevMatch, 3, 5, 10), 2);
}

#[test]
fn nav_next_match_empty() {
    assert_eq!(apply_navigation(&NavAction::NextMatch, 0, 0, 10), 0);
}

#[test]
fn nav_prev_match_empty() {
    assert_eq!(apply_navigation(&NavAction::PrevMatch, 0, 0, 10), 0);
}

#[test]
fn nav_empty_list() {
    assert_eq!(apply_navigation(&NavAction::MoveDown, 0, 0, 10), 0);
    assert_eq!(apply_navigation(&NavAction::MoveToBottom, 0, 0, 10), 0);
    assert_eq!(apply_navigation(&NavAction::HalfPageDown, 0, 0, 10), 0);
}

// --- compute_filtered tests ---

#[test]
fn scroll_follows_selection_down() {
    let mut offset = 0;
    adjust_scroll(5, &mut offset, 3);
    assert_eq!(offset, 3); // 5 - 3 + 1
}

#[test]
fn scroll_follows_selection_up() {
    let mut offset = 5;
    adjust_scroll(2, &mut offset, 3);
    assert_eq!(offset, 2);
}

#[test]
fn scroll_stays_when_visible() {
    let mut offset = 2;
    adjust_scroll(3, &mut offset, 5);
    assert_eq!(offset, 2); // 3 is within 2..7
}

#[test]
fn help_popup_is_centred() {
    // 80x24 area, keys 15 wide, descriptions 26 wide, 9 bindings
    assert_eq!(clis::tui_core::help_popup(0, 0, 80, 24, 15, 26, 9), (15, 5, 50, 13));
    // a small area shrinks the popup to leave a margin
    assert_eq!(clis::tui_core::help_popup(2, 1, 20, 10, 15, 26, 9), (4, 2, 16, 8));
    assert!(clis::tui_core::nav_fits_check(clis::tui_core::NavAction::MoveDown, 3, 10, 5));
    assert!(!clis::tui_core::nav_fits_check(clis::tui_core::NavAction::MoveDown, usize::MAX, 10, 5));
}
