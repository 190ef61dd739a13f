//! The vim-modal key handling, navigation and scrolling shared by the
//! terminal interfaces.

use vstd::prelude::*;

pub use crate::ranking::compute_filtered;

verus! {

/// Whether keys edit the search query or navigate.
#[derive(Clone, Copy, Debug, PartialEq, Eq, Structural)]
pub enum Mode {
    Normal,
    Insert,
}

/// Actions shared by every modal interface. Keys that an application handles
/// itself are answered with `None` by `handle_key`.
#[derive(Clone, Copy, Debug, PartialEq, Eq, Structural)]
pub enum NavAction {
    Quit,
    MoveUp,
    MoveDown,
    MoveToTop,
    MoveToBottom,
    HalfPageUp,
    HalfPageDown,
    NextMatch,
    PrevMatch,
    ShowHelp,
    EnterInsert,
    ExitInsert,
    TypeChar(char),
    Backspace,
    ClearSearch,
    Noop,
}

/// A key, as the terminal reports it; keys that no binding names are `Other`.
#[derive(Clone, Copy, Debug, PartialEq, Eq, Structural)]
pub enum KeyCode {
    Backspace,
    Enter,
    Left,
    Right,
    Up,
    Down,
    Home,
    End,
    PageUp,
    PageDown,
    Tab,
    BackTab,
    Delete,
    Insert,
    F(u8),
    Char(char),
    Null,
    Esc,
    Other,
}

/// The modifier keys held with a key, as a set of bits.
#[derive(Clone, Copy, Debug, PartialEq, Eq, Structural)]
pub struct KeyModifiers {
    pub bits: u8,
}

impl KeyModifiers {
    /// No modifier.
    pub fn none() -> (r: KeyModifiers)
        ensures
            r.bits == 0,
    {
        KeyModifiers { bits: 0 }
    }

    /// Shift.
    pub fn shift() -> (r: KeyModifiers)
        ensures
            r.bits == 1,
    {
        KeyModifiers { bits: 1 }
    }

    /// Control.
    pub fn control() -> (r: KeyModifiers)
        ensures
            r.bits == 2,
    {
        KeyModifiers { bits: 2 }
    }

    /// Alt.
    pub fn alt() -> (r: KeyModifiers)
        ensures
            r.bits == 4,
    {
        KeyModifiers { bits: 4 }
    }

    /// Every bit of `other` is held.
    pub open spec fn has(self, other: KeyModifiers) -> bool {
        self.bits & other.bits == other.bits
    }

    /// Whether every modifier of `other` is held.
    pub fn contains(&self, other: KeyModifiers) -> (r: bool)
        ensures
            r == self.has(other),
    {
        self.bits & other.bits == other.bits
    }

    /// Whether no modifier is held.
    pub fn is_empty(&self) -> (r: bool)
        ensures
            r == (self.bits == 0),
    {
        self.bits == 0
    }
}

/// A key press: the key and the modifiers held with it.
#[derive(Clone, Copy, Debug, PartialEq, Eq, Structural)]
pub struct KeyEvent {
    pub code: KeyCode,
    pub modifiers: KeyModifiers,
}

/// Control is held.
pub open spec fn ctrl_held(key: KeyEvent) -> bool {
    key.modifiers.has(KeyModifiers { bits: 2 })
}

/// What a key does in insert mode.
pub open spec fn insert_action(key: KeyEvent) -> Option<NavAction> {
    match key.code {
        KeyCode::Esc => Some(NavAction::ExitInsert),
        KeyCode::Enter => None,
        KeyCode::Backspace => Some(NavAction::Backspace),
        KeyCode::Char(c) => if c == 'u' && ctrl_held(key) {
            Some(NavAction::ClearSearch)
        } else {
            Some(NavAction::TypeChar(c))
        },
        KeyCode::Up => Some(NavAction::MoveUp),
        KeyCode::Down => Some(NavAction::MoveDown),
        _ => Some(NavAction::Noop),
    }
}

/// What a key does in normal mode, as the action and the pending key after
/// it, given the pending key before it and the keys that start an
/// application's own combination.
pub open spec fn normal_step(key: KeyEvent, pending: Option<char>, extra: Seq<char>) -> (
    Option<NavAction>,
    Option<char>,
) {
    match pending {
        Some(first) => if first == 'g' && key.code == KeyCode::Char('g') {
            (Some(NavAction::MoveToTop), None)
        } else if extra.contains(first) {
            (None, None)
        } else {
            (Some(NavAction::Noop), None)
        },
        None => if ctrl_held(key) {
            (
                match key.code {
                    KeyCode::Char('u') => Some(NavAction::HalfPageUp),
                    KeyCode::Char('d') => Some(NavAction::HalfPageDown),
                    _ => Some(NavAction::Noop),
                },
                None,
            )
        } else {
            match key.code {
                KeyCode::Esc => (Some(NavAction::Quit), None),
                KeyCode::Down => (Some(NavAction::MoveDown), None),
                KeyCode::Up => (Some(NavAction::MoveUp), None),
                KeyCode::Enter => (None, None),
                KeyCode::Char(c) => if c == 'q' {
                    (Some(NavAction::Quit), None)
                } else if c == 'j' {
                    (Some(NavAction::MoveDown), None)
                } else if c == 'k' {
                    (Some(NavAction::MoveUp), None)
                } else if c == 'G' {
                    (Some(NavAction::MoveToBottom), None)
                } else if c == 'g' {
                    (Some(NavAction::Noop), Some('g'))
                } else if c == 'n' {
                    (Some(NavAction::NextMatch), None)
                } else if c == 'N' {
                    (Some(NavAction::PrevMatch), None)
                } else if c == '?' {
                    (Some(NavAction::ShowHelp), None)
                } else if c == '/' || c == 'i' {
                    (Some(NavAction::EnterInsert), None)
                } else if extra.contains(c) {
                    (None, Some(c))
                } else {
                    (Some(NavAction::Noop), None)
                },
                _ => (Some(NavAction::Noop), None),
            }
        },
    }
}

/// What a key does: Ctrl-C quits in either mode; otherwise the mode decides.
pub open spec fn key_step(key: KeyEvent, mode: Mode, pending: Option<char>, extra: Seq<char>) -> (
    Option<NavAction>,
    Option<char>,
) {
    if key.code == KeyCode::Char('c') && ctrl_held(key) {
        (Some(NavAction::Quit), pending)
    } else {
        match mode {
            Mode::Normal => normal_step(key, pending, extra),
            Mode::Insert => (insert_action(key), pending),
        }
    }
}

fn slice_has(keys: &[char], c: char) -> (r: bool)
    ensures
        r == keys@.contains(c),
{
    let mut i: usize = 0;
    while i < keys.len()
        invariant
            i <= keys.len(),
            forall|k: int| 0 <= k < i ==> keys@[k] != c,
        decreases keys.len() - i,
    {
        if keys[i] == c {
            assert(keys@[i as int] == c);
            return true;
        }
        i = i + 1;
    }
    false
}

/// Dispatches a key to the shared modal bindings. `Some` is a shared action,
/// `None` a key the application handles itself (Enter, and the combinations
/// begun by one of `extra_pending_keys`). `pending` holds the first key of a
/// combination such as `gg` between calls.
pub fn handle_key(key: KeyEvent, mode: Mode, pending: &mut Option<char>, extra_pending_keys: &[char]) -> (r: Option<NavAction>)
    ensures
        (r, *final(pending)) == key_step(key, mode, *old(pending), extra_pending_keys@),
{
    if key.code == KeyCode::Char('c') && key.modifiers.contains(KeyModifiers::control()) {
        return Some(NavAction::Quit);
    }
    match mode {
        Mode::Normal => handle_normal_key(key, pending, extra_pending_keys),
        Mode::Insert => handle_insert_key(key),
    }
}

fn handle_normal_key(key: KeyEvent, pending: &mut Option<char>, extra_pending_keys: &[char]) -> (r: Option<NavAction>)
    ensures
        (r, *final(pending)) == normal_step(key, *old(pending), extra_pending_keys@),
{
    if let Some(first) = *pending {
        *pending = None;
        if first == 'g' && key.code == KeyCode::Char('g') {
            return Some(NavAction::MoveToTop);
        }
        if slice_has(extra_pending_keys, first) {
            return None;
        }
        return Some(NavAction::Noop);
    }
    if key.modifiers.contains(KeyModifiers::control()) {
        return match key.code {
            KeyCode::Char('u') => Some(NavAction::HalfPageUp),
            KeyCode::Char('d') => Some(NavAction::HalfPageDown),
            _ => Some(NavAction::Noop),
        };
    }
    match key.code {
        KeyCode::Esc => Some(NavAction::Quit),
        KeyCode::Down => Some(NavAction::MoveDown),
        KeyCode::Up => Some(NavAction::MoveUp),
        KeyCode::Enter => None,
        KeyCode::Char(c) => {
            if c == 'q' {
                Some(NavAction::Quit)
            } else if c == 'j' {
                Some(NavAction::MoveDown)
            } else if c == 'k' {
                Some(NavAction::MoveUp)
            } else if c == 'G' {
                Some(NavAction::MoveToBottom)
            } else if c == 'g' {
                *pending = Some('g');
                Some(NavAction::Noop)
            } else if c == 'n' {
                Some(NavAction::NextMatch)
            } else if c == 'N' {
                Some(NavAction::PrevMatch)
            } else if c == '?' {
                Some(NavAction::ShowHelp)
            } else if c == '/' || c == 'i' {
                Some(NavAction::EnterInsert)
            } else if slice_has(extra_pending_keys, c) {
                *pending = Some(c);
                None
            } else {
                Some(NavAction::Noop)
            }
        },
        _ => Some(NavAction::Noop),
    }
}

fn handle_insert_key(key: KeyEvent) -> (r: Option<NavAction>)
    ensures
        r == insert_action(key),
{
    match key.code {
        KeyCode::Esc => Some(NavAction::ExitInsert),
        KeyCode::Enter => None,
        KeyCode::Backspace => Some(NavAction::Backspace),
        KeyCode::Char(c) => {
            if c == 'u' && key.modifiers.contains(KeyModifiers::control()) {
                Some(NavAction::ClearSearch)
            } else {
                Some(NavAction::TypeChar(c))
            }
        },
        KeyCode::Up => Some(NavAction::MoveUp),
        KeyCode::Down => Some(NavAction::MoveDown),
        _ => Some(NavAction::Noop),
    }
}

/// Half a page, and at least one row.
pub open spec fn half_page(list_height: int) -> int {
    if list_height / 2 >= 1 { list_height / 2 } else { 1 }
}

/// The selection after a navigation action over a list of `len` rows shown
/// `height` at a time; actions that do not navigate keep it.
pub open spec fn nav_result(action: NavAction, selected: int, len: int, height: int) -> int {
    match action {
        NavAction::MoveUp => if selected >= 1 { selected - 1 } else { 0 },
        NavAction::MoveDown => if selected + 1 < len { selected + 1 } else { selected },
        NavAction::MoveToTop => 0,
        NavAction::MoveToBottom => if len > 0 { len - 1 } else { selected },
        NavAction::HalfPageUp => if selected >= half_page(height) { selected - half_page(height) } else { 0 },
        NavAction::HalfPageDown => if len > 0 {
            if selected + half_page(height) < len - 1 { selected + half_page(height) } else { len - 1 }
        } else {
            selected
        },
        NavAction::NextMatch => if len > 0 { (selected + 1) % len } else { selected },
        NavAction::PrevMatch => if len > 0 {
            if selected == 0 { len - 1 } else { selected - 1 }
        } else {
            selected
        },
        _ => selected,
    }
}

/// The steps of a navigation action stay within `usize`.
pub open spec fn nav_fits(action: NavAction, selected: int, len: int, height: int) -> bool {
    match action {
        NavAction::MoveDown => selected + 1 <= usize::MAX,
        NavAction::NextMatch => len > 0 ==> selected + 1 <= usize::MAX,
        NavAction::HalfPageDown => len > 0 ==> selected + half_page(height) <= usize::MAX,
        _ => true,
    }
}

/// Whether a navigation step from `selected` stays within `usize`: the
/// condition `apply_navigation` needs.
pub fn nav_fits_check(action: NavAction, selected: usize, filtered_len: usize, list_height: usize) -> (r: bool)
    ensures
        r == nav_fits(action, selected as int, filtered_len as int, list_height as int),
{
    let half: usize = if list_height / 2 >= 1 { list_height / 2 } else { 1 };
    match action {
        NavAction::MoveDown => selected < usize::MAX,
        NavAction::NextMatch => filtered_len == 0 || selected < usize::MAX,
        NavAction::HalfPageDown => filtered_len == 0 || selected <= usize::MAX - half,
        _ => true,
    }
}

/// The selection after applying a navigation action.
pub fn apply_navigation(action: &NavAction, selected: usize, filtered_len: usize, list_height: usize) -> (r: usize)
    requires
        nav_fits(*action, selected as int, filtered_len as int, list_height as int),
    ensures
        r == nav_result(*action, selected as int, filtered_len as int, list_height as int),
{
    match action {
        NavAction::MoveUp => selected.saturating_sub(1),
        NavAction::MoveDown => {
            if selected + 1 < filtered_len {
                selected + 1
            } else {
                selected
            }
        },
        NavAction::MoveToTop => 0,
        NavAction::MoveToBottom => {
            if filtered_len > 0 {
                filtered_len - 1
            } else {
                selected
            }
        },
        NavAction::HalfPageUp => {
            let half = list_height / 2;
            let step = if half >= 1 { half } else { 1 };
            selected.saturating_sub(step)
        },
        NavAction::HalfPageDown => {
            let half = list_height / 2;
            let step = if half >= 1 { half } else { 1 };
            if filtered_len > 0 {
                let target = selected + step;
                if target < filtered_len - 1 { target } else { filtered_len - 1 }
            } else {
                selected
            }
        },
        NavAction::NextMatch => {
            if filtered_len > 0 {
                (selected + 1) % filtered_len
            } else {
                selected
            }
        },
        NavAction::PrevMatch => {
            if filtered_len > 0 {
                if selected == 0 { filtered_len - 1 } else { selected - 1 }
            } else {
                selected
            }
        },
        _ => selected,
    }
}

/// Navigation keeps a selection inside a non-empty list: from any row of it,
/// every navigation action lands on a row of it.
pub proof fn navigation_stays_in_list(action: NavAction, selected: int, len: int, height: int)
    requires
        0 <= selected < len,
        0 <= height,
    ensures
        0 <= nav_result(action, selected, len, height) < len,
{
}

/// Ctrl-C quits, in either mode and whatever key is pending.
pub proof fn ctrl_c_quits_in_every_mode(key: KeyEvent, mode: Mode, pending: Option<char>, extra: Seq<char>)
    requires
        key.code == KeyCode::Char('c'),
        ctrl_held(key),
    ensures
        key_step(key, mode, pending, extra).0 == Some(NavAction::Quit),
{
}

/// In normal mode, `g` then `g` jumps to the top: the first `g` waits, the
/// second completes the combination and clears what was pending.
pub proof fn gg_moves_to_top(first: KeyEvent, second: KeyEvent, extra: Seq<char>)
    requires
        first.code == KeyCode::Char('g'),
        !ctrl_held(first),
        second.code == KeyCode::Char('g'),
    ensures
        key_step(first, Mode::Normal, None, extra) == (Some(NavAction::Noop), Some('g')),
        key_step(second, Mode::Normal, Some('g'), extra) == (Some(NavAction::MoveToTop), None::<char>),
{
}

/// In insert mode every character typed without Control goes into the
/// search query, and what is pending stays.
pub proof fn insert_mode_types_characters(key: KeyEvent, c: char, pending: Option<char>, extra: Seq<char>)
    requires
        key.code == KeyCode::Char(c),
        !ctrl_held(key),
    ensures
        key_step(key, Mode::Insert, pending, extra) == (Some(NavAction::TypeChar(c)), pending),
{
}

/// The scroll offset after moving the window just enough to show `selected`.
pub open spec fn scroll_result(selected: int, offset: int, height: int) -> int {
    let o = if selected < offset { selected } else { offset };
    if selected >= o + height { selected - height + 1 } else { o }
}

/// Moves the scroll offset just enough that the selected row is on screen.
pub fn adjust_scroll(selected: usize, scroll_offset: &mut usize, list_height: usize)
    requires
        *old(scroll_offset) + list_height <= usize::MAX,
        list_height == 0 ==> selected < usize::MAX,
    ensures
        *final(scroll_offset) == scroll_result(selected as int, *old(scroll_offset) as int, list_height as int),
        list_height > 0 ==> *final(scroll_offset) <= selected < *final(scroll_offset) + list_height,
{
    if selected < *scroll_offset {
        *scroll_offset = selected;
    }
    if selected >= *scroll_offset + list_height {
        *scroll_offset = selected - list_height + 1;
    }
}

/// The text of the search bar: in insert mode the placeholder while the
/// query is empty, else the query and a block cursor; in normal mode a hint
/// while it is empty, else the query.
pub open spec fn search_bar_spec(query: Seq<char>, mode: Mode, placeholder: Seq<char>) -> Seq<char> {
    match mode {
        Mode::Insert => if query.len() == 0 {
            " "@ + placeholder
        } else {
            " "@ + query + "█"@
        },
        Mode::Normal => if query.len() == 0 {
            " Press / to search"@
        } else {
            " "@ + query
        },
    }
}

/// The text shown in the search bar.
pub fn search_bar_text(query: &str, mode: Mode, placeholder: &str) -> (r: String)
    ensures
        r@ == search_bar_spec(query@, mode, placeholder@),
{
    let mut out: Vec<char> = Vec::new();
    let empty = query.is_empty();
    match mode {
        Mode::Insert => {
            crate::text::push_str(&mut out, " ");
            if empty {
                crate::text::push_str(&mut out, placeholder);
            } else {
                crate::text::push_str(&mut out, query);
                crate::text::push_str(&mut out, "█");
            }
        },
        Mode::Normal => {
            if empty {
                crate::text::push_str(&mut out, " Press / to search");
            } else {
                crate::text::push_str(&mut out, " ");
                crate::text::push_str(&mut out, query);
            }
        },
    }
    crate::text::string_of(&out)
}

/// The title of the search bar: the application's name and the mode.
pub fn mode_label(app_name: &str, mode: Mode) -> (r: String)
    ensures
        r@ == " "@ + app_name@ + match mode {
            Mode::Normal => " [NORMAL] "@,
            Mode::Insert => " [INSERT] "@,
        },
{
    let mut out: Vec<char> = Vec::new();
    crate::text::push_str(&mut out, " ");
    crate::text::push_str(&mut out, app_name);
    match mode {
        Mode::Normal => crate::text::push_str(&mut out, " [NORMAL] "),
        Mode::Insert => crate::text::push_str(&mut out, " [INSERT] "),
    }
    crate::text::string_of(&out)
}

/// The rectangle `(x, y, width, height)` of the help overlay, centred in the
/// area at `(area_x, area_y)` of size `area_w` by `area_h`, for key and
/// description columns `key_width` and `desc_width` wide and `rows` bindings:
/// two columns of padding and a separator, a blank line above and a hint
/// below, and borders, shrunk to leave a margin in the area.
pub open spec fn help_popup_spec(area_x: u16, area_y: u16, area_w: u16, area_h: u16, key_width: usize, desc_width: usize, rows: usize) -> (int, int, int, int) {
    let inner_width = key_width + desc_width + 5;
    let inner_height = (rows as u16) + 2;
    let want_w = (inner_width as u16) + 4;
    let room_w = if area_w >= 4 { area_w - 4 } else { 0 };
    let w = if want_w < room_w { want_w } else { room_w };
    let want_h = inner_height + 2;
    let room_h = if area_h >= 2 { area_h - 2 } else { 0 };
    let h = if want_h < room_h { want_h } else { room_h };
    (area_x + (area_w - w) / 2, area_y + (area_h - h) / 2, w, h)
}

/// The values `help_popup` computes fit their types.
pub open spec fn help_popup_fits(area_x: u16, area_y: u16, area_w: u16, area_h: u16, key_width: usize, desc_width: usize, rows: usize) -> bool {
    &&& key_width + desc_width + 5 <= usize::MAX
    &&& (((key_width + desc_width + 5) as usize) as u16) + 4 <= u16::MAX
    &&& (rows as u16) + 4 <= u16::MAX
    &&& area_x + area_w / 2 <= u16::MAX
    &&& area_y + area_h / 2 <= u16::MAX
}

/// Where the help overlay goes.
pub fn help_popup(area_x: u16, area_y: u16, area_w: u16, area_h: u16, key_width: usize, desc_width: usize, rows: usize) -> (r: (u16, u16, u16, u16))
    requires
        help_popup_fits(area_x, area_y, area_w, area_h, key_width, desc_width, rows),
    ensures
        (r.0 as int, r.1 as int, r.2 as int, r.3 as int) == help_popup_spec(area_x, area_y, area_w, area_h, key_width, desc_width, rows),
{
    let inner_width: usize = key_width + desc_width + 5;
    let inner_height: u16 = (rows as u16) + 2;
    let want_w: u16 = (inner_width as u16) + 4;
    let room_w: u16 = if area_w >= 4 { area_w - 4 } else { 0 };
    let w: u16 = if want_w < room_w { want_w } else { room_w };
    let want_h: u16 = inner_height + 2;
    let room_h: u16 = if area_h >= 2 { area_h - 2 } else { 0 };
    let h: u16 = if want_h < room_h { want_h } else { room_h };
    let x: u16 = area_x + (area_w - w) / 2;
    let y: u16 = area_y + (area_h - h) / 2;
    (x, y, w, h)
}

/// A key press with no modifier.
pub fn make_test_key(code: KeyCode) -> (r: KeyEvent)
    ensures
        r.code == code,
        r.modifiers.bits == 0,
{
    KeyEvent { code, modifiers: KeyModifiers::none() }
}

/// A key press with the given modifiers.
pub fn make_test_key_with_mods(code: KeyCode, modifiers: KeyModifiers) -> (r: KeyEvent)
    ensures
        r.code == code,
        r.modifiers == modifiers,
{
    KeyEvent { code, modifiers }
}

} // verus!
