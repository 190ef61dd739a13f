//! The state of the interactive clipboard browser, how keys change it, and
//! what it asks of the store and the clipboard.

use vstd::prelude::*;
use crate::rippy::entries::ClipEntry;
use crate::ranking::{is_fuzzy_ranking, rank_texts, text_views};
use crate::text::{join_with, push_char, pop_char};
use crate::tui_core::{self, KeyCode, KeyEvent, KeyModifiers, Mode, NavAction, key_step, nav_fits, nav_result};

verus! {

/// What a key asks of the browser.
#[derive(Debug, PartialEq, Eq, Structural, Clone, Copy)]
pub enum Action {
    Nav(NavAction),
    /// Enter: copy the selected entry (or the marked ones) and quit.
    CopyAndQuit,
    /// `dd`: delete the selected entry.
    DeleteSelected,
    /// `s`: pin or unpin the selected entry.
    TogglePinSelected,
    /// `p`: show or hide the preview pane.
    TogglePreview,
    /// Space: mark or unmark the selected entry.
    ToggleMultiSelect,
    ScrollPreviewDown,
    ScrollPreviewUp,
}

/// What the browser asks of the outside world after an action.
#[derive(Debug, PartialEq, Eq)]
pub enum Effect {
    Nothing,
    /// Put this text on the clipboard.
    Copy(String),
    /// Delete the entry with this id from the store, then refresh.
    Delete(i64),
    /// Toggle the pin of the entry with this id in the store, then refresh.
    TogglePin(i64),
}

/// The browser's state.
pub struct App {
    pub entries: Vec<ClipEntry>,
    /// Indices into `entries` of the rows shown, best match first.
    pub filtered: Vec<usize>,
    pub query: String,
    pub selected: usize,
    pub scroll_offset: usize,
    pub should_quit: bool,
    /// The id of the entry just copied, shown as such.
    pub copied_id: Option<i64>,
    pub mode: Mode,
    pub pending_key: Option<char>,
    pub list_height: usize,
    pub show_help: bool,
    pub show_preview: bool,
    pub preview_scroll: usize,
    /// The ids of the marked entries, each once.
    pub multi_selected: Vec<i64>,
}

/// The contents of the entries.
pub open spec fn contents_of(es: Seq<ClipEntry>) -> Seq<Seq<char>> {
    es.map_values(|e: ClipEntry| e.content@)
}

/// The rows of `filtered` point at entries and the selection is a row (or 0
/// when there is none).
pub open spec fn rows_ok(entries: Seq<ClipEntry>, filtered: Seq<usize>, selected: usize) -> bool {
    &&& forall|k: int| 0 <= k < filtered.len() ==> #[trigger] filtered[k] < entries.len()
    &&& if filtered.len() == 0 {
        selected == 0
    } else {
        selected < filtered.len()
    }
}

/// The fields that filtering leaves alone are equal.
pub open spec fn same_settings(a: App, b: App) -> bool {
    &&& a.should_quit == b.should_quit
    &&& a.copied_id == b.copied_id
    &&& a.mode == b.mode
    &&& a.pending_key == b.pending_key
    &&& a.list_height == b.list_height
    &&& a.show_help == b.show_help
    &&& a.show_preview == b.show_preview
    &&& a.preview_scroll == b.preview_scroll
}

/// The selection after clamping it to the rows.
pub open spec fn clamped(selected: usize, rows: nat) -> usize {
    if rows == 0 {
        0
    } else if selected < rows {
        selected
    } else {
        (rows - 1) as usize
    }
}

/// The row of the first shown entry with id `id`.
pub open spec fn row_of_id(entries: Seq<ClipEntry>, filtered: Seq<usize>, id: i64) -> Option<int> {
    if exists|k: int| 0 <= k < filtered.len() && entries[filtered[k] as int].id == id {
        Some(
            choose|k: int|
                0 <= k < filtered.len() && entries[filtered[k] as int].id == id && forall|j: int|
                    0 <= j < k ==> entries[filtered[j] as int].id != id,
        )
    } else {
        None
    }
}

impl App {
    /// The rows point at entries, the selection is a row and no entry is
    /// marked twice.
    pub open spec fn wf(&self) -> bool {
        &&& rows_ok(self.entries@, self.filtered@, self.selected)
        &&& self.multi_selected@.no_duplicates()
    }

    /// The id of the selected entry, if a row is selected.
    pub open spec fn selected_id(&self) -> Option<i64> {
        if self.selected < self.filtered@.len() {
            Some(self.entries@[self.filtered@[self.selected as int] as int].id)
        } else {
            None
        }
    }

    /// A browser over `entries`, showing all of them, nothing typed yet.
    pub fn new(entries: Vec<ClipEntry>) -> (r: App)
        ensures
            r.wf(),
            r.entries@ == entries@,
            r.filtered@ == Seq::new(entries@.len(), |i: int| i as usize),
            r.query@ == Seq::<char>::empty(),
            r.selected == 0,
            r.scroll_offset == 0,
            !r.should_quit,
            r.copied_id is None,
            r.mode == Mode::Normal,
            r.pending_key is None,
            r.list_height == 0,
            !r.show_help,
            r.show_preview,
            r.preview_scroll == 0,
            r.multi_selected@.len() == 0,
    {
        proof {
            reveal_strlit("");
        }
        let filtered = compute_filtered(&entries, "");
        assert(contents_of(entries@).len() == entries@.len());
        App {
            entries,
            filtered,
            query: String::new(),
            selected: 0,
            scroll_offset: 0,
            should_quit: false,
            copied_id: None,
            mode: Mode::Normal,
            pending_key: None,
            list_height: 0,
            show_help: false,
            show_preview: true,
            preview_scroll: 0,
            multi_selected: Vec::new(),
        }
    }

    fn clamp_selection(&mut self)
        requires
            forall|k: int| 0 <= k < old(self).filtered@.len() ==> #[trigger] old(self).filtered@[k] < old(self).entries@.len(),
        ensures
            rows_ok(final(self).entries@, final(self).filtered@, final(self).selected),
            final(self).selected == clamped(old(self).selected, old(self).filtered@.len()),
            final(self).scroll_offset == if old(self).filtered@.len() == 0 {
                0
            } else {
                old(self).scroll_offset
            },
            final(self).entries@ == old(self).entries@,
            final(self).filtered@ == old(self).filtered@,
            final(self).query@ == old(self).query@,
            final(self).multi_selected@ == old(self).multi_selected@,
            same_settings(*old(self), *final(self)),
    {
        if self.filtered.len() == 0 {
            self.selected = 0;
            self.scroll_offset = 0;
        } else if self.selected >= self.filtered.len() {
            self.selected = self.filtered.len() - 1;
        }
    }

    /// Recomputes the rows for the query, keeps the selection on a row and
    /// unmarks every entry.
    pub fn refilter(&mut self)
        ensures
            rows_ok(final(self).entries@, final(self).filtered@, final(self).selected),
            is_fuzzy_ranking(contents_of(old(self).entries@), old(self).query@, final(self).filtered@),
            final(self).selected == clamped(old(self).selected, final(self).filtered@.len()),
            final(self).multi_selected@.len() == 0,
            final(self).entries@ == old(self).entries@,
            final(self).query@ == old(self).query@,
            same_settings(*old(self), *final(self)),
    {
        self.filtered = compute_filtered(&self.entries, self.query.as_str());
        self.clamp_selection();
        self.multi_selected = Vec::new();
    }

    /// Takes the entries as the store now holds them, recomputes the rows,
    /// and keeps the selection on the same entry when it is still shown.
    pub fn refresh(&mut self, entries: Vec<ClipEntry>)
        requires
            old(self).wf(),
        ensures
            final(self).wf(),
            final(self).entries@ == entries@,
            is_fuzzy_ranking(contents_of(entries@), old(self).query@, final(self).filtered@),
            final(self).selected == match old(self).selected_id() {
                Some(id) => match row_of_id(entries@, final(self).filtered@, id) {
                    Some(k) => k as usize,
                    None => clamped(old(self).selected, final(self).filtered@.len()),
                },
                None => clamped(old(self).selected, final(self).filtered@.len()),
            },
            final(self).query@ == old(self).query@,
            final(self).multi_selected@ == old(self).multi_selected@,
            same_settings(*old(self), *final(self)),
    {
        let prev_id: Option<i64> = if self.selected < self.filtered.len() {
            Some(self.entries[self.filtered[self.selected]].id)
        } else {
            None
        };
        self.entries = entries;
        self.filtered = compute_filtered(&self.entries, self.query.as_str());
        match prev_id {
            Some(id) => match find_row(&self.entries, &self.filtered, id) {
                Some(k) => self.selected = k,
                None => self.clamp_selection(),
            },
            None => self.clamp_selection(),
        }
    }

    /// The selected entry, if a row is selected.
    pub fn selected_entry(&self) -> (r: Option<&ClipEntry>)
        requires
            self.wf(),
        ensures
            match r {
                Some(e) => self.selected < self.filtered@.len() && *e == self.entries@[self.filtered@[self.selected as int] as int],
                None => self.selected >= self.filtered@.len(),
            },
    {
        if self.selected < self.filtered.len() {
            Some(&self.entries[self.filtered[self.selected]])
        } else {
            None
        }
    }
}

/// The first row that shows the entry with id `id`.
fn find_row(entries: &Vec<ClipEntry>, filtered: &Vec<usize>, id: i64) -> (r: Option<usize>)
    requires
        forall|t: int| 0 <= t < filtered@.len() ==> #[trigger] filtered@[t] < entries@.len(),
    ensures
        match r {
            Some(k) => row_of_id(entries@, filtered@, id) == Some(k as int) && k < filtered@.len(),
            None => row_of_id(entries@, filtered@, id) is None,
        },
{
    let mut k: usize = 0;
    while k < filtered.len()
        invariant
            k <= filtered@.len(),
            forall|t: int| 0 <= t < filtered@.len() ==> #[trigger] filtered@[t] < entries@.len(),
            forall|j: int| 0 <= j < k ==> entries@[filtered@[j] as int].id != id,
        decreases filtered.len() - k,
    {
        if entries[filtered[k]].id == id {
            proof {
                let f = filtered@;
                let es = entries@;
                assert(0 <= k < f.len() && es[f[k as int] as int].id == id);
                let c = choose|c: int|
                    0 <= c < f.len() && es[f[c] as int].id == id && forall|j: int|
                        0 <= j < c ==> es[f[j] as int].id != id;
                assert(0 <= c < f.len() && es[f[c] as int].id == id && forall|j: int|
                        0 <= j < c ==> es[f[j] as int].id != id) by {
                    assert(forall|j: int| 0 <= j < k ==> es[f[j] as int].id != id);
                }
                if c < k {
                    assert(es[f[c] as int].id != id);
                } else if c > k {
                    assert(es[f[k as int] as int].id != id);
                }
            }
            return Some(k);
        }
        k = k + 1;
    }
    None
}

/// Indices of the entries whose contents match `query`, best fuzzy match
/// first; all of them, in order, for an empty query.
pub fn compute_filtered(entries: &Vec<ClipEntry>, query: &str) -> (r: Vec<usize>)
    ensures
        is_fuzzy_ranking(contents_of(entries@), query@, r@),
        forall|k: int| 0 <= k < r@.len() ==> #[trigger] r@[k] < entries@.len(),
{
    let mut texts: Vec<String> = Vec::new();
    let mut i: usize = 0;
    while i < entries.len()
        invariant
            i <= entries.len(),
            text_views(texts@) == contents_of(entries@).take(i as int),
        decreases entries.len() - i,
    {
        let ghost before = text_views(texts@);
        texts.push(entries[i].content.clone());
        assert(text_views(texts@) =~= before.push(entries@[i as int].content@));
        i = i + 1;
        assert(text_views(texts@) =~= contents_of(entries@).take(i as int));
    }
    assert(contents_of(entries@).take(i as int) =~= contents_of(entries@));
    let r = rank_texts(&texts, query);
    proof {
        if query@.len() == 0 {
            assert forall|k: int| 0 <= k < r@.len() implies #[trigger] r@[k] < entries@.len() by {
                assert(r@ == Seq::new(contents_of(entries@).len(), |j: int| j as usize));
            }
        }
    }
    r
}

// ---------------------------------------------------------------------------
// Keys
// ---------------------------------------------------------------------------

/// The browser's own key in normal mode, if `key` is one: `s`, `p` and Space
/// with no modifier, Ctrl-J and Ctrl-K with exactly Control.
pub open spec fn own_normal_key(key: KeyEvent) -> Option<Action> {
    if key.code == KeyCode::Char('s') && key.modifiers.bits == 0 {
        Some(Action::TogglePinSelected)
    } else if key.code == KeyCode::Char('p') && key.modifiers.bits == 0 {
        Some(Action::TogglePreview)
    } else if key.code == KeyCode::Char(' ') && key.modifiers.bits == 0 {
        Some(Action::ToggleMultiSelect)
    } else if key.modifiers.bits == 2 && key.code == KeyCode::Char('j') {
        Some(Action::ScrollPreviewDown)
    } else if key.modifiers.bits == 2 && key.code == KeyCode::Char('k') {
        Some(Action::ScrollPreviewUp)
    } else {
        None
    }
}

/// What a key does in the browser, with the pending key after it: a pending
/// `d` makes `dd` delete; then the browser's own keys; then the shared
/// bindings, Enter copying and a first `d` waiting for the second.
pub open spec fn browser_step(key: KeyEvent, mode: Mode, pending: Option<char>) -> (Action, Option<char>) {
    if pending == Some('d') {
        (
            if key.code == KeyCode::Char('d') {
                Action::DeleteSelected
            } else {
                Action::Nav(NavAction::Noop)
            },
            None,
        )
    } else if mode == Mode::Normal && own_normal_key(key) is Some {
        (own_normal_key(key)->0, pending)
    } else {
        let (nav, p) = key_step(key, mode, pending, seq!['d']);
        (
            match nav {
                Some(n) => Action::Nav(n),
                None => if p == Some('d') {
                    Action::Nav(NavAction::Noop)
                } else {
                    Action::CopyAndQuit
                },
            },
            p,
        )
    }
}

/// What a key does in the browser.
pub fn handle_key(key: KeyEvent, mode: Mode, pending: &mut Option<char>) -> (r: Action)
    ensures
        (r, *final(pending)) == browser_step(key, mode, *old(pending)),
{
    if *pending == Some('d') {
        *pending = None;
        if key.code == KeyCode::Char('d') {
            return Action::DeleteSelected;
        }
        return Action::Nav(NavAction::Noop);
    }
    if mode == Mode::Normal {
        if key.code == KeyCode::Char('s') && key.modifiers.is_empty() {
            return Action::TogglePinSelected;
        }
        if key.code == KeyCode::Char('p') && key.modifiers.is_empty() {
            return Action::TogglePreview;
        }
        if key.code == KeyCode::Char(' ') && key.modifiers.is_empty() {
            return Action::ToggleMultiSelect;
        }
        if key.modifiers == KeyModifiers::control() {
            if key.code == KeyCode::Char('j') {
                return Action::ScrollPreviewDown;
            }
            if key.code == KeyCode::Char('k') {
                return Action::ScrollPreviewUp;
            }
        }
    }
    let extra: [char; 1] = ['d'];
    assert(extra@ =~= seq!['d']);
    match tui_core::handle_key(key, mode, pending, &extra) {
        Some(nav) => Action::Nav(nav),
        None => {
            if *pending == Some('d') {
                Action::Nav(NavAction::Noop)
            } else {
                Action::CopyAndQuit
            }
        },
    }
}

/// In normal mode `d` then `d` deletes the selected entry: the first `d`
/// waits, the second completes the combination and clears what was pending.
pub proof fn dd_deletes_selected(first: KeyEvent, second: KeyEvent)
    requires
        first.code == KeyCode::Char('d'),
        first.modifiers.bits == 0,
        second.code == KeyCode::Char('d'),
    ensures
        browser_step(first, Mode::Normal, None) == (Action::Nav(NavAction::Noop), Some('d')),
        browser_step(second, Mode::Normal, Some('d')) == (Action::DeleteSelected, None::<char>),
{
    assert(!crate::tui_core::ctrl_held(first)) by {
        assert(0u8 & 2u8 == 0u8) by (bit_vector);
    }
    assert(seq!['d'].contains('d')) by {
        assert(seq!['d'][0] == 'd');
    }
}

// ---------------------------------------------------------------------------
// Actions
// ---------------------------------------------------------------------------

/// The contents of the marked entries among the shown rows, in row order.
pub open spec fn marked_contents(entries: Seq<ClipEntry>, filtered: Seq<usize>, marked: Seq<i64>) -> Seq<Seq<char>>
    decreases filtered.len(),
{
    if filtered.len() == 0 {
        Seq::empty()
    } else {
        let prev = marked_contents(entries, filtered.drop_last(), marked);
        let e = entries[filtered.last() as int];
        if marked.contains(e.id) {
            prev.push(e.content@)
        } else {
            prev
        }
    }
}

/// The query after an editing action.
pub open spec fn edited_query(q: Seq<char>, n: NavAction) -> Seq<char> {
    match n {
        NavAction::TypeChar(c) => q.push(c),
        NavAction::Backspace => if q.len() > 0 {
            q.drop_last()
        } else {
            q
        },
        NavAction::ClearSearch => Seq::empty(),
        _ => q,
    }
}

/// The editing actions: those that change the query.
pub open spec fn is_edit(n: NavAction) -> bool {
    n is TypeChar || n is Backspace || n is ClearSearch
}

/// The navigation actions: those that move the selection.
pub open spec fn is_move(n: NavAction) -> bool {
    match n {
        NavAction::MoveUp | NavAction::MoveDown | NavAction::MoveToTop | NavAction::MoveToBottom
        | NavAction::HalfPageUp | NavAction::HalfPageDown | NavAction::NextMatch
        | NavAction::PrevMatch => true,
        _ => false,
    }
}

/// The preview scroll after an action that moves the selection from `before`
/// to `after`: back to the top when the selection changed.
pub open spec fn scroll_after(scroll: usize, before: usize, after: usize) -> usize {
    if after != before {
        0
    } else {
        scroll
    }
}

fn remove_id(v: &mut Vec<i64>, id: i64) -> (removed: bool)
    requires
        old(v)@.no_duplicates(),
    ensures
        final(v)@.no_duplicates(),
        removed == old(v)@.contains(id),
        forall|x: i64| #[trigger] final(v)@.contains(x) == (old(v)@.contains(x) && x != id),
{
    let mut i: usize = 0;
    while i < v.len()
        invariant
            i <= v.len(),
            v@ == old(v)@,
            v@.no_duplicates(),
            forall|j: int| 0 <= j < i ==> v@[j] != id,
        decreases v.len() - i,
    {
        if v[i] == id {
            let ghost before = v@;
            v.remove(i);
            proof {
                assert(v@ == before.remove(i as int));
                assert forall|x: i64| #[trigger] v@.contains(x) == (before.contains(x) && x != id) by {
                    if v@.contains(x) {
                        let k = choose|k: int| 0 <= k < v@.len() && v@[k] == x;
                        if k < i {
                            assert(before[k] == x);
                        } else {
                            assert(before[k + 1] == x);
                        }
                        assert(before.contains(x));
                    }
                    if before.contains(x) && x != id {
                        let k = choose|k: int| 0 <= k < before.len() && before[k] == x;
                        if k < i {
                            assert(v@[k] == x);
                        } else {
                            assert(k != i);
                            assert(v@[k - 1] == x);
                        }
                    }
                }
                assert forall|a: int, b: int| 0 <= a < b < v@.len() implies v@[a] != v@[b] by {
                    let a1 = if a < i { a } else { a + 1 };
                    let b1 = if b < i { b } else { b + 1 };
                    assert(v@[a] == before[a1]);
                    assert(v@[b] == before[b1]);
                }
                assert(before[i as int] == id);
            }
            return true;
        }
        i = i + 1;
    }
    false
}

/// Applies an action to the browser's state and says what the outside world
/// must do: put text on the clipboard, or change the store (after which the
/// caller hands the new entries to `refresh`).
pub fn apply_action(app: &mut App, action: Action) -> (effect: Effect)
    requires
        old(app).wf(),
        action matches Action::Nav(n) ==> nav_fits(n, old(app).selected as int, old(app).filtered@.len() as int, old(app).list_height as int),
    ensures
        final(app).wf(),
        final(app).entries@ == old(app).entries@,
        final(app).list_height == old(app).list_height,
        match action {
            Action::Nav(n) => {
                &&& effect == Effect::Nothing
                &&& final(app).should_quit == (old(app).should_quit || n == NavAction::Quit)
                &&& final(app).show_help == if n == NavAction::ShowHelp { !old(app).show_help } else { old(app).show_help }
                &&& final(app).mode == if n == NavAction::EnterInsert {
                    Mode::Insert
                } else if n == NavAction::ExitInsert {
                    Mode::Normal
                } else {
                    old(app).mode
                }
                &&& final(app).pending_key == if n == NavAction::ExitInsert { None } else { old(app).pending_key }
                &&& final(app).query@ == edited_query(old(app).query@, n)
                &&& if is_edit(n) {
                    &&& is_fuzzy_ranking(contents_of(old(app).entries@), final(app).query@, final(app).filtered@)
                    &&& final(app).selected == 0
                    &&& final(app).scroll_offset == 0
                    &&& final(app).multi_selected@.len() == 0
                } else {
                    &&& final(app).filtered@ == old(app).filtered@
                    &&& final(app).multi_selected@ == old(app).multi_selected@
                    &&& final(app).selected == if is_move(n) {
                        nav_result(n, old(app).selected as int, old(app).filtered@.len() as int, old(app).list_height as int) as usize
                    } else {
                        old(app).selected
                    }
                }
                &&& final(app).preview_scroll == scroll_after(old(app).preview_scroll, old(app).selected, final(app).selected)
            },
            Action::CopyAndQuit => {
                &&& final(app).should_quit
                &&& final(app).filtered@ == old(app).filtered@
                &&& final(app).selected == old(app).selected
                &&& if old(app).multi_selected@.len() == 0 {
                    match old(app).selected_id() {
                        Some(id) => {
                            &&& effect == Effect::Copy(final(app).entries@[final(app).filtered@[final(app).selected as int] as int].content)
                            &&& final(app).copied_id == Some(id)
                        },
                        None => effect == Effect::Nothing && final(app).copied_id == old(app).copied_id,
                    }
                } else {
                    &&& effect matches Effect::Copy(t) && t@ == join_with(
                        marked_contents(old(app).entries@, old(app).filtered@, old(app).multi_selected@),
                        "\n"@,
                    )
                    &&& final(app).copied_id == old(app).copied_id
                }
            },
            Action::DeleteSelected => {
                &&& effect == match old(app).selected_id() {
                    Some(id) => Effect::Delete(id),
                    None => Effect::Nothing,
                }
                &&& final(app).selected == old(app).selected
                &&& final(app).filtered@ == old(app).filtered@
                &&& final(app).preview_scroll == old(app).preview_scroll
            },
            Action::TogglePinSelected => {
                &&& effect == match old(app).selected_id() {
                    Some(id) => Effect::TogglePin(id),
                    None => Effect::Nothing,
                }
                &&& final(app).selected == old(app).selected
                &&& final(app).filtered@ == old(app).filtered@
                &&& final(app).preview_scroll == old(app).preview_scroll
            },
            Action::ToggleMultiSelect => {
                &&& effect == Effect::Nothing
                &&& forall|x: i64| #[trigger] final(app).multi_selected@.contains(x) == match old(app).selected_id() {
                    Some(id) => if x == id {
                        !old(app).multi_selected@.contains(id)
                    } else {
                        old(app).multi_selected@.contains(x)
                    },
                    None => old(app).multi_selected@.contains(x),
                }
                &&& final(app).selected == old(app).selected
            },
            Action::TogglePreview => {
                &&& effect == Effect::Nothing
                &&& final(app).show_preview == !old(app).show_preview
                &&& final(app).preview_scroll == 0
            },
            Action::ScrollPreviewDown => {
                &&& effect == Effect::Nothing
                &&& final(app).preview_scroll == if old(app).preview_scroll + 3 <= usize::MAX {
                    (old(app).preview_scroll + 3) as usize
                } else {
                    usize::MAX
                }
            },
            Action::ScrollPreviewUp => {
                &&& effect == Effect::Nothing
                &&& final(app).preview_scroll == if old(app).preview_scroll >= 3 {
                    (old(app).preview_scroll - 3) as usize
                } else {
                    0
                }
            },
        },
        match action {
            Action::Nav(n) => {
                &&& !is_edit(n) ==> final(app).scroll_offset == old(app).scroll_offset
                &&& final(app).show_preview == old(app).show_preview
                &&& final(app).copied_id == old(app).copied_id
            },
            _ => {
                &&& final(app).query@ == old(app).query@
                &&& final(app).mode == old(app).mode
                &&& final(app).pending_key == old(app).pending_key
                &&& final(app).show_help == old(app).show_help
                &&& final(app).scroll_offset == old(app).scroll_offset
                &&& final(app).filtered@ == old(app).filtered@
                &&& final(app).selected == old(app).selected
                &&& final(app).should_quit == (old(app).should_quit || action == Action::CopyAndQuit)
                &&& action != Action::TogglePreview ==> final(app).show_preview == old(app).show_preview
                &&& action != Action::CopyAndQuit ==> final(app).copied_id == old(app).copied_id
                &&& action != Action::ToggleMultiSelect ==> final(app).multi_selected@ == old(app).multi_selected@
                &&& (action == Action::DeleteSelected || action == Action::TogglePinSelected
                    || action == Action::ToggleMultiSelect || action == Action::CopyAndQuit)
                    ==> final(app).preview_scroll == old(app).preview_scroll
            },
        },
{
    let prev_selected = app.selected;
    let mut effect = Effect::Nothing;
    match action {
        Action::Nav(nav) => match nav {
            NavAction::Noop => {},
            NavAction::Quit => app.should_quit = true,
            NavAction::ShowHelp => app.show_help = !app.show_help,
            NavAction::EnterInsert => app.mode = Mode::Insert,
            NavAction::ExitInsert => {
                app.mode = Mode::Normal;
                app.pending_key = None;
            },
            NavAction::TypeChar(c) => {
                push_char(&mut app.query, c);
                app.refilter();
                app.selected = 0;
                app.scroll_offset = 0;
            },
            NavAction::Backspace => {
                pop_char(&mut app.query);
                app.refilter();
                app.selected = 0;
                app.scroll_offset = 0;
            },
            NavAction::ClearSearch => {
                app.query = String::new();
                app.refilter();
                app.selected = 0;
                app.scroll_offset = 0;
            },
            NavAction::MoveUp | NavAction::MoveDown | NavAction::MoveToTop | NavAction::MoveToBottom
            | NavAction::HalfPageUp | NavAction::HalfPageDown | NavAction::NextMatch
            | NavAction::PrevMatch => {
                proof {
                    if app.filtered@.len() > 0 {
                        tui_core::navigation_stays_in_list(
                            nav,
                            app.selected as int,
                            app.filtered@.len() as int,
                            app.list_height as int,
                        );
                    }
                }
                app.selected = tui_core::apply_navigation(&nav, app.selected, app.filtered.len(), app.list_height);
            },
        },
        Action::CopyAndQuit => {
            if app.multi_selected.len() == 0 {
                if app.selected < app.filtered.len() {
                    let e = &app.entries[app.filtered[app.selected]];
                    effect = Effect::Copy(e.content.clone());
                    app.copied_id = Some(e.id);
                }
            } else {
                let mut combined: Vec<Vec<char>> = Vec::new();
                let mut k: usize = 0;
                while k < app.filtered.len()
                    invariant
                        k <= app.filtered@.len(),
                        forall|t: int| 0 <= t < app.filtered@.len() ==> #[trigger] app.filtered@[t] < app.entries@.len(),
                        crate::text::views(combined@) == marked_contents(app.entries@, app.filtered@.take(k as int), app.multi_selected@),
                    decreases app.filtered.len() - k,
                {
                    proof {
                        assert(app.filtered@.take(k + 1).drop_last() =~= app.filtered@.take(k as int));
                    }
                    let e = &app.entries[app.filtered[k]];
                    if vec_has(&app.multi_selected, e.id) {
                        let ghost before = crate::text::views(combined@);
                        combined.push(crate::text::chars_of(e.content.as_str()));
                        assert(crate::text::views(combined@) =~= before.push(e.content@));
                    }
                    k = k + 1;
                }
                assert(app.filtered@.take(k as int) =~= app.filtered@);
                let joined = crate::text::join_chars(&combined, "\n");
                effect = Effect::Copy(crate::text::string_of(&joined));
            }
            app.should_quit = true;
        },
        Action::DeleteSelected => {
            if app.selected < app.filtered.len() {
                effect = Effect::Delete(app.entries[app.filtered[app.selected]].id);
            }
        },
        Action::TogglePinSelected => {
            if app.selected < app.filtered.len() {
                effect = Effect::TogglePin(app.entries[app.filtered[app.selected]].id);
            }
        },
        Action::ToggleMultiSelect => {
            if app.selected < app.filtered.len() {
                let id = app.entries[app.filtered[app.selected]].id;
                if !remove_id(&mut app.multi_selected, id) {
                    let ghost before = app.multi_selected@;
                    app.multi_selected.push(id);
                    proof {
                        assert(app.multi_selected@ == before.push(id));
                        assert forall|x: i64| #[trigger] app.multi_selected@.contains(x) == (x == id || before.contains(x)) by {
                            if app.multi_selected@.contains(x) && x != id {
                                let k = choose|k: int| 0 <= k < app.multi_selected@.len() && app.multi_selected@[k] == x;
                                assert(before[k] == x);
                            }
                            if before.contains(x) {
                                let k = choose|k: int| 0 <= k < before.len() && before[k] == x;
                                assert(app.multi_selected@[k] == x);
                            }
                            if x == id {
                                assert(app.multi_selected@[before.len() as int] == id);
                            }
                        }
                        assert forall|a: int, b: int| 0 <= a < b < app.multi_selected@.len() implies app.multi_selected@[a] != app.multi_selected@[b] by {
                            if b == before.len() {
                                assert(app.multi_selected@[a] == before[a]);
                                assert(before.contains(before[a]));
                            } else {
                                assert(app.multi_selected@[a] == before[a]);
                                assert(app.multi_selected@[b] == before[b]);
                            }
                        }
                    }
                }
            }
        },
        Action::TogglePreview => {
            app.show_preview = !app.show_preview;
            app.preview_scroll = 0;
        },
        Action::ScrollPreviewDown => {
            app.preview_scroll = app.preview_scroll.saturating_add(3);
        },
        Action::ScrollPreviewUp => {
            app.preview_scroll = app.preview_scroll.saturating_sub(3);
        },
    }
    if app.selected != prev_selected {
        app.preview_scroll = 0;
    }
    effect
}

fn vec_has(v: &Vec<i64>, id: i64) -> (r: bool)
    ensures
        r == v@.contains(id),
{
    let mut i: usize = 0;
    while i < v.len()
        invariant
            i <= v.len(),
            forall|j: int| 0 <= j < i ==> v@[j] != id,
        decreases v.len() - i,
    {
        if v[i] == id {
            return true;
        }
        i = i + 1;
    }
    false
}

/// Ends an action whose effect changed the store: takes the entries the
/// store now holds and puts the preview back at the top when the selection
/// moved from `prev_selected`.
pub fn refresh_after(app: &mut App, entries: Vec<ClipEntry>, prev_selected: usize)
    requires
        old(app).wf(),
    ensures
        final(app).wf(),
        final(app).entries@ == entries@,
        is_fuzzy_ranking(contents_of(entries@), old(app).query@, final(app).filtered@),
        final(app).preview_scroll == scroll_after(old(app).preview_scroll, prev_selected, final(app).selected),
{
    app.refresh(entries);
    if app.selected != prev_selected {
        app.preview_scroll = 0;
    }
}

// ---------------------------------------------------------------------------
// How a row of the list is shown
// ---------------------------------------------------------------------------

/// How many characters of an entry's first line its row shows.
pub const PREVIEW_CHARS: usize = 200;

/// The first line of `content`, cut to `PREVIEW_CHARS` characters.
pub open spec fn preview_spec(content: Seq<char>) -> Seq<char> {
    let l = crate::text::first_line(content);
    if l.len() > PREVIEW_CHARS {
        l.take(PREVIEW_CHARS as int)
    } else {
        l
    }
}

/// The text a row shows of an entry holding `content`.
pub fn list_preview(content: &str) -> (r: String)
    ensures
        r@ == preview_spec(content@),
{
    let all = crate::text::chars_of(content);
    let ls = crate::text::lines(&all);
    let line: Vec<char> = if ls.len() > 0 {
        ls[0].clone()
    } else {
        Vec::new()
    };
    assert(line@ == crate::text::first_line(content@)) by {
        if ls.len() > 0 {
            assert(crate::text::views(ls@)[0] == ls@[0]@);
        }
    }
    let n: usize = if line.len() > PREVIEW_CHARS { PREVIEW_CHARS } else { line.len() };
    let cut = crate::text::sub_chars(&line, 0, n);
    assert(cut@ =~= preview_spec(content@));
    crate::text::string_of(&cut)
}

/// Which highlight a row gets.
#[derive(Debug, Clone, Copy, PartialEq, Eq)]
pub enum RowHighlight {
    /// The row under the cursor.
    Selected,
    /// The entry just copied.
    Copied,
    /// An entry marked for a multi-copy.
    Marked,
    Plain,
}

/// The highlight of a row: the cursor first, then a fresh copy, then a mark.
pub fn row_highlight(is_selected: bool, is_copied: bool, is_marked: bool) -> (r: RowHighlight)
    ensures
        r == (if is_selected {
            RowHighlight::Selected
        } else if is_copied {
            RowHighlight::Copied
        } else if is_marked {
            RowHighlight::Marked
        } else {
            RowHighlight::Plain
        }),
{
    if is_selected {
        RowHighlight::Selected
    } else if is_copied {
        RowHighlight::Copied
    } else if is_marked {
        RowHighlight::Marked
    } else {
        RowHighlight::Plain
    }
}

/// The status line: a notice after a copy; otherwise the row count and,
/// in normal mode, how many are marked and the keys, or in insert mode the
/// search keys.
pub open spec fn status_spec(count: nat, total: nat, copied: bool, mode: Mode, show_preview: bool, marked: nat) -> Seq<char> {
    if copied {
        " Copied! "@
    } else {
        let counts = " "@ + crate::text::decimal(count) + "/"@ + crate::text::decimal(total);
        match mode {
            Mode::Normal => {
                let head = if marked > 0 {
                    counts + " ("@ + crate::text::decimal(marked) + " selected)"@
                } else {
                    counts
                };
                let scroll: Seq<char> = if show_preview { " │ C-j/k scroll"@ } else { ""@ };
                head + " │ j/k move │ Space select │ Enter copy │ s pin │ dd delete │ p preview"@ + scroll
                    + " │ / search │ ? help │ q quit"@
            },
            Mode::Insert => counts + " │ type to filter │ Enter copy │ Esc normal mode"@,
        }
    }
}

/// The text of the status line.
pub fn status_text(count: usize, total: usize, copied: bool, mode: Mode, show_preview: bool, marked: usize) -> (r: String)
    ensures
        r@ == status_spec(count as nat, total as nat, copied, mode, show_preview, marked as nat),
{
    let mut out: Vec<char> = Vec::new();
    if copied {
        crate::text::push_str(&mut out, " Copied! ");
    } else {
        crate::text::push_str(&mut out, " ");
        crate::text::push_decimal(&mut out, count as u64);
        crate::text::push_str(&mut out, "/");
        crate::text::push_decimal(&mut out, total as u64);
        match mode {
            Mode::Normal => {
                if marked > 0 {
                    crate::text::push_str(&mut out, " (");
                    crate::text::push_decimal(&mut out, marked as u64);
                    crate::text::push_str(&mut out, " selected)");
                }
                crate::text::push_str(&mut out, " │ j/k move │ Space select │ Enter copy │ s pin │ dd delete │ p preview");
                if show_preview {
                    crate::text::push_str(&mut out, " │ C-j/k scroll");
                }
                crate::text::push_str(&mut out, " │ / search │ ? help │ q quit");
            },
            Mode::Insert => {
                crate::text::push_str(&mut out, " │ type to filter │ Enter copy │ Esc normal mode");
            },
        }
    }
    proof {
        reveal_strlit("");
    }
    assert(out@ =~= status_spec(count as nat, total as nat, copied, mode, show_preview, marked as nat));
    crate::text::string_of(&out)
}

} // verus!
