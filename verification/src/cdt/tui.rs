//! The state of the interactive workspace picker and how keys change it.

use vstd::prelude::*;
use crate::cdt::scanner::{Workspace, label_spec};
use crate::ranking::{is_fuzzy_ranking, rank_texts, text_views};
pub use crate::tui_core::Mode;
use crate::tui_core::{self, KeyEvent, NavAction, key_step, nav_fits, nav_result};

verus! {

/// What a key asks of the picker.
#[derive(Debug, PartialEq, Eq, Structural, Clone, Copy)]
pub enum Action {
    Nav(NavAction),
    /// Enter: pick the selected workspace.
    Select,
}

/// The picker's state.
pub struct App {
    pub workspaces: Vec<Workspace>,
    /// Indices into `workspaces` of the rows shown, best match first.
    pub filtered: Vec<usize>,
    pub query: String,
    /// The selected row of `filtered`.
    pub selected: usize,
    pub scroll_offset: usize,
    pub should_quit: bool,
    /// The directory picked with Enter.
    pub chosen: Option<String>,
    pub mode: Mode,
    pub pending_key: Option<char>,
    pub list_height: usize,
    pub show_help: bool,
}

/// The labels of the workspaces.
pub open spec fn labels_of(ws: Seq<Workspace>) -> Seq<Seq<char>> {
    ws.map_values(|w: Workspace| label_spec(w))
}

impl App {
    /// The rows point at workspaces, and the selection is a row (or 0 when
    /// there is none).
    pub open spec fn wf(&self) -> bool {
        &&& forall|k: int| 0 <= k < self.filtered@.len() ==> #[trigger] self.filtered@[k] < self.workspaces@.len()
        &&& if self.filtered@.len() == 0 {
            self.selected == 0
        } else {
            self.selected < self.filtered@.len()
        }
    }

    /// A picker over `workspaces` showing all of them, nothing typed yet.
    pub fn new(workspaces: Vec<Workspace>) -> (r: App)
        ensures
            r.wf(),
            r.workspaces@ == workspaces@,
            r.filtered@ == Seq::new(workspaces@.len(), |i: int| i as usize),
            r.query@ == Seq::<char>::empty(),
            r.selected == 0,
            r.scroll_offset == 0,
            !r.should_quit,
            r.chosen is None,
            r.mode == Mode::Normal,
            r.pending_key is None,
            r.list_height == 0,
            !r.show_help,
    {
        proof {
            reveal_strlit("");
        }
        let filtered = compute_filtered(&workspaces, "");
        assert(labels_of(workspaces@).len() == workspaces@.len());
        App {
            workspaces,
            filtered,
            query: String::new(),
            selected: 0,
            scroll_offset: 0,
            should_quit: false,
            chosen: None,
            mode: Mode::Normal,
            pending_key: None,
            list_height: 0,
            show_help: false,
        }
    }

    /// Recomputes the rows for the query and keeps the selection on a row.
    pub fn refilter(&mut self)
        ensures
            final(self).wf(),
            is_fuzzy_ranking(labels_of(old(self).workspaces@), old(self).query@, final(self).filtered@),
            final(self).selected == if final(self).filtered@.len() == 0 {
                0
            } else if old(self).selected < final(self).filtered@.len() {
                old(self).selected
            } else {
                (final(self).filtered@.len() - 1) as usize
            },
            final(self).scroll_offset == if final(self).filtered@.len() == 0 {
                0
            } else {
                old(self).scroll_offset
            },
            final(self).workspaces@ == old(self).workspaces@,
            final(self).query@ == old(self).query@,
            final(self).should_quit == old(self).should_quit,
            final(self).chosen == old(self).chosen,
            final(self).mode == old(self).mode,
            final(self).pending_key == old(self).pending_key,
            final(self).list_height == old(self).list_height,
            final(self).show_help == old(self).show_help,
    {
        self.filtered = compute_filtered(&self.workspaces, self.query.as_str());
        self.clamp_selection();
    }

    fn clamp_selection(&mut self)
        requires
            forall|k: int| 0 <= k < old(self).filtered@.len() ==> #[trigger] old(self).filtered@[k] < old(self).workspaces@.len(),
        ensures
            final(self).wf(),
            final(self).selected == if final(self).filtered@.len() == 0 {
                0
            } else if old(self).selected < final(self).filtered@.len() {
                old(self).selected
            } else {
                (final(self).filtered@.len() - 1) as usize
            },
            final(self).scroll_offset == if final(self).filtered@.len() == 0 {
                0
            } else {
                old(self).scroll_offset
            },
            final(self).workspaces@ == old(self).workspaces@,
            final(self).filtered@ == old(self).filtered@,
            final(self).query@ == old(self).query@,
            final(self).should_quit == old(self).should_quit,
            final(self).chosen == old(self).chosen,
            final(self).mode == old(self).mode,
            final(self).pending_key == old(self).pending_key,
            final(self).list_height == old(self).list_height,
            final(self).show_help == old(self).show_help,
    {
        if self.filtered.len() == 0 {
            self.selected = 0;
            self.scroll_offset = 0;
        } else if self.selected >= self.filtered.len() {
            self.selected = self.filtered.len() - 1;
        }
    }

    /// The workspace on the selected row, if there is one.
    pub fn selected_workspace(&self) -> (r: Option<&Workspace>)
        requires
            self.wf(),
        ensures
            match r {
                Some(w) => self.selected < self.filtered@.len() && *w == self.workspaces@[self.filtered@[self.selected as int] as int],
                None => self.selected >= self.filtered@.len(),
            },
    {
        if self.selected < self.filtered.len() {
            let i = self.filtered[self.selected];
            Some(&self.workspaces[i])
        } else {
            None
        }
    }
}

/// Indices of the workspaces whose labels match `query`, best fuzzy match
/// first; all of them, in order, for an empty query.
pub fn compute_filtered(workspaces: &[Workspace], query: &str) -> (r: Vec<usize>)
    ensures
        is_fuzzy_ranking(labels_of(workspaces@), query@, r@),
        forall|k: int| 0 <= k < r@.len() ==> #[trigger] r@[k] < workspaces@.len(),
{
    let mut labels: Vec<String> = Vec::new();
    let mut i: usize = 0;
    while i < workspaces.len()
        invariant
            i <= workspaces.len(),
            text_views(labels@) == labels_of(workspaces@).take(i as int),
        decreases workspaces.len() - i,
    {
        let l = workspaces[i].label();
        let ghost before = text_views(labels@);
        labels.push(l);
        assert(text_views(labels@) =~= before.push(label_spec(workspaces@[i as int])));
        i = i + 1;
        assert(text_views(labels@) =~= labels_of(workspaces@).take(i as int));
    }
    assert(labels_of(workspaces@).take(i as int) =~= labels_of(workspaces@));
    let r = rank_texts(&labels, query);
    proof {
        if query@.len() == 0 {
            assert forall|k: int| 0 <= k < r@.len() implies #[trigger] r@[k] < workspaces@.len() by {
                assert(r@ == Seq::new(labels_of(workspaces@).len(), |j: int| j as usize));
            }
        }
    }
    r
}

/// What a key does in the picker: a shared binding, or Select for Enter.
pub fn handle_key(key: KeyEvent, mode: Mode, pending: &mut Option<char>) -> (r: Action)
    ensures
        ({
            let (nav, p) = key_step(key, mode, *old(pending), Seq::empty());
            &&& *final(pending) == p
            &&& r == match nav {
                Some(n) => Action::Nav(n),
                None => Action::Select,
            }
        }),
{
    let none: [char; 0] = [];
    let r = tui_core::handle_key(key, mode, pending, &none);
    assert(none@ =~= Seq::<char>::empty());
    match r {
        Some(nav) => Action::Nav(nav),
        None => Action::Select,
    }
}

/// The navigation actions: those that move the selection.
pub open spec fn is_move(n: NavAction) -> bool {
    match n {
        NavAction::MoveUp | NavAction::MoveDown | NavAction::MoveToTop | NavAction::MoveToBottom
        | NavAction::HalfPageUp | NavAction::HalfPageDown | NavAction::NextMatch
        | NavAction::PrevMatch => true,
        _ => false,
    }
}

/// The fields that an action leaves as they were, apart from those named.
pub open spec fn same_rest(a: App, b: App) -> bool {
    &&& a.workspaces@ == b.workspaces@
    &&& a.list_height == b.list_height
}

/// The query after an editing action.
pub open spec fn edited_query(q: Seq<char>, n: NavAction) -> Seq<char> {
    match n {
        NavAction::TypeChar(c) => q.push(c),
        NavAction::Backspace => if q.len() > 0 {
            q.drop_last()
        } else {
            q
        },
        NavAction::ClearSearch => Seq::empty(),
        _ => q,
    }
}

/// The editing actions: those that change the query.
pub open spec fn is_edit(n: NavAction) -> bool {
    n is TypeChar || n is Backspace || n is ClearSearch
}

/// Applies an action to the picker's state.
pub fn apply_action(app: &mut App, action: Action)
    requires
        old(app).wf(),
        action matches Action::Nav(n) ==> nav_fits(n, old(app).selected as int, old(app).filtered@.len() as int, old(app).list_height as int),
    ensures
        final(app).wf(),
        same_rest(*old(app), *final(app)),
        match action {
            Action::Select => {
                &&& final(app).should_quit
                &&& final(app).chosen == if old(app).selected < old(app).filtered@.len() {
                    Some(old(app).workspaces@[old(app).filtered@[old(app).selected as int] as int].path)
                } else {
                    old(app).chosen
                }
                &&& final(app).filtered@ == old(app).filtered@
                &&& final(app).selected == old(app).selected
                &&& final(app).query@ == old(app).query@
                &&& final(app).mode == old(app).mode
                &&& final(app).show_help == old(app).show_help
                &&& final(app).scroll_offset == old(app).scroll_offset
                &&& final(app).pending_key == old(app).pending_key
            },
            Action::Nav(n) => {
                &&& final(app).should_quit == (old(app).should_quit || n == NavAction::Quit)
                &&& final(app).chosen == old(app).chosen
                &&& final(app).show_help == if n == NavAction::ShowHelp {
                    !old(app).show_help
                } else {
                    old(app).show_help
                }
                &&& final(app).mode == if n == NavAction::EnterInsert {
                    Mode::Insert
                } else if n == NavAction::ExitInsert {
                    Mode::Normal
                } else {
                    old(app).mode
                }
                &&& final(app).pending_key == if n == NavAction::ExitInsert {
                    None
                } else {
                    old(app).pending_key
                }
                &&& final(app).query@ == edited_query(old(app).query@, n)
                &&& final(app).scroll_offset == if is_edit(n) && final(app).filtered@.len() == 0 {
                    0
                } else {
                    old(app).scroll_offset
                }
                &&& if is_edit(n) {
                    &&& is_fuzzy_ranking(labels_of(old(app).workspaces@), final(app).query@, final(app).filtered@)
                    &&& final(app).selected == 0
                } else {
                    &&& final(app).filtered@ == old(app).filtered@
                    &&& final(app).selected == if is_move(n) {
                        nav_result(n, old(app).selected as int, old(app).filtered@.len() as int, old(app).list_height as int) as usize
                    } else {
                        old(app).selected
                    }
                }
            },
        },
{
    match action {
        Action::Nav(nav) => match nav {
            NavAction::Noop => {},
            NavAction::Quit => app.should_quit = true,
            NavAction::ShowHelp => app.show_help = !app.show_help,
            NavAction::EnterInsert => app.mode = Mode::Insert,
            NavAction::ExitInsert => {
                app.mode = Mode::Normal;
                app.pending_key = None;
            },
            NavAction::TypeChar(c) => {
                crate::text::push_char(&mut app.query, c);
                app.refilter();
                app.selected = 0;
            },
            NavAction::Backspace => {
                crate::text::pop_char(&mut app.query);
                app.refilter();
                app.selected = 0;
            },
            NavAction::ClearSearch => {
                app.query = String::new();
                app.refilter();
                app.selected = 0;
            },
            NavAction::MoveUp | NavAction::MoveDown | NavAction::MoveToTop | NavAction::MoveToBottom
            | NavAction::HalfPageUp | NavAction::HalfPageDown | NavAction::NextMatch
            | NavAction::PrevMatch => {
                proof {
                    if app.filtered@.len() > 0 {
                        tui_core::navigation_stays_in_list(
                            nav,
                            app.selected as int,
                            app.filtered@.len() as int,
                            app.list_height as int,
                        );
                    }
                }
                app.selected = tui_core::apply_navigation(&nav, app.selected, app.filtered.len(), app.list_height);
            },
        },
        Action::Select => {
            if let Some(ws) = app.selected_workspace() {
                app.chosen = Some(ws.path.clone());
            }
            app.should_quit = true;
        },
    }
}

/// The status line of the picker: the row count, the keys of the mode and
/// the selected workspace's path.
pub open spec fn status_spec(count: nat, total: nat, mode: Mode, path_hint: Seq<char>) -> Seq<char> {
    let counts = " "@ + crate::text::decimal(count) + "/"@ + crate::text::decimal(total);
    match mode {
        Mode::Normal => counts + " │ j/k move │ Enter select │ / search │ ? help │ q quit  "@ + path_hint,
        Mode::Insert => counts + " │ type to filter │ Enter select │ Esc normal  "@ + path_hint,
    }
}

/// The text of the picker's status line; `path_hint` is the selected
/// workspace's path, or empty.
pub fn status_text(count: usize, total: usize, mode: Mode, path_hint: &str) -> (r: String)
    ensures
        r@ == status_spec(count as nat, total as nat, mode, path_hint@),
{
    let mut out: Vec<char> = Vec::new();
    crate::text::push_str(&mut out, " ");
    crate::text::push_decimal(&mut out, count as u64);
    crate::text::push_str(&mut out, "/");
    crate::text::push_decimal(&mut out, total as u64);
    match mode {
        Mode::Normal => crate::text::push_str(&mut out, " │ j/k move │ Enter select │ / search │ ? help │ q quit  "),
        Mode::Insert => crate::text::push_str(&mut out, " │ type to filter │ Enter select │ Esc normal  "),
    }
    crate::text::push_str(&mut out, path_hint);
    assert(out@ =~= status_spec(count as nat, total as nat, mode, path_hint@));
    crate::text::string_of(&out)
}

/// The padded cells of a picker row: project and name to 16 characters,
/// branch to 24, the age right-aligned to 8.
pub fn picker_cells(d: &crate::cdt::scanner::DisplayColumns) -> (r: (String, String, String, String))
    ensures
        r.0@ == crate::text::pad_right(d.project@, 16),
        r.1@ == crate::text::pad_right(d.name@, 16),
        r.2@ == crate::text::pad_right(d.branch@, 24),
        r.3@ == crate::text::pad_left(d.age@, 8),
{
    let mut a: Vec<char> = Vec::new();
    crate::text::push_padded_right(&mut a, &crate::text::chars_of(d.project.as_str()), 16);
    let mut b: Vec<char> = Vec::new();
    crate::text::push_padded_right(&mut b, &crate::text::chars_of(d.name.as_str()), 16);
    let mut c: Vec<char> = Vec::new();
    crate::text::push_padded_right(&mut c, &crate::text::chars_of(d.branch.as_str()), 24);
    let mut e: Vec<char> = Vec::new();
    crate::text::push_padded_left(&mut e, &crate::text::chars_of(d.age.as_str()), 8);
    assert(a@ =~= crate::text::pad_right(d.project@, 16));
    assert(b@ =~= crate::text::pad_right(d.name@, 16));
    assert(c@ =~= crate::text::pad_right(d.branch@, 24));
    assert(e@ =~= crate::text::pad_left(d.age@, 8));
    (crate::text::string_of(&a), crate::text::string_of(&b), crate::text::string_of(&c), crate::text::string_of(&e))
}

/// The merge mark at the start of a picker row: a check for merged, a dot
/// for open, a blank when unknown.
pub fn picker_indicator(merged: Option<bool>) -> (r: &'static str)
    ensures
        r@ == match merged {
            Some(true) => " ✓ "@,
            Some(false) => " ● "@,
            None => "   "@,
        },
{
    match merged {
        Some(true) => " ✓ ",
        Some(false) => " ● ",
        None => "   ",
    }
}

} // verus!
