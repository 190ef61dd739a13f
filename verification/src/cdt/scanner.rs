//! Workspaces: their labels and display columns, lookup by name, the status
//! summary, and the parsing of the pull-request list that `gh` prints.

use vstd::prelude::*;
use crate::text::{
    chars_of, decimal, find_first, first_occurrence, join_chars, join_with, lead_ws,
    push_all, push_decimal, push_str, string_of, sub_chars, views, contains, contains_str,
    trim, trim_chars, pad_right, pad_left, push_padded_right,
    push_padded_left,
};

verus! {

/// The outcome of a pull request's checks.
#[derive(Clone, Copy, Debug, PartialEq, Eq, Structural)]
pub enum CiStatus {
    Pass,
    Fail,
    Pending,
    Unknown,
}

/// An open pull request of a workspace's branch.
#[derive(Clone, Copy, Debug, PartialEq, Eq, Structural)]
pub struct PrInfo {
    pub number: u32,
    pub ci_status: CiStatus,
}

/// A git worktree under the workspace root, `<root>/<project>/<name>`.
#[derive(Clone, Debug)]
pub struct Workspace {
    pub project: String,
    pub name: String,
    /// The worktree's directory.
    pub path: String,
    /// Whether the branch is merged into the main branch; `None` when that
    /// could not be told (no branch, or the main branch itself).
    pub merged: Option<bool>,
    pub branch: Option<String>,
    /// Time of the last commit, in seconds since the Unix epoch.
    pub last_commit: Option<u64>,
    /// Whether the worktree has uncommitted changes.
    pub dirty: bool,
    pub pr: Option<PrInfo>,
}

/// `project/name`.
pub open spec fn label_spec(ws: Workspace) -> Seq<char> {
    ws.project@ + "/"@ + ws.name@
}

impl Workspace {
    /// The workspace's label, `project/name`.
    pub fn label(&self) -> (r: String)
        ensures
            r@ == label_spec(*self),
    {
        let mut out = chars_of(self.project.as_str());
        push_str(&mut out, "/");
        let n = chars_of(self.name.as_str());
        push_all(&mut out, &n);
        string_of(&out)
    }
}

// ---------------------------------------------------------------------------
// Ages
// ---------------------------------------------------------------------------

/// The whole seconds of a `Duration` (`Duration::as_secs`).
pub uninterp spec fn duration_secs(d: std::time::Duration) -> u64;

/// Calls `Duration::as_secs`; its result is named by `duration_secs`.
#[verifier::external_body]
pub(crate) fn duration_as_secs(d: &std::time::Duration) -> (r: u64)
    ensures
        r == duration_secs(*d),
{
    d.as_secs()
}

/// A duration of `secs` seconds (`Duration::from_secs`); its whole seconds are
/// `secs` and it has no part of a second.
#[verifier::external_body]
pub(crate) fn duration_from_secs(secs: u64) -> (r: std::time::Duration)
    ensures
        duration_secs(r) == secs,
        crate::cdt::cache::duration_nanos(r) == 0,
{
    std::time::Duration::from_secs(secs)
}

/// A relative age in the largest whole unit: seconds, minutes, hours or days.
pub open spec fn age_text(secs: nat) -> Seq<char> {
    if secs < 60 {
        decimal(secs) + "s ago"@
    } else if secs < 3600 {
        decimal(secs / 60) + "m ago"@
    } else if secs < 86400 {
        decimal(secs / 3600) + "h ago"@
    } else {
        decimal(secs / 86400) + "d ago"@
    }
}

/// A number of seconds as a human-readable relative time.
pub fn format_age_secs(secs: u64) -> (r: String)
    ensures
        r@ == age_text(secs as nat),
{
    let mut out: Vec<char> = Vec::new();
    if secs < 60 {
        push_decimal(&mut out, secs);
        push_str(&mut out, "s ago");
    } else if secs < 3600 {
        push_decimal(&mut out, secs / 60);
        push_str(&mut out, "m ago");
    } else if secs < 86400 {
        push_decimal(&mut out, secs / 3600);
        push_str(&mut out, "h ago");
    } else {
        push_decimal(&mut out, secs / 86400);
        push_str(&mut out, "d ago");
    }
    string_of(&out)
}

/// A duration as a human-readable relative time, by its whole seconds.
pub fn format_age(duration: std::time::Duration) -> (r: String)
    ensures
        r@ == age_text(duration_secs(duration) as nat),
{
    let secs = duration_as_secs(&duration);
    format_age_secs(secs)
}

// ---------------------------------------------------------------------------
// Display columns
// ---------------------------------------------------------------------------

/// A pull request as shown in a listing.
pub struct PrDisplayInfo {
    pub number: u32,
    pub ci_label: &'static str,
}

/// The columns that every listing of a workspace shows.
pub struct DisplayColumns {
    pub merge_status: &'static str,
    pub project: String,
    pub name: String,
    pub branch: String,
    pub age: String,
    pub dirty: bool,
    pub pr: Option<PrDisplayInfo>,
    pub path: String,
}

/// The merge column.
pub open spec fn merge_status_text(merged: Option<bool>) -> Seq<char> {
    match merged {
        Some(true) => "✓ merged"@,
        Some(false) => "● open"@,
        None => "—"@,
    }
}

/// The checks column.
pub open spec fn ci_label_text(ci: CiStatus) -> Seq<char> {
    match ci {
        CiStatus::Pass => "✓ci"@,
        CiStatus::Fail => "✗ci"@,
        CiStatus::Pending => "⧗ci"@,
        CiStatus::Unknown => ""@,
    }
}

/// The age column at time `now` (seconds since the epoch): the age of the
/// last commit, or a dash when there is none or it lies in the future.
pub open spec fn age_column(last_commit: Option<u64>, now: u64) -> Seq<char> {
    match last_commit {
        Some(t) => if t <= now {
            age_text((now - t) as nat)
        } else {
            "—"@
        },
        None => "—"@,
    }
}

/// The columns of `ws` as seen at time `now`.
pub open spec fn columns_match(c: DisplayColumns, ws: Workspace, now: u64) -> bool {
    &&& c.merge_status@ == merge_status_text(ws.merged)
    &&& c.project@ == ws.project@
    &&& c.name@ == ws.name@
    &&& c.branch@ == match ws.branch {
        Some(b) => b@,
        None => "—"@,
    }
    &&& c.age@ == age_column(ws.last_commit, now)
    &&& c.dirty == ws.dirty
    &&& match (c.pr, ws.pr) {
        (Some(d), Some(p)) => d.number == p.number && d.ci_label@ == ci_label_text(p.ci_status),
        (None, None) => true,
        _ => false,
    }
    &&& c.path@ == ws.path@
}

/// The current time in whole seconds since the Unix epoch, or 0 when the
/// clock is set before it. Nothing is promised of the value.
#[verifier::external_body]
pub(crate) fn unix_now() -> (r: u64) {
    match std::time::SystemTime::now().duration_since(std::time::UNIX_EPOCH) {
        Ok(d) => d.as_secs(),
        Err(_) => 0,
    }
}

fn ci_label(ci: CiStatus) -> (r: &'static str)
    ensures
        r@ == ci_label_text(ci),
{
    match ci {
        CiStatus::Pass => "✓ci",
        CiStatus::Fail => "✗ci",
        CiStatus::Pending => "⧗ci",
        CiStatus::Unknown => "",
    }
}

impl Workspace {
    /// The display columns of this workspace with ages taken at time `now`.
    pub fn display_columns_at(&self, now: u64) -> (r: DisplayColumns)
        ensures
            columns_match(r, *self, now),
    {
        let merge_status = match self.merged {
            Some(true) => "✓ merged",
            Some(false) => "● open",
            None => "—",
        };
        let branch = match &self.branch {
            Some(b) => b.clone(),
            None => String::from_str("—"),
        };
        let age = match self.last_commit {
            Some(t) => if t <= now {
                format_age_secs(now - t)
            } else {
                String::from_str("—")
            },
            None => String::from_str("—"),
        };
        let pr = match self.pr {
            Some(info) => Some(PrDisplayInfo { number: info.number, ci_label: ci_label(info.ci_status) }),
            None => None,
        };
        DisplayColumns {
            merge_status,
            project: self.project.clone(),
            name: self.name.clone(),
            branch,
            age,
            dirty: self.dirty,
            pr,
            path: self.path.clone(),
        }
    }

    /// The display columns of this workspace, with ages taken now.
    pub fn display_columns(&self) -> (r: DisplayColumns)
        ensures
            exists|now: u64| columns_match(r, *self, now),
    {
        let now = unix_now();
        self.display_columns_at(now)
    }
}

// ---------------------------------------------------------------------------
// Lookup by name
// ---------------------------------------------------------------------------

/// The first workspace whose label is `q`.
pub open spec fn first_label_index(ws: Seq<Workspace>, q: Seq<char>) -> Option<int>
    decreases ws.len(),
{
    if ws.len() == 0 {
        None
    } else {
        match first_label_index(ws.drop_last(), q) {
            Some(i) => Some(i),
            None => if label_spec(ws.last()) == q {
                Some(ws.len() - 1)
            } else {
                None
            },
        }
    }
}

/// The indices of the workspaces named `q`, in order.
pub open spec fn name_indices(ws: Seq<Workspace>, q: Seq<char>) -> Seq<int>
    decreases ws.len(),
{
    if ws.len() == 0 {
        Seq::empty()
    } else if ws.last().name@ == q {
        name_indices(ws.drop_last(), q).push(ws.len() - 1)
    } else {
        name_indices(ws.drop_last(), q)
    }
}

/// The message for a name that matches no workspace.
pub open spec fn no_match_message(q: Seq<char>) -> Seq<char> {
    "no workspace matching '"@ + q + "'"@
}

/// The message for a name that several workspaces share.
pub open spec fn ambiguous_message(ws: Seq<Workspace>, q: Seq<char>) -> Seq<char> {
    let m = name_indices(ws, q);
    "'"@ + q + "' is ambiguous, matches: "@ + join_with(
        Seq::new(m.len(), |k: int| label_spec(ws[m[k]])),
        ", "@,
    ) + ". Use project/name to disambiguate."@
}

/// Which workspace `find_workspace` picks, by index, or the error it gives.
pub open spec fn find_result(ws: Seq<Workspace>, q: Seq<char>) -> Result<int, Seq<char>> {
    match first_label_index(ws, q) {
        Some(i) => Ok(i),
        None => {
            let m = name_indices(ws, q);
            if m.len() == 0 {
                Err(no_match_message(q))
            } else if m.len() == 1 {
                Ok(m[0])
            } else {
                Err(ambiguous_message(ws, q))
            }
        },
    }
}

proof fn lemma_first_label_index(ws: Seq<Workspace>, q: Seq<char>)
    ensures
        match first_label_index(ws, q) {
            Some(i) => 0 <= i < ws.len() && label_spec(ws[i]) == q && forall|k: int|
                0 <= k < i ==> label_spec(ws[k]) != q,
            None => forall|k: int| 0 <= k < ws.len() ==> label_spec(ws[k]) != q,
        },
    decreases ws.len(),
{
    if ws.len() > 0 {
        lemma_first_label_index(ws.drop_last(), q);
        let p = ws.drop_last();
        assert forall|k: int| 0 <= k < p.len() implies p[k] == ws[k] by {}
    }
}

proof fn lemma_name_indices(ws: Seq<Workspace>, q: Seq<char>)
    ensures
        forall|k: int|
            0 <= k < name_indices(ws, q).len() ==> 0 <= #[trigger] name_indices(ws, q)[k] < ws.len(),
    decreases ws.len(),
{
    if ws.len() > 0 {
        lemma_name_indices(ws.drop_last(), q);
        let prev = name_indices(ws.drop_last(), q);
        assert forall|k: int| 0 <= k < name_indices(ws, q).len() implies 0 <= #[trigger] name_indices(ws, q)[k] < ws.len() by {
            if k < prev.len() {
                assert(name_indices(ws, q)[k] == prev[k]);
            }
        }
    }
}

/// Finds a workspace by `project/name` (exact) or by its name alone when that
/// name is unique; errors when nothing or several match.
pub fn find_workspace<'a>(workspaces: &'a [Workspace], query: &str) -> (r: Result<&'a Workspace, String>)
    ensures
        match (r, find_result(workspaces@, query@)) {
            (Ok(w), Ok(i)) => 0 <= i < workspaces@.len() && *w == workspaces@[i],
            (Err(e), Err(m)) => e@ == m,
            _ => false,
        },
{
    let ghost ws = workspaces@;
    proof {
        lemma_first_label_index(ws, query@);
        lemma_name_indices(ws, query@);
    }
    let mut i: usize = 0;
    while i < workspaces.len()
        invariant
            ws == workspaces@,
            i <= workspaces.len(),
            forall|k: int| 0 <= k < i ==> label_spec(ws[k]) != query@,
        decreases workspaces.len() - i,
    {
        let l = workspaces[i].label();
        let q = String::from_str(query);
        if l == q {
            proof {
                lemma_first_label_index(ws, query@);
            }
            return Ok(&workspaces[i]);
        }
        i = i + 1;
    }
    assert(first_label_index(ws, query@) is None);
    // Workspaces whose name alone matches, in order.
    let mut matches: Vec<usize> = Vec::new();
    let mut j: usize = 0;
    while j < workspaces.len()
        invariant
            ws == workspaces@,
            j <= workspaces.len(),
            matches@.len() == name_indices(ws.take(j as int), query@).len(),
            forall|k: int|
                0 <= k < matches@.len() ==> matches@[k] as int == #[trigger] name_indices(
                    ws.take(j as int),
                    query@,
                )[k],
        decreases workspaces.len() - j,
    {
        proof {
            assert(ws.take(j + 1).drop_last() =~= ws.take(j as int));
        }
        let q = String::from_str(query);
        if workspaces[j].name == q {
            matches.push(j);
        }
        j = j + 1;
    }
    assert(ws.take(j as int) =~= ws);
    let qv = chars_of(query);
    if matches.len() == 0 {
        let mut out: Vec<char> = Vec::new();
        push_str(&mut out, "no workspace matching '");
        push_all(&mut out, &qv);
        push_str(&mut out, "'");
        return Err(string_of(&out));
    }
    if matches.len() == 1 {
        return Ok(&workspaces[matches[0]]);
    }
    let mut labels: Vec<Vec<char>> = Vec::new();
    let mut k: usize = 0;
    while k < matches.len()
        invariant
            ws == workspaces@,
            k <= matches.len(),
            matches@.len() == name_indices(ws, query@).len(),
            forall|t: int| 0 <= t < matches@.len() ==> matches@[t] as int == #[trigger] name_indices(ws, query@)[t],
            forall|t: int|
                0 <= t < name_indices(ws, query@).len() ==> 0 <= #[trigger] name_indices(ws, query@)[t]
                    < ws.len(),
            labels@.len() == k,
            forall|t: int| 0 <= t < k ==> #[trigger] labels@[t]@ == label_spec(ws[matches@[t] as int]),
        decreases matches.len() - k,
    {
        assert(name_indices(ws, query@)[k as int] == matches@[k as int]);
        let l = workspaces[matches[k]].label();
        labels.push(chars_of(l.as_str()));
        k = k + 1;
    }
    let joined = join_chars(&labels, ", ");
    let mut out: Vec<char> = Vec::new();
    push_str(&mut out, "'");
    push_all(&mut out, &qv);
    push_str(&mut out, "' is ambiguous, matches: ");
    push_all(&mut out, &joined);
    push_str(&mut out, ". Use project/name to disambiguate.");
    proof {
        let m = name_indices(ws, query@);
        assert(views(labels@) =~= Seq::new(m.len(), |t: int| label_spec(ws[m[t]])));
        assert(out@ =~= ambiguous_message(ws, query@));
    }
    Err(string_of(&out))
}

// ---------------------------------------------------------------------------
// Summary
// ---------------------------------------------------------------------------

/// Whether `w` counts under a summary tally: `0` open, `1` merged, `2`
/// dirty, `3` of unknown merge state.
pub open spec fn tallied(w: Workspace, kind: int) -> bool {
    if kind == 0 {
        w.merged == Some(false)
    } else if kind == 1 {
        w.merged == Some(true)
    } else if kind == 2 {
        w.dirty
    } else {
        w.merged is None
    }
}

/// How many workspaces count under tally `kind`.
pub open spec fn tally(ws: Seq<Workspace>, kind: int) -> nat
    decreases ws.len(),
{
    if ws.len() == 0 {
        0
    } else {
        tally(ws.drop_last(), kind) + if tallied(ws.last(), kind) {
            1nat
        } else {
            0nat
        }
    }
}

proof fn lemma_tally_le(ws: Seq<Workspace>, kind: int)
    ensures
        tally(ws, kind) <= ws.len(),
    decreases ws.len(),
{
    if ws.len() > 0 {
        lemma_tally_le(ws.drop_last(), kind);
    }
}

/// Every workspace is counted as exactly one of open, merged or unknown.
pub proof fn summary_counts_every_workspace_once(ws: Seq<Workspace>)
    ensures
        tally(ws, 0) + tally(ws, 1) + tally(ws, 3) == ws.len(),
    decreases ws.len(),
{
    if ws.len() > 0 {
        summary_counts_every_workspace_once(ws.drop_last());
        let w = ws.last();
        match w.merged {
            Some(true) => assert(tallied(w, 1) && !tallied(w, 0) && !tallied(w, 3)),
            Some(false) => assert(tallied(w, 0) && !tallied(w, 1) && !tallied(w, 3)),
            None => assert(tallied(w, 3) && !tallied(w, 0) && !tallied(w, 1)),
        }
        assert(tally(ws, 0) == tally(ws.drop_last(), 0) + if tallied(w, 0) { 1nat } else { 0nat });
        assert(tally(ws, 1) == tally(ws.drop_last(), 1) + if tallied(w, 1) { 1nat } else { 0nat });
        assert(tally(ws, 3) == tally(ws.drop_last(), 3) + if tallied(w, 3) { 1nat } else { 0nat });
    } else {
        assert(tally(ws, 0) == 0 && tally(ws, 1) == 0 && tally(ws, 3) == 0);
    }
}

/// The summary says "No workspaces." exactly when there are none.
pub proof fn summary_is_empty_only_without_workspaces(ws: Seq<Workspace>)
    ensures
        (summary_parts(ws).len() == 0) == (ws.len() == 0),
{
    summary_counts_every_workspace_once(ws);
    if ws.len() == 0 {
        assert(tally(ws, 0) == 0 && tally(ws, 1) == 0 && tally(ws, 2) == 0 && tally(ws, 3) == 0);
    }
}

/// Adds `"{n}{word}"` to `parts` when `n` is positive.
pub open spec fn push_if(parts: Seq<Seq<char>>, n: nat, word: Seq<char>) -> Seq<Seq<char>> {
    if n > 0 {
        parts.push(decimal(n) + word)
    } else {
        parts
    }
}

/// The counted parts of the summary: open, merged, dirty, unknown.
pub open spec fn summary_parts(ws: Seq<Workspace>) -> Seq<Seq<char>> {
    push_if(
        push_if(
            push_if(
                push_if(
                    Seq::empty(),
                    tally(ws, 0),
                    " open"@,
                ),
                tally(ws, 1),
                " merged"@,
            ),
            tally(ws, 2),
            " dirty"@,
        ),
        tally(ws, 3),
        " unknown"@,
    )
}

/// The one-line status summary.
pub open spec fn summary_text(ws: Seq<Workspace>) -> Seq<char> {
    let parts = summary_parts(ws);
    if parts.len() == 0 {
        "No workspaces."@
    } else {
        decimal(ws.len()) + " workspace(s): "@ + join_with(parts, ", "@)
    }
}

fn push_count(parts: &mut Vec<Vec<char>>, n: u32, word: &str)
    ensures
        views(final(parts)@) == push_if(views(old(parts)@), n as nat, word@),
{
    if n > 0 {
        let mut v: Vec<char> = Vec::new();
        push_decimal(&mut v, n as u64);
        push_str(&mut v, word);
        let ghost before = views(parts@);
        parts.push(v);
        assert(views(parts@) =~= before.push(decimal(n as nat) + word@));
    }
}

/// A one-line summary of how many workspaces are open, merged, dirty and of
/// unknown state.
pub fn summarize(workspaces: &[Workspace]) -> (r: String)
    requires
        workspaces@.len() <= u32::MAX,
    ensures
        r@ == summary_text(workspaces@),
{
    let ghost ws = workspaces@;
    let mut open: u32 = 0;
    let mut merged: u32 = 0;
    let mut dirty: u32 = 0;
    let mut unknown: u32 = 0;
    let mut i: usize = 0;
    while i < workspaces.len()
        invariant
            ws == workspaces@,
            ws.len() <= u32::MAX,
            i <= workspaces.len(),
            open == tally(ws.take(i as int), 0),
            merged == tally(ws.take(i as int), 1),
            dirty == tally(ws.take(i as int), 2),
            unknown == tally(ws.take(i as int), 3),
        decreases workspaces.len() - i,
    {
        proof {
            assert(ws.take(i + 1).drop_last() =~= ws.take(i as int));
            lemma_tally_le(ws.take(i as int), 0);
            lemma_tally_le(ws.take(i as int), 1);
            lemma_tally_le(ws.take(i as int), 2);
            lemma_tally_le(ws.take(i as int), 3);
        }
        proof {
            assert(ws.take(i + 1).last() == ws[i as int]);
        }
        match workspaces[i].merged {
            Some(true) => merged = merged + 1,
            Some(false) => open = open + 1,
            None => unknown = unknown + 1,
        }
        if workspaces[i].dirty {
            dirty = dirty + 1;
        }
        i = i + 1;
    }
    assert(ws.take(i as int) =~= ws);
    let mut parts: Vec<Vec<char>> = Vec::new();
    push_count(&mut parts, open, " open");
    push_count(&mut parts, merged, " merged");
    push_count(&mut parts, dirty, " dirty");
    push_count(&mut parts, unknown, " unknown");
    assert(views(parts@) =~= summary_parts(ws));
    if parts.len() == 0 {
        return String::from_str("No workspaces.");
    }
    let mut out: Vec<char> = Vec::new();
    push_decimal(&mut out, workspaces.len() as u64);
    push_str(&mut out, " workspace(s): ");
    let joined = join_chars(&parts, ", ");
    push_all(&mut out, &joined);
    string_of(&out)
}

// ---------------------------------------------------------------------------
// The pull-request list printed by `gh pr list --json ...`
// ---------------------------------------------------------------------------

/// The ASCII digits `0`..`9`.
pub open spec fn is_digit(c: char) -> bool {
    '0' <= c <= '9'
}

/// How many ASCII digits `s` begins with.
pub open spec fn digit_prefix_len(s: Seq<char>) -> nat
    decreases s.len(),
{
    if s.len() > 0 && is_digit(s[0]) {
        1 + digit_prefix_len(s.drop_first())
    } else {
        0
    }
}

/// The value of a string of decimal digits.
pub open spec fn digits_value(s: Seq<char>) -> nat
    decreases s.len(),
{
    if s.len() == 0 {
        0
    } else {
        digits_value(s.drop_last()) * 10 + (s.last() as nat - 48) as nat
    }
}

/// The text after the first `"key":"` up to the next double quote.
pub open spec fn json_str_value(obj: Seq<char>, key: Seq<char>) -> Option<Seq<char>> {
    let pat = "\""@ + key + "\":\""@;
    match first_occurrence(obj, pat) {
        Some(i) => {
            let rest = obj.subrange(i + pat.len(), obj.len() as int);
            match first_occurrence(rest, "\""@) {
                Some(j) => Some(rest.subrange(0, j)),
                None => None,
            }
        },
        None => None,
    }
}

/// The unsigned number after the first `"key":` and any whitespace, if it has
/// at least one digit and fits in `u32`.
pub open spec fn json_u32_value(obj: Seq<char>, key: Seq<char>) -> Option<u32> {
    let pat = "\""@ + key + "\":"@;
    match first_occurrence(obj, pat) {
        Some(i) => {
            let after = obj.subrange(i + pat.len(), obj.len() as int);
            let rest = after.skip(lead_ws(after) as int);
            let digits = rest.take(digit_prefix_len(rest) as int);
            if digits.len() > 0 && digits_value(digits) <= u32::MAX {
                Some(digits_value(digits) as u32)
            } else {
                None
            }
        },
        None => None,
    }
}

/// The string value of `key` in a flat JSON object's text.
pub fn extract_json_str(obj: &str, key: &str) -> (r: Option<String>)
    ensures
        match r {
            Some(v) => json_str_value(obj@, key@) == Some(v@),
            None => json_str_value(obj@, key@) is None,
        },
{
    let o = chars_of(obj);
    let mut pat: Vec<char> = Vec::new();
    push_str(&mut pat, "\"");
    let k = chars_of(key);
    push_all(&mut pat, &k);
    push_str(&mut pat, "\":\"");
    match find_first(&o, &pat) {
        Some(i) => {
            assert(i + pat.len() <= o.len());
            let rest = sub_chars(&o, i + pat.len(), o.len());
            let quote = chars_of("\"");
            match find_first(&rest, &quote) {
                Some(j) => {
                    assert(j <= rest.len());
                    let v = sub_chars(&rest, 0, j);
                    Some(string_of(&v))
                },
                None => None,
            }
        },
        None => None,
    }
}

pub proof fn lemma_digits_value_grows(s: Seq<char>, k: int)
    requires
        0 <= k <= s.len(),
        forall|j: int| 0 <= j < s.len() ==> is_digit(#[trigger] s[j]),
    ensures
        digits_value(s.take(k)) <= digits_value(s),
    decreases s.len() - k,
{
    if k < s.len() {
        lemma_digits_value_grows(s, k + 1);
        assert(s.take(k + 1).drop_last() =~= s.take(k));
    } else {
        assert(s.take(k) =~= s);
    }
}

proof fn lemma_digit_prefix(s: Seq<char>)
    ensures
        digit_prefix_len(s) <= s.len(),
        forall|j: int| 0 <= j < digit_prefix_len(s) ==> is_digit(#[trigger] s[j]),
        digit_prefix_len(s) < s.len() ==> !is_digit(s[digit_prefix_len(s) as int]),
    decreases s.len(),
{
    if s.len() > 0 && is_digit(s[0]) {
        lemma_digit_prefix(s.drop_first());
        assert forall|j: int| 0 <= j < digit_prefix_len(s) implies is_digit(#[trigger] s[j]) by {
            if j > 0 {
                assert(s[j] == s.drop_first()[j - 1]);
            }
        }
    }
}

/// The decimal value of `d`, if it is at most `u32::MAX`.
fn parse_digits_u32(d: &Vec<char>) -> (r: Option<u32>)
    requires
        forall|j: int| 0 <= j < d@.len() ==> is_digit(#[trigger] d@[j]),
    ensures
        match r {
            Some(v) => digits_value(d@) <= u32::MAX && v == digits_value(d@),
            None => digits_value(d@) > u32::MAX,
        },
{
    let mut v: u64 = 0;
    let mut i: usize = 0;
    while i < d.len()
        invariant
            i <= d.len(),
            forall|j: int| 0 <= j < d@.len() ==> is_digit(#[trigger] d@[j]),
            v == digits_value(d@.take(i as int)),
            v <= u32::MAX,
        decreases d.len() - i,
    {
        assert(d@.take(i + 1).drop_last() =~= d@.take(i as int));
        let c = d[i];
        assert(is_digit(d@[i as int]));
        let digit: u64 = (c as u32 - 48) as u64;
        v = v * 10 + digit;
        i = i + 1;
        if v > 4294967295u64 {
            proof {
                lemma_digits_value_grows(d@, i as int);
            }
            return None;
        }
    }
    assert(d@.take(i as int) =~= d@);
    Some(v as u32)
}

/// The decimal value of the ASCII digits `d`, if it fits in `u32`.
pub fn parse_digits_u32_pub(d: &Vec<char>) -> (r: Option<u32>)
    requires
        forall|j: int| 0 <= j < d@.len() ==> is_digit(#[trigger] d@[j]),
    ensures
        match r {
            Some(v) => digits_value(d@) <= u32::MAX && v == digits_value(d@),
            None => digits_value(d@) > u32::MAX,
        },
{
    parse_digits_u32(d)
}

/// The unsigned number value of `key` in a flat JSON object's text.
pub fn extract_json_u32(obj: &str, key: &str) -> (r: Option<u32>)
    ensures
        r == json_u32_value(obj@, key@),
{
    let o = chars_of(obj);
    let mut pat: Vec<char> = Vec::new();
    push_str(&mut pat, "\"");
    let k = chars_of(key);
    push_all(&mut pat, &k);
    push_str(&mut pat, "\":");
    match find_first(&o, &pat) {
        Some(i) => {
            assert(i + pat.len() <= o.len());
            let after = sub_chars(&o, i + pat.len(), o.len());
            let rest = crate::text::trim_start_chars(&after);
            let mut end: usize = 0;
            while end < rest.len() && '0' <= rest[end] && rest[end] <= '9'
                invariant
                    end <= rest.len(),
                    forall|j: int| 0 <= j < end ==> is_digit(#[trigger] rest@[j]),
                decreases rest.len() - end,
            {
                end = end + 1;
            }
            proof {
                lemma_digit_prefix(rest@);
                let n = digit_prefix_len(rest@) as int;
                if n < end {
                    assert(!is_digit(rest@[n]));
                } else if end < n {
                    assert(is_digit(rest@[end as int]));
                }
            }
            if end == 0 {
                return None;
            }
            let digits = sub_chars(&rest, 0, end);
            parse_digits_u32(&digits)
        },
        None => None,
    }
}

/// What the checks of a pull request say, by the first rule that applies:
/// a failure, error or cancellation; a success or neutral result; a run in
/// progress, queued or pending; otherwise unknown.
pub open spec fn ci_status_of(obj: Seq<char>) -> CiStatus {
    if contains(obj, "\"conclusion\":\"FAILURE\""@) || contains(obj, "\"conclusion\":\"ERROR\""@)
        || contains(obj, "\"conclusion\":\"CANCELLED\""@) {
        CiStatus::Fail
    } else if contains(obj, "\"conclusion\":\"SUCCESS\""@) || contains(
        obj,
        "\"conclusion\":\"NEUTRAL\""@,
    ) {
        CiStatus::Pass
    } else if contains(obj, "\"status\":\"IN_PROGRESS\""@) || contains(obj, "\"status\":\"QUEUED\""@)
        || contains(obj, "\"status\":\"PENDING\""@) {
        CiStatus::Pending
    } else {
        CiStatus::Unknown
    }
}

/// The pull requests found in the pieces of the list, in order: each piece
/// with both a number and a branch name gives one.
pub open spec fn prs_of(objs: Seq<Seq<char>>) -> Seq<(Seq<char>, PrInfo)>
    decreases objs.len(),
{
    if objs.len() == 0 {
        Seq::empty()
    } else {
        let prev = prs_of(objs.drop_last());
        let obj = objs.last();
        match (json_u32_value(obj, "number"@), json_str_value(obj, "headRefName"@)) {
            (Some(n), Some(b)) => prev.push((b, PrInfo { number: n, ci_status: ci_status_of(obj) })),
            _ => prev,
        }
    }
}

/// The outermost JSON objects of `s` from index `i` on, each from its `{`
/// to the matching `}`, appended to `acc`. `depth` counts the objects open
/// at `i` (the outermost began at `start`); braces inside strings (between
/// unescaped quotes) do not count.
pub open spec fn objects_from(
    s: Seq<char>,
    i: int,
    depth: nat,
    start: int,
    in_str: bool,
    esc: bool,
    acc: Seq<Seq<char>>,
) -> Seq<Seq<char>>
    decreases s.len() - i,
{
    if i < 0 || i >= s.len() {
        acc
    } else {
        let c = s[i];
        if in_str {
            if esc {
                objects_from(s, i + 1, depth, start, true, false, acc)
            } else if c == '\\' {
                objects_from(s, i + 1, depth, start, true, true, acc)
            } else if c == '"' {
                objects_from(s, i + 1, depth, start, false, false, acc)
            } else {
                objects_from(s, i + 1, depth, start, true, false, acc)
            }
        } else if c == '"' {
            objects_from(s, i + 1, depth, start, true, false, acc)
        } else if c == '{' {
            if depth == 0 {
                objects_from(s, i + 1, 1, i, false, false, acc)
            } else {
                objects_from(s, i + 1, depth + 1, start, false, false, acc)
            }
        } else if c == '}' {
            if depth == 1 {
                objects_from(s, i + 1, 0, start, false, false, acc.push(s.subrange(start, i + 1)))
            } else if depth > 1 {
                objects_from(s, i + 1, (depth - 1) as nat, start, false, false, acc)
            } else {
                objects_from(s, i + 1, 0, start, false, false, acc)
            }
        } else {
            objects_from(s, i + 1, depth, start, false, false, acc)
        }
    }
}

/// The outermost JSON objects of `s`, in order (the elements of the array
/// that `gh` prints). An object left open at the end is not one.
pub open spec fn json_objects(s: Seq<char>) -> Seq<Seq<char>> {
    objects_from(s, 0, 0, 0, false, false, Seq::empty())
}

/// The pull requests of `gh pr list` output: each outermost object is one
/// pull request, read as a whole, so its checks (the objects nested in its
/// `statusCheckRollup`) decide its status.
pub open spec fn pr_list_spec(text: Seq<char>) -> Seq<(Seq<char>, PrInfo)> {
    prs_of(json_objects(text))
}

/// The outermost JSON objects of `t`, in order.
fn json_objects_exec(t: &Vec<char>) -> (r: Vec<Vec<char>>)
    ensures
        views(r@) == json_objects(t@),
{
    let mut out: Vec<Vec<char>> = Vec::new();
    let mut i: usize = 0;
    let mut depth: usize = 0;
    let mut start: usize = 0;
    let mut in_str = false;
    let mut esc = false;
    assert(views(out@) =~= Seq::<Seq<char>>::empty());
    while i < t.len()
        invariant
            i <= t@.len(),
            depth <= i,
            start <= i,
            depth > 0 ==> start < i,
            !in_str ==> !esc,
            json_objects(t@) == objects_from(t@, i as int, depth as nat, start as int, in_str, esc, views(out@)),
        decreases t.len() - i,
    {
        let c = t[i];
        let ghost before = views(out@);
        let ghost (d0, s0, in0, e0) = (depth as nat, start as int, in_str, esc);
        assert(objects_from(t@, i as int, d0, s0, in0, e0, before) == if in0 {
            if e0 {
                objects_from(t@, i + 1, d0, s0, true, false, before)
            } else if c == '\\' {
                objects_from(t@, i + 1, d0, s0, true, true, before)
            } else if c == '"' {
                objects_from(t@, i + 1, d0, s0, false, false, before)
            } else {
                objects_from(t@, i + 1, d0, s0, true, false, before)
            }
        } else if c == '"' {
            objects_from(t@, i + 1, d0, s0, true, false, before)
        } else if c == '{' {
            if d0 == 0 {
                objects_from(t@, i + 1, 1, i as int, false, false, before)
            } else {
                objects_from(t@, i + 1, d0 + 1, s0, false, false, before)
            }
        } else if c == '}' {
            if d0 == 1 {
                objects_from(t@, i + 1, 0, s0, false, false, before.push(t@.subrange(s0, i + 1)))
            } else if d0 > 1 {
                objects_from(t@, i + 1, (d0 - 1) as nat, s0, false, false, before)
            } else {
                objects_from(t@, i + 1, 0, s0, false, false, before)
            }
        } else {
            objects_from(t@, i + 1, d0, s0, false, false, before)
        });
        if in_str {
            if esc {
                esc = false;
            } else if c == '\\' {
                esc = true;
            } else if c == '"' {
                in_str = false;
            }
        } else if c == '"' {
            in_str = true;
            esc = false;
        } else if c == '{' {
            if depth == 0 {
                start = i;
                depth = 1;
            } else {
                depth = depth + 1;
            }
        } else if c == '}' {
            if depth == 1 {
                out.push(sub_chars(t, start, i + 1));
                assert(views(out@) =~= before.push(t@.subrange(start as int, i + 1)));
                depth = 0;
            } else if depth > 1 {
                depth = depth - 1;
            }
        }
        i = i + 1;
    }
    assert(views(out@) == objects_from(t@, i as int, depth as nat, start as int, in_str, esc, views(out@)));
    out
}

/// The pull request that one object of the list gives, if it has a number
/// and a branch name.
pub open spec fn pr_of_object(o: Seq<char>) -> Option<(Seq<char>, PrInfo)> {
    match (json_u32_value(o, "number"@), json_str_value(o, "headRefName"@)) {
        (Some(n), Some(b)) => Some((b, PrInfo { number: n, ci_status: ci_status_of(o) })),
        _ => None,
    }
}

proof fn lemma_prs_keep(objs: Seq<Seq<char>>)
    ensures
        prs_of(objs) == crate::text::keep_some(objs, |o: Seq<char>| pr_of_object(o)),
    decreases objs.len(),
{
    if objs.len() > 0 {
        lemma_prs_keep(objs.drop_last());
    }
}

/// Some check of a pull request concluded in failure, error or cancellation.
pub open spec fn has_failed_check(o: Seq<char>) -> bool {
    contains(o, "\"conclusion\":\"FAILURE\""@) || contains(o, "\"conclusion\":\"ERROR\""@) || contains(
        o,
        "\"conclusion\":\"CANCELLED\""@,
    )
}

/// Some check of a pull request succeeded or ended neutral.
pub open spec fn has_passed_check(o: Seq<char>) -> bool {
    contains(o, "\"conclusion\":\"SUCCESS\""@) || contains(o, "\"conclusion\":\"NEUTRAL\""@)
}

/// Some check of a pull request is still running, queued or pending.
pub open spec fn has_running_check(o: Seq<char>) -> bool {
    contains(o, "\"status\":\"IN_PROGRESS\""@) || contains(o, "\"status\":\"QUEUED\""@) || contains(
        o,
        "\"status\":\"PENDING\""@,
    )
}

/// `f` maps each pull request read from `text` to the object it comes from:
/// every object with a number and a branch gives one pull request, in
/// order, with that number and branch; its status is a failure when any
/// check failed, errored or was cancelled, whatever the others say; else a
/// pass when one succeeded or was neutral; else pending when one is
/// running; else unknown.
pub open spec fn prs_map_objects(text: Seq<char>, f: Seq<int>) -> bool {
    let os = json_objects(text);
    let ps = pr_list_spec(text);
    &&& f.len() == ps.len()
    &&& forall|m: int| 0 <= m < f.len() ==> {
        let o = os[#[trigger] f[m]];
        &&& 0 <= f[m] < os.len()
        &&& json_u32_value(o, "number"@) == Some(ps[m].1.number)
        &&& json_str_value(o, "headRefName"@) == Some(ps[m].0)
        &&& has_failed_check(o) ==> ps[m].1.ci_status == CiStatus::Fail
        &&& !has_failed_check(o) && has_passed_check(o) ==> ps[m].1.ci_status == CiStatus::Pass
        &&& !has_failed_check(o) && !has_passed_check(o) && has_running_check(o) ==> ps[m].1.ci_status
            == CiStatus::Pending
        &&& !has_failed_check(o) && !has_passed_check(o) && !has_running_check(o) ==> ps[m].1.ci_status
            == CiStatus::Unknown
    }
    &&& forall|a: int, b: int| 0 <= a < b < f.len() ==> f[a] < f[b]
    &&& forall|k: int|
        0 <= k < os.len() && json_u32_value(#[trigger] os[k], "number"@) is Some && json_str_value(os[k], "headRefName"@) is Some
            ==> exists|m: int| 0 <= m < f.len() && f[m] == k
}

/// Each object of the list with a number and a branch gives one pull
/// request, in order; a failed, errored or cancelled check makes it a
/// failure whatever its other checks say.
pub proof fn pr_list_reads_each_object(text: Seq<char>)
    ensures
        exists|f: Seq<int>| #[trigger] prs_map_objects(text, f),
{
    let os = json_objects(text);
    let g = |o: Seq<char>| pr_of_object(o);
    lemma_prs_keep(os);
    crate::text::lemma_keep_some(os, g);
    let f = choose|f: Seq<int>| crate::text::kept_in_order(os, g, crate::text::keep_some(os, g), f);
    let ps = pr_list_spec(text);
    assert forall|m: int| 0 <= m < f.len() implies {
        let o = os[#[trigger] f[m]];
        &&& 0 <= f[m] < os.len()
        &&& json_u32_value(o, "number"@) == Some(ps[m].1.number)
        &&& json_str_value(o, "headRefName"@) == Some(ps[m].0)
        &&& has_failed_check(o) ==> ps[m].1.ci_status == CiStatus::Fail
        &&& !has_failed_check(o) && has_passed_check(o) ==> ps[m].1.ci_status == CiStatus::Pass
        &&& !has_failed_check(o) && !has_passed_check(o) && has_running_check(o) ==> ps[m].1.ci_status
            == CiStatus::Pending
        &&& !has_failed_check(o) && !has_passed_check(o) && !has_running_check(o) ==> ps[m].1.ci_status
            == CiStatus::Unknown
    } by {
        assert(g(os[f[m]]) == Some(ps[m]));
    }
    assert forall|k: int|
        0 <= k < os.len() && json_u32_value(#[trigger] os[k], "number"@) is Some && json_str_value(os[k], "headRefName"@) is Some
        implies exists|m: int| 0 <= m < f.len() && f[m] == k by {
        assert(g(os[k]) is Some);
    }
    assert(prs_map_objects(text, f));
}

/// The view of a parsed pull request.
pub open spec fn pr_view(p: (String, PrInfo)) -> (Seq<char>, PrInfo) {
    (p.0@, p.1)
}

fn ci_status_exec(obj: &Vec<char>) -> (r: CiStatus)
    ensures
        r == ci_status_of(obj@),
{
    if contains_str(obj, "\"conclusion\":\"FAILURE\"") || contains_str(obj, "\"conclusion\":\"ERROR\"")
        || contains_str(obj, "\"conclusion\":\"CANCELLED\"") {
        CiStatus::Fail
    } else if contains_str(obj, "\"conclusion\":\"SUCCESS\"") || contains_str(
        obj,
        "\"conclusion\":\"NEUTRAL\"",
    ) {
        CiStatus::Pass
    } else if contains_str(obj, "\"status\":\"IN_PROGRESS\"") || contains_str(
        obj,
        "\"status\":\"QUEUED\"",
    ) || contains_str(obj, "\"status\":\"PENDING\"") {
        CiStatus::Pending
    } else {
        CiStatus::Unknown
    }
}

/// The open pull requests listed in the JSON text that `gh pr list --json
/// number,headRefName,statusCheckRollup` prints, as (branch, info) pairs in
/// order. Where a branch occurs twice, the later pair is the one that counts.
pub fn parse_pr_list(text: &str) -> (r: Vec<(String, PrInfo)>)
    ensures
        r@.map_values(|p: (String, PrInfo)| pr_view(p)) == pr_list_spec(text@),
{
    let t = chars_of(text);
    let pieces = json_objects_exec(&t);
    let ghost objs = json_objects(t@);
    let mut out: Vec<(String, PrInfo)> = Vec::new();
    let mut i: usize = 0;
    while i < pieces.len()
        invariant
            i <= pieces.len(),
            views(pieces@) == objs,
            objs == json_objects(t@),
            out@.map_values(|p: (String, PrInfo)| pr_view(p)) == prs_of(objs.take(i as int)),
        decreases pieces.len() - i,
    {
        let obj: String = string_of(&pieces[i]);
        assert(obj@ == objs[i as int]);
        assert(objs.take(i + 1).drop_last() =~= objs.take(i as int));
        let number = extract_json_u32(obj.as_str(), "number");
        let branch = extract_json_str(obj.as_str(), "headRefName");
        match (number, branch) {
            (Some(n), Some(b)) => {
                let ci = ci_status_exec(&pieces[i]);
                out.push((b, PrInfo { number: n, ci_status: ci }));
                assert(out@.map_values(|p: (String, PrInfo)| pr_view(p)) =~= prs_of(objs.take(i + 1)));
            },
            _ => {
                assert(out@.map_values(|p: (String, PrInfo)| pr_view(p)) =~= prs_of(objs.take(i + 1)));
            },
        }
        i = i + 1;
    }
    assert(objs.take(i as int) =~= objs);
    out
}


// ---------------------------------------------------------------------------
// Order of a scan, and pull requests per workspace
// ---------------------------------------------------------------------------

/// `a` sorts no later than `b` by `str::cmp`.
pub open spec fn chars_le(a: Seq<char>, b: Seq<char>) -> bool {
    crate::cdt::conflicts::chars_lt(a, b) || a == b
}

/// `r` holds the workspaces of `s` ordered by label; workspaces with the same
/// label keep their order. `perm` tells where each comes from in `s`.
pub open spec fn is_stable_label_order(s: Seq<Workspace>, r: Seq<Workspace>, perm: Seq<int>) -> bool {
    &&& r.len() == s.len()
    &&& perm.len() == r.len()
    &&& forall|k: int| 0 <= k < r.len() ==> 0 <= #[trigger] perm[k] < s.len() && r[k] == s[perm[k]]
    &&& forall|a: int, b: int| 0 <= a < b < r.len() ==> perm[a] != perm[b]
    &&& forall|a: int, b: int| 0 <= a < b < r.len() ==> chars_le(label_spec(r[a]), label_spec(r[b]))
    &&& forall|a: int, b: int|
        0 <= a < b < r.len() && label_spec(r[a]) == label_spec(r[b]) ==> perm[a] < perm[b]
}

/// Sorts workspaces by label (`project/name`); the sort is stable.
pub fn sort_by_label(workspaces: Vec<Workspace>) -> (r: Vec<Workspace>)
    ensures
        exists|perm: Seq<int>| is_stable_label_order(workspaces@, r@, perm),
{
    let ghost s = workspaces@;
    let total = workspaces.len();
    assert(s.len() == total);
    let mut rest = workspaces;
    let mut out: Vec<Workspace> = Vec::new();
    let mut labels: Vec<Vec<char>> = Vec::new();
    let ghost mut perm: Seq<int> = Seq::empty();
    let mut i: usize = 0;
    while rest.len() > 0
        invariant
            i <= s.len(),
            s.len() <= usize::MAX,
            rest@ == s.skip(i as int),
            out@.len() == i,
            labels@.len() == i,
            forall|k: int| 0 <= k < i ==> (#[trigger] labels@[k])@ == label_spec(out@[k]),
            perm.len() == i,
            forall|k: int| 0 <= k < out@.len() ==> 0 <= #[trigger] perm[k] < i && out@[k] == s[perm[k]],
            forall|a: int, b: int| 0 <= a < b < out@.len() ==> perm[a] != perm[b],
            forall|a: int, b: int| 0 <= a < b < out@.len() ==> chars_le(label_spec(out@[a]), label_spec(out@[b])),
            forall|a: int, b: int|
                0 <= a < b < out@.len() && label_spec(out@[a]) == label_spec(out@[b]) ==> perm[a] < perm[b],
        decreases rest.len(),
    {
        let x = rest.remove(0);
        assert(x == s[i as int]);
        assert(rest@ =~= s.skip(i + 1));
        let xl = crate::text::chars_of(x.label().as_str());
        let mut p: usize = 0;
        while p < out.len() && !crate::cdt::conflicts::chars_less(&xl, &labels[p])
            invariant
                p <= out@.len(),
                labels@.len() == out@.len(),
                forall|k: int| 0 <= k < out@.len() ==> (#[trigger] labels@[k])@ == label_spec(out@[k]),
                forall|k: int| 0 <= k < p ==> chars_le(label_spec(#[trigger] out@[k]), xl@),
            decreases out@.len() - p,
        {
            proof {
                if labels@[p as int]@ != xl@ {
                    crate::cdt::conflicts::lemma_chars_lt_total(xl@, labels@[p as int]@);
                }
            }
            p = p + 1;
        }
        let ghost before = out@;
        let ghost lb = labels@;
        let ghost pb = perm;
        let ghost xs = label_spec(x);
        assert(xl@ == xs);
        proof {
            if p < before.len() {
                assert(crate::cdt::conflicts::chars_lt(xs, label_spec(before[p as int])));
            }
        }
        out.insert(p, x);
        labels.insert(p, xl);
        proof {
            perm = pb.insert(p as int, i as int);
            assert(out@ == before.insert(p as int, x));
            assert(labels@ == lb.insert(p as int, xl));
            assert forall|k: int| 0 <= k < i + 1 implies (#[trigger] labels@[k])@ == label_spec(out@[k]) by {
                if k < p {
                } else if k > p {
                    assert(labels@[k] == lb[k - 1]);
                    assert(out@[k] == before[k - 1]);
                }
            }
            assert forall|k: int| 0 <= k < out@.len() implies 0 <= #[trigger] perm[k] < i + 1 && out@[k] == s[perm[k]] by {
                if k < p {
                    assert(perm[k] == pb[k]);
                } else if k > p {
                    assert(perm[k] == pb[k - 1]);
                }
            }
            assert forall|a: int, b: int| 0 <= a < b < out@.len() implies perm[a] != perm[b] by {
                if a < p && b > p {
                    assert(perm[b] == pb[b - 1]);
                } else if a > p {
                    assert(perm[a] == pb[a - 1]);
                    assert(perm[b] == pb[b - 1]);
                } else if b < p {
                } else if a == p {
                    assert(perm[b] == pb[b - 1]);
                } else {
                    assert(perm[a] == pb[a]);
                }
            }
            assert forall|a: int, b: int| 0 <= a < b < out@.len() implies chars_le(label_spec(out@[a]), label_spec(out@[b])) by {
                if b < p {
                } else if b == p {
                    assert(chars_le(label_spec(before[a]), xs));
                } else if a < p {
                    assert(chars_le(label_spec(before[a]), label_spec(before[b - 1])));
                } else if a == p {
                    let y = label_spec(before[p as int]);
                    let z = label_spec(before[b - 1]);
                    if b - 1 > p {
                        assert(chars_le(y, z));
                        if y != z {
                            crate::cdt::conflicts::lemma_chars_lt_transitive(xs, y, z);
                        }
                    }
                } else {
                    assert(chars_le(label_spec(before[a - 1]), label_spec(before[b - 1])));
                }
            }
            assert forall|a: int, b: int|
                0 <= a < b < out@.len() && label_spec(out@[a]) == label_spec(out@[b]) implies perm[a] < perm[b] by {
                if b < p {
                } else if b == p {
                    assert(perm[a] == pb[a]);
                } else if a < p {
                    assert(perm[a] == pb[a]);
                    assert(perm[b] == pb[b - 1]);
                } else if a == p {
                    let y = label_spec(before[p as int]);
                    let z = label_spec(before[b - 1]);
                    crate::cdt::conflicts::lemma_chars_lt_irreflexive(xs);
                    if b - 1 > p {
                        assert(chars_le(y, z));
                        if y != z {
                            crate::cdt::conflicts::lemma_chars_lt_transitive(xs, y, z);
                        }
                    }
                } else {
                    assert(perm[a] == pb[a - 1]);
                    assert(perm[b] == pb[b - 1]);
                }
            }
        }
        i = i + 1;
    }
    assert(is_stable_label_order(s, out@, perm));
    out
}

/// Among the pull requests `prs`, the info of the last one for branch `b`.
pub open spec fn last_pr_for(prs: Seq<(Seq<char>, PrInfo)>, b: Seq<char>) -> Option<PrInfo>
    decreases prs.len(),
{
    if prs.len() == 0 {
        None
    } else if prs.last().0 == b {
        Some(prs.last().1)
    } else {
        last_pr_for(prs.drop_last(), b)
    }
}

/// Workspace `i` is the first of project `project` on its branch.
pub open spec fn first_on_branch(ws: Seq<Workspace>, project: Seq<char>, i: int) -> bool {
    ws[i].branch is Some && forall|j: int|
        0 <= j < i ==> !(ws[j].project@ == project && ws[j].branch is Some && ws[j].branch->0@
            == ws[i].branch->0@)
}

/// The pull request that goes to workspace `i`: for the first workspace of
/// `project` on a branch, the last listed pull request of that branch.
pub open spec fn pr_for(ws: Seq<Workspace>, project: Seq<char>, prs: Seq<(Seq<char>, PrInfo)>, i: int) -> Option<PrInfo> {
    if ws[i].project@ == project && first_on_branch(ws, project, i) {
        last_pr_for(prs, ws[i].branch->0@)
    } else {
        None
    }
}

fn find_last_pr(prs: &Vec<(String, PrInfo)>, b: &String) -> (r: Option<PrInfo>)
    ensures
        r == last_pr_for(prs@.map_values(|p: (String, PrInfo)| pr_view(p)), b@),
{
    let ghost pv = prs@.map_values(|p: (String, PrInfo)| pr_view(p));
    let mut k: usize = prs.len();
    assert(pv.take(k as int) =~= pv);
    while k > 0
        invariant
            k <= prs@.len(),
            pv == prs@.map_values(|p: (String, PrInfo)| pr_view(p)),
            last_pr_for(pv, b@) == last_pr_for(pv.take(k as int), b@),
        decreases k,
    {
        assert(pv.take(k as int).drop_last() =~= pv.take(k - 1));
        assert(pv.take(k as int).last() == pr_view(prs@[k - 1]));
        if prs[k - 1].0 == *b {
            return Some(prs[k - 1].1);
        }
        k = k - 1;
    }
    None
}

/// Gives the workspaces of `project` the pull requests listed for that
/// project's repository: each branch's pull request (the last listed, where
/// one is listed twice) goes to the first workspace of the project on that
/// branch. Other workspaces keep theirs.
pub fn assign_pr_info(workspaces: &mut Vec<Workspace>, project: &str, prs: &Vec<(String, PrInfo)>)
    ensures
        final(workspaces)@.len() == old(workspaces)@.len(),
        forall|i: int|
            0 <= i < old(workspaces)@.len() ==> {
                let w = old(workspaces)@[i];
                let n = #[trigger] final(workspaces)@[i];
                &&& n.project == w.project
                &&& n.name == w.name
                &&& n.path == w.path
                &&& n.merged == w.merged
                &&& n.branch == w.branch
                &&& n.last_commit == w.last_commit
                &&& n.dirty == w.dirty
                &&& n.pr == match pr_for(old(workspaces)@, project@, prs@.map_values(|p: (String, PrInfo)| pr_view(p)), i) {
                    Some(info) => Some(info),
                    None => w.pr,
                }
            },
{
    let ghost old_ws = workspaces@;
    let ghost pv = prs@.map_values(|p: (String, PrInfo)| pr_view(p));
    let proj = String::from_str(project);
    let mut i: usize = 0;
    while i < workspaces.len()
        invariant
            pv == prs@.map_values(|p: (String, PrInfo)| pr_view(p)),
            proj@ == project@,
            workspaces@.len() == old_ws.len(),
            i <= workspaces@.len(),
            forall|k: int|
                0 <= k < old_ws.len() ==> {
                    let w = old_ws[k];
                    let n = #[trigger] workspaces@[k];
                    &&& n.project == w.project
                    &&& n.name == w.name
                    &&& n.path == w.path
                    &&& n.merged == w.merged
                    &&& n.branch == w.branch
                    &&& n.last_commit == w.last_commit
                    &&& n.dirty == w.dirty
                    &&& n.pr == if k < i {
                        match pr_for(old_ws, project@, pv, k) {
                            Some(info) => Some(info),
                            None => w.pr,
                        }
                    } else {
                        w.pr
                    }
                },
        decreases workspaces.len() - i,
    {
        let mut assign: Option<PrInfo> = None;
        if workspaces[i].project == proj {
            if let Some(b) = &workspaces[i].branch {
                // Is an earlier workspace of the project on the same branch?
                let mut taken = false;
                let mut j: usize = 0;
                while j < i
                    invariant
                        j <= i,
                        i < workspaces@.len(),
                        workspaces@.len() == old_ws.len(),
                        *b == old_ws[i as int].branch->0,
                        old_ws[i as int].branch is Some,
                        proj@ == project@,
                        forall|k: int|
                            0 <= k < old_ws.len() ==> (#[trigger] workspaces@[k]).project == old_ws[k].project
                                && workspaces@[k].branch == old_ws[k].branch,
                        taken == exists|t: int|
                            0 <= t < j && (old_ws[t].project@ == project@ && old_ws[t].branch is Some
                                && old_ws[t].branch->0@ == old_ws[i as int].branch->0@),
                    decreases i - j,
                {
                    assert(workspaces@[j as int].project == old_ws[j as int].project);
                    if workspaces[j].project == proj {
                        if let Some(bj) = &workspaces[j].branch {
                            if *bj == *b {
                                taken = true;
                            }
                        }
                    }
                    j = j + 1;
                }
                if !taken {
                    assign = find_last_pr(prs, b);
                }
            }
        }
        proof {
            assert(workspaces@[i as int].project == old_ws[i as int].project);
        }
        match assign {
            Some(info) => {
                let mut w = workspaces.remove(i);
                w.pr = Some(info);
                workspaces.insert(i, w);
            },
            None => {},
        }
        i = i + 1;
    }
}

// ---------------------------------------------------------------------------
// What git prints
// ---------------------------------------------------------------------------

/// The time of the last commit, in seconds since the epoch, from what
/// `git log -1 --format=%ct` printed: the trimmed output read as a `u64`.
pub fn parse_commit_secs(stdout: &str) -> (r: Option<u64>)
    ensures
        match r {
            Some(v) => crate::cdt::clean::u64_parse(trim(stdout@)) == Some(v as nat),
            None => crate::cdt::clean::u64_parse(trim(stdout@)) is None,
        },
{
    let t = trim_chars(&chars_of(stdout));
    crate::cdt::clean::parse_u64_chars(&t)
}

/// The branch whose merge into the main line is worth asking about: a branch
/// other than `main`, `master` or a detached `HEAD`.
pub fn merge_check_branch(branch: &Option<String>) -> (r: Option<String>)
    ensures
        match branch {
            Some(b) => if crate::cdt::conflicts::is_main_branch(b@) {
                r is None
            } else {
                r == Some(*b)
            },
            None => r is None,
        },
{
    match branch {
        Some(b) => {
            let bv = chars_of(b.as_str());
            if crate::text::eq_str(&bv, "main") || crate::text::eq_str(&bv, "master")
                || crate::text::eq_str(&bv, "HEAD") {
                None
            } else {
                Some(b.clone())
            }
        },
        None => None,
    }
}

// ---------------------------------------------------------------------------
// The rows of `ls`
// ---------------------------------------------------------------------------

/// The pull-request column of `ls --pr`.
pub open spec fn pr_column(pr: Option<PrDisplayInfo>) -> Seq<char> {
    match pr {
        Some(info) => "PR #"@ + pad_right(decimal(info.number as nat), 4) + " "@ + pad_right(info.ci_label@, 4),
        None => "no PR       "@,
    }
}

/// A row of `ls`: merge status, project, name, branch, age and the dirty
/// mark in padded columns, followed by the path; with `show_pr`, the
/// pull-request column after the merge status and no path.
pub open spec fn list_row_text(d: DisplayColumns, show_pr: bool) -> Seq<char> {
    let dirty: Seq<char> = if d.dirty { " ✗"@ } else { ""@ };
    if show_pr {
        pad_right(d.merge_status@, 10) + " "@ + pad_right(pr_column(d.pr), 14) + pad_right(d.project@, 16)
            + " "@ + pad_right(d.name@, 16) + " "@ + pad_right(d.branch@, 24) + " "@ + pad_left(d.age@, 8)
            + pad_right(dirty, 3)
    } else {
        pad_right(d.merge_status@, 10) + " "@ + pad_right(d.project@, 16) + " "@ + pad_right(d.name@, 16)
            + " "@ + pad_right(d.branch@, 24) + " "@ + pad_left(d.age@, 8) + pad_right(dirty, 3) + " "@
            + d.path@
    }
}

/// The row of `ls` for the columns `d`.
pub fn list_row(d: &DisplayColumns, show_pr: bool) -> (r: String)
    ensures
        r@ == list_row_text(*d, show_pr),
{
    let mut out: Vec<char> = Vec::new();
    let dirty: Vec<char> = if d.dirty { chars_of(" ✗") } else { Vec::new() };
    push_padded_right(&mut out, &chars_of(d.merge_status), 10);
    push_str(&mut out, " ");
    if show_pr {
        let mut col: Vec<char> = Vec::new();
        match &d.pr {
            Some(info) => {
                let mut num: Vec<char> = Vec::new();
                push_decimal(&mut num, info.number as u64);
                push_str(&mut col, "PR #");
                push_padded_right(&mut col, &num, 4);
                push_str(&mut col, " ");
                push_padded_right(&mut col, &chars_of(info.ci_label), 4);
            },
            None => {
                push_str(&mut col, "no PR       ");
            },
        }
        assert(col@ == pr_column(d.pr));
        push_padded_right(&mut out, &col, 14);
    }
    push_padded_right(&mut out, &chars_of(d.project.as_str()), 16);
    push_str(&mut out, " ");
    push_padded_right(&mut out, &chars_of(d.name.as_str()), 16);
    push_str(&mut out, " ");
    push_padded_right(&mut out, &chars_of(d.branch.as_str()), 24);
    push_str(&mut out, " ");
    push_padded_left(&mut out, &chars_of(d.age.as_str()), 8);
    push_padded_right(&mut out, &dirty, 3);
    if !show_pr {
        push_str(&mut out, " ");
        push_str(&mut out, d.path.as_str());
    }
    proof {
        reveal_strlit("");
    }
    assert(dirty@ =~= (if d.dirty { " ✗"@ } else { ""@ }));
    assert(out@ =~= list_row_text(*d, show_pr));
    string_of(&out)
}

} // verus!
