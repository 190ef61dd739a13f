//! Choosing worktrees to remove: merged ones, stale ones, and the duration
//! syntax of the `--stale` option.

use vstd::prelude::*;
use crate::cdt::scanner::{
    Workspace, label_spec, age_text, duration_secs, duration_from_secs, duration_as_secs,
    format_age_secs, unix_now, is_digit, digits_value, lemma_digits_value_grows,
};
use crate::text::{
    chars_of, decimal, is_ws, pad_right, push_all, push_padded_right, push_str, string_of,
    sub_chars, trim, trim_chars, utf8_width,
};

verus! {

/// Why a worktree is proposed for removal.
#[derive(Debug, Clone, Copy, PartialEq)]
pub enum CleanReason {
    /// Its branch is merged.
    Merged,
    /// Its last commit is this old.
    Stale(std::time::Duration),
}

/// A workspace proposed for removal, with the reason.
#[derive(Debug, Clone)]
pub struct CleanCandidate<'a> {
    pub workspace: &'a Workspace,
    pub reason: CleanReason,
}

/// What came of removing one worktree.
#[derive(Debug)]
pub enum RemoveResult {
    Removed,
    Failed(String),
}

/// The indices of the merged workspaces, in order.
pub open spec fn merged_indices(ws: Seq<Workspace>) -> Seq<int>
    decreases ws.len(),
{
    if ws.len() == 0 {
        Seq::empty()
    } else if ws.last().merged == Some(true) {
        merged_indices(ws.drop_last()).push(ws.len() - 1)
    } else {
        merged_indices(ws.drop_last())
    }
}

/// `w` has a last commit at or before `now` and at least `threshold` seconds
/// older than it.
pub open spec fn is_stale_at(w: Workspace, threshold: nat, now: nat) -> bool {
    match w.last_commit {
        Some(t) => t <= now && now - t >= threshold,
        None => false,
    }
}

/// The indices of the workspaces that are stale at `now`, in order.
pub open spec fn stale_indices(ws: Seq<Workspace>, threshold: nat, now: nat) -> Seq<int>
    decreases ws.len(),
{
    if ws.len() == 0 {
        Seq::empty()
    } else if is_stale_at(ws.last(), threshold, now) {
        stale_indices(ws.drop_last(), threshold, now).push(ws.len() - 1)
    } else {
        stale_indices(ws.drop_last(), threshold, now)
    }
}

/// The merged workspaces, each to be proposed as merged.
pub open spec fn merged_plan(ws: Seq<Workspace>) -> Seq<(int, bool)> {
    merged_indices(ws).map_values(|i: int| (i, true))
}

/// The stale workspaces at `now`, each to be proposed as stale.
pub open spec fn stale_plan(ws: Seq<Workspace>, threshold: nat, now: nat) -> Seq<(int, bool)> {
    stale_indices(ws, threshold, now).map_values(|i: int| (i, false))
}

/// `c` proposes workspace `i`: merged when `merged`, otherwise stale with the
/// age of its last commit at `now`.
pub open spec fn proposes(c: CleanCandidate, ws: Seq<Workspace>, i: int, merged: bool, now: nat) -> bool {
    &&& 0 <= i < ws.len()
    &&& *c.workspace == ws[i]
    &&& if merged {
        c.reason is Merged
    } else {
        match c.reason {
            CleanReason::Stale(d) => duration_secs(d) == now - ws[i].last_commit->0,
            CleanReason::Merged => false,
        }
    }
}

/// `r` proposes, in order, the workspaces of `plan`, each with its reason.
pub open spec fn follows_plan(r: Seq<CleanCandidate>, ws: Seq<Workspace>, plan: Seq<(int, bool)>, now: nat) -> bool {
    r.len() == plan.len() && forall|k: int| 0 <= k < r.len() ==> proposes(#[trigger] r[k], ws, plan[k].0, plan[k].1, now)
}

proof fn lemma_indices_in_range(ws: Seq<Workspace>, threshold: nat, now: nat)
    ensures
        forall|k: int| 0 <= k < merged_indices(ws).len() ==> 0 <= #[trigger] merged_indices(ws)[k] < ws.len(),
        forall|k: int| 0 <= k < merged_indices(ws).len() ==> ws[#[trigger] merged_indices(ws)[k]].merged == Some(true),
        forall|k: int|
            0 <= k < stale_indices(ws, threshold, now).len() ==> 0 <= #[trigger] stale_indices(ws, threshold, now)[k] < ws.len(),
        forall|k: int|
            0 <= k < stale_indices(ws, threshold, now).len() ==> is_stale_at(ws[#[trigger] stale_indices(ws, threshold, now)[k]], threshold, now),
    decreases ws.len(),
{
    if ws.len() > 0 {
        let p = ws.drop_last();
        lemma_indices_in_range(p, threshold, now);
        let pm = merged_indices(p);
        let ps = stale_indices(p, threshold, now);
        assert forall|k: int| 0 <= k < merged_indices(ws).len() implies 0 <= #[trigger] merged_indices(ws)[k] < ws.len() && ws[merged_indices(ws)[k]].merged == Some(true) by {
            if k < pm.len() {
                assert(merged_indices(ws)[k] == pm[k]);
                assert(p[pm[k]] == ws[pm[k]]);
            }
        }
        assert forall|k: int| 0 <= k < stale_indices(ws, threshold, now).len() implies 0 <= #[trigger] stale_indices(ws, threshold, now)[k] < ws.len() && is_stale_at(ws[stale_indices(ws, threshold, now)[k]], threshold, now) by {
            if k < ps.len() {
                assert(stale_indices(ws, threshold, now)[k] == ps[k]);
                assert(p[ps[k]] == ws[ps[k]]);
            }
        }
    }
}

/// The merged workspaces, in order, each proposed as merged.
pub fn find_merged(workspaces: &[Workspace]) -> (r: Vec<CleanCandidate<'_>>)
    ensures
        follows_plan(r@, workspaces@, merged_plan(workspaces@), 0),
{
    let ghost ws = workspaces@;
    let mut out: Vec<CleanCandidate<'_>> = Vec::new();
    let mut i: usize = 0;
    while i < workspaces.len()
        invariant
            ws == workspaces@,
            i <= workspaces.len(),
            follows_plan(out@, ws, merged_plan(ws.take(i as int)), 0),
        decreases workspaces.len() - i,
    {
        proof {
            assert(ws.take(i + 1).drop_last() =~= ws.take(i as int));
            lemma_indices_in_range(ws.take(i as int), 0, 0);
        }
        let ghost before = merged_indices(ws.take(i as int));
        if workspaces[i].merged == Some(true) {
            out.push(CleanCandidate { workspace: &workspaces[i], reason: CleanReason::Merged });
        }
        proof {
            let after = merged_indices(ws.take(i + 1));
            assert forall|k: int| 0 <= k < out@.len() implies proposes(#[trigger] out@[k], ws, merged_plan(ws.take(i + 1))[k].0, merged_plan(ws.take(i + 1))[k].1, 0) by {
                if k < before.len() {
                    assert(after[k] == before[k]);
                    assert(ws.take(i as int)[before[k]] == ws[before[k]]);
                }
            }
        }
        i = i + 1;
    }
    assert(ws.take(i as int) =~= ws);
    out
}

/// The workspaces whose last commit is at least `threshold_secs` seconds
/// before `now`, in order, each proposed as stale with that age.
pub fn find_stale_at(workspaces: &[Workspace], threshold_secs: u64, now: u64) -> (r: Vec<CleanCandidate<'_>>)
    ensures
        follows_plan(
            r@,
            workspaces@,
            stale_plan(workspaces@, threshold_secs as nat, now as nat),
            now as nat,
        ),
{
    let ghost ws = workspaces@;
    let ghost thr = threshold_secs as nat;
    let ghost nw = now as nat;
    let mut out: Vec<CleanCandidate<'_>> = Vec::new();
    let mut i: usize = 0;
    while i < workspaces.len()
        invariant
            ws == workspaces@,
            thr == threshold_secs as nat,
            nw == now as nat,
            i <= workspaces.len(),
            follows_plan(out@, ws, stale_plan(ws.take(i as int), thr, nw), nw),
        decreases workspaces.len() - i,
    {
        proof {
            assert(ws.take(i + 1).drop_last() =~= ws.take(i as int));
            lemma_indices_in_range(ws.take(i as int), thr, nw);
        }
        let ghost before = stale_indices(ws.take(i as int), thr, nw);
        match workspaces[i].last_commit {
            Some(t) => {
                if t <= now && now - t >= threshold_secs {
                    let age = duration_from_secs(now - t);
                    out.push(CleanCandidate { workspace: &workspaces[i], reason: CleanReason::Stale(age) });
                }
            },
            None => {},
        }
        proof {
            let after = stale_indices(ws.take(i + 1), thr, nw);
            assert forall|k: int| 0 <= k < out@.len() implies proposes(#[trigger] out@[k], ws, stale_plan(ws.take(i + 1), thr, nw)[k].0, stale_plan(ws.take(i + 1), thr, nw)[k].1, nw) by {
                if k < before.len() {
                    assert(after[k] == before[k]);
                    assert(ws.take(i as int)[before[k]] == ws[before[k]]);
                }
            }
        }
        i = i + 1;
    }
    assert(ws.take(i as int) =~= ws);
    out
}

/// The workspaces with no commit in at least `threshold`, by whole seconds,
/// as of now.
pub fn find_stale(workspaces: &[Workspace], threshold: std::time::Duration) -> (r: Vec<CleanCandidate<'_>>)
    ensures
        exists|now: nat|
            #[trigger] follows_plan(
                r@,
                workspaces@,
                stale_plan(workspaces@, duration_secs(threshold) as nat, now),
                now,
            ),
{
    let now = unix_now();
    let secs = duration_as_secs(&threshold);
    find_stale_at(workspaces, secs, now)
}

/// `plan` already proposes a workspace with the same path as workspace `i`.
pub open spec fn path_taken(ws: Seq<Workspace>, plan: Seq<(int, bool)>, i: int) -> bool {
    exists|k: int| 0 <= k < plan.len() && ws[plan[k].0].path@ == ws[i].path@
}

/// `plan` followed by the stale workspaces of `idx` whose path it does not
/// propose yet, in order.
pub open spec fn add_unseen(ws: Seq<Workspace>, plan: Seq<(int, bool)>, idx: Seq<int>) -> Seq<(int, bool)>
    decreases idx.len(),
{
    if idx.len() == 0 {
        plan
    } else {
        let prev = add_unseen(ws, plan, idx.drop_last());
        if path_taken(ws, prev, idx.last()) {
            prev
        } else {
            prev.push((idx.last(), false))
        }
    }
}

/// A threshold in seconds, as a natural number.
pub open spec fn secs_opt(t: Option<u64>) -> Option<nat> {
    match t {
        Some(s) => Some(s as nat),
        None => None,
    }
}

/// The whole seconds of a threshold.
pub open spec fn threshold_secs(t: Option<std::time::Duration>) -> Option<nat> {
    match t {
        Some(d) => Some(duration_secs(d) as nat),
        None => None,
    }
}

/// The removal plan: the merged workspaces when asked for, then the stale
/// ones whose path is not proposed already.
pub open spec fn candidate_plan(ws: Seq<Workspace>, include_merged: bool, threshold: Option<nat>, now: nat) -> Seq<(int, bool)> {
    let m = if include_merged {
        merged_plan(ws)
    } else {
        Seq::empty()
    };
    match threshold {
        Some(t) => add_unseen(ws, m, stale_indices(ws, t, now)),
        None => m,
    }
}

/// The candidates at time `now`: merged workspaces when `include_merged`,
/// then, with a threshold in seconds, stale workspaces not already proposed
/// (a workspace both merged and stale is proposed once, as merged).
pub fn find_candidates_at<'a>(
    workspaces: &'a [Workspace],
    include_merged: bool,
    stale_secs: Option<u64>,
    now: u64,
) -> (r: Vec<CleanCandidate<'a>>)
    ensures
        follows_plan(
            r@,
            workspaces@,
            candidate_plan(
                workspaces@,
                include_merged,
                secs_opt(stale_secs),
                now as nat,
            ),
            now as nat,
        ),
{
    let ghost ws = workspaces@;
    let mut out: Vec<CleanCandidate<'a>> = if include_merged {
        find_merged(workspaces)
    } else {
        Vec::new()
    };
    let ghost m = if include_merged {
        merged_plan(ws)
    } else {
        Seq::<(int, bool)>::empty()
    };
    proof {
        assert forall|k: int| 0 <= k < out@.len() implies proposes(#[trigger] out@[k], ws, m[k].0, m[k].1, now as nat) by {
            assert(proposes(out@[k], ws, m[k].0, m[k].1, 0));
        }
    }
    match stale_secs {
        Some(t) => {
            let stale = find_stale_at(workspaces, t, now);
            let ghost idx = stale_indices(ws, t as nat, now as nat);
            let mut j: usize = 0;
            while j < stale.len()
                invariant
                    ws == workspaces@,
                    j <= stale.len(),
                    idx == stale_indices(ws, t as nat, now as nat),
                    stale@.len() == idx.len(),
                    follows_plan(stale@, ws, stale_plan(ws, t as nat, now as nat), now as nat),
                    follows_plan(out@, ws, add_unseen(ws, m, idx.take(j as int)), now as nat),
                decreases stale.len() - j,
            {
                let ghost plan = add_unseen(ws, m, idx.take(j as int));
                proof {
                    assert(idx.take(j + 1).drop_last() =~= idx.take(j as int));
                    assert(proposes(stale@[j as int], ws, idx[j as int], false, now as nat));
                }
                let c = &stale[j];
                let mut seen = false;
                let mut k: usize = 0;
                while k < out.len()
                    invariant
                        ws == workspaces@,
                        k <= out.len(),
                        follows_plan(out@, ws, plan, now as nat),
                        *c == stale@[j as int],
                        0 <= idx[j as int] < ws.len(),
                        *c.workspace == ws[idx[j as int]],
                        seen == exists|q: int| 0 <= q < k && ws[plan[q].0].path@ == ws[idx[j as int]].path@,
                    decreases out.len() - k,
                {
                    assert(proposes(out@[k as int], ws, plan[k as int].0, plan[k as int].1, now as nat));
                    if out[k].workspace.path == c.workspace.path {
                        seen = true;
                    }
                    k = k + 1;
                }
                if !seen {
                    out.push(CleanCandidate { workspace: c.workspace, reason: c.reason });
                }
                j = j + 1;
            }
            assert(idx.take(j as int) =~= idx);
        },
        None => {},
    }
    out
}

/// The candidates as of now; see `find_candidates_at`. A threshold counts in
/// whole seconds.
pub fn find_candidates<'a>(
    workspaces: &'a [Workspace],
    include_merged: bool,
    stale_threshold: Option<std::time::Duration>,
) -> (r: Vec<CleanCandidate<'a>>)
    ensures
        exists|now: nat|
            #[trigger] follows_plan(
                r@,
                workspaces@,
                candidate_plan(
                    workspaces@,
                    include_merged,
                    threshold_secs(stale_threshold),
                    now,
                ),
                now,
            ),
{
    let now = unix_now();
    let secs = match &stale_threshold {
        Some(d) => Some(duration_as_secs(d)),
        None => None,
    };
    find_candidates_at(workspaces, include_merged, secs, now)
}


// ---------------------------------------------------------------------------
// Listing a candidate
// ---------------------------------------------------------------------------

/// The reason column of a candidate.
pub open spec fn reason_text(r: CleanReason) -> Seq<char> {
    match r {
        CleanReason::Merged => "merged"@,
        CleanReason::Stale(d) => "stale ("@ + age_text(duration_secs(d) as nat) + ")"@,
    }
}

/// The line for a candidate: label, branch and reason in columns, and a
/// marker when the worktree has uncommitted changes.
pub open spec fn candidate_line(c: CleanCandidate) -> Seq<char> {
    let ws = *c.workspace;
    pad_right(label_spec(ws), 24) + " "@ + pad_right(
        match ws.branch {
            Some(b) => b@,
            None => "—"@,
        },
        24,
    ) + " "@ + pad_right(reason_text(c.reason), 14) + if ws.dirty {
        " [dirty]"@
    } else {
        ""@
    }
}

/// A candidate as a human-readable line.
pub fn format_candidate(c: &CleanCandidate<'_>) -> (r: String)
    ensures
        r@ == candidate_line(*c),
{
    let ws = c.workspace;
    let mut out: Vec<char> = Vec::new();
    let label = chars_of(ws.label().as_str());
    push_padded_right(&mut out, &label, 24);
    push_str(&mut out, " ");
    let branch = match &ws.branch {
        Some(b) => chars_of(b.as_str()),
        None => chars_of("—"),
    };
    push_padded_right(&mut out, &branch, 24);
    push_str(&mut out, " ");
    let mut reason: Vec<char> = Vec::new();
    match c.reason {
        CleanReason::Merged => push_str(&mut reason, "merged"),
        CleanReason::Stale(d) => {
            push_str(&mut reason, "stale (");
            let age = chars_of(format_age_secs(duration_as_secs(&d)).as_str());
            push_all(&mut reason, &age);
            push_str(&mut reason, ")");
        },
    }
    push_padded_right(&mut out, &reason, 14);
    if ws.dirty {
        push_str(&mut out, " [dirty]");
    } else {
        push_str(&mut out, "");
    }
    string_of(&out)
}

// ---------------------------------------------------------------------------
// Durations
// ---------------------------------------------------------------------------

/// `s` without one leading `+`.
pub open spec fn unsigned_digits(s: Seq<char>) -> Seq<char> {
    if s.len() > 0 && s[0] == '+' {
        s.drop_first()
    } else {
        s
    }
}

/// Every character of `d` is an ASCII digit.
pub open spec fn all_digits(d: Seq<char>) -> bool {
    forall|i: int| 0 <= i < d.len() ==> is_digit(#[trigger] d[i])
}

/// What `u64::from_str` accepts: an optional `+` and at least one ASCII
/// digit, with a value that fits in `u64`.
pub open spec fn u64_parse(s: Seq<char>) -> Option<nat> {
    let d = unsigned_digits(s);
    if d.len() > 0 && all_digits(d) && digits_value(d) <= u64::MAX {
        Some(digits_value(d))
    } else {
        None
    }
}

/// Seconds per unit: `s`, `m`, `h`, `d` and `w`.
pub open spec fn unit_secs(u: char) -> Option<nat> {
    if u == 's' {
        Some(1)
    } else if u == 'm' {
        Some(60)
    } else if u == 'h' {
        Some(3600)
    } else if u == 'd' {
        Some(86400)
    } else if u == 'w' {
        Some(604800)
    } else {
        None
    }
}

/// A duration written as a number and a one-letter unit, surrounding
/// whitespace ignored: its seconds, or the error message.
pub open spec fn duration_parse(s: Seq<char>) -> Result<nat, Seq<char>> {
    let t = trim(s);
    if t.len() == 0 {
        Err("empty duration"@)
    } else {
        match u64_parse(t.drop_last()) {
            None => Err("invalid duration: "@ + t),
            Some(n) => match unit_secs(t.last()) {
                Some(m) => Ok(n * m),
                None => Err("unknown unit '"@ + seq![t.last()] + "', expected s/m/h/d/w"@),
            },
        }
    }
}

/// What `u64::from_str` gives for `s`.
pub(crate) fn parse_u64_chars(s: &Vec<char>) -> (r: Option<u64>)
    ensures
        match r {
            Some(v) => u64_parse(s@) == Some(v as nat),
            None => u64_parse(s@) is None,
        },
{
    let start: usize = if s.len() > 0 && s[0] == '+' { 1 } else { 0 };
    let d = sub_chars(s, start, s.len());
    assert(d@ =~= unsigned_digits(s@));
    if d.len() == 0 {
        return None;
    }
    let mut v: u64 = 0;
    let mut i: usize = 0;
    while i < d.len()
        invariant
            i <= d.len(),
            d@.len() > 0,
            d@ == unsigned_digits(s@),
            forall|j: int| 0 <= j < i ==> is_digit(#[trigger] d@[j]),
            v == digits_value(d@.take(i as int)),
        decreases d.len() - i,
    {
        assert(d@.take(i + 1).drop_last() =~= d@.take(i as int));
        let c = d[i];
        if !('0' <= c && c <= '9') {
            assert(!is_digit(d@[i as int]));
            assert(!all_digits(d@));
            return None;
        }
        let digit: u64 = (c as u32 - 48) as u64;
        assert(d@.take(i + 1).last() == c);
        assert(digits_value(d@.take(i + 1)) == v * 10 + digit);
        if v > (18446744073709551615u64 - digit) / 10 {
            proof {
                assert(digits_value(d@.take(i + 1)) > u64::MAX) by (nonlinear_arith)
                    requires
                        digits_value(d@.take(i + 1)) == v * 10 + digit,
                        v > (18446744073709551615u64 - digit) / 10,
                        digit <= 9,
                ;
                assert forall|j: int| 0 <= j < i + 1 implies is_digit(#[trigger] d@.take(i + 1)[j]) by {}
                if all_digits(d@) {
                    lemma_digits_value_grows(d@, i + 1);
                    assert(digits_value(d@) > u64::MAX);
                }
            }
            return None;
        }
        proof {
            assert(v * 10 + digit <= u64::MAX) by (nonlinear_arith)
                requires
                    v <= (18446744073709551615u64 - digit) / 10,
                    digit <= 9,
            ;
        }
        v = v * 10 + digit;
        i = i + 1;
    }
    assert(d@.take(i as int) =~= d@);
    Some(v)
}

/// Parses a human-friendly duration such as `7d`, `24h`, `30m`, `60s` or
/// `2w`.
pub fn parse_duration(s: &str) -> (r: Result<std::time::Duration, String>)
    requires
        trim(s@).len() > 0 ==> utf8_width(trim(s@).last()) == 1,
        duration_parse(s@) matches Ok(v) ==> v <= u64::MAX,
    ensures
        match (r, duration_parse(s@)) {
            (Ok(d), Ok(v)) => duration_secs(d) == v && crate::cdt::cache::duration_nanos(d) == 0,
            (Err(e), Err(m)) => e@ == m,
            _ => false,
        },
{
    let t = trim_chars(&chars_of(s));
    if t.len() == 0 {
        return Err(String::from_str("empty duration"));
    }
    let num = sub_chars(&t, 0, t.len() - 1);
    assert(num@ =~= t@.drop_last());
    let unit = t[t.len() - 1];
    let n = match parse_u64_chars(&num) {
        Some(n) => n,
        None => {
            let mut out: Vec<char> = Vec::new();
            push_str(&mut out, "invalid duration: ");
            push_all(&mut out, &t);
            return Err(string_of(&out));
        },
    };
    let mult: u64 = if unit == 's' {
        1
    } else if unit == 'm' {
        60
    } else if unit == 'h' {
        3600
    } else if unit == 'd' {
        86400
    } else if unit == 'w' {
        604800
    } else {
        let mut out: Vec<char> = Vec::new();
        push_str(&mut out, "unknown unit '");
        out.push(unit);
        push_str(&mut out, "', expected s/m/h/d/w");
        assert(out@ =~= "unknown unit '"@ + seq![unit] + "', expected s/m/h/d/w"@);
        return Err(string_of(&out));
    };
    assert(n * mult <= u64::MAX);
    Ok(duration_from_secs(n * mult))
}

// ---------------------------------------------------------------------------
// The repository that owns a worktree
// ---------------------------------------------------------------------------

/// The parent of a path (`Path::parent`), as text.
pub uninterp spec fn path_parent_text(p: Seq<char>) -> Option<Seq<char>>;

/// Calls `Path::parent` on `p`; the result is named by `path_parent_text`.
#[verifier::external_body]
fn path_parent(p: &str) -> (r: Option<String>)
    ensures
        match r {
            Some(q) => path_parent_text(p@) == Some(q@),
            None => path_parent_text(p@) is None,
        },
{
    std::path::Path::new(p).parent().map(|q| q.to_string_lossy().to_string())
}

/// What stands at `<worktree>/.git`.
pub enum GitLink {
    /// A file, with its text where it could be read.
    File(Option<String>),
    /// A directory: the worktree is a repository of its own.
    Dir,
    /// Nothing.
    Missing,
}

/// The directory that a `.git` file of a linked worktree points to: the
/// text after `gitdir: `, trimmed.
pub open spec fn gitdir_of(content: Seq<char>) -> Option<Seq<char>> {
    if crate::text::starts_with(content, "gitdir: "@) {
        Some(trim(content.skip(8)))
    } else {
        None
    }
}

/// Three levels above `p` (`.git/worktrees/<name>` up to the repository).
pub open spec fn third_parent(p: Seq<char>) -> Option<Seq<char>> {
    match path_parent_text(p) {
        Some(a) => match path_parent_text(a) {
            Some(b) => path_parent_text(b),
            None => None,
        },
        None => None,
    }
}

/// The repository that owns the worktree at `ws_path`, by what stands at
/// its `.git`.
pub open spec fn parent_repo_spec(ws_path: Seq<char>, link: GitLink) -> Option<Seq<char>> {
    match link {
        GitLink::File(Some(content)) => match gitdir_of(content@) {
            Some(g) => third_parent(g),
            None => None,
        },
        GitLink::File(None) => None,
        GitLink::Dir => Some(ws_path),
        GitLink::Missing => None,
    }
}

/// The repository that owns the worktree at `ws_path`: for a linked
/// worktree, the repository its `.git` file points into; for a repository,
/// itself.
pub fn parent_repo(ws_path: &str, link: GitLink) -> (r: Option<String>)
    ensures
        match r {
            Some(q) => parent_repo_spec(ws_path@, link) == Some(q@),
            None => parent_repo_spec(ws_path@, link) is None,
        },
{
    match link {
        GitLink::File(Some(content)) => {
            let c = chars_of(content.as_str());
            if !crate::text::starts_with_str(&c, "gitdir: ") {
                return None;
            }
            proof {
                reveal_strlit("gitdir: ");
            }
            let rest = sub_chars(&c, 8, c.len());
            assert(rest@ =~= c@.skip(8));
            let g = trim_chars(&rest);
            let gs = string_of(&g);
            match path_parent(gs.as_str()) {
                Some(a) => match path_parent(a.as_str()) {
                    Some(b) => path_parent(b.as_str()),
                    None => None,
                },
                None => None,
            }
        },
        GitLink::File(None) => None,
        GitLink::Dir => Some(String::from_str(ws_path)),
        GitLink::Missing => None,
    }
}

// ---------------------------------------------------------------------------
// The course of `clean`
// ---------------------------------------------------------------------------

/// How `clean` proceeds: with neither `--merged` nor `--stale` it only lists
/// the merged worktrees (interactive); merged ones are proposed with
/// `--merged` or when interactive. Gives `(interactive, include_merged)`.
pub fn clean_mode(merged: bool, has_stale: bool) -> (r: (bool, bool))
    ensures
        r.0 == (!merged && !has_stale),
        r.1 == (merged || r.0),
{
    let interactive = !merged && !has_stale;
    (interactive, merged || interactive)
}

/// Whether the answer to `Proceed? [y/N]` agrees: it is `y` or `Y` once
/// trimmed.
pub fn confirmed(input: &str) -> (r: bool)
    ensures
        r == (trim(input@) == seq!['y'] || trim(input@) == seq!['Y']),
{
    let t = trim_chars(&chars_of(input));
    let r = t.len() == 1 && (t[0] == 'y' || t[0] == 'Y');
    assert(r == (t@ =~= seq!['y'] || t@ =~= seq!['Y']));
    r
}

/// The last line of `clean`.
pub fn done_message(removed: u64, failed: u64) -> (r: String)
    ensures
        r@ == "\nDone: "@ + decimal(removed as nat) + " removed, "@ + decimal(failed as nat) + " failed."@,
{
    let mut out: Vec<char> = Vec::new();
    push_str(&mut out, "\nDone: ");
    crate::text::push_decimal(&mut out, removed);
    push_str(&mut out, " removed, ");
    crate::text::push_decimal(&mut out, failed);
    push_str(&mut out, " failed.");
    string_of(&out)
}

} // verus!
