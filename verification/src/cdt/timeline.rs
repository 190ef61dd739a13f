//! The activity timeline across worktrees: events, their order and their
//! display, and the reading of `git log` output.

use vstd::prelude::*;
use chrono::TimeZone;
use chrono::Datelike;
use crate::cdt::scanner::{Workspace, label_spec, age_text, format_age_secs, unix_now, is_digit};
use crate::cdt::clean::{u64_parse, parse_u64_chars};
use crate::text::{
    chars_of, decimal, lines, lines_of, pad_right, push_all, push_decimal, push_padded_right,
    push_str, string_of, sub_chars, trim, trim_chars, views,
};

verus! {

/// What happened in a worktree.
#[derive(Clone, Copy, Debug, PartialEq, Eq, Structural)]
pub enum EventKind {
    Commit,
    WorktreeCreated,
}

/// One event of the timeline.
#[derive(Debug, Clone, PartialEq, Eq)]
pub struct Event {
    /// Seconds since the Unix epoch.
    pub timestamp: u64,
    /// The workspace's label, `project/name`.
    pub workspace: String,
    pub kind: EventKind,
    /// A human-readable description.
    pub message: String,
}

// ---------------------------------------------------------------------------
// Order
// ---------------------------------------------------------------------------

/// `r` holds the events of `s` newest first; events with the same time keep
/// their order. `perm` tells where each event of `r` comes from in `s`.
pub open spec fn is_stable_newest_first(s: Seq<Event>, r: Seq<Event>, perm: Seq<int>) -> bool {
    &&& r.len() == s.len()
    &&& perm.len() == r.len()
    &&& forall|k: int| 0 <= k < r.len() ==> 0 <= #[trigger] perm[k] < s.len() && r[k] == s[perm[k]]
    &&& forall|a: int, b: int| 0 <= a < b < r.len() ==> perm[a] != perm[b]
    &&& forall|a: int, b: int| 0 <= a < b < r.len() ==> r[a].timestamp >= r[b].timestamp
    &&& forall|a: int, b: int|
        0 <= a < b < r.len() && r[a].timestamp == r[b].timestamp ==> perm[a] < perm[b]
}

/// Sorts events by timestamp, newest first; the sort is stable.
pub fn merge_events(events: Vec<Event>) -> (r: Vec<Event>)
    ensures
        exists|perm: Seq<int>| is_stable_newest_first(events@, r@, perm),
{
    let ghost s = events@;
    let total = events.len();
    assert(s.len() == total);
    let mut rest = events;
    let mut out: Vec<Event> = Vec::new();
    let ghost mut perm: Seq<int> = Seq::empty();
    let mut i: usize = 0;
    while rest.len() > 0
        invariant
            i <= s.len(),
            s.len() <= usize::MAX,
            rest@ == s.skip(i as int),
            out@.len() == i,
            perm.len() == i,
            forall|k: int| 0 <= k < out@.len() ==> 0 <= #[trigger] perm[k] < i && out@[k] == s[perm[k]],
            forall|a: int, b: int| 0 <= a < b < out@.len() ==> perm[a] != perm[b],
            forall|a: int, b: int| 0 <= a < b < out@.len() ==> out@[a].timestamp >= out@[b].timestamp,
            forall|a: int, b: int|
                0 <= a < b < out@.len() && out@[a].timestamp == out@[b].timestamp ==> perm[a] < perm[b],
        decreases rest.len(),
    {
        let x = rest.remove(0);
        assert(x == s[i as int]);
        assert(rest@ =~= s.skip(i + 1));
        let mut p: usize = 0;
        while p < out.len() && out[p].timestamp >= x.timestamp
            invariant
                p <= out.len(),
                forall|k: int| 0 <= k < p ==> (#[trigger] out@[k]).timestamp >= x.timestamp,
            decreases out.len() - p,
        {
            p = p + 1;
        }
        let ghost before = out@;
        let ghost pb = perm;
        out.insert(p, x);
        proof {
            perm = pb.insert(p as int, i as int);
            assert(out@ == before.insert(p as int, x));
            assert forall|k: int| 0 <= k < out@.len() implies 0 <= #[trigger] perm[k] < i + 1 && out@[k] == s[perm[k]] by {
                if k < p {
                    assert(perm[k] == pb[k]);
                } else if k > p {
                    assert(perm[k] == pb[k - 1]);
                }
            }
            assert forall|a: int, b: int| 0 <= a < b < out@.len() implies perm[a] != perm[b] by {
                if a < p && b > p {
                    assert(perm[b] == pb[b - 1]);
                } else if a > p {
                    assert(perm[a] == pb[a - 1]);
                    assert(perm[b] == pb[b - 1]);
                } else if b < p {
                } else if a == p {
                    assert(perm[b] == pb[b - 1]);
                } else {
                    assert(perm[a] == pb[a]);
                }
            }
            assert forall|a: int, b: int| 0 <= a < b < out@.len() implies out@[a].timestamp >= out@[b].timestamp by {
                if b < p {
                } else if b == p {
                    assert(before[a].timestamp >= x.timestamp);
                } else if a < p {
                    assert(before[a].timestamp >= before[b - 1].timestamp);
                } else if a == p {
                    assert(before[p as int].timestamp < x.timestamp);
                    if b - 1 > p {
                        assert(before[p as int].timestamp >= before[b - 1].timestamp);
                    }
                } else {
                    assert(before[a - 1].timestamp >= before[b - 1].timestamp);
                }
            }
            assert forall|a: int, b: int|
                0 <= a < b < out@.len() && out@[a].timestamp == out@[b].timestamp implies perm[a] < perm[b] by {
                if b < p {
                } else if b == p {
                    assert(perm[a] == pb[a]);
                } else if a < p {
                    assert(perm[a] == pb[a]);
                    assert(perm[b] == pb[b - 1]);
                } else if a == p {
                    assert(before[p as int].timestamp < x.timestamp);
                    if b - 1 > p {
                        assert(before[p as int].timestamp >= before[b - 1].timestamp);
                    }
                } else {
                    assert(perm[a] == pb[a - 1]);
                    assert(perm[b] == pb[b - 1]);
                }
            }
        }
        i = i + 1;
    }
    assert(is_stable_newest_first(s, out@, perm));
    out
}

// ---------------------------------------------------------------------------
// Display
// ---------------------------------------------------------------------------

/// `n` with at least two digits (`{:02}`).
pub open spec fn two_digits(n: nat) -> Seq<char> {
    if n < 10 {
        "0"@ + decimal(n)
    } else {
        decimal(n)
    }
}

/// The display of a timestamp `ts` at time `now`, given the local clock text
/// that the machine gave, if any: the time of day for events of the last day
/// (UTC when no local text), otherwise a date and time (the age when none).
pub open spec fn timestamp_text(ts: nat, now: nat, local: Option<Seq<char>>) -> Seq<char> {
    let age: nat = if now >= ts {
        (now - ts) as nat
    } else {
        0
    };
    match local {
        Some(t) => t,
        None => if age < 86400 {
            two_digits(((ts % 86400) / 3600) % 24) + ":"@ + two_digits((ts % 86400 % 3600) / 60)
        } else {
            age_text(age)
        },
    }
}

/// `t` reads `HH:MM`: two digits, a colon, two digits.
pub open spec fn clock_shape(t: Seq<char>) -> bool {
    &&& t.len() == 5
    &&& is_digit(t[0]) && is_digit(t[1])
    &&& t[2] == ':'
    &&& is_digit(t[3]) && is_digit(t[4])
}

/// `m` is an English month abbreviation, as `%b` writes it.
pub open spec fn month_abbrev(m: Seq<char>) -> bool {
    m == "Jan"@ || m == "Feb"@ || m == "Mar"@ || m == "Apr"@ || m == "May"@ || m == "Jun"@
        || m == "Jul"@ || m == "Aug"@ || m == "Sep"@ || m == "Oct"@ || m == "Nov"@ || m == "Dec"@
}

/// `t` reads `Mon DD HH:MM`.
pub open spec fn dated_clock_shape(t: Seq<char>) -> bool {
    &&& t.len() == 12
    &&& month_abbrev(t.take(3))
    &&& t[3] == ' '
    &&& is_digit(t[4]) && is_digit(t[5])
    &&& t[6] == ' '
    &&& clock_shape(t.skip(7))
}

/// The format of the local time of day.
pub const CLOCK_FORMAT: &'static str = "%H:%M";

/// The format of the local date and time.
pub const DATED_CLOCK_FORMAT: &'static str = "%b %d %H:%M";

/// The format for a time on local day `ts_day`, seen on local day `now_day`:
/// the time of day when both days are known and the same, else the date and
/// time.
pub open spec fn clock_format_spec(ts_day: Option<int>, now_day: Option<int>) -> Seq<char> {
    match (ts_day, now_day) {
        (Some(a), Some(b)) => if a == b {
            CLOCK_FORMAT@
        } else {
            DATED_CLOCK_FORMAT@
        },
        _ => DATED_CLOCK_FORMAT@,
    }
}

/// The format of a timestamp's display, by the local calendar days of the
/// timestamp and of now.
pub fn clock_format_for(ts_day: Option<i64>, now_day: Option<i64>) -> (r: &'static str)
    ensures
        r@ == clock_format_spec(
            match ts_day {
                Some(d) => Some(d as int),
                None => None,
            },
            match now_day {
                Some(d) => Some(d as int),
                None => None,
            },
        ),
{
    match (ts_day, now_day) {
        (Some(a), Some(b)) => if a == b {
            CLOCK_FORMAT
        } else {
            DATED_CLOCK_FORMAT
        },
        _ => DATED_CLOCK_FORMAT,
    }
}

/// A local clock text written with format `fmt` has its shape.
pub open spec fn clock_fits(fmt: Seq<char>, local: Option<Seq<char>>) -> bool {
    match local {
        Some(t) => if fmt == CLOCK_FORMAT@ {
            clock_shape(t)
        } else {
            dated_clock_shape(t)
        },
        None => true,
    }
}

/// `t` displays the timestamp `ts`, as the clock and the machine's time zone
/// give it at some time: the local text in the format that the two local
/// days choose, or, where chrono gives none, the fallback of
/// `format_timestamp_at`.
pub open spec fn time_shown(ts: nat, t: Seq<char>) -> bool {
    exists|now: nat, ts_day: Option<int>, now_day: Option<int>, local: Option<Seq<char>>|
        #![trigger clock_format_spec(ts_day, now_day), timestamp_text(ts, now, local)]
        clock_fits(clock_format_spec(ts_day, now_day), local) && t == timestamp_text(ts, now, local)
}

/// The local calendar day (days from the first day of the common era) of
/// `ts` with chrono's `Local.timestamp_opt(ts, 0)`, `date_naive` and
/// `num_days_from_ce`; `None` where chrono cannot place the time. It depends
/// on the machine's time zone, so nothing is promised of the number.
#[verifier::external_body]
fn local_day(ts: i64) -> (r: Option<i64>) {
    chrono::Local.timestamp_opt(ts, 0).single().map(|t| i64::from(t.date_naive().num_days_from_ce()))
}

proof fn lemma_digits_one_line(n: nat)
    ensures
        forall|i: int| 0 <= i < decimal(n).len() ==> decimal(n)[i] != '\n',
        forall|i: int| 0 <= i < two_digits(n).len() ==> two_digits(n)[i] != '\n',
{
    crate::learn::readback::lemma_decimal_digits(n);
    reveal_strlit("0");
    assert forall|i: int| 0 <= i < decimal(n).len() implies decimal(n)[i] != '\n' by {
        assert(is_digit(decimal(n)[i]));
    }
    assert forall|i: int| 0 <= i < two_digits(n).len() implies two_digits(n)[i] != '\n' by {
        if n < 10 && i >= 1 {
            assert(two_digits(n)[i] == decimal(n)[i - 1]);
        }
    }
}

/// A displayed time is one line: no newline is in it.
pub proof fn shown_time_is_one_line(ts: nat, t: Seq<char>)
    requires
        time_shown(ts, t),
    ensures
        forall|i: int| 0 <= i < t.len() ==> t[i] != '\n',
{
    let (now, ts_day, now_day, local) = choose|now: nat, ts_day: Option<int>, now_day: Option<int>, local: Option<Seq<char>>|
        #![trigger clock_format_spec(ts_day, now_day), timestamp_text(ts, now, local)]
        clock_fits(clock_format_spec(ts_day, now_day), local) && t == timestamp_text(ts, now, local);
    let age: nat = if now >= ts {
        (now - ts) as nat
    } else {
        0
    };
    match local {
        Some(x) => {
            if clock_format_spec(ts_day, now_day) != CLOCK_FORMAT@ {
                assert forall|i: int| 0 <= i < t.len() implies t[i] != '\n' by {
                    if i < 3 {
                        reveal_strlit("Jan");
                        reveal_strlit("Feb");
                        reveal_strlit("Mar");
                        reveal_strlit("Apr");
                        reveal_strlit("May");
                        reveal_strlit("Jun");
                        reveal_strlit("Jul");
                        reveal_strlit("Aug");
                        reveal_strlit("Sep");
                        reveal_strlit("Oct");
                        reveal_strlit("Nov");
                        reveal_strlit("Dec");
                        assert(t.take(3)[i] == t[i]);
                    } else if i >= 7 {
                        assert(t.skip(7)[i - 7] == t[i]);
                    }
                }
            }
        },
        None => {
            reveal_strlit(":");
            if age < 86400 {
                lemma_digits_one_line(((ts % 86400) / 3600) % 24);
                lemma_digits_one_line((ts % 86400 % 3600) / 60);
            } else {
                lemma_digits_one_line(age / 60);
                lemma_digits_one_line(age / 3600);
                lemma_digits_one_line(age / 86400);
                lemma_digits_one_line(age);
                reveal_strlit("s ago");
                reveal_strlit("m ago");
                reveal_strlit("h ago");
                reveal_strlit("d ago");
            }
        },
    }
}

/// Calls `chrono::Local.timestamp_opt(ts, 0)` and formats the time with
/// `fmt`; `None` where chrono cannot place the time in the local zone. The
/// text depends on the machine's time zone; what the contract claims is its
/// shape, as chrono's `%H`, `%M` (two digits each), `%d` (two digits) and
/// `%b` (three-letter English month) give it.
#[verifier::external_body]
fn local_clock_text(ts: i64, fmt: &str) -> (r: Option<String>)
    requires
        fmt@ == CLOCK_FORMAT@ || fmt@ == DATED_CLOCK_FORMAT@,
    ensures
        match r {
            Some(t) => (fmt@ == CLOCK_FORMAT@ ==> clock_shape(t@)) && (fmt@ == DATED_CLOCK_FORMAT@
                ==> dated_clock_shape(t@)),
            None => true,
        },
{
    chrono::Local.timestamp_opt(ts, 0).single().map(|t| t.format(fmt).to_string())
}

fn push_two_digits(out: &mut Vec<char>, n: u64)
    ensures
        final(out)@ == old(out)@ + two_digits(n as nat),
{
    if n < 10 {
        push_str(out, "0");
    }
    let ghost mid = out@;
    push_decimal(out, n);
    assert(out@ =~= old(out)@ + two_digits(n as nat));
}

/// The display of `ts` at time `now`, with the local clock text given.
pub fn format_timestamp_at(ts: u64, now: u64, local: Option<String>) -> (r: String)
    ensures
        r@ == timestamp_text(
            ts as nat,
            now as nat,
            match local {
                Some(t) => Some(t@),
                None => None,
            },
        ),
{
    let age: u64 = if now >= ts { now - ts } else { 0 };
    match local {
        Some(t) => t,
        None => {
            if age < 86400 {
                let secs_today = ts % 86400;
                let hours = (secs_today / 3600) % 24;
                let minutes = (secs_today % 3600) / 60;
                let mut out: Vec<char> = Vec::new();
                push_two_digits(&mut out, hours);
                push_str(&mut out, ":");
                push_two_digits(&mut out, minutes);
                string_of(&out)
            } else {
                format_age_secs(age)
            }
        },
    }
}

/// A timestamp for display: the local time of day for a time on today's
/// local date, otherwise the local date and time.
pub fn format_timestamp(ts: u64) -> (r: String)
    ensures
        time_shown(ts as nat, r@),
{
    let now = unix_now();
    let max: u64 = 9223372036854775807u64;
    let ts_day = if ts <= max { local_day(ts as i64) } else { None };
    let now_day = if now <= max { local_day(now as i64) } else { None };
    let fmt = clock_format_for(ts_day, now_day);
    proof {
        reveal_strlit("%H:%M");
        reveal_strlit("%b %d %H:%M");
        assert(CLOCK_FORMAT@.len() == 5 && DATED_CLOCK_FORMAT@.len() == 11);
    }
    let local = if ts <= max {
        local_clock_text(ts as i64, fmt)
    } else {
        None
    };
    let ghost lv = match &local {
        Some(t) => Some(t@),
        None => None,
    };
    let ghost td = match ts_day {
        Some(d) => Some(d as int),
        None => None,
    };
    let ghost nd = match now_day {
        Some(d) => Some(d as int),
        None => None,
    };
    let r = format_timestamp_at(ts, now, local);
    assert(clock_fits(clock_format_spec(td, nd), lv));
    assert(r@ == timestamp_text(ts as nat, now as nat, lv));
    r
}

/// The icon of an event kind.
pub open spec fn kind_icon(k: EventKind) -> Seq<char> {
    match k {
        EventKind::Commit => "●"@,
        EventKind::WorktreeCreated => "◆"@,
    }
}

/// The line of an event, given the display of its time.
pub open spec fn event_line(e: Event, time: Seq<char>) -> Seq<char> {
    "  "@ + pad_right(time, 14) + " "@ + pad_right(e.workspace@, 24) + " "@ + kind_icon(e.kind) + " "@
        + e.message@
}

/// The line of an event with the given display of its time.
pub fn format_event_with(event: &Event, time: &str) -> (r: String)
    ensures
        r@ == event_line(*event, time@),
{
    let mut out: Vec<char> = Vec::new();
    push_str(&mut out, "  ");
    let t = chars_of(time);
    push_padded_right(&mut out, &t, 14);
    push_str(&mut out, " ");
    let w = chars_of(event.workspace.as_str());
    push_padded_right(&mut out, &w, 24);
    push_str(&mut out, " ");
    match event.kind {
        EventKind::Commit => push_str(&mut out, "●"),
        EventKind::WorktreeCreated => push_str(&mut out, "◆"),
    }
    push_str(&mut out, " ");
    let m = chars_of(event.message.as_str());
    push_all(&mut out, &m);
    string_of(&out)
}

/// A timeline event as a display line.
pub fn format_event(event: &Event) -> (r: String)
    ensures
        exists|t: Seq<char>| time_shown(event.timestamp as nat, t) && r@ == #[trigger] event_line(*event, t),
{
    let time = format_timestamp(event.timestamp);
    format_event_with(event, time.as_str())
}

/// The first `limit` events, one line each ended by a newline, each with the
/// time display in `times`.
pub open spec fn timeline_text(events: Seq<Event>, times: Seq<Seq<char>>, n: int) -> Seq<char>
    decreases n,
{
    if n <= 0 {
        Seq::empty()
    } else {
        timeline_text(events, times, n - 1) + event_line(events[n - 1], times[n - 1]) + "\n"@
    }
}

/// How many events a timeline with this limit shows.
pub open spec fn shown_count(len: nat, limit: nat) -> int {
    if limit < len {
        limit as int
    } else {
        len as int
    }
}

/// `t` is a display of the time of `e`.
pub open spec fn shows_time_of(e: Event, t: Seq<char>) -> bool {
    time_shown(e.timestamp as nat, t)
}

/// The timeline for display: at most `limit` events, one line each.
pub fn format_timeline(events: &[Event], limit: usize) -> (r: String)
    ensures
        exists|times: Seq<Seq<char>>|
            times.len() == events@.len() && (forall|k: int| 0 <= k < events@.len() ==> shows_time_of(events@[k], #[trigger] times[k]))
                && r@ == #[trigger] timeline_text(events@, times, shown_count(events@.len(), limit as nat)),
{
    let n: usize = if limit < events.len() { limit } else { events.len() };
    let mut out: Vec<char> = Vec::new();
    let ghost mut times: Seq<Seq<char>> = Seq::empty();
    let mut i: usize = 0;
    while i < n
        invariant
            n <= events.len(),
            i <= n,
            times.len() == i,
            forall|k: int| 0 <= k < i ==> shows_time_of(events@[k], #[trigger] times[k]),
            out@ == timeline_text(events@, times, i as int),
        decreases n - i,
    {
        let time = format_timestamp(events[i].timestamp);
        let line = format_event_with(&events[i], time.as_str());
        let lv = chars_of(line.as_str());
        push_all(&mut out, &lv);
        push_str(&mut out, "\n");
        let ghost old_times = times;
        proof {
            times = times.push(time@);
            assert forall|k: int| 0 <= k < i + 1 implies shows_time_of(events@[k], #[trigger] times[k]) by {
                if k < i {
                    assert(times[k] == old_times[k]);
                }
            }
            assert(timeline_text(events@, times, i as int) == timeline_text(events@, old_times, i as int)) by {
                lemma_timeline_text_prefix(events@, old_times, times, i as int);
            }
        }
        i = i + 1;
    }
    let ghost full = times + Seq::new((events@.len() - n) as nat, |k: int| timestamp_text(events@[n + k].timestamp as nat, 0, None));
    proof {
        assert forall|k: int| 0 <= k < events@.len() implies shows_time_of(events@[k], #[trigger] full[k]) by {
            if k < n {
                assert(full[k] == times[k]);
            } else {
                assert(full[k] == timestamp_text(events@[k].timestamp as nat, 0, None));
                assert(clock_fits(clock_format_spec(None, None), None));
            }
        }
        lemma_timeline_text_prefix(events@, times, full, n as int);
    }
    let r = string_of(&out);
    assert(shown_count(events@.len(), limit as nat) == n as int);
    assert(r@ == timeline_text(events@, full, shown_count(events@.len(), limit as nat)));
    r
}

proof fn lemma_timeline_text_prefix(events: Seq<Event>, t1: Seq<Seq<char>>, t2: Seq<Seq<char>>, n: int)
    requires
        0 <= n <= t1.len(),
        n <= t2.len(),
        forall|k: int| 0 <= k < n ==> t1[k] == t2[k],
    ensures
        timeline_text(events, t1, n) == timeline_text(events, t2, n),
    decreases n,
{
    if n > 0 {
        lemma_timeline_text_prefix(events, t1, t2, n - 1);
    }
}

// ---------------------------------------------------------------------------
// Reading `git log`
// ---------------------------------------------------------------------------

/// The index of the first tab in `s`, if any (`split_once('\t')`).
pub open spec fn first_tab(s: Seq<char>) -> Option<int>
    decreases s.len(),
{
    if s.len() == 0 {
        None
    } else if s[0] == '\t' {
        Some(0)
    } else {
        match first_tab(s.drop_first()) {
            Some(k) => Some(k + 1),
            None => None,
        }
    }
}

/// The commit event of a `git log --format=%ct\t%s` line: the timestamp
/// before the first tab and the subject after it; none when the line has no
/// tab or no valid timestamp.
pub open spec fn commit_of_line(line: Seq<char>, label: Seq<char>) -> Option<(nat, Seq<char>)> {
    match first_tab(line) {
        Some(k) => match u64_parse(line.take(k)) {
            Some(ts) => Some((ts, line.skip(k + 1))),
            None => None,
        },
        None => None,
    }
}

/// The commit events of the lines, in order.
pub open spec fn commits_of(lines: Seq<Seq<char>>, label: Seq<char>) -> Seq<(nat, Seq<char>)>
    decreases lines.len(),
{
    if lines.len() == 0 {
        Seq::empty()
    } else {
        match commit_of_line(lines.last(), label) {
            Some(c) => commits_of(lines.drop_last(), label).push(c),
            None => commits_of(lines.drop_last(), label),
        }
    }
}

/// An event as plain values: time, workspace, kind and message.
pub open spec fn event_view(e: Event) -> (nat, Seq<char>, EventKind, Seq<char>) {
    (e.timestamp as nat, e.workspace@, e.kind, e.message@)
}

fn find_tab(s: &Vec<char>) -> (r: Option<usize>)
    ensures
        match r {
            Some(k) => first_tab(s@) == Some(k as int) && k < s@.len(),
            None => first_tab(s@) is None,
        },
{
    let mut i: usize = 0;
    while i < s.len()
        invariant
            i <= s.len(),
            forall|j: int| 0 <= j < i ==> s@[j] != '\t',
        decreases s.len() - i,
    {
        if s[i] == '\t' {
            proof {
                lemma_first_tab(s@, i as int);
            }
            return Some(i);
        }
        i = i + 1;
    }
    proof {
        lemma_first_tab(s@, s@.len() as int);
    }
    None
}

proof fn lemma_first_tab(s: Seq<char>, i: int)
    requires
        0 <= i <= s.len(),
        forall|j: int| 0 <= j < i ==> s[j] != '\t',
        i < s.len() ==> s[i] == '\t',
    ensures
        first_tab(s) == if i < s.len() {
            Some(i)
        } else {
            None::<int>
        },
    decreases i,
{
    if i > 0 {
        lemma_first_tab(s.drop_first(), i - 1);
    }
}

/// The commit events in the output of `git log --format=%ct\t%s` for the
/// workspace labelled `label`: one per line with a tab and a valid
/// timestamp before it, in order.
pub fn parse_commit_log(text: &str, label: &str) -> (r: Vec<Event>)
    ensures
        r@.map_values(|e: Event| event_view(e)) == commits_of(lines_of(text@), label@).map_values(
            |c: (nat, Seq<char>)| (c.0, label@, EventKind::Commit, c.1),
        ),
{
    let t = chars_of(text);
    let ls = lines(&t);
    let ghost lv = lines_of(text@);
    let mut out: Vec<Event> = Vec::new();
    let mut i: usize = 0;
    while i < ls.len()
        invariant
            views(ls@) == lv,
            lv == lines_of(text@),
            i <= ls.len(),
            out@.map_values(|e: Event| event_view(e)) == commits_of(lv.take(i as int), label@).map_values(
                |c: (nat, Seq<char>)| (c.0, label@, EventKind::Commit, c.1),
            ),
        decreases ls.len() - i,
    {
        proof {
            assert(lv.take(i + 1).drop_last() =~= lv.take(i as int));
            assert(lv.take(i + 1).last() == ls@[i as int]@);
        }
        let line = &ls[i];
        let ghost before = out@.map_values(|e: Event| event_view(e));
        match find_tab(line) {
            Some(k) => {
                let ts_part = sub_chars(line, 0, k);
                assert(ts_part@ =~= line@.take(k as int));
                match parse_u64_chars(&ts_part) {
                    Some(ts) => {
                        let msg = sub_chars(line, k + 1, line.len());
                        assert(msg@ =~= line@.skip(k + 1));
                        let e = Event {
                            timestamp: ts,
                            workspace: String::from_str(label),
                            kind: EventKind::Commit,
                            message: string_of(&msg),
                        };
                        out.push(e);
                        assert(out@.map_values(|e: Event| event_view(e)) =~= before.push(
                            (ts as nat, label@, EventKind::Commit, msg@),
                        ));
                    },
                    None => {},
                }
            },
            None => {},
        }
        i = i + 1;
    }
    assert(lv.take(i as int) =~= lv);
    out
}

/// The creation event of a workspace from the output of
/// `git log --reverse --max-count=1 --format=%ct`: the trimmed output as a
/// timestamp, with a message that names the branch.
pub open spec fn creation_of(ws: Workspace, out: Seq<char>) -> Option<(nat, Seq<char>)> {
    match u64_parse(trim(out)) {
        Some(ts) => Some(
            (
                ts,
                "created worktree (branch: "@ + match ws.branch {
                    Some(b) => b@,
                    None => "unknown"@,
                } + ")"@,
            ),
        ),
        None => None,
    }
}

/// The event for the creation of a worktree, read from the output of `git log`
/// for its first commit.
pub fn creation_event(ws: &Workspace, git_output: &str) -> (r: Option<Event>)
    ensures
        match (r, creation_of(*ws, git_output@)) {
            (Some(e), Some(c)) => event_view(e) == (c.0, label_spec(*ws), EventKind::WorktreeCreated, c.1),
            (None, None) => true,
            _ => false,
        },
{
    let t = trim_chars(&chars_of(git_output));
    match parse_u64_chars(&t) {
        Some(ts) => {
            let mut msg: Vec<char> = Vec::new();
            push_str(&mut msg, "created worktree (branch: ");
            match &ws.branch {
                Some(b) => {
                    let bv = chars_of(b.as_str());
                    push_all(&mut msg, &bv);
                },
                None => push_str(&mut msg, "unknown"),
            }
            push_str(&mut msg, ")");
            Some(Event {
                timestamp: ts,
                workspace: ws.label(),
                kind: EventKind::WorktreeCreated,
                message: string_of(&msg),
            })
        },
        None => None,
    }
}

/// A workspace's events: its commits, and its creation when no commit has
/// the same timestamp.
pub fn workspace_events(commits: Vec<Event>, creation: Option<Event>) -> (r: Vec<Event>)
    ensures
        match creation {
            Some(c) => if exists|k: int| 0 <= k < commits@.len() && (#[trigger] commits@[k]).timestamp == c.timestamp {
                r@ == commits@
            } else {
                r@ == commits@.push(c)
            },
            None => r@ == commits@,
        },
{
    let mut out = commits;
    match creation {
        Some(c) => {
            let mut k: usize = 0;
            let mut dup = false;
            while k < out.len()
                invariant
                    k <= out.len(),
                    dup == exists|j: int| 0 <= j < k && (#[trigger] out@[j]).timestamp == c.timestamp,
                decreases out.len() - k,
            {
                if out[k].timestamp == c.timestamp {
                    dup = true;
                }
                k = k + 1;
            }
            if !dup {
                out.push(c);
            }
            out
        },
        None => out,
    }
}

/// `s` holds no newline.
pub open spec fn no_newline(s: Seq<char>) -> bool {
    forall|i: int| 0 <= i < s.len() ==> s[i] != '\n'
}

proof fn lemma_lines_append(x: Seq<char>, y: Seq<char>)
    requires
        x.len() == 0 || x.last() == '\n',
    ensures
        lines_of(x + y) == lines_of(x) + lines_of(y),
    decreases x.len(),
{
    if x.len() == 0 {
        assert(x + y =~= y);
        assert(lines_of(x) =~= Seq::<Seq<char>>::empty());
        assert(lines_of(x) + lines_of(y) =~= lines_of(y));
    } else {
        let s = x + y;
        let k = crate::text::nl_index(x) as int;
        
        // the first newline of `x` is the first of `x + y`
        lemma_nl_index_le(x);
        assert(k < x.len()) by {
            if k == x.len() {
                lemma_nl_before(x, x.len() - 1);
            }
        }
        assert forall|j: int| 0 <= j < k implies s[j] != '\n' by {
            lemma_nl_before(x, j);
        }
        crate::text::lemma_nl_index(s, k as int);
        assert(s.take(k as int) =~= x.take(k as int));
        assert(s.skip(k + 1) =~= x.skip(k + 1) + y);
        let xr = x.skip(k + 1);
        assert(xr.len() == 0 || xr.last() == '\n');
        lemma_lines_append(xr, y);
        assert(lines_of(x) =~= seq![crate::text::strip_cr(x.take(k as int))] + lines_of(xr));
        assert(lines_of(s) =~= seq![crate::text::strip_cr(x.take(k as int))] + lines_of(xr + y));
    }
}

proof fn lemma_nl_index_le(s: Seq<char>)
    ensures
        crate::text::nl_index(s) <= s.len(),
        crate::text::nl_index(s) < s.len() ==> s[crate::text::nl_index(s) as int] == '\n',
    decreases s.len(),
{
    if s.len() > 0 && s[0] != '\n' {
        lemma_nl_index_le(s.drop_first());
    }
}

proof fn lemma_nl_before(s: Seq<char>, j: int)
    requires
        0 <= j < crate::text::nl_index(s),
    ensures
        s[j] != '\n',
    decreases s.len(),
{
    lemma_nl_index_le(s);
    assert(s.len() > 0 && s[0] != '\n');
    if j > 0 {
        assert(crate::text::nl_index(s.drop_first()) == crate::text::nl_index(s) - 1);
        lemma_nl_before(s.drop_first(), j - 1);
        assert(s[j] == s.drop_first()[j - 1]);
    }
}

proof fn lemma_one_line_lines(l: Seq<char>)
    requires
        no_newline(l),
    ensures
        lines_of(l + seq!['\n']).len() == 1,
{
    let s = l + seq!['\n'];
    assert forall|j: int| 0 <= j < l.len() implies s[j] != '\n' by {
        assert(s[j] == l[j]);
    }
    crate::text::lemma_nl_index(s, l.len() as int);
    assert(s.skip(l.len() as int + 1) =~= Seq::<char>::empty());
    assert(lines_of(Seq::<char>::empty()) =~= Seq::<Seq<char>>::empty());
}

proof fn lemma_pad_no_newline(s: Seq<char>, w: nat)
    requires
        no_newline(s),
    ensures
        no_newline(pad_right(s, w)),
{
    if s.len() < w {
        assert forall|i: int| 0 <= i < pad_right(s, w).len() implies pad_right(s, w)[i] != '\n' by {
            if i >= s.len() {
                assert(pad_right(s, w)[i] == crate::text::spaces((w - s.len()) as nat)[i - s.len()]);
            }
        }
    }
}

/// A timeline shows one line per event shown, when no workspace label or
/// message holds a newline.
pub proof fn timeline_line_count(events: Seq<Event>, times: Seq<Seq<char>>, n: int)
    requires
        0 <= n <= events.len(),
        n <= times.len(),
        forall|k: int| 0 <= k < n ==> shows_time_of(events[k], #[trigger] times[k]),
        forall|k: int| 0 <= k < n ==> no_newline((#[trigger] events[k]).workspace@) && no_newline(events[k].message@),
    ensures
        lines_of(timeline_text(events, times, n)).len() == n,
    decreases n,
{
    if n > 0 {
        timeline_line_count(events, times, n - 1);
        let prev = timeline_text(events, times, n - 1);
        let e = events[n - 1];
        let t = times[n - 1];
        shown_time_is_one_line(e.timestamp as nat, t);
        lemma_pad_no_newline(t, 14);
        lemma_pad_no_newline(e.workspace@, 24);
        reveal_strlit("  ");
        reveal_strlit(" ");
        reveal_strlit("●");
        reveal_strlit("◆");
        let l = event_line(e, t);
        assert(no_newline(l)) by {
            let a = pad_right(t, 14);
            let b = pad_right(e.workspace@, 24);
            assert forall|i: int| 0 <= i < l.len() implies l[i] != '\n' by {
                if 2 <= i < 2 + a.len() {
                    assert(l[i] == a[i - 2]);
                } else if 3 + a.len() <= i < 3 + a.len() + b.len() {
                    assert(l[i] == b[i - 3 - a.len()]);
                } else if i >= 6 + a.len() + b.len() {
                    assert(l[i] == e.message@[i - 6 - a.len() - b.len()]);
                }
            }
        }
        assert(prev.len() == 0 || prev.last() == '\n') by {
            if n - 1 > 0 {
                reveal_strlit("\n");
            }
        }
        reveal_strlit("\n");
        assert(timeline_text(events, times, n) =~= prev + (l + seq!['\n']));
        lemma_lines_append(prev, l + seq!['\n']);
        lemma_one_line_lines(l);
    } else {
        assert(lines_of(Seq::<char>::empty()) =~= Seq::<Seq<char>>::empty());
    }
}

proof fn lemma_commits_keep(lines: Seq<Seq<char>>, label: Seq<char>)
    ensures
        commits_of(lines, label) == crate::text::keep_some(lines, |l: Seq<char>| commit_of_line(l, label)),
    decreases lines.len(),
{
    if lines.len() > 0 {
        lemma_commits_keep(lines.drop_last(), label);
    }
}

/// A line of `git log --format=%ct\t%s` output gives a commit: it has a tab,
/// and the text before its first tab is a `u64`.
pub open spec fn is_commit_line(l: Seq<char>) -> bool {
    first_tab(l) matches Some(p) && u64_parse(l.take(p)) is Some
}

/// `f` maps each commit read from the log `text` to the line it comes from:
/// every line with a tab and a valid timestamp before it gives exactly one
/// commit, in line order, with that timestamp and the text after the tab as
/// its subject, and no other line gives one.
pub open spec fn commits_map_lines(text: Seq<char>, label: Seq<char>, f: Seq<int>) -> bool {
    let ls = lines_of(text);
    let cs = commits_of(ls, label);
    &&& f.len() == cs.len()
    &&& forall|m: int| 0 <= m < f.len() ==> {
        let l = ls[#[trigger] f[m]];
        &&& 0 <= f[m] < ls.len()
        &&& first_tab(l) matches Some(p) && u64_parse(l.take(p)) == Some(cs[m].0) && cs[m].1 == l.skip(p + 1)
    }
    &&& forall|a: int, b: int| 0 <= a < b < f.len() ==> f[a] < f[b]
    &&& forall|k: int| 0 <= k < ls.len() && is_commit_line(#[trigger] ls[k]) ==> exists|m: int| 0 <= m < f.len() && f[m] == k
}

/// Each commit line of a log gives one commit event, in line order; no
/// other line gives one.
pub proof fn commit_log_keeps_each_commit_line(text: Seq<char>, label: Seq<char>)
    ensures
        exists|f: Seq<int>| #[trigger] commits_map_lines(text, label, f),
{
    let ls = lines_of(text);
    let g = |l: Seq<char>| commit_of_line(l, label);
    lemma_commits_keep(ls, label);
    crate::text::lemma_keep_some(ls, g);
    let f = choose|f: Seq<int>| crate::text::kept_in_order(ls, g, crate::text::keep_some(ls, g), f);
    let cs = commits_of(ls, label);
    assert forall|m: int| 0 <= m < f.len() implies {
        let l = ls[#[trigger] f[m]];
        &&& 0 <= f[m] < ls.len()
        &&& first_tab(l) matches Some(p) && u64_parse(l.take(p)) == Some(cs[m].0) && cs[m].1 == l.skip(p + 1)
    } by {
        assert(g(ls[f[m]]) == Some(cs[m]));
    }
    assert forall|k: int| 0 <= k < ls.len() && is_commit_line(#[trigger] ls[k]) implies exists|m: int| 0 <= m < f.len() && f[m] == k by {
        assert(g(ls[k]) is Some);
    }
    assert(commits_map_lines(text, label, f));
}

} // verus!
