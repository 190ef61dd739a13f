//! Concept notes: their `[[wikilinks]]`, the split between frontmatter and
//! body, and the current review interval from the review dates.

use vstd::prelude::*;
use chrono::Datelike;
use crate::text::{chars_of, find_first, first_occurrence, lead_ws, occurs_at, starts_with, starts_with_str, string_of, sub_chars};

verus! {

/// How many characters other than `]` begin `s`.
pub open spec fn non_bracket_run(s: Seq<char>) -> nat
    decreases s.len(),
{
    if s.len() > 0 && s[0] != ']' {
        1 + non_bracket_run(s.drop_first())
    } else {
        0
    }
}

/// A wikilink `[[target]]` begins at `i`: two `[`, a non-empty target
/// without `]`, and two `]`.
pub open spec fn link_at(s: Seq<char>, i: int) -> bool {
    let r = non_bracket_run(s.skip(i + 2));
    &&& 0 <= i
    &&& i + 2 <= s.len()
    &&& s[i] == '['
    &&& s[i + 1] == '['
    &&& r > 0
    &&& i + 2 + r + 2 <= s.len()
    &&& s[i + 2 + r] == ']'
    &&& s[i + 3 + r] == ']'
}

/// The targets of the wikilinks from index `i` on, scanning left to right
/// and continuing after each link found.
pub open spec fn links_from(s: Seq<char>, i: int) -> Seq<Seq<char>>
    decreases s.len() - i,
{
    if i < 0 || i >= s.len() {
        Seq::empty()
    } else if link_at(s, i) {
        let r = non_bracket_run(s.skip(i + 2)) as int;
        seq![s.subrange(i + 2, i + 2 + r)] + links_from(s, i + 4 + r)
    } else {
        links_from(s, i + 1)
    }
}

proof fn lemma_run(s: Seq<char>, n: int)
    requires
        0 <= n <= s.len(),
        forall|k: int| 0 <= k < n ==> s[k] != ']',
        n == s.len() || s[n] == ']',
    ensures
        non_bracket_run(s) == n,
    decreases n,
{
    if n > 0 {
        lemma_run(s.drop_first(), n - 1);
    }
}

/// The targets of the `[[wikilinks]]` in `text`, in order.
pub fn extract_wikilinks(text: &str) -> (r: Vec<String>)
    ensures
        r@.map_values(|l: String| l@) == links_from(text@, 0),
{
    let s = chars_of(text);
    let n: usize = s.len();
    let mut out: Vec<String> = Vec::new();
    let mut i: usize = 0;
    while i < n
        invariant
            n == s@.len(),
            s@ == text@,
            i <= n,
            out@.map_values(|l: String| l@) + links_from(s@, i as int) == links_from(s@, 0),
        decreases n - i,
    {
        if i + 1 < n && s[i] == '[' && s[i + 1] == '[' {
            let mut j = i + 2;
            while j < n && s[j] != ']'
                invariant
                    n == s@.len(),
                    i + 2 <= j <= n,
                    forall|k: int| i + 2 <= k < j ==> s@[k] != ']',
                decreases n - j,
            {
                j = j + 1;
            }
            proof {
                lemma_run(s@.skip(i + 2), j - (i + 2));
            }
            if j > i + 2 && j < n && j + 1 < n && s[j] == ']' && s[j + 1] == ']' {
                let link = sub_chars(&s, i + 2, j);
                let ghost before = out@.map_values(|l: String| l@);
                out.push(string_of(&link));
                proof {
                    assert(link_at(s@, i as int));
                    assert(out@.map_values(|l: String| l@) =~= before.push(s@.subrange(i + 2, j as int)));
                    assert(before.push(s@.subrange(i + 2, j as int)) + links_from(s@, j + 2) =~= before + links_from(s@, i as int));
                }
                i = j + 2;
            } else {
                assert(!link_at(s@, i as int));
                i = i + 1;
            }
        } else {
            assert(!link_at(s@, i as int));
            i = i + 1;
        }
    }
    assert(out@.map_values(|l: String| l@) =~= out@.map_values(|l: String| l@) + links_from(s@, i as int));
    out
}

// ---------------------------------------------------------------------------
// Frontmatter
// ---------------------------------------------------------------------------

/// The YAML frontmatter text of a note and its body. A note whose text,
/// after leading whitespace, begins with `---` and has a later `\n---` has
/// frontmatter: the text between them; the body then starts after the
/// closing `---` and one newline. Any other note is all body.
pub open spec fn frontmatter_split(raw: Seq<char>) -> (Option<Seq<char>>, Seq<char>) {
    let t = raw.skip(lead_ws(raw) as int);
    if !starts_with(t, "---"@) {
        (None, raw)
    } else {
        let a = t.skip(3);
        match first_occurrence(a, "\n---"@) {
            Some(c) => {
                let start = c + 4;
                let body = if start < a.len() {
                    let rest = a.skip(start);
                    if rest[0] == '\n' {
                        rest.drop_first()
                    } else {
                        rest
                    }
                } else {
                    Seq::empty()
                };
                (Some(a.take(c)), body)
            },
            None => (None, raw),
        }
    }
}

/// Splits a note into its frontmatter text, if it has one, and its body.
pub fn split_frontmatter_text(raw: &str) -> (r: (Option<String>, String))
    ensures
        (match r.0 {
            Some(y) => Some(y@),
            None => None,
        }, r.1@) == frontmatter_split(raw@),
{
    proof {
        reveal_strlit("---");
        reveal_strlit("\n---");
    }
    let all = chars_of(raw);
    let t = crate::text::trim_start_chars(&all);
    if !starts_with_str(&t, "---") {
        return (None, String::from_str(raw));
    }
    let a = sub_chars(&t, 3, t.len());
    assert(a@ =~= t@.skip(3));
    let close = chars_of("\n---");
    match find_first(&a, &close) {
        Some(c) => {
            assert(occurs_at(a@, close@, c as int));
            let yaml = sub_chars(&a, 0, c);
            assert(yaml@ =~= a@.take(c as int));
            let start = c + 4;
            let body = if start < a.len() {
                let rest = sub_chars(&a, start, a.len());
                assert(rest@ =~= a@.skip(start as int));
                if rest[0] == '\n' {
                    let b = sub_chars(&rest, 1, rest.len());
                    assert(b@ =~= rest@.drop_first());
                    string_of(&b)
                } else {
                    string_of(&rest)
                }
            } else {
                String::new()
            };
            (Some(string_of(&yaml)), body)
        },
        None => (None, String::from_str(raw)),
    }
}

// ---------------------------------------------------------------------------
// Review dates
// ---------------------------------------------------------------------------

/// How review dates are written.
pub const YMD_FORMAT: &'static str = "%Y-%m-%d";

/// The day number (days from the first day of the common era) of a date
/// written `s` in format `fmt`, as `chrono::NaiveDate::parse_from_str` reads
/// it, or `None` when it does not parse.
pub uninterp spec fn ymd_day_number(fmt: Seq<char>, s: Seq<char>) -> Option<int>;

/// Calls `chrono::NaiveDate::parse_from_str(s, fmt)` and gives the date's
/// `num_days_from_ce`; the result is named by `ymd_day_number`.
#[verifier::external_body]
fn parse_ymd(s: &str, fmt: &str) -> (r: Option<i32>)
    ensures
        match r {
            Some(d) => ymd_day_number(fmt@, s@) == Some(d as int),
            None => ymd_day_number(fmt@, s@) is None,
        },
{
    chrono::NaiveDate::parse_from_str(s, fmt).ok().map(|d| d.num_days_from_ce())
}

/// The current interval in days: from the last review to the next, at least
/// one; one when either date is missing or does not parse.
pub open spec fn interval_between(last: Option<Seq<char>>, next: Option<Seq<char>>) -> int {
    match (last, next) {
        (Some(l), Some(n)) => match (ymd_day_number(YMD_FORMAT@, l), ymd_day_number(YMD_FORMAT@, n)) {
            (Some(a), Some(b)) => if b - a >= 1 {
                b - a
            } else {
                1
            },
            _ => 1,
        },
        _ => 1,
    }
}

/// The current review interval of a concept from its review dates.
pub fn compute_current_interval(last_reviewed: Option<&str>, next_review: Option<&str>) -> (r: u32)
    ensures
        r as int == interval_between(
            match last_reviewed {
                Some(l) => Some(l@),
                None => None,
            },
            match next_review {
                Some(n) => Some(n@),
                None => None,
            },
        ),
{
    match (last_reviewed, next_review) {
        (Some(lr), Some(nr)) => match (parse_ymd(lr, YMD_FORMAT), parse_ymd(nr, YMD_FORMAT)) {
            (Some(a), Some(b)) => {
                let d: i64 = b as i64 - a as i64;
                if d >= 1 {
                    d as u32
                } else {
                    1
                }
            },
            _ => 1,
        },
        _ => 1,
    }
}

} // verus!
