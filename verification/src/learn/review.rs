//! Reading a review session note: its `### term` sections, the prompt, the
//! answer written under `My answer:`, and the grade fields.

use vstd::prelude::*;
use crate::cdt::scanner::{digits_value, digit_prefix_len, is_digit};
use crate::text::{
    chars_of, find_first, first_occurrence, lead_ws, nl_index, occurs_at, occurs_at_exec,
    string_of, sub_chars, trim, trim_chars,
};

verus! {

/// An answered (or unanswered) review item.
pub struct ReviewAnswer {
    pub term: String,
    pub prompt_type: String,
    pub prompt: String,
    pub answer: String,
}

/// A graded review item.
pub struct GradedItem {
    pub term: String,
    pub score: u32,
    pub feedback: String,
    pub hint: String,
}

/// Everything read from one section.
struct ParsedBlock {
    term: String,
    prompt_type: String,
    prompt: String,
    answer: String,
    score: Option<u32>,
    feedback: String,
    hint: String,
}

// ---------------------------------------------------------------------------
// Sections
// ---------------------------------------------------------------------------

/// Index `i` begins a line of `s`.
pub open spec fn line_start(s: Seq<char>, i: int) -> bool {
    i == 0 || (0 < i <= s.len() && s[i - 1] == '\n')
}

/// A section heading, `### `, begins at index `i`.
pub open spec fn heading_at(s: Seq<char>, i: int) -> bool {
    line_start(s, i) && occurs_at(s, "### "@, i)
}

/// The positions of the section headings before index `n`, in order.
pub open spec fn heading_positions(s: Seq<char>, n: int) -> Seq<int>
    decreases n,
{
    if n <= 0 {
        Seq::empty()
    } else if heading_at(s, n - 1) {
        heading_positions(s, n - 1).push(n - 1)
    } else {
        heading_positions(s, n - 1)
    }
}

/// The sections of `s`: each heading up to the next heading or the end.
/// Text before the first heading belongs to no section.
pub open spec fn sections_of(s: Seq<char>) -> Seq<Seq<char>> {
    let p = heading_positions(s, s.len() as int);
    Seq::new(
        p.len(),
        |k: int|
            s.subrange(
                p[k],
                if k + 1 < p.len() {
                    p[k + 1]
                } else {
                    s.len() as int
                },
            ),
    )
}

/// The text up to the end of the line (`.+` after the match).
pub open spec fn rest_of_line(s: Seq<char>) -> Seq<char> {
    s.take(nl_index(s) as int)
}

/// The term of a section: the trimmed rest of its heading line, when that
/// is not empty.
pub open spec fn section_term(b: Seq<char>) -> Option<Seq<char>> {
    let l = rest_of_line(b.skip(4));
    if l.len() > 0 {
        Some(trim(l))
    } else {
        None
    }
}

/// `key` occurs at the start of a line at index `p`.
pub open spec fn key_at(b: Seq<char>, key: Seq<char>, p: int) -> bool {
    line_start(b, p) && occurs_at(b, key, p)
}

/// The first index at or after `p` where a line begins with `key`.
pub open spec fn key_line_from(b: Seq<char>, key: Seq<char>, p: int) -> Option<int>
    decreases b.len() - p,
{
    if p < 0 || p > b.len() {
        None
    } else if key_at(b, key, p) {
        Some(p)
    } else if p == b.len() {
        None
    } else {
        key_line_from(b, key, p + 1)
    }
}

/// A field `key: value` as the pattern `^key:\s*(.+)` reads it: after the
/// first line beginning with `key`, whitespace (newlines too) is skipped and
/// the rest of that line is the value, trimmed; empty when nothing but
/// whitespace follows, or when no line begins with `key`.
pub open spec fn field_text(b: Seq<char>, key: Seq<char>) -> Seq<char> {
    match key_line_from(b, key, 0) {
        Some(p) => {
            let r = b.skip(p + key.len());
            let w = lead_ws(r);
            if w < r.len() {
                trim(rest_of_line(r.skip(w as int)))
            } else {
                Seq::empty()
            }
        },
        None => Seq::empty(),
    }
}

/// The score written after a line beginning `Score:` at `p`, if the first
/// character after the whitespace that follows is a digit.
pub open spec fn score_at(b: Seq<char>, p: int) -> Option<nat> {
    if key_at(b, "Score:"@, p) {
        let r = b.skip(p + 6);
        let w = lead_ws(r);
        if w < r.len() && is_digit(r[w as int]) {
            let d = r.skip(w as int);
            Some(digits_value(d.take(digit_prefix_len(d) as int)))
        } else {
            None
        }
    } else {
        None
    }
}

/// The first score at or after `p` (`^Score:\s*(\d+)`).
pub open spec fn score_from(b: Seq<char>, p: int) -> Option<nat>
    decreases b.len() - p,
{
    if p < 0 || p > b.len() {
        None
    } else {
        match score_at(b, p) {
            Some(v) => Some(v),
            None => if p == b.len() {
                None
            } else {
                score_from(b, p + 1)
            },
        }
    }
}

/// The smaller of a found position and `bound`.
pub open spec fn found_min(found: Option<int>, bound: int) -> int {
    match found {
        Some(i) => if i < bound {
            i
        } else {
            bound
        },
        None => bound,
    }
}

/// The answer: the text after the first `My answer:` (less one newline)
/// up to the first of the field markers, trimmed; empty when there is no
/// `My answer:`.
pub open spec fn answer_text(b: Seq<char>) -> Seq<char> {
    match first_occurrence(b, "My answer:"@) {
        Some(s) => {
            let a0 = b.skip(s + 10);
            let a = if a0.len() > 0 && a0[0] == '\n' {
                a0.drop_first()
            } else {
                a0
            };
            let end = found_min(
                first_occurrence(a, "Score:"@),
                found_min(
                    first_occurrence(a, "Feedback:"@),
                    found_min(
                        first_occurrence(a, "Hint:"@),
                        found_min(first_occurrence(a, "Next review:"@), a.len() as int),
                    ),
                ),
            );
            trim(a.take(end))
        },
        None => Seq::empty(),
    }
}

/// A section as read: term, prompt type, prompt, answer, score, feedback
/// and hint.
pub type SectionView = (Seq<char>, Seq<char>, Seq<char>, Seq<char>, Option<nat>, Seq<char>, Seq<char>);

/// What is read from a section with a term.
pub open spec fn section_view(b: Seq<char>) -> Option<SectionView> {
    match section_term(b) {
        Some(t) => Some(
            (
                t,
                field_text(b, "Prompt Type:"@),
                field_text(b, "Prompt:"@),
                answer_text(b),
                score_from(b, 0),
                field_text(b, "Feedback:"@),
                field_text(b, "Hint:"@),
            ),
        ),
        None => None,
    }
}

/// The sections with a term, read, in order.
pub open spec fn read_sections(bs: Seq<Seq<char>>) -> Seq<SectionView>
    decreases bs.len(),
{
    if bs.len() == 0 {
        Seq::empty()
    } else {
        match section_view(bs.last()) {
            Some(v) => read_sections(bs.drop_last()).push(v),
            None => read_sections(bs.drop_last()),
        }
    }
}

/// Every score that is read fits in `u32`: reading a larger one as a `u32`
/// fails, and the reader does not go on past it.
pub open spec fn scores_fit(raw: Seq<char>) -> bool {
    forall|k: int|
        0 <= k < read_sections(sections_of(raw)).len() ==> match (#[trigger] read_sections(sections_of(raw))[k]).4 {
            Some(v) => v <= u32::MAX,
            None => true,
        }
}

// ---------------------------------------------------------------------------
// Reading, executably
// ---------------------------------------------------------------------------

fn key_line(b: &Vec<char>, key: &Vec<char>) -> (r: Option<usize>)
    ensures
        match r {
            Some(p) => key_line_from(b@, key@, 0) == Some(p as int) && p + key@.len() <= b@.len(),
            None => key_line_from(b@, key@, 0) is None,
        },
{
    let mut p: usize = 0;
    while p < b.len()
        invariant
            p <= b.len(),
            key_line_from(b@, key@, 0) == key_line_from(b@, key@, p as int),
        decreases b.len() - p,
    {
        if (p == 0 || b[p - 1] == '\n') && occurs_at_exec(b, key, p) {
            return Some(p);
        }
        p = p + 1;
    }
    if (p == 0 || b[p - 1] == '\n') && occurs_at_exec(b, key, p) {
        return Some(p);
    }
    None
}

fn line_rest(s: &Vec<char>, from: usize) -> (r: Vec<char>)
    requires
        from <= s@.len(),
    ensures
        r@ == rest_of_line(s@.skip(from as int)),
{
    let mut e = from;
    while e < s.len() && s[e] != '\n'
        invariant
            from <= e <= s@.len(),
            forall|k: int| from <= k < e ==> s@[k] != '\n',
        decreases s.len() - e,
    {
        e = e + 1;
    }
    proof {
        crate::text::lemma_nl_index(s@.skip(from as int), e - from);
    }
    let r = sub_chars(s, from, e);
    assert(r@ =~= rest_of_line(s@.skip(from as int)));
    r
}

fn skip_ws(s: &Vec<char>, from: usize) -> (w: usize)
    requires
        from <= s@.len(),
    ensures
        w == from + lead_ws(s@.skip(from as int)),
        w <= s@.len(),
{
    let mut i = from;
    while i < s.len() && crate::text::is_whitespace(s[i])
        invariant
            from <= i <= s@.len(),
            forall|k: int| from <= k < i ==> crate::text::is_ws(s@[k]),
        decreases s.len() - i,
    {
        i = i + 1;
    }
    proof {
        crate::text::lemma_lead_ws(s@.skip(from as int), i - from);
    }
    i
}

fn field(b: &Vec<char>, key: &str) -> (r: String)
    ensures
        r@ == field_text(b@, key@),
{
    let k = chars_of(key);
    let bl: usize = b.len();
    match key_line(b, &k) {
        Some(p) => {
            let start = p + k.len();
            let w = skip_ws(b, start);
            proof {
                assert(b@.skip(start as int).skip(lead_ws(b@.skip(start as int)) as int) =~= b@.skip(w as int));
            }
            if w < b.len() {
                let line = line_rest(b, w);
                string_of(&trim_chars(&line))
            } else {
                String::new()
            }
        },
        None => String::new(),
    }
}

fn score_at_exec(b: &Vec<char>, p: usize) -> (r: Option<u32>)
    requires
        p <= b@.len(),
        score_at(b@, p as int) matches Some(v) ==> v <= u32::MAX,
    ensures
        match r {
            Some(v) => score_at(b@, p as int) == Some(v as nat),
            None => score_at(b@, p as int) is None,
        },
{
    proof {
        reveal_strlit("Score:");
    }
    let key = chars_of("Score:");
    if !((p == 0 || b[p - 1] == '\n') && occurs_at_exec(b, &key, p)) {
        return None;
    }
    let bl: usize = b.len();
    let start = p + 6;
    let w = skip_ws(b, start);
    proof {
        assert(b@.skip(start as int).skip(lead_ws(b@.skip(start as int)) as int) =~= b@.skip(w as int));
    }
    if w < b.len() && '0' <= b[w] && b[w] <= '9' {
        let mut e = w;
        while e < b.len() && '0' <= b[e] && b[e] <= '9'
            invariant
                w <= e <= b@.len(),
                forall|k: int| w <= k < e ==> is_digit(#[trigger] b@[k]),
            decreases b.len() - e,
        {
            e = e + 1;
        }
        let digits = sub_chars(b, w, e);
        proof {
            let d = b@.skip(w as int);
            lemma_digit_run(d, e - w);
            assert(digits@ =~= d.take(digit_prefix_len(d) as int));
        }
        crate::cdt::scanner::parse_digits_u32_pub(&digits)
    } else {
        None
    }
}

pub(crate) proof fn lemma_digit_run(d: Seq<char>, n: int)
    requires
        0 <= n <= d.len(),
        forall|k: int| 0 <= k < n ==> is_digit(#[trigger] d[k]),
        n == d.len() || !is_digit(d[n]),
    ensures
        digit_prefix_len(d) == n,
    decreases n,
{
    if n > 0 {
        lemma_digit_run(d.drop_first(), n - 1);
    }
}

fn score(b: &Vec<char>) -> (r: Option<u32>)
    requires
        score_from(b@, 0) matches Some(v) ==> v <= u32::MAX,
    ensures
        match r {
            Some(v) => score_from(b@, 0) == Some(v as nat),
            None => score_from(b@, 0) is None,
        },
{
    let mut p: usize = 0;
    while p < b.len()
        invariant
            p <= b.len(),
            score_from(b@, 0) == score_from(b@, p as int),
            score_from(b@, 0) matches Some(v) ==> v <= u32::MAX,
        decreases b.len() - p,
    {
        match score_at_exec(b, p) {
            Some(v) => return Some(v),
            None => {},
        }
        p = p + 1;
    }
    score_at_exec(b, p)
}

fn first_marker(a: &Vec<char>, marker: &str, bound: usize) -> (r: usize)
    requires
        bound <= a@.len(),
    ensures
        r == found_min(first_occurrence(a@, marker@), bound as int),
{
    let m = chars_of(marker);
    match find_first(a, &m) {
        Some(i) => if i < bound {
            i
        } else {
            bound
        },
        None => bound,
    }
}

fn answer(b: &Vec<char>) -> (r: String)
    ensures
        r@ == answer_text(b@),
{
    proof {
        reveal_strlit("My answer:");
    }
    let marker = chars_of("My answer:");
    match find_first(b, &marker) {
        Some(s) => {
            assert(occurs_at(b@, marker@, s as int));
            let bl: usize = b.len();
            let a0 = sub_chars(b, s + 10, b.len());
            assert(a0@ =~= b@.skip(s + 10));
            let a = if a0.len() > 0 && a0[0] == '\n' {
                let t = sub_chars(&a0, 1, a0.len());
                assert(t@ =~= a0@.drop_first());
                t
            } else {
                a0
            };
            let e4 = first_marker(&a, "Next review:", a.len());
            let e3 = first_marker(&a, "Hint:", e4);
            let e2 = first_marker(&a, "Feedback:", e3);
            let e1 = first_marker(&a, "Score:", e2);
            let body = sub_chars(&a, 0, e1);
            assert(body@ =~= a@.take(e1 as int));
            string_of(&trim_chars(&body))
        },
        None => String::new(),
    }
}

pub(crate) proof fn lemma_heading_positions(s: Seq<char>, n: int)
    requires
        0 <= n <= s.len(),
    ensures
        forall|k: int| 0 <= k < heading_positions(s, n).len() ==> 0 <= #[trigger] heading_positions(s, n)[k] < n && heading_at(s, heading_positions(s, n)[k]),
    decreases n,
{
    if n > 0 {
        lemma_heading_positions(s, n - 1);
        let prev = heading_positions(s, n - 1);
        assert forall|k: int| 0 <= k < heading_positions(s, n).len() implies 0 <= #[trigger] heading_positions(s, n)[k] < n && heading_at(s, heading_positions(s, n)[k]) by {
            if k < prev.len() {
                assert(heading_positions(s, n)[k] == prev[k]);
            }
        }
    }
}

/// A heading is followed by at least its four characters before the next.
pub(crate) proof fn lemma_heading_gap(s: Seq<char>, a: int, b: int)
    requires
        heading_at(s, a),
        heading_at(s, b),
        a < b,
    ensures
        a + 4 <= b,
{
    reveal_strlit("### ");
    if b < a + 4 {
        assert(s.subrange(a, a + 4)[b - 1 - a] == s[b - 1]);
    }
}

fn heading_at_exec(s: &Vec<char>, i: usize) -> (r: bool)
    ensures
        r == heading_at(s@, i as int),
{
    let h = chars_of("### ");
    (i == 0 || (i <= s.len() && s[i - 1] == '\n')) && occurs_at_exec(s, &h, i)
}

pub(crate) fn headings(s: &Vec<char>) -> (r: Vec<usize>)
    ensures
        r@.map_values(|p: usize| p as int) == heading_positions(s@, s@.len() as int),
        forall|k: int| 0 <= k < r@.len() ==> #[trigger] r@[k] < s@.len(),
        forall|a: int, b: int| 0 <= a < b < r@.len() ==> r@[a] < r@[b],
{
    let mut out: Vec<usize> = Vec::new();
    let mut i: usize = 0;
    while i < s.len()
        invariant
            i <= s@.len(),
            out@.map_values(|p: usize| p as int) == heading_positions(s@, i as int),
            forall|k: int| 0 <= k < out@.len() ==> #[trigger] out@[k] < i,
            forall|a: int, b: int| 0 <= a < b < out@.len() ==> out@[a] < out@[b],
        decreases s.len() - i,
    {
        if heading_at_exec(s, i) {
            out.push(i);
        }
        i = i + 1;
        assert(out@.map_values(|p: usize| p as int) =~= heading_positions(s@, i as int));
    }
    out
}

/// The term of a section, read.
pub(crate) fn section_term_exec(b: &Vec<char>) -> (r: Option<Vec<char>>)
    requires
        b@.len() >= 4,
    ensures
        match r {
            Some(t) => section_term(b@) == Some(t@),
            None => section_term(b@) is None,
        },
{
    let l = line_rest(b, 4);
    if l.len() == 0 {
        None
    } else {
        Some(trim_chars(&l))
    }
}

fn read_section(b: &Vec<char>) -> (r: Option<ParsedBlock>)
    requires
        b@.len() >= 4,
        section_view(b@) matches Some(v) ==> (v.4 matches Some(x) ==> x <= u32::MAX),
    ensures
        match (r, section_view(b@)) {
            (Some(p), Some(v)) => block_view(p) == v,
            (None, None) => true,
            _ => false,
        },
{
    let l = line_rest(b, 4);
    if l.len() == 0 {
        return None;
    }
    let term = string_of(&trim_chars(&l));
    let s = score(b);
    Some(
        ParsedBlock {
            term,
            prompt_type: field(b, "Prompt Type:"),
            prompt: field(b, "Prompt:"),
            answer: answer(b),
            score: s,
            feedback: field(b, "Feedback:"),
            hint: field(b, "Hint:"),
        },
    )
}

spec fn block_view(p: ParsedBlock) -> SectionView {
    (
        p.term@,
        p.prompt_type@,
        p.prompt@,
        p.answer@,
        match p.score {
            Some(v) => Some(v as nat),
            None => None,
        },
        p.feedback@,
        p.hint@,
    )
}

/// Whether there is a score at `p`, and if so whether it fits in `u32`.
fn score_at_check(b: &Vec<char>, p: usize) -> (r: Option<bool>)
    requires
        p <= b@.len(),
    ensures
        match r {
            Some(f) => score_at(b@, p as int) matches Some(v) && f == (v <= u32::MAX),
            None => score_at(b@, p as int) is None,
        },
{
    proof {
        reveal_strlit("Score:");
    }
    let key = chars_of("Score:");
    if !((p == 0 || b[p - 1] == '\n') && occurs_at_exec(b, &key, p)) {
        return None;
    }
    assert(key@.len() == 6);
    assert(occurs_at(b@, key@, p as int));
    let bl: usize = b.len();
    let start = p + 6;
    let w = skip_ws(b, start);
    proof {
        assert(b@.skip(start as int).skip(lead_ws(b@.skip(start as int)) as int) =~= b@.skip(w as int));
    }
    if w < b.len() && '0' <= b[w] && b[w] <= '9' {
        let mut e = w;
        while e < b.len() && '0' <= b[e] && b[e] <= '9'
            invariant
                w <= e <= b@.len(),
                forall|k: int| w <= k < e ==> is_digit(#[trigger] b@[k]),
            decreases b.len() - e,
        {
            e = e + 1;
        }
        let digits = sub_chars(b, w, e);
        proof {
            let d = b@.skip(w as int);
            lemma_digit_run(d, e - w);
            assert(digits@ =~= d.take(digit_prefix_len(d) as int));
        }
        match crate::cdt::scanner::parse_digits_u32_pub(&digits) {
            Some(_) => Some(true),
            None => Some(false),
        }
    } else {
        None
    }
}

/// Whether the score of a section, if it has one, fits in `u32`.
fn score_fits(b: &Vec<char>) -> (r: bool)
    ensures
        r == (score_from(b@, 0) matches Some(v) ==> v <= u32::MAX),
{
    let mut p: usize = 0;
    while p < b.len()
        invariant
            p <= b.len(),
            score_from(b@, 0) == score_from(b@, p as int),
        decreases b.len() - p,
    {
        match score_at_check(b, p) {
            Some(f) => return f,
            None => {},
        }
        p = p + 1;
    }
    match score_at_check(b, p) {
        Some(f) => f,
        None => true,
    }
}

/// Every score read from the sections fits in `u32`.
pub open spec fn views_fit(vs: Seq<SectionView>) -> bool {
    forall|t: int| 0 <= t < vs.len() ==> match (#[trigger] vs[t]).4 {
        Some(v) => v <= u32::MAX,
        None => true,
    }
}

/// Whether every score that the readers would read from `raw` fits in
/// `u32`: the condition the readers need.
pub fn scores_fit_check(raw: &str) -> (r: bool)
    ensures
        r == scores_fit(raw@),
{
    let s = chars_of(raw);
    let pos = headings(&s);
    let ghost secs = sections_of(raw@);
    let ghost hp = heading_positions(raw@, raw@.len() as int);
    let mut k: usize = 0;
    proof {
        assert(pos@.len() == hp.len());
        assert(secs.len() == hp.len());
        lemma_heading_positions(raw@, raw@.len() as int);
        reveal_strlit("### ");
        assert(secs.take(0) =~= Seq::<Seq<char>>::empty());
    }
    while k < pos.len()
        invariant
            s@ == raw@,
            secs == sections_of(raw@),
            hp == heading_positions(raw@, raw@.len() as int),
            pos@.map_values(|p: usize| p as int) == hp,
            secs.len() == pos@.len(),
            forall|t: int| 0 <= t < pos@.len() ==> #[trigger] pos@[t] < s@.len(),
            forall|a: int, b: int| 0 <= a < b < pos@.len() ==> pos@[a] < pos@[b],
            forall|t: int| 0 <= t < hp.len() ==> heading_at(raw@, #[trigger] hp[t]),
            k <= pos@.len(),
            views_fit(read_sections(secs.take(k as int))),
        decreases pos.len() - k,
    {
        let start = pos[k];
        let end = if k + 1 < pos.len() { pos[k + 1] } else { s.len() };
        let block = sub_chars(&s, start, end);
        proof {
            assert(hp[k as int] == start as int);
            assert(block@ == secs[k as int]);
            reveal_strlit("### ");
            assert(heading_at(raw@, start as int));
            if k + 1 < pos@.len() {
                assert(hp[k + 1] == end as int);
                assert(heading_at(raw@, end as int));
                lemma_heading_gap(raw@, start as int, end as int);
            }
            assert(block@.len() >= 4);
            assert(secs.take(k + 1).drop_last() =~= secs.take(k as int));
            assert(secs.take(k + 1).last() == secs[k as int]);
        }
        let ghost prev = read_sections(secs.take(k as int));
        if section_term_exec(&block).is_some() {
            let f = score_fits(&block);
            let ghost v = section_view(block@)->0;
            assert(read_sections(secs.take(k + 1)) == prev.push(v));
            if !f {
                proof {
                    lemma_read_sections_prefix(secs, k + 1);
                    assert(secs.take(secs.len() as int) =~= secs);
                    let t = prev.len() as int;
                    assert(read_sections(secs.take(k + 1))[t] == read_sections(secs)[t]);
                }
                return false;
            }
            assert(views_fit(read_sections(secs.take(k + 1)))) by {
                assert forall|t: int| 0 <= t < prev.len() + 1 implies match (#[trigger] prev.push(v)[t]).4 {
                    Some(x) => x <= u32::MAX,
                    None => true,
                } by {
                    if t < prev.len() {
                        assert(prev.push(v)[t] == prev[t]);
                    }
                }
            }
        } else {
            assert(read_sections(secs.take(k + 1)) == prev);
        }
        k = k + 1;
    }
    assert(secs.take(k as int) =~= secs);
    true
}

fn parse_blocks(raw: &str) -> (r: Vec<ParsedBlock>)
    requires
        scores_fit(raw@),
    ensures
        r@.map_values(|p: ParsedBlock| block_view(p)) == read_sections(sections_of(raw@)),
{
    let s = chars_of(raw);
    let pos = headings(&s);
    let ghost secs = sections_of(raw@);
    let ghost hp = heading_positions(raw@, raw@.len() as int);
    let mut out: Vec<ParsedBlock> = Vec::new();
    let mut k: usize = 0;
    proof {
        assert(pos@.len() == hp.len());
        assert(secs.len() == hp.len());
        lemma_heading_positions(raw@, raw@.len() as int);
        reveal_strlit("### ");
    }
    while k < pos.len()
        invariant
            s@ == raw@,
            secs == sections_of(raw@),
            hp == heading_positions(raw@, raw@.len() as int),
            pos@.map_values(|p: usize| p as int) == hp,
            secs.len() == pos@.len(),
            forall|t: int| 0 <= t < pos@.len() ==> #[trigger] pos@[t] < s@.len(),
            forall|a: int, b: int| 0 <= a < b < pos@.len() ==> pos@[a] < pos@[b],
            forall|t: int| 0 <= t < hp.len() ==> heading_at(raw@, #[trigger] hp[t]),
            scores_fit(raw@),
            k <= pos@.len(),
            out@.map_values(|p: ParsedBlock| block_view(p)) == read_sections(secs.take(k as int)),
        decreases pos.len() - k,
    {
        let start = pos[k];
        let end = if k + 1 < pos.len() { pos[k + 1] } else { s.len() };
        let block = sub_chars(&s, start, end);
        proof {
            assert(hp[k as int] == start as int);
            assert(block@ == secs[k as int]);
            reveal_strlit("### ");
            assert(heading_at(raw@, start as int));
            assert(start + 4 <= s@.len());
            if k + 1 < pos@.len() {
                assert(hp[k + 1] == end as int);
                assert(heading_at(raw@, end as int));
                lemma_heading_gap(raw@, start as int, end as int);
            }
            assert(block@.len() >= 4);
            assert(secs.take(k + 1).drop_last() =~= secs.take(k as int));
            lemma_read_sections_prefix_fit(secs, k as int);
        }
        let ghost before = out@.map_values(|p: ParsedBlock| block_view(p));
        match read_section(&block) {
            Some(b) => {
                out.push(b);
                assert(out@.map_values(|p: ParsedBlock| block_view(p)) =~= read_sections(secs.take(k + 1)));
            },
            None => {
                assert(out@.map_values(|p: ParsedBlock| block_view(p)) =~= read_sections(secs.take(k + 1)));
            },
        }
        k = k + 1;
    }
    assert(secs.take(k as int) =~= secs);
    out
}

proof fn lemma_read_sections_prefix(bs: Seq<Seq<char>>, n: int)
    requires
        0 <= n <= bs.len(),
    ensures
        read_sections(bs.take(n)).len() <= read_sections(bs).len(),
        forall|k: int| 0 <= k < read_sections(bs.take(n)).len() ==> #[trigger] read_sections(bs.take(n))[k] == read_sections(bs)[k],
    decreases bs.len() - n,
{
    if n < bs.len() {
        lemma_read_sections_prefix(bs, n + 1);
        assert(bs.take(n + 1).drop_last() =~= bs.take(n));
        let a = read_sections(bs.take(n));
        let b = read_sections(bs.take(n + 1));
        assert forall|k: int| 0 <= k < a.len() implies #[trigger] a[k] == read_sections(bs)[k] by {
            assert(a[k] == b[k]);
        }
    } else {
        assert(bs.take(n) =~= bs);
    }
}

proof fn lemma_read_sections_prefix_fit(secs: Seq<Seq<char>>, k: int)
    requires
        0 <= k < secs.len(),
        forall|t: int| 0 <= t < read_sections(secs).len() ==> match (#[trigger] read_sections(secs)[t]).4 {
            Some(v) => v <= u32::MAX,
            None => true,
        },
    ensures
        section_view(secs[k]) matches Some(v) ==> (v.4 matches Some(x) ==> x <= u32::MAX),
{
    lemma_read_sections_prefix(secs, k + 1);
    assert(secs.take(k + 1).drop_last() =~= secs.take(k));
    assert(secs.take(k + 1).last() == secs[k]);
    if section_view(secs[k]) is Some {
        let t = read_sections(secs.take(k + 1)).len() - 1;
        assert(read_sections(secs.take(k + 1))[t] == read_sections(secs)[t]);
    }
}

// ---------------------------------------------------------------------------
// The readers
// ---------------------------------------------------------------------------

/// The item of a read section.
pub open spec fn answer_of(v: SectionView) -> (Seq<char>, Seq<char>, Seq<char>, Seq<char>) {
    (v.0, v.1, v.2, v.3)
}

/// An answer as plain values.
pub open spec fn review_answer_view(a: ReviewAnswer) -> (Seq<char>, Seq<char>, Seq<char>, Seq<char>) {
    (a.term@, a.prompt_type@, a.prompt@, a.answer@)
}

/// The items of a review session note: every section with a term, in order.
pub fn parse_review_session(raw: &str) -> (r: Vec<ReviewAnswer>)
    requires
        scores_fit(raw@),
    ensures
        r@.map_values(|a: ReviewAnswer| review_answer_view(a)) == read_sections(sections_of(raw@)).map_values(
            |v: SectionView| answer_of(v),
        ),
{
    let blocks = parse_blocks(raw);
    let ghost all = read_sections(sections_of(raw@));
    let mut out: Vec<ReviewAnswer> = Vec::new();
    let mut i: usize = 0;
    while i < blocks.len()
        invariant
            blocks@.map_values(|p: ParsedBlock| block_view(p)) == all,
            i <= blocks@.len(),
            out@.map_values(|a: ReviewAnswer| review_answer_view(a)) == all.take(i as int).map_values(
                |v: SectionView| answer_of(v),
            ),
        decreases blocks.len() - i,
    {
        let b = &blocks[i];
        assert(block_view(*b) == all[i as int]);
        let ghost before = out@.map_values(|a: ReviewAnswer| review_answer_view(a));
        proof {
            assert(all.take(i + 1).map_values(|v: SectionView| answer_of(v)) =~= all.take(i as int).map_values(
                |v: SectionView| answer_of(v),
            ).push(answer_of(all[i as int])));
        }
        out.push(
            ReviewAnswer {
                term: b.term.clone(),
                prompt_type: b.prompt_type.clone(),
                prompt: b.prompt.clone(),
                answer: b.answer.clone(),
            },
        );
        assert(out@.map_values(|a: ReviewAnswer| review_answer_view(a)) =~= before.push(answer_of(all[i as int])));
        i = i + 1;
    }
    assert(all.take(i as int) =~= all);
    out
}

/// The items with a non-empty answer, in order.
pub open spec fn answered(items: Seq<(Seq<char>, Seq<char>, Seq<char>, Seq<char>)>) -> Seq<(Seq<char>, Seq<char>, Seq<char>, Seq<char>)>
    decreases items.len(),
{
    if items.len() == 0 {
        Seq::empty()
    } else if items.last().3.len() > 0 {
        answered(items.drop_last()).push(items.last())
    } else {
        answered(items.drop_last())
    }
}

proof fn lemma_answered_keep(items: Seq<(Seq<char>, Seq<char>, Seq<char>, Seq<char>)>)
    ensures
        answered(items) == crate::text::keep_some(
            items,
            |it: (Seq<char>, Seq<char>, Seq<char>, Seq<char>)| if it.3.len() > 0 {
                Some(it)
            } else {
                None
            },
        ),
    decreases items.len(),
{
    if items.len() > 0 {
        lemma_answered_keep(items.drop_last());
    }
}

/// `f` maps each answered item of `raw` to the section it was read from:
/// every section read from the note whose answer is not empty is in the
/// result, once, in order, whatever the sections before it hold, and every
/// item of the result has an answer.
pub open spec fn answered_map_sections(raw: Seq<char>, f: Seq<int>) -> bool {
    let vs = read_sections(sections_of(raw)).map_values(|v: SectionView| answer_of(v));
    let r = answered(vs);
    &&& f.len() == r.len()
    &&& forall|m: int| 0 <= m < f.len() ==> 0 <= #[trigger] f[m] < vs.len() && r[m] == vs[f[m]] && r[m].3.len() > 0
    &&& forall|a: int, b: int| 0 <= a < b < f.len() ==> f[a] < f[b]
    &&& forall|k: int| 0 <= k < vs.len() && (#[trigger] vs[k]).3.len() > 0 ==> exists|m: int| 0 <= m < f.len() && f[m] == k
}

/// Every answered section of a note is read as an answer, in order, and no
/// unanswered section is.
pub proof fn answered_reviews_keep_each_answer(raw: Seq<char>)
    ensures
        exists|f: Seq<int>| #[trigger] answered_map_sections(raw, f),
{
    let vs = read_sections(sections_of(raw)).map_values(|v: SectionView| answer_of(v));
    let g = |it: (Seq<char>, Seq<char>, Seq<char>, Seq<char>)| if it.3.len() > 0 {
        Some(it)
    } else {
        None
    };
    lemma_answered_keep(vs);
    crate::text::lemma_keep_some(vs, g);
    let f = choose|f: Seq<int>| crate::text::kept_in_order(vs, g, crate::text::keep_some(vs, g), f);
    let r = answered(vs);
    assert forall|m: int| 0 <= m < f.len() implies 0 <= #[trigger] f[m] < vs.len() && r[m] == vs[f[m]] && r[m].3.len() > 0 by {
        assert(g(vs[f[m]]) == Some(r[m]));
    }
    assert forall|k: int| 0 <= k < vs.len() && (#[trigger] vs[k]).3.len() > 0 implies exists|m: int| 0 <= m < f.len() && f[m] == k by {
        assert(g(vs[k]) is Some);
    }
    assert(answered_map_sections(raw, f));
}

/// The items of a review session note that have an answer, in order.
pub fn parse_answered_reviews(raw: &str) -> (r: Vec<ReviewAnswer>)
    requires
        scores_fit(raw@),
    ensures
        r@.map_values(|a: ReviewAnswer| review_answer_view(a)) == answered(
            read_sections(sections_of(raw@)).map_values(|v: SectionView| answer_of(v)),
        ),
{
    let all = parse_review_session(raw);
    let ghost av = all@.map_values(|a: ReviewAnswer| review_answer_view(a));
    let mut out: Vec<ReviewAnswer> = Vec::new();
    let mut i: usize = 0;
    while i < all.len()
        invariant
            av == all@.map_values(|a: ReviewAnswer| review_answer_view(a)),
            i <= all@.len(),
            out@.map_values(|a: ReviewAnswer| review_answer_view(a)) == answered(av.take(i as int)),
        decreases all.len() - i,
    {
        let a = &all[i];
        proof {
            assert(av[i as int] == review_answer_view(*a));
            assert(av.take(i + 1).drop_last() =~= av.take(i as int));
        }
        let ghost before = out@.map_values(|a: ReviewAnswer| review_answer_view(a));
        if !a.answer.as_str().is_empty() {
            out.push(
                ReviewAnswer {
                    term: a.term.clone(),
                    prompt_type: a.prompt_type.clone(),
                    prompt: a.prompt.clone(),
                    answer: a.answer.clone(),
                },
            );
            assert(out@.map_values(|a: ReviewAnswer| review_answer_view(a)) =~= answered(av.take(i + 1)));
        } else {
            assert(out@.map_values(|a: ReviewAnswer| review_answer_view(a)) =~= answered(av.take(i + 1)));
        }
        i = i + 1;
    }
    assert(av.take(i as int) =~= av);
    out
}

/// The graded items among the read sections, in order.
pub open spec fn graded(vs: Seq<SectionView>) -> Seq<(Seq<char>, nat, Seq<char>, Seq<char>)>
    decreases vs.len(),
{
    if vs.len() == 0 {
        Seq::empty()
    } else {
        let v = vs.last();
        match v.4 {
            Some(s) => graded(vs.drop_last()).push((v.0, s, v.5, v.6)),
            None => graded(vs.drop_last()),
        }
    }
}

/// A graded item as plain values.
pub open spec fn graded_view(g: GradedItem) -> (Seq<char>, nat, Seq<char>, Seq<char>) {
    (g.term@, g.score as nat, g.feedback@, g.hint@)
}

/// The items of a review session note that carry a score, with their
/// feedback and hint.
pub fn parse_graded_items(raw: &str) -> (r: Vec<GradedItem>)
    requires
        scores_fit(raw@),
    ensures
        r@.map_values(|g: GradedItem| graded_view(g)) == graded(read_sections(sections_of(raw@))),
{
    let blocks = parse_blocks(raw);
    let ghost all = read_sections(sections_of(raw@));
    let mut out: Vec<GradedItem> = Vec::new();
    let mut i: usize = 0;
    while i < blocks.len()
        invariant
            blocks@.map_values(|p: ParsedBlock| block_view(p)) == all,
            i <= blocks@.len(),
            out@.map_values(|g: GradedItem| graded_view(g)) == graded(all.take(i as int)),
        decreases blocks.len() - i,
    {
        let b = &blocks[i];
        assert(block_view(*b) == all[i as int]);
        assert(all.take(i + 1).drop_last() =~= all.take(i as int));
        let ghost before = out@.map_values(|g: GradedItem| graded_view(g));
        match b.score {
            Some(s) => {
                out.push(
                    GradedItem {
                        term: b.term.clone(),
                        score: s,
                        feedback: b.feedback.clone(),
                        hint: b.hint.clone(),
                    },
                );
                assert(out@.map_values(|g: GradedItem| graded_view(g)) =~= graded(all.take(i + 1)));
            },
            None => {
                assert(out@.map_values(|g: GradedItem| graded_view(g)) =~= graded(all.take(i + 1)));
            },
        }
        i = i + 1;
    }
    assert(all.take(i as int) =~= all);
    out
}

} // verus!
