//! Writing review session notes: the note for a set of items, and the
//! filling-in of grades under each graded item.

use vstd::prelude::*;
use crate::learn::types::{Grade, ReviewItem};
use crate::learn::review::{heading_positions, key_at, line_start, section_term, sections_of};
use crate::text::{
    chars_of, decimal, is_ws, lead_ws, occurs_at, occurs_at_exec, push_all, push_decimal, push_str,
    string_of, sub_chars, trim_chars,
};

verus! {

// ---------------------------------------------------------------------------
// A new session note
// ---------------------------------------------------------------------------

/// The note for a review session on `date`, generated at `now`: a
/// frontmatter block, a title, and for each item a section with its prompt
/// and empty answer and grade fields.
pub open spec fn session_text(items: Seq<ReviewItem>, date: Seq<char>, now: Seq<char>) -> Seq<char>
    decreases items.len(),
{
    if items.len() == 0 {
        "---\ntype: review-session\ndate: "@ + date + "\ngenerated_at: "@ + now + "\n---\n\n# Daily Recall — "@
            + date + "\n"@
    } else {
        let it = items.last();
        session_text(items.drop_last(), date, now) + "\n### "@ + it.concept_term@ + "\nPrompt Type: "@
            + it.prompt_type@ + "\nPrompt: "@ + it.prompt@
            + "\n\nMy answer:\n\n\nScore:\nFeedback:\nHint:\nNext review:\n"@
    }
}

/// The note for a review session, with `now` as its generation time.
pub fn render_review_session_at(items: &[ReviewItem], date: &str, now: &str) -> (r: String)
    ensures
        r@ == session_text(items@, date@, now@),
{
    let d = chars_of(date);
    let n = chars_of(now);
    let mut out: Vec<char> = Vec::new();
    push_str(&mut out, "---\ntype: review-session\ndate: ");
    push_all(&mut out, &d);
    push_str(&mut out, "\ngenerated_at: ");
    push_all(&mut out, &n);
    push_str(&mut out, "\n---\n\n# Daily Recall — ");
    push_all(&mut out, &d);
    push_str(&mut out, "\n");
    let mut i: usize = 0;
    assert(items@.take(0) =~= Seq::<ReviewItem>::empty());
    while i < items.len()
        invariant
            d@ == date@,
            n@ == now@,
            i <= items@.len(),
            out@ == session_text(items@.take(i as int), date@, now@),
        decreases items.len() - i,
    {
        assert(items@.take(i + 1).drop_last() =~= items@.take(i as int));
        let it = &items[i];
        push_str(&mut out, "\n### ");
        push_all(&mut out, &chars_of(it.concept_term.as_str()));
        push_str(&mut out, "\nPrompt Type: ");
        push_all(&mut out, &chars_of(it.prompt_type.as_str()));
        push_str(&mut out, "\nPrompt: ");
        push_all(&mut out, &chars_of(it.prompt.as_str()));
        push_str(&mut out, "\n\nMy answer:\n\n\nScore:\nFeedback:\nHint:\nNext review:\n");
        i = i + 1;
    }
    assert(items@.take(i as int) =~= items@);
    string_of(&out)
}

/// The current time in RFC 3339 (`chrono::Utc::now().to_rfc3339()`).
/// Nothing is promised of the text: it is the clock's.
#[verifier::external_body]
fn utc_now_rfc3339() -> (r: String) {
    chrono::Utc::now().to_rfc3339()
}

/// The note for a review session on `date`, generated now.
pub fn render_review_session(items: &[ReviewItem], date: &str) -> (r: String)
    ensures
        exists|now: Seq<char>| r@ == #[trigger] session_text(items@, date@, now),
{
    let now = utc_now_rfc3339();
    render_review_session_at(items, date, now.as_str())
}

// ---------------------------------------------------------------------------
// Replacement text
// ---------------------------------------------------------------------------

/// The characters of a capture name written without braces.
pub open spec fn cap_letter(c: char) -> bool {
    ('0' <= c <= '9') || ('a' <= c <= 'z') || ('A' <= c <= 'Z') || c == '_'
}

/// How many capture-name characters begin `s`.
pub open spec fn cap_letters(s: Seq<char>) -> nat
    decreases s.len(),
{
    if s.len() > 0 && cap_letter(s[0]) {
        1 + cap_letters(s.drop_first())
    } else {
        0
    }
}

/// The index of the first `}` in `s`, if any.
pub open spec fn close_brace(s: Seq<char>) -> Option<int>
    decreases s.len(),
{
    if s.len() == 0 {
        None
    } else if s[0] == '}' {
        Some(0)
    } else {
        match close_brace(s.drop_first()) {
            Some(k) => Some(k + 1),
            None => None,
        }
    }
}

/// A capture reference names group 0, the whole match: an optional `+`
/// and one or more `0`.
pub open spec fn names_group_zero(c: Seq<char>) -> bool {
    all_zeros(crate::cdt::clean::unsigned_digits(c))
}

/// `d` is one or more `0`.
pub open spec fn all_zeros(d: Seq<char>) -> bool {
    d.len() > 0 && forall|i: int| 0 <= i < d.len() ==> d[i] == '0'
}

/// The text of a capture reference for a pattern without groups: the whole
/// match for group 0, nothing for any other.
pub open spec fn group_text(c: Seq<char>, whole: Seq<char>) -> Seq<char> {
    if names_group_zero(c) {
        whole
    } else {
        Seq::empty()
    }
}

/// A replacement string with its capture references expanded, as `Regex::replace`
/// does for a pattern without groups: `$$` is a `$`, `$name` and `${name}`
/// stand for the group so named, and any other `$` is itself.
pub open spec fn expand(rep: Seq<char>, whole: Seq<char>) -> Seq<char>
    decreases rep.len(),
{
    if rep.len() == 0 {
        Seq::empty()
    } else if rep[0] != '$' {
        seq![rep[0]] + expand(rep.drop_first(), whole)
    } else if rep.len() >= 2 && rep[1] == '$' {
        seq!['$'] + expand(rep.skip(2), whole)
    } else if rep.len() >= 2 && rep[1] == '{' {
        match close_brace(rep.skip(2)) {
            Some(j) => {
                proof {
                    lemma_close_brace_range(rep.skip(2));
                }
                group_text(rep.subrange(2, 2 + j), whole) + expand(rep.skip(3 + j), whole)
            },
            None => seq!['$'] + expand(rep.drop_first(), whole),
        }
    } else {
        let n = cap_letters(rep.drop_first());
        if n == 0 {
            seq!['$'] + expand(rep.drop_first(), whole)
        } else {
            proof {
                lemma_cap_letters_range(rep.drop_first());
            }
            group_text(rep.subrange(1, 1 + n as int), whole) + expand(rep.skip(1 + n as int), whole)
        }
    }
}

pub proof fn lemma_close_brace_range(s: Seq<char>)
    ensures
        close_brace(s) matches Some(j) ==> 0 <= j < s.len(),
    decreases s.len(),
{
    if s.len() > 0 {
        lemma_close_brace_range(s.drop_first());
    }
}

pub proof fn lemma_cap_letters_range(s: Seq<char>)
    ensures
        cap_letters(s) <= s.len(),
    decreases s.len(),
{
    if s.len() > 0 {
        lemma_cap_letters_range(s.drop_first());
    }
}

fn names_group_zero_exec(c: &Vec<char>) -> (r: bool)
    ensures
        r == names_group_zero(c@),
{
    let start: usize = if c.len() > 0 && c[0] == '+' { 1 } else { 0 };
    let d = sub_chars(c, start, c.len());
    assert(d@ =~= crate::cdt::clean::unsigned_digits(c@));
    if d.len() == 0 {
        return false;
    }
    let mut i: usize = 0;
    while i < d.len()
        invariant
            d@ == crate::cdt::clean::unsigned_digits(c@),
            d@.len() > 0,
            i <= d@.len(),
            forall|k: int| 0 <= k < i ==> d@[k] == '0',
        decreases d.len() - i,
    {
        if d[i] != '0' {
            assert(!all_zeros(d@));
            return false;
        }
        i = i + 1;
    }
    true
}

proof fn lemma_cap_letters(s: Seq<char>, n: int)
    requires
        0 <= n <= s.len(),
        forall|k: int| 0 <= k < n ==> cap_letter(#[trigger] s[k]),
        n == s.len() || !cap_letter(s[n]),
    ensures
        cap_letters(s) == n,
    decreases n,
{
    if n > 0 {
        lemma_cap_letters(s.drop_first(), n - 1);
    }
}

proof fn lemma_close_brace(s: Seq<char>, n: int)
    requires
        0 <= n <= s.len(),
        forall|k: int| 0 <= k < n ==> s[k] != '}',
        n == s.len() || s[n] == '}',
    ensures
        close_brace(s) == if n < s.len() {
            Some(n)
        } else {
            None::<int>
        },
    decreases n,
{
    if n > 0 {
        lemma_close_brace(s.drop_first(), n - 1);
    }
}

/// Expands the capture references of `rep` for a match `whole` of a pattern
/// without groups.
fn expand_exec(rep: &Vec<char>, whole: &Vec<char>) -> (r: Vec<char>)
    ensures
        r@ == expand(rep@, whole@),
{
    let mut out: Vec<char> = Vec::new();
    let mut i: usize = 0;
    let n: usize = rep.len();
    assert(rep@.skip(0) =~= rep@);
    while i < n
        invariant
            n == rep@.len(),
            i <= n,
            out@ + expand(rep@.skip(i as int), whole@) == expand(rep@, whole@),
        decreases n - i,
    {
        let ghost r = rep@.skip(i as int);
        let ghost before = out@;
        if rep[i] != '$' {
            out.push(rep[i]);
            proof {
                assert(r.drop_first() =~= rep@.skip(i + 1));
                assert(before + expand(r, whole@) =~= out@ + expand(rep@.skip(i + 1), whole@));
            }
            i = i + 1;
        } else if i + 1 < n && rep[i + 1] == '$' {
            out.push('$');
            proof {
                assert(r.skip(2) =~= rep@.skip(i + 2));
                assert(before + expand(r, whole@) =~= out@ + expand(rep@.skip(i + 2), whole@));
            }
            i = i + 2;
        } else if i + 1 < n && rep[i + 1] == '{' {
            let mut j = i + 2;
            while j < n && rep[j] != '}'
                invariant
                    n == rep@.len(),
                    i + 2 <= j <= n,
                    forall|k: int| i + 2 <= k < j ==> rep@[k] != '}',
                decreases n - j,
            {
                j = j + 1;
            }
            proof {
                lemma_close_brace(r.skip(2), j - i - 2);
                assert(r.skip(2) =~= rep@.skip(i + 2));
            }
            if j < n {
                let name = sub_chars(rep, i + 2, j);
                if names_group_zero_exec(&name) {
                    push_all(&mut out, whole);
                }
                proof {
                    assert(name@ =~= r.subrange(2, 2 + (j - i - 2)));
                    assert(r.skip(3 + (j - i - 2)) =~= rep@.skip(j + 1));
                    assert(before + expand(r, whole@) =~= out@ + expand(rep@.skip(j + 1), whole@));
                }
                i = j + 1;
            } else {
                out.push('$');
                proof {
                    assert(r.drop_first() =~= rep@.skip(i + 1));
                    assert(before + expand(r, whole@) =~= out@ + expand(rep@.skip(i + 1), whole@));
                }
                i = i + 1;
            }
        } else {
            let mut j = i + 1;
            while j < n && (('0' <= rep[j] && rep[j] <= '9') || ('a' <= rep[j] && rep[j] <= 'z') || ('A' <= rep[j]
                && rep[j] <= 'Z') || rep[j] == '_')
                invariant
                    n == rep@.len(),
                    i + 1 <= j <= n,
                    forall|k: int| i + 1 <= k < j ==> cap_letter(#[trigger] rep@[k]),
                decreases n - j,
            {
                j = j + 1;
            }
            proof {
                assert(r.drop_first() =~= rep@.skip(i + 1));
                lemma_cap_letters(r.drop_first(), j - i - 1);
            }
            if j == i + 1 {
                out.push('$');
                proof {
                    assert(before + expand(r, whole@) =~= out@ + expand(rep@.skip(i + 1), whole@));
                }
                i = i + 1;
            } else {
                let name = sub_chars(rep, i + 1, j);
                if names_group_zero_exec(&name) {
                    push_all(&mut out, whole);
                }
                proof {
                    assert(name@ =~= r.subrange(1, 1 + (j - i - 1)));
                    assert(r.skip(1 + (j - i - 1)) =~= rep@.skip(j as int));
                    assert(before + expand(r, whole@) =~= out@ + expand(rep@.skip(j as int), whole@));
                }
                i = j;
            }
        }
    }
    assert(out@ + expand(rep@.skip(i as int), whole@) =~= out@);
    out
}

// ---------------------------------------------------------------------------
// Blank fields
// ---------------------------------------------------------------------------

/// The last end of line (a `\n`, or the end of `r`) at or before `q`.
pub open spec fn last_eol_upto(r: Seq<char>, q: int) -> Option<int>
    decreases q + 1,
{
    if q < 0 {
        None
    } else if q == r.len() || (q < r.len() && r[q] == '\n') {
        Some(q)
    } else {
        last_eol_upto(r, q - 1)
    }
}

/// How much of `r` the pattern `\s*$` takes: the whitespace after a field
/// name up to its last end of line, when the whitespace reaches one.
pub open spec fn blank_end(r: Seq<char>) -> Option<int> {
    last_eol_upto(r, lead_ws(r) as int)
}

/// A blank field `key`, `^key\s*$`, matches at `p`.
pub open spec fn blank_at(s: Seq<char>, key: Seq<char>, p: int) -> bool {
    key_at(s, key, p) && blank_end(s.skip(p + key.len())) is Some
}

/// The first index at or after `p` where a blank field `key` matches.
pub open spec fn blank_from(s: Seq<char>, key: Seq<char>, p: int) -> Option<int>
    decreases s.len() - p,
{
    if p < 0 || p > s.len() {
        None
    } else if blank_at(s, key, p) {
        Some(p)
    } else if p == s.len() {
        None
    } else {
        blank_from(s, key, p + 1)
    }
}

/// `s` with its first blank field `key` replaced by `rep`, expanded.
pub open spec fn replace_blank(s: Seq<char>, key: Seq<char>, rep: Seq<char>) -> Seq<char> {
    match blank_from(s, key, 0) {
        Some(p) => {
            let e = p + key.len() + blank_end(s.skip(p + key.len()))->0;
            s.take(p) + expand(rep, s.subrange(p, e)) + s.skip(e)
        },
        None => s,
    }
}

fn blank_end_exec(s: &Vec<char>, from: usize) -> (r: Option<usize>)
    requires
        from <= s@.len(),
    ensures
        match r {
            Some(q) => blank_end(s@.skip(from as int)) == Some(q as int) && from + q <= s@.len(),
            None => blank_end(s@.skip(from as int)) is None,
        },
{
    let ghost r = s@.skip(from as int);
    let mut w = from;
    while w < s.len() && crate::text::is_whitespace(s[w])
        invariant
            from <= w <= s@.len(),
            forall|k: int| from <= k < w ==> is_ws(s@[k]),
        decreases s.len() - w,
    {
        w = w + 1;
    }
    proof {
        crate::text::lemma_lead_ws(r, w - from);
    }
    // Walk back from the end of the whitespace to the last end of line.
    let mut q = w;
    while q > from && !(q == s.len() || s[q] == '\n')
        invariant
            r == s@.skip(from as int),
            from <= q <= w,
            w <= s@.len(),
            last_eol_upto(r, (w - from) as int) == last_eol_upto(r, q - from),
        decreases q,
    {
        assert(q - from == r.len() <==> q == s@.len());
        assert(q < s@.len() ==> r[q - from] == s@[q as int]);
        q = q - 1;
    }
    assert(q - from == r.len() <==> q == s@.len());
    assert(q < s@.len() ==> r[q - from] == s@[q as int]);
    if q == s.len() || s[q] == '\n' {
        Some(q - from)
    } else {
        assert(q == from);
        assert(last_eol_upto(r, -1) is None);
        None
    }
}

fn blank_field(s: &Vec<char>, key: &Vec<char>) -> (r: Option<(usize, usize)>)
    ensures
        match r {
            Some((p, e)) => blank_from(s@, key@, 0) == Some(p as int) && e == p + key@.len() + blank_end(
                s@.skip(p + key@.len()),
            )->0 && p <= e <= s@.len(),
            None => blank_from(s@, key@, 0) is None,
        },
{
    let n: usize = s.len();
    let mut p: usize = 0;
    while p <= n
        invariant
            n == s@.len(),
            p <= n + 1,
            blank_from(s@, key@, 0) == blank_from(s@, key@, p as int),
        decreases n + 1 - p,
    {
        if (p == 0 || s[p - 1] == '\n') && occurs_at_exec(s, key, p) {
            let start = p + key.len();
            match blank_end_exec(s, start) {
                Some(q) => return Some((p, start + q)),
                None => {},
            }
        }
        if p == n {
            return None;
        }
        p = p + 1;
    }
    None
}

fn replace_blank_exec(s: &Vec<char>, key: &str, rep: &Vec<char>) -> (r: Vec<char>)
    ensures
        r@ == replace_blank(s@, key@, rep@),
{
    let k = chars_of(key);
    match blank_field(s, &k) {
        Some((p, e)) => {
            let whole = sub_chars(s, p, e);
            let mut out = sub_chars(s, 0, p);
            let x = expand_exec(rep, &whole);
            push_all(&mut out, &x);
            let tail = sub_chars(s, e, s.len());
            push_all(&mut out, &tail);
            assert(out@ =~= replace_blank(s@, key@, rep@));
            out
        },
        None => s.clone(),
    }
}

// ---------------------------------------------------------------------------
// Filling in grades
// ---------------------------------------------------------------------------

/// The file stem of a path (`Path::file_stem`, empty when there is none).
pub uninterp spec fn file_stem_text(path: Seq<char>) -> Seq<char>;

/// Calls `Path::new(path).file_stem()`, giving an empty text when there is
/// none; the result is named by `file_stem_text`.
#[verifier::external_body]
pub(crate) fn path_file_stem(path: &str) -> (r: String)
    ensures
        r@ == file_stem_text(path@),
{
    std::path::Path::new(path).file_stem().unwrap_or_default().to_string_lossy().to_string()
}

/// The index of the last grade whose concept file is named `term`.
pub open spec fn grade_index(grades: Seq<Grade>, term: Seq<char>) -> Option<int>
    decreases grades.len(),
{
    if grades.len() == 0 {
        None
    } else if file_stem_text(grades.last().concept_path@) == term {
        Some(grades.len() - 1)
    } else {
        grade_index(grades.drop_last(), term)
    }
}

/// A section with the blank grade fields filled from grade `g`.
pub open spec fn graded_section(sec: Seq<char>, g: Grade) -> Seq<char> {
    let s1 = replace_blank(sec, "Score:"@, "Score: "@ + decimal(g.score as nat));
    let s2 = replace_blank(s1, "Feedback:"@, "Feedback: "@ + g.feedback@);
    let s3 = replace_blank(s2, "Hint:"@, "Hint: "@ + g.hint@);
    replace_blank(s3, "Next review:"@, "Next review: "@ + decimal(g.next_review_days as nat) + " day(s)"@)
}

/// A section after filling: graded when its term has a grade, as it was
/// otherwise.
pub open spec fn filled_section(sec: Seq<char>, grades: Seq<Grade>) -> Seq<char> {
    match section_term(sec) {
        Some(t) => match grade_index(grades, t) {
            Some(g) => graded_section(sec, grades[g]),
            None => sec,
        },
        None => sec,
    }
}

/// The sections filled and put back together.
pub open spec fn filled_sections(secs: Seq<Seq<char>>, grades: Seq<Grade>) -> Seq<char>
    decreases secs.len(),
{
    if secs.len() == 0 {
        Seq::empty()
    } else {
        filled_sections(secs.drop_last(), grades) + filled_section(secs.last(), grades)
    }
}

/// A review note with its grades filled in: the text before the first
/// section as it was, then every section, filled where graded. A note
/// without sections is unchanged.
pub open spec fn fill_grades_spec(content: Seq<char>, grades: Seq<Grade>) -> Seq<char> {
    let p = heading_positions(content, content.len() as int);
    if p.len() == 0 {
        content
    } else {
        content.take(p[0]) + filled_sections(sections_of(content), grades)
    }
}

fn grade_lookup(stems: &Vec<Vec<char>>, grades: &[Grade], term: &Vec<char>) -> (r: Option<usize>)
    requires
        stems@.len() == grades@.len(),
        forall|k: int| 0 <= k < stems@.len() ==> (#[trigger] stems@[k])@ == file_stem_text(grades@[k].concept_path@),
    ensures
        match r {
            Some(g) => grade_index(grades@, term@) == Some(g as int) && g < grades@.len(),
            None => grade_index(grades@, term@) is None,
        },
{
    let mut k: usize = stems.len();
    assert(grades@.take(k as int) =~= grades@);
    while k > 0
        invariant
            k <= stems@.len(),
            stems@.len() == grades@.len(),
            forall|t: int| 0 <= t < stems@.len() ==> (#[trigger] stems@[t])@ == file_stem_text(grades@[t].concept_path@),
            grade_index(grades@, term@) == grade_index(grades@.take(k as int), term@),
        decreases k,
    {
        assert(grades@.take(k as int).drop_last() =~= grades@.take(k - 1));
        assert(grades@.take(k as int).last() == grades@[k - 1]);
        if crate::text::chars_eq(&stems[k - 1], term) {
            return Some(k - 1);
        }
        k = k - 1;
    }
    None
}

/// A review note with the grades filled into the blank `Score:`,
/// `Feedback:`, `Hint:` and `Next review:` fields of each graded section; a
/// section is graded by the last grade whose concept file is named like
/// the section's term.
pub fn fill_grades_text(content: &str, grades: &[Grade]) -> (r: String)
    ensures
        r@ == fill_grades_spec(content@, grades@),
{
    let s = chars_of(content);
    let mut stems: Vec<Vec<char>> = Vec::new();
    let mut g: usize = 0;
    while g < grades.len()
        invariant
            g <= grades@.len(),
            stems@.len() == g,
            forall|k: int| 0 <= k < g ==> (#[trigger] stems@[k])@ == file_stem_text(grades@[k].concept_path@),
        decreases grades.len() - g,
    {
        stems.push(chars_of(path_file_stem(grades[g].concept_path.as_str()).as_str()));
        g = g + 1;
    }
    let pos = crate::learn::review::headings(&s);
    if pos.len() == 0 {
        return String::from_str(content);
    }
    let ghost secs = sections_of(content@);
    let ghost hp = heading_positions(content@, content@.len() as int);
    let mut out = sub_chars(&s, 0, pos[0]);
    let ghost prefix = out@;
    let mut k: usize = 0;
    assert(secs.take(0) =~= Seq::<Seq<char>>::empty());
    proof {
        crate::learn::review::lemma_heading_positions(content@, content@.len() as int);
    }
    while k < pos.len()
        invariant
            s@ == content@,
            secs == sections_of(content@),
            hp == heading_positions(content@, content@.len() as int),
            pos@.map_values(|p: usize| p as int) == hp,
            secs.len() == pos@.len(),
            forall|t: int| 0 <= t < pos@.len() ==> #[trigger] pos@[t] < s@.len(),
            forall|a: int, b: int| 0 <= a < b < pos@.len() ==> pos@[a] < pos@[b],
            forall|t: int| 0 <= t < hp.len() ==> crate::learn::review::heading_at(content@, #[trigger] hp[t]),
            stems@.len() == grades@.len(),
            forall|t: int| 0 <= t < stems@.len() ==> (#[trigger] stems@[t])@ == file_stem_text(grades@[t].concept_path@),
            k <= pos@.len(),
            out@ == prefix + filled_sections(secs.take(k as int), grades@),
        decreases pos.len() - k,
    {
        let start = pos[k];
        let end = if k + 1 < pos.len() { pos[k + 1] } else { s.len() };
        let sec = sub_chars(&s, start, end);
        proof {
            assert(hp[k as int] == start as int);
            assert(sec@ == secs[k as int]);
            assert(secs.take(k + 1).drop_last() =~= secs.take(k as int));
            reveal_strlit("### ");
            assert(crate::learn::review::heading_at(content@, start as int));
            if k + 1 < pos@.len() {
                assert(hp[k + 1] == end as int);
                crate::learn::review::lemma_heading_gap(content@, start as int, end as int);
            }
            assert(sec@.len() >= 4);
        }
        let filled = fill_section_exec(&sec, &stems, grades);
        push_all(&mut out, &filled);
        k = k + 1;
    }
    assert(secs.take(k as int) =~= secs);
    string_of(&out)
}

fn fill_section_exec(sec: &Vec<char>, stems: &Vec<Vec<char>>, grades: &[Grade]) -> (r: Vec<char>)
    requires
        sec@.len() >= 4,
        stems@.len() == grades@.len(),
        forall|t: int| 0 <= t < stems@.len() ==> (#[trigger] stems@[t])@ == file_stem_text(grades@[t].concept_path@),
    ensures
        r@ == filled_section(sec@, grades@),
{
    let term = crate::learn::review::section_term_exec(sec);
    match term {
        Some(t) => match grade_lookup(stems, grades, &t) {
            Some(gi) => {
                let gr = &grades[gi];
                let mut rep1: Vec<char> = Vec::new();
                push_str(&mut rep1, "Score: ");
                push_decimal(&mut rep1, gr.score as u64);
                let s1 = replace_blank_exec(sec, "Score:", &rep1);
                let mut rep2: Vec<char> = Vec::new();
                push_str(&mut rep2, "Feedback: ");
                push_all(&mut rep2, &chars_of(gr.feedback.as_str()));
                let s2 = replace_blank_exec(&s1, "Feedback:", &rep2);
                let mut rep3: Vec<char> = Vec::new();
                push_str(&mut rep3, "Hint: ");
                push_all(&mut rep3, &chars_of(gr.hint.as_str()));
                let s3 = replace_blank_exec(&s2, "Hint:", &rep3);
                let mut rep4: Vec<char> = Vec::new();
                push_str(&mut rep4, "Next review: ");
                push_decimal(&mut rep4, gr.next_review_days as u64);
                push_str(&mut rep4, " day(s)");
                replace_blank_exec(&s3, "Next review:", &rep4)
            },
            None => sec.clone(),
        },
        None => sec.clone(),
    }
}

} // verus!
