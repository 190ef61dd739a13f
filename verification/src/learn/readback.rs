//! What reading gives back of a written review session.

use vstd::prelude::*;
use crate::learn::review::{
    heading_positions, read_sections, sections_of, answer_text, field_text, found_min, key_at, key_line_from, line_start, rest_of_line, score_at,
    score_from, section_term, section_view,
};
use crate::learn::types::{Grade, ReviewItem};
use crate::learn::session::session_text;
use crate::text::{
    contains, first_occurrence, is_first_occurrence, is_ws, lead_ws, lemma_first_occurrence,
    lemma_lead_ws, lemma_nl_index, nl_index, occurs_at, trail_ws, trim,
};

verus! {

/// `s` holds no newline.
pub open spec fn one_line(s: Seq<char>) -> bool {
    forall|i: int| 0 <= i < s.len() ==> s[i] != '\n'
}

/// `s` holds a character other than whitespace.
pub open spec fn has_text(s: Seq<char>) -> bool {
    exists|i: int| 0 <= i < s.len() && !is_ws(s[i])
}

/// The part of an item's section after its prompt.
pub open spec fn section_tail() -> Seq<char> {
    "\n\nMy answer:\n\n\nScore:\nFeedback:\nHint:\nNext review:\n"@
}

/// The section that a session note holds for `it`.
pub open spec fn item_section(it: ReviewItem) -> Seq<char> {
    "### "@ + it.concept_term@ + "\nPrompt Type: "@ + it.prompt_type@ + "\nPrompt: "@ + it.prompt@
        + section_tail()
}

/// An item that a session note can hold so that it is read back: term,
/// prompt type and prompt on one line each, the term not empty, the prompt
/// type and the prompt not blank, and none of them holding `My answer:`.
pub open spec fn readable_item(it: ReviewItem) -> bool {
    &&& one_line(it.concept_term@)
    &&& it.concept_term@.len() > 0
    &&& one_line(it.prompt_type@)
    &&& has_text(it.prompt_type@)
    &&& one_line(it.prompt@)
    &&& has_text(it.prompt@)
    &&& !contains(it.concept_term@, "My answer:"@)
    &&& !contains(it.prompt_type@, "My answer:"@)
    &&& !contains(it.prompt@, "My answer:"@)
}

proof fn lemma_key_line_first(b: Seq<char>, key: Seq<char>, q: int, p0: int)
    requires
        0 <= q <= p0 <= b.len(),
        key_at(b, key, p0),
        forall|k: int| q <= k < p0 ==> !key_at(b, key, k),
    ensures
        key_line_from(b, key, q) == Some(p0),
    decreases p0 - q,
{
    if q < p0 {
        lemma_key_line_first(b, key, q + 1, p0);
    }
}

proof fn lemma_score_from_none(b: Seq<char>, q: int)
    requires
        0 <= q <= b.len(),
        forall|k: int| q <= k <= b.len() ==> score_at(b, k) is None,
    ensures
        score_from(b, q) is None,
    decreases b.len() - q,
{
    if q < b.len() {
        lemma_score_from_none(b, q + 1);
    }
}

/// The leading whitespace of a text with some text in it ends at a
/// character other than whitespace.
proof fn lemma_lead_ws_text(s: Seq<char>)
    requires
        has_text(s),
    ensures
        lead_ws(s) < s.len(),
        !is_ws(s[lead_ws(s) as int]),
        forall|k: int| 0 <= k < lead_ws(s) ==> is_ws(s[k]),
    decreases s.len(),
{
    if is_ws(s[0]) {
        let i = choose|i: int| 0 <= i < s.len() && !is_ws(s[i]);
        assert(i > 0);
        assert(s.drop_first()[i - 1] == s[i]);
        lemma_lead_ws_text(s.drop_first());
        assert forall|k: int| 0 <= k < lead_ws(s) implies is_ws(s[k]) by {
            if k > 0 {
                assert(s[k] == s.drop_first()[k - 1]);
            }
        }
    } else {
        assert(lead_ws(s) == 0);
    }
}

/// The trailing whitespace of `s` is the run after its last other character.
proof fn lemma_trail_ws_run(s: Seq<char>)
    ensures
        trail_ws(s) <= s.len(),
        forall|k: int| s.len() - trail_ws(s) <= k < s.len() ==> is_ws(s[k]),
        trail_ws(s) < s.len() ==> !is_ws(s[s.len() - trail_ws(s) - 1]),
    decreases s.len(),
{
    if s.len() > 0 && is_ws(s.last()) {
        lemma_trail_ws_run(s.drop_last());
        assert forall|k: int| s.len() - trail_ws(s) <= k < s.len() implies is_ws(s[k]) by {
            if k < s.len() - 1 {
                assert(s[k] == s.drop_last()[k]);
            }
        }
        if trail_ws(s) < s.len() {
            assert(s[s.len() - trail_ws(s) - 1] == s.drop_last()[s.len() - trail_ws(s) - 1]);
        }
    }
}

/// Trimming what follows the leading whitespace trims the same text.
proof fn lemma_trim_after_lead(s: Seq<char>)
    requires
        has_text(s),
    ensures
        trim(s.skip(lead_ws(s) as int)) == trim(s),
{
    lemma_lead_ws_text(s);
    let a = lead_ws(s) as int;
    let u = s.skip(a);
    lemma_lead_ws(u, 0);
    lemma_trail_ws_run(s);
    let t = trail_ws(s) as int;
    // The trailing whitespace lies after the first other character.
    assert(t < s.len() - a) by {
        if t >= s.len() - a {
            assert(is_ws(s[a]));
        }
    }
    crate::text::lemma_trail_ws(u, u.len() - t);
    assert(trim(u) =~= u.subrange(0, u.len() - t));
    assert(trim(s) =~= s.subrange(a, s.len() - t));
    assert(u.subrange(0, u.len() - t) =~= s.subrange(a, s.len() - t));
}

/// After a space, a text with some text in it, and more, the field value is
/// that text, trimmed.
proof fn lemma_field_value(v: Seq<char>, rest: Seq<char>)
    requires
        has_text(v),
        one_line(v),
        rest.len() > 0,
        rest[0] == '\n',
    ensures
        ({
            let r = " "@ + v + rest;
            let w = lead_ws(r);
            &&& w < r.len()
            &&& trim(rest_of_line(r.skip(w as int))) == trim(v)
        }),
{
    reveal_strlit(" ");
    let r = " "@ + v + rest;
    lemma_lead_ws_text(v);
    let a = lead_ws(v) as int;
    lemma_lead_ws(r, a + 1);
    let x = r.skip(a + 1);
    assert(x =~= v.skip(a) + rest);
    lemma_nl_index(x, v.len() - a);
    assert(rest_of_line(x) =~= v.skip(a));
    lemma_trim_after_lead(v);
}

/// A pattern without newlines that a field lacks does not occur in the
/// text at a position inside that field, when a newline ends the field.
proof fn lemma_not_in_field(b: Seq<char>, f: Seq<char>, start: int, pat: Seq<char>, k: int)
    requires
        0 <= start <= k < start + f.len(),
        start + f.len() < b.len(),
        b[start + f.len()] == '\n',
        forall|j: int| start <= j < start + f.len() ==> b[j] == f[j - start],
        !contains(f, pat),
        one_line(pat),
    ensures
        !occurs_at(b, pat, k),
{
    if occurs_at(b, pat, k) {
        let end = start + f.len();
        if k + pat.len() <= end {
            assert(f.subrange(k - start, k - start + pat.len()) =~= b.subrange(k, k + pat.len()));
            assert(occurs_at(f, pat, k - start));
        } else {
            assert(b.subrange(k, k + pat.len())[end - k] == b[end]);
        }
    }
}

/// Where the newline after the term stands in an item's section.
pub open spec fn term_end(it: ReviewItem) -> int {
    4 + it.concept_term@.len() as int
}

/// Where the newline after the prompt type stands.
pub open spec fn type_end(it: ReviewItem) -> int {
    term_end(it) + 14 + it.prompt_type@.len() as int
}

/// Where the tail begins.
pub open spec fn prompt_end(it: ReviewItem) -> int {
    type_end(it) + 9 + it.prompt@.len() as int
}

#[verifier::rlimit(80)]
proof fn lemma_section_layout(it: ReviewItem, extra: Seq<char>)
    requires
        extra.len() == 0 || extra == seq!['\n'],
    ensures
        ({
            let b = item_section(it) + extra;
            let t = it.concept_term@;
            let pt = it.prompt_type@;
            let pr = it.prompt@;
            let tail = section_tail() + extra;
            let o1 = term_end(it);
            let o2 = type_end(it);
            let o3 = prompt_end(it);
            &&& b =~= "### "@ + t + "\nPrompt Type: "@ + pt + "\nPrompt: "@ + pr + tail
            &&& b.len() == o3 + tail.len()
            &&& tail.len() == 51 + extra.len()
            &&& forall|k: int| 0 <= k < 4 ==> b[k] == "### "@[k]
            &&& forall|k: int| 4 <= k < o1 ==> b[k] == t[k - 4]
            &&& forall|k: int| o1 <= k < o1 + 14 ==> b[k] == "\nPrompt Type: "@[k - o1]
            &&& forall|k: int| o1 + 14 <= k < o2 ==> b[k] == pt[k - o1 - 14]
            &&& forall|k: int| o2 <= k < o2 + 9 ==> b[k] == "\nPrompt: "@[k - o2]
            &&& forall|k: int| o2 + 9 <= k < o3 ==> b[k] == pr[k - o2 - 9]
            &&& forall|k: int| o3 <= k < b.len() ==> b[k] == tail[k - o3]
        }),
{
    reveal_strlit("### ");
    reveal_strlit("\nPrompt Type: ");
    reveal_strlit("\nPrompt: ");
    reveal_strlit("\n\nMy answer:\n\n\nScore:\nFeedback:\nHint:\nNext review:\n");
    let b = item_section(it) + extra;
    let tail = section_tail() + extra;
    assert(b =~= "### "@ + it.concept_term@ + "\nPrompt Type: "@ + it.prompt_type@ + "\nPrompt: "@
        + it.prompt@ + tail);
}

#[verifier::rlimit(80)]
proof fn lemma_section_fields(it: ReviewItem, extra: Seq<char>)
    requires
        readable_item(it),
        extra.len() == 0 || extra == seq!['\n'],
    ensures
        section_term(item_section(it) + extra) == Some(trim(it.concept_term@)),
        field_text(item_section(it) + extra, "Prompt Type:"@) == trim(it.prompt_type@),
        field_text(item_section(it) + extra, "Prompt:"@) == trim(it.prompt@),
{
    lemma_section_layout(it, extra);
    reveal_strlit("### ");
    reveal_strlit("\nPrompt Type: ");
    reveal_strlit("\nPrompt: ");
    reveal_strlit("Prompt Type:");
    reveal_strlit("Prompt:");
    reveal_strlit(" ");
    let t = it.concept_term@;
    let pt = it.prompt_type@;
    let pr = it.prompt@;
    let tail = section_tail() + extra;
    let b = item_section(it) + extra;
    let o1 = term_end(it);
    let o2 = type_end(it);
    let o3 = prompt_end(it);

    // The term.
    assert(b.skip(4) =~= t + ("\nPrompt Type: "@ + pt + "\nPrompt: "@ + pr + tail));
    lemma_nl_index(b.skip(4), t.len() as int);
    assert(rest_of_line(b.skip(4)) =~= t);

    // The prompt type.
    let k1 = "Prompt Type:"@;
    assert(b.subrange(o1 + 1, o1 + 13) =~= k1);
    assert(key_at(b, k1, o1 + 1));
    assert forall|k: int| 0 <= k < o1 + 1 implies !key_at(b, k1, k) by {
        if k > 0 {
            assert(!line_start(b, k));
        } else {
            assert(b.subrange(0, 12)[0] != k1[0]);
        }
    }
    lemma_key_line_first(b, k1, 0, o1 + 1);
    let rest1 = "\nPrompt: "@ + pr + tail;
    assert(b.skip(o1 + 1 + 12) =~= " "@ + pt + rest1);
    lemma_field_value(pt, rest1);

    // The prompt.
    let k2 = "Prompt:"@;
    assert(b.subrange(o2 + 1, o2 + 8) =~= k2);
    assert(key_at(b, k2, o2 + 1));
    assert forall|k: int| 0 <= k < o2 + 1 implies !key_at(b, k2, k) by {
        if k == 0 {
            assert(b.subrange(0, 7)[0] != k2[0]);
        } else if k == o1 + 1 {
            assert(b.subrange(k, k + 7)[6] != k2[6]);
        } else {
            assert(!line_start(b, k));
        }
    }
    lemma_key_line_first(b, k2, 0, o2 + 1);
    assert(b.skip(o2 + 1 + 7) =~= " "@ + pr + tail);
    reveal_strlit("\n\nMy answer:\n\n\nScore:\nFeedback:\nHint:\nNext review:\n");
    assert(tail[0] == '\n');
    lemma_field_value(pr, tail);
}

/// In a section's tail followed by `extra`, only the `Score:` line begins
/// with `S`.
proof fn lemma_tail_s(extra: Seq<char>)
    requires
        extra.len() == 0 || extra == seq!['\n'],
    ensures
        forall|j: int| 0 <= j < section_tail().len() + extra.len() && j != 15 ==> (section_tail() + extra)[j] != 'S',
{
    reveal_strlit("\n\nMy answer:\n\n\nScore:\nFeedback:\nHint:\nNext review:\n");
    let tail = section_tail() + extra;
    assert forall|j: int| 0 <= j < tail.len() && j != 15 implies tail[j] != 'S' by {
        if j == 0 {} else if j == 1 {} else if j == 2 {} else if j == 3 {} else if j == 4 {} else if j == 5 {} else if j == 6 {} else if j == 7 {} else if j == 8 {} else if j == 9 {} else if j == 10 {} else if j == 11 {} else if j == 12 {} else if j == 13 {} else if j == 14 {} else if j == 15 {} else if j == 16 {} else if j == 17 {} else if j == 18 {} else if j == 19 {} else if j == 20 {} else if j == 21 {} else if j == 22 {} else if j == 23 {} else if j == 24 {} else if j == 25 {} else if j == 26 {} else if j == 27 {} else if j == 28 {} else if j == 29 {} else if j == 30 {} else if j == 31 {} else if j == 32 {} else if j == 33 {} else if j == 34 {} else if j == 35 {} else if j == 36 {} else if j == 37 {} else if j == 38 {} else if j == 39 {} else if j == 40 {} else if j == 41 {} else if j == 42 {} else if j == 43 {} else if j == 44 {} else if j == 45 {} else if j == 46 {} else if j == 47 {} else if j == 48 {} else if j == 49 {} else if j == 50 {}
    }
}

#[verifier::rlimit(80)]
proof fn lemma_section_answer(it: ReviewItem, extra: Seq<char>)
    requires
        readable_item(it),
        extra.len() == 0 || extra == seq!['\n'],
    ensures
        answer_text(item_section(it) + extra).len() == 0,
{
    lemma_section_layout(it, extra);
    reveal_strlit("### ");
    reveal_strlit("\nPrompt Type: ");
    reveal_strlit("\nPrompt: ");
    reveal_strlit("My answer:");
    reveal_strlit("\n\nMy answer:\n\n\nScore:\nFeedback:\nHint:\nNext review:\n");
    let t = it.concept_term@;
    let pt = it.prompt_type@;
    let pr = it.prompt@;
    let b = item_section(it) + extra;
    let o1 = term_end(it);
    let o2 = type_end(it);
    let o3 = prompt_end(it);
    let ma = "My answer:"@;
    assert(one_line(ma));
    assert(b.subrange(o3 + 2, o3 + 12) =~= ma);
    assert forall|k: int| 0 <= k < o3 + 2 implies !occurs_at(b, ma, k) by {
        if 4 <= k < o1 {
            lemma_not_in_field(b, t, 4, ma, k);
        } else if o1 + 14 <= k < o2 {
            lemma_not_in_field(b, pt, o1 + 14, ma, k);
        } else if o2 + 9 <= k < o3 {
            lemma_not_in_field(b, pr, o2 + 9, ma, k);
        } else {
            assert(b.subrange(k, k + 10)[0] != ma[0]);
        }
    }
    assert(is_first_occurrence(b, ma, o3 + 2));
    lemma_first_occurrence(b, ma, o3 + 2);
    let a0 = b.skip(o3 + 2 + 10);
    assert(a0.len() > 0 && a0[0] == '\n');
    let a = a0.drop_first();
    assert(a[0] == '\n' && a[1] == '\n');
    reveal_strlit("Score:");
    reveal_strlit("Feedback:");
    reveal_strlit("Hint:");
    reveal_strlit("Next review:");
    assert(a =~= "\n\nScore:\nFeedback:\nHint:\nNext review:\n"@ + extra) by {
        reveal_strlit("\n\nScore:\nFeedback:\nHint:\nNext review:\n");
    }
    reveal_strlit("\n\nScore:\nFeedback:\nHint:\nNext review:\n");
    assert(a.subrange(2, 8) =~= "Score:"@);
    assert forall|k: int| 0 <= k < 2 implies !occurs_at(a, "Score:"@, k) by {
        assert(a.subrange(k, k + 6)[0] == a[k]);
        if k == 0 {} else if k == 1 {}
    }
    assert(is_first_occurrence(a, "Score:"@, 2));
    lemma_first_occurrence(a, "Score:"@, 2);
    assert(a.subrange(9, 18) =~= "Feedback:"@);
    assert forall|k: int| 0 <= k < 9 implies !occurs_at(a, "Feedback:"@, k) by {
        assert(a.subrange(k, k + 9)[0] == a[k]);
        if k == 0 {} else if k == 1 {} else if k == 2 {} else if k == 3 {} else if k == 4 {} else if k == 5 {} else if k == 6 {} else if k == 7 {} else if k == 8 {}
    }
    assert(is_first_occurrence(a, "Feedback:"@, 9));
    lemma_first_occurrence(a, "Feedback:"@, 9);
    assert(a.subrange(19, 24) =~= "Hint:"@);
    assert forall|k: int| 0 <= k < 19 implies !occurs_at(a, "Hint:"@, k) by {
        assert(a.subrange(k, k + 5)[0] == a[k]);
        if k == 0 {} else if k == 1 {} else if k == 2 {} else if k == 3 {} else if k == 4 {} else if k == 5 {} else if k == 6 {} else if k == 7 {} else if k == 8 {} else if k == 9 {} else if k == 10 {} else if k == 11 {} else if k == 12 {} else if k == 13 {} else if k == 14 {} else if k == 15 {} else if k == 16 {} else if k == 17 {} else if k == 18 {}
    }
    assert(is_first_occurrence(a, "Hint:"@, 19));
    lemma_first_occurrence(a, "Hint:"@, 19);
    assert(a.subrange(25, 37) =~= "Next review:"@);
    assert forall|k: int| 0 <= k < 25 implies !occurs_at(a, "Next review:"@, k) by {
        assert(a.subrange(k, k + 12)[0] == a[k]);
        if k == 0 {} else if k == 1 {} else if k == 2 {} else if k == 3 {} else if k == 4 {} else if k == 5 {} else if k == 6 {} else if k == 7 {} else if k == 8 {} else if k == 9 {} else if k == 10 {} else if k == 11 {} else if k == 12 {} else if k == 13 {} else if k == 14 {} else if k == 15 {} else if k == 16 {} else if k == 17 {} else if k == 18 {} else if k == 19 {} else if k == 20 {} else if k == 21 {} else if k == 22 {} else if k == 23 {} else if k == 24 {}
    }
    assert(is_first_occurrence(a, "Next review:"@, 25));
    lemma_first_occurrence(a, "Next review:"@, 25);
    assert(a.take(2) =~= seq!['\n', '\n']);
    lemma_lead_ws(a.take(2), 2);
}

#[verifier::rlimit(80)]
proof fn lemma_section_score(it: ReviewItem, extra: Seq<char>)
    requires
        readable_item(it),
        extra.len() == 0 || extra == seq!['\n'],
    ensures
        score_from(item_section(it) + extra, 0) is None,
{
    lemma_section_layout(it, extra);
    lemma_tail_s(extra);
    reveal_strlit("### ");
    reveal_strlit("\nPrompt Type: ");
    reveal_strlit("\nPrompt: ");
    reveal_strlit("Score:");
    reveal_strlit("\n\nMy answer:\n\n\nScore:\nFeedback:\nHint:\nNext review:\n");
    let b = item_section(it) + extra;
    let o1 = term_end(it);
    let o2 = type_end(it);
    let o3 = prompt_end(it);
    assert forall|q: int| 0 <= q <= b.len() implies score_at(b, q) is None by {
        if key_at(b, "Score:"@, q) {
            assert(b.subrange(q, q + 6)[0] == b[q]);
            if q <= o3 {
                if q > 0 {
                    assert(b[q - 1] == '\n');
                    assert(q == o1 + 1 || q == o2 + 1);
                }
            } else {
                assert(q - o3 == 15);
                let r = b.skip(q + 6);
                assert(r[0] == '\n' && r[1] == 'F');
                lemma_lead_ws(r, 1);
            }
        }
    }
    lemma_score_from_none(b, 0);
}

/// The section of a readable item, followed by `extra` (nothing, or the
/// newline that begins the next section), reads back the item's term, prompt
/// type and prompt, trimmed, with no answer and no score.
pub proof fn item_section_reads_back(it: ReviewItem, extra: Seq<char>)
    requires
        readable_item(it),
        extra.len() == 0 || extra == seq!['\n'],
    ensures
        section_view(item_section(it) + extra) matches Some(v) && v.0 == trim(it.concept_term@) && v.1 == trim(
            it.prompt_type@,
        ) && v.2 == trim(it.prompt@) && v.3.len() == 0 && v.4 is None,
{
    lemma_section_fields(it, extra);
    lemma_section_answer(it, extra);
    lemma_section_score(it, extra);
}

// ---------------------------------------------------------------------------
// A whole session note
// ---------------------------------------------------------------------------

/// The beginning of a session note, before its sections.
pub open spec fn header_text(date: Seq<char>, now: Seq<char>) -> Seq<char> {
    "---\ntype: review-session\ndate: "@ + date + "\ngenerated_at: "@ + now + "\n---\n\n# Daily Recall — "@ + date + "\n"@
}

/// A section heading begins at `i` of `s` only where `s[i]` and `s[i + 1]`
/// are `#` at the start of a line.
proof fn lemma_heading_chars(s: Seq<char>, i: int)
    requires
        crate::learn::review::heading_at(s, i),
    ensures
        s[i] == '#',
        s[i + 1] == '#',
        i == 0 || s[i - 1] == '\n',
{
    reveal_strlit("### ");
    assert(s.subrange(i, i + 4)[0] == s[i]);
    assert(s.subrange(i, i + 4)[1] == s[i + 1]);
}

/// Before the end of a prefix that ends a line, headings are those of the
/// prefix.
proof fn lemma_heading_prefix(x: Seq<char>, y: Seq<char>, i: int)
    requires
        x.len() > 0,
        x.last() == '\n',
        0 <= i < x.len(),
    ensures
        crate::learn::review::heading_at(x + y, i) == crate::learn::review::heading_at(x, i),
{
    reveal_strlit("### ");
    let s = x + y;
    if crate::learn::review::heading_at(s, i) {
        lemma_heading_chars(s, i);
        if i + 4 > x.len() {
            assert(s.subrange(i, i + 4)[x.len() - 1 - i] == s[x.len() - 1]);
        } else {
            assert(x.subrange(i, i + 4) =~= s.subrange(i, i + 4));
        }
    }
    if crate::learn::review::heading_at(x, i) {
        assert(x.subrange(i, i + 4) =~= s.subrange(i, i + 4));
    }
}

/// The tail of a section holds no `#`.
proof fn lemma_tail_no_hash()
    ensures
        forall|j: int| 0 <= j < section_tail().len() ==> section_tail()[j] != '#',
{
    reveal_strlit("\n\nMy answer:\n\n\nScore:\nFeedback:\nHint:\nNext review:\n");
    assert forall|j: int| 0 <= j < section_tail().len() implies section_tail()[j] != '#' by {
        if j == 0 {} else if j == 1 {} else if j == 2 {} else if j == 3 {} else if j == 4 {} else if j == 5 {} else if j == 6 {} else if j == 7 {} else if j == 8 {} else if j == 9 {} else if j == 10 {} else if j == 11 {} else if j == 12 {} else if j == 13 {} else if j == 14 {} else if j == 15 {} else if j == 16 {} else if j == 17 {} else if j == 18 {} else if j == 19 {} else if j == 20 {} else if j == 21 {} else if j == 22 {} else if j == 23 {} else if j == 24 {} else if j == 25 {} else if j == 26 {} else if j == 27 {} else if j == 28 {} else if j == 29 {} else if j == 30 {} else if j == 31 {} else if j == 32 {} else if j == 33 {} else if j == 34 {} else if j == 35 {} else if j == 36 {} else if j == 37 {} else if j == 38 {} else if j == 39 {} else if j == 40 {} else if j == 41 {} else if j == 42 {} else if j == 43 {} else if j == 44 {} else if j == 45 {} else if j == 46 {} else if j == 47 {} else if j == 48 {} else if j == 49 {} else if j == 50 {}
    }
}

/// In an item's section, no line but the first begins with `#`.
#[verifier::rlimit(80)]
proof fn lemma_section_one_heading(it: ReviewItem)
    requires
        readable_item(it),
    ensures
        forall|j: int| 1 <= j < item_section(it).len() && item_section(it)[j - 1] == '\n' ==> #[trigger] item_section(it)[j] != '#',
        forall|j: int| 1 <= j < item_section(it).len() && item_section(it)[j - 1] == '\n' ==> !#[trigger] occurs_at(item_section(it), "### "@, j),
        item_section(it).subrange(0, 4) == "### "@,
        item_section(it).len() >= 4,
{
    let e = Seq::<char>::empty();
    lemma_section_layout(it, e);
    lemma_tail_no_hash();
    reveal_strlit("### ");
    reveal_strlit("\nPrompt Type: ");
    reveal_strlit("\nPrompt: ");
    let sec = item_section(it);
    assert(sec + e =~= sec);
    let o1 = term_end(it);
    let o2 = type_end(it);
    let o3 = prompt_end(it);
    assert forall|j: int| 1 <= j < sec.len() && sec[j - 1] == '\n' implies #[trigger] sec[j] != '#' by {
        if j < o3 {
            assert(j - 1 == o1 || j - 1 == o2);
        }
    }
    assert forall|j: int| 1 <= j < sec.len() && sec[j - 1] == '\n' implies !#[trigger] occurs_at(sec, "### "@, j) by {
        if occurs_at(sec, "### "@, j) {
            assert(sec.subrange(j, j + 4)[0] == sec[j]);
        }
    }
    assert(sec.subrange(0, 4) =~= "### "@);
}

/// The beginning of a session note holds no section heading, and ends a
/// line.
#[verifier::rlimit(80)]
proof fn lemma_header(date: Seq<char>, now: Seq<char>)
    requires
        one_line(date),
        one_line(now),
    ensures
        forall|i: int| 0 <= i < header_text(date, now).len() ==> !crate::learn::review::heading_at(header_text(date, now), i),
        header_text(date, now).len() > 0,
        header_text(date, now).last() == '\n',
{
    reveal_strlit("---\ntype: review-session\ndate: ");
    reveal_strlit("\ngenerated_at: ");
    reveal_strlit("\n---\n\n# Daily Recall — ");
    reveal_strlit("\n");
    let h = header_text(date, now);
    let a = "---\ntype: review-session\ndate: "@;
    let bb = "\ngenerated_at: "@;
    let c = "\n---\n\n# Daily Recall — "@;
    let la = a.len() as int;
    let lb = la + date.len() + bb.len();
    let lc = lb + now.len() + c.len();
    assert(h =~= a + date + bb + now + c + date + "\n"@);
    assert forall|j: int| 0 <= j < a.len() implies h[j] == a[j] by {}
    assert forall|j: int| la <= j < la + date.len() implies h[j] == date[j - la] by {}
    assert forall|j: int| la + date.len() <= j < lb implies h[j] == bb[j - la - date.len()] by {}
    assert forall|j: int| lb <= j < lb + now.len() implies h[j] == now[j - lb] by {}
    assert forall|j: int| lb + now.len() <= j < lc implies h[j] == c[j - lb - now.len()] by {}
    assert forall|j: int| lc <= j < lc + date.len() implies h[j] == date[j - lc] by {}
    assert(h[h.len() - 1] == '\n');
    assert forall|i: int| 0 <= i < h.len() implies !crate::learn::review::heading_at(h, i) by {
        if crate::learn::review::heading_at(h, i) {
            lemma_heading_chars(h, i);
            if i < la {
                let j = i;
                if j == 0 {} else if j == 1 {} else if j == 2 {} else if j == 3 {} else if j == 4 {} else if j == 5 {} else if j == 6 {} else if j == 7 {} else if j == 8 {} else if j == 9 {} else if j == 10 {} else if j == 11 {} else if j == 12 {} else if j == 13 {} else if j == 14 {} else if j == 15 {} else if j == 16 {} else if j == 17 {} else if j == 18 {} else if j == 19 {} else if j == 20 {} else if j == 21 {} else if j == 22 {} else if j == 23 {} else if j == 24 {} else if j == 25 {} else if j == 26 {} else if j == 27 {} else if j == 28 {} else if j == 29 {} else if j == 30 {}
            } else if i < la + date.len() {
                assert(i > la ==> h[i - 1] == date[i - 1 - la]);
                assert(i == la ==> h[i - 1] == a[la - 1]);
            } else if i < lb {
                let j = i - la - date.len();
                assert(h[i] == bb[j]);
                assert(j > 0 ==> h[i - 1] == bb[j - 1]);
                if j == 0 {} else if j == 1 {} else if j == 2 {} else if j == 3 {} else if j == 4 {} else if j == 5 {} else if j == 6 {} else if j == 7 {} else if j == 8 {} else if j == 9 {} else if j == 10 {} else if j == 11 {} else if j == 12 {} else if j == 13 {} else if j == 14 {}
            } else if i < lb + now.len() {
                assert(i > lb ==> h[i - 1] == now[i - 1 - lb]);
                assert(i == lb ==> h[i - 1] == bb[bb.len() - 1]);
            } else if i < lc {
                let j = i - lb - now.len();
                assert(h[i] == c[j]);
                assert(j > 0 ==> h[i - 1] == c[j - 1]);
                assert(j + 1 < c.len() ==> h[i + 1] == c[j + 1]);
                if j == 0 {} else if j == 1 {} else if j == 2 {} else if j == 3 {} else if j == 4 {} else if j == 5 {} else if j == 6 {} else if j == 7 {} else if j == 8 {} else if j == 9 {} else if j == 10 {} else if j == 11 {} else if j == 12 {} else if j == 13 {} else if j == 14 {} else if j == 15 {} else if j == 16 {} else if j == 17 {} else if j == 18 {} else if j == 19 {} else if j == 20 {} else if j == 21 {} else if j == 22 {}
            } else if i < lc + date.len() {
                assert(i > lc ==> h[i - 1] == date[i - 1 - lc]);
                assert(i == lc ==> h[i - 1] == c[c.len() - 1]);
            }
        }
    }
}

proof fn lemma_positions_agree(s: Seq<char>, t: Seq<char>, n: int)
    requires
        forall|i: int| 0 <= i < n ==> crate::learn::review::heading_at(s, i) == crate::learn::review::heading_at(t, i),
    ensures
        heading_positions(s, n) == heading_positions(t, n),
    decreases n,
{
    if n > 0 {
        lemma_positions_agree(s, t, n - 1);
    }
}

proof fn lemma_positions_none(s: Seq<char>, n1: int, n2: int)
    requires
        0 <= n1 <= n2,
        forall|i: int| n1 <= i < n2 ==> !crate::learn::review::heading_at(s, i),
    ensures
        heading_positions(s, n2) == heading_positions(s, n1),
    decreases n2 - n1,
{
    if n1 < n2 {
        lemma_positions_none(s, n1, n2 - 1);
    }
}

proof fn lemma_positions_one(s: Seq<char>, n1: int, h: int, n2: int)
    requires
        0 <= n1 <= h < n2,
        crate::learn::review::heading_at(s, h),
        forall|i: int| n1 <= i < n2 && i != h ==> !crate::learn::review::heading_at(s, i),
    ensures
        heading_positions(s, n2) == heading_positions(s, n1).push(h),
{
    lemma_positions_none(s, n1, h);
    lemma_positions_none(s, h + 1, n2);
}

/// Where the text for the first `k` items of a session note ends.
pub open spec fn items_end(items: Seq<ReviewItem>, date: Seq<char>, now: Seq<char>, k: int) -> int {
    session_text(items.take(k), date, now).len() as int
}

/// The items of a session note can all be read back.
pub open spec fn readable_items(items: Seq<ReviewItem>) -> bool {
    forall|k: int| 0 <= k < items.len() ==> readable_item(#[trigger] items[k])
}

/// The step from the note for all items but the last to the note for all.
proof fn lemma_session_step(items: Seq<ReviewItem>, date: Seq<char>, now: Seq<char>)
    requires
        items.len() > 0,
    ensures
        session_text(items, date, now) == session_text(items.drop_last(), date, now) + ("\n"@ + item_section(
            items.last(),
        )),
        items.take(items.len() - 1) == items.drop_last(),
        items.take(items.len() as int) == items,
        forall|k: int| 0 <= k < items.len() ==> #[trigger] items.take(k) == items.drop_last().take(k),
        forall|k: int| 0 <= k < items.len() - 1 ==> #[trigger] items.drop_last()[k] == items[k],
{
    reveal_strlit("\n### ");
    reveal_strlit("### ");
    reveal_strlit("\n");
    let it = items.last();
    assert(session_text(items, date, now) =~= session_text(items.drop_last(), date, now) + ("\n"@
        + item_section(it)));
    assert(items.take(items.len() - 1) =~= items.drop_last());
    assert(items.take(items.len() as int) =~= items);
    assert forall|k: int| 0 <= k < items.len() implies #[trigger] items.take(k) == items.drop_last().take(k) by {
        assert(items.take(k) =~= items.drop_last().take(k));
    }
}

#[verifier::rlimit(80)]
proof fn lemma_session_ends(items: Seq<ReviewItem>, date: Seq<char>, now: Seq<char>)
    requires
        one_line(date),
        one_line(now),
    ensures
        session_text(items, date, now).len() > 0,
        session_text(items, date, now).last() == '\n',
        items_end(items, date, now, items.len() as int) == session_text(items, date, now).len(),
        forall|k: int| 0 <= k <= items.len() ==> #[trigger] items_end(items, date, now, k) <= session_text(items, date, now).len(),
        forall|k: int|
            0 <= k < items.len() ==> #[trigger] items_end(items, date, now, k) + 1 + item_section(items[k]).len()
                == items_end(items, date, now, k + 1),
        forall|k: int|
            0 <= k < items.len() ==> session_text(items, date, now).subrange(
                #[trigger] items_end(items, date, now, k),
                items_end(items, date, now, k + 1),
            ) == "\n"@ + item_section(items[k]),
    decreases items.len(),
{
    let s = session_text(items, date, now);
    let m = items.len() as int;
    if m == 0 {
        lemma_header(date, now);
        assert(items.take(0) =~= items);
        assert(s == header_text(date, now)) by {
            reveal_strlit("\n");
        }
    } else {
        let prev = items.drop_last();
        lemma_session_ends(prev, date, now);
        lemma_session_step(items, date, now);
        let sp = session_text(prev, date, now);
        let sec = item_section(items.last());
        reveal_strlit("\n\nMy answer:\n\n\nScore:\nFeedback:\nHint:\nNext review:\n");
        reveal_strlit("\n");
        assert(s.last() == sec.last());
        let lp = sp.len() as int;
        assert(items_end(items, date, now, m - 1) == lp);
        assert forall|k: int| 0 <= k < m implies #[trigger] items_end(items, date, now, k) == items_end(prev, date, now, k) by {
            assert(items.take(k) == prev.take(k));
        }
        assert forall|k: int| 0 <= k <= m implies #[trigger] items_end(items, date, now, k) <= s.len() by {
            if k < m {
                assert(items_end(items, date, now, k) == items_end(prev, date, now, k));
            }
        }
        assert forall|k: int|
            0 <= k < m implies #[trigger] items_end(items, date, now, k) + 1 + item_section(items[k]).len()
                == items_end(items, date, now, k + 1) by {
            if k < m - 1 {
                assert(items_end(items, date, now, k) == items_end(prev, date, now, k));
                assert(items_end(items, date, now, k + 1) == items_end(prev, date, now, k + 1));
                assert(prev[k] == items[k]);
            }
        }
        assert forall|k: int|
            0 <= k < m implies s.subrange(
                #[trigger] items_end(items, date, now, k),
                items_end(items, date, now, k + 1),
            ) == "\n"@ + item_section(items[k]) by {
            if k < m - 1 {
                let lo = items_end(prev, date, now, k);
                let hi = items_end(prev, date, now, k + 1);
                assert(items_end(items, date, now, k) == lo);
                assert(items_end(items, date, now, k + 1) == hi);
                assert(hi <= lp);
                assert(lo + 1 + item_section(prev[k]).len() == hi);
                assert(s.subrange(lo, hi) =~= sp.subrange(lo, hi));
                assert(prev[k] == items[k]);
            } else {
                assert(s.subrange(lp, s.len() as int) =~= "\n"@ + sec);
            }
        }
    }
}

/// In a text followed by a newline and a section, the headings before the
/// section are those of the text, and the section adds one, at its start.
#[verifier::rlimit(80)]
proof fn lemma_segment_headings(sp: Seq<char>, sec: Seq<char>)
    requires
        sp.len() > 0,
        sp.last() == '\n',
        sec.len() >= 4,
        sec.subrange(0, 4) == "### "@,
        forall|j: int| 1 <= j < sec.len() && sec[j - 1] == '\n' ==> !#[trigger] occurs_at(sec, "### "@, j),
    ensures
        ({
            let s = sp + ("\n"@ + sec);
            let lp = sp.len() as int;
            &&& crate::learn::review::heading_at(s, lp + 1)
            &&& forall|i: int| 0 <= i < lp ==> crate::learn::review::heading_at(s, i)
                == crate::learn::review::heading_at(sp, i)
            &&& forall|i: int| lp <= i < s.len() && i != lp + 1 ==> !crate::learn::review::heading_at(s, i)
        }),
{
    reveal_strlit("\n");
    reveal_strlit("### ");
    let s = sp + ("\n"@ + sec);
    let lp = sp.len() as int;
    assert forall|i: int| 0 <= i < lp implies crate::learn::review::heading_at(s, i)
        == crate::learn::review::heading_at(sp, i) by {
        lemma_heading_prefix(sp, "\n"@ + sec, i);
    }
    assert(s.subrange(lp + 1, lp + 5) =~= sec.subrange(0, 4));
    assert(crate::learn::review::heading_at(s, lp + 1));
    assert forall|i: int| lp <= i < s.len() && i != lp + 1 implies !crate::learn::review::heading_at(s, i) by {
        if crate::learn::review::heading_at(s, i) {
            lemma_heading_chars(s, i);
            if i >= lp + 2 {
                let j = i - lp - 1;
                assert(s[i - 1] == sec[j - 1]);
                assert(sec.subrange(j, j + 4) =~= s.subrange(i, i + 4));
                assert(occurs_at(sec, "### "@, j));
            }
        }
    }
}

#[verifier::rlimit(80)]
proof fn lemma_session_headings(items: Seq<ReviewItem>, date: Seq<char>, now: Seq<char>)
    requires
        one_line(date),
        one_line(now),
        readable_items(items),
    ensures
        heading_positions(session_text(items, date, now), session_text(items, date, now).len() as int)
            == Seq::new(items.len(), |k: int| items_end(items, date, now, k) + 1),
    decreases items.len(),
{
    let s = session_text(items, date, now);
    let m = items.len() as int;
    if m == 0 {
        lemma_header(date, now);
        assert(s == header_text(date, now)) by {
            reveal_strlit("\n");
        }
        lemma_positions_none(s, 0, s.len() as int);
        assert(heading_positions(s, 0) =~= Seq::<int>::empty());
        assert(Seq::new(0, |k: int| items_end(items, date, now, k) + 1) =~= Seq::<int>::empty());
    } else {
        let prev = items.drop_last();
        lemma_session_step(items, date, now);
        assert(readable_items(prev)) by {
            assert forall|k: int| 0 <= k < prev.len() implies readable_item(#[trigger] prev[k]) by {
                assert(prev[k] == items[k]);
            }
        }
        lemma_session_headings(prev, date, now);
        lemma_session_ends(prev, date, now);
        let sp = session_text(prev, date, now);
        let it = items.last();
        assert(readable_item(it)) by {
            assert(items[m - 1] == it);
        }
        let sec = item_section(it);
        lemma_section_one_heading(it);
        lemma_segment_headings(sp, sec);
        let lp = sp.len() as int;
        lemma_positions_agree(s, sp, lp);
        lemma_positions_one(s, lp, lp + 1, s.len() as int);
        assert(items_end(items, date, now, m - 1) == lp);
        assert(Seq::new(items.len(), |k: int| items_end(items, date, now, k) + 1) =~= Seq::new(
            prev.len(),
            |k: int| items_end(prev, date, now, k) + 1,
        ).push(lp + 1)) by {
            assert forall|k: int| 0 <= k < m - 1 implies items_end(items, date, now, k) == items_end(prev, date, now, k) by {
                assert(items.take(k) == prev.take(k));
            }
        }
    }
}

proof fn lemma_read_all(bs: Seq<Seq<char>>)
    requires
        forall|k: int| 0 <= k < bs.len() ==> (#[trigger] section_view(bs[k])) is Some,
    ensures
        read_sections(bs).len() == bs.len(),
        forall|k: int| 0 <= k < bs.len() ==> #[trigger] read_sections(bs)[k] == section_view(bs[k])->0,
    decreases bs.len(),
{
    if bs.len() > 0 {
        let prev = bs.drop_last();
        assert forall|k: int| 0 <= k < prev.len() implies (#[trigger] section_view(prev[k])) is Some by {
            assert(prev[k] == bs[k]);
        }
        lemma_read_all(prev);
        assert(section_view(bs[bs.len() - 1]) is Some);
        assert forall|k: int| 0 <= k < bs.len() implies #[trigger] read_sections(bs)[k] == section_view(bs[k])->0 by {
            if k < bs.len() - 1 {
                assert(prev[k] == bs[k]);
            }
        }
    }
}

/// The sections of a session note are its items' sections, each but the
/// last followed by the newline that begins the next.
#[verifier::rlimit(80)]
proof fn lemma_session_sections(items: Seq<ReviewItem>, date: Seq<char>, now: Seq<char>)
    requires
        one_line(date),
        one_line(now),
        readable_items(items),
    ensures
        sections_of(session_text(items, date, now)).len() == items.len(),
        forall|k: int|
            0 <= k < items.len() ==> #[trigger] sections_of(session_text(items, date, now))[k] == item_section(items[k])
                + (if k + 1 < items.len() {
                seq!['\n']
            } else {
                Seq::<char>::empty()
            }),
{
    lemma_session_ends(items, date, now);
    lemma_session_headings(items, date, now);
    reveal_strlit("\n");
    let s = session_text(items, date, now);
    let m = items.len() as int;
    assert forall|k: int|
        0 <= k < m implies #[trigger] sections_of(s)[k] == item_section(items[k]) + (if k + 1 < m {
            seq!['\n']
        } else {
            Seq::<char>::empty()
        }) by {
        let e0 = items_end(items, date, now, k);
        let e1 = items_end(items, date, now, k + 1);
        let sec = item_section(items[k]);
        assert(e0 + 1 + sec.len() == e1);
        assert(s.subrange(e0, e1) == "\n"@ + sec);
        assert(e1 <= s.len());
        if k + 1 < m {
            let e2 = items_end(items, date, now, k + 2);
            assert(e1 + 1 + item_section(items[k + 1]).len() == e2);
            assert(s.subrange(e1, e2) == "\n"@ + item_section(items[k + 1]));
            assert(s[e1] == s.subrange(e1, e2)[0]);
            assert(s.subrange(e0 + 1, e1 + 1) =~= sec + seq!['\n']) by {
                assert forall|j: int| 0 <= j < sec.len() implies s.subrange(e0 + 1, e1 + 1)[j] == sec[j] by {
                    assert(s.subrange(e0, e1)[j + 1] == s[e0 + 1 + j]);
                }
            }
        } else {
            assert(e1 == s.len());
            assert(s.subrange(e0 + 1, e1) =~= sec) by {
                assert forall|j: int| 0 <= j < sec.len() implies s.subrange(e0 + 1, e1)[j] == sec[j] by {
                    assert(s.subrange(e0, e1)[j + 1] == s[e0 + 1 + j]);
                }
            }
            assert(sec + Seq::<char>::empty() =~= sec);
        }
    }
}

/// A session note written for readable items, on a date and at a time
/// written on one line each, reads back: its sections, in order, give each
/// item's term, prompt type and prompt, trimmed, with no answer and no
/// score; so every score in it fits, and none is graded.
#[verifier::rlimit(80)]
pub proof fn session_reads_back(items: Seq<ReviewItem>, date: Seq<char>, now: Seq<char>)
    requires
        one_line(date),
        one_line(now),
        readable_items(items),
    ensures
        ({
            let vs = read_sections(sections_of(session_text(items, date, now)));
            &&& vs.len() == items.len()
            &&& forall|k: int|
                0 <= k < items.len() ==> {
                    &&& (#[trigger] vs[k]).0 == trim(items[k].concept_term@)
                    &&& vs[k].1 == trim(items[k].prompt_type@)
                    &&& vs[k].2 == trim(items[k].prompt@)
                    &&& vs[k].3.len() == 0
                    &&& vs[k].4 is None
                }
        }),
        crate::learn::review::scores_fit(session_text(items, date, now)),
{
    lemma_session_sections(items, date, now);
    let bs = sections_of(session_text(items, date, now));
    assert forall|k: int| 0 <= k < bs.len() implies (#[trigger] section_view(bs[k])) is Some by {
        let extra = if k + 1 < items.len() {
            seq!['\n']
        } else {
            Seq::<char>::empty()
        };
        assert(readable_item(items[k]));
        item_section_reads_back(items[k], extra);
    }
    lemma_read_all(bs);
    let vs = read_sections(bs);
    assert forall|k: int| 0 <= k < items.len() implies {
        &&& (#[trigger] vs[k]).0 == trim(items[k].concept_term@)
        &&& vs[k].1 == trim(items[k].prompt_type@)
        &&& vs[k].2 == trim(items[k].prompt@)
        &&& vs[k].3.len() == 0
        &&& vs[k].4 is None
    } by {
        let extra = if k + 1 < items.len() {
            seq!['\n']
        } else {
            Seq::<char>::empty()
        };
        assert(readable_item(items[k]));
        item_section_reads_back(items[k], extra);
        assert(vs[k] == section_view(bs[k])->0);
    }
    assert forall|k: int| 0 <= k < vs.len() implies match (#[trigger] vs[k]).4 {
        Some(v) => v <= u32::MAX,
        None => true,
    } by {}
}

// ---------------------------------------------------------------------------
// Grades filled into a session
// ---------------------------------------------------------------------------

/// `s` holds no `$`, so a regex replacement writes it as it is.
pub open spec fn no_dollar(s: Seq<char>) -> bool {
    forall|i: int| 0 <= i < s.len() ==> s[i] != '$'
}

proof fn lemma_expand_plain(rep: Seq<char>, whole: Seq<char>)
    requires
        no_dollar(rep),
    ensures
        crate::learn::session::expand(rep, whole) == rep,
    decreases rep.len(),
{
    if rep.len() > 0 {
        assert(no_dollar(rep.drop_first())) by {
            assert forall|i: int| 0 <= i < rep.drop_first().len() implies rep.drop_first()[i] != '$' by {
                assert(rep.drop_first()[i] == rep[i + 1]);
            }
        }
        lemma_expand_plain(rep.drop_first(), whole);
        assert(seq![rep[0]] + rep.drop_first() =~= rep);
    }
}

pub(crate) proof fn lemma_decimal_digits(n: nat)
    ensures
        crate::text::decimal(n).len() > 0,
        forall|i: int| 0 <= i < crate::text::decimal(n).len() ==> crate::cdt::scanner::is_digit(
            #[trigger] crate::text::decimal(n)[i],
        ),
        crate::cdt::scanner::digits_value(crate::text::decimal(n)) == n,
    decreases n,
{
    let d = crate::text::decimal(n);
    assert(d.last() as nat == (n % 10) + 48) by {
        if n >= 10 {
            assert(d.last() == crate::text::digit((n % 10) as int));
        }
    }
    if n < 10 {
        assert(d.drop_last() =~= Seq::<char>::empty());
        assert(crate::cdt::scanner::digits_value(d.drop_last()) == 0);
    } else {
        lemma_decimal_digits(n / 10);
        let p = crate::text::decimal(n / 10);
        assert(d.drop_last() =~= p);
        assert forall|i: int| 0 <= i < d.len() implies crate::cdt::scanner::is_digit(#[trigger] d[i]) by {
            if i < p.len() {
                assert(d[i] == p[i]);
            }
        }
    }
}

/// No line of `x` that begins at or after `lo` begins with `key`.
pub open spec fn starts_avoid(x: Seq<char>, key: Seq<char>, lo: int) -> bool {
    forall|q: int| lo <= q < x.len() && line_start(x, q) ==> !#[trigger] occurs_at(x, key, q)
}

/// A one-line text whose first character differs from the key's holds no
/// line beginning with it.
proof fn lemma_line_avoids(l: Seq<char>, key: Seq<char>)
    requires
        one_line(l),
        key.len() > 0,
        l.len() == 0 || l[0] != key[0],
    ensures
        starts_avoid(l, key, 0),
{
    assert forall|q: int| 0 <= q < l.len() && line_start(l, q) implies !#[trigger] occurs_at(l, key, q) by {
        if q == 0 && occurs_at(l, key, q) {
            assert(l.subrange(0, key.len() as int)[0] == l[0]);
        }
    }
}

/// Lines of a prefix that ends a line keep not beginning with a key after
/// more text follows.
proof fn lemma_avoid_extend(x: Seq<char>, y: Seq<char>, key: Seq<char>, lo: int)
    requires
        starts_avoid(x, key, lo),
        x.len() > 0,
        x.last() == '\n',
        one_line(key),
        key.len() > 0,
    ensures
        forall|q: int| lo <= q < x.len() && line_start(x + y, q) ==> !#[trigger] occurs_at(x + y, key, q),
{
    let s = x + y;
    assert forall|q: int| lo <= q < x.len() && line_start(s, q) implies !#[trigger] occurs_at(s, key, q) by {
        assert(q > 0 ==> s[q - 1] == x[q - 1]);
        assert(line_start(x, q));
        if occurs_at(s, key, q) {
            if q + key.len() <= x.len() {
                assert(x.subrange(q, q + key.len()) =~= s.subrange(q, q + key.len()));
                assert(occurs_at(x, key, q));
            } else {
                let m = x.len() - 1 - q;
                assert(s.subrange(q, q + key.len())[m] == s[x.len() - 1]);
                assert(key[m] == '\n');
            }
        }
    }
}

proof fn lemma_add_line(x: Seq<char>, l: Seq<char>, key: Seq<char>, lo: int)
    requires
        x.len() == 0 || x.last() == '\n',
        starts_avoid(x, key, lo),
        0 <= lo <= x.len(),
        starts_avoid(l, key, 0),
        one_line(key),
        key.len() > 0,
    ensures
        starts_avoid(x + l + seq!['\n'], key, lo),
        starts_avoid(x + l, key, lo),
{
    let s = x + l + seq!['\n'];
    let t = x + l;
    let k = key.len() as int;
    assert forall|q: int| lo <= q < s.len() && line_start(s, q) implies !#[trigger] occurs_at(s, key, q) by {
        if occurs_at(s, key, q) {
            if q < x.len() {
                assert(q > 0 ==> s[q - 1] == x[q - 1]);
                assert(line_start(x, q));
                if q + k <= x.len() {
                    assert(x.subrange(q, q + k) =~= s.subrange(q, q + k));
                    assert(occurs_at(x, key, q));
                } else {
                    let m = x.len() - 1 - q;
                    assert(s.subrange(q, q + k)[m] == s[x.len() - 1]);
                    assert(key[m] == '\n');
                }
            } else {
                let j = q - x.len();
                if j < l.len() {
                    assert(j > 0 ==> s[q - 1] == l[j - 1]);
                    assert(line_start(l, j));
                    if j + k <= l.len() {
                        assert(l.subrange(j, j + k) =~= s.subrange(q, q + k));
                        assert(occurs_at(l, key, j));
                    } else {
                        let m = x.len() + l.len() - q;
                        assert(s.subrange(q, q + k)[m] == s[x.len() + l.len() as int]);
                        assert(key[m] == '\n');
                    }
                } else {
                    assert(s.subrange(q, q + k)[0] == s[q]);
                    assert(key[0] == '\n');
                }
            }
        }
    }
    assert forall|q: int| lo <= q < t.len() && line_start(t, q) implies !#[trigger] occurs_at(t, key, q) by {
        if occurs_at(t, key, q) {
            if q < x.len() {
                assert(q > 0 ==> t[q - 1] == x[q - 1]);
                assert(line_start(x, q));
                if q + k <= x.len() {
                    assert(x.subrange(q, q + k) =~= t.subrange(q, q + k));
                    assert(occurs_at(x, key, q));
                } else {
                    let m = x.len() - 1 - q;
                    assert(t.subrange(q, q + k)[m] == t[x.len() - 1]);
                    assert(key[m] == '\n');
                }
            } else {
                let j = q - x.len();
                assert(j > 0 ==> t[q - 1] == l[j - 1]);
                assert(line_start(l, j));
                assert(l.subrange(j, j + k) =~= t.subrange(q, q + k));
                assert(occurs_at(l, key, j));
            }
        }
    }
}

proof fn lemma_blank_from_skip(s: Seq<char>, xl: int, key: Seq<char>, p: int)
    requires
        0 <= p <= xl <= s.len(),
        key.len() > 0,
        forall|q: int| p <= q < xl && line_start(s, q) ==> !#[trigger] occurs_at(s, key, q),
    ensures
        crate::learn::session::blank_from(s, key, p) == crate::learn::session::blank_from(s, key, xl),
    decreases xl - p,
{
    if p < xl {
        lemma_blank_from_skip(s, xl, key, p + 1);
    }
}

proof fn lemma_blank_from_tail(x: Seq<char>, y: Seq<char>, key: Seq<char>, j: int)
    requires
        x.len() > 0,
        x.last() == '\n',
        0 <= j <= y.len(),
    ensures
        crate::learn::session::blank_from(x + y, key, x.len() + j) == match crate::learn::session::blank_from(y, key, j) {
            Some(q) => Some(q + x.len()),
            None => None,
        },
    decreases y.len() - j,
{
    let s = x + y;
    let p = x.len() + j;
    assert(line_start(s, p) == line_start(y, j)) by {
        if j > 0 {
            assert(s[p - 1] == y[j - 1]);
        } else {
            assert(s[p - 1] == x.last());
        }
    }
    assert(occurs_at(s, key, p) == occurs_at(y, key, j)) by {
        if p + key.len() <= s.len() {
            assert(s.subrange(p, p + key.len()) =~= y.subrange(j, j + key.len()));
        }
    }
    if occurs_at(y, key, j) {
        assert(s.skip(p + key.len()) =~= y.skip(j + key.len()));
    }
    if j < y.len() {
        lemma_blank_from_tail(x, y, key, j + 1);
    }
}

proof fn lemma_last_eol_range(r: Seq<char>, q: int)
    ensures
        crate::learn::session::last_eol_upto(r, q) matches Some(v) ==> 0 <= v <= q,
    decreases q + 1,
{
    if q >= 0 {
        lemma_last_eol_range(r, q - 1);
    }
}

proof fn lemma_lead_ws_le(s: Seq<char>)
    ensures
        lead_ws(s) <= s.len(),
    decreases s.len(),
{
    if s.len() > 0 {
        lemma_lead_ws_le(s.drop_first());
    }
}

proof fn lemma_blank_from_found(s: Seq<char>, key: Seq<char>, p: int)
    ensures
        crate::learn::session::blank_from(s, key, p) matches Some(q) ==> p <= q <= s.len()
            && crate::learn::session::blank_at(s, key, q),
    decreases s.len() - p,
{
    if 0 <= p < s.len() && !crate::learn::session::blank_at(s, key, p) {
        lemma_blank_from_found(s, key, p + 1);
    }
}

/// A blank field after a prefix in which no line begins like the field is
/// the blank field of what follows the prefix.
proof fn lemma_blank_shift(x: Seq<char>, y: Seq<char>, key: Seq<char>, rep: Seq<char>)
    requires
        x.len() > 0,
        x.last() == '\n',
        key.len() > 0,
        one_line(key),
        starts_avoid(x, key, 0),
    ensures
        crate::learn::session::replace_blank(x + y, key, rep) == x + crate::learn::session::replace_blank(y, key, rep),
{
    let s = x + y;
    lemma_avoid_extend(x, y, key, 0);
    lemma_blank_from_skip(s, x.len() as int, key, 0);
    lemma_blank_from_tail(x, y, key, 0);
    lemma_blank_from_found(y, key, 0);
    match crate::learn::session::blank_from(y, key, 0) {
        Some(j) => {
            let p = j + x.len();
            assert(occurs_at(y, key, j));
            let r = y.skip(j + key.len());
            lemma_lead_ws_le(r);
            lemma_last_eol_range(r, lead_ws(r) as int);
            assert(s.skip(p + key.len()) =~= y.skip(j + key.len()));
            let ey = j + key.len() + crate::learn::session::blank_end(y.skip(j + key.len()))->0;
            let es = p + key.len() + crate::learn::session::blank_end(s.skip(p + key.len()))->0;
            assert(es == ey + x.len());
            assert(s.subrange(p, es) =~= y.subrange(j, ey));
            assert(s.take(p) =~= x + y.take(j));
            assert(s.skip(es) =~= y.skip(ey));
            assert(crate::learn::session::replace_blank(s, key, rep) =~= x + crate::learn::session::replace_blank(y, key, rep));
        },
        None => {},
    }
}

/// A blank field on the first line, followed by another line, is replaced
/// by `rep` and the newline stays.
proof fn lemma_blank_first(key: Seq<char>, rest: Seq<char>, rep: Seq<char>)
    requires
        key.len() > 0,
        rest.len() >= 2,
        rest[0] == '\n',
        !is_ws(rest[1]),
        no_dollar(rep),
    ensures
        crate::learn::session::replace_blank(key + rest, key, rep) == rep + rest,
{
    let y = key + rest;
    assert(y.subrange(0, key.len() as int) =~= key);
    assert(y.skip(key.len() as int) =~= rest);
    lemma_lead_ws(rest, 1);
    assert(crate::learn::session::last_eol_upto(rest, 0) == Some(0int));
    assert(crate::learn::session::last_eol_upto(rest, 1) == Some(0int));
    assert(crate::learn::session::blank_end(rest) == Some(0int));
    assert(y.subrange(0, key.len() as int) =~= key);
    assert(crate::learn::session::blank_at(y, key, 0));
    lemma_expand_plain(rep, key);
    assert(y.take(0) + rep + y.skip(key.len() as int) =~= rep + rest);
}

/// A blank field on the last line, ended by one newline, is replaced by
/// `rep`, which takes the newline.
proof fn lemma_blank_last(key: Seq<char>, rep: Seq<char>)
    requires
        key.len() > 0,
        no_dollar(rep),
    ensures
        crate::learn::session::replace_blank(key + seq!['\n'], key, rep) == rep,
{
    let y = key + seq!['\n'];
    let r = seq!['\n'];
    assert(y.subrange(0, key.len() as int) =~= key);
    assert(y.skip(key.len() as int) =~= r);
    lemma_lead_ws(r, 1);
    assert(crate::learn::session::last_eol_upto(r, 1) == Some(1int));
    assert(crate::learn::session::blank_end(r) == Some(1int));
    assert(crate::learn::session::blank_at(y, key, 0));
    assert(y.subrange(0, key.len() as int + 1) =~= y);
    lemma_expand_plain(rep, y);
    assert(y.take(0) + rep + y.skip(key.len() as int + 1) =~= rep);
}

/// `x` followed by the line `l` and its newline.
pub open spec fn add_line(x: Seq<char>, l: Seq<char>) -> Seq<char> {
    x + l + seq!['\n']
}

/// An answer that a session section can hold and still be graded: one line,
/// no line of it beginning like a heading (`### `) or a grade field.
pub open spec fn answer_ok(a: Seq<char>) -> bool {
    &&& starts_avoid(a, "Score:"@, 0)
    &&& starts_avoid(a, "Feedback:"@, 0)
    &&& starts_avoid(a, "Hint:"@, 0)
    &&& starts_avoid(a, "Next review:"@, 0)
    &&& starts_avoid(a, "### "@, 0)
}

/// An item whose section can be graded: term, prompt type and prompt on one
/// line each, the term not empty.
pub open spec fn gradable_item(it: ReviewItem) -> bool {
    one_line(it.concept_term@) && it.concept_term@.len() > 0 && one_line(it.prompt_type@) && one_line(
        it.prompt@,
    )
}

/// A grade whose feedback and hint are read back: one line each, with some
/// text, and no `$`.
pub open spec fn grade_ok(g: Grade) -> bool {
    one_line(g.feedback@) && has_text(g.feedback@) && no_dollar(g.feedback@) && one_line(g.hint@)
        && has_text(g.hint@) && no_dollar(g.hint@)
}

/// An item's section up to its grade fields, with `a` written under
/// `My answer:`.
pub open spec fn answered_prefix(it: ReviewItem, a: Seq<char>) -> Seq<char> {
    add_line(
        add_line(
            add_line(
                add_line(
                    add_line(
                        add_line(
                            add_line(Seq::empty(), "### "@ + it.concept_term@),
                            "Prompt Type: "@ + it.prompt_type@,
                        ),
                        "Prompt: "@ + it.prompt@,
                    ),
                    Seq::empty(),
                ),
                "My answer:"@,
            ),
            a,
        ),
        Seq::empty(),
    )
}

/// An item's section with `a` written under `My answer:` and blank grade
/// fields.
pub open spec fn answered_section(it: ReviewItem, a: Seq<char>) -> Seq<char> {
    add_line(add_line(add_line(add_line(answered_prefix(it, a), "Score:"@), "Feedback:"@), "Hint:"@), "Next review:"@)
}

/// The grade lines that filling writes for grade `g`.
pub open spec fn score_line(g: Grade) -> Seq<char> {
    "Score: "@ + crate::text::decimal(g.score as nat)
}

pub open spec fn feedback_line(g: Grade) -> Seq<char> {
    "Feedback: "@ + g.feedback@
}

pub open spec fn hint_line(g: Grade) -> Seq<char> {
    "Hint: "@ + g.hint@
}

pub open spec fn next_line(g: Grade) -> Seq<char> {
    "Next review: "@ + crate::text::decimal(g.next_review_days as nat) + " day(s)"@
}

/// An answered section with grade `g` filled in. The last field takes the
/// section's final newline.
pub open spec fn graded_text(it: ReviewItem, a: Seq<char>, g: Grade) -> Seq<char> {
    add_line(add_line(add_line(answered_prefix(it, a), score_line(g)), feedback_line(g)), hint_line(g)) + next_line(g)
}

proof fn lemma_one_line_concat(a: Seq<char>, b: Seq<char>)
    requires
        one_line(a),
        one_line(b),
    ensures
        one_line(a + b),
{
    assert forall|i: int| 0 <= i < (a + b).len() implies (a + b)[i] != '\n' by {
        if i >= a.len() {
            assert((a + b)[i] == b[i - a.len()]);
        }
    }
}

proof fn lemma_grade_lines(g: Grade)
    requires
        grade_ok(g),
    ensures
        one_line(score_line(g)) && score_line(g)[0] == 'S' && no_dollar(score_line(g)),
        one_line(feedback_line(g)) && feedback_line(g)[0] == 'F' && no_dollar(feedback_line(g)),
        one_line(hint_line(g)) && hint_line(g)[0] == 'H' && no_dollar(hint_line(g)),
        one_line(next_line(g)) && next_line(g)[0] == 'N' && no_dollar(next_line(g)),
{
    reveal_strlit("Score: ");
    reveal_strlit("Feedback: ");
    reveal_strlit("Hint: ");
    reveal_strlit("Next review: ");
    reveal_strlit(" day(s)");
    lemma_decimal_digits(g.score as nat);
    lemma_decimal_digits(g.next_review_days as nat);
    let d1 = crate::text::decimal(g.score as nat);
    let d2 = crate::text::decimal(g.next_review_days as nat);
    assert(one_line(d1) && no_dollar(d1)) by {
        assert forall|i: int| 0 <= i < d1.len() implies d1[i] != '\n' && d1[i] != '$' by {
            assert(crate::cdt::scanner::is_digit(d1[i]));
        }
    }
    assert(one_line(d2) && no_dollar(d2)) by {
        assert forall|i: int| 0 <= i < d2.len() implies d2[i] != '\n' && d2[i] != '$' by {
            assert(crate::cdt::scanner::is_digit(d2[i]));
        }
    }
    let l1 = score_line(g);
    assert forall|i: int| 0 <= i < l1.len() implies l1[i] != '\n' && l1[i] != '$' by {
        if i >= 7 {
            assert(l1[i] == d1[i - 7]);
        }
    }
    let l2 = feedback_line(g);
    assert forall|i: int| 0 <= i < l2.len() implies l2[i] != '\n' && l2[i] != '$' by {
        if i >= 10 {
            assert(l2[i] == g.feedback@[i - 10]);
        }
    }
    let l3 = hint_line(g);
    assert forall|i: int| 0 <= i < l3.len() implies l3[i] != '\n' && l3[i] != '$' by {
        if i >= 6 {
            assert(l3[i] == g.hint@[i - 6]);
        }
    }
    let l4 = next_line(g);
    assert forall|i: int| 0 <= i < l4.len() implies l4[i] != '\n' && l4[i] != '$' by {
        if 13 <= i < 13 + d2.len() {
            assert(l4[i] == d2[i - 13]);
        }
    }
}

proof fn lemma_prefix_avoids(it: ReviewItem, a: Seq<char>, key: Seq<char>, lo: int)
    requires
        gradable_item(it),
        starts_avoid(a, key, 0),
        one_line(key),
        key.len() > 0,
        key[0] != 'P' && key[0] != 'M',
        key[0] == '#' ==> lo == 1,
        key[0] != '#' ==> lo == 0,
    ensures
        starts_avoid(answered_prefix(it, a), key, lo),
        answered_prefix(it, a).len() > 0,
        answered_prefix(it, a).last() == '\n',
{
    reveal_strlit("### ");
    reveal_strlit("Prompt Type: ");
    reveal_strlit("Prompt: ");
    reveal_strlit("My answer:");
    let e = Seq::<char>::empty();
    let l1 = "### "@ + it.concept_term@;
    let l2 = "Prompt Type: "@ + it.prompt_type@;
    let l3 = "Prompt: "@ + it.prompt@;
    let l5 = "My answer:"@;
    assert(one_line("### "@) && one_line("Prompt Type: "@) && one_line("Prompt: "@) && one_line(l5));
    lemma_one_line_concat("### "@, it.concept_term@);
    lemma_one_line_concat("Prompt Type: "@, it.prompt_type@);
    lemma_one_line_concat("Prompt: "@, it.prompt@);
    assert(one_line(e));
    lemma_line_avoids(e, key);
    lemma_line_avoids(l2, key);
    lemma_line_avoids(l3, key);
    lemma_line_avoids(l5, key);
    let x1 = add_line(e, l1);
    if key[0] == '#' {
        assert forall|q: int| 1 <= q < x1.len() && line_start(x1, q) implies !#[trigger] occurs_at(x1, key, q) by {
            assert(x1[q - 1] == l1[q - 1]);
        }
    } else {
        lemma_line_avoids(l1, key);
        lemma_add_line(e, l1, key, 0);
    }
    let x2 = add_line(x1, l2);
    lemma_add_line(x1, l2, key, lo);
    let x3 = add_line(x2, l3);
    lemma_add_line(x2, l3, key, lo);
    let x4 = add_line(x3, e);
    lemma_add_line(x3, e, key, lo);
    let x5 = add_line(x4, l5);
    lemma_add_line(x4, l5, key, lo);
    let x6 = add_line(x5, a);
    lemma_add_line(x5, a, key, lo);
    lemma_add_line(x6, e, key, lo);
}

proof fn lemma_marker_keys()
    ensures
        one_line("Score:"@) && "Score:"@.len() == 6 && "Score:"@[0] == 'S',
        one_line("Feedback:"@) && "Feedback:"@.len() == 9 && "Feedback:"@[0] == 'F',
        one_line("Hint:"@) && "Hint:"@.len() == 5 && "Hint:"@[0] == 'H',
        one_line("Next review:"@) && "Next review:"@.len() == 12 && "Next review:"@[0] == 'N',
        one_line("### "@) && "### "@.len() == 4 && "### "@[0] == '#',
{
    reveal_strlit("Score:");
    reveal_strlit("Feedback:");
    reveal_strlit("Hint:");
    reveal_strlit("Next review:");
    reveal_strlit("### ");
}

proof fn lemma_graded_avoids(it: ReviewItem, a: Seq<char>, g: Grade)
    requires
        gradable_item(it),
        answer_ok(a),
        grade_ok(g),
    ensures
        starts_avoid(add_line(answered_prefix(it, a), score_line(g)), "Feedback:"@, 0),
        starts_avoid(add_line(add_line(answered_prefix(it, a), score_line(g)), feedback_line(g)), "Hint:"@, 0),
        starts_avoid(
            add_line(add_line(add_line(answered_prefix(it, a), score_line(g)), feedback_line(g)), hint_line(g)),
            "Next review:"@,
            0,
        ),
        starts_avoid(graded_text(it, a, g), "### "@, 1),
        starts_avoid(answered_section(it, a), "### "@, 1),
{
    lemma_grade_lines(g);
    lemma_marker_keys();
    let p = answered_prefix(it, a);
    let l1 = score_line(g);
    let l2 = feedback_line(g);
    let l3 = hint_line(g);
    let l4 = next_line(g);
    let f = "Feedback:"@;
    let h = "Hint:"@;
    let n = "Next review:"@;
    let hd = "### "@;
    lemma_prefix_avoids(it, a, f, 0);
    lemma_line_avoids(l1, f);
    lemma_add_line(p, l1, f, 0);
    lemma_prefix_avoids(it, a, h, 0);
    lemma_line_avoids(l1, h);
    lemma_line_avoids(l2, h);
    lemma_add_line(p, l1, h, 0);
    lemma_add_line(add_line(p, l1), l2, h, 0);
    lemma_prefix_avoids(it, a, n, 0);
    lemma_line_avoids(l1, n);
    lemma_line_avoids(l2, n);
    lemma_line_avoids(l3, n);
    lemma_add_line(p, l1, n, 0);
    lemma_add_line(add_line(p, l1), l2, n, 0);
    lemma_add_line(add_line(add_line(p, l1), l2), l3, n, 0);
    lemma_prefix_avoids(it, a, hd, 1);
    lemma_line_avoids(l1, hd);
    lemma_line_avoids(l2, hd);
    lemma_line_avoids(l3, hd);
    lemma_line_avoids(l4, hd);
    lemma_add_line(p, l1, hd, 1);
    lemma_add_line(add_line(p, l1), l2, hd, 1);
    lemma_add_line(add_line(add_line(p, l1), l2), l3, hd, 1);
    lemma_add_line(add_line(add_line(add_line(p, l1), l2), l3), l4, hd, 1);
    let k1 = "Score:"@;
    lemma_line_avoids(k1, hd);
    lemma_line_avoids(f, hd);
    lemma_line_avoids(h, hd);
    lemma_line_avoids(n, hd);
    lemma_add_line(p, k1, hd, 1);
    lemma_add_line(add_line(p, k1), f, hd, 1);
    lemma_add_line(add_line(add_line(p, k1), f), h, hd, 1);
    lemma_add_line(add_line(add_line(add_line(p, k1), f), h), n, hd, 1);
}

proof fn lemma_fill_step(x: Seq<char>, key: Seq<char>, rest: Seq<char>, rep: Seq<char>)
    requires
        x.len() > 0,
        x.last() == '\n',
        key.len() > 0,
        one_line(key),
        starts_avoid(x, key, 0),
        rest.len() >= 2,
        rest[0] == '\n',
        !is_ws(rest[1]),
        no_dollar(rep),
    ensures
        crate::learn::session::replace_blank(x + (key + rest), key, rep) == x + (rep + rest),
{
    lemma_blank_shift(x, key + rest, key, rep);
    lemma_blank_first(key, rest, rep);
}

proof fn lemma_fill_last(x: Seq<char>, key: Seq<char>, rep: Seq<char>)
    requires
        x.len() > 0,
        x.last() == '\n',
        key.len() > 0,
        one_line(key),
        starts_avoid(x, key, 0),
        no_dollar(rep),
    ensures
        crate::learn::session::replace_blank(x + (key + seq!['\n']), key, rep) == x + rep,
{
    lemma_blank_shift(x, key + seq!['\n'], key, rep);
    lemma_blank_last(key, rep);
}

/// Filling grade `g` into an answered section writes its four lines.
#[verifier::rlimit(100)]
proof fn lemma_fill_section(it: ReviewItem, a: Seq<char>, g: Grade)
    requires
        gradable_item(it),
        answer_ok(a),
        grade_ok(g),
    ensures
        crate::learn::session::graded_section(answered_section(it, a), g) == graded_text(it, a, g),
{
    lemma_grade_lines(g);
    lemma_graded_avoids(it, a, g);
    lemma_marker_keys();
    lemma_prefix_avoids(it, a, "Score:"@, 0);
    reveal_strlit("Score:");
    reveal_strlit("Feedback:");
    reveal_strlit("Hint:");
    reveal_strlit("Next review:");
    let nl = seq!['\n'];
    let p = answered_prefix(it, a);
    let k1 = "Score:"@;
    let k2 = "Feedback:"@;
    let k3 = "Hint:"@;
    let k4 = "Next review:"@;
    let l1 = score_line(g);
    let l2 = feedback_line(g);
    let l3 = hint_line(g);
    let l4 = next_line(g);
    let r1 = nl + k2 + nl + k3 + nl + k4 + nl;
    let r2 = nl + k3 + nl + k4 + nl;
    let r3 = nl + k4 + nl;
    let x2 = add_line(p, l1);
    let x3 = add_line(x2, l2);
    let x4 = add_line(x3, l3);
    assert(answered_section(it, a) =~= p + (k1 + r1));
    lemma_fill_step(p, k1, r1, l1);
    assert(p + (l1 + r1) =~= x2 + (k2 + r2));
    lemma_fill_step(x2, k2, r2, l2);
    assert(x2 + (l2 + r2) =~= x3 + (k3 + r3));
    lemma_fill_step(x3, k3, r3, l3);
    assert(x3 + (l3 + r3) =~= x4 + (k4 + nl));
    lemma_fill_last(x4, k4, l4);
    assert(x4 + l4 =~= graded_text(it, a, g));
}

proof fn lemma_score_from_first(b: Seq<char>, q: int, p: int, v: nat)
    requires
        0 <= q <= p <= b.len(),
        score_at(b, p) == Some(v),
        forall|k: int| q <= k < p ==> score_at(b, k) is None,
    ensures
        score_from(b, q) == Some(v),
    decreases p - q,
{
    if q < p {
        lemma_score_from_first(b, q + 1, p, v);
    }
}

proof fn lemma_read_score(it: ReviewItem, a: Seq<char>, g: Grade)
    requires
        gradable_item(it),
        answer_ok(a),
        grade_ok(g),
    ensures
        score_from(graded_text(it, a, g), 0) == Some(g.score as nat),
{
    lemma_grade_lines(g);
    lemma_marker_keys();
    lemma_prefix_avoids(it, a, "Score:"@, 0);
    reveal_strlit("Score:");
    reveal_strlit("Score: ");
    let pre = answered_prefix(it, a);
    let sc = graded_text(it, a, g);
    let d = crate::text::decimal(g.score as nat);
    lemma_decimal_digits(g.score as nat);
    let rest = seq!['\n'] + feedback_line(g) + seq!['\n'] + hint_line(g) + seq!['\n'] + next_line(g);
    assert(sc =~= pre + ("Score: "@ + d + rest));
    lemma_avoid_extend(pre, "Score: "@ + d + rest, "Score:"@, 0);
    let p = pre.len() as int;
    assert forall|k: int| 0 <= k < p implies score_at(sc, k) is None by {
        assert(!key_at(sc, "Score:"@, k));
    }
    assert(sc.subrange(p, p + 6) =~= "Score:"@);
    assert(sc[p - 1] == pre.last());
    assert(key_at(sc, "Score:"@, p));
    let r = sc.skip(p + 6);
    assert(r =~= seq![' '] + (d + rest));
    assert(!is_ws(r[1])) by {
        assert(r[1] == d[0]);
        assert(crate::cdt::scanner::is_digit(d[0]));
    }
    lemma_lead_ws(r, 1);
    let dd = r.skip(1);
    assert(dd =~= d + rest);
    crate::learn::review::lemma_digit_run(dd, d.len() as int);
    assert(dd.take(d.len() as int) =~= d);
    lemma_score_from_first(sc, 0, p, g.score as nat);
}

proof fn lemma_prefix_term(it: ReviewItem, a: Seq<char>, rest: Seq<char>)
    requires
        gradable_item(it),
    ensures
        section_term(answered_prefix(it, a) + rest) == Some(trim(it.concept_term@)),
{
    reveal_strlit("### ");
    let pre = answered_prefix(it, a);
    let sc = pre + rest;
    let t = it.concept_term@;
    let tl = t.len() as int;
    let l1 = "### "@ + t;
    assert(l1.len() == 4 + tl);
    let x1 = add_line(Seq::empty(), l1);
    assert(pre.len() >= x1.len() && forall|k: int| 0 <= k < x1.len() ==> pre[k] == x1[k]) by {
        let x2 = add_line(x1, "Prompt Type: "@ + it.prompt_type@);
        let x3 = add_line(x2, "Prompt: "@ + it.prompt@);
        let x4 = add_line(x3, Seq::empty());
        let x5 = add_line(x4, "My answer:"@);
        let x6 = add_line(x5, a);
        assert(pre =~= x1 + (pre.skip(x1.len() as int)));
    }
    assert forall|k: int| 0 <= k < tl implies sc[4 + k] == t[k] by {
        assert(sc[4 + k] == pre[4 + k]);
        assert(x1[4 + k] == t[k]);
    }
    assert(sc[4 + tl] == '\n') by {
        assert(sc[4 + tl] == pre[4 + tl]);
        assert(x1[4 + tl] == '\n');
    }
    let r = sc.skip(4);
    assert forall|k: int| 0 <= k < tl implies r[k] != '\n' by {
        assert(r[k] == t[k]);
    }
    lemma_nl_index(r, tl);
    assert(rest_of_line(r) =~= t);
}

proof fn lemma_read_feedback(it: ReviewItem, a: Seq<char>, g: Grade)
    requires
        gradable_item(it),
        answer_ok(a),
        grade_ok(g),
    ensures
        field_text(graded_text(it, a, g), "Feedback:"@) == trim(g.feedback@),
{
    lemma_grade_lines(g);
    lemma_marker_keys();
    lemma_prefix_avoids(it, a, "Feedback:"@, 0);
    let pre = answered_prefix(it, a);
    lemma_line_avoids(score_line(g), "Feedback:"@);
    lemma_add_line(pre, score_line(g), "Feedback:"@, 0);
    reveal_strlit("Feedback:");
    reveal_strlit("Feedback: ");
    reveal_strlit(" ");
    let nl = seq!['\n'];
    let sc = graded_text(it, a, g);
    let x2 = add_line(pre, score_line(g));
    let rest = nl + hint_line(g) + nl + next_line(g);
    let y2 = "Feedback:"@ + (" "@ + g.feedback@ + rest);
    assert(sc =~= x2 + y2);
    lemma_avoid_extend(x2, y2, "Feedback:"@, 0);
    let n = x2.len() as int;
    assert forall|k: int| 0 <= k < n implies !key_at(sc, "Feedback:"@, k) by {}
    assert(sc.subrange(n, n + 9) =~= "Feedback:"@);
    assert(key_at(sc, "Feedback:"@, n));
    lemma_key_line_first(sc, "Feedback:"@, 0, n);
    assert(sc.skip(n + 9) =~= " "@ + g.feedback@ + rest);
    lemma_field_value(g.feedback@, rest);
}

proof fn lemma_read_hint(it: ReviewItem, a: Seq<char>, g: Grade)
    requires
        gradable_item(it),
        answer_ok(a),
        grade_ok(g),
    ensures
        field_text(graded_text(it, a, g), "Hint:"@) == trim(g.hint@),
{
    lemma_grade_lines(g);
    lemma_marker_keys();
    lemma_prefix_avoids(it, a, "Hint:"@, 0);
    let pre = answered_prefix(it, a);
    lemma_line_avoids(score_line(g), "Hint:"@);
    lemma_line_avoids(feedback_line(g), "Hint:"@);
    lemma_add_line(pre, score_line(g), "Hint:"@, 0);
    lemma_add_line(add_line(pre, score_line(g)), feedback_line(g), "Hint:"@, 0);
    reveal_strlit("Hint:");
    reveal_strlit("Hint: ");
    reveal_strlit(" ");
    let nl = seq!['\n'];
    let sc = graded_text(it, a, g);
    let x3 = add_line(add_line(pre, score_line(g)), feedback_line(g));
    let rest = nl + next_line(g);
    let y3 = "Hint:"@ + (" "@ + g.hint@ + rest);
    assert(sc =~= x3 + y3);
    lemma_avoid_extend(x3, y3, "Hint:"@, 0);
    let n = x3.len() as int;
    assert forall|k: int| 0 <= k < n implies !key_at(sc, "Hint:"@, k) by {}
    assert(sc.subrange(n, n + 5) =~= "Hint:"@);
    assert(key_at(sc, "Hint:"@, n));
    lemma_key_line_first(sc, "Hint:"@, 0, n);
    assert(sc.skip(n + 5) =~= " "@ + g.hint@ + rest);
    lemma_field_value(g.hint@, rest);
}

proof fn lemma_single_section(h: Seq<char>, sec: Seq<char>)
    requires
        h.len() > 0,
        h.last() == '\n',
        forall|i: int| 0 <= i < h.len() ==> !crate::learn::review::heading_at(h, i),
        sec.len() >= 4,
        sec.subrange(0, 4) == "### "@,
        starts_avoid(sec, "### "@, 1),
    ensures
        heading_positions(h + ("\n"@ + sec), (h + ("\n"@ + sec)).len() as int) == seq![h.len() as int + 1],
        sections_of(h + ("\n"@ + sec)) == seq![sec],
{
    reveal_strlit("\n");
    let d = h + ("\n"@ + sec);
    let n = h.len() as int;
    assert forall|j: int| 1 <= j < sec.len() && sec[j - 1] == '\n' implies !#[trigger] occurs_at(sec, "### "@, j) by {
        assert(line_start(sec, j));
    }
    lemma_segment_headings(h, sec);
    lemma_positions_agree(d, h, n);
    lemma_positions_none(h, 0, n);
    lemma_positions_one(d, n, n + 1, d.len() as int);
    assert(heading_positions(h, 0) =~= Seq::<int>::empty());
    assert(heading_positions(d, d.len() as int) =~= seq![n + 1]);
    assert(d.subrange(n + 1, d.len() as int) =~= sec);
    assert(sections_of(d) =~= seq![sec]);
}

proof fn lemma_sections_start(it: ReviewItem, a: Seq<char>, g: Grade)
    requires
        gradable_item(it),
        answer_ok(a),
        grade_ok(g),
    ensures
        answered_section(it, a).len() >= 4,
        answered_section(it, a).subrange(0, 4) == "### "@,
        graded_text(it, a, g).len() >= 4,
        graded_text(it, a, g).subrange(0, 4) == "### "@,
        answered_prefix(it, a) + answered_section(it, a).skip(answered_prefix(it, a).len() as int)
            == answered_section(it, a),
        answered_prefix(it, a) + graded_text(it, a, g).skip(answered_prefix(it, a).len() as int)
            == graded_text(it, a, g),
{
    reveal_strlit("### ");
    let pre = answered_prefix(it, a);
    let sec = answered_section(it, a);
    let st = graded_text(it, a, g);
    let x1 = add_line(Seq::<char>::empty(), "### "@ + it.concept_term@);
    assert(pre =~= x1 + pre.skip(x1.len() as int));
    assert(x1.subrange(0, 4) =~= "### "@);
    assert(pre.subrange(0, 4) =~= "### "@);
    assert(sec =~= pre + sec.skip(pre.len() as int));
    assert(st =~= pre + st.skip(pre.len() as int));
    assert(sec.subrange(0, 4) =~= pre.subrange(0, 4));
    assert(st.subrange(0, 4) =~= pre.subrange(0, 4));
}

#[verifier::rlimit(80)]
proof fn lemma_fill_doc(it: ReviewItem, a: Seq<char>, date: Seq<char>, now: Seq<char>, grades: Seq<Grade>, k: int)
    requires
        gradable_item(it),
        answer_ok(a),
        one_line(date),
        one_line(now),
        0 <= k < grades.len(),
        crate::learn::session::grade_index(grades, trim(it.concept_term@)) == Some(k),
        grade_ok(grades[k]),
    ensures
        crate::learn::session::fill_grades_spec(header_text(date, now) + ("\n"@ + answered_section(it, a)), grades)
            == header_text(date, now) + ("\n"@ + graded_text(it, a, grades[k])),
{
    let g = grades[k];
    let h = header_text(date, now);
    let sec = answered_section(it, a);
    let st = graded_text(it, a, g);
    let pre = answered_prefix(it, a);
    lemma_header(date, now);
    lemma_graded_avoids(it, a, g);
    lemma_sections_start(it, a, g);
    lemma_single_section(h, sec);
    let doc = h + ("\n"@ + sec);
    assert(doc.take(h.len() as int + 1) =~= h + "\n"@) by {
        reveal_strlit("\n");
    }
    let secs = sections_of(doc);
    assert(secs.drop_last() =~= Seq::<Seq<char>>::empty());
    assert(crate::learn::session::filled_sections(secs.drop_last(), grades) =~= Seq::<char>::empty());
    lemma_prefix_term(it, a, sec.skip(pre.len() as int));
    lemma_fill_section(it, a, g);
    assert(crate::learn::session::filled_section(sec, grades) == st);
    assert(crate::learn::session::filled_sections(secs, grades) =~= st);
    assert(crate::learn::session::fill_grades_spec(doc, grades) =~= h + ("\n"@ + st));
}

proof fn lemma_graded_sections(it: ReviewItem, a: Seq<char>, date: Seq<char>, now: Seq<char>, g: Grade)
    requires
        gradable_item(it),
        answer_ok(a),
        one_line(date),
        one_line(now),
        grade_ok(g),
    ensures
        sections_of(header_text(date, now) + ("\n"@ + graded_text(it, a, g))) == seq![graded_text(it, a, g)],
{
    lemma_header(date, now);
    lemma_graded_avoids(it, a, g);
    lemma_sections_start(it, a, g);
    lemma_single_section(header_text(date, now), graded_text(it, a, g));
}

#[verifier::rlimit(80)]
proof fn lemma_view_graded(it: ReviewItem, a: Seq<char>, g: Grade)
    requires
        gradable_item(it),
        answer_ok(a),
        grade_ok(g),
    ensures
        crate::learn::review::graded(read_sections(seq![graded_text(it, a, g)]))
            == seq![(trim(it.concept_term@), g.score as nat, trim(g.feedback@), trim(g.hint@))],
{
    let st = graded_text(it, a, g);
    let pre = answered_prefix(it, a);
    lemma_sections_start(it, a, g);
    lemma_prefix_term(it, a, st.skip(pre.len() as int));
    lemma_read_score(it, a, g);
    lemma_read_feedback(it, a, g);
    lemma_read_hint(it, a, g);
    assert(section_term(st) == Some(trim(it.concept_term@)));
    assert(section_view(st) is Some);
    let bs = seq![st];
    assert(bs.drop_last() =~= Seq::<Seq<char>>::empty());
    assert(bs.last() == st);
    assert(read_sections(Seq::<Seq<char>>::empty()) =~= Seq::<crate::learn::review::SectionView>::empty());
    let v = section_view(st)->0;
    assert(v.4 == Some(g.score as nat));
    assert(read_sections(bs) =~= seq![v]);
    let vs = seq![v];
    assert(vs.drop_last() =~= Seq::<crate::learn::review::SectionView>::empty());
    assert(vs.last() == v);
    assert(crate::learn::review::graded(Seq::<crate::learn::review::SectionView>::empty()) =~= Seq::<(Seq<char>, nat, Seq<char>, Seq<char>)>::empty());
    assert(crate::learn::review::graded(vs) =~= seq![(v.0, g.score as nat, v.5, v.6)]);
}

proof fn lemma_read_doc(it: ReviewItem, a: Seq<char>, date: Seq<char>, now: Seq<char>, g: Grade)
    requires
        gradable_item(it),
        answer_ok(a),
        one_line(date),
        one_line(now),
        grade_ok(g),
    ensures
        crate::learn::review::graded(read_sections(sections_of(header_text(date, now) + ("\n"@ + graded_text(it, a, g)))))
            == seq![(trim(it.concept_term@), g.score as nat, trim(g.feedback@), trim(g.hint@))],
{
    lemma_graded_sections(it, a, date, now, g);
    lemma_view_graded(it, a, g);
}

proof fn lemma_rendered_one(it: ReviewItem, date: Seq<char>, now: Seq<char>)
    ensures
        session_text(seq![it], date, now) == header_text(date, now) + ("\n"@ + answered_section(it, Seq::empty())),
{
    let items = seq![it];
    lemma_session_step(items, date, now);
    assert(items.drop_last() =~= Seq::<ReviewItem>::empty());
    assert(session_text(items.drop_last(), date, now) == header_text(date, now)) by {
        reveal_strlit("\n");
    }
    reveal_strlit("\n\nMy answer:\n\n\nScore:\nFeedback:\nHint:\nNext review:\n");
    reveal_strlit("### ");
    reveal_strlit("\nPrompt Type: ");
    reveal_strlit("\nPrompt: ");
    reveal_strlit("Prompt Type: ");
    reveal_strlit("Prompt: ");
    reveal_strlit("My answer:");
    reveal_strlit("Score:");
    reveal_strlit("Feedback:");
    reveal_strlit("Hint:");
    reveal_strlit("Next review:");
    assert(answered_section(it, Seq::empty()) =~= item_section(it));
}

/// Grades filled into a session note of one item, with an answer written
/// under `My answer:`, read back: the graded item is the section's term with
/// the score of the last grade for that term and its feedback and hint,
/// trimmed. A note rendered for the item, with the answer empty, is such a
/// note.
pub proof fn graded_session_reads_back(
    it: ReviewItem,
    answer: Seq<char>,
    date: Seq<char>,
    now: Seq<char>,
    grades: Seq<Grade>,
    k: int,
)
    requires
        gradable_item(it),
        answer_ok(answer),
        one_line(date),
        one_line(now),
        0 <= k < grades.len(),
        crate::learn::session::grade_index(grades, trim(it.concept_term@)) == Some(k),
        grade_ok(grades[k]),
    ensures
        session_text(seq![it], date, now) == header_text(date, now) + ("\n"@ + answered_section(it, Seq::empty())),
        crate::learn::session::fill_grades_spec(
            header_text(date, now) + ("\n"@ + answered_section(it, answer)),
            grades,
        ) == header_text(date, now) + ("\n"@ + graded_text(it, answer, grades[k])),
        crate::learn::review::graded(
            read_sections(
                sections_of(
                    crate::learn::session::fill_grades_spec(
                        header_text(date, now) + ("\n"@ + answered_section(it, answer)),
                        grades,
                    ),
                ),
            ),
        ) == seq![(trim(it.concept_term@), grades[k].score as nat, trim(grades[k].feedback@), trim(grades[k].hint@))],
{
    lemma_rendered_one(it, date, now);
    lemma_fill_doc(it, answer, date, now, grades, k);
    lemma_read_doc(it, answer, date, now, grades[k]);
}

} // verus!
