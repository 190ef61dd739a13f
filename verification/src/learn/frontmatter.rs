//! The fields of a concept note that the tool owns (their keys begin with
//! `_`), and how a note is written back from its frontmatter and body.

use vstd::prelude::*;
use crate::text::{chars_of, push_all, push_str, string_of, sub_chars};

verus! {

/// A value that the tool writes into a note's frontmatter.
#[derive(Debug, Clone, PartialEq, Eq)]
pub enum FieldValue {
    Int(u64),
    Text(String),
}

/// A key that the tool may write: it begins with `_`.
pub open spec fn system_key(key: Seq<char>) -> bool {
    key.len() > 0 && key[0] == '_'
}

/// Whether the tool may write the frontmatter key `key`.
pub fn is_system_key(key: &str) -> (r: bool)
    ensures
        r == system_key(key@),
{
    let k = chars_of(key);
    k.len() > 0 && k[0] == '_'
}

/// The indices of the keys that the tool may write, in order.
pub open spec fn system_key_indices(keys: Seq<Seq<char>>) -> Seq<int>
    decreases keys.len(),
{
    if keys.len() == 0 {
        Seq::empty()
    } else if system_key(keys.last()) {
        system_key_indices(keys.drop_last()).push(keys.len() - 1)
    } else {
        system_key_indices(keys.drop_last())
    }
}

/// The indices of the updates, given by their keys, that are written: the
/// others would overwrite what the user owns and are skipped.
pub fn writable_updates(keys: &Vec<String>) -> (r: Vec<usize>)
    ensures
        r@.map_values(|k: usize| k as int) == system_key_indices(keys@.map_values(|s: String| s@)),
{
    let ghost kv = keys@.map_values(|s: String| s@);
    let mut out: Vec<usize> = Vec::new();
    let mut i: usize = 0;
    while i < keys.len()
        invariant
            i <= keys.len(),
            kv == keys@.map_values(|s: String| s@),
            out@.map_values(|k: usize| k as int) == system_key_indices(kv.take(i as int)),
        decreases keys.len() - i,
    {
        proof {
            assert(kv.take(i + 1).drop_last() =~= kv.take(i as int));
            assert(kv.take(i + 1).last() == keys@[i as int]@);
        }
        if is_system_key(keys[i].as_str()) {
            out.push(i);
        }
        i = i + 1;
        assert(out@.map_values(|k: usize| k as int) =~= system_key_indices(kv.take(i as int)));
    }
    assert(kv.take(i as int) =~= kv);
    out
}

/// The keys of the fields a note gets on first sight, for those it lacks.
pub open spec fn initial_keys(has_mastery: bool, has_review_count: bool, has_next_review: bool) -> Seq<Seq<char>> {
    let a: Seq<Seq<char>> = if has_mastery {
        Seq::empty()
    } else {
        seq!["_mastery"@]
    };
    let b = if has_review_count {
        a
    } else {
        a.push("_review_count"@)
    };
    if has_next_review {
        b
    } else {
        b.push("_next_review"@)
    }
}

/// The value a note first seen on `date` gets for field `key`: the date for
/// the next review, zero for the others.
pub open spec fn initial_value(key: Seq<char>, date: Seq<char>, v: FieldValue) -> bool {
    if key == "_next_review"@ {
        v matches FieldValue::Text(t) && t@ == date
    } else {
        v == FieldValue::Int(0)
    }
}

/// The updates that give a note first seen on `date` the fields it lacks:
/// mastery and review count zero, next review on `date`.
pub fn initial_fields(has_mastery: bool, has_review_count: bool, has_next_review: bool, date: &str) -> (r: Vec<(String, FieldValue)>)
    ensures
        r@.map_values(|u: (String, FieldValue)| u.0@) == initial_keys(has_mastery, has_review_count, has_next_review),
        forall|i: int| 0 <= i < r@.len() ==> initial_value(#[trigger] r@[i].0@, date@, r@[i].1),
{
    proof {
        reveal_strlit("_mastery");
        reveal_strlit("_review_count");
        reveal_strlit("_next_review");
    }
    let mut out: Vec<(String, FieldValue)> = Vec::new();
    if !has_mastery {
        out.push((String::from_str("_mastery"), FieldValue::Int(0)));
    }
    if !has_review_count {
        out.push((String::from_str("_review_count"), FieldValue::Int(0)));
    }
    if !has_next_review {
        out.push((String::from_str("_next_review"), FieldValue::Text(String::from_str(date))));
    }
    assert(out@.map_values(|u: (String, FieldValue)| u.0@) =~= initial_keys(has_mastery, has_review_count, has_next_review));
    assert forall|i: int| 0 <= i < out@.len() implies initial_value(#[trigger] out@[i].0@, date@, out@[i].1) by {
        assert(out@.map_values(|u: (String, FieldValue)| u.0@)[i] == out@[i].0@);
        assert("_mastery"@ != "_next_review"@ && "_review_count"@ != "_next_review"@) by {
            assert("_mastery"@.len() != "_next_review"@.len());
            assert("_review_count"@.len() != "_next_review"@.len());
        }
    }
    out
}

/// The number of `\n` that end `s`.
pub open spec fn trailing_newlines(s: Seq<char>) -> nat
    decreases s.len(),
{
    if s.len() > 0 && s.last() == '\n' {
        1 + trailing_newlines(s.drop_last())
    } else {
        0
    }
}

/// A note written back: the frontmatter between `---` lines (its trailing
/// newlines dropped), then the body.
pub open spec fn note_text(yaml: Seq<char>, body: Seq<char>) -> Seq<char> {
    "---\n"@ + yaml.take(yaml.len() - trailing_newlines(yaml)) + "\n---\n"@ + body
}

/// The text of a note with frontmatter `yaml`, as the YAML writer printed
/// it, and body `body`.
pub fn note_document(yaml: &str, body: &str) -> (r: String)
    ensures
        r@ == note_text(yaml@, body@),
{
    let y = chars_of(yaml);
    let mut n: usize = y.len();
    assert(y@.take(n as int) =~= y@);
    while n > 0 && y[n - 1] == '\n'
        invariant
            n <= y.len(),
            trailing_newlines(y@) == (y.len() - n) + trailing_newlines(y@.take(n as int)),
        decreases n,
    {
        assert(y@.take(n as int).drop_last() =~= y@.take(n - 1));
        n = n - 1;
    }
    assert(trailing_newlines(y@.take(n as int)) == 0);
    let head = sub_chars(&y, 0, n);
    let mut out: Vec<char> = Vec::new();
    push_str(&mut out, "---\n");
    push_all(&mut out, &head);
    push_str(&mut out, "\n---\n");
    push_str(&mut out, body);
    string_of(&out)
}

/// The frontmatter text of a written note: the YAML writer's text without
/// its trailing newlines.
pub open spec fn written_yaml(yaml: Seq<char>) -> Seq<char> {
    yaml.take(yaml.len() - trailing_newlines(yaml))
}

proof fn lemma_trailing_newlines_le(s: Seq<char>)
    ensures
        trailing_newlines(s) <= s.len(),
    decreases s.len(),
{
    if s.len() > 0 && s.last() == '\n' {
        lemma_trailing_newlines_le(s.drop_last());
    }
}

/// A note written with `note_document` reads back with its body unchanged
/// and, as frontmatter, the text that was written (after the newline that
/// follows the opening `---`), provided no line of that text begins with
/// `---`.
pub proof fn note_reads_back(yaml: Seq<char>, body: Seq<char>)
    requires
        !crate::text::contains("\n"@ + written_yaml(yaml), "\n---"@),
    ensures
        crate::learn::concept::frontmatter_split(note_text(yaml, body)) == (
            Some("\n"@ + written_yaml(yaml)),
            body,
        ),
{
    reveal_strlit("---\n");
    reveal_strlit("\n---\n");
    reveal_strlit("\n---");
    reveal_strlit("---");
    reveal_strlit("\n");
    lemma_trailing_newlines_le(yaml);
    let y = written_yaml(yaml);
    let raw = note_text(yaml, body);
    let pat = "\n---"@;
    assert(raw =~= "---\n"@ + y + "\n---\n"@ + body);
    crate::text::lemma_lead_ws(raw, 0);
    assert(raw.skip(0) =~= raw);
    let t = raw.skip(crate::text::lead_ws(raw) as int);
    assert(t.subrange(0, 3) =~= "---"@);
    assert(crate::text::starts_with(t, "---"@));
    let a = t.skip(3);
    let c: int = 1 + y.len() as int;
    assert(a =~= "\n"@ + y + "\n---\n"@ + body);
    let pre = "\n"@ + y;
    assert(a.subrange(c, c + 4) =~= pat);
    assert(crate::text::occurs_at(a, pat, c));
    assert forall|k: int| 0 <= k < c implies !crate::text::occurs_at(a, pat, k) by {
        if crate::text::occurs_at(a, pat, k) {
            if k + 4 <= c {
                assert(pre.subrange(k, k + 4) =~= a.subrange(k, k + 4));
                assert(crate::text::occurs_at(pre, pat, k));
            } else {
                // The closing newline would fall on one of the dashes.
                assert(a[c] == '\n');
                assert(a.subrange(k, k + 4)[c - k] == a[c]);
                assert(pat[c - k] == '-');
            }
        }
    }
    assert(crate::text::is_first_occurrence(a, pat, c));
    crate::text::lemma_first_occurrence(a, pat, c);
    let start = c + 4;
    let rest = a.skip(start);
    assert(rest =~= "\n"@ + body);
    assert(rest.drop_first() =~= body);
    assert(a.take(c) =~= pre);
}

} // verus!
