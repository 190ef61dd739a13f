//! Which concepts a review session takes, what it asks of each, and when a
//! graded concept comes up next.

use vstd::prelude::*;
use crate::cdt::conflicts::{chars_lt, chars_less};
use crate::learn::schedule::{interval_spec, next_interval_days};
use crate::learn::session::{file_stem_text, path_file_stem};
use crate::learn::types::ReviewItem;
use crate::text::{chars_of, push_str, string_of};

verus! {

// ---------------------------------------------------------------------------
// Due concepts
// ---------------------------------------------------------------------------

/// A concept is due on `date` when its next review is on or before that date
/// (dates written `YYYY-MM-DD` compare as text), or when it has none.
pub open spec fn due_spec(next_review: Option<Seq<char>>, date: Seq<char>) -> bool {
    match next_review {
        Some(nr) => !chars_lt(date, nr),
        None => true,
    }
}

/// A concept is in the domain asked for, where one is asked for.
pub open spec fn in_domain(concept_domain: Option<Seq<char>>, domain: Option<Seq<char>>) -> bool {
    match domain {
        Some(d) => concept_domain == Some(d),
        None => true,
    }
}

/// The view of an optional string.
pub open spec fn opt_view(o: Option<String>) -> Option<Seq<char>> {
    match o {
        Some(s) => Some(s@),
        None => None,
    }
}

/// The view of an optional string slice.
pub open spec fn opt_str_view(o: Option<&str>) -> Option<Seq<char>> {
    match o {
        Some(s) => Some(s@),
        None => None,
    }
}

/// A concept, by its next review date and domain, is taken on `date`.
pub open spec fn selected(c: (Option<String>, Option<String>), domain: Option<Seq<char>>, date: Seq<char>) -> bool {
    due_spec(opt_view(c.0), date) && in_domain(opt_view(c.1), domain)
}

/// The indices of the concepts taken, in order.
pub open spec fn due_indices(cs: Seq<(Option<String>, Option<String>)>, domain: Option<Seq<char>>, date: Seq<char>) -> Seq<int>
    decreases cs.len(),
{
    if cs.len() == 0 {
        Seq::empty()
    } else if selected(cs.last(), domain, date) {
        due_indices(cs.drop_last(), domain, date).push(cs.len() - 1)
    } else {
        due_indices(cs.drop_last(), domain, date)
    }
}

/// Concept `c` is due on `date` and, where a domain `d` is asked for, of
/// that domain: its next review (if any) is not after `date` as text, and
/// its domain is exactly `d`.
pub open spec fn due_in_domain(c: (Option<String>, Option<String>), domain: Option<Seq<char>>, date: Seq<char>) -> bool {
    &&& match c.0 {
        Some(nr) => !chars_lt(date, nr@),
        None => true,
    }
    &&& match domain {
        Some(d) => match c.1 {
            Some(cd) => cd@ == d,
            None => false,
        },
        None => true,
    }
}

/// The indices taken are exactly those of the concepts due on `date` in the
/// domain asked for, each once, in order.
pub open spec fn due_selection(cs: Seq<(Option<String>, Option<String>)>, domain: Option<Seq<char>>, date: Seq<char>, r: Seq<int>) -> bool {
    &&& forall|m: int| 0 <= m < r.len() ==> 0 <= #[trigger] r[m] < cs.len() && due_in_domain(cs[r[m]], domain, date)
    &&& forall|a: int, b: int| 0 <= a < b < r.len() ==> r[a] < r[b]
    &&& forall|k: int| 0 <= k < cs.len() && due_in_domain(#[trigger] cs[k], domain, date) ==> exists|m: int| 0 <= m < r.len() && r[m] == k
}

/// A session takes exactly the concepts due on its date, and, when a domain
/// is asked for, only concepts of that domain; in order, each once.
pub proof fn select_due_takes_due_concepts(cs: Seq<(Option<String>, Option<String>)>, domain: Option<Seq<char>>, date: Seq<char>)
    ensures
        due_selection(cs, domain, date, due_indices(cs, domain, date)),
    decreases cs.len(),
{
    let r = due_indices(cs, domain, date);
    if cs.len() > 0 {
        let p = cs.drop_last();
        select_due_takes_due_concepts(p, domain, date);
        let rp = due_indices(p, domain, date);
        let n = cs.len() - 1;
        assert forall|k: int| 0 <= k < n implies cs[k] == p[k] by {}
        assert(selected(cs.last(), domain, date) == due_in_domain(cs.last(), domain, date));
        if selected(cs.last(), domain, date) {
            assert(r == rp.push(n));
            assert forall|m: int| 0 <= m < r.len() implies 0 <= #[trigger] r[m] < cs.len() && due_in_domain(cs[r[m]], domain, date) by {
                if m < rp.len() {
                    assert(r[m] == rp[m]);
                }
            }
            assert forall|k: int| 0 <= k < cs.len() && due_in_domain(#[trigger] cs[k], domain, date) implies exists|m: int| 0 <= m < r.len() && r[m] == k by {
                if k < n {
                    assert(due_in_domain(p[k], domain, date));
                    let m = choose|m: int| 0 <= m < rp.len() && rp[m] == k;
                    assert(r[m] == k);
                } else {
                    assert(r[rp.len() as int] == k);
                }
            }
        } else {
            assert(r == rp);
            assert forall|k: int| 0 <= k < cs.len() && due_in_domain(#[trigger] cs[k], domain, date) implies exists|m: int| 0 <= m < r.len() && r[m] == k by {
                if k < n {
                    assert(due_in_domain(p[k], domain, date));
                }
            }
        }
    }
}

/// Whether a concept whose next review is `next_review` is due on `date`.
pub fn is_due(next_review: Option<&str>, date: &str) -> (r: bool)
    ensures
        r == due_spec(opt_str_view(next_review), date@),
{
    match next_review {
        Some(nr) => !chars_less(&chars_of(date), &chars_of(nr)),
        None => true,
    }
}

/// Whether `a` and `b` are equal strings.
fn same_text(a: &str, b: &str) -> (r: bool)
    ensures
        r == (a@ == b@),
{
    crate::text::chars_eq(&chars_of(a), &chars_of(b))
}

/// The indices of the concepts, each given by its next review date and its
/// domain, that a session on `date` takes: those due, and in `domain` where
/// one is given.
pub fn select_due(
    concepts: &Vec<(Option<String>, Option<String>)>,
    domain: Option<&str>,
    date: &str,
) -> (r: Vec<usize>)
    ensures
        r@.map_values(|k: usize| k as int) == due_indices(concepts@, opt_str_view(domain), date@),
{
    let ghost cs = concepts@;
    let ghost dv = opt_str_view(domain);
    let mut out: Vec<usize> = Vec::new();
    let mut i: usize = 0;
    while i < concepts.len()
        invariant
            cs == concepts@,
            dv == opt_str_view(domain),
            i <= concepts.len(),
            out@.map_values(|k: usize| k as int) == due_indices(cs.take(i as int), dv, date@),
        decreases concepts.len() - i,
    {
        proof {
            assert(cs.take(i + 1).drop_last() =~= cs.take(i as int));
            assert(cs.take(i + 1).last() == cs[i as int]);
        }
        let c = &concepts[i];
        let due = match &c.0 {
            Some(nr) => is_due(Some(nr.as_str()), date),
            None => true,
        };
        let matches = match domain {
            Some(d) => match &c.1 {
                Some(cd) => same_text(cd.as_str(), d),
                None => false,
            },
            None => true,
        };
        if due && matches {
            out.push(i);
        }
        i = i + 1;
        assert(out@.map_values(|k: usize| k as int) =~= due_indices(cs.take(i as int), dv, date@));
    }
    assert(cs.take(i as int) =~= cs);
    out
}

// ---------------------------------------------------------------------------
// What a review asks
// ---------------------------------------------------------------------------

/// The kinds of question a review can ask.
pub open spec fn prompt_types() -> Seq<Seq<char>> {
    seq!["definition"@, "decision"@, "contrast"@, "context"@, "consequence"@]
}

/// The kinds of question other than the one asked last time, in order.
pub open spec fn prompt_choices_spec(last: Option<Seq<char>>) -> Seq<Seq<char>> {
    prompt_types().filter(|t: Seq<char>| last != Some(t))
}

/// The kinds of question a review may ask of a concept last asked `last`.
pub fn prompt_choices(last: Option<&str>) -> (r: Vec<String>)
    ensures
        r@.map_values(|s: String| s@) == prompt_choices_spec(opt_str_view(last)),
        r@.len() >= 1,
{
    let ghost lv = opt_str_view(last);
    let mut out: Vec<String> = Vec::new();
    let types: [&str; 5] = ["definition", "decision", "contrast", "context", "consequence"];
    let ghost tv = prompt_types();
    proof {
        reveal_strlit("definition");
        reveal_strlit("decision");
        reveal_strlit("contrast");
        reveal_strlit("context");
        reveal_strlit("consequence");
    }
    assert(types@.map_values(|s: &str| s@) =~= tv);
    let mut i: usize = 0;
    while i < 5
        invariant
            i <= 5,
            lv == opt_str_view(last),
            tv == prompt_types(),
            types@.map_values(|s: &str| s@) == tv,
            out@.map_values(|s: String| s@) == tv.take(i as int).filter(|t: Seq<char>| lv != Some(t)),
            i >= 2 ==> out@.len() >= 1,
            i == 1 && out@.len() == 0 ==> lv == Some(tv[0]),
        decreases 5 - i,
    {
        let t = types[i];
        assert(t@ == tv[i as int]);
        proof {
            reveal_strlit("definition");
            reveal_strlit("decision");
        }
        assert(tv[0].len() == 10 && tv[1].len() == 8);
        let keep = match last {
            Some(l) => !same_text(l, t),
            None => true,
        };
        reveal(Seq::filter);
        assert(tv.take(i + 1).drop_last() =~= tv.take(i as int));
        if keep {
            out.push(String::from_str(t));
        }
        i = i + 1;
        assert(out@.map_values(|s: String| s@) =~= tv.take(i as int).filter(|t: Seq<char>| lv != Some(t)));
    }
    assert(tv.take(5) =~= tv);
    out
}

/// The question a review asks about `term`.
pub open spec fn prompt_text(term: Seq<char>) -> Seq<char> {
    "Explain your understanding of "@ + term + "."@
}

/// The review item for the concept at `path`, named `term` (its file name
/// where it has no term), asking a question of kind `prompt_type`.
pub fn review_item(path: &str, term: Option<&str>, filename: &str, prompt_type: &str) -> (r: ReviewItem)
    ensures
        r.concept_path@ == path@,
        r.concept_term@ == match term {
            Some(t) => t@,
            None => filename@,
        },
        r.prompt_type@ == prompt_type@,
        r.prompt@ == prompt_text(r.concept_term@),
{
    let name: &str = match term {
        Some(t) => t,
        None => filename,
    };
    let mut p: Vec<char> = Vec::new();
    push_str(&mut p, "Explain your understanding of ");
    push_str(&mut p, name);
    push_str(&mut p, ".");
    ReviewItem {
        concept_path: String::from_str(path),
        concept_term: String::from_str(name),
        prompt_type: String::from_str(prompt_type),
        prompt: string_of(&p),
    }
}

/// Draws a number with `rand::random`; nothing is stated of it.
#[verifier::external_body]
fn random_number() -> (r: u64) {
    rand::random::<u64>()
}

/// The kind of question that the number `pick` chooses among the choices
/// for a concept last asked `last`.
pub fn pick_prompt_type(last: Option<&str>, pick: u64) -> (r: String)
    ensures
        ({
            let cs = prompt_choices_spec(opt_str_view(last));
            &&& cs.len() >= 1
            &&& r@ == cs[pick as int % cs.len() as int]
        }),
{
    let cs = prompt_choices(last);
    let ghost cv = cs@.map_values(|s: String| s@);
    let k = (pick % (cs.len() as u64)) as usize;
    assert(cv[k as int] == cs@[k as int]@);
    cs[k].clone()
}

/// A kind of question drawn at random among those other than `last`.
pub fn choose_prompt_type(last: Option<&str>) -> (r: String)
    ensures
        prompt_choices_spec(opt_str_view(last)).contains(r@),
{
    let pick = random_number();
    let r = pick_prompt_type(last, pick);
    let ghost cs = prompt_choices_spec(opt_str_view(last));
    assert(cs.contains(r@)) by {
        assert(cs[pick as int % cs.len() as int] == r@);
    }
    r
}

// ---------------------------------------------------------------------------
// Finding a concept, and its next review
// ---------------------------------------------------------------------------

/// The index of the first path whose file stem is `term`.
pub open spec fn stem_index(paths: Seq<Seq<char>>, term: Seq<char>) -> Option<int>
    decreases paths.len(),
{
    if paths.len() == 0 {
        None
    } else if file_stem_text(paths[0]) == term {
        Some(0)
    } else {
        match stem_index(paths.drop_first(), term) {
            Some(k) => Some(k + 1),
            None => None,
        }
    }
}

/// The first of `paths` whose file stem (empty where it has none) is `term`.
pub fn find_by_stem(paths: &Vec<String>, term: &str) -> (r: Option<String>)
    ensures
        match stem_index(paths@.map_values(|s: String| s@), term@) {
            Some(k) => r is Some && r->0@ == paths@[k]@,
            None => r is None,
        },
{
    let ghost pv = paths@.map_values(|s: String| s@);
    assert(pv.skip(0) =~= pv);
    let mut i: usize = 0;
    while i < paths.len()
        invariant
            i <= paths.len(),
            pv == paths@.map_values(|s: String| s@),
            stem_index(pv, term@) == match stem_index(pv.skip(i as int), term@) {
                Some(k) => Some(k + i),
                None => None,
            },
        decreases paths.len() - i,
    {
        assert(pv.skip(i as int)[0] == paths@[i as int]@);
        assert(pv.skip(i as int).drop_first() =~= pv.skip(i + 1));
        let stem = path_file_stem(paths[i].as_str());
        if same_text(stem.as_str(), term) {
            return Some(paths[i].clone());
        }
        i = i + 1;
    }
    assert(pv.skip(i as int).len() == 0);
    None
}

/// The date `days` days after `date` (both written in format `fmt`), as
/// chrono computes it, or `None` where `date` does not parse or the result
/// is out of range.
pub uninterp spec fn ymd_plus_days(fmt: Seq<char>, date: Seq<char>, days: int) -> Option<Seq<char>>;

/// Parses `date` with `chrono::NaiveDate::parse_from_str(.., fmt)`, adds
/// `days` with `checked_add_signed` and formats the result with `fmt`; the
/// result is named by `ymd_plus_days`.
#[verifier::external_body]
fn add_days(date: &str, days: u32, fmt: &str) -> (r: Option<String>)
    requires
        fmt@ == crate::learn::concept::YMD_FORMAT@,
    ensures
        match r {
            Some(s) => ymd_plus_days(fmt@, date@, days as int) == Some(s@),
            None => ymd_plus_days(fmt@, date@, days as int) is None,
        },
{
    chrono::NaiveDate::parse_from_str(date, fmt).ok()
        .and_then(|d| d.checked_add_signed(chrono::Duration::days(days as i64)))
        .map(|d| d.format(fmt).to_string())
}

/// The next review date of a concept graded `score` on `today`, whose
/// current interval is `current_interval` days.
pub fn next_review_date(today: &str, score: u32, current_interval: u32) -> (r: Option<String>)
    ensures
        match r {
            Some(s) => ymd_plus_days(crate::learn::concept::YMD_FORMAT@, today@, interval_spec(score as nat, current_interval as nat) as int) == Some(s@),
            None => ymd_plus_days(crate::learn::concept::YMD_FORMAT@, today@, interval_spec(score as nat, current_interval as nat) as int) is None,
        },
{
    let days = next_interval_days(score, current_interval);
    add_days(today, days, crate::learn::concept::YMD_FORMAT)
}

// ---------------------------------------------------------------------------
// Notes to refine
// ---------------------------------------------------------------------------

/// A note is offered for refining: where a domain is asked for, each note of
/// that domain; otherwise each note that lacks all of term, domain and tags,
/// or has no wikilinks.
pub open spec fn refine_spec(
    domain: Option<Seq<char>>,
    has_term: bool,
    concept_domain: Option<Seq<char>>,
    has_tags: bool,
    has_links: bool,
) -> bool {
    match domain {
        Some(d) => concept_domain == Some(d),
        None => !((has_term || concept_domain is Some || has_tags) && has_links),
    }
}

/// Whether a note with the given fields is offered for refining.
pub fn needs_refining(
    domain: Option<&str>,
    has_term: bool,
    concept_domain: Option<&str>,
    has_tags: bool,
    has_links: bool,
) -> (r: bool)
    ensures
        r == refine_spec(opt_str_view(domain), has_term, opt_str_view(concept_domain), has_tags, has_links),
{
    match domain {
        Some(d) => match concept_domain {
            Some(cd) => same_text(cd, d),
            None => false,
        },
        None => {
            let has_user_fields = has_term || concept_domain.is_some() || has_tags;
            !(has_user_fields && has_links)
        },
    }
}

} // verus!
