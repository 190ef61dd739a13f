//! Fuzzy ranking of items against a search query.

use vstd::prelude::*;
use fuzzy_matcher::FuzzyMatcher;

verus! {

/// The score that `fuzzy_matcher`'s `SkimMatcherV2` (default settings) gives
/// `choice` for `pattern`, or `None` when it does not match.
pub uninterp spec fn skim_score(choice: Seq<char>, pattern: Seq<char>) -> Option<i64>;

/// Calls `SkimMatcherV2::default().fuzzy_match(choice, pattern)`. The result
/// is named by `skim_score`; the crate's source returns `Some(0)` for an empty
/// pattern.
#[verifier::external_body]
fn skim_fuzzy_match(choice: &str, pattern: &str) -> (r: Option<i64>)
    ensures
        r == skim_score(choice@, pattern@),
        pattern@.len() == 0 ==> r == Some(0i64),
{
    fuzzy_matcher::skim::SkimMatcherV2::default().fuzzy_match(choice, pattern)
}

/// The views of a list of strings.
pub open spec fn text_views(v: Seq<String>) -> Seq<Seq<char>> {
    v.map_values(|s: String| s@)
}

/// The matching items among the first `n`, with their raw scores, in index
/// order.
pub open spec fn scored_upto(texts: Seq<Seq<char>>, query: Seq<char>, n: int) -> Seq<(usize, i64)>
    decreases n,
{
    if n <= 0 {
        Seq::empty()
    } else {
        let rest = scored_upto(texts, query, n - 1);
        match skim_score(texts[n - 1], query) {
            Some(s) => rest.push(((n - 1) as usize, s)),
            None => rest,
        }
    }
}

/// The matching items with their raw scores, in index order; nothing for an
/// empty query or no items.
pub open spec fn fuzzy_scores_spec(texts: Seq<Seq<char>>, query: Seq<char>) -> Seq<(usize, i64)> {
    if query.len() == 0 || texts.len() == 0 {
        Seq::empty()
    } else {
        scored_upto(texts, query, texts.len() as int)
    }
}

/// Scores each text against the query with the skim fuzzy matcher and keeps
/// the matches as `(index, raw score)` pairs in index order. This is the
/// integer part of scoring; normalising to `0.0..=1.0` divides by the best
/// score.
pub fn fuzzy_scores(texts: &Vec<String>, query: &str) -> (r: Vec<(usize, i64)>)
    ensures
        r@ == fuzzy_scores_spec(text_views(texts@), query@),
{
    let mut out: Vec<(usize, i64)> = Vec::new();
    if query.is_empty() || texts.len() == 0 {
        return out;
    }
    let mut i: usize = 0;
    while i < texts.len()
        invariant
            i <= texts.len(),
            query@.len() > 0,
            out@ == scored_upto(text_views(texts@), query@, i as int),
        decreases texts.len() - i,
    {
        let s = skim_fuzzy_match(texts[i].as_str(), query);
        match s {
            Some(v) => out.push((i, v)),
            None => {},
        }
        i = i + 1;
    }
    out
}

/// `a` ranks before `b`: a higher score, or the same score and a lower index.
pub open spec fn ranks_before(a: (usize, i64), b: (usize, i64)) -> bool {
    a.1 > b.1 || (a.1 == b.1 && a.0 < b.0)
}

/// Strictly sorted by rank.
pub open spec fn sorted_by_rank(s: Seq<(usize, i64)>) -> bool {
    forall|i: int, j: int| 0 <= i < j < s.len() ==> ranks_before(s[i], s[j])
}

/// The raw score of a matching item.
pub open spec fn score_of(texts: Seq<Seq<char>>, query: Seq<char>, i: int) -> i64 {
    skim_score(texts[i], query)->0
}

/// `r` lists the items that match `query`, each once, best score first and
/// in index order among equal scores; for an empty query, every index in order.
pub open spec fn is_fuzzy_ranking(texts: Seq<Seq<char>>, query: Seq<char>, r: Seq<usize>) -> bool {
    if query.len() == 0 {
        r == Seq::new(texts.len(), |i: int| i as usize)
    } else {
        &&& forall|k: int|
            0 <= k < r.len() ==> #[trigger] r[k] < texts.len() && skim_score(texts[r[k] as int], query) is Some
        &&& forall|i: int|
            0 <= i < texts.len() && (#[trigger] skim_score(texts[i], query)) is Some ==> exists|k: int|
                0 <= k < r.len() && r[k] == i
        &&& forall|a: int, b: int|
            0 <= a < b < r.len() ==> ranks_before(
                (r[a], score_of(texts, query, r[a] as int)),
                (r[b], score_of(texts, query, r[b] as int)),
            )
    }
}

/// A ranking lists each item at most once.
pub proof fn ranking_lists_items_once(texts: Seq<Seq<char>>, query: Seq<char>, r: Seq<usize>, a: int, b: int)
    requires
        is_fuzzy_ranking(texts, query, r),
        texts.len() <= usize::MAX,
        0 <= a < b < r.len(),
    ensures
        r[a] != r[b],
{
    if query.len() == 0 {
        assert(r[a] == a as usize && r[b] == b as usize);
    } else {
        assert(ranks_before(
            (r[a], score_of(texts, query, r[a] as int)),
            (r[b], score_of(texts, query, r[b] as int)),
        ));
    }
}

/// With an empty query every item is listed, in order.
pub proof fn empty_query_lists_everything(texts: Seq<Seq<char>>, r: Seq<usize>)
    requires
        is_fuzzy_ranking(texts, Seq::empty(), r),
        texts.len() <= usize::MAX,
    ensures
        r.len() == texts.len(),
        forall|i: int| 0 <= i < r.len() ==> r[i] == i,
{
    assert forall|i: int| 0 <= i < r.len() implies r[i] == i by {
        assert(r[i] == i as usize);
    }
}

proof fn lemma_scored_upto(texts: Seq<Seq<char>>, query: Seq<char>, n: int)
    requires
        0 <= n <= texts.len(),
        texts.len() <= usize::MAX,
    ensures
        forall|k: int|
            0 <= k < scored_upto(texts, query, n).len() ==> {
                let p = #[trigger] scored_upto(texts, query, n)[k];
                &&& p.0 < n
                &&& skim_score(texts[p.0 as int], query) == Some(p.1)
            },
        forall|i: int|
            0 <= i < n && (#[trigger] skim_score(texts[i], query)) is Some ==> exists|k: int|
                0 <= k < scored_upto(texts, query, n).len() && scored_upto(texts, query, n)[k].0
                    == i,
        forall|a: int, b: int|
            0 <= a < b < scored_upto(texts, query, n).len() ==> scored_upto(texts, query, n)[a].0
                < scored_upto(texts, query, n)[b].0,
    decreases n,
{
    if n > 0 {
        lemma_scored_upto(texts, query, n - 1);
        let rest = scored_upto(texts, query, n - 1);
        let cur = scored_upto(texts, query, n);
        assert forall|i: int|
            0 <= i < n && (#[trigger] skim_score(texts[i], query)) is Some implies exists|k: int|
                0 <= k < cur.len() && cur[k].0 == i by {
            if i < n - 1 {
                let k = choose|k: int| 0 <= k < rest.len() && rest[k].0 == i;
                assert(cur[k] == rest[k]);
            } else {
                assert(cur[cur.len() - 1].0 == i);
            }
        }
    }
}

/// Inserts `x` into the rank-sorted `out` at its place.
fn insert_ranked(out: &mut Vec<(usize, i64)>, x: (usize, i64))
    requires
        sorted_by_rank(old(out)@),
        forall|k: int| 0 <= k < old(out)@.len() ==> #[trigger] old(out)@[k].0 != x.0,
    ensures
        sorted_by_rank(final(out)@),
        final(out)@.len() == old(out)@.len() + 1,
        forall|k: int| 0 <= k < old(out)@.len() ==> final(out)@.contains(#[trigger] old(out)@[k]),
        forall|k: int| 0 <= k < final(out)@.len() ==> (#[trigger] final(out)@[k] == x || old(out)@.contains(final(out)@[k])),
        final(out)@.contains(x),
{
    let mut p: usize = 0;
    while p < out.len() && !(x.1 > out[p].1 || (x.1 == out[p].1 && x.0 < out[p].0))
        invariant
            p <= out.len(),
            out@ == old(out)@,
            forall|k: int| 0 <= k < out@.len() ==> #[trigger] out@[k].0 != x.0,
            forall|k: int| 0 <= k < p ==> ranks_before(#[trigger] out@[k], x),
        decreases out.len() - p,
    {
        p = p + 1;
    }
    let ghost before = out@;
    out.insert(p, x);
    proof {
        assert(out@ == before.insert(p as int, x));
        assert forall|i: int, j: int| 0 <= i < j < out@.len() implies ranks_before(out@[i], out@[j]) by {
            if j < p {
            } else if j == p {
            } else if i < p {
                assert(ranks_before(before[i], x));
                assert(ranks_before(x, before[p as int]));
                if j - 1 > p {
                    assert(ranks_before(before[p as int], before[j - 1]));
                }
            } else if i == p {
                assert(ranks_before(x, before[p as int]));
                if j - 1 > p {
                    assert(ranks_before(before[p as int], before[j - 1]));
                }
            } else {
                assert(ranks_before(before[i - 1], before[j - 1]));
            }
        }
        assert(out@[p as int] == x);
        assert forall|k: int| 0 <= k < before.len() implies out@.contains(#[trigger] before[k]) by {
            if k < p {
                assert(out@[k] == before[k]);
            } else {
                assert(out@[k + 1] == before[k]);
            }
        }
        assert forall|k: int| 0 <= k < out@.len() implies (#[trigger] out@[k] == x || before.contains(out@[k])) by {
            if k < p {
                assert(before[k] == out@[k]);
            } else if k > p {
                assert(before[k - 1] == out@[k]);
            }
        }
    }
}

/// Indices of the items whose texts match `query`, best fuzzy score first
/// (index order among equal scores); every index in order for an empty query.
pub fn rank_texts(texts: &Vec<String>, query: &str) -> (r: Vec<usize>)
    ensures
        is_fuzzy_ranking(text_views(texts@), query@, r@),
{
    if query.is_empty() {
        let mut all: Vec<usize> = Vec::new();
        let mut i: usize = 0;
        while i < texts.len()
            invariant
                i <= texts.len(),
                all@ == Seq::new(i as nat, |k: int| k as usize),
            decreases texts.len() - i,
        {
            all.push(i);
            i = i + 1;
            assert(all@ =~= Seq::new(i as nat, |k: int| k as usize));
        }
        return all;
    }
    let ghost tv = text_views(texts@);
    let scored = fuzzy_scores(texts, query);
    proof {
        if texts.len() > 0 {
            lemma_scored_upto(tv, query@, tv.len() as int);
        }
    }
    let mut sorted: Vec<(usize, i64)> = Vec::new();
    let mut i: usize = 0;
    while i < scored.len()
        invariant
            i <= scored.len(),
            tv == text_views(texts@),
            query@.len() > 0,
            scored@ == fuzzy_scores_spec(tv, query@),
            texts.len() > 0 ==> forall|k: int|
                0 <= k < scored@.len() ==> {
                    let p = #[trigger] scored@[k];
                    &&& p.0 < tv.len()
                    &&& skim_score(tv[p.0 as int], query@) == Some(p.1)
                },
            forall|a: int, b: int| 0 <= a < b < scored@.len() ==> scored@[a].0 < scored@[b].0,
            sorted_by_rank(sorted@),
            sorted@.len() == i,
            forall|k: int| 0 <= k < sorted@.len() ==> exists|m: int| 0 <= m < i && #[trigger] sorted@[k] == scored@[m],
            forall|m: int| 0 <= m < i ==> sorted@.contains(#[trigger] scored@[m]),
        decreases scored.len() - i,
    {
        let x = scored[i];
        proof {
            assert forall|k: int| 0 <= k < sorted@.len() implies #[trigger] sorted@[k].0 != x.0 by {
                let m = choose|m: int| 0 <= m < i && sorted@[k] == scored@[m];
                assert(scored@[m].0 < scored@[i as int].0);
            }
        }
        let ghost before = sorted@;
        insert_ranked(&mut sorted, x);
        proof {
            assert forall|k: int| 0 <= k < sorted@.len() implies exists|m: int| 0 <= m < i + 1 && #[trigger] sorted@[k] == scored@[m] by {
                if sorted@[k] == x {
                    assert(sorted@[k] == scored@[i as int]);
                } else {
                    assert(before.contains(sorted@[k]));
                    let kk = choose|kk: int| 0 <= kk < before.len() && before[kk] == sorted@[k];
                    let m = choose|m: int| 0 <= m < i && #[trigger] before[kk] == scored@[m];
                }
            }
            assert forall|m: int| 0 <= m < i + 1 implies sorted@.contains(#[trigger] scored@[m]) by {
                if m < i {
                    assert(before.contains(scored@[m]));
                    let kk = choose|kk: int| 0 <= kk < before.len() && before[kk] == scored@[m];
                    assert(sorted@.contains(before[kk]));
                }
            }
        }
        i = i + 1;
    }
    let mut r: Vec<usize> = Vec::new();
    let mut j: usize = 0;
    while j < sorted.len()
        invariant
            j <= sorted.len(),
            r@ == sorted@.take(j as int).map_values(|p: (usize, i64)| p.0),
        decreases sorted.len() - j,
    {
        r.push(sorted[j].0);
        j = j + 1;
        assert(r@ =~= sorted@.take(j as int).map_values(|p: (usize, i64)| p.0));
    }
    proof {
        assert(sorted@.take(j as int) =~= sorted@);
        if texts.len() == 0 {
            assert(scored@.len() == 0);
        }
        assert forall|k: int| 0 <= k < r@.len() implies #[trigger] r@[k] < tv.len() && skim_score(tv[r@[k] as int], query@) is Some by {
            let m = choose|m: int| 0 <= m < scored@.len() && #[trigger] sorted@[k] == scored@[m];
        }
        assert forall|ii: int|
            0 <= ii < tv.len() && (#[trigger] skim_score(tv[ii], query@)) is Some implies exists|k: int|
                0 <= k < r@.len() && r@[k] == ii by {
            let m = choose|m: int| 0 <= m < scored@.len() && scored@[m].0 == ii;
            assert(sorted@.contains(scored@[m]));
            let k = choose|k: int| 0 <= k < sorted@.len() && sorted@[k] == scored@[m];
            assert(r@[k] == ii);
        }
        assert forall|a: int, b: int| 0 <= a < b < r@.len() implies ranks_before(
            (r@[a], score_of(tv, query@, r@[a] as int)),
            (r@[b], score_of(tv, query@, r@[b] as int)),
        ) by {
            let ma = choose|m: int| 0 <= m < scored@.len() && #[trigger] sorted@[a] == scored@[m];
            let mb = choose|m: int| 0 <= m < scored@.len() && #[trigger] sorted@[b] == scored@[m];
            assert(ranks_before(sorted@[a], sorted@[b]));
        }
    }
    r
}

/// Indices of the items that match `query`, best fuzzy match first; every
/// index in order for an empty query. `text_fn` gives the searchable text of
/// an item and is called once per item when the query is not empty.
pub fn compute_filtered<T, F: Fn(&T) -> String>(items: &[T], query: &str, text_fn: F) -> (r: Vec<usize>)
    requires
        forall|i: int| 0 <= i < items@.len() ==> call_requires(text_fn, (&items@[i],)),
    ensures
        exists|texts: Seq<String>|
            texts.len() == items@.len() && (forall|i: int|
                0 <= i < items@.len() && query@.len() > 0 ==> call_ensures(
                    text_fn,
                    (&items@[i],),
                    #[trigger] texts[i],
                )) && is_fuzzy_ranking(text_views(texts), query@, r@),
{
    let mut texts: Vec<String> = Vec::new();
    if query.is_empty() {
        let mut all: Vec<usize> = Vec::new();
        let mut i: usize = 0;
        while i < items.len()
            invariant
                i <= items.len(),
                texts@.len() == i,
                all@ == Seq::new(i as nat, |k: int| k as usize),
            decreases items.len() - i,
        {
            texts.push(String::new());
            all.push(i);
            i = i + 1;
            assert(all@ =~= Seq::new(i as nat, |k: int| k as usize));
        }
        proof {
            assert(is_fuzzy_ranking(text_views(texts@), query@, all@));
        }
        return all;
    }
    let mut i: usize = 0;
    while i < items.len()
        invariant
            i <= items.len(),
            texts@.len() == i,
            forall|k: int| 0 <= k < items@.len() ==> call_requires(text_fn, (&items@[k],)),
            forall|k: int| 0 <= k < i ==> call_ensures(text_fn, (&items@[k],), #[trigger] texts@[k]),
        decreases items.len() - i,
    {
        let t = text_fn(&items[i]);
        texts.push(t);
        i = i + 1;
    }
    rank_texts(&texts, query)
}

} // verus!
