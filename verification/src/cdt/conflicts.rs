//! Files touched by more than one open worktree: potential merge conflicts.

use vstd::prelude::*;
use crate::cdt::scanner::{Workspace, label_spec};
use crate::text::{chars_eq, chars_of, push_all, push_str, string_of, join_chars, join_with, views};

verus! {

/// A file that several worktrees change.
#[derive(Debug, Clone)]
pub struct FileConflict {
    /// The file's path, relative to the repository root.
    pub file: String,
    /// The labels of the workspaces that change it, one per mention.
    pub workspaces: Vec<String>,
}

/// The changes as plain values: each workspace label with its changed files.
pub open spec fn changes_view(c: Seq<(String, Vec<String>)>) -> Seq<(Seq<char>, Seq<Seq<char>>)> {
    c.map_values(|e: (String, Vec<String>)| (e.0@, e.1@.map_values(|s: String| s@)))
}

/// The views of a list of strings.
pub open spec fn strings_view(v: Seq<String>) -> Seq<Seq<char>> {
    v.map_values(|s: String| s@)
}

/// How many times `f` occurs in `files`.
pub open spec fn mentions(files: Seq<Seq<char>>, f: Seq<char>) -> nat
    decreases files.len(),
{
    if files.len() == 0 {
        0
    } else {
        mentions(files.drop_last(), f) + if files.last() == f {
            1nat
        } else {
            0nat
        }
    }
}

/// The indices of the changes that name `f`, once per mention, in order.
pub open spec fn owners(cv: Seq<(Seq<char>, Seq<Seq<char>>)>, f: Seq<char>) -> Seq<int>
    decreases cv.len(),
{
    if cv.len() == 0 {
        Seq::empty()
    } else {
        owners(cv.drop_last(), f) + Seq::new(mentions(cv.last().1, f), |k: int| cv.len() - 1)
    }
}

/// The labels of the workspaces that change `f`, once per mention, in order.
pub open spec fn touching(cv: Seq<(Seq<char>, Seq<Seq<char>>)>, f: Seq<char>) -> Seq<Seq<char>> {
    owners(cv, f).map_values(|k: int| cv[k].0)
}

/// `a` comes before `b` in the order of `str::cmp`: lexicographically by
/// code point (which is byte order in UTF-8).
pub open spec fn chars_lt(a: Seq<char>, b: Seq<char>) -> bool
    decreases a.len(),
{
    if a.len() == 0 {
        b.len() > 0
    } else if b.len() == 0 {
        false
    } else if a[0] != b[0] {
        (a[0] as int) < (b[0] as int)
    } else {
        chars_lt(a.drop_first(), b.drop_first())
    }
}

/// Conflicts are listed by number of workspaces, most first, then by file.
pub open spec fn conflict_before(a: (Seq<char>, nat), b: (Seq<char>, nat)) -> bool {
    a.1 > b.1 || (a.1 == b.1 && chars_lt(a.0, b.0))
}

/// A conflict as plain values: the file and how many mentions it has.
pub open spec fn conflict_key(c: FileConflict) -> (Seq<char>, nat) {
    (c.file@, c.workspaces@.len())
}

/// `r` is exactly the list of files named by two or more mentions, each with
/// the labels that name it, most mentions first, then by file name.
pub open spec fn is_conflict_report(cv: Seq<(Seq<char>, Seq<Seq<char>>)>, r: Seq<FileConflict>) -> bool {
    &&& forall|k: int|
        0 <= k < r.len() ==> strings_view((#[trigger] r[k]).workspaces@) == touching(cv, r[k].file@)
            && r[k].workspaces@.len() > 1
    &&& forall|f: Seq<char>| #[trigger] touching(cv, f).len() > 1 ==> exists|k: int| 0 <= k < r.len() && r[k].file@ == f
    &&& forall|a: int, b: int| 0 <= a < b < r.len() ==> conflict_before(conflict_key(r[a]), conflict_key(r[b]))
}

// ---------------------------------------------------------------------------
// The order on file names
// ---------------------------------------------------------------------------

pub(crate) proof fn lemma_chars_lt_irreflexive(a: Seq<char>)
    ensures
        !chars_lt(a, a),
    decreases a.len(),
{
    if a.len() > 0 {
        lemma_chars_lt_irreflexive(a.drop_first());
    }
}

pub(crate) proof fn lemma_chars_lt_transitive(a: Seq<char>, b: Seq<char>, c: Seq<char>)
    requires
        chars_lt(a, b),
        chars_lt(b, c),
    ensures
        chars_lt(a, c),
    decreases a.len(),
{
    if a.len() > 0 && b.len() > 0 && c.len() > 0 {
        if a[0] == b[0] && b[0] == c[0] {
            lemma_chars_lt_transitive(a.drop_first(), b.drop_first(), c.drop_first());
        }
    }
}

pub(crate) proof fn lemma_chars_lt_total(a: Seq<char>, b: Seq<char>)
    requires
        a != b,
    ensures
        chars_lt(a, b) || chars_lt(b, a),
    decreases a.len(),
{
    if a.len() == 0 || b.len() == 0 {
        if a.len() == 0 && b.len() == 0 {
            assert(a =~= b);
        }
    } else if a[0] != b[0] {
        assert((a[0] as int) != (b[0] as int));
    } else {
        if a.drop_first() =~= b.drop_first() {
            assert(a =~= b) by {
                assert forall|k: int| 0 <= k < a.len() implies a[k] == b[k] by {
                    if k > 0 {
                        assert(a[k] == a.drop_first()[k - 1]);
                        assert(b[k] == b.drop_first()[k - 1]);
                    }
                }
            }
        } else {
            lemma_chars_lt_total(a.drop_first(), b.drop_first());
        }
    }
}

proof fn lemma_before_transitive(a: (Seq<char>, nat), b: (Seq<char>, nat), c: (Seq<char>, nat))
    requires
        conflict_before(a, b),
        conflict_before(b, c),
    ensures
        conflict_before(a, c),
{
    if a.1 == b.1 && b.1 == c.1 {
        lemma_chars_lt_transitive(a.0, b.0, c.0);
    }
}

/// Whether `a` sorts before `b` by `str::cmp`.
pub(crate) fn chars_less(a: &Vec<char>, b: &Vec<char>) -> (r: bool)
    ensures
        r == chars_lt(a@, b@),
{
    let mut i: usize = 0;
    assert(a@.skip(0) =~= a@);
    assert(b@.skip(0) =~= b@);
    while i < a.len() && i < b.len() && a[i] == b[i]
        invariant
            i <= a.len(),
            i <= b.len(),
            forall|k: int| 0 <= k < i ==> a@[k] == b@[k],
            chars_lt(a@, b@) == chars_lt(a@.skip(i as int), b@.skip(i as int)),
        decreases a.len() - i,
    {
        proof {
            assert(a@.skip(i as int).drop_first() =~= a@.skip(i + 1));
            assert(b@.skip(i as int).drop_first() =~= b@.skip(i + 1));
        }
        i = i + 1;
    }
    if i == a.len() {
        i < b.len()
    } else if i == b.len() {
        false
    } else {
        assert(a@.skip(i as int)[0] == a@[i as int]);
        assert(b@.skip(i as int)[0] == b@[i as int]);
        a[i] < b[i]
    }
}

// ---------------------------------------------------------------------------
// Grouping mentions by file
// ---------------------------------------------------------------------------

proof fn lemma_owners_step(cv: Seq<(Seq<char>, Seq<Seq<char>>)>, i: int, f: Seq<char>)
    requires
        0 <= i < cv.len(),
    ensures
        owners(cv.take(i + 1), f) == owners(cv.take(i), f) + Seq::new(mentions(cv[i].1, f), |k: int| i),
{
    assert(cv.take(i + 1).drop_last() =~= cv.take(i));
}

proof fn lemma_owners_in_range(cv: Seq<(Seq<char>, Seq<Seq<char>>)>, f: Seq<char>)
    ensures
        forall|k: int| 0 <= k < owners(cv, f).len() ==> 0 <= #[trigger] owners(cv, f)[k] < cv.len(),
    decreases cv.len(),
{
    if cv.len() > 0 {
        lemma_owners_in_range(cv.drop_last(), f);
        let prev = owners(cv.drop_last(), f);
        assert forall|k: int| 0 <= k < owners(cv, f).len() implies 0 <= #[trigger] owners(cv, f)[k] < cv.len() by {
            if k < prev.len() {
                assert(owners(cv, f)[k] == prev[k]);
            }
        }
    }
}

/// The position of `x` among `files`.
fn find_file(files: &Vec<Vec<char>>, x: &Vec<char>) -> (r: Option<usize>)
    ensures
        match r {
            Some(g) => g < files@.len() && files@[g as int]@ == x@,
            None => forall|h: int| 0 <= h < files@.len() ==> files@[h]@ != x@,
        },
{
    let mut g: usize = 0;
    while g < files.len()
        invariant
            g <= files.len(),
            forall|h: int| 0 <= h < g ==> files@[h]@ != x@,
        decreases files.len() - g,
    {
        if chars_eq(&files[g], x) {
            return Some(g);
        }
        g = g + 1;
    }
    None
}

/// The owners of `f` after `j` files of change `i` are read.
pub open spec fn owners_upto(cv: Seq<(Seq<char>, Seq<Seq<char>>)>, i: int, j: int, f: Seq<char>) -> Seq<int> {
    owners(cv.take(i), f) + Seq::new(mentions(cv[i].1.take(j), f), |k: int| i)
}

/// Files changed in two or more workspaces, given each workspace's label and
/// changed files: most-touched first, then by file name.
pub fn detect_conflicts(changes: &[(String, Vec<String>)]) -> (r: Vec<FileConflict>)
    ensures
        is_conflict_report(changes_view(changes@), r@),
{
    let ghost cv = changes_view(changes@);
    // One group per distinct file: the file and its owners so far.
    let mut files: Vec<Vec<char>> = Vec::new();
    let mut group_owners: Vec<Vec<usize>> = Vec::new();
    let mut i: usize = 0;
    while i < changes.len()
        invariant
            cv == changes_view(changes@),
            i <= changes.len(),
            files@.len() == group_owners@.len(),
            forall|g: int, h: int| 0 <= g < h < files@.len() ==> files@[g]@ != files@[h]@,
            forall|g: int|
                0 <= g < files@.len() ==> (#[trigger] group_owners@[g])@.map_values(|k: usize| k as int)
                    == owners(cv.take(i as int), files@[g]@),
            forall|f: Seq<char>|
                #[trigger] owners(cv.take(i as int), f).len() > 0 ==> exists|g: int|
                    0 <= g < files@.len() && files@[g]@ == f,
        decreases changes.len() - i,
    {
        let list = &changes[i].1;
        let mut j: usize = 0;
        while j < list.len()
            invariant
                cv == changes_view(changes@),
                i < changes.len(),
                *list == changes@[i as int].1,
                j <= list.len(),
                files@.len() == group_owners@.len(),
                forall|g: int, h: int| 0 <= g < h < files@.len() ==> files@[g]@ != files@[h]@,
                forall|g: int|
                    0 <= g < files@.len() ==> (#[trigger] group_owners@[g])@.map_values(|k: usize| k as int)
                        == owners_upto(cv, i as int, j as int, files@[g]@),
                forall|f: Seq<char>|
                    #[trigger] owners_upto(cv, i as int, j as int, f).len() > 0 ==> exists|g: int|
                        0 <= g < files@.len() && files@[g]@ == f,
            decreases list.len() - j,
        {
            let x = chars_of(list[j].as_str());
            let ghost xs = x@;
            proof {
                assert(cv[i as int].1[j as int] == xs);
                assert(cv[i as int].1.take(j + 1).drop_last() =~= cv[i as int].1.take(j as int));
            }
            let pos = find_file(&files, &x);
            let ghost before_owners = group_owners@;
            let ghost before_files = files@;
            if let Some(g) = pos {
                let mut o = group_owners[g].clone();
                o.push(i);
                group_owners.set(g, o);
                proof {
                    assert forall|h: int| 0 <= h < files@.len() implies (#[trigger] group_owners@[h])@.map_values(|k: usize| k as int)
                        == owners_upto(cv, i as int, j + 1, files@[h]@) by {
                        if h == g {
                            assert(group_owners@[h]@.map_values(|k: usize| k as int) =~= before_owners[h]@.map_values(|k: usize| k as int).push(i as int));
                            assert(owners_upto(cv, i as int, j + 1, xs) =~= owners_upto(cv, i as int, j as int, xs).push(i as int));
                        } else {
                            assert(owners_upto(cv, i as int, j + 1, files@[h]@) =~= owners_upto(cv, i as int, j as int, files@[h]@));
                        }
                    }
                    assert forall|f: Seq<char>| #[trigger] owners_upto(cv, i as int, j + 1, f).len() > 0 implies exists|h: int|
                        0 <= h < files@.len() && files@[h]@ == f by {
                        if f != xs {
                            assert(owners_upto(cv, i as int, j + 1, f) =~= owners_upto(cv, i as int, j as int, f));
                        } else {
                            assert(files@[g as int]@ == f);
                        }
                    }
                }
            } else {
                proof {
                    if owners_upto(cv, i as int, j as int, xs).len() > 0 {
                        let h = choose|h: int| 0 <= h < files@.len() && files@[h]@ == xs;
                        assert(files@[h]@ == xs);
                    }
                }
                let mut o: Vec<usize> = Vec::new();
                o.push(i);
                files.push(x);
                group_owners.push(o);
                proof {
                    assert forall|h: int| 0 <= h < files@.len() implies (#[trigger] group_owners@[h])@.map_values(|k: usize| k as int)
                        == owners_upto(cv, i as int, j + 1, files@[h]@) by {
                        if h == files@.len() - 1 {
                            assert(owners_upto(cv, i as int, j as int, xs).len() == 0);
                            assert(owners_upto(cv, i as int, j + 1, xs) =~= seq![i as int]);
                            assert(group_owners@[h]@.map_values(|k: usize| k as int) =~= seq![i as int]);
                        } else {
                            assert(files@[h] == before_files[h]);
                            assert(group_owners@[h] == before_owners[h]);
                            assert(owners_upto(cv, i as int, j + 1, files@[h]@) =~= owners_upto(cv, i as int, j as int, files@[h]@));
                        }
                    }
                    assert forall|f: Seq<char>| #[trigger] owners_upto(cv, i as int, j + 1, f).len() > 0 implies exists|h: int|
                        0 <= h < files@.len() && files@[h]@ == f by {
                        if f != xs {
                            assert(owners_upto(cv, i as int, j + 1, f) =~= owners_upto(cv, i as int, j as int, f));
                            let h = choose|h: int| 0 <= h < before_files.len() && before_files[h]@ == f;
                            assert(files@[h] == before_files[h]);
                        } else {
                            assert(files@[files@.len() - 1]@ == f);
                        }
                    }
                }
            }
            j = j + 1;
        }
        proof {
            assert(cv[i as int].1.take(j as int) =~= cv[i as int].1);
            assert forall|f: Seq<char>| #[trigger] owners_upto(cv, i as int, j as int, f) == owners(cv.take(i + 1), f) by {
                lemma_owners_step(cv, i as int, f);
            }
            assert forall|f: Seq<char>| #[trigger] owners(cv.take(i + 1), f).len() > 0 implies exists|g: int|
                0 <= g < files@.len() && files@[g]@ == f by {
                assert(owners_upto(cv, i as int, j as int, f) == owners(cv.take(i + 1), f));
            }
            assert forall|g: int| 0 <= g < files@.len() implies (#[trigger] group_owners@[g])@.map_values(|k: usize| k as int)
                == owners(cv.take(i + 1), files@[g]@) by {
                assert(owners_upto(cv, i as int, j as int, files@[g]@) == owners(cv.take(i + 1), files@[g]@));
            }
        }
        i = i + 1;
    }
    proof {
        assert(cv.take(i as int) =~= cv);
    }
    // Keep the groups with two or more mentions, sorted.
    let mut out: Vec<FileConflict> = Vec::new();
    let mut g: usize = 0;
    while g < files.len()
        invariant
            cv == changes_view(changes@),
            g <= files.len(),
            files@.len() == group_owners@.len(),
            forall|a: int, b: int| 0 <= a < b < files@.len() ==> files@[a]@ != files@[b]@,
            forall|h: int|
                0 <= h < files@.len() ==> (#[trigger] group_owners@[h])@.map_values(|k: usize| k as int)
                    == owners(cv, files@[h]@),
            forall|k: int|
                0 <= k < out@.len() ==> strings_view((#[trigger] out@[k]).workspaces@) == touching(cv, out@[k].file@)
                    && out@[k].workspaces@.len() > 1,
            forall|k: int| 0 <= k < out@.len() ==> exists|h: int| 0 <= h < g && (#[trigger] out@[k]).file@ == files@[h]@,
            forall|h: int| 0 <= h < g && group_owners@[h]@.len() > 1 ==> exists|k: int| 0 <= k < out@.len() && out@[k].file@ == (#[trigger] files@[h])@,
            forall|a: int, b: int| 0 <= a < b < out@.len() ==> conflict_before(conflict_key(out@[a]), conflict_key(out@[b])),
        decreases files.len() - g,
    {
        if group_owners[g].len() > 1 {
            let own = &group_owners[g];
            let ghost fg = files@[g as int]@;
            proof {
                lemma_owners_in_range(cv, fg);
            }
            let mut labels: Vec<String> = Vec::new();
            let mut k: usize = 0;
            while k < own.len()
                invariant
                    cv == changes_view(changes@),
                    k <= own.len(),
                    own@.map_values(|t: usize| t as int) == owners(cv, fg),
                    forall|t: int| 0 <= t < owners(cv, fg).len() ==> 0 <= #[trigger] owners(cv, fg)[t] < cv.len(),
                    strings_view(labels@) == touching(cv, fg).take(k as int),
                decreases own.len() - k,
            {
                assert(owners(cv, fg)[k as int] == own@[k as int] as int);
                let idx = own[k];
                assert(cv[idx as int].0 == changes@[idx as int].0@);
                assert(touching(cv, fg)[k as int] == cv[idx as int].0);
                let ghost before = strings_view(labels@);
                let name = changes[idx].0.clone();
                labels.push(name);
                assert(strings_view(labels@) =~= before.push(cv[idx as int].0));
                k = k + 1;
                assert(strings_view(labels@) =~= touching(cv, fg).take(k as int));
            }
            assert(touching(cv, fg).take(k as int) =~= touching(cv, fg));
            let c = FileConflict { file: string_of(&files[g]), workspaces: labels };
            let ghost before = out@;
            insert_sorted(&mut out, c);
            proof {
                assert forall|t: int| 0 <= t < out@.len() implies exists|h: int| 0 <= h < g + 1 && (#[trigger] out@[t]).file@ == files@[h]@ by {
                    if out@[t].file@ != fg {
                        let u = choose|u: int| 0 <= u < before.len() && before[u] == out@[t];
                        assert(exists|h: int| 0 <= h < g && before[u].file@ == files@[h]@);
                    } else {
                        assert(out@[t].file@ == files@[g as int]@);
                    }
                }
                assert forall|h: int| 0 <= h < g + 1 && group_owners@[h]@.len() > 1 implies exists|t: int| 0 <= t < out@.len() && out@[t].file@ == (#[trigger] files@[h])@ by {
                    if h < g {
                        let t0 = choose|t: int| 0 <= t < before.len() && before[t].file@ == files@[h]@;
                        assert(out@.contains(before[t0]));
                    } else {
                        assert(out@.contains(c));
                    }
                }
            }
        }
        g = g + 1;
    }
    proof {
        assert forall|f: Seq<char>| #[trigger] touching(cv, f).len() > 1 implies exists|k: int| 0 <= k < out@.len() && out@[k].file@ == f by {
            assert(owners(cv, f).len() > 1);
            let h = choose|h: int| 0 <= h < files@.len() && files@[h]@ == f;
            assert(group_owners@[h]@.map_values(|k: usize| k as int) == owners(cv, f));
            assert(group_owners@[h]@.len() > 1);
        }
    }
    out
}

/// Whether `x`, whose file is `xf`, sorts before `y`.
fn sorts_before(x: &FileConflict, xf: &Vec<char>, y: &FileConflict) -> (r: bool)
    requires
        xf@ == x.file@,
    ensures
        r == conflict_before(conflict_key(*x), conflict_key(*y)),
{
    let yf = chars_of(y.file.as_str());
    let xn = x.workspaces.len();
    let yn = y.workspaces.len();
    xn > yn || (xn == yn && chars_less(xf, &yf))
}

/// Inserts `x` into the sorted `out` at its place.
fn insert_sorted(out: &mut Vec<FileConflict>, x: FileConflict)
    requires
        forall|a: int, b: int| 0 <= a < b < old(out)@.len() ==> conflict_before(conflict_key(old(out)@[a]), conflict_key(old(out)@[b])),
        forall|k: int| 0 <= k < old(out)@.len() ==> (#[trigger] old(out)@[k]).file@ != x.file@,
    ensures
        forall|a: int, b: int| 0 <= a < b < final(out)@.len() ==> conflict_before(conflict_key(final(out)@[a]), conflict_key(final(out)@[b])),
        final(out)@.len() == old(out)@.len() + 1,
        final(out)@.contains(x),
        forall|k: int| 0 <= k < old(out)@.len() ==> final(out)@.contains(#[trigger] old(out)@[k]),
        forall|k: int| 0 <= k < final(out)@.len() ==> #[trigger] final(out)@[k] == x || exists|u: int| 0 <= u < old(out)@.len() && old(out)@[u] == final(out)@[k],
{
    let xf = chars_of(x.file.as_str());
    let mut p: usize = 0;
    while p < out.len() && !sorts_before(&x, &xf, &out[p])
        invariant
            p <= out.len(),
            out@ == old(out)@,
            xf@ == x.file@,
            forall|k: int| 0 <= k < out@.len() ==> (#[trigger] out@[k]).file@ != x.file@,
            forall|k: int| 0 <= k < p ==> conflict_before(conflict_key(#[trigger] out@[k]), conflict_key(x)),
        decreases out.len() - p,
    {
        proof {
            lemma_chars_lt_total(x.file@, out@[p as int].file@);
        }
        p = p + 1;
    }
    let ghost before = out@;
    let ghost xk = conflict_key(x);
    proof {
        if p < before.len() {
            assert(conflict_before(xk, conflict_key(before[p as int])));
        }
    }
    out.insert(p, x);
    proof {
        assert(out@ == before.insert(p as int, x));
        assert forall|a: int, b: int| 0 <= a < b < out@.len() implies conflict_before(conflict_key(out@[a]), conflict_key(out@[b])) by {
            if b < p {
            } else if b == p {
            } else if a < p {
                assert(conflict_before(conflict_key(before[a]), xk));
                assert(conflict_before(xk, conflict_key(before[p as int])));
                lemma_before_transitive(conflict_key(before[a]), xk, conflict_key(before[p as int]));
                if b - 1 > p {
                    lemma_before_transitive(conflict_key(before[a]), conflict_key(before[p as int]), conflict_key(before[b - 1]));
                }
            } else if a == p {
                if b - 1 > p {
                    lemma_before_transitive(xk, conflict_key(before[p as int]), conflict_key(before[b - 1]));
                }
            } else {
                assert(conflict_before(conflict_key(before[a - 1]), conflict_key(before[b - 1])));
            }
        }
        assert(out@[p as int] == x);
        assert forall|k: int| 0 <= k < before.len() implies out@.contains(#[trigger] before[k]) by {
            if k < p {
                assert(out@[k] == before[k]);
            } else {
                assert(out@[k + 1] == before[k]);
            }
        }
        assert forall|k: int| 0 <= k < out@.len() implies #[trigger] out@[k] == x || exists|u: int| 0 <= u < before.len() && before[u] == out@[k] by {
            if k < p {
                assert(before[k] == out@[k]);
            } else if k > p {
                assert(before[k - 1] == out@[k]);
            }
        }
    }
}

/// The conflicts, one line each: the file and the workspaces that change it.
pub open spec fn conflicts_text(cs: Seq<FileConflict>) -> Seq<char>
    decreases cs.len(),
{
    if cs.len() == 0 {
        Seq::empty()
    } else {
        conflicts_text(cs.drop_last()) + "  "@ + cs.last().file@ + " ("@ + join_with(
            strings_view(cs.last().workspaces@),
            ", "@,
        ) + ")\n"@
    }
}

/// Formats conflicts for display.
pub fn format_conflicts(conflicts: &[FileConflict]) -> (r: String)
    ensures
        r@ == conflicts_text(conflicts@),
{
    let mut out: Vec<char> = Vec::new();
    let mut i: usize = 0;
    while i < conflicts.len()
        invariant
            i <= conflicts.len(),
            out@ == conflicts_text(conflicts@.take(i as int)),
        decreases conflicts.len() - i,
    {
        proof {
            assert(conflicts@.take(i + 1).drop_last() =~= conflicts@.take(i as int));
        }
        let c = &conflicts[i];
        push_str(&mut out, "  ");
        let f = chars_of(c.file.as_str());
        push_all(&mut out, &f);
        push_str(&mut out, " (");
        let mut names: Vec<Vec<char>> = Vec::new();
        let mut k: usize = 0;
        while k < c.workspaces.len()
            invariant
                k <= c.workspaces.len(),
                views(names@) == strings_view(c.workspaces@).take(k as int),
            decreases c.workspaces.len() - k,
        {
            let ghost before = views(names@);
            names.push(chars_of(c.workspaces[k].as_str()));
            assert(views(names@) =~= before.push(c.workspaces@[k as int]@));
            k = k + 1;
            assert(views(names@) =~= strings_view(c.workspaces@).take(k as int));
        }
        assert(strings_view(c.workspaces@).take(k as int) =~= strings_view(c.workspaces@));
        let joined = join_chars(&names, ", ");
        push_all(&mut out, &joined);
        push_str(&mut out, ")\n");
        i = i + 1;
    }
    assert(conflicts@.take(i as int) =~= conflicts@);
    string_of(&out)
}

/// Whether a branch is a main branch or a detached head, with nothing to
/// compare against the main branch.
pub open spec fn is_main_branch(b: Seq<char>) -> bool {
    b == "main"@ || b == "master"@ || b == "HEAD"@
}

/// The workspaces whose changes are compared: not merged, and on a branch
/// other than the main one.
pub open spec fn compared(w: Workspace) -> bool {
    w.merged != Some(true) && match w.branch {
        Some(b) => !is_main_branch(b@),
        None => false,
    }
}

/// The indices of the workspaces whose changes are compared, in order.
pub open spec fn compared_indices(ws: Seq<Workspace>) -> Seq<int>
    decreases ws.len(),
{
    if ws.len() == 0 {
        Seq::empty()
    } else if compared(ws.last()) {
        compared_indices(ws.drop_last()).push(ws.len() - 1)
    } else {
        compared_indices(ws.drop_last())
    }
}

/// The workspaces whose changed files are collected for conflict detection:
/// open ones on a branch other than `main`, `master` or a detached `HEAD`.
pub fn change_targets(workspaces: &[Workspace]) -> (r: Vec<usize>)
    ensures
        r@.map_values(|k: usize| k as int) == compared_indices(workspaces@),
{
    let ghost ws = workspaces@;
    let mut out: Vec<usize> = Vec::new();
    let mut i: usize = 0;
    while i < workspaces.len()
        invariant
            ws == workspaces@,
            i <= workspaces.len(),
            out@.map_values(|k: usize| k as int) == compared_indices(ws.take(i as int)),
        decreases workspaces.len() - i,
    {
        proof {
            assert(ws.take(i + 1).drop_last() =~= ws.take(i as int));
            assert(ws.take(i + 1).last() == ws[i as int]);
        }
        let w = &workspaces[i];
        let take = w.merged != Some(true) && match &w.branch {
            Some(b) => {
                let bv = chars_of(b.as_str());
                !(crate::text::eq_str(&bv, "main") || crate::text::eq_str(&bv, "master") || crate::text::eq_str(&bv, "HEAD"))
            },
            None => false,
        };
        if take {
            out.push(i);
        }
        i = i + 1;
        assert(out@.map_values(|k: usize| k as int) =~= compared_indices(ws.take(i as int)));
    }
    assert(ws.take(i as int) =~= ws);
    out
}

/// The non-empty lines of `s`, in order.
pub open spec fn nonempty_lines(ls: Seq<Seq<char>>) -> Seq<Seq<char>>
    decreases ls.len(),
{
    if ls.len() == 0 {
        Seq::empty()
    } else if ls.last().len() > 0 {
        nonempty_lines(ls.drop_last()).push(ls.last())
    } else {
        nonempty_lines(ls.drop_last())
    }
}

/// The files that `git diff --name-only` printed: its non-empty lines.
pub fn changed_file_list(stdout: &str) -> (r: Vec<String>)
    ensures
        r@.map_values(|f: String| f@) == nonempty_lines(crate::text::lines_of(stdout@)),
{
    let all = crate::text::chars_of(stdout);
    let ls = crate::text::lines(&all);
    let ghost lv = crate::text::views(ls@);
    let mut out: Vec<String> = Vec::new();
    let mut i: usize = 0;
    while i < ls.len()
        invariant
            i <= ls.len(),
            lv == crate::text::views(ls@),
            lv == crate::text::lines_of(stdout@),
            out@.map_values(|f: String| f@) == nonempty_lines(lv.take(i as int)),
        decreases ls.len() - i,
    {
        proof {
            assert(lv.take(i + 1).drop_last() =~= lv.take(i as int));
            assert(lv.take(i + 1).last() == ls@[i as int]@);
        }
        if ls[i].len() > 0 {
            out.push(crate::text::string_of(&ls[i]));
        }
        i = i + 1;
        assert(out@.map_values(|f: String| f@) =~= nonempty_lines(lv.take(i as int)));
    }
    assert(lv.take(i as int) =~= lv);
    out
}

} // verus!
