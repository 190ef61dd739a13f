//! When a saved scan may stand in for a new one.

use vstd::prelude::*;
use crate::cdt::scanner::{duration_secs, duration_as_secs};

verus! {

/// How long a saved scan stays usable, in seconds.
pub const CACHE_TTL_SECS: u64 = 30;

/// Two paths are equal as `Path`s: component by component.
pub uninterp spec fn same_path(a: Seq<char>, b: Seq<char>) -> bool;

/// The nanoseconds past the whole seconds of a `Duration`
/// (`Duration::subsec_nanos`).
pub uninterp spec fn duration_nanos(d: std::time::Duration) -> u32;

/// Compares `a` and `b` with `Path`'s `==`; the result is named by `same_path`.
#[verifier::external_body]
fn path_eq(a: &str, b: &str) -> (r: bool)
    ensures
        r == same_path(a@, b@),
{
    std::path::Path::new(a) == std::path::Path::new(b)
}

/// Calls `Duration::subsec_nanos`; its result is named by `duration_nanos`.
#[verifier::external_body]
fn duration_subsec_nanos(d: &std::time::Duration) -> (r: u32)
    ensures
        r == duration_nanos(*d),
{
    d.subsec_nanos()
}

/// Some path of `b` equals `p`.
pub open spec fn has_same(b: Seq<Seq<char>>, p: Seq<char>) -> bool {
    exists|j: int| 0 <= j < b.len() && same_path(p, #[trigger] b[j])
}

/// Every path of `a` equals some path of `b`.
pub open spec fn covers(a: Seq<Seq<char>>, b: Seq<Seq<char>>) -> bool {
    forall|i: int| 0 <= i < a.len() ==> has_same(b, #[trigger] a[i])
}

/// `a` and `b` hold the same paths, as sets.
pub open spec fn same_path_set(a: Seq<Seq<char>>, b: Seq<Seq<char>>) -> bool {
    covers(a, b) && covers(b, a)
}

/// The views of a vector of strings.
pub open spec fn path_views(v: Seq<String>) -> Seq<Seq<char>> {
    v.map_values(|s: String| s@)
}

/// An age that is known and at most `CACHE_TTL_SECS` seconds.
pub open spec fn age_fresh(age: Option<std::time::Duration>) -> bool {
    match age {
        None => false,
        Some(d) => duration_secs(d) < CACHE_TTL_SECS || (duration_secs(d) == CACHE_TTL_SECS
            && duration_nanos(d) == 0),
    }
}

/// A saved scan may be used: it was made of the same root, is fresh, and,
/// where the workspace directories could be listed, lists the same ones.
pub open spec fn cache_usable_spec(
    cached_root: Seq<char>,
    root: Seq<char>,
    age: Option<std::time::Duration>,
    cached_paths: Seq<Seq<char>>,
    disk_paths: Option<Seq<Seq<char>>>,
) -> bool {
    &&& same_path(cached_root, root)
    &&& age_fresh(age)
    &&& match disk_paths {
        Some(d) => same_path_set(cached_paths, d),
        None => true,
    }
}

/// Whether every path of `a` equals some path of `b`.
fn covers_exec(a: &Vec<String>, b: &Vec<String>) -> (r: bool)
    ensures
        r == covers(path_views(a@), path_views(b@)),
{
    let ghost av = path_views(a@);
    let ghost bv = path_views(b@);
    assert(av.len() == a@.len() && bv.len() == b@.len());
    let mut i: usize = 0;
    while i < a.len()
        invariant
            i <= a.len(),
            av == path_views(a@),
            bv == path_views(b@),
            av.len() == a@.len(),
            bv.len() == b@.len(),
            covers(av.take(i as int), bv),
        decreases a.len() - i,
    {
        let mut j: usize = 0;
        let mut found = false;
        while j < b.len() && !found
            invariant
                j <= b.len(),
                i < a.len(),
                av == path_views(a@),
                bv == path_views(b@),
                av.len() == a@.len(),
                bv.len() == b@.len(),
                found ==> exists|m: int| 0 <= m < bv.len() && same_path(av[i as int], bv[m]),
                covers(av.take(i as int), bv),
                !found ==> forall|m: int| 0 <= m < j ==> !same_path(av[i as int], #[trigger] bv[m]),
            decreases b.len() - j,
        {
            assert(av[i as int] == a@[i as int]@ && bv[j as int] == b@[j as int]@);
            if path_eq(a[i].as_str(), b[j].as_str()) {
                assert(same_path(av[i as int], bv[j as int]));
                found = true;
            }
            j = j + 1;
        }
        if !found {
            assert(!has_same(bv, av[i as int]));
            assert(!covers(av, bv));
            return false;
        }
        assert(exists|m: int| 0 <= m < bv.len() && same_path(av[i as int], bv[m]));
        assert forall|k: int| 0 <= k < i + 1 implies has_same(bv, #[trigger] av.take(i + 1)[k]) by {
            if k < i {
                assert(av.take(i + 1)[k] == av.take(i as int)[k]);
            }
        }
        i = i + 1;
    }
    assert(av.take(i as int) =~= av);
    true
}

/// Whether a saved scan of `cached_root`, `age` old (`None` where its time
/// lies ahead of the clock), listing `cached_paths`, may stand in for a scan
/// of `root`, whose workspace directories are `disk_paths` where they could
/// be listed.
pub fn cache_usable(
    cached_root: &str,
    root: &str,
    age: Option<std::time::Duration>,
    cached_paths: &Vec<String>,
    disk_paths: Option<&Vec<String>>,
) -> (r: bool)
    ensures
        r == cache_usable_spec(
            cached_root@,
            root@,
            age,
            path_views(cached_paths@),
            match disk_paths {
                Some(d) => Some(path_views(d@)),
                None => None,
            },
        ),
{
    if !path_eq(cached_root, root) {
        return false;
    }
    match age {
        None => {
            return false;
        },
        Some(d) => {
            let secs = duration_as_secs(&d);
            if secs > CACHE_TTL_SECS {
                return false;
            }
            if secs == CACHE_TTL_SECS && duration_subsec_nanos(&d) > 0 {
                return false;
            }
        },
    }
    match disk_paths {
        None => true,
        Some(d) => covers_exec(cached_paths, d) && covers_exec(d, cached_paths),
    }
}

} // verus!
