//! The labeling session's pure core: the session configuration, and the
//! lookup that maps a report identifier to the most recent analysis
//! directory whose name begins with `"<id>."`.

use vstd::prelude::*;

use crate::config::{allowed_repos_for, AllowedRepos, DatasetConfig};
use crate::order::{lex_lt, str_eq, str_lt};

verus! {

/// The position of the last `'.'` of a name, if any.
pub open spec fn last_dot(name: Seq<char>) -> Option<int>
    decreases name.len(),
{
    if name.len() == 0 {
        None
    } else if name.last() == '.' {
        Some(name.len() - 1)
    } else {
        last_dot(name.drop_last())
    }
}

/// Does the name's part before its last dot read exactly `id`?
pub open spec fn stem_is(name: Seq<char>, id: Seq<char>) -> bool {
    match last_dot(name) {
        Some(i) => name.take(i) == id,
        None => false,
    }
}

/// The comparison the directory search orders by: a name counts as
/// "greater" when the part before its last dot is lexicographically above
/// `id` followed by a dot; a name without a dot never counts as greater.
pub open spec fn name_above(name: Seq<char>, id_dot: Seq<char>) -> bool {
    match last_dot(name) {
        Some(i) => lex_lt(id_dot, name.take(i)),
        None => false,
    }
}

/// The boundary the binary search settles on within `[lo, hi)`: the probe
/// order is part of the lookup's documented behavior, since the
/// "greater" comparison need not be monotone over an arbitrary listing.
pub open spec fn search_boundary(
    names: Seq<String>,
    id_dot: Seq<char>,
    lo: int,
    hi: int,
) -> int
    recommends
        0 <= lo <= hi <= names.len(),
    decreases hi - lo,
{
    if lo >= hi {
        lo
    } else {
        let mid = lo + (hi - lo) / 2;
        if name_above(names[mid]@, id_dot) {
            search_boundary(names, id_dot, lo, mid)
        } else {
            search_boundary(names, id_dot, mid + 1, hi)
        }
    }
}

/// The most recent analysis directory for an identifier, as the search
/// resolves it: the candidate immediately preceding the search boundary
/// for `"<id>."`, kept only if its name before the last dot is exactly
/// the identifier.  An approximate "most recent matching prefix" lookup,
/// not a uniqueness guarantee.
pub open spec fn find_analysis_spec(names: Seq<String>, id: Seq<char>) -> Option<int> {
    let r = search_boundary(names, id.push('.'), 0, names.len() as int);
    if r <= 0 {
        None
    } else if stem_is(names[r - 1]@, id) {
        Some(r - 1)
    } else {
        None
    }
}

/// The position of the last `'.'` of a name, if any.
fn last_dot_index(name: &str) -> (r: Option<usize>)
    ensures
        match r {
            Some(i) => last_dot(name@) == Some(i as int) && i < name@.len(),
            None => last_dot(name@) is None,
        },
{
    let n = name.unicode_len();
    let mut j: usize = n;
    proof {
        assert(name@.take(n as int) =~= name@);
    }
    while j > 0
        invariant
            j <= n,
            n == name@.len(),
            last_dot(name@) == last_dot(name@.take(j as int)),
        decreases j,
    {
        let c = name.get_char(j - 1);
        proof {
            assert(name@.take(j as int).last() == name@[j - 1]);
            assert(name@.take(j as int).drop_last() =~= name@.take(j as int - 1));
        }
        if c == '.' {
            return Some(j - 1);
        }
        j -= 1;
    }
    proof {
        assert(name@.take(0).len() == 0);
    }
    None
}

/// Does the name count as greater than `id_dot` in the search order?
fn name_greater(name: &str, id_dot: &str) -> (r: bool)
    ensures
        r == name_above(name@, id_dot@),
{
    match last_dot_index(name) {
        Some(i) => {
            let stem = name.substring_char(0, i);
            proof {
                assert(stem@ =~= name@.take(i as int));
            }
            str_lt(id_dot, stem)
        },
        None => false,
    }
}

/// Resolves a report identifier to the analysis directory listing entry
/// the search settles on: over the lexicographically sorted listing it is
/// the most recent directory named `"<id>.<timestamp>"`, and whatever is
/// returned always has exactly `id` before its last dot.
pub fn find_analysis_directory(all_analysis: &Vec<String>, id: &str) -> (r: Option<usize>)
    ensures
        match r {
            Some(u) => find_analysis_spec(all_analysis@, id@) == Some(u as int) && u
                < all_analysis@.len() && stem_is(all_analysis@[u as int]@, id@),
            None => find_analysis_spec(all_analysis@, id@) is None,
        },
{
    let n = all_analysis.len();
    let mut id_dot = String::from_str(id);
    id_dot.append(".");
    proof {
        reveal_strlit(".");
        assert(id_dot@ =~= id@.push('.'));
    }
    let mut lo: usize = 0;
    let mut hi: usize = n;
    while lo < hi
        invariant
            lo <= hi <= n,
            n == all_analysis@.len(),
            id_dot@ == id@.push('.'),
            search_boundary(all_analysis@, id@.push('.'), lo as int, hi as int)
                == search_boundary(all_analysis@, id@.push('.'), 0, n as int),
        decreases hi - lo,
    {
        let mid = lo + (hi - lo) / 2;
        if name_greater(all_analysis[mid].as_str(), id_dot.as_str()) {
            hi = mid;
        } else {
            lo = mid + 1;
        }
    }
    let boundary = lo;
    proof {
        assert(search_boundary(all_analysis@, id@.push('.'), boundary as int, boundary as int)
            == boundary as int);
    }
    if boundary == 0 {
        return None;
    }
    let cand = &all_analysis[boundary - 1];
    match last_dot_index(cand.as_str()) {
        Some(di) => {
            let stem = cand.substring_char(0, di);
            proof {
                assert(stem@ =~= cand@.take(di as int));
            }
            if str_eq(stem, id) {
                Some(boundary - 1)
            } else {
                None
            }
        },
        None => None,
    }
}

/// An interactive labeling session's configuration: where the reports and
/// analysis directories live, and which repositories the session looks at.
pub struct Labeling {
    pub work_dir: String,
    pub allowed_repos: AllowedRepos,
}

impl Labeling {
    /// A labeling session over this work directory, restricted to the
    /// dataset's repositories when one is given.
    pub fn new(work_dir: String, dataset: Option<&DatasetConfig>) -> (r: Self)
        ensures
            r.work_dir == work_dir,
            allowed_repos_for(r.allowed_repos, dataset),
    {
        Labeling { work_dir, allowed_repos: AllowedRepos::from_dataset(dataset) }
    }
}

} // verus!
