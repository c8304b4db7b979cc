//! Dataset configuration: which repositories a run analyses, where their
//! sources come from, and the allow-list that narrows later passes to the
//! repositories of one dataset.

use vstd::prelude::*;

use crate::order::{lemma_lex_connected, lemma_lex_irrefl, lemma_lex_trans, lex_leq, lex_lt, str_lt};

verus! {

/// One resolved Python dependency, by name and optional version.
#[derive(Debug)]
pub struct PipPackage {
    pub name: String,
    pub version: Option<String>,
}

/// Options for dependency resolution.
#[derive(Debug)]
pub struct ResolveDependenciesOpts {
    pub denylisted_packages: Vec<String>,
    pub additional_wheel_repos: Vec<String>,
}

/// A repository hosted on GitHub, pinned to a revision.
#[derive(Debug)]
pub struct GitHubSrc {
    pub full_name: String,
    pub rev: String,
    pub basedir: Option<String>,
}

/// A package archive hosted on PyPI.
#[derive(Debug)]
pub struct PyPISrc {
    pub name: Option<String>,
    pub version: Option<String>,
    pub download_url: String,
    pub filename: String,
}

/// Where a repository's sources come from.
#[derive(Debug)]
pub enum RepositorySrc {
    GitHub(GitHubSrc),
    PyPI(PyPISrc),
}

/// Popularity and linking metadata of a repository.
#[derive(Debug)]
pub struct RepositoryMeta {
    pub repo_url: Option<String>,
    pub stars: Option<u32>,
    pub downloads: Option<u32>,
    pub homepage: Option<String>,
}

/// One repository of a dataset.
#[derive(Debug)]
pub struct RepositoryConfig {
    pub id: String,
    pub src: RepositorySrc,
    pub extra_dependencies: Vec<String>,
    pub meta: RepositoryMeta,
}

/// A whole dataset: dependency-resolution options and the repositories to
/// analyse.
#[derive(Debug)]
pub struct DatasetConfig {
    pub resolve_dependencies_opts: ResolveDependenciesOpts,
    pub repos: Vec<RepositoryConfig>,
}

/// The identifiers of a dataset's repositories, in order.
pub open spec fn repo_ids(repos: Seq<RepositoryConfig>) -> Seq<String> {
    repos.map_values(|rc: RepositoryConfig| rc.id)
}

/// The identifiers are sorted.
pub open spec fn ids_sorted(ids: Seq<String>) -> bool {
    forall|i: int, j: int|
        0 <= i < j < ids.len() ==> lex_leq((#[trigger] ids[i])@, (#[trigger] ids[j])@)
}

/// Which repositories a pass looks at: all of them, or only those of a
/// dataset, held as a sorted list of identifiers.
#[derive(Debug)]
pub enum AllowedRepos {
    All,
    Filtered(Vec<String>),
}

impl AllowedRepos {
    /// The allow-list's invariant: a filtered list is sorted, so
    /// membership can binary-search.
    pub open spec fn wf(&self) -> bool {
        match self {
            AllowedRepos::All => true,
            AllowedRepos::Filtered(ids) => ids_sorted(ids@),
        }
    }

    /// Does the allow-list admit this identifier?
    pub open spec fn allows(&self, id: Seq<char>) -> bool {
        match self {
            AllowedRepos::All => true,
            AllowedRepos::Filtered(ids) => exists|i: int|
                0 <= i < ids@.len() && (#[trigger] ids@[i])@ == id,
        }
    }

    /// An allow-list admitting everything.
    pub fn new_all() -> (r: Self)
        ensures
            r == AllowedRepos::All,
    {
        AllowedRepos::All
    }

    /// An allow-list admitting exactly the given identifiers.
    pub fn new_filtered(ids: Vec<String>) -> (r: Self)
        ensures
            r.wf(),
            r is Filtered,
            r->Filtered_0@.to_multiset() == ids@.to_multiset(),
            forall|x: Seq<char>| r.allows(x) == contains_id(ids@, x),
    {
        let mut sorted_ids = ids;
        sort_ids(&mut sorted_ids);
        let r = AllowedRepos::Filtered(sorted_ids);
        proof {
            lemma_multiset_same_members(r->Filtered_0@, ids@);
        }
        r
    }

    /// Is this identifier admitted?
    pub fn is_allowed(&self, id: &str) -> (r: bool)
        requires
            self.wf(),
        ensures
            r == self.allows(id@),
    {
        let ids = match self {
            AllowedRepos::All => {
                return true;
            },
            AllowedRepos::Filtered(ids) => ids,
        };
        let n = ids.len();
        let mut lo: usize = 0;
        let mut hi: usize = n;
        while lo < hi
            invariant
                lo <= hi <= n,
                n == ids@.len(),
                self is Filtered,
                ids@ == self->Filtered_0@,
                ids_sorted(ids@),
                forall|j: int| 0 <= j < lo ==> lex_lt((#[trigger] ids@[j])@, id@),
                forall|j: int| hi <= j < n ==> lex_lt(id@, (#[trigger] ids@[j])@),
            decreases hi - lo,
        {
            let mid = lo + (hi - lo) / 2;
            if str_lt(ids[mid].as_str(), id) {
                proof {
                    assert forall|j: int| 0 <= j < mid + 1 implies lex_lt(
                        (#[trigger] ids@[j])@,
                        id@,
                    ) by {
                        if j < mid {
                            if ids@[j]@ == ids@[mid as int]@ {
                            } else {
                                lemma_lex_trans(ids@[j]@, ids@[mid as int]@, id@);
                            }
                        }
                    }
                }
                lo = mid + 1;
            } else if str_lt(id, ids[mid].as_str()) {
                proof {
                    assert forall|j: int| mid <= j < n implies lex_lt(
                        id@,
                        (#[trigger] ids@[j])@,
                    ) by {
                        if j > mid {
                            if ids@[mid as int]@ == ids@[j]@ {
                            } else {
                                lemma_lex_trans(id@, ids@[mid as int]@, ids@[j]@);
                            }
                        }
                    }
                }
                hi = mid;
            } else {
                proof {
                    lemma_lex_connected(ids@[mid as int]@, id@);
                    assert((ids@[mid as int])@ == id@);
                    assert(self.allows(id@));
                }
                return true;
            }
        }
        proof {
            assert forall|j: int| 0 <= j < n implies (#[trigger] ids@[j])@ != id@ by {
                lemma_lex_irrefl(id@);
            }
            assert(!self.allows(id@));
        }
        false
    }

    /// The allow-list of a pass: everything without a dataset, else the
    /// dataset's repositories.
    pub fn from_dataset(dataset: Option<&DatasetConfig>) -> (r: Self)
        ensures
            allowed_repos_for(r, dataset),
    {
        match dataset {
            Some(d) => {
                let n = d.repos.len();
                let mut ids: Vec<String> = Vec::new();
                let mut i: usize = 0;
                while i < n
                    invariant
                        i <= n,
                        n == d.repos@.len(),
                        ids@ =~= repo_ids(d.repos@).take(i as int),
                    decreases n - i,
                {
                    ids.push(d.repos[i].id.clone());
                    i += 1;
                }
                proof {
                    assert(ids@ =~= repo_ids(d.repos@));
                }
                AllowedRepos::new_filtered(ids)
            },
            None => AllowedRepos::All,
        }
    }
}

/// Does the list hold this identifier?
pub open spec fn contains_id(ids: Seq<String>, x: Seq<char>) -> bool {
    exists|i: int| 0 <= i < ids.len() && (#[trigger] ids[i])@ == x
}

/// Equal multisets hold the same identifiers.
proof fn lemma_multiset_same_members(a: Seq<String>, b: Seq<String>)
    requires
        a.to_multiset() == b.to_multiset(),
    ensures
        forall|x: Seq<char>| contains_id(a, x) == contains_id(b, x),
{
    broadcast use vstd::seq_lib::group_to_multiset_ensures;

    assert forall|x: Seq<char>| contains_id(a, x) == contains_id(b, x) by {
        if contains_id(a, x) {
            let i = choose|i: int| 0 <= i < a.len() && (#[trigger] a[i])@ == x;
            assert(a.contains(a[i]));
            assert(b.to_multiset().count(a[i]) > 0);
            assert(b.contains(a[i]));
            let j = choose|j: int| 0 <= j < b.len() && b[j] == a[i];
            assert((b[j])@ == x);
        }
        if contains_id(b, x) {
            let i = choose|i: int| 0 <= i < b.len() && (#[trigger] b[i])@ == x;
            assert(b.contains(b[i]));
            assert(a.to_multiset().count(b[i]) > 0);
            assert(a.contains(b[i]));
            let j = choose|j: int| 0 <= j < a.len() && a[j] == b[i];
            assert((a[j])@ == x);
        }
    }
}

/// What the allow-list of a pass over an optional dataset holds.
pub open spec fn allowed_repos_for(r: AllowedRepos, dataset: Option<&DatasetConfig>) -> bool {
    match dataset {
        None => r == AllowedRepos::All,
        Some(d) => r is Filtered && r.wf() && r->Filtered_0@.to_multiset() == repo_ids(
            d.repos@,
        ).to_multiset() && forall|x: Seq<char>| r.allows(x) == contains_id(repo_ids(d.repos@), x),
    }
}

/// Sorts the identifiers, keeping exactly the same ones.
fn sort_ids(ids: &mut Vec<String>)
    ensures
        ids_sorted(final(ids)@),
        final(ids)@.to_multiset() == old(ids)@.to_multiset(),
{
    let n = ids.len();
    let mut i: usize = 1;
    while i < n
        invariant
            1 <= i,
            i <= n || n == 0,
            n == ids@.len(),
            ids@.to_multiset() == old(ids)@.to_multiset(),
            forall|a: int, b: int|
                0 <= a < b < i ==> lex_leq((#[trigger] ids@[a])@, (#[trigger] ids@[b])@),
        decreases n - i,
    {
        let mut p: usize = 0;
        while p < i && !id_lt(ids, i, p)
            invariant
                p <= i,
                i < n,
                n == ids@.len(),
                forall|q: int| 0 <= q < p ==> !lex_lt(ids@[i as int]@, (#[trigger] ids@[q])@),
            decreases i - p,
        {
            p += 1;
        }
        if p < i {
            let ghost before = ids@;
            let item = ids.remove(i);
            let ghost mid = ids@;
            ids.insert(p, item);
            proof {
                broadcast use vstd::seq_lib::group_to_multiset_ensures;
                broadcast use vstd::multiset::group_multiset_axioms;

                vstd::seq_lib::to_multiset_remove(before, i as int);
                vstd::seq_lib::to_multiset_insert(mid, p as int, item);
                assert(before[i as int] == item);
                assert(before.contains(item));
                assert(before.to_multiset().count(item) > 0);
                assert(before.to_multiset().remove(item).insert(item) =~= before.to_multiset());
                assert(ids@.to_multiset() == before.to_multiset());
                assert forall|a: int, b: int|
                    0 <= a < b < i + 1 implies lex_leq(
                    (#[trigger] ids@[a])@,
                    (#[trigger] ids@[b])@,
                ) by {
                    let key = item@;
                    if b < p {
                        assert(ids@[a] == before[a] && ids@[b] == before[b]);
                    } else if b == p {
                        assert(ids@[a] == before[a]);
                        lemma_lex_connected(key, before[a]@);
                    } else {
                        if a < p {
                            assert(ids@[a] == before[a]);
                        } else if a == p {
                            assert(ids@[b] == before[b - 1]);
                            assert(lex_lt(key, before[p as int]@));
                            if p < b - 1 {
                                assert(lex_leq(before[p as int]@, before[b - 1]@));
                                if before[p as int]@ != before[b - 1]@ {
                                    lemma_lex_trans(key, before[p as int]@, before[b - 1]@);
                                }
                            }
                        } else {
                            assert(ids@[a] == before[a - 1]);
                            assert(ids@[b] == before[b - 1]);
                        }
                    }
                }
            }
        } else {
            proof {
                assert forall|a: int, b: int|
                    0 <= a < b < i + 1 implies lex_leq(
                    (#[trigger] ids@[a])@,
                    (#[trigger] ids@[b])@,
                ) by {
                    if b == i {
                        lemma_lex_connected(ids@[i as int]@, ids@[a]@);
                    }
                }
            }
        }
        i += 1;
    }
}

/// Compares the identifiers at two positions.
fn id_lt(ids: &Vec<String>, a: usize, b: usize) -> (r: bool)
    requires
        a < ids@.len(),
        b < ids@.len(),
    ensures
        r == lex_lt(ids@[a as int]@, ids@[b as int]@),
{
    str_lt(ids[a].as_str(), ids[b].as_str())
}

} // verus!
