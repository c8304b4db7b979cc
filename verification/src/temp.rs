//! Reconciliation of freshly recomputed issues with a stored report: each
//! fresh issue must match exactly one stored issue by trace identity, and
//! only the stored classification may be overwritten — the human-entered
//! label survives.

use vstd::prelude::*;

use crate::config::DatasetConfig;
use crate::order::str_eq;
use crate::results::{GetAttrCount, ProcessedIssue, ProcessedIssueV};
use crate::taint::opt_str_view;
use crate::walk::{entries_view, EntryV, TraceEntry};

verus! {

/// An error of a reconciliation pass: a fresh issue matched no stored
/// issue, or more than one.
#[derive(Debug)]
pub enum ReconcileError {
    AmbiguousMatch { found: usize },
}

/// How many stored issues carry exactly this trace.
pub open spec fn match_count(stored: Seq<ProcessedIssueV>, t: Seq<EntryV>) -> nat
    decreases stored.len(),
{
    if stored.len() == 0 {
        0
    } else {
        match_count(stored.drop_last(), t) + if stored.last().trace == t {
            1 as nat
        } else {
            0 as nat
        }
    }
}

/// What one reconciliation pass yields: the stored issues with possibly
/// rewritten classifications and whether anything changed, or the number
/// of matches of the first fresh issue whose match was not unique.
pub ghost enum ReconOutcome {
    Done { stored: Seq<ProcessedIssueV>, changed: bool },
    Fail { found: nat },
}

/// Reconciliation, fresh issue by fresh issue, in order: a fresh issue
/// whose trace matches exactly one stored issue overwrites that issue's
/// classification (and nothing else); zero or several matches abort the
/// pass.
pub open spec fn recon_spec(
    stored: Seq<ProcessedIssueV>,
    fresh: Seq<ProcessedIssueV>,
) -> ReconOutcome
    decreases fresh.len(),
{
    if fresh.len() == 0 {
        ReconOutcome::Done { stored, changed: false }
    } else {
        let t = fresh[0].trace;
        let c = fresh[0].getattr_count;
        if match_count(stored, t) != 1 {
            ReconOutcome::Fail { found: match_count(stored, t) }
        } else {
            let j = choose|j: int| 0 <= j < stored.len() && stored[j].trace == t;
            let updated = stored.update(
                j,
                ProcessedIssueV { getattr_count: c, ..stored[j] },
            );
            match recon_spec(updated, fresh.drop_first()) {
                ReconOutcome::Done { stored: out, changed } => ReconOutcome::Done {
                    stored: out,
                    changed: changed || stored[j].getattr_count != c,
                },
                ReconOutcome::Fail { found } => ReconOutcome::Fail { found },
            }
        }
    }
}

/// With exactly one match, every match is at the same position.
proof fn lemma_match_unique(stored: Seq<ProcessedIssueV>, t: Seq<EntryV>, i1: int)
    requires
        match_count(stored, t) == 1,
        0 <= i1 < stored.len(),
        stored[i1].trace == t,
    ensures
        forall|j: int| 0 <= j < stored.len() && (#[trigger] stored[j]).trace == t ==> j == i1,
    decreases stored.len(),
{
    lemma_match_count_positive(stored, t, i1);
    assert forall|j: int|
        0 <= j < stored.len() && (#[trigger] stored[j]).trace == t implies j == i1 by {
        if j != i1 {
            lemma_match_count_two(stored, t, if j < i1 { j } else { i1 }, if j < i1 { i1 } else { j });
        }
    }
}

/// A match makes the count positive.
proof fn lemma_match_count_positive(stored: Seq<ProcessedIssueV>, t: Seq<EntryV>, i: int)
    requires
        0 <= i < stored.len(),
        stored[i].trace == t,
    ensures
        match_count(stored, t) >= 1,
    decreases stored.len(),
{
    if i < stored.len() - 1 {
        lemma_match_count_positive(stored.drop_last(), t, i);
    }
}

/// Two distinct matches make the count at least two.
proof fn lemma_match_count_two(stored: Seq<ProcessedIssueV>, t: Seq<EntryV>, i: int, j: int)
    requires
        0 <= i < j < stored.len(),
        stored[i].trace == t,
        stored[j].trace == t,
    ensures
        match_count(stored, t) >= 2,
    decreases stored.len(),
{
    if j == stored.len() - 1 {
        lemma_match_count_positive(stored.drop_last(), t, i);
    } else {
        lemma_match_count_two(stored.drop_last(), t, i, j);
    }
}

/// Reconciliation is idempotent: where the stored classifications already
/// agree with the fresh ones (and every fresh trace matches exactly one
/// stored issue), the pass changes nothing and reports no change.
pub proof fn lemma_reconcile_noop(stored: Seq<ProcessedIssueV>, fresh: Seq<ProcessedIssueV>)
    requires
        forall|k: int|
            0 <= k < fresh.len() ==> match_count(stored, (#[trigger] fresh[k]).trace) == 1,
        forall|k: int, j: int|
            0 <= k < fresh.len() && 0 <= j < stored.len() && (#[trigger] stored[j]).trace == (
            #[trigger] fresh[k]).trace ==> stored[j].getattr_count == fresh[k].getattr_count,
    ensures
        recon_spec(stored, fresh) == (ReconOutcome::Done { stored, changed: false }),
    decreases fresh.len(),
{
    if fresh.len() > 0 {
        let t = fresh[0].trace;
        let c = fresh[0].getattr_count;
        assert(match_count(stored, t) == 1);
        let j = choose|j: int| 0 <= j < stored.len() && stored[j].trace == t;
        lemma_match_exists(stored, t);
        assert(stored[j].getattr_count == c);
        assert(ProcessedIssueV { getattr_count: c, ..stored[j] } == stored[j]);
        assert(stored.update(j, stored[j]) =~= stored);
        assert forall|k: int|
            0 <= k < fresh.drop_first().len() implies match_count(
            stored,
            (#[trigger] fresh.drop_first()[k]).trace,
        ) == 1 by {
            assert(fresh.drop_first()[k] == fresh[k + 1]);
        }
        assert forall|k: int, j2: int|
            0 <= k < fresh.drop_first().len() && 0 <= j2 < stored.len() && (#[trigger] stored[
            j2
        ]).trace == (#[trigger] fresh.drop_first()[k]).trace implies stored[j2].getattr_count
            == fresh.drop_first()[k].getattr_count by {
            assert(fresh.drop_first()[k] == fresh[k + 1]);
        }
        lemma_reconcile_noop(stored, fresh.drop_first());
    }
}

/// A count of one means a match exists.
proof fn lemma_match_exists(stored: Seq<ProcessedIssueV>, t: Seq<EntryV>)
    requires
        match_count(stored, t) >= 1,
    ensures
        exists|j: int| 0 <= j < stored.len() && (#[trigger] stored[j]).trace == t,
    decreases stored.len(),
{
    if stored.len() > 0 {
        if stored.last().trace == t {
            assert(stored[stored.len() - 1].trace == t);
        } else {
            lemma_match_exists(stored.drop_last(), t);
            let j = choose|j: int|
                0 <= j < stored.drop_last().len() && (#[trigger] stored.drop_last()[j]).trace
                    == t;
            assert(stored[j].trace == t);
        }
    }
}

/// Compares two optional strings by text.
fn opt_string_eq(a: &Option<String>, b: &Option<String>) -> (r: bool)
    ensures
        r == (opt_str_view(*a) == opt_str_view(*b)),
{
    match (a, b) {
        (Some(x), Some(y)) => str_eq(x.as_str(), y.as_str()),
        (None, None) => true,
        _ => false,
    }
}

/// Compares two trace entries by content.
fn entry_eq(a: &TraceEntry, b: &TraceEntry) -> (r: bool)
    ensures
        r == (a@ == b@),
{
    let status_eq = match (a.status, b.status) {
        (crate::walk::TraceEntryStatus::Missing, crate::walk::TraceEntryStatus::Missing) => true,
        (
            crate::walk::TraceEntryStatus::Recursive,
            crate::walk::TraceEntryStatus::Recursive,
        ) => true,
        (crate::walk::TraceEntryStatus::Present, crate::walk::TraceEntryStatus::Present) => true,
        _ => false,
    };
    status_eq && str_eq(a.callable.as_str(), b.callable.as_str()) && str_eq(
        a.port.as_str(),
        b.port.as_str(),
    ) && opt_string_eq(&a.location.filename, &b.location.filename) && opt_string_eq(
        &a.location.path,
        &b.location.path,
    ) && a.location.line == b.location.line && a.location.start == b.location.start
        && a.location.end == b.location.end
}

/// Compares two traces entry by entry: trace identity is what matches a
/// fresh issue to a stored one.
pub fn traces_equal(a: &Vec<TraceEntry>, b: &Vec<TraceEntry>) -> (r: bool)
    ensures
        r == (entries_view(a@) == entries_view(b@)),
{
    let n = a.len();
    if n != b.len() {
        proof {
            assert(entries_view(a@).len() != entries_view(b@).len());
        }
        return false;
    }
    let mut i: usize = 0;
    while i < n
        invariant
            i <= n,
            n == a@.len(),
            n == b@.len(),
            forall|j: int| 0 <= j < i ==> (#[trigger] entries_view(a@)[j]) == entries_view(b@)[j],
        decreases n - i,
    {
        if !entry_eq(&a[i], &b[i]) {
            proof {
                assert(entries_view(a@)[i as int] != entries_view(b@)[i as int]);
            }
            return false;
        }
        i += 1;
    }
    proof {
        assert(entries_view(a@) =~= entries_view(b@));
    }
    true
}

/// The views of the stored issues.
pub open spec fn issues_view(stored: Seq<ProcessedIssue>) -> Seq<ProcessedIssueV> {
    stored.map_values(|pi: ProcessedIssue| pi@)
}

/// Counts the stored issues whose trace equals this one, and remembers
/// one match.
fn find_trace_matches(stored: &Vec<ProcessedIssue>, t: &Vec<TraceEntry>) -> (r: (
    usize,
    Option<usize>,
))
    ensures
        r.0 as nat == match_count(issues_view(stored@), entries_view(t@)),
        match r.1 {
            Some(i) => i < stored@.len() && entries_view(stored@[i as int].trace@)
                == entries_view(t@),
            None => r.0 == 0,
        },
{
    let n = stored.len();
    let mut count: usize = 0;
    let mut found: Option<usize> = None;
    let mut i: usize = 0;
    proof {
        assert(issues_view(stored@.take(0)) =~= Seq::<ProcessedIssueV>::empty());
    }
    while i < n
        invariant
            i <= n,
            n == stored@.len(),
            count <= i,
            count as nat == match_count(issues_view(stored@.take(i as int)), entries_view(t@)),
            match found {
                Some(fi) => fi < stored@.len() && entries_view(stored@[fi as int].trace@)
                    == entries_view(t@),
                None => count == 0,
            },
        decreases n - i,
    {
        proof {
            assert(issues_view(stored@.take(i as int + 1)).drop_last() =~= issues_view(
                stored@.take(i as int),
            ));
            assert(issues_view(stored@.take(i as int + 1)).last() == stored@[i as int]@);
        }
        if traces_equal(&stored[i].trace, t) {
            count += 1;
            found = Some(i);
        }
        i += 1;
    }
    proof {
        assert(stored@.take(n as int) =~= stored@);
    }
    (count, found)
}

/// A session that re-derives classifications from raw results and backfills
/// them into stored reports, keeping every label.
pub struct Temp {
    pub work_dir: String,
    pub allowed_repos: crate::config::AllowedRepos,
}

impl Temp {
    /// A reconciliation session over this work directory, restricted to
    /// the dataset's repositories when one is given.
    pub fn new(work_dir: String, dataset: Option<&DatasetConfig>) -> (r: Self)
        ensures
            r.work_dir == work_dir,
            crate::config::allowed_repos_for(r.allowed_repos, dataset),
    {
        Temp { work_dir, allowed_repos: crate::config::AllowedRepos::from_dataset(dataset) }
    }

    /// Matches every fresh issue against the stored ones by trace
    /// identity.  Exactly one match is required; the match's stored
    /// classification is overwritten where it differs, and nothing else —
    /// locations, traces and labels are left untouched.  Returns whether
    /// anything changed; aborts on the first fresh issue with zero or
    /// several matches.
    pub fn reconcile_issues(stored: &mut Vec<ProcessedIssue>, fresh: &Vec<ProcessedIssue>) -> (r:
        Result<bool, ReconcileError>)
        ensures
            final(stored)@.len() == old(stored)@.len(),
            forall|j: int|
                0 <= j < old(stored)@.len() ==> (#[trigger] final(stored)@[j]).location == old(stored)@[j].location && final(stored)@[j].trace@ == old(stored)@[j].trace@ && final(stored)@[j].label == old(stored)@[j].label,
            match r {
                Ok(changed) => recon_spec(issues_view(old(stored)@), issues_view(fresh@)) == (
                ReconOutcome::Done { stored: issues_view(final(stored)@), changed }),
                Err(e) => recon_spec(issues_view(old(stored)@), issues_view(fresh@)) is Fail && (
                match e {
                    ReconcileError::AmbiguousMatch { found } => found as nat == recon_spec(
                        issues_view(old(stored)@),
                        issues_view(fresh@),
                    )->Fail_found,
                }),
            },
    {
        let ghost stored0 = issues_view(stored@);
        let ghost freshv = issues_view(fresh@);
        let n = fresh.len();
        let mut changed = false;
        let mut k: usize = 0;
        proof {
            assert(freshv.skip(0) =~= freshv);
        }
        while k < n
            invariant
                k <= n,
                n == fresh@.len(),
                stored@.len() == old(stored)@.len(),
                forall|j: int|
                    0 <= j < old(stored)@.len() ==> (#[trigger] stored@[j]).location == old(stored)@[j].location && stored@[j].trace@ == old(stored)@[j].trace@ && stored@[
                        j
                    ].label == old(stored)@[j].label,
                freshv == issues_view(fresh@),
                stored0 == issues_view(old(stored)@),
                recon_spec(stored0, freshv) == (match recon_spec(
                    issues_view(stored@),
                    freshv.skip(k as int),
                ) {
                    ReconOutcome::Done { stored: out, changed: c2 } => ReconOutcome::Done {
                        stored: out,
                        changed: changed || c2,
                    },
                    ReconOutcome::Fail { found } => ReconOutcome::Fail { found },
                }),
            decreases n - k,
        {
            let ghost cur = issues_view(stored@);
            proof {
                assert(freshv.skip(k as int)[0] == fresh@[k as int]@);
                assert(freshv.skip(k as int).drop_first() =~= freshv.skip(k as int + 1));
            }
            let (count, found) = find_trace_matches(stored, &fresh[k].trace);
            if count != 1 {
                return Err(ReconcileError::AmbiguousMatch { found: count });
            }
            let ji = match found {
                Some(i) => i,
                None => {
                    proof {
                        assert(false);
                    }
                    0
                },
            };
            proof {
                lemma_match_unique(cur, entries_view(fresh@[k as int].trace@), ji as int);
            }
            let fresh_count = fresh[k].getattr_count;
            let mut item = stored.remove(ji);
            if !(item.getattr_count == fresh_count) {
                changed = true;
                item.getattr_count = fresh_count;
                proof {
                    assert(issues_view(stored@.insert(ji as int, item)) =~= cur.update(
                        ji as int,
                        ProcessedIssueV { getattr_count: fresh_count, ..cur[ji as int] },
                    ));
                }
            } else {
                proof {
                    assert(issues_view(stored@.insert(ji as int, item)) =~= cur.update(
                        ji as int,
                        ProcessedIssueV { getattr_count: fresh_count, ..cur[ji as int] },
                    ));
                }
            }
            stored.insert(ji, item);
            k += 1;
        }
        proof {
            assert(freshv.skip(n as int).len() == 0);
        }
        Ok(changed)
    }
}

} // verus!
