//! The dataset-level digest: one entry per report, reduced to what
//! downstream reporting needs.  A pure reduction; reports are consumed,
//! never changed.

use vstd::prelude::*;

use crate::config::{allowed_repos_for, AllowedRepos, DatasetConfig, RepositorySrc};
use crate::errors::PipelineStage;
use crate::report::Report;
use crate::results::{GetAttrCount, IssueLabel};

verus! {

/// Where a project came from.
#[derive(Debug, Clone, Copy, PartialEq, Eq, Structural)]
pub enum Platform {
    GitHub,
    PyPI,
}

/// One issue reduced to its classification and label.
#[derive(Debug)]
pub struct IssueSummary {
    pub getattr_count: GetAttrCount,
    pub label: IssueLabel,
}

/// One report reduced to a summary entry.
#[derive(Debug)]
pub struct SummaryEntry {
    pub platform: Platform,
    pub name: String,
    /// Stars for GitHub projects, downloads for PyPI packages.
    pub popularity: u32,
    pub error_stage: Option<PipelineStage>,
    pub raw_issue_count: usize,
    pub issues: Vec<IssueSummary>,
    pub elapsed_seconds: Option<u64>,
}

impl SummaryEntry {
    /// Reduces one report: origin, display name and popularity from its
    /// source, the error stage and counts as recorded, and per issue the
    /// (classification, label) pair.
    pub fn from_report(report: Report) -> (r: Self)
        ensures
            (match report.repository_config.src {
                RepositorySrc::GitHub(g) => r.platform == Platform::GitHub && r.name
                    == g.full_name && r.popularity == (match report.repository_config.meta.stars {
                    Some(s) => s,
                    None => 0u32,
                }),
                RepositorySrc::PyPI(p) => r.platform == Platform::PyPI && (match p.name {
                    Some(nm) => r.name == nm,
                    None => r.name@ == Seq::<char>::empty(),
                }) && r.popularity == (match report.repository_config.meta.downloads {
                    Some(d) => d,
                    None => 0u32,
                }),
            }),
            r.error_stage == report.error_stage,
            r.raw_issue_count == report.raw_issue_count,
            r.elapsed_seconds == report.elapsed_seconds,
            r.issues@.len() == report.issues@.len(),
            forall|k: int|
                0 <= k < report.issues@.len() ==> (#[trigger] r.issues@[k]).getattr_count
                    == report.issues@[k].getattr_count && r.issues@[k].label == report.issues@[
                    k
                ].label,
    {
        let Report {
            repository_config,
            error_stage,
            raw_issue_count,
            issues,
            elapsed_seconds,
            ..
        } = report;
        let meta = repository_config.meta;
        let (platform, name, popularity) = match repository_config.src {
            RepositorySrc::GitHub(g) => (
                Platform::GitHub,
                g.full_name,
                match meta.stars {
                    Some(s) => s,
                    None => 0,
                },
            ),
            RepositorySrc::PyPI(p) => (
                Platform::PyPI,
                match p.name {
                    Some(nm) => nm,
                    None => String::new(),
                },
                match meta.downloads {
                    Some(d) => d,
                    None => 0,
                },
            ),
        };
        let ghost issues0 = issues@;
        let mut src = issues;
        let mut rev: Vec<IssueSummary> = Vec::new();
        proof {
            assert(src@ =~= issues0.take(src@.len() as int));
        }
        while src.len() > 0
            invariant
                src@.len() <= issues0.len(),
                src@ == issues0.take(src@.len() as int),
                rev@.len() + src@.len() == issues0.len(),
                forall|m: int|
                    0 <= m < rev@.len() ==> (#[trigger] rev@[m]).getattr_count == issues0[
                        issues0.len() - 1 - m
                    ].getattr_count && rev@[m].label == issues0[issues0.len() - 1 - m].label,
            decreases src.len(),
        {
            let ghost k = src@.len() as int;
            let pi = src.pop().unwrap();
            proof {
                assert(src@ =~= issues0.take(k - 1));
                assert(pi == issues0[k - 1]);
            }
            rev.push(IssueSummary { getattr_count: pi.getattr_count, label: pi.label });
        }
        let summarised = crate::results::reversed_vec(rev);
        proof {
            assert forall|k: int|
                0 <= k < issues0.len() implies (#[trigger] summarised@[k]).getattr_count
                == issues0[k].getattr_count && summarised@[k].label == issues0[k].label by {
                assert(summarised@[k] == rev@[issues0.len() - 1 - k]);
            }
        }
        SummaryEntry {
            platform,
            name,
            popularity,
            error_stage,
            raw_issue_count,
            issues: summarised,
            elapsed_seconds,
        }
    }
}

/// A pass that reduces every report under a work directory into one
/// dataset-level digest.
pub struct Summary {
    pub work_dir: String,
    pub allowed_repos: AllowedRepos,
}

impl Summary {
    /// A summary pass over this work directory, restricted to the
    /// dataset's repositories when one is given.
    pub fn new(work_dir: String, dataset: Option<&DatasetConfig>) -> (r: Self)
        ensures
            r.work_dir == work_dir,
            allowed_repos_for(r.allowed_repos, dataset),
    {
        Summary { work_dir, allowed_repos: AllowedRepos::from_dataset(dataset) }
    }
}

} // verus!
