//! The per-project report: everything one analysis run found, the unit
//! that is persisted and that carries human-entered labels across runs.

use vstd::prelude::*;

use crate::config::{PipPackage, RepositoryConfig};
use crate::decimal::{dec_rep, push_decimal};
use crate::errors::PipelineStage;
use crate::results::ProcessedIssue;

verus! {

/// One report per analyzed project: configuration reference, warnings and
/// errors, the raw issue count before filtering, the processed issues,
/// resolved dependencies, and elapsed time.  A single writer per project
/// path is assumed.
#[derive(Debug)]
pub struct Report {
    pub repository_config: RepositoryConfig,
    pub warnings: Vec<String>,
    pub error_stage: Option<PipelineStage>,
    pub errors: Vec<String>,
    pub raw_issue_count: usize,
    pub issues: Vec<ProcessedIssue>,
    pub resolved_dependencies: Vec<PipPackage>,
    pub elapsed_seconds: Option<u64>,
    /// Whether this report was read back from storage rather than computed
    /// by the present run.
    pub previous_run: bool,
}

/// What a report amounts to, by precedence: errors outweigh warnings,
/// warnings outweigh issues.
#[derive(Debug, Clone, Copy, PartialEq, Eq, Structural)]
pub enum ReportOutcome {
    NoIssues,
    Issues,
    Warnings,
    Errors,
}

/// The outcome a report's contents determine.
pub open spec fn outcome_of(r: Report) -> ReportOutcome {
    if r.errors@.len() > 0 {
        ReportOutcome::Errors
    } else if r.warnings@.len() > 0 {
        ReportOutcome::Warnings
    } else if r.issues@.len() > 0 {
        ReportOutcome::Issues
    } else {
        ReportOutcome::NoIssues
    }
}

impl Report {
    /// How this report ended: errors first, then warnings, then issues,
    /// else nothing found.
    pub fn outcome(&self) -> (r: ReportOutcome)
        ensures
            r == outcome_of(*self),
    {
        if !self.errors.is_empty() {
            ReportOutcome::Errors
        } else if !self.warnings.is_empty() {
            ReportOutcome::Warnings
        } else if !self.issues.is_empty() {
            ReportOutcome::Issues
        } else {
            ReportOutcome::NoIssues
        }
    }
}

/// The name of a pipeline stage, as the summary prints it.
pub open spec fn stage_name(s: PipelineStage) -> Seq<char> {
    match s {
        PipelineStage::Setup => "Setup"@,
        PipelineStage::ResolvingDependencies => "ResolvingDependencies"@,
        PipelineStage::InstallingDependencies => "InstallingDependencies"@,
        PipelineStage::PyreSetup => "PyreSetup"@,
        PipelineStage::Analysis => "Analysis"@,
        PipelineStage::Processing => "Processing"@,
        PipelineStage::Cleanup => "Cleanup"@,
    }
}

/// The marker a report read back from storage carries in the summary.
pub open spec fn cached_tag(r: Report) -> Seq<char> {
    if r.previous_run {
        " (cached)"@
    } else {
        Seq::empty()
    }
}

/// One report's line in the summary, depending on its outcome.
pub open spec fn report_line(r: Report) -> Seq<char> {
    match outcome_of(r) {
        ReportOutcome::Issues => "- "@ + r.repository_config.id@ + " ("@ + dec_rep(
            r.issues@.len(),
        ) + " issue(s))"@ + cached_tag(r),
        ReportOutcome::Errors => "- "@ + r.repository_config.id@ + " ("@ + dec_rep(
            r.errors@.len(),
        ) + " error(s), "@ + (match r.error_stage {
            Some(s) => stage_name(s),
            None => "Unknown"@,
        }) + ")"@ + cached_tag(r),
        ReportOutcome::Warnings => "- "@ + r.repository_config.id@ + " ("@ + dec_rep(
            r.warnings@.len(),
        ) + " warning(s), "@ + dec_rep(r.issues@.len()) + " issue(s))"@ + cached_tag(r),
        ReportOutcome::NoIssues => "- "@ + r.repository_config.id@ + cached_tag(r),
    }
}

/// The reports with this outcome, in order.
pub open spec fn with_outcome(reports: Seq<Report>, o: ReportOutcome) -> Seq<Report>
    decreases reports.len(),
{
    if reports.len() == 0 {
        Seq::empty()
    } else {
        with_outcome(reports.drop_last(), o) + if outcome_of(reports.last()) == o {
            seq![reports.last()]
        } else {
            Seq::empty()
        }
    }
}

/// The lines of a summary section, separated by single newlines.
pub open spec fn section_lines(reports: Seq<Report>) -> Seq<char>
    decreases reports.len(),
{
    if reports.len() == 0 {
        Seq::empty()
    } else if reports.len() == 1 {
        report_line(reports[0])
    } else {
        section_lines(reports.drop_last()) + "\n"@ + report_line(reports.last())
    }
}

/// The whole closing summary of a pipeline run: one section per outcome,
/// each with its count and one line per report.
pub open spec fn report_summary_text(reports: Seq<Report>) -> Seq<char> {
    "# Report Summary\n\n## Packages with class pollution issues ("@ + dec_rep(
        with_outcome(reports, ReportOutcome::Issues).len(),
    ) + ")\n\n"@ + section_lines(with_outcome(reports, ReportOutcome::Issues))
        + "\n\n## Packages with errors ("@ + dec_rep(
        with_outcome(reports, ReportOutcome::Errors).len(),
    ) + ")\n\n"@ + section_lines(with_outcome(reports, ReportOutcome::Errors))
        + "\n\n## Packages with warnings ("@ + dec_rep(
        with_outcome(reports, ReportOutcome::Warnings).len(),
    ) + ")\n\n"@ + section_lines(with_outcome(reports, ReportOutcome::Warnings))
        + "\n\n## Packages with no issues ("@ + dec_rep(
        with_outcome(reports, ReportOutcome::NoIssues).len(),
    ) + ")\n\n"@ + section_lines(with_outcome(reports, ReportOutcome::NoIssues))
        + "\n            "@
}

/// Appends one report's summary line.
fn append_report_line(s: &mut String, r: &Report)
    ensures
        final(s)@ == old(s)@ + report_line(*r),
{
    s.append("- ");
    s.append(r.repository_config.id.as_str());
    match r.outcome() {
        ReportOutcome::Issues => {
            s.append(" (");
            push_decimal(s, r.issues.len() as u64);
            s.append(" issue(s))");
        },
        ReportOutcome::Errors => {
            s.append(" (");
            push_decimal(s, r.errors.len() as u64);
            s.append(" error(s), ");
            match &r.error_stage {
                Some(stage) => match stage {
                    PipelineStage::Setup => s.append("Setup"),
                    PipelineStage::ResolvingDependencies => s.append("ResolvingDependencies"),
                    PipelineStage::InstallingDependencies => s.append("InstallingDependencies"),
                    PipelineStage::PyreSetup => s.append("PyreSetup"),
                    PipelineStage::Analysis => s.append("Analysis"),
                    PipelineStage::Processing => s.append("Processing"),
                    PipelineStage::Cleanup => s.append("Cleanup"),
                },
                None => s.append("Unknown"),
            }
            s.append(")");
        },
        ReportOutcome::Warnings => {
            s.append(" (");
            push_decimal(s, r.warnings.len() as u64);
            s.append(" warning(s), ");
            push_decimal(s, r.issues.len() as u64);
            s.append(" issue(s))");
        },
        ReportOutcome::NoIssues => {},
    }
    if r.previous_run {
        s.append(" (cached)");
    }
    proof {
        assert(s@ =~= old(s)@ + report_line(*r));
    }
}

/// Appends the lines of the reports with this outcome, newline-separated.
fn append_section(s: &mut String, reports: &Vec<Report>, o: ReportOutcome)
    ensures
        final(s)@ == old(s)@ + section_lines(with_outcome(reports@, o)),
{
    let n = reports.len();
    let mut i: usize = 0;
    let mut first = true;
    proof {
        assert(reports@.take(0) =~= Seq::<Report>::empty());
    }
    while i < n
        invariant
            i <= n,
            n == reports@.len(),
            first == (with_outcome(reports@.take(i as int), o).len() == 0),
            s@ == old(s)@ + section_lines(with_outcome(reports@.take(i as int), o)),
        decreases n - i,
    {
        let ghost prefix = with_outcome(reports@.take(i as int), o);
        proof {
            assert(reports@.take(i as int + 1).drop_last() =~= reports@.take(i as int));
            assert(reports@.take(i as int + 1).last() == reports@[i as int]);
        }
        let matches_outcome = match (reports[i].outcome(), o) {
            (ReportOutcome::NoIssues, ReportOutcome::NoIssues) => true,
            (ReportOutcome::Issues, ReportOutcome::Issues) => true,
            (ReportOutcome::Warnings, ReportOutcome::Warnings) => true,
            (ReportOutcome::Errors, ReportOutcome::Errors) => true,
            _ => false,
        };
        if matches_outcome {
            if !first {
                s.append("\n");
            }
            append_report_line(s, &reports[i]);
            first = false;
            proof {
                let cur = with_outcome(reports@.take(i as int + 1), o);
                assert(cur =~= prefix + seq![reports@[i as int]]);
                assert(cur.drop_last() =~= prefix);
                assert(s@ =~= old(s)@ + section_lines(cur));
            }
        } else {
            proof {
                assert(with_outcome(reports@.take(i as int + 1), o) =~= prefix);
            }
        }
        i += 1;
    }
    proof {
        assert(reports@.take(n as int) =~= reports@);
    }
}

/// Counts the reports with this outcome.
fn count_outcome(reports: &Vec<Report>, o: ReportOutcome) -> (r: usize)
    ensures
        r as nat == with_outcome(reports@, o).len(),
{
    let n = reports.len();
    let mut count: usize = 0;
    let mut i: usize = 0;
    proof {
        assert(reports@.take(0) =~= Seq::<Report>::empty());
    }
    while i < n
        invariant
            i <= n,
            n == reports@.len(),
            count <= i,
            count as nat == with_outcome(reports@.take(i as int), o).len(),
        decreases n - i,
    {
        proof {
            assert(reports@.take(i as int + 1).drop_last() =~= reports@.take(i as int));
            assert(reports@.take(i as int + 1).last() == reports@[i as int]);
        }
        let matches_outcome = match (reports[i].outcome(), o) {
            (ReportOutcome::NoIssues, ReportOutcome::NoIssues) => true,
            (ReportOutcome::Issues, ReportOutcome::Issues) => true,
            (ReportOutcome::Warnings, ReportOutcome::Warnings) => true,
            (ReportOutcome::Errors, ReportOutcome::Errors) => true,
            _ => false,
        };
        if matches_outcome {
            count += 1;
        }
        i += 1;
    }
    proof {
        assert(reports@.take(n as int) =~= reports@);
    }
    count
}

/// Renders the closing summary of a pipeline run, grouping the reports by
/// outcome: issues found, errors, warnings, nothing found.
pub fn generate_summary(reports: &Vec<Report>) -> (r: String)
    ensures
        r@ == report_summary_text(reports@),
{
    let mut s = String::new();
    s.append("# Report Summary\n\n## Packages with class pollution issues (");
    push_decimal(&mut s, count_outcome(reports, ReportOutcome::Issues) as u64);
    s.append(")\n\n");
    append_section(&mut s, reports, ReportOutcome::Issues);
    s.append("\n\n## Packages with errors (");
    push_decimal(&mut s, count_outcome(reports, ReportOutcome::Errors) as u64);
    s.append(")\n\n");
    append_section(&mut s, reports, ReportOutcome::Errors);
    s.append("\n\n## Packages with warnings (");
    push_decimal(&mut s, count_outcome(reports, ReportOutcome::Warnings) as u64);
    s.append(")\n\n");
    append_section(&mut s, reports, ReportOutcome::Warnings);
    s.append("\n\n## Packages with no issues (");
    push_decimal(&mut s, count_outcome(reports, ReportOutcome::NoIssues) as u64);
    s.append(")\n\n");
    append_section(&mut s, reports, ReportOutcome::NoIssues);
    s.append("\n            ");
    proof {
        assert(s@ =~= report_summary_text(reports@));
    }
    s
}

} // verus!
