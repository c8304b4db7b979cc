use class_pollution_detection::config::{
    GitHubSrc, PyPISrc, RepositoryConfig, RepositoryMeta, RepositorySrc,
};
use class_pollution_detection::report::{Report, ReportOutcome};
use class_pollution_detection::results::{
    GetAttrCount, IssueLabel, ProcessedIssue, ProcessedResults,
};
use class_pollution_detection::summary::{Platform, SummaryEntry};
use class_pollution_detection::taint::SpanLocation;

fn loc(filename: Option<&str>, line: u32) -> SpanLocation {
    SpanLocation { filename: filename.map(String::from), path: None, line, start: 0, end: 1 }
}

fn processed(filename: Option<&str>, line: u32, count: GetAttrCount) -> ProcessedIssue {
    ProcessedIssue {
        location: loc(filename, line),
        trace: vec![],
        label: IssueLabel::Unlabeled,
        getattr_count: count,
    }
}

fn github_report(issues: Vec<ProcessedIssue>, warnings: Vec<String>, errors: Vec<String>) -> Report {
    Report {
        repository_config: RepositoryConfig {
            id: "proj".to_string(),
            src: RepositorySrc::GitHub(GitHubSrc {
                full_name: "owner/proj".to_string(),
                rev: "main".to_string(),
                basedir: None,
            }),
            extra_dependencies: vec![],
            meta: RepositoryMeta {
                repo_url: None,
                stars: Some(77),
                downloads: None,
                homepage: None,
            },
        },
        warnings,
        error_stage: None,
        errors,
        raw_issue_count: 5,
        issues,
        resolved_dependencies: vec![],
        elapsed_seconds: Some(9),
        previous_run: false,
    }
}

#[test]
fn summarise_renders_counts_and_lines() {
    let results = ProcessedResults {
        issues: vec![
            processed(Some("a.py"), 3, GetAttrCount::One),
            processed(Some("b.py"), 7, GetAttrCount::TwoPlus),
            processed(None, 12, GetAttrCount::One),
        ],
        warnings: vec![],
        resolved_dependencies: vec![],
        raw_issue_count: 3,
    };
    let text = results.summarise();
    let expected = "Issues with one getattr: 2\n\
                    - at a.py, line 3\n\
                    - at <unknown>, line 12\n\
                    Issues with two+ getattr: 1\n\
                    - at b.py, line 7\n\
                    Issues with a conditional number of getattr: 0\n\
                    Total issues: 3\n";
    assert_eq!(text, expected);
}

#[test]
fn summarise_renders_multi_digit_counts() {
    let mut issues = vec![];
    for i in 0..12 {
        issues.push(processed(Some("f.py"), 100 + i, GetAttrCount::Conditional));
    }
    let results = ProcessedResults {
        issues,
        warnings: vec![],
        resolved_dependencies: vec![],
        raw_issue_count: 12,
    };
    let text = results.summarise();
    assert!(text.starts_with("Issues with one getattr: 0\n"));
    assert!(text.contains("Issues with a conditional number of getattr: 12\n"));
    assert!(text.contains("- at f.py, line 111\n"));
    assert!(text.ends_with("Total issues: 12\n"));
}

#[test]
fn outcome_precedence() {
    let nothing = github_report(vec![], vec![], vec![]);
    assert_eq!(nothing.outcome(), ReportOutcome::NoIssues);

    let with_issues = github_report(vec![processed(None, 1, GetAttrCount::One)], vec![], vec![]);
    assert_eq!(with_issues.outcome(), ReportOutcome::Issues);

    let with_warnings = github_report(
        vec![processed(None, 1, GetAttrCount::One)],
        vec!["no dependencies".to_string()],
        vec![],
    );
    assert_eq!(with_warnings.outcome(), ReportOutcome::Warnings);

    let with_errors = github_report(
        vec![processed(None, 1, GetAttrCount::One)],
        vec!["no dependencies".to_string()],
        vec!["boom".to_string()],
    );
    assert_eq!(with_errors.outcome(), ReportOutcome::Errors);
}

#[test]
fn summary_entry_from_github_report() {
    let report = github_report(
        vec![
            processed(None, 1, GetAttrCount::TwoPlus),
            processed(None, 2, GetAttrCount::One),
        ],
        vec![],
        vec![],
    );
    let entry = SummaryEntry::from_report(report);
    assert_eq!(entry.platform, Platform::GitHub);
    assert_eq!(entry.name, "owner/proj");
    assert_eq!(entry.popularity, 77);
    assert_eq!(entry.raw_issue_count, 5);
    assert_eq!(entry.elapsed_seconds, Some(9));
    assert_eq!(entry.issues.len(), 2);
    assert_eq!(entry.issues[0].getattr_count, GetAttrCount::TwoPlus);
    assert_eq!(entry.issues[1].getattr_count, GetAttrCount::One);
}

#[test]
fn run_summary_groups_reports_by_outcome() {
    let mut found = github_report(vec![processed(None, 1, GetAttrCount::One)], vec![], vec![]);
    found.repository_config.id = "hits".to_string();
    let mut cached_clean = github_report(vec![], vec![], vec![]);
    cached_clean.repository_config.id = "clean".to_string();
    cached_clean.previous_run = true;
    let mut failed = github_report(vec![], vec![], vec!["boom".to_string()]);
    failed.repository_config.id = "broken".to_string();
    failed.error_stage = Some(class_pollution_detection::errors::PipelineStage::Analysis);

    let text = class_pollution_detection::report::generate_summary(&vec![
        found,
        cached_clean,
        failed,
    ]);
    let expected = "# Report Summary\n\n\
                    ## Packages with class pollution issues (1)\n\n\
                    - hits (1 issue(s))\n\n\
                    ## Packages with errors (1)\n\n\
                    - broken (1 error(s), Analysis)\n\n\
                    ## Packages with warnings (0)\n\n\n\n\
                    ## Packages with no issues (1)\n\n\
                    - clean (cached)\n            ";
    assert_eq!(text, expected);
}

#[test]
fn summary_entry_from_pypi_report() {
    let mut report = github_report(vec![], vec![], vec![]);
    report.repository_config.src = RepositorySrc::PyPI(PyPISrc {
        name: Some("pkg".to_string()),
        version: Some("1.0".to_string()),
        download_url: "https://example.invalid/pkg".to_string(),
        filename: "pkg-1.0.tar.gz".to_string(),
    });
    report.repository_config.meta.downloads = Some(12345);
    let entry = SummaryEntry::from_report(report);
    assert_eq!(entry.platform, Platform::PyPI);
    assert_eq!(entry.name, "pkg");
    assert_eq!(entry.popularity, 12345);
}
