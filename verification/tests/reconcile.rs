use class_pollution_detection::results::{GetAttrCount, IssueLabel, ProcessedIssue};
use class_pollution_detection::taint::SpanLocation;
use class_pollution_detection::temp::{traces_equal, ReconcileError, Temp};
use class_pollution_detection::walk::{TraceEntry, TraceEntryStatus};

fn loc(line: u32) -> SpanLocation {
    SpanLocation { filename: Some("x.py".to_string()), path: None, line, start: 0, end: 1 }
}

fn entry(callable: &str, port: &str, line: u32) -> TraceEntry {
    TraceEntry {
        status: TraceEntryStatus::Present,
        callable: callable.to_string(),
        port: port.to_string(),
        location: loc(line),
    }
}

fn processed(
    trace: Vec<TraceEntry>,
    label: IssueLabel,
    getattr_count: GetAttrCount,
) -> ProcessedIssue {
    ProcessedIssue { location: loc(1), trace, label, getattr_count }
}

#[test]
fn unique_match_updates_classification_and_keeps_label() {
    let mut stored = vec![
        processed(
            vec![entry("f", "ret", 2), entry("root_fn", "root", 1)],
            IssueLabel::Vulnerable { features: vec![] },
            GetAttrCount::One,
        ),
        processed(
            vec![entry("g", "out", 3)],
            IssueLabel::NotVulnerable { reasons: vec![] },
            GetAttrCount::Conditional,
        ),
    ];
    let fresh = vec![processed(
        vec![entry("f", "ret", 2), entry("root_fn", "root", 1)],
        IssueLabel::Unlabeled,
        GetAttrCount::TwoPlus,
    )];
    let changed = Temp::reconcile_issues(&mut stored, &fresh).unwrap();
    assert!(changed);
    assert_eq!(stored[0].getattr_count, GetAttrCount::TwoPlus);
    assert!(matches!(stored[0].label, IssueLabel::Vulnerable { .. }));
    // the unmatched stored issue is untouched
    assert_eq!(stored[1].getattr_count, GetAttrCount::Conditional);
    assert!(matches!(stored[1].label, IssueLabel::NotVulnerable { .. }));
}

#[test]
fn matching_classifications_are_a_no_op() {
    let mut stored = vec![processed(
        vec![entry("f", "ret", 2)],
        IssueLabel::Vulnerable { features: vec![] },
        GetAttrCount::TwoPlus,
    )];
    let fresh = vec![processed(
        vec![entry("f", "ret", 2)],
        IssueLabel::Unlabeled,
        GetAttrCount::TwoPlus,
    )];
    let changed = Temp::reconcile_issues(&mut stored, &fresh).unwrap();
    assert!(!changed);
    assert_eq!(stored[0].getattr_count, GetAttrCount::TwoPlus);
    assert!(matches!(stored[0].label, IssueLabel::Vulnerable { .. }));
}

#[test]
fn zero_matches_abort() {
    let mut stored = vec![processed(
        vec![entry("f", "ret", 2)],
        IssueLabel::Unlabeled,
        GetAttrCount::One,
    )];
    let fresh = vec![processed(
        vec![entry("other", "ret", 2)],
        IssueLabel::Unlabeled,
        GetAttrCount::One,
    )];
    match Temp::reconcile_issues(&mut stored, &fresh) {
        Err(ReconcileError::AmbiguousMatch { found }) => assert_eq!(found, 0),
        _ => panic!("expected an ambiguous-match error"),
    }
}

#[test]
fn several_matches_abort() {
    let mut stored = vec![
        processed(vec![entry("f", "ret", 2)], IssueLabel::Unlabeled, GetAttrCount::One),
        processed(vec![entry("f", "ret", 2)], IssueLabel::Unlabeled, GetAttrCount::TwoPlus),
    ];
    let fresh = vec![processed(
        vec![entry("f", "ret", 2)],
        IssueLabel::Unlabeled,
        GetAttrCount::Conditional,
    )];
    match Temp::reconcile_issues(&mut stored, &fresh) {
        Err(ReconcileError::AmbiguousMatch { found }) => assert_eq!(found, 2),
        _ => panic!("expected an ambiguous-match error"),
    }
}

#[test]
fn second_pass_is_a_no_op() {
    let mut stored = vec![
        processed(vec![entry("f", "ret", 2)], IssueLabel::Vulnerable { features: vec![] }, GetAttrCount::One),
        processed(vec![entry("g", "out", 3)], IssueLabel::Unlabeled, GetAttrCount::One),
    ];
    let fresh = vec![
        processed(vec![entry("f", "ret", 2)], IssueLabel::Unlabeled, GetAttrCount::TwoPlus),
        processed(vec![entry("g", "out", 3)], IssueLabel::Unlabeled, GetAttrCount::Conditional),
    ];
    let first = Temp::reconcile_issues(&mut stored, &fresh).unwrap();
    assert!(first);
    let second = Temp::reconcile_issues(&mut stored, &fresh).unwrap();
    assert!(!second);
    assert_eq!(stored[0].getattr_count, GetAttrCount::TwoPlus);
    assert_eq!(stored[1].getattr_count, GetAttrCount::Conditional);
    assert!(matches!(stored[0].label, IssueLabel::Vulnerable { .. }));
    assert!(matches!(stored[1].label, IssueLabel::Unlabeled));
}

#[test]
fn trace_identity_is_exact() {
    let a = vec![entry("f", "ret", 2), entry("g", "out", 3)];
    let b = vec![entry("f", "ret", 2), entry("g", "out", 3)];
    assert!(traces_equal(&a, &b));
    let c = vec![entry("f", "ret", 2), entry("g", "out", 4)];
    assert!(!traces_equal(&a, &c));
    let d = vec![entry("f", "ret", 2)];
    assert!(!traces_equal(&a, &d));
    let mut e = vec![entry("f", "ret", 2), entry("g", "out", 3)];
    e[1].status = TraceEntryStatus::Missing;
    assert!(!traces_equal(&a, &e));
}
