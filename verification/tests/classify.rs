use class_pollution_detection::results::GetAttrCount;
use class_pollution_detection::taint::{
    KindLeaf, LocalFeature, RootKind, SpanLocation, TaintCall, TaintIssueData, TaintRootCall,
    TaintRootDeclaration, TaintRootOrigin, TraceFragment,
};

fn feat(via: Option<&str>, always_via: Option<&str>) -> LocalFeature {
    LocalFeature {
        via: via.map(String::from),
        always_via: always_via.map(String::from),
        always_via_get_name_value: None,
        always_via_set_name_value: None,
        always_via_set_value_value: None,
    }
}

fn issue_with(features: Vec<LocalFeature>) -> TaintIssueData {
    TaintIssueData {
        callable: "f".to_string(),
        traces: vec![],
        location: SpanLocation { filename: None, path: None, line: 1, start: 0, end: 1 },
        features,
    }
}

#[test]
fn always_via_tag_gives_two_plus() {
    let issue = issue_with(vec![feat(None, Some("customgetattr"))]);
    assert_eq!(GetAttrCount::from_issue_data(&issue), GetAttrCount::TwoPlus);
}

#[test]
fn always_via_wins_regardless_of_other_features() {
    // a conditional annotation earlier in the list does not hide the
    // unconditional one
    let issue = issue_with(vec![
        feat(Some("customgetattr"), None),
        feat(Some("unrelated"), Some("also-unrelated")),
        feat(None, Some("customgetattr")),
    ]);
    assert_eq!(GetAttrCount::from_issue_data(&issue), GetAttrCount::TwoPlus);
}

#[test]
fn via_tag_alone_gives_conditional() {
    let issue = issue_with(vec![feat(Some("customgetattr"), None), feat(Some("other"), None)]);
    assert_eq!(GetAttrCount::from_issue_data(&issue), GetAttrCount::Conditional);
}

#[test]
fn neither_annotation_gives_one() {
    let issue = issue_with(vec![feat(Some("other"), Some("another")), feat(None, None)]);
    assert_eq!(GetAttrCount::from_issue_data(&issue), GetAttrCount::One);
    let empty = issue_with(vec![]);
    assert_eq!(GetAttrCount::from_issue_data(&empty), GetAttrCount::One);
}

#[test]
fn has_via_feature_checks_both_annotations() {
    let issue = issue_with(vec![feat(Some("tito-broadening"), None), feat(None, Some("obscure:model"))]);
    assert!(issue.has_via_feature("tito-broadening"));
    assert!(issue.has_via_feature("obscure:model"));
    assert!(!issue.has_via_feature("customgetattr"));
}

#[test]
fn fragment_accessors_expose_kinds_and_features() {
    let kind = RootKind {
        kind: "K".to_string(),
        features: vec![],
        leaves: vec![KindLeaf { name: "n".to_string(), port: "p".to_string() }],
    };
    let origin = TraceFragment::Origin(TaintRootOrigin {
        kinds: vec![kind],
        local_features: vec![feat(Some("customgetattr"), None)],
        origin: SpanLocation { filename: None, path: None, line: 2, start: 0, end: 1 },
    });
    assert_eq!(origin.kinds().len(), 1);
    assert_eq!(origin.kinds()[0].kind, "K");
    assert_eq!(origin.local_features().len(), 1);

    let call = TraceFragment::Call(TaintRootCall {
        kinds: vec![],
        local_features: vec![],
        call: TaintCall {
            position: SpanLocation { filename: None, path: None, line: 3, start: 0, end: 1 },
            resolves_to: vec!["g".to_string()],
            port: "q".to_string(),
        },
    });
    assert_eq!(call.kinds().len(), 0);
    assert_eq!(call.local_features().len(), 0);

    let decl = TraceFragment::Declaration(TaintRootDeclaration { declaration: () });
    assert_eq!(decl.kinds().len(), 0);
    assert_eq!(decl.local_features().len(), 0);
}

#[test]
fn with_filename_replaces_only_the_filename() {
    let l = SpanLocation {
        filename: Some("*".to_string()),
        path: Some("pkg/mod.py".to_string()),
        line: 42,
        start: 3,
        end: 9,
    };
    let replaced = l.with_filename("pkg/mod.py".to_string());
    assert_eq!(replaced.filename.as_deref(), Some("pkg/mod.py"));
    assert_eq!(replaced.path.as_deref(), Some("pkg/mod.py"));
    assert_eq!(replaced.line, 42);
    assert_eq!(replaced.start, 3);
    assert_eq!(replaced.end, 9);
}
