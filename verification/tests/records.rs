use class_pollution_detection::errors::ToolError;
use class_pollution_detection::results::UnprocessedResults;
use class_pollution_detection::taint::{
    LocalFeature, SpanLocation, TaintIssueData, TaintModelData, TaintOutput, TaintOutputHeader,
};

fn loc() -> SpanLocation {
    SpanLocation { filename: Some("x.py".to_string()), path: None, line: 1, start: 0, end: 1 }
}

fn feat(via: Option<&str>, always_via: Option<&str>) -> LocalFeature {
    LocalFeature {
        via: via.map(String::from),
        always_via: always_via.map(String::from),
        always_via_get_name_value: None,
        always_via_set_name_value: None,
        always_via_set_value_value: None,
    }
}

fn issue(callable: &str, features: Vec<LocalFeature>) -> TaintOutput {
    TaintOutput::Issue(TaintIssueData {
        callable: callable.to_string(),
        traces: vec![],
        location: loc(),
        features,
    })
}

fn model(callable: &str) -> TaintOutput {
    TaintOutput::Model(TaintModelData {
        callable: callable.to_string(),
        filename: None,
        path: None,
        sources: vec![],
        sinks: vec![],
    })
}

#[test]
fn version_mismatch_rejects_before_any_record() {
    let header = TaintOutputHeader { file_version: 4 };
    let records = vec![model("a"), issue("b", vec![])];
    let r = UnprocessedResults::from_records(header, records);
    match r {
        Err(ToolError::PyreResultVersionMismatch { got, expected }) => {
            assert_eq!(got, 4);
            assert_eq!(expected, 3);
        }
        _ => panic!("expected a version-mismatch error"),
    }
}

#[test]
fn supported_version_is_accepted() {
    let header = TaintOutputHeader { file_version: 3 };
    let r = UnprocessedResults::from_records(header, vec![model("a")]).unwrap();
    assert_eq!(r.models.len(), 1);
    assert_eq!(r.issues.len(), 0);
    assert_eq!(r.raw_issue_count, 0);
}

#[test]
fn unreliable_issues_are_dropped_but_counted() {
    let header = TaintOutputHeader { file_version: 3 };
    let records = vec![
        issue("broadened", vec![feat(Some("tito-broadening"), None)]),
        issue("obscure", vec![feat(None, Some("obscure:model"))]),
        issue("clean", vec![feat(Some("something-else"), None)]),
    ];
    let r = UnprocessedResults::from_records(header, records).unwrap();
    assert_eq!(r.raw_issue_count, 3);
    assert_eq!(r.issues.len(), 1);
    assert_eq!(r.issues[0].callable, "clean");
}

#[test]
fn models_are_sorted_by_callable() {
    let header = TaintOutputHeader { file_version: 3 };
    let records = vec![model("zeta"), model("alpha"), model("mid"), issue("i", vec![])];
    let r = UnprocessedResults::from_records(header, records).unwrap();
    assert_eq!(r.models.len(), 3);
    assert_eq!(r.models[0].callable, "alpha");
    assert_eq!(r.models[1].callable, "mid");
    assert_eq!(r.models[2].callable, "zeta");
    assert_eq!(r.issues.len(), 1);
    assert_eq!(r.raw_issue_count, 1);
}

#[test]
fn issue_order_is_preserved() {
    let header = TaintOutputHeader { file_version: 3 };
    let records = vec![
        issue("one", vec![]),
        issue("two", vec![feat(Some("tito-broadening"), None)]),
        issue("three", vec![]),
    ];
    let r = UnprocessedResults::from_records(header, records).unwrap();
    assert_eq!(r.issues.len(), 2);
    assert_eq!(r.issues[0].callable, "one");
    assert_eq!(r.issues[1].callable, "three");
}
