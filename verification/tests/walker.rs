use class_pollution_detection::results::{GetAttrCount, IssueLabel, UnprocessedResults};
use class_pollution_detection::taint::{
    KindLeaf, RootKind, SpanLocation, TaintCall, TaintIssueData, TaintIssueTraces, TaintModelData,
    TaintRootCall, TaintRootDeclaration, TaintRootOrigin, TaintTrace, TraceFragment,
};
use class_pollution_detection::walk::TraceEntryStatus;

fn loc(filename: Option<&str>, path: Option<&str>, line: u32) -> SpanLocation {
    SpanLocation {
        filename: filename.map(String::from),
        path: path.map(String::from),
        line,
        start: 1,
        end: 5,
    }
}

fn call_frag(callable: &str, port: &str, position: SpanLocation) -> TraceFragment {
    TraceFragment::Call(TaintRootCall {
        kinds: vec![],
        local_features: vec![],
        call: TaintCall {
            position,
            resolves_to: vec![callable.to_string()],
            port: port.to_string(),
        },
    })
}

fn model(
    callable: &str,
    filename: Option<&str>,
    path: Option<&str>,
    sources: Vec<TaintTrace>,
) -> TaintModelData {
    TaintModelData {
        callable: callable.to_string(),
        filename: filename.map(String::from),
        path: path.map(String::from),
        sources,
        sinks: vec![],
    }
}

fn issue(callable: &str, location: SpanLocation, forward_root: TraceFragment) -> TaintIssueData {
    TaintIssueData {
        callable: callable.to_string(),
        traces: vec![TaintIssueTraces { name: "forward".to_string(), roots: vec![forward_root] }],
        location,
        features: vec![],
    }
}

#[test]
fn missing_model_yields_missing_then_root() {
    let results = UnprocessedResults {
        models: vec![model("f", None, None, vec![])],
        issues: vec![issue(
            "pkg.entry",
            loc(Some("issue.py"), None, 10),
            call_frag("f", "ret", loc(None, None, 4)),
        )],
        raw_issue_count: 1,
    };
    let processed = results.process();
    assert_eq!(processed.issues.len(), 1);
    let trace = &processed.issues[0].trace;
    assert_eq!(trace.len(), 2);
    assert!(matches!(trace[0].status, TraceEntryStatus::Missing));
    assert_eq!(trace[0].callable, "f");
    assert_eq!(trace[0].port, "ret");
    // the issue's file name is inherited by the resolved fragment
    assert_eq!(trace[0].location.filename.as_deref(), Some("issue.py"));
    assert!(matches!(trace[1].status, TraceEntryStatus::Present));
    assert_eq!(trace[1].callable, "pkg.entry");
    assert_eq!(trace[1].port, "root");
    assert_eq!(trace[1].location.line, 10);
    assert!(matches!(processed.issues[0].label, IssueLabel::Unlabeled));
    assert_eq!(processed.issues[0].getattr_count, GetAttrCount::One);
    assert_eq!(processed.raw_issue_count, 1);
}

#[test]
fn cycle_stops_with_recursive_entry() {
    let f = model(
        "f",
        None,
        None,
        vec![TaintTrace {
            port: "ret".to_string(),
            taint: vec![call_frag("g", "out", loc(None, None, 2))],
        }],
    );
    let g = model(
        "g",
        None,
        None,
        vec![TaintTrace {
            port: "out".to_string(),
            taint: vec![call_frag("f", "ret", loc(None, None, 3))],
        }],
    );
    let results = UnprocessedResults {
        models: vec![f, g],
        issues: vec![issue(
            "pkg.entry",
            loc(Some("m.py"), None, 1),
            call_frag("f", "ret", loc(None, None, 9)),
        )],
        raw_issue_count: 1,
    };
    let processed = results.process();
    let trace = &processed.issues[0].trace;
    assert_eq!(trace.len(), 4);
    assert!(matches!(trace[0].status, TraceEntryStatus::Recursive));
    assert_eq!(trace[0].callable, "f");
    assert_eq!(trace[0].port, "ret");
    assert!(matches!(trace[1].status, TraceEntryStatus::Present));
    assert_eq!(trace[1].callable, "g");
    assert!(matches!(trace[2].status, TraceEntryStatus::Present));
    assert_eq!(trace[2].callable, "f");
    // the recursive entry's pair reappears as a later present entry
    assert_eq!(trace[0].callable, trace[2].callable);
    assert_eq!(trace[0].port, trace[2].port);
    assert!(matches!(trace[3].status, TraceEntryStatus::Present));
    assert_eq!(trace[3].port, "root");
}

#[test]
fn star_filename_is_replaced_by_path_and_inherited() {
    // f's own file is the sentinel "*": its path substitutes, and the
    // substitution covers what is resolved beneath f.
    let f = model(
        "f",
        Some("*"),
        Some("real/f.py"),
        vec![TaintTrace {
            port: "ret".to_string(),
            taint: vec![call_frag("g", "out", loc(None, None, 2))],
        }],
    );
    let results = UnprocessedResults {
        models: vec![f],
        issues: vec![issue(
            "pkg.entry",
            loc(Some("issue.py"), None, 1),
            call_frag("f", "ret", loc(None, None, 9)),
        )],
        raw_issue_count: 1,
    };
    let processed = results.process();
    let trace = &processed.issues[0].trace;
    assert_eq!(trace.len(), 3);
    // g has no model: missing, located under f's substituted file
    assert!(matches!(trace[0].status, TraceEntryStatus::Missing));
    assert_eq!(trace[0].callable, "g");
    assert_eq!(trace[0].location.filename.as_deref(), Some("real/f.py"));
    // f's own entry is located under the issue's file
    assert!(matches!(trace[1].status, TraceEntryStatus::Present));
    assert_eq!(trace[1].callable, "f");
    assert_eq!(trace[1].location.filename.as_deref(), Some("issue.py"));
}

#[test]
fn only_first_candidates_are_followed() {
    // a call that resolves to several callables follows the first only
    let frag = TraceFragment::Call(TaintRootCall {
        kinds: vec![],
        local_features: vec![],
        call: TaintCall {
            position: loc(None, None, 4),
            resolves_to: vec!["first".to_string(), "second".to_string()],
            port: "p".to_string(),
        },
    });
    let results = UnprocessedResults {
        models: vec![],
        issues: vec![issue("pkg.entry", loc(Some("x.py"), None, 1), frag)],
        raw_issue_count: 1,
    };
    let processed = results.process();
    let trace = &processed.issues[0].trace;
    assert_eq!(trace.len(), 2);
    assert_eq!(trace[0].callable, "first");

    // an origin resolves to the first leaf of the first kind that has one
    let origin = TraceFragment::Origin(TaintRootOrigin {
        kinds: vec![
            RootKind { kind: "Empty".to_string(), features: vec![], leaves: vec![] },
            RootKind {
                kind: "K".to_string(),
                features: vec![],
                leaves: vec![
                    KindLeaf { name: "leaf_a".to_string(), port: "pa".to_string() },
                    KindLeaf { name: "leaf_b".to_string(), port: "pb".to_string() },
                ],
            },
        ],
        local_features: vec![],
        origin: loc(None, None, 6),
    });
    let results2 = UnprocessedResults {
        models: vec![],
        issues: vec![issue("pkg.entry", loc(Some("x.py"), None, 1), origin)],
        raw_issue_count: 1,
    };
    let processed2 = results2.process();
    let trace2 = &processed2.issues[0].trace;
    assert_eq!(trace2.len(), 2);
    assert_eq!(trace2[0].callable, "leaf_a");
    assert_eq!(trace2[0].port, "pa");
}

#[test]
fn declaration_and_empty_branches_contribute_nothing() {
    let decl = TraceFragment::Declaration(TaintRootDeclaration { declaration: () });
    let results = UnprocessedResults {
        models: vec![],
        issues: vec![issue("pkg.entry", loc(Some("x.py"), None, 1), decl)],
        raw_issue_count: 1,
    };
    let processed = results.process();
    let trace = &processed.issues[0].trace;
    assert_eq!(trace.len(), 1);
    assert!(matches!(trace[0].status, TraceEntryStatus::Present));
    assert_eq!(trace[0].port, "root");
}

#[test]
fn forward_root_backward_concatenate_in_order() {
    let f = TaintModelData {
        callable: "f".to_string(),
        filename: None,
        path: None,
        sources: vec![TaintTrace {
            port: "ret".to_string(),
            taint: vec![TraceFragment::Origin(TaintRootOrigin {
                kinds: vec![RootKind {
                    kind: "CustomGetAttr".to_string(),
                    features: vec![],
                    leaves: vec![KindLeaf { name: "src_fn".to_string(), port: "result".to_string() }],
                }],
                local_features: vec![],
                origin: loc(None, None, 2),
            })],
        }],
        sinks: vec![],
    };
    let issue_data = TaintIssueData {
        callable: "pkg.entry".to_string(),
        traces: vec![
            TaintIssueTraces {
                name: "forward".to_string(),
                roots: vec![call_frag("f", "ret", loc(None, None, 5))],
            },
            TaintIssueTraces {
                name: "backward".to_string(),
                roots: vec![call_frag("sink_fn", "arg", loc(None, None, 6))],
            },
        ],
        location: loc(Some("x.py"), None, 1),
        features: vec![],
    };
    let results = UnprocessedResults { models: vec![f], issues: vec![issue_data], raw_issue_count: 1 };
    let processed = results.process();
    let trace = &processed.issues[0].trace;
    // forward: src_fn has no model (missing), then f itself; root; then the
    // backward branch (one missing entry) reversed
    assert_eq!(trace.len(), 4);
    assert_eq!(trace[0].callable, "src_fn");
    assert!(matches!(trace[0].status, TraceEntryStatus::Missing));
    assert_eq!(trace[1].callable, "f");
    assert!(matches!(trace[1].status, TraceEntryStatus::Present));
    assert_eq!(trace[2].port, "root");
    assert_eq!(trace[3].callable, "sink_fn");
    assert!(matches!(trace[3].status, TraceEntryStatus::Missing));
}

#[test]
fn backward_branch_is_reversed_after_the_root() {
    // backward walk g -> f emits [Recursive/Missing..deepest first]; the
    // processed trace holds it reversed after the root entry.
    let f = TaintModelData {
        callable: "f".to_string(),
        filename: None,
        path: None,
        sources: vec![],
        sinks: vec![TaintTrace {
            port: "arg".to_string(),
            taint: vec![call_frag("g", "sink_port", loc(None, None, 2))],
        }],
    };
    let issue_data = TaintIssueData {
        callable: "pkg.entry".to_string(),
        traces: vec![TaintIssueTraces {
            name: "backward".to_string(),
            roots: vec![call_frag("f", "arg", loc(None, None, 8))],
        }],
        location: loc(Some("x.py"), None, 1),
        features: vec![],
    };
    let results = UnprocessedResults { models: vec![f], issues: vec![issue_data], raw_issue_count: 1 };
    let processed = results.process();
    let trace = &processed.issues[0].trace;
    // walk order is [Missing(g), Present(f)]; reversed: root, f, g
    assert_eq!(trace.len(), 3);
    assert_eq!(trace[0].port, "root");
    assert_eq!(trace[1].callable, "f");
    assert!(matches!(trace[1].status, TraceEntryStatus::Present));
    assert_eq!(trace[2].callable, "g");
    assert!(matches!(trace[2].status, TraceEntryStatus::Missing));
}
