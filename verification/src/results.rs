//! Processing of the analyzer's raw output: classification of issues,
//! reconstruction of their call chains through the model index, and the
//! processed artifacts that cross run boundaries.

use vstd::prelude::*;

use crate::config::PipPackage;
use crate::order::{lemma_lex_connected, lemma_lex_irrefl, lemma_lex_trans, lex_lt, str_eq, str_lt};
use crate::taint::{
    clone_opt_string, opt_str_is, opt_str_view, opt_string_is, LocV, SpanLocation, TaintIssueData,
    TaintIssueTraces, TaintModelData, TaintOutput, TaintOutputHeader, TaintTrace, TraceFragment,
};
use crate::walk::{
    dir_traces, entries_view, file_or_path, first_leaf, first_model, first_port_trace, frag_head,
    index_pairs, lemma_first_model_absent, lemma_first_model_at, lemma_index_pairs_finite,
    lemma_resolve_in_pairs, models_strictly_sorted, resolve_model, walk_spec, EntryV, TraceDirection,
    TraceEntry, TraceEntryStatus,
};

verus! {

/// The feature tag the analyzer emits when taint passes through another
/// instance of the sensitive accessor.
pub open spec fn accessor_tag() -> Seq<char> {
    "customgetattr"@
}

/// Does this feature record an unconditional traversal of the operation?
pub open spec fn always_names(f: crate::taint::LocalFeature, v: Seq<char>) -> bool {
    opt_str_is(f.always_via, v)
}

/// Does this feature record a conditional traversal of the operation?
pub open spec fn via_names(f: crate::taint::LocalFeature, v: Seq<char>) -> bool {
    opt_str_is(f.via, v)
}

pub open spec fn has_always_via(fs: Seq<crate::taint::LocalFeature>, v: Seq<char>) -> bool {
    exists|i: int| 0 <= i < fs.len() && always_names(#[trigger] fs[i], v)
}

pub open spec fn has_conditional_via(fs: Seq<crate::taint::LocalFeature>, v: Seq<char>) -> bool {
    exists|i: int| 0 <= i < fs.len() && via_names(#[trigger] fs[i], v)
}

/// How the classification is derived from an issue's features: an
/// `always-via` annotation of the accessor tag always yields `TwoPlus`,
/// whatever else is present; a `via` annotation alone yields `Conditional`;
/// neither yields `One`.
pub open spec fn classify_features(fs: Seq<crate::taint::LocalFeature>) -> GetAttrCount {
    if has_always_via(fs, accessor_tag()) {
        GetAttrCount::TwoPlus
    } else if has_conditional_via(fs, accessor_tag()) {
        GetAttrCount::Conditional
    } else {
        GetAttrCount::One
    }
}

/// How many times the sensitive accessor is traversed before the sink is
/// reached.  At least two traversals are usually needed for a meaningful
/// exploit.
#[derive(Debug, Clone, Copy, PartialEq, Eq, Structural)]
pub enum GetAttrCount {
    One,
    TwoPlus,
    /// The count depends on a loop or a recursive call.
    Conditional,
}

impl GetAttrCount {
    /// Classifies an issue by its propagated features.  The source passing
    /// through another instance of the accessor is recorded by the
    /// `customgetattr` feature: unconditionally (`always_via`) means at
    /// least two traversals; conditionally (`via`) means the count depends
    /// on a loop or recursion; neither means exactly one.
    pub fn from_issue_data(issue_data: &TaintIssueData) -> (r: Self)
        ensures
            r == classify_features(issue_data.features@),
    {
        let n = issue_data.features.len();
        let mut i: usize = 0;
        while i < n
            invariant
                i <= n,
                n == issue_data.features@.len(),
                forall|j: int|
                    0 <= j < i ==> !always_names(#[trigger] issue_data.features@[j], accessor_tag()),
            decreases n - i,
        {
            if opt_string_is(&issue_data.features[i].always_via, "customgetattr") {
                proof {
                    assert(always_names(issue_data.features@[i as int], accessor_tag()));
                }
                return GetAttrCount::TwoPlus;
            }
            i += 1;
        }
        let mut k: usize = 0;
        while k < n
            invariant
                k <= n,
                n == issue_data.features@.len(),
                !has_always_via(issue_data.features@, accessor_tag()),
                forall|j: int|
                    0 <= j < k ==> !via_names(#[trigger] issue_data.features@[j], accessor_tag()),
            decreases n - k,
        {
            if opt_string_is(&issue_data.features[k].via, "customgetattr") {
                proof {
                    assert(via_names(issue_data.features@[k as int], accessor_tag()));
                }
                return GetAttrCount::Conditional;
            }
            k += 1;
        }
        GetAttrCount::One
    }
}

/// Why an issue is judged exploitable.
#[derive(Debug, Clone, Copy)]
pub enum VulnerableFeature {
    /// The values of a dictionary can be reached.
    DictAccess,
    /// The values of a list or tuple can be reached.
    ListTupleAccess,
    /// The value is (conditionally) set through `__setitem__`.
    SupportsSetItem,
    /// The function eases reaching a gadget by itself.
    AdditionalBenefits,
    /// The value being set is not controlled by function inputs.
    ValueNotControlled,
    /// The final or intermediate attributes must exist already.
    NeedsExisting,
    /// The target or intermediate classes carry extra constraints.
    AdditionalConstraints,
}

/// Why an issue is judged a false positive.
#[derive(Debug)]
pub enum NotVulnerableReason {
    /// The object passed to the setter is no longer the getter's result.
    ModifiedReference,
    /// The code does not recurse or iterate the accessor calls.
    NonRecursive,
    /// A filter blocks dangerous attribute names.
    Filtered,
    /// The attributes are not controlled by function inputs.
    NotControlled,
    /// Only a predefined list of attributes may flow in.
    AttrAllowList,
    Other { notes: String },
}

/// Mathematical view of a `NotVulnerableReason`.
pub ghost enum ReasonV {
    ModifiedReference,
    NonRecursive,
    Filtered,
    NotControlled,
    AttrAllowList,
    Other { notes: Seq<char> },
}

impl View for NotVulnerableReason {
    type V = ReasonV;

    open spec fn view(&self) -> ReasonV {
        match self {
            NotVulnerableReason::ModifiedReference => ReasonV::ModifiedReference,
            NotVulnerableReason::NonRecursive => ReasonV::NonRecursive,
            NotVulnerableReason::Filtered => ReasonV::Filtered,
            NotVulnerableReason::NotControlled => ReasonV::NotControlled,
            NotVulnerableReason::AttrAllowList => ReasonV::AttrAllowList,
            NotVulnerableReason::Other { notes } => ReasonV::Other { notes: notes@ },
        }
    }
}

/// The human judgment of one issue.  Fresh issues start `Unlabeled`;
/// the labeling session moves them to one of the two terminal states, and
/// re-labeling may overwrite an earlier judgment.
#[derive(Debug)]
pub enum IssueLabel {
    Unlabeled,
    Vulnerable { features: Vec<VulnerableFeature> },
    NotVulnerable { reasons: Vec<NotVulnerableReason> },
}

/// Mathematical view of an `IssueLabel`.
pub ghost enum LabelV {
    Unlabeled,
    Vulnerable { features: Seq<VulnerableFeature> },
    NotVulnerable { reasons: Seq<ReasonV> },
}

impl View for IssueLabel {
    type V = LabelV;

    open spec fn view(&self) -> LabelV {
        match self {
            IssueLabel::Unlabeled => LabelV::Unlabeled,
            IssueLabel::Vulnerable { features } => LabelV::Vulnerable { features: features@ },
            IssueLabel::NotVulnerable { reasons } => LabelV::NotVulnerable {
                reasons: reasons@.map_values(|r: NotVulnerableReason| r@),
            },
        }
    }
}

/// One processed finding: the unit that crosses run boundaries and carries
/// the human-entered label.
#[derive(Debug)]
pub struct ProcessedIssue {
    pub location: SpanLocation,
    pub trace: Vec<TraceEntry>,
    pub label: IssueLabel,
    pub getattr_count: GetAttrCount,
}

/// Mathematical view of a `ProcessedIssue`.
pub ghost struct ProcessedIssueV {
    pub location: LocV,
    pub trace: Seq<EntryV>,
    pub label: LabelV,
    pub getattr_count: GetAttrCount,
}

impl View for ProcessedIssue {
    type V = ProcessedIssueV;

    open spec fn view(&self) -> ProcessedIssueV {
        ProcessedIssueV {
            location: self.location@,
            trace: entries_view(self.trace@),
            label: self.label@,
            getattr_count: self.getattr_count,
        }
    }
}

/// Everything one analysis run derives from the raw output.
#[derive(Debug)]
pub struct ProcessedResults {
    pub issues: Vec<ProcessedIssue>,
    pub warnings: Vec<String>,
    pub resolved_dependencies: Vec<PipPackage>,
    pub raw_issue_count: usize,
}

/// The parsed analyzer output before trace reconstruction: the model index
/// (sorted by callable), the issues that survived the reliability filter,
/// and the raw count of issues before filtering.
#[derive(Debug)]
pub struct UnprocessedResults {
    pub models: Vec<TaintModelData>,
    pub issues: Vec<TaintIssueData>,
    pub raw_issue_count: usize,
}

/// The (callable, port) pairs a walk has already expanded, as a set.
pub open spec fn visited_pairs(v: Seq<(String, String)>) -> Set<(Seq<char>, Seq<char>)> {
    v.map_values(|t: (String, String)| (t.0@, t.1@)).to_set()
}

proof fn lemma_visited_pairs_push(v: Seq<(String, String)>, x: (String, String))
    ensures
        visited_pairs(v.push(x)) == visited_pairs(v).insert((x.0@, x.1@)),
{
    let f = |t: (String, String)| (t.0@, t.1@);
    let m1 = v.push(x).map_values(f);
    let m2 = v.map_values(f);
    assert(m1 =~= m2.push((x.0@, x.1@)));
    assert forall|y: (Seq<char>, Seq<char>)| #[trigger] visited_pairs(v.push(x)).contains(y)
        implies visited_pairs(v).insert((x.0@, x.1@)).contains(y) by {
        let i = choose|i: int| 0 <= i < m1.len() && m1[i] == y;
        if i < m2.len() {
            assert(m2[i] == y);
        }
    }
    assert forall|y: (Seq<char>, Seq<char>)| visited_pairs(v).insert(
        (x.0@, x.1@),
    ).contains(y) implies #[trigger] visited_pairs(v.push(x)).contains(y) by {
        if visited_pairs(v).contains(y) {
            let i = choose|i: int| 0 <= i < m2.len() && m2[i] == y;
            assert(m1[i] == y);
        } else {
            assert(m1[m2.len() as int] == y);
        }
    }
    assert(visited_pairs(v.push(x)) =~= visited_pairs(v).insert((x.0@, x.1@)));
}

proof fn lemma_visited_pairs_empty(v: Seq<(String, String)>)
    requires
        v.len() == 0,
    ensures
        visited_pairs(v) == Set::<(Seq<char>, Seq<char>)>::empty(),
{
    let f = |t: (String, String)| (t.0@, t.1@);
    assert forall|y: (Seq<char>, Seq<char>)| !(#[trigger] visited_pairs(v).contains(y)) by {
        if visited_pairs(v).contains(y) {
            let i = choose|i: int| 0 <= i < v.map_values(f).len() && v.map_values(f)[i] == y;
        }
    }
    assert(visited_pairs(v) =~= Set::<(Seq<char>, Seq<char>)>::empty());
}

/// Is this (callable, port) pair among the visited ones?
fn pairs_contains(visited: &Vec<(String, String)>, callable: &str, port: &str) -> (r: bool)
    ensures
        r == visited_pairs(visited@).contains((callable@, port@)),
{
    let ghost f = |t: (String, String)| (t.0@, t.1@);
    let n = visited.len();
    let mut i: usize = 0;
    while i < n
        invariant
            i <= n,
            n == visited@.len(),
            forall|j: int| 0 <= j < i ==> #[trigger] visited@.map_values(f)[j] != (callable@, port@),
            f == (|t: (String, String)| (t.0@, t.1@)),
        decreases n - i,
    {
        let pair = &visited[i];
        if str_eq(pair.0.as_str(), callable) && str_eq(pair.1.as_str(), port) {
            proof {
                assert(visited@.map_values(f)[i as int] == (callable@, port@));
            }
            return true;
        }
        i += 1;
    }
    proof {
        if visited_pairs(visited@).contains((callable@, port@)) {
            let j = choose|j: int|
                0 <= j < visited@.map_values(f).len() && visited@.map_values(f)[j] == (
                callable@,
                port@,
            );
            assert(visited@.map_values(f)[j] == (callable@, port@));
        }
    }
    false
}

/// An equal copy of the visited list.
fn clone_pairs(v: &Vec<(String, String)>) -> (r: Vec<(String, String)>)
    ensures
        r@ == v@,
{
    let n = v.len();
    let mut r: Vec<(String, String)> = Vec::new();
    let mut i: usize = 0;
    while i < n
        invariant
            i <= n,
            n == v@.len(),
            r@ =~= v@.take(i as int),
        decreases n - i,
    {
        let pair = &v[i];
        r.push((pair.0.clone(), pair.1.clone()));
        proof {
            assert((v@[i as int].0, v@[i as int].1) == v@[i as int]);
            assert(r@ =~= v@.take(i as int + 1));
        }
        i += 1;
    }
    proof {
        assert(v@.take(n as int) =~= v@);
    }
    r
}

/// The model's or issue's own file, by the substitution rule.
fn file_or_path_exec(filename: &Option<String>, path: &Option<String>) -> (r: Option<String>)
    ensures
        opt_str_view(r) == file_or_path(*filename, *path),
{
    match filename {
        Some(f) => {
            if !str_eq(f.as_str(), "*") {
                Some(f.clone())
            } else {
                clone_opt_string(path)
            }
        },
        None => clone_opt_string(path),
    }
}

/// The first kind leaf of a fragment's kinds, if any.
fn first_leaf_exec(kinds: &Vec<crate::taint::RootKind>) -> (r: Option<&crate::taint::KindLeaf>)
    ensures
        match r {
            Some(l) => first_leaf(kinds@) == Some(*l),
            None => first_leaf(kinds@) is None,
        },
{
    let n = kinds.len();
    let mut i: usize = 0;
    proof {
        assert(kinds@.skip(0) =~= kinds@);
    }
    while i < n
        invariant
            i <= n,
            n == kinds@.len(),
            first_leaf(kinds@) == first_leaf(kinds@.skip(i as int)),
        decreases n - i,
    {
        if kinds[i].leaves.len() > 0 {
            proof {
                assert(kinds@.skip(i as int)[0] == kinds@[i as int]);
            }
            return Some(&kinds[i].leaves[0]);
        }
        proof {
            assert(kinds@.skip(i as int)[0] == kinds@[i as int]);
            assert(kinds@.skip(i as int).drop_first() =~= kinds@.skip(i as int + 1));
        }
        i += 1;
    }
    proof {
        assert(kinds@.skip(n as int).len() == 0);
    }
    None
}

/// The callable, port, and location this fragment resolves to, if any:
/// always the first candidate leaf or resolution, never a later one.
fn frag_target(trace: &TraceFragment) -> (r: Option<(String, String, SpanLocation)>)
    ensures
        match r {
            Some(t) => frag_head(*trace) == Some((t.0@, t.1@, t.2@)),
            None => frag_head(*trace) is None,
        },
{
    match trace {
        TraceFragment::Origin(origin) => match first_leaf_exec(&origin.kinds) {
            Some(leaf) => Some(
                (leaf.name.clone(), leaf.port.clone(), origin.origin.duplicate()),
            ),
            None => None,
        },
        TraceFragment::Call(call_frag) => {
            if call_frag.call.resolves_to.len() > 0 {
                Some(
                    (
                        call_frag.call.resolves_to[0].clone(),
                        call_frag.call.port.clone(),
                        call_frag.call.position.duplicate(),
                    ),
                )
            } else {
                None
            }
        },
        TraceFragment::Declaration(_) => None,
    }
}

impl UnprocessedResults {
    /// The index invariant: models sorted by callable, at most one entry
    /// per callable.
    pub open spec fn wf(&self) -> bool {
        models_strictly_sorted(self.models@)
    }

    /// Binary search over the sorted model index.
    fn binary_search_models(&self, key: &str) -> (r: Option<usize>)
        requires
            self.wf(),
        ensures
            match r {
                Some(i) => i < self.models@.len() && self.models@[i as int].callable@ == key@,
                None => forall|j: int|
                    0 <= j < self.models@.len() ==> (#[trigger] self.models@[j]).callable@ != key@,
            },
    {
        let n = self.models.len();
        let mut lo: usize = 0;
        let mut hi: usize = n;
        while lo < hi
            invariant
                lo <= hi <= n,
                n == self.models@.len(),
                self.wf(),
                forall|j: int|
                    0 <= j < lo ==> lex_lt((#[trigger] self.models@[j]).callable@, key@),
                forall|j: int|
                    hi <= j < n ==> lex_lt(key@, (#[trigger] self.models@[j]).callable@),
            decreases hi - lo,
        {
            let mid = lo + (hi - lo) / 2;
            if str_lt(self.models[mid].callable.as_str(), key) {
                proof {
                    assert forall|j: int|
                        0 <= j < mid + 1 implies lex_lt(
                        (#[trigger] self.models@[j]).callable@,
                        key@,
                    ) by {
                        if j < mid {
                            lemma_lex_trans(
                                self.models@[j].callable@,
                                self.models@[mid as int].callable@,
                                key@,
                            );
                        }
                    }
                }
                lo = mid + 1;
            } else if str_lt(key, self.models[mid].callable.as_str()) {
                proof {
                    assert forall|j: int|
                        mid <= j < n implies lex_lt(
                        key@,
                        (#[trigger] self.models@[j]).callable@,
                    ) by {
                        if j > mid {
                            lemma_lex_trans(
                                key@,
                                self.models@[mid as int].callable@,
                                self.models@[j].callable@,
                            );
                        }
                    }
                }
                hi = mid;
            } else {
                proof {
                    lemma_lex_connected(self.models@[mid as int].callable@, key@);
                }
                return Some(mid);
            }
        }
        proof {
            assert forall|j: int|
                0 <= j < n implies (#[trigger] self.models@[j]).callable@ != key@ by {
                if j < lo {
                    lemma_lex_irrefl(key@);
                } else {
                    lemma_lex_irrefl(key@);
                }
            }
        }
        None
    }

    /// Looks the (callable, port) pair up in the model index on the side
    /// the direction selects.  An absent callable, an absent port, and a
    /// port without a taint fragment are all one "missing" outcome.
    fn find_model<'a>(&'a self, callable: &str, port: &str, dir: TraceDirection) -> (r: Option<
        (Option<String>, &'a TraceFragment),
    >)
        requires
            self.wf(),
        ensures
            match r {
                Some(found) => resolve_model(self.models@, callable@, port@, dir) == Some(
                    (opt_str_view(found.0), *found.1),
                ),
                None => resolve_model(self.models@, callable@, port@, dir) is None,
            },
    {
        let idx = match self.binary_search_models(callable) {
            Some(i) => i,
            None => {
                proof {
                    lemma_first_model_absent(self.models@, callable@);
                }
                return None;
            },
        };
        proof {
            lemma_first_model_at(self.models@, callable@, idx as int);
        }
        let model = &self.models[idx];
        let traces = match dir {
            TraceDirection::Forward => &model.sources,
            TraceDirection::Backward => &model.sinks,
        };
        proof {
            assert(traces@ == dir_traces(self.models@[idx as int], dir));
        }
        let n = traces.len();
        let mut j: usize = 0;
        proof {
            assert(traces@.skip(0) =~= traces@);
        }
        while j < n
            invariant
                j <= n,
                n == traces@.len(),
                idx < self.models@.len(),
                first_model(self.models@, callable@) == Some(self.models@[idx as int]),
                traces@ == dir_traces(self.models@[idx as int], dir),
                model == &self.models@[idx as int],
                first_port_trace(traces@, port@) == first_port_trace(
                    traces@.skip(j as int),
                    port@,
                ),
            decreases n - j,
        {
            proof {
                assert(traces@.skip(j as int)[0] == traces@[j as int]);
                assert(traces@.skip(j as int).drop_first() =~= traces@.skip(j as int + 1));
            }
            if str_eq(traces[j].port.as_str(), port) {
                proof {
                    assert(first_port_trace(traces@, port@) == Some(traces@[j as int]));
                }
                if traces[j].taint.len() == 0 {
                    return None;
                }
                let filename = file_or_path_exec(&model.filename, &model.path);
                return Some((filename, &traces[j].taint[0]));
            }
            j += 1;
        }
        proof {
            assert(traces@.skip(n as int).len() == 0);
        }
        None
    }

    /// Walks one taint branch: resolves the fragment, stops with a
    /// `Recursive` entry on a pair already expanded on this path, stops
    /// with a `Missing` entry on a pair the index cannot resolve, and
    /// otherwise recurses into the resolved fragment before appending the
    /// pair's own `Present` entry.
    pub fn find_traces(
        &self,
        trace: &TraceFragment,
        dir: TraceDirection,
        filename: Option<String>,
        visited: &Vec<(String, String)>,
    ) -> (r: Vec<TraceEntry>)
        requires
            self.wf(),
        ensures
            entries_view(r@) == walk_spec(
                self.models@,
                *trace,
                dir,
                opt_str_view(filename),
                visited_pairs(visited@),
            ),
        decreases index_pairs(self.models@, dir).difference(visited_pairs(visited@)).len(),
    {
        let ghost w = walk_spec(
            self.models@,
            *trace,
            dir,
            opt_str_view(filename),
            visited_pairs(visited@),
        );
        let target = frag_target(trace);
        let (callable, port, location) = match target {
            Some(t) => t,
            None => {
                let out: Vec<TraceEntry> = Vec::new();
                proof {
                    assert(entries_view(out@) =~= w);
                }
                return out;
            },
        };
        let loc = match &filename {
            Some(f) => location.with_filename(f.clone()),
            None => location.duplicate(),
        };
        if pairs_contains(visited, callable.as_str(), port.as_str()) {
            let mut out: Vec<TraceEntry> = Vec::new();
            out.push(
                TraceEntry {
                    status: TraceEntryStatus::Recursive,
                    callable,
                    port,
                    location: loc,
                },
            );
            proof {
                assert(entries_view(out@) =~= w);
            }
            return out;
        }
        match self.find_model(callable.as_str(), port.as_str(), dir) {
            None => {
                let mut out: Vec<TraceEntry> = Vec::new();
                out.push(
                    TraceEntry {
                        status: TraceEntryStatus::Missing,
                        callable,
                        port,
                        location: loc,
                    },
                );
                proof {
                    assert(entries_view(out@) =~= w);
                }
                out
            },
            Some(found) => {
                let new_filename = found.0;
                let fragment = found.1;
                let mut new_visited = clone_pairs(visited);
                new_visited.push((callable.clone(), port.clone()));
                proof {
                    let x = new_visited@.last();
                    assert(new_visited@ == visited@.push(x));
                    lemma_visited_pairs_push(visited@, x);
                    assert((x.0@, x.1@) == (callable@, port@));
                    assert(visited_pairs(new_visited@) == visited_pairs(visited@).insert(
                        (callable@, port@),
                    ));
                    lemma_index_pairs_finite(self.models@, dir);
                    lemma_resolve_in_pairs(self.models@, callable@, port@, dir);
                    index_pairs(self.models@, dir).lemma_set_insert_diff_decreases(
                        visited_pairs(visited@),
                        (callable@, port@),
                    );
                }
                let mut res = self.find_traces(fragment, dir, new_filename, &new_visited);
                res.push(
                    TraceEntry {
                        status: TraceEntryStatus::Present,
                        callable,
                        port,
                        location: loc,
                    },
                );
                proof {
                    assert(entries_view(res@) =~= w);
                }
                res
            },
        }
    }
}

/// The first trace tree with this name on an issue, in tree order.
pub open spec fn first_named_traces(traces: Seq<TaintIssueTraces>, name: Seq<char>) -> Option<
    TaintIssueTraces,
>
    decreases traces.len(),
{
    if traces.len() == 0 {
        None
    } else if traces[0].name@ == name {
        Some(traces[0])
    } else {
        first_named_traces(traces.drop_first(), name)
    }
}

/// The entries one named branch of an issue contributes: the walk of the
/// first root of the first tree with that name, or nothing.
pub open spec fn branch_walk(
    models: Seq<TaintModelData>,
    traces: Seq<TaintIssueTraces>,
    name: Seq<char>,
    dir: TraceDirection,
    filename: Option<Seq<char>>,
) -> Seq<EntryV> {
    match first_named_traces(traces, name) {
        Some(group) => if group.roots@.len() > 0 {
            walk_spec(models, group.roots@[0], dir, filename, Set::empty())
        } else {
            Seq::empty()
        },
        None => Seq::empty(),
    }
}

/// The entry standing for the issue's own root call.
pub open spec fn root_entry(issue: TaintIssueData) -> EntryV {
    EntryV {
        status: TraceEntryStatus::Present,
        callable: issue.callable@,
        port: "root"@,
        location: issue.location@,
    }
}

/// The file of the issue itself, by the substitution rule.
pub open spec fn issue_file(l: SpanLocation) -> Option<Seq<char>> {
    file_or_path(l.filename, l.path)
}

/// An issue's whole reconstructed chain: the forward branch in recursion
/// order, one `Present` entry for the issue's own root, then the backward
/// branch reversed, so the backward part reads in call order toward the
/// sink.
pub open spec fn issue_trace_spec(models: Seq<TaintModelData>, issue: TaintIssueData) -> Seq<
    EntryV,
> {
    branch_walk(models, issue.traces@, "forward"@, TraceDirection::Forward, issue_file(issue.location))
        + seq![root_entry(issue)] + branch_walk(
        models,
        issue.traces@,
        "backward"@,
        TraceDirection::Backward,
        issue_file(issue.location),
    ).reverse()
}

/// A reconstructed chain is finite: each branch is bounded by the number
/// of distinct (callable, port) pairs the index holds on its side, and
/// the chain adds only the issue's own root entry.
pub proof fn lemma_issue_trace_len_bound(models: Seq<TaintModelData>, issue: TaintIssueData)
    ensures
        issue_trace_spec(models, issue).len() <= index_pairs(
            models,
            TraceDirection::Forward,
        ).len() + index_pairs(models, TraceDirection::Backward).len() + 3,
{
    let file = issue_file(issue.location);
    let fwd = branch_walk(models, issue.traces@, "forward"@, TraceDirection::Forward, file);
    let bwd = branch_walk(models, issue.traces@, "backward"@, TraceDirection::Backward, file);
    match first_named_traces(issue.traces@, "forward"@) {
        Some(group) => {
            if group.roots@.len() > 0 {
                crate::walk::lemma_walk_bounded_from_start(
                    models,
                    group.roots@[0],
                    TraceDirection::Forward,
                    file,
                );
            }
        },
        None => {},
    }
    match first_named_traces(issue.traces@, "backward"@) {
        Some(group) => {
            if group.roots@.len() > 0 {
                crate::walk::lemma_walk_bounded_from_start(
                    models,
                    group.roots@[0],
                    TraceDirection::Backward,
                    file,
                );
            }
        },
        None => {},
    }
    assert(issue_trace_spec(models, issue).len() == fwd.len() + 1 + bwd.len());
}

/// What processing makes of one issue: its location, its reconstructed
/// chain, the fresh `Unlabeled` label, and its classification.
pub open spec fn processed_issue_spec(
    models: Seq<TaintModelData>,
    issue: TaintIssueData,
) -> ProcessedIssueV {
    ProcessedIssueV {
        location: issue.location@,
        trace: issue_trace_spec(models, issue),
        label: LabelV::Unlabeled,
        getattr_count: classify_features(issue.features@),
    }
}

/// The first trace tree with this name, if any.
fn find_named_traces<'a>(traces: &'a Vec<TaintIssueTraces>, name: &str) -> (r: Option<
    &'a TaintIssueTraces,
>)
    ensures
        match r {
            Some(t) => first_named_traces(traces@, name@) == Some(*t),
            None => first_named_traces(traces@, name@) is None,
        },
{
    let n = traces.len();
    let mut i: usize = 0;
    proof {
        assert(traces@.skip(0) =~= traces@);
    }
    while i < n
        invariant
            i <= n,
            n == traces@.len(),
            first_named_traces(traces@, name@) == first_named_traces(
                traces@.skip(i as int),
                name@,
            ),
        decreases n - i,
    {
        proof {
            assert(traces@.skip(i as int)[0] == traces@[i as int]);
            assert(traces@.skip(i as int).drop_first() =~= traces@.skip(i as int + 1));
        }
        if str_eq(traces[i].name.as_str(), name) {
            return Some(&traces[i]);
        }
        i += 1;
    }
    proof {
        assert(traces@.skip(n as int).len() == 0);
    }
    None
}

/// An equal copy of a trace entry.
fn duplicate_entry(e: &TraceEntry) -> (r: TraceEntry)
    ensures
        r == *e,
{
    TraceEntry {
        status: e.status,
        callable: e.callable.clone(),
        port: e.port.clone(),
        location: e.location.duplicate(),
    }
}

/// Appends the entries of `src`, last first.
fn push_reversed(dst: &mut Vec<TraceEntry>, src: &Vec<TraceEntry>)
    ensures
        final(dst)@ == old(dst)@ + src@.reverse(),
{
    let n = src.len();
    let mut i: usize = 0;
    proof {
        assert(dst@ =~= old(dst)@ + src@.skip(n as int).reverse());
    }
    while i < n
        invariant
            i <= n,
            n == src@.len(),
            dst@ =~= old(dst)@ + src@.skip((n - i) as int).reverse(),
        decreases n - i,
    {
        let e = duplicate_entry(&src[n - 1 - i]);
        dst.push(e);
        proof {
            assert(dst@ =~= old(dst)@ + src@.skip((n - i - 1) as int).reverse());
        }
        i += 1;
    }
    proof {
        assert(src@.skip(0) =~= src@);
    }
}

impl UnprocessedResults {
    /// Walks one named branch of an issue: the first root of the first
    /// tree with that name, from a fresh visited set.
    fn walk_branch(
        &self,
        traces: &Vec<TaintIssueTraces>,
        name: &str,
        dir: TraceDirection,
        filename: &Option<String>,
    ) -> (r: Vec<TraceEntry>)
        requires
            self.wf(),
        ensures
            entries_view(r@) == branch_walk(self.models@, traces@, name@, dir, opt_str_view(*filename)),
    {
        match find_named_traces(traces, name) {
            Some(group) => {
                if group.roots.len() > 0 {
                    let empty_visited: Vec<(String, String)> = Vec::new();
                    proof {
                        lemma_visited_pairs_empty(empty_visited@);
                    }
                    self.find_traces(&group.roots[0], dir, clone_opt_string(filename), &empty_visited)
                } else {
                    let out: Vec<TraceEntry> = Vec::new();
                    proof {
                        assert(entries_view(out@) =~= Seq::<EntryV>::empty());
                    }
                    out
                }
            },
            None => {
                let out: Vec<TraceEntry> = Vec::new();
                proof {
                    assert(entries_view(out@) =~= Seq::<EntryV>::empty());
                }
                out
            },
        }
    }

    /// Turns every surviving issue into a processed one: classification
    /// from its features, and the reconstructed chain of the forward
    /// branch, the issue's own root entry, and the reversed backward
    /// branch.  Issues keep their order; the raw count is carried over.
    pub fn process(&self) -> (r: ProcessedResults)
        requires
            self.wf(),
        ensures
            r.issues@.len() == self.issues@.len(),
            forall|k: int|
                0 <= k < self.issues@.len() ==> (#[trigger] r.issues@[k])@ == processed_issue_spec(
                    self.models@,
                    self.issues@[k],
                ),
            r.warnings@.len() == 0,
            r.resolved_dependencies@.len() == 0,
            r.raw_issue_count == self.raw_issue_count,
    {
        let mut issues_out: Vec<ProcessedIssue> = Vec::new();
        let n = self.issues.len();
        let mut k: usize = 0;
        while k < n
            invariant
                k <= n,
                n == self.issues@.len(),
                self.wf(),
                issues_out@.len() == k,
                forall|kk: int|
                    0 <= kk < k ==> (#[trigger] issues_out@[kk])@ == processed_issue_spec(
                        self.models@,
                        self.issues@[kk],
                    ),
            decreases n - k,
        {
            let issue_data = &self.issues[k];
            let getattr_count = GetAttrCount::from_issue_data(issue_data);
            let filename = file_or_path_exec(
                &issue_data.location.filename,
                &issue_data.location.path,
            );
            let mut traces_vec = self.walk_branch(
                &issue_data.traces,
                "forward",
                TraceDirection::Forward,
                &filename,
            );
            let ghost fwd_entries = entries_view(traces_vec@);
            traces_vec.push(
                TraceEntry {
                    status: TraceEntryStatus::Present,
                    callable: issue_data.callable.clone(),
                    port: String::from_str("root"),
                    location: issue_data.location.duplicate(),
                },
            );
            proof {
                assert(entries_view(traces_vec@) =~= fwd_entries + seq![
                    root_entry(self.issues@[k as int]),
                ]);
            }
            let ghost with_root = entries_view(traces_vec@);
            let bwd = self.walk_branch(
                &issue_data.traces,
                "backward",
                TraceDirection::Backward,
                &filename,
            );
            push_reversed(&mut traces_vec, &bwd);
            proof {
                assert(entries_view(traces_vec@) =~= with_root + entries_view(bwd@).reverse());
                assert(entries_view(traces_vec@) =~= issue_trace_spec(
                    self.models@,
                    self.issues@[k as int],
                ));
            }
            let processed = ProcessedIssue {
                location: issue_data.location.duplicate(),
                trace: traces_vec,
                label: IssueLabel::Unlabeled,
                getattr_count,
            };
            proof {
                assert(processed@ == processed_issue_spec(self.models@, self.issues@[k as int]));
            }
            issues_out.push(processed);
            k += 1;
        }
        ProcessedResults {
            issues: issues_out,
            warnings: Vec::new(),
            resolved_dependencies: Vec::new(),
            raw_issue_count: self.raw_issue_count,
        }
    }
}

/// How many issues carry this classification.
pub open spec fn count_with(issues: Seq<ProcessedIssue>, t: GetAttrCount) -> nat
    decreases issues.len(),
{
    if issues.len() == 0 {
        0
    } else {
        count_with(issues.drop_last(), t) + if issues.last().getattr_count == t {
            1 as nat
        } else {
            0 as nat
        }
    }
}

/// The summary line of one issue.
pub open spec fn issue_line(iss: ProcessedIssue) -> Seq<char> {
    "- at "@ + (match iss.location.filename {
        Some(f) => f@,
        None => "<unknown>"@,
    }) + ", line "@ + crate::decimal::dec_rep(iss.location.line as nat) + "\n"@
}

/// The summary lines of all issues with this classification, in order.
pub open spec fn issue_block(issues: Seq<ProcessedIssue>, t: GetAttrCount) -> Seq<char>
    decreases issues.len(),
{
    if issues.len() == 0 {
        Seq::empty()
    } else {
        issue_block(issues.drop_last(), t) + if issues.last().getattr_count == t {
            issue_line(issues.last())
        } else {
            Seq::empty()
        }
    }
}

/// The whole results summary: per classification a count line and the
/// matching issues' lines, then the total.
pub open spec fn summary_text(issues: Seq<ProcessedIssue>) -> Seq<char> {
    "Issues with one getattr: "@ + crate::decimal::dec_rep(count_with(issues, GetAttrCount::One))
        + "\n"@ + issue_block(issues, GetAttrCount::One) + "Issues with two+ getattr: "@
        + crate::decimal::dec_rep(count_with(issues, GetAttrCount::TwoPlus)) + "\n"@
        + issue_block(issues, GetAttrCount::TwoPlus)
        + "Issues with a conditional number of getattr: "@ + crate::decimal::dec_rep(
        count_with(issues, GetAttrCount::Conditional),
    ) + "\n"@ + issue_block(issues, GetAttrCount::Conditional) + "Total issues: "@
        + crate::decimal::dec_rep(issues.len()) + "\n"@
}

/// Counts the issues with this classification.
fn count_issues(issues: &Vec<ProcessedIssue>, t: GetAttrCount) -> (r: usize)
    ensures
        r as nat == count_with(issues@, t),
{
    let n = issues.len();
    let mut r: usize = 0;
    let mut i: usize = 0;
    proof {
        assert(issues@.take(0) =~= Seq::<ProcessedIssue>::empty());
    }
    while i < n
        invariant
            i <= n,
            n == issues@.len(),
            r <= i,
            r as nat == count_with(issues@.take(i as int), t),
        decreases n - i,
    {
        proof {
            assert(issues@.take(i as int + 1).drop_last() =~= issues@.take(i as int));
            assert(issues@.take(i as int + 1).last() == issues@[i as int]);
        }
        if issues[i].getattr_count == t {
            r += 1;
        }
        i += 1;
    }
    proof {
        assert(issues@.take(n as int) =~= issues@);
    }
    r
}

/// Appends the summary lines of the issues with this classification.
fn append_block(s: &mut String, issues: &Vec<ProcessedIssue>, t: GetAttrCount)
    ensures
        final(s)@ == old(s)@ + issue_block(issues@, t),
{
    let n = issues.len();
    let mut i: usize = 0;
    proof {
        assert(issues@.take(0) =~= Seq::<ProcessedIssue>::empty());
        assert(s@ =~= old(s)@ + issue_block(issues@.take(0), t));
    }
    while i < n
        invariant
            i <= n,
            n == issues@.len(),
            s@ == old(s)@ + issue_block(issues@.take(i as int), t),
        decreases n - i,
    {
        let ghost prefix = s@;
        proof {
            assert(issues@.take(i as int + 1).drop_last() =~= issues@.take(i as int));
            assert(issues@.take(i as int + 1).last() == issues@[i as int]);
        }
        if issues[i].getattr_count == t {
            s.append("- at ");
            match &issues[i].location.filename {
                Some(f) => s.append(f.as_str()),
                None => s.append("<unknown>"),
            }
            s.append(", line ");
            crate::decimal::push_decimal(s, issues[i].location.line as u64);
            s.append("\n");
            proof {
                assert(s@ =~= prefix + issue_line(issues@[i as int]));
                assert(s@ =~= old(s)@ + issue_block(issues@.take(i as int + 1), t));
            }
        } else {
            proof {
                assert(s@ =~= old(s)@ + issue_block(issues@.take(i as int + 1), t));
            }
        }
        i += 1;
    }
    proof {
        assert(issues@.take(n as int) =~= issues@);
    }
}

impl ProcessedResults {
    /// Renders the summary of the processed issues: per classification the
    /// count and one line per issue, then the total.
    pub fn summarise(&self) -> (r: String)
        ensures
            r@ == summary_text(self.issues@),
    {
        let mut s = String::new();
        s.append("Issues with one getattr: ");
        crate::decimal::push_decimal(&mut s, count_issues(&self.issues, GetAttrCount::One) as u64);
        s.append("\n");
        append_block(&mut s, &self.issues, GetAttrCount::One);
        let ghost part1 = s@;
        s.append("Issues with two+ getattr: ");
        crate::decimal::push_decimal(
            &mut s,
            count_issues(&self.issues, GetAttrCount::TwoPlus) as u64,
        );
        s.append("\n");
        append_block(&mut s, &self.issues, GetAttrCount::TwoPlus);
        let ghost part2 = s@;
        s.append("Issues with a conditional number of getattr: ");
        crate::decimal::push_decimal(
            &mut s,
            count_issues(&self.issues, GetAttrCount::Conditional) as u64,
        );
        s.append("\n");
        append_block(&mut s, &self.issues, GetAttrCount::Conditional);
        let ghost part3 = s@;
        s.append("Total issues: ");
        crate::decimal::push_decimal(&mut s, self.issues.len() as u64);
        s.append("\n");
        proof {
            assert(s@ =~= summary_text(self.issues@));
        }
        s
    }
}

/// The one version of the analyzer's output stream this engine supports.
pub const PYSA_TAINT_OUTPUT_SUPPORTED_VERSION: u32 = 3;

/// Does the issue carry a marker of indirect or obscured flow?  Taint
/// broadened through an unresolved call, or passed through an unmodeled
/// function, reliably correlates with non-exploitable findings.
pub open spec fn is_unreliable(d: TaintIssueData) -> bool {
    crate::taint::has_feature(d.features@, "tito-broadening"@) || crate::taint::has_feature(
        d.features@,
        "obscure:model"@,
    )
}

/// The model records of the stream, in order.
pub open spec fn models_of(recs: Seq<TaintOutput>) -> Seq<TaintModelData>
    decreases recs.len(),
{
    if recs.len() == 0 {
        Seq::empty()
    } else {
        (match recs[0] {
            TaintOutput::Model(d) => seq![d],
            TaintOutput::Issue(_) => Seq::empty(),
        }) + models_of(recs.drop_first())
    }
}

/// The issue records that survive the reliability filter, in order.
pub open spec fn issues_kept(recs: Seq<TaintOutput>) -> Seq<TaintIssueData>
    decreases recs.len(),
{
    if recs.len() == 0 {
        Seq::empty()
    } else {
        (match recs[0] {
            TaintOutput::Issue(d) => if !is_unreliable(d) {
                seq![d]
            } else {
                Seq::empty()
            },
            TaintOutput::Model(_) => Seq::empty(),
        }) + issues_kept(recs.drop_first())
    }
}

/// How many issue records the stream holds, reliable or not.
pub open spec fn issue_count(recs: Seq<TaintOutput>) -> nat
    decreases recs.len(),
{
    if recs.len() == 0 {
        0
    } else {
        (match recs[0] {
            TaintOutput::Issue(_) => 1 as nat,
            TaintOutput::Model(_) => 0 as nat,
        }) + issue_count(recs.drop_first())
    }
}

proof fn lemma_issue_count_bound(recs: Seq<TaintOutput>)
    ensures
        issue_count(recs) <= recs.len(),
    decreases recs.len(),
{
    if recs.len() > 0 {
        lemma_issue_count_bound(recs.drop_first());
    }
}

/// The filter is sound: no issue carrying an unreliability marker survives
/// it.
pub proof fn lemma_issues_kept_reliable(recs: Seq<TaintOutput>)
    ensures
        forall|i: int|
            0 <= i < issues_kept(recs).len() ==> !is_unreliable(#[trigger] issues_kept(recs)[i]),
    decreases recs.len(),
{
    if recs.len() > 0 {
        lemma_issues_kept_reliable(recs.drop_first());
        let head = (match recs[0] {
            TaintOutput::Issue(d) => if !is_unreliable(d) {
                seq![d]
            } else {
                Seq::<TaintIssueData>::empty()
            },
            TaintOutput::Model(_) => Seq::<TaintIssueData>::empty(),
        });
        let rest = issues_kept(recs.drop_first());
        assert forall|i: int|
            0 <= i < issues_kept(recs).len() implies !is_unreliable(
            #[trigger] issues_kept(recs)[i],
        ) by {
            if i >= head.len() {
                assert(issues_kept(recs)[i] == rest[i - head.len()]);
            }
        }
    }
}

/// The input vector with its elements in reverse order.
pub(crate) fn reversed_vec<T>(v: Vec<T>) -> (r: Vec<T>)
    ensures
        r@ == v@.reverse(),
{
    let mut s = v;
    let ghost v0 = s@;
    let mut out: Vec<T> = Vec::new();
    proof {
        assert(s@ =~= v0.take(s@.len() as int));
        assert(out@ =~= v0.skip(s@.len() as int).reverse());
    }
    while s.len() > 0
        invariant
            s@.len() <= v0.len(),
            s@ == v0.take(s@.len() as int),
            out@ == v0.skip(s@.len() as int).reverse(),
        decreases s.len(),
    {
        let ghost k = s@.len() as int;
        let e = s.pop().unwrap();
        out.push(e);
        proof {
            assert(s@ =~= v0.take(k - 1));
            assert(e == v0[k - 1]);
            assert forall|j: int|
                0 <= j < out@.len() implies out@[j] == v0.skip(k - 1).reverse()[j] by {
                if j < out@.len() - 1 {
                    assert(out@[j] == v0.skip(k).reverse()[j]);
                }
            }
            assert(out@ =~= v0.skip(k - 1).reverse());
        }
    }
    proof {
        assert(v0.skip(0) =~= v0);
    }
    out
}

/// Compares the callables of two index positions.
fn callable_lt(models: &Vec<TaintModelData>, a: usize, b: usize) -> (r: bool)
    requires
        a < models@.len(),
        b < models@.len(),
    ensures
        r == lex_lt(models@[a as int].callable@, models@[b as int].callable@),
{
    str_lt(models[a].callable.as_str(), models[b].callable.as_str())
}

/// Sorts the model index by callable, keeping exactly the same models.
fn sort_models(models: &mut Vec<TaintModelData>)
    ensures
        crate::walk::models_sorted(final(models)@),
        final(models)@.to_multiset() == old(models)@.to_multiset(),
{
    broadcast use vstd::seq_lib::group_to_multiset_ensures;

    let n = models.len();
    let mut i: usize = 1;
    while i < n
        invariant
            1 <= i,
            i <= n || n == 0,
            n == models@.len(),
            models@.to_multiset() == old(models)@.to_multiset(),
            forall|a: int, b: int|
                0 <= a < b < i ==> crate::order::lex_leq(
                    (#[trigger] models@[a]).callable@,
                    (#[trigger] models@[b]).callable@,
                ),
        decreases n - i,
    {
        let mut p: usize = 0;
        while p < i && !callable_lt(models, i, p)
            invariant
                p <= i,
                i < n,
                n == models@.len(),
                forall|q: int|
                    0 <= q < p ==> !lex_lt(
                        models@[i as int].callable@,
                        (#[trigger] models@[q]).callable@,
                    ),
            decreases i - p,
        {
            p += 1;
        }
        if p < i {
            let ghost before = models@;
            let item = models.remove(i);
            let ghost mid = models@;
            models.insert(p, item);
            proof {
                broadcast use vstd::seq_lib::group_to_multiset_ensures;
                broadcast use vstd::multiset::group_multiset_axioms;

                vstd::seq_lib::to_multiset_remove(before, i as int);
                vstd::seq_lib::to_multiset_insert(mid, p as int, item);
                assert(before[i as int] == item);
                assert(before.contains(item));
                assert(before.to_multiset().count(item) > 0);
                assert(before.to_multiset().remove(item).insert(item) =~= before.to_multiset());
                assert(models@.to_multiset() == before.to_multiset());
                assert forall|a: int, b: int|
                    0 <= a < b < i + 1 implies crate::order::lex_leq(
                    (#[trigger] models@[a]).callable@,
                    (#[trigger] models@[b]).callable@,
                ) by {
                    let key = item.callable@;
                    if b < p {
                        assert(models@[a] == before[a] && models@[b] == before[b]);
                    } else if b == p {
                        assert(models@[a] == before[a]);
                        lemma_lex_connected(key, before[a].callable@);
                    } else {
                        if a < p {
                            assert(models@[a] == before[a]);
                        } else if a == p {
                            assert(models@[b] == before[b - 1]);
                            assert(lex_lt(key, before[p as int].callable@));
                            if p < b - 1 {
                                assert(crate::order::lex_leq(
                                    before[p as int].callable@,
                                    before[b - 1].callable@,
                                ));
                                if before[p as int].callable@ != before[b - 1].callable@ {
                                    lemma_lex_trans(
                                        key,
                                        before[p as int].callable@,
                                        before[b - 1].callable@,
                                    );
                                }
                            }
                        } else {
                            assert(models@[a] == before[a - 1]);
                            assert(models@[b] == before[b - 1]);
                        }
                    }
                }
            }
        } else {
            proof {
                assert forall|a: int, b: int|
                    0 <= a < b < i + 1 implies crate::order::lex_leq(
                    (#[trigger] models@[a]).callable@,
                    (#[trigger] models@[b]).callable@,
                ) by {
                    if b == i {
                        lemma_lex_connected(
                            models@[i as int].callable@,
                            models@[a].callable@,
                        );
                    }
                }
            }
        }
        i += 1;
    }
}

impl UnprocessedResults {
    /// Consumes the analyzer's parsed output stream.  A header with any
    /// version other than the one supported one is rejected before any
    /// record is looked at.  Otherwise: models are collected and sorted by
    /// callable, issues carrying either unreliability marker are dropped,
    /// and every issue record counts toward the raw total.
    pub fn from_records(header: TaintOutputHeader, records: Vec<TaintOutput>) -> (r: Result<
        UnprocessedResults,
        crate::errors::ToolError,
    >)
        ensures
            match r {
                Ok(u) => header.file_version == PYSA_TAINT_OUTPUT_SUPPORTED_VERSION && u.issues@
                    == issues_kept(records@) && u.raw_issue_count == issue_count(records@)
                    && u.models@.to_multiset() == models_of(records@).to_multiset()
                    && crate::walk::models_sorted(u.models@) && forall|i: int|
                    0 <= i < u.issues@.len() ==> !is_unreliable(#[trigger] u.issues@[i]),
                Err(e) => header.file_version != PYSA_TAINT_OUTPUT_SUPPORTED_VERSION && e
                    == (crate::errors::ToolError::PyreResultVersionMismatch {
                    got: header.file_version,
                    expected: PYSA_TAINT_OUTPUT_SUPPORTED_VERSION,
                }),
            },
    {
        if header.file_version != PYSA_TAINT_OUTPUT_SUPPORTED_VERSION {
            return Err(
                crate::errors::ToolError::PyreResultVersionMismatch {
                    got: header.file_version,
                    expected: PYSA_TAINT_OUTPUT_SUPPORTED_VERSION,
                },
            );
        }
        let mut rest = records;
        let ghost recs0 = rest@;
        let total_records = rest.len();
        proof {
            assert(recs0.len() == total_records as nat);
        }
        let mut models_rev: Vec<TaintModelData> = Vec::new();
        let mut issues_rev: Vec<TaintIssueData> = Vec::new();
        let mut raw: usize = 0;
        proof {
            assert(rest@ =~= recs0.take(rest@.len() as int));
            assert(recs0.skip(rest@.len() as int).len() == 0);
        }
        while rest.len() > 0
            invariant
                rest@.len() <= recs0.len(),
                recs0.len() <= usize::MAX,
                rest@ == recs0.take(rest@.len() as int),
                models_rev@ == models_of(recs0.skip(rest@.len() as int)).reverse(),
                issues_rev@ == issues_kept(recs0.skip(rest@.len() as int)).reverse(),
                raw as nat == issue_count(recs0.skip(rest@.len() as int)),
                raw + rest@.len() <= recs0.len(),
            decreases rest.len(),
        {
            let ghost k = rest@.len() as int;
            let rec = rest.pop().unwrap();
            proof {
                assert(rest@ =~= recs0.take(k - 1));
                assert(rec == recs0[k - 1]);
                assert(recs0.skip(k - 1).drop_first() =~= recs0.skip(k));
                assert(recs0.skip(k - 1)[0] == recs0[k - 1]);
            }
            match rec {
                TaintOutput::Model(d) => {
                    models_rev.push(d);
                    proof {
                        assert(models_rev@ =~= models_of(recs0.skip(k - 1)).reverse());
                        assert(issues_rev@ =~= issues_kept(recs0.skip(k - 1)).reverse());
                    }
                },
                TaintOutput::Issue(d) => {
                    proof {
                        lemma_issue_count_bound(recs0.skip(k));
                    }
                    raw = raw + 1;
                    if !d.has_via_feature("tito-broadening") && !d.has_via_feature(
                        "obscure:model",
                    ) {
                        issues_rev.push(d);
                        proof {
                            assert(issues_rev@ =~= issues_kept(recs0.skip(k - 1)).reverse());
                            assert(models_rev@ =~= models_of(recs0.skip(k - 1)).reverse());
                        }
                    } else {
                        proof {
                            assert(issues_rev@ =~= issues_kept(recs0.skip(k - 1)).reverse());
                            assert(models_rev@ =~= models_of(recs0.skip(k - 1)).reverse());
                        }
                    }
                },
            }
        }
        proof {
            assert(recs0.skip(0) =~= recs0);
        }
        let models_unsorted = reversed_vec(models_rev);
        let issues = reversed_vec(issues_rev);
        proof {
            assert(models_unsorted@ =~= models_of(recs0));
            assert(issues@ =~= issues_kept(recs0));
            lemma_issues_kept_reliable(recs0);
        }
        let mut models = models_unsorted;
        sort_models(&mut models);
        Ok(UnprocessedResults { models, issues, raw_issue_count: raw })
    }
}

} // verus!
