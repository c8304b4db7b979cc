//! Records of the analyzer's taint output stream: per-function models,
//! issues, and the recursive trace fragments both carry.

use vstd::prelude::*;

verus! {

/// Spec view of an optional string.
pub open spec fn opt_str_view(o: Option<String>) -> Option<Seq<char>> {
    match o {
        Some(s) => Some(s@),
        None => None,
    }
}

/// Does the optional string hold exactly this text?
pub open spec fn opt_str_is(o: Option<String>, v: Seq<char>) -> bool {
    match o {
        Some(s) => s@ == v,
        None => false,
    }
}

/// Clones an optional string; the clone is equal to the original.
pub fn clone_opt_string(o: &Option<String>) -> (r: Option<String>)
    ensures
        r == *o,
{
    match o {
        Some(s) => Some(s.clone()),
        None => None,
    }
}

/// A source position as the analyzer reports it: an optional file name, an
/// optional path, a line, and start/end column offsets.
#[derive(Debug)]
pub struct SpanLocation {
    pub filename: Option<String>,
    pub path: Option<String>,
    pub line: u32,
    pub start: u32,
    pub end: u32,
}

/// Mathematical view of a `SpanLocation`.
pub ghost struct LocV {
    pub filename: Option<Seq<char>>,
    pub path: Option<Seq<char>>,
    pub line: u32,
    pub start: u32,
    pub end: u32,
}

impl View for SpanLocation {
    type V = LocV;

    open spec fn view(&self) -> LocV {
        LocV {
            filename: opt_str_view(self.filename),
            path: opt_str_view(self.path),
            line: self.line,
            start: self.start,
            end: self.end,
        }
    }
}

/// The location with its file name replaced.
pub open spec fn loc_with_filename(l: LocV, f: Seq<char>) -> LocV {
    LocV { filename: Some(f), ..l }
}

impl SpanLocation {
    /// A copy of the location carrying the given file name.
    pub fn with_filename(&self, filename: String) -> (r: Self)
        ensures
            r@ == loc_with_filename(self@, filename@),
    {
        SpanLocation {
            filename: Some(filename),
            path: clone_opt_string(&self.path),
            line: self.line,
            start: self.start,
            end: self.end,
        }
    }

    /// An equal copy of the location.
    pub fn duplicate(&self) -> (r: Self)
        ensures
            r == *self,
    {
        SpanLocation {
            filename: clone_opt_string(&self.filename),
            path: clone_opt_string(&self.path),
            line: self.line,
            start: self.start,
            end: self.end,
        }
    }
}

/// One propagation feature tag on an issue or trace node.  `via` records a
/// conditional traversal of the named operation, `always_via` an
/// unconditional one.
#[derive(Debug)]
pub struct LocalFeature {
    pub via: Option<String>,
    pub always_via: Option<String>,
    pub always_via_get_name_value: Option<String>,
    pub always_via_set_name_value: Option<String>,
    pub always_via_set_value_value: Option<String>,
}

/// Does this feature name the operation, conditionally or unconditionally?
pub open spec fn feature_names(f: LocalFeature, v: Seq<char>) -> bool {
    opt_str_is(f.via, v) || opt_str_is(f.always_via, v)
}

/// Does any feature in the list name the operation?
pub open spec fn has_feature(fs: Seq<LocalFeature>, v: Seq<char>) -> bool {
    exists|i: int| 0 <= i < fs.len() && #[trigger] feature_names(fs[i], v)
}

/// Tests whether the optional string equals the given text.
pub fn opt_string_is(o: &Option<String>, v: &str) -> (r: bool)
    ensures
        r == opt_str_is(*o, v@),
{
    match o {
        Some(s) => crate::order::str_eq(s.as_str(), v),
        None => false,
    }
}

/// The ultimate callable and port a leaf taint kind points at.
#[derive(Debug)]
pub struct KindLeaf {
    pub name: String,
    pub port: String,
}

/// One taint kind on a trace node, with the leaves it resolves to.
#[derive(Debug)]
pub struct RootKind {
    pub kind: String,
    pub features: Vec<LocalFeature>,
    pub leaves: Vec<KindLeaf>,
}

/// A call boundary inside a trace: where it stands, which callables the
/// call may resolve to, and the port taint flows through.
#[derive(Debug)]
pub struct TaintCall {
    pub position: SpanLocation,
    pub resolves_to: Vec<String>,
    pub port: String,
}

/// A leaf taint source or sink.
#[derive(Debug)]
pub struct TaintRootOrigin {
    pub kinds: Vec<RootKind>,
    pub local_features: Vec<LocalFeature>,
    pub origin: SpanLocation,
}

/// A reference to another callable's taint summary.
#[derive(Debug)]
pub struct TaintRootCall {
    pub kinds: Vec<RootKind>,
    pub local_features: Vec<LocalFeature>,
    pub call: TaintCall,
}

/// A terminal declaration marker carrying no location.
#[derive(Debug)]
pub struct TaintRootDeclaration {
    pub declaration: (),
}

/// One node of a taint propagation tree.  A closed union: any new node kind
/// the analyzer might emit must be a deliberate addition here.
#[derive(Debug)]
pub enum TraceFragment {
    Origin(TaintRootOrigin),
    Call(TaintRootCall),
    Declaration(TaintRootDeclaration),
}

/// The taint kinds of a fragment; a declaration has none.
pub open spec fn kinds_of(frag: TraceFragment) -> Seq<RootKind> {
    match frag {
        TraceFragment::Origin(o) => o.kinds@,
        TraceFragment::Call(c) => c.kinds@,
        TraceFragment::Declaration(_) => Seq::empty(),
    }
}

/// The local features of a fragment; a declaration has none.
pub open spec fn local_features_of(frag: TraceFragment) -> Seq<LocalFeature> {
    match frag {
        TraceFragment::Origin(o) => o.local_features@,
        TraceFragment::Call(c) => c.local_features@,
        TraceFragment::Declaration(_) => Seq::empty(),
    }
}

impl TraceFragment {
    /// The taint kinds attached to this fragment.
    pub fn kinds(&self) -> (r: &[RootKind])
        ensures
            r@ == kinds_of(*self),
    {
        match self {
            TraceFragment::Origin(o) => o.kinds.as_slice(),
            TraceFragment::Call(c) => c.kinds.as_slice(),
            TraceFragment::Declaration(_) => empty_kinds(),
        }
    }

    /// The local features attached to this fragment.
    pub fn local_features(&self) -> (r: &[LocalFeature])
        ensures
            r@ == local_features_of(*self),
    {
        match self {
            TraceFragment::Origin(o) => o.local_features.as_slice(),
            TraceFragment::Call(c) => c.local_features.as_slice(),
            TraceFragment::Declaration(_) => empty_features(),
        }
    }
}

fn empty_kinds() -> (r: &'static [RootKind])
    ensures
        r@ == Seq::<RootKind>::empty(),
{
    let r: &'static [RootKind] = &[];
    proof {
        assert(r@ =~= Seq::<RootKind>::empty());
    }
    r
}

fn empty_features() -> (r: &'static [LocalFeature])
    ensures
        r@ == Seq::<LocalFeature>::empty(),
{
    let r: &'static [LocalFeature] = &[];
    proof {
        assert(r@ =~= Seq::<LocalFeature>::empty());
    }
    r
}

/// One port's taint summary inside a model: the fragments taint passes
/// through on its way in or out of that port.
#[derive(Debug)]
pub struct TaintTrace {
    pub port: String,
    pub taint: Vec<TraceFragment>,
}

/// One named tree of trace roots on an issue, conventionally "forward"
/// (source side) or "backward" (sink side).
#[derive(Debug)]
pub struct TaintIssueTraces {
    pub name: String,
    pub roots: Vec<TraceFragment>,
}

/// A finding of the analyzer: a source-to-sink flow rooted at a callable.
#[derive(Debug)]
pub struct TaintIssueData {
    pub callable: String,
    pub traces: Vec<TaintIssueTraces>,
    pub location: SpanLocation,
    pub features: Vec<LocalFeature>,
}

impl TaintIssueData {
    /// Does any feature of this issue carry the given tag, either as a
    /// conditional or an unconditional traversal?
    pub fn has_via_feature(&self, value: &str) -> (r: bool)
        ensures
            r == has_feature(self.features@, value@),
    {
        let n = self.features.len();
        let mut i: usize = 0;
        while i < n
            invariant
                i <= n,
                n == self.features@.len(),
                forall|j: int| 0 <= j < i ==> !feature_names(self.features@[j], value@),
            decreases n - i,
        {
            let f = &self.features[i];
            if opt_string_is(&f.via, value) || opt_string_is(&f.always_via, value) {
                proof {
                    assert(feature_names(self.features@[i as int], value@));
                }
                return true;
            }
            i += 1;
        }
        false
    }
}

/// A function's taint summary: where taint enters (`sources`) and where it
/// leaves (`sinks`), each keyed by port.
#[derive(Debug)]
pub struct TaintModelData {
    pub callable: String,
    pub filename: Option<String>,
    pub path: Option<String>,
    pub sources: Vec<TaintTrace>,
    pub sinks: Vec<TaintTrace>,
}

/// The header line of the analyzer's output stream.
#[derive(Debug)]
pub struct TaintOutputHeader {
    pub file_version: u32,
}

/// One record of the analyzer's output stream.
#[derive(Debug)]
pub enum TaintOutput {
    Issue(TaintIssueData),
    Model(TaintModelData),
}

} // verus!
