//! The trace walker's mathematical model: how one fragment resolves to a
//! callable and port, how a (callable, port) pair resolves through the model
//! index, and the recursive walk that turns a taint tree into a linear
//! sequence of trace entries.

use vstd::prelude::*;

use crate::taint::{
    opt_str_view, LocV, KindLeaf, RootKind, SpanLocation, TaintModelData, TaintTrace,
    TraceFragment, loc_with_filename,
};

verus! {

/// Which side of a model a lookup consults: taint sources (forward, from the
/// taint source) or taint sinks (backward, toward the sink).
#[derive(Debug, Clone, Copy, PartialEq, Eq, Structural)]
pub enum TraceDirection {
    Forward,
    Backward,
}

/// The port traces of a model on the side the direction selects.
pub open spec fn dir_traces(m: TaintModelData, dir: TraceDirection) -> Seq<TaintTrace> {
    match dir {
        TraceDirection::Forward => m.sources@,
        TraceDirection::Backward => m.sinks@,
    }
}

/// How far the walker got at one step of the reconstructed call chain.
#[derive(Debug, Clone, Copy, PartialEq, Eq, Structural)]
pub enum TraceEntryStatus {
    /// The model index has no summary for this callable and port.
    Missing,
    /// The pair was already expanded on this branch; the walk stops here.
    Recursive,
    /// The pair was found and expanded.
    Present,
}

/// One step of a reconstructed call chain.
#[derive(Debug)]
pub struct TraceEntry {
    pub status: TraceEntryStatus,
    pub callable: String,
    pub port: String,
    pub location: SpanLocation,
}

/// Mathematical view of a `TraceEntry`.
pub ghost struct EntryV {
    pub status: TraceEntryStatus,
    pub callable: Seq<char>,
    pub port: Seq<char>,
    pub location: LocV,
}

impl View for TraceEntry {
    type V = EntryV;

    open spec fn view(&self) -> EntryV {
        EntryV {
            status: self.status,
            callable: self.callable@,
            port: self.port@,
            location: self.location@,
        }
    }
}

/// The views of a sequence of trace entries.
pub open spec fn entries_view(s: Seq<TraceEntry>) -> Seq<EntryV> {
    s.map_values(|e: TraceEntry| e@)
}

/// The first leaf among the kinds of a fragment, in kind order: the walker
/// always follows the first candidate and ignores the rest.
pub open spec fn first_leaf(kinds: Seq<RootKind>) -> Option<KindLeaf>
    decreases kinds.len(),
{
    if kinds.len() == 0 {
        None
    } else if kinds[0].leaves@.len() > 0 {
        Some(kinds[0].leaves@[0])
    } else {
        first_leaf(kinds.drop_first())
    }
}

/// The callable, port, and location one fragment contributes, if any:
/// an origin resolves to its first leaf, a call to the first callable it
/// may resolve to, and a declaration to nothing.
pub open spec fn frag_head(frag: TraceFragment) -> Option<(Seq<char>, Seq<char>, LocV)> {
    match frag {
        TraceFragment::Origin(o) => match first_leaf(o.kinds@) {
            Some(leaf) => Some((leaf.name@, leaf.port@, o.origin@)),
            None => None,
        },
        TraceFragment::Call(c) => if c.call.resolves_to@.len() > 0 {
            Some((c.call.resolves_to@[0]@, c.call.port@, c.call.position@))
        } else {
            None
        },
        TraceFragment::Declaration(_) => None,
    }
}

/// A record's file: the file name unless it is the sentinel `"*"`, else the
/// path, else nothing.
pub open spec fn file_or_path(filename: Option<String>, path: Option<String>) -> Option<
    Seq<char>,
> {
    match filename {
        Some(f) => if f@ != "*"@ {
            Some(f@)
        } else {
            opt_str_view(path)
        },
        None => opt_str_view(path),
    }
}

/// The first model with this callable, in index order.
pub open spec fn first_model(models: Seq<TaintModelData>, c: Seq<char>) -> Option<
    TaintModelData,
>
    decreases models.len(),
{
    if models.len() == 0 {
        None
    } else if models[0].callable@ == c {
        Some(models[0])
    } else {
        first_model(models.drop_first(), c)
    }
}

/// The first port trace with this port, in trace order.
pub open spec fn first_port_trace(traces: Seq<TaintTrace>, p: Seq<char>) -> Option<TaintTrace>
    decreases traces.len(),
{
    if traces.len() == 0 {
        None
    } else if traces[0].port@ == p {
        Some(traces[0])
    } else {
        first_port_trace(traces.drop_first(), p)
    }
}

/// What a model-index lookup yields for a callable and port: the model's
/// file and the first taint fragment under that port, or nothing if the
/// callable is absent, the port is absent, or the port has no fragment.
/// All three misses are one "missing" outcome.
pub open spec fn resolve_model(
    models: Seq<TaintModelData>,
    c: Seq<char>,
    p: Seq<char>,
    dir: TraceDirection,
) -> Option<(Option<Seq<char>>, TraceFragment)> {
    match first_model(models, c) {
        Some(m) => match first_port_trace(dir_traces(m, dir), p) {
            Some(t) => if t.taint@.len() > 0 {
                Some((file_or_path(m.filename, m.path), t.taint@[0]))
            } else {
                None
            },
            None => None,
        },
        None => None,
    }
}

/// The distinct (callable, port) pairs one model contributes to the index
/// on one side.
pub open spec fn trace_pairs(c: Seq<char>, traces: Seq<TaintTrace>) -> Set<
    (Seq<char>, Seq<char>),
>
    decreases traces.len(),
{
    if traces.len() == 0 {
        Set::empty()
    } else {
        trace_pairs(c, traces.drop_last()).insert((c, traces.last().port@))
    }
}

/// The distinct (callable, port) pairs the whole model index holds on one
/// side.  The walk's termination measure counts what of this set is not yet
/// visited.
pub open spec fn index_pairs(models: Seq<TaintModelData>, dir: TraceDirection) -> Set<
    (Seq<char>, Seq<char>),
>
    decreases models.len(),
{
    if models.len() == 0 {
        Set::empty()
    } else {
        index_pairs(models.drop_last(), dir).union(
            trace_pairs(models.last().callable@, dir_traces(models.last(), dir)),
        )
    }
}

proof fn lemma_trace_pairs_finite(c: Seq<char>, traces: Seq<TaintTrace>)
    ensures
        trace_pairs(c, traces).finite(),
    decreases traces.len(),
{
    if traces.len() > 0 {
        lemma_trace_pairs_finite(c, traces.drop_last());
    }
}

pub proof fn lemma_index_pairs_finite(models: Seq<TaintModelData>, dir: TraceDirection)
    ensures
        index_pairs(models, dir).finite(),
    decreases models.len(),
{
    if models.len() > 0 {
        lemma_index_pairs_finite(models.drop_last(), dir);
        lemma_trace_pairs_finite(models.last().callable@, dir_traces(models.last(), dir));
    }
}

proof fn lemma_trace_pairs_contains(c: Seq<char>, traces: Seq<TaintTrace>, j: int)
    requires
        0 <= j < traces.len(),
    ensures
        trace_pairs(c, traces).contains((c, traces[j].port@)),
    decreases traces.len(),
{
    if j < traces.len() - 1 {
        lemma_trace_pairs_contains(c, traces.drop_last(), j);
    }
}

proof fn lemma_index_pairs_contains(
    models: Seq<TaintModelData>,
    dir: TraceDirection,
    i: int,
    j: int,
)
    requires
        0 <= i < models.len(),
        0 <= j < dir_traces(models[i], dir).len(),
    ensures
        index_pairs(models, dir).contains((models[i].callable@, dir_traces(models[i], dir)[j].port@)),
    decreases models.len(),
{
    if i < models.len() - 1 {
        lemma_index_pairs_contains(models.drop_last(), dir, i, j);
    } else {
        lemma_trace_pairs_contains(models[i].callable@, dir_traces(models[i], dir), j);
    }
}

proof fn lemma_first_model_witness(models: Seq<TaintModelData>, c: Seq<char>)
    requires
        first_model(models, c) is Some,
    ensures
        exists|i: int|
            0 <= i < models.len() && #[trigger] models[i] == first_model(models, c)->Some_0
                && models[i].callable@ == c,
    decreases models.len(),
{
    if models.len() > 0 {
        if models[0].callable@ == c {
            assert(models[0] == first_model(models, c)->Some_0);
        } else {
            lemma_first_model_witness(models.drop_first(), c);
            let i = choose|i: int|
                0 <= i < models.drop_first().len() && #[trigger] models.drop_first()[i]
                    == first_model(models.drop_first(), c)->Some_0 && models.drop_first()[
                    i
                ].callable@ == c;
            assert(models[i + 1] == models.drop_first()[i]);
        }
    }
}

proof fn lemma_first_port_trace_witness(traces: Seq<TaintTrace>, p: Seq<char>)
    requires
        first_port_trace(traces, p) is Some,
    ensures
        exists|j: int|
            0 <= j < traces.len() && #[trigger] traces[j] == first_port_trace(traces, p)->Some_0
                && traces[j].port@ == p,
    decreases traces.len(),
{
    if traces.len() > 0 {
        if traces[0].port@ == p {
            assert(traces[0] == first_port_trace(traces, p)->Some_0);
        } else {
            lemma_first_port_trace_witness(traces.drop_first(), p);
            let j = choose|j: int|
                0 <= j < traces.drop_first().len() && #[trigger] traces.drop_first()[j]
                    == first_port_trace(traces.drop_first(), p)->Some_0 && traces.drop_first()[
                    j
                ].port@ == p;
            assert(traces[j + 1] == traces.drop_first()[j]);
        }
    }
}

/// A pair the index can resolve is a pair of the index.
pub proof fn lemma_resolve_in_pairs(
    models: Seq<TaintModelData>,
    c: Seq<char>,
    p: Seq<char>,
    dir: TraceDirection,
)
    requires
        resolve_model(models, c, p, dir) is Some,
    ensures
        index_pairs(models, dir).contains((c, p)),
{
    lemma_first_model_witness(models, c);
    let m = first_model(models, c)->Some_0;
    let i = choose|i: int|
        0 <= i < models.len() && #[trigger] models[i] == m && models[i].callable@ == c;
    lemma_first_port_trace_witness(dir_traces(m, dir), p);
    let j = choose|j: int|
        0 <= j < dir_traces(m, dir).len() && #[trigger] dir_traces(m, dir)[j]
            == first_port_trace(dir_traces(m, dir), p)->Some_0 && dir_traces(m, dir)[j].port@
            == p;
    lemma_index_pairs_contains(models, dir, i, j);
}

/// The walk of one taint branch.
///
/// A fragment that resolves to nothing contributes nothing.  A resolved
/// (callable, port) pair already visited on this branch yields one
/// `Recursive` entry; one the index cannot resolve yields one `Missing`
/// entry; otherwise the walk recurses into the resolved fragment with the
/// pair marked visited, and appends one `Present` entry after the recursive
/// result.  An inherited file name substitutes the location's file.
pub open spec fn walk_spec(
    models: Seq<TaintModelData>,
    frag: TraceFragment,
    dir: TraceDirection,
    filename: Option<Seq<char>>,
    visited: Set<(Seq<char>, Seq<char>)>,
) -> Seq<EntryV>
    decreases index_pairs(models, dir).difference(visited).len(),
    via walk_spec_decreases
{
    match frag_head(frag) {
        None => Seq::empty(),
        Some((c, p, loc0)) => {
            let loc = match filename {
                Some(f) => loc_with_filename(loc0, f),
                None => loc0,
            };
            if visited.contains((c, p)) {
                seq![EntryV { status: TraceEntryStatus::Recursive, callable: c, port: p, location: loc }]
            } else {
                match resolve_model(models, c, p, dir) {
                    None => seq![
                        EntryV {
                            status: TraceEntryStatus::Missing,
                            callable: c,
                            port: p,
                            location: loc,
                        },
                    ],
                    Some((nf, next)) => walk_spec(
                        models,
                        next,
                        dir,
                        nf,
                        visited.insert((c, p)),
                    ).push(
                        EntryV {
                            status: TraceEntryStatus::Present,
                            callable: c,
                            port: p,
                            location: loc,
                        },
                    ),
                }
            }
        },
    }
}

#[via_fn]
proof fn walk_spec_decreases(
    models: Seq<TaintModelData>,
    frag: TraceFragment,
    dir: TraceDirection,
    filename: Option<Seq<char>>,
    visited: Set<(Seq<char>, Seq<char>)>,
) {
    match frag_head(frag) {
        None => {},
        Some((c, p, loc0)) => {
            if !visited.contains((c, p)) && resolve_model(models, c, p, dir) is Some {
                lemma_index_pairs_finite(models, dir);
                lemma_resolve_in_pairs(models, c, p, dir);
                index_pairs(models, dir).lemma_set_insert_diff_decreases(visited, (c, p));
            }
        },
    }
}

/// The (callable, port) pair of an entry.
pub open spec fn entry_pair(e: EntryV) -> (Seq<char>, Seq<char>) {
    (e.callable, e.port)
}

/// Every `Recursive` entry of the sequence names a pair that was already on
/// the walk: either it was visited before the walk began, or a `Present`
/// entry for the same pair stands later in the sequence (the walk emits an
/// expanded pair's own entry after everything found beneath it).
pub open spec fn cycle_entries_justified(
    w: Seq<EntryV>,
    visited: Set<(Seq<char>, Seq<char>)>,
) -> bool {
    forall|i: int|
        0 <= i < w.len() && (#[trigger] w[i]).status is Recursive ==> visited.contains(
            entry_pair(w[i]),
        ) || exists|j: int|
            i < j < w.len() && (#[trigger] w[j]).status is Present && entry_pair(w[j])
                == entry_pair(w[i])
}

/// Cycle detection is a round trip: a `Recursive` entry can only name a
/// pair that the same branch's walk already expanded.
pub proof fn lemma_walk_cycles_justified(
    models: Seq<TaintModelData>,
    frag: TraceFragment,
    dir: TraceDirection,
    filename: Option<Seq<char>>,
    visited: Set<(Seq<char>, Seq<char>)>,
)
    ensures
        cycle_entries_justified(walk_spec(models, frag, dir, filename, visited), visited),
    decreases index_pairs(models, dir).difference(visited).len(),
{
    let w = walk_spec(models, frag, dir, filename, visited);
    match frag_head(frag) {
        None => {},
        Some((c, p, loc0)) => {
            if visited.contains((c, p)) {
                assert(entry_pair(w[0]) == (c, p));
            } else {
                match resolve_model(models, c, p, dir) {
                    None => {},
                    Some((nf, next)) => {
                        let visited2 = visited.insert((c, p));
                        lemma_index_pairs_finite(models, dir);
                        lemma_resolve_in_pairs(models, c, p, dir);
                        index_pairs(models, dir).lemma_set_insert_diff_decreases(visited, (c, p));
                        lemma_walk_cycles_justified(models, next, dir, nf, visited2);
                        let sub = walk_spec(models, next, dir, nf, visited2);
                        assert(w.len() == sub.len() + 1);
                        assert(w[sub.len() as int].status is Present);
                        assert(entry_pair(w[sub.len() as int]) == (c, p));
                        assert forall|i: int|
                            0 <= i < w.len() && (#[trigger] w[i]).status is Recursive implies
                            visited.contains(entry_pair(w[i])) || exists|j: int|
                                i < j < w.len() && (#[trigger] w[j]).status is Present
                                    && entry_pair(w[j]) == entry_pair(w[i]) by {
                            assert(i < sub.len());
                            assert(w[i] == sub[i]);
                            if visited2.contains(entry_pair(sub[i])) {
                                if entry_pair(sub[i]) == (c, p) {
                                    let jj = sub.len() as int;
                                    assert(w[jj].status is Present);
                                    assert(entry_pair(w[jj]) == entry_pair(w[i]));
                                }
                            } else {
                                let j = choose|j: int|
                                    i < j < sub.len() && (#[trigger] sub[j]).status is Present
                                        && entry_pair(sub[j]) == entry_pair(sub[i]);
                                assert(w[j] == sub[j]);
                                assert(w[j].status is Present);
                                assert(entry_pair(w[j]) == entry_pair(w[i]));
                            }
                        }
                    },
                }
            }
        },
    }
}

/// The walk of one branch is finite: its length is bounded by the number of
/// distinct not-yet-visited (callable, port) pairs of the index, plus one.
pub proof fn lemma_walk_len_bound(
    models: Seq<TaintModelData>,
    frag: TraceFragment,
    dir: TraceDirection,
    filename: Option<Seq<char>>,
    visited: Set<(Seq<char>, Seq<char>)>,
)
    ensures
        walk_spec(models, frag, dir, filename, visited).len() <= index_pairs(
            models,
            dir,
        ).difference(visited).len() + 1,
    decreases index_pairs(models, dir).difference(visited).len(),
{
    match frag_head(frag) {
        None => {},
        Some((c, p, loc0)) => {
            if !visited.contains((c, p)) {
                match resolve_model(models, c, p, dir) {
                    None => {},
                    Some((nf, next)) => {
                        lemma_index_pairs_finite(models, dir);
                        lemma_resolve_in_pairs(models, c, p, dir);
                        index_pairs(models, dir).lemma_set_insert_diff_decreases(
                            visited,
                            (c, p),
                        );
                        lemma_walk_len_bound(models, next, dir, nf, visited.insert((c, p)));
                    },
                }
            }
        },
    }
}

/// A branch walked from scratch never re-expands a pair, and its length is
/// bounded by the number of distinct (callable, port) pairs the index
/// holds, plus one.
pub proof fn lemma_walk_bounded_from_start(
    models: Seq<TaintModelData>,
    frag: TraceFragment,
    dir: TraceDirection,
    filename: Option<Seq<char>>,
)
    ensures
        walk_spec(models, frag, dir, filename, Set::empty()).len() <= index_pairs(
            models,
            dir,
        ).len() + 1,
        cycle_entries_justified(
            walk_spec(models, frag, dir, filename, Set::empty()),
            Set::empty(),
        ),
{
    let visited = Set::<(Seq<char>, Seq<char>)>::empty();
    assert(index_pairs(models, dir).difference(visited) =~= index_pairs(models, dir));
    lemma_walk_len_bound(models, frag, dir, filename, visited);
    lemma_walk_cycles_justified(models, frag, dir, filename, visited);
}

/// The models are sorted by callable.
pub open spec fn models_sorted(models: Seq<TaintModelData>) -> bool {
    forall|i: int, j: int|
        0 <= i < j < models.len() ==> crate::order::lex_leq(
            (#[trigger] models[i]).callable@,
            (#[trigger] models[j]).callable@,
        )
}

/// The models are sorted by callable with no callable repeated: the
/// index's invariant, holding at most one entry per callable.
pub open spec fn models_strictly_sorted(models: Seq<TaintModelData>) -> bool {
    forall|i: int, j: int|
        0 <= i < j < models.len() ==> crate::order::lex_lt(
            (#[trigger] models[i]).callable@,
            (#[trigger] models[j]).callable@,
        )
}

/// A sorted index with no callable repeated is strictly sorted: how the
/// index invariant follows for an analyzer stream that models each
/// callable once.
pub proof fn lemma_sorted_distinct_strict(models: Seq<TaintModelData>)
    requires
        models_sorted(models),
        forall|i: int, j: int|
            0 <= i < j < models.len() ==> (#[trigger] models[i]).callable@ != (
            #[trigger] models[j]).callable@,
    ensures
        models_strictly_sorted(models),
{
}

/// In a strictly sorted index, any position whose callable matches is the
/// first (and only) match.
pub proof fn lemma_first_model_at(models: Seq<TaintModelData>, c: Seq<char>, i: int)
    requires
        models_strictly_sorted(models),
        0 <= i < models.len(),
        models[i].callable@ == c,
    ensures
        first_model(models, c) == Some(models[i]),
    decreases i,
{
    if i > 0 {
        if models[0].callable@ == c {
            crate::order::lemma_lex_irrefl(c);
            assert(crate::order::lex_lt(models[0].callable@, models[i].callable@));
        }
        assert forall|a: int, b: int|
            0 <= a < b < models.drop_first().len() implies crate::order::lex_lt(
            (#[trigger] models.drop_first()[a]).callable@,
            (#[trigger] models.drop_first()[b]).callable@,
        ) by {
            assert(models.drop_first()[a] == models[a + 1]);
            assert(models.drop_first()[b] == models[b + 1]);
        }
        lemma_first_model_at(models.drop_first(), c, i - 1);
        assert(models.drop_first()[i - 1] == models[i]);
    }
}

/// A callable no model has is not found.
pub proof fn lemma_first_model_absent(models: Seq<TaintModelData>, c: Seq<char>)
    requires
        forall|j: int| 0 <= j < models.len() ==> (#[trigger] models[j]).callable@ != c,
    ensures
        first_model(models, c) is None,
    decreases models.len(),
{
    if models.len() > 0 {
        assert forall|j: int|
            0 <= j < models.drop_first().len() implies (#[trigger] models.drop_first()[
            j
        ]).callable@ != c by {
            assert(models.drop_first()[j] == models[j + 1]);
        }
        lemma_first_model_absent(models.drop_first(), c);
    }
}

} // verus!
