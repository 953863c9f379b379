//! Building a graph of named node functions, edges between them and
//! conditional edges, and compiling it once every name it refers to exists.
use std::sync::Arc;

use vstd::prelude::*;
use vstd::string::*;

use crate::compiled_graph::{CompiledGraph, CompiledView};
use crate::errors::GraphError;
use crate::keyed::{distinct, find, keys, pos, put};
use crate::text::{
    clean_name, first_comma, lemma_targets_comma, lemma_targets_single, lemma_targets_space,
    parse_targets, targets, trim, views,
};

verus! {

/// A function run on the state when its node is reached.
pub trait NodeFunction<T> {
    /// Whether the function accepts every state.
    spec fn callable(&self) -> bool;

    /// Running the function on the state `*m` may return `r` and leave the
    /// state `*final(m)`.
    spec fn runs_to(&self, m: &mut T, r: Result<(), core::fmt::Error>) -> bool;

    fn run(&self, state: &mut T) -> (r: Result<(), core::fmt::Error>)
        requires
            self.callable(),
        ensures
            exists|m: &mut T|
                #![trigger self.runs_to(m, r)]
                *m == *old(state) && *final(m) == *final(state) && self.runs_to(m, r),
    ;
}

impl<T, F: Fn(&mut T) -> Result<(), core::fmt::Error>> NodeFunction<T> for F {
    open spec fn callable(&self) -> bool {
        forall|s: &mut T| call_requires(*self, (s,))
    }

    open spec fn runs_to(&self, m: &mut T, r: Result<(), core::fmt::Error>) -> bool {
        call_ensures(*self, (m,), r)
    }

    fn run(&self, state: &mut T) -> (r: Result<(), core::fmt::Error>)
        ensures
            exists|m: &mut T|
                *m == *old(state) && *final(m) == *final(state) && #[trigger] call_ensures(
                    *self,
                    (m,),
                    r,
                ),
    {
        let r = self(state);
        proof {
            let m = choose|m: &mut T|
                #![trigger call_ensures(*self, (m,), r)]
                *m == *old(state) && *final(m) == *final(state) && call_ensures(*self, (m,), r);
            assert(self.runs_to(m, r));
        }
        r
    }
}

/// A function that names the node(s) to go to next, as a comma-separated list.
pub trait BranchFunction<T> {
    /// Whether the function accepts every state.
    spec fn callable(&self) -> bool;

    /// `out` is a possible answer of the function for `state`.
    spec fn answers(&self, state: T, out: String) -> bool;

    fn branch(&self, state: &T) -> (r: String)
        requires
            self.callable(),
        ensures
            self.answers(*state, r),
    ;
}

impl<T, F: Fn(&T) -> String> BranchFunction<T> for F {
    open spec fn callable(&self) -> bool {
        forall|s: &T| call_requires(*self, (s,))
    }

    open spec fn answers(&self, state: T, out: String) -> bool {
        call_ensures(*self, (&state,), out)
    }

    fn branch(&self, state: &T) -> (r: String)
        ensures
            call_ensures(*self, (state,), r),
    {
        self(state)
    }
}

/// A named node and its function.
#[verifier::reject_recursive_types(T)]
pub struct NodeEntry<T> {
    pub name: String,
    pub function: Arc<Box<dyn NodeFunction<T>>>,
}

/// A conditional edge: its source and the function that picks the target.
#[verifier::reject_recursive_types(T)]
pub struct BranchEntry<T> {
    pub source: String,
    pub function: Arc<Box<dyn BranchFunction<T>>>,
}

/// The names of the entries, in order.
pub open spec fn names_of<T>(s: Seq<NodeEntry<T>>) -> Seq<Seq<char>> {
    s.map_values(|e: NodeEntry<T>| e.name@)
}

/// Each node's name with its function, in order.
pub open spec fn node_table<T>(s: Seq<NodeEntry<T>>) -> Seq<(Seq<char>, Arc<Box<dyn NodeFunction<T>>>)> {
    s.map_values(|e: NodeEntry<T>| (e.name@, e.function))
}

/// Each conditional edge's source with its branch function, in order.
pub open spec fn branch_table<T>(s: Seq<BranchEntry<T>>) -> Seq<
    (Seq<char>, Arc<Box<dyn BranchFunction<T>>>),
> {
    s.map_values(|e: BranchEntry<T>| (e.source@, e.function))
}

/// The sources of the conditional edges, in order.
pub open spec fn sources_of<T>(s: Seq<BranchEntry<T>>) -> Seq<Seq<char>> {
    s.map_values(|e: BranchEntry<T>| e.source@)
}

/// The (source, target) text of each edge, in order.
pub open spec fn pairs_of(s: Seq<(String, String)>) -> Seq<(Seq<char>, Seq<char>)> {
    s.map_values(|p: (String, String)| (p.0@, p.1@))
}

/// The sources of the edges, in order.
pub open spec fn keys_of(s: Seq<(Seq<char>, Seq<char>)>) -> Seq<Seq<char>> {
    s.map_values(|p: (Seq<char>, Seq<char>)| p.0)
}

/// No name occurs twice.
pub open spec fn unique(s: Seq<Seq<char>>) -> bool {
    forall|i: int, j: int| 0 <= i < s.len() && 0 <= j < s.len() && i != j ==> s[i] != s[j]
}

/// `s` with `k` added at the end unless it is already there.
pub open spec fn upsert_name(s: Seq<Seq<char>>, k: Seq<char>) -> Seq<Seq<char>> {
    if s.contains(k) {
        s
    } else {
        s.push(k)
    }
}

/// Index of the last edge leaving `k`, or -1 when none does.
pub open spec fn key_index(s: Seq<(Seq<char>, Seq<char>)>, k: Seq<char>) -> int
    decreases s.len(),
{
    if s.len() == 0 {
        -1
    } else if s.last().0 == k {
        s.len() - 1
    } else {
        key_index(s.drop_last(), k)
    }
}

pub proof fn lemma_key_index(s: Seq<(Seq<char>, Seq<char>)>, k: Seq<char>)
    ensures
        -1 <= key_index(s, k) < s.len(),
        key_index(s, k) >= 0 ==> s[key_index(s, k)].0 == k,
        key_index(s, k) == -1 <==> forall|j: int| 0 <= j < s.len() ==> s[j].0 != k,
        unique(keys_of(s)) ==> forall|j: int| 0 <= j < s.len() && s[j].0 == k ==> j == key_index(s, k),
    decreases s.len(),
{
    if s.len() > 0 {
        lemma_key_index(s.drop_last(), k);
        assert(keys_of(s.drop_last()) =~= keys_of(s).drop_last());
        if unique(keys_of(s)) {
            assert(unique(keys_of(s.drop_last()))) by {
                assert forall|a: int, b: int|
                    0 <= a < keys_of(s.drop_last()).len() && 0 <= b < keys_of(
                        s.drop_last(),
                    ).len() && a != b implies keys_of(s.drop_last())[a] != keys_of(
                    s.drop_last(),
                )[b] by {
                    assert(keys_of(s.drop_last())[a] == keys_of(s)[a]);
                    assert(keys_of(s.drop_last())[b] == keys_of(s)[b]);
                }
            }
            assert forall|j: int| 0 <= j < s.len() && s[j].0 == k implies j == key_index(s, k) by {
                assert(keys_of(s)[j] == s[j].0);
                assert(keys_of(s)[s.len() - 1] == s.last().0);
                if j < s.len() - 1 {
                    assert(s.drop_last()[j] == s[j]);
                }
            }
        }
        if key_index(s, k) == -1 {
            assert forall|j: int| 0 <= j < s.len() implies s[j].0 != k by {
                if j < s.len() - 1 {
                    assert(s[j] == s.drop_last()[j]);
                }
            }
        }
    }
}

/// Whether an edge leaves `k`.
pub open spec fn has_key(s: Seq<(Seq<char>, Seq<char>)>, k: Seq<char>) -> bool {
    key_index(s, k) >= 0
}

/// The edges with the one from `k` now going to `v`: in place when an edge
/// from `k` exists, at the end otherwise.
pub open spec fn upsert_pair(s: Seq<(Seq<char>, Seq<char>)>, k: Seq<char>, v: Seq<char>) -> Seq<
    (Seq<char>, Seq<char>),
> {
    if has_key(s, k) {
        s.update(key_index(s, k), (k, v))
    } else {
        s.push((k, v))
    }
}

/// The target text of the edge from `k`, if there is one.
pub open spec fn lookup(s: Seq<(Seq<char>, Seq<char>)>, k: Seq<char>) -> Option<Seq<char>> {
    if has_key(s, k) {
        Some(s[key_index(s, k)].1)
    } else {
        None
    }
}

/// The names of `ts` joined by ", ".
pub open spec fn join_names(ts: Seq<Seq<char>>) -> Seq<char>
    decreases ts.len(),
{
    if ts.len() == 0 {
        Seq::empty()
    } else if ts.len() == 1 {
        ts[0]
    } else {
        join_names(ts.drop_last()) + ", "@ + ts.last()
    }
}

/// Joining names, read from the front: the first name, ", ", and the rest
/// joined.
pub proof fn lemma_join_front(t0: Seq<char>, rest: Seq<Seq<char>>)
    requires
        rest.len() > 0,
    ensures
        join_names(seq![t0] + rest) == t0 + ", "@ + join_names(rest),
    decreases rest.len(),
{
    let full = seq![t0] + rest;
    if rest.len() == 1 {
        assert(full.drop_last() =~= seq![t0]);
        assert(join_names(seq![t0]) == t0);
        assert(full.last() == rest[0]);
        assert(join_names(rest) == rest[0]);
    } else {
        assert(full.drop_last() =~= seq![t0] + rest.drop_last());
        lemma_join_front(t0, rest.drop_last());
        assert(full.last() == rest.last());
        assert(t0 + ", "@ + join_names(rest.drop_last()) + ", "@ + rest.last() =~= t0 + ", "@ + (
        join_names(rest.drop_last()) + ", "@ + rest.last()));
    }
}

/// A fan-out edge lists exactly its targets: reading the names back from
/// the joined text gives the targets, in order, when each is a clean name.
pub proof fn law_parallel_targets(ts: Seq<Seq<char>>)
    requires
        forall|i: int| 0 <= i < ts.len() ==> clean_name(#[trigger] ts[i]),
    ensures
        targets(join_names(ts)) == ts,
    decreases ts.len(),
{
    if ts.len() == 0 {
        assert(first_comma(Seq::<char>::empty()) == 0);
        assert(trim(Seq::<char>::empty().take(0)) =~= Seq::<char>::empty());
        assert(targets(Seq::<char>::empty()) =~= Seq::<Seq<char>>::empty());
    } else if ts.len() == 1 {
        lemma_targets_single(ts[0]);
        assert(seq![ts[0]] =~= ts);
    } else {
        let rest = ts.drop_first();
        assert(ts =~= seq![ts[0]] + rest);
        lemma_join_front(ts[0], rest);
        assert forall|i: int| 0 <= i < rest.len() implies clean_name(#[trigger] rest[i]) by {
            assert(rest[i] == ts[i + 1]);
        }
        law_parallel_targets(rest);
        let j = join_names(rest);
        reveal_strlit(", ");
        assert(ts[0] + ", "@ + j =~= ts[0] + seq![','] + (seq![' '] + j));
        assert(clean_name(ts[0]));
        lemma_targets_comma(ts[0], seq![' '] + j);
        lemma_targets_space(j);
        lemma_targets_single(ts[0]);
        assert(seq![ts[0]] + rest =~= ts);
    }
}

/// The first name of `ts` that is not in `names`.
pub open spec fn first_missing(names: Seq<Seq<char>>, ts: Seq<Seq<char>>) -> Option<Seq<char>>
    decreases ts.len(),
{
    if ts.len() == 0 {
        None
    } else {
        match first_missing(names, ts.drop_last()) {
            Some(x) => Some(x),
            None => if names.contains(ts.last()) {
                None
            } else {
                Some(ts.last())
            },
        }
    }
}

/// `first_missing` finds nothing exactly when every name of `ts` is in
/// `names`.
pub proof fn lemma_first_missing_none(names: Seq<Seq<char>>, ts: Seq<Seq<char>>)
    ensures
        first_missing(names, ts) is None <==> forall|j: int|
            0 <= j < ts.len() ==> names.contains(#[trigger] ts[j]),
    decreases ts.len(),
{
    if ts.len() > 0 {
        lemma_first_missing_none(names, ts.drop_last());
        if first_missing(names, ts) is None {
            assert forall|j: int| 0 <= j < ts.len() implies names.contains(#[trigger] ts[j]) by {
                if j < ts.len() - 1 {
                    assert(ts[j] == ts.drop_last()[j]);
                }
            }
        } else if forall|j: int| 0 <= j < ts.len() ==> names.contains(#[trigger] ts[j]) {
            assert forall|j: int| 0 <= j < ts.drop_last().len() implies names.contains(
                #[trigger] ts.drop_last()[j],
            ) by {
                assert(ts.drop_last()[j] == ts[j]);
            }
            assert(names.contains(ts[ts.len() - 1]));
        }
    }
}

/// A missing name is found: `first_missing` reports a name of `ts` that is
/// not in `names`.
pub proof fn lemma_first_missing_some(names: Seq<Seq<char>>, ts: Seq<Seq<char>>)
    ensures
        first_missing(names, ts) matches Some(x) ==> ts.contains(x) && !names.contains(x),
    decreases ts.len(),
{
    if ts.len() > 0 {
        lemma_first_missing_some(names, ts.drop_last());
        if let Some(x) = first_missing(names, ts.drop_last()) {
            let i = choose|i: int| 0 <= i < ts.drop_last().len() && ts.drop_last()[i] == x;
            assert(ts[i] == x);
        } else if first_missing(names, ts) is Some {
            assert(ts[ts.len() - 1] == ts.last());
        }
    }
}

/// `edge_error` finds nothing exactly when every edge's source and every
/// one of its targets is in `names`.
pub proof fn lemma_edge_error_none(names: Seq<Seq<char>>, edges: Seq<(Seq<char>, Seq<char>)>)
    ensures
        edge_error(names, edges) is None <==> forall|i: int|
            0 <= i < edges.len() ==> names.contains(#[trigger] edges[i].0) && forall|j: int|
                0 <= j < targets(edges[i].1).len() ==> names.contains(
                    #[trigger] targets(edges[i].1)[j],
                ),
    decreases edges.len(),
{
    if edges.len() > 0 {
        let d = edges.drop_last();
        lemma_edge_error_none(names, d);
        lemma_first_missing_none(names, targets(edges.last().1));
        assert forall|i: int| 0 <= i < d.len() implies #[trigger] d[i] == edges[i] by {}
        if edge_error(names, edges) is None {
            assert forall|i: int| 0 <= i < edges.len() implies names.contains(#[trigger] edges[i].0)
                && forall|j: int|
                0 <= j < targets(edges[i].1).len() ==> names.contains(
                    #[trigger] targets(edges[i].1)[j],
                ) by {
                if i < d.len() {
                    assert(d[i] == edges[i]);
                    assert(names.contains(d[i].0));
                    assert forall|j: int| 0 <= j < targets(edges[i].1).len() implies names.contains(
                        #[trigger] targets(edges[i].1)[j],
                    ) by {
                        assert(targets(d[i].1)[j] == targets(edges[i].1)[j]);
                    }
                } else {
                    assert(edges[i] == edges.last());
                    assert(edge_error(names, d) is None);
                    assert(names.contains(edges.last().0));
                    assert(first_missing(names, targets(edges.last().1)) is None);
                }
            }
        } else {
            if forall|i: int|
                0 <= i < edges.len() ==> names.contains(#[trigger] edges[i].0) && forall|j: int|
                    0 <= j < targets(edges[i].1).len() ==> names.contains(
                        #[trigger] targets(edges[i].1)[j],
                    ) {
                assert forall|i: int| 0 <= i < d.len() implies names.contains(#[trigger] d[i].0)
                    && forall|j: int|
                    0 <= j < targets(d[i].1).len() ==> names.contains(
                        #[trigger] targets(d[i].1)[j],
                    ) by {
                    assert(d[i] == edges[i]);
                }
                assert(edges.last() == edges[edges.len() - 1]);
                assert(names.contains(edges[edges.len() - 1].0));
                assert(false);
            }
        }
    }
}

/// Every name the graph resolves is a node: the entry point and finish
/// point are set, and every entry point target, the finish point, every edge
/// source, every target of every edge and every conditional edge source is
/// a node.
pub open spec fn names_resolve(g: GraphView) -> bool {
    &&& g.entry is Some
    &&& g.finish is Some
    &&& forall|j: int|
        0 <= j < targets(g.entry->0).len() ==> g.nodes.contains(#[trigger] targets(g.entry->0)[j])
    &&& g.nodes.contains(g.finish->0)
    &&& forall|i: int|
        0 <= i < g.edges.len() ==> g.nodes.contains(#[trigger] g.edges[i].0) && forall|j: int|
            0 <= j < targets(g.edges[i].1).len() ==> g.nodes.contains(
                #[trigger] targets(g.edges[i].1)[j],
            )
    &&& forall|i: int| 0 <= i < g.branches.len() ==> g.nodes.contains(#[trigger] g.branches[i])
}

/// `compile` succeeds exactly when every name it resolves names a node.
pub proof fn law_compile_resolves_names(g: GraphView)
    ensures
        compile_failure(g) is None ==> names_resolve(g),
        names_resolve(g) ==> compile_failure(g) is None,
{
    lemma_edge_error_none(g.nodes, g.edges);
    lemma_first_missing_none(g.nodes, g.branches);
    if let Some(e) = g.entry {
        lemma_first_missing_none(g.nodes, targets(e));
        if let Some(f) = g.finish {
            if first_missing(g.nodes, targets(e)) is None && g.nodes.contains(f) && edge_error(
                g.nodes,
                g.edges,
            ) is None {
                assert(compile_failure(g) == branch_error(g.nodes, g.branches));
            }
            if compile_failure(g) is None {
                assert(first_missing(g.nodes, targets(e)) is None);
                assert(g.nodes.contains(f));
                assert(edge_error(g.nodes, g.edges) is None);
                assert(first_missing(g.nodes, g.branches) is None);
            }
        }
    }
}

/// The first edge, in order, whose source or one of whose targets is not a
/// node, with the message that reports it.
pub open spec fn edge_error(names: Seq<Seq<char>>, edges: Seq<(Seq<char>, Seq<char>)>) -> Option<
    Seq<char>,
>
    decreases edges.len(),
{
    if edges.len() == 0 {
        None
    } else {
        match edge_error(names, edges.drop_last()) {
            Some(m) => Some(m),
            None => {
                let (from, to) = edges.last();
                if !names.contains(from) {
                    Some("Edge source '"@ + from + "' does not exist"@)
                } else {
                    match first_missing(names, targets(to)) {
                        Some(t) => Some("Edge target '"@ + t + "' does not exist"@),
                        None => None,
                    }
                }
            },
        }
    }
}

/// The message for the first conditional edge whose source is not a node.
pub open spec fn branch_error(names: Seq<Seq<char>>, sources: Seq<Seq<char>>) -> Option<Seq<char>> {
    match first_missing(names, sources) {
        Some(f) => Some("Conditional edge source '"@ + f + "' does not exist"@),
        None => None,
    }
}

/// The abstract content of a graph: node names, edges and conditional edge
/// sources in the order they were first added, and the entry and finish points.
pub struct GraphView {
    pub nodes: Seq<Seq<char>>,
    pub edges: Seq<(Seq<char>, Seq<char>)>,
    pub branches: Seq<Seq<char>>,
    pub entry: Option<Seq<char>>,
    pub finish: Option<Seq<char>>,
}

/// What `compile` reports for a graph: the message of the first check that
/// fails, or `None` when the graph compiles.
pub open spec fn compile_failure(g: GraphView) -> Option<Seq<char>> {
    match g.entry {
        None => Some("Entry point is not set"@),
        Some(entry) => match g.finish {
            None => Some("Finish point is not set"@),
            Some(finish) => match first_missing(g.nodes, targets(entry)) {
                Some(e) => Some("Entry point '"@ + e + "' does not exist"@),
                None => if !g.nodes.contains(finish) {
                    Some("Finish point '"@ + finish + "' does not exist"@)
                } else {
                    match edge_error(g.nodes, g.edges) {
                        Some(m) => Some(m),
                        None => branch_error(g.nodes, g.branches),
                    }
                },
            },
        },
    }
}

/// A workflow graph over a state of type `T`.
#[verifier::reject_recursive_types(T)]
pub struct Graph<T> {
    nodes: Vec<NodeEntry<T>>,
    edges: Vec<(String, String)>,
    conditional_edges: Vec<BranchEntry<T>>,
    entry_point: Option<String>,
    finish_point: Option<String>,
}

impl<T> View for Graph<T> {
    type V = GraphView;

    closed spec fn view(&self) -> GraphView {
        GraphView {
            nodes: names_of(self.nodes@),
            edges: pairs_of(self.edges@),
            branches: sources_of(self.conditional_edges@),
            entry: match self.entry_point {
                Some(e) => Some(e@),
                None => None,
            },
            finish: match self.finish_point {
                Some(f) => Some(f@),
                None => None,
            },
        }
    }
}

/// Finds the node called `name`.
pub(crate) fn find_node<T>(nodes: &Vec<NodeEntry<T>>, name: &String) -> (r: Option<usize>)
    ensures
        match r {
            Some(i) => i < nodes@.len() && names_of(nodes@)[i as int] == name@,
            None => !names_of(nodes@).contains(name@),
        },
{
    let mut i: usize = 0;
    while i < nodes.len()
        invariant
            i <= nodes@.len(),
            forall|j: int| 0 <= j < i ==> names_of(nodes@)[j] != name@,
        decreases nodes@.len() - i,
    {
        if nodes[i].name == *name {
            return Some(i);
        }
        i = i + 1;
    }
    None
}

/// Finds the conditional edge leaving `source`.
pub(crate) fn find_branch<T>(branches: &Vec<BranchEntry<T>>, source: &String) -> (r: Option<
    usize,
>)
    ensures
        match r {
            Some(i) => i < branches@.len() && sources_of(branches@)[i as int] == source@,
            None => !sources_of(branches@).contains(source@),
        },
{
    let mut i: usize = 0;
    while i < branches.len()
        invariant
            i <= branches@.len(),
            forall|j: int| 0 <= j < i ==> sources_of(branches@)[j] != source@,
        decreases branches@.len() - i,
    {
        if branches[i].source == *source {
            return Some(i);
        }
        i = i + 1;
    }
    None
}

/// Finds the edge leaving `source`.
pub(crate) fn find_edge(edges: &Vec<(String, String)>, source: &String) -> (r: Option<usize>)
    ensures
        match r {
            Some(i) => i < edges@.len() && pairs_of(edges@)[i as int].0 == source@,
            None => forall|j: int| 0 <= j < edges@.len() ==> pairs_of(edges@)[j].0 != source@,
        },
{
    let mut i: usize = 0;
    while i < edges.len()
        invariant
            i <= edges@.len(),
            forall|j: int| 0 <= j < i ==> pairs_of(edges@)[j].0 != source@,
        decreases edges@.len() - i,
    {
        if edges[i].0 == *source {
            return Some(i);
        }
        i = i + 1;
    }
    None
}

} // verus!

verus! {

impl<T> Graph<T> {
    /// The node functions, by node name.
    pub closed spec fn node_fns(&self) -> Seq<(Seq<char>, Arc<Box<dyn NodeFunction<T>>>)> {
        node_table(self.nodes@)
    }

    /// The branch functions, by the source of their conditional edge.
    pub closed spec fn branch_fns(&self) -> Seq<(Seq<char>, Arc<Box<dyn BranchFunction<T>>>)> {
        branch_table(self.conditional_edges@)
    }

    /// The function tables list the nodes and the conditional edge sources
    /// of the view, once each.
    pub proof fn lemma_tables(&self)
        requires
            self.wf(),
        ensures
            keys(self.node_fns()) == self@.nodes,
            keys(self.branch_fns()) == self@.branches,
            distinct(keys(self.node_fns())),
            distinct(keys(self.branch_fns())),
    {
        assert(keys(self.node_fns()) =~= self@.nodes);
        assert(keys(self.branch_fns()) =~= self@.branches);
    }

    /// Names are unique per kind and every stored function accepts every state.
    pub closed spec fn wf(&self) -> bool {
        &&& unique(names_of(self.nodes@))
        &&& unique(keys_of(pairs_of(self.edges@)))
        &&& unique(sources_of(self.conditional_edges@))
        &&& forall|i: int| 0 <= i < self.nodes@.len() ==> self.nodes@[i].function.callable()
        &&& forall|i: int|
            0 <= i < self.conditional_edges@.len() ==> self.conditional_edges@[i].function.callable()
    }

    /// An empty graph: no nodes, no edges, no entry or finish point.
    pub fn new() -> (g: Self)
        ensures
            g.wf(),
            g@ == (GraphView {
                nodes: Seq::empty(),
                edges: Seq::empty(),
                branches: Seq::empty(),
                entry: None,
                finish: None,
            }),
    {
        let g = Graph {
            nodes: Vec::new(),
            edges: Vec::new(),
            conditional_edges: Vec::new(),
            entry_point: None,
            finish_point: None,
        };
        assert(g@.nodes =~= Seq::<Seq<char>>::empty());
        assert(g@.edges =~= Seq::<(Seq<char>, Seq<char>)>::empty());
        assert(g@.branches =~= Seq::<Seq<char>>::empty());
        g
    }

    /// Adds the node `name`, or replaces the function of the node of that name.
    pub fn add_node<F: Fn(&mut T) -> Result<(), core::fmt::Error> + 'static>(
        &mut self,
        name: String,
        function: F,
    ) -> (r: &mut Self)
        requires
            old(self).wf(),
            forall|s: &mut T| call_requires(function, (s,)),
        ensures
            r.wf(),
            r@ == (GraphView { nodes: upsert_name(old(self)@.nodes, name@), ..old(self)@ }),
            find(r.node_fns(), name@) matches Some(f) && forall|
                m: &mut T,
                res: Result<(), core::fmt::Error>,
            | #[trigger] f.runs_to(m, res) == call_ensures(function, (m,), res),
            forall|k: Seq<char>|
                k != name@ ==> #[trigger] find(r.node_fns(), k) == find(old(self).node_fns(), k),
            r.branch_fns() == old(self).branch_fns(),
            *final(self) == *final(r),
    {
        let ghost old_nodes = self.nodes@;
        let boxed: Box<dyn NodeFunction<T>> = Box::new(function);
        let entry = NodeEntry { name, function: Arc::new(boxed) };
        let ghost new_name = entry.name@;
        let ghost f = entry.function;
        assert(forall|m: &mut T, res: Result<(), core::fmt::Error>|
            #[trigger] f.runs_to(m, res) == call_ensures(function, (m,), res));
        proof {
            crate::keyed::lemma_pos(node_table(old_nodes), new_name);
            assert(keys(node_table(old_nodes)) =~= names_of(old_nodes));
        }
        match find_node(&self.nodes, &entry.name) {
            Some(i) => {
                self.nodes.set(i, entry);
                proof {
                    assert(names_of(self.nodes@) =~= names_of(old_nodes));
                    assert(names_of(old_nodes)[i as int] == new_name);
                    assert(node_table(old_nodes)[i as int].0 == new_name);
                    assert(distinct(keys(node_table(old_nodes))));
                    assert(pos(node_table(old_nodes), new_name) == i);
                    assert(node_table(self.nodes@) =~= node_table(old_nodes).update(
                        i as int,
                        (new_name, f),
                    ));
                }
            },
            None => {
                self.nodes.push(entry);
                proof {
                    assert(names_of(self.nodes@) =~= names_of(old_nodes).push(new_name));
                    assert(forall|j: int|
                        0 <= j < old_nodes.len() ==> node_table(old_nodes)[j].0 == names_of(
                            old_nodes,
                        )[j]);
                    assert(node_table(self.nodes@) =~= node_table(old_nodes).push((new_name, f)));
                    assert forall|j: int| 0 <= j < node_table(old_nodes).len() implies node_table(
                        old_nodes,
                    )[j].0 != new_name by {
                        assert(names_of(old_nodes)[j] == node_table(old_nodes)[j].0);
                    }
                    assert(pos(node_table(old_nodes), new_name) == -1);
                }
            },
        }
        assert(self.node_fns() == put(node_table(old_nodes), new_name, f));
        proof {
            crate::keyed::lemma_put(node_table(old_nodes), new_name, f);
        }
        self
    }

    /// Adds an edge from `from` to `to`, replacing any edge that left `from`.
    /// `to` may list several targets separated by commas.
    pub fn add_edge(&mut self, from: String, to: String) -> (r: &mut Self)
        requires
            old(self).wf(),
        ensures
            r.wf(),
            r@ == (GraphView { edges: upsert_pair(old(self)@.edges, from@, to@), ..old(self)@ }),
            r.node_fns() == old(self).node_fns(),
            r.branch_fns() == old(self).branch_fns(),
            *final(self) == *final(r),
    {
        self.put_edge(from, to);
        self
    }

    fn put_edge(&mut self, from: String, to: String)
        requires
            old(self).wf(),
        ensures
            final(self).wf(),
            final(self)@ == (GraphView {
                edges: upsert_pair(old(self)@.edges, from@, to@),
                ..old(self)@
            }),
            final(self).node_fns() == old(self).node_fns(),
            final(self).branch_fns() == old(self).branch_fns(),
    {
        let ghost old_edges = pairs_of(self.edges@);
        let ghost k = from@;
        let ghost v = to@;
        match find_edge(&self.edges, &from) {
            Some(i) => {
                self.edges.set(i, (from, to));
                proof {
                    lemma_key_index(old_edges, k);
                    assert(key_index(old_edges, k) == i as int);
                    assert(pairs_of(self.edges@) =~= old_edges.update(i as int, (k, v)));
                    assert(keys_of(pairs_of(self.edges@)) =~= keys_of(old_edges));
                }
            },
            None => {
                self.edges.push((from, to));
                proof {
                    lemma_key_index(old_edges, k);
                    assert(pairs_of(self.edges@) =~= old_edges.push((k, v)));
                    assert(keys_of(pairs_of(self.edges@)) =~= keys_of(old_edges).push(k));
                    assert forall|j: int| 0 <= j < keys_of(old_edges).len() implies keys_of(
                        old_edges,
                    )[j] != k by {
                        assert(old_edges[j].0 == keys_of(old_edges)[j]);
                    }
                }
            },
        }
    }

    /// Adds a conditional edge leaving `from`, replacing any that left it.
    pub fn add_conditional_edge<F: Fn(&T) -> String + 'static>(
        &mut self,
        from: String,
        branch: F,
    ) -> (r: &mut Self)
        requires
            old(self).wf(),
            forall|s: &T| call_requires(branch, (s,)),
        ensures
            r.wf(),
            r@ == (GraphView { branches: upsert_name(old(self)@.branches, from@), ..old(self)@ }),
            find(r.branch_fns(), from@) matches Some(f) && forall|s: T, o: String|
                #[trigger] f.answers(s, o) == call_ensures(branch, (&s,), o),
            forall|k: Seq<char>|
                k != from@ ==> #[trigger] find(r.branch_fns(), k) == find(old(self).branch_fns(), k),
            r.node_fns() == old(self).node_fns(),
            *final(self) == *final(r),
    {
        let ghost old_branches = self.conditional_edges@;
        let boxed: Box<dyn BranchFunction<T>> = Box::new(branch);
        let entry = BranchEntry { source: from, function: Arc::new(boxed) };
        let ghost new_source = entry.source@;
        let ghost f = entry.function;
        assert(forall|s: T, o: String| #[trigger] f.answers(s, o) == call_ensures(branch, (&s,), o));
        proof {
            crate::keyed::lemma_pos(branch_table(old_branches), new_source);
            assert(keys(branch_table(old_branches)) =~= sources_of(old_branches));
        }
        match find_branch(&self.conditional_edges, &entry.source) {
            Some(i) => {
                self.conditional_edges.set(i, entry);
                proof {
                    assert(sources_of(self.conditional_edges@) =~= sources_of(old_branches));
                    assert(sources_of(old_branches)[i as int] == new_source);
                    assert(branch_table(old_branches)[i as int].0 == new_source);
                    assert(distinct(keys(branch_table(old_branches))));
                    assert(pos(branch_table(old_branches), new_source) == i);
                    assert(branch_table(self.conditional_edges@) =~= branch_table(
                        old_branches,
                    ).update(i as int, (new_source, f)));
                }
            },
            None => {
                self.conditional_edges.push(entry);
                proof {
                    assert(sources_of(self.conditional_edges@) =~= sources_of(old_branches).push(
                        new_source,
                    ));
                    assert(branch_table(self.conditional_edges@) =~= branch_table(
                        old_branches,
                    ).push((new_source, f)));
                    assert forall|j: int| 0 <= j < branch_table(old_branches).len() implies branch_table(
                        old_branches,
                    )[j].0 != new_source by {
                        assert(sources_of(old_branches)[j] == branch_table(old_branches)[j].0);
                    }
                    assert(pos(branch_table(old_branches), new_source) == -1);
                }
            },
        }
        assert(self.branch_fns() == put(branch_table(old_branches), new_source, f));
        proof {
            crate::keyed::lemma_put(branch_table(old_branches), new_source, f);
        }
        self
    }

    /// Sets the entry point; it may list several nodes separated by commas.
    pub fn set_entry_point(&mut self, from: String) -> (r: &mut Self)
        requires
            old(self).wf(),
        ensures
            r.wf(),
            r@ == (GraphView { entry: Some(from@), ..old(self)@ }),
            r.node_fns() == old(self).node_fns(),
            r.branch_fns() == old(self).branch_fns(),
            *final(self) == *final(r),
    {
        self.entry_point = Some(from);
        self
    }

    /// Sets the finish point.
    pub fn set_finish_point(&mut self, from: String) -> (r: &mut Self)
        requires
            old(self).wf(),
        ensures
            r.wf(),
            r@ == (GraphView { finish: Some(from@), ..old(self)@ }),
            r.node_fns() == old(self).node_fns(),
            r.branch_fns() == old(self).branch_fns(),
            *final(self) == *final(r),
    {
        self.finish_point = Some(from);
        self
    }
}

} // verus!

verus! {

pub proof fn lemma_first_missing_prefix(names: Seq<Seq<char>>, ts: Seq<Seq<char>>, k: int)
    requires
        0 <= k <= ts.len(),
        first_missing(names, ts.take(k)) is Some,
    ensures
        first_missing(names, ts) == first_missing(names, ts.take(k)),
    decreases ts.len() - k,
{
    if k < ts.len() {
        assert(ts.take(k + 1).drop_last() =~= ts.take(k));
        lemma_first_missing_prefix(names, ts, k + 1);
    } else {
        assert(ts.take(k) =~= ts);
    }
}

pub proof fn lemma_edge_error_prefix(
    names: Seq<Seq<char>>,
    edges: Seq<(Seq<char>, Seq<char>)>,
    k: int,
)
    requires
        0 <= k <= edges.len(),
        edge_error(names, edges.take(k)) is Some,
    ensures
        edge_error(names, edges) == edge_error(names, edges.take(k)),
    decreases edges.len() - k,
{
    if k < edges.len() {
        assert(edges.take(k + 1).drop_last() =~= edges.take(k));
        lemma_edge_error_prefix(names, edges, k + 1);
    } else {
        assert(edges.take(k) =~= edges);
    }
}

/// Index of the first name of `ts` that is not a node.
fn first_missing_index<T>(nodes: &Vec<NodeEntry<T>>, ts: &Vec<String>) -> (r: Option<usize>)
    ensures
        match r {
            Some(i) => i < ts@.len() && first_missing(names_of(nodes@), views(ts@)) == Some(
                views(ts@)[i as int],
            ),
            None => first_missing(names_of(nodes@), views(ts@)) is None,
        },
{
    let ghost names = names_of(nodes@);
    let ghost vs = views(ts@);
    let mut i: usize = 0;
    assert(vs.take(0) =~= Seq::<Seq<char>>::empty());
    while i < ts.len()
        invariant
            names == names_of(nodes@),
            vs == views(ts@),
            i <= ts@.len(),
            first_missing(names, vs.take(i as int)) is None,
        decreases ts@.len() - i,
    {
        assert(vs.take(i + 1).drop_last() =~= vs.take(i as int));
        assert(vs.take(i + 1).last() == vs[i as int]);
        match find_node(nodes, &ts[i]) {
            None => {
                proof {
                    lemma_first_missing_prefix(names, vs, i + 1);
                }
                return Some(i);
            },
            Some(_) => {},
        }
        i = i + 1;
    }
    assert(vs.take(i as int) =~= vs);
    None
}

impl<T> Graph<T> {
    /// Checks that the entry and finish points are set and that every name
    /// the graph refers to is a node; on success the compiled graph holds the
    /// same nodes, edges and conditional edges.
    pub fn compile(&self) -> (r: Result<CompiledGraph<T>, String>)
        requires
            self.wf(),
        ensures
            match r {
                Ok(c) => {
                    &&& compile_failure(self@) is None
                    &&& c.wf()
                    &&& c@ == (CompiledView {
                        nodes: self@.nodes,
                        edges: self@.edges,
                        branches: self@.branches,
                        entry: self@.entry.unwrap(),
                        finish: self@.finish.unwrap(),
                    })
                    &&& c.node_fns() == self.node_fns()
                    &&& c.branch_fns() == self.branch_fns()
                },
                Err(m) => compile_failure(self@) == Some(m@),
            },
    {
        let ghost names = names_of(self.nodes@);
        let entry = match &self.entry_point {
            None => {
                return Err(GraphError::MissingEntryPoint.message());
            },
            Some(e) => e.clone(),
        };
        let finish = match &self.finish_point {
            None => {
                return Err(GraphError::MissingFinishPoint.message());
            },
            Some(f) => f.clone(),
        };
        let entries = parse_targets(entry.as_str());
        match first_missing_index(&self.nodes, &entries) {
            Some(i) => {
                return Err(GraphError::EntryPointNotFound(entries[i].clone()).message());
            },
            None => {},
        }
        match find_node(&self.nodes, &finish) {
            None => {
                return Err(GraphError::FinishPointNotFound(finish).message());
            },
            Some(_) => {},
        }
        let ghost edges = pairs_of(self.edges@);
        let mut i: usize = 0;
        assert(edges.take(0) =~= Seq::<(Seq<char>, Seq<char>)>::empty());
        while i < self.edges.len()
            invariant
                names == names_of(self.nodes@),
                self@.entry == Some(entry@),
                self@.finish == Some(finish@),
                first_missing(names, targets(entry@)) is None,
                names.contains(finish@),
                edges == pairs_of(self.edges@),
                i <= self.edges@.len(),
                edge_error(names, edges.take(i as int)) is None,
            decreases self.edges@.len() - i,
        {
            proof {
                assert(edges.take(i + 1).drop_last() =~= edges.take(i as int));
                assert(edges.take(i + 1).last() == edges[i as int]);
            }
            let from = &self.edges[i].0;
            let to = &self.edges[i].1;
            match find_node(&self.nodes, from) {
                None => {
                    proof {
                        lemma_edge_error_prefix(names, edges, i + 1);
                    }
                    return Err(GraphError::EdgeSourceNotFound(from.clone()).message());
                },
                Some(_) => {},
            }
            let ts = parse_targets(to.as_str());
            match first_missing_index(&self.nodes, &ts) {
                Some(j) => {
                    proof {
                        lemma_edge_error_prefix(names, edges, i + 1);
                    }
                    return Err(GraphError::EdgeTargetNotFound(ts[j].clone()).message());
                },
                None => {},
            }
            i = i + 1;
        }
        assert(edges.take(i as int) =~= edges);
        let ghost sources = sources_of(self.conditional_edges@);
        let mut k: usize = 0;
        assert(sources.take(0) =~= Seq::<Seq<char>>::empty());
        while k < self.conditional_edges.len()
            invariant
                names == names_of(self.nodes@),
                self@.entry == Some(entry@),
                self@.finish == Some(finish@),
                first_missing(names, targets(entry@)) is None,
                names.contains(finish@),
                edge_error(names, pairs_of(self.edges@)) is None,
                sources == sources_of(self.conditional_edges@),
                k <= self.conditional_edges@.len(),
                first_missing(names, sources.take(k as int)) is None,
            decreases self.conditional_edges@.len() - k,
        {
            proof {
                assert(sources.take(k + 1).drop_last() =~= sources.take(k as int));
                assert(sources.take(k + 1).last() == sources[k as int]);
            }
            let from = &self.conditional_edges[k].source;
            match find_node(&self.nodes, from) {
                None => {
                    proof {
                        lemma_first_missing_prefix(names, sources, k + 1);
                    }
                    return Err(GraphError::ConditionalEdgeSourceNotFound(from.clone()).message());
                },
                Some(_) => {},
            }
            k = k + 1;
        }
        assert(sources.take(k as int) =~= sources);
        let nodes = clone_nodes(&self.nodes);
        let edges_copy = clone_edges(&self.edges);
        let branches = clone_branches(&self.conditional_edges);
        assert(node_table(nodes@) =~= node_table(self.nodes@)) by {
            assert forall|j: int| 0 <= j < nodes@.len() implies nodes@[j].name@ == self.nodes@[j].name@ by {
                assert(names_of(nodes@)[j] == names_of(self.nodes@)[j]);
            }
        }
        assert(branch_table(branches@) =~= branch_table(self.conditional_edges@)) by {
            assert forall|j: int| 0 <= j < branches@.len() implies branches@[j].source@
                == self.conditional_edges@[j].source@ by {
                assert(sources_of(branches@)[j] == sources_of(self.conditional_edges@)[j]);
            }
        }
        Ok(CompiledGraph::assemble(nodes, edges_copy, branches, entry, finish))
    }
}

fn clone_nodes<T>(nodes: &Vec<NodeEntry<T>>) -> (r: Vec<NodeEntry<T>>)
    ensures
        names_of(r@) == names_of(nodes@),
        r@.len() == nodes@.len(),
        forall|i: int| 0 <= i < r@.len() ==> r@[i].function == nodes@[i].function,
{
    let mut r: Vec<NodeEntry<T>> = Vec::new();
    let mut i: usize = 0;
    while i < nodes.len()
        invariant
            i <= nodes@.len(),
            r@.len() == i,
            forall|j: int| 0 <= j < i ==> r@[j].name@ == nodes@[j].name@ && r@[j].function
                == nodes@[j].function,
        decreases nodes@.len() - i,
    {
        let e = NodeEntry { name: nodes[i].name.clone(), function: nodes[i].function.clone() };
        r.push(e);
        i = i + 1;
    }
    assert(names_of(r@) =~= names_of(nodes@));
    r
}

fn clone_branches<T>(branches: &Vec<BranchEntry<T>>) -> (r: Vec<BranchEntry<T>>)
    ensures
        sources_of(r@) == sources_of(branches@),
        r@.len() == branches@.len(),
        forall|i: int| 0 <= i < r@.len() ==> r@[i].function == branches@[i].function,
{
    let mut r: Vec<BranchEntry<T>> = Vec::new();
    let mut i: usize = 0;
    while i < branches.len()
        invariant
            i <= branches@.len(),
            r@.len() == i,
            forall|j: int| 0 <= j < i ==> r@[j].source@ == branches@[j].source@ && r@[j].function
                == branches@[j].function,
        decreases branches@.len() - i,
    {
        let e = BranchEntry {
            source: branches[i].source.clone(),
            function: branches[i].function.clone(),
        };
        r.push(e);
        i = i + 1;
    }
    assert(sources_of(r@) =~= sources_of(branches@));
    r
}

fn clone_edges(edges: &Vec<(String, String)>) -> (r: Vec<(String, String)>)
    ensures
        pairs_of(r@) == pairs_of(edges@),
{
    let mut r: Vec<(String, String)> = Vec::new();
    let mut i: usize = 0;
    while i < edges.len()
        invariant
            i <= edges@.len(),
            r@.len() == i,
            forall|j: int| 0 <= j < i ==> r@[j].0@ == edges@[j].0@ && r@[j].1@ == edges@[j].1@,
        decreases edges@.len() - i,
    {
        r.push((edges[i].0.clone(), edges[i].1.clone()));
        i = i + 1;
    }
    assert(pairs_of(r@) =~= pairs_of(edges@));
    r
}

} // verus!

verus! {

/// The strings of `ts` joined by ", ".
fn join_strings(ts: &Vec<String>) -> (r: String)
    ensures
        r@ == join_names(views(ts@)),
{
    let ghost vs = views(ts@);
    let mut r = String::new();
    let mut i: usize = 0;
    assert(r@ =~= join_names(vs.take(0)));
    while i < ts.len()
        invariant
            vs == views(ts@),
            i <= ts@.len(),
            r@ == join_names(vs.take(i as int)),
        decreases ts@.len() - i,
    {
        assert(vs.take(i + 1).drop_last() =~= vs.take(i as int));
        assert(vs.take(i + 1).last() == vs[i as int]);
        if i > 0 {
            r.append(", ");
            r.append(ts[i].as_str());
        } else {
            r.append(ts[i].as_str());
            assert(r@ =~= vs[0]);
        }
        i = i + 1;
    }
    assert(vs.take(i as int) =~= vs);
    r
}

impl<T> Graph<T> {
    /// Adds an edge from `from` to all of `targets` at once (a fan-out),
    /// stored as their names joined by ", "; replaces any edge that left `from`.
    pub fn add_parallel_edge(&mut self, from: String, targets: Vec<String>) -> (r: &mut Self)
        requires
            old(self).wf(),
        ensures
            r.wf(),
            r@ == (GraphView {
                edges: upsert_pair(old(self)@.edges, from@, join_names(views(targets@))),
                ..old(self)@
            }),
            r.node_fns() == old(self).node_fns(),
            r.branch_fns() == old(self).branch_fns(),
            *final(self) == *final(r),
    {
        let joined = join_strings(&targets);
        self.put_edge(from, joined);
        self
    }

    /// The number of nodes.
    pub fn node_count(&self) -> (r: usize)
        ensures
            r == self@.nodes.len(),
    {
        self.nodes.len()
    }

    /// Whether a node called `name` exists.
    pub fn has_node(&self, name: &str) -> (r: bool)
        ensures
            r == self@.nodes.contains(name@),
    {
        let key = name.to_owned();
        find_node(&self.nodes, &key).is_some()
    }

    /// The number of edges.
    pub fn edge_count(&self) -> (r: usize)
        ensures
            r == self@.edges.len(),
    {
        self.edges.len()
    }

    /// The target text of the edge leaving `from`, if any.
    pub fn edge_target(&self, from: &str) -> (r: Option<String>)
        requires
            self.wf(),
        ensures
            match r {
                Some(t) => lookup(self@.edges, from@) == Some(t@),
                None => lookup(self@.edges, from@) is None,
            },
    {
        let key = from.to_owned();
        proof {
            lemma_key_index(self@.edges, from@);
        }
        match find_edge(&self.edges, &key) {
            Some(i) => {
                assert(key_index(self@.edges, from@) == i as int);
                Some(self.edges[i].1.clone())
            },
            None => None,
        }
    }

    /// The number of conditional edges.
    pub fn conditional_edge_count(&self) -> (r: usize)
        ensures
            r == self@.branches.len(),
    {
        self.conditional_edges.len()
    }

    /// Whether a conditional edge leaves `from`.
    pub fn has_conditional_edge(&self, from: &str) -> (r: bool)
        ensures
            r == self@.branches.contains(from@),
    {
        let key = from.to_owned();
        find_branch(&self.conditional_edges, &key).is_some()
    }

    /// The route the conditional edge leaving `from` chooses for `state`,
    /// or `None` when no conditional edge leaves `from`.
    pub fn route(&self, from: &str, state: &T) -> (r: Option<String>)
        requires
            self.wf(),
        ensures
            r is Some <==> self@.branches.contains(from@),
            match find(self.branch_fns(), from@) {
                Some(f) => r matches Some(o) && f.answers(*state, o),
                None => r is None,
            },
    {
        proof {
            crate::keyed::lemma_pos(self.branch_fns(), from@);
            self.lemma_tables();
        }
        let key = from.to_owned();
        match find_branch(&self.conditional_edges, &key) {
            Some(i) => {
                assert(self.branch_fns()[i as int].0 == from@);
                assert(pos(self.branch_fns(), from@) == i);
                assert(self.branch_fns()[i as int].1 == self.conditional_edges@[i as int].function);
                Some(self.conditional_edges[i].function.branch(state))
            },
            None => {
                assert forall|j: int| 0 <= j < self.branch_fns().len() implies self.branch_fns()[j].0
                    != from@ by {
                    assert(sources_of(self.conditional_edges@)[j] == self.branch_fns()[j].0);
                }
                None
            },
        }
    }

    /// The entry point, if set.
    pub fn entry_point(&self) -> (r: Option<String>)
        ensures
            match r {
                Some(e) => self@.entry == Some(e@),
                None => self@.entry is None,
            },
    {
        match &self.entry_point {
            Some(e) => Some(e.clone()),
            None => None,
        }
    }

    /// The finish point, if set.
    pub fn finish_point(&self) -> (r: Option<String>)
        ensures
            match r {
                Some(f) => self@.finish == Some(f@),
                None => self@.finish is None,
            },
    {
        match &self.finish_point {
            Some(f) => Some(f.clone()),
            None => None,
        }
    }
}

impl<T> Default for Graph<T> {
    /// The same as `Graph::new()`.
    fn default() -> (g: Self)
        ensures
            g.wf(),
            g@ == (GraphView {
                nodes: Seq::empty(),
                edges: Seq::empty(),
                branches: Seq::empty(),
                entry: None,
                finish: None,
            }),
    {
        Self::new()
    }
}

} // verus!
