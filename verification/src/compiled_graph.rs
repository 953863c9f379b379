//! A graph whose references all resolve, and the superstep runner that
//! executes it on a state.
use std::sync::Arc;

use vstd::prelude::*;
use vstd::string::*;

use crate::errors::GraphError;
use crate::graph::{
    branch_table, node_table, BranchFunction, NodeFunction,
    compile_failure, find_branch, find_edge, find_node, join_names, key_index, keys_of,
    law_parallel_targets, lemma_key_index, lookup, names_of, pairs_of, sources_of, unique,
    BranchEntry, GraphView, NodeEntry,
};
use crate::keyed::{find, keys, lemma_pos};
use crate::text::{clean_name, parse_targets, targets, views};

verus! {

/// The abstract content of a compiled graph.
pub struct CompiledView {
    pub nodes: Seq<Seq<char>>,
    pub edges: Seq<(Seq<char>, Seq<char>)>,
    pub branches: Seq<Seq<char>>,
    pub entry: Seq<char>,
    pub finish: Seq<char>,
}

/// The graph view a compiled graph came from.
pub open spec fn source_view(c: CompiledView) -> GraphView {
    GraphView {
        nodes: c.nodes,
        edges: c.edges,
        branches: c.branches,
        entry: Some(c.entry),
        finish: Some(c.finish),
    }
}

/// Every name the compiled graph refers to is one of its nodes.
pub open spec fn resolved(c: CompiledView) -> bool {
    compile_failure(source_view(c)) is None
}

/// A compiled graph: nodes, edges and conditional edges whose every
/// reference resolves to a node.
#[verifier::reject_recursive_types(T)]
pub struct CompiledGraph<T> {
    nodes: Vec<NodeEntry<T>>,
    edges: Vec<(String, String)>,
    conditional_edges: Vec<BranchEntry<T>>,
    entry_point: String,
    finish_point: String,
}

impl<T> View for CompiledGraph<T> {
    type V = CompiledView;

    closed spec fn view(&self) -> CompiledView {
        CompiledView {
            nodes: names_of(self.nodes@),
            edges: pairs_of(self.edges@),
            branches: sources_of(self.conditional_edges@),
            entry: self.entry_point@,
            finish: self.finish_point@,
        }
    }
}

impl<T> CompiledGraph<T> {
    /// The node functions, by node name.
    pub closed spec fn node_fns(&self) -> Seq<(Seq<char>, Arc<Box<dyn NodeFunction<T>>>)> {
        node_table(self.nodes@)
    }

    /// The branch functions, by the source of their conditional edge.
    pub closed spec fn branch_fns(&self) -> Seq<(Seq<char>, Arc<Box<dyn BranchFunction<T>>>)> {
        branch_table(self.conditional_edges@)
    }

    /// Names are unique per kind, functions accept every state, and every
    /// reference resolves.
    pub closed spec fn wf(&self) -> bool {
        &&& unique(names_of(self.nodes@))
        &&& unique(keys_of(pairs_of(self.edges@)))
        &&& unique(sources_of(self.conditional_edges@))
        &&& forall|i: int| 0 <= i < self.nodes@.len() ==> self.nodes@[i].function.callable()
        &&& forall|i: int|
            0 <= i < self.conditional_edges@.len() ==> self.conditional_edges@[i].function.callable()
        &&& resolved(self@)
    }

    pub(crate) fn assemble(
        nodes: Vec<NodeEntry<T>>,
        edges: Vec<(String, String)>,
        conditional_edges: Vec<BranchEntry<T>>,
        entry_point: String,
        finish_point: String,
    ) -> (c: Self)
        requires
            unique(names_of(nodes@)),
            unique(keys_of(pairs_of(edges@))),
            unique(sources_of(conditional_edges@)),
            forall|i: int| 0 <= i < nodes@.len() ==> nodes@[i].function.callable(),
            forall|i: int|
                0 <= i < conditional_edges@.len() ==> conditional_edges@[i].function.callable(),
            compile_failure(
                GraphView {
                    nodes: names_of(nodes@),
                    edges: pairs_of(edges@),
                    branches: sources_of(conditional_edges@),
                    entry: Some(entry_point@),
                    finish: Some(finish_point@),
                },
            ) is None,
        ensures
            c.wf(),
            c@ == (CompiledView {
                nodes: names_of(nodes@),
                edges: pairs_of(edges@),
                branches: sources_of(conditional_edges@),
                entry: entry_point@,
                finish: finish_point@,
            }),
            c.node_fns() == node_table(nodes@),
            c.branch_fns() == branch_table(conditional_edges@),
    {
        let c = CompiledGraph { nodes, edges, conditional_edges, entry_point, finish_point };
        assert(source_view(c@) == (GraphView {
            nodes: names_of(c.nodes@),
            edges: pairs_of(c.edges@),
            branches: sources_of(c.conditional_edges@),
            entry: Some(c.entry_point@),
            finish: Some(c.finish_point@),
        }));
        c
    }
}

} // verus!

verus! {

/// Why a superstep cannot be followed by another.
pub enum StepFailure {
    /// A route chosen by a conditional edge names no node.
    NodeNotFound(Seq<char>),
    /// A node that is not the finish point has nowhere to go.
    MissingEdge(Seq<char>),
}

/// `acc` followed by the names of `ts` it does not hold yet, each once.
pub open spec fn merge(acc: Seq<Seq<char>>, ts: Seq<Seq<char>>) -> Seq<Seq<char>>
    decreases ts.len(),
{
    if ts.len() == 0 {
        acc
    } else {
        let a = merge(acc, ts.drop_last());
        if a.contains(ts.last()) {
            a
        } else {
            a.push(ts.last())
        }
    }
}

/// The nodes of the first superstep: those the entry point lists.
pub open spec fn start_step(c: CompiledView) -> Seq<Seq<char>> {
    merge(Seq::empty(), targets(c.entry))
}

/// Where node `n` leads: the route its conditional edge chose when it has
/// one, otherwise the targets of its edge.
pub open spec fn node_successors(c: CompiledView, n: Seq<char>, route: Option<Seq<char>>) -> Result<
    Seq<Seq<char>>,
    StepFailure,
> {
    if c.branches.contains(n) {
        match route {
            Some(rt) => if targets(rt).len() > 0 {
                Ok(targets(rt))
            } else {
                Err(StepFailure::NodeNotFound(rt))
            },
            None => Err(StepFailure::MissingEdge(n)),
        }
    } else {
        match lookup(c.edges, n) {
            Some(t) => if targets(t).len() > 0 {
                Ok(targets(t))
            } else {
                Err(StepFailure::MissingEdge(n))
            },
            None => Err(StepFailure::MissingEdge(n)),
        }
    }
}

/// The nodes of the superstep after `active`, given the route each
/// conditional edge chose; the first failing node, in order, decides the error.
pub open spec fn successors(
    c: CompiledView,
    active: Seq<Seq<char>>,
    routes: Seq<Option<Seq<char>>>,
) -> Result<Seq<Seq<char>>, StepFailure>
    decreases active.len(),
{
    if active.len() == 0 || routes.len() == 0 {
        Ok(Seq::empty())
    } else {
        match successors(c, active.drop_last(), routes.drop_last()) {
            Err(e) => Err(e),
            Ok(acc) => match node_successors(c, active.last(), routes.last()) {
                Err(e) => Err(e),
                Ok(ts) => Ok(merge(acc, ts)),
            },
        }
    }
}

/// A route is given exactly for the active nodes that have a conditional edge.
pub open spec fn routes_fit(
    c: CompiledView,
    active: Seq<Seq<char>>,
    routes: Seq<Option<Seq<char>>>,
) -> bool {
    &&& routes.len() == active.len()
    &&& forall|j: int| 0 <= j < active.len() ==> (routes[j] is Some <==> c.branches.contains(active[j]))
}

/// Every node of the superstep exists.
pub open spec fn step_exists(c: CompiledView, active: Seq<Seq<char>>) -> bool {
    forall|j: int| 0 <= j < active.len() ==> c.nodes.contains(active[j])
}

/// `tr` is the sequence of supersteps of a run so far and `rs` the routes
/// chosen after each completed one: it starts at the entry point, every
/// completed superstep ran existing nodes, did not hold the finish point,
/// and was followed by its successors.
pub open spec fn run_prefix(
    c: CompiledView,
    tr: Seq<Seq<Seq<char>>>,
    rs: Seq<Seq<Option<Seq<char>>>>,
) -> bool {
    &&& tr.len() >= 1
    &&& rs.len() == tr.len() - 1
    &&& tr[0] == start_step(c)
    &&& tr[0].len() > 0
    &&& forall|i: int|
        #![trigger tr[i]]
        0 <= i < tr.len() - 1 ==> {
            &&& step_exists(c, tr[i])
            &&& !tr[i].contains(c.finish)
            &&& routes_fit(c, tr[i], rs[i])
            &&& successors(c, tr[i], rs[i]) == Ok::<Seq<Seq<char>>, StepFailure>(tr[i + 1])
        }
}

/// A run that reached a superstep holding the finish point.
pub open spec fn completed_run(
    c: CompiledView,
    tr: Seq<Seq<Seq<char>>>,
    rs: Seq<Seq<Option<Seq<char>>>>,
) -> bool {
    &&& run_prefix(c, tr, rs)
    &&& step_exists(c, tr.last())
    &&& tr.last().contains(c.finish)
}

/// The views of optional strings.
pub open spec fn route_views(v: Seq<Option<String>>) -> Seq<Option<Seq<char>>> {
    v.map_values(
        |o: Option<String>|
            match o {
                Some(s) => Some(s@),
                None => None,
            },
    )
}

/// The step failure a graph error reports.
pub open spec fn failure_of(e: GraphError) -> StepFailure {
    match e {
        GraphError::MissingEdge(n) => StepFailure::MissingEdge(n@),
        GraphError::NodeNotFound(n) => StepFailure::NodeNotFound(n@),
        _ => StepFailure::NodeNotFound(Seq::empty()),
    }
}

/// Whether `name` is in `v`.
fn holds_name(v: &Vec<String>, name: &String) -> (r: bool)
    ensures
        r == views(v@).contains(name@),
{
    let mut i: usize = 0;
    while i < v.len()
        invariant
            i <= v@.len(),
            forall|j: int| 0 <= j < i ==> views(v@)[j] != name@,
        decreases v@.len() - i,
    {
        if v[i] == *name {
            assert(views(v@)[i as int] == name@);
            return true;
        }
        i = i + 1;
    }
    false
}

/// Appends the names of `ts` that `acc` does not hold yet.
fn merge_into(acc: &mut Vec<String>, ts: &Vec<String>)
    ensures
        views(final(acc)@) == merge(views(old(acc)@), views(ts@)),
{
    let ghost start = views(acc@);
    let ghost vs = views(ts@);
    let mut k: usize = 0;
    assert(vs.take(0) =~= Seq::<Seq<char>>::empty());
    while k < ts.len()
        invariant
            vs == views(ts@),
            k <= ts@.len(),
            views(acc@) == merge(start, vs.take(k as int)),
        decreases ts@.len() - k,
    {
        assert(vs.take(k + 1).drop_last() =~= vs.take(k as int));
        assert(vs.take(k + 1).last() == vs[k as int]);
        if !holds_name(acc, &ts[k]) {
            let ghost before = views(acc@);
            acc.push(ts[k].clone());
            assert(views(acc@) =~= before.push(vs[k as int]));
        }
        k = k + 1;
    }
    assert(vs.take(k as int) =~= vs);
}

impl<T> CompiledGraph<T> {
    /// The nodes of the first superstep: those the entry point lists, each once.
    pub fn start_nodes(&self) -> (r: Vec<String>)
        ensures
            views(r@) == start_step(self@),
    {
        let ts = parse_targets(self.entry_point.as_str());
        let mut acc: Vec<String> = Vec::new();
        assert(views(acc@) =~= Seq::<Seq<char>>::empty());
        merge_into(&mut acc, &ts);
        acc
    }

    /// Where `name` leads, given the route its conditional edge chose.
    fn next_of(&self, name: &String, route: &Option<String>) -> (r: Result<Vec<String>, GraphError>)
        requires
            self.wf(),
        ensures
            match r {
                Ok(v) => node_successors(self@, name@, route_views(seq![*route])[0]) == Ok::<
                    Seq<Seq<char>>,
                    StepFailure,
                >(views(v@)),
                Err(e) => (e is NodeNotFound || e is MissingEdge) && node_successors(self@, name@, route_views(seq![*route])[0]) == Err::<
                    Seq<Seq<char>>,
                    StepFailure,
                >(failure_of(e),
                ),
            },
    {
        let ghost rv = route_views(seq![*route])[0];
        match find_branch(&self.conditional_edges, name) {
            Some(_) => {
                assert(self@.branches.contains(name@));
                match route {
                    Some(rt) => {
                        let ts = parse_targets(rt.as_str());
                        if ts.len() > 0 {
                            Ok(ts)
                        } else {
                            Err(GraphError::NodeNotFound(rt.clone()))
                        }
                    },
                    None => Err(GraphError::MissingEdge(name.clone())),
                }
            },
            None => {
                proof {
                    lemma_key_index(self@.edges, name@);
                }
                match find_edge(&self.edges, name) {
                    Some(i) => {
                        proof {
                            assert(key_index(self@.edges, name@) == i as int);
                        }
                        let ts = parse_targets(self.edges[i].1.as_str());
                        if ts.len() > 0 {
                            Ok(ts)
                        } else {
                            Err(GraphError::MissingEdge(name.clone()))
                        }
                    },
                    None => Err(GraphError::MissingEdge(name.clone())),
                }
            },
        }
    }

    /// The nodes of the superstep after `active`, given the routes chosen by
    /// the conditional edges of the active nodes.
    pub fn successors(&self, active: &Vec<String>, routes: &Vec<Option<String>>) -> (r: Result<
        Vec<String>,
        GraphError,
    >)
        requires
            self.wf(),
            routes@.len() == active@.len(),
        ensures
            match r {
                Ok(v) => successors(self@, views(active@), route_views(routes@)) == Ok::<
                    Seq<Seq<char>>,
                    StepFailure,
                >(views(v@)),
                Err(e) => (e is NodeNotFound || e is MissingEdge) && successors(self@, views(active@), route_views(routes@)) == Err::<
                    Seq<Seq<char>>,
                    StepFailure,
                >(failure_of(e),
                ),
            },
    {
        let ghost av = views(active@);
        let ghost rv = route_views(routes@);
        let mut acc: Vec<String> = Vec::new();
        let mut j: usize = 0;
        assert(views(acc@) =~= Seq::<Seq<char>>::empty());
        while j < active.len()
            invariant
                self.wf(),
                av == views(active@),
                rv == route_views(routes@),
                routes@.len() == active@.len(),
                j <= active@.len(),
                successors(self@, av.take(j as int), rv.take(j as int)) == Ok::<Seq<Seq<char>>, StepFailure>(views(acc@)),
            decreases active@.len() - j,
        {
            proof {
                assert(av.take(j + 1).drop_last() =~= av.take(j as int));
                assert(rv.take(j + 1).drop_last() =~= rv.take(j as int));
                assert(av.take(j + 1).last() == av[j as int]);
                assert(rv.take(j + 1).last() == rv[j as int]);
                assert(route_views(seq![routes@[j as int]])[0] == rv[j as int]);
            }
            match self.next_of(&active[j], &routes[j]) {
                Err(e) => {
                    proof {
                        lemma_successors_prefix(self@, av, rv, j + 1);
                    }
                    return Err(e);
                },
                Ok(ts) => {
                    merge_into(&mut acc, &ts);
                },
            }
            j = j + 1;
        }
        assert(av.take(j as int) =~= av);
        assert(rv.take(j as int) =~= rv);
        Ok(acc)
    }
}

/// Merging keeps what was there, adds each new name once, and keeps a list
/// without repeats free of them.
pub proof fn lemma_merge(acc: Seq<Seq<char>>, ts: Seq<Seq<char>>)
    ensures
        unique(acc) ==> unique(merge(acc, ts)),
        forall|x: Seq<char>|
            #[trigger] merge(acc, ts).contains(x) <==> (acc.contains(x) || ts.contains(x)),
    decreases ts.len(),
{
    if ts.len() > 0 {
        lemma_merge(acc, ts.drop_last());
        let a = merge(acc, ts.drop_last());
        assert forall|x: Seq<char>| #[trigger] merge(acc, ts).contains(x) <==> (acc.contains(x)
            || ts.contains(x)) by {
            if ts.contains(x) && !ts.drop_last().contains(x) {
                let i = choose|i: int| 0 <= i < ts.len() && ts[i] == x;
                if i < ts.len() - 1 {
                    assert(ts.drop_last()[i] == x);
                }
                assert(x == ts.last());
            }
            if ts.drop_last().contains(x) {
                let i = choose|i: int| 0 <= i < ts.drop_last().len() && ts.drop_last()[i] == x;
                assert(ts[i] == x);
            }
            if !a.contains(ts.last()) {
                assert(a.push(ts.last())[a.len() as int] == ts.last());
                if a.contains(x) {
                    let i = choose|i: int| 0 <= i < a.len() && a[i] == x;
                    assert(a.push(ts.last())[i] == x);
                }
                if a.push(ts.last()).contains(x) {
                    let i = choose|i: int| 0 <= i < a.len() + 1 && a.push(ts.last())[i] == x;
                    if i < a.len() {
                        assert(a[i] == x);
                    }
                }
            }
            assert(ts[ts.len() - 1] == ts.last());
        }
    }
}

/// A superstep never holds a node twice: a node that several nodes of the
/// previous superstep lead to (a join) runs once.
pub proof fn law_successors_unique(
    c: CompiledView,
    active: Seq<Seq<char>>,
    routes: Seq<Option<Seq<char>>>,
)
    ensures
        successors(c, active, routes) matches Ok(next) ==> unique(next),
    decreases active.len(),
{
    if active.len() > 0 && routes.len() > 0 {
        law_successors_unique(c, active.drop_last(), routes.drop_last());
        match successors(c, active.drop_last(), routes.drop_last()) {
            Ok(acc) => match node_successors(c, active.last(), routes.last()) {
                Ok(ts) => {
                    lemma_merge(acc, ts);
                },
                Err(_) => {},
            },
            Err(_) => {},
        }
    }
}

/// A node without a conditional edge whose edge lists clean names fans out
/// to exactly those names, in order.
pub proof fn law_fan_out(c: CompiledView, n: Seq<char>, ts: Seq<Seq<char>>)
    requires
        !c.branches.contains(n),
        lookup(c.edges, n) == Some(join_names(ts)),
        ts.len() > 0,
        forall|i: int| 0 <= i < ts.len() ==> clean_name(#[trigger] ts[i]),
    ensures
        node_successors(c, n, None) == Ok::<Seq<Seq<char>>, StepFailure>(ts),
{
    law_parallel_targets(ts);
}

/// Merging names without repeats into nothing gives the names, in order.
pub proof fn lemma_merge_unique(ts: Seq<Seq<char>>)
    requires
        unique(ts),
    ensures
        merge(Seq::empty(), ts) == ts,
    decreases ts.len(),
{
    if ts.len() > 0 {
        let init = ts.drop_last();
        assert(unique(init)) by {
            assert forall|i: int, j: int|
                0 <= i < init.len() && 0 <= j < init.len() && i != j implies init[i] != init[j] by {
                assert(init[i] == ts[i]);
                assert(init[j] == ts[j]);
            }
        }
        lemma_merge_unique(init);
        if init.contains(ts.last()) {
            let i = choose|i: int| 0 <= i < init.len() && init[i] == ts.last();
            assert(ts[i] == ts[ts.len() - 1]);
        }
        assert(init.push(ts.last()) =~= ts);
    }
}

/// An entry point that lists clean names, none twice, starts the run with
/// exactly those nodes, in order.
pub proof fn law_parallel_entry(c: CompiledView, ts: Seq<Seq<char>>)
    requires
        c.entry == join_names(ts),
        forall|i: int| 0 <= i < ts.len() ==> clean_name(#[trigger] ts[i]),
        unique(ts),
    ensures
        start_step(c) == ts,
{
    law_parallel_targets(ts);
    lemma_merge_unique(ts);
}

/// A conditional edge takes priority over an edge from the same node: the
/// node leads where the branch function's answer says.
pub proof fn law_conditional_priority(c: CompiledView, n: Seq<char>, route: Seq<char>)
    requires
        c.branches.contains(n),
        targets(route).len() > 0,
    ensures
        node_successors(c, n, Some(route)) == Ok::<Seq<Seq<char>>, StepFailure>(targets(route)),
{
}

pub proof fn lemma_successors_prefix(
    c: CompiledView,
    active: Seq<Seq<char>>,
    routes: Seq<Option<Seq<char>>>,
    k: int,
)
    requires
        0 <= k <= active.len(),
        routes.len() == active.len(),
        successors(c, active.take(k), routes.take(k)) is Err,
    ensures
        successors(c, active, routes) == successors(c, active.take(k), routes.take(k)),
    decreases active.len() - k,
{
    if k < active.len() {
        assert(active.take(k + 1).drop_last() =~= active.take(k));
        assert(routes.take(k + 1).drop_last() =~= routes.take(k));
        lemma_successors_prefix(c, active, routes, k + 1);
    } else {
        assert(active.take(k) =~= active);
        assert(routes.take(k) =~= routes);
    }
}

} // verus!

verus! {

/// After the run so far, the superstep it reached ran and the next one
/// cannot be formed with the routes `last`, for the reason `f`.
pub open spec fn stuck_after(
    c: CompiledView,
    tr: Seq<Seq<Seq<char>>>,
    rs: Seq<Seq<Option<Seq<char>>>>,
    last: Seq<Option<Seq<char>>>,
    f: StepFailure,
) -> bool {
    &&& run_prefix(c, tr, rs)
    &&& step_exists(c, tr.last())
    &&& !tr.last().contains(c.finish)
    &&& routes_fit(c, tr.last(), last)
    &&& successors(c, tr.last(), last) == Err::<Seq<Seq<char>>, StepFailure>(f)
}

/// Some run reaches the finish point.
pub open spec fn reaches_finish(c: CompiledView) -> bool {
    exists|tr: Seq<Seq<Seq<char>>>, rs: Seq<Seq<Option<Seq<char>>>>| completed_run(c, tr, rs)
}

/// Some run reaches a superstep that names `x`, which is no node.
pub open spec fn reaches_unknown(c: CompiledView, x: Seq<char>) -> bool {
    exists|tr: Seq<Seq<Seq<char>>>, rs: Seq<Seq<Option<Seq<char>>>>|
        run_prefix(c, tr, rs) && tr.last().contains(x) && !c.nodes.contains(x)
}

/// Some run gets stuck after a superstep for the reason `f`.
pub open spec fn gets_stuck(c: CompiledView, f: StepFailure) -> bool {
    exists|
        tr: Seq<Seq<Seq<char>>>,
        rs: Seq<Seq<Option<Seq<char>>>>,
        last: Seq<Option<Seq<char>>>,
    | stuck_after(c, tr, rs, last, f)
}

/// Some run is under way.
pub open spec fn runs(c: CompiledView) -> bool {
    exists|tr: Seq<Seq<Seq<char>>>, rs: Seq<Seq<Option<Seq<char>>>>| run_prefix(c, tr, rs)
}

/// What `invoke` may answer: `Ok` only after a run reached the finish point;
/// each error only where a run meets that error.
pub open spec fn invoke_outcome<T>(c: CompiledView, r: Result<T, GraphError>) -> bool {
    match r {
        Ok(_) => reaches_finish(c),
        Err(GraphError::NodeNotFound(x)) => {
            ||| (start_step(c).len() == 0 && x@ == c.entry)
            ||| reaches_unknown(c, x@)
            ||| gets_stuck(c, StepFailure::NodeNotFound(x@))
        },
        Err(GraphError::MissingEdge(x)) => gets_stuck(c, StepFailure::MissingEdge(x@)),
        Err(GraphError::ExecutionError(_)) => runs(c),
        Err(GraphError::SuperstepLimit) => exists|
            tr: Seq<Seq<Seq<char>>>,
            rs: Seq<Seq<Option<Seq<char>>>>,
        | run_prefix(c, tr, rs) && tr.len() > usize::MAX,
        Err(_) => false,
    }
}

/// The nodes of the supersteps `tr`, one superstep after another: the order
/// in which a run calls their functions.
pub open spec fn flat(tr: Seq<Seq<Seq<char>>>) -> Seq<Seq<char>>
    decreases tr.len(),
{
    if tr.len() == 0 {
        Seq::empty()
    } else {
        flat(tr.drop_last()) + tr.last()
    }
}

/// The entry of `nodes` at `i` holds the function of its node.
proof fn lemma_node_at<T>(nodes: Seq<NodeEntry<T>>, i: int)
    requires
        unique(names_of(nodes)),
        0 <= i < nodes.len(),
    ensures
        find(node_table(nodes), nodes[i].name@) == Some(nodes[i].function),
{
    let t = node_table(nodes);
    assert(keys(t) =~= names_of(nodes));
    lemma_pos(t, nodes[i].name@);
    assert(t[i].0 == nodes[i].name@);
}

/// The entry of `branches` at `i` holds the function of its conditional edge.
proof fn lemma_branch_at<T>(branches: Seq<BranchEntry<T>>, i: int)
    requires
        unique(sources_of(branches)),
        0 <= i < branches.len(),
    ensures
        find(branch_table(branches), branches[i].source@) == Some(branches[i].function),
{
    let t = branch_table(branches);
    assert(keys(t) =~= sources_of(branches));
    lemma_pos(t, branches[i].source@);
    assert(t[i].0 == branches[i].source@);
}

impl<T> CompiledGraph<T> {
    /// The function of node `n`.
    pub open spec fn fn_of(&self, n: Seq<char>) -> Arc<Box<dyn NodeFunction<T>>> {
        find(self.node_fns(), n)->0
    }

    /// The branch function of the conditional edge leaving `n`.
    pub open spec fn branch_of(&self, n: Seq<char>) -> Arc<Box<dyn BranchFunction<T>>> {
        find(self.branch_fns(), n)->0
    }

    /// The function of node `n` was called on `state` and may return `Ok`
    /// (where `ok`) or an error (where not).
    pub open spec fn called_to(&self, n: Seq<char>, state: T, ok: bool) -> bool {
        exists|m: &mut T, r: Result<(), core::fmt::Error>|
            #![trigger self.fn_of(n).runs_to(m, r)]
            *m == state && r is Ok == ok && self.fn_of(n).runs_to(m, r)
    }

    /// Every route `routes[k]` chosen after the nodes `ns` ran is an answer of
    /// the branch function of `ns[k]` for the state `st`.
    pub open spec fn answers_all(
        &self,
        ns: Seq<Seq<char>>,
        routes: Seq<Option<Seq<char>>>,
        st: T,
    ) -> bool {
        forall|k: int|
            #![trigger routes[k]]
            0 <= k < routes.len() && routes[k] is Some ==> exists|o: String|
                o@ == routes[k]->0 && #[trigger] self.branch_of(ns[k]).answers(st, o)
    }

    /// Every route chosen after superstep `i` of `tr` is an answer of the
    /// branch function of its node for the state `ss` held then (after the
    /// superstep's nodes ran).
    pub open spec fn routes_chosen(
        &self,
        tr: Seq<Seq<Seq<char>>>,
        rs: Seq<Seq<Option<Seq<char>>>>,
        ss: Seq<T>,
    ) -> bool {
        forall|i: int, j: int|
            #![trigger rs[i][j]]
            0 <= i < rs.len() && 0 <= j < rs[i].len() && rs[i][j] is Some ==> exists|o: String|
                o@ == rs[i][j]->0 && #[trigger] self.branch_of(tr[i][j]).answers(
                    ss[flat(tr.take(i + 1)).len() as int],
                    o,
                )
    }
}

/// Of a run's supersteps `tr`, the first `flat(tr.take(a))` nodes come
/// first in `flat(tr)`.
proof fn lemma_flat_prefix(tr: Seq<Seq<Seq<char>>>, a: int)
    requires
        0 <= a <= tr.len(),
    ensures
        flat(tr.take(a)).len() <= flat(tr).len(),
        forall|k: int| 0 <= k < flat(tr.take(a)).len() ==> flat(tr.take(a))[k] == flat(tr)[k],
    decreases tr.len() - a,
{
    if a < tr.len() {
        lemma_flat_prefix(tr, a + 1);
        assert(tr.take(a + 1).drop_last() =~= tr.take(a));
    } else {
        assert(tr.take(a) =~= tr);
    }
}

impl<T> CompiledGraph<T> {
    /// Routes chosen for completed supersteps keep their states when the
    /// chain grows.
    proof fn lemma_routes_push(
        &self,
        tr: Seq<Seq<Seq<char>>>,
        rs: Seq<Seq<Option<Seq<char>>>>,
        ss: Seq<T>,
        x: T,
    )
        requires
            rs.len() < tr.len(),
            flat(tr.drop_last()).len() < ss.len(),
            self.routes_chosen(tr, rs, ss),
        ensures
            self.routes_chosen(tr, rs, ss.push(x)),
    {
        let grown = ss.push(x);
        assert forall|a: int, b: int|
            #![trigger rs[a][b]]
            0 <= a < rs.len() && 0 <= b < rs[a].len() && rs[a][b] is Some implies exists|o: String|
                o@ == rs[a][b]->0 && #[trigger] self.branch_of(tr[a][b]).answers(
                    grown[flat(tr.take(a + 1)).len() as int],
                    o,
                ) by {
            lemma_flat_prefix(tr.drop_last(), a + 1);
            assert(tr.drop_last().take(a + 1) =~= tr.take(a + 1));
            assert(grown[flat(tr.take(a + 1)).len() as int] == ss[flat(tr.take(a + 1)).len() as int]);
        }
    }

    /// The routes chosen after the last superstep, on the state it left,
    /// join the routes of the run.
    proof fn lemma_routes_next(
        &self,
        tr: Seq<Seq<Seq<char>>>,
        rs: Seq<Seq<Option<Seq<char>>>>,
        ss: Seq<T>,
        routes: Seq<Option<String>>,
        next: Seq<Seq<char>>,
    )
        requires
            tr.len() >= 1,
            rs.len() == tr.len() - 1,
            ss.len() == flat(tr).len() + 1,
            self.routes_chosen(tr, rs, ss),
            routes.len() == tr.last().len(),
            forall|k: int|
                #![trigger routes[k]]
                0 <= k < routes.len() && routes[k] is Some ==> self.branch_of(tr.last()[k]).answers(
                    ss.last(),
                    routes[k]->0,
                ),
        ensures
            self.routes_chosen(tr.push(next), rs.push(route_views(routes)), ss),
    {
        let ntr = tr.push(next);
        let nrs = rs.push(route_views(routes));
        assert forall|a: int, b: int|
            #![trigger nrs[a][b]]
            0 <= a < nrs.len() && 0 <= b < nrs[a].len() && nrs[a][b] is Some implies exists|
                o: String,
            |
                o@ == nrs[a][b]->0 && #[trigger] self.branch_of(ntr[a][b]).answers(
                    ss[flat(ntr.take(a + 1)).len() as int],
                    o,
                ) by {
            assert(ntr.take(a + 1) =~= tr.take(a + 1));
            if a < rs.len() {
                assert(nrs[a] == rs[a]);
                assert(ntr[a] == tr[a]);
            } else {
                assert(tr.take(a + 1) =~= tr);
                assert(nrs[a] == route_views(routes));
                assert(ntr[a] == tr.last());
                assert(route_views(routes)[b] == Some(routes[b]->0@));
                assert(self.branch_of(tr.last()[b]).answers(ss.last(), routes[b]->0));
            }
        }
    }

    /// The node of every name of `active`, by index, or the first name that
    /// names no node.
    fn resolve(&self, active: &Vec<String>) -> (r: Result<Vec<usize>, String>)
        requires
            self.wf(),
        ensures
            match r {
                Ok(found) => {
                    &&& found@.len() == active@.len()
                    &&& step_exists(self@, views(active@))
                    &&& forall|k: int|
                        #![trigger found@[k]]
                        0 <= k < found@.len() ==> found@[k] < self.nodes@.len() && names_of(
                            self.nodes@,
                        )[found@[k] as int] == views(active@)[k]
                },
                Err(x) => views(active@).contains(x@) && !self@.nodes.contains(x@),
            },
    {
        let ghost av = views(active@);
        let mut found: Vec<usize> = Vec::new();
        let mut j: usize = 0;
        while j < active.len()
            invariant
                self.wf(),
                av == views(active@),
                j <= active@.len(),
                found@.len() == j,
                forall|k: int|
                    #![trigger found@[k]]
                    0 <= k < j ==> found@[k] < self.nodes@.len() && names_of(self.nodes@)[found@[k] as int]
                        == av[k],
            decreases active@.len() - j,
        {
            match find_node(&self.nodes, &active[j]) {
                None => {
                    proof {
                        assert(av[j as int] == active@[j as int]@);
                    }
                    return Err(active[j].clone());
                },
                Some(i) => {
                    let ghost before = found@;
                    found.push(i);
                    proof {
                        assert(av[j as int] == active@[j as int]@);
                        assert forall|k: int| 0 <= k < j + 1 implies found@[k] < self.nodes@.len()
                            && names_of(self.nodes@)[found@[k] as int] == av[k] by {
                            if k < j {
                                assert(found@[k] == before[k]);
                            }
                        }
                    }
                },
            }
            j = j + 1;
        }
        assert(step_exists(self@, av)) by {
            assert forall|k: int| 0 <= k < av.len() implies self@.nodes.contains(av[k]) by {
                assert(self@.nodes[found@[k] as int] == av[k]);
            }
        }
        Ok(found)
    }

    /// The route each conditional edge of `active` chooses for `st`.
    fn choose_routes(&self, active: &Vec<String>, st: &T) -> (routes: Vec<Option<String>>)
        requires
            self.wf(),
        ensures
            routes_fit(self@, views(active@), route_views(routes@)),
            forall|k: int|
                #![trigger routes@[k]]
                0 <= k < routes@.len() && routes@[k] is Some ==> self.branch_of(
                    views(active@)[k],
                ).answers(*st, routes@[k]->0),
    {
        let ghost av = views(active@);
        let mut routes: Vec<Option<String>> = Vec::new();
        let mut j: usize = 0;
        while j < active.len()
            invariant
                self.wf(),
                av == views(active@),
                j <= active@.len(),
                routes@.len() == j,
                forall|k: int|
                    0 <= k < j ==> (route_views(routes@)[k] is Some <==> self@.branches.contains(av[k])),
                forall|k: int|
                    #![trigger routes@[k]]
                    0 <= k < j && routes@[k] is Some ==> self.branch_of(av[k]).answers(
                        *st,
                        routes@[k]->0,
                    ),
            decreases active@.len() - j,
        {
            match find_branch(&self.conditional_edges, &active[j]) {
                Some(b) => {
                    proof {
                        lemma_branch_at(self.conditional_edges@, b as int);
                        assert(self@.branches[b as int] == av[j as int]);
                        assert(av[j as int] == active@[j as int]@);
                    }
                    let chosen = self.conditional_edges[b].function.branch(st);
                    let ghost before = routes@;
                    routes.push(Some(chosen));
                    proof {
                        assert forall|k: int|
                            #![trigger routes@[k]]
                            0 <= k < j + 1 && routes@[k] is Some implies self.branch_of(av[k]).answers(
                                *st,
                                routes@[k]->0,
                            ) by {
                            if k < j {
                                assert(routes@[k] == before[k]);
                            }
                        }
                    }
                },
                None => {
                    let ghost before = routes@;
                    routes.push(None);
                    proof {
                        assert forall|k: int|
                            #![trigger routes@[k]]
                            0 <= k < j + 1 && routes@[k] is Some implies self.branch_of(av[k]).answers(
                                *st,
                                routes@[k]->0,
                            ) by {
                            assert(routes@[k] == before[k]);
                        }
                    }
                },
            }
            j = j + 1;
        }
        routes
    }

    #[verifier::rlimit(60)]
    #[verifier::spinoff_prover]
    /// Runs the graph on `*st` in supersteps, leaving the state the run ends
    /// with in `*st`; see `invoke`.
    pub fn run_in_place(&self, st: &mut T) -> (r: Result<(), GraphError>)
        requires
            self.wf(),
        ensures
            invoke_outcome(self@, r),
            r matches Ok(_) ==> exists|
                tr: Seq<Seq<Seq<char>>>,
                rs: Seq<Seq<Option<Seq<char>>>>,
                ss: Seq<T>,
                ns: Seq<Seq<char>>,
            |
                #![trigger completed_run(self@, tr, rs), self.routes_chosen(tr, rs, ss), ns.len()]
                {
                    &&& ns.len() + 1 == ss.len()
                    &&& forall|k: int| 0 <= k < ns.len() ==> ns[k] == #[trigger] flat(tr)[k]
                    &&& completed_run(self@, tr, rs)
                    &&& self.routes_chosen(tr, rs, ss)
                    &&& forall|k: int|
                        #![trigger ss[k], ns[k]]
                        0 <= k < ss.len() - 1 ==> self.called_to(ns[k], ss[k], true) && exists|m: &mut T, q: Result<(), core::fmt::Error>|
                            #![trigger self.fn_of(ns[k]).runs_to(m, q)]
                            *m == ss[k] && *final(m) == ss[k + 1] && q is Ok && self.fn_of(ns[k]).runs_to(m, q)
                    &&& ss.len() == flat(tr).len() + 1
                    &&& ss[0] == *old(st)
                    &&& ss.last() == *final(st)
                },
            r matches Err(GraphError::ExecutionError(_)) ==> exists|
                tr: Seq<Seq<Seq<char>>>,
                rs: Seq<Seq<Option<Seq<char>>>>,
                ss: Seq<T>,
                ns: Seq<Seq<char>>,
            |
                #![trigger run_prefix(self@, tr, rs), self.routes_chosen(tr, rs, ss), ns.len()]
                {
                    &&& ns.len() + 1 == ss.len()
                    &&& forall|k: int| 0 <= k < ns.len() ==> ns[k] == #[trigger] flat(tr)[k]
                    &&& run_prefix(self@, tr, rs)
                    &&& step_exists(self@, tr.last())
                    &&& self.routes_chosen(tr, rs, ss)
                    &&& forall|k: int|
                        #![trigger ss[k], ns[k]]
                        0 <= k < ss.len() - 1 ==> self.called_to(ns[k], ss[k], true) && exists|m: &mut T, q: Result<(), core::fmt::Error>|
                            #![trigger self.fn_of(ns[k]).runs_to(m, q)]
                            *m == ss[k] && *final(m) == ss[k + 1] && q is Ok && self.fn_of(ns[k]).runs_to(m, q)
                    &&& flat(tr.drop_last()).len() < ss.len() <= flat(tr).len()
                    &&& ss[0] == *old(st)
                    &&& self.called_to(flat(tr)[ss.len() - 1], ss.last(), false)
                },
            r matches Err(GraphError::NodeNotFound(x)) ==> start_step(self@).len() == 0 || exists|
                tr: Seq<Seq<Seq<char>>>,
                rs: Seq<Seq<Option<Seq<char>>>>,
                ss: Seq<T>,
                last: Seq<Option<Seq<char>>>,
                ns: Seq<Seq<char>>,
            |
                #![trigger run_prefix(self@, tr, rs), self.routes_chosen(tr, rs, ss), last.len(), ns.len()]
                {
                    &&& ns.len() + 1 == ss.len()
                    &&& forall|k: int| 0 <= k < ns.len() ==> ns[k] == #[trigger] flat(tr)[k]
                    &&& run_prefix(self@, tr, rs)
                    &&& self.routes_chosen(tr, rs, ss)
                    &&& forall|k: int|
                        #![trigger ss[k], ns[k]]
                        0 <= k < ss.len() - 1 ==> self.called_to(ns[k], ss[k], true) && exists|m: &mut T, q: Result<(), core::fmt::Error>|
                            #![trigger self.fn_of(ns[k]).runs_to(m, q)]
                            *m == ss[k] && *final(m) == ss[k + 1] && q is Ok && self.fn_of(ns[k]).runs_to(m, q)
                    &&& ss[0] == *old(st)
                    &&& {
                        ||| (ss.len() == flat(tr.drop_last()).len() + 1 && tr.last().contains(x@)
                            && !self@.nodes.contains(x@))
                        ||| (ss.len() == flat(tr).len() + 1 && stuck_after(
                            self@,
                            tr,
                            rs,
                            last,
                            StepFailure::NodeNotFound(x@),
                        ) && self.answers_all(tr.last(), last, ss.last()))
                    }
                },
            r matches Err(GraphError::MissingEdge(x)) ==> exists|
                tr: Seq<Seq<Seq<char>>>,
                rs: Seq<Seq<Option<Seq<char>>>>,
                ss: Seq<T>,
                last: Seq<Option<Seq<char>>>,
                ns: Seq<Seq<char>>,
            |
                #![trigger run_prefix(self@, tr, rs), self.routes_chosen(tr, rs, ss), last.len(), ns.len()]
                {
                    &&& ns.len() + 1 == ss.len()
                    &&& forall|k: int| 0 <= k < ns.len() ==> ns[k] == #[trigger] flat(tr)[k]
                    &&& run_prefix(self@, tr, rs)
                    &&& self.routes_chosen(tr, rs, ss)
                    &&& forall|k: int|
                        #![trigger ss[k], ns[k]]
                        0 <= k < ss.len() - 1 ==> self.called_to(ns[k], ss[k], true) && exists|m: &mut T, q: Result<(), core::fmt::Error>|
                            #![trigger self.fn_of(ns[k]).runs_to(m, q)]
                            *m == ss[k] && *final(m) == ss[k + 1] && q is Ok && self.fn_of(ns[k]).runs_to(m, q)
                    &&& ss[0] == *old(st)
                    &&& ss.len() == flat(tr).len() + 1
                    &&& stuck_after(self@, tr, rs, last, StepFailure::MissingEdge(x@))
                    &&& self.answers_all(tr.last(), last, ss.last())
                },
    {
        let ghost s0 = *st;
        let mut active = self.start_nodes();
        if active.len() == 0 {
            return Err(GraphError::NodeNotFound(self.entry_point.clone()));
        }
        let ghost mut tr: Seq<Seq<Seq<char>>> = seq![views(active@)];
        let ghost mut rs: Seq<Seq<Option<Seq<char>>>> = Seq::empty();
        let ghost mut ss: Seq<T> = seq![s0];
        let ghost mut ns: Seq<Seq<char>> = Seq::empty();
        proof {
            assert(tr.drop_last() =~= Seq::<Seq<Seq<char>>>::empty());
            assert(flat(tr.drop_last()) =~= Seq::<Seq<char>>::empty());
            assert(flat(tr) == flat(tr.drop_last()) + tr.last());
        }
        let mut found: Vec<usize> = match self.resolve(&active) {
            Err(x) => {
                proof {
                    assert(run_prefix(self@, tr, rs) && tr.last().contains(x@)
                        && !self@.nodes.contains(x@));
                    let none: Seq<Option<Seq<char>>> = Seq::empty();
                    assert(none.len() == 0);
                    assert(ss.len() == flat(tr.drop_last()).len() + 1);
                    assert(ss[0] == *old(st));
                    assert(ns.len() + 1 == ss.len());
                    assert(self.routes_chosen(tr, rs, ss));
                }
                return Err(GraphError::NodeNotFound(x));
            },
            Ok(f) => f,
        };
        let mut j: usize = 0;
        let mut fuel: usize = usize::MAX;
        loop
            invariant
                self.wf(),
                run_prefix(self@, tr, rs),
                tr.last() == views(active@),
                flat(tr) == flat(tr.drop_last()) + tr.last(),
                tr.len() + fuel == usize::MAX + 1,
                ss.len() == flat(tr.drop_last()).len() + 1 + j,
                ss[0] == s0,
                s0 == *old(st),
                ss.last() == *st,
                ns.len() + 1 == ss.len(),
                forall|k: int| 0 <= k < ns.len() ==> ns[k] == #[trigger] flat(tr)[k],
                self.routes_chosen(tr, rs, ss),
                forall|k: int|
                    #![trigger ss[k], ns[k]]
                    0 <= k < ss.len() - 1 ==> self.called_to(ns[k], ss[k], true) && exists|m: &mut T, q: Result<(), core::fmt::Error>|
                        #![trigger self.fn_of(ns[k]).runs_to(m, q)]
                        *m == ss[k] && *final(m) == ss[k + 1] && q is Ok && self.fn_of(ns[k]).runs_to(m, q),
                step_exists(self@, tr.last()),
                found@.len() == tr.last().len(),
                j <= found@.len(),
                forall|k: int|
                    #![trigger found@[k]]
                    0 <= k < found@.len() ==> found@[k] < self.nodes@.len() && names_of(
                        self.nodes@,
                    )[found@[k] as int] == tr.last()[k],
            decreases fuel, found@.len() - j,
        {
            if j < found.len() {
                let i = found[j];
                let ghost before = *st;
                let ghost base = flat(tr.drop_last()).len();
                let ghost f = self.nodes@[i as int].function;
                proof {
                    lemma_node_at(self.nodes@, i as int);
                    assert(self.nodes@[i as int].name@ == tr.last()[j as int]);
                    assert(flat(tr)[base + j] == tr.last()[j as int]);
                    assert(self.fn_of(flat(tr)[base + j]) == f);
                }
                let res = self.nodes[i].function.run(st);
                match res {
                    Err(e) => {
                        proof {
                            assert(ss.last() == before);
                            assert(self.called_to(flat(tr)[ss.len() - 1], ss.last(), false));
                            assert(flat(tr.drop_last()).len() < ss.len() <= flat(tr).len());
                        }
                        assert(forall|k: int|
                            #![trigger ss[k], ns[k]]
                            0 <= k < ss.len() - 1 ==> self.called_to(ns[k], ss[k], true));
                        return Err(GraphError::from_fmt_error(e));
                    },
                    Ok(()) => {},
                }
                let ghost old_ss = ss;
                let ghost old_ns = ns;
                proof {
                    self.lemma_routes_push(tr, rs, ss, *st);
                    ss = ss.push(*st);
                    ns = ns.push(flat(tr)[base + j]);
                }
                assert(ss[old_ss.len() - 1] == before);
                assert(ns[old_ns.len() as int] == flat(tr)[base + j]);
                assert(self.called_to(ns[old_ns.len() as int], ss[old_ss.len() - 1], true));
                assert forall|k: int| 0 <= k < ns.len() implies ns[k] == #[trigger] flat(tr)[k] by {
                    if k < old_ns.len() {
                        assert(ns[k] == old_ns[k]);
                    }
                }
                assert forall|k: int|
                    #![trigger ss[k], ns[k]]
                    0 <= k < ss.len() - 1 implies self.called_to(ns[k], ss[k], true) && exists|m: &mut T, q: Result<(), core::fmt::Error>|
                        #![trigger self.fn_of(ns[k]).runs_to(m, q)]
                        *m == ss[k] && *final(m) == ss[k + 1] && q is Ok && self.fn_of(ns[k]).runs_to(m, q) by {
                    if k < old_ss.len() - 1 {
                        assert(ss[k] == old_ss[k]);
                        assert(ss[k + 1] == old_ss[k + 1]);
                        assert(ns[k] == old_ns[k]);
                        assert(old_ss[k] == old_ss[k]);
                        assert(old_ns[k] == old_ns[k]);
                    }
                }
                j = j + 1;
            } else {
                proof {
                    assert(ss.len() == flat(tr).len() + 1);
                }
                if holds_name(&active, &self.finish_point) {
                    proof {
                        assert(completed_run(self@, tr, rs));
                    }
                    assert(forall|k: int|
                        #![trigger ss[k], ns[k]]
                        0 <= k < ss.len() - 1 ==> self.called_to(ns[k], ss[k], true));
                    return Ok(());
                }
                let routes = self.choose_routes(&active, st);
                let ghost rv = route_views(routes@);
                let ghost av = tr.last();
                match self.successors(&active, &routes) {
                    Err(e) => {
                        proof {
                            assert(stuck_after(self@, tr, rs, rv, failure_of(e)));
                            assert forall|k: int|
                                #![trigger rv[k]]
                                0 <= k < rv.len() && rv[k] is Some implies exists|o: String|
                                    o@ == rv[k]->0 && #[trigger] self.branch_of(av[k]).answers(*st, o) by {
                                assert(rv[k] == Some(routes@[k]->0@));
                                assert(self.branch_of(av[k]).answers(*st, routes@[k]->0));
                            }
                            assert(self.answers_all(tr.last(), rv, ss.last()));
                        }
                        assert(forall|k: int|
                            #![trigger ss[k], ns[k]]
                            0 <= k < ss.len() - 1 ==> self.called_to(ns[k], ss[k], true));
                        return Err(e);
                    },
                    Ok(next) => {
                        let ghost old_tr = tr;
                        proof {
                            let ntr = tr.push(views(next@));
                            let nrs = rs.push(rv);
                            assert forall|i: int|
                                #![trigger ntr[i]]
                                0 <= i < ntr.len() - 1 implies {
                                &&& step_exists(self@, ntr[i])
                                &&& !ntr[i].contains(self@.finish)
                                &&& routes_fit(self@, ntr[i], nrs[i])
                                &&& successors(self@, ntr[i], nrs[i]) == Ok::<
                                    Seq<Seq<char>>,
                                    StepFailure,
                                >(ntr[i + 1])
                            } by {
                                if i < tr.len() - 1 {
                                    assert(ntr[i] == tr[i]);
                                    assert(nrs[i] == rs[i]);
                                    assert(ntr[i + 1] == tr[i + 1]);
                                }
                            }
                            assert forall|k: int|
                                #![trigger routes@[k]]
                                0 <= k < routes@.len() && routes@[k] is Some implies self.branch_of(
                                    tr.last()[k],
                                ).answers(ss.last(), routes@[k]->0) by {}
                            self.lemma_routes_next(tr, rs, ss, routes@, views(next@));
                            assert(ntr.drop_last() =~= tr);
                            assert(flat(ntr) == flat(tr) + views(next@));
                            tr = ntr;
                            rs = nrs;
                        }
                        assert(flat(tr) == flat(old_tr) + views(next@));
                        assert(tr.drop_last() == old_tr);
                        assert(ss.len() == flat(old_tr).len() + 1);
                        assert forall|k: int| 0 <= k < ns.len() implies ns[k] == #[trigger] flat(tr)[k] by {
                            assert(flat(tr)[k] == flat(old_tr)[k]);
                        }
                        match self.resolve(&next) {
                            Err(x) => {
                                proof {
                                    assert(run_prefix(self@, tr, rs) && tr.last().contains(x@)
                                        && !self@.nodes.contains(x@));
                                    let none: Seq<Option<Seq<char>>> = Seq::empty();
                                    assert(none.len() == 0);
                                    assert(ss.len() == flat(tr.drop_last()).len() + 1);
                                }
                                assert(forall|k: int|
                                    #![trigger ss[k], ns[k]]
                                    0 <= k < ss.len() - 1 ==> self.called_to(ns[k], ss[k], true));
                                return Err(GraphError::NodeNotFound(x));
                            },
                            Ok(f) => {
                                found = f;
                            },
                        }
                        active = next;
                        j = 0;
                        assert(forall|k: int|
                        #![trigger ss[k], ns[k]]
                        0 <= k < ss.len() - 1 ==> self.called_to(ns[k], ss[k], true));

                        assert(flat(tr) == flat(tr.drop_last()) + tr.last());
                    },
                }
                if fuel == 0 {
                    assert(run_prefix(self@, tr, rs) && tr.len() > usize::MAX);
                    assert(forall|k: int|
                        #![trigger ss[k], ns[k]]
                        0 <= k < ss.len() - 1 ==> self.called_to(ns[k], ss[k], true));
                    return Err(GraphError::SuperstepLimit);
                }
                fuel = fuel - 1;
            }
        }
    }

    #[verifier::rlimit(50)]
    #[verifier::spinoff_prover]
    /// Runs the graph on `state` in supersteps. The first superstep holds the
    /// nodes the entry point lists; every node of a superstep must exist and
    /// runs, in order, on the state; a superstep holding the finish point
    /// ends the run with the state. Otherwise each node leads on through its
    /// conditional edge (whose branch function answers for the state) if it
    /// has one, else through its edge, and the next superstep holds the
    /// targets, each once. The first node function to fail ends the run with
    /// its error.
    ///
    /// The contract names the nodes run, in order, `ns` (the supersteps
    /// `tr` one after another), and the states of the run, `ss`: the run
    /// starts with `state`; the function of `ns[k]` was called on `ss[k]`,
    /// returned `Ok` and left `ss[k + 1]`; every route was chosen by its branch
    /// function on the state held after its superstep; on `Ok(s)`, `s` is
    /// the last state; on a node's failure, its function was called on the
    /// last state and returned an error. `SuperstepLimit` comes only after
    /// more than `usize::MAX` supersteps, none of which held the finish point.
    pub fn invoke(&self, state: T) -> (r: Result<T, GraphError>)
        requires
            self.wf(),
        ensures
            invoke_outcome(self@, r),
            r matches Ok(s) ==> exists|
                tr: Seq<Seq<Seq<char>>>,
                rs: Seq<Seq<Option<Seq<char>>>>,
                ss: Seq<T>,
                ns: Seq<Seq<char>>,
            |
                #![trigger completed_run(self@, tr, rs), self.routes_chosen(tr, rs, ss), ns.len()]
                {
                    &&& ns.len() + 1 == ss.len()
                    &&& forall|k: int| 0 <= k < ns.len() ==> ns[k] == #[trigger] flat(tr)[k]
                    &&& completed_run(self@, tr, rs)
                    &&& self.routes_chosen(tr, rs, ss)
                    &&& forall|k: int|
                        #![trigger ss[k], ns[k]]
                        0 <= k < ss.len() - 1 ==> self.called_to(ns[k], ss[k], true) && exists|m: &mut T, q: Result<(), core::fmt::Error>|
                            #![trigger self.fn_of(ns[k]).runs_to(m, q)]
                            *m == ss[k] && *final(m) == ss[k + 1] && q is Ok && self.fn_of(ns[k]).runs_to(m, q)
                    &&& ss.len() == flat(tr).len() + 1
                    &&& ss[0] == state
                    &&& ss.last() == s
                },
            r matches Err(GraphError::ExecutionError(_)) ==> exists|
                tr: Seq<Seq<Seq<char>>>,
                rs: Seq<Seq<Option<Seq<char>>>>,
                ss: Seq<T>,
                ns: Seq<Seq<char>>,
            |
                #![trigger run_prefix(self@, tr, rs), self.routes_chosen(tr, rs, ss), ns.len()]
                {
                    &&& ns.len() + 1 == ss.len()
                    &&& forall|k: int| 0 <= k < ns.len() ==> ns[k] == #[trigger] flat(tr)[k]
                    &&& run_prefix(self@, tr, rs)
                    &&& step_exists(self@, tr.last())
                    &&& self.routes_chosen(tr, rs, ss)
                    &&& forall|k: int|
                        #![trigger ss[k], ns[k]]
                        0 <= k < ss.len() - 1 ==> self.called_to(ns[k], ss[k], true) && exists|m: &mut T, q: Result<(), core::fmt::Error>|
                            #![trigger self.fn_of(ns[k]).runs_to(m, q)]
                            *m == ss[k] && *final(m) == ss[k + 1] && q is Ok && self.fn_of(ns[k]).runs_to(m, q)
                    &&& flat(tr.drop_last()).len() < ss.len() <= flat(tr).len()
                    &&& ss[0] == state
                    &&& self.called_to(flat(tr)[ss.len() - 1], ss.last(), false)
                },
            r matches Err(GraphError::NodeNotFound(x)) ==> start_step(self@).len() == 0 || exists|
                tr: Seq<Seq<Seq<char>>>,
                rs: Seq<Seq<Option<Seq<char>>>>,
                ss: Seq<T>,
                last: Seq<Option<Seq<char>>>,
                ns: Seq<Seq<char>>,
            |
                #![trigger run_prefix(self@, tr, rs), self.routes_chosen(tr, rs, ss), last.len(), ns.len()]
                {
                    &&& ns.len() + 1 == ss.len()
                    &&& forall|k: int| 0 <= k < ns.len() ==> ns[k] == #[trigger] flat(tr)[k]
                    &&& run_prefix(self@, tr, rs)
                    &&& self.routes_chosen(tr, rs, ss)
                    &&& forall|k: int|
                        #![trigger ss[k], ns[k]]
                        0 <= k < ss.len() - 1 ==> self.called_to(ns[k], ss[k], true) && exists|m: &mut T, q: Result<(), core::fmt::Error>|
                            #![trigger self.fn_of(ns[k]).runs_to(m, q)]
                            *m == ss[k] && *final(m) == ss[k + 1] && q is Ok && self.fn_of(ns[k]).runs_to(m, q)
                    &&& ss[0] == state
                    &&& {
                        ||| (ss.len() == flat(tr.drop_last()).len() + 1 && tr.last().contains(x@)
                            && !self@.nodes.contains(x@))
                        ||| (ss.len() == flat(tr).len() + 1 && stuck_after(
                            self@,
                            tr,
                            rs,
                            last,
                            StepFailure::NodeNotFound(x@),
                        ) && self.answers_all(tr.last(), last, ss.last()))
                    }
                },
            r matches Err(GraphError::MissingEdge(x)) ==> exists|
                tr: Seq<Seq<Seq<char>>>,
                rs: Seq<Seq<Option<Seq<char>>>>,
                ss: Seq<T>,
                last: Seq<Option<Seq<char>>>,
                ns: Seq<Seq<char>>,
            |
                #![trigger run_prefix(self@, tr, rs), self.routes_chosen(tr, rs, ss), last.len(), ns.len()]
                {
                    &&& ns.len() + 1 == ss.len()
                    &&& forall|k: int| 0 <= k < ns.len() ==> ns[k] == #[trigger] flat(tr)[k]
                    &&& run_prefix(self@, tr, rs)
                    &&& self.routes_chosen(tr, rs, ss)
                    &&& forall|k: int|
                        #![trigger ss[k], ns[k]]
                        0 <= k < ss.len() - 1 ==> self.called_to(ns[k], ss[k], true) && exists|m: &mut T, q: Result<(), core::fmt::Error>|
                            #![trigger self.fn_of(ns[k]).runs_to(m, q)]
                            *m == ss[k] && *final(m) == ss[k + 1] && q is Ok && self.fn_of(ns[k]).runs_to(m, q)
                    &&& ss[0] == state
                    &&& ss.len() == flat(tr).len() + 1
                    &&& stuck_after(self@, tr, rs, last, StepFailure::MissingEdge(x@))
                    &&& self.answers_all(tr.last(), last, ss.last())
                },
    {
        let mut st = state;
        match self.run_in_place(&mut st) {
            Ok(()) => Ok(st),
            Err(e) => Err(e),
        }
    }
}

} // verus!
