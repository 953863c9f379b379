//! The superstep (bulk synchronous parallel) execution engine.
use vstd::prelude::*;
use vstd::std_specs::cmp::PartialEqSpec;
use vstd::string::*;

use crate::errors::{ChannelError, PregelError};
use crate::keyed::{distinct, find, index_of, keys, named, pos, put, put_named};
use crate::order::{lemma_lex_total, lemma_lex_transitive, lex_lt, name_lt};
use crate::pregel::channel::{
    folded, BinaryOperatorAggregate, Channel, ChannelKind, ChannelValue, EphemeralValue,
    IntoChannelKind, LastValue, Topic, topic_add, value_cloned,
};
use crate::pregel::node::{owned_names, ChannelValues, ChannelWriteEntry, IntoPregelNode, PregelNode};
use crate::text::views;

verus! {

/// The names of the nodes, in order.
pub open spec fn node_names<V>(nodes: Seq<PregelNode<V>>) -> Seq<Seq<char>> {
    nodes.map_values(|n: PregelNode<V>| n.name@)
}

/// Each name comes strictly before the next (so none occurs twice).
pub open spec fn sorted(s: Seq<Seq<char>>) -> bool {
    forall|i: int, j: int| 0 <= i < j < s.len() ==> lex_lt(s[i], s[j])
}

/// An application of the superstep model: channels, and nodes that read and
/// write them.
#[verifier::reject_recursive_types(V)]
pub struct Pregel<V> {
    pub nodes: Vec<PregelNode<V>>,
    pub channels: Vec<(String, ChannelKind<V>)>,
    pub input_channels: Vec<String>,
    pub output_channels: Vec<String>,
    pub max_steps: usize,
}

impl<V: Clone + PartialEq + 'static> Pregel<V> {
    /// Nodes are kept in name order with computations that accept every
    /// input; channel names are distinct and aggregates' operators accept
    /// every pair of arguments.
    pub open spec fn wf(&self) -> bool {
        &&& sorted(node_names(self.nodes@))
        &&& forall|i: int| 0 <= i < self.nodes@.len() ==> #[trigger] self.nodes@[i].wf()
        &&& distinct(keys(named(self.channels@)))
        &&& forall|i: int|
            0 <= i < self.channels@.len() ==> #[trigger] self.channels@[i].1.kind_well_formed()
    }

    /// An empty application allowing 25 supersteps.
    pub fn new() -> (r: Self)
        ensures
            r.wf(),
            r.nodes@.len() == 0,
            r.channels@.len() == 0,
            r.input_channels@.len() == 0,
            r.output_channels@.len() == 0,
            r.max_steps == 25,
    {
        let r = Pregel {
            nodes: Vec::new(),
            channels: Vec::new(),
            input_channels: Vec::new(),
            output_channels: Vec::new(),
            max_steps: 25,
        };
        assert(named(r.channels@) =~= Seq::<(Seq<char>, ChannelKind<V>)>::empty());
        assert(node_names(r.nodes@) =~= Seq::<Seq<char>>::empty());
        r
    }

    /// Registers `channel` under `name`, replacing any channel of that name.
    pub fn add_channel<C: IntoChannelKind<V>>(&mut self, name: &str, channel: C) -> (r: &mut Self)
        requires
            old(self).wf(),
            channel.kind_ok(),
        ensures
            r.wf(),
            named(r.channels@) == put(named(old(self).channels@), name@, channel.as_kind()),
            r.nodes@ == old(self).nodes@,
            r.input_channels@ == old(self).input_channels@,
            r.output_channels@ == old(self).output_channels@,
            r.max_steps == old(self).max_steps,
            *final(self) == *final(r),
    {
        let ghost before = named(self.channels@);
        let ghost k = name@;
        let kind = channel.into_kind();
        let ghost kv = kind;
        proof {
            crate::keyed::lemma_put(before, k, kv);
            crate::keyed::lemma_pos(before, k);
        }
        put_named(&mut self.channels, name.to_owned(), kind);
        proof {
            assert forall|i: int|
                0 <= i < self.channels@.len() implies #[trigger] self.channels@[i].1.kind_well_formed() by {
                assert(named(self.channels@)[i].1 == self.channels@[i].1);
                if i < before.len() && i != crate::keyed::pos(before, k) {
                    assert(named(self.channels@)[i] == before[i]);
                    assert(before[i].1 == old(self).channels@[i].1);
                }
            }
        }
        self
    }
}

} // verus!

verus! {

/// Inserts `node` in name order, replacing the node of the same name.
fn insert_node<V>(nodes: &mut Vec<PregelNode<V>>, node: PregelNode<V>)
    requires
        sorted(node_names(old(nodes)@)),
        forall|i: int| 0 <= i < old(nodes)@.len() ==> #[trigger] old(nodes)@[i].wf(),
        node.wf(),
    ensures
        sorted(node_names(final(nodes)@)),
        forall|i: int| 0 <= i < final(nodes)@.len() ==> #[trigger] final(nodes)@[i].wf(),
        node_names(final(nodes)@).to_set() == node_names(old(nodes)@).to_set().insert(node.name@),
        final(nodes)@.contains(node),
        forall|i: int|
            0 <= i < old(nodes)@.len() && old(nodes)@[i].name@ != node.name@
                ==> final(nodes)@.contains(#[trigger] old(nodes)@[i]),
{
    let ghost old_nodes = nodes@;
    let ghost names = node_names(nodes@);
    let ghost k = node.name@;
    let mut p: usize = 0;
    while p < nodes.len()
        invariant_except_break
            node.name@ == k,
            names == node_names(nodes@),
            nodes@ == old_nodes,
            p <= nodes@.len(),
            forall|j: int| 0 <= j < p ==> lex_lt(names[j], k),
        ensures
            node.name@ == k,
            names == node_names(nodes@),
            nodes@ == old_nodes,
            p <= nodes@.len(),
            forall|j: int| 0 <= j < p ==> lex_lt(names[j], k),
            p < nodes@.len() ==> !lex_lt(names[p as int], k),
        decreases nodes@.len() - p,
    {
        let before = name_lt(&nodes[p].name, &node.name);
        assert(before == lex_lt(nodes@[p as int].name@, node.name@));
        assert(names[p as int] == nodes@[p as int].name@);
        assert(node.name@ == k);
        if !before {
            break;
        }
        p = p + 1;
    }
    if p < nodes.len() && nodes[p].name == node.name {
        nodes.set(p, node);
        proof {
            assert(node_names(nodes@) =~= names);
            assert(names[p as int] == k);
            assert(names.to_set().contains(k));
            assert(names.to_set().insert(k) =~= names.to_set());
            assert(nodes@[p as int] == node);
            assert forall|i: int|
                0 <= i < old_nodes.len() && old_nodes[i].name@ != k implies nodes@.contains(
                #[trigger] old_nodes[i],
            ) by {
                assert(i != p);
                assert(nodes@[i] == old_nodes[i]);
            }
        }
    } else {
        proof {
            if p < names.len() {
                assert(names[p as int] == nodes@[p as int].name@);
                assert(names[p as int] != k);
                lemma_lex_total(names[p as int], k);
                assert(lex_lt(k, names[p as int]));
            }
            assert forall|m: int| p <= m < names.len() implies lex_lt(k, names[m]) by {
                if m > p {
                    lemma_lex_transitive(k, names[p as int], names[m]);
                }
            }
        }
        nodes.insert(p, node);
        proof {
            let nn = node_names(nodes@);
            assert(nn =~= names.insert(p as int, k));
            assert forall|i: int, j: int| 0 <= i < j < nn.len() implies lex_lt(nn[i], nn[j]) by {
                if j < p {
                } else if j == p {
                } else if i == p {
                    assert(lex_lt(k, names[j - 1]));
                } else if i < p {
                    assert(lex_lt(k, names[j - 1]));
                    lemma_lex_transitive(names[i], k, names[j - 1]);
                } else {
                }
            }
            assert(nn.to_set() =~= names.to_set().insert(k)) by {
                assert forall|x: Seq<char>| nn.to_set().contains(x) implies names.to_set().insert(
                    k,
                ).contains(x) by {
                    let i = choose|i: int| 0 <= i < nn.len() && nn[i] == x;
                    if i < p {
                        assert(names[i] == x);
                    } else if i > p {
                        assert(names[i - 1] == x);
                    }
                }
                assert forall|x: Seq<char>| names.to_set().insert(k).contains(x) implies nn.to_set().contains(
                    x,
                ) by {
                    if x == k {
                        assert(nn[p as int] == k);
                    } else {
                        let i = choose|i: int| 0 <= i < names.len() && names[i] == x;
                        if i < p {
                            assert(nn[i] == x);
                        } else {
                            assert(nn[i + 1] == x);
                        }
                    }
                }
            }
            assert(nodes@[p as int] == node);
            assert forall|i: int|
                0 <= i < old_nodes.len() && old_nodes[i].name@ != k implies nodes@.contains(
                #[trigger] old_nodes[i],
            ) by {
                if i < p {
                    assert(nodes@[i] == old_nodes[i]);
                } else {
                    assert(nodes@[i + 1] == old_nodes[i]);
                }
            }
            assert forall|i: int| 0 <= i < nodes@.len() implies #[trigger] nodes@[i].wf() by {
                if i < p {
                    assert(nodes@[i] == old_nodes[i]);
                } else if i > p {
                    assert(nodes@[i] == old_nodes[i - 1]);
                }
            }
        }
    }
}

impl<V: Clone + PartialEq + 'static> Pregel<V> {
    /// Registers a node (or a node builder, which is built), keeping nodes in
    /// name order; a node of the same name is replaced.
    pub fn add_node<N: IntoPregelNode<V>>(&mut self, node: N) -> (r: &mut Self)
        requires
            old(self).wf(),
            node.node_ok(),
        ensures
            r.wf(),
            r.channels@ == old(self).channels@,
            r.input_channels@ == old(self).input_channels@,
            r.output_channels@ == old(self).output_channels@,
            r.max_steps == old(self).max_steps,
            node_names(r.nodes@).to_set() == node_names(old(self).nodes@).to_set().insert(
                node.node_name(),
            ),
            exists|n: PregelNode<V>|
                node.becomes(n) && n.name@ == node.node_name() && #[trigger] r.nodes@.contains(n),
            forall|i: int|
                0 <= i < old(self).nodes@.len() && old(self).nodes@[i].name@ != node.node_name()
                    ==> r.nodes@.contains(#[trigger] old(self).nodes@[i]),
            *final(self) == *final(r),
    {
        let n = node.into_node();
        let ghost added = n;
        insert_node(&mut self.nodes, n);
        assert(self.nodes@.contains(added));
        self
    }
}

} // verus!

verus! {

/// Some trigger of node `n` names a channel that was updated.
pub open spec fn triggered<V: Clone + PartialEq + 'static>(
    n: PregelNode<V>,
    chans: Seq<(Seq<char>, ChannelKind<V>)>,
) -> bool {
    exists|t: int|
        0 <= t < n.triggers@.len() && #[trigger] find(chans, n.triggers@[t]@) is Some && find(
            chans,
            n.triggers@[t]@,
        )->0.updated_flag()
}

/// An update of any one channel a node subscribes to triggers it, wherever
/// that channel stands among its triggers.
pub proof fn law_triggered_by_any<V: Clone + PartialEq + 'static>(
    n: PregelNode<V>,
    chans: Seq<(Seq<char>, ChannelKind<V>)>,
    t: int,
)
    requires
        0 <= t < n.triggers@.len(),
        find(chans, n.triggers@[t]@) matches Some(c) && c.updated_flag(),
    ensures
        triggered(n, chans),
{
}

/// A node none of whose subscribed channels was updated is not triggered.
pub proof fn law_untriggered<V: Clone + PartialEq + 'static>(
    n: PregelNode<V>,
    chans: Seq<(Seq<char>, ChannelKind<V>)>,
)
    requires
        forall|t: int|
            0 <= t < n.triggers@.len() ==> !(find(chans, #[trigger] n.triggers@[t]@) matches Some(
                c,
            ) && c.updated_flag()),
    ensures
        !triggered(n, chans),
{
}

/// Whether a trigger of `n` names a channel that was updated.
fn is_triggered<V: Clone + PartialEq + 'static>(
    n: &PregelNode<V>,
    chans: &Vec<(String, ChannelKind<V>)>,
) -> (r: bool)
    requires
        distinct(keys(named(chans@))),
    ensures
        r == triggered(*n, named(chans@)),
{
    let mut t: usize = 0;
    while t < n.triggers.len()
        invariant
            distinct(keys(named(chans@))),
            t <= n.triggers@.len(),
            forall|u: int|
                0 <= u < t ==> !(#[trigger] find(named(chans@), n.triggers@[u]@) is Some && find(
                    named(chans@),
                    n.triggers@[u]@,
                )->0.updated_flag()),
        decreases n.triggers@.len() - t,
    {
        match index_of(chans, &n.triggers[t]) {
            Some(j) => {
                assert(named(chans@)[j as int].1 == chans@[j as int].1);
                if chans[j].1.is_updated() {
                    assert(find(named(chans@), n.triggers@[t as int]@) is Some);
                    return true;
                }
            },
            None => {},
        }
        t = t + 1;
    }
    false
}

/// The indices, in order, of the nodes with an updated trigger.
pub open spec fn active_of<V: Clone + PartialEq + 'static>(
    nodes: Seq<PregelNode<V>>,
    chans: Seq<(Seq<char>, ChannelKind<V>)>,
) -> Seq<int>
    decreases nodes.len(),
{
    if nodes.len() == 0 {
        Seq::empty()
    } else {
        let prev = active_of(nodes.drop_last(), chans);
        if triggered(nodes.last(), chans) {
            prev.push(nodes.len() - 1)
        } else {
            prev
        }
    }
}

/// The indices of the nodes to run in the next superstep.
fn plan<V: Clone + PartialEq + 'static>(
    nodes: &Vec<PregelNode<V>>,
    chans: &Vec<(String, ChannelKind<V>)>,
) -> (r: Vec<usize>)
    requires
        distinct(keys(named(chans@))),
    ensures
        r@.map_values(|x: usize| x as int) == active_of(nodes@, named(chans@)),
        forall|a: int| 0 <= a < r@.len() ==> r@[a] < nodes@.len(),
{
    let ghost cs = named(chans@);
    let mut r: Vec<usize> = Vec::new();
    let mut i: usize = 0;
    assert(nodes@.take(0) =~= Seq::<PregelNode<V>>::empty());
    assert(r@.map_values(|x: usize| x as int) =~= Seq::<int>::empty());
    while i < nodes.len()
        invariant
            cs == named(chans@),
            distinct(keys(cs)),
            i <= nodes@.len(),
            r@.map_values(|x: usize| x as int) == active_of(nodes@.take(i as int), cs),
            forall|a: int| 0 <= a < r@.len() ==> r@[a] < i,
        decreases nodes@.len() - i,
    {
        proof {
            assert(nodes@.take(i + 1).drop_last() =~= nodes@.take(i as int));
            assert(nodes@.take(i + 1).last() == nodes@[i as int]);
        }
        if is_triggered(&nodes[i], chans) {
            let ghost before = r@;
            r.push(i);
            assert(r@.map_values(|x: usize| x as int) =~= before.map_values(|x: usize| x as int).push(
                i as int,
            ));
        }
        i = i + 1;
    }
    assert(nodes@.take(i as int) =~= nodes@);
    r
}

} // verus!

verus! {

/// What a selection of the channels named in `names` holds under `k`.
pub open spec fn selected_value<V>(
    chans: Seq<(Seq<char>, ChannelKind<V>)>,
    names: Seq<Seq<char>>,
    k: Seq<char>,
) -> Option<ChannelValue<V>> {
    if names.contains(k) && find(chans, k) is Some {
        find(chans, k)->0.stored()
    } else {
        None
    }
}

/// `out` holds a copy of what each channel named in `names` holds, and
/// nothing else.
pub open spec fn selection_of<V: Clone>(
    chans: Seq<(Seq<char>, ChannelKind<V>)>,
    names: Seq<Seq<char>>,
    out: Seq<(Seq<char>, ChannelValue<V>)>,
) -> bool {
    forall|k: Seq<char>|
        match selected_value(chans, names, k) {
            Some(x) => #[trigger] find(out, k) is Some && value_cloned(x, find(out, k)->0),
            None => find(out, k) is None,
        }
}

/// One more name in a selection: the selection grows by the channel's value
/// when it has one, and is unchanged otherwise.
proof fn lemma_select_step<V: Clone>(
    cs: Seq<(Seq<char>, ChannelKind<V>)>,
    prev: Seq<Seq<char>>,
    n: Seq<char>,
    before: Seq<(Seq<char>, ChannelValue<V>)>,
    after: Seq<(Seq<char>, ChannelValue<V>)>,
    copied: Option<ChannelValue<V>>,
)
    requires
        distinct(keys(before)),
        selection_of(cs, prev, before),
        match selected_value(cs, prev.push(n), n) {
            Some(x) => copied matches Some(y) && value_cloned(x, y) && after == put(before, n, y),
            None => copied is None && after == before,
        },
    ensures
        selection_of(cs, prev.push(n), after),
{
    let next = prev.push(n);
    assert forall|k: Seq<char>| k != n implies selected_value(cs, next, k) == selected_value(
        cs,
        prev,
        k,
    ) by {
        if next.contains(k) {
            let a = choose|a: int| 0 <= a < next.len() && next[a] == k;
            assert(prev[a] == k);
        }
        if prev.contains(k) {
            let a = choose|a: int| 0 <= a < prev.len() && prev[a] == k;
            assert(next[a] == k);
        }
    }
    assert(next[prev.len() as int] == n);
    if prev.contains(n) {
        let a = choose|a: int| 0 <= a < prev.len() && prev[a] == n;
        assert(next[a] == n);
    }
    match copied {
        Some(y) => {
            crate::keyed::lemma_put(before, n, y);
        },
        None => {},
    }
    assert forall|k: Seq<char>|
        match selected_value(cs, next, k) {
            Some(x) => #[trigger] find(after, k) is Some && value_cloned(x, find(after, k)->0),
            None => find(after, k) is None,
        } by {
        if k != n {
            assert(selected_value(cs, next, k) == selected_value(cs, prev, k));
            assert(find(after, k) == find(before, k));
        } else {
            assert(find(after, k) == find(before, k) || copied is Some);
        }
    }
}

/// Copies of what the channels named in `names` hold.
fn select<V: Clone + PartialEq + 'static>(
    chans: &Vec<(String, ChannelKind<V>)>,
    names: &Vec<String>,
) -> (r: ChannelValues<V>)
    requires
        distinct(keys(named(chans@))),
    ensures
        r.wf(),
        selection_of(named(chans@), views(names@), r@),
{
    let ghost cs = named(chans@);
    let ghost ns = views(names@);
    let mut out: ChannelValues<V> = ChannelValues::new();
    let mut i: usize = 0;
    proof {
        assert forall|k: Seq<char>| selected_value(cs, ns.take(0), k) is None by {
            assert(!ns.take(0).contains(k));
        }
    }
    while i < names.len()
        invariant
            cs == named(chans@),
            ns == views(names@),
            distinct(keys(cs)),
            i <= names@.len(),
            out.wf(),
            selection_of(cs, ns.take(i as int), out@),
        decreases names@.len() - i,
    {
        let ghost before = out@;
        let ghost n = ns[i as int];
        let ghost prev = ns.take(i as int);
        let ghost next = ns.take(i + 1);
        proof {
            assert(next =~= prev.push(n));
            assert(next[i as int] == n);
            assert(next.contains(n));
        }
        match index_of(chans, &names[i]) {
            Some(j) => {
                proof {
                    assert(cs[j as int].1 == chans@[j as int].1);
                    assert(find(cs, n) == Some(chans@[j as int].1));
                    assert(selected_value(cs, next, n) == chans@[j as int].1.stored());
                }
                match chans[j].1.get_boxed() {
                    Some(v) => {
                        let ghost vv = v;
                        out.insert_boxed(names[i].as_str(), v);
                        proof {
                            lemma_select_step(cs, prev, n, before, out@, Some(vv));
                        }
                    },
                    None => {
                        proof {
                            lemma_select_step(cs, prev, n, before, out@, None);
                        }
                    },
                }
            },
            None => {
                proof {
                    lemma_select_step(cs, prev, n, before, out@, None);
                }
            },
        }
        i = i + 1;
    }
    assert(ns.take(i as int) =~= ns);
    out
}

/// The names of the channels, in order.
fn channel_names<V>(chans: &Vec<(String, ChannelKind<V>)>) -> (r: Vec<String>)
    ensures
        views(r@) == keys(named(chans@)),
{
    let mut r: Vec<String> = Vec::new();
    let mut i: usize = 0;
    while i < chans.len()
        invariant
            i <= chans@.len(),
            r@.len() == i,
            forall|j: int| 0 <= j < i ==> r@[j]@ == chans@[j].0@,
        decreases chans@.len() - i,
    {
        r.push(chans[i].0.clone());
        i = i + 1;
    }
    assert(views(r@) =~= keys(named(chans@)));
    r
}

} // verus!

verus! {

/// The values written to channel `k`, in order.
pub open spec fn values_for<V>(writes: Seq<ChannelWriteEntry<V>>, k: Seq<char>) -> Seq<V>
    decreases writes.len(),
{
    if writes.len() == 0 {
        Seq::empty()
    } else {
        let prev = values_for(writes.drop_last(), k);
        if writes.last().channel@ == k {
            prev.push(writes.last().value)
        } else {
            prev
        }
    }
}

/// No writes deliver nothing.
pub proof fn law_values_for_empty<V>(k: Seq<char>)
    ensures
        values_for(Seq::<ChannelWriteEntry<V>>::empty(), k) == Seq::<V>::empty(),
{
}

/// One more write adds its value after the values already delivered to its
/// channel, and changes nothing for any other channel.
pub proof fn law_values_for_push<V>(w: Seq<ChannelWriteEntry<V>>, e: ChannelWriteEntry<V>, k: Seq<char>)
    ensures
        e.channel@ == k ==> values_for(w.push(e), k) == values_for(w, k).push(e.value),
        e.channel@ != k ==> values_for(w.push(e), k) == values_for(w, k),
{
    assert(w.push(e).drop_last() =~= w);
}

/// The writes of two runs of writes, one after the other, deliver to each
/// channel the values of the first followed by those of the second.
pub proof fn law_values_for_concat<V>(
    w1: Seq<ChannelWriteEntry<V>>,
    w2: Seq<ChannelWriteEntry<V>>,
    k: Seq<char>,
)
    ensures
        values_for(w1 + w2, k) == values_for(w1, k) + values_for(w2, k),
    decreases w2.len(),
{
    if w2.len() == 0 {
        assert(w1 + w2 =~= w1);
        assert(values_for(w1, k) + values_for(w2, k) =~= values_for(w1, k));
    } else {
        let d = w2.drop_last();
        law_values_for_concat(w1, d, k);
        assert((w1 + w2).drop_last() =~= w1 + d);
        assert((w1 + w2).last() == w2.last());
        if w2.last().channel@ == k {
            assert(values_for(w1, k) + values_for(d, k).push(w2.last().value) =~= (values_for(w1, k)
                + values_for(d, k)).push(w2.last().value));
        }
    }
}

/// Every write to channel `k` delivers its value there: the values
/// delivered number the writes aimed at `k`, and each write's value is among
/// them.
pub proof fn law_values_for_counts<V>(w: Seq<ChannelWriteEntry<V>>, k: Seq<char>)
    ensures
        values_for(w, k).len() == w.filter(|e: ChannelWriteEntry<V>| e.channel@ == k).len(),
        forall|i: int| 0 <= i < w.len() && w[i].channel@ == k ==> values_for(w, k).contains(#[trigger] w[i].value),
    decreases w.len(),
{
    reveal(Seq::filter);
    if w.len() > 0 {
        let d = w.drop_last();
        law_values_for_counts(d, k);
        assert forall|i: int| 0 <= i < w.len() && w[i].channel@ == k implies values_for(w, k).contains(
            #[trigger] w[i].value,
        ) by {
            if i < d.len() {
                assert(d[i] == w[i]);
                let m = choose|m: int| 0 <= m < values_for(d, k).len() && values_for(d, k)[m] == d[i].value;
                assert(values_for(w, k)[m] == w[i].value);
            } else {
                assert(values_for(w, k).last() == w[i].value);
                assert(values_for(w, k)[values_for(w, k).len() - 1] == w[i].value);
            }
        }
    }
}

/// The channel of the first write aimed at no channel of `chans`.
pub open spec fn unknown_target<V, X>(
    chans: Seq<(Seq<char>, X)>,
    writes: Seq<ChannelWriteEntry<V>>,
) -> Option<Seq<char>>
    decreases writes.len(),
{
    if writes.len() == 0 {
        None
    } else {
        match unknown_target(chans, writes.drop_last()) {
            Some(c) => Some(c),
            None => if find(chans, writes.last().channel@) is None {
                Some(writes.last().channel@)
            } else {
                None
            },
        }
    }
}

/// Once a prefix of the writes holds a write to an unknown channel, that
/// write is the first of the whole list.
proof fn lemma_unknown_prefix<V, X>(
    chans: Seq<(Seq<char>, X)>,
    writes: Seq<ChannelWriteEntry<V>>,
    k: int,
)
    requires
        0 <= k <= writes.len(),
        unknown_target(chans, writes.take(k)) is Some,
    ensures
        unknown_target(chans, writes) == unknown_target(chans, writes.take(k)),
    decreases writes.len() - k,
{
    if k < writes.len() {
        assert(writes.take(k + 1).drop_last() =~= writes.take(k));
        lemma_unknown_prefix(chans, writes, k + 1);
    } else {
        assert(writes.take(k) =~= writes);
    }
}

/// `b` is channel `a` after the reset between supersteps followed by the
/// batch `vals`.
pub open spec fn stepped_kind<V: PartialEq>(a: ChannelKind<V>, vals: Seq<V>, b: ChannelKind<V>) -> bool {
    exists|m: ChannelKind<V>| a.reset_to(m) && #[trigger] m.update_to(vals, b)
}

/// `next` is `chans` after a superstep whose nodes wrote `writes`: every
/// channel is reset, then takes the values written to it, in order.
pub open spec fn stepped<V: PartialEq>(
    chans: Seq<(Seq<char>, ChannelKind<V>)>,
    writes: Seq<ChannelWriteEntry<V>>,
    next: Seq<(Seq<char>, ChannelKind<V>)>,
) -> bool {
    &&& keys(next) == keys(chans)
    &&& forall|i: int|
        0 <= i < chans.len() ==> stepped_kind(
            chans[i].1,
            values_for(writes, chans[i].0),
            #[trigger] next[i].1,
        )
}

/// Every aggregate's operator accepts every pair of arguments.
pub open spec fn kinds_ok<V>(chans: Seq<(String, ChannelKind<V>)>) -> bool {
    forall|i: int| 0 <= i < chans.len() ==> #[trigger] chans[i].1.kind_well_formed()
}

/// The update phase of a superstep: every write must name a channel; then
/// every channel is reset and takes the values written to it, in order.
pub fn apply_writes<V: Clone + PartialEq + 'static>(
    chans: Vec<(String, ChannelKind<V>)>,
    writes: Vec<ChannelWriteEntry<V>>,
) -> (r: Result<Vec<(String, ChannelKind<V>)>, PregelError>)
    requires
        distinct(keys(named(chans@))),
        kinds_ok(chans@),
    ensures
        match unknown_target(named(chans@), writes@) {
            Some(c) => r matches Err(PregelError::ChannelNotFound(s)) && s@ == c,
            None => r matches Ok(next) && stepped(named(chans@), writes@, named(next@)) && kinds_ok(
                next@,
            ),
        },
{
    let ghost cs = named(chans@);
    let ghost ws = writes@;
    let n = chans.len();
    let mut buckets: Vec<Vec<V>> = Vec::new();
    let mut j: usize = 0;
    while j < n
        invariant
            j <= n,
            n == chans@.len(),
            buckets@.len() == j,
            forall|b: int| 0 <= b < j ==> (#[trigger] buckets@[b])@.len() == 0,
        decreases n - j,
    {
        buckets.push(Vec::new());
        j = j + 1;
    }
    let mut writes = writes;
    let total = writes.len();
    assert(ws.len() == total);
    let mut k: usize = 0;
    assert(ws.take(0) =~= Seq::<ChannelWriteEntry<V>>::empty());
    #[verifier::loop_isolation(false)]
    while writes.len() > 0
        invariant
            cs == named(chans@),
            ws.len() <= usize::MAX,
            distinct(keys(cs)),
            n == chans@.len(),
            ws.len() == k + writes@.len(),
            writes@ == ws.skip(k as int),
            buckets@.len() == n,
            unknown_target(cs, ws.take(k as int)) is None,
            forall|b: int|
                0 <= b < n ==> (#[trigger] buckets@[b])@ == values_for(ws.take(k as int), cs[b].0),
        decreases writes@.len(),
    {
        let w = writes.remove(0);
        let ghost pre = ws.take(k as int);
        let ghost cur = ws.take(k + 1);
        proof {
            assert(cur.drop_last() =~= pre);
            assert(cur.last() == w);
            assert(writes@ =~= ws.skip(k + 1));
        }
        match index_of(&chans, &w.channel) {
            None => {
                proof {
                    assert(find(cs, w.channel@) is None);
                    assert(unknown_target(cs, cur) == Some(w.channel@));
                    lemma_unknown_prefix(cs, ws, k + 1);
                }
                return Err(PregelError::ChannelNotFound(w.channel));
            },
            Some(t) => {
                let ghost before = buckets@;
                proof {
                    crate::keyed::lemma_pos(cs, w.channel@);
                    assert(find(cs, w.channel@) is Some);
                    assert(unknown_target(cs, cur) is None);
                }
                let mut b = buckets.remove(t);
                b.push(w.value);
                buckets.insert(t, b);
                proof {
                    assert forall|c: int| 0 <= c < n implies (#[trigger] buckets@[c])@ == values_for(
                        cur,
                        cs[c].0,
                    ) by {
                        if c == t {
                            assert(cs[c].0 == w.channel@);
                        } else {
                            assert(buckets@[c] == before[c]);
                            assert(keys(cs)[c] == cs[c].0);
                            assert(keys(cs)[t as int] == cs[t as int].0);
                            assert(cs[c].0 != w.channel@);
                        }
                    }
                }
            },
        }
        k = k + 1;
    }
    assert(ws.take(k as int) =~= ws);
    let ghost bs = buckets@;
    let ghost old_chans = chans@;
    let mut chans = chans;
    let mut next: Vec<(String, ChannelKind<V>)> = Vec::new();
    let mut i: usize = 0;
    while chans.len() > 0
        invariant
            cs == named(old_chans),
            kinds_ok(old_chans),
            n == old_chans.len(),
            n == i + chans@.len(),
            chans@ == old_chans.skip(i as int),
            buckets@ == bs.skip(i as int),
            bs.len() == n,
            forall|b: int| 0 <= b < n ==> (#[trigger] bs[b])@ == values_for(ws, cs[b].0),
            next@.len() == i,
            forall|c: int|
                0 <= c < i ==> (#[trigger] next@[c]).0@ == cs[c].0 && stepped_kind(
                    cs[c].1,
                    values_for(ws, cs[c].0),
                    next@[c].1,
                ) && next@[c].1.kind_well_formed(),
        decreases chans@.len(),
    {
        let (name, mut kind) = chans.remove(0);
        let vals = buckets.remove(0);
        let ghost first = kind;
        proof {
            assert(old_chans[i as int] == (name, first));
            assert(cs[i as int] == (name@, first));
            assert(bs[i as int] == vals);
            assert(first.kind_well_formed());
            assert(chans@ =~= old_chans.skip(i + 1));
            assert(buckets@ =~= bs.skip(i + 1));
        }
        kind.step_reset();
        let ghost mid = kind;
        let _ = kind.update(vals);
        proof {
            assert(first.reset_to(mid));
            assert(mid.update_to(vals@, kind));
            assert(stepped_kind(first, vals@, kind));
        }
        next.push((name, kind));
        i = i + 1;
    }
    proof {
        let nn = named(next@);
        assert(keys(nn) =~= keys(cs)) by {
            assert forall|c: int| 0 <= c < n implies keys(nn)[c] == keys(cs)[c] by {
                assert(next@[c].0@ == cs[c].0);
            }
        }
        assert forall|c: int| 0 <= c < n implies stepped_kind(
            cs[c].1,
            values_for(ws, cs[c].0),
            #[trigger] nn[c].1,
        ) by {
            assert(next@[c].0@ == cs[c].0);
        }
        assert forall|c: int| 0 <= c < next@.len() implies #[trigger] next@[c].1.kind_well_formed() by {
            assert(next@[c].0@ == cs[c].0);
        }
    }
    Ok(next)
}

} // verus!

verus! {

/// The first input naming no channel of `chans`.
pub open spec fn unknown_input<V, X>(
    chans: Seq<(Seq<char>, X)>,
    inputs: Seq<(Seq<char>, ChannelValue<V>)>,
) -> Option<Seq<char>>
    decreases inputs.len(),
{
    if inputs.len() == 0 {
        None
    } else {
        match unknown_input(chans, inputs.drop_last()) {
            Some(c) => Some(c),
            None => if find(chans, inputs.last().0) is None {
                Some(inputs.last().0)
            } else {
                None
            },
        }
    }
}

/// What the channel of the first input that is a list (which no channel
/// takes as one value) reports.
pub open spec fn list_input<V>(
    chans: Seq<(Seq<char>, ChannelKind<V>)>,
    inputs: Seq<(Seq<char>, ChannelValue<V>)>,
) -> Option<Seq<char>>
    decreases inputs.len(),
{
    if inputs.len() == 0 {
        None
    } else {
        match list_input(chans, inputs.drop_last()) {
            Some(m) => Some(m),
            None => match inputs.last().1 {
                ChannelValue::List(_) => Some(find(chans, inputs.last().0)->0.mismatch_message()),
                ChannelValue::Single(_) => None,
            },
        }
    }
}

/// Once a prefix of the inputs names an unknown channel, so do the inputs.
proof fn lemma_unknown_input_prefix<V, X>(
    chans: Seq<(Seq<char>, X)>,
    inputs: Seq<(Seq<char>, ChannelValue<V>)>,
    k: int,
)
    requires
        0 <= k <= inputs.len(),
        unknown_input(chans, inputs.take(k)) is Some,
    ensures
        unknown_input(chans, inputs) == unknown_input(chans, inputs.take(k)),
    decreases inputs.len() - k,
{
    if k < inputs.len() {
        assert(inputs.take(k + 1).drop_last() =~= inputs.take(k));
        lemma_unknown_input_prefix(chans, inputs, k + 1);
    } else {
        assert(inputs.take(k) =~= inputs);
    }
}

/// Once a prefix of the inputs holds a list, so do the inputs.
proof fn lemma_list_input_prefix<V>(
    chans: Seq<(Seq<char>, ChannelKind<V>)>,
    inputs: Seq<(Seq<char>, ChannelValue<V>)>,
    k: int,
)
    requires
        0 <= k <= inputs.len(),
        list_input(chans, inputs.take(k)) is Some,
    ensures
        list_input(chans, inputs) == list_input(chans, inputs.take(k)),
    decreases inputs.len() - k,
{
    if k < inputs.len() {
        assert(inputs.take(k + 1).drop_last() =~= inputs.take(k));
        lemma_list_input_prefix(chans, inputs, k + 1);
    } else {
        assert(inputs.take(k) =~= inputs);
    }
}

/// `b` is a copy of channel `a` that then took `input`, when it is a value.
pub open spec fn seeded<V: Clone + PartialEq>(
    a: ChannelKind<V>,
    input: Option<ChannelValue<V>>,
    b: ChannelKind<V>,
) -> bool {
    match input {
        Some(ChannelValue::Single(v)) => exists|m: ChannelKind<V>|
            a.copied_to(m) && #[trigger] m.update_to(seq![v], b),
        _ => a.copied_to(b),
    }
}

/// `init` holds a copy of each channel of `chans`, which then took the
/// input named like it.
pub open spec fn initial_state<V: Clone + PartialEq>(
    chans: Seq<(Seq<char>, ChannelKind<V>)>,
    inputs: Seq<(Seq<char>, ChannelValue<V>)>,
    init: Seq<(Seq<char>, ChannelKind<V>)>,
) -> bool {
    &&& keys(init) == keys(chans)
    &&& forall|i: int|
        0 <= i < chans.len() ==> seeded(chans[i].1, find(inputs, chans[i].0), #[trigger] init[i].1)
}

/// The writes of several node runs, one list after another.
pub open spec fn flatten<V>(ws: Seq<Vec<ChannelWriteEntry<V>>>) -> Seq<ChannelWriteEntry<V>>
    decreases ws.len(),
{
    if ws.len() == 0 {
        Seq::empty()
    } else {
        flatten(ws.drop_last()) + ws.last()@
    }
}

/// `all` is what the nodes at `active` wrote, one after another, each run
/// on `snap` and succeeding.
pub open spec fn nodes_wrote<V>(
    nodes: Seq<PregelNode<V>>,
    active: Seq<int>,
    snap: ChannelValues<V>,
    all: Seq<ChannelWriteEntry<V>>,
) -> bool {
    exists|ws: Seq<Vec<ChannelWriteEntry<V>>>|
        #![trigger flatten(ws)]
        {
            &&& flatten(ws) == all
            &&& ws.len() == active.len()
            &&& forall|a: int|
                0 <= a < active.len() ==> nodes[active[a]].produces(
                    snap,
                    nodes[active[a]].write_targets@,
                    Ok(#[trigger] ws[a]),
                )
        }
}

/// Of the nodes at `active`, each run on `snap`, the first to fail fails
/// with `e`: the nodes before it succeed.
pub open spec fn nodes_failed<V>(
    nodes: Seq<PregelNode<V>>,
    active: Seq<int>,
    snap: ChannelValues<V>,
    e: PregelError,
) -> bool {
    exists|a: int, ws: Seq<Vec<ChannelWriteEntry<V>>>|
        #![trigger nodes[active[a]], ws.len()]
        {
            &&& 0 <= a < active.len()
            &&& ws.len() == a
            &&& forall|b: int|
                0 <= b < a ==> nodes[active[b]].produces(
                    snap,
                    nodes[active[b]].write_targets@,
                    Ok(#[trigger] ws[b]),
                )
            &&& nodes[active[a]].produces(
                snap,
                nodes[active[a]].write_targets@,
                Err(e),
            )
        }
}

/// `snap` is a copy of every channel of `chans` that holds a value.
pub open spec fn snapshot_of<V: Clone>(
    chans: Seq<(Seq<char>, ChannelKind<V>)>,
    snap: ChannelValues<V>,
) -> bool {
    snap.wf() && selection_of(chans, keys(chans), snap@)
}

/// One superstep leads from `a` to `b`: some node has an updated trigger;
/// the triggered nodes, in name order, each run on the same copy of the
/// channels as they were at the start of the step, and succeed; what they
/// wrote, not empty and naming only channels of `a`, is then applied.
pub open spec fn superstep<V: Clone + PartialEq + 'static>(
    nodes: Seq<PregelNode<V>>,
    a: Seq<(Seq<char>, ChannelKind<V>)>,
    b: Seq<(Seq<char>, ChannelKind<V>)>,
) -> bool {
    exists|snap: ChannelValues<V>, w: Seq<ChannelWriteEntry<V>>|
        #![trigger stepped(a, w, b), snapshot_of(a, snap)]
        {
            &&& active_of(nodes, a).len() > 0
            &&& snapshot_of(a, snap)
            &&& nodes_wrote(nodes, active_of(nodes, a), snap, w)
            &&& w.len() > 0
            &&& unknown_target(a, w) is None
            &&& stepped(a, w, b)
        }
}

/// A run ends in `fin`: no node has an updated trigger, or the triggered
/// nodes, run on a copy of the channels, succeed and write nothing.
pub open spec fn quiet_end<V: Clone + PartialEq + 'static>(
    nodes: Seq<PregelNode<V>>,
    fin: Seq<(Seq<char>, ChannelKind<V>)>,
) -> bool {
    ||| active_of(nodes, fin).len() == 0
    ||| exists|snap: ChannelValues<V>|
        #[trigger] snapshot_of(fin, snap) && nodes_wrote(
            nodes,
            active_of(nodes, fin),
            snap,
            Seq::empty(),
        )
}

/// Each state leads to the next by one superstep.
pub open spec fn run_chain<V: Clone + PartialEq + 'static>(
    nodes: Seq<PregelNode<V>>,
    states: Seq<Seq<(Seq<char>, ChannelKind<V>)>>,
) -> bool {
    forall|i: int|
        #![trigger states[i + 1]]
        0 <= i < states.len() - 1 ==> superstep(nodes, states[i], states[i + 1])
}

/// Checks that every input names a channel.
fn check_inputs<V: Clone + PartialEq + 'static>(
    chans: &Vec<(String, ChannelKind<V>)>,
    inputs: &Vec<(String, ChannelValue<V>)>,
) -> (r: Result<(), PregelError>)
    requires
        distinct(keys(named(chans@))),
    ensures
        match unknown_input(named(chans@), named(inputs@)) {
            Some(c) => r matches Err(PregelError::ChannelNotFound(s)) && s@ == c,
            None => r is Ok,
        },
{
    let ghost cs = named(chans@);
    let ghost ins = named(inputs@);
    let mut p: usize = 0;
    assert(ins.take(0) =~= Seq::<(Seq<char>, ChannelValue<V>)>::empty());
    while p < inputs.len()
        invariant
            cs == named(chans@),
            ins == named(inputs@),
            distinct(keys(cs)),
            p <= inputs@.len(),
            unknown_input(cs, ins.take(p as int)) is None,
        decreases inputs@.len() - p,
    {
        proof {
            assert(ins.take(p + 1).drop_last() =~= ins.take(p as int));
            assert(ins.take(p + 1).last() == ins[p as int]);
            assert(ins[p as int].0 == inputs@[p as int].0@);
        }
        match index_of(chans, &inputs[p].0) {
            None => {
                proof {
                    lemma_unknown_input_prefix(cs, ins, p + 1);
                }
                return Err(PregelError::ChannelNotFound(inputs[p].0.clone()));
            },
            Some(_) => {},
        }
        p = p + 1;
    }
    assert(ins.take(p as int) =~= ins);
    Ok(())
}

/// Copies of the channels.
fn copy_channels<V: Clone + PartialEq + 'static>(chans: &Vec<(String, ChannelKind<V>)>) -> (r: Vec<
    (String, ChannelKind<V>),
>)
    requires
        kinds_ok(chans@),
    ensures
        keys(named(r@)) == keys(named(chans@)),
        kinds_ok(r@),
        forall|i: int| 0 <= i < chans@.len() ==> chans@[i].1.copied_to(#[trigger] r@[i].1),
{
    let mut r: Vec<(String, ChannelKind<V>)> = Vec::new();
    let mut i: usize = 0;
    while i < chans.len()
        invariant
            kinds_ok(chans@),
            i <= chans@.len(),
            r@.len() == i,
            kinds_ok(r@),
            forall|j: int|
                0 <= j < i ==> (#[trigger] r@[j]).0@ == chans@[j].0@ && chans@[j].1.copied_to(
                    r@[j].1,
                ),
        decreases chans@.len() - i,
    {
        assert(chans@[i as int].1.kind_well_formed());
        let copy = chans[i].1.clone_channel();
        r.push((chans[i].0.clone(), copy));
        i = i + 1;
    }
    assert(keys(named(r@)) =~= keys(named(chans@))) by {
        assert forall|j: int| 0 <= j < r@.len() implies keys(named(r@))[j] == keys(named(chans@))[j] by {
            assert(r@[j].0@ == chans@[j].0@);
        }
    }
    r
}

} // verus!

verus! {

/// When no input names an unknown channel, each input names a channel.
proof fn lemma_inputs_known<V, X>(chans: Seq<(Seq<char>, X)>, inputs: Seq<(Seq<char>, ChannelValue<V>)>, q: int)
    requires
        unknown_input(chans, inputs) is None,
        0 <= q < inputs.len(),
    ensures
        find(chans, inputs[q].0) is Some,
    decreases inputs.len(),
{
    if q < inputs.len() - 1 {
        assert(inputs.drop_last()[q] == inputs[q]);
        lemma_inputs_known(chans, inputs.drop_last(), q);
    }
}

/// Copies of the channels of `orig`, each of which then took the input named
/// like it; fails on the first input that is a list.
fn seed_inputs<V: Clone + PartialEq + 'static>(
    orig: &Vec<(String, ChannelKind<V>)>,
    inputs: Vec<(String, ChannelValue<V>)>,
) -> (r: Result<Vec<(String, ChannelKind<V>)>, PregelError>)
    requires
        distinct(keys(named(orig@))),
        kinds_ok(orig@),
        distinct(keys(named(inputs@))),
        unknown_input(named(orig@), named(inputs@)) is None,
    ensures
        match list_input(named(orig@), named(inputs@)) {
            Some(m) => r matches Err(PregelError::TypeMismatch(s)) && s@ == m,
            None => r matches Ok(init) && initial_state(named(orig@), named(inputs@), named(init@))
                && kinds_ok(init@),
        },
{
    let ghost cs = named(orig@);
    let ghost ins = named(inputs@);
    let mut chans = copy_channels(orig);
    let mut inputs = inputs;
    let total = inputs.len();
    let mut p: usize = 0;
    assert(ins.take(0) =~= Seq::<(Seq<char>, ChannelValue<V>)>::empty());
    proof {
        assert forall|i: int| 0 <= i < cs.len() implies seeded(
            cs[i].1,
            find(ins.take(0), cs[i].0),
            #[trigger] named(chans@)[i].1,
        ) by {
            crate::keyed::lemma_pos(ins.take(0), cs[i].0);
            assert(orig@[i].1 == cs[i].1);
            assert(keys(named(chans@)).len() == keys(cs).len());
            assert(named(chans@)[i].1 == chans@[i].1);
        }
    }
    #[verifier::loop_isolation(false)]
    while inputs.len() > 0
        invariant
            cs == named(orig@),
            ins.len() == total,
            ins.len() == p + inputs@.len(),
            named(inputs@) == ins.skip(p as int),
            keys(named(chans@)) == keys(cs),
            kinds_ok(chans@),
            distinct(keys(cs)),
            distinct(keys(ins)),
            unknown_input(cs, ins) is None,
            list_input(cs, ins.take(p as int)) is None,
            forall|i: int|
                0 <= i < cs.len() ==> seeded(
                    cs[i].1,
                    find(ins.take(p as int), cs[i].0),
                    #[trigger] named(chans@)[i].1,
                ),
        decreases inputs@.len(),
    {
        let ghost before = chans@;
        let ghost before_in = inputs@;
        let (key, val) = inputs.remove(0);
        let ghost pre = ins.take(p as int);
        let ghost cur = ins.take(p + 1);
        proof {
            assert(named(before_in)[0] == ins.skip(p as int)[0]);
            assert(ins[p as int] == (key@, val));
            assert(cur =~= pre.push((key@, val)));
            assert(cur.drop_last() =~= pre);
            assert forall|q: int| 0 <= q < named(inputs@).len() implies named(inputs@)[q] == ins.skip(
                p + 1,
            )[q] by {
                assert(inputs@[q] == before_in[q + 1]);
                assert(named(before_in)[q + 1] == ins.skip(p as int)[q + 1]);
            }
            assert(named(inputs@) =~= ins.skip(p + 1));
            lemma_inputs_known(cs, ins, p as int);
            crate::keyed::lemma_pos(cs, key@);
            crate::keyed::lemma_pos(named(chans@), key@);
            assert(keys(cs).len() == cs.len());
            assert forall|j: int| 0 <= j < cs.len() implies named(chans@)[j].0 == cs[j].0 by {
                assert(keys(named(chans@))[j] == keys(cs)[j]);
            }
        }
        let found = index_of(&chans, &key);
        let j = match found {
            Some(j) => j,
            None => {
                proof {
                    assert(cs[pos(cs, key@)].0 == key@);
                    assert(named(chans@)[pos(cs, key@)].0 == key@);
                }
                vstd::pervasive::unreached()
            },
        };
        proof {
            assert(named(chans@)[j as int].0 == key@);
            assert(cs[j as int].0 == key@);
            assert(pos(cs, key@) == j);
            assert(find(cs, key@) == Some(cs[j as int].1));
            crate::keyed::lemma_find_before(ins, p as int);
            assert(find(pre, key@) is None);
            assert(named(chans@)[j as int].1 == chans@[j as int].1);
        }
        match val {
            ChannelValue::List(_) => {
                let e = chans[j].1.mismatch();
                proof {
                    let m0 = chans@[j as int].1;
                    assert(cs[j as int].1.copied_to(m0));
                    assert(m0.mismatch_message() == cs[j as int].1.mismatch_message());
                    assert(list_input(cs, cur) == Some(cs[j as int].1.mismatch_message()));
                    lemma_list_input_prefix(cs, ins, p + 1);
                }
                match e {
                    ChannelError::TypeMismatch(m) => {
                        return Err(PregelError::TypeMismatch(m));
                    },
                    other => {
                        return Err(PregelError::Channel(other));
                    },
                }
            },
            ChannelValue::Single(v) => {
                let ghost vv = v;
                let (name, mut kind) = chans.remove(j);
                let ghost first = kind;
                let mut batch: Vec<V> = Vec::new();
                batch.push(v);
                assert(batch@ =~= seq![vv]);
                let _ = kind.update(batch);
                chans.insert(j, (name, kind));
                proof {
                    assert(first == before[j as int].1);
                    assert(first.update_to(seq![vv], kind));
                    assert(before[j as int].1.kind_well_formed());
                    assert(list_input(cs, cur) is None);
                    assert forall|i: int| 0 <= i < cs.len() implies seeded(
                        cs[i].1,
                        find(cur, cs[i].0),
                        #[trigger] named(chans@)[i].1,
                    ) by {
                        crate::keyed::lemma_find_push(pre, (key@, ChannelValue::Single(vv)), cs[i].0);
                        if i == j {
                            assert(named(chans@)[i].1 == kind);
                            assert(seeded(cs[i].1, find(pre, cs[i].0), named(before)[i].1));
                        } else {
                            assert(chans@[i] == before[i]);
                            assert(keys(cs)[i] == cs[i].0);
                            assert(keys(cs)[j as int] == cs[j as int].0);
                            assert(cs[i].0 != key@);
                        }
                    }
                    assert(keys(named(chans@)) =~= keys(cs)) by {
                        assert forall|i: int| 0 <= i < cs.len() implies keys(named(chans@))[i]
                            == keys(cs)[i] by {
                            if i != j {
                                assert(chans@[i] == before[i]);
                                assert(keys(named(before))[i] == keys(cs)[i]);
                            }
                        }
                    }
                    assert forall|i: int| 0 <= i < chans@.len() implies #[trigger] chans@[i].1.kind_well_formed() by {
                        if i != j {
                            assert(chans@[i] == before[i]);
                        }
                    }
                }
            },
        }
        p = p + 1;
    }
    assert(ins.take(p as int) =~= ins);
    Ok(chans)
}

} // verus!

verus! {

/// Runs the nodes at `active`, in order, on `snapshot`, and gathers their
/// writes in that order; every node runs, and the first failure is reported.
fn run_nodes<V: Clone + PartialEq + 'static>(
    nodes: &Vec<PregelNode<V>>,
    active: &Vec<usize>,
    snapshot: &ChannelValues<V>,
) -> (r: Result<Vec<ChannelWriteEntry<V>>, PregelError>)
    requires
        forall|i: int| 0 <= i < nodes@.len() ==> #[trigger] nodes@[i].wf(),
        forall|a: int| 0 <= a < active@.len() ==> active@[a] < nodes@.len(),
        snapshot.wf(),
    ensures
        r matches Err(e) ==> (e is ExecutionError || e is MissingChannel) && nodes_failed(
            nodes@,
            active@.map_values(|x: usize| x as int),
            *snapshot,
            e,
        ),
        r matches Ok(all) ==> nodes_wrote(
            nodes@,
            active@.map_values(|x: usize| x as int),
            *snapshot,
            all@,
        ),
{
    let ghost act = active@.map_values(|x: usize| x as int);
    let mut all: Vec<ChannelWriteEntry<V>> = Vec::new();
    let mut failure: Option<PregelError> = None;
    let ghost mut ws: Seq<Vec<ChannelWriteEntry<V>>> = Seq::empty();
    let mut a: usize = 0;
    assert(flatten(ws) =~= all@);
    while a < active.len()
        invariant
            act == active@.map_values(|x: usize| x as int),
            forall|i: int| 0 <= i < nodes@.len() ==> #[trigger] nodes@[i].wf(),
            forall|b: int| 0 <= b < active@.len() ==> active@[b] < nodes@.len(),
            snapshot.wf(),
            a <= active@.len(),
            failure matches Some(e) ==> (e is ExecutionError || e is MissingChannel) && nodes_failed(
                nodes@,
                act,
                *snapshot,
                e,
            ),
            failure is None ==> {
                &&& ws.len() == a
                &&& flatten(ws) == all@
                &&& forall|b: int|
                    0 <= b < a ==> nodes@[act[b]].produces(
                        *snapshot,
                        nodes@[act[b]].write_targets@,
                        Ok(#[trigger] ws[b]),
                    )
            },
        decreases active@.len() - a,
    {
        let idx = active[a];
        assert(act[a as int] == idx as int);
        match nodes[idx].run(snapshot) {
            Ok(w) => {
                let ghost wv = w;
                let ghost before = all@;
                let mut w = w;
                all.append(&mut w);
                proof {
                    if failure is None {
                        let grown = ws.push(wv);
                        assert(grown.drop_last() =~= ws);
                        assert(flatten(grown) =~= before + wv@);
                        assert forall|b: int|
                            0 <= b < a + 1 implies nodes@[act[b]].produces(
                            *snapshot,
                            nodes@[act[b]].write_targets@,
                            Ok(#[trigger] grown[b]),
                        ) by {
                            if b < a {
                                assert(grown[b] == ws[b]);
                            }
                        }
                        ws = grown;
                    }
                }
            },
            Err(e) => {
                if failure.is_none() {
                    proof {
                        assert(ws.len() == a);
                        assert(nodes@[act[a as int]].produces(
                            *snapshot,
                            nodes@[act[a as int]].write_targets@,
                            Err(e),
                        ));
                        assert(nodes_failed(nodes@, act, *snapshot, e));
                    }
                    failure = Some(e);
                }
            },
        }
        a = a + 1;
    }
    match failure {
        Some(e) => Err(e),
        None => {
            assert(ws.len() == act.len());
            Ok(all)
        },
    }
}

impl<V: Clone + PartialEq + 'static> Pregel<V> {
    /// The channels the result holds: the output channels, or every channel
    /// when none is named.
    pub open spec fn result_names(&self) -> Seq<Seq<char>> {
        if self.output_channels@.len() == 0 {
            keys(named(self.channels@))
        } else {
            views(self.output_channels@)
        }
    }

    /// `states` is a run so far: it starts from copies of the channels that
    /// took `ins`, and each state leads to the next by one superstep.
    pub open spec fn reached(
        &self,
        ins: Seq<(Seq<char>, ChannelValue<V>)>,
        states: Seq<Seq<(Seq<char>, ChannelKind<V>)>>,
    ) -> bool {
        &&& 1 <= states.len()
        &&& initial_state(named(self.channels@), ins, states[0])
        &&& run_chain(self.nodes@, states)
    }

    /// In state `st`, some node is triggered and the triggered nodes, run on
    /// a copy of the channels, succeed and write to `c`, which is no channel;
    /// `c` is the channel of the first such write.
    pub open spec fn writes_unknown(&self, st: Seq<(Seq<char>, ChannelKind<V>)>, c: Seq<char>) -> bool {
        exists|snap: ChannelValues<V>, w: Seq<ChannelWriteEntry<V>>|
            #![trigger snapshot_of(st, snap), unknown_target(st, w)]
            {
                &&& active_of(self.nodes@, st).len() > 0
                &&& snapshot_of(st, snap)
                &&& nodes_wrote(self.nodes@, active_of(self.nodes@, st), snap, w)
                &&& unknown_target(st, w) == Some(c)
            }
    }

    /// In state `st`, some node is triggered and, run on a copy of the
    /// channels, the first triggered node to fail fails with `e`.
    pub open spec fn node_fails(&self, st: Seq<(Seq<char>, ChannelKind<V>)>, e: PregelError) -> bool {
        exists|snap: ChannelValues<V>|
            #![trigger snapshot_of(st, snap)]
            {
                &&& active_of(self.nodes@, st).len() > 0
                &&& snapshot_of(st, snap)
                &&& nodes_failed(self.nodes@, active_of(self.nodes@, st), snap, e)
            }
    }

    /// Some run from `ins`, of fewer supersteps than `max_steps`, ends in a
    /// state whose channels named by `result_names` hold `out`.
    pub open spec fn ends_with(
        &self,
        ins: Seq<(Seq<char>, ChannelValue<V>)>,
        out: Seq<(Seq<char>, ChannelValue<V>)>,
    ) -> bool {
        exists|states: Seq<Seq<(Seq<char>, ChannelKind<V>)>>|
            {
                &&& states.len() <= self.max_steps
                &&& self.reached(ins, states)
                &&& quiet_end(self.nodes@, states.last())
                &&& #[trigger] selection_of(states.last(), self.result_names(), out)
            }
    }

    /// What running the application on `inputs` may give. Empty inputs, an
    /// input naming no channel and an input that is a list are refused, in
    /// that order. Otherwise copies of the channels take the inputs and
    /// supersteps run (see `superstep`) until no node is triggered or the
    /// triggered nodes write nothing: the result then holds the channels
    /// named by `result_names`. The run fails when a superstep's first
    /// failing node fails, when its nodes write to an unknown channel, and
    /// when `max_steps` supersteps ran.
    pub open spec fn invoke_outcome(
        &self,
        ins: Seq<(Seq<char>, ChannelValue<V>)>,
        r: Result<Seq<(Seq<char>, ChannelValue<V>)>, PregelError>,
    ) -> bool {
        let cs = named(self.channels@);
        if ins.len() == 0 {
            r == Err::<Seq<(Seq<char>, ChannelValue<V>)>, PregelError>(PregelError::EmptyInput)
        } else if unknown_input(cs, ins) is Some {
            r matches Err(PregelError::ChannelNotFound(s)) && s@ == unknown_input(cs, ins)->0
        } else if list_input(cs, ins) is Some {
            r matches Err(PregelError::TypeMismatch(s)) && s@ == list_input(cs, ins)->0
        } else {
            &&& self.max_steps == 0 ==> r == Err::<Seq<(Seq<char>, ChannelValue<V>)>, PregelError>(
                PregelError::MaxStepsExceeded(0),
            )
            &&& match r {
                Ok(out) => distinct(keys(out)) && self.ends_with(ins, out),
                Err(PregelError::MaxStepsExceeded(m)) => {
                    &&& m == self.max_steps
                    &&& exists|states: Seq<Seq<(Seq<char>, ChannelKind<V>)>>|
                        states.len() == self.max_steps + 1 && #[trigger] self.reached(ins, states)
                },
                Err(PregelError::ChannelNotFound(c)) => exists|
                    states: Seq<Seq<(Seq<char>, ChannelKind<V>)>>,
                |
                    states.len() <= self.max_steps && #[trigger] self.reached(ins, states)
                        && self.writes_unknown(states.last(), c@),
                Err(e) => {
                    &&& (e is ExecutionError || e is MissingChannel)
                    &&& exists|states: Seq<Seq<(Seq<char>, ChannelKind<V>)>>|
                        states.len() <= self.max_steps && #[trigger] self.reached(ins, states)
                            && self.node_fails(states.last(), e)
                },
            }
        }
    }

    /// A result read at the end of a run from the seeded channels, within
    /// the step bound, is an outcome of valid inputs.
    #[verifier::spinoff_prover]
    proof fn lemma_ok_outcome(
        &self,
        ins: Seq<(Seq<char>, ChannelValue<V>)>,
        states: Seq<Seq<(Seq<char>, ChannelKind<V>)>>,
        out: Seq<(Seq<char>, ChannelValue<V>)>,
    )
        requires
            ins.len() > 0,
            unknown_input(named(self.channels@), ins) is None,
            list_input(named(self.channels@), ins) is None,
            states.len() <= self.max_steps,
            self.reached(ins, states),
            quiet_end(self.nodes@, states.last()),
            selection_of(states.last(), self.result_names(), out),
            distinct(keys(out)),
        ensures
            self.invoke_outcome(ins, Ok(out)),
    {
        assert(self.ends_with(ins, out));
    }

    /// A run that failed at its last state is an outcome of valid inputs.
    #[verifier::spinoff_prover]
    proof fn lemma_err_outcome(
        &self,
        ins: Seq<(Seq<char>, ChannelValue<V>)>,
        states: Seq<Seq<(Seq<char>, ChannelKind<V>)>>,
        e: PregelError,
    )
        requires
            ins.len() > 0,
            unknown_input(named(self.channels@), ins) is None,
            list_input(named(self.channels@), ins) is None,
            self.reached(ins, states),
            match e {
                PregelError::MaxStepsExceeded(m) => m == self.max_steps && states.len()
                    == self.max_steps + 1,
                PregelError::ChannelNotFound(c) => states.len() <= self.max_steps
                    && self.writes_unknown(states.last(), c@),
                _ => (e is ExecutionError || e is MissingChannel) && states.len() <= self.max_steps
                    && self.node_fails(states.last(), e),
            },
        ensures
            self.invoke_outcome(ins, Err(e)),
    {
        assert(self.reached(ins, states));
    }

    /// Runs the application on `inputs`.
    pub fn invoke_values(&self, inputs: ChannelValues<V>) -> (r: Result<ChannelValues<V>, PregelError>)
        requires
            self.wf(),
            inputs.wf(),
        ensures
            self.invoke_outcome(
                inputs@,
                match r {
                    Ok(out) => Ok(out@),
                    Err(e) => Err(e),
                },
            ),
            r matches Ok(out) ==> out.wf(),
    {
        let ghost ins = inputs@;
        let ghost cs = named(self.channels@);
        if inputs.is_empty() {
            return Err(PregelError::EmptyInput);
        }
        let entries = inputs.into_entries();
        match check_inputs(&self.channels, &entries) {
            Err(e) => {
                return Err(e);
            },
            Ok(()) => {},
        }
        let mut chans = match seed_inputs(&self.channels, entries) {
            Err(e) => {
                return Err(e);
            },
            Ok(c) => c,
        };
        let ghost mut states: Seq<Seq<(Seq<char>, ChannelKind<V>)>> = seq![named(chans@)];
        let mut step: usize = 0;
        #[verifier::loop_isolation(false)]
        while step < self.max_steps
            invariant
                self.wf(),
                cs == named(self.channels@),
                keys(named(chans@)) == keys(cs),
                kinds_ok(chans@),
                step <= self.max_steps,
                states.len() == step + 1,
                self.reached(ins, states),
                states.last() == named(chans@),
            decreases self.max_steps - step,
        {
            let ghost cur = named(chans@);
            let active = plan(&self.nodes, &chans);
            if active.len() == 0 {
                proof {
                    assert(active_of(self.nodes@, cur).len() == 0);
                    assert(quiet_end(self.nodes@, states.last()));
                }
                break;
            }
            let names = channel_names(&chans);
            let snapshot = select(&chans, &names);
            assert(snapshot_of(cur, snapshot));
            let writes = match run_nodes(&self.nodes, &active, &snapshot) {
                Err(e) => {
                    proof {
                        assert(self.node_fails(cur, e));
                        self.lemma_err_outcome(ins, states, e);
                    }
                    return Err(e);
                },
                Ok(w) => w,
            };
            let ghost ws = writes@;
            assert(nodes_wrote(self.nodes@, active_of(self.nodes@, cur), snapshot, ws));
            if writes.len() == 0 {
                proof {
                    assert(ws =~= Seq::<ChannelWriteEntry<V>>::empty());
                    assert(quiet_end(self.nodes@, states.last()));
                }
                break;
            }
            chans = match apply_writes(chans, writes) {
                Err(e) => {
                    proof {
                        let c = unknown_target(cur, ws)->0;
                        assert(self.writes_unknown(cur, c));
                        self.lemma_err_outcome(ins, states, e);
                    }
                    return Err(e);
                },
                Ok(next) => next,
            };
            proof {
                assert(stepped(cur, ws, named(chans@)));
                assert(superstep(self.nodes@, cur, named(chans@)));
                let grown = states.push(named(chans@));
                assert forall|i: int| #![trigger grown[i + 1]] 0 <= i < grown.len() - 1 implies superstep(
                    self.nodes@,
                    grown[i],
                    grown[i + 1],
                ) by {
                    if i < states.len() - 1 {
                        assert(grown[i] == states[i]);
                        assert(grown[i + 1] == states[i + 1]);
                    }
                }
                states = grown;
            }
            step = step + 1;
        }
        if step >= self.max_steps {
            proof {
                self.lemma_err_outcome(ins, states, PregelError::MaxStepsExceeded(self.max_steps));
            }
            return Err(PregelError::MaxStepsExceeded(self.max_steps));
        }
        let out = if self.output_channels.len() == 0 {
            let names = channel_names(&chans);
            select(&chans, &names)
        } else {
            select(&chans, &self.output_channels)
        };
        proof {
            self.lemma_ok_outcome(ins, states, out@);
        }
        Ok(out)
    }
}

} // verus!

verus! {

/// The entries of `s` gathered by name, a later entry replacing an earlier
/// one of the same name in place.
pub open spec fn gathered<X>(s: Seq<(Seq<char>, X)>) -> Seq<(Seq<char>, X)>
    decreases s.len(),
{
    if s.len() == 0 {
        s
    } else {
        put(gathered(s.drop_last()), s.last().0, s.last().1)
    }
}

/// Inputs whose names are all different are gathered as they are, so
/// `invoke` on them answers as `invoke_values` does on the same entries (both
/// are stated by `invoke_outcome`).
pub proof fn law_invoke_as_invoke_values<X>(s: Seq<(Seq<char>, X)>)
    requires
        crate::keyed::distinct(crate::keyed::keys(s)),
    ensures
        gathered(s) == s,
    decreases s.len(),
{
    if s.len() > 0 {
        let d = s.drop_last();
        assert(crate::keyed::keys(d) =~= crate::keyed::keys(s).drop_last());
        law_invoke_as_invoke_values(d);
        crate::keyed::lemma_pos(d, s.last().0);
        assert forall|j: int| 0 <= j < d.len() implies d[j].0 != s.last().0 by {
            assert(crate::keyed::keys(s)[j] == d[j].0);
            assert(crate::keyed::keys(s)[s.len() - 1] == s.last().0);
        }
        assert(d.push(s.last()) =~= s);
    }
}

impl<V: Clone + PartialEq + 'static> Pregel<V> {
    /// Runs the application on named inputs (a later input replacing an
    /// earlier one of the same name) and returns the named results.
    pub fn invoke(&self, inputs: Vec<(String, ChannelValue<V>)>) -> (r: Result<
        Vec<(String, ChannelValue<V>)>,
        PregelError,
    >)
        requires
            self.wf(),
        ensures
            self.invoke_outcome(
                gathered(named(inputs@)),
                match r {
                    Ok(out) => Ok(named(out@)),
                    Err(e) => Err(e),
                },
            ),
    {
        let ghost ins = named(inputs@);
        let mut values: ChannelValues<V> = ChannelValues::new();
        let mut inputs = inputs;
        let total = inputs.len();
        let mut p: usize = 0;
        assert(ins.take(0) =~= Seq::<(Seq<char>, ChannelValue<V>)>::empty());
        #[verifier::loop_isolation(false)]
        while inputs.len() > 0
            invariant
                ins.len() == total,
                ins.len() == p + inputs@.len(),
                named(inputs@) == ins.skip(p as int),
                values.wf(),
                values@ == gathered(ins.take(p as int)),
            decreases inputs@.len(),
        {
            let ghost before_in = inputs@;
            let (name, value) = inputs.remove(0);
            proof {
                assert(named(before_in)[0] == ins.skip(p as int)[0]);
                assert(ins.take(p + 1).drop_last() =~= ins.take(p as int));
                assert forall|q: int| 0 <= q < named(inputs@).len() implies named(inputs@)[q]
                    == ins.skip(p + 1)[q] by {
                    assert(inputs@[q] == before_in[q + 1]);
                    assert(named(before_in)[q + 1] == ins.skip(p as int)[q + 1]);
                }
                assert(named(inputs@) =~= ins.skip(p + 1));
            }
            values.insert_boxed(name.as_str(), value);
            p = p + 1;
        }
        assert(ins.take(p as int) =~= ins);
        match self.invoke_values(values) {
            Ok(out) => Ok(out.into_entries()),
            Err(e) => Err(e),
        }
    }

    /// Runs the application on one input and returns the single value of one
    /// channel; a result without that value is `MissingChannel`.
    pub fn invoke_single(&self, input_channel: &str, input: V, output_channel: &str) -> (r: Result<
        V,
        PregelError,
    >)
        requires
            self.wf(),
        ensures
            exists|res: Result<Seq<(Seq<char>, ChannelValue<V>)>, PregelError>|
                #[trigger] self.invoke_outcome(seq![(input_channel@, ChannelValue::Single(input))], res)
                    && match res {
                    Err(e) => r == Err::<V, PregelError>(e),
                    Ok(out) => match find(out, output_channel@) {
                        Some(ChannelValue::Single(x)) => r matches Ok(y) && cloned(x, y),
                        _ => r matches Err(PregelError::MissingChannel(c)) && c@ == output_channel@,
                    },
                },
    {
        let ghost ins = seq![(input_channel@, ChannelValue::Single(input))];
        let mut values: ChannelValues<V> = ChannelValues::new();
        values.insert(input_channel, input);
        assert(values@ =~= ins);
        match self.invoke_values(values) {
            Err(e) => {
                let ghost res = Err::<Seq<(Seq<char>, ChannelValue<V>)>, PregelError>(e);
                assert(self.invoke_outcome(ins, res));
                Err(e)
            },
            Ok(out) => {
                let ghost res = Ok::<Seq<(Seq<char>, ChannelValue<V>)>, PregelError>(out@);
                assert(self.invoke_outcome(ins, res));
                match out.get(output_channel) {
                    Some(v) => Ok(v),
                    None => Err(PregelError::MissingChannel(output_channel.to_owned())),
                }
            },
        }
    }

    /// Names the channels that receive inputs.
    pub fn set_input_channels(&mut self, channels: Vec<&str>) -> (r: &mut Self)
        requires
            old(self).wf(),
        ensures
            r.wf(),
            views(r.input_channels@) == channels@.map_values(|s: &str| s@),
            r.nodes@ == old(self).nodes@,
            r.channels@ == old(self).channels@,
            r.output_channels@ == old(self).output_channels@,
            r.max_steps == old(self).max_steps,
            *final(self) == *final(r),
    {
        self.input_channels = owned_names(&channels);
        self
    }

    /// Names the channels the result holds; with none named, the result
    /// holds every channel that has a value.
    pub fn set_output_channels(&mut self, channels: Vec<&str>) -> (r: &mut Self)
        requires
            old(self).wf(),
        ensures
            r.wf(),
            views(r.output_channels@) == channels@.map_values(|s: &str| s@),
            r.nodes@ == old(self).nodes@,
            r.channels@ == old(self).channels@,
            r.input_channels@ == old(self).input_channels@,
            r.max_steps == old(self).max_steps,
            *final(self) == *final(r),
    {
        self.output_channels = owned_names(&channels);
        self
    }

    /// Sets how many supersteps may run before `MaxStepsExceeded`.
    pub fn set_max_steps(&mut self, max: usize) -> (r: &mut Self)
        requires
            old(self).wf(),
        ensures
            r.wf(),
            r.max_steps == max,
            r.nodes@ == old(self).nodes@,
            r.channels@ == old(self).channels@,
            r.input_channels@ == old(self).input_channels@,
            r.output_channels@ == old(self).output_channels@,
            *final(self) == *final(r),
    {
        self.max_steps = max;
        self
    }
}

impl<V: Clone + PartialEq + 'static> Default for Pregel<V> {
    fn default() -> (r: Self)
        ensures
            r.wf(),
            r.nodes@.len() == 0,
            r.channels@.len() == 0,
            r.input_channels@.len() == 0,
            r.output_channels@.len() == 0,
            r.max_steps == 25,
    {
        Self::new()
    }
}

} // verus!

verus! {

/// Over a superstep a `LastValue` keeps its value unless written, and then
/// holds the last value written; it counts as updated exactly when written.
pub proof fn law_last_value_step<V: Clone + PartialEq>(
    a: LastValue<V>,
    vals: Seq<V>,
    b: ChannelKind<V>,
)
    requires
        stepped_kind(ChannelKind::LastValue(a), vals, b),
    ensures
        b matches ChannelKind::LastValue(c) && c.value == (if vals.len() == 0 {
            a.value
        } else {
            Some(vals.last())
        }) && c.updated == (vals.len() > 0),
{
}

/// Over a superstep an `EphemeralValue` forgets its value unless written,
/// and then holds the last value written.
pub proof fn law_ephemeral_step<V: Clone + PartialEq>(
    a: EphemeralValue<V>,
    vals: Seq<V>,
    b: ChannelKind<V>,
)
    requires
        stepped_kind(ChannelKind::Ephemeral(a), vals, b),
    ensures
        b matches ChannelKind::Ephemeral(c) && c.value == (if vals.len() == 0 {
            None
        } else {
            Some(vals.last())
        }) && c.updated == (vals.len() > 0),
{
}

/// Over a superstep a `Topic` holds what it kept (everything when it
/// accumulates, nothing otherwise) followed by the values written, in order,
/// each skipped when deduplicating and an equal value is already held; it
/// counts as updated exactly when something was added.
pub proof fn law_topic_step<V: Clone + PartialEq>(a: Topic<V>, vals: Seq<V>, b: ChannelKind<V>)
    requires
        stepped_kind(ChannelKind::Topic(a), vals, b),
    ensures
        b matches ChannelKind::Topic(c) && {
            let kept = if a.accumulate {
                a.values@
            } else {
                Seq::empty()
            };
            &&& !a.dedup ==> c.values@ == kept + vals
            &&& V::obeys_eq_spec() ==> c.values@ == topic_add(kept, vals, a.dedup)
            &&& c.updated == (c.values@.len() > kept.len())
            &&& c.accumulate == a.accumulate
            &&& c.dedup == a.dedup
        },
{
    let m = choose|m: ChannelKind<V>|
        ChannelKind::Topic(a).reset_to(m) && #[trigger] m.update_to(vals, b);
    if let ChannelKind::Topic(mt) = m {
        if !a.accumulate {
            assert(mt.values@ =~= Seq::<V>::empty());
        }
    }
}

/// Over a superstep a `BinaryOperatorAggregate` folds the values written,
/// in order, into the value it held.
pub proof fn law_aggregate_step<V: Clone + PartialEq>(
    a: BinaryOperatorAggregate<V>,
    vals: Seq<V>,
    b: ChannelKind<V>,
)
    requires
        stepped_kind(ChannelKind::Aggregate(a), vals, b),
    ensures
        b matches ChannelKind::Aggregate(c) && folded(a.reducer, a.value, vals, c.value)
            && c.reducer == a.reducer && c.updated == (vals.len() > 0),
{
}

} // verus!
