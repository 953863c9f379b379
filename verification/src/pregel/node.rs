//! Nodes of a superstep application: the channels that trigger them, the
//! channels they read, the channels they write, and what they compute.
use std::marker::PhantomData;

use vstd::prelude::*;
use vstd::string::*;

use crate::errors::PregelError;
use crate::keyed::{distinct, find, index_of, keys, named, put, put_named};
use crate::pregel::channel::ChannelValue;
use crate::text::views;

verus! {

/// A snapshot of channel values, by channel name.
#[derive(Debug)]
pub struct ChannelValues<V> {
    values: Vec<(String, ChannelValue<V>)>,
}

impl<V> View for ChannelValues<V> {
    type V = Seq<(Seq<char>, ChannelValue<V>)>;

    closed spec fn view(&self) -> Seq<(Seq<char>, ChannelValue<V>)> {
        named(self.values@)
    }
}

impl<V> ChannelValues<V> {
    /// No channel name occurs twice.
    pub open spec fn wf(&self) -> bool {
        distinct(keys(self@))
    }

    /// An empty snapshot.
    pub fn new() -> (r: Self)
        ensures
            r.wf(),
            r@ == Seq::<(Seq<char>, ChannelValue<V>)>::empty(),
    {
        let r = ChannelValues { values: Vec::new() };
        assert(r@ =~= Seq::<(Seq<char>, ChannelValue<V>)>::empty());
        r
    }

    fn put_value(&mut self, channel: String, value: ChannelValue<V>)
        requires
            old(self).wf(),
        ensures
            final(self).wf(),
            final(self)@ == put(old(self)@, channel@, value),
    {
        put_named(&mut self.values, channel, value);
    }

    /// Sets the value of `channel`.
    pub fn insert(&mut self, channel: &str, value: V) -> (r: &mut Self)
        requires
            old(self).wf(),
        ensures
            r.wf(),
            r@ == put(old(self)@, channel@, ChannelValue::Single(value)),
            *final(self) == *final(r),
    {
        self.put_value(channel.to_owned(), ChannelValue::Single(value));
        self
    }

    /// Sets the value of `channel` to a value already wrapped as a channel value.
    pub fn insert_boxed(&mut self, channel: &str, boxed: ChannelValue<V>) -> (r: &mut Self)
        requires
            old(self).wf(),
        ensures
            r.wf(),
            r@ == put(old(self)@, channel@, boxed),
            *final(self) == *final(r),
    {
        self.put_value(channel.to_owned(), boxed);
        self
    }

    /// The value of `channel`.
    pub fn get_ref(&self, channel: &str) -> (r: Option<&V>)
        requires
            self.wf(),
        ensures
            reads_ref(self@, channel@, r),
    {
        let key = channel.to_owned();
        match index_of(&self.values, &key) {
            Some(i) => match &self.values[i].1 {
                ChannelValue::Single(x) => Some(x),
                ChannelValue::List(_) => None,
            },
            None => None,
        }
    }

    /// A copy of the value of `channel`, when it holds a single value.
    pub fn get(&self, channel: &str) -> (r: Option<V>) where V: Clone
        requires
            self.wf(),
        ensures
            reads_clone(self@, channel@, r),
    {
        match self.get_ref(channel) {
            Some(x) => Some(x.clone()),
            None => None,
        }
    }

    /// A copy of the list `channel` holds, when it holds a list.
    pub fn get_list(&self, channel: &str) -> (r: Option<Vec<V>>) where V: Clone
        requires
            self.wf(),
        ensures
            match find(self@, channel@) {
                Some(ChannelValue::List(xs)) => r matches Some(ys) && ys@.len() == xs@.len()
                    && forall|i: int| 0 <= i < xs@.len() ==> cloned(xs@[i], ys@[i]),
                _ => r is None,
            },
    {
        let key = channel.to_owned();
        match index_of(&self.values, &key) {
            Some(i) => match &self.values[i].1 {
                ChannelValue::List(xs) => Some(xs.clone()),
                ChannelValue::Single(_) => None,
            },
            None => None,
        }
    }

    /// Whether `channel` has a value.
    pub fn contains_key(&self, channel: &str) -> (r: bool)
        requires
            self.wf(),
        ensures
            r == (find(self@, channel@) is Some),
    {
        let key = channel.to_owned();
        index_of(&self.values, &key).is_some()
    }

    /// The number of channels with a value.
    pub fn len(&self) -> (r: usize)
        ensures
            r == self@.len(),
    {
        self.values.len()
    }

    /// Whether no channel has a value.
    pub fn is_empty(&self) -> (r: bool)
        ensures
            r == (self@.len() == 0),
    {
        self.values.len() == 0
    }

    /// The entry at `i`, in insertion order.
    pub fn entry(&self, i: usize) -> (r: (&String, &ChannelValue<V>))
        requires
            i < self@.len(),
        ensures
            r.0@ == self@[i as int].0,
            *r.1 == self@[i as int].1,
    {
        (&self.values[i].0, &self.values[i].1)
    }

    /// The entries, in insertion order.
    pub fn into_entries(self) -> (r: Vec<(String, ChannelValue<V>)>)
        ensures
            named(r@) == self@,
    {
        self.values
    }
}

/// `r` is the reference that `get_ref` gives for `channel` of `values`: the
/// channel's single value, or nothing.
pub open spec fn reads_ref<V>(
    values: Seq<(Seq<char>, ChannelValue<V>)>,
    channel: Seq<char>,
    r: Option<&V>,
) -> bool {
    match find(values, channel) {
        Some(ChannelValue::Single(x)) => r == Some(&x),
        _ => r is None,
    }
}

/// `r` is what `get` gives for `channel` of `values`: a clone of the
/// channel's single value, or nothing.
pub open spec fn reads_clone<V: Clone>(
    values: Seq<(Seq<char>, ChannelValue<V>)>,
    channel: Seq<char>,
    r: Option<V>,
) -> bool {
    match find(values, channel) {
        Some(ChannelValue::Single(x)) => r matches Some(y) && cloned(x, y),
        _ => r is None,
    }
}

/// `get` gives a clone of what `get_ref` refers to, and nothing exactly
/// where `get_ref` gives nothing.
pub proof fn law_get_clones_get_ref<V: Clone>(
    values: Seq<(Seq<char>, ChannelValue<V>)>,
    channel: Seq<char>,
    a: Option<&V>,
    b: Option<V>,
)
    requires
        reads_ref(values, channel, a),
        reads_clone(values, channel, b),
    ensures
        a is None <==> b is None,
        a matches Some(x) ==> b matches Some(y) && cloned(*x, y),
{
}

/// Reading back a write: after `channel` is set to `v`, it reads `v`, and
/// every other channel reads what it did before.
pub proof fn law_insert_get<V>(
    s: Seq<(Seq<char>, ChannelValue<V>)>,
    channel: Seq<char>,
    v: ChannelValue<V>,
    other: Seq<char>,
)
    requires
        distinct(keys(s)),
    ensures
        find(put(s, channel, v), channel) == Some(v),
        other != channel ==> find(put(s, channel, v), other) == find(s, other),
        distinct(keys(put(s, channel, v))),
{
    crate::keyed::lemma_put(s, channel, v);
}

/// One write directed to a channel.
pub struct ChannelWriteEntry<V> {
    pub channel: String,
    pub value: V,
}

impl<V> ChannelWriteEntry<V> {
    /// A write of `value` to `channel`.
    pub fn new(channel: &str, value: V) -> (r: Self)
        ensures
            r.channel@ == channel@,
            r.value == value,
    {
        ChannelWriteEntry { channel: channel.to_owned(), value }
    }

    /// A write of `value` to `channel`, the channel name given as a `String`.
    pub fn boxed(channel: String, value: V) -> (r: Self)
        ensures
            r.channel@ == channel@,
            r.value == value,
    {
        ChannelWriteEntry { channel, value }
    }
}

/// The channels of a list of writes, in order.
pub open spec fn write_channels<V>(w: Seq<ChannelWriteEntry<V>>) -> Seq<Seq<char>> {
    w.map_values(|e: ChannelWriteEntry<V>| e.channel@)
}

/// One write of a clone of `out` to each of `targets`, in order.
pub open spec fn broadcast_to<V: Clone>(
    out: V,
    targets: Seq<String>,
    writes: Seq<ChannelWriteEntry<V>>,
) -> bool {
    &&& writes.len() == targets.len()
    &&& forall|i: int|
        0 <= i < writes.len() ==> writes[i].channel@ == targets[i]@ && cloned(out, writes[i].value)
}

/// Writes a clone of `out` to each of `targets`.
fn broadcast<V: Clone>(out: &V, targets: &Vec<String>) -> (r: Vec<ChannelWriteEntry<V>>)
    ensures
        broadcast_to(*out, targets@, r@),
{
    let mut r: Vec<ChannelWriteEntry<V>> = Vec::new();
    let mut i: usize = 0;
    while i < targets.len()
        invariant
            i <= targets@.len(),
            r@.len() == i,
            forall|j: int|
                0 <= j < i ==> r@[j].channel@ == targets@[j]@ && cloned(*out, r@[j].value),
        decreases targets@.len() - i,
    {
        r.push(ChannelWriteEntry { channel: targets[i].clone(), value: out.clone() });
        i = i + 1;
    }
    r
}

/// What a node computes from a snapshot of channel values.
pub trait NodeAction<V> {
    /// Whether the computation accepts every input.
    spec fn callable(&self) -> bool;

    /// `r` is a possible outcome of the computation on `values`, writing to
    /// `targets`.
    spec fn produces(
        &self,
        values: ChannelValues<V>,
        targets: Seq<String>,
        r: Result<Vec<ChannelWriteEntry<V>>, PregelError>,
    ) -> bool;

    /// Computes the node's writes; a node fails only when its input is
    /// missing or its function fails.
    fn execute(&self, values: &ChannelValues<V>, write_targets: &Vec<String>) -> (r: Result<
        Vec<ChannelWriteEntry<V>>,
        PregelError,
    >)
        requires
            self.callable(),
            values.wf(),
        ensures
            r matches Err(e) ==> e is ExecutionError || e is MissingChannel,
            self.produces(*values, write_targets@, r),
    ;
}

/// Reads one channel and writes the function's result to every target.
pub struct MapAction<F> {
    pub read: String,
    pub func: F,
}

/// Reads one channel and writes the function's result to every target, or
/// fails with the function's error.
pub struct TryMapAction<F, E> {
    pub read: String,
    pub func: F,
    pub marker: PhantomData<E>,
}

/// Reads one channel and writes the function's result, when there is one,
/// to every target.
pub struct FilterMapAction<F> {
    pub read: String,
    pub func: F,
}

/// Reads one channel and writes the function's result, when there is one,
/// to every target, or fails with the function's error.
pub struct TryFilterMapAction<F, E> {
    pub read: String,
    pub func: F,
    pub marker: PhantomData<E>,
}

/// Produces its own writes from the whole snapshot, or fails.
pub struct TryValuesAction<F, E> {
    pub func: F,
    pub marker: PhantomData<E>,
}

/// Produces its own writes from the whole snapshot.
pub struct ValuesAction<F> {
    pub func: F,
}

/// Writes nothing.
pub struct NoAction;

/// The input of a node that reads `read`: a copy of its single value.
fn read_input<V: Clone>(values: &ChannelValues<V>, read: &String) -> (r: Result<V, PregelError>)
    requires
        values.wf(),
    ensures
        match find(values@, read@) {
            Some(ChannelValue::Single(x)) => r matches Ok(y) && cloned(x, y),
            _ => r matches Err(PregelError::MissingChannel(c)) && c@ == read@,
        },
{
    match values.get(read.as_str()) {
        Some(x) => Ok(x),
        None => Err(PregelError::MissingChannel(read.clone())),
    }
}

/// What a node that maps the value of channel `read` with `func` may give:
/// one write of the result per target, or `MissingChannel` when `read` holds
/// no single value.
pub open spec fn map_outcome<V: Clone, F: Fn(V) -> V>(
    func: F,
    read: Seq<char>,
    values: ChannelValues<V>,
    targets: Seq<String>,
    r: Result<Vec<ChannelWriteEntry<V>>, PregelError>,
) -> bool {
    match find(values@, read) {
        Some(ChannelValue::Single(x)) => r matches Ok(w) && exists|y: V, out: V|
            cloned(x, y) && call_ensures(func, (y,), out) && broadcast_to(out, targets, w@),
        _ => r matches Err(PregelError::MissingChannel(c)) && c@ == read,
    }
}

/// Like `map_outcome`, for a function that may fail: its failure is an
/// `ExecutionError`.
pub open spec fn try_map_outcome<V: Clone, E, F: Fn(V) -> Result<V, E>>(
    func: F,
    read: Seq<char>,
    values: ChannelValues<V>,
    targets: Seq<String>,
    r: Result<Vec<ChannelWriteEntry<V>>, PregelError>,
) -> bool {
    match find(values@, read) {
        Some(ChannelValue::Single(x)) => match r {
            Ok(w) => exists|y: V, out: V|
                cloned(x, y) && call_ensures(func, (y,), Ok::<V, E>(out)) && broadcast_to(
                    out,
                    targets,
                    w@,
                ),
            Err(e) => e is ExecutionError && exists|y: V, fe: E|
                cloned(x, y) && call_ensures(func, (y,), Err::<V, E>(fe)),
        },
        _ => r matches Err(PregelError::MissingChannel(c)) && c@ == read,
    }
}

/// Like `map_outcome`, for a function that may return nothing: then the
/// node writes nothing.
pub open spec fn filter_map_outcome<V: Clone, F: Fn(V) -> Option<V>>(
    func: F,
    read: Seq<char>,
    values: ChannelValues<V>,
    targets: Seq<String>,
    r: Result<Vec<ChannelWriteEntry<V>>, PregelError>,
) -> bool {
    match find(values@, read) {
        Some(ChannelValue::Single(x)) => r matches Ok(w) && exists|y: V, out: Option<V>|
            cloned(x, y) && call_ensures(func, (y,), out) && match out {
                Some(o) => broadcast_to(o, targets, w@),
                None => w@.len() == 0,
            },
        _ => r matches Err(PregelError::MissingChannel(c)) && c@ == read,
    }
}

/// Like `filter_map_outcome`, for a function that may fail: its failure is
/// an `ExecutionError`.
pub open spec fn try_filter_map_outcome<V: Clone, E, F: Fn(V) -> Result<Option<V>, E>>(
    func: F,
    read: Seq<char>,
    values: ChannelValues<V>,
    targets: Seq<String>,
    r: Result<Vec<ChannelWriteEntry<V>>, PregelError>,
) -> bool {
    match find(values@, read) {
        Some(ChannelValue::Single(x)) => match r {
            Ok(w) => exists|y: V, out: Option<V>|
                cloned(x, y) && call_ensures(func, (y,), Ok::<Option<V>, E>(out)) && match out {
                    Some(o) => broadcast_to(o, targets, w@),
                    None => w@.len() == 0,
                },
            Err(e) => e is ExecutionError && exists|y: V, fe: E|
                cloned(x, y) && call_ensures(func, (y,), Err::<Option<V>, E>(fe)),
        },
        _ => r matches Err(PregelError::MissingChannel(c)) && c@ == read,
    }
}

/// What a node whose function makes its writes from the whole snapshot, and
/// may fail, may give.
pub open spec fn try_values_outcome<
    V,
    E,
    F: Fn(&ChannelValues<V>) -> Result<Vec<ChannelWriteEntry<V>>, E>,
>(func: F, values: ChannelValues<V>, r: Result<Vec<ChannelWriteEntry<V>>, PregelError>) -> bool {
    match r {
        Ok(w) => call_ensures(func, (&values,), Ok::<Vec<ChannelWriteEntry<V>>, E>(w)),
        Err(e) => e is ExecutionError && exists|fe: E|
            call_ensures(func, (&values,), Err::<Vec<ChannelWriteEntry<V>>, E>(fe)),
    }
}

/// What a node whose function makes its writes from the whole snapshot may
/// give.
pub open spec fn values_outcome<V, F: Fn(&ChannelValues<V>) -> Vec<ChannelWriteEntry<V>>>(
    func: F,
    values: ChannelValues<V>,
    r: Result<Vec<ChannelWriteEntry<V>>, PregelError>,
) -> bool {
    r matches Ok(w) && call_ensures(func, (&values,), w)
}

impl<V: Clone, F: Fn(V) -> V> NodeAction<V> for MapAction<F> {
    open spec fn callable(&self) -> bool {
        forall|x: V| call_requires(self.func, (x,))
    }

    open spec fn produces(
        &self,
        values: ChannelValues<V>,
        targets: Seq<String>,
        r: Result<Vec<ChannelWriteEntry<V>>, PregelError>,
    ) -> bool {
        map_outcome(self.func, self.read@, values, targets, r)
    }

    fn execute(&self, values: &ChannelValues<V>, write_targets: &Vec<String>) -> (r: Result<
        Vec<ChannelWriteEntry<V>>,
        PregelError,
    >) {
        let input = read_input(values, &self.read)?;
        let ghost y = input;
        let out = (self.func)(input);
        let w = broadcast(&out, write_targets);
        assert(call_ensures(self.func, (y,), out));
        Ok(w)
    }
}

impl<V: Clone, E: core::fmt::Display, F: Fn(V) -> Result<V, E>> NodeAction<V> for TryMapAction<
    F,
    E,
> {
    open spec fn callable(&self) -> bool {
        forall|x: V| call_requires(self.func, (x,))
    }

    open spec fn produces(
        &self,
        values: ChannelValues<V>,
        targets: Seq<String>,
        r: Result<Vec<ChannelWriteEntry<V>>, PregelError>,
    ) -> bool {
        try_map_outcome(self.func, self.read@, values, targets, r)
    }

    fn execute(&self, values: &ChannelValues<V>, write_targets: &Vec<String>) -> (r: Result<
        Vec<ChannelWriteEntry<V>>,
        PregelError,
    >) {
        let input = read_input(values, &self.read)?;
        let ghost y = input;
        match (self.func)(input) {
            Ok(out) => {
                let w = broadcast(&out, write_targets);
                Ok(w)
            },
            Err(e) => Err(PregelError::ExecutionError(e.to_string())),
        }
    }
}

impl<V: Clone, F: Fn(V) -> Option<V>> NodeAction<V> for FilterMapAction<F> {
    open spec fn callable(&self) -> bool {
        forall|x: V| call_requires(self.func, (x,))
    }

    open spec fn produces(
        &self,
        values: ChannelValues<V>,
        targets: Seq<String>,
        r: Result<Vec<ChannelWriteEntry<V>>, PregelError>,
    ) -> bool {
        filter_map_outcome(self.func, self.read@, values, targets, r)
    }

    fn execute(&self, values: &ChannelValues<V>, write_targets: &Vec<String>) -> (r: Result<
        Vec<ChannelWriteEntry<V>>,
        PregelError,
    >) {
        let input = read_input(values, &self.read)?;
        let ghost y = input;
        let out = (self.func)(input);
        assert(call_ensures(self.func, (y,), out));
        match out {
            Some(o) => Ok(broadcast(&o, write_targets)),
            None => Ok(Vec::new()),
        }
    }
}

impl<V: Clone, E: core::fmt::Display, F: Fn(V) -> Result<Option<V>, E>> NodeAction<
    V,
> for TryFilterMapAction<F, E> {
    open spec fn callable(&self) -> bool {
        forall|x: V| call_requires(self.func, (x,))
    }

    open spec fn produces(
        &self,
        values: ChannelValues<V>,
        targets: Seq<String>,
        r: Result<Vec<ChannelWriteEntry<V>>, PregelError>,
    ) -> bool {
        try_filter_map_outcome(self.func, self.read@, values, targets, r)
    }

    fn execute(&self, values: &ChannelValues<V>, write_targets: &Vec<String>) -> (r: Result<
        Vec<ChannelWriteEntry<V>>,
        PregelError,
    >) {
        let input = read_input(values, &self.read)?;
        let ghost y = input;
        match (self.func)(input) {
            Ok(Some(o)) => Ok(broadcast(&o, write_targets)),
            Ok(None) => Ok(Vec::new()),
            Err(e) => Err(PregelError::ExecutionError(e.to_string())),
        }
    }
}

impl<
    V,
    E: core::fmt::Display,
    F: Fn(&ChannelValues<V>) -> Result<Vec<ChannelWriteEntry<V>>, E>,
> NodeAction<V> for TryValuesAction<F, E> {
    open spec fn callable(&self) -> bool {
        forall|x: &ChannelValues<V>| call_requires(self.func, (x,))
    }

    open spec fn produces(
        &self,
        values: ChannelValues<V>,
        targets: Seq<String>,
        r: Result<Vec<ChannelWriteEntry<V>>, PregelError>,
    ) -> bool {
        try_values_outcome(self.func, values, r)
    }

    fn execute(&self, values: &ChannelValues<V>, write_targets: &Vec<String>) -> (r: Result<
        Vec<ChannelWriteEntry<V>>,
        PregelError,
    >) {
        match (self.func)(values) {
            Ok(w) => Ok(w),
            Err(e) => Err(PregelError::ExecutionError(e.to_string())),
        }
    }
}

impl<V, F: Fn(&ChannelValues<V>) -> Vec<ChannelWriteEntry<V>>> NodeAction<V> for ValuesAction<F> {
    open spec fn callable(&self) -> bool {
        forall|x: &ChannelValues<V>| call_requires(self.func, (x,))
    }

    open spec fn produces(
        &self,
        values: ChannelValues<V>,
        targets: Seq<String>,
        r: Result<Vec<ChannelWriteEntry<V>>, PregelError>,
    ) -> bool {
        values_outcome(self.func, values, r)
    }

    fn execute(&self, values: &ChannelValues<V>, write_targets: &Vec<String>) -> (r: Result<
        Vec<ChannelWriteEntry<V>>,
        PregelError,
    >) {
        Ok((self.func)(values))
    }
}

impl<V> NodeAction<V> for NoAction {
    open spec fn callable(&self) -> bool {
        true
    }

    open spec fn produces(
        &self,
        values: ChannelValues<V>,
        targets: Seq<String>,
        r: Result<Vec<ChannelWriteEntry<V>>, PregelError>,
    ) -> bool {
        r matches Ok(w) && w@.len() == 0
    }

    fn execute(&self, values: &ChannelValues<V>, write_targets: &Vec<String>) -> (r: Result<
        Vec<ChannelWriteEntry<V>>,
        PregelError,
    >) {
        Ok(Vec::new())
    }
}

} // verus!

verus! {

/// An actor of the superstep model: it runs when a channel it subscribes to
/// was updated, reads a snapshot of the channels and returns writes.
#[verifier::reject_recursive_types(V)]
pub struct PregelNode<V> {
    pub name: String,
    pub triggers: Vec<String>,
    pub read_channels: Vec<String>,
    pub write_targets: Vec<String>,
    pub executor: ActionBox<V>,
    /// The test of the writes the node leaves out, if it leaves any out.
    pub skip: Option<SkipBox<V>>,
}

impl<V> PregelNode<V> {
    /// The node's computation accepts every input.
    pub open spec fn wf(&self) -> bool {
        self.executor.action.callable()
    }

    /// `r` is a possible outcome of the node on `values`, writing to
    /// `targets`: an outcome of its computation, less the writes it leaves
    /// out.
    pub open spec fn produces(
        &self,
        values: ChannelValues<V>,
        targets: Seq<String>,
        r: Result<Vec<ChannelWriteEntry<V>>, PregelError>,
    ) -> bool {
        match self.skip {
            None => self.executor.action.produces(values, targets, r),
            Some(t) => exists|r0: Result<Vec<ChannelWriteEntry<V>>, PregelError>|
                #[trigger] self.executor.action.produces(values, targets, r0) && without_skipped(
                    t,
                    r0,
                    r,
                ),
        }
    }

    /// Runs the node's computation on `values`, writing to its targets.
    pub fn run(&self, values: &ChannelValues<V>) -> (r: Result<Vec<ChannelWriteEntry<V>>, PregelError>)
        requires
            self.wf(),
            values.wf(),
        ensures
            r matches Err(e) ==> e is ExecutionError || e is MissingChannel,
            self.produces(*values, self.write_targets@, r),
    {
        let r0 = self.executor.action.execute(values, &self.write_targets);
        match &self.skip {
            None => r0,
            Some(t) => {
                let ghost g0 = r0;
                match r0 {
                    Err(e) => {
                        let r = Err(e);
                        assert(without_skipped(*t, g0, r));
                        r
                    },
                    Ok(w) => {
                        let kept = drop_skipped(t, w);
                        let r = Ok(kept);
                        assert(without_skipped(*t, g0, r));
                        r
                    },
                }
            },
        }
    }
}

/// The channel a node's single-input computation reads: its first read
/// channel, or the channel named like the node when it reads none.
pub open spec fn input_channel(read_channels: Seq<String>, name: String) -> Seq<char> {
    if read_channels.len() > 0 {
        read_channels[0]@
    } else {
        name@
    }
}

/// A node computation of any kind.
#[verifier::reject_recursive_types(V)]
pub struct ActionBox<V> {
    pub action: Box<dyn NodeAction<V>>,
}

/// Values that may stand for "no result".
pub trait Absence {
    /// Whether the value stands for "no result".
    spec fn absent(&self) -> bool;

    fn is_absent(&self) -> (r: bool)
        ensures
            r == self.absent(),
    ;
}

impl<W> Absence for Option<W> {
    open spec fn absent(&self) -> bool {
        self is None
    }

    fn is_absent(&self) -> (r: bool) {
        self.is_none()
    }
}

impl<W> Absence for Vec<W> {
    open spec fn absent(&self) -> bool {
        false
    }

    fn is_absent(&self) -> (r: bool) {
        false
    }
}

impl Absence for String {
    open spec fn absent(&self) -> bool {
        false
    }

    fn is_absent(&self) -> (r: bool) {
        false
    }
}

impl Absence for bool {
    open spec fn absent(&self) -> bool {
        false
    }

    fn is_absent(&self) -> (r: bool) {
        false
    }
}

impl Absence for char {
    open spec fn absent(&self) -> bool {
        false
    }

    fn is_absent(&self) -> (r: bool) {
        false
    }
}

impl Absence for i8 {
    open spec fn absent(&self) -> bool {
        false
    }

    fn is_absent(&self) -> (r: bool) {
        false
    }
}

impl Absence for i16 {
    open spec fn absent(&self) -> bool {
        false
    }

    fn is_absent(&self) -> (r: bool) {
        false
    }
}

impl Absence for i32 {
    open spec fn absent(&self) -> bool {
        false
    }

    fn is_absent(&self) -> (r: bool) {
        false
    }
}

impl Absence for i64 {
    open spec fn absent(&self) -> bool {
        false
    }

    fn is_absent(&self) -> (r: bool) {
        false
    }
}

impl Absence for i128 {
    open spec fn absent(&self) -> bool {
        false
    }

    fn is_absent(&self) -> (r: bool) {
        false
    }
}

impl Absence for isize {
    open spec fn absent(&self) -> bool {
        false
    }

    fn is_absent(&self) -> (r: bool) {
        false
    }
}

impl Absence for u8 {
    open spec fn absent(&self) -> bool {
        false
    }

    fn is_absent(&self) -> (r: bool) {
        false
    }
}

impl Absence for u16 {
    open spec fn absent(&self) -> bool {
        false
    }

    fn is_absent(&self) -> (r: bool) {
        false
    }
}

impl Absence for u32 {
    open spec fn absent(&self) -> bool {
        false
    }

    fn is_absent(&self) -> (r: bool) {
        false
    }
}

impl Absence for u64 {
    open spec fn absent(&self) -> bool {
        false
    }

    fn is_absent(&self) -> (r: bool) {
        false
    }
}

impl Absence for u128 {
    open spec fn absent(&self) -> bool {
        false
    }

    fn is_absent(&self) -> (r: bool) {
        false
    }
}

impl Absence for usize {
    open spec fn absent(&self) -> bool {
        false
    }

    fn is_absent(&self) -> (r: bool) {
        false
    }
}

/// Only `None` stands for "no result": an `Option` is absent exactly when
/// it is `None`, and no value of a type without a `None` is ever absent, so
/// `skip_none` leaves such writes untouched.
pub proof fn law_absent_only_none<W>(
    o: Option<W>,
    a: i8,
    b: i16,
    c: i32,
    d: i64,
    e: i128,
    f: isize,
    g: u8,
    h: u16,
    i: u32,
    j: u64,
    k: u128,
    l: usize,
    m: bool,
    n: char,
    s: String,
    v: Vec<W>,
)
    ensures
        o.absent() <==> o is None,
        !a.absent() && !b.absent() && !c.absent() && !d.absent() && !e.absent() && !f.absent(),
        !g.absent() && !h.absent() && !i.absent() && !j.absent() && !k.absent() && !l.absent(),
        !m.absent() && !n.absent() && !s.absent() && !v.absent(),
{
}

/// With a test that leaves nothing out, a node's outcome keeps every write
/// of its computation, in order.
pub proof fn law_keep_all<V>(t: SkipBox<V>, w: Seq<ChannelWriteEntry<V>>)
    requires
        forall|x: V| !#[trigger] t.test.skips(x),
    ensures
        kept_writes(t, w) == w,
    decreases w.len(),
{
    if w.len() > 0 {
        law_keep_all(t, w.drop_last());
        assert(w.drop_last().push(w.last()) =~= w);
    }
}

/// A test leaves out exactly the writes it marks: what is kept is the writes
/// it does not mark, in order, and a write it marks is never kept.
pub proof fn law_kept_writes<V>(t: SkipBox<V>, w: Seq<ChannelWriteEntry<V>>)
    ensures
        kept_writes(t, w) == w.filter(|e: ChannelWriteEntry<V>| !t.test.skips(e.value)),
    decreases w.len(),
{
    reveal(Seq::filter);
    if w.len() > 0 {
        law_kept_writes(t, w.drop_last());
    }
}

/// Decides which written values a node leaves out.
pub trait SkipTest<V> {
    /// Whether a write of `v` is left out.
    spec fn skips(&self, v: V) -> bool;

    fn test(&self, v: &V) -> (r: bool)
        ensures
            r == self.skips(*v),
    ;
}

/// Leaves out the values that stand for "no result".
pub struct ByAbsence;

impl<V: Absence> SkipTest<V> for ByAbsence {
    open spec fn skips(&self, v: V) -> bool {
        v.absent()
    }

    fn test(&self, v: &V) -> (r: bool) {
        v.is_absent()
    }
}

/// A test of which writes to leave out.
#[verifier::reject_recursive_types(V)]
pub struct SkipBox<V> {
    pub test: Box<dyn SkipTest<V>>,
}

/// The writes of `w` that `t` does not leave out, in order.
pub open spec fn kept_writes<V>(t: SkipBox<V>, w: Seq<ChannelWriteEntry<V>>) -> Seq<
    ChannelWriteEntry<V>,
>
    decreases w.len(),
{
    if w.len() == 0 {
        Seq::empty()
    } else {
        let kept = kept_writes(t, w.drop_last());
        if t.test.skips(w.last().value) {
            kept
        } else {
            kept.push(w.last())
        }
    }
}

/// `r` is the outcome `r0` of a computation with the writes that `t` leaves
/// out removed.
pub open spec fn without_skipped<V>(
    t: SkipBox<V>,
    r0: Result<Vec<ChannelWriteEntry<V>>, PregelError>,
    r: Result<Vec<ChannelWriteEntry<V>>, PregelError>,
) -> bool {
    match r0 {
        Ok(w0) => r matches Ok(w) && w@ == kept_writes(t, w0@),
        Err(e) => r == Err::<Vec<ChannelWriteEntry<V>>, PregelError>(e),
    }
}

/// The writes of `w` that `t` does not leave out.
fn drop_skipped<V>(t: &SkipBox<V>, w: Vec<ChannelWriteEntry<V>>) -> (r: Vec<
    ChannelWriteEntry<V>,
>)
    ensures
        r@ == kept_writes(*t, w@),
{
    let ghost orig = w@;
    let mut w = w;
    let mut out: Vec<ChannelWriteEntry<V>> = Vec::new();
    assert(orig.take(0) =~= Seq::<ChannelWriteEntry<V>>::empty());

    assert(orig.skip(0) =~= orig);
    while w.len() > 0
        invariant
            w@.len() <= orig.len(),
            w@ == orig.skip(orig.len() - w@.len()),
            out@ == kept_writes(*t, orig.take(orig.len() - w@.len())),
        decreases w@.len(),
    {
        let ghost n = orig.len() - w@.len();
        let e = w.remove(0);
        let ghost ge = e;
        proof {
            assert(orig[n] == e);
            assert(orig.skip(n + 1) =~= w@);
        }
        assert(kept_writes(*t, orig.take(n + 1)) == if !t.test.skips(ge.value) {
            kept_writes(*t, orig.take(n)).push(ge)
        } else {
            kept_writes(*t, orig.take(n))
        }) by {
            assert(orig.take(n + 1).drop_last() =~= orig.take(n));
            assert(orig.take(n + 1).last() == ge);
        }
        if !t.test.test(&e.value) {
            out.push(e);
        }
    }
    assert(orig.take(orig.len() as int) =~= orig);
    out
}

/// Fluent builder for nodes.
#[verifier::reject_recursive_types(V)]
pub struct NodeBuilder<V> {
    pub name: String,
    pub triggers: Vec<String>,
    pub read_channels: Vec<String>,
    pub write_targets: Vec<String>,
    pub skip_none: bool,
    /// How the built node recognises a result that is not written, once
    /// `skip_none(true)` asked for that.
    pub skip_test: Option<SkipBox<V>>,
    pub runner: Option<ActionBox<V>>,
}

/// Owned copies of `names`.
pub(crate) fn owned_names(names: &Vec<&str>) -> (r: Vec<String>)
    ensures
        views(r@) == names@.map_values(|s: &str| s@),
{
    let mut r: Vec<String> = Vec::new();
    let mut i: usize = 0;
    while i < names.len()
        invariant
            i <= names@.len(),
            r@.len() == i,
            forall|j: int| 0 <= j < i ==> r@[j]@ == names@[j]@,
        decreases names@.len() - i,
    {
        r.push(names[i].to_owned());
        i = i + 1;
    }
    assert(views(r@) =~= names@.map_values(|s: &str| s@));
    r
}

impl<V: Clone + 'static> NodeBuilder<V> {
    /// The computation, when one is set, accepts every input.
    pub open spec fn wf(&self) -> bool {
        match self.runner {
            Some(r) => r.action.callable(),
            None => true,
        }
    }

    /// Whether a computation has been connected.
    pub open spec fn has_action(&self) -> bool {
        self.runner is Some
    }

    /// `res` is a possible outcome of the connected computation, or, when
    /// none is connected, the outcome with no writes.
    pub open spec fn runs_to(
        &self,
        vals: ChannelValues<V>,
        ts: Seq<String>,
        res: Result<Vec<ChannelWriteEntry<V>>, PregelError>,
    ) -> bool {
        match self.runner {
            Some(b) => b.action.produces(vals, ts, res),
            None => res matches Ok(w) && w@.len() == 0,
        }
    }

    /// A node called `name` with no subscriptions, targets or computation.
    pub fn new(name: &str) -> (r: Self)
        ensures
            r.wf(),
            !r.has_action(),
            r.name@ == name@,
            r.triggers@.len() == 0,
            r.read_channels@.len() == 0,
            r.write_targets@.len() == 0,
            !r.skip_none,
            r.skip_test is None,
    {
        NodeBuilder {
            name: name.to_owned(),
            triggers: Vec::new(),
            read_channels: Vec::new(),
            write_targets: Vec::new(),
            skip_none: false,
            skip_test: None,
            runner: None,
        }
    }

    /// Subscribes to and reads from the single channel `channel`.
    pub fn subscribe_only(self, channel: &str) -> (r: Self)
        requires
            self.wf(),
        ensures
            r.wf(),
            r.runner == self.runner,
            r.has_action() == self.has_action(),
            r.name == self.name,
            views(r.triggers@) == seq![channel@],
            views(r.read_channels@) == seq![channel@],
            r.write_targets@ == self.write_targets@,
            r.skip_none == self.skip_none,
            r.skip_test == self.skip_test,
    {
        let mut s = self;
        let mut t: Vec<String> = Vec::new();
        t.push(channel.to_owned());
        let mut rd: Vec<String> = Vec::new();
        rd.push(channel.to_owned());
        assert(views(t@) =~= seq![channel@]);
        assert(views(rd@) =~= seq![channel@]);
        s.triggers = t;
        s.read_channels = rd;
        s
    }

    /// Subscribes to `channels`: an update to any of them triggers the node,
    /// and it reads all of them.
    pub fn subscribe_to(self, channels: Vec<&str>) -> (r: Self)
        requires
            self.wf(),
        ensures
            r.wf(),
            r.runner == self.runner,
            r.has_action() == self.has_action(),
            r.name == self.name,
            views(r.triggers@) == channels@.map_values(|s: &str| s@),
            views(r.read_channels@) == channels@.map_values(|s: &str| s@),
            r.write_targets@ == self.write_targets@,
            r.skip_none == self.skip_none,
            r.skip_test == self.skip_test,
    {
        let mut s = self;
        s.triggers = owned_names(&channels);
        s.read_channels = owned_names(&channels);
        s
    }

    /// Adds `channel` to the channels the node writes its result to.
    pub fn write_to(self, channel: &str) -> (r: Self)
        requires
            self.wf(),
        ensures
            r.wf(),
            r.runner == self.runner,
            r.has_action() == self.has_action(),
            r.name == self.name,
            r.triggers@ == self.triggers@,
            r.read_channels@ == self.read_channels@,
            views(r.write_targets@) == views(self.write_targets@).push(channel@),
            r.skip_none == self.skip_none,
            r.skip_test == self.skip_test,
    {
        let mut s = self;
        let ghost before = views(s.write_targets@);
        s.write_targets.push(channel.to_owned());
        assert(views(s.write_targets@) =~= before.push(channel@));
        s
    }

    /// Adds each of `channels`, in order, to the channels the node writes to.
    pub fn write_to_many(self, channels: Vec<&str>) -> (r: Self)
        requires
            self.wf(),
        ensures
            r.wf(),
            r.runner == self.runner,
            r.has_action() == self.has_action(),
            r.name == self.name,
            r.triggers@ == self.triggers@,
            r.read_channels@ == self.read_channels@,
            views(r.write_targets@) == views(self.write_targets@) + channels@.map_values(
                |s: &str| s@,
            ),
            r.skip_none == self.skip_none,
            r.skip_test == self.skip_test,
    {
        let mut s = self;
        let ghost before = views(s.write_targets@);
        let ghost added = channels@.map_values(|x: &str| x@);
        let mut i: usize = 0;
        while i < channels.len()
            invariant
                i <= channels@.len(),
                added == channels@.map_values(|x: &str| x@),
                views(s.write_targets@) == before + added.take(i as int),
                s.name == self.name,
                s.triggers@ == self.triggers@,
                s.read_channels@ == self.read_channels@,
                s.skip_none == self.skip_none,
                s.skip_test == self.skip_test,
                s.runner == self.runner,
            decreases channels@.len() - i,
        {
            let ghost prev = views(s.write_targets@);
            s.write_targets.push(channels[i].to_owned());
            i = i + 1;
            assert(views(s.write_targets@) =~= prev.push(added[i - 1]));
            assert(added.take(i as int) =~= added.take(i - 1).push(added[i - 1]));
        }
        assert(added.take(i as int) =~= added);
        s
    }

    /// Records whether `None` results should be skipped: once set, the built
    /// node writes no entry whose value is absent.
    pub fn skip_none(self, skip: bool) -> (r: Self) where V: Absence
        requires
            self.wf(),
        ensures
            r.wf(),
            r.runner == self.runner,
            r.has_action() == self.has_action(),
            r.name == self.name,
            r.triggers@ == self.triggers@,
            r.read_channels@ == self.read_channels@,
            r.write_targets@ == self.write_targets@,
            r.skip_none == skip,
            skip ==> (r.skip_test matches Some(t) && forall|v: V| #[trigger] t.test.skips(v) == v.absent()),
            !skip ==> r.skip_test is None,
    {
        let mut s = self;
        s.skip_none = skip;
        if skip {
            let t = SkipBox { test: Box::new(ByAbsence) };
            assert(forall|v: V| #[trigger] t.test.skips(v) == v.absent());
            s.skip_test = Some(t);
        } else {
            s.skip_test = None;
        }
        s
    }

    fn input_name(&self) -> (r: String)
        ensures
            r@ == input_channel(self.read_channels@, self.name),
    {
        if self.read_channels.len() > 0 {
            self.read_channels[0].clone()
        } else {
            self.name.clone()
        }
    }

    /// Connects a pure function of the input channel's value; its result is
    /// written to every target.
    pub fn do_pure<F: Fn(V) -> V + 'static>(self, func: F) -> (r: Self)
        requires
            self.wf(),
            forall|x: V| call_requires(func, (x,)),
        ensures
            r.wf(),
            r.runner matches Some(b) && forall|
                vals: ChannelValues<V>,
                ts: Seq<String>,
                res: Result<Vec<ChannelWriteEntry<V>>, PregelError>,
            |
                #[trigger] b.action.produces(vals, ts, res) == map_outcome(
                    func,
                    input_channel(self.read_channels@, self.name),
                    vals,
                    ts,
                    res,
                ),
            r.name == self.name,
            r.triggers@ == self.triggers@,
            r.read_channels@ == self.read_channels@,
            r.write_targets@ == self.write_targets@,
            r.skip_none == self.skip_none,
            r.skip_test == self.skip_test,
    {
        let read = self.input_name();
        let act = MapAction { read, func };
        assert(act.callable());
        let mut s = self;
        s.runner = Some(ActionBox { action: Box::new(act) });
        s
    }

    /// Connects a fallible function of the input channel's value; its error
    /// becomes the node's execution error.
    pub fn do_fn<E: core::fmt::Display + 'static, F: Fn(V) -> Result<V, E> + 'static>(
        self,
        func: F,
    ) -> (r: Self)
        requires
            self.wf(),
            forall|x: V| call_requires(func, (x,)),
        ensures
            r.wf(),
            r.runner matches Some(b) && forall|
                vals: ChannelValues<V>,
                ts: Seq<String>,
                res: Result<Vec<ChannelWriteEntry<V>>, PregelError>,
            | #[trigger] b.action.produces(vals, ts, res) == try_map_outcome::<V, E, F>(func, input_channel(self.read_channels@, self.name), vals, ts, res),
            r.name == self.name,
            r.triggers@ == self.triggers@,
            r.read_channels@ == self.read_channels@,
            r.write_targets@ == self.write_targets@,
            r.skip_none == self.skip_none,
            r.skip_test == self.skip_test,
    {
        let read = self.input_name();
        let act = TryMapAction { read, func, marker: PhantomData };
        assert(act.callable());
        let mut s = self;
        s.runner = Some(ActionBox { action: Box::new(act) });
        s
    }

    /// Connects a function of the input channel's value that may return
    /// nothing; then the node writes nothing.
    pub fn do_pure_option<F: Fn(V) -> Option<V> + 'static>(self, func: F) -> (r: Self)
        requires
            self.wf(),
            forall|x: V| call_requires(func, (x,)),
        ensures
            r.wf(),
            r.runner matches Some(b) && forall|
                vals: ChannelValues<V>,
                ts: Seq<String>,
                res: Result<Vec<ChannelWriteEntry<V>>, PregelError>,
            | #[trigger] b.action.produces(vals, ts, res) == filter_map_outcome(func, input_channel(self.read_channels@, self.name), vals, ts, res),
            r.name == self.name,
            r.triggers@ == self.triggers@,
            r.read_channels@ == self.read_channels@,
            r.write_targets@ == self.write_targets@,
            r.skip_none == self.skip_none,
            r.skip_test == self.skip_test,
    {
        let read = self.input_name();
        let act = FilterMapAction { read, func };
        assert(act.callable());
        let mut s = self;
        s.runner = Some(ActionBox { action: Box::new(act) });
        s
    }

    /// Connects a fallible function of the input channel's value that may
    /// return nothing.
    pub fn do_option_fn<E: core::fmt::Display + 'static, F: Fn(V) -> Result<Option<V>, E> + 'static>(
        self,
        func: F,
    ) -> (r: Self)
        requires
            self.wf(),
            forall|x: V| call_requires(func, (x,)),
        ensures
            r.wf(),
            r.runner matches Some(b) && forall|
                vals: ChannelValues<V>,
                ts: Seq<String>,
                res: Result<Vec<ChannelWriteEntry<V>>, PregelError>,
            | #[trigger] b.action.produces(vals, ts, res) == try_filter_map_outcome::<V, E, F>(func, input_channel(self.read_channels@, self.name), vals, ts, res),
            r.name == self.name,
            r.triggers@ == self.triggers@,
            r.read_channels@ == self.read_channels@,
            r.write_targets@ == self.write_targets@,
            r.skip_none == self.skip_none,
            r.skip_test == self.skip_test,
    {
        let read = self.input_name();
        let act = TryFilterMapAction { read, func, marker: PhantomData };
        assert(act.callable());
        let mut s = self;
        s.runner = Some(ActionBox { action: Box::new(act) });
        s
    }

    /// Connects a fallible function of the whole snapshot that produces the
    /// node's writes itself.
    pub fn do_values_fn<
        E: core::fmt::Display + 'static,
        F: Fn(&ChannelValues<V>) -> Result<Vec<ChannelWriteEntry<V>>, E> + 'static,
    >(self, func: F) -> (r: Self)
        requires
            self.wf(),
            forall|x: &ChannelValues<V>| call_requires(func, (x,)),
        ensures
            r.wf(),
            r.runner matches Some(b) && forall|
                vals: ChannelValues<V>,
                ts: Seq<String>,
                res: Result<Vec<ChannelWriteEntry<V>>, PregelError>,
            | #[trigger] b.action.produces(vals, ts, res) == try_values_outcome::<V, E, F>(func, vals, res),
            r.name == self.name,
            r.triggers@ == self.triggers@,
            r.read_channels@ == self.read_channels@,
            r.write_targets@ == self.write_targets@,
            r.skip_none == self.skip_none,
            r.skip_test == self.skip_test,
    {
        let act = TryValuesAction { func, marker: PhantomData };
        assert(act.callable());
        let mut s = self;
        s.runner = Some(ActionBox { action: Box::new(act) });
        s
    }

    /// Connects a function of the whole snapshot that produces the node's
    /// writes itself.
    pub fn do_values_pure<F: Fn(&ChannelValues<V>) -> Vec<ChannelWriteEntry<V>> + 'static>(
        self,
        func: F,
    ) -> (r: Self)
        requires
            self.wf(),
            forall|x: &ChannelValues<V>| call_requires(func, (x,)),
        ensures
            r.wf(),
            r.runner matches Some(b) && forall|
                vals: ChannelValues<V>,
                ts: Seq<String>,
                res: Result<Vec<ChannelWriteEntry<V>>, PregelError>,
            | #[trigger] b.action.produces(vals, ts, res) == values_outcome(func, vals, res),
            r.name == self.name,
            r.triggers@ == self.triggers@,
            r.read_channels@ == self.read_channels@,
            r.write_targets@ == self.write_targets@,
            r.skip_none == self.skip_none,
            r.skip_test == self.skip_test,
    {
        let act = ValuesAction { func };
        assert(act.callable());
        let mut s = self;
        s.runner = Some(ActionBox { action: Box::new(act) });
        s
    }

    /// The node, with the connected computation or, if none, one that
    /// writes nothing.
    pub fn build(self) -> (r: PregelNode<V>)
        requires
            self.wf(),
        ensures
            r.wf(),
            forall|
                vals: ChannelValues<V>,
                ts: Seq<String>,
                res: Result<Vec<ChannelWriteEntry<V>>, PregelError>,
            |
                #[trigger] r.executor.action.produces(vals, ts, res) == self.runs_to(vals, ts, res),
            r.skip == self.skip_test,
            r.name == self.name,
            r.triggers@ == self.triggers@,
            r.read_channels@ == self.read_channels@,
            r.write_targets@ == self.write_targets@,
    {
        match self.runner {
            Some(r) => PregelNode {
                name: self.name,
                triggers: self.triggers,
                read_channels: self.read_channels,
                write_targets: self.write_targets,
                executor: r,
                skip: self.skip_test,
            },
            None => {
                let none = NoAction;
                assert(NodeAction::<V>::callable(&none));
                PregelNode {
                    name: self.name,
                    triggers: self.triggers,
                    read_channels: self.read_channels,
                    write_targets: self.write_targets,
                    executor: ActionBox { action: Box::new(none) },
                    skip: self.skip_test,
                }
            },
        }
    }
}

/// What a superstep application accepts as a node: a node, or a builder.
pub trait IntoPregelNode<V> {
    /// The name of the node.
    spec fn node_name(&self) -> Seq<char>;

    /// Whether the node can be made.
    spec fn node_ok(&self) -> bool;

    /// `n` is the node this makes.
    spec fn becomes(&self, n: PregelNode<V>) -> bool;

    fn into_node(self) -> (r: PregelNode<V>)
        requires
            self.node_ok(),
        ensures
            r.wf(),
            r.name@ == self.node_name(),
            self.becomes(r),
    ;
}

impl<V> IntoPregelNode<V> for PregelNode<V> {
    open spec fn node_name(&self) -> Seq<char> {
        self.name@
    }

    open spec fn node_ok(&self) -> bool {
        self.wf()
    }

    open spec fn becomes(&self, n: PregelNode<V>) -> bool {
        n == *self
    }

    fn into_node(self) -> (r: PregelNode<V>) {
        self
    }
}

impl<V: Clone + 'static> IntoPregelNode<V> for NodeBuilder<V> {
    open spec fn node_name(&self) -> Seq<char> {
        self.name@
    }

    open spec fn node_ok(&self) -> bool {
        self.wf()
    }

    /// The built node: the builder's name, subscriptions and targets, and
    /// its computation (or one that writes nothing).
    open spec fn becomes(&self, n: PregelNode<V>) -> bool {
        &&& n.name == self.name
        &&& n.triggers@ == self.triggers@
        &&& n.read_channels@ == self.read_channels@
        &&& n.write_targets@ == self.write_targets@
        &&& forall|
            vals: ChannelValues<V>,
            ts: Seq<String>,
            res: Result<Vec<ChannelWriteEntry<V>>, PregelError>,
        |
            #[trigger] n.executor.action.produces(vals, ts, res) == match self.runner {
                Some(b) => b.action.produces(vals, ts, res),
                None => res matches Ok(w) && w@.len() == 0,
            }
    }

    fn into_node(self) -> (r: PregelNode<V>) {
        self.build()
    }
}

} // verus!
