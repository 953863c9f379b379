//! Channels: the named stores that nodes read from and write to, one
//! superstep at a time.
use std::sync::Arc;

use vstd::prelude::*;
use vstd::string::*;
use vstd::std_specs::cmp::PartialEqSpec;

use crate::errors::ChannelError;

verus! {

/// What a channel holds: one value, or the list a topic accumulated.
#[derive(Debug)]
pub enum ChannelValue<V> {
    Single(V),
    List(Vec<V>),
}

/// `b` is a clone of `a`, item by item for lists.
pub open spec fn value_cloned<V: Clone>(a: ChannelValue<V>, b: ChannelValue<V>) -> bool {
    match (a, b) {
        (ChannelValue::Single(x), ChannelValue::Single(y)) => cloned(x, y),
        (ChannelValue::List(xs), ChannelValue::List(ys)) => xs@.len() == ys@.len() && forall|i: int|
            0 <= i < xs@.len() ==> cloned(xs@[i], ys@[i]),
        _ => false,
    }
}

/// `b` is a clone of `a`: both empty, or both holding a value and the
/// second a clone of the first.
pub open spec fn opt_cloned<V: Clone>(a: Option<V>, b: Option<V>) -> bool {
    match (a, b) {
        (Some(x), Some(y)) => cloned(x, y),
        (None, None) => true,
        _ => false,
    }
}

/// A store that nodes write to during a superstep and read from in the next.
pub trait Channel<V>: Sized {
    /// Whether the channel was updated in the most recent superstep.
    spec fn updated_flag(&self) -> bool;

    /// What the channel's operations need of its state.
    spec fn well_formed(&self) -> bool;

    /// Returns true if this channel was updated in the most recent superstep.
    fn is_updated(&self) -> (r: bool)
        ensures
            r == self.updated_flag(),
    ;

    /// Called between supersteps: clears transient state and the update flag.
    fn step_reset(&mut self)
        requires
            old(self).well_formed(),
        ensures
            final(self).well_formed(),
            !final(self).updated_flag(),
    ;

    /// Applies the values written to this channel during a superstep; an
    /// empty batch changes nothing.
    fn update(&mut self, values: Vec<V>) -> (r: Result<(), ChannelError>)
        requires
            old(self).well_formed(),
        ensures
            final(self).well_formed(),
            values@.len() == 0 ==> r is Ok && final(self).updated_flag() == old(
                self,
            ).updated_flag(),
    ;

    /// A copy of the current value, if the channel holds one.
    fn get_boxed(&self) -> Option<ChannelValue<V>>;

    /// A copy of the channel.
    fn clone_channel(&self) -> (r: Self)
        requires
            self.well_formed(),
        ensures
            r.well_formed(),
            r.updated_flag() == self.updated_flag(),
    ;
}

/// Copies `value`.
fn copy_single<V: Clone>(value: &Option<V>) -> (r: Option<ChannelValue<V>>)
    ensures
        match *value {
            Some(v) => r matches Some(c) && value_cloned(ChannelValue::Single(v), c),
            None => r is None,
        },
{
    match value {
        Some(v) => Some(ChannelValue::Single(v.clone())),
        None => None,
    }
}

/// Stores the last value sent to the channel; the value persists across
/// supersteps until a new write overwrites it.
pub struct LastValue<V> {
    pub value: Option<V>,
    pub updated: bool,
}

impl<V> LastValue<V> {
    /// An empty channel.
    pub fn new() -> (r: Self)
        ensures
            r.value is None,
            !r.updated,
    {
        LastValue { value: None, updated: false }
    }

    /// A channel holding `val`.
    pub fn with_initial(val: V) -> (r: Self)
        ensures
            r.value == Some(val),
            !r.updated,
    {
        LastValue { value: Some(val), updated: false }
    }
}

impl<V> Default for LastValue<V> {
    fn default() -> (r: Self)
        ensures
            r.value is None,
            !r.updated,
    {
        Self::new()
    }
}

impl<V: Clone + 'static> Channel<V> for LastValue<V> {
    open spec fn updated_flag(&self) -> bool {
        self.updated
    }

    open spec fn well_formed(&self) -> bool {
        true
    }

    fn is_updated(&self) -> (r: bool) {
        self.updated
    }

    /// Keeps the value; clears the update flag.
    fn step_reset(&mut self)
        ensures
            final(self).value == old(self).value,
    {
        self.updated = false;
    }

    /// The last value of a non-empty batch replaces the stored one.
    fn update(&mut self, values: Vec<V>) -> (r: Result<(), ChannelError>)
        ensures
            r is Ok,
            values@.len() == 0 ==> *final(self) == *old(self),
            values@.len() > 0 ==> final(self).value == Some(values@.last()) && final(self).updated,
    {
        let mut values = values;
        match values.pop() {
            None => Ok(()),
            Some(last) => {
                self.value = Some(last);
                self.updated = true;
                Ok(())
            },
        }
    }

    fn get_boxed(&self) -> (r: Option<ChannelValue<V>>)
        ensures
            match self.value {
                Some(v) => r matches Some(c) && value_cloned(ChannelValue::Single(v), c),
                None => r is None,
            },
    {
        copy_single(&self.value)
    }

    fn clone_channel(&self) -> (r: Self)
        ensures
            r.updated == self.updated,
            opt_cloned(self.value, r.value),
    {
        let copy = LastValue { value: self.value.clone(), updated: self.updated };
        copy
    }
}

/// Stores a value for one superstep: the reset between supersteps clears it.
pub struct EphemeralValue<V> {
    pub value: Option<V>,
    pub updated: bool,
}

impl<V> EphemeralValue<V> {
    /// An empty channel.
    pub fn new() -> (r: Self)
        ensures
            r.value is None,
            !r.updated,
    {
        EphemeralValue { value: None, updated: false }
    }
}

impl<V> Default for EphemeralValue<V> {
    fn default() -> (r: Self)
        ensures
            r.value is None,
            !r.updated,
    {
        Self::new()
    }
}

impl<V: Clone + 'static> Channel<V> for EphemeralValue<V> {
    open spec fn updated_flag(&self) -> bool {
        self.updated
    }

    open spec fn well_formed(&self) -> bool {
        true
    }

    fn is_updated(&self) -> (r: bool) {
        self.updated
    }

    /// Clears the value and the update flag.
    fn step_reset(&mut self)
        ensures
            final(self).value is None,
    {
        self.value = None;
        self.updated = false;
    }

    /// The last value of a non-empty batch replaces the stored one.
    fn update(&mut self, values: Vec<V>) -> (r: Result<(), ChannelError>)
        ensures
            r is Ok,
            values@.len() == 0 ==> *final(self) == *old(self),
            values@.len() > 0 ==> final(self).value == Some(values@.last()) && final(self).updated,
    {
        let mut values = values;
        match values.pop() {
            None => Ok(()),
            Some(last) => {
                self.value = Some(last);
                self.updated = true;
                Ok(())
            },
        }
    }

    fn get_boxed(&self) -> (r: Option<ChannelValue<V>>)
        ensures
            match self.value {
                Some(v) => r matches Some(c) && value_cloned(ChannelValue::Single(v), c),
                None => r is None,
            },
    {
        copy_single(&self.value)
    }

    fn clone_channel(&self) -> (r: Self)
        ensures
            r.updated == self.updated,
            opt_cloned(self.value, r.value),
    {
        let copy = EphemeralValue { value: self.value.clone(), updated: self.updated };
        copy
    }
}

/// Some item of `s` equals `v`.
pub open spec fn contains_eq<V: PartialEq>(s: Seq<V>, v: V) -> bool {
    exists|i: int| 0 <= i < s.len() && s[i].eq_spec(&v)
}

/// The items of a topic after `incoming` is added to `current`: each item in
/// order, skipped when deduplicating and an equal item is already there.
pub open spec fn topic_add<V: PartialEq>(current: Seq<V>, incoming: Seq<V>, dedup: bool) -> Seq<V>
    decreases incoming.len(),
{
    if incoming.len() == 0 {
        current
    } else {
        let prev = topic_add(current, incoming.drop_last(), dedup);
        if dedup && contains_eq(prev, incoming.last()) {
            prev
        } else {
            prev.push(incoming.last())
        }
    }
}

/// Publish/subscribe channel that collects every value sent to it. With
/// `accumulate` the values persist across supersteps, otherwise the reset
/// between supersteps clears them; with `dedup` a value equal to one already
/// held is not added again.
pub struct Topic<V> {
    pub values: Vec<V>,
    pub updated: bool,
    pub accumulate: bool,
    pub dedup: bool,
}

impl<V> Topic<V> {
    /// An empty topic without deduplication.
    pub fn new(accumulate: bool) -> (r: Self)
        ensures
            r.values@.len() == 0,
            !r.updated,
            r.accumulate == accumulate,
            !r.dedup,
    {
        Topic { values: Vec::new(), updated: false, accumulate, dedup: false }
    }

    /// An empty topic.
    pub fn with_dedup(accumulate: bool, dedup: bool) -> (r: Self)
        ensures
            r.values@.len() == 0,
            !r.updated,
            r.accumulate == accumulate,
            r.dedup == dedup,
    {
        Topic { values: Vec::new(), updated: false, accumulate, dedup }
    }
}

/// Whether an item of `s` equals `v`.
fn holds_equal<V: PartialEq>(s: &Vec<V>, v: &V) -> (r: bool)
    ensures
        V::obeys_eq_spec() ==> r == contains_eq(s@, *v),
{
    let mut i: usize = 0;
    while i < s.len()
        invariant
            i <= s@.len(),
            V::obeys_eq_spec() ==> forall|j: int| 0 <= j < i ==> !s@[j].eq_spec(v),
        decreases s@.len() - i,
    {
        if s[i] == *v {
            return true;
        }
        i = i + 1;
    }
    false
}

impl<V: Clone + PartialEq + 'static> Channel<V> for Topic<V> {
    open spec fn updated_flag(&self) -> bool {
        self.updated
    }

    open spec fn well_formed(&self) -> bool {
        true
    }

    fn is_updated(&self) -> (r: bool) {
        self.updated
    }

    /// Clears the values unless the topic accumulates; clears the update flag.
    fn step_reset(&mut self)
        ensures
            final(self).accumulate == old(self).accumulate,
            final(self).dedup == old(self).dedup,
            old(self).accumulate ==> final(self).values@ == old(self).values@,
            !old(self).accumulate ==> final(self).values@.len() == 0,
    {
        if !self.accumulate {
            self.values.clear();
        }
        self.updated = false;
    }

    /// Adds the batch in order (skipping values already held when
    /// deduplicating); the update flag is set when something was added.
    fn update(&mut self, values: Vec<V>) -> (r: Result<(), ChannelError>)
        ensures
            r is Ok,
            final(self).accumulate == old(self).accumulate,
            final(self).dedup == old(self).dedup,
            !old(self).dedup ==> final(self).values@ == old(self).values@ + values@,
            V::obeys_eq_spec() ==> final(self).values@ == topic_add(
                old(self).values@,
                values@,
                old(self).dedup,
            ),
            final(self).updated == (old(self).updated || final(self).values@.len() > old(
                self,
            ).values@.len()),
    {
        let ghost start = self.values@;
        let ghost incoming = values@;
        let mut values = values;
        let mut added = false;
        let mut k: usize = 0;
        assert(incoming.len() == values.len());
        assert(incoming.take(0) =~= Seq::<V>::empty());
        assert(start + incoming.take(0) =~= start);
        while values.len() > 0
            invariant
                incoming.len() == k + values@.len(),
                incoming.len() <= usize::MAX,
                values@ == incoming.skip(k as int),
                k == 0 ==> self.values@ == start,
                self.dedup == old(self).dedup,
                self.accumulate == old(self).accumulate,
                self.updated == old(self).updated,
                start == old(self).values@,
                !self.dedup ==> self.values@ == start + incoming.take(k as int),
                V::obeys_eq_spec() ==> self.values@ == topic_add(
                    start,
                    incoming.take(k as int),
                    self.dedup,
                ),
                added == (self.values@.len() > start.len()),
                self.values@.len() >= start.len(),
            decreases values@.len(),
        {
            let v = values.remove(0);
            proof {
                assert(incoming.take(k + 1).drop_last() =~= incoming.take(k as int));
                assert(incoming.take(k + 1).last() == v);
                assert(values@ =~= incoming.skip(k + 1));
            }
            if self.dedup && holds_equal(&self.values, &v) {
            } else {
                self.values.push(v);
                added = true;
                proof {
                    assert(start + incoming.take(k + 1) =~= (start + incoming.take(k as int)).push(
                        incoming[k as int],
                    ));
                }
            }
            k = k + 1;
        }
        assert(incoming.take(k as int) =~= incoming);
        if added {
            self.updated = true;
        }
        Ok(())
    }

    /// The list of values held (possibly empty).
    fn get_boxed(&self) -> (r: Option<ChannelValue<V>>)
        ensures
            r matches Some(c) && value_cloned(ChannelValue::List(self.values), c),
    {
        Some(ChannelValue::List(self.values.clone()))
    }

    fn clone_channel(&self) -> (r: Self)
        ensures
            r.updated == self.updated,
            r.accumulate == self.accumulate,
            r.dedup == self.dedup,
            r.values@.len() == self.values@.len(),
            forall|i: int| 0 <= i < self.values@.len() ==> cloned(self.values@[i], r.values@[i]),
    {
        let copy = Topic {
            values: self.values.clone(),
            updated: self.updated,
            accumulate: self.accumulate,
            dedup: self.dedup,
        };
        copy
    }
}

} // verus!

verus! {

/// A binary operator that folds each update into a channel's current value.
pub trait Reducer<V> {
    /// Whether the operator accepts every pair of arguments.
    spec fn callable(&self) -> bool;

    /// `result` is a possible outcome of folding `update` into `current`.
    spec fn reduces(&self, current: Option<V>, update: V, result: V) -> bool;

    fn reduce(&self, current: Option<V>, update: V) -> (r: V)
        requires
            self.callable(),
        ensures
            self.reduces(current, update, r),
    ;
}

impl<V, F: Fn(Option<V>, V) -> V> Reducer<V> for F {
    open spec fn callable(&self) -> bool {
        forall|c: Option<V>, u: V| call_requires(*self, (c, u))
    }

    open spec fn reduces(&self, current: Option<V>, update: V, result: V) -> bool {
        call_ensures(*self, (current, update), result)
    }

    fn reduce(&self, current: Option<V>, update: V) -> (r: V) {
        self(current, update)
    }
}

/// `states` lists the values seen while folding `updates` one by one into
/// `start` with `f`: it begins with `start` and each next value is an
/// outcome of folding the next update into the previous one.
pub open spec fn fold_chain<V>(
    f: Arc<Box<dyn Reducer<V>>>,
    start: Option<V>,
    updates: Seq<V>,
    states: Seq<Option<V>>,
) -> bool {
    &&& states.len() == updates.len() + 1
    &&& states[0] == start
    &&& forall|i: int|
        #![trigger states[i + 1]]
        0 <= i < updates.len() ==> states[i + 1] is Some && f.reduces(
            states[i],
            updates[i],
            states[i + 1]->0,
        )
}

/// Folding `updates` one by one into `start` with `f` can end in `end`.
pub open spec fn folded<V>(
    f: Arc<Box<dyn Reducer<V>>>,
    start: Option<V>,
    updates: Seq<V>,
    end: Option<V>,
) -> bool {
    exists|states: Seq<Option<V>>| #[trigger] fold_chain(f, start, updates, states) && states.last() == end
}

/// Stores a persistent value updated by folding each update into it with
/// a binary operator.
#[verifier::reject_recursive_types(V)]
pub struct BinaryOperatorAggregate<V> {
    pub value: Option<V>,
    pub updated: bool,
    pub reducer: Arc<Box<dyn Reducer<V>>>,
}

impl<V> BinaryOperatorAggregate<V> {
    /// An empty channel with the operator `reducer`.
    pub fn new<F: Fn(Option<V>, V) -> V + 'static>(reducer: F) -> (r: Self)
        requires
            forall|c: Option<V>, u: V| call_requires(reducer, (c, u)),
        ensures
            r.value is None,
            !r.updated,
            r.reducer.callable(),
    {
        let boxed: Box<dyn Reducer<V>> = Box::new(reducer);
        BinaryOperatorAggregate { value: None, updated: false, reducer: Arc::new(boxed) }
    }

    /// A channel holding `initial`, with the operator `reducer`.
    pub fn with_initial<F: Fn(Option<V>, V) -> V + 'static>(initial: V, reducer: F) -> (r: Self)
        requires
            forall|c: Option<V>, u: V| call_requires(reducer, (c, u)),
        ensures
            r.value == Some(initial),
            !r.updated,
            r.reducer.callable(),
    {
        let boxed: Box<dyn Reducer<V>> = Box::new(reducer);
        BinaryOperatorAggregate { value: Some(initial), updated: false, reducer: Arc::new(boxed) }
    }
}

impl<V: Clone + 'static> Channel<V> for BinaryOperatorAggregate<V> {
    open spec fn updated_flag(&self) -> bool {
        self.updated
    }

    open spec fn well_formed(&self) -> bool {
        self.reducer.callable()
    }

    fn is_updated(&self) -> (r: bool) {
        self.updated
    }

    /// Keeps the value; clears the update flag.
    fn step_reset(&mut self)
        ensures
            final(self).value == old(self).value,
            final(self).reducer == old(self).reducer,
    {
        self.updated = false;
    }

    /// Folds the batch, in order, into the value; a non-empty batch sets the
    /// update flag.
    fn update(&mut self, values: Vec<V>) -> (r: Result<(), ChannelError>)
        ensures
            r is Ok,
            final(self).reducer == old(self).reducer,
            folded(old(self).reducer, old(self).value, values@, final(self).value),
            final(self).updated == (old(self).updated || values@.len() > 0),
    {
        let ghost start = self.value;
        let ghost incoming = values@;
        let ghost f = self.reducer;
        let ghost mut states: Seq<Option<V>> = seq![start];
        let mut values = values;
        let mut k: usize = 0;
        assert(incoming.len() == values.len());
        assert(incoming.take(0) =~= Seq::<V>::empty());
        while values.len() > 0
            invariant
                incoming.len() == k + values@.len(),
                incoming.len() <= usize::MAX,
                values@ == incoming.skip(k as int),
                self.reducer == f,
                f.callable(),
                fold_chain(f, start, incoming.take(k as int), states),
                states.last() == self.value,
                self.updated == (old(self).updated || k > 0),
            decreases values@.len(),
        {
            let v = values.remove(0);
            let ghost mid = self.value;
            proof {
                assert(incoming.take(k + 1).drop_last() =~= incoming.take(k as int));
                assert(incoming.take(k + 1).last() == v);
                assert(values@ =~= incoming.skip(k + 1));
            }
            let current = self.value.take();
            let next = self.reducer.reduce(current, v);
            self.value = Some(next);
            self.updated = true;
            proof {
                let upd = incoming.take(k + 1);
                let ns = states.push(Some(next));
                assert(f.reduces(mid, v, next));
                assert forall|i: int| #![trigger ns[i + 1]] 0 <= i < upd.len() implies ns[i + 1] is Some
                    && f.reduces(ns[i], upd[i], ns[i + 1]->0) by {
                    if i < k {
                        assert(ns[i] == states[i]);
                        assert(ns[i + 1] == states[i + 1]);
                        assert(upd[i] == incoming.take(k as int)[i]);
                    } else {
                        assert(ns[i] == mid);
                    }
                }
                states = ns;
            }
            k = k + 1;
        }
        assert(incoming.take(k as int) =~= incoming);
        assert(fold_chain(f, start, incoming, states));
        Ok(())
    }

    fn get_boxed(&self) -> (r: Option<ChannelValue<V>>)
        ensures
            match self.value {
                Some(v) => r matches Some(c) && value_cloned(ChannelValue::Single(v), c),
                None => r is None,
            },
    {
        copy_single(&self.value)
    }

    fn clone_channel(&self) -> (r: Self)
        ensures
            r.updated == self.updated,
            r.reducer == self.reducer,
            opt_cloned(self.value, r.value),
    {
        BinaryOperatorAggregate {
            value: self.value.clone(),
            updated: self.updated,
            reducer: self.reducer.clone(),
        }
    }
}

/// A channel of any of the kinds above, as a superstep application holds it.
#[verifier::reject_recursive_types(V)]
pub enum ChannelKind<V> {
    LastValue(LastValue<V>),
    Ephemeral(EphemeralValue<V>),
    Topic(Topic<V>),
    Aggregate(BinaryOperatorAggregate<V>),
}

impl<V> ChannelKind<V> {
    /// An aggregate's operator accepts every pair of arguments.
    pub open spec fn kind_well_formed(&self) -> bool {
        match self {
            ChannelKind::Aggregate(c) => c.reducer.callable(),
            _ => true,
        }
    }
}

impl<V> ChannelKind<V> {
    /// What the channel currently holds: a single value, or a topic's list.
    pub open spec fn stored(&self) -> Option<ChannelValue<V>> {
        match self {
            ChannelKind::LastValue(c) => match c.value {
                Some(v) => Some(ChannelValue::Single(v)),
                None => None,
            },
            ChannelKind::Ephemeral(c) => match c.value {
                Some(v) => Some(ChannelValue::Single(v)),
                None => None,
            },
            ChannelKind::Topic(c) => Some(ChannelValue::List(c.values)),
            ChannelKind::Aggregate(c) => match c.value {
                Some(v) => Some(ChannelValue::Single(v)),
                None => None,
            },
        }
    }
}

impl<V> ChannelKind<V> {
    /// The text of the error for a value this channel cannot take.
    pub open spec fn mismatch_message(&self) -> Seq<char> {
        match self {
            ChannelKind::LastValue(_) => "Type mismatch in LastValue channel"@,
            ChannelKind::Ephemeral(_) => "Type mismatch in EphemeralValue channel"@,
            ChannelKind::Topic(_) => "Type mismatch in Topic channel"@,
            ChannelKind::Aggregate(_) => "Type mismatch in BinaryOperatorAggregate channel"@,
        }
    }

    /// The error for a value this channel cannot take.
    pub fn mismatch(&self) -> (r: ChannelError)
        ensures
            r matches ChannelError::TypeMismatch(m) && m@ == self.mismatch_message(),
    {
        match self {
            ChannelKind::LastValue(_) => ChannelError::TypeMismatch(
                String::from_str("Type mismatch in LastValue channel"),
            ),
            ChannelKind::Ephemeral(_) => ChannelError::TypeMismatch(
                String::from_str("Type mismatch in EphemeralValue channel"),
            ),
            ChannelKind::Topic(_) => ChannelError::TypeMismatch(
                String::from_str("Type mismatch in Topic channel"),
            ),
            ChannelKind::Aggregate(_) => ChannelError::TypeMismatch(
                String::from_str("Type mismatch in BinaryOperatorAggregate channel"),
            ),
        }
    }
}

impl<V: Clone> ChannelKind<V> {
    /// `r` is a copy of this channel: the same kind and flags, each value a
    /// clone.
    pub open spec fn copied_to(self, r: Self) -> bool {
        match (self, r) {
            (ChannelKind::LastValue(a), ChannelKind::LastValue(b)) => b.updated == a.updated
                && opt_cloned(a.value, b.value),
            (ChannelKind::Ephemeral(a), ChannelKind::Ephemeral(b)) => b.updated == a.updated
                && opt_cloned(a.value, b.value),
            (ChannelKind::Topic(a), ChannelKind::Topic(b)) => {
                &&& b.updated == a.updated
                &&& b.accumulate == a.accumulate
                &&& b.dedup == a.dedup
                &&& b.values@.len() == a.values@.len()
                &&& forall|i: int| 0 <= i < a.values@.len() ==> cloned(a.values@[i], b.values@[i])
            },
            (ChannelKind::Aggregate(a), ChannelKind::Aggregate(b)) => b.updated == a.updated
                && b.reducer == a.reducer && opt_cloned(a.value, b.value),
            _ => false,
        }
    }
}

impl<V: PartialEq> ChannelKind<V> {
    /// `r` is this channel after the reset between supersteps.
    pub open spec fn reset_to(self, r: Self) -> bool {
        match (self, r) {
            (ChannelKind::LastValue(a), ChannelKind::LastValue(b)) => b.value == a.value
                && !b.updated,
            (ChannelKind::Ephemeral(a), ChannelKind::Ephemeral(b)) => b.value is None
                && !b.updated,
            (ChannelKind::Topic(a), ChannelKind::Topic(b)) => {
                &&& b.accumulate == a.accumulate
                &&& b.dedup == a.dedup
                &&& !b.updated
                &&& if a.accumulate {
                    b.values@ == a.values@
                } else {
                    b.values@.len() == 0
                }
            },
            (ChannelKind::Aggregate(a), ChannelKind::Aggregate(b)) => b.value == a.value
                && b.reducer == a.reducer && !b.updated,
            _ => false,
        }
    }

    /// `r` is this channel after the batch `vals` was applied to it.
    pub open spec fn update_to(self, vals: Seq<V>, r: Self) -> bool {
        match (self, r) {
            (ChannelKind::LastValue(a), ChannelKind::LastValue(b)) => if vals.len() == 0 {
                b == a
            } else {
                b.value == Some(vals.last()) && b.updated
            },
            (ChannelKind::Ephemeral(a), ChannelKind::Ephemeral(b)) => if vals.len() == 0 {
                b == a
            } else {
                b.value == Some(vals.last()) && b.updated
            },
            (ChannelKind::Topic(a), ChannelKind::Topic(b)) => {
                &&& b.accumulate == a.accumulate
                &&& b.dedup == a.dedup
                &&& !a.dedup ==> b.values@ == a.values@ + vals
                &&& V::obeys_eq_spec() ==> b.values@ == topic_add(a.values@, vals, a.dedup)
                &&& b.updated == (a.updated || b.values@.len() > a.values@.len())
            },
            (ChannelKind::Aggregate(a), ChannelKind::Aggregate(b)) => {
                &&& b.reducer == a.reducer
                &&& folded(a.reducer, a.value, vals, b.value)
                &&& b.updated == (a.updated || vals.len() > 0)
            },
            _ => false,
        }
    }
}

impl<V: Clone + PartialEq + 'static> Channel<V> for ChannelKind<V> {
    open spec fn updated_flag(&self) -> bool {
        match self {
            ChannelKind::LastValue(c) => c.updated,
            ChannelKind::Ephemeral(c) => c.updated,
            ChannelKind::Topic(c) => c.updated,
            ChannelKind::Aggregate(c) => c.updated,
        }
    }

    open spec fn well_formed(&self) -> bool {
        self.kind_well_formed()
    }

    fn is_updated(&self) -> (r: bool) {
        match self {
            ChannelKind::LastValue(c) => c.is_updated(),
            ChannelKind::Ephemeral(c) => c.is_updated(),
            ChannelKind::Topic(c) => c.is_updated(),
            ChannelKind::Aggregate(c) => c.is_updated(),
        }
    }

    fn step_reset(&mut self)
        ensures
            old(self).reset_to(*final(self)),
    {
        match self {
            ChannelKind::LastValue(c) => c.step_reset(),
            ChannelKind::Ephemeral(c) => c.step_reset(),
            ChannelKind::Topic(c) => c.step_reset(),
            ChannelKind::Aggregate(c) => c.step_reset(),
        }
    }

    fn update(&mut self, values: Vec<V>) -> (r: Result<(), ChannelError>)
        ensures
            r is Ok,
            old(self).update_to(values@, *final(self)),
    {
        match self {
            ChannelKind::LastValue(c) => c.update(values),
            ChannelKind::Ephemeral(c) => c.update(values),
            ChannelKind::Topic(c) => c.update(values),
            ChannelKind::Aggregate(c) => c.update(values),
        }
    }

    fn get_boxed(&self) -> (r: Option<ChannelValue<V>>)
        ensures
            match self.stored() {
                Some(x) => r matches Some(y) && value_cloned(x, y),
                None => r is None,
            },
    {
        match self {
            ChannelKind::LastValue(c) => c.get_boxed(),
            ChannelKind::Ephemeral(c) => c.get_boxed(),
            ChannelKind::Topic(c) => c.get_boxed(),
            ChannelKind::Aggregate(c) => c.get_boxed(),
        }
    }

    fn clone_channel(&self) -> (r: Self)
        ensures
            self.copied_to(r),
    {
        match self {
            ChannelKind::LastValue(c) => ChannelKind::LastValue(c.clone_channel()),
            ChannelKind::Ephemeral(c) => ChannelKind::Ephemeral(c.clone_channel()),
            ChannelKind::Topic(c) => ChannelKind::Topic(c.clone_channel()),
            ChannelKind::Aggregate(c) => ChannelKind::Aggregate(c.clone_channel()),
        }
    }
}

/// Channels that a superstep application can hold.
pub trait IntoChannelKind<V>: Sized {
    /// The channel as a superstep application holds it.
    spec fn as_kind(self) -> ChannelKind<V>;

    spec fn kind_ok(&self) -> bool;

    fn into_kind(self) -> (r: ChannelKind<V>)
        requires
            self.kind_ok(),
        ensures
            r.kind_well_formed(),
            r == self.as_kind(),
    ;
}

impl<V> IntoChannelKind<V> for LastValue<V> {
    open spec fn as_kind(self) -> ChannelKind<V> {
        ChannelKind::LastValue(self)
    }

    open spec fn kind_ok(&self) -> bool {
        true
    }

    fn into_kind(self) -> (r: ChannelKind<V>) {
        ChannelKind::LastValue(self)
    }
}

impl<V> IntoChannelKind<V> for EphemeralValue<V> {
    open spec fn as_kind(self) -> ChannelKind<V> {
        ChannelKind::Ephemeral(self)
    }

    open spec fn kind_ok(&self) -> bool {
        true
    }

    fn into_kind(self) -> (r: ChannelKind<V>) {
        ChannelKind::Ephemeral(self)
    }
}

impl<V> IntoChannelKind<V> for Topic<V> {
    open spec fn as_kind(self) -> ChannelKind<V> {
        ChannelKind::Topic(self)
    }

    open spec fn kind_ok(&self) -> bool {
        true
    }

    fn into_kind(self) -> (r: ChannelKind<V>) {
        ChannelKind::Topic(self)
    }
}

impl<V> IntoChannelKind<V> for BinaryOperatorAggregate<V> {
    open spec fn as_kind(self) -> ChannelKind<V> {
        ChannelKind::Aggregate(self)
    }

    open spec fn kind_ok(&self) -> bool {
        self.reducer.callable()
    }

    fn into_kind(self) -> (r: ChannelKind<V>) {
        ChannelKind::Aggregate(self)
    }
}

impl<V> IntoChannelKind<V> for ChannelKind<V> {
    open spec fn as_kind(self) -> ChannelKind<V> {
        self
    }

    open spec fn kind_ok(&self) -> bool {
        self.kind_well_formed()
    }

    fn into_kind(self) -> (r: ChannelKind<V>) {
        self
    }
}

} // verus!
