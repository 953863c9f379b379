//! Lifecycle hooks of graph execution: observers called when a run starts
//! and ends, around each node and each conditional edge, and whenever a node
//! changes the state.
use std::sync::Arc;

use vstd::prelude::*;

use crate::errors::GraphError;

verus! {

/// Lifecycle hooks of graph execution. Every method does nothing unless an
/// implementation overrides it.
pub trait GraphHook<T> {
    /// Called when the graph starts at its entry point.
    fn on_agent_start(&self, entry_point: &str, state: &T) {
    }

    /// Called after a node completed and changed the state.
    fn on_agent_state_change(&self, node_name: &str, state: &T) {
    }

    /// Called right before a node function runs.
    fn on_node_start(&self, node_name: &str, state: &T) {
    }

    /// Called right after a node function ran, with its result.
    fn on_node_end(&self, node_name: &str, state: &T, result: &Result<(), GraphError>) {
    }

    /// Called before a conditional edge evaluates its branch function.
    fn on_conditional_node_start(&self, from_node: &str, state: &T) {
    }

    /// Called after a conditional edge selected the next node.
    fn on_conditional_node_end(&self, from_node: &str, next_node: &str, state: &T) {
    }

    /// Called when the graph reaches its finish point.
    fn on_agent_end(&self, finish_point: &str, state: &T) {
    }
}

/// An observer of a named event and the state.
pub trait StateObserver<T> {
    /// Whether the observer accepts every event.
    spec fn callable(&self) -> bool;

    /// What holds once the observer has been called with `name` and `state`.
    spec fn observed(&self, name: &str, state: &T) -> bool;

    fn observe(&self, name: &str, state: &T)
        requires
            self.callable(),
        ensures
            self.observed(name, state),
    ;
}

impl<T, F: Fn(&str, &T)> StateObserver<T> for F {
    open spec fn callable(&self) -> bool {
        forall|n: &str, s: &T| call_requires(*self, (n, s))
    }

    open spec fn observed(&self, name: &str, state: &T) -> bool {
        call_ensures(*self, (name, state), ())
    }

    fn observe(&self, name: &str, state: &T) {
        self(name, state)
    }
}

/// An observer of a node's end, the state and the node's result.
pub trait NodeEndObserver<T> {
    /// Whether the observer accepts every event.
    spec fn callable(&self) -> bool;

    /// What holds once the observer has been called with these arguments.
    spec fn observed(&self, name: &str, state: &T, result: &Result<(), GraphError>) -> bool;

    fn observe(&self, name: &str, state: &T, result: &Result<(), GraphError>)
        requires
            self.callable(),
        ensures
            self.observed(name, state, result),
    ;
}

impl<T, F: Fn(&str, &T, &Result<(), GraphError>)> NodeEndObserver<T> for F {
    open spec fn callable(&self) -> bool {
        forall|n: &str, s: &T, r: &Result<(), GraphError>| call_requires(*self, (n, s, r))
    }

    open spec fn observed(&self, name: &str, state: &T, result: &Result<(), GraphError>) -> bool {
        call_ensures(*self, (name, state, result), ())
    }

    fn observe(&self, name: &str, state: &T, result: &Result<(), GraphError>) {
        self(name, state, result)
    }
}

/// An observer of a conditional edge's choice: its source, the chosen node
/// and the state.
pub trait RouteObserver<T> {
    /// Whether the observer accepts every event.
    spec fn callable(&self) -> bool;

    /// What holds once the observer has been called with these arguments.
    spec fn observed(&self, from_node: &str, next_node: &str, state: &T) -> bool;

    fn observe(&self, from_node: &str, next_node: &str, state: &T)
        requires
            self.callable(),
        ensures
            self.observed(from_node, next_node, state),
    ;
}

impl<T, F: Fn(&str, &str, &T)> RouteObserver<T> for F {
    open spec fn callable(&self) -> bool {
        forall|f: &str, n: &str, s: &T| call_requires(*self, (f, n, s))
    }

    open spec fn observed(&self, from_node: &str, next_node: &str, state: &T) -> bool {
        call_ensures(*self, (from_node, next_node, state), ())
    }

    fn observe(&self, from_node: &str, next_node: &str, state: &T) {
        self(from_node, next_node, state)
    }
}

/// A registered state observer; it accepts every event.
#[verifier::reject_recursive_types(T)]
struct StateHook<T> {
    hook: Arc<Box<dyn StateObserver<T>>>,
}

impl<T> StateHook<T> {
    #[verifier::type_invariant]
    spec fn inv(&self) -> bool {
        self.hook.callable()
    }
}

/// A registered node-end observer; it accepts every event.
#[verifier::reject_recursive_types(T)]
struct NodeEndHook<T> {
    hook: Arc<Box<dyn NodeEndObserver<T>>>,
}

impl<T> NodeEndHook<T> {
    #[verifier::type_invariant]
    spec fn inv(&self) -> bool {
        self.hook.callable()
    }
}

/// A registered route observer; it accepts every event.
#[verifier::reject_recursive_types(T)]
struct RouteHook<T> {
    hook: Arc<Box<dyn RouteObserver<T>>>,
}

impl<T> RouteHook<T> {
    #[verifier::type_invariant]
    spec fn inv(&self) -> bool {
        self.hook.callable()
    }
}

/// The lifecycle events a hook can be registered for.
pub enum HookEvent {
    AgentStart,
    AgentStateChange,
    NodeStart,
    NodeEnd,
    ConditionalNodeStart,
    ConditionalNodeEnd,
    AgentEnd,
}

/// Hooks given as closures, any number per event, called in the order they
/// were added.
#[verifier::reject_recursive_types(T)]
pub struct Hooks<T> {
    on_agent_start_hooks: Vec<StateHook<T>>,
    on_agent_state_change_hooks: Vec<StateHook<T>>,
    on_node_start_hooks: Vec<StateHook<T>>,
    on_node_end_hooks: Vec<NodeEndHook<T>>,
    on_conditional_node_start_hooks: Vec<StateHook<T>>,
    on_conditional_node_end_hooks: Vec<RouteHook<T>>,
    on_agent_end_hooks: Vec<StateHook<T>>,
}

/// Runs every observer of `hooks`, in order.
fn notify_all<T>(hooks: &Vec<StateHook<T>>, name: &str, state: &T)
    ensures
        forall|k: int| 0 <= k < hooks@.len() ==> #[trigger] hooks@[k].hook.observed(name, state),
{
    let mut i: usize = 0;
    while i < hooks.len()
        invariant
            i <= hooks@.len(),
            forall|k: int| 0 <= k < i ==> #[trigger] hooks@[k].hook.observed(name, state),
        decreases hooks@.len() - i,
    {
        let h = &hooks[i];
        proof {
            use_type_invariant(h);
        }
        h.hook.observe(name, state);
        i = i + 1;
    }
}

impl<T> Hooks<T> {
    /// The number of hooks registered for `event`.
    pub closed spec fn count(&self, event: HookEvent) -> nat {
        match event {
            HookEvent::AgentStart => self.on_agent_start_hooks@.len(),
            HookEvent::AgentStateChange => self.on_agent_state_change_hooks@.len(),
            HookEvent::NodeStart => self.on_node_start_hooks@.len(),
            HookEvent::NodeEnd => self.on_node_end_hooks@.len(),
            HookEvent::ConditionalNodeStart => self.on_conditional_node_start_hooks@.len(),
            HookEvent::ConditionalNodeEnd => self.on_conditional_node_end_hooks@.len(),
            HookEvent::AgentEnd => self.on_agent_end_hooks@.len(),
        }
    }

    /// The state observers registered for `event`, in the order they are
    /// called (none for the events whose observers take more).
    pub closed spec fn state_observers(&self, event: HookEvent) -> Seq<
        Arc<Box<dyn StateObserver<T>>>,
    > {
        let pick = |h: StateHook<T>| h.hook;
        match event {
            HookEvent::AgentStart => self.on_agent_start_hooks@.map_values(pick),
            HookEvent::AgentStateChange => self.on_agent_state_change_hooks@.map_values(pick),
            HookEvent::NodeStart => self.on_node_start_hooks@.map_values(pick),
            HookEvent::ConditionalNodeStart => self.on_conditional_node_start_hooks@.map_values(
                pick,
            ),
            HookEvent::AgentEnd => self.on_agent_end_hooks@.map_values(pick),
            _ => Seq::empty(),
        }
    }

    /// The node-end observers, in the order they are called.
    pub closed spec fn node_end_observers(&self) -> Seq<Arc<Box<dyn NodeEndObserver<T>>>> {
        self.on_node_end_hooks@.map_values(|h: NodeEndHook<T>| h.hook)
    }

    /// The route observers, in the order they are called.
    pub closed spec fn route_observers(&self) -> Seq<Arc<Box<dyn RouteObserver<T>>>> {
        self.on_conditional_node_end_hooks@.map_values(|h: RouteHook<T>| h.hook)
    }

    /// `self` holds the observers of `other`, but for `event`, whose
    /// observers are those of `other` and one more after them.
    pub open spec fn adds_one(&self, other: &Self, event: HookEvent) -> bool {
        &&& self.count(event) == other.count(event) + 1
        &&& forall|e: HookEvent| e != event ==> #[trigger] self.count(e) == other.count(e)
        &&& forall|e: HookEvent|
            e != event ==> #[trigger] self.state_observers(e) == other.state_observers(e)
        &&& event != HookEvent::NodeEnd ==> self.node_end_observers() == other.node_end_observers()
        &&& event != HookEvent::ConditionalNodeEnd ==> self.route_observers()
            == other.route_observers()
        &&& self.state_observers(event).take(other.state_observers(event).len() as int)
            == other.state_observers(event)
        &&& self.node_end_observers().take(other.node_end_observers().len() as int)
            == other.node_end_observers()
        &&& self.route_observers().take(other.route_observers().len() as int)
            == other.route_observers()
    }

    /// A container with no hooks.
    pub fn new() -> (r: Self)
        ensures
            forall|e: HookEvent| r.count(e) == 0,
    {
        Hooks {
            on_agent_start_hooks: Vec::new(),
            on_agent_state_change_hooks: Vec::new(),
            on_node_start_hooks: Vec::new(),
            on_node_end_hooks: Vec::new(),
            on_conditional_node_start_hooks: Vec::new(),
            on_conditional_node_end_hooks: Vec::new(),
            on_agent_end_hooks: Vec::new(),
        }
    }

    /// Registers a hook called when the graph starts.
    pub fn add_on_agent_start<F: Fn(&str, &T) + 'static>(&mut self, hook: F) -> (r: &mut Self)
        requires
            forall|n: &str, s: &T| call_requires(hook, (n, s)),
        ensures
            r.adds_one(old(self), HookEvent::AgentStart),
            *r.state_observers(HookEvent::AgentStart).last() == ({
                let b: Box<dyn StateObserver<T>> = Box::new(hook);
                b
            }),
            *final(self) == *final(r),
    {
        let boxed: Box<dyn StateObserver<T>> = Box::new(hook);
        self.on_agent_start_hooks.push(StateHook { hook: Arc::new(boxed) });
        proof {
            assert(self.state_observers(HookEvent::AgentStart).take(old(self).state_observers(HookEvent::AgentStart).len() as int) =~= old(self).state_observers(HookEvent::AgentStart));
            assert(self.state_observers(HookEvent::AgentStateChange).take(old(self).state_observers(HookEvent::AgentStateChange).len() as int) =~= old(self).state_observers(HookEvent::AgentStateChange));
            assert(self.state_observers(HookEvent::NodeStart).take(old(self).state_observers(HookEvent::NodeStart).len() as int) =~= old(self).state_observers(HookEvent::NodeStart));
            assert(self.state_observers(HookEvent::ConditionalNodeStart).take(old(self).state_observers(HookEvent::ConditionalNodeStart).len() as int) =~= old(self).state_observers(HookEvent::ConditionalNodeStart));
            assert(self.state_observers(HookEvent::AgentEnd).take(old(self).state_observers(HookEvent::AgentEnd).len() as int) =~= old(self).state_observers(HookEvent::AgentEnd));
            assert(self.state_observers(HookEvent::NodeEnd).take(old(self).state_observers(HookEvent::NodeEnd).len() as int) =~= old(self).state_observers(HookEvent::NodeEnd));
            assert(self.state_observers(HookEvent::ConditionalNodeEnd).take(old(self).state_observers(HookEvent::ConditionalNodeEnd).len() as int) =~= old(self).state_observers(HookEvent::ConditionalNodeEnd));
            assert(self.node_end_observers().take(old(self).node_end_observers().len() as int) =~= old(self).node_end_observers());
            assert(self.route_observers().take(old(self).route_observers().len() as int) =~= old(self).route_observers());
        }
        self
    }

    /// Registers a hook called when a node changed the state.
    pub fn add_on_agent_state_change<F: Fn(&str, &T) + 'static>(&mut self, hook: F) -> (r:
        &mut Self)
        requires
            forall|n: &str, s: &T| call_requires(hook, (n, s)),
        ensures
            r.adds_one(old(self), HookEvent::AgentStateChange),
            *r.state_observers(HookEvent::AgentStateChange).last() == ({
                let b: Box<dyn StateObserver<T>> = Box::new(hook);
                b
            }),
            *final(self) == *final(r),
    {
        let boxed: Box<dyn StateObserver<T>> = Box::new(hook);
        self.on_agent_state_change_hooks.push(StateHook { hook: Arc::new(boxed) });
        proof {
            assert(self.state_observers(HookEvent::AgentStart).take(old(self).state_observers(HookEvent::AgentStart).len() as int) =~= old(self).state_observers(HookEvent::AgentStart));
            assert(self.state_observers(HookEvent::AgentStateChange).take(old(self).state_observers(HookEvent::AgentStateChange).len() as int) =~= old(self).state_observers(HookEvent::AgentStateChange));
            assert(self.state_observers(HookEvent::NodeStart).take(old(self).state_observers(HookEvent::NodeStart).len() as int) =~= old(self).state_observers(HookEvent::NodeStart));
            assert(self.state_observers(HookEvent::ConditionalNodeStart).take(old(self).state_observers(HookEvent::ConditionalNodeStart).len() as int) =~= old(self).state_observers(HookEvent::ConditionalNodeStart));
            assert(self.state_observers(HookEvent::AgentEnd).take(old(self).state_observers(HookEvent::AgentEnd).len() as int) =~= old(self).state_observers(HookEvent::AgentEnd));
            assert(self.state_observers(HookEvent::NodeEnd).take(old(self).state_observers(HookEvent::NodeEnd).len() as int) =~= old(self).state_observers(HookEvent::NodeEnd));
            assert(self.state_observers(HookEvent::ConditionalNodeEnd).take(old(self).state_observers(HookEvent::ConditionalNodeEnd).len() as int) =~= old(self).state_observers(HookEvent::ConditionalNodeEnd));
            assert(self.node_end_observers().take(old(self).node_end_observers().len() as int) =~= old(self).node_end_observers());
            assert(self.route_observers().take(old(self).route_observers().len() as int) =~= old(self).route_observers());
        }
        self
    }

    /// Registers a hook called before a node runs.
    pub fn add_on_node_start<F: Fn(&str, &T) + 'static>(&mut self, hook: F) -> (r: &mut Self)
        requires
            forall|n: &str, s: &T| call_requires(hook, (n, s)),
        ensures
            r.adds_one(old(self), HookEvent::NodeStart),
            *r.state_observers(HookEvent::NodeStart).last() == ({
                let b: Box<dyn StateObserver<T>> = Box::new(hook);
                b
            }),
            *final(self) == *final(r),
    {
        let boxed: Box<dyn StateObserver<T>> = Box::new(hook);
        self.on_node_start_hooks.push(StateHook { hook: Arc::new(boxed) });
        proof {
            assert(self.state_observers(HookEvent::AgentStart).take(old(self).state_observers(HookEvent::AgentStart).len() as int) =~= old(self).state_observers(HookEvent::AgentStart));
            assert(self.state_observers(HookEvent::AgentStateChange).take(old(self).state_observers(HookEvent::AgentStateChange).len() as int) =~= old(self).state_observers(HookEvent::AgentStateChange));
            assert(self.state_observers(HookEvent::NodeStart).take(old(self).state_observers(HookEvent::NodeStart).len() as int) =~= old(self).state_observers(HookEvent::NodeStart));
            assert(self.state_observers(HookEvent::ConditionalNodeStart).take(old(self).state_observers(HookEvent::ConditionalNodeStart).len() as int) =~= old(self).state_observers(HookEvent::ConditionalNodeStart));
            assert(self.state_observers(HookEvent::AgentEnd).take(old(self).state_observers(HookEvent::AgentEnd).len() as int) =~= old(self).state_observers(HookEvent::AgentEnd));
            assert(self.state_observers(HookEvent::NodeEnd).take(old(self).state_observers(HookEvent::NodeEnd).len() as int) =~= old(self).state_observers(HookEvent::NodeEnd));
            assert(self.state_observers(HookEvent::ConditionalNodeEnd).take(old(self).state_observers(HookEvent::ConditionalNodeEnd).len() as int) =~= old(self).state_observers(HookEvent::ConditionalNodeEnd));
            assert(self.node_end_observers().take(old(self).node_end_observers().len() as int) =~= old(self).node_end_observers());
            assert(self.route_observers().take(old(self).route_observers().len() as int) =~= old(self).route_observers());
        }
        self
    }

    /// Registers a hook called after a node ran.
    pub fn add_on_node_end<F: Fn(&str, &T, &Result<(), GraphError>) + 'static>(
        &mut self,
        hook: F,
    ) -> (r: &mut Self)
        requires
            forall|n: &str, s: &T, res: &Result<(), GraphError>| call_requires(hook, (n, s, res)),
        ensures
            r.adds_one(old(self), HookEvent::NodeEnd),
            *r.node_end_observers().last() == ({
                let b: Box<dyn NodeEndObserver<T>> = Box::new(hook);
                b
            }),
            *final(self) == *final(r),
    {
        let boxed: Box<dyn NodeEndObserver<T>> = Box::new(hook);
        self.on_node_end_hooks.push(NodeEndHook { hook: Arc::new(boxed) });
        proof {
            assert(self.state_observers(HookEvent::AgentStart).take(old(self).state_observers(HookEvent::AgentStart).len() as int) =~= old(self).state_observers(HookEvent::AgentStart));
            assert(self.state_observers(HookEvent::AgentStateChange).take(old(self).state_observers(HookEvent::AgentStateChange).len() as int) =~= old(self).state_observers(HookEvent::AgentStateChange));
            assert(self.state_observers(HookEvent::NodeStart).take(old(self).state_observers(HookEvent::NodeStart).len() as int) =~= old(self).state_observers(HookEvent::NodeStart));
            assert(self.state_observers(HookEvent::ConditionalNodeStart).take(old(self).state_observers(HookEvent::ConditionalNodeStart).len() as int) =~= old(self).state_observers(HookEvent::ConditionalNodeStart));
            assert(self.state_observers(HookEvent::AgentEnd).take(old(self).state_observers(HookEvent::AgentEnd).len() as int) =~= old(self).state_observers(HookEvent::AgentEnd));
            assert(self.state_observers(HookEvent::NodeEnd).take(old(self).state_observers(HookEvent::NodeEnd).len() as int) =~= old(self).state_observers(HookEvent::NodeEnd));
            assert(self.state_observers(HookEvent::ConditionalNodeEnd).take(old(self).state_observers(HookEvent::ConditionalNodeEnd).len() as int) =~= old(self).state_observers(HookEvent::ConditionalNodeEnd));
            assert(self.node_end_observers().take(old(self).node_end_observers().len() as int) =~= old(self).node_end_observers());
            assert(self.route_observers().take(old(self).route_observers().len() as int) =~= old(self).route_observers());
        }
        self
    }

    /// Registers a hook called before a conditional edge is evaluated.
    pub fn add_on_conditional_node_start<F: Fn(&str, &T) + 'static>(&mut self, hook: F) -> (r:
        &mut Self)
        requires
            forall|n: &str, s: &T| call_requires(hook, (n, s)),
        ensures
            r.adds_one(old(self), HookEvent::ConditionalNodeStart),
            *r.state_observers(HookEvent::ConditionalNodeStart).last() == ({
                let b: Box<dyn StateObserver<T>> = Box::new(hook);
                b
            }),
            *final(self) == *final(r),
    {
        let boxed: Box<dyn StateObserver<T>> = Box::new(hook);
        self.on_conditional_node_start_hooks.push(StateHook { hook: Arc::new(boxed) });
        proof {
            assert(self.state_observers(HookEvent::AgentStart).take(old(self).state_observers(HookEvent::AgentStart).len() as int) =~= old(self).state_observers(HookEvent::AgentStart));
            assert(self.state_observers(HookEvent::AgentStateChange).take(old(self).state_observers(HookEvent::AgentStateChange).len() as int) =~= old(self).state_observers(HookEvent::AgentStateChange));
            assert(self.state_observers(HookEvent::NodeStart).take(old(self).state_observers(HookEvent::NodeStart).len() as int) =~= old(self).state_observers(HookEvent::NodeStart));
            assert(self.state_observers(HookEvent::ConditionalNodeStart).take(old(self).state_observers(HookEvent::ConditionalNodeStart).len() as int) =~= old(self).state_observers(HookEvent::ConditionalNodeStart));
            assert(self.state_observers(HookEvent::AgentEnd).take(old(self).state_observers(HookEvent::AgentEnd).len() as int) =~= old(self).state_observers(HookEvent::AgentEnd));
            assert(self.state_observers(HookEvent::NodeEnd).take(old(self).state_observers(HookEvent::NodeEnd).len() as int) =~= old(self).state_observers(HookEvent::NodeEnd));
            assert(self.state_observers(HookEvent::ConditionalNodeEnd).take(old(self).state_observers(HookEvent::ConditionalNodeEnd).len() as int) =~= old(self).state_observers(HookEvent::ConditionalNodeEnd));
            assert(self.node_end_observers().take(old(self).node_end_observers().len() as int) =~= old(self).node_end_observers());
            assert(self.route_observers().take(old(self).route_observers().len() as int) =~= old(self).route_observers());
        }
        self
    }

    /// Registers a hook called after a conditional edge chose the next node.
    pub fn add_on_conditional_node_end<F: Fn(&str, &str, &T) + 'static>(&mut self, hook: F) -> (r:
        &mut Self)
        requires
            forall|f: &str, n: &str, s: &T| call_requires(hook, (f, n, s)),
        ensures
            r.adds_one(old(self), HookEvent::ConditionalNodeEnd),
            *r.route_observers().last() == ({
                let b: Box<dyn RouteObserver<T>> = Box::new(hook);
                b
            }),
            *final(self) == *final(r),
    {
        let boxed: Box<dyn RouteObserver<T>> = Box::new(hook);
        self.on_conditional_node_end_hooks.push(RouteHook { hook: Arc::new(boxed) });
        proof {
            assert(self.state_observers(HookEvent::AgentStart).take(old(self).state_observers(HookEvent::AgentStart).len() as int) =~= old(self).state_observers(HookEvent::AgentStart));
            assert(self.state_observers(HookEvent::AgentStateChange).take(old(self).state_observers(HookEvent::AgentStateChange).len() as int) =~= old(self).state_observers(HookEvent::AgentStateChange));
            assert(self.state_observers(HookEvent::NodeStart).take(old(self).state_observers(HookEvent::NodeStart).len() as int) =~= old(self).state_observers(HookEvent::NodeStart));
            assert(self.state_observers(HookEvent::ConditionalNodeStart).take(old(self).state_observers(HookEvent::ConditionalNodeStart).len() as int) =~= old(self).state_observers(HookEvent::ConditionalNodeStart));
            assert(self.state_observers(HookEvent::AgentEnd).take(old(self).state_observers(HookEvent::AgentEnd).len() as int) =~= old(self).state_observers(HookEvent::AgentEnd));
            assert(self.state_observers(HookEvent::NodeEnd).take(old(self).state_observers(HookEvent::NodeEnd).len() as int) =~= old(self).state_observers(HookEvent::NodeEnd));
            assert(self.state_observers(HookEvent::ConditionalNodeEnd).take(old(self).state_observers(HookEvent::ConditionalNodeEnd).len() as int) =~= old(self).state_observers(HookEvent::ConditionalNodeEnd));
            assert(self.node_end_observers().take(old(self).node_end_observers().len() as int) =~= old(self).node_end_observers());
            assert(self.route_observers().take(old(self).route_observers().len() as int) =~= old(self).route_observers());
        }
        self
    }

    /// Registers a hook called when the graph reaches its finish point.
    pub fn add_on_agent_end<F: Fn(&str, &T) + 'static>(&mut self, hook: F) -> (r: &mut Self)
        requires
            forall|n: &str, s: &T| call_requires(hook, (n, s)),
        ensures
            r.adds_one(old(self), HookEvent::AgentEnd),
            *r.state_observers(HookEvent::AgentEnd).last() == ({
                let b: Box<dyn StateObserver<T>> = Box::new(hook);
                b
            }),
            *final(self) == *final(r),
    {
        let boxed: Box<dyn StateObserver<T>> = Box::new(hook);
        self.on_agent_end_hooks.push(StateHook { hook: Arc::new(boxed) });
        proof {
            assert(self.state_observers(HookEvent::AgentStart).take(old(self).state_observers(HookEvent::AgentStart).len() as int) =~= old(self).state_observers(HookEvent::AgentStart));
            assert(self.state_observers(HookEvent::AgentStateChange).take(old(self).state_observers(HookEvent::AgentStateChange).len() as int) =~= old(self).state_observers(HookEvent::AgentStateChange));
            assert(self.state_observers(HookEvent::NodeStart).take(old(self).state_observers(HookEvent::NodeStart).len() as int) =~= old(self).state_observers(HookEvent::NodeStart));
            assert(self.state_observers(HookEvent::ConditionalNodeStart).take(old(self).state_observers(HookEvent::ConditionalNodeStart).len() as int) =~= old(self).state_observers(HookEvent::ConditionalNodeStart));
            assert(self.state_observers(HookEvent::AgentEnd).take(old(self).state_observers(HookEvent::AgentEnd).len() as int) =~= old(self).state_observers(HookEvent::AgentEnd));
            assert(self.state_observers(HookEvent::NodeEnd).take(old(self).state_observers(HookEvent::NodeEnd).len() as int) =~= old(self).state_observers(HookEvent::NodeEnd));
            assert(self.state_observers(HookEvent::ConditionalNodeEnd).take(old(self).state_observers(HookEvent::ConditionalNodeEnd).len() as int) =~= old(self).state_observers(HookEvent::ConditionalNodeEnd));
            assert(self.node_end_observers().take(old(self).node_end_observers().len() as int) =~= old(self).node_end_observers());
            assert(self.route_observers().take(old(self).route_observers().len() as int) =~= old(self).route_observers());
        }
        self
    }
}

impl<T> Default for Hooks<T> {
    fn default() -> (r: Self)
        ensures
            forall|e: HookEvent| r.count(e) == 0,
    {
        Self::new()
    }
}

/// Shares each observer of `hooks` in a new list.
fn share_state_hooks<T>(hooks: &Vec<StateHook<T>>) -> (r: Vec<StateHook<T>>)
    ensures
        r@.len() == hooks@.len(),
{
    let mut r: Vec<StateHook<T>> = Vec::new();
    let mut i: usize = 0;
    while i < hooks.len()
        invariant
            i <= hooks@.len(),
            r@.len() == i,
        decreases hooks@.len() - i,
    {
        let h = &hooks[i];
        proof {
            use_type_invariant(h);
        }
        r.push(StateHook { hook: h.hook.clone() });
        i = i + 1;
    }
    r
}

impl<T> Clone for Hooks<T> {
    /// A container sharing the same hooks.
    fn clone(&self) -> (r: Self)
        ensures
            forall|e: HookEvent| r.count(e) == self.count(e),
    {
        let mut node_end: Vec<NodeEndHook<T>> = Vec::new();
        let mut i: usize = 0;
        while i < self.on_node_end_hooks.len()
            invariant
                i <= self.on_node_end_hooks@.len(),
                node_end@.len() == i,
            decreases self.on_node_end_hooks@.len() - i,
        {
            let h = &self.on_node_end_hooks[i];
            proof {
                use_type_invariant(h);
            }
            node_end.push(NodeEndHook { hook: h.hook.clone() });
            i = i + 1;
        }
        let mut route_end: Vec<RouteHook<T>> = Vec::new();
        let mut j: usize = 0;
        while j < self.on_conditional_node_end_hooks.len()
            invariant
                j <= self.on_conditional_node_end_hooks@.len(),
                route_end@.len() == j,
            decreases self.on_conditional_node_end_hooks@.len() - j,
        {
            let h = &self.on_conditional_node_end_hooks[j];
            proof {
                use_type_invariant(h);
            }
            route_end.push(RouteHook { hook: h.hook.clone() });
            j = j + 1;
        }
        Hooks {
            on_agent_start_hooks: share_state_hooks(&self.on_agent_start_hooks),
            on_agent_state_change_hooks: share_state_hooks(&self.on_agent_state_change_hooks),
            on_node_start_hooks: share_state_hooks(&self.on_node_start_hooks),
            on_node_end_hooks: node_end,
            on_conditional_node_start_hooks: share_state_hooks(
                &self.on_conditional_node_start_hooks,
            ),
            on_conditional_node_end_hooks: route_end,
            on_agent_end_hooks: share_state_hooks(&self.on_agent_end_hooks),
        }
    }
}

impl<T> GraphHook<T> for Hooks<T> {
    fn on_agent_start(&self, entry_point: &str, state: &T)
        ensures
            forall|k: int|
                0 <= k < self.state_observers(HookEvent::AgentStart).len() ==> #[trigger] self.state_observers(
                    HookEvent::AgentStart,
                )[k].observed(entry_point, state),
    {
        notify_all(&self.on_agent_start_hooks, entry_point, state);
    }

    fn on_agent_state_change(&self, node_name: &str, state: &T)
        ensures
            forall|k: int|
                0 <= k < self.state_observers(HookEvent::AgentStateChange).len() ==> #[trigger] self.state_observers(
                    HookEvent::AgentStateChange,
                )[k].observed(node_name, state),
    {
        notify_all(&self.on_agent_state_change_hooks, node_name, state);
    }

    fn on_node_start(&self, node_name: &str, state: &T)
        ensures
            forall|k: int|
                0 <= k < self.state_observers(HookEvent::NodeStart).len() ==> #[trigger] self.state_observers(
                    HookEvent::NodeStart,
                )[k].observed(node_name, state),
    {
        notify_all(&self.on_node_start_hooks, node_name, state);
    }

    fn on_node_end(&self, node_name: &str, state: &T, result: &Result<(), GraphError>)
        ensures
            forall|k: int|
                0 <= k < self.node_end_observers().len() ==> #[trigger] self.node_end_observers()[k].observed(
                    node_name,
                    state,
                    result,
                ),
    {
        let mut i: usize = 0;
        while i < self.on_node_end_hooks.len()
            invariant
                i <= self.on_node_end_hooks@.len(),
                forall|k: int|
                    0 <= k < i ==> #[trigger] self.on_node_end_hooks@[k].hook.observed(
                        node_name,
                        state,
                        result,
                    ),
            decreases self.on_node_end_hooks@.len() - i,
        {
            let h = &self.on_node_end_hooks[i];
            proof {
                use_type_invariant(h);
            }
            h.hook.observe(node_name, state, result);
            i = i + 1;
        }
    }

    fn on_conditional_node_start(&self, from_node: &str, state: &T)
        ensures
            forall|k: int|
                0 <= k < self.state_observers(HookEvent::ConditionalNodeStart).len() ==> #[trigger] self.state_observers(
                    HookEvent::ConditionalNodeStart,
                )[k].observed(from_node, state),
    {
        notify_all(&self.on_conditional_node_start_hooks, from_node, state);
    }

    fn on_conditional_node_end(&self, from_node: &str, next_node: &str, state: &T)
        ensures
            forall|k: int|
                0 <= k < self.route_observers().len() ==> #[trigger] self.route_observers()[k].observed(
                    from_node,
                    next_node,
                    state,
                ),
    {
        let mut i: usize = 0;
        while i < self.on_conditional_node_end_hooks.len()
            invariant
                i <= self.on_conditional_node_end_hooks@.len(),
                forall|k: int|
                    0 <= k < i ==> #[trigger] self.on_conditional_node_end_hooks@[k].hook.observed(
                        from_node,
                        next_node,
                        state,
                    ),
            decreases self.on_conditional_node_end_hooks@.len() - i,
        {
            let h = &self.on_conditional_node_end_hooks[i];
            proof {
                use_type_invariant(h);
            }
            h.hook.observe(from_node, next_node, state);
            i = i + 1;
        }
    }

    fn on_agent_end(&self, finish_point: &str, state: &T)
        ensures
            forall|k: int|
                0 <= k < self.state_observers(HookEvent::AgentEnd).len() ==> #[trigger] self.state_observers(
                    HookEvent::AgentEnd,
                )[k].observed(finish_point, state),
    {
        notify_all(&self.on_agent_end_hooks, finish_point, state);
    }
}

/// A registered hook.
#[verifier::reject_recursive_types(T)]
struct HookSlot<T> {
    hook: Arc<Box<dyn GraphHook<T>>>,
}

/// Calls every registered `GraphHook`, in the order they were added.
#[verifier::reject_recursive_types(T)]
pub struct HookDispatcher<T> {
    hooks: Vec<HookSlot<T>>,
}

impl<T> HookDispatcher<T> {
    /// The number of hooks registered.
    pub closed spec fn hook_count(&self) -> nat {
        self.hooks@.len()
    }

    /// The hooks registered, in the order they are called.
    pub closed spec fn held(&self) -> Seq<Arc<Box<dyn GraphHook<T>>>> {
        self.hooks@.map_values(|h: HookSlot<T>| h.hook)
    }
}

impl<T> HookDispatcher<T> {
    /// A dispatcher with no hooks.
    pub fn new() -> (r: Self)
        ensures
            r.hook_count() == 0,
            r.held() == Seq::<Arc<Box<dyn GraphHook<T>>>>::empty(),
    {
        let r = HookDispatcher { hooks: Vec::new() };
        assert(r.held() =~= Seq::<Arc<Box<dyn GraphHook<T>>>>::empty());
        r
    }

    /// Adds `hook` after the hooks already registered.
    pub fn add_hook<H: GraphHook<T> + 'static>(&mut self, hook: H)
        ensures
            final(self).hook_count() == old(self).hook_count() + 1,
            final(self).held().len() == old(self).held().len() + 1,
            final(self).held().take(old(self).held().len() as int) == old(self).held(),
            *final(self).held().last() == ({
                let b: Box<dyn GraphHook<T>> = Box::new(hook);
                b
            }),
    {
        let boxed: Box<dyn GraphHook<T>> = Box::new(hook);
        self.hooks.push(HookSlot { hook: Arc::new(boxed) });
        assert(self.held().take(old(self).held().len() as int) =~= old(self).held());
    }

    /// Calls `on_agent_start` of every hook.
    pub fn on_agent_start(&self, entry_point: &str, state: &T) {
        let mut i: usize = 0;
        while i < self.hooks.len()
            invariant
                i <= self.hooks@.len(),
            decreases self.hooks@.len() - i,
        {
            self.hooks[i].hook.on_agent_start(entry_point, state);
            i = i + 1;
        }
    }

    /// Calls `on_agent_state_change` of every hook.
    pub fn on_agent_state_change(&self, node_name: &str, state: &T) {
        let mut i: usize = 0;
        while i < self.hooks.len()
            invariant
                i <= self.hooks@.len(),
            decreases self.hooks@.len() - i,
        {
            self.hooks[i].hook.on_agent_state_change(node_name, state);
            i = i + 1;
        }
    }

    /// Calls `on_node_start` of every hook.
    pub fn on_node_start(&self, node_name: &str, state: &T) {
        let mut i: usize = 0;
        while i < self.hooks.len()
            invariant
                i <= self.hooks@.len(),
            decreases self.hooks@.len() - i,
        {
            self.hooks[i].hook.on_node_start(node_name, state);
            i = i + 1;
        }
    }

    /// Calls `on_node_end` of every hook.
    pub fn on_node_end(&self, node_name: &str, state: &T, result: &Result<(), GraphError>) {
        let mut i: usize = 0;
        while i < self.hooks.len()
            invariant
                i <= self.hooks@.len(),
            decreases self.hooks@.len() - i,
        {
            self.hooks[i].hook.on_node_end(node_name, state, result);
            i = i + 1;
        }
    }

    /// Calls `on_conditional_node_start` of every hook.
    pub fn on_conditional_node_start(&self, from_node: &str, state: &T) {
        let mut i: usize = 0;
        while i < self.hooks.len()
            invariant
                i <= self.hooks@.len(),
            decreases self.hooks@.len() - i,
        {
            self.hooks[i].hook.on_conditional_node_start(from_node, state);
            i = i + 1;
        }
    }

    /// Calls `on_conditional_node_end` of every hook.
    pub fn on_conditional_node_end(&self, from_node: &str, next_node: &str, state: &T) {
        let mut i: usize = 0;
        while i < self.hooks.len()
            invariant
                i <= self.hooks@.len(),
            decreases self.hooks@.len() - i,
        {
            self.hooks[i].hook.on_conditional_node_end(from_node, next_node, state);
            i = i + 1;
        }
    }

    /// Calls `on_agent_end` of every hook.
    pub fn on_agent_end(&self, finish_point: &str, state: &T) {
        let mut i: usize = 0;
        while i < self.hooks.len()
            invariant
                i <= self.hooks@.len(),
            decreases self.hooks@.len() - i,
        {
            self.hooks[i].hook.on_agent_end(finish_point, state);
            i = i + 1;
        }
    }
}

impl<T> Default for HookDispatcher<T> {
    fn default() -> (r: Self)
        ensures
            r.hook_count() == 0,
            r.held() == Seq::<Arc<Box<dyn GraphHook<T>>>>::empty(),
    {
        Self::new()
    }
}

impl<T> Clone for HookDispatcher<T> {
    /// A dispatcher sharing the same hooks.
    fn clone(&self) -> (r: Self)
        ensures
            r.hook_count() == self.hook_count(),
            r.held() == self.held(),
    {
        let mut hooks: Vec<HookSlot<T>> = Vec::new();
        let mut i: usize = 0;
        while i < self.hooks.len()
            invariant
                i <= self.hooks@.len(),
                hooks@.len() == i,
                forall|k: int| 0 <= k < i ==> #[trigger] hooks@[k].hook == self.hooks@[k].hook,
            decreases self.hooks@.len() - i,
        {
            hooks.push(HookSlot { hook: self.hooks[i].hook.clone() });
            i = i + 1;
        }
        let r = HookDispatcher { hooks };
        assert(r.held() =~= self.held());
        r
    }
}

/// What a node function gets while it runs: the state, which it changes only
/// through `update` or `set` (each of which notifies `on_agent_state_change`),
/// and the node's name.
#[verifier::reject_recursive_types(T)]
pub struct StateContext<'a, T> {
    node_name: &'a str,
    state: &'a mut T,
    dispatcher: &'a HookDispatcher<T>,
}

impl<'a, T> StateContext<'a, T> {
    /// The name of the running node.
    pub closed spec fn name_view(&self) -> Seq<char> {
        self.node_name@
    }

    /// The current state.
    pub closed spec fn state_view(&self) -> T {
        *self.state
    }

    /// A context for the node `node_name` over `state`, notifying the hooks
    /// of `dispatcher`.
    pub fn new(node_name: &'a str, state: &'a mut T, dispatcher: &'a HookDispatcher<T>) -> (r: Self)
        ensures
            r.name_view() == node_name@,
            r.state_view() == *old(state),
    {
        StateContext { node_name, state, dispatcher }
    }

    /// The current state.
    pub fn get(&self) -> (r: &T)
        ensures
            *r == self.state_view(),
    {
        self.state
    }

    /// The name of the running node.
    pub fn node_name(&self) -> (r: &str)
        ensures
            r@ == self.name_view(),
    {
        self.node_name
    }

    /// Changes the state with `f`, then notifies `on_agent_state_change`;
    /// returns what `f` returned.
    pub fn update<R, F: FnOnce(&mut T) -> R>(&mut self, f: F) -> (r: R)
        requires
            forall|s: &mut T| call_requires(f, (s,)),
        ensures
            final(self).name_view() == old(self).name_view(),
            exists|m: &mut T|
                *m == old(self).state_view() && *final(m) == final(self).state_view()
                    && #[trigger] call_ensures(f, (m,), r),
    {
        let ret = f(self.state);
        self.dispatcher.on_agent_state_change(self.node_name, self.state);
        ret
    }

    /// Replaces the state with `new_state`, then notifies
    /// `on_agent_state_change`.
    pub fn set(&mut self, new_state: T)
        ensures
            final(self).state_view() == new_state,
            final(self).name_view() == old(self).name_view(),
    {
        *self.state = new_state;
        self.dispatcher.on_agent_state_change(self.node_name, self.state);
    }
}

} // verus!
