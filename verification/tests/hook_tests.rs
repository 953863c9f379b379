use std::sync::{Arc, Mutex};

use graphflow::hooks::{GraphHook, HookDispatcher, Hooks, StateContext};
use graphflow::GraphError;

#[derive(Debug, Clone, PartialEq)]
struct Counter {
    value: i32,
}

fn recording_hooks(log: &Arc<Mutex<Vec<String>>>) -> Hooks<Counter> {
    let mut hooks = Hooks::new();
    let l1 = log.clone();
    let l2 = log.clone();
    let l3 = log.clone();
    let l4 = log.clone();
    let l5 = log.clone();
    let l6 = log.clone();
    let l7 = log.clone();
    hooks
        .add_on_agent_start(move |name: &str, s: &Counter| {
            l1.lock().unwrap().push(format!("start {name} {}", s.value))
        })
        .add_on_agent_state_change(move |name: &str, s: &Counter| {
            l2.lock().unwrap().push(format!("change {name} {}", s.value))
        })
        .add_on_node_start(move |name: &str, _s: &Counter| {
            l3.lock().unwrap().push(format!("node start {name}"))
        })
        .add_on_node_end(move |name: &str, _s: &Counter, r: &Result<(), GraphError>| {
            l4.lock().unwrap().push(format!("node end {name} {}", r.is_ok()))
        })
        .add_on_conditional_node_start(move |from: &str, _s: &Counter| {
            l5.lock().unwrap().push(format!("branch start {from}"))
        })
        .add_on_conditional_node_end(move |from: &str, to: &str, _s: &Counter| {
            l6.lock().unwrap().push(format!("branch end {from} {to}"))
        })
        .add_on_agent_end(move |name: &str, _s: &Counter| {
            l7.lock().unwrap().push(format!("end {name}"))
        });
    hooks
}

// Each registered closure is called with the event's arguments.
#[test]
fn test_hooks_call_closures() {
    let log = Arc::new(Mutex::new(Vec::new()));
    let hooks = recording_hooks(&log);
    let s = Counter { value: 7 };
    hooks.on_agent_start("entry", &s);
    hooks.on_agent_state_change("n", &s);
    hooks.on_node_start("n", &s);
    hooks.on_node_end("n", &s, &Ok(()));
    hooks.on_node_end("n", &s, &Err(GraphError::ExecutionError("x".to_string())));
    hooks.on_conditional_node_start("n", &s);
    hooks.on_conditional_node_end("n", "m", &s);
    hooks.on_agent_end("fin", &s);
    assert_eq!(
        *log.lock().unwrap(),
        vec![
            "start entry 7",
            "change n 7",
            "node start n",
            "node end n true",
            "node end n false",
            "branch start n",
            "branch end n m",
            "end fin",
        ]
    );
}

// Hooks of one event run in the order they were added; a clone shares them.
#[test]
fn test_hooks_order_and_clone() {
    let log = Arc::new(Mutex::new(Vec::new()));
    let (a, b) = (log.clone(), log.clone());
    let mut hooks: Hooks<Counter> = Hooks::default();
    hooks.add_on_node_start(move |_: &str, _: &Counter| a.lock().unwrap().push("first".to_string()));
    hooks.add_on_node_start(move |_: &str, _: &Counter| b.lock().unwrap().push("second".to_string()));
    let copy = hooks.clone();
    copy.on_node_start("n", &Counter { value: 0 });
    assert_eq!(*log.lock().unwrap(), vec!["first", "second"]);
}

/// A hook that only counts node starts; its other methods keep their
/// default, which does nothing.
struct StartCounter {
    seen: Arc<Mutex<usize>>,
}

impl GraphHook<Counter> for StartCounter {
    fn on_node_start(&self, _node_name: &str, _state: &Counter) {
        *self.seen.lock().unwrap() += 1;
    }
}

// The dispatcher calls every hook, in the order they were added.
#[test]
fn test_dispatcher_calls_every_hook() {
    let log = Arc::new(Mutex::new(Vec::new()));
    let seen = Arc::new(Mutex::new(0));
    let mut dispatcher: HookDispatcher<Counter> = HookDispatcher::new();
    dispatcher.add_hook(recording_hooks(&log));
    dispatcher.add_hook(StartCounter { seen: seen.clone() });
    let s = Counter { value: 1 };
    dispatcher.on_node_start("n", &s);
    dispatcher.on_agent_end("fin", &s);
    dispatcher.on_node_end("n", &s, &Ok(()));
    dispatcher.on_conditional_node_start("n", &s);
    dispatcher.on_conditional_node_end("n", "m", &s);
    dispatcher.on_agent_start("e", &s);
    let shared = dispatcher.clone();
    shared.on_node_start("again", &s);
    assert_eq!(*seen.lock().unwrap(), 2);
    assert_eq!(
        *log.lock().unwrap(),
        vec![
            "node start n",
            "end fin",
            "node end n true",
            "branch start n",
            "branch end n m",
            "start e 1",
            "node start again",
        ]
    );
}

// Changing the state through the context notifies the state-change hooks.
#[test]
fn test_state_context_notifies_changes() {
    let log = Arc::new(Mutex::new(Vec::new()));
    let mut dispatcher: HookDispatcher<Counter> = HookDispatcher::default();
    dispatcher.add_hook(recording_hooks(&log));
    let mut state = Counter { value: 1 };
    {
        let mut ctx = StateContext::new("worker", &mut state, &dispatcher);
        assert_eq!(ctx.node_name(), "worker");
        assert_eq!(ctx.get().value, 1);
        let old = ctx.update(|s: &mut Counter| {
            let before = s.value;
            s.value += 10;
            before
        });
        assert_eq!(old, 1);
        assert_eq!(ctx.get().value, 11);
        ctx.set(Counter { value: 100 });
        assert_eq!(ctx.get().value, 100);
    }
    assert_eq!(state.value, 100);
    assert_eq!(*log.lock().unwrap(), vec!["change worker 11", "change worker 100"]);
}
