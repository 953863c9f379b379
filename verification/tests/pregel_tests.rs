use std::sync::atomic::{AtomicBool, Ordering};
use std::sync::Arc;

use graphflow::pregel::ChannelValue;
use graphflow::{
    BinaryOperatorAggregate, ChannelValues, ChannelWriteEntry, EphemeralValue, LastValue,
    NodeBuilder, Pregel, PregelError, Topic,
};

fn doubled(x: String) -> String {
    format!("{x}{x}")
}

#[test]
fn test_pregel_single_node() {
    let node1 = NodeBuilder::new("node1").subscribe_only("a").do_pure(doubled).write_to("b");

    let mut app = Pregel::new();
    app.add_channel("a", EphemeralValue::<String>::new());
    app.add_channel("b", EphemeralValue::<String>::new());
    app.add_node(node1);
    app.set_input_channels(vec!["a"]);
    app.set_output_channels(vec!["b"]);

    let mut inputs = ChannelValues::new();
    inputs.insert("a", "foo".to_string());

    let output = app.invoke_values(inputs).unwrap();
    let b: String = output.get("b").expect("channel b should have value");
    assert_eq!(b, "foofoo");
}

#[test]
fn test_pregel_multiple_nodes_and_output_channels() {
    let node1 = NodeBuilder::new("node1").subscribe_only("a").do_pure(doubled).write_to("b");
    let node2 = NodeBuilder::new("node2").subscribe_only("b").do_pure(doubled).write_to("c");

    let mut app = Pregel::new();
    app.add_channel("a", EphemeralValue::<String>::new());
    app.add_channel("b", LastValue::<String>::new());
    app.add_channel("c", EphemeralValue::<String>::new());
    app.add_node(node1);
    app.add_node(node2);
    app.set_input_channels(vec!["a"]);
    app.set_output_channels(vec!["b", "c"]);

    let mut inputs = ChannelValues::new();
    inputs.insert("a", "foo".to_string());

    let output = app.invoke_values(inputs).unwrap();
    let b: String = output.get("b").expect("channel b");
    let c: String = output.get("c").expect("channel c");

    assert_eq!(b, "foofoo");
    assert_eq!(c, "foofoofoofoo");
}

#[test]
fn test_pregel_topic_channel_accumulation() {
    let node1 = NodeBuilder::new("node1")
        .subscribe_only("a")
        .do_pure(doubled)
        .write_to("b")
        .write_to("c");
    let node2 = NodeBuilder::new("node2").subscribe_only("b").do_pure(doubled).write_to("c");

    let mut app = Pregel::new();
    app.add_channel("a", EphemeralValue::<String>::new());
    app.add_channel("b", EphemeralValue::<String>::new());
    app.add_channel("c", Topic::<String>::new(true));
    app.add_node(node1);
    app.add_node(node2);
    app.set_input_channels(vec!["a"]);
    app.set_output_channels(vec!["c"]);

    let mut inputs = ChannelValues::new();
    inputs.insert("a", "foo".to_string());

    let output = app.invoke_values(inputs).unwrap();
    let c: Vec<String> = output.get_list("c").expect("channel c");

    assert_eq!(c, vec!["foofoo", "foofoofoofoo"]);
}

#[test]
fn test_pregel_binary_operator_aggregate() {
    let node1 = NodeBuilder::new("node1")
        .subscribe_only("a")
        .do_pure(doubled)
        .write_to("b")
        .write_to("c");
    let node2 = NodeBuilder::new("node2").subscribe_only("b").do_pure(doubled).write_to("c");

    let reducer = |current: Option<String>, update: String| match current {
        Some(cur) => format!("{cur} | {update}"),
        None => update,
    };

    let mut app = Pregel::new();
    app.add_channel("a", EphemeralValue::<String>::new());
    app.add_channel("b", EphemeralValue::<String>::new());
    app.add_channel("c", BinaryOperatorAggregate::<String>::new(reducer));
    app.add_node(node1);
    app.add_node(node2);
    app.set_input_channels(vec!["a"]);
    app.set_output_channels(vec!["c"]);

    let mut inputs = ChannelValues::new();
    inputs.insert("a", "foo".to_string());

    let output = app.invoke_values(inputs).unwrap();
    let c: String = output.get("c").expect("channel c");

    assert_eq!(c, "foofoo | foofoofoofoo");
}

#[test]
fn test_pregel_cycle_with_threshold() {
    let example_node = NodeBuilder::new("example_node")
        .subscribe_only("value")
        .do_pure_option(|x: String| if x.len() < 10 { Some(format!("{x}{x}")) } else { None })
        .write_to("value");

    let mut app = Pregel::new();
    app.add_channel("value", EphemeralValue::<String>::new());
    app.add_node(example_node);
    app.set_input_channels(vec!["value"]);
    app.set_output_channels(vec!["value"]);

    let mut inputs = ChannelValues::new();
    inputs.insert("value", "a".to_string());

    let output = app.invoke_values(inputs).unwrap();
    let val: String = output.get("value").expect("value channel");
    assert_eq!(val, "aaaaaaaaaaaaaaaa");
}

/// Values of a channel that carries either a number or a text.
#[derive(Clone, Debug, PartialEq)]
enum Mixed {
    Number(i32),
    Text(String),
}

#[test]
fn test_pregel_bsp_isolation() {
    let saw_ch1_prematurely = Arc::new(AtomicBool::new(false));
    let saw_ref = saw_ch1_prematurely.clone();

    let node1 = NodeBuilder::new("node1")
        .subscribe_only("start")
        .do_pure(|_: Mixed| Mixed::Text("data_from_node1".to_string()))
        .write_to("ch1");

    let node2 = NodeBuilder::new("node2").subscribe_only("start").do_values_pure(
        move |values: &ChannelValues<Mixed>| {
            if values.contains_key("ch1") {
                saw_ref.store(true, Ordering::SeqCst);
            }
            vec![]
        },
    );

    let mut app = Pregel::new();
    app.add_channel("start", EphemeralValue::<Mixed>::new());
    app.add_channel("ch1", EphemeralValue::<Mixed>::new());
    app.add_node(node1);
    app.add_node(node2);
    app.set_input_channels(vec!["start"]);
    app.set_output_channels(vec!["ch1"]);

    let mut inputs = ChannelValues::new();
    inputs.insert("start", Mixed::Number(42));

    let output = app.invoke_values(inputs).unwrap();
    assert!(!saw_ch1_prematurely.load(Ordering::SeqCst));
    assert_eq!(output.get("ch1").unwrap(), Mixed::Text("data_from_node1".to_string()));
}

#[test]
fn test_pregel_max_steps_exceeded() {
    let loop_node = NodeBuilder::new("loop_node")
        .subscribe_only("count")
        .do_pure(|x: i32| x + 1)
        .write_to("count");

    let mut app = Pregel::new();
    app.add_channel("count", EphemeralValue::<i32>::new());
    app.add_node(loop_node);
    app.set_input_channels(vec!["count"]);
    app.set_max_steps(5);

    let mut inputs = ChannelValues::new();
    inputs.insert("count", 0);

    let result = app.invoke_values(inputs);
    assert_eq!(result.unwrap_err(), PregelError::MaxStepsExceeded(5));
}

#[test]
fn test_pregel_invoke_single_convenience() {
    let node = NodeBuilder::new("double").subscribe_only("num").do_pure(|x: i32| x * 2).write_to("out");

    let mut app = Pregel::new();
    app.add_channel("num", EphemeralValue::<i32>::new());
    app.add_channel("out", EphemeralValue::<i32>::new());
    app.add_node(node);
    app.set_input_channels(vec!["num"]);
    app.set_output_channels(vec!["out"]);

    let res: i32 = app.invoke_single("num", 21, "out").unwrap();
    assert_eq!(res, 42);
}

// Inputs are refused when empty, when they name no channel, and when a list
// is given for a channel that takes single values.
#[test]
fn test_invoke_values_rejects_bad_inputs() {
    let mut app: Pregel<i32> = Pregel::new();
    app.add_channel("a", LastValue::<i32>::new());

    let empty: ChannelValues<i32> = ChannelValues::new();
    assert_eq!(app.invoke_values(empty).err().unwrap(), PregelError::EmptyInput);

    let mut unknown = ChannelValues::new();
    unknown.insert("a", 1);
    unknown.insert("nowhere", 2);
    assert_eq!(
        app.invoke_values(unknown).err().unwrap(),
        PregelError::ChannelNotFound("nowhere".to_string())
    );

    let mut list = ChannelValues::new();
    list.insert_boxed("a", ChannelValue::List(vec![1, 2]));
    assert_eq!(
        app.invoke_values(list).err().unwrap(),
        PregelError::TypeMismatch("Type mismatch in LastValue channel".to_string())
    );
}

// With no output channels named, the result holds every channel that has a
// value; a channel without one is left out.
#[test]
fn test_invoke_values_returns_all_channels_by_default() {
    let node = NodeBuilder::new("copy").subscribe_only("a").do_pure(|x: i32| x + 1).write_to("b");
    let mut app = Pregel::new();
    app.add_channel("a", LastValue::<i32>::new());
    app.add_channel("b", LastValue::<i32>::new());
    app.add_channel("unused", LastValue::<i32>::new());
    app.add_node(node);

    let mut inputs = ChannelValues::new();
    inputs.insert("a", 1);
    let output = app.invoke_values(inputs).unwrap();
    assert_eq!(output.len(), 2);
    assert_eq!(output.get("a"), Some(1));
    assert_eq!(output.get("b"), Some(2));
    assert!(!output.contains_key("unused"));
}

// A write to a channel that does not exist fails the run.
#[test]
fn test_write_to_unknown_channel_fails() {
    let node = NodeBuilder::new("stray").subscribe_only("a").do_pure(|x: i32| x).write_to("missing");
    let mut app = Pregel::new();
    app.add_channel("a", EphemeralValue::<i32>::new());
    app.add_node(node);

    let mut inputs = ChannelValues::new();
    inputs.insert("a", 7);
    assert_eq!(
        app.invoke_values(inputs).err().unwrap(),
        PregelError::ChannelNotFound("missing".to_string())
    );
}

// A node whose input channel holds no value fails with MissingChannel.
#[test]
fn test_node_with_missing_input_fails() {
    let node = NodeBuilder::new("reader").subscribe_to(vec!["a", "b"]).do_pure(|x: i32| x).write_to("b");
    let mut app = Pregel::new();
    app.add_channel("a", EphemeralValue::<i32>::new());
    app.add_channel("b", EphemeralValue::<i32>::new());
    app.add_node(node);

    let mut inputs = ChannelValues::new();
    inputs.insert("b", 3);
    assert_eq!(
        app.invoke_values(inputs).err().unwrap(),
        PregelError::MissingChannel("a".to_string())
    );
}

// A failing node function is reported as an execution error with its text.
#[test]
fn test_failing_node_function() {
    let node = NodeBuilder::new("checked")
        .subscribe_only("a")
        .do_fn(|x: i32| if x > 0 { Ok(x) } else { Err("not positive".to_string()) })
        .write_to("b");
    let mut app = Pregel::new();
    app.add_channel("a", EphemeralValue::<i32>::new());
    app.add_channel("b", EphemeralValue::<i32>::new());
    app.add_node(node);

    let mut inputs = ChannelValues::new();
    inputs.insert("a", -1);
    assert_eq!(
        app.invoke_values(inputs).err().unwrap(),
        PregelError::ExecutionError("not positive".to_string())
    );
}

// With no superstep allowed, even valid inputs exceed the limit.
#[test]
fn test_zero_max_steps() {
    let mut app = Pregel::new();
    app.add_channel("a", LastValue::<i32>::new());
    app.set_max_steps(0);
    let mut inputs = ChannelValues::new();
    inputs.insert("a", 1);
    assert_eq!(app.invoke_values(inputs).err().unwrap(), PregelError::MaxStepsExceeded(0));
}

// Named inputs: a later input replaces an earlier one of the same name.
#[test]
fn test_invoke_with_named_inputs() {
    let node = NodeBuilder::new("inc").subscribe_only("a").do_pure(|x: i32| x + 1).write_to("b");
    let mut app = Pregel::new();
    app.add_channel("a", EphemeralValue::<i32>::new());
    app.add_channel("b", LastValue::<i32>::new());
    app.add_node(node);
    app.set_output_channels(vec!["b"]);

    let inputs = vec![
        ("a".to_string(), ChannelValue::Single(1)),
        ("a".to_string(), ChannelValue::Single(10)),
    ];
    let out = app.invoke(inputs).ok().unwrap();
    assert_eq!(out.len(), 1);
    assert_eq!(out[0].0, "b");
    match &out[0].1 {
        ChannelValue::Single(v) => assert_eq!(*v, 11),
        ChannelValue::List(_) => panic!("expected a single value"),
    }
}

// invoke_single reports MissingChannel when the output channel has no value.
#[test]
fn test_invoke_single_missing_output() {
    let node = NodeBuilder::new("quiet").subscribe_only("num").do_pure_option(|_: i32| None).write_to("out");
    let mut app = Pregel::new();
    app.add_channel("num", EphemeralValue::<i32>::new());
    app.add_channel("out", EphemeralValue::<i32>::new());
    app.add_node(node);
    assert_eq!(
        app.invoke_single("num", 1, "out").err().unwrap(),
        PregelError::MissingChannel("out".to_string())
    );
}

// A node built from a values function may write to any channel.
#[test]
fn test_values_function_writes() {
    let node = NodeBuilder::new("fan").subscribe_only("a").do_values_fn(
        |values: &ChannelValues<i32>| -> Result<Vec<ChannelWriteEntry<i32>>, String> {
            let x = values.get("a").unwrap();
            Ok(vec![ChannelWriteEntry::new("b", x * 10), ChannelWriteEntry::new("c", x * 100)])
        },
    );
    let mut app = Pregel::new();
    app.add_channel("a", EphemeralValue::<i32>::new());
    app.add_channel("b", LastValue::<i32>::new());
    app.add_channel("c", LastValue::<i32>::new());
    app.add_node(node);
    app.set_output_channels(vec!["b", "c"]);

    let mut inputs = ChannelValues::new();
    inputs.insert("a", 2);
    let output = app.invoke_values(inputs).unwrap();
    assert_eq!(output.get("b"), Some(20));
    assert_eq!(output.get("c"), Some(200));
}
