use graphflow::pregel::ChannelValue;
use graphflow::{
    BinaryOperatorAggregate, Channel, ChannelValues, ChannelWriteEntry, EphemeralValue, LastValue,
    NodeBuilder, Topic,
};

fn single<V: Clone>(v: Option<ChannelValue<V>>) -> Option<V> {
    match v {
        Some(ChannelValue::Single(x)) => Some(x),
        _ => None,
    }
}

fn list<V: Clone>(v: Option<ChannelValue<V>>) -> Option<Vec<V>> {
    match v {
        Some(ChannelValue::List(xs)) => Some(xs),
        _ => None,
    }
}

// A LastValue keeps the last value of a batch and keeps it over resets.
#[test]
fn test_last_value_keeps_last_write_across_steps() {
    let mut ch: LastValue<i32> = LastValue::new();
    assert!(!ch.is_updated());
    assert!(single(ch.get_boxed()).is_none());
    assert!(ch.update(vec![1, 2, 3]).is_ok());
    assert!(ch.is_updated());
    assert_eq!(single(ch.get_boxed()), Some(3));
    ch.step_reset();
    assert!(!ch.is_updated());
    assert_eq!(single(ch.get_boxed()), Some(3));
    assert!(ch.update(vec![]).is_ok());
    assert!(!ch.is_updated());
    assert_eq!(single(ch.get_boxed()), Some(3));
}

#[test]
fn test_last_value_with_initial() {
    let ch = LastValue::with_initial("seed".to_string());
    assert_eq!(single(ch.get_boxed()), Some("seed".to_string()));
    assert!(!ch.is_updated());
}

// An EphemeralValue holds a value for one superstep only.
#[test]
fn test_ephemeral_value_cleared_on_reset() {
    let mut ch: EphemeralValue<i32> = EphemeralValue::new();
    assert!(ch.update(vec![5, 6]).is_ok());
    assert_eq!(single(ch.get_boxed()), Some(6));
    ch.step_reset();
    assert!(single(ch.get_boxed()).is_none());
    assert!(!ch.is_updated());
}

// An accumulating topic keeps every value over resets.
#[test]
fn test_topic_accumulates() {
    let mut ch: Topic<i32> = Topic::new(true);
    assert_eq!(list(ch.get_boxed()), Some(vec![]));
    assert!(ch.update(vec![1, 2]).is_ok());
    ch.step_reset();
    assert!(ch.update(vec![3]).is_ok());
    assert_eq!(list(ch.get_boxed()), Some(vec![1, 2, 3]));
    assert!(ch.is_updated());
}

// A non-accumulating topic forgets its values on reset.
#[test]
fn test_topic_without_accumulation_clears() {
    let mut ch: Topic<i32> = Topic::new(false);
    assert!(ch.update(vec![1, 2]).is_ok());
    ch.step_reset();
    assert_eq!(list(ch.get_boxed()), Some(vec![]));
    assert!(!ch.is_updated());
}

// A deduplicating topic adds a value only once; a batch of known values does
// not count as an update.
#[test]
fn test_topic_dedup() {
    let mut ch: Topic<i32> = Topic::with_dedup(true, true);
    assert!(ch.update(vec![1, 2, 1, 3, 2]).is_ok());
    assert_eq!(list(ch.get_boxed()), Some(vec![1, 2, 3]));
    ch.step_reset();
    assert!(ch.update(vec![3, 1]).is_ok());
    assert!(!ch.is_updated());
    assert_eq!(list(ch.get_boxed()), Some(vec![1, 2, 3]));
}

// An aggregate folds each written value into its value with the operator.
#[test]
fn test_aggregate_folds_in_order() {
    let mut ch = BinaryOperatorAggregate::new(|cur: Option<i32>, x: i32| cur.unwrap_or(0) * 10 + x);
    assert!(ch.update(vec![1, 2, 3]).is_ok());
    assert_eq!(single(ch.get_boxed()), Some(123));
    ch.step_reset();
    assert_eq!(single(ch.get_boxed()), Some(123));
    assert!(!ch.is_updated());
    let mut seeded = BinaryOperatorAggregate::with_initial(5, |cur: Option<i32>, x: i32| cur.unwrap_or(0) + x);
    assert!(seeded.update(vec![1, 1]).is_ok());
    assert_eq!(single(seeded.get_boxed()), Some(7));
}

// A copy of a channel holds the same value and flag and is independent.
#[test]
fn test_clone_channel_is_independent() {
    let mut ch: LastValue<i32> = LastValue::new();
    assert!(ch.update(vec![4]).is_ok());
    let copy = ch.clone_channel();
    assert!(ch.update(vec![9]).is_ok());
    assert_eq!(single(copy.get_boxed()), Some(4));
    assert!(copy.is_updated());
}

// Reading back what was inserted; a later insert replaces the value in place.
#[test]
fn test_channel_values_insert_get() {
    let mut values: ChannelValues<i32> = ChannelValues::new();
    assert!(values.is_empty());
    values.insert("a", 1).insert("b", 2).insert("a", 3);
    assert_eq!(values.len(), 2);
    assert_eq!(values.get("a"), Some(3));
    assert_eq!(values.get_ref("b"), Some(&2));
    assert!(values.contains_key("b"));
    assert!(!values.contains_key("c"));
    assert_eq!(values.get("c"), None);
    values.insert_boxed("l", ChannelValue::List(vec![7, 8]));
    assert_eq!(values.get("l"), None);
    assert_eq!(values.get_list("l"), Some(vec![7, 8]));
    let entries = values.into_entries();
    assert_eq!(entries.len(), 3);
    assert_eq!(entries[0].0, "a");
}

#[test]
fn test_write_entries() {
    let w = ChannelWriteEntry::new("out", 3);
    assert_eq!(w.channel, "out");
    assert_eq!(w.value, 3);
    let b = ChannelWriteEntry::boxed("other".to_string(), 4);
    assert_eq!(b.channel, "other");
    assert_eq!(b.value, 4);
}

// A built node reads its first read channel and writes to every target.
#[test]
fn test_built_node_runs() {
    let node = NodeBuilder::new("twice")
        .subscribe_to(vec!["x", "y"])
        .write_to_many(vec!["p", "q"])
        .skip_none(true)
        .do_pure(|v: i32| v * 2)
        .build();
    assert_eq!(node.name, "twice");
    assert_eq!(node.triggers, vec!["x".to_string(), "y".to_string()]);
    assert_eq!(node.read_channels, vec!["x".to_string(), "y".to_string()]);
    let mut values = ChannelValues::new();
    values.insert("x", 21);
    let writes = node.run(&values).ok().unwrap();
    assert_eq!(writes.len(), 2);
    assert_eq!(writes[0].channel, "p");
    assert_eq!(writes[0].value, 42);
    assert_eq!(writes[1].channel, "q");
    assert_eq!(writes[1].value, 42);
}

// A node without a computation writes nothing; one that reads no channel
// reads the channel named like itself.
#[test]
fn test_node_defaults() {
    let idle = NodeBuilder::<i32>::new("idle").subscribe_only("x").write_to("y").build();
    let mut values = ChannelValues::new();
    values.insert("x", 1);
    assert_eq!(idle.run(&values).ok().unwrap().len(), 0);

    let own = NodeBuilder::new("self").do_pure(|v: i32| v + 1).write_to("out").build();
    let mut named = ChannelValues::new();
    named.insert("self", 1);
    let writes = own.run(&named).ok().unwrap();
    assert_eq!(writes[0].value, 2);
}

// `get` gives a copy of what `get_ref` refers to, and nothing where it does.
#[test]
fn test_get_clones_get_ref() {
    let mut values: ChannelValues<String> = ChannelValues::new();
    values.insert("a", "x".to_string());
    values.insert_boxed("l", ChannelValue::List(vec!["y".to_string()]));
    for ch in ["a", "l", "missing"] {
        assert_eq!(values.get(ch), values.get_ref(ch).cloned());
    }
    assert_eq!(values.get("a"), Some("x".to_string()));
}

// With `skip_none(true)` a `None` result is not written; without it, it is.
#[test]
fn test_skip_none_leaves_out_none() {
    let node = NodeBuilder::new("n")
        .subscribe_only("a")
        .skip_none(true)
        .do_pure(|_: Option<i32>| None::<i32>)
        .write_to("b")
        .build();
    let mut vals: ChannelValues<Option<i32>> = ChannelValues::new();
    vals.insert("a", Some(1));
    assert!(node.run(&vals).ok().unwrap().is_empty());

    let kept = NodeBuilder::new("k")
        .subscribe_only("a")
        .skip_none(true)
        .do_pure(|x: Option<i32>| x.map(|v| v + 1))
        .write_to("b")
        .build();
    let w = kept.run(&vals).ok().unwrap();
    assert_eq!(w.len(), 1);
    assert_eq!(w[0].value, Some(2));

    let plain = NodeBuilder::new("p")
        .subscribe_only("a")
        .skip_none(false)
        .do_pure(|_: Option<i32>| None::<i32>)
        .write_to("b")
        .build();
    let w = plain.run(&vals).ok().unwrap();
    assert_eq!(w.len(), 1);
    assert_eq!(w[0].value, None);
}
