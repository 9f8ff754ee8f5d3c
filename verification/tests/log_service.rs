use serde_json::Value;
use star_node::log_node::LogNode;

fn val(s: &str) -> Value {
    Value::String(s.to_string())
}

#[test]
fn sequential_sends_get_dense_offsets() {
    // Dense offsets: N sequential sends to one key yield offsets 0..N-1 in
    // order, with no gap and no duplicate.
    let mut n = LogNode::new();
    for i in 0..5u64 {
        let off = n.on_send("k".to_string(), Value::from(i));
        assert_eq!(off as u64, i);
    }
    // A different key starts again from 0.
    assert_eq!(n.on_send("other".to_string(), val("x")), 0);
    assert_eq!(n.on_send("k".to_string(), val("y")), 5);
}

#[test]
fn send_then_poll_round_trip() {
    // send "a" -> offset 0; send "b" -> offset 1; poll {k:0} -> {k:[[0,"a"]]};
    // poll {k:1} -> {k:[[1,"b"]]}; poll {k:5} -> {k:[]}.
    let mut n = LogNode::new();
    assert_eq!(n.on_send("k".to_string(), val("a")), 0);
    assert_eq!(n.on_send("k".to_string(), val("b")), 1);

    let r = n.on_poll(&vec![("k".to_string(), 0)]);
    assert_eq!(r, vec![("k".to_string(), Some((0, val("a"))))]);

    let r = n.on_poll(&vec![("k".to_string(), 1)]);
    assert_eq!(r, vec![("k".to_string(), Some((1, val("b"))))]);

    let r = n.on_poll(&vec![("k".to_string(), 5)]);
    assert_eq!(r, vec![("k".to_string(), None)]);
}

#[test]
fn poll_returns_exactly_the_requested_entry() {
    // Poll exactness: polling offset i < N returns exactly the single pair
    // [i, value_i]; polling offset >= N returns nothing for that key.
    let mut n = LogNode::new();
    for i in 0..4u64 {
        n.on_send("k".to_string(), Value::from(i * 100));
    }
    for i in 0..4u64 {
        let r = n.on_poll(&vec![("k".to_string(), i)]);
        assert_eq!(r, vec![("k".to_string(), Some((i, Value::from(i * 100))))]);
    }
    let r = n.on_poll(&vec![("k".to_string(), 4)]);
    assert_eq!(r, vec![("k".to_string(), None)]);
}

#[test]
fn poll_unknown_key_is_empty() {
    let n = LogNode::new();
    let r = n.on_poll(&vec![("nope".to_string(), 0)]);
    assert_eq!(r, vec![("nope".to_string(), None)]);
}

#[test]
fn poll_handles_a_batch_in_request_order() {
    let mut n = LogNode::new();
    n.on_send("a".to_string(), val("u"));
    n.on_send("b".to_string(), val("v"));
    let r = n.on_poll(&vec![
        ("b".to_string(), 0),
        ("a".to_string(), 1),
        ("a".to_string(), 0),
    ]);
    assert_eq!(
        r,
        vec![
            ("b".to_string(), Some((0, val("v")))),
            ("a".to_string(), None),
            ("a".to_string(), Some((0, val("u")))),
        ]
    );
}

#[test]
fn commit_is_monotonic() {
    // Monotonic commit: committing b then a < b leaves the watermark at b.
    // Scenario: commit {k:2} then {k:1}; list [k] -> {k:2}.
    let mut n = LogNode::new();
    n.on_commit_offsets(&vec![("k".to_string(), 2)]);
    n.on_commit_offsets(&vec![("k".to_string(), 1)]);
    let r = n.on_list_committed(&vec!["k".to_string()]);
    assert_eq!(r, vec![("k".to_string(), 2)]);
    // A higher commit does move the watermark.
    n.on_commit_offsets(&vec![("k".to_string(), 7)]);
    let r = n.on_list_committed(&vec!["k".to_string()]);
    assert_eq!(r, vec![("k".to_string(), 7)]);
}

#[test]
fn commit_batches_apply_in_order_per_key() {
    let mut n = LogNode::new();
    n.on_commit_offsets(&vec![
        ("a".to_string(), 3),
        ("b".to_string(), 1),
        ("a".to_string(), 2),
    ]);
    let r = n.on_list_committed(&vec!["a".to_string(), "b".to_string()]);
    assert_eq!(r, vec![("a".to_string(), 3), ("b".to_string(), 1)]);
}

#[test]
fn commit_of_zero_records_the_key() {
    // A commit of offset 0 still records the key: it is listed as 0, which
    // is different from never having been committed.
    let mut n = LogNode::new();
    n.on_commit_offsets(&vec![("k".to_string(), 0)]);
    let r = n.on_list_committed(&vec!["k".to_string()]);
    assert_eq!(r, vec![("k".to_string(), 0)]);
}

#[test]
fn list_committed_omits_unknown_keys() {
    // List-committed omission: a key never committed yields no entry at all,
    // not an entry of 0.
    let mut n = LogNode::new();
    n.on_commit_offsets(&vec![("known".to_string(), 4)]);
    let r = n.on_list_committed(&vec!["ghostly".to_string()]);
    assert_eq!(r, vec![]);
    let r = n.on_list_committed(&vec![
        "known".to_string(),
        "ghostly".to_string(),
        "known".to_string(),
    ]);
    assert_eq!(
        r,
        vec![("known".to_string(), 4), ("known".to_string(), 4)]
    );
}

#[test]
fn commits_do_not_touch_the_log() {
    let mut n = LogNode::new();
    n.on_send("k".to_string(), val("a"));
    n.on_commit_offsets(&vec![("k".to_string(), 9)]);
    let r = n.on_poll(&vec![("k".to_string(), 0)]);
    assert_eq!(r, vec![("k".to_string(), Some((0, val("a"))))]);
    assert_eq!(n.on_send("k".to_string(), val("b")), 1);
}

#[test]
fn values_survive_storage_unchanged() {
    // What poll hands back is the stored value itself, not a placeholder:
    // a structured JSON value round-trips through send and poll.
    let mut n = LogNode::new();
    let payload = Value::Array(vec![Value::from(1), val("two"), Value::Null]);
    n.on_send("k".to_string(), payload.clone());
    let r = n.on_poll(&vec![("k".to_string(), 0)]);
    assert_eq!(r, vec![("k".to_string(), Some((0, payload)))]);
}
