use codex_control::json::{JsonNumber, JsonValue};
use codex_control::protocol::{IncomingFrame, RpcId, SequencedEvent};
use codex_control::reducer::{EventMatcher, Reducer, ReplayResult};
use std::sync::Arc;

fn s(t: &str) -> JsonValue {
    JsonValue::String(t.to_owned())
}

fn obj(members: Vec<(&str, JsonValue)>) -> JsonValue {
    JsonValue::Object(members.into_iter().map(|(k, v)| (k.to_owned(), v)).collect())
}

fn event(sequence: u64, method: &str, thread_id: &str) -> Arc<SequencedEvent> {
    let raw = obj(vec![
        ("jsonrpc", s("2.0")),
        ("method", s(method)),
        ("params", obj(vec![("threadId", s(thread_id))])),
    ]);
    Arc::new(SequencedEvent::from_frame(sequence, sequence, IncomingFrame::parse(raw).unwrap()))
}

fn event_turn(sequence: u64, method: &str, thread_id: &str, turn_id: &str) -> Arc<SequencedEvent> {
    let raw = obj(vec![
        ("jsonrpc", s("2.0")),
        ("method", s(method)),
        ("params", obj(vec![("threadId", s(thread_id)), ("turn", obj(vec![("id", s(turn_id))]))])),
    ]);
    Arc::new(SequencedEvent::from_frame(1, sequence, IncomingFrame::parse(raw).unwrap()))
}

fn event_params(sequence: u64, method: &str, params: JsonValue) -> Arc<SequencedEvent> {
    let raw = obj(vec![("method", s(method)), ("params", params)]);
    Arc::new(SequencedEvent::from_frame(sequence, sequence, IncomingFrame::parse(raw).unwrap()))
}

#[test]
fn retained_replay_and_gap_are_honest() {
    let mut reducer = Reducer::new(2);
    for seq in 1..=3 {
        reducer.apply(event(seq, "thread/status/changed", "t"));
    }
    assert!(matches!(reducer.events_since(1), ReplayResult::Events(v) if v.len() == 2));
    assert!(matches!(
        reducer.events_since(0),
        ReplayResult::GapTooOld { oldest_available: Some(2), .. }
    ));
}

#[test]
fn idle_global_noise_is_pruned_inline() {
    let mut reducer = Reducer::default();
    for seq in 1..=50 {
        reducer.apply(event(seq, "thread/status/changed", &format!("idle{seq}")));
    }
    assert!(
        reducer.snapshot().threads.is_empty(),
        "idle non-subscribed lifecycle noise must not accumulate between eviction ticks"
    );
}

#[test]
fn subscription_setup_and_active_turns_survive_inline_pruning() {
    let mut reducer = Reducer::default();

    reducer.begin_subscription("subscribing");
    reducer.apply(event(100, "thread/status/changed", "subscribing"));
    assert!(
        reducer.snapshot().contains_key("subscribing"),
        "a pending subscription must be protected under the reducer lock"
    );

    reducer.finish_subscription("subscribing");
    reducer.apply(event(101, "thread/status/changed", "subscribing"));
    reducer.apply(event_turn(200, "turn/started", "act", "t9"));

    let snap = reducer.snapshot();
    assert!(
        snap.get("subscribing").is_some_and(|thread| thread.subscribed),
        "subscribed thread retained"
    );
    assert!(snap.contains_key("act"), "active-turn retained");
}

#[test]
fn authoritative_waiter_fires_without_broadcast() {
    let mut reducer = Reducer::default();
    let id = reducer.register_waiter(EventMatcher {
        method: "turn/completed".to_owned(),
        thread_id: None,
        turn_id: None,
        turn_status: None,
    });
    let e = event(1, "turn/completed", "t");
    let fired = reducer.apply(e.clone());
    assert_eq!(fired, vec![id]);
    assert_eq!(e.sequence, 1);
    let _ = RpcId::Number(1);
}

#[test]
fn waiters_fire_once_and_only_on_match() {
    let mut reducer = Reducer::new(4);
    let a = reducer.register_waiter(EventMatcher {
        method: "turn/completed".to_owned(),
        thread_id: Some("x".to_owned()),
        turn_id: Some("u".to_owned()),
        turn_status: None,
    });
    let b = reducer.register_waiter(EventMatcher {
        method: "turn/started".to_owned(),
        thread_id: Some("x".to_owned()),
        turn_id: None,
        turn_status: None,
    });
    assert_ne!(a, b);
    assert!(reducer.apply(event_turn(1, "turn/completed", "x", "other")).is_empty());
    assert_eq!(reducer.apply(event_turn(2, "turn/started", "x", "u")), vec![b]);
    assert_eq!(reducer.apply(event_turn(3, "turn/completed", "x", "u")), vec![a]);
    assert!(reducer.apply(event_turn(4, "turn/completed", "x", "u")).is_empty());
}

#[test]
fn turn_lifecycle_tracks_active_turn() {
    let mut reducer = Reducer::default();
    reducer.apply(event_turn(10, "turn/started", "th", "t1"));
    let snap = reducer.snapshot();
    let t = snap.get("th").unwrap();
    assert_eq!(t.status, "active");
    assert_eq!(t.active_turn_id.as_deref(), Some("t1"));
    assert_eq!(reducer.current_sequence(), 1);
    reducer.apply(event_turn(11, "turn/completed", "th", "other"));
    let t = reducer.snapshot();
    let t = t.get("th").unwrap();
    assert_eq!(t.status, "idle");
    assert_eq!(t.active_turn_id.as_deref(), Some("t1"));
    reducer.apply(event_turn(12, "turn/completed", "th", "t1"));
    assert!(!reducer.snapshot().contains_key("th"));
}

#[test]
fn status_change_reads_type_or_text() {
    let mut reducer = Reducer::default();
    reducer.begin_subscription("a");
    reducer.apply(event_params(
        1,
        "thread/status/changed",
        obj(vec![("status", obj(vec![("type", s("waiting"))])), ("threadId", s("a"))]),
    ));
    assert_eq!(reducer.snapshot().get("a").unwrap().status, "waiting");
    reducer.apply(event_params(
        2,
        "thread/status/changed",
        obj(vec![("status", s("busy")), ("threadId", s("a"))]),
    ));
    assert_eq!(reducer.snapshot().get("a").unwrap().status, "busy");
    reducer.apply(event_params(3, "thread/status/changed", obj(vec![("threadId", s("a"))])));
    let snap = reducer.snapshot();
    assert_eq!(snap.get("a").unwrap().status, "unknown");
    assert_eq!(snap.get("a").unwrap().last_sequence, 3);
    assert_eq!(snap.at_sequence, 3);
}

#[test]
fn thread_started_keeps_raw_thread_and_ephemeral_flag() {
    let mut reducer = Reducer::default();
    reducer.begin_subscription("e");
    let thread = obj(vec![("ephemeral", JsonValue::Bool(true)), ("id", s("e"))]);
    reducer.apply(event_params(
        1,
        "thread/started",
        obj(vec![("thread", thread.clone()), ("threadId", s("e"))]),
    ));
    let snap = reducer.snapshot();
    let t = snap.get("e").unwrap();
    assert_eq!(t.status, "idle");
    assert!(t.ephemeral);
    assert_eq!(t.raw_thread, Some(thread));
}

#[test]
fn unsubscribe_and_cancel_release_threads() {
    let mut reducer = Reducer::default();
    reducer.finish_subscription("a");
    reducer.set_subscribed("b", true);
    assert!(reducer.snapshot().get("b").unwrap().subscribed);
    reducer.set_subscribed("a", false);
    assert!(!reducer.snapshot().contains_key("a"));
    reducer.begin_subscription("c");
    assert!(reducer.snapshot().contains_key("c"));
    reducer.cancel_subscription("c");
    assert!(!reducer.snapshot().contains_key("c"));
    assert!(reducer.snapshot().contains_key("b"));
}

#[test]
fn evict_idle_counts_removed_entries() {
    let mut reducer = Reducer::default();
    reducer.reconcile_thread(obj(vec![("id", s("x")), ("status", s("idle"))]));
    reducer.reconcile_thread(obj(vec![("id", s("y")), ("status", s("idle"))]));
    reducer.begin_subscription("z");
    reducer.finish_subscription("w");
    assert_eq!(reducer.snapshot().threads.len(), 4);
    assert_eq!(reducer.evict_idle(), 2);
    let snap = reducer.snapshot();
    assert!(snap.contains_key("z"));
    assert!(snap.contains_key("w"));
    assert_eq!(reducer.evict_idle(), 0);
}

#[test]
fn reconcile_thread_finds_last_open_turn() {
    let mut reducer = Reducer::default();
    reducer.apply(event(7, "turn/completed", "q"));
    reducer.finish_subscription("r");
    let raw = obj(vec![
        ("ephemeral", JsonValue::Bool(false)),
        ("id", s("r")),
        ("status", obj(vec![("type", s("idle"))])),
        (
            "turns",
            JsonValue::Array(vec![
                obj(vec![("id", s("t1")), ("status", s("inProgress"))]),
                obj(vec![("id", s("t2")), ("status", s("completed"))]),
            ]),
        ),
    ]);
    reducer.reconcile_thread(raw.clone());
    let snap = reducer.snapshot();
    let t = snap.get("r").unwrap();
    assert_eq!(t.active_turn_id.as_deref(), Some("t1"));
    assert_eq!(t.status, "active");
    assert!(t.subscribed);
    assert_eq!(t.last_sequence, 7);
    assert_eq!(t.raw_thread, Some(raw));

    let done = obj(vec![
        ("id", s("r")),
        ("status", s("notLoaded")),
        ("turns", JsonValue::Array(vec![obj(vec![("id", s("t1")), ("status", s("interrupted"))])])),
    ]);
    reducer.reconcile_thread(done);
    let snap = reducer.snapshot();
    let t = snap.get("r").unwrap();
    assert_eq!(t.active_turn_id, None);
    assert_eq!(t.status, "notLoaded");
}

#[test]
fn reconcile_without_id_changes_nothing() {
    let mut reducer = Reducer::default();
    reducer.reconcile_thread(obj(vec![("id", JsonValue::Number(JsonNumber::PosInt(3)))]));
    assert!(reducer.snapshot().threads.is_empty());
}

#[test]
fn deltas_are_not_retained_for_replay() {
    let mut reducer = Reducer::new(4);
    reducer.apply(event(1, "item/agentMessage/delta", "t"));
    reducer.apply(event(2, "turn/completed", "t"));
    match reducer.events_since(1) {
        ReplayResult::Events(v) => {
            assert_eq!(v.len(), 1);
            assert_eq!(v[0].sequence, 2);
        }
        other => panic!("unexpected {other:?}"),
    }
}

#[test]
fn sequence_never_goes_backwards_and_replay_keeps_order() {
    let mut reducer = Reducer::new(8);
    reducer.apply(event(5, "turn/completed", "a"));
    reducer.apply(event(3, "turn/completed", "b"));
    assert_eq!(reducer.current_sequence(), 5);
    let mut ordered = Reducer::new(8);
    for seq in [2, 4, 9] {
        ordered.apply(event(seq, "turn/completed", "a"));
    }
    match ordered.events_since(1) {
        ReplayResult::Events(v) => {
            let seqs: Vec<u64> = v.iter().map(|e| e.sequence).collect();
            assert_eq!(seqs, vec![2, 4, 9]);
        }
        other => panic!("unexpected {other:?}"),
    }
}

#[test]
fn pending_subscription_survives_a_run_of_other_calls() {
    let mut reducer = Reducer::default();
    reducer.begin_subscription("p");
    for seq in 1..=5 {
        reducer.apply(event(seq, "thread/status/changed", "p"));
        reducer.evict_idle();
        reducer.begin_subscription("q");
        reducer.cancel_subscription("q");
        reducer.set_subscribed("r", false);
        reducer.reconcile_thread(obj(vec![("id", s("p")), ("status", s("idle"))]));
        assert!(reducer.snapshot().contains_key("p"));
    }
    assert!(!reducer.snapshot().contains_key("q"));
    reducer.cancel_subscription("p");
    reducer.evict_idle();
    assert!(!reducer.snapshot().contains_key("p"));
}
