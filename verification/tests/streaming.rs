use codex_control::json::JsonValue;
use codex_control::protocol::{IncomingFrame, SequencedEvent};
use codex_control::reducer::Reducer;
use codex_control::streaming::{DeltaItem, DeltaStream, LifecycleItem, LifecycleStream, Received};
use std::sync::Arc;

fn s(t: &str) -> JsonValue {
    JsonValue::String(t.to_owned())
}

fn obj(members: Vec<(&str, JsonValue)>) -> JsonValue {
    JsonValue::Object(members.into_iter().map(|(k, v)| (k.to_owned(), v)).collect())
}

fn event(seq: u64, method: &str) -> Arc<SequencedEvent> {
    let raw = obj(vec![("method", s(method)), ("params", obj(vec![("threadId", s("t"))]))]);
    Arc::new(SequencedEvent::from_frame(seq, seq, IncomingFrame::parse(raw).unwrap()))
}

#[test]
fn lifecycle_lag_recovers_from_authoritative_log() {
    let mut reducer = Reducer::new(8);
    let mut stream = LifecycleStream::new(0);
    for seq in 1..=3 {
        let e = event(seq, "turn/completed");
        reducer.apply(e);
    }
    assert!(
        matches!(stream.recv(Received::Lagged(2), &reducer), LifecycleItem::Replay(v) if v.len() == 3)
    );
    assert_eq!(stream.cursor(), 3);
}

#[test]
fn lifecycle_gap_hands_over_snapshot() {
    let mut reducer = Reducer::new(1);
    for seq in 1..=3 {
        reducer.apply(event(seq, "turn/completed"));
    }
    let mut stream = LifecycleStream::new(0);
    match stream.recv(Received::Lagged(5), &reducer) {
        LifecycleItem::GapTooOld { snapshot, oldest_available } => {
            assert_eq!(oldest_available, Some(3));
            assert_eq!(snapshot.at_sequence, 3);
        }
        other => panic!("unexpected {other:?}"),
    }
    assert_eq!(stream.cursor(), 3);
}

#[test]
fn lifecycle_live_event_moves_cursor() {
    let reducer = Reducer::new(2);
    let mut stream = LifecycleStream::new(0);
    let e = event(9, "turn/started");
    assert_eq!(stream.recv(Received::Event(e.clone()), &reducer), LifecycleItem::Event(e));
    assert_eq!(stream.cursor(), 9);
    assert_eq!(stream.recv(Received::Closed, &reducer), LifecycleItem::Closed);
    assert_eq!(stream.cursor(), 9);
}

#[test]
fn delta_stream_counts_drops() {
    let mut stream = DeltaStream::new();
    assert!(matches!(stream.recv(Received::Lagged(4)), DeltaItem::Continue));
    assert!(matches!(stream.recv(Received::Lagged(3)), DeltaItem::Continue));
    let e = event(1, "item/agentMessage/delta");
    assert!(matches!(stream.recv(Received::Event(e)), DeltaItem::Event(_)));
    assert!(matches!(stream.recv(Received::Closed), DeltaItem::Closed));
    assert_eq!(stream.dropped(), 7);
}
