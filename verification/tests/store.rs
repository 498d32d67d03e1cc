use codex_control::json::{JsonNumber, JsonValue};
use codex_control::protocol::{IncomingFrame, Plane, SequencedEvent};
use codex_control::store::{EventStore, RetentionGap, StoreConfig};
use std::sync::Arc;

fn s(t: &str) -> JsonValue {
    JsonValue::String(t.to_owned())
}

fn obj(members: Vec<(&str, JsonValue)>) -> JsonValue {
    JsonValue::Object(members.into_iter().map(|(k, v)| (k.to_owned(), v)).collect())
}

fn event(seq: u64, method: &str, data: &str) -> Arc<SequencedEvent> {
    let raw = obj(vec![
        ("method", s(method)),
        ("params", obj(vec![("data", s(data)), ("threadId", s("t"))])),
    ]);
    Arc::new(SequencedEvent::from_frame(seq, seq, IncomingFrame::parse(raw).unwrap()))
}

fn event_on(seq: u64, method: &str, thread: &str, monotonic_ms: u64, unix_ms: u64) -> Arc<SequencedEvent> {
    let raw = obj(vec![("method", s(method)), ("params", obj(vec![("threadId", s(thread))]))]);
    Arc::new(SequencedEvent::from_frame_at(seq, monotonic_ms, unix_ms, IncomingFrame::parse(raw).unwrap()))
}

#[test]
fn hard_cap_prefers_delta_eviction_and_reports_gap() {
    let sample = event(1, "item/output/delta", &"x".repeat(500));
    let size = 600;
    let mut store = EventStore::new(StoreConfig {
        global_bytes: size * 2,
        per_thread_bytes: size * 2,
        ..StoreConfig::default()
    });
    store.record(sample, size);
    store.record(event(2, "turn/completed", &"y".repeat(500)), size);
    store.record(event(3, "turn/completed", &"z".repeat(500)), size);
    assert!(store.bytes() <= size * 2);
    let query = store.query_sequence(Some("t"), 0, None);
    assert!(query.gap.is_some());
    assert!(query.gap.unwrap().summarized_delta_events >= 1);
}

#[test]
fn global_cap_evicts_oldest_lifecycle_when_no_delta_remains() {
    let mut store = EventStore::new(StoreConfig {
        global_bytes: 250,
        per_thread_bytes: 1000,
        ..StoreConfig::default()
    });
    store.record(event_on(1, "turn/started", "a", 1, 10), 100);
    store.record(event_on(2, "turn/started", "b", 2, 20), 100);
    store.record(event_on(3, "turn/completed", "a", 3, 30), 100);
    assert_eq!(store.len(), 2);
    assert_eq!(store.bytes(), 200);
    let q = store.query_sequence(Some("a"), 0, None);
    assert_eq!(q.events.len(), 1);
    assert_eq!(q.events[0].sequence, 3);
    assert_eq!(
        q.gap,
        Some(RetentionGap {
            before_sequence: Some(1),
            from_sequence: Some(1),
            from_unix_ms: Some(10),
            through_unix_ms: Some(10),
            summarized_delta_events: 0,
            evicted_lifecycle_events: 1,
        })
    );
    assert_eq!(store.query_sequence(Some("b"), 0, None).gap, None);
    assert_eq!(store.query_sequence(None, 0, None).gap, q.gap);
}

#[test]
fn retention_window_drops_old_front_events() {
    let mut store = EventStore::new(StoreConfig { retention_ms: 100, ..StoreConfig::default() });
    store.record(event_on(1, "turn/started", "a", 10, 1), 5);
    store.record(event_on(2, "turn/started", "a", 50, 2), 5);
    store.record(event_on(3, "turn/started", "a", 200, 3), 5);
    assert_eq!(store.len(), 1);
    assert_eq!(store.bytes(), 5);
    let gap = store.query_sequence(Some("a"), 0, None).gap.unwrap();
    assert_eq!(gap.before_sequence, Some(2));
    assert_eq!(gap.evicted_lifecycle_events, 2);
}

#[test]
fn sequence_query_filters_by_range_and_thread() {
    let mut store = EventStore::default();
    for seq in 1..=5 {
        let thread = if seq % 2 == 0 { "even" } else { "odd" };
        store.record(event_on(seq, "turn/started", thread, seq, seq), 1);
    }
    let all = store.query_sequence(None, 1, Some(4));
    let seqs: Vec<u64> = all.events.iter().map(|e| e.sequence).collect();
    assert_eq!(seqs, vec![2, 3, 4]);
    let odd = store.query_sequence(Some("odd"), 0, None);
    let seqs: Vec<u64> = odd.events.iter().map(|e| e.sequence).collect();
    assert_eq!(seqs, vec![1, 3, 5]);
    assert_eq!(odd.gap, None);
    assert!(!store.is_empty());
}

#[test]
fn time_query_uses_emission_time_with_tolerance() {
    let mut store = EventStore::new(StoreConfig { emitted_at_tolerance_ms: 10, ..StoreConfig::default() });
    let raw = obj(vec![
        ("method", s("turn/started")),
        (
            "params",
            obj(vec![("emittedAtMs", JsonValue::Number(JsonNumber::PosInt(500))), ("threadId", s("a"))]),
        ),
    ]);
    let emitted = Arc::new(SequencedEvent::from_frame_at(1, 1, 9999, IncomingFrame::parse(raw).unwrap()));
    store.record(emitted, 1);
    store.record(event_on(2, "turn/started", "a", 2, 1000), 1);
    let q = store.query_time(Some("a"), 505, 600);
    let seqs: Vec<u64> = q.events.iter().map(|e| e.sequence).collect();
    assert_eq!(seqs, vec![1]);
    let q = store.query_time(None, 0, 995);
    let seqs: Vec<u64> = q.events.iter().map(|e| e.sequence).collect();
    assert_eq!(seqs, vec![1, 2]);
    assert!(store.query_time(Some("a"), 511, 600).events.is_empty());
}

#[test]
fn idle_content_eviction_removes_only_idle_deltas() {
    let mut store = EventStore::default();
    store.record(event_on(1, "item/agentMessage/delta", "idle", 1, 1), 3);
    store.record(event_on(2, "turn/started", "idle", 2, 2), 3);
    store.record(event_on(3, "item/agentMessage/delta", "busy", 3, 3), 3);
    store.record(event_on(4, "item/agentMessage/delta", "idle", 4, 4), 3);
    store.evict_idle_content(&["idle".to_owned()]);
    assert_eq!(store.len(), 2);
    assert_eq!(store.bytes(), 6);
    let gap = store.query_sequence(Some("idle"), 0, None).gap.unwrap();
    assert_eq!(gap.summarized_delta_events, 2);
    assert_eq!(gap.before_sequence, Some(4));
    let remaining = store.query_sequence(None, 0, None);
    assert!(remaining.events.iter().all(|e| e.plane == Plane::Lifecycle || e.thread_id.as_deref() == Some("busy")));
}

#[test]
fn reconstructed_anchor_is_recorded_once_and_never_over_a_wire_start() {
    let mut store = EventStore::default();
    let anchor = Arc::new(SequencedEvent::reconstructed_active_turn_at(5, 5, 5, "th", "tu"));
    assert!(store.record_reconstructed_active_turn(anchor, 10));
    assert_eq!(store.len(), 1);
    let raw = obj(vec![
        ("method", s("turn/started")),
        ("params", obj(vec![("threadId", s("th")), ("turn", obj(vec![("id", s("tu2"))]))])),
    ]);
    store.record(Arc::new(SequencedEvent::from_frame_at(6, 6, 6, IncomingFrame::parse(raw).unwrap())), 10);
    let second = Arc::new(SequencedEvent::reconstructed_active_turn_at(7, 7, 7, "th", "tu2"));
    assert!(!store.record_reconstructed_active_turn(second, 10));
    assert_eq!(store.len(), 2);
    let third = Arc::new(SequencedEvent::reconstructed_active_turn_at(8, 8, 8, "th", "tu"));
    assert!(store.record_reconstructed_active_turn(third, 10));
    assert_eq!(store.len(), 3);
    let q = store.query_sequence(Some("th"), 0, None);
    assert!(q.events[0].reconstructed);
    assert!(!q.events[1].reconstructed);
}

#[test]
fn default_limits() {
    let c = StoreConfig::default();
    assert_eq!(c.retention_ms, 600_000);
    assert_eq!(c.per_thread_bytes, 8 * 1024 * 1024);
    assert_eq!(c.global_bytes, 64 * 1024 * 1024);
    assert_eq!(c.emitted_at_tolerance_ms, 2000);
    let store = EventStore::default();
    assert!(store.is_empty());
    assert_eq!(store.bytes(), 0);
    let _ = store.monotonic_ms();
}

#[test]
fn all_threads_queries_report_every_threads_gap() {
    let mut store = EventStore::new(StoreConfig { retention_ms: 100, ..StoreConfig::default() });
    store.record(event_on(1, "item/agentMessage/delta", "a", 10, 100), 5);
    store.record(event_on(2, "turn/started", "b", 50, 200), 5);
    assert_eq!(store.query_sequence(None, 0, None).gap, None);
    store.record(event_on(3, "turn/started", "a", 200, 300), 5);
    assert_eq!(store.len(), 1);
    let combined = RetentionGap {
        before_sequence: Some(2),
        from_sequence: Some(1),
        from_unix_ms: Some(100),
        through_unix_ms: Some(200),
        summarized_delta_events: 1,
        evicted_lifecycle_events: 1,
    };
    assert_eq!(store.query_sequence(None, 0, None).gap, Some(combined));
    assert_eq!(store.query_time(None, 0, 1000).gap, Some(combined));
    let a = store.query_sequence(Some("a"), 0, None).gap.unwrap();
    assert_eq!(a.before_sequence, Some(1));
    assert_eq!(a.from_unix_ms, Some(100));
    assert_eq!(a.summarized_delta_events, 1);
    let b = store.query_time(Some("b"), 0, 1000).gap.unwrap();
    assert_eq!(b.from_sequence, Some(2));
    assert_eq!(b.through_unix_ms, Some(200));
    assert_eq!(b.evicted_lifecycle_events, 1);
}

#[test]
fn per_thread_cap_without_deltas_evicts_only_that_threads_oldest_event() {
    let mut store = EventStore::new(StoreConfig {
        per_thread_bytes: 150,
        global_bytes: 10_000,
        ..StoreConfig::default()
    });
    store.record(event_on(1, "turn/started", "b", 1, 1), 100);
    store.record(event_on(2, "turn/started", "a", 2, 2), 100);
    store.record(event_on(3, "turn/completed", "a", 3, 3), 100);
    assert_eq!(store.len(), 2);
    assert_eq!(store.bytes(), 200);
    let b = store.query_sequence(Some("b"), 0, None);
    assert_eq!(b.events.len(), 1);
    assert_eq!(b.events[0].sequence, 1);
    assert_eq!(b.gap, None);
    let a = store.query_sequence(Some("a"), 0, None);
    let seqs: Vec<u64> = a.events.iter().map(|e| e.sequence).collect();
    assert_eq!(seqs, vec![3]);
    assert_eq!(a.gap.unwrap().before_sequence, Some(2));
}

#[test]
fn per_thread_cap_takes_that_threads_deltas_first() {
    let mut store = EventStore::new(StoreConfig {
        per_thread_bytes: 250,
        global_bytes: 10_000,
        ..StoreConfig::default()
    });
    store.record(event_on(1, "item/agentMessage/delta", "b", 1, 1), 100);
    store.record(event_on(2, "turn/started", "a", 2, 2), 100);
    store.record(event_on(3, "item/agentMessage/delta", "a", 3, 3), 100);
    store.record(event_on(4, "turn/completed", "a", 4, 4), 100);
    let a = store.query_sequence(Some("a"), 0, None);
    let seqs: Vec<u64> = a.events.iter().map(|e| e.sequence).collect();
    assert_eq!(seqs, vec![2, 4]);
    let gap = a.gap.unwrap();
    assert_eq!(gap.summarized_delta_events, 1);
    assert_eq!(gap.evicted_lifecycle_events, 0);
    assert_eq!(store.query_sequence(Some("b"), 0, None).events.len(), 1);
}
