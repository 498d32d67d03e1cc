use codex_control::json::{JsonNumber, JsonValue};
use codex_control::protocol::{
    classify, extract_emitted_at_ms, extract_thread_id, extract_turn_id, notification,
    plane_for_method, request, IncomingFrame, KnownMessage, Plane, RpcId, SequencedEvent,
};

fn s(t: &str) -> JsonValue {
    JsonValue::String(t.to_owned())
}

fn n(v: u64) -> JsonValue {
    JsonValue::Number(JsonNumber::PosInt(v))
}

fn obj(members: Vec<(&str, JsonValue)>) -> JsonValue {
    JsonValue::Object(members.into_iter().map(|(k, v)| (k.to_owned(), v)).collect())
}

#[test]
fn unknown_server_request_is_raw_and_answerless() {
    let raw = obj(vec![
        ("jsonrpc", s("2.0")),
        ("id", n(7)),
        ("method", s("future/review")),
        ("params", obj(vec![("x", n(1))])),
    ]);
    let frame = IncomingFrame::parse(raw.clone()).unwrap();
    assert!(frame.is_server_request());
    assert_eq!(frame.raw(), &raw);
}

#[test]
fn notification_without_params_gets_null_params() {
    let raw = obj(vec![("jsonrpc", s("2.0")), ("method", s("thread/started"))]);
    let frame = IncomingFrame::parse(raw.clone()).unwrap();
    assert!(!frame.is_server_request());
    assert_eq!(frame.method(), Some("thread/started"));
    assert_eq!(frame.params(), Some(&JsonValue::Null));
    match frame {
        IncomingFrame::Notification { known, .. } => {
            assert_eq!(known, Some(KnownMessage::ThreadStarted))
        }
        other => panic!("unexpected frame {other:?}"),
    }
}

#[test]
fn response_keeps_result_and_error() {
    let raw = obj(vec![("id", s("abc")), ("result", obj(vec![("ok", JsonValue::Bool(true))]))]);
    let frame = IncomingFrame::parse(raw.clone()).unwrap();
    assert_eq!(frame.method(), None);
    assert_eq!(frame.params(), None);
    match frame {
        IncomingFrame::Response { id, result, error, raw: kept } => {
            assert_eq!(id, RpcId::String("abc".to_owned()));
            assert_eq!(result, Some(obj(vec![("ok", JsonValue::Bool(true))])));
            assert_eq!(error, None);
            assert_eq!(kept, raw);
        }
        other => panic!("unexpected frame {other:?}"),
    }
}

#[test]
fn parse_errors_name_their_cause() {
    let neither = obj(vec![("jsonrpc", s("2.0"))]);
    assert_eq!(IncomingFrame::parse(neither), Err("frame has neither method nor id"));
    let bad_request = obj(vec![("id", JsonValue::Bool(true)), ("method", s("x"))]);
    assert_eq!(IncomingFrame::parse(bad_request), Err("invalid request id"));
    let bad_response = obj(vec![("id", JsonValue::Number(JsonNumber::NegInt(-3)))]);
    assert_eq!(IncomingFrame::parse(bad_response), Err("invalid response id"));
    let float_id = obj(vec![("id", JsonValue::Number(JsonNumber::Float("1.5".to_owned())))]);
    assert_eq!(IncomingFrame::parse(float_id), Err("invalid response id"));
}

#[test]
fn non_string_method_counts_as_absent() {
    let raw = obj(vec![("id", n(3)), ("method", n(5))]);
    let frame = IncomingFrame::parse(raw).unwrap();
    assert!(matches!(frame, IncomingFrame::Response { id: RpcId::Number(3), .. }));
}

#[test]
fn classify_recognises_methods() {
    assert_eq!(classify("thread/started"), Some(KnownMessage::ThreadStarted));
    assert_eq!(classify("thread/status/changed"), Some(KnownMessage::ThreadStatusChanged));
    assert_eq!(classify("turn/started"), Some(KnownMessage::TurnStarted));
    assert_eq!(classify("turn/completed"), Some(KnownMessage::TurnCompleted));
    assert_eq!(classify("turn/diff/updated"), Some(KnownMessage::TurnDiffUpdated));
    assert_eq!(classify("item/started"), Some(KnownMessage::ItemLifecycle));
    assert_eq!(classify("item/agentMessage/delta"), None);
    assert_eq!(
        classify("item/commandExecution/requestApproval"),
        Some(KnownMessage::ItemLifecycle)
    );
    assert_eq!(classify("execCommandApproval"), None);
    assert_eq!(classify("applyPatchapproval"), Some(KnownMessage::ReviewerRequest));
    assert_eq!(classify("tool/requestUserInput"), Some(KnownMessage::ReviewerRequest));
    assert_eq!(classify("future/review"), None);
    assert_eq!(classify(""), None);
}

#[test]
fn plane_routes_deltas_updates_and_output() {
    assert_eq!(plane_for_method("item/agentMessage/delta"), Plane::Delta);
    assert_eq!(plane_for_method("turn/diff/updated"), Plane::Delta);
    assert_eq!(plane_for_method("item/output/chunk"), Plane::Delta);
    assert_eq!(plane_for_method("turn/started"), Plane::Lifecycle);
    assert_eq!(plane_for_method("turn/completed"), Plane::Lifecycle);
    assert_eq!(plane_for_method("thread/status/changed"), Plane::Lifecycle);
    assert_eq!(plane_for_method(""), Plane::Lifecycle);
}

#[test]
fn extraction_follows_precedence() {
    let v = obj(vec![
        ("thread", obj(vec![("id", s("from-thread"))])),
        ("threadId", s("direct")),
        ("turn", obj(vec![("id", s("turn-1")), ("threadId", s("from-turn"))])),
    ]);
    assert_eq!(extract_thread_id(&v), Some("direct"));
    assert_eq!(extract_turn_id(&v), Some("turn-1"));
    let v2 = obj(vec![("turn", obj(vec![("threadId", s("from-turn"))])), ("turnId", s("t2"))]);
    assert_eq!(extract_thread_id(&v2), Some("from-turn"));
    assert_eq!(extract_turn_id(&v2), Some("t2"));
    let v3 = obj(vec![("threadId", n(1))]);
    assert_eq!(extract_thread_id(&v3), None);
    assert_eq!(extract_thread_id(&JsonValue::Null), None);
}

#[test]
fn emitted_at_prefers_camel_case_even_when_unreadable() {
    assert_eq!(extract_emitted_at_ms(&obj(vec![("emittedAtMs", n(5))])), Some(5));
    assert_eq!(extract_emitted_at_ms(&obj(vec![("emitted_at_ms", n(6))])), Some(6));
    assert_eq!(
        extract_emitted_at_ms(&obj(vec![("emittedAtMs", s("x")), ("emitted_at_ms", n(6))])),
        None
    );
}

#[test]
fn request_and_notification_shapes() {
    let r = request(RpcId::Number(9), "turn/interrupt", obj(vec![("a", n(1))]));
    assert_eq!(
        r,
        obj(vec![
            ("id", n(9)),
            ("jsonrpc", s("2.0")),
            ("method", s("turn/interrupt")),
            ("params", obj(vec![("a", n(1))])),
        ])
    );
    let m = notification("initialized", JsonValue::Null);
    assert_eq!(
        m,
        obj(vec![("jsonrpc", s("2.0")), ("method", s("initialized")), ("params", JsonValue::Null)])
    );
}

#[test]
fn from_frame_reads_plane_thread_turn_and_emission() {
    let raw = obj(vec![
        ("method", s("item/agentMessage/delta")),
        (
            "params",
            obj(vec![("emittedAtMs", n(77)), ("threadId", s("t")), ("turnId", s("u"))]),
        ),
    ]);
    let frame = IncomingFrame::parse(raw).unwrap();
    let e = SequencedEvent::from_frame_at(5, 12, 1000, frame);
    assert_eq!(e.sequence, 5);
    assert_eq!(e.monotonic_ms, 12);
    assert_eq!(e.unix_receipt_ms, 1000);
    assert_eq!(e.emitted_at_ms, Some(77));
    assert_eq!(e.plane, Plane::Delta);
    assert_eq!(e.thread_id.as_deref(), Some("t"));
    assert_eq!(e.turn_id.as_deref(), Some("u"));
    assert!(!e.reconstructed);
    assert_eq!(e.method(), Some("item/agentMessage/delta"));
}

#[test]
fn response_events_are_lifecycle_without_thread() {
    let frame = IncomingFrame::parse(obj(vec![("id", n(1)), ("result", JsonValue::Null)])).unwrap();
    let e = SequencedEvent::from_frame(2, 3, frame);
    assert_eq!(e.plane, Plane::Lifecycle);
    assert_eq!(e.thread_id, None);
    assert_eq!(e.method(), None);
}

#[test]
fn reconstructed_anchor_is_marked_and_parses_back() {
    let e = SequencedEvent::reconstructed_active_turn_at(8, 9, 10, "th", "tu");
    assert!(e.reconstructed);
    assert_eq!(e.plane, Plane::Lifecycle);
    assert_eq!(e.emitted_at_ms, None);
    assert_eq!(e.thread_id.as_deref(), Some("th"));
    assert_eq!(e.turn_id.as_deref(), Some("tu"));
    assert_eq!(e.method(), Some("turn/started"));
    let reparsed = IncomingFrame::parse(e.frame.raw().clone()).unwrap();
    assert_eq!(reparsed, e.frame);
    let live = SequencedEvent::reconstructed_active_turn(1, 2, "th", "tu");
    assert!(live.reconstructed);
}

#[test]
fn reasoning_deltas_of_either_case_go_to_the_delta_plane() {
    assert_eq!(plane_for_method("item/reasoning/summaryTextDelta"), Plane::Delta);
    assert_eq!(plane_for_method("item/reasoning/textDelta"), Plane::Delta);
    assert_eq!(plane_for_method("item/agentMessage/delta"), Plane::Delta);
    assert_eq!(plane_for_method("item/reasoning/summaryPartAdded"), Plane::Lifecycle);
    assert_eq!(classify("item/reasoning/summaryTextDelta"), None);
    assert_eq!(classify("item/reasoning/summaryPartAdded"), Some(KnownMessage::ItemLifecycle));
}
