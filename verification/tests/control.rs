use codex_control::control::{
    completion_matcher, interrupt_after_send, interrupt_after_wait, interrupt_params, read_params,
    reconcile_interrupt, response_turn_id, retry_not_written, rpc_response_outcome,
    start_after_send, start_outcome, start_params, started_matcher, steer_params, unknown,
    ActionOutcome, ActionTarget, ControlConfig, Evidence, InterruptStep, RpcFailure, StartStep,
};
use codex_control::json::{JsonNumber, JsonValue};
use codex_control::protocol::{IncomingFrame, RpcId, SequencedEvent};
use codex_control::reducer::Reducer;
use std::sync::Arc;

fn s(t: &str) -> JsonValue {
    JsonValue::String(t.to_owned())
}

fn obj(members: Vec<(&str, JsonValue)>) -> JsonValue {
    JsonValue::Object(members.into_iter().map(|(k, v)| (k.to_owned(), v)).collect())
}

fn turn_target(thread: &str, turn: &str) -> ActionTarget {
    ActionTarget::Turn { thread_id: thread.to_owned(), turn_id: turn.to_owned() }
}

fn thread_target(thread: &str) -> ActionTarget {
    ActionTarget::Thread { thread_id: thread.to_owned() }
}

fn ambiguous() -> RpcFailure {
    RpcFailure::WrittenOutcomeUnknown { detail: "closed".to_owned() }
}

#[test]
fn completion_before_response_confirms_without_broadcast() {
    let mut reducer = Reducer::default();
    let config = ControlConfig { correlation_window_ms: 50, ..ControlConfig::default() };
    assert_eq!(config.correlation_window_ms, 50);
    let target = turn_target("thread", "turn");
    let waiter = reducer.register_waiter(completion_matcher("thread", "turn"));
    // The completion arrives while the request is still in flight.
    let raw = obj(vec![
        ("method", s("turn/completed")),
        (
            "params",
            obj(vec![
                ("threadId", s("thread")),
                ("turn", obj(vec![("id", s("turn")), ("status", s("interrupted"))])),
            ]),
        ),
    ]);
    let event = Arc::new(SequencedEvent::from_frame(4, 0, IncomingFrame::parse(raw).unwrap()));
    let fired = reducer.apply(event.clone());
    assert_eq!(fired, vec![waiter]);
    let step = interrupt_after_send(target, Ok(JsonValue::Null));
    let target = match step {
        InterruptStep::AwaitCompletion(t) => t,
        other => panic!("unexpected {other:?}"),
    };
    let outcome = match interrupt_after_wait(target, 1, Some(event)) {
        InterruptStep::Finish(o) => o,
        other => panic!("unexpected {other:?}"),
    };
    assert!(matches!(
        outcome,
        ActionOutcome::Confirmed { evidence: Evidence { observed_sequence: Some(4), .. }, .. }
    ));
    let _ = RpcId::Number(2);
}

#[test]
fn ambiguous_start_and_steer_are_never_falsely_confirmed() {
    assert!(matches!(
        start_after_send(thread_target("t"), 1, Err(ambiguous())),
        StartStep::Finish(ActionOutcome::OutcomeUnknown { .. })
    ));
    assert!(matches!(
        rpc_response_outcome("turn/steer", turn_target("t", "turn"), 2, Err(ambiguous())),
        ActionOutcome::OutcomeUnknown { .. }
    ));
    assert!(matches!(
        rpc_response_outcome(
            "turn/steer",
            turn_target("t", "turn"),
            2,
            Err(RpcFailure::TimedOut { method: "turn/steer".to_owned() })
        ),
        ActionOutcome::OutcomeUnknown { .. }
    ));
}

#[test]
fn only_unwritten_requests_are_retried() {
    let not_written = Err(RpcFailure::NotWritten { message: "socket down".to_owned() });
    assert!(retry_not_written(&not_written, 0, 2));
    assert!(retry_not_written(&not_written, 1, 2));
    assert!(!retry_not_written(&not_written, 2, 2));
    assert!(!retry_not_written(&Err(ambiguous()), 0, 2));
    assert!(!retry_not_written(&Ok(JsonValue::Null), 0, 2));
    assert_eq!(ControlConfig::default().not_written_retries, 2);
    assert_eq!(ControlConfig::default().retry_delay_ms, 100);
    assert_eq!(ControlConfig::default().correlation_window_ms, 3000);
}

#[test]
fn interrupt_send_failures_are_classified() {
    let rejected = interrupt_after_send(
        turn_target("a", "b"),
        Err(RpcFailure::Rejected { error: obj(vec![("code", JsonValue::Number(JsonNumber::NegInt(-1)))]) }),
    );
    match rejected {
        InterruptStep::Finish(ActionOutcome::Rejected { reason, rpc_error, target }) => {
            assert_eq!(reason, "daemon rejected interrupt");
            assert!(rpc_error.is_some());
            assert_eq!(target, turn_target("a", "b"));
        }
        other => panic!("unexpected {other:?}"),
    }
    assert_eq!(
        interrupt_after_send(turn_target("a", "b"), Err(ambiguous())),
        InterruptStep::Reconcile { target: turn_target("a", "b"), rpc_accepted: false }
    );
    match interrupt_after_send(
        turn_target("a", "b"),
        Err(RpcFailure::Other { message: "not connected".to_owned() }),
    ) {
        InterruptStep::Finish(ActionOutcome::Rejected { reason, rpc_error: None, .. }) => {
            assert_eq!(reason, "not connected")
        }
        other => panic!("unexpected {other:?}"),
    }
    assert_eq!(
        interrupt_after_wait(turn_target("a", "b"), 3, None),
        InterruptStep::Reconcile { target: turn_target("a", "b"), rpc_accepted: true }
    );
}

#[test]
fn reconcile_confirms_only_interrupted_target_turn() {
    let read = |status: &str| {
        obj(vec![(
            "thread",
            obj(vec![(
                "turns",
                JsonValue::Array(vec![
                    obj(vec![("id", s("other")), ("status", s("completed"))]),
                    obj(vec![("id", s("turn")), ("status", s(status))]),
                ]),
            )]),
        )])
    };
    let confirmed = reconcile_interrupt(turn_target("thread", "turn"), 5, true, Ok(read("interrupted")));
    match confirmed {
        ActionOutcome::Confirmed { evidence, .. } => {
            assert_eq!(evidence.action_correlation, 5);
            assert!(evidence.rpc_accepted);
            assert_eq!(evidence.observed_sequence, None);
            assert_eq!(evidence.note, "target turn is interrupted on reconciliation; correlation is not causation");
        }
        other => panic!("unexpected {other:?}"),
    }
    assert!(matches!(
        reconcile_interrupt(turn_target("thread", "turn"), 5, false, Ok(read("inProgress"))),
        ActionOutcome::OutcomeUnknown { .. }
    ));
    for status in ["completed", "failed"] {
        match reconcile_interrupt(turn_target("thread", "turn"), 5, true, Ok(read(status))) {
            ActionOutcome::OutcomeUnknown { evidence, .. } => {
                assert_eq!(evidence.note, "no unique terminal evidence for target turn");
                assert!(evidence.rpc_accepted);
            }
            other => panic!("unexpected {other:?}"),
        }
    }
    assert!(matches!(
        reconcile_interrupt(turn_target("thread", "turn"), 5, false, Err(ambiguous())),
        ActionOutcome::OutcomeUnknown { .. }
    ));
    let empty = obj(vec![("thread", obj(vec![("turns", JsonValue::Array(vec![]))]))]);
    match reconcile_interrupt(turn_target("thread", "turn"), 6, false, Ok(empty)) {
        ActionOutcome::OutcomeUnknown { evidence, .. } => {
            assert_eq!(evidence.note, "no unique terminal evidence for target turn")
        }
        other => panic!("unexpected {other:?}"),
    }
}

#[test]
fn start_outcomes_follow_response_and_observation() {
    let response = obj(vec![("turn", obj(vec![("id", s("new"))]))]);
    assert_eq!(response_turn_id(&response).as_deref(), Some("new"));
    assert_eq!(response_turn_id(&obj(vec![("turnId", s("flat"))])).as_deref(), Some("flat"));
    let odd = obj(vec![("turn", obj(vec![("id", JsonValue::Number(JsonNumber::PosInt(1)))])), ("turnId", s("flat"))]);
    assert_eq!(response_turn_id(&odd), None);

    let (target, named) = match start_after_send(thread_target("t"), 1, Ok(response)) {
        StartStep::AwaitStarted { target, response_turn } => (target, response_turn),
        other => panic!("unexpected {other:?}"),
    };
    let raw = obj(vec![
        ("method", s("turn/started")),
        ("params", obj(vec![("threadId", s("t")), ("turn", obj(vec![("id", s("new"))]))])),
    ]);
    let started = Arc::new(SequencedEvent::from_frame(11, 0, IncomingFrame::parse(raw).unwrap()));
    match start_outcome(target, 1, named, Some(started)) {
        ActionOutcome::Confirmed { evidence, .. } => {
            assert_eq!(evidence.observed_sequence, Some(11));
            assert_eq!(evidence.observed_method.as_deref(), Some("turn/started"));
        }
        other => panic!("unexpected {other:?}"),
    }
    match start_outcome(thread_target("t"), 2, Some("new".to_owned()), None) {
        ActionOutcome::Confirmed { evidence, .. } => assert_eq!(evidence.observed_sequence, None),
        other => panic!("unexpected {other:?}"),
    }
    assert!(matches!(
        start_outcome(thread_target("t"), 3, None, None),
        ActionOutcome::OutcomeUnknown { .. }
    ));
    match start_after_send(thread_target("t"), 4, Err(RpcFailure::Rejected { error: JsonValue::Null })) {
        StartStep::Finish(ActionOutcome::Rejected { reason, .. }) => {
            assert_eq!(reason, "daemon rejected turn/start")
        }
        other => panic!("unexpected {other:?}"),
    }
}

#[test]
fn steer_rejection_names_the_method() {
    match rpc_response_outcome("turn/steer", turn_target("t", "u"), 1, Err(RpcFailure::Rejected { error: s("no") })) {
        ActionOutcome::Rejected { reason, rpc_error, .. } => {
            assert_eq!(reason, "daemon rejected turn/steer");
            assert_eq!(rpc_error, Some(s("no")));
        }
        other => panic!("unexpected {other:?}"),
    }
    match rpc_response_outcome("turn/steer", turn_target("t", "u"), 9, Ok(JsonValue::Null)) {
        ActionOutcome::Confirmed { evidence, .. } => {
            assert_eq!(evidence.action_correlation, 9);
            assert_eq!(evidence.note, "daemon accepted the explicitly targeted request");
        }
        other => panic!("unexpected {other:?}"),
    }
}

#[test]
fn request_parameters_have_the_wire_shape() {
    assert_eq!(
        interrupt_params("a", "b"),
        obj(vec![("threadId", s("a")), ("turnId", s("b"))])
    );
    assert_eq!(
        read_params("a"),
        obj(vec![("includeTurns", JsonValue::Bool(true)), ("threadId", s("a"))])
    );
    assert_eq!(
        start_params("a", vec![s("hi")]),
        obj(vec![("input", JsonValue::Array(vec![s("hi")])), ("threadId", s("a"))])
    );
    assert_eq!(
        steer_params("a", "b", vec![]),
        obj(vec![("expectedTurnId", s("b")), ("input", JsonValue::Array(vec![])), ("threadId", s("a"))])
    );
    let m = started_matcher("a");
    assert_eq!(m.method, "turn/started");
    assert_eq!(m.turn_id, None);
    assert_eq!(turn_target("x", "y").thread_id(), "x");
    assert_eq!(thread_target("z").thread_id(), "z");
    let e = unknown(3, false, "n");
    assert_eq!(e.note, "n");
    assert!(!e.rpc_accepted);
}

fn completion_event(seq: u64, status: Option<&str>) -> Arc<SequencedEvent> {
    let mut turn = vec![("id", s("turn"))];
    if let Some(st) = status {
        turn.push(("status", s(st)));
    }
    let raw = obj(vec![
        ("method", s("turn/completed")),
        ("params", obj(vec![("threadId", s("thread")), ("turn", obj(turn))])),
    ]);
    Arc::new(SequencedEvent::from_frame(seq, 0, IncomingFrame::parse(raw).unwrap()))
}

#[test]
fn only_an_interrupted_completion_confirms_an_interrupt() {
    let m = completion_matcher("thread", "turn");
    assert_eq!(m.method, "turn/completed");
    assert_eq!(m.turn_status.as_deref(), Some("interrupted"));
    assert_eq!(started_matcher("thread").turn_status, None);

    let mut reducer = Reducer::default();
    let waiter = reducer.register_waiter(completion_matcher("thread", "turn"));
    assert!(reducer.apply(completion_event(1, Some("completed"))).is_empty());
    assert!(reducer.apply(completion_event(2, None)).is_empty());
    assert_eq!(reducer.apply(completion_event(3, Some("interrupted"))), vec![waiter]);

    assert_eq!(
        interrupt_after_wait(turn_target("thread", "turn"), 7, Some(completion_event(8, Some("completed")))),
        InterruptStep::Reconcile { target: turn_target("thread", "turn"), rpc_accepted: true }
    );
    assert_eq!(
        interrupt_after_wait(turn_target("thread", "other"), 7, Some(completion_event(8, Some("interrupted")))),
        InterruptStep::Reconcile { target: turn_target("thread", "other"), rpc_accepted: true }
    );
    match interrupt_after_wait(turn_target("thread", "turn"), 7, Some(completion_event(9, Some("interrupted")))) {
        InterruptStep::Finish(ActionOutcome::Confirmed { evidence, .. }) => {
            assert_eq!(evidence.observed_sequence, Some(9));
            assert_eq!(evidence.action_correlation, 7);
        }
        other => panic!("unexpected {other:?}"),
    }
}
