//! Explicit-target control actions: request parameters, retry classification and
//! conservative outcome classification from RPC results and observed events.

use vstd::prelude::*;
use std::sync::Arc;
use crate::json::{
    get_in, get_opt, lemma_view_items, lemma_view_members, opt_view, str_in, str_opt, str_view,
    string_view, view_items, view_members, Json, JsonValue,
};
use crate::protocol::SequencedEvent;
use crate::reducer::{copy_text, event_turn_status, turn_status_of, EventMatcher};
use crate::text::text_eq;
use vstd::string::StringExecFns;

verus! {

/// Timing and retry settings. Times are in milliseconds.
#[derive(Clone, Copy, Debug)]
pub struct ControlConfig {
    pub correlation_window_ms: u64,
    pub not_written_retries: usize,
    pub retry_delay_ms: u64,
}

impl Default for ControlConfig {
    /// A three-second correlation window, two retries of unwritten requests, 100 ms apart.
    fn default() -> (r: Self)
        ensures
            r.correlation_window_ms == 3000,
            r.not_written_retries == 2,
            r.retry_delay_ms == 100,
    {
        ControlConfig { correlation_window_ms: 3000, not_written_retries: 2, retry_delay_ms: 100 }
    }
}

/// The explicit target of an action.
#[derive(Debug, PartialEq, Eq)]
pub enum ActionTarget {
    Turn { thread_id: String, turn_id: String },
    Thread { thread_id: String },
}

impl ActionTarget {
    pub open spec fn thread_view(&self) -> Seq<char> {
        match self {
            ActionTarget::Turn { thread_id, .. } => thread_id@,
            ActionTarget::Thread { thread_id } => thread_id@,
        }
    }

    pub fn thread_id(&self) -> (r: &str)
        ensures
            r@ == self.thread_view(),
    {
        match self {
            ActionTarget::Turn { thread_id, .. } => thread_id.as_str(),
            ActionTarget::Thread { thread_id } => thread_id.as_str(),
        }
    }
}

/// What supports an outcome.
#[derive(Debug, PartialEq, Eq)]
pub struct Evidence {
    pub action_correlation: u64,
    pub rpc_accepted: bool,
    pub observed_sequence: Option<u64>,
    pub observed_method: Option<String>,
    pub note: String,
}

/// The outcome of an action.
#[derive(Debug, PartialEq)]
pub enum ActionOutcome {
    Confirmed { target: ActionTarget, evidence: Evidence },
    Rejected { target: ActionTarget, reason: String, rpc_error: Option<JsonValue> },
    OutcomeUnknown { target: ActionTarget, evidence: Evidence },
}

/// How an RPC failed, as the transport classified it. `message` is the failure's
/// display text.
#[derive(Debug, PartialEq)]
pub enum RpcFailure {
    /// Known not to have been written; safe to resend.
    NotWritten { message: String },
    /// The daemon answered with an error.
    Rejected { error: JsonValue },
    /// Written, but no answer arrived.
    WrittenOutcomeUnknown { detail: String },
    TimedOut { method: String },
    Other { message: String },
}

/// The display text of failures reported as plain rejections.
pub open spec fn failure_message(f: RpcFailure) -> Seq<char> {
    match f {
        RpcFailure::NotWritten { message } => message@,
        RpcFailure::Other { message } => message@,
        _ => Seq::empty(),
    }
}

/// A write whose effect cannot be known.
pub open spec fn is_ambiguous(f: RpcFailure) -> bool {
    f is WrittenOutcomeUnknown || f is TimedOut
}

/// Evidence without an observed event.
pub open spec fn plain_evidence(ev: Evidence, correlation: u64, rpc_accepted: bool, note: Seq<char>) -> bool {
    &&& ev.action_correlation == correlation
    &&& ev.rpc_accepted == rpc_accepted
    &&& ev.observed_sequence is None
    &&& ev.observed_method is None
    &&& ev.note@ == note
}

/// Evidence naming an observed event.
pub open spec fn observed_evidence(
    ev: Evidence,
    correlation: u64,
    rpc_accepted: bool,
    e: SequencedEvent,
    note: Seq<char>,
) -> bool {
    &&& ev.action_correlation == correlation
    &&& ev.rpc_accepted == rpc_accepted
    &&& ev.observed_sequence == Some(e.sequence)
    &&& string_view(ev.observed_method) == e.frame.method_view()
    &&& ev.note@ == note
}

/// `o` rejects `target` for `reason`, carrying `rpc_error`.
pub open spec fn rejected_as(
    o: ActionOutcome,
    target: ActionTarget,
    reason: Seq<char>,
    rpc_error: Option<Json>,
) -> bool {
    o matches ActionOutcome::Rejected { target: t, reason: r, rpc_error: err } && t == target && r@
        == reason && opt_view(err) == rpc_error
}

/// The rejection an RPC failure that is neither a daemon error nor ambiguous gives.
pub open spec fn plain_rejection(o: ActionOutcome, target: ActionTarget, f: RpcFailure) -> bool {
    rejected_as(o, target, failure_message(f), None)
}

/// Whether a failed send is resent: only a request known not to have been
/// written, and only while retries remain.
pub fn retry_not_written(result: &Result<JsonValue, RpcFailure>, retries: usize, max_retries: usize) -> (r: bool)
    ensures
        r == (result matches Err(RpcFailure::NotWritten { .. }) && retries < max_retries),
{
    match result {
        Err(RpcFailure::NotWritten { .. }) => retries < max_retries,
        _ => false,
    }
}

/// Evidence naming an observed event.
pub fn observed(correlation: u64, rpc_accepted: bool, event: &SequencedEvent, note: &str) -> (r: Evidence)
    ensures
        observed_evidence(r, correlation, rpc_accepted, *event, note@),
{
    Evidence {
        action_correlation: correlation,
        rpc_accepted,
        observed_sequence: Some(event.sequence),
        observed_method: match event.method() {
            Some(m) => Some(m.to_owned()),
            None => None,
        },
        note: note.to_owned(),
    }
}

/// Evidence without an observed event.
pub fn unknown(correlation: u64, rpc_accepted: bool, note: &str) -> (r: Evidence)
    ensures
        plain_evidence(r, correlation, rpc_accepted, note@),
{
    Evidence {
        action_correlation: correlation,
        rpc_accepted,
        observed_sequence: None,
        observed_method: None,
        note: note.to_owned(),
    }
}

fn failure_text(f: &RpcFailure) -> (r: String)
    ensures
        r@ == failure_message(*f),
{
    match f {
        RpcFailure::NotWritten { message } => message.clone(),
        RpcFailure::Other { message } => message.clone(),
        _ => String::new(),
    }
}

// ---------------------------------------------------------------------------
// Request parameters and waiters
// ---------------------------------------------------------------------------

/// `{"threadId", "turnId"}` for `turn/interrupt`.
pub fn interrupt_params(thread_id: &str, turn_id: &str) -> (r: JsonValue)
    ensures
        r@ == Json::Object(seq![("threadId"@, Json::Str(thread_id@)), ("turnId"@, Json::Str(turn_id@))]),
{
    let mut m: Vec<(String, JsonValue)> = Vec::new();
    m.push(("threadId".to_owned(), JsonValue::text(thread_id)));
    m.push(("turnId".to_owned(), JsonValue::text(turn_id)));
    proof {
        lemma_view_members(m@);
        assert(view_members(m@) =~= seq![
            ("threadId"@, Json::Str(thread_id@)),
            ("turnId"@, Json::Str(turn_id@)),
        ]);
    }
    JsonValue::Object(m)
}

/// `{"includeTurns": true, "threadId"}` for the `thread/read` that reconciles an interrupt.
pub fn read_params(thread_id: &str) -> (r: JsonValue)
    ensures
        r@ == Json::Object(seq![("includeTurns"@, Json::Bool(true)), ("threadId"@, Json::Str(thread_id@))]),
{
    let mut m: Vec<(String, JsonValue)> = Vec::new();
    m.push(("includeTurns".to_owned(), JsonValue::Bool(true)));
    m.push(("threadId".to_owned(), JsonValue::text(thread_id)));
    proof {
        lemma_view_members(m@);
        assert(view_members(m@) =~= seq![
            ("includeTurns"@, Json::Bool(true)),
            ("threadId"@, Json::Str(thread_id@)),
        ]);
    }
    JsonValue::Object(m)
}

/// `{"input", "threadId"}` for `turn/start`.
pub fn start_params(thread_id: &str, input: Vec<JsonValue>) -> (r: JsonValue)
    ensures
        r@ == Json::Object(seq![("input"@, Json::Array(view_items(input@))), ("threadId"@, Json::Str(thread_id@))]),
{
    let ghost items = view_items(input@);
    let mut m: Vec<(String, JsonValue)> = Vec::new();
    m.push(("input".to_owned(), JsonValue::Array(input)));
    m.push(("threadId".to_owned(), JsonValue::text(thread_id)));
    proof {
        lemma_view_members(m@);
        assert(view_members(m@) =~= seq![
            ("input"@, Json::Array(items)),
            ("threadId"@, Json::Str(thread_id@)),
        ]);
    }
    JsonValue::Object(m)
}

/// `{"expectedTurnId", "input", "threadId"}` for `turn/steer`.
pub fn steer_params(thread_id: &str, expected_turn_id: &str, input: Vec<JsonValue>) -> (r: JsonValue)
    ensures
        r@ == Json::Object(
            seq![
                ("expectedTurnId"@, Json::Str(expected_turn_id@)),
                ("input"@, Json::Array(view_items(input@))),
                ("threadId"@, Json::Str(thread_id@)),
            ],
        ),
{
    let ghost items = view_items(input@);
    let mut m: Vec<(String, JsonValue)> = Vec::new();
    m.push(("expectedTurnId".to_owned(), JsonValue::text(expected_turn_id)));
    m.push(("input".to_owned(), JsonValue::Array(input)));
    m.push(("threadId".to_owned(), JsonValue::text(thread_id)));
    proof {
        lemma_view_members(m@);
        assert(view_members(m@) =~= seq![
            ("expectedTurnId"@, Json::Str(expected_turn_id@)),
            ("input"@, Json::Array(items)),
            ("threadId"@, Json::Str(thread_id@)),
        ]);
    }
    JsonValue::Object(m)
}

/// Waits for the `turn/completed` of the targeted thread and turn whose turn
/// status is `interrupted`.
pub fn completion_matcher(thread_id: &str, turn_id: &str) -> (r: EventMatcher)
    ensures
        r.method@ == "turn/completed"@,
        string_view(r.thread_id) == Some(thread_id@),
        string_view(r.turn_id) == Some(turn_id@),
        string_view(r.turn_status) == Some("interrupted"@),
{
    EventMatcher {
        method: "turn/completed".to_owned(),
        thread_id: Some(thread_id.to_owned()),
        turn_id: Some(turn_id.to_owned()),
        turn_status: Some("interrupted".to_owned()),
    }
}

/// Waits for a `turn/started` of the targeted thread.
pub fn started_matcher(thread_id: &str) -> (r: EventMatcher)
    ensures
        r.method@ == "turn/started"@,
        string_view(r.thread_id) == Some(thread_id@),
        r.turn_id is None,
        r.turn_status is None,
{
    EventMatcher {
        method: "turn/started".to_owned(),
        thread_id: Some(thread_id.to_owned()),
        turn_id: None,
        turn_status: None,
    }
}

// ---------------------------------------------------------------------------
// Outcome classification
// ---------------------------------------------------------------------------

/// The next step of an interrupt.
#[derive(Debug, PartialEq)]
pub enum InterruptStep {
    /// The request was accepted: wait for the pre-registered completion waiter.
    AwaitCompletion(ActionTarget),
    /// Read the thread back to look for the target turn's interrupted status.
    Reconcile { target: ActionTarget, rpc_accepted: bool },
    Finish(ActionOutcome),
}

/// The next step of an interrupt after its request was sent.
pub fn interrupt_after_send(target: ActionTarget, sent: Result<JsonValue, RpcFailure>) -> (r: InterruptStep)
    ensures
        match sent {
            Ok(_) => r == InterruptStep::AwaitCompletion(target),
            Err(f) => match f {
                RpcFailure::Rejected { error } => r matches InterruptStep::Finish(o) && rejected_as(
                    o,
                    target,
                    "daemon rejected interrupt"@,
                    Some(error@),
                ),
                _ => if is_ambiguous(f) {
                    r == (InterruptStep::Reconcile { target, rpc_accepted: false })
                } else {
                    r matches InterruptStep::Finish(o) && plain_rejection(o, target, f)
                },
            },
        },
{
    match sent {
        Ok(_) => InterruptStep::AwaitCompletion(target),
        Err(RpcFailure::Rejected { error }) => InterruptStep::Finish(
            ActionOutcome::Rejected {
                target,
                reason: "daemon rejected interrupt".to_owned(),
                rpc_error: Some(error),
            },
        ),
        Err(RpcFailure::WrittenOutcomeUnknown { .. }) => InterruptStep::Reconcile {
            target,
            rpc_accepted: false,
        },
        Err(RpcFailure::TimedOut { .. }) => InterruptStep::Reconcile { target, rpc_accepted: false },
        Err(f) => {
            let reason = failure_text(&f);
            InterruptStep::Finish(ActionOutcome::Rejected { target, reason, rpc_error: None })
        },
    }
}

/// `e` is the `turn/completed` of the targeted turn with turn status `interrupted`.
pub open spec fn is_interrupt_completion(e: SequencedEvent, target: ActionTarget) -> bool {
    &&& target is Turn
    &&& e.frame.method_view() == Some("turn/completed"@)
    &&& string_view(e.thread_id) == Some(target->Turn_thread_id@)
    &&& string_view(e.turn_id) == Some(target->Turn_turn_id@)
    &&& event_turn_status(e) == Some("interrupted"@)
}

/// What confirms an interrupt while waiting: only a `turn/completed` event of the
/// targeted thread and turn whose `params.turn.status` is `interrupted`; an event
/// of another thread or turn, without those ids, of another method, or with any
/// other status never does.
pub proof fn law_interrupt_completion_exact(e: SequencedEvent, target: ActionTarget)
    ensures
        is_interrupt_completion(e, target) <==> ({
            &&& target is Turn
            &&& e.frame.method_view() == Some("turn/completed"@)
            &&& e.thread_id is Some && e.thread_id->0@ == target->Turn_thread_id@
            &&& e.turn_id is Some && e.turn_id->0@ == target->Turn_turn_id@
            &&& str_in(get_in(get_in(e.frame.params_view(), "turn"@), "status"@)) == Some(
                "interrupted"@,
            )
        }),
{
}

/// The next step of an accepted interrupt once its completion waiter resolved
/// (`None` when the window passed without a matching completion): confirmed only
/// by the targeted turn's completion with status `interrupted`; anything else is
/// reconciled.
pub fn interrupt_after_wait(
    target: ActionTarget,
    correlation: u64,
    completion: Option<Arc<SequencedEvent>>,
) -> (r: InterruptStep)
    ensures
        match completion {
            Some(e) => if is_interrupt_completion(*e, target) {
                r matches InterruptStep::Finish(ActionOutcome::Confirmed { target: t, evidence })
                    && t == target && observed_evidence(
                    evidence,
                    correlation,
                    true,
                    *e,
                    "matching completion observed after interrupt; correlation is not proof of causation"@,
                )
            } else {
                r == (InterruptStep::Reconcile { target, rpc_accepted: true })
            },
            None => r == (InterruptStep::Reconcile { target, rpc_accepted: true }),
        },
{
    match completion {
        Some(event) => {
            let confirms = match &target {
                ActionTarget::Turn { thread_id, turn_id } => {
                    let method_ok = match event.method() {
                        Some(m) => text_eq(m, "turn/completed"),
                        None => false,
                    };
                    let thread_ok = match &event.thread_id {
                        Some(t) => text_eq(t.as_str(), thread_id.as_str()),
                        None => false,
                    };
                    let turn_ok = match &event.turn_id {
                        Some(t) => text_eq(t.as_str(), turn_id.as_str()),
                        None => false,
                    };
                    let status_ok = match turn_status_of(&event) {
                        Some(st) => text_eq(st, "interrupted"),
                        None => false,
                    };
                    method_ok && thread_ok && turn_ok && status_ok
                },
                ActionTarget::Thread { .. } => false,
            };
            if confirms {
                InterruptStep::Finish(
                    ActionOutcome::Confirmed {
                        target,
                        evidence: observed(
                            correlation,
                            true,
                            &event,
                            "matching completion observed after interrupt; correlation is not proof of causation",
                        ),
                    },
                )
            } else {
                InterruptStep::Reconcile { target, rpc_accepted: true }
            }
        },
        None => InterruptStep::Reconcile { target, rpc_accepted: true },
    }
}

/// The first turn whose `id` is the string `id`.
pub open spec fn turn_with_id(turns: Seq<Json>, id: Seq<char>) -> Option<Json>
    decreases turns.len(),
{
    if turns.len() == 0 {
        None
    } else {
        match turn_with_id(turns.drop_last(), id) {
            Some(t) => Some(t),
            None => if str_in(turns.last().get("id"@)) == Some(id) {
                Some(turns.last())
            } else {
                None
            },
        }
    }
}

/// A `thread/read` result shows the turn `turn_id` with status `interrupted`.
pub open spec fn read_interrupted(read: Json, turn_id: Seq<char>) -> bool {
    match get_in(read.get("thread"@), "turns"@) {
        Some(ts) => match ts.as_array() {
            Some(turns) => match turn_with_id(turns, turn_id) {
                Some(turn) => str_in(turn.get("status"@)) == Some("interrupted"@),
                None => false,
            },
            None => false,
        },
        None => false,
    }
}

pub proof fn lemma_turn_with_id(turns: Seq<Json>, id: Seq<char>)
    ensures
        match turn_with_id(turns, id) {
            Some(t) => exists|k: int|
                0 <= k < turns.len() && turns[k] == t && str_in(turns[k].get("id"@)) == Some(id)
                    && forall|j: int| 0 <= j < k ==> str_in(#[trigger] turns[j].get("id"@)) != Some(id),
            None => forall|k: int| 0 <= k < turns.len() ==> str_in(#[trigger] turns[k].get("id"@)) != Some(id),
        },
    decreases turns.len(),
{
    if turns.len() > 0 {
        let p = turns.drop_last();
        lemma_turn_with_id(p, id);
        match turn_with_id(p, id) {
            Some(t) => {
                let k = choose|k: int|
                    0 <= k < p.len() && p[k] == t && str_in(p[k].get("id"@)) == Some(id) && forall|j: int|
                        0 <= j < k ==> str_in(#[trigger] p[j].get("id"@)) != Some(id);
                assert(turns[k] == p[k]);
                assert forall|j: int| 0 <= j < k implies str_in(#[trigger] turns[j].get("id"@)) != Some(id) by {
                    assert(turns[j] == p[j]);
                }
            },
            None => {
                assert forall|k: int| 0 <= k < turns.len() - 1 implies str_in(#[trigger] turns[k].get("id"@))
                    != Some(id) by {
                    assert(turns[k] == p[k]);
                }
                if str_in(turns.last().get("id"@)) == Some(id) {
                    assert(turns[turns.len() - 1] == turns.last());
                }
            },
        }
    }
}

/// Reconciliation confirms an interrupt only from the targeted turn: a read shows
/// turn `id` interrupted exactly when its `thread.turns` array holds a turn with
/// that id, and the first such turn has status `interrupted`. The status of any
/// other turn never counts.
pub proof fn law_reconcile_reads_only_target_turn(read: Json, id: Seq<char>)
    ensures
        read_interrupted(read, id) <==> (match get_in(read.get("thread"@), "turns"@) {
            Some(ts) => match ts.as_array() {
                Some(turns) => exists|k: int|
                    0 <= k < turns.len() && str_in(#[trigger] turns[k].get("id"@)) == Some(id) && str_in(
                        turns[k].get("status"@),
                    ) == Some("interrupted"@) && forall|j: int|
                        0 <= j < k ==> str_in(#[trigger] turns[j].get("id"@)) != Some(id),
                None => false,
            },
            None => false,
        }),
{
    match get_in(read.get("thread"@), "turns"@) {
        Some(ts) => match ts.as_array() {
            Some(turns) => {
                lemma_turn_with_id(turns, id);
                if exists|k: int|
                    0 <= k < turns.len() && str_in(#[trigger] turns[k].get("id"@)) == Some(id) && str_in(
                        turns[k].get("status"@),
                    ) == Some("interrupted"@) && forall|j: int|
                        0 <= j < k ==> str_in(#[trigger] turns[j].get("id"@)) != Some(id) {
                    let k = choose|k: int|
                        0 <= k < turns.len() && str_in(#[trigger] turns[k].get("id"@)) == Some(id) && str_in(
                            turns[k].get("status"@),
                        ) == Some("interrupted"@) && forall|j: int|
                            0 <= j < k ==> str_in(#[trigger] turns[j].get("id"@)) != Some(id);
                    match turn_with_id(turns, id) {
                        Some(t) => {
                            let k2 = choose|k2: int|
                                0 <= k2 < turns.len() && turns[k2] == t && str_in(turns[k2].get("id"@))
                                    == Some(id) && forall|j: int|
                                    0 <= j < k2 ==> str_in(#[trigger] turns[j].get("id"@)) != Some(id);
                            if k < k2 {
                                assert(str_in(turns[k].get("id"@)) != Some(id));
                            }
                            if k2 < k {
                                assert(str_in(turns[k2].get("id"@)) != Some(id));
                            }
                        },
                        None => {
                            assert(str_in(turns[k].get("id"@)) != Some(id));
                        },
                    }
                }
            },
            None => {},
        },
        None => {},
    }
}

fn interrupted_in_read(read: &JsonValue, turn_id: &str) -> (r: bool)
    ensures
        r == read_interrupted(read@, turn_id@),
{
    let turns = match get_opt(read.get("thread"), "turns") {
        Some(ts) => match ts.as_array() {
            Some(items) => items,
            None => {
                return false;
            },
        },
        None => {
            return false;
        },
    };
    let ghost vt = view_items(turns@);
    proof {
        lemma_view_items(turns@);
    }
    let n = turns.len();
    let mut i: usize = 0;
    while i < n
        invariant
            n == turns@.len(),
            i <= n,
            vt == view_items(turns@),
            vt.len() == n,
            forall|j: int| 0 <= j < n ==> #[trigger] vt[j] == turns@[j]@,
            turn_with_id(vt.take(i as int), turn_id@) is None,
            read_interrupted(read@, turn_id@) == match turn_with_id(vt, turn_id@) {
                Some(turn) => str_in(turn.get("status"@)) == Some("interrupted"@),
                None => false,
            },
        decreases n - i,
    {
        proof {
            assert(vt.take(i + 1).drop_last() =~= vt.take(i as int));
            assert(vt.take(i + 1).last() == vt[i as int]);
        }
        let matches_id = match str_opt(turns[i].get("id")) {
            Some(id) => text_eq(id, turn_id),
            None => false,
        };
        if matches_id {
            proof {
                assert(str_in(vt[i as int].get("id"@)) == Some(turn_id@));
                assert(turn_with_id(vt.take(i + 1), turn_id@) == Some(vt[i as int]));
                lemma_turn_with_id_prefix(vt, turn_id@, i as int + 1);
            }
            return match str_opt(turns[i].get("status")) {
                Some(st) => text_eq(st, "interrupted"),
                None => false,
            };
        }
        i += 1;
    }
    proof {
        assert(vt.take(n as int) =~= vt);
    }
    false
}

pub proof fn lemma_turn_with_id_prefix(turns: Seq<Json>, id: Seq<char>, k: int)
    requires
        0 <= k <= turns.len(),
        turn_with_id(turns.take(k), id) is Some,
    ensures
        turn_with_id(turns, id) == turn_with_id(turns.take(k), id),
    decreases turns.len() - k,
{
    if k < turns.len() {
        assert(turns.take(k + 1).drop_last() =~= turns.take(k));
        lemma_turn_with_id_prefix(turns, id, k + 1);
    } else {
        assert(turns.take(k) =~= turns);
    }
}

/// Classifies an interrupt from a `thread/read` of its thread: confirmed when the
/// targeted turn is shown with status `interrupted`, unknown otherwise.
pub fn reconcile_interrupt(
    target: ActionTarget,
    correlation: u64,
    rpc_accepted: bool,
    read: Result<JsonValue, RpcFailure>,
) -> (r: ActionOutcome)
    requires
        target is Turn,
    ensures
        ({
            let terminal = match read {
                Ok(v) => read_interrupted(v@, target->Turn_turn_id@),
                Err(_) => false,
            };
            if terminal {
                r matches ActionOutcome::Confirmed { target: t, evidence } && t == target
                    && plain_evidence(
                    evidence,
                    correlation,
                    rpc_accepted,
                    "target turn is interrupted on reconciliation; correlation is not causation"@,
                )
            } else {
                r matches ActionOutcome::OutcomeUnknown { target: t, evidence } && t == target
                    && plain_evidence(
                    evidence,
                    correlation,
                    rpc_accepted,
                    "no unique terminal evidence for target turn"@,
                )
            }
        }),
{
    let terminal = match (&target, &read) {
        (ActionTarget::Turn { turn_id, .. }, Ok(v)) => interrupted_in_read(v, turn_id.as_str()),
        _ => false,
    };
    if terminal {
        ActionOutcome::Confirmed {
            target,
            evidence: unknown(
                correlation,
                rpc_accepted,
                "target turn is interrupted on reconciliation; correlation is not causation",
            ),
        }
    } else {
        ActionOutcome::OutcomeUnknown {
            target,
            evidence: unknown(correlation, rpc_accepted, "no unique terminal evidence for target turn"),
        }
    }
}

/// The turn id a `turn/start` response names: `turn.id` when present (even when it
/// is not a string), else `turnId`, as a string.
pub open spec fn response_turn(resp: Json) -> Option<Seq<char>> {
    str_in(
        match get_in(resp.get("turn"@), "id"@) {
            Some(x) => Some(x),
            None => resp.get("turnId"@),
        },
    )
}

/// The turn a `turn/start` response names: when the response holds `turn.id`,
/// that member decides (a string names the turn, anything else names none);
/// only without it does `turnId` count.
pub proof fn law_response_turn(resp: Json)
    ensures
        resp.get("turn"@) is Some && resp.get("turn"@)->0.get("id"@) is Some ==> response_turn(resp)
            == resp.get("turn"@)->0.get("id"@)->0.as_str(),
        !(resp.get("turn"@) is Some && resp.get("turn"@)->0.get("id"@) is Some) ==> response_turn(resp)
            == (match resp.get("turnId"@) {
            Some(x) => x.as_str(),
            None => None,
        }),
{
}

pub fn response_turn_id(response: &JsonValue) -> (r: Option<String>)
    ensures
        string_view(r) == response_turn(response@),
{
    let chosen = match get_opt(response.get("turn"), "id") {
        Some(x) => Some(x),
        None => response.get("turnId"),
    };
    match str_opt(chosen) {
        Some(t) => Some(t.to_owned()),
        None => None,
    }
}

/// The next step of a turn start after its request was sent.
#[derive(Debug, PartialEq)]
pub enum StartStep {
    /// Accepted: wait for the pre-registered `turn/started` waiter.
    AwaitStarted { target: ActionTarget, response_turn: Option<String> },
    Finish(ActionOutcome),
}

pub fn start_after_send(target: ActionTarget, correlation: u64, sent: Result<JsonValue, RpcFailure>) -> (r: StartStep)
    ensures
        match sent {
            Ok(resp) => r matches StartStep::AwaitStarted { target: t, response_turn: named } && t
                == target && string_view(named) == response_turn(resp@),
            Err(f) => match f {
                RpcFailure::Rejected { error } => r matches StartStep::Finish(o) && rejected_as(
                    o,
                    target,
                    "daemon rejected turn/start"@,
                    Some(error@),
                ),
                _ => if is_ambiguous(f) {
                    r matches StartStep::Finish(ActionOutcome::OutcomeUnknown { target: t, evidence })
                        && t == target && plain_evidence(
                        evidence,
                        correlation,
                        false,
                        "write may have succeeded; reconciliation cannot distinguish a concurrent GUI start"@,
                    )
                } else {
                    r matches StartStep::Finish(o) && plain_rejection(o, target, f)
                },
            },
        },
{
    match sent {
        Ok(response) => {
            let response_turn = response_turn_id(&response);
            StartStep::AwaitStarted { target, response_turn }
        },
        Err(RpcFailure::Rejected { error }) => StartStep::Finish(
            ActionOutcome::Rejected {
                target,
                reason: "daemon rejected turn/start".to_owned(),
                rpc_error: Some(error),
            },
        ),
        Err(RpcFailure::WrittenOutcomeUnknown { .. }) => StartStep::Finish(
            ActionOutcome::OutcomeUnknown {
                target,
                evidence: unknown(
                    correlation,
                    false,
                    "write may have succeeded; reconciliation cannot distinguish a concurrent GUI start",
                ),
            },
        ),
        Err(RpcFailure::TimedOut { .. }) => StartStep::Finish(
            ActionOutcome::OutcomeUnknown {
                target,
                evidence: unknown(
                    correlation,
                    false,
                    "write may have succeeded; reconciliation cannot distinguish a concurrent GUI start",
                ),
            },
        ),
        Err(f) => {
            let reason = failure_text(&f);
            StartStep::Finish(ActionOutcome::Rejected { target, reason, rpc_error: None })
        },
    }
}

/// Classifies an accepted turn start: confirmed with the observed `turn/started`
/// when its turn id is the one the response named; confirmed without observation
/// when the response named a turn id; unknown otherwise.
pub fn start_outcome(
    target: ActionTarget,
    correlation: u64,
    response_turn: Option<String>,
    observed_event: Option<Arc<SequencedEvent>>,
) -> (r: ActionOutcome)
    ensures
        match (response_turn, observed_event) {
            (Some(expected), Some(e)) if string_view(e.turn_id) == Some(expected@) => r matches ActionOutcome::Confirmed {
                target: t,
                evidence,
            } && t == target && observed_evidence(
                evidence,
                correlation,
                true,
                *e,
                "turn/started id matches the id returned by turn/start"@,
            ),
            (Some(_), _) => r matches ActionOutcome::Confirmed { target: t, evidence } && t == target
                && plain_evidence(
                evidence,
                correlation,
                true,
                "daemon returned a unique created turn id; concurrent GUI starts are not attributed"@,
            ),
            (None, _) => r matches ActionOutcome::OutcomeUnknown { target: t, evidence } && t
                == target && plain_evidence(
                evidence,
                correlation,
                true,
                "response lacked a unique turn id"@,
            ),
        },
{
    match (&response_turn, &observed_event) {
        (Some(expected), Some(event)) => {
            let turn = copy_text(&event.turn_id);
            let same = match &turn {
                Some(t) => text_eq(t.as_str(), expected.as_str()),
                None => false,
            };
            if same {
                return ActionOutcome::Confirmed {
                    target,
                    evidence: observed(
                        correlation,
                        true,
                        event,
                        "turn/started id matches the id returned by turn/start",
                    ),
                };
            }
        },
        _ => {},
    }
    if response_turn.is_some() {
        ActionOutcome::Confirmed {
            target,
            evidence: unknown(
                correlation,
                true,
                "daemon returned a unique created turn id; concurrent GUI starts are not attributed",
            ),
        }
    } else {
        ActionOutcome::OutcomeUnknown {
            target,
            evidence: unknown(correlation, true, "response lacked a unique turn id"),
        }
    }
}

/// Classifies an action confirmed by its response alone (such as `turn/steer`):
/// confirmed when accepted, rejected on a daemon error, unknown (and never resent)
/// when the write is ambiguous.
pub fn rpc_response_outcome(
    method: &str,
    target: ActionTarget,
    correlation: u64,
    sent: Result<JsonValue, RpcFailure>,
) -> (r: ActionOutcome)
    ensures
        match sent {
            Ok(_) => r matches ActionOutcome::Confirmed { target: t, evidence } && t == target
                && plain_evidence(
                evidence,
                correlation,
                true,
                "daemon accepted the explicitly targeted request"@,
            ),
            Err(f) => match f {
                RpcFailure::Rejected { error } => rejected_as(
                    r,
                    target,
                    "daemon rejected "@ + method@,
                    Some(error@),
                ),
                _ => if is_ambiguous(f) {
                    r matches ActionOutcome::OutcomeUnknown { target: t, evidence } && t == target
                        && plain_evidence(
                        evidence,
                        correlation,
                        false,
                        "ambiguous steer cannot be uniquely confirmed and was not resent"@,
                    )
                } else {
                    plain_rejection(r, target, f)
                },
            },
        },
{
    match sent {
        Ok(_) => ActionOutcome::Confirmed {
            target,
            evidence: unknown(correlation, true, "daemon accepted the explicitly targeted request"),
        },
        Err(RpcFailure::Rejected { error }) => {
            let reason = "daemon rejected ".to_owned().concat(method);
            ActionOutcome::Rejected { target, reason, rpc_error: Some(error) }
        },
        Err(RpcFailure::WrittenOutcomeUnknown { .. }) => ActionOutcome::OutcomeUnknown {
            target,
            evidence: unknown(
                correlation,
                false,
                "ambiguous steer cannot be uniquely confirmed and was not resent",
            ),
        },
        Err(RpcFailure::TimedOut { .. }) => ActionOutcome::OutcomeUnknown {
            target,
            evidence: unknown(
                correlation,
                false,
                "ambiguous steer cannot be uniquely confirmed and was not resent",
            ),
        },
        Err(f) => {
            let reason = failure_text(&f);
            ActionOutcome::Rejected { target, reason, rpc_error: None }
        },
    }
}

} // verus!
