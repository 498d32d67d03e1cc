//! JSON-RPC wire envelope for the app-server control connection: frame
//! classification, receipt-sequenced events and the fields read from them.

use vstd::prelude::*;
use crate::json::{
    get_in, get_opt, lemma_view_members, member_lookup, opt_view, string_view, ref_view, str_in, str_opt, str_view, u64_in,
    view_members, Json, JsonNum, JsonNumber, JsonValue,
};
use crate::text::{has_substring, text_contains, text_ends_with, text_eq, text_starts_with};

verus! {

pub type Sequence = u64;

/// A JSON-RPC request id: a non-negative integer or a string.
#[derive(Clone, Debug, PartialEq, Eq, Hash)]
pub enum RpcId {
    Number(u64),
    String(String),
}

/// The notification plane an event is published on.
#[derive(Clone, Copy, Debug, PartialEq, Eq, Structural)]
pub enum Plane {
    Lifecycle,
    Delta,
}

/// The methods the control logic recognises.
#[derive(Clone, Copy, Debug, PartialEq, Eq, Structural)]
pub enum KnownMessage {
    ThreadStarted,
    ThreadStatusChanged,
    TurnStarted,
    TurnCompleted,
    TurnDiffUpdated,
    ItemLifecycle,
    ReviewerRequest,
}

/// One inbound JSON-RPC frame, with the raw message kept whole.
#[derive(Debug, PartialEq)]
pub enum IncomingFrame {
    Response { id: RpcId, result: Option<JsonValue>, error: Option<JsonValue>, raw: JsonValue },
    Notification { method: String, params: JsonValue, known: Option<KnownMessage>, raw: JsonValue },
    ServerRequest {
        id: RpcId,
        method: String,
        params: JsonValue,
        known: Option<KnownMessage>,
        raw: JsonValue,
    },
}

/// Whether `j` decodes as an [`RpcId`] (a non-negative integer or a string).
pub open spec fn is_rpc_id(j: Json) -> bool {
    ||| j matches Json::Number(JsonNum::PosInt(_))
    ||| j is Str
}

/// Whether `id` is what `j` decodes to.
pub open spec fn rpc_id_decodes(id: RpcId, j: Json) -> bool {
    match id {
        RpcId::Number(n) => j == Json::Number(JsonNum::PosInt(n)),
        RpcId::String(s) => j == Json::Str(s@),
    }
}

/// The JSON encoding of an id.
pub open spec fn rpc_id_json(id: RpcId) -> Json {
    match id {
        RpcId::Number(n) => Json::Number(JsonNum::PosInt(n)),
        RpcId::String(s) => Json::Str(s@),
    }
}

/// Decodes a request id the way an untagged number-or-string enum does.
pub fn rpc_id_from_json(v: &JsonValue) -> (r: Option<RpcId>)
    ensures
        r is Some <==> is_rpc_id(v@),
        r matches Some(id) ==> rpc_id_decodes(id, v@),
{
    match v {
        JsonValue::Number(JsonNumber::PosInt(n)) => Some(RpcId::Number(*n)),
        JsonValue::String(s) => Some(RpcId::String(s.clone())),
        _ => None,
    }
}

/// The string member `method` of a raw frame.
pub open spec fn raw_method(raw: Json) -> Option<Seq<char>> {
    str_in(raw.get("method"@))
}

/// The member `params` of a raw frame, or `null`.
pub open spec fn params_or_null(raw: Json) -> Json {
    match raw.get("params"@) {
        Some(p) => p,
        None => Json::Null,
    }
}

/// The error text of a raw frame that cannot be classified; `None` when it can.
pub open spec fn parse_error(raw: Json) -> Option<Seq<char>> {
    match (raw.get("id"@), raw_method(raw)) {
        (Some(i), Some(_)) => if is_rpc_id(i) {
            None
        } else {
            Some("invalid request id"@)
        },
        (None, Some(_)) => None,
        (Some(i), None) => if is_rpc_id(i) {
            None
        } else {
            Some("invalid response id"@)
        },
        (None, None) => Some("frame has neither method nor id"@),
    }
}

/// `f` is the frame that classifying `raw` gives.
pub open spec fn parsed_from(f: IncomingFrame, raw: Json) -> bool {
    match f {
        IncomingFrame::ServerRequest { id, method, params, known, raw: kept } => {
            &&& raw.get("id"@) matches Some(i) && rpc_id_decodes(id, i)
            &&& raw_method(raw) == Some(method@)
            &&& params@ == params_or_null(raw)
            &&& known == classify_spec(method@)
            &&& kept@ == raw
        },
        IncomingFrame::Notification { method, params, known, raw: kept } => {
            &&& raw.get("id"@) is None
            &&& raw_method(raw) == Some(method@)
            &&& params@ == params_or_null(raw)
            &&& known == classify_spec(method@)
            &&& kept@ == raw
        },
        IncomingFrame::Response { id, result, error, raw: kept } => {
            &&& raw.get("id"@) matches Some(i) && rpc_id_decodes(id, i)
            &&& raw_method(raw) is None
            &&& opt_view(result) == raw.get("result"@)
            &&& opt_view(error) == raw.get("error"@)
            &&& kept@ == raw
        },
    }
}

/// The known kind of a method name.
pub open spec fn classify_spec(m: Seq<char>) -> Option<KnownMessage> {
    if m == "thread/started"@ {
        Some(KnownMessage::ThreadStarted)
    } else if m == "thread/status/changed"@ {
        Some(KnownMessage::ThreadStatusChanged)
    } else if m == "turn/started"@ {
        Some(KnownMessage::TurnStarted)
    } else if m == "turn/completed"@ {
        Some(KnownMessage::TurnCompleted)
    } else if m == "turn/diff/updated"@ {
        Some(KnownMessage::TurnDiffUpdated)
    } else if "item/"@.is_prefix_of(m) && !is_delta_method(m) {
        Some(KnownMessage::ItemLifecycle)
    } else if has_substring(m, "approval"@) || has_substring(m, "requestUserInput"@) {
        Some(KnownMessage::ReviewerRequest)
    } else {
        None
    }
}

/// A delta method: its name holds `delta` or `Delta` (such as
/// `item/agentMessage/delta` or `item/reasoning/summaryTextDelta`).
pub open spec fn is_delta_method(m: Seq<char>) -> bool {
    has_substring(m, "delta"@) || has_substring(m, "Delta"@)
}

/// The plane a method is published on.
pub open spec fn plane_spec(m: Seq<char>) -> Plane {
    if is_delta_method(m) || "/updated"@.is_suffix_of(m) || has_substring(m, "output"@) {
        Plane::Delta
    } else {
        Plane::Lifecycle
    }
}

impl IncomingFrame {
    pub open spec fn raw_view(self) -> Json {
        match self {
            IncomingFrame::Response { raw, .. } => raw@,
            IncomingFrame::Notification { raw, .. } => raw@,
            IncomingFrame::ServerRequest { raw, .. } => raw@,
        }
    }

    pub open spec fn method_view(self) -> Option<Seq<char>> {
        match self {
            IncomingFrame::Response { .. } => None,
            IncomingFrame::Notification { method, .. } => Some(method@),
            IncomingFrame::ServerRequest { method, .. } => Some(method@),
        }
    }

    pub open spec fn params_view(self) -> Option<Json> {
        match self {
            IncomingFrame::Response { .. } => None,
            IncomingFrame::Notification { params, .. } => Some(params@),
            IncomingFrame::ServerRequest { params, .. } => Some(params@),
        }
    }

    /// Classifies a raw JSON-RPC message: a method with an id is a server request,
    /// a method alone a notification, an id alone a response.
    pub fn parse(raw: JsonValue) -> (r: Result<Self, &'static str>)
        ensures
            r is Ok <==> parse_error(raw@) is None,
            match r {
                Ok(f) => parsed_from(f, raw@),
                Err(e) => parse_error(raw@) == Some(e@),
            },
    {
        let id_field: Option<Option<RpcId>> = match raw.get("id") {
            Some(v) => Some(rpc_id_from_json(v)),
            None => None,
        };
        let method: Option<String> = match str_opt(raw.get("method")) {
            Some(m) => Some(m.to_owned()),
            None => None,
        };
        let params = match raw.get("params") {
            Some(p) => p.deep_copy(),
            None => JsonValue::Null,
        };
        let result = match raw.get("result") {
            Some(p) => Some(p.deep_copy()),
            None => None,
        };
        let error = match raw.get("error") {
            Some(p) => Some(p.deep_copy()),
            None => None,
        };
        match (id_field, method) {
            (Some(Some(id)), Some(method)) => {
                let known = classify(method.as_str());
                Ok(IncomingFrame::ServerRequest { id, method, params, known, raw })
            },
            (Some(None), Some(_)) => Err("invalid request id"),
            (None, Some(method)) => {
                let known = classify(method.as_str());
                Ok(IncomingFrame::Notification { method, params, known, raw })
            },
            (Some(Some(id)), None) => Ok(IncomingFrame::Response { id, result, error, raw }),
            (Some(None), None) => Err("invalid response id"),
            (None, None) => Err("frame has neither method nor id"),
        }
    }

    pub fn raw(&self) -> (r: &JsonValue)
        ensures
            r@ == self.raw_view(),
    {
        match self {
            IncomingFrame::Response { raw, .. } => raw,
            IncomingFrame::Notification { raw, .. } => raw,
            IncomingFrame::ServerRequest { raw, .. } => raw,
        }
    }

    pub fn method(&self) -> (r: Option<&str>)
        ensures
            str_view(r) == self.method_view(),
    {
        match self {
            IncomingFrame::Notification { method, .. } => Some(method.as_str()),
            IncomingFrame::ServerRequest { method, .. } => Some(method.as_str()),
            IncomingFrame::Response { .. } => None,
        }
    }

    pub fn params(&self) -> (r: Option<&JsonValue>)
        ensures
            ref_view(r) == self.params_view(),
    {
        match self {
            IncomingFrame::Notification { params, .. } => Some(params),
            IncomingFrame::ServerRequest { params, .. } => Some(params),
            IncomingFrame::Response { .. } => None,
        }
    }

    pub fn is_server_request(&self) -> (r: bool)
        ensures
            r == (self is ServerRequest),
    {
        match self {
            IncomingFrame::ServerRequest { .. } => true,
            _ => false,
        }
    }
}

/// The known kind of a method name.
pub fn classify(method: &str) -> (r: Option<KnownMessage>)
    ensures
        r == classify_spec(method@),
{
    if text_eq(method, "thread/started") {
        Some(KnownMessage::ThreadStarted)
    } else if text_eq(method, "thread/status/changed") {
        Some(KnownMessage::ThreadStatusChanged)
    } else if text_eq(method, "turn/started") {
        Some(KnownMessage::TurnStarted)
    } else if text_eq(method, "turn/completed") {
        Some(KnownMessage::TurnCompleted)
    } else if text_eq(method, "turn/diff/updated") {
        Some(KnownMessage::TurnDiffUpdated)
    } else if text_starts_with(method, "item/") && !is_delta_text(method) {
        Some(KnownMessage::ItemLifecycle)
    } else if text_contains(method, "approval") || text_contains(method, "requestUserInput") {
        Some(KnownMessage::ReviewerRequest)
    } else {
        None
    }
}

/// Whether a method name holds `delta` or `Delta`.
pub fn is_delta_text(method: &str) -> (r: bool)
    ensures
        r == is_delta_method(method@),
{
    text_contains(method, "delta") || text_contains(method, "Delta")
}

/// Deltas, `*/updated` and output methods go on the delta plane; the rest are lifecycle.
pub fn plane_for_method(method: &str) -> (r: Plane)
    ensures
        r == plane_spec(method@),
{
    if is_delta_text(method) || text_ends_with(method, "/updated") || text_contains(
        method,
        "output",
    ) {
        Plane::Delta
    } else {
        Plane::Lifecycle
    }
}

/// `threadId`, else `thread.id`, else `turn.threadId`, each as a string.
pub open spec fn thread_id_in(v: Json) -> Option<Seq<char>> {
    match str_in(v.get("threadId"@)) {
        Some(t) => Some(t),
        None => match str_in(get_in(v.get("thread"@), "id"@)) {
            Some(t) => Some(t),
            None => str_in(get_in(v.get("turn"@), "threadId"@)),
        },
    }
}

/// `turnId`, else `turn.id`, each as a string.
pub open spec fn turn_id_in(v: Json) -> Option<Seq<char>> {
    match str_in(v.get("turnId"@)) {
        Some(t) => Some(t),
        None => str_in(get_in(v.get("turn"@), "id"@)),
    }
}

/// The member `emittedAtMs` (or, when absent, `emitted_at_ms`) as a `u64`.
pub open spec fn emitted_at_in(v: Json) -> Option<u64> {
    match v.get("emittedAtMs"@) {
        Some(x) => x.as_u64(),
        None => u64_in(v.get("emitted_at_ms"@)),
    }
}

pub fn extract_thread_id(value: &JsonValue) -> (r: Option<&str>)
    ensures
        str_view(r) == thread_id_in(value@),
{
    match str_opt(value.get("threadId")) {
        Some(t) => Some(t),
        None => match str_opt(get_opt(value.get("thread"), "id")) {
            Some(t) => Some(t),
            None => str_opt(get_opt(value.get("turn"), "threadId")),
        },
    }
}

pub fn extract_turn_id(value: &JsonValue) -> (r: Option<&str>)
    ensures
        str_view(r) == turn_id_in(value@),
{
    match str_opt(value.get("turnId")) {
        Some(t) => Some(t),
        None => str_opt(get_opt(value.get("turn"), "id")),
    }
}

pub fn extract_emitted_at_ms(value: &JsonValue) -> (r: Option<u64>)
    ensures
        r == emitted_at_in(value@),
{
    match value.get("emittedAtMs") {
        Some(x) => x.as_u64(),
        None => match value.get("emitted_at_ms") {
            Some(x) => x.as_u64(),
            None => None,
        },
    }
}

fn rpc_id_to_json(id: RpcId) -> (r: JsonValue)
    ensures
        r@ == rpc_id_json(id),
{
    match id {
        RpcId::Number(n) => JsonValue::Number(JsonNumber::PosInt(n)),
        RpcId::String(s) => JsonValue::String(s),
    }
}

/// The JSON text `"2.0"`.
pub open spec fn version_json() -> Json {
    Json::Str("2.0"@)
}

/// A JSON-RPC request: `{"id", "jsonrpc": "2.0", "method", "params"}`.
pub fn request(id: RpcId, method: &str, params: JsonValue) -> (r: JsonValue)
    ensures
        r@ == Json::Object(
            seq![
                ("id"@, rpc_id_json(id)),
                ("jsonrpc"@, version_json()),
                ("method"@, Json::Str(method@)),
                ("params"@, params@),
            ],
        ),
{
    let ghost id_view = rpc_id_json(id);
    let mut members: Vec<(String, JsonValue)> = Vec::new();
    members.push(("id".to_owned(), rpc_id_to_json(id)));
    members.push(("jsonrpc".to_owned(), JsonValue::text("2.0")));
    members.push(("method".to_owned(), JsonValue::text(method)));
    members.push(("params".to_owned(), params));
    let r = JsonValue::Object(members);
    proof {
        lemma_view_members(members@);
        assert(view_members(members@) =~= seq![
            ("id"@, id_view),
            ("jsonrpc"@, version_json()),
            ("method"@, Json::Str(method@)),
            ("params"@, params@),
        ]);
    }
    r
}

/// A JSON-RPC notification: `{"jsonrpc": "2.0", "method", "params"}`.
pub fn notification(method: &str, params: JsonValue) -> (r: JsonValue)
    ensures
        r@ == Json::Object(
            seq![
                ("jsonrpc"@, version_json()),
                ("method"@, Json::Str(method@)),
                ("params"@, params@),
            ],
        ),
{
    let mut members: Vec<(String, JsonValue)> = Vec::new();
    members.push(("jsonrpc".to_owned(), JsonValue::text("2.0")));
    members.push(("method".to_owned(), JsonValue::text(method)));
    members.push(("params".to_owned(), params));
    let r = JsonValue::Object(members);
    proof {
        lemma_view_members(members@);
        assert(view_members(members@) =~= seq![
            ("jsonrpc"@, version_json()),
            ("method"@, Json::Str(method@)),
            ("params"@, params@),
        ]);
    }
    r
}

/// One inbound frame stamped at receipt.
#[derive(Debug, PartialEq)]
pub struct SequencedEvent {
    pub sequence: Sequence,
    pub unix_receipt_ms: u64,
    pub monotonic_ms: u64,
    pub emitted_at_ms: Option<u64>,
    pub plane: Plane,
    pub thread_id: Option<String>,
    pub turn_id: Option<String>,
    pub frame: IncomingFrame,
    /// True when the event was rebuilt locally (an anchor for a turn whose wire
    /// `turn/started` was never received) rather than delivered on the wire.
    pub reconstructed: bool,
}

/// `m`, or the empty text.
pub open spec fn or_empty(m: Option<Seq<char>>) -> Seq<char> {
    match m {
        Some(t) => t,
        None => Seq::empty(),
    }
}

/// The thread id carried in a frame's params.
pub open spec fn frame_thread_id(frame: IncomingFrame) -> Option<Seq<char>> {
    match frame.params_view() {
        Some(p) => thread_id_in(p),
        None => None,
    }
}

/// The turn id carried in a frame's params.
pub open spec fn frame_turn_id(frame: IncomingFrame) -> Option<Seq<char>> {
    match frame.params_view() {
        Some(p) => turn_id_in(p),
        None => None,
    }
}

/// The daemon emission time carried in a frame's params.
pub open spec fn frame_emitted_at(frame: IncomingFrame) -> Option<u64> {
    match frame.params_view() {
        Some(p) => emitted_at_in(p),
        None => None,
    }
}

/// `e` is the wire event for `frame` received at `sequence` and monotonic time
/// `monotonic_ms` (its Unix receipt time aside).
pub open spec fn received_as(
    e: SequencedEvent,
    sequence: Sequence,
    monotonic_ms: u64,
    frame: IncomingFrame,
) -> bool {
    &&& e.sequence == sequence
    &&& e.monotonic_ms == monotonic_ms
    &&& e.emitted_at_ms == frame_emitted_at(frame)
    &&& e.plane == plane_spec(or_empty(frame.method_view()))
    &&& string_view(e.thread_id) == frame_thread_id(frame)
    &&& string_view(e.turn_id) == frame_turn_id(frame)
    &&& e.frame == frame
    &&& !e.reconstructed
}

/// The params of a reconstructed turn anchor.
pub open spec fn anchor_params(thread_id: Seq<char>, turn_id: Seq<char>) -> Json {
    Json::Object(
        seq![
            ("threadId"@, Json::Str(thread_id)),
            ("turn"@, Json::Object(seq![("id"@, Json::Str(turn_id))])),
        ],
    )
}

/// The raw message of a reconstructed turn anchor.
pub open spec fn anchor_raw(thread_id: Seq<char>, turn_id: Seq<char>) -> Json {
    Json::Object(
        seq![
            ("jsonrpc"@, version_json()),
            ("method"@, Json::Str("turn/started"@)),
            ("params"@, anchor_params(thread_id, turn_id)),
        ],
    )
}

/// The Unix time in milliseconds, read from `std::time::SystemTime::now`
/// (0 before the epoch). Nothing is stated of it: it is the wall clock.
#[verifier::external_body]
fn unix_time_ms() -> u64 {
    std::time::SystemTime::now().duration_since(std::time::UNIX_EPOCH).unwrap_or_default().as_millis() as u64
}

fn anchor_params_value(thread_id: &str, turn_id: &str) -> (r: JsonValue)
    ensures
        r@ == anchor_params(thread_id@, turn_id@),
{
    let mut turn: Vec<(String, JsonValue)> = Vec::new();
    turn.push(("id".to_owned(), JsonValue::text(turn_id)));
    let turn_value = JsonValue::Object(turn);
    proof {
        lemma_view_members(turn@);
        assert(view_members(turn@) =~= seq![("id"@, Json::Str(turn_id@))]);
    }
    let ghost turn_view = turn_value@;
    let mut members: Vec<(String, JsonValue)> = Vec::new();
    members.push(("threadId".to_owned(), JsonValue::text(thread_id)));
    members.push(("turn".to_owned(), turn_value));
    proof {
        lemma_view_members(members@);
        assert(view_members(members@) =~= seq![
            ("threadId"@, Json::Str(thread_id@)),
            ("turn"@, turn_view),
        ]);
    }
    JsonValue::Object(members)
}

impl SequencedEvent {
    /// Stamps `frame` with its receipt sequence, monotonic time and the given Unix
    /// receipt time, and reads its plane, thread, turn and emission time.
    pub fn from_frame_at(
        sequence: Sequence,
        monotonic_ms: u64,
        unix_receipt_ms: u64,
        frame: IncomingFrame,
    ) -> (r: Self)
        ensures
            received_as(r, sequence, monotonic_ms, frame),
            r.unix_receipt_ms == unix_receipt_ms,
    {
        let params = frame.params();
        let method = match frame.method() {
            Some(m) => m,
            None => "",
        };
        let emitted_at_ms = match params {
            Some(p) => extract_emitted_at_ms(p),
            None => None,
        };
        let plane = plane_for_method(method);
        let thread_id = match params {
            Some(p) => match extract_thread_id(p) {
                Some(t) => Some(t.to_owned()),
                None => None,
            },
            None => None,
        };
        let turn_id = match params {
            Some(p) => match extract_turn_id(p) {
                Some(t) => Some(t.to_owned()),
                None => None,
            },
            None => None,
        };
        proof {
            assert(""@ =~= Seq::<char>::empty()) by {
                reveal_strlit("");
            }
        }
        SequencedEvent {
            sequence,
            unix_receipt_ms,
            monotonic_ms,
            emitted_at_ms,
            plane,
            thread_id,
            turn_id,
            frame,
            reconstructed: false,
        }
    }

    /// Stamps `frame` at receipt, reading the Unix receipt time from the wall clock.
    pub fn from_frame(sequence: Sequence, monotonic_ms: u64, frame: IncomingFrame) -> (r: Self)
        ensures
            received_as(r, sequence, monotonic_ms, frame),
    {
        let now = unix_time_ms();
        Self::from_frame_at(sequence, monotonic_ms, now, frame)
    }

    /// A reconstructed lifecycle anchor for a turn seen active at subscribe time,
    /// with the given receipt times: the `turn/started` notification for the turn,
    /// marked reconstructed and carrying no daemon emission time.
    pub fn reconstructed_active_turn_at(
        sequence: Sequence,
        monotonic_ms: u64,
        unix_receipt_ms: u64,
        thread_id: &str,
        turn_id: &str,
    ) -> (r: Self)
        ensures
            r.sequence == sequence,
            r.unix_receipt_ms == unix_receipt_ms,
            r.monotonic_ms == monotonic_ms,
            r.emitted_at_ms is None,
            r.plane == Plane::Lifecycle,
            string_view(r.thread_id) == Some(thread_id@),
            string_view(r.turn_id) == Some(turn_id@),
            r.reconstructed,
            r.frame.method_view() == Some("turn/started"@),
            parsed_from(r.frame, anchor_raw(thread_id@, turn_id@)),
    {
        let params = anchor_params_value(thread_id, turn_id);
        let params_copy = params.deep_copy();
        let mut members: Vec<(String, JsonValue)> = Vec::new();
        members.push(("jsonrpc".to_owned(), JsonValue::text("2.0")));
        members.push(("method".to_owned(), JsonValue::text("turn/started")));
        members.push(("params".to_owned(), params_copy));
        proof {
            lemma_view_members(members@);
            assert(view_members(members@) =~= seq![
                ("jsonrpc"@, version_json()),
                ("method"@, Json::Str("turn/started"@)),
                ("params"@, anchor_params(thread_id@, turn_id@)),
            ]);
        }
        let raw = JsonValue::Object(members);
        assert(raw@ == anchor_raw(thread_id@, turn_id@));
        let frame = IncomingFrame::Notification {
            method: "turn/started".to_owned(),
            params,
            known: Some(KnownMessage::TurnStarted),
            raw,
        };
        proof {
            reveal_strlit("id");
            reveal_strlit("jsonrpc");
            reveal_strlit("method");
            reveal_strlit("params");
            reveal_strlit("turn/started");
            reveal_strlit("thread/started");
            reveal_strlit("thread/status/changed");
            let m = anchor_raw(thread_id@, turn_id@);
            assert("id"@.len() == 2);
            assert("jsonrpc"@.len() == 7);
            assert("method"@.len() == 6);
            if let Json::Object(ms) = m {
                assert(ms[0].0 != "id"@);
                assert(ms[1].0 != "id"@);
                assert(ms[2].0 != "id"@);
                assert(ms[0].0 != "method"@);
                assert(ms[0].0 != "params"@);
                assert("method"@[0] != "params"@[0]);
                assert(ms[1].0 != "params"@);
                assert(member_lookup(ms, "id"@, 3) is None);
                assert(member_lookup(ms, "id"@, 2) is None);
                assert(member_lookup(ms, "id"@, 1) is None);
                assert(member_lookup(ms, "id"@, 0) is None);
                assert(member_lookup(ms, "method"@, 1) == Some(Json::Str("turn/started"@)));
                assert(member_lookup(ms, "method"@, 0) == Some(Json::Str("turn/started"@)));
                assert(member_lookup(ms, "params"@, 2) == Some(anchor_params(thread_id@, turn_id@)));
                assert(member_lookup(ms, "params"@, 1) == Some(anchor_params(thread_id@, turn_id@)));
                assert(member_lookup(ms, "params"@, 0) == Some(anchor_params(thread_id@, turn_id@)));
            }
            assert("turn/started"@[1] != "thread/started"@[1]);
            assert("turn/started"@.len() != "thread/status/changed"@.len());
            assert(classify_spec("turn/started"@) == Some(KnownMessage::TurnStarted));
            assert(raw_method(m) == Some("turn/started"@));
            assert(params_or_null(m) == anchor_params(thread_id@, turn_id@));
            assert(m.get("id"@) is None);
        }
        SequencedEvent {
            sequence,
            unix_receipt_ms,
            monotonic_ms,
            emitted_at_ms: None,
            plane: Plane::Lifecycle,
            thread_id: Some(thread_id.to_owned()),
            turn_id: Some(turn_id.to_owned()),
            frame,
            reconstructed: true,
        }
    }

    /// The reconstructed anchor stamped with the wall clock's Unix time.
    pub fn reconstructed_active_turn(
        sequence: Sequence,
        monotonic_ms: u64,
        thread_id: &str,
        turn_id: &str,
    ) -> (r: Self)
        ensures
            r.sequence == sequence,
            r.monotonic_ms == monotonic_ms,
            r.emitted_at_ms is None,
            r.plane == Plane::Lifecycle,
            string_view(r.thread_id) == Some(thread_id@),
            string_view(r.turn_id) == Some(turn_id@),
            r.reconstructed,
            r.frame.method_view() == Some("turn/started"@),
            parsed_from(r.frame, anchor_raw(thread_id@, turn_id@)),
    {
        let now = unix_time_ms();
        Self::reconstructed_active_turn_at(sequence, monotonic_ms, now, thread_id, turn_id)
    }

    pub fn method(&self) -> (r: Option<&str>)
        ensures
            str_view(r) == self.frame.method_view(),
    {
        self.frame.method()
    }
}

/// Unknown methods never make a frame fail: a message with a string method and no
/// id parses as a notification, and with a number-or-string id as a server request,
/// each keeping the raw message whole.
pub proof fn law_method_frames_parse(raw: Json)
    requires
        raw_method(raw) is Some,
        match raw.get("id"@) {
            Some(i) => is_rpc_id(i),
            None => true,
        },
    ensures
        parse_error(raw) is None,
{
}

/// Routing of methods to planes: a method is published on the delta plane exactly
/// when its name ends in `/updated` or contains `delta`, `Delta` or `output`;
/// every other method is published on the lifecycle plane.
pub proof fn law_plane_routing(m: Seq<char>)
    ensures
        "/updated"@.is_suffix_of(m) ==> plane_spec(m) == Plane::Delta,
        (exists|i: int| 0 <= i && i + 5 <= m.len() && #[trigger] m.subrange(i, i + 5) == "delta"@)
            ==> plane_spec(m) == Plane::Delta,
        (exists|i: int| 0 <= i && i + 5 <= m.len() && #[trigger] m.subrange(i, i + 5) == "Delta"@)
            ==> plane_spec(m) == Plane::Delta,
        (exists|i: int| 0 <= i && i + 6 <= m.len() && #[trigger] m.subrange(i, i + 6) == "output"@)
            ==> plane_spec(m) == Plane::Delta,
        !"/updated"@.is_suffix_of(m) && (forall|i: int|
            0 <= i && i + 5 <= m.len() ==> #[trigger] m.subrange(i, i + 5) != "delta"@ && m.subrange(
                i,
                i + 5,
            ) != "Delta"@) && (forall|i: int|
            0 <= i && i + 6 <= m.len() ==> #[trigger] m.subrange(i, i + 6) != "output"@)
            ==> plane_spec(m) == Plane::Lifecycle,
{
    reveal_strlit("delta");
    reveal_strlit("Delta");
    reveal_strlit("output");
    assert("delta"@.len() == 5 && "Delta"@.len() == 5 && "output"@.len() == 6);
    if exists|i: int| 0 <= i && i + 5 <= m.len() && #[trigger] m.subrange(i, i + 5) == "delta"@ {
        let i = choose|i: int| 0 <= i && i + 5 <= m.len() && #[trigger] m.subrange(i, i + 5) == "delta"@;
        assert(m.subrange(i, i + "delta"@.len()) == "delta"@);
    }
    if exists|i: int| 0 <= i && i + 5 <= m.len() && #[trigger] m.subrange(i, i + 5) == "Delta"@ {
        let i = choose|i: int| 0 <= i && i + 5 <= m.len() && #[trigger] m.subrange(i, i + 5) == "Delta"@;
        assert(m.subrange(i, i + "Delta"@.len()) == "Delta"@);
    }
}

/// Classification of method names: the five known lifecycle methods by name;
/// any other `item/` method that is not a delta (its name holds neither `delta`
/// nor `Delta`) is an item lifecycle message; a delta is never one; any other
/// method naming an approval or a user-input request is `ReviewerRequest`;
/// everything else is unknown.
pub proof fn law_classify_methods(m: Seq<char>)
    ensures
        classify_spec("thread/started"@) == Some(KnownMessage::ThreadStarted),
        classify_spec("thread/status/changed"@) == Some(KnownMessage::ThreadStatusChanged),
        classify_spec("turn/started"@) == Some(KnownMessage::TurnStarted),
        classify_spec("turn/completed"@) == Some(KnownMessage::TurnCompleted),
        classify_spec("turn/diff/updated"@) == Some(KnownMessage::TurnDiffUpdated),
        (exists|i: int| 0 <= i && i + 5 <= m.len() && (#[trigger] m.subrange(i, i + 5) == "delta"@
            || m.subrange(i, i + 5) == "Delta"@)) ==> classify_spec(m) != Some(
            KnownMessage::ItemLifecycle,
        ),
        "item/"@.is_prefix_of(m) && (forall|i: int|
            0 <= i && i + 5 <= m.len() ==> #[trigger] m.subrange(i, i + 5) != "delta"@ && m.subrange(
                i,
                i + 5,
            ) != "Delta"@) ==> classify_spec(m) == Some(KnownMessage::ItemLifecycle),
        !"item/"@.is_prefix_of(m) && m != "thread/started"@ && m != "thread/status/changed"@ && m
            != "turn/started"@ && m != "turn/completed"@ && m != "turn/diff/updated"@ && (exists|i: int|
            0 <= i && i + 8 <= m.len() && #[trigger] m.subrange(i, i + 8) == "approval"@)
            ==> classify_spec(m) == Some(KnownMessage::ReviewerRequest),
        !"item/"@.is_prefix_of(m) && m != "thread/started"@ && m != "thread/status/changed"@ && m
            != "turn/started"@ && m != "turn/completed"@ && m != "turn/diff/updated"@ && !has_substring(
            m,
            "approval"@,
        ) && !has_substring(m, "requestUserInput"@) ==> classify_spec(m) is None,
{
    reveal_strlit("delta");
    reveal_strlit("Delta");
    reveal_strlit("approval");
    reveal_strlit("item/");
    reveal_strlit("thread/started");
    reveal_strlit("thread/status/changed");
    reveal_strlit("turn/started");
    reveal_strlit("turn/completed");
    reveal_strlit("turn/diff/updated");
    assert("turn/completed"@[1] != "thread/started"@[1]);
    assert(!"item/"@.is_prefix_of("thread/started"@)) by {
        assert("item/"@[0] != "thread/started"@[0]);
    }
    assert(!"item/"@.is_prefix_of("thread/status/changed"@)) by {
        assert("item/"@[0] != "thread/status/changed"@[0]);
    }
    assert(!"item/"@.is_prefix_of("turn/started"@)) by {
        assert("item/"@[0] != "turn/started"@[0]);
    }
    assert(!"item/"@.is_prefix_of("turn/completed"@)) by {
        assert("item/"@[0] != "turn/completed"@[0]);
    }
    assert(!"item/"@.is_prefix_of("turn/diff/updated"@)) by {
        assert("item/"@[0] != "turn/diff/updated"@[0]);
    }
    if exists|i: int| 0 <= i && i + 5 <= m.len() && (#[trigger] m.subrange(i, i + 5) == "delta"@
        || m.subrange(i, i + 5) == "Delta"@) {
        let i = choose|i: int| 0 <= i && i + 5 <= m.len() && (#[trigger] m.subrange(i, i + 5) == "delta"@
            || m.subrange(i, i + 5) == "Delta"@);
        assert(m.subrange(i, i + "delta"@.len()) == "delta"@ || m.subrange(i, i + "Delta"@.len())
            == "Delta"@);
        assert(is_delta_method(m));
        assert(!"item/"@.is_prefix_of("turn/started"@)) by {
            assert("item/"@[0] != "turn/started"@[0]);
        }
    }
    if exists|i: int| 0 <= i && i + 8 <= m.len() && #[trigger] m.subrange(i, i + 8) == "approval"@ {
        let i = choose|i: int| 0 <= i && i + 8 <= m.len() && #[trigger] m.subrange(i, i + 8) == "approval"@;
        assert(m.subrange(i, i + "approval"@.len()) == "approval"@);
    }
}

/// Where a frame's thread and turn ids are read: `threadId` when it is a string,
/// else `thread.id`, else `turn.threadId`; `turnId` when it is a string, else
/// `turn.id`. A value that is not a string never counts.
pub proof fn law_id_extraction(v: Json)
    ensures
        str_in(v.get("threadId"@)) is Some ==> thread_id_in(v) == str_in(v.get("threadId"@)),
        str_in(v.get("threadId"@)) is None ==> thread_id_in(v) == (match v.get("thread"@) {
            Some(th) if str_in(th.get("id"@)) is Some => str_in(th.get("id"@)),
            _ => match v.get("turn"@) {
                Some(tu) => str_in(tu.get("threadId"@)),
                None => None,
            },
        }),
        str_in(v.get("turnId"@)) is Some ==> turn_id_in(v) == str_in(v.get("turnId"@)),
        str_in(v.get("turnId"@)) is None ==> turn_id_in(v) == (match v.get("turn"@) {
            Some(tu) => str_in(tu.get("id"@)),
            None => None,
        }),
        thread_id_in(v) is Some ==> str_in(v.get("threadId"@)) == thread_id_in(v) || str_in(
            get_in(v.get("thread"@), "id"@),
        ) == thread_id_in(v) || str_in(get_in(v.get("turn"@), "threadId"@)) == thread_id_in(v),
{
}

/// The shape of a classified frame: a string `method` with an `id` is a server
/// request, a string `method` alone a notification, an `id` alone a response; the
/// frame keeps the raw message, its method and its params (`null` when absent).
pub proof fn law_frame_shape(raw: Json, f: IncomingFrame)
    requires
        parsed_from(f, raw),
    ensures
        f.raw_view() == raw,
        f is ServerRequest <==> raw.get("id"@) is Some && str_in(raw.get("method"@)) is Some,
        f is Notification <==> raw.get("id"@) is None && str_in(raw.get("method"@)) is Some,
        f is Response <==> raw.get("id"@) is Some && str_in(raw.get("method"@)) is None,
        f.method_view() == str_in(raw.get("method"@)),
        f.method_view() is Some ==> f.params_view() == Some(
            if raw.get("params"@) is Some {
                raw.get("params"@)->0
            } else {
                Json::Null
            },
        ),
{
}

/// Which raw messages cannot be classified: those with neither a string `method`
/// nor an `id`, and those whose `id` is neither a non-negative integer nor a
/// string. Every other message is classified.
pub proof fn law_parse_rejects(raw: Json)
    ensures
        parse_error(raw) is None <==> (str_in(raw.get("method"@)) is Some || raw.get("id"@) is Some)
            && (raw.get("id"@) is Some ==> raw.get("id"@)->0 is Str || exists|n: u64|
            raw.get("id"@)->0 == Json::Number(JsonNum::PosInt(n))),
{
    match raw.get("id"@) {
        Some(Json::Number(JsonNum::PosInt(n))) => {
            assert(raw.get("id"@)->0 == Json::Number(JsonNum::PosInt(n)));
        },
        _ => {},
    }
}

/// The daemon emission time is read from `emittedAtMs` when that member is present
/// (and is then the member's value only when it is a non-negative integer), else
/// from `emitted_at_ms`.
pub proof fn law_emitted_at_extraction(v: Json)
    ensures
        v.get("emittedAtMs"@) is Some ==> emitted_at_in(v) == v.get("emittedAtMs"@)->0.as_u64(),
        v.get("emittedAtMs"@) is None ==> emitted_at_in(v) == (match v.get("emitted_at_ms"@) {
            Some(x) => x.as_u64(),
            None => None,
        }),
        emitted_at_in(v) is Some ==> exists|k: Seq<char>|
            (k == "emittedAtMs"@ || k == "emitted_at_ms"@) && v.get(k) is Some && #[trigger] v.get(
                k,
            )->0.as_u64() == emitted_at_in(v),
{
    if emitted_at_in(v) is Some {
        if v.get("emittedAtMs"@) is Some {
            assert(v.get("emittedAtMs"@)->0.as_u64() == emitted_at_in(v));
        } else {
            assert(v.get("emitted_at_ms"@)->0.as_u64() == emitted_at_in(v));
        }
    }
}

} // verus!
