# codex_control

The verified core of a control layer for the Codex app-server JSON-RPC
connection: it classifies inbound frames, keeps authoritative thread/turn state,
retains a bounded lifecycle replay log and a byte-bounded event store, and
classifies the outcomes of control actions (`turn/interrupt`, `turn/steer`,
`turn/start`) conservatively.

Layout:

- `src/` — the library, verified with Verus.
  - `json.rs` — the JSON value model and its mathematical view.
  - `text.rs` — substring, prefix, suffix and equality on strings.
  - `protocol.rs` — frame classification, receipt-sequenced events.
  - `reducer.rs` — lifecycle reducer, replay log, subscriptions, waiters.
  - `store.rs` — retention by age and bytes, gap accounting, queries.
  - `streaming.rs` — what lifecycle and delta consumers receive.
  - `control.rs` — request parameters, retry and outcome classification.
- `app/` — the runtime shell: `serde_json` conversion, wire encoding, shared
  async state (tokio), broadcast fan-out and the action controller.
- `tests/` — tests of the library.
