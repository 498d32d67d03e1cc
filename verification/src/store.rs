//! Bounded in-memory event store: retention by age and by bytes (per thread and
//! global, deltas first), with gap accounting and sequence/time queries.

use vstd::prelude::*;
use std::collections::VecDeque;
use std::sync::Arc;
use crate::json::string_view;
use crate::protocol::{Plane, Sequence, SequencedEvent};
use crate::reducer::{copy_text, same_text};
use crate::text::text_eq;
use vstd::pervasive::VecAdditionalExecFns;

verus! {

const MIB: usize = 1024 * 1024;

/// Retention limits. Times are in milliseconds.
#[derive(Clone, Copy, Debug)]
pub struct StoreConfig {
    pub retention_ms: u64,
    pub per_thread_bytes: usize,
    pub global_bytes: usize,
    pub emitted_at_tolerance_ms: u64,
}

impl Default for StoreConfig {
    /// Ten minutes of retention, 8 MiB per thread, 64 MiB in all, and a two-second
    /// tolerance on daemon emission times.
    fn default() -> (r: Self)
        ensures
            r.retention_ms == 600_000,
            r.per_thread_bytes == 8 * 1024 * 1024,
            r.global_bytes == 64 * 1024 * 1024,
            r.emitted_at_tolerance_ms == 2000,
    {
        StoreConfig {
            retention_ms: 10 * 60 * 1000,
            per_thread_bytes: 8 * MIB,
            global_bytes: 64 * MIB,
            emitted_at_tolerance_ms: 2000,
        }
    }
}

/// What was evicted for one thread (or for events without a thread): the span of
/// receipt sequences and of event times (emission, else receipt) it covered, and
/// how many deltas and lifecycle events it summarizes.
#[derive(Clone, Copy, Debug, PartialEq, Eq, Structural)]
pub struct RetentionGap {
    pub before_sequence: Option<Sequence>,
    pub from_sequence: Option<Sequence>,
    pub from_unix_ms: Option<u64>,
    pub through_unix_ms: Option<u64>,
    pub summarized_delta_events: u64,
    pub evicted_lifecycle_events: u64,
}

/// The events a query selected and the gap recorded for the queried thread.
#[derive(Debug)]
pub struct QueryResult {
    pub events: Vec<Arc<SequencedEvent>>,
    pub gap: Option<RetentionGap>,
}

/// A retained event with its encoded size in bytes.
#[derive(Debug)]
pub struct StoredEvent {
    pub event: Arc<SequencedEvent>,
    pub encoded_len: usize,
}

/// `std::time::Instant`, held to measure the store's monotonic clock.
#[verifier::external_type_specification]
#[verifier::external_body]
pub struct ExInstant(std::time::Instant);

/// `std::time::Instant::now`. Nothing is stated of it: it is the clock.
#[verifier::external_body]
fn instant_now() -> std::time::Instant {
    std::time::Instant::now()
}

/// `std::time::Instant::elapsed`, in whole milliseconds. Nothing is stated of it:
/// it is the clock.
#[verifier::external_body]
fn elapsed_ms(start: &std::time::Instant) -> u64 {
    start.elapsed().as_millis() as u64
}

/// The store's state.
pub struct StoreView {
    pub config: StoreConfig,
    pub events: Seq<StoredEvent>,
    pub bytes: usize,
    pub thread_bytes: Seq<(String, usize)>,
    pub gaps: Seq<(Option<String>, RetentionGap)>,
}

/// The sum of the sizes of `es`.
pub open spec fn total_size(es: Seq<StoredEvent>) -> nat
    decreases es.len(),
{
    if es.len() == 0 {
        0
    } else {
        total_size(es.drop_last()) + es.last().encoded_len as nat
    }
}

/// The thread id of a retained event.
pub open spec fn ev_tid(ev: StoredEvent) -> Option<String> {
    ev.event.thread_id
}

/// The thread of a retained event.
pub open spec fn event_thread(ev: StoredEvent) -> Option<Seq<char>> {
    string_view(ev.event.thread_id)
}

/// The size an event counts for thread `t`.
pub open spec fn size_for(ev: StoredEvent, t: Seq<char>) -> nat {
    if string_view(ev.event.thread_id) == Some(t) {
        ev.encoded_len as nat
    } else {
        0
    }
}

/// The sum of the sizes of the events of thread `t` in `es`.
pub open spec fn thread_size(es: Seq<StoredEvent>, t: Seq<char>) -> nat
    decreases es.len(),
{
    if es.len() == 0 {
        0
    } else {
        thread_size(es.drop_last(), t) + size_for(es.last(), t)
    }
}

/// `e` belongs to thread `t` (any thread when `t` is `None`).
pub open spec fn thread_matches(e: SequencedEvent, t: Option<Seq<char>>) -> bool {
    t is None || string_view(e.thread_id) == t
}

/// `after < sequence <= through` (no upper bound when `through` is `None`).
pub open spec fn in_sequence_range(e: SequencedEvent, after: u64, through: Option<u64>) -> bool {
    e.sequence > after && match through {
        Some(end) => e.sequence <= end,
        None => true,
    }
}

/// The retained events of thread `t` in the sequence range, oldest first.
pub open spec fn by_sequence(
    es: Seq<StoredEvent>,
    t: Option<Seq<char>>,
    after: u64,
    through: Option<u64>,
) -> Seq<Arc<SequencedEvent>>
    decreases es.len(),
{
    if es.len() == 0 {
        Seq::empty()
    } else {
        let rest = by_sequence(es.drop_last(), t, after, through);
        let e = es.last().event;
        if in_sequence_range(*e, after, through) && thread_matches(*e, t) {
            rest.push(e)
        } else {
            rest
        }
    }
}

/// The daemon emission time when known, else the Unix receipt time.
pub open spec fn event_time(e: SequencedEvent) -> u64 {
    match e.emitted_at_ms {
        Some(t) => t,
        None => e.unix_receipt_ms,
    }
}

/// The event time lies in `[start - tol, end + tol]` (saturating at the ends).
pub open spec fn in_time_range(e: SequencedEvent, start: u64, end: u64, tol: u64) -> bool {
    event_time(e).saturating_add(tol) >= start && event_time(e) <= end.saturating_add(tol)
}

/// The retained events of thread `t` in the time range, oldest first.
pub open spec fn by_time(
    es: Seq<StoredEvent>,
    t: Option<Seq<char>>,
    start: u64,
    end: u64,
    tol: u64,
) -> Seq<Arc<SequencedEvent>>
    decreases es.len(),
{
    if es.len() == 0 {
        Seq::empty()
    } else {
        let rest = by_time(es.drop_last(), t, start, end, tol);
        let e = es.last().event;
        if in_time_range(*e, start, end, tol) && thread_matches(*e, t) {
            rest.push(e)
        } else {
            rest
        }
    }
}

/// Whether `t` is one of the names in `idle`.
pub open spec fn idle_member(idle: Seq<String>, t: Seq<char>) -> bool {
    exists|i: int| 0 <= i < idle.len() && #[trigger] idle[i]@ == t
}

/// A delta of one of the `idle` threads.
pub open spec fn idle_delta(ev: StoredEvent, idle: Seq<String>) -> bool {
    ev.event.plane == Plane::Delta && match event_thread(ev) {
        Some(t) => idle_member(idle, t),
        None => false,
    }
}

/// Evicts, from position `pos - 1` down to 0, every delta of an idle thread.
pub open spec fn evict_content(st: StoreView, idle: Seq<String>, pos: int) -> StoreView
    decreases pos,
{
    if pos <= 0 || pos > st.events.len() {
        st
    } else {
        let p = pos - 1;
        let next = if idle_delta(st.events[p], idle) {
            st.removed_at(p)
        } else {
            st
        };
        evict_content(next, idle, p)
    }
}

/// A genuine wire `turn/started` for the anchor's thread and turn.
pub open spec fn is_wire_start_of(ev: StoredEvent, anchor: SequencedEvent) -> bool {
    &&& !ev.event.reconstructed
    &&& ev.event.frame.method_view() == Some("turn/started"@)
    &&& event_thread(ev) == string_view(anchor.thread_id)
    &&& string_view(ev.event.turn_id) == string_view(anchor.turn_id)
}

/// Some retained event is a wire `turn/started` for the anchor's turn.
pub open spec fn has_wire_start(es: Seq<StoredEvent>, anchor: SequencedEvent) -> bool {
    exists|j: int| 0 <= j < es.len() && is_wire_start_of(#[trigger] es[j], anchor)
}

pub proof fn lemma_sizes_remove(es: Seq<StoredEvent>, p: int, t: Seq<char>)
    requires
        0 <= p < es.len(),
    ensures
        total_size(es.remove(p)) + es[p].encoded_len == total_size(es),
        thread_size(es.remove(p), t) + size_for(es[p], t) == thread_size(es, t),
    decreases es.len(),
{
    if p == es.len() - 1 {
        assert(es.remove(p) =~= es.drop_last());
    } else {
        lemma_sizes_remove(es.drop_last(), p, t);
        assert(es.remove(p).drop_last() =~= es.drop_last().remove(p));
        assert(es.remove(p).last() == es.last());
    }
}

pub proof fn lemma_sizes_zero(es: Seq<StoredEvent>, t: Seq<char>)
    ensures
        es.len() == 0 ==> total_size(es) == 0 && thread_size(es, t) == 0,
        thread_size(es, t) <= total_size(es),
    decreases es.len(),
{
    if es.len() > 0 {
        lemma_sizes_zero(es.drop_last(), t);
    }
}

/// The position of the first element of `s` that satisfies `p`.
pub open spec fn first_index<A>(s: Seq<A>, p: spec_fn(A) -> bool) -> Option<int>
    decreases s.len(),
{
    if s.len() == 0 {
        None
    } else {
        match first_index(s.drop_last(), p) {
            Some(i) => Some(i),
            None => if p(s.last()) {
                Some(s.len() - 1)
            } else {
                None
            },
        }
    }
}

pub proof fn lemma_first_index<A>(s: Seq<A>, p: spec_fn(A) -> bool)
    ensures
        match first_index(s, p) {
            Some(i) => 0 <= i < s.len() && p(s[i]) && forall|j: int| 0 <= j < i ==> !p(#[trigger] s[j]),
            None => forall|j: int| 0 <= j < s.len() ==> !p(#[trigger] s[j]),
        },
    decreases s.len(),
{
    if s.len() > 0 {
        lemma_first_index(s.drop_last(), p);
        match first_index(s.drop_last(), p) {
            Some(i) => {
                assert forall|j: int| 0 <= j < i implies !p(#[trigger] s[j]) by {
                    assert(s[j] == s.drop_last()[j]);
                }
                assert(s[i] == s.drop_last()[i]);
            },
            None => {
                assert forall|j: int| 0 <= j < s.len() - 1 implies !p(#[trigger] s[j]) by {
                    assert(s[j] == s.drop_last()[j]);
                }
            },
        }
    }
}

/// The position of the first entry for thread `t`.
pub open spec fn bytes_index(tb: Seq<(String, usize)>, t: Seq<char>) -> Option<int>
    decreases tb.len(),
{
    if tb.len() == 0 {
        None
    } else {
        match bytes_index(tb.drop_last(), t) {
            Some(i) => Some(i),
            None => if tb.last().0@ == t {
                Some(tb.len() - 1)
            } else {
                None
            },
        }
    }
}

/// The position of the first gap entry for key `k`.
pub open spec fn gap_index(gs: Seq<(Option<String>, RetentionGap)>, k: Option<Seq<char>>) -> Option<
    int,
> {
    first_index(gs, |e: (Option<String>, RetentionGap)| string_view(e.0) == k)
}

/// The first entry over `cap` bytes.
pub open spec fn over_thread(tb: Seq<(String, usize)>, cap: usize) -> Option<int> {
    first_index(tb, |e: (String, usize)| e.1 > cap)
}

/// The position of the oldest delta of thread `t` (of any thread when `None`).
pub open spec fn delta_victim(es: Seq<StoredEvent>, t: Option<Seq<char>>) -> Option<int> {
    first_index(es, |ev: StoredEvent| is_victim(ev, t))
}

/// The position of the oldest event of thread `t`.
pub open spec fn oldest_of(es: Seq<StoredEvent>, t: Seq<char>) -> Option<int> {
    first_index(es, |ev: StoredEvent| event_thread(ev) == Some(t))
}

/// The gap recorded for key `k`.
pub open spec fn gap_for(gs: Seq<(Option<String>, RetentionGap)>, k: Option<Seq<char>>) -> Option<
    RetentionGap,
> {
    match gap_index(gs, k) {
        Some(i) => Some(gs[i].1),
        None => None,
    }
}

/// Whether a retained event is a delta of thread `t` (of any thread when `t` is `None`).
pub open spec fn is_victim(ev: StoredEvent, t: Option<Seq<char>>) -> bool {
    ev.event.plane == Plane::Delta && (t is None || string_view(ev.event.thread_id) == t)
}

pub open spec fn empty_gap() -> RetentionGap {
    RetentionGap {
        before_sequence: None,
        from_sequence: None,
        from_unix_ms: None,
        through_unix_ms: None,
        summarized_delta_events: 0,
        evicted_lifecycle_events: 0,
    }
}

/// The larger of two optional values (the one present when only one is).
pub open spec fn max_opt(a: Option<u64>, b: Option<u64>) -> Option<u64> {
    match (a, b) {
        (Some(x), Some(y)) => Some(if x >= y { x } else { y }),
        (Some(x), None) => Some(x),
        (None, _) => b,
    }
}

/// The smaller of two optional values (the one present when only one is).
pub open spec fn min_opt(a: Option<u64>, b: Option<u64>) -> Option<u64> {
    match (a, b) {
        (Some(x), Some(y)) => Some(if x <= y { x } else { y }),
        (Some(x), None) => Some(x),
        (None, _) => b,
    }
}

/// A gap after evicting `e`: its sequence and time widen the spans, and it is
/// counted as a summarized delta or an evicted lifecycle event.
pub open spec fn bump(g: RetentionGap, e: SequencedEvent) -> RetentionGap {
    RetentionGap {
        before_sequence: max_opt(g.before_sequence, Some(e.sequence)),
        from_sequence: min_opt(g.from_sequence, Some(e.sequence)),
        from_unix_ms: min_opt(g.from_unix_ms, Some(event_time(e))),
        through_unix_ms: max_opt(g.through_unix_ms, Some(event_time(e))),
        summarized_delta_events: if e.plane == Plane::Delta {
            (g.summarized_delta_events + 1) as u64
        } else {
            g.summarized_delta_events
        },
        evicted_lifecycle_events: if e.plane == Plane::Delta {
            g.evicted_lifecycle_events
        } else {
            (g.evicted_lifecycle_events + 1) as u64
        },
    }
}

/// Two gaps taken together: the union of their spans and the sum of their counts
/// (saturating).
pub open spec fn merge_gap(a: RetentionGap, b: RetentionGap) -> RetentionGap {
    RetentionGap {
        before_sequence: max_opt(a.before_sequence, b.before_sequence),
        from_sequence: min_opt(a.from_sequence, b.from_sequence),
        from_unix_ms: min_opt(a.from_unix_ms, b.from_unix_ms),
        through_unix_ms: max_opt(a.through_unix_ms, b.through_unix_ms),
        summarized_delta_events: a.summarized_delta_events.saturating_add(b.summarized_delta_events),
        evicted_lifecycle_events: a.evicted_lifecycle_events.saturating_add(b.evicted_lifecycle_events),
    }
}

/// All the gaps of `gs` taken together.
pub open spec fn merged(gs: Seq<(Option<String>, RetentionGap)>) -> RetentionGap
    decreases gs.len(),
{
    if gs.len() == 0 {
        empty_gap()
    } else {
        merge_gap(merged(gs.drop_last()), gs.last().1)
    }
}

/// The gap of an all-threads query: every recorded gap taken together, if any.
pub open spec fn combined_gap(gs: Seq<(Option<String>, RetentionGap)>) -> Option<RetentionGap> {
    if gs.len() == 0 {
        None
    } else {
        Some(merged(gs))
    }
}

/// The gap a query for thread `t` reports: that thread's gap, or every gap taken
/// together when `t` is `None` (all threads).
pub open spec fn query_gap(gs: Seq<(Option<String>, RetentionGap)>, t: Option<Seq<char>>) -> Option<
    RetentionGap,
> {
    match t {
        Some(_) => gap_for(gs, t),
        None => combined_gap(gs),
    }
}

pub open spec fn add_thread_bytes(tb: Seq<(String, usize)>, t: String, size: usize) -> Seq<
    (String, usize),
> {
    match bytes_index(tb, t@) {
        Some(i) => tb.update(i, (tb[i].0, (tb[i].1 + size) as usize)),
        None => tb.push((t, size)),
    }
}

pub open spec fn sub_thread_bytes(tb: Seq<(String, usize)>, t: String, size: usize) -> Seq<
    (String, usize),
> {
    match bytes_index(tb, t@) {
        Some(i) => tb.update(i, (tb[i].0, tb[i].1.saturating_sub(size))),
        None => tb.push((t, 0)),
    }
}

pub open spec fn add_gap(gs: Seq<(Option<String>, RetentionGap)>, e: SequencedEvent) -> Seq<
    (Option<String>, RetentionGap),
> {
    match gap_index(gs, string_view(e.thread_id)) {
        Some(i) => gs.update(i, (gs[i].0, bump(gs[i].1, e))),
        None => gs.push((e.thread_id, bump(empty_gap(), e))),
    }
}

impl StoreView {
    /// The accounting invariant.
    pub open spec fn inv(self) -> bool {
        &&& self.bytes == total_size(self.events)
        &&& forall|i: int|
            0 <= i < self.thread_bytes.len() ==> #[trigger] self.thread_bytes[i].1 == thread_size(
                self.events,
                self.thread_bytes[i].0@,
            )
        &&& forall|i: int, j: int|
            0 <= i < self.thread_bytes.len() && 0 <= j < self.thread_bytes.len() && i != j
                ==> #[trigger] self.thread_bytes[i].0@ != #[trigger] self.thread_bytes[j].0@
        &&& forall|j: int|
            0 <= j < self.events.len() && (#[trigger] self.events[j]).event.thread_id is Some
                ==> bytes_index(self.thread_bytes, self.events[j].event.thread_id->0@) is Some
        &&& forall|i: int|
            0 <= i < self.gaps.len() ==> #[trigger] self.gaps[i].1.summarized_delta_events
                + self.events.len() <= u64::MAX && self.gaps[i].1.evicted_lifecycle_events
                + self.events.len() <= u64::MAX
    }

    /// Room for one more event without overflowing the byte total or a gap counter.
    pub open spec fn has_room(self, size: usize) -> bool {
        &&& self.bytes + size <= usize::MAX
        &&& forall|i: int|
            0 <= i < self.gaps.len() ==> #[trigger] self.gaps[i].1.summarized_delta_events
                + self.events.len() + 1 <= u64::MAX && self.gaps[i].1.evicted_lifecycle_events
                + self.events.len() + 1 <= u64::MAX
    }

    /// The state after evicting the event at position `p`.
    pub open spec fn removed_at(self, p: int) -> StoreView {
        let ev = self.events[p];
        let e = *ev.event;
        StoreView {
            events: self.events.remove(p),
            bytes: self.bytes.saturating_sub(ev.encoded_len),
            thread_bytes: match e.thread_id {
                Some(t) => sub_thread_bytes(self.thread_bytes, t, ev.encoded_len),
                None => self.thread_bytes,
            },
            gaps: add_gap(self.gaps, e),
            ..self
        }
    }

    /// Over the global cap, or some thread over the per-thread cap.
    pub open spec fn over_caps(self) -> bool {
        self.bytes > self.config.global_bytes || over_thread(
            self.thread_bytes,
            self.config.per_thread_bytes,
        ) is Some
    }

    /// The thread whose cap is exceeded first, if any.
    pub open spec fn capped_thread(self) -> Option<Seq<char>> {
        match over_thread(self.thread_bytes, self.config.per_thread_bytes) {
            Some(i) => Some(self.thread_bytes[i].0@),
            None => None,
        }
    }

    /// The event evicted next by the byte caps. When a thread is over its cap: its
    /// oldest delta, else its oldest event. When only the global cap is exceeded:
    /// the oldest delta of any thread, else the oldest event.
    pub open spec fn cap_victim(self) -> int {
        let t = self.capped_thread();
        let fallback = match t {
            Some(name) => match oldest_of(self.events, name) {
                Some(i) => i,
                None => 0,
            },
            None => 0,
        };
        match delta_victim(self.events, t) {
            Some(i) => i,
            None => fallback,
        }
    }
}

/// Evicts by byte caps until within them.
pub open spec fn prune_caps(st: StoreView) -> StoreView
    decreases st.events.len(),
{
    if !st.over_caps() || st.events.len() == 0 {
        st
    } else {
        proof {
            lemma_cap_victim(st);
        }
        prune_caps(st.removed_at(st.cap_victim()))
    }
}

/// Evicts from the front every event older than `cutoff` (monotonic time).
pub open spec fn prune_time(st: StoreView, cutoff: u64) -> StoreView
    decreases st.events.len(),
{
    if st.events.len() > 0 && st.events[0].event.monotonic_ms < cutoff {
        prune_time(st.removed_at(0), cutoff)
    } else {
        st
    }
}

impl StoreView {
    /// The state with `ev` appended and counted, before any eviction.
    pub open spec fn pushed(self, ev: StoredEvent) -> StoreView {
        StoreView {
            events: self.events.push(ev),
            bytes: (self.bytes + ev.encoded_len) as usize,
            thread_bytes: match ev.event.thread_id {
                Some(t) => add_thread_bytes(self.thread_bytes, t, ev.encoded_len),
                None => self.thread_bytes,
            },
            ..self
        }
    }

    /// The state after recording `ev`: append, then evict what is older than the
    /// retention window before `ev`, then evict by byte caps.
    pub open spec fn recorded(self, ev: StoredEvent) -> StoreView {
        prune_caps(
            prune_time(
                self.pushed(ev),
                ev.event.monotonic_ms.saturating_sub(self.config.retention_ms),
            ),
        )
    }
}

pub proof fn lemma_bytes_index(tb: Seq<(String, usize)>, t: Seq<char>)
    ensures
        match bytes_index(tb, t) {
            Some(i) => 0 <= i < tb.len() && tb[i].0@ == t && forall|j: int|
                0 <= j < i ==> (#[trigger] tb[j]).0@ != t,
            None => forall|j: int| 0 <= j < tb.len() ==> (#[trigger] tb[j]).0@ != t,
        },
    decreases tb.len(),
{
    if tb.len() > 0 {
        lemma_bytes_index(tb.drop_last(), t);
        match bytes_index(tb.drop_last(), t) {
            Some(i) => {
                assert forall|j: int| 0 <= j < i implies (#[trigger] tb[j]).0@ != t by {
                    assert(tb[j] == tb.drop_last()[j]);
                }
                assert(tb[i] == tb.drop_last()[i]);
            },
            None => {
                assert forall|j: int| 0 <= j < tb.len() - 1 implies (#[trigger] tb[j]).0@ != t by {
                    assert(tb[j] == tb.drop_last()[j]);
                }
            },
        }
    }
}

pub proof fn lemma_gap_index(gs: Seq<(Option<String>, RetentionGap)>, k: Option<Seq<char>>)
    ensures
        match gap_index(gs, k) {
            Some(i) => 0 <= i < gs.len() && string_view(gs[i].0) == k && forall|j: int|
                0 <= j < i ==> string_view((#[trigger] gs[j]).0) != k,
            None => forall|j: int| 0 <= j < gs.len() ==> string_view((#[trigger] gs[j]).0) != k,
        },
{
    lemma_first_index(gs, |e: (Option<String>, RetentionGap)| string_view(e.0) == k);
}

pub proof fn lemma_over_thread(tb: Seq<(String, usize)>, cap: usize)
    ensures
        match over_thread(tb, cap) {
            Some(i) => 0 <= i < tb.len() && tb[i].1 > cap && forall|j: int|
                0 <= j < i ==> (#[trigger] tb[j]).1 <= cap,
            None => forall|j: int| 0 <= j < tb.len() ==> (#[trigger] tb[j]).1 <= cap,
        },
{
    lemma_first_index(tb, |e: (String, usize)| e.1 > cap);
}

pub proof fn lemma_delta_victim(es: Seq<StoredEvent>, t: Option<Seq<char>>)
    ensures
        match delta_victim(es, t) {
            Some(i) => 0 <= i < es.len() && is_victim(es[i], t) && forall|j: int|
                0 <= j < i ==> !is_victim(#[trigger] es[j], t),
            None => forall|j: int| 0 <= j < es.len() ==> !is_victim(#[trigger] es[j], t),
        },
{
    lemma_first_index(es, |ev: StoredEvent| is_victim(ev, t));
}

fn find_bytes(tb: &Vec<(String, usize)>, t: &str) -> (r: Option<usize>)
    ensures
        match r {
            Some(i) => bytes_index(tb@, t@) == Some(i as int),
            None => bytes_index(tb@, t@) is None,
        },
{
    proof {
        lemma_bytes_index(tb@, t@);
    }
    let n = tb.len();
    let mut i: usize = 0;
    while i < n
        invariant
            n == tb@.len(),
            i <= n,
            forall|j: int| 0 <= j < i ==> (#[trigger] tb@[j]).0@ != t@,
        decreases n - i,
    {
        if text_eq(tb[i].0.as_str(), t) {
            assert(tb@[i as int].0@ == t@);
            proof {
                lemma_bytes_index(tb@, t@);
            }
            return Some(i);
        }
        i += 1;
    }
    None
}

pub proof fn lemma_sizes_push(es: Seq<StoredEvent>, ev: StoredEvent, t: Seq<char>)
    ensures
        total_size(es.push(ev)) == total_size(es) + ev.encoded_len,
        thread_size(es.push(ev), t) == thread_size(es, t) + size_for(ev, t),
{
    assert(es.push(ev).drop_last() =~= es);
}

pub proof fn lemma_thread_size_absent(es: Seq<StoredEvent>, t: Seq<char>)
    requires
        forall|j: int| 0 <= j < es.len() ==> string_view((#[trigger] es[j]).event.thread_id) != Some(t),
    ensures
        thread_size(es, t) == 0,
    decreases es.len(),
{
    if es.len() > 0 {
        assert forall|j: int| 0 <= j < es.len() - 1 implies string_view(
            (#[trigger] es.drop_last()[j]).event.thread_id,
        ) != Some(t) by {
            assert(es.drop_last()[j] == es[j]);
        }
        lemma_thread_size_absent(es.drop_last(), t);
        assert(es.last() == es[es.len() - 1]);
    }
}

pub proof fn lemma_removed_inv(o: StoreView, p: int)
    requires
        o.inv(),
        0 <= p < o.events.len(),
        o.events.len() <= u64::MAX,
    ensures
        o.removed_at(p).inv(),
        o.removed_at(p).events.len() == o.events.len() - 1,
        o.removed_at(p).config == o.config,
{
    let n = o.removed_at(p);
    let ev = o.events[p];
    lemma_sizes_remove(o.events, p, Seq::empty());
    assert(n.bytes == total_size(n.events));
    assert forall|i: int| 0 <= i < n.thread_bytes.len() implies #[trigger] n.thread_bytes[i].1
        == thread_size(n.events, n.thread_bytes[i].0@) by {
        lemma_sizes_remove(o.events, p, n.thread_bytes[i].0@);
        lemma_bytes_index(o.thread_bytes, n.thread_bytes[i].0@);
        if ev_tid(ev) is Some {
            lemma_bytes_index(o.thread_bytes, ev_tid(ev)->0@);
        }
    }
    if ev_tid(ev) is Some {
        lemma_bytes_index(o.thread_bytes, ev_tid(ev)->0@);
        assert(bytes_index(o.thread_bytes, ev_tid(ev)->0@) is Some);
    }
    assert forall|i: int, j: int|
        0 <= i < n.thread_bytes.len() && 0 <= j < n.thread_bytes.len() && i != j
            implies #[trigger] n.thread_bytes[i].0@ != #[trigger] n.thread_bytes[j].0@ by {
        assert(n.thread_bytes[i].0 == o.thread_bytes[i].0);
        assert(n.thread_bytes[j].0 == o.thread_bytes[j].0);
    }
    assert forall|j: int|
        0 <= j < n.events.len() && ev_tid(#[trigger] n.events[j]) is Some implies bytes_index(
        n.thread_bytes,
        ev_tid(n.events[j])->0@,
    ) is Some by {
        let j1 = if j < p { j } else { j + 1 };
        assert(n.events[j] == o.events[j1]);
        let t = ev_tid(n.events[j])->0@;
        lemma_bytes_index(o.thread_bytes, t);
        let k = bytes_index(o.thread_bytes, t)->0;
        assert(n.thread_bytes[k].0 == o.thread_bytes[k].0);
        lemma_bytes_index(n.thread_bytes, t);
    }
    lemma_gap_index(o.gaps, string_view(ev_tid(ev)));
    assert forall|i: int| 0 <= i < n.gaps.len() implies #[trigger] n.gaps[i].1.summarized_delta_events
        + n.events.len() <= u64::MAX && n.gaps[i].1.evicted_lifecycle_events + n.events.len()
        <= u64::MAX by {
        match gap_index(o.gaps, string_view(ev_tid(ev))) {
            Some(k) => {
                assert(o.gaps[i].1.summarized_delta_events + o.events.len() <= u64::MAX);
                assert(o.gaps[i].1.evicted_lifecycle_events + o.events.len() <= u64::MAX);
                if i == k {
                    assert(n.gaps[i].1 == bump(o.gaps[k].1, *ev.event));
                } else {
                    assert(n.gaps[i] == o.gaps[i]);
                }
            },
            None => {
                if i < o.gaps.len() {
                    assert(n.gaps[i] == o.gaps[i]);
                    assert(o.gaps[i].1.summarized_delta_events + o.events.len() <= u64::MAX);
                    assert(o.gaps[i].1.evicted_lifecycle_events + o.events.len() <= u64::MAX);
                } else {
                    assert(n.gaps[i].1 == bump(empty_gap(), *ev.event));
                }
            },
        }
    }
}

pub proof fn lemma_pushed_inv(o: StoreView, ev: StoredEvent)
    requires
        o.inv(),
        o.has_room(ev.encoded_len),
    ensures
        o.pushed(ev).inv(),
        o.pushed(ev).config == o.config,
        o.pushed(ev).events.len() == o.events.len() + 1,
{
    let n = o.pushed(ev);
    lemma_sizes_push(o.events, ev, Seq::empty());
    if ev_tid(ev) is Some {
        let t = ev_tid(ev)->0@;
        lemma_bytes_index(o.thread_bytes, t);
        if bytes_index(o.thread_bytes, t) is None {
            assert forall|j: int| 0 <= j < o.events.len() implies string_view(
                (#[trigger] o.events[j]).event.thread_id,
            ) != Some(t) by {
                if string_view(o.events[j].event.thread_id) == Some(t) {
                    lemma_bytes_index(o.thread_bytes, ev_tid(o.events[j])->0@);
                }
            }
            lemma_thread_size_absent(o.events, t);
        }
    }
    assert forall|i: int| 0 <= i < n.thread_bytes.len() implies #[trigger] n.thread_bytes[i].1
        == thread_size(n.events, n.thread_bytes[i].0@) by {
        let key = n.thread_bytes[i].0@;
        lemma_sizes_push(o.events, ev, key);
        match ev_tid(ev) {
            Some(ts) => {
                let t = ts@;
                lemma_bytes_index(o.thread_bytes, t);
                match bytes_index(o.thread_bytes, t) {
                    Some(k) => {
                        assert(n.thread_bytes == o.thread_bytes.update(
                            k,
                            (o.thread_bytes[k].0, (o.thread_bytes[k].1 + ev.encoded_len) as usize),
                        ));
                        lemma_sizes_zero(o.events, t);
                        if i == k {
                            assert(o.thread_bytes[k].1 == thread_size(o.events, t));
                        } else {
                            assert(n.thread_bytes[i] == o.thread_bytes[i]);
                            assert(o.thread_bytes[i].1 == thread_size(o.events, key));
                        }
                    },
                    None => {
                        assert(n.thread_bytes == o.thread_bytes.push((ts, ev.encoded_len)));
                        if i < o.thread_bytes.len() {
                            assert(n.thread_bytes[i] == o.thread_bytes[i]);
                            assert(o.thread_bytes[i].1 == thread_size(o.events, key));
                        }
                    },
                }
            },
            None => {
                assert(n.thread_bytes[i] == o.thread_bytes[i]);
                assert(o.thread_bytes[i].1 == thread_size(o.events, key));
            },
        }
    }
    assert forall|i: int, j: int|
        0 <= i < n.thread_bytes.len() && 0 <= j < n.thread_bytes.len() && i != j
            implies #[trigger] n.thread_bytes[i].0@ != #[trigger] n.thread_bytes[j].0@ by {
        if i < o.thread_bytes.len() {
            assert(n.thread_bytes[i].0 == o.thread_bytes[i].0);
        }
        if j < o.thread_bytes.len() {
            assert(n.thread_bytes[j].0 == o.thread_bytes[j].0);
        }
    }
    assert forall|j: int|
        0 <= j < n.events.len() && ev_tid(#[trigger] n.events[j]) is Some implies bytes_index(
        n.thread_bytes,
        ev_tid(n.events[j])->0@,
    ) is Some by {
        let t = ev_tid(n.events[j])->0@;
        lemma_bytes_index(n.thread_bytes, t);
        if j < o.events.len() {
            assert(n.events[j] == o.events[j]);
            lemma_bytes_index(o.thread_bytes, t);
            let k = bytes_index(o.thread_bytes, t)->0;
            assert(n.thread_bytes[k].0 == o.thread_bytes[k].0);
        } else {
            assert(n.events[j] == ev);
            lemma_bytes_index(o.thread_bytes, t);
            if bytes_index(o.thread_bytes, t) is Some {
                let k = bytes_index(o.thread_bytes, t)->0;
                assert(n.thread_bytes[k].0 == o.thread_bytes[k].0);
            } else {
                assert(n.thread_bytes[o.thread_bytes.len() as int].0@ == t);
            }
        }
    }
    assert forall|i: int| 0 <= i < n.gaps.len() implies #[trigger] n.gaps[i].1.summarized_delta_events
        + n.events.len() <= u64::MAX && n.gaps[i].1.evicted_lifecycle_events + n.events.len()
        <= u64::MAX by {
        assert(o.gaps[i].1.summarized_delta_events + o.events.len() + 1 <= u64::MAX);
        assert(o.gaps[i].1.evicted_lifecycle_events + o.events.len() + 1 <= u64::MAX);
    }
}

pub proof fn lemma_over_nonempty(st: StoreView)
    requires
        st.inv(),
        st.over_caps(),
    ensures
        st.events.len() > 0,
{
    lemma_sizes_zero(st.events, Seq::empty());
    lemma_over_thread(st.thread_bytes, st.config.per_thread_bytes);
    if over_thread(st.thread_bytes, st.config.per_thread_bytes) is Some {
        let i = over_thread(st.thread_bytes, st.config.per_thread_bytes)->0;
        lemma_sizes_zero(st.events, st.thread_bytes[i].0@);
    }
}

pub proof fn lemma_thread_present(es: Seq<StoredEvent>, t: Seq<char>)
    requires
        thread_size(es, t) > 0,
    ensures
        exists|j: int| 0 <= j < es.len() && event_thread(#[trigger] es[j]) == Some(t),
    decreases es.len(),
{
    if size_for(es.last(), t) > 0 {
        assert(event_thread(es[es.len() - 1]) == Some(t));
    } else {
        lemma_thread_present(es.drop_last(), t);
        let j = choose|j: int| 0 <= j < es.len() - 1 && event_thread(#[trigger] es.drop_last()[j]) == Some(t);
        assert(es[j] == es.drop_last()[j]);
    }
}

/// The cap victim is a retained event; when a thread is over its cap, it is one of
/// that thread's events.
pub proof fn lemma_cap_victim(st: StoreView)
    requires
        st.events.len() > 0,
    ensures
        0 <= st.cap_victim() < st.events.len(),
        st.inv() && st.capped_thread() is Some ==> event_thread(st.events[st.cap_victim()])
            == st.capped_thread(),
{
    let t = st.capped_thread();
    lemma_delta_victim(st.events, t);
    lemma_over_thread(st.thread_bytes, st.config.per_thread_bytes);
    match t {
        Some(name) => {
            lemma_first_index(st.events, |ev: StoredEvent| event_thread(ev) == Some(name));
            if st.inv() && delta_victim(st.events, t) is None {
                let i = over_thread(st.thread_bytes, st.config.per_thread_bytes)->0;
                assert(st.thread_bytes[i].1 == thread_size(st.events, name));
                lemma_thread_present(st.events, name);
                let j = choose|j: int| 0 <= j < st.events.len() && event_thread(#[trigger] st.events[j]) == Some(name);
                assert((|ev: StoredEvent| event_thread(ev) == Some(name))(st.events[j]));
            }
        },
        None => {},
    }
}

fn find_oldest(es: &VecDeque<StoredEvent>, t: &str) -> (r: Option<usize>)
    ensures
        match r {
            Some(i) => oldest_of(es@, t@) == Some(i as int),
            None => oldest_of(es@, t@) is None,
        },
{
    let n = es.len();
    let mut i: usize = 0;
    while i < n
        invariant
            n == es@.len(),
            i <= n,
            forall|j: int| 0 <= j < i ==> event_thread(#[trigger] es@[j]) != Some(t@),
        decreases n - i,
    {
        let of_thread = match &es[i].event.thread_id {
            Some(id) => text_eq(id.as_str(), t),
            None => false,
        };
        if of_thread {
            proof {
                lemma_first_index(es@, |ev: StoredEvent| event_thread(ev) == Some(t@));
            }
            return Some(i);
        }
        i += 1;
    }
    proof {
        lemma_first_index(es@, |ev: StoredEvent| event_thread(ev) == Some(t@));
    }
    None
}

/// Whether `idle` holds the name `id`.
fn names_hold(idle: &[String], id: &str) -> (r: bool)
    ensures
        r == idle_member(idle@, id@),
{
    let n = idle.len();
    let mut i: usize = 0;
    while i < n
        invariant
            n == idle@.len(),
            i <= n,
            forall|j: int| 0 <= j < i ==> #[trigger] idle@[j]@ != id@,
        decreases n - i,
    {
        if text_eq(idle[i].as_str(), id) {
            assert(idle@[i as int]@ == id@);
            return true;
        }
        i += 1;
    }
    false
}

// ---------------------------------------------------------------------------
// Laws
// ---------------------------------------------------------------------------

/// The byte total and every thread's bytes are within the caps.
pub open spec fn within_caps(st: StoreView) -> bool {
    &&& st.bytes <= st.config.global_bytes
    &&& forall|i: int|
        0 <= i < st.thread_bytes.len() ==> (#[trigger] st.thread_bytes[i]).1
            <= st.config.per_thread_bytes
}

pub proof fn lemma_prune_time(st: StoreView, cutoff: u64)
    requires
        st.inv(),
        st.events.len() <= u64::MAX,
    ensures
        prune_time(st, cutoff).inv(),
        prune_time(st, cutoff).config == st.config,
        prune_time(st, cutoff).events.len() <= st.events.len(),
        prune_time(st, cutoff).events.len() == 0 || prune_time(st, cutoff).events[0].event.monotonic_ms
            >= cutoff,
    decreases st.events.len(),
{
    if st.events.len() > 0 && st.events[0].event.monotonic_ms < cutoff {
        lemma_removed_inv(st, 0);
        lemma_prune_time(st.removed_at(0), cutoff);
    }
}

pub proof fn lemma_prune_caps(st: StoreView)
    requires
        st.inv(),
        st.events.len() <= u64::MAX,
    ensures
        prune_caps(st).inv(),
        prune_caps(st).config == st.config,
        !prune_caps(st).over_caps(),
    decreases st.events.len(),
{
    if st.over_caps() {
        lemma_over_nonempty(st);
        lemma_cap_victim(st);
        lemma_removed_inv(st, st.cap_victim());
        lemma_prune_caps(st.removed_at(st.cap_victim()));
    }
}

/// Recording keeps the byte accounting exact and leaves the store within its caps:
/// the total within the global cap and every thread within the per-thread cap.
pub proof fn law_record_within_caps(st: StoreView, ev: StoredEvent)
    requires
        st.inv(),
        st.has_room(ev.encoded_len),
        st.events.len() < u64::MAX,
    ensures
        st.recorded(ev).inv(),
        within_caps(st.recorded(ev)),
{
    lemma_pushed_inv(st, ev);
    let c = ev.event.monotonic_ms.saturating_sub(st.config.retention_ms);
    lemma_prune_time(st.pushed(ev), c);
    lemma_prune_caps(prune_time(st.pushed(ev), c));
    let r = st.recorded(ev);
    lemma_over_thread(r.thread_bytes, r.config.per_thread_bytes);
}

/// Age pruning leaves no retained event at the front older than the cutoff.
pub proof fn law_time_pruning_front(st: StoreView, cutoff: u64)
    requires
        st.inv(),
        st.events.len() <= u64::MAX,
    ensures
        prune_time(st, cutoff).events.len() == 0 || prune_time(st, cutoff).events[0].event.monotonic_ms
            >= cutoff,
{
    lemma_prune_time(st, cutoff);
}

/// Byte-cap eviction takes the oldest delta of the thread over its cap (of any
/// thread when only the global cap is exceeded); it takes another event only when
/// no such delta is retained, and then, when a thread is over its cap, that
/// thread's oldest event, so no other thread loses an event to it.
pub proof fn law_cap_eviction_prefers_deltas(st: StoreView)
    requires
        st.inv(),
        st.events.len() > 0,
    ensures
        ({
            let t = st.capped_thread();
            let v = st.cap_victim();
            &&& 0 <= v < st.events.len()
            &&& !is_victim(st.events[v], t) ==> forall|j: int|
                0 <= j < st.events.len() ==> !is_victim(#[trigger] st.events[j], t)
            &&& is_victim(st.events[v], t) ==> forall|j: int|
                0 <= j < v ==> !is_victim(#[trigger] st.events[j], t)
            &&& t is Some ==> event_thread(st.events[v]) == t
            &&& t is Some && !is_victim(st.events[v], t) ==> forall|j: int|
                0 <= j < v ==> event_thread(#[trigger] st.events[j]) != t
        }),
{
    let t = st.capped_thread();
    lemma_delta_victim(st.events, t);
    lemma_cap_victim(st);
    match t {
        Some(name) => {
            lemma_first_index(st.events, |ev: StoredEvent| event_thread(ev) == Some(name));
        },
        None => {},
    }
}

/// Every eviction is reported in the gap of the evicted event's thread: the gap
/// covers its sequence and counts it as a summarized delta or an evicted lifecycle
/// event.
pub proof fn law_eviction_reported(st: StoreView, p: int)
    requires
        0 <= p < st.events.len(),
    ensures
        ({
            let ev = st.events[p];
            let before = match gap_for(st.gaps, event_thread(ev)) {
                Some(g) => g,
                None => empty_gap(),
            };
            gap_for(st.removed_at(p).gaps, event_thread(ev)) == Some(bump(before, *ev.event))
        }),
{
    let ev = st.events[p];
    let k = event_thread(ev);
    let n = st.removed_at(p).gaps;
    lemma_gap_index(st.gaps, k);
    lemma_gap_index(n, k);
    match gap_index(st.gaps, k) {
        Some(i) => {
            assert(n[i].0 == st.gaps[i].0);
            if gap_index(n, k) is Some {
                let j = gap_index(n, k)->0;
                if j < i {
                    assert(n[j] == st.gaps[j]);
                }
            }
        },
        None => {
            assert(string_view(n[st.gaps.len() as int].0) == k);
            if gap_index(n, k) is Some {
                let j = gap_index(n, k)->0;
                if j < st.gaps.len() {
                    assert(n[j] == st.gaps[j]);
                }
            }
        },
    }
}

/// `a`'s sequence and time spans include those of `b`.
pub open spec fn covers(a: RetentionGap, b: RetentionGap) -> bool {
    &&& b.before_sequence is Some ==> a.before_sequence is Some && a.before_sequence->0
        >= b.before_sequence->0
    &&& b.from_sequence is Some ==> a.from_sequence is Some && a.from_sequence->0
        <= b.from_sequence->0
    &&& b.from_unix_ms is Some ==> a.from_unix_ms is Some && a.from_unix_ms->0
        <= b.from_unix_ms->0
    &&& b.through_unix_ms is Some ==> a.through_unix_ms is Some && a.through_unix_ms->0
        >= b.through_unix_ms->0
}

pub proof fn lemma_merged_covers(gs: Seq<(Option<String>, RetentionGap)>)
    ensures
        forall|i: int| 0 <= i < gs.len() ==> covers(merged(gs), #[trigger] gs[i].1),
    decreases gs.len(),
{
    if gs.len() > 0 {
        lemma_merged_covers(gs.drop_last());
        assert forall|i: int| 0 <= i < gs.len() implies covers(merged(gs), #[trigger] gs[i].1) by {
            if i < gs.len() - 1 {
                assert(gs[i] == gs.drop_last()[i]);
            }
        }
    }
}

pub proof fn lemma_merged_least(gs: Seq<(Option<String>, RetentionGap)>, g: RetentionGap)
    requires
        forall|i: int| 0 <= i < gs.len() ==> covers(g, #[trigger] gs[i].1),
    ensures
        covers(g, merged(gs)),
    decreases gs.len(),
{
    if gs.len() > 0 {
        assert forall|i: int| 0 <= i < gs.len() - 1 implies covers(g, #[trigger] gs.drop_last()[i].1) by {
            assert(gs[i] == gs.drop_last()[i]);
        }
        lemma_merged_least(gs.drop_last(), g);
        assert(covers(g, gs[gs.len() - 1].1));
    }
}

/// An all-threads query reports every eviction, whatever thread the evicted event
/// had: after evicting the event at `p`, the combined gap exists, its spans cover
/// that event's sequence and time, and they still cover what they covered before.
pub proof fn law_all_threads_gap_reported(st: StoreView, p: int)
    requires
        0 <= p < st.events.len(),
    ensures
        ({
            let e = *st.events[p].event;
            let after = st.removed_at(p).gaps;
            &&& query_gap(after, None) is Some
            &&& covers(query_gap(after, None)->0, bump(empty_gap(), e))
            &&& query_gap(st.gaps, None) is Some ==> covers(
                query_gap(after, None)->0,
                query_gap(st.gaps, None)->0,
            )
        }),
{
    let e = *st.events[p].event;
    let gs = st.gaps;
    let after = st.removed_at(p).gaps;
    let k = string_view(e.thread_id);
    lemma_gap_index(gs, k);
    lemma_merged_covers(after);
    let m = merged(after);
    let j = match gap_index(gs, k) {
        Some(i) => i,
        None => gs.len() as int,
    };
    assert(after[j].1 == bump(if j < gs.len() { gs[j].1 } else { empty_gap() }, e));
    assert(covers(m, after[j].1));
    assert forall|i: int| 0 <= i < gs.len() implies covers(m, #[trigger] gs[i].1) by {
        assert(covers(m, after[i].1));
        if i != j {
            assert(after[i] == gs[i]);
        }
    }
    if gs.len() > 0 {
        lemma_merged_least(gs, m);
    }
}

/// What evicting one event adds to a gap: one more summarized delta when it is a
/// delta, else one more evicted lifecycle event, the other count unchanged (the
/// store's invariant keeps both counts below `u64::MAX`); the
/// sequence span is widened just enough to include its sequence, and the time span
/// just enough to include its time (emission, else receipt).
pub proof fn law_gap_counts_eviction(g: RetentionGap, e: SequencedEvent)
    ensures
        e.plane == Plane::Delta && g.summarized_delta_events < u64::MAX ==> bump(
            g,
            e,
        ).summarized_delta_events == g.summarized_delta_events + 1 && bump(g, e).evicted_lifecycle_events
            == g.evicted_lifecycle_events,
        e.plane != Plane::Delta && g.evicted_lifecycle_events < u64::MAX ==> bump(
            g,
            e,
        ).evicted_lifecycle_events == g.evicted_lifecycle_events + 1 && bump(g, e).summarized_delta_events
            == g.summarized_delta_events,
        g.summarized_delta_events < u64::MAX && g.evicted_lifecycle_events < u64::MAX ==> bump(
            g,
            e,
        ).summarized_delta_events + bump(g, e).evicted_lifecycle_events
            == g.summarized_delta_events + g.evicted_lifecycle_events + 1,
        bump(g, e).before_sequence is Some && bump(g, e).before_sequence->0 >= e.sequence,
        bump(g, e).from_sequence is Some && bump(g, e).from_sequence->0 <= e.sequence,
        bump(g, e).before_sequence->0 == e.sequence || bump(g, e).before_sequence == g.before_sequence,
        bump(g, e).from_sequence->0 == e.sequence || bump(g, e).from_sequence == g.from_sequence,
        g.before_sequence is Some ==> bump(g, e).before_sequence->0 >= g.before_sequence->0,
        g.from_sequence is Some ==> bump(g, e).from_sequence->0 <= g.from_sequence->0,
        ({
            let time = match e.emitted_at_ms {
                Some(x) => x,
                None => e.unix_receipt_ms,
            };
            &&& bump(g, e).from_unix_ms is Some && bump(g, e).from_unix_ms->0 <= time
            &&& bump(g, e).through_unix_ms is Some && bump(g, e).through_unix_ms->0 >= time
            &&& bump(g, e).from_unix_ms->0 == time || bump(g, e).from_unix_ms == g.from_unix_ms
            &&& bump(g, e).through_unix_ms->0 == time || bump(g, e).through_unix_ms == g.through_unix_ms
            &&& g.from_unix_ms is Some ==> bump(g, e).from_unix_ms->0 <= g.from_unix_ms->0
            &&& g.through_unix_ms is Some ==> bump(g, e).through_unix_ms->0 >= g.through_unix_ms->0
        }),
{
}

/// A sequence query returns every retained event that meets its filters, oldest
/// first, and nothing else.
pub proof fn law_query_by_sequence_exact(
    es: Seq<StoredEvent>,
    t: Option<Seq<char>>,
    after: u64,
    through: Option<u64>,
)
    ensures
        forall|i: int|
            0 <= i < by_sequence(es, t, after, through).len() ==> {
                let e = #[trigger] by_sequence(es, t, after, through)[i];
                in_sequence_range(*e, after, through) && thread_matches(*e, t) && exists|j: int|
                    0 <= j < es.len() && es[j].event == e
            },
        forall|j: int|
            0 <= j < es.len() && in_sequence_range(*(#[trigger] es[j]).event, after, through)
                && thread_matches(*es[j].event, t) ==> by_sequence(es, t, after, through).contains(
                es[j].event,
            ),
    decreases es.len(),
{
    if es.len() > 0 {
        let p = es.drop_last();
        law_query_by_sequence_exact(p, t, after, through);
        let r = by_sequence(es, t, after, through);
        let rp = by_sequence(p, t, after, through);
        assert forall|i: int| 0 <= i < r.len() implies ({
            let e = #[trigger] r[i];
            in_sequence_range(*e, after, through) && thread_matches(*e, t) && exists|j: int|
                0 <= j < es.len() && es[j].event == e
        }) by {
            if i < rp.len() {
                assert(r[i] == rp[i]);
                let j = choose|j: int| 0 <= j < p.len() && p[j].event == rp[i];
                assert(es[j] == p[j]);
            } else {
                assert(r[i] == es.last().event);
                assert(es[es.len() - 1] == es.last());
            }
        }
        assert forall|j: int|
            0 <= j < es.len() && in_sequence_range(*(#[trigger] es[j]).event, after, through)
                && thread_matches(*es[j].event, t) implies r.contains(es[j].event) by {
            if j < p.len() {
                assert(es[j] == p[j]);
                assert(rp.contains(p[j].event));
                let k = choose|k: int| 0 <= k < rp.len() && rp[k] == p[j].event;
                assert(r[k] == rp[k]);
            } else {
                assert(r.last() == es[j].event);
            }
        }
    }
}

/// A time query returns exactly the retained events of the queried thread (of
/// any thread when none is named) whose time, the daemon emission time when known
/// and else the Unix receipt time, lies within the tolerance of `[start, end]`;
/// an event of another thread, or without a thread when one is named, is never
/// returned.
pub proof fn law_query_by_time_exact(
    es: Seq<StoredEvent>,
    t: Option<Seq<char>>,
    start: u64,
    end: u64,
    tol: u64,
)
    ensures
        forall|i: int|
            0 <= i < by_time(es, t, start, end, tol).len() ==> {
                let e = #[trigger] by_time(es, t, start, end, tol)[i];
                let time = match e.emitted_at_ms {
                    Some(x) => x,
                    None => e.unix_receipt_ms,
                };
                &&& t is Some ==> e.thread_id is Some && e.thread_id->0@ == t->0
                &&& time + tol >= start
                &&& time <= end + tol
                &&& exists|j: int| 0 <= j < es.len() && es[j].event == e
            },
        forall|j: int|
            0 <= j < es.len() && (t is Some ==> (#[trigger] es[j]).event.thread_id is Some
                && es[j].event.thread_id->0@ == t->0) && ({
                let time = match es[j].event.emitted_at_ms {
                    Some(x) => x,
                    None => es[j].event.unix_receipt_ms,
                };
                time + tol >= start && time <= end + tol
            }) ==> by_time(es, t, start, end, tol).contains(es[j].event),
    decreases es.len(),
{
    if es.len() > 0 {
        let p = es.drop_last();
        law_query_by_time_exact(p, t, start, end, tol);
        let r = by_time(es, t, start, end, tol);
        let rp = by_time(p, t, start, end, tol);
        assert forall|i: int| 0 <= i < r.len() implies ({
            let e = #[trigger] r[i];
            let time = match e.emitted_at_ms {
                Some(x) => x,
                None => e.unix_receipt_ms,
            };
            &&& t is Some ==> e.thread_id is Some && e.thread_id->0@ == t->0
            &&& time + tol >= start
            &&& time <= end + tol
            &&& exists|j: int| 0 <= j < es.len() && es[j].event == e
        }) by {
            if i < rp.len() {
                assert(r[i] == rp[i]);
                let j = choose|j: int| 0 <= j < p.len() && p[j].event == rp[i];
                assert(es[j] == p[j]);
            } else {
                assert(r[i] == es.last().event);
                assert(es[es.len() - 1] == es.last());
            }
        }
        assert forall|j: int|
            0 <= j < es.len() && (t is Some ==> (#[trigger] es[j]).event.thread_id is Some
                && es[j].event.thread_id->0@ == t->0) && ({
                let time = match es[j].event.emitted_at_ms {
                    Some(x) => x,
                    None => es[j].event.unix_receipt_ms,
                };
                time + tol >= start && time <= end + tol
            }) implies r.contains(es[j].event) by {
            if j < p.len() {
                assert(es[j] == p[j]);
                assert(rp.contains(p[j].event));
                let k = choose|k: int| 0 <= k < rp.len() && rp[k] == p[j].event;
                assert(r[k] == rp[k]);
            } else {
                assert(r.last() == es[j].event);
            }
        }
    }
}

/// A sequence query returns exactly the retained events of the queried thread (of
/// any thread when none is named) with `after < sequence <= through`; an event of
/// another thread, or without a thread when one is named, is never returned.
pub proof fn law_query_by_sequence_filters(
    es: Seq<StoredEvent>,
    t: Option<Seq<char>>,
    after: u64,
    through: Option<u64>,
)
    ensures
        forall|i: int|
            0 <= i < by_sequence(es, t, after, through).len() ==> {
                let e = #[trigger] by_sequence(es, t, after, through)[i];
                &&& t is Some ==> e.thread_id is Some && e.thread_id->0@ == t->0
                &&& e.sequence > after
                &&& through is Some ==> e.sequence <= through->0
            },
        forall|j: int|
            0 <= j < es.len() && (t is Some ==> (#[trigger] es[j]).event.thread_id is Some
                && es[j].event.thread_id->0@ == t->0) && es[j].event.sequence > after && (through is Some
                ==> es[j].event.sequence <= through->0) ==> by_sequence(es, t, after, through).contains(
                es[j].event,
            ),
{
    law_query_by_sequence_exact(es, t, after, through);
    let r = by_sequence(es, t, after, through);
    assert forall|i: int| 0 <= i < r.len() implies ({
        let e = #[trigger] r[i];
        &&& t is Some ==> e.thread_id is Some && e.thread_id->0@ == t->0
        &&& e.sequence > after
        &&& through is Some ==> e.sequence <= through->0
    }) by {
        assert(in_sequence_range(*r[i], after, through) && thread_matches(*r[i], t));
    }
    assert forall|j: int|
        0 <= j < es.len() && (t is Some ==> (#[trigger] es[j]).event.thread_id is Some
            && es[j].event.thread_id->0@ == t->0) && es[j].event.sequence > after && (through is Some
            ==> es[j].event.sequence <= through->0) implies r.contains(es[j].event) by {
        assert(in_sequence_range(*es[j].event, after, through) && thread_matches(*es[j].event, t));
    }
}

/// A delta of a thread named in `idle`.
pub open spec fn idle_thread_delta(ev: StoredEvent, idle: Seq<String>) -> bool {
    &&& ev.event.plane == Plane::Delta
    &&& ev.event.thread_id is Some
    &&& exists|i: int| 0 <= i < idle.len() && #[trigger] idle[i]@ == ev.event.thread_id->0@
}

pub proof fn lemma_evict_content_exact(st: StoreView, idle: Seq<String>, pos: int)
    requires
        0 <= pos <= st.events.len(),
    ensures
        forall|k: int|
            0 <= k < evict_content(st, idle, pos).events.len() ==> !idle_thread_delta(
                #[trigger] evict_content(st, idle, pos).events[k],
                idle,
            ) || exists|j: int|
                pos <= j < st.events.len() && st.events[j] == evict_content(st, idle, pos).events[k],
        forall|j: int|
            0 <= j < st.events.len() && (!idle_thread_delta(#[trigger] st.events[j], idle) || j >= pos)
                ==> evict_content(st, idle, pos).events.contains(st.events[j]),
    decreases pos,
{
    if pos > 0 {
        let p = pos - 1;
        let removed = idle_delta(st.events[p], idle);
        let next = if removed {
            st.removed_at(p)
        } else {
            st
        };
        let r = evict_content(st, idle, pos);
        assert(r == evict_content(next, idle, p));
        lemma_evict_content_exact(next, idle, p);
        assert(idle_delta(st.events[p], idle) <==> idle_thread_delta(st.events[p], idle));
        assert forall|k: int| 0 <= k < r.events.len() implies !idle_thread_delta(
            #[trigger] r.events[k],
            idle,
        ) || exists|j: int| pos <= j < st.events.len() && st.events[j] == r.events[k] by {
            if idle_thread_delta(r.events[k], idle) {
                let j2 = choose|j2: int| p <= j2 < next.events.len() && next.events[j2] == r.events[k];
                if removed {
                    assert(next.events[j2] == st.events[j2 + 1]);
                } else {
                    assert(j2 != p);
                }
            }
        }
        assert forall|j: int|
            0 <= j < st.events.len() && (!idle_thread_delta(#[trigger] st.events[j], idle) || j >= pos)
                implies r.events.contains(st.events[j]) by {
            if removed {
                assert(j != p);
                if j < p {
                    assert(next.events[j] == st.events[j]);
                } else {
                    assert(next.events[j - 1] == st.events[j]);
                }
            }
        }
    }
}

/// Idle eviction removes exactly the deltas of the named idle threads: afterwards
/// no retained event is a delta of an idle thread, every other event is still
/// retained, and the retained events keep their order.
pub proof fn law_idle_eviction_exact(st: StoreView, idle: Seq<String>)
    ensures
        forall|k: int|
            0 <= k < evict_content(st, idle, st.events.len() as int).events.len() ==> !idle_thread_delta(
                #[trigger] evict_content(st, idle, st.events.len() as int).events[k],
                idle,
            ),
        forall|j: int|
            0 <= j < st.events.len() && !idle_thread_delta(#[trigger] st.events[j], idle)
                ==> evict_content(st, idle, st.events.len() as int).events.contains(st.events[j]),
        is_subseq(evict_content(st, idle, st.events.len() as int).events, st.events),
{
    lemma_evict_content_exact(st, idle, st.events.len() as int);
    law_idle_eviction_keeps_order(st, idle, st.events.len() as int);
}

/// Which event the byte caps evict next. The thread over its cap is the first one
/// whose bytes exceed the per-thread cap. When a delta of that thread (of any
/// thread when only the global cap is exceeded) is retained, the oldest such delta
/// goes; otherwise, with a thread over its cap, that thread's oldest event goes,
/// and with only the global cap exceeded, the oldest event.
pub proof fn law_cap_victim_exact(st: StoreView)
    requires
        st.inv(),
        st.events.len() > 0,
    ensures
        ({
            let t = st.capped_thread();
            let v = st.cap_victim();
            let of_t = |ev: StoredEvent|
                t is None || (ev.event.thread_id is Some && ev.event.thread_id->0@ == t->0);
            &&& t is Some <==> exists|i: int|
                0 <= i < st.thread_bytes.len() && #[trigger] st.thread_bytes[i].1
                    > st.config.per_thread_bytes
            &&& t is Some ==> exists|i: int|
                0 <= i < st.thread_bytes.len() && st.thread_bytes[i].0@ == t->0
                    && #[trigger] st.thread_bytes[i].1 > st.config.per_thread_bytes && forall|h: int|
                    0 <= h < i ==> #[trigger] st.thread_bytes[h].1 <= st.config.per_thread_bytes
            &&& 0 <= v < st.events.len()
            &&& (exists|j: int|
                0 <= j < st.events.len() && (#[trigger] st.events[j]).event.plane == Plane::Delta
                    && of_t(st.events[j])) ==> st.events[v].event.plane == Plane::Delta && of_t(
                st.events[v],
            ) && forall|j: int|
                0 <= j < v ==> !((#[trigger] st.events[j]).event.plane == Plane::Delta && of_t(
                    st.events[j],
                ))
            &&& (forall|j: int|
                0 <= j < st.events.len() ==> !((#[trigger] st.events[j]).event.plane == Plane::Delta
                    && of_t(st.events[j]))) && t is Some ==> of_t(st.events[v]) && forall|j: int|
                0 <= j < v ==> !of_t(#[trigger] st.events[j])
            &&& (forall|j: int|
                0 <= j < st.events.len() ==> !((#[trigger] st.events[j]).event.plane == Plane::Delta
                    && of_t(st.events[j]))) && t is None ==> v == 0
        }),
{
    let t = st.capped_thread();
    lemma_over_thread(st.thread_bytes, st.config.per_thread_bytes);
    lemma_delta_victim(st.events, t);
    lemma_cap_victim(st);
    match t {
        Some(name) => {
            lemma_first_index(st.events, |ev: StoredEvent| event_thread(ev) == Some(name));
            let i = over_thread(st.thread_bytes, st.config.per_thread_bytes)->0;
            assert(st.thread_bytes[i].1 > st.config.per_thread_bytes);
        },
        None => {},
    }
}

/// A reconstructed anchor is skipped exactly when a genuine (not reconstructed)
/// wire `turn/started` of the same thread and turn is retained; a start of another
/// thread or turn, or a reconstructed one, never suppresses it.
pub proof fn law_wire_start_exact(es: Seq<StoredEvent>, anchor: SequencedEvent)
    ensures
        has_wire_start(es, anchor) <==> exists|j: int|
            0 <= j < es.len() && !(#[trigger] es[j]).event.reconstructed
                && es[j].event.frame.method_view() == Some("turn/started"@) && string_view(
                es[j].event.thread_id,
            ) == string_view(anchor.thread_id) && string_view(es[j].event.turn_id) == string_view(
                anchor.turn_id,
            ),
{
}

/// Retained events in strictly increasing receipt sequence.
pub open spec fn sorted_by_sequence(es: Seq<StoredEvent>) -> bool {
    forall|i: int, j: int|
        0 <= i < j < es.len() ==> (#[trigger] es[i]).event.sequence < (#[trigger] es[j]).event.sequence
}

pub proof fn lemma_removed_sorted(st: StoreView, p: int)
    requires
        sorted_by_sequence(st.events),
        0 <= p < st.events.len(),
    ensures
        sorted_by_sequence(st.removed_at(p).events),
{
    let r = st.removed_at(p).events;
    assert forall|i: int, j: int| 0 <= i < j < r.len() implies (#[trigger] r[i]).event.sequence < (
    #[trigger] r[j]).event.sequence by {
        let i1 = if i < p { i } else { i + 1 };
        let j1 = if j < p { j } else { j + 1 };
        assert(r[i] == st.events[i1]);
        assert(r[j] == st.events[j1]);
    }
}

pub proof fn lemma_prunes_sorted(st: StoreView, cutoff: u64)
    requires
        sorted_by_sequence(st.events),
    ensures
        sorted_by_sequence(prune_time(st, cutoff).events),
        sorted_by_sequence(prune_caps(st).events),
    decreases st.events.len(),
{
    if st.events.len() > 0 && st.events[0].event.monotonic_ms < cutoff {
        lemma_removed_sorted(st, 0);
        lemma_prunes_sorted(st.removed_at(0), cutoff);
    }
    if st.over_caps() && st.events.len() > 0 {
        lemma_cap_victim(st);
        lemma_removed_sorted(st, st.cap_victim());
        lemma_prunes_sorted(st.removed_at(st.cap_victim()), cutoff);
    }
}

/// Receipt order is kept: when events are recorded in increasing sequence, the
/// retained events stay in increasing sequence, so cross-plane arrival order can
/// be rebuilt from them.
pub proof fn law_record_keeps_receipt_order(st: StoreView, ev: StoredEvent)
    requires
        sorted_by_sequence(st.events),
        st.events.len() == 0 || st.events.last().event.sequence < ev.event.sequence,
    ensures
        sorted_by_sequence(st.recorded(ev).events),
{
    let pushed = st.pushed(ev);
    assert forall|i: int, j: int|
        0 <= i < j < pushed.events.len() implies (#[trigger] pushed.events[i]).event.sequence < (
    #[trigger] pushed.events[j]).event.sequence by {
        if j < st.events.len() {
            assert(pushed.events[i] == st.events[i]);
            assert(pushed.events[j] == st.events[j]);
        } else {
            assert(pushed.events[i] == st.events[i]);
            assert(pushed.events[j] == ev);
            if i < st.events.len() - 1 {
                assert(st.events[i].event.sequence < st.events[st.events.len() - 1].event.sequence);
            }
        }
    }
    let c = ev.event.monotonic_ms.saturating_sub(st.config.retention_ms);
    lemma_prunes_sorted(pushed, c);
    lemma_prunes_sorted(prune_time(pushed, c), c);
}

/// `f` maps each position of `a` to a position of `b` holding the same element,
/// in increasing order.
pub open spec fn embeds<A>(f: spec_fn(int) -> int, a: Seq<A>, b: Seq<A>) -> bool {
    &&& forall|i: int| 0 <= i < a.len() ==> 0 <= #[trigger] f(i) < b.len() && a[i] == b[f(i)]
    &&& forall|i: int, j: int| 0 <= i < j < a.len() ==> #[trigger] f(i) < #[trigger] f(j)
}

/// `a` is `b` with some elements left out and the rest in their order.
pub open spec fn is_subseq<A>(a: Seq<A>, b: Seq<A>) -> bool {
    exists|f: spec_fn(int) -> int| #[trigger] embeds(f, a, b)
}

pub proof fn lemma_subseq_refl<A>(a: Seq<A>)
    ensures
        is_subseq(a, a),
{
    let f = |i: int| i;
    assert(embeds(f, a, a));
}

pub proof fn lemma_subseq_remove<A>(a: Seq<A>, p: int)
    requires
        0 <= p < a.len(),
    ensures
        is_subseq(a.remove(p), a),
{
    let f = |i: int| if i < p { i } else { i + 1 };
    assert(embeds(f, a.remove(p), a));
}

pub proof fn lemma_subseq_trans<A>(a: Seq<A>, b: Seq<A>, c: Seq<A>)
    requires
        is_subseq(a, b),
        is_subseq(b, c),
    ensures
        is_subseq(a, c),
{
    let f = choose|f: spec_fn(int) -> int| #[trigger] embeds(f, a, b);
    let g = choose|g: spec_fn(int) -> int| #[trigger] embeds(g, b, c);
    let h = |i: int| g(f(i));
    assert forall|i: int| 0 <= i < a.len() implies 0 <= #[trigger] h(i) < c.len() && a[i] == c[h(i)] by {
        assert(0 <= f(i) < b.len());
        assert(0 <= g(f(i)) < c.len());
    }
    assert forall|i: int, j: int| 0 <= i < j < a.len() implies #[trigger] h(i) < #[trigger] h(j) by {
        assert(f(i) < f(j));
        assert(0 <= f(j) < b.len());
        assert(0 <= f(i));
        assert(g(f(i)) < g(f(j)));
    }
    assert(embeds(h, a, c));
}

pub proof fn lemma_prunes_subseq(st: StoreView, cutoff: u64)
    ensures
        is_subseq(prune_time(st, cutoff).events, st.events),
        is_subseq(prune_caps(st).events, st.events),
    decreases st.events.len(),
{
    lemma_subseq_refl(st.events);
    if st.events.len() > 0 && st.events[0].event.monotonic_ms < cutoff {
        lemma_prunes_subseq(st.removed_at(0), cutoff);
        lemma_subseq_remove(st.events, 0);
        lemma_subseq_trans(prune_time(st, cutoff).events, st.removed_at(0).events, st.events);
    }
    if st.over_caps() && st.events.len() > 0 {
        lemma_cap_victim(st);
        let v = st.cap_victim();
        lemma_prunes_subseq(st.removed_at(v), cutoff);
        lemma_subseq_remove(st.events, v);
        lemma_subseq_trans(prune_caps(st).events, st.removed_at(v).events, st.events);
    }
}

/// Recording keeps order: the retained events afterwards are those before it with
/// the new event appended, some left out, the rest in their order.
pub proof fn law_record_keeps_order(st: StoreView, ev: StoredEvent)
    ensures
        is_subseq(st.recorded(ev).events, st.events.push(ev)),
{
    let pushed = st.pushed(ev);
    let c = ev.event.monotonic_ms.saturating_sub(st.config.retention_ms);
    lemma_prunes_subseq(pushed, c);
    lemma_prunes_subseq(prune_time(pushed, c), c);
    lemma_subseq_trans(st.recorded(ev).events, prune_time(pushed, c).events, pushed.events);
}

/// Idle eviction keeps order: the retained events afterwards are those before it
/// with some left out, the rest in their order.
pub proof fn law_idle_eviction_keeps_order(st: StoreView, idle: Seq<String>, pos: int)
    ensures
        is_subseq(evict_content(st, idle, pos).events, st.events),
    decreases pos,
{
    lemma_subseq_refl(st.events);
    if 0 < pos <= st.events.len() {
        let p = pos - 1;
        let next = if idle_delta(st.events[p], idle) {
            st.removed_at(p)
        } else {
            st
        };
        law_idle_eviction_keeps_order(next, idle, p);
        if idle_delta(st.events[p], idle) {
            lemma_subseq_remove(st.events, p);
            lemma_subseq_trans(evict_content(st, idle, pos).events, next.events, st.events);
        }
    }
}

/// Retained events in non-decreasing monotonic time.
pub open spec fn times_ordered(es: Seq<StoredEvent>) -> bool {
    forall|i: int, j: int|
        0 <= i < j < es.len() ==> (#[trigger] es[i]).event.monotonic_ms <= (
        #[trigger] es[j]).event.monotonic_ms
}

pub proof fn lemma_subseq_times_ordered(a: Seq<StoredEvent>, b: Seq<StoredEvent>)
    requires
        is_subseq(a, b),
        times_ordered(b),
    ensures
        times_ordered(a),
{
    let f = choose|f: spec_fn(int) -> int| #[trigger] embeds(f, a, b);
    assert forall|i: int, j: int| 0 <= i < j < a.len() implies (#[trigger] a[i]).event.monotonic_ms
        <= (#[trigger] a[j]).event.monotonic_ms by {
        assert(f(i) < f(j));
        assert(0 <= f(i) < b.len() && a[i] == b[f(i)]);
        assert(0 <= f(j) < b.len() && a[j] == b[f(j)]);
    }
}

pub proof fn lemma_prune_time_front(st: StoreView, cutoff: u64)
    ensures
        prune_time(st, cutoff).events.len() == 0 || prune_time(st, cutoff).events[0].event.monotonic_ms
            >= cutoff,
    decreases st.events.len(),
{
    if st.events.len() > 0 && st.events[0].event.monotonic_ms < cutoff {
        lemma_prune_time_front(st.removed_at(0), cutoff);
    }
}

/// When events arrive in non-decreasing monotonic time, recording leaves every
/// retained event within the retention window of the newest one. (With times out
/// of order an older event can stay behind a newer one at the front.)
pub proof fn law_record_keeps_window(st: StoreView, ev: StoredEvent)
    requires
        times_ordered(st.events),
        st.events.len() == 0 || st.events.last().event.monotonic_ms <= ev.event.monotonic_ms,
    ensures
        forall|j: int|
            0 <= j < st.recorded(ev).events.len() ==> (#[trigger] st.recorded(ev).events[j]).event.monotonic_ms
                >= ev.event.monotonic_ms.saturating_sub(st.config.retention_ms),
{
    let pushed = st.pushed(ev);
    let c = ev.event.monotonic_ms.saturating_sub(st.config.retention_ms);
    assert forall|i: int, j: int| 0 <= i < j < pushed.events.len() implies (
    #[trigger] pushed.events[i]).event.monotonic_ms <= (#[trigger] pushed.events[j]).event.monotonic_ms by {
        assert(pushed.events[i] == st.events[i]);
        if j < st.events.len() {
            assert(pushed.events[j] == st.events[j]);
        } else if i < st.events.len() - 1 {
            assert(st.events[i].event.monotonic_ms <= st.events[st.events.len() - 1].event.monotonic_ms);
        }
    }
    let p = prune_time(pushed, c);
    lemma_prunes_subseq(pushed, c);
    lemma_subseq_times_ordered(p.events, pushed.events);
    lemma_prune_time_front(pushed, c);
    assert forall|k: int| 0 <= k < p.events.len() implies (#[trigger] p.events[k]).event.monotonic_ms >= c by {
        if k > 0 {
            assert(p.events[0].event.monotonic_ms <= p.events[k].event.monotonic_ms);
        }
    }
    let r = st.recorded(ev);
    lemma_prunes_subseq(p, c);
    let f = choose|f: spec_fn(int) -> int| #[trigger] embeds(f, r.events, p.events);
    assert forall|j: int| 0 <= j < r.events.len() implies (#[trigger] r.events[j]).event.monotonic_ms
        >= c by {
        assert(0 <= f(j) < p.events.len() && r.events[j] == p.events[f(j)]);
    }
}

fn find_gap(gs: &Vec<(Option<String>, RetentionGap)>, k: &Option<String>) -> (r: Option<usize>)
    ensures
        match r {
            Some(i) => gap_index(gs@, string_view(*k)) == Some(i as int),
            None => gap_index(gs@, string_view(*k)) is None,
        },
{
    let n = gs.len();
    let mut i: usize = 0;
    while i < n
        invariant
            n == gs@.len(),
            i <= n,
            forall|j: int| 0 <= j < i ==> string_view((#[trigger] gs@[j]).0) != string_view(*k),
        decreases n - i,
    {
        if same_text(&gs[i].0, k) {
            proof {
                lemma_gap_index(gs@, string_view(*k));
            }
            return Some(i);
        }
        i += 1;
    }
    proof {
        lemma_gap_index(gs@, string_view(*k));
    }
    None
}

fn find_over(tb: &Vec<(String, usize)>, cap: usize) -> (r: Option<usize>)
    ensures
        match r {
            Some(i) => over_thread(tb@, cap) == Some(i as int),
            None => over_thread(tb@, cap) is None,
        },
{
    let n = tb.len();
    let mut i: usize = 0;
    while i < n
        invariant
            n == tb@.len(),
            i <= n,
            forall|j: int| 0 <= j < i ==> (#[trigger] tb@[j]).1 <= cap,
        decreases n - i,
    {
        if tb[i].1 > cap {
            proof {
                lemma_over_thread(tb@, cap);
            }
            return Some(i);
        }
        i += 1;
    }
    proof {
        lemma_over_thread(tb@, cap);
    }
    None
}

fn find_victim(es: &VecDeque<StoredEvent>, t: Option<&str>) -> (r: Option<usize>)
    ensures
        match r {
            Some(i) => delta_victim(es@, crate::json::str_view(t)) == Some(i as int),
            None => delta_victim(es@, crate::json::str_view(t)) is None,
        },
{
    let ghost tv = crate::json::str_view(t);
    let n = es.len();
    let mut i: usize = 0;
    while i < n
        invariant
            n == es@.len(),
            i <= n,
            tv == crate::json::str_view(t),
            forall|j: int| 0 <= j < i ==> !is_victim(#[trigger] es@[j], tv),
        decreases n - i,
    {
        let ev = &es[i];
        let victim = ev.event.plane == Plane::Delta && match t {
            None => true,
            Some(name) => match &ev.event.thread_id {
                Some(id) => text_eq(id.as_str(), name),
                None => false,
            },
        };
        if victim {
            proof {
                lemma_delta_victim(es@, tv);
            }
            return Some(i);
        }
        i += 1;
    }
    proof {
        lemma_delta_victim(es@, tv);
    }
    None
}

fn max_of(a: Option<u64>, b: Option<u64>) -> (r: Option<u64>)
    ensures
        r == max_opt(a, b),
{
    match (a, b) {
        (Some(x), Some(y)) => Some(if x >= y { x } else { y }),
        (Some(x), None) => Some(x),
        (None, _) => b,
    }
}

fn min_of(a: Option<u64>, b: Option<u64>) -> (r: Option<u64>)
    ensures
        r == min_opt(a, b),
{
    match (a, b) {
        (Some(x), Some(y)) => Some(if x <= y { x } else { y }),
        (Some(x), None) => Some(x),
        (None, _) => b,
    }
}

fn bumped(g: RetentionGap, e: &SequencedEvent) -> (r: RetentionGap)
    requires
        g.summarized_delta_events < u64::MAX,
        g.evicted_lifecycle_events < u64::MAX,
    ensures
        r == bump(g, *e),
{
    let time = match e.emitted_at_ms {
        Some(t) => t,
        None => e.unix_receipt_ms,
    };
    let delta = e.plane == Plane::Delta;
    RetentionGap {
        before_sequence: max_of(g.before_sequence, Some(e.sequence)),
        from_sequence: min_of(g.from_sequence, Some(e.sequence)),
        from_unix_ms: min_of(g.from_unix_ms, Some(time)),
        through_unix_ms: max_of(g.through_unix_ms, Some(time)),
        summarized_delta_events: if delta {
            g.summarized_delta_events + 1
        } else {
            g.summarized_delta_events
        },
        evicted_lifecycle_events: if delta {
            g.evicted_lifecycle_events
        } else {
            g.evicted_lifecycle_events + 1
        },
    }
}

fn merged_with(a: RetentionGap, b: RetentionGap) -> (r: RetentionGap)
    ensures
        r == merge_gap(a, b),
{
    RetentionGap {
        before_sequence: max_of(a.before_sequence, b.before_sequence),
        from_sequence: min_of(a.from_sequence, b.from_sequence),
        from_unix_ms: min_of(a.from_unix_ms, b.from_unix_ms),
        through_unix_ms: max_of(a.through_unix_ms, b.through_unix_ms),
        summarized_delta_events: a.summarized_delta_events.saturating_add(b.summarized_delta_events),
        evicted_lifecycle_events: a.evicted_lifecycle_events.saturating_add(
            b.evicted_lifecycle_events,
        ),
    }
}

/// The bounded event store.
pub struct EventStore {
    config: StoreConfig,
    events: VecDeque<StoredEvent>,
    bytes: usize,
    thread_bytes: Vec<(String, usize)>,
    gaps: Vec<(Option<String>, RetentionGap)>,
    started_at: std::time::Instant,
}

impl EventStore {
    pub closed spec fn view(&self) -> StoreView {
        StoreView {
            config: self.config,
            events: self.events@,
            bytes: self.bytes,
            thread_bytes: self.thread_bytes@,
            gaps: self.gaps@,
        }
    }

    /// An empty store with the given limits.
    pub fn new(config: StoreConfig) -> (r: Self)
        ensures
            r@.inv(),
            r@.config == config,
            r@.events.len() == 0,
            r@.bytes == 0,
            r@.thread_bytes.len() == 0,
            r@.gaps.len() == 0,
    {
        EventStore {
            config,
            events: VecDeque::new(),
            bytes: 0,
            thread_bytes: Vec::new(),
            gaps: Vec::new(),
            started_at: instant_now(),
        }
    }

    /// Milliseconds since the store was created (its monotonic clock).
    pub fn monotonic_ms(&self) -> u64 {
        elapsed_ms(&self.started_at)
    }

    /// Records an event of `encoded_len` bytes, then evicts events older than the
    /// retention window and, while a byte cap is exceeded, the event chosen by
    /// [`StoreView::cap_victim`]: the oldest delta of the thread over its cap, else
    /// that thread's oldest event (with only the global cap exceeded, the oldest
    /// delta of any thread, else the oldest event).
    pub fn record(&mut self, event: Arc<SequencedEvent>, encoded_len: usize)
        requires
            old(self)@.inv(),
            old(self)@.has_room(encoded_len),
        ensures
            final(self)@.inv(),
            final(self)@ == old(self)@.recorded(StoredEvent { event, encoded_len }),
    {
        let ghost o = self@;
        let ghost ev = StoredEvent { event, encoded_len };
        proof {
            lemma_sizes_zero(o.events, Seq::empty());
        }
        let mono = event.monotonic_ms;
        self.bytes = self.bytes + encoded_len;
        match &event.thread_id {
            Some(t) => {
                match find_bytes(&self.thread_bytes, t.as_str()) {
                    Some(i) => {
                        proof {
                            lemma_bytes_index(self.thread_bytes@, t@);
                            lemma_sizes_zero(o.events, t@);
                        }
                        let b = self.thread_bytes[i].1;
                        self.thread_bytes.set(i, (self.thread_bytes[i].0.clone(), b + encoded_len));
                    },
                    None => {
                        self.thread_bytes.push((t.clone(), encoded_len));
                    },
                }
            },
            None => {},
        }
        self.events.push_back(StoredEvent { event, encoded_len });
        proof {
            lemma_pushed_inv(o, ev);
            assert(self@ == o.pushed(ev));
        }
        let cutoff = mono.saturating_sub(self.config.retention_ms);
        let ghost after_time = prune_time(self@, cutoff);
        while self.events.len() > 0 && self.events[0].event.monotonic_ms < cutoff
            invariant
                self@.inv(),
                prune_time(self@, cutoff) == after_time,
                self@.config == o.config,
            decreases self@.events.len(),
        {
            proof {
                assert(self.events@.len() == self.events.len());
                lemma_removed_inv(self@, 0);
            }
            self.remove_at(0);
        }
        let ghost target = prune_caps(self@);
        loop
            invariant
                self@.inv(),
                prune_caps(self@) == target,
                self@.config == o.config,
            ensures
                self@ == target,
                self@.inv(),
            decreases self@.events.len(),
        {
            let over_global = self.bytes > self.config.global_bytes;
            let over = find_over(&self.thread_bytes, self.config.per_thread_bytes);
            if !over_global && over.is_none() {
                break;
            }
            proof {
                lemma_over_nonempty(self@);
                lemma_over_thread(self.thread_bytes@, self.config.per_thread_bytes);
            }
            let victim = match over {
                Some(i) => find_victim(&self.events, Some(self.thread_bytes[i].0.as_str())),
                None => find_victim(&self.events, None),
            };
            let p = match victim {
                Some(i) => i,
                None => match over {
                    Some(i) => match find_oldest(&self.events, self.thread_bytes[i].0.as_str()) {
                        Some(j) => j,
                        None => 0,
                    },
                    None => 0,
                },
            };
            proof {
                let t = self@.capped_thread();
                lemma_delta_victim(self@.events, t);
                lemma_cap_victim(self@);
                assert(p == self@.cap_victim());
                assert(self.events@.len() == self.events.len());
                lemma_removed_inv(self@, p as int);
            }
            self.remove_at(p);
        }
    }

    /// The retained events of `thread_id` (all threads when `None`) with
    /// `after < sequence <= through`, oldest first, and the gap of that thread (of
    /// all threads taken together when `None`).
    pub fn query_sequence(&self, thread_id: Option<&str>, after: Sequence, through: Option<Sequence>) -> (r: QueryResult)
        ensures
            r.events@ == by_sequence(self@.events, crate::json::str_view(thread_id), after, through),
            r.gap == query_gap(self@.gaps, crate::json::str_view(thread_id)),
    {
        let ghost t = crate::json::str_view(thread_id);
        let ghost es = self@.events;
        let n = self.events.len();
        let mut out: Vec<Arc<SequencedEvent>> = Vec::new();
        let mut i: usize = 0;
        while i < n
            invariant
                n == es.len(),
                es == self.events@,
                t == crate::json::str_view(thread_id),
                i <= n,
                out@ == by_sequence(es.take(i as int), t, after, through),
            decreases n - i,
        {
            proof {
                assert(es.take(i + 1).drop_last() =~= es.take(i as int));
                assert(es.take(i + 1).last() == es[i as int]);
            }
            let e = &self.events[i].event;
            let in_range = e.sequence > after && match through {
                Some(end) => e.sequence <= end,
                None => true,
            };
            let of_thread = match thread_id {
                None => true,
                Some(name) => match &e.thread_id {
                    Some(id) => text_eq(id.as_str(), name),
                    None => false,
                },
            };
            if in_range && of_thread {
                out.push(self.events[i].event.clone());
            }
            i += 1;
        }
        proof {
            assert(es.take(n as int) =~= es);
        }
        QueryResult { events: out, gap: self.gap_of(thread_id) }
    }

    /// The retained events of `thread_id` (all threads when `None`) whose time
    /// (emission, else receipt) lies within the tolerance of `[start_unix_ms,
    /// end_unix_ms]`, oldest first, and the gap of that thread (of all threads taken
    /// together when `None`).
    pub fn query_time(&self, thread_id: Option<&str>, start_unix_ms: u64, end_unix_ms: u64) -> (r: QueryResult)
        ensures
            r.events@ == by_time(
                self@.events,
                crate::json::str_view(thread_id),
                start_unix_ms,
                end_unix_ms,
                self@.config.emitted_at_tolerance_ms,
            ),
            r.gap == query_gap(self@.gaps, crate::json::str_view(thread_id)),
    {
        let tolerance = self.config.emitted_at_tolerance_ms;
        let ghost t = crate::json::str_view(thread_id);
        let ghost es = self@.events;
        let n = self.events.len();
        let mut out: Vec<Arc<SequencedEvent>> = Vec::new();
        let mut i: usize = 0;
        while i < n
            invariant
                n == es.len(),
                es == self.events@,
                t == crate::json::str_view(thread_id),
                tolerance == self@.config.emitted_at_tolerance_ms,
                i <= n,
                out@ == by_time(es.take(i as int), t, start_unix_ms, end_unix_ms, tolerance),
            decreases n - i,
        {
            proof {
                assert(es.take(i + 1).drop_last() =~= es.take(i as int));
                assert(es.take(i + 1).last() == es[i as int]);
            }
            let e = &self.events[i].event;
            let timestamp = match e.emitted_at_ms {
                Some(x) => x,
                None => e.unix_receipt_ms,
            };
            let in_range = timestamp.saturating_add(tolerance) >= start_unix_ms && timestamp
                <= end_unix_ms.saturating_add(tolerance);
            let of_thread = match thread_id {
                None => true,
                Some(name) => match &e.thread_id {
                    Some(id) => text_eq(id.as_str(), name),
                    None => false,
                },
            };
            if in_range && of_thread {
                out.push(self.events[i].event.clone());
            }
            i += 1;
        }
        proof {
            assert(es.take(n as int) =~= es);
        }
        QueryResult { events: out, gap: self.gap_of(thread_id) }
    }

    fn gap_of(&self, thread_id: Option<&str>) -> (r: Option<RetentionGap>)
        ensures
            r == query_gap(self@.gaps, crate::json::str_view(thread_id)),
    {
        match thread_id {
            Some(t) => {
                let key: Option<String> = Some(t.to_owned());
                match find_gap(&self.gaps, &key) {
                    Some(i) => {
                        proof {
                            lemma_gap_index(self.gaps@, string_view(key));
                        }
                        Some(self.gaps[i].1)
                    },
                    None => None,
                }
            },
            None => {
                let n = self.gaps.len();
                if n == 0 {
                    return None;
                }
                let ghost gs = self.gaps@;
                let mut acc = RetentionGap {
                    before_sequence: None,
                    from_sequence: None,
                    from_unix_ms: None,
                    through_unix_ms: None,
                    summarized_delta_events: 0,
                    evicted_lifecycle_events: 0,
                };
                let mut i: usize = 0;
                while i < n
                    invariant
                        n == gs.len(),
                        gs == self.gaps@,
                        i <= n,
                        acc == merged(gs.take(i as int)),
                    decreases n - i,
                {
                    proof {
                        assert(gs.take(i + 1).drop_last() =~= gs.take(i as int));
                        assert(gs.take(i + 1).last() == gs[i as int]);
                    }
                    acc = merged_with(acc, self.gaps[i].1);
                    i += 1;
                }
                proof {
                    assert(gs.take(n as int) =~= gs);
                }
                Some(acc)
            },
        }
    }

    /// Evicts the retained deltas of the given idle threads, newest first.
    pub fn evict_idle_content(&mut self, idle_threads: &[String])
        requires
            old(self)@.inv(),
        ensures
            final(self)@.inv(),
            final(self)@ == evict_content(old(self)@, idle_threads@, old(self)@.events.len() as int),
    {
        let ghost target = evict_content(self@, idle_threads@, self@.events.len() as int);
        let mut position = self.events.len();
        while position > 0
            invariant
                self@.inv(),
                position <= self@.events.len(),
                evict_content(self@, idle_threads@, position as int) == target,
            decreases position,
        {
            position -= 1;
            let remove = {
                let e = &self.events[position].event;
                e.plane == Plane::Delta && match &e.thread_id {
                    Some(id) => names_hold(idle_threads, id.as_str()),
                    None => false,
                }
            };
            if remove {
                proof {
                    assert(self.events@.len() == self.events.len());
                    lemma_removed_inv(self@, position as int);
                }
                self.remove_at(position);
            }
        }
    }

    /// Records a reconstructed `turn/started` anchor (as built by
    /// `SequencedEvent::reconstructed_active_turn`) unless a genuine wire
    /// `turn/started` for the same thread and turn is retained; returns whether it
    /// was recorded.
    pub fn record_reconstructed_active_turn(&mut self, anchor: Arc<SequencedEvent>, encoded_len: usize) -> (recorded: bool)
        requires
            anchor.reconstructed,
            anchor.plane == Plane::Lifecycle,
            anchor.frame.method_view() == Some("turn/started"@),
            anchor.thread_id is Some,
            anchor.turn_id is Some,
            old(self)@.inv(),
            old(self)@.has_room(encoded_len),
        ensures
            final(self)@.inv(),
            recorded == !has_wire_start(old(self)@.events, *anchor),
            recorded ==> final(self)@ == old(self)@.recorded(StoredEvent { event: anchor, encoded_len }),
            !recorded ==> final(self)@ == old(self)@,
    {
        let n = self.events.len();
        let mut i: usize = 0;
        while i < n
            invariant
                n == self@.events.len(),
                self@.inv(),
                i <= n,
                forall|j: int| 0 <= j < i ==> !is_wire_start_of(#[trigger] self@.events[j], *anchor),
            decreases n - i,
        {
            let e = &self.events[i].event;
            let is_start = !e.reconstructed && match e.method() {
                Some(m) => text_eq(m, "turn/started"),
                None => false,
            } && same_text(&e.thread_id, &anchor.thread_id) && same_text(&e.turn_id, &anchor.turn_id);
            if is_start {
                assert(is_wire_start_of(self@.events[i as int], *anchor));
                return false;
            }
            i += 1;
        }
        self.record(anchor, encoded_len);
        true
    }

    /// Whether an event of `encoded_len` bytes can be recorded without overflowing
    /// the byte total or a gap counter (see [`StoreView::has_room`]).
    pub fn has_room(&self, encoded_len: usize) -> (r: bool)
        ensures
            r == self@.has_room(encoded_len),
    {
        if encoded_len > usize::MAX - self.bytes {
            return false;
        }
        let len = self.events.len();
        assert(self.events@.len() == len);
        if len as u64 == u64::MAX {
            let ghost gs = self@.gaps;
            proof {
                if gs.len() > 0 {
                    assert(gs[0].1.summarized_delta_events + self@.events.len() + 1 > u64::MAX);
                }
            }
            return self.gaps.len() == 0;
        }
        let room = u64::MAX - 1 - (len as u64);
        let n = self.gaps.len();
        let mut i: usize = 0;
        while i < n
            invariant
                n == self@.gaps.len(),
                i <= n,
                len == self@.events.len(),
                len < u64::MAX,
                room == u64::MAX - 1 - len,
                forall|j: int|
                    0 <= j < i ==> #[trigger] self@.gaps[j].1.summarized_delta_events
                        + self@.events.len() + 1 <= u64::MAX && self@.gaps[j].1.evicted_lifecycle_events
                        + self@.events.len() + 1 <= u64::MAX,
            decreases n - i,
        {
            let g = self.gaps[i].1;
            if g.summarized_delta_events > room || g.evicted_lifecycle_events > room {
                return false;
            }
            i += 1;
        }
        true
    }

    /// The number of retained events.
    pub fn len(&self) -> (r: usize)
        ensures
            r == self@.events.len(),
    {
        self.events.len()
    }

    /// Whether no event is retained.
    pub fn is_empty(&self) -> (r: bool)
        ensures
            r == (self@.events.len() == 0),
    {
        self.events.len() == 0
    }

    /// The bytes the retained events count for.
    pub fn bytes(&self) -> (r: usize)
        ensures
            r == self@.bytes,
    {
        self.bytes
    }

    /// Evicts the event at position `p`, accounting for it in its thread's gap.
    fn remove_at(&mut self, p: usize)
        requires
            old(self)@.inv(),
            p < old(self)@.events.len(),
        ensures
            final(self)@.inv(),
            final(self)@ == old(self)@.removed_at(p as int),
    {
        let ghost o = self@;
        let ghost oev = o.events[p as int];
        assert(self.events@.len() == self.events.len());
        let ev = match self.events.remove(p) {
            Some(ev) => ev,
            None => {
                return ;
            },
        };
        let size = ev.encoded_len;
        proof {
            lemma_sizes_remove(o.events, p as int, Seq::empty());
        }
        self.bytes = self.bytes.saturating_sub(size);
        match &ev.event.thread_id {
            Some(t) => {
                match find_bytes(&self.thread_bytes, t.as_str()) {
                    Some(i) => {
                        proof {
                            lemma_bytes_index(self.thread_bytes@, t@);
                        }
                        let b = self.thread_bytes[i].1;
                        self.thread_bytes.set(i, (self.thread_bytes[i].0.clone(), b.saturating_sub(size)));
                    },
                    None => {
                        self.thread_bytes.push((t.clone(), 0));
                    },
                }
            },
            None => {},
        }
        match find_gap(&self.gaps, &ev.event.thread_id) {
            Some(i) => {
                proof {
                    lemma_gap_index(self.gaps@, event_thread(oev));
                }
                let g = self.gaps[i].1;
                proof {
                    assert(o.gaps[i as int].1.summarized_delta_events + o.events.len() <= u64::MAX);
                }
                let k = copy_text(&self.gaps[i].0);
                self.gaps.set(i, (k, bumped(g, &ev.event)));
            },
            None => {
                let fresh = RetentionGap {
                    before_sequence: None,
                    from_sequence: None,
                    from_unix_ms: None,
                    through_unix_ms: None,
                    summarized_delta_events: 0,
                    evicted_lifecycle_events: 0,
                };
                self.gaps.push((copy_text(&ev.event.thread_id), bumped(fresh, &ev.event)));
            },
        }
        proof {
            assert(o.events.len() <= usize::MAX);
            lemma_removed_inv(o, p as int);
        }
    }
}


impl Default for EventStore {
    /// An empty store with the default limits.
    fn default() -> (r: Self)
        ensures
            r@.inv(),
            r@.events.len() == 0,
            r@.config.retention_ms == 600_000,
            r@.config.per_thread_bytes == 8 * 1024 * 1024,
            r@.config.global_bytes == 64 * 1024 * 1024,
            r@.config.emitted_at_tolerance_ms == 2000,
    {
        EventStore::new(StoreConfig::default())
    }
}

} // verus!
