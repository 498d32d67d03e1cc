//! Authoritative lifecycle reducer: per-thread state, bounded lifecycle replay,
//! subscription relevance and completion waiters.

use vstd::prelude::*;
use std::collections::VecDeque;
use std::sync::Arc;
use crate::json::{
    bool_in, get_in, get_opt, lemma_view_items, opt_view, str_in, str_opt, string_view,
    view_items, Json, JsonValue,
};
use crate::protocol::{or_empty, Plane, Sequence, SequencedEvent};
use crate::text::text_eq;

verus! {

/// What the reducer knows of one thread.
#[derive(Debug, PartialEq)]
pub struct ThreadState {
    pub thread_id: String,
    pub status: String,
    pub active_turn_id: Option<String>,
    pub subscribed: bool,
    pub ephemeral: bool,
    pub last_sequence: Sequence,
    pub raw_thread: Option<JsonValue>,
}

/// The view of a [`ThreadState`].
pub struct ThreadView {
    pub thread_id: Seq<char>,
    pub status: Seq<char>,
    pub active_turn_id: Option<Seq<char>>,
    pub subscribed: bool,
    pub ephemeral: bool,
    pub last_sequence: u64,
    pub raw_thread: Option<Json>,
}

impl ThreadState {
    pub open spec fn view(&self) -> ThreadView {
        ThreadView {
            thread_id: self.thread_id@,
            status: self.status@,
            active_turn_id: string_view(self.active_turn_id),
            subscribed: self.subscribed,
            ephemeral: self.ephemeral,
            last_sequence: self.last_sequence,
            raw_thread: opt_view(self.raw_thread),
        }
    }

    /// The entry made for a thread the reducer had no state for.
    pub fn fresh(thread_id: &str) -> (r: ThreadState)
        ensures
            r@ == fresh_thread(thread_id@),
    {
        ThreadState {
            thread_id: thread_id.to_owned(),
            status: "unknown".to_owned(),
            active_turn_id: None,
            subscribed: false,
            ephemeral: false,
            last_sequence: 0,
            raw_thread: None,
        }
    }

    /// A copy with the same view.
    pub fn copy_state(&self) -> (r: ThreadState)
        ensures
            r@ == self@,
    {
        ThreadState {
            thread_id: self.thread_id.clone(),
            status: self.status.clone(),
            active_turn_id: copy_text(&self.active_turn_id),
            subscribed: self.subscribed,
            ephemeral: self.ephemeral,
            last_sequence: self.last_sequence,
            raw_thread: match &self.raw_thread {
                Some(v) => Some(v.deep_copy()),
                None => None,
            },
        }
    }
}

impl Clone for ThreadState {
    fn clone(&self) -> (r: Self)
        ensures
            r@ == self@,
    {
        self.copy_state()
    }
}

/// An optional text, copied.
pub fn copy_text(t: &Option<String>) -> (r: Option<String>)
    ensures
        r == *t,
{
    match t {
        Some(s) => Some(s.clone()),
        None => None,
    }
}

/// Whether two optional texts are equal.
pub fn same_text(a: &Option<String>, b: &Option<String>) -> (r: bool)
    ensures
        r == (string_view(*a) == string_view(*b)),
{
    match (a, b) {
        (Some(x), Some(y)) => text_eq(x.as_str(), y.as_str()),
        (None, None) => true,
        _ => false,
    }
}

/// The state of a thread first seen.
pub open spec fn fresh_thread(id: Seq<char>) -> ThreadView {
    ThreadView {
        thread_id: id,
        status: "unknown"@,
        active_turn_id: None,
        subscribed: false,
        ephemeral: false,
        last_sequence: 0,
        raw_thread: None,
    }
}

/// A thread with no subscription and no active turn is not worth keeping.
pub open spec fn prunable(t: ThreadView) -> bool {
    !t.subscribed && t.active_turn_id is None
}

// ---------------------------------------------------------------------------
// Threads held in a vector, seen as a map keyed by thread id.
// ---------------------------------------------------------------------------

pub open spec fn ids_distinct(s: Seq<ThreadState>) -> bool {
    forall|i: int, j: int|
        0 <= i < s.len() && 0 <= j < s.len() && i != j ==> #[trigger] s[i].thread_id@
            != #[trigger] s[j].thread_id@
}

pub open spec fn has_id(s: Seq<ThreadState>, k: Seq<char>) -> bool {
    exists|i: int| 0 <= i < s.len() && #[trigger] s[i].thread_id@ == k
}

pub open spec fn threads_view(s: Seq<ThreadState>) -> Map<Seq<char>, ThreadView> {
    Map::new(
        |k: Seq<char>| has_id(s, k),
        |k: Seq<char>| s[choose|i: int| 0 <= i < s.len() && #[trigger] s[i].thread_id@ == k]@,
    )
}

pub proof fn lemma_threads_view_at(s: Seq<ThreadState>, i: int)
    requires
        ids_distinct(s),
        0 <= i < s.len(),
    ensures
        threads_view(s).contains_key(s[i].thread_id@),
        threads_view(s)[s[i].thread_id@] == s[i]@,
{
    let k = s[i].thread_id@;
    assert(has_id(s, k));
    let j = choose|j: int| 0 <= j < s.len() && #[trigger] s[j].thread_id@ == k;
    assert(j == i);
}

pub proof fn lemma_threads_view_absent(s: Seq<ThreadState>, k: Seq<char>)
    requires
        !has_id(s, k),
    ensures
        !threads_view(s).contains_key(k),
{
}

pub proof fn lemma_threads_push(s: Seq<ThreadState>, t: ThreadState)
    requires
        ids_distinct(s),
        !has_id(s, t.thread_id@),
    ensures
        ids_distinct(s.push(t)),
        threads_view(s.push(t)) == threads_view(s).insert(t.thread_id@, t@),
{
    let s2 = s.push(t);
    assert forall|i: int, j: int|
        0 <= i < s2.len() && 0 <= j < s2.len() && i != j implies #[trigger] s2[i].thread_id@
        != #[trigger] s2[j].thread_id@ by {
        if i < s.len() && j < s.len() {
            assert(s2[i] == s[i] && s2[j] == s[j]);
        } else if i < s.len() {
            assert(s2[i] == s[i]);
        } else {
            assert(s2[j] == s[j]);
        }
    }
    let m = threads_view(s).insert(t.thread_id@, t@);
    assert forall|k: Seq<char>| #[trigger] threads_view(s2).contains_key(k) <==> m.contains_key(k) by {
        if has_id(s2, k) {
            let i = choose|i: int| 0 <= i < s2.len() && #[trigger] s2[i].thread_id@ == k;
            if i < s.len() {
                assert(s2[i] == s[i]);
                assert(has_id(s, k));
            }
        }
        if has_id(s, k) {
            let i = choose|i: int| 0 <= i < s.len() && #[trigger] s[i].thread_id@ == k;
            assert(s2[i] == s[i]);
        }
        if k == t.thread_id@ {
            assert(s2[s.len() as int] == t);
        }
    }
    assert forall|k: Seq<char>| #[trigger] threads_view(s2).contains_key(k) implies threads_view(
        s2,
    )[k] == m[k] by {
        let i = choose|i: int| 0 <= i < s2.len() && #[trigger] s2[i].thread_id@ == k;
        lemma_threads_view_at(s2, i);
        if i < s.len() {
            assert(s2[i] == s[i]);
            lemma_threads_view_at(s, i);
        } else {
            assert(s2[i] == t);
        }
    }
    assert(threads_view(s2) =~= m);
}

pub proof fn lemma_threads_remove(s: Seq<ThreadState>, i: int)
    requires
        ids_distinct(s),
        0 <= i < s.len(),
    ensures
        ids_distinct(s.remove(i)),
        threads_view(s.remove(i)) == threads_view(s).remove(s[i].thread_id@),
        !has_id(s.remove(i), s[i].thread_id@),
{
    let s2 = s.remove(i);
    let gone = s[i].thread_id@;
    assert forall|a: int| 0 <= a < s2.len() implies #[trigger] s2[a] == (if a < i {
        s[a]
    } else {
        s[a + 1]
    }) by {}
    assert forall|a: int, b: int|
        0 <= a < s2.len() && 0 <= b < s2.len() && a != b implies #[trigger] s2[a].thread_id@
        != #[trigger] s2[b].thread_id@ by {
        let a1 = if a < i { a } else { a + 1 };
        let b1 = if b < i { b } else { b + 1 };
        assert(s2[a] == s[a1] && s2[b] == s[b1]);
    }
    assert forall|a: int| 0 <= a < s2.len() implies #[trigger] s2[a].thread_id@ != gone by {
        let a1 = if a < i { a } else { a + 1 };
        assert(s2[a] == s[a1]);
    }
    let m = threads_view(s).remove(gone);
    assert forall|k: Seq<char>| #[trigger] threads_view(s2).contains_key(k) <==> m.contains_key(k) by {
        if has_id(s2, k) {
            let a = choose|a: int| 0 <= a < s2.len() && #[trigger] s2[a].thread_id@ == k;
            let a1 = if a < i { a } else { a + 1 };
            assert(s2[a] == s[a1]);
            assert(has_id(s, k));
        }
        if has_id(s, k) && k != gone {
            let a = choose|a: int| 0 <= a < s.len() && #[trigger] s[a].thread_id@ == k;
            if a < i {
                assert(s2[a] == s[a]);
            } else {
                assert(a != i);
                assert(s2[a - 1] == s[a]);
            }
        }
    }
    assert forall|k: Seq<char>| #[trigger] threads_view(s2).contains_key(k) implies threads_view(
        s2,
    )[k] == m[k] by {
        let a = choose|a: int| 0 <= a < s2.len() && #[trigger] s2[a].thread_id@ == k;
        lemma_threads_view_at(s2, a);
        let a1 = if a < i { a } else { a + 1 };
        assert(s2[a] == s[a1]);
        lemma_threads_view_at(s, a1);
    }
    assert(threads_view(s2) =~= m);
}

/// Two vectors whose entries have the same views, position by position, show the
/// same threads.
pub proof fn lemma_threads_same_views(s: Seq<ThreadState>, t: Seq<ThreadState>)
    requires
        ids_distinct(s),
        s.len() == t.len(),
        forall|i: int| 0 <= i < s.len() ==> #[trigger] t[i]@ == s[i]@,
    ensures
        ids_distinct(t),
        threads_view(t) == threads_view(s),
{
    assert forall|i: int, j: int|
        0 <= i < t.len() && 0 <= j < t.len() && i != j implies #[trigger] t[i].thread_id@
        != #[trigger] t[j].thread_id@ by {
        assert(t[i]@ == s[i]@ && t[j]@ == s[j]@);
    }
    assert forall|k: Seq<char>| #[trigger] threads_view(t).contains_key(k) <==> threads_view(
        s,
    ).contains_key(k) by {
        if has_id(t, k) {
            let i = choose|i: int| 0 <= i < t.len() && #[trigger] t[i].thread_id@ == k;
            assert(t[i]@ == s[i]@);
            assert(has_id(s, k));
        }
        if has_id(s, k) {
            let i = choose|i: int| 0 <= i < s.len() && #[trigger] s[i].thread_id@ == k;
            assert(t[i]@ == s[i]@);
            assert(has_id(t, k));
        }
    }
    assert forall|k: Seq<char>| #[trigger] threads_view(t).contains_key(k) implies threads_view(
        t,
    )[k] == threads_view(s)[k] by {
        let i = choose|i: int| 0 <= i < t.len() && #[trigger] t[i].thread_id@ == k;
        assert(t[i]@ == s[i]@);
        lemma_threads_view_at(t, i);
        lemma_threads_view_at(s, i);
    }
    assert(threads_view(t) =~= threads_view(s));
}

/// The position of the thread `id`, if there is one.
pub fn find_thread(threads: &Vec<ThreadState>, id: &str) -> (r: Option<usize>)
    ensures
        match r {
            Some(i) => i < threads@.len() && threads@[i as int].thread_id@ == id@,
            None => !has_id(threads@, id@),
        },
{
    let n = threads.len();
    let mut i: usize = 0;
    while i < n
        invariant
            n == threads@.len(),
            i <= n,
            forall|j: int| 0 <= j < i ==> #[trigger] threads@[j].thread_id@ != id@,
        decreases n - i,
    {
        if text_eq(threads[i].thread_id.as_str(), id) {
            return Some(i);
        }
        i += 1;
    }
    None
}

/// A copy of a list of threads with the same views.
pub fn copy_threads(threads: &Vec<ThreadState>) -> (r: Vec<ThreadState>)
    ensures
        r@.len() == threads@.len(),
        forall|i: int| 0 <= i < threads@.len() ==> #[trigger] r@[i]@ == threads@[i]@,
{
    let mut out: Vec<ThreadState> = Vec::new();
    let n = threads.len();
    let mut i: usize = 0;
    while i < n
        invariant
            n == threads@.len(),
            i <= n,
            out@.len() == i,
            forall|j: int| 0 <= j < i ==> #[trigger] out@[j]@ == threads@[j]@,
        decreases n - i,
    {
        out.push(threads[i].copy_state());
        i += 1;
    }
    out
}

pub proof fn lemma_threads_len(s: Seq<ThreadState>)
    requires
        ids_distinct(s),
    ensures
        threads_view(s).dom().finite(),
        threads_view(s).dom().len() == s.len(),
    decreases s.len(),
{
    if s.len() == 0 {
        assert(threads_view(s).dom() =~= Set::<Seq<char>>::empty());
    } else {
        let p = s.drop_last();
        let t = s.last();
        assert(ids_distinct(p)) by {
            assert forall|i: int, j: int|
                0 <= i < p.len() && 0 <= j < p.len() && i != j implies #[trigger] p[i].thread_id@
                != #[trigger] p[j].thread_id@ by {
                assert(p[i] == s[i] && p[j] == s[j]);
            }
        }
        assert(!has_id(p, t.thread_id@)) by {
            if has_id(p, t.thread_id@) {
                let i = choose|i: int| 0 <= i < p.len() && #[trigger] p[i].thread_id@ == t.thread_id@;
                assert(p[i] == s[i]);
                assert(s[s.len() - 1] == t);
            }
        }
        lemma_threads_len(p);
        lemma_threads_push(p, t);
        assert(p.push(t) =~= s);
        assert(!threads_view(p).dom().contains(t.thread_id@));
        assert(threads_view(s).dom() =~= threads_view(p).dom().insert(t.thread_id@));
    }
}

/// Removes and returns the thread `id`.
pub fn take_thread(threads: &mut Vec<ThreadState>, id: &str) -> (r: Option<ThreadState>)
    requires
        ids_distinct(old(threads)@),
    ensures
        ids_distinct(final(threads)@),
        threads_view(final(threads)@) == threads_view(old(threads)@).remove(id@),
        !has_id(final(threads)@, id@),
        match r {
            Some(t) => threads_view(old(threads)@).contains_key(id@) && t@ == threads_view(
                old(threads)@,
            )[id@] && t.thread_id@ == id@,
            None => !threads_view(old(threads)@).contains_key(id@),
        },
{
    let ghost s0 = threads@;
    match find_thread(threads, id) {
        Some(i) => {
            proof {
                lemma_threads_view_at(s0, i as int);
                lemma_threads_remove(s0, i as int);
            }
            Some(threads.remove(i))
        },
        None => {
            assert(threads_view(s0).remove(id@) =~= threads_view(s0));
            None
        },
    }
}

/// Adds a thread whose id is not held yet.
pub fn put_thread(threads: &mut Vec<ThreadState>, t: ThreadState)
    requires
        ids_distinct(old(threads)@),
        !has_id(old(threads)@, t.thread_id@),
    ensures
        ids_distinct(final(threads)@),
        threads_view(final(threads)@) == threads_view(old(threads)@).insert(t.thread_id@, t@),
{
    proof {
        lemma_threads_push(threads@, t);
    }
    threads.push(t);
}

/// Whether `v` holds the name `id`.
pub fn names_contain(v: &Vec<String>, id: &str) -> (r: bool)
    ensures
        r == names(v@).contains(id@),
{
    let n = v.len();
    let mut i: usize = 0;
    while i < n
        invariant
            n == v@.len(),
            i <= n,
            forall|j: int| 0 <= j < i ==> #[trigger] v@[j]@ != id@,
        decreases n - i,
    {
        if text_eq(v[i].as_str(), id) {
            assert(names(v@).contains(id@));
            return true;
        }
        i += 1;
    }
    false
}

/// Adds the name `id` unless it is held.
fn names_insert(v: &mut Vec<String>, id: &str)
    ensures
        names(final(v)@) == names(old(v)@).insert(id@),
{
    if !names_contain(v, id) {
        let ghost v0 = v@;
        v.push(id.to_owned());
        assert forall|k: Seq<char>| #[trigger] names(v@).contains(k) <==> names(v0).insert(id@).contains(k) by {
            if names(v0).contains(k) {
                let i = choose|i: int| 0 <= i < v0.len() && #[trigger] v0[i]@ == k;
                assert(v@[i] == v0[i]);
            }
            if names(v@).contains(k) {
                let i = choose|i: int| 0 <= i < v@.len() && #[trigger] v@[i]@ == k;
                if i < v0.len() {
                    assert(v@[i] == v0[i]);
                }
            }
            if k == id@ {
                assert(v@[v0.len() as int]@ == id@);
            }
        }
        assert(names(v@) =~= names(v0).insert(id@));
    } else {
        assert(names(v@) =~= names(v@).insert(id@));
    }
}

/// Drops every copy of the name `id`.
fn names_remove(v: &mut Vec<String>, id: &str)
    ensures
        names(final(v)@) == names(old(v)@).remove(id@),
{
    let mut kept: Vec<String> = Vec::new();
    let n = v.len();
    let mut i: usize = 0;
    while i < n
        invariant
            n == v@.len(),
            i <= n,
            forall|j: int| 0 <= j < kept@.len() ==> #[trigger] kept@[j]@ != id@,
            forall|k: Seq<char>|
                #[trigger] names(kept@).contains(k) <==> (k != id@ && exists|j: int|
                    0 <= j < i && #[trigger] v@[j]@ == k),
        decreases n - i,
    {
        let ghost k0 = kept@;
        if !text_eq(v[i].as_str(), id) {
            kept.push(v[i].clone());
        }
        proof {
            assert forall|k: Seq<char>| #[trigger] names(kept@).contains(k) <==> (k != id@
                && exists|j: int| 0 <= j < i + 1 && #[trigger] v@[j]@ == k) by {
                if names(kept@).contains(k) {
                    let a = choose|a: int| 0 <= a < kept@.len() && #[trigger] kept@[a]@ == k;
                    if a < k0.len() {
                        assert(kept@[a] == k0[a]);
                        assert(names(k0).contains(k));
                    } else {
                        assert(v@[i as int]@ == k);
                    }
                }
                if k != id@ && exists|j: int| 0 <= j < i + 1 && #[trigger] v@[j]@ == k {
                    let j = choose|j: int| 0 <= j < i + 1 && #[trigger] v@[j]@ == k;
                    if j < i {
                        assert(names(k0).contains(k));
                        let a = choose|a: int| 0 <= a < k0.len() && #[trigger] k0[a]@ == k;
                        assert(kept@[a] == k0[a]);
                    } else {
                        assert(kept@[k0.len() as int]@ == k);
                    }
                }
            }
        }
        i += 1;
    }
    assert(names(kept@) =~= names(v@).remove(id@));
    *v = kept;
}

/// What the reducer exposes of its state: the newest sequence applied and the
/// retained threads.
#[derive(Debug, PartialEq)]
pub struct Snapshot {
    pub at_sequence: Sequence,
    pub threads: Vec<ThreadState>,
}

pub struct SnapshotView {
    pub at_sequence: u64,
    pub threads: Map<Seq<char>, ThreadView>,
}

impl Snapshot {
    pub open spec fn view(&self) -> SnapshotView {
        SnapshotView { at_sequence: self.at_sequence, threads: threads_view(self.threads@) }
    }

    /// No two entries share a thread id.
    pub open spec fn wf(&self) -> bool {
        ids_distinct(self.threads@)
    }

    /// The state of thread `thread_id`, if retained.
    pub fn get(&self, thread_id: &str) -> (r: Option<&ThreadState>)
        requires
            self.wf(),
        ensures
            match r {
                Some(t) => self@.threads.contains_key(thread_id@) && self@.threads[thread_id@]
                    == t@,
                None => !self@.threads.contains_key(thread_id@),
            },
    {
        match find_thread(&self.threads, thread_id) {
            Some(i) => {
                proof {
                    lemma_threads_view_at(self.threads@, i as int);
                }
                Some(&self.threads[i])
            },
            None => None,
        }
    }

    /// Whether thread `thread_id` is retained.
    pub fn contains_key(&self, thread_id: &str) -> (r: bool)
        requires
            self.wf(),
        ensures
            r == self@.threads.contains_key(thread_id@),
    {
        self.get(thread_id).is_some()
    }

    /// A copy with the same view.
    pub fn copy_snapshot(&self) -> (r: Snapshot)
        requires
            self.wf(),
        ensures
            r.wf(),
            r@ == self@,
    {
        let threads = copy_threads(&self.threads);
        proof {
            lemma_threads_same_views(self.threads@, threads@);
        }
        Snapshot { at_sequence: self.at_sequence, threads }
    }
}

// ---------------------------------------------------------------------------
// Lifecycle rules
// ---------------------------------------------------------------------------

/// A status object's `type`, else the status as a string, else `"unknown"`.
pub open spec fn status_of(status: Option<Json>) -> Seq<char> {
    match status {
        None => "unknown"@,
        Some(s) => match str_in(s.get("type"@)) {
            Some(t) => t,
            None => match s.as_str() {
                Some(t) => t,
                None => "unknown"@,
            },
        },
    }
}

/// The state of a thread after one of its lifecycle events.
pub open spec fn apply_to_thread(t: ThreadView, e: SequencedEvent) -> ThreadView {
    let m = or_empty(e.frame.method_view());
    let t = ThreadView { last_sequence: e.sequence, ..t };
    if m == "thread/started"@ {
        let raw = get_in(e.frame.params_view(), "thread"@);
        ThreadView {
            status: "idle"@,
            raw_thread: raw,
            ephemeral: bool_in(get_in(raw, "ephemeral"@)) == Some(true),
            ..t
        }
    } else if m == "thread/status/changed"@ {
        ThreadView { status: status_of(get_in(e.frame.params_view(), "status"@)), ..t }
    } else if m == "turn/started"@ {
        ThreadView { status: "active"@, active_turn_id: string_view(e.turn_id), ..t }
    } else if m == "turn/completed"@ {
        ThreadView {
            status: "idle"@,
            active_turn_id: if t.active_turn_id == string_view(e.turn_id) || e.turn_id is None {
                None
            } else {
                t.active_turn_id
            },
            ..t
        }
    } else {
        t
    }
}

/// The thread map after an event: the event's thread is updated (created when
/// unknown) and dropped when it is prunable and no subscription is being set up.
pub open spec fn apply_threads(
    threads: Map<Seq<char>, ThreadView>,
    subscribing: Set<Seq<char>>,
    e: SequencedEvent,
) -> Map<Seq<char>, ThreadView> {
    match string_view(e.thread_id) {
        None => threads,
        Some(id) => {
            let base = if threads.contains_key(id) {
                threads[id]
            } else {
                fresh_thread(id)
            };
            let t = apply_to_thread(base, e);
            if !subscribing.contains(id) && prunable(t) {
                threads.remove(id)
            } else {
                threads.insert(id, t)
            }
        },
    }
}

/// The last `cap` entries of `l`.
pub open spec fn keep_last<A>(l: Seq<A>, cap: nat) -> Seq<A> {
    if l.len() > cap {
        l.subrange(l.len() - cap, l.len() as int)
    } else {
        l
    }
}

/// The retained lifecycle log after an event.
pub open spec fn apply_log(
    log: Seq<Arc<SequencedEvent>>,
    cap: nat,
    e: Arc<SequencedEvent>,
) -> Seq<Arc<SequencedEvent>> {
    if e.plane == Plane::Lifecycle {
        keep_last(log.push(e), cap)
    } else {
        log
    }
}

/// Selects events by method and, where given, thread, turn and turn status.
#[derive(Debug, PartialEq)]
pub struct EventMatcher {
    pub method: String,
    pub thread_id: Option<String>,
    pub turn_id: Option<String>,
    /// The status the event's `params.turn.status` must hold.
    pub turn_status: Option<String>,
}

/// The string `params.turn.status` of an event.
pub open spec fn event_turn_status(e: SequencedEvent) -> Option<Seq<char>> {
    str_in(get_in(get_in(e.frame.params_view(), "turn"@), "status"@))
}

/// The string `params.turn.status` of an event.
pub fn turn_status_of(e: &SequencedEvent) -> (r: Option<&str>)
    ensures
        crate::json::str_view(r) == event_turn_status(*e),
{
    str_opt(get_opt(get_opt(e.frame.params(), "turn"), "status"))
}

pub open spec fn accepts(m: EventMatcher, e: SequencedEvent) -> bool {
    &&& e.frame.method_view() == Some(m.method@)
    &&& (m.thread_id is Some ==> string_view(e.thread_id) == string_view(m.thread_id))
    &&& (m.turn_id is Some ==> string_view(e.turn_id) == string_view(m.turn_id))
    &&& (m.turn_status is Some ==> event_turn_status(e) == string_view(m.turn_status))
}

impl EventMatcher {
    pub fn accepts(&self, e: &SequencedEvent) -> (r: bool)
        ensures
            r == accepts(*self, *e),
    {
        let method_ok = match e.method() {
            Some(m) => text_eq(m, self.method.as_str()),
            None => false,
        };
        let thread_ok = match &self.thread_id {
            Some(_) => same_text(&e.thread_id, &self.thread_id),
            None => true,
        };
        let turn_ok = match &self.turn_id {
            Some(_) => same_text(&e.turn_id, &self.turn_id),
            None => true,
        };
        let status_ok = match &self.turn_status {
            Some(want) => match turn_status_of(e) {
                Some(st) => text_eq(st, want.as_str()),
                None => false,
            },
            None => true,
        };
        method_ok && thread_ok && turn_ok && status_ok
    }

    pub fn copy_matcher(&self) -> (r: EventMatcher)
        ensures
            r == *self,
    {
        EventMatcher {
            method: self.method.clone(),
            thread_id: copy_text(&self.thread_id),
            turn_id: copy_text(&self.turn_id),
            turn_status: copy_text(&self.turn_status),
        }
    }
}

/// A registered one-shot waiter.
#[derive(Debug)]
pub struct Waiter {
    pub id: u64,
    pub matcher: EventMatcher,
}

/// The ids of the waiters that `e` satisfies, in registration order.
pub open spec fn fired_ids(ws: Seq<Waiter>, e: SequencedEvent) -> Seq<u64>
    decreases ws.len(),
{
    if ws.len() == 0 {
        Seq::empty()
    } else {
        let rest = fired_ids(ws.drop_last(), e);
        if accepts(ws.last().matcher, e) {
            rest.push(ws.last().id)
        } else {
            rest
        }
    }
}

/// The waiters that `e` does not satisfy, in registration order.
pub open spec fn pending_waiters(ws: Seq<Waiter>, e: SequencedEvent) -> Seq<Waiter>
    decreases ws.len(),
{
    if ws.len() == 0 {
        Seq::empty()
    } else {
        let rest = pending_waiters(ws.drop_last(), e);
        if accepts(ws.last().matcher, e) {
            rest
        } else {
            rest.push(ws.last())
        }
    }
}

/// The names held in a list.
pub open spec fn names(v: Seq<String>) -> Set<Seq<char>> {
    Set::new(|k: Seq<char>| exists|i: int| 0 <= i < v.len() && #[trigger] v[i]@ == k)
}


/// The threads after an unsubscribe: the entry loses its subscription and is
/// dropped when nothing else makes it worth keeping.
pub open spec fn unsubscribed(threads: Map<Seq<char>, ThreadView>, id: Seq<char>) -> Map<
    Seq<char>,
    ThreadView,
> {
    if threads.contains_key(id) {
        let t = ThreadView { subscribed: false, ..threads[id] };
        if prunable(t) {
            threads.remove(id)
        } else {
            threads.insert(id, t)
        }
    } else {
        threads
    }
}

/// The threads kept by idle eviction: those being subscribed and those not prunable.
pub open spec fn evicted(threads: Map<Seq<char>, ThreadView>, subscribing: Set<Seq<char>>) -> Map<
    Seq<char>,
    ThreadView,
> {
    Map::new(
        |k: Seq<char>| threads.contains_key(k) && (subscribing.contains(k) || !prunable(threads[k])),
        |k: Seq<char>| threads[k],
    )
}

/// A turn status that ends the turn.
pub open spec fn is_terminal(status: Option<Seq<char>>) -> bool {
    status == Some("completed"@) || status == Some("failed"@) || status == Some("interrupted"@)
}

/// The last turn whose status does not end it.
pub open spec fn last_open_turn(turns: Seq<Json>) -> Option<Json>
    decreases turns.len(),
{
    if turns.len() == 0 {
        None
    } else if !is_terminal(str_in(turns.last().get("status"@))) {
        Some(turns.last())
    } else {
        last_open_turn(turns.drop_last())
    }
}

/// The id of the last unfinished turn of a thread record.
pub open spec fn open_turn_id(raw: Json) -> Option<Seq<char>> {
    match raw.get("turns"@) {
        Some(ts) => match ts.as_array() {
            Some(turns) => str_in(get_in(last_open_turn(turns), "id"@)),
            None => None,
        },
        None => None,
    }
}

/// The thread state rebuilt from a thread record.
pub open spec fn reconciled(raw: Json, id: Seq<char>, subscribed: bool, at: u64) -> ThreadView {
    let active = open_turn_id(raw);
    ThreadView {
        thread_id: id,
        status: if active is Some {
            "active"@
        } else {
            status_of(raw.get("status"@))
        },
        active_turn_id: active,
        subscribed,
        ephemeral: bool_in(raw.get("ephemeral"@)) == Some(true),
        last_sequence: at,
        raw_thread: Some(raw),
    }
}

/// The retained lifecycle events with a sequence after `s`, in log order.
pub open spec fn events_after(log: Seq<Arc<SequencedEvent>>, s: u64) -> Seq<Arc<SequencedEvent>>
    decreases log.len(),
{
    if log.len() == 0 {
        Seq::empty()
    } else {
        let rest = events_after(log.drop_last(), s);
        if log.last().sequence > s {
            rest.push(log.last())
        } else {
            rest
        }
    }
}

/// Replay after `s` is impossible: the oldest retained event comes after `s + 1`.
pub open spec fn replay_gap(log: Seq<Arc<SequencedEvent>>, s: u64) -> bool {
    log.len() > 0 && s + 1 < log[0].sequence
}

/// The reducer's state.
pub struct ReducerView {
    pub at_sequence: u64,
    pub threads: Map<Seq<char>, ThreadView>,
    pub subscribing: Set<Seq<char>>,
    pub lifecycle: Seq<Arc<SequencedEvent>>,
    pub capacity: nat,
    pub waiters: Seq<Waiter>,
    pub next_waiter: u64,
}

/// The larger of two sequences.
pub open spec fn max_seq(a: u64, b: u64) -> u64 {
    if a >= b {
        a
    } else {
        b
    }
}

impl ReducerView {
    /// The invariant of every reducer.
    pub open spec fn inv(self) -> bool {
        &&& self.capacity > 0
        &&& self.lifecycle.len() <= self.capacity
    }


    /// The snapshot this state shows.
    pub open spec fn snapshot(self) -> SnapshotView {
        SnapshotView { at_sequence: self.at_sequence, threads: self.threads }
    }

    /// After registering a waiter.
    pub open spec fn registered(self, m: EventMatcher) -> ReducerView {
        ReducerView {
            waiters: self.waiters.push(Waiter { id: self.next_waiter, matcher: m }),
            next_waiter: if self.next_waiter == u64::MAX {
                0
            } else {
                (self.next_waiter + 1) as u64
            },
            ..self
        }
    }

    /// After a subscription to `id` starts being set up.
    pub open spec fn begun(self, id: Seq<char>) -> ReducerView {
        ReducerView {
            subscribing: self.subscribing.insert(id),
            threads: if self.threads.contains_key(id) {
                self.threads
            } else {
                self.threads.insert(id, fresh_thread(id))
            },
            ..self
        }
    }

    /// After the subscription to `id` is established.
    pub open spec fn finished(self, id: Seq<char>) -> ReducerView {
        let base = if self.threads.contains_key(id) {
            self.threads[id]
        } else {
            fresh_thread(id)
        };
        ReducerView {
            subscribing: self.subscribing.remove(id),
            threads: self.threads.insert(id, ThreadView { subscribed: true, ..base }),
            ..self
        }
    }

    /// After a subscription attempt for `id` failed.
    pub open spec fn cancelled(self, id: Seq<char>) -> ReducerView {
        ReducerView {
            subscribing: self.subscribing.remove(id),
            threads: if self.threads.contains_key(id) && prunable(self.threads[id]) {
                self.threads.remove(id)
            } else {
                self.threads
            },
            ..self
        }
    }

    /// After the subscription to `id` is released.
    pub open spec fn released(self, id: Seq<char>) -> ReducerView {
        ReducerView {
            subscribing: self.subscribing.remove(id),
            threads: unsubscribed(self.threads, id),
            ..self
        }
    }

    /// After idle eviction.
    pub open spec fn idle_evicted(self) -> ReducerView {
        ReducerView { threads: evicted(self.threads, self.subscribing), ..self }
    }

    /// After reconciling from a thread record.
    pub open spec fn reconciled_from(self, raw: Json) -> ReducerView {
        match str_in(raw.get("id"@)) {
            None => self,
            Some(id) => {
                let prev = self.threads.contains_key(id) && self.threads[id].subscribed;
                ReducerView {
                    threads: self.threads.insert(id, reconciled(raw, id, prev, self.at_sequence)),
                    ..self
                }
            },
        }
    }

    /// The state after applying `e`.
    pub open spec fn applied(self, e: Arc<SequencedEvent>) -> ReducerView {
        ReducerView {
            at_sequence: max_seq(self.at_sequence, e.sequence),
            threads: apply_threads(self.threads, self.subscribing, *e),
            lifecycle: apply_log(self.lifecycle, self.capacity, e),
            waiters: pending_waiters(self.waiters, *e),
            ..self
        }
    }
}

/// Updates a thread's state for one of its events.
fn update_thread(t: &mut ThreadState, e: &SequencedEvent)
    ensures
        final(t)@ == apply_to_thread(old(t)@, *e),
{
    t.last_sequence = e.sequence;
    let method = match e.method() {
        Some(m) => m,
        None => "",
    };
    if text_eq(method, "thread/started") {
        t.status = "idle".to_owned();
        let raw = match get_opt(e.frame.params(), "thread") {
            Some(v) => Some(v.deep_copy()),
            None => None,
        };
        let ephemeral = match &raw {
            Some(v) => match v.get("ephemeral") {
                Some(b) => match b.as_bool() {
                    Some(x) => x,
                    None => false,
                },
                None => false,
            },
            None => false,
        };
        t.raw_thread = raw;
        t.ephemeral = ephemeral;
    } else if text_eq(method, "thread/status/changed") {
        t.status = status_text(get_opt(e.frame.params(), "status"));
    } else if text_eq(method, "turn/started") {
        t.status = "active".to_owned();
        t.active_turn_id = copy_text(&e.turn_id);
    } else if text_eq(method, "turn/completed") {
        if same_text(&t.active_turn_id, &e.turn_id) || e.turn_id.is_none() {
            t.active_turn_id = None;
        }
        t.status = "idle".to_owned();
    }
    proof {
        assert(or_empty(e.frame.method_view()) == method@) by {
            reveal_strlit("");
            assert(""@ =~= Seq::<char>::empty());
        }
    }
}

/// The text of a status value (see [`status_of`]).
fn status_text(status: Option<&JsonValue>) -> (r: String)
    ensures
        r@ == status_of(crate::json::ref_view(status)),
{
    match status {
        None => "unknown".to_owned(),
        Some(s) => match str_opt(s.get("type")) {
            Some(t) => t.to_owned(),
            None => match s.as_str() {
                Some(t) => t.to_owned(),
                None => "unknown".to_owned(),
            },
        },
    }
}

/// The answer to a replay request.
#[derive(Debug, PartialEq)]
pub enum ReplayResult {
    Events(Vec<Arc<SequencedEvent>>),
    GapTooOld { requested_after: Sequence, oldest_available: Option<Sequence>, snapshot: Snapshot },
}

/// The authoritative lifecycle reducer.
pub struct Reducer {
    snapshot: Snapshot,
    subscribing: Vec<String>,
    lifecycle: VecDeque<Arc<SequencedEvent>>,
    lifecycle_capacity: usize,
    waiters: Vec<Waiter>,
    next_waiter: u64,
}

impl Reducer {
    pub closed spec fn view(&self) -> ReducerView {
        ReducerView {
            at_sequence: self.snapshot.at_sequence,
            threads: threads_view(self.snapshot.threads@),
            subscribing: names(self.subscribing@),
            lifecycle: self.lifecycle@,
            capacity: self.lifecycle_capacity as nat,
            waiters: self.waiters@,
            next_waiter: self.next_waiter,
        }
    }

    pub closed spec fn wf(&self) -> bool {
        &&& self.snapshot.wf()
        &&& self@.inv()
    }

    /// A well-formed reducer's state meets the invariant.
    pub proof fn lemma_wf_inv(&self)
        requires
            self.wf(),
        ensures
            self@.inv(),
    {
    }

    /// A reducer retaining at most `lifecycle_capacity` lifecycle events.
    pub fn new(lifecycle_capacity: usize) -> (r: Self)
        requires
            lifecycle_capacity > 0,
        ensures
            r.wf(),
            r@.at_sequence == 0,
            r@.threads == Map::<Seq<char>, ThreadView>::empty(),
            r@.subscribing == Set::<Seq<char>>::empty(),
            r@.lifecycle == Seq::<Arc<SequencedEvent>>::empty(),
            r@.capacity == lifecycle_capacity,
            r@.waiters == Seq::<Waiter>::empty(),
            r@.next_waiter == 0,
    {
        let r = Reducer {
            snapshot: Snapshot { at_sequence: 0, threads: Vec::new() },
            subscribing: Vec::new(),
            lifecycle: VecDeque::new(),
            lifecycle_capacity,
            waiters: Vec::new(),
            next_waiter: 0,
        };
        assert(r@.threads =~= Map::<Seq<char>, ThreadView>::empty());
        assert(r@.subscribing =~= Set::<Seq<char>>::empty());
        r
    }

    /// Registers a one-shot waiter for the first event `matcher` accepts and returns
    /// its id; `apply` reports the id when that event arrives.
    pub fn register_waiter(&mut self, matcher: EventMatcher) -> (id: u64)
        requires
            old(self).wf(),
        ensures
            final(self).wf(),
            id == old(self)@.next_waiter,
            final(self)@ == old(self)@.registered(matcher),
    {
        let id = self.next_waiter;
        self.waiters.push(Waiter { id, matcher });
        self.next_waiter = if self.next_waiter == u64::MAX {
            0
        } else {
            self.next_waiter + 1
        };
        id
    }

    /// A copy of the current snapshot.
    pub fn snapshot(&self) -> (r: Snapshot)
        requires
            self.wf(),
        ensures
            r.wf(),
            r@ == self@.snapshot(),
    {
        self.snapshot.copy_snapshot()
    }

    /// The newest sequence applied.
    pub fn current_sequence(&self) -> (r: Sequence)
        ensures
            r == self@.at_sequence,
    {
        self.snapshot.at_sequence
    }

    /// The retained lifecycle events after `sequence`, or `GapTooOld` with a snapshot
    /// when the oldest retained event comes after `sequence + 1`.
    pub fn events_since(&self, sequence: Sequence) -> (r: ReplayResult)
        requires
            self.wf(),
        ensures
            match r {
                ReplayResult::Events(v) => !replay_gap(self@.lifecycle, sequence) && v@
                    == events_after(self@.lifecycle, sequence),
                ReplayResult::GapTooOld { requested_after, oldest_available, snapshot } => {
                    &&& replay_gap(self@.lifecycle, sequence)
                    &&& requested_after == sequence
                    &&& oldest_available == Some(self@.lifecycle[0].sequence)
                    &&& snapshot.wf()
                    &&& snapshot@ == self@.snapshot()
                },
            },
    {
        let n = self.lifecycle.len();
        if n > 0 {
            let oldest = self.lifecycle[0].sequence;
            if sequence < u64::MAX && sequence + 1 < oldest {
                return ReplayResult::GapTooOld {
                    requested_after: sequence,
                    oldest_available: Some(oldest),
                    snapshot: self.snapshot(),
                };
            }
        }
        let ghost log = self.lifecycle@;
        let mut out: Vec<Arc<SequencedEvent>> = Vec::new();
        let mut i: usize = 0;
        while i < n
            invariant
                n == log.len(),
                log == self.lifecycle@,
                i <= n,
                out@ == events_after(log.take(i as int), sequence),
            decreases n - i,
        {
            proof {
                assert(log.take(i + 1).drop_last() =~= log.take(i as int));
                assert(log.take(i + 1).last() == log[i as int]);
            }
            if self.lifecycle[i].sequence > sequence {
                out.push(self.lifecycle[i].clone());
            }
            i += 1;
        }
        proof {
            assert(log.take(n as int) =~= log);
        }
        ReplayResult::Events(out)
    }

    /// Marks `thread_id` subscribed (as `finish_subscription`) or releases it.
    pub fn set_subscribed(&mut self, thread_id: &str, subscribed: bool)
        requires
            old(self).wf(),
        ensures
            final(self).wf(),
            subscribed ==> final(self)@ == old(self)@.finished(thread_id@),
            !subscribed ==> final(self)@ == old(self)@.released(thread_id@),
    {
        if subscribed {
            self.finish_subscription(thread_id);
            return ;
        }
        names_remove(&mut self.subscribing, thread_id);
        let ghost m0 = threads_view(self.snapshot.threads@);
        match take_thread(&mut self.snapshot.threads, thread_id) {
            Some(mut t) => {
                t.subscribed = false;
                if t.subscribed || t.active_turn_id.is_some() {
                    put_thread(&mut self.snapshot.threads, t);
                    assert(m0.remove(thread_id@).insert(thread_id@, t@) =~= m0.insert(
                        thread_id@,
                        t@,
                    ));
                }
            },
            None => {
                assert(m0.remove(thread_id@) =~= m0);
            },
        }
    }

    /// Marks a thread relevant before its subscription is set up, so that pruning
    /// cannot drop it meanwhile.
    pub fn begin_subscription(&mut self, thread_id: &str)
        requires
            old(self).wf(),
        ensures
            final(self).wf(),
            final(self)@ == old(self)@.begun(thread_id@),
    {
        names_insert(&mut self.subscribing, thread_id);
        match find_thread(&self.snapshot.threads, thread_id) {
            Some(i) => {
                proof {
                    lemma_threads_view_at(self.snapshot.threads@, i as int);
                }
            },
            None => {
                put_thread(&mut self.snapshot.threads, ThreadState::fresh(thread_id));
            },
        }
    }

    /// Promotes a pending subscription to a retained one; the entry is created if
    /// it was pruned meanwhile.
    pub fn finish_subscription(&mut self, thread_id: &str)
        requires
            old(self).wf(),
        ensures
            final(self).wf(),
            final(self)@ == old(self)@.finished(thread_id@),
    {
        names_remove(&mut self.subscribing, thread_id);
        let ghost m0 = threads_view(self.snapshot.threads@);
        let mut t = match take_thread(&mut self.snapshot.threads, thread_id) {
            Some(t) => t,
            None => ThreadState::fresh(thread_id),
        };
        t.subscribed = true;
        put_thread(&mut self.snapshot.threads, t);
        assert(m0.remove(thread_id@).insert(thread_id@, t@) =~= m0.insert(thread_id@, t@));
    }

    /// Releases pending relevance after a failed subscription attempt.
    pub fn cancel_subscription(&mut self, thread_id: &str)
        requires
            old(self).wf(),
        ensures
            final(self).wf(),
            final(self)@ == old(self)@.cancelled(thread_id@),
    {
        names_remove(&mut self.subscribing, thread_id);
        let ghost m0 = threads_view(self.snapshot.threads@);
        match take_thread(&mut self.snapshot.threads, thread_id) {
            Some(t) => {
                if t.subscribed || t.active_turn_id.is_some() {
                    put_thread(&mut self.snapshot.threads, t);
                    assert(m0.remove(thread_id@).insert(thread_id@, t@) =~= m0);
                }
            },
            None => {
                assert(m0.remove(thread_id@) =~= m0);
            },
        }
    }

    /// Removes idle entries not being subscribed; returns how many were removed.
    pub fn evict_idle(&mut self) -> (removed: usize)
        requires
            old(self).wf(),
        ensures
            final(self).wf(),
            final(self)@ == old(self)@.idle_evicted(),
            removed == old(self)@.threads.dom().len() - final(self)@.threads.dom().len(),
    {
        let ghost s0 = self.snapshot.threads@;
        let before = self.snapshot.threads.len();
        let mut rest: Vec<ThreadState> = Vec::new();
        std::mem::swap(&mut rest, &mut self.snapshot.threads);
        let kept = retain_relevant(rest, &self.subscribing);
        let after = kept.len();
        self.snapshot.threads = kept;
        proof {
            lemma_threads_len(s0);
            lemma_threads_len(self.snapshot.threads@);
        }
        before - after
    }

    /// Replaces a thread's state from a `thread/read` record, keeping its subscription
    /// flag and stamping it with the current sequence. A record without a string
    /// `id` changes nothing.
    pub fn reconcile_thread(&mut self, raw_thread: JsonValue)
        requires
            old(self).wf(),
        ensures
            final(self).wf(),
            final(self)@ == old(self)@.reconciled_from(raw_thread@),
    {
        let thread_id = match str_opt(raw_thread.get("id")) {
            Some(id) => id.to_owned(),
            None => {
                return ;
            },
        };
        let status = status_text(raw_thread.get("status"));
        let active_turn_id = match raw_thread.get("turns") {
            Some(ts) => match ts.as_array() {
                Some(turns) => last_open_turn_id(turns),
                None => None,
            },
            None => None,
        };
        let ephemeral = match raw_thread.get("ephemeral") {
            Some(b) => match b.as_bool() {
                Some(x) => x,
                None => false,
            },
            None => false,
        };
        let sequence = self.snapshot.at_sequence;
        let ghost m0 = threads_view(self.snapshot.threads@);
        let previous_subscribed = match take_thread(&mut self.snapshot.threads, thread_id.as_str()) {
            Some(t) => t.subscribed,
            None => false,
        };
        let status = if active_turn_id.is_some() {
            "active".to_owned()
        } else {
            status
        };
        let t = ThreadState {
            thread_id,
            status,
            active_turn_id,
            subscribed: previous_subscribed,
            ephemeral,
            last_sequence: sequence,
            raw_thread: Some(raw_thread),
        };
        put_thread(&mut self.snapshot.threads, t);
        assert(m0.remove(t.thread_id@).insert(t.thread_id@, t@) =~= m0.insert(t.thread_id@, t@));
    }

    /// Applies one event: advances the sequence, updates the event's thread,
    /// retains lifecycle events for replay and fires the waiters it satisfies.
    /// Returns the ids of the fired waiters.
    pub fn apply(&mut self, event: Arc<SequencedEvent>) -> (fired: Vec<u64>)
        requires
            old(self).wf(),
        ensures
            final(self).wf(),
            final(self)@ == old(self)@.applied(event),
            fired@ == fired_ids(old(self)@.waiters, *event),
    {
        let ghost old_view = self@;
        let e: &SequencedEvent = &*event;
        if e.sequence > self.snapshot.at_sequence {
            self.snapshot.at_sequence = e.sequence;
        }
        let ghost threads0 = self.snapshot.threads@;
        let ghost m0 = threads_view(threads0);
        match &e.thread_id {
            Some(thread_id) => {
                let ghost id = thread_id@;
                let subscribing = names_contain(&self.subscribing, thread_id.as_str());
                let found = find_thread(&self.snapshot.threads, thread_id.as_str());
                let mut t = match found {
                    Some(i) => {
                        proof {
                            lemma_threads_view_at(threads0, i as int);
                            lemma_threads_remove(threads0, i as int);
                        }
                        self.snapshot.threads.remove(i)
                    },
                    None => {
                        proof {
                            lemma_threads_view_absent(threads0, id);
                        }
                        ThreadState::fresh(thread_id.as_str())
                    },
                };
                proof {
                    assert(t.thread_id@ == id);
                    assert(!has_id(self.snapshot.threads@, id));
                    assert(threads_view(self.snapshot.threads@) =~= m0.remove(id));
                    if m0.contains_key(id) {
                        assert(t@ == m0[id]);
                    } else {
                        assert(t@ == fresh_thread(id));
                    }
                }
                update_thread(&mut t, e);
                let prune = !subscribing && !t.subscribed && t.active_turn_id.is_none();
                if !prune {
                    proof {
                        lemma_threads_push(self.snapshot.threads@, t);
                        assert(m0.remove(id).insert(id, t@) =~= m0.insert(id, t@));
                    }
                    self.snapshot.threads.push(t);
                }
                proof {
                    assert(threads_view(self.snapshot.threads@) == apply_threads(
                        m0,
                        old_view.subscribing,
                        *e,
                    ));
                }
            },
            None => {},
        }
        if e.plane == Plane::Lifecycle {
            retain_lifecycle(&mut self.lifecycle, self.lifecycle_capacity, event.clone());
        }
        let (kept, fired) = split_waiters(&self.waiters, e);
        self.waiters = kept;
        fired
    }
}

/// The entries of `rest` worth keeping: those being subscribed and those not prunable.
fn retain_relevant(rest: Vec<ThreadState>, subscribing: &Vec<String>) -> (kept: Vec<ThreadState>)
    requires
        ids_distinct(rest@),
    ensures
        ids_distinct(kept@),
        threads_view(kept@) == evicted(threads_view(rest@), names(subscribing@)),
        kept@.len() <= rest@.len(),
{
    let ghost s0 = rest@;
    let ghost m = threads_view(s0);
    let ghost e = evicted(m, names(subscribing@));
    let mut rest = rest;
    let mut kept: Vec<ThreadState> = Vec::new();
    while rest.len() > 0
        invariant
            rest@ == s0.take(rest@.len() as int),
            ids_distinct(s0),
            ids_distinct(kept@),
            m == threads_view(s0),
            e == evicted(m, names(subscribing@)),
            kept@.len() + rest@.len() <= s0.len(),
            forall|k: Seq<char>|
                #[trigger] threads_view(kept@).contains_key(k) <==> (e.contains_key(k) && !has_id(
                    rest@,
                    k,
                )),
            forall|k: Seq<char>|
                #[trigger] threads_view(kept@).contains_key(k) ==> threads_view(kept@)[k] == e[k],
        decreases rest@.len(),
    {
        let ghost r0 = rest@;
        let ghost j = r0.len() - 1;
        let t = rest.pop().unwrap();
        proof {
            assert(t == s0[j]);
            lemma_threads_view_at(s0, j);
            assert(rest@ =~= s0.take(j));
            assert forall|k: Seq<char>| k != t.thread_id@ implies (has_id(rest@, k) <==> has_id(
                r0,
                k,
            )) by {
                if has_id(r0, k) {
                    let a = choose|a: int| 0 <= a < r0.len() && #[trigger] r0[a].thread_id@ == k;
                    assert(r0[a] == s0[a]);
                    if a == j {
                        assert(false);
                    }
                    assert(rest@[a] == r0[a]);
                }
                if has_id(rest@, k) {
                    let a = choose|a: int| 0 <= a < rest@.len() && #[trigger] rest@[a].thread_id@ == k;
                    assert(rest@[a] == r0[a]);
                }
            }
            assert(!has_id(rest@, t.thread_id@)) by {
                if has_id(rest@, t.thread_id@) {
                    let a = choose|a: int|
                        0 <= a < rest@.len() && #[trigger] rest@[a].thread_id@ == t.thread_id@;
                    assert(rest@[a] == s0[a]);
                }
            }
            assert(has_id(r0, t.thread_id@)) by {
                assert(r0[j] == t);
            }
        }
        let keep = names_contain(subscribing, t.thread_id.as_str()) || t.subscribed
            || t.active_turn_id.is_some();
        if keep {
            proof {
                assert(!threads_view(kept@).contains_key(t.thread_id@));
                assert(!has_id(kept@, t.thread_id@));
                lemma_threads_push(kept@, t);
            }
            kept.push(t);
        }
    }
    proof {
        assert(threads_view(kept@) =~= e);
    }
    kept
}

/// The id of the last turn whose status does not end it (see [`open_turn_id`]).
fn last_open_turn_id(turns: &Vec<JsonValue>) -> (r: Option<String>)
    ensures
        string_view(r) == str_in(get_in(last_open_turn(view_items(turns@)), "id"@)),
{
    let ghost vt = view_items(turns@);
    proof {
        lemma_view_items(turns@);
    }
    let mut i = turns.len();
    assert(vt.take(vt.len() as int) =~= vt);
    while i > 0
        invariant
            i <= turns@.len(),
            vt == view_items(turns@),
            vt.len() == turns@.len(),
            forall|j: int| 0 <= j < turns@.len() ==> #[trigger] vt[j] == turns@[j]@,
            last_open_turn(vt) == last_open_turn(vt.take(i as int)),
        decreases i,
    {
        proof {
            assert(vt.take(i as int).drop_last() =~= vt.take(i - 1));
            assert(vt.take(i as int).last() == vt[i - 1]);
        }
        let status = str_opt(turns[i - 1].get("status"));
        let terminal = match status {
            Some(st) => text_eq(st, "completed") || text_eq(st, "failed") || text_eq(
                st,
                "interrupted",
            ),
            None => false,
        };
        if !terminal {
            return match str_opt(turns[i - 1].get("id")) {
                Some(id) => Some(id.to_owned()),
                None => None,
            };
        }
        i -= 1;
    }
    None
}

/// Appends a lifecycle event and drops the oldest entries beyond `cap`.
fn retain_lifecycle(log: &mut VecDeque<Arc<SequencedEvent>>, cap: usize, e: Arc<SequencedEvent>)
    requires
        cap > 0,
        old(log)@.len() <= cap,
    ensures
        final(log)@ == keep_last(old(log)@.push(e), cap as nat),
        final(log)@.len() <= cap,
{
    let ghost l = old(log)@.push(e);
    log.push_back(e);
    while log.len() > cap
        invariant
            log@.len() <= l.len(),
            log@ == l.subrange(l.len() - log@.len(), l.len() as int),
            log@.len() == l.len() || log@.len() >= cap,
        decreases log@.len(),
    {
        let _ = log.pop_front();
        assert(log@ =~= l.subrange(l.len() - log@.len(), l.len() as int));
    }
    proof {
        if log@.len() == l.len() {
            assert(log@ =~= l);
        }
    }
}

// ---------------------------------------------------------------------------
// Laws
// ---------------------------------------------------------------------------

/// The event an `Arc` points to.
pub open spec fn event_of(e: Arc<SequencedEvent>) -> SequencedEvent {
    *e
}

/// Every retained thread is being subscribed or is not prunable.
pub open spec fn all_relevant(v: ReducerView) -> bool {
    forall|k: Seq<char>|
        #[trigger] v.threads.contains_key(k) ==> v.subscribing.contains(k) || !prunable(v.threads[k])
}

/// The state an event leaves its thread in (before pruning).
pub open spec fn thread_after(v: ReducerView, id: Seq<char>, e: SequencedEvent) -> ThreadView {
    apply_to_thread(
        if v.threads.contains_key(id) {
            v.threads[id]
        } else {
            fresh_thread(id)
        },
        e,
    )
}

/// An event's thread is retained exactly when a subscription to it is being set up
/// or it is not prunable (it is subscribed or has an active turn); every other
/// thread is left as it was.
pub proof fn law_apply_retention(v: ReducerView, e: Arc<SequencedEvent>, id: Seq<char>)
    requires
        string_view(e.thread_id) == Some(id),
    ensures
        v.applied(e).threads.contains_key(id) <==> (v.subscribing.contains(id) || !prunable(
            thread_after(v, id, *e),
        )),
        v.applied(e).threads.contains_key(id) ==> v.applied(e).threads[id] == thread_after(v, id, *e),
        forall|k: Seq<char>|
            k != id ==> (#[trigger] v.applied(e).threads.contains_key(k) <==> v.threads.contains_key(
                k,
            )) && (v.threads.contains_key(k) ==> v.applied(e).threads[k] == v.threads[k]),
{
}

/// Applying events never lets an idle, unsubscribed thread accumulate.
pub proof fn law_apply_keeps_threads_relevant(v: ReducerView, e: Arc<SequencedEvent>)
    requires
        all_relevant(v),
    ensures
        all_relevant(v.applied(e)),
{
    let w = v.applied(e);
    assert forall|k: Seq<char>| #[trigger] w.threads.contains_key(k) implies w.subscribing.contains(k)
        || !prunable(w.threads[k]) by {
        if let Some(id) = string_view(e.thread_id) {
            if k != id {
                assert(v.threads.contains_key(k));
            }
        } else {
            assert(v.threads.contains_key(k));
        }
    }
}

/// Idle eviction leaves only threads being subscribed or worth keeping, and keeps
/// all of those.
pub proof fn law_evict_idle_leaves_relevant(v: ReducerView)
    ensures
        all_relevant(v.idle_evicted()),
        forall|k: Seq<char>|
            #[trigger] v.threads.contains_key(k) && (v.subscribing.contains(k) || !prunable(
                v.threads[k],
            )) ==> v.idle_evicted().threads.contains_key(k) && v.idle_evicted().threads[k]
                == v.threads[k],
{
}

/// The subscription steps keep the thread table free of idle, unsubscribed entries.
pub proof fn law_subscription_steps_keep_threads_relevant(v: ReducerView, id: Seq<char>)
    requires
        all_relevant(v),
    ensures
        all_relevant(v.begun(id)),
        all_relevant(v.finished(id)),
        all_relevant(v.cancelled(id)),
        all_relevant(v.released(id)),
{
    assert forall|k: Seq<char>| #[trigger] v.finished(id).threads.contains_key(k) implies v.finished(
        id,
    ).subscribing.contains(k) || !prunable(v.finished(id).threads[k]) by {
        if k != id {
            assert(v.threads.contains_key(k));
        }
    }
    assert forall|k: Seq<char>| #[trigger] v.cancelled(id).threads.contains_key(k) implies v.cancelled(
        id,
    ).subscribing.contains(k) || !prunable(v.cancelled(id).threads[k]) by {
        assert(v.threads.contains_key(k));
    }
    assert forall|k: Seq<char>| #[trigger] v.released(id).threads.contains_key(k) implies v.released(
        id,
    ).subscribing.contains(k) || !prunable(v.released(id).threads[k]) by {
        if k != id {
            assert(v.threads.contains_key(k));
        }
    }
    assert forall|k: Seq<char>| #[trigger] v.begun(id).threads.contains_key(k) implies v.begun(
        id,
    ).subscribing.contains(k) || !prunable(v.begun(id).threads[k]) by {
        if k != id {
            assert(v.threads.contains_key(k));
        }
    }
}

/// A pending subscription protects its thread: while set up, the thread survives
/// any event and idle eviction; once finished, it is retained and subscribed, and a
/// subscribed thread survives any event and idle eviction.
pub proof fn law_subscription_protects_thread(v: ReducerView, id: Seq<char>, e: Arc<SequencedEvent>)
    ensures
        v.begun(id).threads.contains_key(id),
        v.begun(id).applied(e).threads.contains_key(id),
        v.begun(id).idle_evicted().threads.contains_key(id),
        v.finished(id).threads.contains_key(id),
        v.finished(id).threads[id].subscribed,
        v.threads.contains_key(id) && v.threads[id].subscribed ==> v.applied(e).threads.contains_key(
            id,
        ) && v.applied(e).threads[id].subscribed,
        v.threads.contains_key(id) && v.threads[id].subscribed ==> v.idle_evicted().threads.contains_key(
            id,
        ),
{
}

/// What a waiter's matcher selects: an event with the matcher's method and, for
/// each of thread, turn and turn status that the matcher names, exactly that
/// value on the event (an event without one never matches a matcher that names
/// it).
pub proof fn law_matcher_selects(m: EventMatcher, e: SequencedEvent)
    ensures
        accepts(m, e) <==> ({
            &&& e.frame.method_view() == Some(m.method@)
            &&& (m.thread_id is Some ==> e.thread_id is Some && e.thread_id->0@ == m.thread_id->0@)
            &&& (m.turn_id is Some ==> e.turn_id is Some && e.turn_id->0@ == m.turn_id->0@)
            &&& (m.turn_status is Some ==> str_in(
                get_in(get_in(e.frame.params_view(), "turn"@), "status"@),
            ) == Some(m.turn_status->0@))
        }),
{
}

/// Applying an event fires exactly the waiters whose matchers select it and keeps
/// exactly the others: every fired id belongs to a waiter that selects the event,
/// every kept waiter was registered and does not select it, and each waiter is
/// either fired or kept.
pub proof fn law_apply_fires_only_matching(ws: Seq<Waiter>, e: SequencedEvent)
    ensures
        fired_ids(ws, e).len() + pending_waiters(ws, e).len() == ws.len(),
        forall|i: int|
            0 <= i < fired_ids(ws, e).len() ==> exists|k: int|
                0 <= k < ws.len() && ws[k].id == #[trigger] fired_ids(ws, e)[i] && accepts(
                    ws[k].matcher,
                    e,
                ),
        forall|i: int|
            0 <= i < pending_waiters(ws, e).len() ==> !accepts(
                (#[trigger] pending_waiters(ws, e)[i]).matcher,
                e,
            ) && ws.contains(pending_waiters(ws, e)[i]),
        forall|k: int|
            0 <= k < ws.len() && accepts((#[trigger] ws[k]).matcher, e) ==> fired_ids(ws, e).contains(
                ws[k].id,
            ),
        forall|k: int|
            0 <= k < ws.len() && !accepts((#[trigger] ws[k]).matcher, e) ==> pending_waiters(
                ws,
                e,
            ).contains(ws[k]),
    decreases ws.len(),
{
    if ws.len() > 0 {
        let p = ws.drop_last();
        law_apply_fires_only_matching(p, e);
        let f = fired_ids(ws, e);
        let fp = fired_ids(p, e);
        let q = pending_waiters(ws, e);
        let qp = pending_waiters(p, e);
        assert forall|i: int| 0 <= i < f.len() implies exists|k: int|
            0 <= k < ws.len() && ws[k].id == #[trigger] f[i] && accepts(ws[k].matcher, e) by {
            if i < fp.len() {
                assert(f[i] == fp[i]);
                let k = choose|k: int| 0 <= k < p.len() && p[k].id == fp[i] && accepts(p[k].matcher, e);
                assert(ws[k] == p[k]);
            } else {
                assert(ws[ws.len() - 1] == ws.last());
            }
        }
        assert forall|i: int| 0 <= i < q.len() implies !accepts((#[trigger] q[i]).matcher, e)
            && ws.contains(q[i]) by {
            if i < qp.len() {
                assert(q[i] == qp[i]);
                let k = choose|k: int| 0 <= k < p.len() && p[k] == qp[i];
                assert(ws[k] == p[k]);
            } else {
                assert(ws[ws.len() - 1] == ws.last());
            }
        }
        assert forall|k: int| 0 <= k < ws.len() && accepts((#[trigger] ws[k]).matcher, e) implies f.contains(
            ws[k].id,
        ) by {
            if k < p.len() {
                assert(ws[k] == p[k]);
                let j = choose|j: int| 0 <= j < fp.len() && fp[j] == p[k].id;
                assert(f[j] == fp[j]);
            } else {
                assert(f[f.len() - 1] == ws[k].id);
            }
        }
        assert forall|k: int| 0 <= k < ws.len() && !accepts((#[trigger] ws[k]).matcher, e) implies q.contains(
            ws[k],
        ) by {
            if k < p.len() {
                assert(ws[k] == p[k]);
                let j = choose|j: int| 0 <= j < qp.len() && qp[j] == p[k];
                assert(q[j] == qp[j]);
            } else {
                assert(q[q.len() - 1] == ws[k]);
            }
        }
    }
}

/// A turn whose status is `completed`, `failed` or `interrupted`.
pub open spec fn ended_turn(turn: Json) -> bool {
    let st = str_in(turn.get("status"@));
    st == Some("completed"@) || st == Some("failed"@) || st == Some("interrupted"@)
}

pub proof fn lemma_last_open_turn(turns: Seq<Json>)
    ensures
        match last_open_turn(turns) {
            Some(t) => exists|k: int|
                0 <= k < turns.len() && turns[k] == t && !ended_turn(turns[k]) && forall|j: int|
                    k < j < turns.len() ==> ended_turn(#[trigger] turns[j]),
            None => forall|k: int| 0 <= k < turns.len() ==> ended_turn(#[trigger] turns[k]),
        },
    decreases turns.len(),
{
    if turns.len() > 0 {
        let p = turns.drop_last();
        lemma_last_open_turn(p);
        assert(turns[turns.len() - 1] == turns.last());
        if is_terminal(str_in(turns.last().get("status"@))) {
            match last_open_turn(p) {
                Some(t) => {
                    let k = choose|k: int|
                        0 <= k < p.len() && p[k] == t && !ended_turn(p[k]) && forall|j: int|
                            k < j < p.len() ==> ended_turn(#[trigger] p[j]);
                    assert(turns[k] == p[k]);
                    assert forall|j: int| k < j < turns.len() implies ended_turn(#[trigger] turns[j]) by {
                        if j < p.len() {
                            assert(turns[j] == p[j]);
                        }
                    }
                },
                None => {
                    assert forall|k: int| 0 <= k < turns.len() implies ended_turn(#[trigger] turns[k]) by {
                        if k < p.len() {
                            assert(turns[k] == p[k]);
                        }
                    }
                },
            }
        }
    }
}

/// The `turns` array of a thread record (empty when absent or not an array).
pub open spec fn turns_of(raw: Json) -> Seq<Json> {
    match raw.get("turns"@) {
        Some(ts) => match ts.as_array() {
            Some(turns) => turns,
            None => Seq::empty(),
        },
        None => Seq::empty(),
    }
}

/// Reconciling from a thread record: the active turn is the last turn of the
/// record whose status is not `completed`, `failed` or `interrupted`, and the
/// thread is then `active`; when every turn has one of those statuses (or the
/// record has no turns) there is no active turn and the record's own status is
/// kept.
pub proof fn law_reconcile_active_turn(raw: Json, id: Seq<char>, subscribed: bool, at: u64)
    ensures
        reconciled(raw, id, subscribed, at).thread_id == id,
        reconciled(raw, id, subscribed, at).subscribed == subscribed,
        reconciled(raw, id, subscribed, at).active_turn_id is Some ==> reconciled(
            raw,
            id,
            subscribed,
            at,
        ).status == "active"@ && exists|k: int|
            0 <= k < turns_of(raw).len() && !ended_turn(#[trigger] turns_of(raw)[k]) && str_in(
                turns_of(raw)[k].get("id"@),
            ) == reconciled(raw, id, subscribed, at).active_turn_id && forall|j: int|
                k < j < turns_of(raw).len() ==> ended_turn(#[trigger] turns_of(raw)[j]),
        (forall|k: int| 0 <= k < turns_of(raw).len() ==> ended_turn(#[trigger] turns_of(raw)[k]))
            ==> reconciled(raw, id, subscribed, at).active_turn_id is None && reconciled(
            raw,
            id,
            subscribed,
            at,
        ).status == status_of(raw.get("status"@)),
{
    match raw.get("turns"@) {
        Some(ts) => match ts.as_array() {
            Some(turns) => {
                assert(turns_of(raw) == turns);
                lemma_last_open_turn(turns);
                match last_open_turn(turns) {
                    Some(t) => {
                        let k = choose|k: int|
                            0 <= k < turns.len() && turns[k] == t && !ended_turn(turns[k]) && forall|j: int|
                                k < j < turns.len() ==> ended_turn(#[trigger] turns[j]);
                        assert(!ended_turn(turns_of(raw)[k]));
                        assert(open_turn_id(raw) == str_in(turns[k].get("id"@)));
                    },
                    None => {
                        assert(open_turn_id(raw) is None);
                    },
                }
            },
            None => {
                assert(turns_of(raw).len() == 0);
            },
        },
        None => {
            assert(turns_of(raw).len() == 0);
        },
    }
}

/// How one lifecycle event changes its thread: every event records its sequence;
/// `turn/started` makes the thread active on the event's turn; `turn/completed`
/// makes it idle and ends the active turn when it is that turn (or names none);
/// `thread/status/changed` takes the event's status; `thread/started` makes it
/// idle; any other method leaves status and active turn as they were. No event
/// changes the thread's id or subscription.
pub proof fn law_thread_event_effects(t: ThreadView, e: SequencedEvent)
    ensures
        apply_to_thread(t, e).last_sequence == e.sequence,
        apply_to_thread(t, e).thread_id == t.thread_id,
        apply_to_thread(t, e).subscribed == t.subscribed,
        e.frame.method_view() == Some("turn/started"@) ==> apply_to_thread(t, e).status == "active"@
            && (e.turn_id is Some ==> apply_to_thread(t, e).active_turn_id == Some(e.turn_id->0@))
            && (e.turn_id is None ==> apply_to_thread(t, e).active_turn_id is None),
        e.frame.method_view() == Some("turn/completed"@) ==> apply_to_thread(t, e).status == "idle"@
            && (e.turn_id is None || t.active_turn_id == Some(e.turn_id->0@) ==> apply_to_thread(
            t,
            e,
        ).active_turn_id is None) && (e.turn_id is Some && t.active_turn_id != Some(e.turn_id->0@)
            ==> apply_to_thread(t, e).active_turn_id == t.active_turn_id),
        e.frame.method_view() == Some("thread/status/changed"@) ==> apply_to_thread(t, e).status
            == status_of(get_in(e.frame.params_view(), "status"@)) && apply_to_thread(
            t,
            e,
        ).active_turn_id == t.active_turn_id,
        e.frame.method_view() == Some("thread/started"@) ==> apply_to_thread(t, e).status == "idle"@
            && apply_to_thread(t, e).active_turn_id == t.active_turn_id,
        e.frame.method_view() != Some("turn/started"@) && e.frame.method_view() != Some(
            "turn/completed"@,
        ) && e.frame.method_view() != Some("thread/status/changed"@) && e.frame.method_view()
            != Some("thread/started"@) ==> apply_to_thread(t, e).status == t.status
            && apply_to_thread(t, e).active_turn_id == t.active_turn_id,
{
    reveal_strlit("turn/started");
    reveal_strlit("turn/completed");
    reveal_strlit("thread/status/changed");
    reveal_strlit("thread/started");
    reveal_strlit("");
    if e.frame.method_view() is None {
        assert(or_empty(e.frame.method_view()) == Seq::<char>::empty());
    }
    assert("turn/started"@[1] != "thread/started"@[1]);
    assert("turn/started"@.len() != "thread/status/changed"@.len());
    assert("turn/completed"@[1] != "thread/started"@[1]);
    assert("turn/completed"@.len() != "thread/status/changed"@.len());
    assert("turn/completed"@.len() != "turn/started"@.len());
}

/// The status a thread takes from a status value: the string `type` of an object,
/// else the value itself when it is a string, else `unknown`.
pub proof fn law_status_text(status: Option<Json>)
    ensures
        status is None ==> status_of(status) == "unknown"@,
        status is Some && str_in(status->0.get("type"@)) is Some ==> status_of(status) == str_in(
            status->0.get("type"@),
        )->0,
        status is Some && str_in(status->0.get("type"@)) is None && status->0.as_str() is Some
            ==> status_of(status) == status->0.as_str()->0,
        status is Some && str_in(status->0.get("type"@)) is None && status->0.as_str() is None
            ==> status_of(status) == "unknown"@,
{
}

/// An event's thread is kept after the event exactly when a subscription to it is
/// being set up, or, after the event, it is subscribed or has an active turn; an
/// event never keeps or drops any other thread.
pub proof fn law_event_keeps_thread(v: ReducerView, e: Arc<SequencedEvent>, id: Seq<char>)
    requires
        e.thread_id is Some,
        e.thread_id->0@ == id,
    ensures
        v.applied(e).threads.contains_key(id) <==> (v.subscribing.contains(id) || thread_after(
            v,
            id,
            *e,
        ).subscribed || thread_after(v, id, *e).active_turn_id is Some),
        forall|k: Seq<char>|
            k != id ==> (#[trigger] v.applied(e).threads.contains_key(k) <==> v.threads.contains_key(
                k,
            )),
{
    law_apply_retention(v, e, id);
}

/// The lifecycle log after an event: a lifecycle event is appended and, past the
/// capacity, the oldest entries are dropped so that exactly the newest
/// `capacity` remain; a delta leaves the log as it was.
pub proof fn law_log_keeps_newest(v: ReducerView, e: Arc<SequencedEvent>)
    requires
        v.inv(),
    ensures
        e.plane == Plane::Lifecycle ==> ({
            let l = v.applied(e).lifecycle;
            let full = v.lifecycle.push(e);
            &&& l.len() == if full.len() <= v.capacity { full.len() } else { v.capacity }
            &&& forall|i: int| 0 <= i < l.len() ==> #[trigger] l[i] == full[full.len() - l.len() + i]
        }),
        e.plane != Plane::Lifecycle ==> v.applied(e).lifecycle == v.lifecycle,
{
}

/// Idle eviction keeps a thread exactly when a subscription to it is being set up,
/// it is subscribed, or it has an active turn, and leaves kept threads unchanged.
pub proof fn law_idle_eviction_keeps(v: ReducerView)
    ensures
        forall|k: Seq<char>|
            #[trigger] v.idle_evicted().threads.contains_key(k) <==> v.threads.contains_key(k) && (
            v.subscribing.contains(k) || v.threads[k].subscribed || v.threads[k].active_turn_id is Some),
        forall|k: Seq<char>|
            #[trigger] v.idle_evicted().threads.contains_key(k) ==> v.idle_evicted().threads[k]
                == v.threads[k],
        v.idle_evicted().subscribing == v.subscribing,
{
}

/// A subscription to `id` is pending and its thread is retained.
pub open spec fn pending_protected(v: ReducerView, id: Seq<char>) -> bool {
    v.subscribing.contains(id) && v.threads.contains_key(id)
}

/// A pending subscription can never be lost to pruning, over any run of calls:
/// beginning it makes it pending with its thread retained, and every step other
/// than finishing, cancelling or releasing that same subscription keeps it so
/// (applying any event, idle eviction, reconciling any thread record, registering
/// a waiter, and any subscription step for another thread).
pub proof fn law_pending_subscription_survives(
    v: ReducerView,
    id: Seq<char>,
    other: Seq<char>,
    e: Arc<SequencedEvent>,
    raw: Json,
    m: EventMatcher,
)
    requires
        other != id,
    ensures
        pending_protected(v.begun(id), id),
        pending_protected(v, id) ==> pending_protected(v.applied(e), id),
        pending_protected(v, id) ==> pending_protected(v.idle_evicted(), id),
        pending_protected(v, id) ==> pending_protected(v.reconciled_from(raw), id),
        pending_protected(v, id) ==> pending_protected(v.registered(m), id),
        pending_protected(v, id) ==> pending_protected(v.begun(other), id),
        pending_protected(v, id) ==> pending_protected(v.finished(other), id),
        pending_protected(v, id) ==> pending_protected(v.cancelled(other), id),
        pending_protected(v, id) ==> pending_protected(v.released(other), id),
        pending_protected(v, id) ==> v.begun(id) == v,
{
    if pending_protected(v, id) {
        assert(v.subscribing.insert(id) =~= v.subscribing);
    }
}

/// The lifecycle log stays within its capacity; a lifecycle event becomes its newest
/// entry and a delta leaves it unchanged.
pub proof fn law_apply_log_bounded(v: ReducerView, e: Arc<SequencedEvent>)
    requires
        v.inv(),
    ensures
        v.applied(e).inv(),
        e.plane == Plane::Lifecycle ==> v.applied(e).lifecycle.last() == e,
        e.plane == Plane::Delta ==> v.applied(e).lifecycle == v.lifecycle,
{
}

/// The reducer's sequence never goes backwards and covers every applied event.
pub proof fn law_sequence_monotone(v: ReducerView, e: Arc<SequencedEvent>)
    ensures
        v.applied(e).at_sequence >= v.at_sequence,
        v.applied(e).at_sequence >= e.sequence,
{
}

pub proof fn lemma_fired_pending(ws: Seq<Waiter>, e: SequencedEvent, w: Waiter)
    ensures
        fired_ids(ws.push(w), e) == if accepts(w.matcher, e) {
            fired_ids(ws, e).push(w.id)
        } else {
            fired_ids(ws, e)
        },
        pending_waiters(ws.push(w), e) == if accepts(w.matcher, e) {
            pending_waiters(ws, e)
        } else {
            pending_waiters(ws, e).push(w)
        },
{
    assert(ws.push(w).drop_last() =~= ws);
}

/// A waiter registered before an event it accepts is fired by that event (even
/// when the event arrives before any other answer); one it does not accept stays
/// pending.
pub proof fn law_waiter_registered_before_event(v: ReducerView, m: EventMatcher, e: Arc<SequencedEvent>)
    ensures
        accepts(m, *e) ==> fired_ids(v.registered(m).waiters, *e).last() == v.next_waiter,
        !accepts(m, *e) ==> v.registered(m).applied(e).waiters.last() == (Waiter {
            id: v.next_waiter,
            matcher: m,
        }),
{
    lemma_fired_pending(v.waiters, event_of(e), Waiter { id: v.next_waiter, matcher: m });
}

/// Replay hands over every retained event after the cursor, in log order, and
/// nothing at or before it.
pub proof fn law_replay_exact(log: Seq<Arc<SequencedEvent>>, s: u64)
    ensures
        forall|i: int|
            0 <= i < events_after(log, s).len() ==> (#[trigger] events_after(log, s)[i]).sequence > s
                && log.contains(events_after(log, s)[i]),
        forall|i: int| 0 <= i < log.len() && (#[trigger] log[i]).sequence > s ==> events_after(
            log,
            s,
        ).contains(log[i]),
    decreases log.len(),
{
    if log.len() > 0 {
        let p = log.drop_last();
        law_replay_exact(p, s);
        let r = events_after(log, s);
        let rp = events_after(p, s);
        assert forall|i: int| 0 <= i < r.len() implies (#[trigger] r[i]).sequence > s && log.contains(
            r[i],
        ) by {
            if i < rp.len() {
                assert(r[i] == rp[i]);
                let j = choose|j: int| 0 <= j < p.len() && p[j] == rp[i];
                assert(log[j] == p[j]);
            } else {
                assert(r[i] == log.last());
                assert(log[log.len() - 1] == log.last());
            }
        }
        assert forall|i: int| 0 <= i < log.len() && (#[trigger] log[i]).sequence > s implies r.contains(
            log[i],
        ) by {
            if i < p.len() {
                assert(log[i] == p[i]);
                assert(p[i].sequence > s);
                assert(rp.contains(p[i]));
                let j = choose|j: int| 0 <= j < rp.len() && rp[j] == p[i];
                assert(r[j] == rp[j]);
            } else {
                assert(r.last() == log[i]);
            }
        }
    }
}

/// Splits waiters into those `e` leaves pending and the ids of those it fires.
fn split_waiters(ws: &Vec<Waiter>, e: &SequencedEvent) -> (r: (Vec<Waiter>, Vec<u64>))
    ensures
        r.0@ == pending_waiters(ws@, *e),
        r.1@ == fired_ids(ws@, *e),
{
    let mut kept: Vec<Waiter> = Vec::new();
    let mut fired: Vec<u64> = Vec::new();
    let n = ws.len();
    let mut i: usize = 0;
    while i < n
        invariant
            n == ws@.len(),
            i <= n,
            kept@ == pending_waiters(ws@.take(i as int), *e),
            fired@ == fired_ids(ws@.take(i as int), *e),
        decreases n - i,
    {
        proof {
            assert(ws@.take(i + 1).drop_last() =~= ws@.take(i as int));
            assert(ws@.take(i + 1).last() == ws@[i as int]);
        }
        if ws[i].matcher.accepts(e) {
            fired.push(ws[i].id);
        } else {
            kept.push(Waiter { id: ws[i].id, matcher: ws[i].matcher.copy_matcher() });
        }
        i += 1;
    }
    proof {
        assert(ws@.take(n as int) =~= ws@);
    }
    (kept, fired)
}


impl Default for Reducer {
    /// A reducer with the default replay capacity of 4096 events.
    fn default() -> (r: Self)
        ensures
            r.wf(),
            r@.capacity == 4096,
            r@.at_sequence == 0,
            r@.threads == Map::<Seq<char>, ThreadView>::empty(),
            r@.subscribing == Set::<Seq<char>>::empty(),
            r@.lifecycle == Seq::<Arc<SequencedEvent>>::empty(),
            r@.waiters == Seq::<Waiter>::empty(),
            r@.next_waiter == 0,
    {
        Reducer::new(4096)
    }
}

/// Lifecycle events in strictly increasing sequence.
pub open spec fn log_sorted(log: Seq<Arc<SequencedEvent>>) -> bool {
    forall|i: int, j: int| 0 <= i < j < log.len() ==> (#[trigger] log[i]).sequence < (#[trigger] log[j]).sequence
}

/// When events arrive in increasing sequence the replay log stays in sequence
/// order, so a replay hands transitions over in the order they happened.
pub proof fn law_log_keeps_sequence_order(v: ReducerView, e: Arc<SequencedEvent>)
    requires
        log_sorted(v.lifecycle),
        v.lifecycle.len() == 0 || v.lifecycle.last().sequence < e.sequence,
    ensures
        log_sorted(v.applied(e).lifecycle),
{
    if e.plane == Plane::Lifecycle {
        let l = v.lifecycle.push(e);
        assert forall|i: int, j: int| 0 <= i < j < l.len() implies (#[trigger] l[i]).sequence < (
        #[trigger] l[j]).sequence by {
            assert(l[i] == v.lifecycle[i] || i == v.lifecycle.len());
            if j < v.lifecycle.len() {
                assert(l[i] == v.lifecycle[i] && l[j] == v.lifecycle[j]);
            } else {
                assert(l[j] == e);
                assert(l[i] == v.lifecycle[i]);
                if i < v.lifecycle.len() - 1 {
                    assert(v.lifecycle[i].sequence < v.lifecycle[v.lifecycle.len() - 1].sequence);
                }
            }
        }
        let k = keep_last(l, v.capacity);
        assert forall|i: int, j: int| 0 <= i < j < k.len() implies (#[trigger] k[i]).sequence < (
        #[trigger] k[j]).sequence by {
            if l.len() > v.capacity {
                let off = l.len() - v.capacity;
                assert(k[i] == l[i + off] && k[j] == l[j + off]);
            }
        }
    }
}

/// A replay after cursor `s` is refused exactly when the log is not empty and the
/// transition right after `s` is older than every retained one, so it can no
/// longer be handed over; otherwise the oldest retained transition (if any) comes
/// at or before `s + 1` and nothing between `s` and it was dropped.
pub proof fn law_replay_gap_honest(log: Seq<Arc<SequencedEvent>>, s: u64)
    requires
        log_sorted(log),
    ensures
        replay_gap(log, s) <==> log.len() > 0 && log[0].sequence > s + 1,
        replay_gap(log, s) ==> forall|i: int| 0 <= i < log.len() ==> (#[trigger] log[i]).sequence
            != s + 1,
        !replay_gap(log, s) && log.len() > 0 ==> log[0].sequence <= s + 1,
{
    if replay_gap(log, s) {
        assert forall|i: int| 0 <= i < log.len() implies (#[trigger] log[i]).sequence != s + 1 by {
            if i > 0 {
                assert(log[0].sequence < log[i].sequence);
            }
        }
    }
}

} // verus!
