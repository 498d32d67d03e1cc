//! Lifecycle and delta consumer streams: what a consumer is handed for each
//! receive outcome of its bounded topic.

use vstd::prelude::*;
use std::sync::Arc;
use crate::protocol::{Sequence, SequencedEvent};
use crate::reducer::{events_after, replay_gap, Reducer, ReplayResult, Snapshot};

verus! {

/// What a bounded topic receiver handed over.
#[derive(Debug)]
pub enum Received {
    Event(Arc<SequencedEvent>),
    /// The receiver fell behind; this many messages were overwritten.
    Lagged(u64),
    Closed,
}

/// What a lifecycle consumer receives.
#[derive(Debug, PartialEq)]
pub enum LifecycleItem {
    Event(Arc<SequencedEvent>),
    Replay(Vec<Arc<SequencedEvent>>),
    GapTooOld { snapshot: Snapshot, oldest_available: Option<Sequence> },
    Closed,
}

/// A lifecycle consumer's position: the sequence of the last transition it saw.
pub struct LifecycleStream {
    cursor: Sequence,
}

impl LifecycleStream {
    pub closed spec fn cursor_view(&self) -> Sequence {
        self.cursor
    }

    /// A stream that has seen everything up to `after`.
    pub fn new(after: Sequence) -> (r: Self)
        ensures
            r.cursor_view() == after,
    {
        LifecycleStream { cursor: after }
    }

    pub fn cursor(&self) -> (r: Sequence)
        ensures
            r == self.cursor_view(),
    {
        self.cursor
    }

    /// The item for one receive outcome. A live event advances the cursor to it;
    /// after a lag the retained transitions since the cursor are replayed from the
    /// reducer (the cursor moves to the last one), or, when they predate the replay
    /// log, a snapshot is handed over and the cursor moves to its sequence.
    pub fn recv(&mut self, received: Received, reducer: &Reducer) -> (r: LifecycleItem)
        requires
            reducer.wf(),
        ensures
            match received {
                Received::Event(e) => r == LifecycleItem::Event(e) && final(self).cursor_view()
                    == e.sequence,
                Received::Closed => r is Closed && final(self).cursor_view() == old(
                    self,
                ).cursor_view(),
                Received::Lagged(_) => {
                    let c = old(self).cursor_view();
                    let log = reducer@.lifecycle;
                    if replay_gap(log, c) {
                        &&& r matches LifecycleItem::GapTooOld { snapshot, oldest_available }
                            && snapshot.wf() && snapshot@ == reducer@.snapshot()
                            && oldest_available == Some(log[0].sequence)
                        &&& final(self).cursor_view() == reducer@.at_sequence
                    } else {
                        let replay = events_after(log, c);
                        &&& r matches LifecycleItem::Replay(v) && v@ == replay
                        &&& final(self).cursor_view() == if replay.len() > 0 {
                            replay.last().sequence
                        } else {
                            c
                        }
                    }
                },
            },
    {
        match received {
            Received::Event(event) => {
                self.cursor = event.sequence;
                LifecycleItem::Event(event)
            },
            Received::Lagged(_) => {
                match reducer.events_since(self.cursor) {
                    ReplayResult::Events(events) => {
                        let n = events.len();
                        if n > 0 {
                            self.cursor = events[n - 1].sequence;
                        }
                        LifecycleItem::Replay(events)
                    },
                    ReplayResult::GapTooOld { oldest_available, snapshot, .. } => {
                        self.cursor = snapshot.at_sequence;
                        LifecycleItem::GapTooOld { snapshot, oldest_available }
                    },
                }
            },
            Received::Closed => LifecycleItem::Closed,
        }
    }
}

/// What a delta consumer is handed for one receive outcome.
#[derive(Debug)]
pub enum DeltaItem {
    Event(Arc<SequencedEvent>),
    /// Messages were dropped; keep receiving.
    Continue,
    Closed,
}

/// A lossy delta consumer that counts what it missed.
pub struct DeltaStream {
    dropped: u64,
}

impl DeltaStream {
    pub closed spec fn dropped_view(&self) -> u64 {
        self.dropped
    }

    pub fn new() -> (r: Self)
        ensures
            r.dropped_view() == 0,
    {
        DeltaStream { dropped: 0 }
    }

    /// An event is handed over; a lag adds its count to the dropped total and asks
    /// for another receive; a closed topic ends the stream.
    pub fn recv(&mut self, received: Received) -> (r: DeltaItem)
        requires
            received matches Received::Lagged(n) ==> old(self).dropped_view() + n <= u64::MAX,
        ensures
            match received {
                Received::Event(e) => r == DeltaItem::Event(e) && final(self).dropped_view()
                    == old(self).dropped_view(),
                Received::Lagged(n) => r is Continue && final(self).dropped_view() == old(
                    self,
                ).dropped_view() + n,
                Received::Closed => r is Closed && final(self).dropped_view() == old(
                    self,
                ).dropped_view(),
            },
    {
        match received {
            Received::Event(event) => DeltaItem::Event(event),
            Received::Lagged(count) => {
                self.dropped = self.dropped + count;
                DeltaItem::Continue
            },
            Received::Closed => DeltaItem::Closed,
        }
    }

    /// How many deltas this consumer missed.
    pub fn dropped(&self) -> (r: u64)
        ensures
            r == self.dropped_view(),
    {
        self.dropped
    }
}

} // verus!
