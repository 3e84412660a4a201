//! The poll-tick engine: the state store holding the current snapshot and
//! the event bus, driven one tick at a time. A tick takes the outcome of a
//! fetch; on success it diffs the new snapshot against the current one,
//! publishes the events as one ordered batch and only then swaps the
//! store; on failure it touches nothing, preferring stale data to none.

use vstd::prelude::*;

use crate::bus::Envelope;
use crate::bus::EnvelopeView;
use crate::bus::EventBus;
use crate::differ::diff;
use crate::differ::diff_spec;
use crate::snapshot::ServerListMap;
use crate::structures::MasterEventView;

verus! {

/// Why a fetch produced no snapshot. The transport's own story, carried
/// as text; the engine only ever skips the tick on it.
pub struct FetchError {
    pub message: String,
}

/// The events of one tick stamped with that tick's timestamp, in order.
pub open spec fn stamped(events: Seq<MasterEventView>, now: i64) -> Seq<EnvelopeView> {
    Seq::new(events.len(), |i: int| EnvelopeView { event: events[i], time: now })
}

/// The reconciliation engine: the authoritative snapshot and the bus.
pub struct Engine {
    pub snapshot: ServerListMap,
    pub bus: EventBus,
}

impl Engine {
    /// Well-formedness of both halves.
    pub open spec fn wf(self) -> bool {
        self.snapshot.wf() && self.bus.wf()
    }

    /// An engine holding `initial` as the current world, with an empty bus.
    pub fn new(initial: ServerListMap, capacity: usize) -> (r: Engine)
        requires
            initial.wf(),
            capacity >= 1,
        ensures
            r.wf(),
            r.snapshot == initial,
            r.bus.capacity == capacity,
            r.bus.log_view() == Seq::<EnvelopeView>::empty(),
    {
        Engine { snapshot: initial, bus: EventBus::new(capacity) }
    }

    /// One tick. On a fetched snapshot: the diff against the current one
    /// is stamped with `now`, published to the bus as one ordered batch,
    /// and the store swaps to the new snapshot; the batch is returned. On
    /// a failed fetch the engine is left exactly as it was and nothing is
    /// published.
    pub fn tick(&mut self, fetched: Result<ServerListMap, FetchError>, now: i64) -> (published: Vec<
        Envelope,
    >)
        requires
            old(self).wf(),
            fetched matches Ok(m) ==> m.wf(),
        ensures
            final(self).wf(),
            final(self).bus.capacity == old(self).bus.capacity,
            match fetched {
                Ok(m) => {
                    &&& final(self).snapshot == m
                    &&& published.deep_view() == stamped(
                        diff_spec(old(self).snapshot@, m@),
                        now,
                    )
                    &&& final(self).bus.log_view() == old(self).bus.log_view()
                        + published.deep_view()
                },
                Err(_) => {
                    &&& *final(self) == *old(self)
                    &&& published.deep_view() == Seq::<EnvelopeView>::empty()
                },
            },
    {
        match fetched {
            Ok(m) => {
                let events = diff(&self.snapshot, &m);
                let ghost evs = events.deep_view();
                let mut published: Vec<Envelope> = Vec::new();
                proof {
                    assert(published.deep_view() =~= stamped(evs.take(0), now));
                    assert(self.bus.log_view() + published.deep_view() =~= self.bus.log_view());
                }
                let ghost base = self.bus.log_view();
                let mut i: usize = 0;
                let n = events.len();
                while i < n
                    invariant
                        i <= n,
                        n == events@.len(),
                        evs == events.deep_view(),
                        self.bus.wf(),
                        self.bus.capacity == old(self).bus.capacity,
                        self.snapshot == old(self).snapshot,
                        published.deep_view() == stamped(evs.take(i as int), now),
                        self.bus.log_view() == base + published.deep_view(),
                    decreases n - i,
                {
                    proof {
                        assert(evs[i as int] == events@[i as int]@);
                    }
                    let env = Envelope { event: events[i].clone(), time: now };
                    let ghost ev = env@;
                    let ghost pre = published.deep_view();
                    self.bus.publish(env.clone());
                    published.push(env);
                    proof {
                        assert(published.deep_view() =~= pre.push(ev));
                        assert(stamped(evs.take(i + 1), now) =~= stamped(evs.take(i as int), now)
                            .push(EnvelopeView { event: evs[i as int], time: now }));
                        assert(base + pre.push(ev) =~= (base + pre).push(ev));
                    }
                    i += 1;
                }
                proof {
                    assert(evs.take(n as int) =~= evs);
                }
                self.snapshot = m;
                published
            },
            Err(_) => {
                let published: Vec<Envelope> = Vec::new();
                proof {
                    assert(published.deep_view() =~= Seq::<EnvelopeView>::empty());
                }
                published
            },
        }
    }
}

} // verus!
