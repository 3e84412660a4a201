//! Event Bus: a bounded broadcast channel. One producer appends ordered
//! envelopes to a shared log; each subscriber owns a cursor into that log
//! and drains it independently. A subscriber whose unread backlog exceeds
//! the capacity is handed a lag indicator once, its cursor jumps to the
//! oldest envelope still buffered, and delivery resumes; it never holds
//! the producer or any other subscriber back.

use vstd::prelude::*;

use crate::structures::MasterEvent;
use crate::structures::MasterEventView;

verus! {

/// Mathematical view of an [`Envelope`].
#[verifier::ext_equal]
pub ghost struct EnvelopeView {
    pub event: MasterEventView,
    pub time: i64,
}

/// An event paired with the unix second count of the tick that produced
/// it: the unit actually published and transported.
pub struct Envelope {
    pub event: MasterEvent,
    pub time: i64,
}

impl View for Envelope {
    type V = EnvelopeView;

    open spec fn view(&self) -> EnvelopeView {
        EnvelopeView { event: self.event@, time: self.time }
    }
}

impl DeepView for Envelope {
    type V = EnvelopeView;

    open spec fn deep_view(&self) -> EnvelopeView {
        self.view()
    }
}

impl Clone for Envelope {
    fn clone(&self) -> (r: Self)
        ensures
            r@ == self@,
    {
        Envelope { event: self.event.clone(), time: self.time }
    }
}

/// Mathematical view of a [`RecvOutcome`].
#[verifier::ext_equal]
pub ghost enum RecvOutcomeView {
    Empty,
    Lagged(int),
    Delivered(EnvelopeView),
}

/// What one read attempt of a subscription yields: nothing new, a lag
/// indicator counting the envelopes dropped for this subscriber, or the
/// next envelope.
pub enum RecvOutcome {
    Empty,
    Lagged(usize),
    Delivered(Envelope),
}

impl View for RecvOutcome {
    type V = RecvOutcomeView;

    open spec fn view(&self) -> RecvOutcomeView {
        match *self {
            RecvOutcome::Empty => RecvOutcomeView::Empty,
            RecvOutcome::Lagged(n) => RecvOutcomeView::Lagged(n as int),
            RecvOutcome::Delivered(e) => RecvOutcomeView::Delivered(e@),
        }
    }
}

/// What one read attempt yields, and where it leaves the cursor, as a
/// function of the log, the capacity and the cursor alone.
pub open spec fn recv_spec(log: Seq<EnvelopeView>, capacity: int, cursor: int) -> (
    RecvOutcomeView,
    int,
) {
    if cursor >= log.len() {
        (RecvOutcomeView::Empty, cursor)
    } else if log.len() - cursor > capacity {
        (RecvOutcomeView::Lagged(log.len() - cursor - capacity), log.len() - capacity)
    } else {
        (RecvOutcomeView::Delivered(log[cursor]), cursor + 1)
    }
}

/// A receive handle: an independent cursor into the bus's log.
pub struct Subscription {
    pub cursor: usize,
}

/// The bus: the log of everything published, and the capacity bounding
/// each subscriber's unread backlog.
pub struct EventBus {
    pub capacity: usize,
    pub log: Vec<Envelope>,
}

impl EventBus {
    /// Well-formedness: the buffer holds at least one envelope.
    pub open spec fn wf(self) -> bool {
        self.capacity >= 1
    }

    /// The published envelopes, in publish order.
    pub open spec fn log_view(self) -> Seq<EnvelopeView> {
        self.log.deep_view()
    }

    /// A bus with nothing published yet.
    pub fn new(capacity: usize) -> (r: EventBus)
        requires
            capacity >= 1,
        ensures
            r.wf(),
            r.capacity == capacity,
            r.log_view() == Seq::<EnvelopeView>::empty(),
    {
        let r = EventBus { capacity, log: Vec::new() };
        proof {
            assert(r.log_view() =~= Seq::<EnvelopeView>::empty());
        }
        r
    }

    /// Publishes one envelope. Never blocks and never fails, whatever the
    /// subscribers do; with no subscriber attached it merely grows the log.
    pub fn publish(&mut self, e: Envelope)
        ensures
            final(self).capacity == old(self).capacity,
            final(self).log_view() == old(self).log_view().push(e@),
    {
        let ghost pre = self.log_view();
        let ghost ev = e@;
        self.log.push(e);
        proof {
            assert(self.log_view() =~= pre.push(ev));
        }
    }

    /// A new, independent receive handle. It sees only envelopes published
    /// after this call: no historical replay.
    pub fn subscribe(&self) -> (s: Subscription)
        ensures
            s.cursor == self.log_view().len(),
    {
        Subscription { cursor: self.log.len() }
    }

    /// One read attempt for `sub`: the next unread envelope in publish
    /// order while the backlog fits the capacity; a lag indicator, once,
    /// when it does not, after which the cursor stands at the oldest
    /// envelope still buffered; nothing when all is read.
    pub fn recv(&self, sub: &mut Subscription) -> (r: RecvOutcome)
        requires
            self.wf(),
            old(sub).cursor <= self.log_view().len(),
        ensures
            final(sub).cursor <= self.log_view().len(),
            r@ == recv_spec(self.log_view(), self.capacity as int, old(sub).cursor as int).0,
            final(sub).cursor as int == recv_spec(
                self.log_view(),
                self.capacity as int,
                old(sub).cursor as int,
            ).1,
    {
        let cur = sub.cursor;
        let len = self.log.len();
        if cur >= len {
            RecvOutcome::Empty
        } else if len - cur > self.capacity {
            let missed = len - cur - self.capacity;
            sub.cursor = len - self.capacity;
            RecvOutcome::Lagged(missed)
        } else {
            proof {
                assert(self.log_view()[cur as int] == self.log@[cur as int]@);
            }
            let e = self.log[cur].clone();
            sub.cursor = cur + 1;
            RecvOutcome::Delivered(e)
        }
    }

    /// Reads everything `sub` has not yet seen, in publish order. Asks the
    /// backlog to fit the capacity, so nothing has been dropped.
    pub fn drain(&self, sub: &mut Subscription) -> (r: Vec<Envelope>)
        requires
            self.wf(),
            old(sub).cursor <= self.log_view().len(),
            self.log_view().len() - old(sub).cursor <= self.capacity,
        ensures
            final(sub).cursor == self.log_view().len(),
            r.deep_view() == self.log_view().subrange(
                old(sub).cursor as int,
                self.log_view().len() as int,
            ),
    {
        let mut r: Vec<Envelope> = Vec::new();
        proof {
            assert(r.deep_view() =~= self.log_view().subrange(
                old(sub).cursor as int,
                old(sub).cursor as int,
            ));
        }
        while sub.cursor < self.log.len()
            invariant
                self.wf(),
                old(sub).cursor <= sub.cursor <= self.log_view().len(),
                self.log_view().len() - sub.cursor <= self.capacity,
                r.deep_view() == self.log_view().subrange(old(sub).cursor as int, sub.cursor as int),
            decreases self.log_view().len() - sub.cursor,
        {
            let ghost pre = r.deep_view();
            let ghost cur = sub.cursor as int;
            match self.recv(sub) {
                RecvOutcome::Delivered(e) => {
                    let ghost ev = e@;
                    r.push(e);
                    proof {
                        assert(r.deep_view() =~= pre.push(ev));
                        assert(self.log_view().subrange(old(sub).cursor as int, cur + 1)
                            =~= self.log_view().subrange(old(sub).cursor as int, cur).push(
                            self.log_view()[cur],
                        ));
                    }
                },
                RecvOutcome::Empty => {
                    proof {
                        assert(false);
                    }
                },
                RecvOutcome::Lagged(_) => {
                    proof {
                        assert(false);
                    }
                },
            }
        }
        r
    }
}

/// A subscription taken before a batch was published, with the whole
/// batch within capacity, reads the batch back element by element, in
/// publish order.
pub proof fn lemma_prior_subscriber_reads_batch(
    log: Seq<EnvelopeView>,
    batch: Seq<EnvelopeView>,
    capacity: int,
    i: int,
)
    requires
        capacity >= 1,
        batch.len() <= capacity,
        0 <= i < batch.len(),
    ensures
        recv_spec(log + batch, capacity, log.len() + i).0 == RecvOutcomeView::Delivered(batch[i]),
        recv_spec(log + batch, capacity, log.len() + i).1 == log.len() + i + 1,
{
    assert((log + batch)[log.len() + i] == batch[i]);
}

/// A subscription taken after everything so far was published sees none
/// of it: its first read attempt finds nothing.
pub proof fn lemma_late_subscriber_sees_nothing(log: Seq<EnvelopeView>, capacity: int)
    ensures
        recv_spec(log, capacity, log.len() as int).0 == RecvOutcomeView::Empty,
        recv_spec(log, capacity, log.len() as int).1 == log.len(),
{
}

/// A subscriber whose backlog exceeds the capacity is told so exactly once
/// per overflow episode: the lag indicator counts what was dropped, and the
/// very next read attempt already delivers the oldest envelope still
/// buffered.
pub proof fn lemma_lag_reported_once(log: Seq<EnvelopeView>, capacity: int, cursor: int)
    requires
        capacity >= 1,
        0 <= cursor <= log.len(),
        log.len() - cursor > capacity,
    ensures
        recv_spec(log, capacity, cursor).0 == RecvOutcomeView::Lagged(log.len() - cursor - capacity),
        recv_spec(log, capacity, cursor).1 == log.len() - capacity,
        recv_spec(log, capacity, log.len() - capacity).0 == RecvOutcomeView::Delivered(
            log[log.len() - capacity],
        ),
        recv_spec(log, capacity, log.len() - capacity).1 == log.len() - capacity + 1,
{
}

} // verus!
