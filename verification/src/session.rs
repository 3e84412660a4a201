//! Subscriber session: the decision table of one connected peer's loop.
//! The surrounding task races the peer's transport against the bus and
//! feeds whatever fired into [`session_step`]; the step says whether to
//! forward an envelope, carry on, or tear the session down.

use vstd::prelude::*;

use crate::bus::Envelope;
use crate::bus::EnvelopeView;

verus! {

/// What the session's wait came back with.
pub enum SessionEvent {
    /// The peer sent a close frame.
    PeerClosed,
    /// The peer's transport failed or ended.
    PeerGone,
    /// The peer sent any other message; inbound traffic carries no meaning.
    PeerMessage,
    /// The bus handed the session its next envelope.
    EnvelopeReady(Envelope),
    /// The bus dropped this many unread envelopes for this subscriber.
    EnvelopeLagged(usize),
    /// Forwarding an envelope to the peer failed.
    SendFailed,
}

/// What the session does next.
pub enum SessionAction {
    /// Keep waiting.
    Continue,
    /// Send this envelope to the peer, then keep waiting.
    Forward(Envelope),
    /// Tear the session down and release the subscription.
    Stop,
}

/// Mathematical view of a [`SessionAction`].
#[verifier::ext_equal]
pub ghost enum SessionActionView {
    Continue,
    Forward(EnvelopeView),
    Stop,
}

impl View for SessionAction {
    type V = SessionActionView;

    open spec fn view(&self) -> SessionActionView {
        match *self {
            SessionAction::Continue => SessionActionView::Continue,
            SessionAction::Forward(e) => SessionActionView::Forward(e@),
            SessionAction::Stop => SessionActionView::Stop,
        }
    }
}

/// The decision table: a close, a transport failure or a failed send ends
/// the session; an envelope is forwarded; everything else, a lag
/// indicator included, merely carries on.
pub open spec fn session_step_spec(ev: SessionEvent) -> SessionActionView {
    match ev {
        SessionEvent::PeerClosed => SessionActionView::Stop,
        SessionEvent::PeerGone => SessionActionView::Stop,
        SessionEvent::PeerMessage => SessionActionView::Continue,
        SessionEvent::EnvelopeReady(e) => SessionActionView::Forward(e@),
        SessionEvent::EnvelopeLagged(_) => SessionActionView::Continue,
        SessionEvent::SendFailed => SessionActionView::Stop,
    }
}

/// Decides one step of a subscriber session.
pub fn session_step(ev: SessionEvent) -> (a: SessionAction)
    ensures
        a@ == session_step_spec(ev),
{
    match ev {
        SessionEvent::PeerClosed => SessionAction::Stop,
        SessionEvent::PeerGone => SessionAction::Stop,
        SessionEvent::PeerMessage => SessionAction::Continue,
        SessionEvent::EnvelopeReady(e) => SessionAction::Forward(e),
        SessionEvent::EnvelopeLagged(_) => SessionAction::Continue,
        SessionEvent::SendFailed => SessionAction::Stop,
    }
}

} // verus!
