//! The peer side of one outward connection: the self-clocking heartbeat and
//! the handling of inbound frames.
//!
//! A `Ping` is published when the session starts (if keepalive is on), and
//! again each time a `Pong` arrives, after [`HEARTBEAT_DELAY_MILLIS`]. No
//! timer runs otherwise: a lost `Pong` stops the heartbeat.
use crate::envelope::{category_of_frame, handshake_bytes, id_fits, parse_envelope, Category, Envelope};
use vstd::prelude::*;

verus! {

/// Delay between a `Pong` and the next `Ping`, in milliseconds.
pub const HEARTBEAT_DELAY_MILLIS: u64 = 15000;

/// What the runtime does after an inbound frame, over plain values.
pub enum PeerStep {
    /// Publish the next `Ping` after this many milliseconds.
    ScheduleHeartbeat(u64),
    /// Hand the envelope with this category and payload to the dispatcher.
    Dispatch(Category, Seq<u8>),
    Stop,
    Ignore,
}

/// Whether the inbound loop is still running afterwards, and the step, after
/// one binary frame.
pub open spec fn peer_step(open: bool, frame: Seq<u8>) -> (bool, PeerStep) {
    if !open {
        (false, PeerStep::Ignore)
    } else {
        match parse_envelope(frame) {
            Some((code, payload)) => match Category::spec_from_code(code) {
                Category::Pong => (true, PeerStep::ScheduleHeartbeat(HEARTBEAT_DELAY_MILLIS)),
                Category::Disconnect => (false, PeerStep::Stop),
                c => (true, PeerStep::Dispatch(c, payload)),
            },
            None => (true, PeerStep::Ignore),
        }
    }
}

/// The steps taken over a run of frames.
pub open spec fn peer_run(open: bool, frames: Seq<Seq<u8>>) -> Seq<PeerStep>
    decreases frames.len(),
{
    if frames.len() == 0 {
        Seq::empty()
    } else {
        let (next, step) = peer_step(open, frames[0]);
        seq![step] + peer_run(next, frames.drop_first())
    }
}

pub enum PeerAction {
    /// Publish the identity's `Ping` into the outbound slot after this many
    /// milliseconds (see [`PeerSession::heartbeat`]).
    ScheduleHeartbeat(u64),
    /// Hand this envelope to the dispatcher.
    Dispatch(Envelope),
    /// End the inbound loop.
    Stop,
    /// Nothing to do.
    Ignore,
}

impl View for PeerAction {
    type V = PeerStep;

    open spec fn view(&self) -> PeerStep {
        match self {
            PeerAction::ScheduleHeartbeat(ms) => PeerStep::ScheduleHeartbeat(*ms),
            PeerAction::Dispatch(e) => PeerStep::Dispatch(e.category, e.payload@),
            PeerAction::Stop => PeerStep::Stop,
            PeerAction::Ignore => PeerStep::Ignore,
        }
    }
}

/// One outward connection, from the peer's side.
pub struct PeerSession {
    /// The local identity carried by every `Ping`.
    pub identity: String,
    /// Whether the inbound loop still runs.
    pub open: bool,
}

impl PeerSession {
    /// Starts a session; returns it with the `Ping` to publish first, if
    /// keepalive is on.
    pub fn start(identity: String, use_ping: bool) -> (r: (PeerSession, Option<Envelope>))
        requires
            id_fits(identity@),
        ensures
            r.0.identity == identity,
            r.0.open,
            use_ping <==> r.1 is Some,
            r.1 matches Some(e) ==> (e.category == Category::Ping && e.payload@ == handshake_bytes(
                identity@,
            ) && e.wf()),
    {
        let first = if use_ping {
            Some(Envelope::ping(&identity))
        } else {
            None
        };
        (PeerSession { identity, open: true }, first)
    }

    /// The `Ping` to publish when a scheduled heartbeat falls due.
    pub fn heartbeat(&self) -> (r: Envelope)
        requires
            id_fits(self.identity@),
        ensures
            r.category == Category::Ping,
            r.payload@ == handshake_bytes(self.identity@),
            r.wf(),
    {
        Envelope::ping(&self.identity)
    }

    /// Handles one binary frame read from the socket.
    pub fn on_frame(&mut self, frame: &[u8]) -> (r: PeerAction)
        ensures
            (final(self).open, r@) == peer_step(old(self).open, frame@),
            final(self).identity == old(self).identity,
    {
        if !self.open {
            return PeerAction::Ignore;
        }
        match Envelope::deserialize(frame) {
            Some(e) => match e.category {
                Category::Pong => PeerAction::ScheduleHeartbeat(HEARTBEAT_DELAY_MILLIS),
                Category::Disconnect => {
                    self.open = false;
                    PeerAction::Stop
                },
                _ => PeerAction::Dispatch(e),
            },
            None => PeerAction::Ignore,
        }
    }
}

/// The outbound loop goes on after writing a frame unless the frame was a
/// `Disconnect`.
pub fn continue_after_write(frame: &[u8]) -> (r: bool)
    ensures
        r == (category_of_frame(frame@) != Some(Category::Disconnect)),
{
    !crate::envelope::ends_stream(frame)
}

/// A `Pong` received while the inbound loop runs schedules exactly one next
/// heartbeat, no sooner than fifteen seconds later.
pub proof fn lemma_pong_schedules_one_ping(frame: Seq<u8>)
    requires
        category_of_frame(frame) == Some(Category::Pong),
    ensures
        peer_step(true, frame) == (true, PeerStep::ScheduleHeartbeat(HEARTBEAT_DELAY_MILLIS)),
        HEARTBEAT_DELAY_MILLIS >= 15000,
{
}

/// Over any run of frames, a heartbeat is scheduled only in answer to a
/// `Pong`, and always with the fifteen-second delay: if no `Pong` arrives, no
/// further `Ping` is ever scheduled.
pub proof fn lemma_heartbeat_only_on_pong(open: bool, frames: Seq<Seq<u8>>)
    ensures
        peer_run(open, frames).len() == frames.len(),
        forall|k: int|
            0 <= k < frames.len() && (#[trigger] peer_run(open, frames)[k]) is ScheduleHeartbeat
                ==> category_of_frame(frames[k]) == Some(Category::Pong)
                && peer_run(open, frames)[k] == PeerStep::ScheduleHeartbeat(HEARTBEAT_DELAY_MILLIS),
        (forall|k: int| 0 <= k < frames.len() ==> category_of_frame(#[trigger] frames[k]) != Some(
            Category::Pong,
        )) ==> forall|k: int|
            0 <= k < frames.len() ==> !(#[trigger] peer_run(open, frames)[k] is ScheduleHeartbeat),
    decreases frames.len(),
{
    if frames.len() > 0 {
        let (next, step) = peer_step(open, frames[0]);
        let rest = frames.drop_first();
        lemma_heartbeat_only_on_pong(next, rest);
        let run = peer_run(open, frames);
        assert forall|k: int|
            0 <= k < frames.len() && (#[trigger] run[k]) is ScheduleHeartbeat implies category_of_frame(
            frames[k],
        ) == Some(Category::Pong) && run[k] == PeerStep::ScheduleHeartbeat(
            HEARTBEAT_DELAY_MILLIS,
        ) by {
            if k > 0 {
                assert(run[k] == peer_run(next, rest)[k - 1]);
                assert(frames[k] == rest[k - 1]);
            }
        }
    }
}

} // verus!
