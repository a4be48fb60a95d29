//! The hub side of one accepted connection: the handshake, then the routing
//! of every later frame.
//!
//! The first frame must be a `Ping` whose payload is a handshake record; it
//! names the peer, whose outbound queue is then registered. Anything else
//! rejects the connection. Once active, a `Ping` is answered with a `Pong`
//! to the peer it names, a `Disconnect` ends the inbound loop, malformed
//! frames are dropped, and every other envelope is handed to the inbound
//! fan-out with the connection's own peer id.
use crate::envelope::{
    handshake_bytes, id_fits, parse_envelope, parse_handshake, ping_peer_of_frame, Category,
    Envelope, HandshakeRecord, DISCONNECT_CODE, PING_CODE,
};
use vstd::prelude::*;

verus! {

/// Capacity of a connection's ordered outbound queue.
pub const OUTBOUND_QUEUE_CAPACITY: usize = 1024;

/// Where a connection stands, over plain values.
pub enum Phase {
    AwaitingHandshake,
    Active(Seq<char>),
    Closed,
}

/// What the runtime does after an event, over plain values.
pub enum Step {
    Accept(Seq<char>),
    Reject,
    Pong(Seq<char>),
    Forward(Seq<u8>, Seq<char>),
    Stop,
    Ignore,
}

/// The phase and step after one event: `Some(frame)` for a binary frame,
/// `None` when the socket closed.
pub open spec fn hub_step(p: Phase, event: Option<Seq<u8>>) -> (Phase, Step) {
    match p {
        Phase::AwaitingHandshake => match event {
            Some(frame) => match ping_peer_of_frame(frame) {
                Some(id) => (Phase::Active(id), Step::Accept(id)),
                None => (Phase::Closed, Step::Reject),
            },
            None => (Phase::Closed, Step::Reject),
        },
        Phase::Active(owner) => match event {
            Some(frame) => match parse_envelope(frame) {
                Some((code, payload)) => if code == PING_CODE {
                    match parse_handshake(payload) {
                        Some(id) => (Phase::Active(owner), Step::Pong(id)),
                        None => (Phase::Active(owner), Step::Ignore),
                    }
                } else if code == DISCONNECT_CODE {
                    (Phase::Closed, Step::Stop)
                } else {
                    (Phase::Active(owner), Step::Forward(payload, owner))
                },
                None => (Phase::Active(owner), Step::Ignore),
            },
            None => (Phase::Closed, Step::Stop),
        },
        Phase::Closed => (Phase::Closed, Step::Ignore),
    }
}

/// The steps taken over a run of events.
pub open spec fn hub_run(p: Phase, events: Seq<Option<Seq<u8>>>) -> Seq<Step>
    decreases events.len(),
{
    if events.len() == 0 {
        Seq::empty()
    } else {
        let (next, step) = hub_step(p, events[0]);
        seq![step] + hub_run(next, events.drop_first())
    }
}

pub enum HubState {
    AwaitingHandshake,
    Active(String),
    Closed,
}

impl View for HubState {
    type V = Phase;

    open spec fn view(&self) -> Phase {
        match self {
            HubState::AwaitingHandshake => Phase::AwaitingHandshake,
            HubState::Active(id) => Phase::Active(id@),
            HubState::Closed => Phase::Closed,
        }
    }
}

/// What the runtime is to do after an event on a connection.
pub enum HubAction {
    /// Register the connection's outbound queue under this peer id, then send
    /// it a `Pong` through the registry.
    Accept(String),
    /// Put [`HubConnection::rejection`] on the connection's own queue; the
    /// connection is never registered.
    Reject,
    /// Send a `Pong` through the registry to this peer id.
    Pong(String),
    /// Hand this payload and the connection's peer id to the inbound fan-out.
    Forward(Vec<u8>, String),
    /// End the inbound loop.
    Stop,
    /// Nothing to do.
    Ignore,
}

impl View for HubAction {
    type V = Step;

    open spec fn view(&self) -> Step {
        match self {
            HubAction::Accept(id) => Step::Accept(id@),
            HubAction::Reject => Step::Reject,
            HubAction::Pong(id) => Step::Pong(id@),
            HubAction::Forward(payload, owner) => Step::Forward(payload@, owner@),
            HubAction::Stop => Step::Stop,
            HubAction::Ignore => Step::Ignore,
        }
    }
}

/// One accepted connection, from the hub's side.
pub struct HubConnection {
    pub state: HubState,
    /// The remote address, named in the `Disconnect` of a rejection.
    pub address: String,
}

impl HubConnection {
    pub fn new(address: String) -> (r: HubConnection)
        ensures
            r.state@ == Phase::AwaitingHandshake,
            r.address == address,
    {
        HubConnection { state: HubState::AwaitingHandshake, address }
    }

    /// Handles one binary frame read from the socket.
    pub fn on_frame(&mut self, frame: &[u8]) -> (r: HubAction)
        ensures
            (final(self).state@, r@) == hub_step(old(self).state@, Some(frame@)),
            final(self).address == old(self).address,
            r matches HubAction::Accept(id) ==> id_fits(id@),
    {
        match &self.state {
            HubState::AwaitingHandshake => {
                match handshake_peer(frame) {
                    Some(id) => {
                        self.state = HubState::Active(id.clone());
                        HubAction::Accept(id)
                    },
                    None => {
                        self.state = HubState::Closed;
                        HubAction::Reject
                    },
                }
            },
            HubState::Active(owner) => {
                let owner = owner.clone();
                match Envelope::deserialize(frame) {
                    Some(e) => match e.category {
                        Category::Ping => match HandshakeRecord::deserialize(e.payload.as_slice()) {
                            Some(h) => HubAction::Pong(h.peer_id),
                            None => HubAction::Ignore,
                        },
                        Category::Disconnect => {
                            self.state = HubState::Closed;
                            HubAction::Stop
                        },
                        _ => HubAction::Forward(e.payload, owner),
                    },
                    None => HubAction::Ignore,
                }
            },
            HubState::Closed => HubAction::Ignore,
        }
    }

    /// Handles the end of the socket's input.
    pub fn on_close(&mut self) -> (r: HubAction)
        ensures
            (final(self).state@, r@) == hub_step(old(self).state@, None),
            final(self).address == old(self).address,
    {
        match &self.state {
            HubState::AwaitingHandshake => {
                self.state = HubState::Closed;
                HubAction::Reject
            },
            HubState::Active(_) => {
                self.state = HubState::Closed;
                HubAction::Stop
            },
            HubState::Closed => HubAction::Ignore,
        }
    }

    /// The `Disconnect` envelope a rejected connection is sent.
    pub fn rejection(&self) -> (r: Envelope)
        requires
            id_fits(self.address@),
        ensures
            r.category == Category::Disconnect,
            r.payload@ == handshake_bytes(self.address@),
            r.wf(),
    {
        Envelope::disconnect(&self.address)
    }
}

/// The peer id of a handshake frame, if the frame is a valid `Ping`.
pub fn handshake_peer(frame: &[u8]) -> (r: Option<String>)
    ensures
        match ping_peer_of_frame(frame@) {
            Some(id) => r matches Some(s) && s@ == id,
            None => r is None,
        },
        r matches Some(s) ==> id_fits(s@),
{
    match Envelope::deserialize(frame) {
        Some(e) => if e.category == Category::Ping {
            match HandshakeRecord::deserialize(e.payload.as_slice()) {
                Some(h) => Some(h.peer_id),
                None => None,
            }
        } else {
            None
        },
        None => None,
    }
}

/// A connection whose first event is not a valid `Ping` (a malformed frame,
/// another category, or the socket closing) is rejected at once: that first
/// event yields the one rejection, which sends the connection its single
/// `Disconnect`, and every later event yields nothing, so the connection is
/// never registered.
pub proof fn lemma_rejected_never_registered(
    first: Option<Seq<u8>>,
    rest: Seq<Option<Seq<u8>>>,
)
    requires
        first matches Some(frame) ==> ping_peer_of_frame(frame) is None,
    ensures
        ({
            let steps = hub_run(Phase::AwaitingHandshake, seq![first] + rest);
            &&& steps.len() == rest.len() + 1
            &&& steps[0] == Step::Reject
            &&& forall|k: int| 1 <= k < steps.len() ==> steps[k] == Step::Ignore
        }),
{
    let events = seq![first] + rest;
    assert(events.drop_first() =~= rest);
    lemma_closed_run_ignores(rest);
}

/// A closed connection ignores every event.
pub proof fn lemma_closed_run_ignores(events: Seq<Option<Seq<u8>>>)
    ensures
        hub_run(Phase::Closed, events).len() == events.len(),
        forall|k: int|
            0 <= k < events.len() ==> #[trigger] hub_run(Phase::Closed, events)[k] == Step::Ignore,
    decreases events.len(),
{
    if events.len() > 0 {
        lemma_closed_run_ignores(events.drop_first());
    }
}

/// A valid `Ping` as first frame activates the connection under the peer id
/// it carries.
pub proof fn lemma_ping_accepted(id: Seq<char>, e: Envelope)
    requires
        e.wf(),
        e.category == Category::Ping,
        e.payload@ == handshake_bytes(id),
        id_fits(id),
    ensures
        hub_step(Phase::AwaitingHandshake, Some(e.wire())) == (Phase::Active(id), Step::Accept(id)),
{
    crate::envelope::lemma_ping_names_its_peer(e, id);
}

/// An active connection hands each well-formed frame that is not a control
/// frame to the inbound fan-out exactly once, with its payload and the
/// connection's own peer id.
pub proof fn lemma_forwarded_once(owner: Seq<char>, e: Envelope)
    requires
        e.wf(),
        e.category != Category::Ping,
        e.category != Category::Disconnect,
    ensures
        hub_step(Phase::Active(owner), Some(e.wire())) == (
            Phase::Active(owner),
            Step::Forward(e.payload@, owner),
        ),
{
    crate::envelope::lemma_envelope_round_trip(e);
}

} // verus!
