//! What passes between the relay and the driver that performs its I/O.

use crate::addr::PeerAddr;
use crate::model::relay::EventView;
use crate::time::Timestamp;
use vstd::prelude::*;

verus! {

/// What the relay wants done next.
#[derive(Clone, Copy, Debug, PartialEq, Eq, Structural)]
pub enum Action {
    /// Wait for the next datagram and report it.
    Receive,
    /// Send the pending payload, whole and unchanged, to `to`, and report
    /// what came of it.
    Send { to: PeerAddr },
    /// Give up: an I/O failure has ended the relay.
    Halt,
}

/// What came of the action the relay asked for.
#[derive(Debug)]
pub enum Event {
    /// A datagram arrived: its bytes, where it came from, and the clock's
    /// reading on arrival.
    Datagram { payload: Vec<u8>, from: PeerAddr, now: Timestamp },
    /// The pending payload went out to the recipient that was asked for;
    /// `now` is the clock's reading after the send.
    Sent { now: Timestamp },
    /// The socket was not ready: the operation would have blocked.
    NotReady,
    /// The socket failed in any other way.
    Failed,
}

impl View for Event {
    type V = EventView;

    open spec fn view(&self) -> EventView {
        match self {
            Event::Datagram { payload, from, now } => EventView::Datagram {
                payload: payload@,
                from: *from,
                now: *now,
            },
            Event::Sent { now } => EventView::Sent { now: *now },
            Event::NotReady => EventView::NotReady,
            Event::Failed => EventView::Failed,
        }
    }
}

/// Something worth telling an observer; it changes nothing in what the relay
/// does.
#[derive(Clone, Copy, Debug, PartialEq, Eq, Structural)]
pub enum Notice {
    /// A datagram came from an address that was not registered.
    Connected(PeerAddr),
    /// A recipient was found idle for longer than the expiration time and
    /// marked for removal, as the `count`-th of the current fan-out pass.
    Expired { addr: PeerAddr, count: usize },
    /// A marked peer was removed from the registry.
    Removed(PeerAddr),
}

/// The outcome of one step of the relay.
#[derive(Debug)]
pub struct Step {
    /// What the driver is to do next.
    pub action: Action,
    /// What happened in this step, in order.
    pub notices: Vec<Notice>,
}

} // verus!
