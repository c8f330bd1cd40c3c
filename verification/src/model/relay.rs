//! The relay loop as a state machine: one function from state and event to
//! the next state, one from state to the action that is wanted, and one to
//! what a step makes known.

use crate::addr::PeerAddr;
use crate::model::registry::RegistryView;
use crate::protocol::{Action, Notice};
use crate::registry::Peer;
use crate::time::{Timestamp, NANOS_PER_SEC};
use vstd::prelude::*;

verus! {

/// What came of the action the relay asked for.
#[verifier::ext_equal]
pub enum EventView {
    /// A datagram arrived.
    Datagram { payload: Seq<u8>, from: PeerAddr, now: Timestamp },
    /// The pending payload went out to the recipient that was asked for.
    Sent { now: Timestamp },
    /// The socket was not ready.
    NotReady,
    /// The socket failed in any other way.
    Failed,
}

/// Where in its cycle the relay is.
#[verifier::ext_equal]
pub enum PhaseView {
    /// Waiting for the next datagram.
    Receiving,
    /// Fanning `payload`, which came from `sender`, out to the others: `sent`
    /// of them have it, and `marked` are those of them found idle for too
    /// long.
    FanOut { payload: Seq<u8>, sender: PeerAddr, sent: nat, marked: Seq<PeerAddr> },
    /// Ended by an I/O failure.
    Halted,
}

/// The whole state of a relay.
#[verifier::ext_equal]
pub struct RelayView {
    pub registry: RegistryView,
    /// Seconds of silence after which a peer counts as gone.
    pub expiration_secs: u64,
    pub phase: PhaseView,
}

/// Whether `peer`, looked at at `now`, has been silent for longer than
/// `expiration_secs` seconds.
pub open spec fn is_idle(peer: Peer, now: Timestamp, expiration_secs: u64) -> bool {
    now.spec_since(peer.last_active) > expiration_secs * NANOS_PER_SEC
}

/// One `Removed` notice for each of `gone`, in order.
pub open spec fn removals(gone: Seq<PeerAddr>) -> Seq<Notice> {
    Seq::new(gone.len(), |i: int| Notice::Removed(gone[i]))
}

impl RelayView {
    /// A relay that knows no peer and waits for its first datagram.
    pub open spec fn init(expiration_secs: u64) -> RelayView {
        RelayView { registry: RegistryView::empty(), expiration_secs, phase: PhaseView::Receiving }
    }

    /// The peers the pending datagram goes to, in order: every registered
    /// address but its sender. Empty while no fan-out is under way.
    pub open spec fn recipients(self) -> Seq<PeerAddr> {
        match self.phase {
            PhaseView::FanOut { sender, .. } => self.registry.others(sender),
            _ => Seq::empty(),
        }
    }

    /// The recipients marked for removal in the pass under way.
    pub open spec fn marked(self) -> Seq<PeerAddr> {
        match self.phase {
            PhaseView::FanOut { marked, .. } => marked,
            _ => Seq::empty(),
        }
    }

    /// The registry is well formed; during a fan-out the sender is
    /// registered, a recipient is still to be served, and the marked peers
    /// are distinct recipients that have been served.
    pub open spec fn wf(self) -> bool {
        &&& self.registry.wf()
        &&& match self.phase {
            PhaseView::FanOut { sender, sent, marked, .. } => {
                &&& self.registry.contains(sender)
                &&& sent < self.recipients().len()
                &&& marked.no_duplicates()
                &&& forall|i: int|
                    0 <= i < marked.len() ==> self.recipients().take(sent as int).contains(
                        #[trigger] marked[i],
                    )
            },
            _ => true,
        }
    }

    /// What the driver is asked to do in this state.
    pub open spec fn action(self) -> Action {
        match self.phase {
            PhaseView::Receiving => Action::Receive,
            PhaseView::FanOut { sent, .. } => Action::Send { to: self.recipients()[sent as int] },
            PhaseView::Halted => Action::Halt,
        }
    }

    /// The state after a datagram with `payload` arrived from `from` at
    /// `now`, while receiving: the sender is registered or refreshed, and a
    /// fan-out begins unless nobody else is registered.
    pub open spec fn receive(self, payload: Seq<u8>, from: PeerAddr, now: Timestamp) -> RelayView {
        let registry = self.registry.upsert(from, now);
        RelayView {
            registry,
            phase: if registry.others(from).len() == 0 {
                PhaseView::Receiving
            } else {
                PhaseView::FanOut { payload, sender: from, sent: 0, marked: Seq::empty() }
            },
            ..self
        }
    }

    /// The marked peers once the recipient in turn has been served at `now`.
    pub open spec fn marked_after(self, now: Timestamp) -> Seq<PeerAddr> {
        let to = self.action()->to;
        if is_idle(self.registry.peers[to], now, self.expiration_secs) {
            self.marked().push(to)
        } else {
            self.marked()
        }
    }

    /// Whether the recipient in turn is the last of the pass.
    pub open spec fn at_last_recipient(self) -> bool {
        match self.phase {
            PhaseView::FanOut { sent, .. } => sent + 1 >= self.recipients().len(),
            _ => false,
        }
    }

    /// The state after the recipient in turn has been served at `now`,
    /// during a fan-out: it is marked if it has been idle for too long; then
    /// the next recipient is in turn, or, after the last one, the marked
    /// peers leave the registry and the relay receives again.
    pub open spec fn advance(self, now: Timestamp) -> RelayView {
        match self.phase {
            PhaseView::FanOut { payload, sender, sent, .. } => {
                if self.at_last_recipient() {
                    RelayView {
                        registry: self.registry.remove_all(self.marked_after(now)),
                        phase: PhaseView::Receiving,
                        ..self
                    }
                } else {
                    RelayView {
                        phase: PhaseView::FanOut {
                            payload,
                            sender,
                            sent: sent + 1,
                            marked: self.marked_after(now),
                        },
                        ..self
                    }
                }
            },
            _ => self,
        }
    }

    /// The state after the socket was not ready during a fan-out: the pass
    /// starts over with the same payload and sender, and no peer marked.
    pub open spec fn restart(self) -> RelayView {
        match self.phase {
            PhaseView::FanOut { payload, sender, .. } => RelayView {
                phase: PhaseView::FanOut { payload, sender, sent: 0, marked: Seq::empty() },
                ..self
            },
            _ => self,
        }
    }

    /// The state after an I/O failure: the relay has ended, with the
    /// registry as it was.
    pub open spec fn halt(self) -> RelayView {
        RelayView { phase: PhaseView::Halted, ..self }
    }

    /// The state after `event`. An event that cannot answer the action of
    /// this state changes nothing, and nothing changes a relay that has
    /// ended.
    pub open spec fn next(self, event: EventView) -> RelayView {
        match self.phase {
            PhaseView::Receiving => match event {
                EventView::Datagram { payload, from, now } => self.receive(payload, from, now),
                EventView::Failed => self.halt(),
                _ => self,
            },
            PhaseView::FanOut { .. } => match event {
                EventView::Sent { now } => self.advance(now),
                EventView::NotReady => self.restart(),
                EventView::Failed => self.halt(),
                _ => self,
            },
            PhaseView::Halted => self,
        }
    }

    /// What the step on `event` makes known, in order: a new connection; or
    /// the recipient just served being marked, and after the last recipient
    /// every marked peer being removed.
    pub open spec fn notices(self, event: EventView) -> Seq<Notice> {
        match self.phase {
            PhaseView::Receiving => match event {
                EventView::Datagram { from, .. } => if self.registry.contains(from) {
                    Seq::empty()
                } else {
                    seq![Notice::Connected(from)]
                },
                _ => Seq::empty(),
            },
            PhaseView::FanOut { .. } => match event {
                EventView::Sent { now } => {
                    let marked = self.marked_after(now);
                    let found = if marked.len() > self.marked().len() {
                        seq![
                            Notice::Expired {
                                addr: self.action()->to,
                                count: marked.len() as usize,
                            },
                        ]
                    } else {
                        Seq::empty()
                    };
                    if self.at_last_recipient() {
                        found + removals(marked)
                    } else {
                        found
                    }
                },
                _ => Seq::empty(),
            },
            PhaseView::Halted => Seq::empty(),
        }
    }

    /// The state after all of `events`, one after the other.
    pub open spec fn run(self, events: Seq<EventView>) -> RelayView
        decreases events.len(),
    {
        if events.len() == 0 {
            self
        } else {
            self.run(events.drop_last()).next(events.last())
        }
    }

    /// During a fan-out, where the sender stands at position `sender_at` of
    /// the registry's order, the `i`-th recipient is the address at position
    /// `i` of the order, or at `i + 1` from the sender's position on.
    pub proof fn lemma_recipients(self, sender_at: int)
        requires
            self.registry.wf(),
            self.phase is FanOut,
            0 <= sender_at < self.registry.order.len(),
            self.registry.order[sender_at] == self.phase->sender,
        ensures
            self.recipients().len() == self.registry.order.len() - 1,
            self.recipients().no_duplicates(),
            forall|i: int|
                0 <= i < self.recipients().len() ==> #[trigger] self.recipients()[i]
                    == self.registry.order[if i < sender_at {
                    i
                } else {
                    i + 1
                }],
            forall|a: PeerAddr|
                #[trigger] self.recipients().contains(a) <==> self.registry.contains(a) && a
                    != self.phase->sender,
    {
        self.registry.lemma_others(self.phase->sender, sender_at);
    }

    /// Every step keeps the state well formed.
    pub proof fn lemma_next_wf(self, event: EventView)
        requires
            self.wf(),
        ensures
            self.next(event).wf(),
    {
        let after = self.next(event);
        match self.phase {
            PhaseView::Receiving => match event {
                EventView::Datagram { payload, from, now } => {
                    self.registry.lemma_upsert_wf(from, now);
                },
                _ => {},
            },
            PhaseView::FanOut { payload, sender, sent, marked } => match event {
                EventView::Sent { now } => {
                    let marked_after = self.marked_after(now);
                    if self.at_last_recipient() {
                        self.registry.lemma_remove_all_wf(marked_after);
                    } else {
                        let all = self.recipients();
                        let sender_at = self.registry.order.index_of(sender);
                        self.lemma_recipients(sender_at);
                        assert(after.recipients() == all);
                        let served = all.take(sent as int + 1);
                        assert forall|i: int| 0 <= i < marked_after.len() implies served.contains(
                            #[trigger] marked_after[i],
                        ) by {
                            if i < marked.len() {
                                let j = choose|j: int|
                                    0 <= j < all.take(sent as int).len() && all.take(
                                        sent as int,
                                    )[j] == marked[i];
                                assert(served[j] == marked[i]);
                            } else {
                                assert(served[sent as int] == all[sent as int]);
                            }
                        }
                        if marked_after.len() > marked.len() {
                            assert forall|i: int| 0 <= i < marked.len() implies marked[i]
                                != all[sent as int] by {
                                let j = choose|j: int|
                                    0 <= j < all.take(sent as int).len() && all.take(
                                        sent as int,
                                    )[j] == marked[i];
                                assert(all[j] == marked[i]);
                            }
                        }
                    }
                },
                _ => {},
            },
            PhaseView::Halted => {},
        }
    }
}

} // verus!
