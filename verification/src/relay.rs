//! The relay loop: receive, register the sender, fan out to the others,
//! drop the idle ones; one step at a time, with the I/O left to the driver.

use crate::addr::PeerAddr;
use crate::model::relay::{is_idle, removals, PhaseView, RelayView};
use crate::protocol::{Action, Event, Notice, Step};
use crate::registry::{Peer, Registry};
use crate::time::{Timestamp, NANOS_PER_SEC};
use vstd::prelude::*;

verus! {

/// The datagram that is being fanned out: its bytes and where it came from.
#[derive(Debug)]
pub struct PendingSend {
    pub payload: Vec<u8>,
    pub sender: PeerAddr,
}

/// A fan-out pass under way.
#[derive(Debug)]
struct Pass {
    pending: PendingSend,
    /// Where the sender stands in the registry's order.
    sender_at: usize,
    /// How many recipients have been served.
    sent: usize,
    /// The recipients found idle for too long, in the order they were served.
    marked: Vec<PeerAddr>,
}

/// Where in its cycle the relay is.
#[derive(Debug)]
enum Stage {
    Receiving,
    FanOut(Pass),
    Halted,
}

/// A relay: the registry of its peers, its expiration time, and where in its
/// cycle it is.
#[derive(Debug)]
pub struct Relay {
    registry: Registry,
    expiration_secs: u64,
    stage: Stage,
}

impl Pass {
    /// The phase this pass stands for.
    spec fn phase(self) -> PhaseView {
        PhaseView::FanOut {
            payload: self.pending.payload@,
            sender: self.pending.sender,
            sent: self.sent as nat,
            marked: self.marked@,
        }
    }

    /// The relay state in which this pass is under way over `registry`.
    spec fn over(self, registry: Registry, expiration_secs: u64) -> RelayView {
        RelayView { registry: registry@, expiration_secs, phase: self.phase() }
    }

    /// The pass fits `registry`: the state is well formed, and the sender
    /// stands where the pass says.
    spec fn fits(self, registry: Registry, expiration_secs: u64) -> bool {
        &&& self.over(registry, expiration_secs).wf()
        &&& self.sender_at < registry@.order.len()
        &&& registry@.order[self.sender_at as int] == self.pending.sender
    }
}

impl View for Relay {
    type V = RelayView;

    closed spec fn view(&self) -> RelayView {
        RelayView {
            registry: self.registry@,
            expiration_secs: self.expiration_secs,
            phase: match self.stage {
                Stage::Receiving => PhaseView::Receiving,
                Stage::FanOut(pass) => pass.phase(),
                Stage::Halted => PhaseView::Halted,
            },
        }
    }
}

/// Whether `peer`, looked at at `now`, has been silent for longer than
/// `expiration_secs` seconds.
pub fn idle(peer: Peer, now: Timestamp, expiration_secs: u64) -> (idle: bool)
    ensures
        idle == is_idle(peer, now, expiration_secs),
{
    assert(expiration_secs * NANOS_PER_SEC <= u128::MAX) by (nonlinear_arith)
        requires
            expiration_secs <= u64::MAX,
            NANOS_PER_SEC == 1_000_000_000,
    ;
    now.since(peer.last_active) > (expiration_secs as u128) * NANOS_PER_SEC
}

impl Relay {
    #[verifier::type_invariant]
    spec fn sound(&self) -> bool {
        match self.stage {
            Stage::FanOut(pass) => pass.fits(self.registry, self.expiration_secs),
            _ => self.registry@.wf(),
        }
    }

    /// A relay that knows no peer, waits for its first datagram, and counts
    /// a peer as gone after more than `expiration_secs` seconds of silence.
    pub fn new(expiration_secs: u64) -> (relay: Relay)
        ensures
            relay@ == RelayView::init(expiration_secs),
            relay@.wf(),
    {
        Relay { registry: Registry::new(), expiration_secs, stage: Stage::Receiving }
    }

    /// Seconds of silence after which a peer counts as gone.
    pub fn expiration_secs(&self) -> (secs: u64)
        ensures
            secs == self@.expiration_secs,
    {
        self.expiration_secs
    }

    /// The registry of the peers.
    pub fn registry(&self) -> (registry: &Registry)
        ensures
            registry@ == self@.registry,
            self@.wf(),
    {
        proof {
            use_type_invariant(self);
        }
        &self.registry
    }

    /// Whether an I/O failure has ended the relay.
    pub fn is_halted(&self) -> (halted: bool)
        ensures
            halted == (self@.phase is Halted),
    {
        match self.stage {
            Stage::Halted => true,
            _ => false,
        }
    }

    /// The datagram that is being fanned out, if one is.
    pub fn pending(&self) -> (pending: Option<&PendingSend>)
        ensures
            match pending {
                Some(pending) => self@.phase is FanOut && pending.payload@ == self@.phase->payload
                    && pending.sender == self@.phase->sender,
                None => !(self@.phase is FanOut),
            },
    {
        match &self.stage {
            Stage::FanOut(pass) => Some(&pass.pending),
            _ => None,
        }
    }

    /// What the driver is to do next.
    pub fn action(&self) -> (action: Action)
        ensures
            action == self@.action(),
            self@.wf(),
    {
        proof {
            use_type_invariant(self);
        }
        let registered = self.registry.len();
        match &self.stage {
            Stage::Receiving => Action::Receive,
            Stage::FanOut(pass) => {
                proof {
                    self@.lemma_recipients(pass.sender_at as int);
                }
                assert(pass.sent + 1 < registered);
                let at = if pass.sent < pass.sender_at {
                    pass.sent
                } else {
                    pass.sent + 1
                };
                let (to, _) = self.registry.entry(at);
                Action::Send { to }
            },
            Stage::Halted => Action::Halt,
        }
    }

    /// Takes a datagram in while receiving: registers or refreshes its
    /// sender, and begins the fan-out unless nobody else is registered.
    fn receive(&mut self, payload: Vec<u8>, from: PeerAddr, now: Timestamp) -> (notices: Vec<
        Notice,
    >)
        requires
            old(self).stage is Receiving,
        ensures
            final(self)@ == old(self)@.receive(payload@, from, now),
            notices@ == old(self)@.notices(Event::Datagram { payload, from, now }@),
    {
        proof {
            use_type_invariant(&*self);
            old(self)@.lemma_next_wf(Event::Datagram { payload, from, now }@);
        }
        let mut notices: Vec<Notice> = Vec::new();
        if !self.registry.contains(from) {
            notices.push(Notice::Connected(from));
        }
        let mut registry = Registry::new();
        std::mem::swap(&mut registry, &mut self.registry);
        registry.upsert(from, now);
        self.registry = registry;
        match self.registry.position(from) {
            Some(sender_at) => {
                proof {
                    self.registry@.lemma_others(from, sender_at as int);
                }
                if self.registry.len() > 1 {
                    self.stage = Stage::FanOut(
                        Pass {
                            pending: PendingSend { payload, sender: from },
                            sender_at,
                            sent: 0,
                            marked: Vec::new(),
                        },
                    );
                }
            },
            None => {},
        }
        notices
    }

    /// Serves the recipient in turn of `pass`, which is under way over this
    /// relay's registry, at `now`.
    fn advance(&mut self, pass: Pass, now: Timestamp) -> (notices: Vec<Notice>)
        requires
            old(self).stage is Receiving,
            pass.fits(old(self).registry, old(self).expiration_secs),
        ensures
            final(self)@ == pass.over(old(self).registry, old(self).expiration_secs).advance(now),
            notices@ == pass.over(old(self).registry, old(self).expiration_secs).notices(
                Event::Sent { now }@,
            ),
    {
        let ghost before = pass.over(self.registry, self.expiration_secs);
        proof {
            before.lemma_recipients(pass.sender_at as int);
            before.lemma_next_wf(Event::Sent { now }@);
        }
        let registered = self.registry.len();
        let at = if pass.sent < pass.sender_at {
            pass.sent
        } else {
            pass.sent + 1
        };
        let (to, peer) = self.registry.entry(at);
        let Pass { pending, sender_at, sent, marked } = pass;
        let mut marked = marked;
        let mut notices: Vec<Notice> = Vec::new();
        if idle(peer, now, self.expiration_secs) {
            marked.push(to);
            notices.push(Notice::Expired { addr: to, count: marked.len() });
        }
        assert(marked@ == before.marked_after(now));
        if sent + 2 >= registered {
            let ghost found = notices@;
            let mut registry = Registry::new();
            std::mem::swap(&mut registry, &mut self.registry);
            proof {
                before.registry.lemma_remove_none();
                assert(marked@.take(0) =~= Seq::<PeerAddr>::empty());
            }
            let mut i: usize = 0;
            while i < marked.len()
                invariant
                    i <= marked.len(),
                    registry@ == before.registry.remove_all(marked@.take(i as int)),
                    notices@ == found + removals(marked@.take(i as int)),
                decreases marked.len() - i,
            {
                let gone = marked[i];
                registry.remove(gone);
                notices.push(Notice::Removed(gone));
                proof {
                    before.registry.lemma_remove_one_more(marked@.take(i as int), gone);
                    assert(marked@.take(i as int).push(gone) =~= marked@.take(i as int + 1));
                    assert(removals(marked@.take(i as int)).push(Notice::Removed(gone))
                        =~= removals(marked@.take(i as int + 1)));
                }
                i += 1;
            }
            proof {
                assert(marked@.take(marked@.len() as int) =~= marked@);
                before.registry.lemma_remove_all_wf(marked@);
            }
            self.registry = registry;
        } else {
            self.stage = Stage::FanOut(Pass { pending, sender_at, sent: sent + 1, marked });
        }
        notices
    }

    /// Takes in what came of the action that was asked for, and says what
    /// is to be done next.
    ///
    /// While receiving, a datagram registers or refreshes its sender and
    /// begins the fan-out to the others. During a fan-out, a completed send
    /// marks the recipient if it has been idle for too long and moves on to
    /// the next one; after the last one the marked peers are removed and the
    /// relay receives again. A socket that was not ready leaves the relay
    /// receiving, or starts the fan-out pass over. Any other failure ends the
    /// relay. An event that cannot answer the pending action is ignored.
    pub fn step(&mut self, event: Event) -> (out: Step)
        ensures
            final(self)@ == old(self)@.next(event@),
            final(self)@.wf(),
            out.action == final(self)@.action(),
            out.notices@ == old(self)@.notices(event@),
    {
        proof {
            use_type_invariant(&*self);
            old(self)@.lemma_next_wf(event@);
        }
        let mut stage = Stage::Receiving;
        std::mem::swap(&mut stage, &mut self.stage);
        let notices = match stage {
            Stage::Receiving => match event {
                Event::Datagram { payload, from, now } => self.receive(payload, from, now),
                Event::Failed => {
                    self.stage = Stage::Halted;
                    Vec::new()
                },
                _ => Vec::new(),
            },
            Stage::FanOut(pass) => match event {
                Event::Sent { now } => self.advance(pass, now),
                Event::NotReady => {
                    let Pass { pending, sender_at, .. } = pass;
                    self.stage = Stage::FanOut(
                        Pass { pending, sender_at, sent: 0, marked: Vec::new() },
                    );
                    Vec::new()
                },
                Event::Failed => {
                    self.stage = Stage::Halted;
                    Vec::new()
                },
                _ => {
                    self.stage = Stage::FanOut(pass);
                    Vec::new()
                },
            },
            Stage::Halted => {
                self.stage = Stage::Halted;
                Vec::new()
            },
        };
        Step { action: self.action(), notices }
    }
}

} // verus!
