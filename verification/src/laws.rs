//! What holds of every relay, proved over the state machine that the
//! executable relay is shown to follow.

use crate::addr::PeerAddr;
use crate::model::registry::RegistryView;
use crate::model::relay::{is_idle, EventView, PhaseView, RelayView};
use crate::protocol::{Action, Notice};
use crate::time::Timestamp;
use vstd::prelude::*;

verus! {

/// Whether the step on `event` from `state` finds `addr` idle for too long:
/// a send to `addr` has just completed, and at the reported time `addr` has
/// been silent for longer than the expiration time.
pub open spec fn found_idle(state: RelayView, event: EventView, addr: PeerAddr) -> bool {
    &&& state.phase is FanOut
    &&& event is Sent
    &&& state.action() == Action::Send { to: addr }
    &&& is_idle(state.registry.peers[addr], event->Sent_now, state.expiration_secs)
}

/// Whether `addr` is registered and not marked for removal.
pub open spec fn safely_registered(state: RelayView, addr: PeerAddr) -> bool {
    state.registry.contains(addr) && !state.marked().contains(addr)
}

/// A well-formed relay stays well formed whatever happens.
pub proof fn law_run_wf(state: RelayView, events: Seq<EventView>)
    requires
        state.wf(),
    ensures
        state.run(events).wf(),
    decreases events.len(),
{
    if events.len() > 0 {
        law_run_wf(state, events.drop_last());
        state.run(events.drop_last()).lemma_next_wf(events.last());
    }
}

/// Once a datagram from a peer has been received, the peer is registered,
/// with the time of that datagram, and is not marked for removal.
pub proof fn law_sender_is_registered(
    state: RelayView,
    payload: Seq<u8>,
    from: PeerAddr,
    now: Timestamp,
)
    requires
        state.wf(),
        state.phase is Receiving,
    ensures
        safely_registered(state.next(EventView::Datagram { payload, from, now }), from),
        state.next(EventView::Datagram { payload, from, now }).registry.peers[from].last_active
            == now,
{
}

/// One step removes a registered peer only at the end of a fan-out pass in
/// which that peer was served and found idle for too long.
pub proof fn law_removed_only_when_marked(state: RelayView, event: EventView, addr: PeerAddr)
    requires
        state.wf(),
        state.registry.contains(addr),
        !state.next(event).registry.contains(addr),
    ensures
        state.phase is FanOut,
        event is Sent,
        state.at_last_recipient(),
        state.marked_after(event->Sent_now).contains(addr),
        addr != state.phase->sender,
{
    match state.phase {
        PhaseView::Receiving => match event {
            EventView::Datagram { payload, from, now } => {
                state.registry.lemma_upsert_wf(from, now);
            },
            _ => {},
        },
        PhaseView::FanOut { sender, sent, marked, .. } => match event {
            EventView::Sent { now } => {
                let marked_after = state.marked_after(now);
                state.registry.lemma_remove_all_wf(marked_after);
                state.lemma_next_wf(event);
                let sender_at = state.registry.order.index_of(sender);
                state.lemma_recipients(sender_at);
                lemma_marked_are_recipients(state, now);
            },
            _ => {},
        },
        PhaseView::Halted => {},
    }
}

/// The peers marked once the recipient in turn has been served are
/// recipients of the pass: registered, and other than the sender.
proof fn lemma_marked_are_recipients(state: RelayView, now: Timestamp)
    requires
        state.wf(),
        state.phase is FanOut,
    ensures
        forall|a: PeerAddr| #[trigger]
            state.marked_after(now).contains(a) ==> state.recipients().contains(a),
{
    let all = state.recipients();
    let sent = state.phase->sent as int;
    let marked = state.marked();
    let marked_after = state.marked_after(now);
    assert forall|a: PeerAddr| #[trigger] marked_after.contains(a) implies all.contains(a) by {
        let i = choose|i: int| 0 <= i < marked_after.len() && marked_after[i] == a;
        if i < marked.len() {
            assert(all.take(sent).contains(marked[i]));
            let j = choose|j: int| 0 <= j < all.take(sent).len() && all.take(sent)[j] == a;
            assert(all[j] == a);
        } else {
            assert(all[sent] == a);
        }
    }
}

/// A step in which `addr` is not found idle leaves it registered and
/// unmarked if it was so before.
proof fn lemma_step_keeps(state: RelayView, event: EventView, addr: PeerAddr)
    requires
        state.wf(),
        safely_registered(state, addr),
        !found_idle(state, event, addr),
    ensures
        safely_registered(state.next(event), addr),
{
    match state.phase {
        PhaseView::Receiving => match event {
            EventView::Datagram { payload, from, now } => {
                state.registry.lemma_upsert_wf(from, now);
            },
            _ => {},
        },
        PhaseView::FanOut { sender, sent, marked, .. } => match event {
            EventView::Sent { now } => {
                let marked_after = state.marked_after(now);
                state.registry.lemma_remove_all_wf(marked_after);
                if marked_after.contains(addr) {
                    let i = choose|i: int| 0 <= i < marked_after.len() && marked_after[i] == addr;
                    if i < marked.len() {
                        assert(marked[i] == addr);
                    }
                }
            },
            _ => {},
        },
        PhaseView::Halted => {},
    }
}

/// A registered peer that is not marked for removal stays so until a
/// fan-out pass serves it and finds it idle for too long: as long as none of
/// `events` is a completed send to it that finds it idle, it is still
/// registered, and unmarked, after all of them.
pub proof fn law_present_until_found_idle(
    state: RelayView,
    events: Seq<EventView>,
    addr: PeerAddr,
)
    requires
        state.wf(),
        safely_registered(state, addr),
        forall|k: int|
            0 <= k < events.len() ==> !found_idle(
                #[trigger] state.run(events.take(k)),
                events[k],
                addr,
            ),
    ensures
        safely_registered(state.run(events), addr),
    decreases events.len(),
{
    if events.len() > 0 {
        let earlier = events.drop_last();
        assert forall|k: int| 0 <= k < earlier.len() implies !found_idle(
            #[trigger] state.run(earlier.take(k)),
            earlier[k],
            addr,
        ) by {
            assert(earlier.take(k) =~= events.take(k));
        }
        law_present_until_found_idle(state, earlier, addr);
        law_run_wf(state, earlier);
        let last = events.len() - 1;
        assert(events.take(last) =~= earlier);
        lemma_step_keeps(state.run(earlier), events.last(), addr);
    }
}

/// The end of a fan-out pass removes the peers that the pass marked, and no
/// others: who is registered afterwards is who was registered and is not
/// marked, each with what was known of it. The sender is among them.
pub proof fn law_pass_end_removes_the_marked(state: RelayView, now: Timestamp)
    requires
        state.wf(),
        state.phase is FanOut,
        state.at_last_recipient(),
    ensures
        ({
            let after = state.next(EventView::Sent { now });
            let marked = state.marked_after(now);
            &&& after.phase is Receiving
            &&& forall|a: PeerAddr|
                #[trigger] after.registry.contains(a) <==> state.registry.contains(a)
                    && !marked.contains(a)
            &&& forall|a: PeerAddr|
                after.registry.contains(a) ==> #[trigger] after.registry.peers[a]
                    == state.registry.peers[a]
            &&& after.registry.contains(state.phase->sender)
        }),
{
    let marked = state.marked_after(now);
    state.registry.lemma_remove_all_wf(marked);
    lemma_marked_are_recipients(state, now);
    let sender = state.phase->sender;
    let sender_at = state.registry.order.index_of(sender);
    state.lemma_recipients(sender_at);
}

/// A socket that was not ready loses nothing: while receiving, nothing
/// changes; during a fan-out the datagram, its sender and the registry stay
/// as they are, and the pass starts over with its first recipient.
pub proof fn law_not_ready_keeps_the_pending_datagram(state: RelayView)
    requires
        state.wf(),
    ensures
        ({
            let after = state.next(EventView::NotReady);
            &&& after.registry == state.registry
            &&& !(state.phase is FanOut) ==> after == state
            &&& state.phase is FanOut ==> {
                &&& after.phase is FanOut
                &&& after.phase->payload == state.phase->payload
                &&& after.phase->sender == state.phase->sender
                &&& after.action() == Action::Send { to: state.recipients()[0] }
            }
        }),
{
}

/// No datagram goes back to where it came from: whenever the relay asks for
/// a send, the recipient is a registered peer other than the sender of the
/// pending datagram.
pub proof fn law_never_back_to_sender(state: RelayView)
    requires
        state.wf(),
        state.phase is FanOut,
    ensures
        state.action() is Send,
        state.action()->to != state.phase->sender,
        state.registry.contains(state.action()->to),
{
    let sender = state.phase->sender;
    let sender_at = state.registry.order.index_of(sender);
    state.lemma_recipients(sender_at);
    let to = state.recipients()[state.phase->sent as int];
    assert(state.recipients().contains(to));
}

/// A datagram is fanned out, unchanged, to every other registered peer
/// exactly once: after a datagram has been received and `sends` sends have
/// completed, fewer than there are recipients, the relay asks for the send
/// of the very bytes received to the next of the peers that were registered
/// when the pass began, the sender left out; once all those sends have
/// completed it receives again.
pub proof fn law_fan_out_reaches_everyone(
    state: RelayView,
    payload: Seq<u8>,
    from: PeerAddr,
    now: Timestamp,
    sends: Seq<EventView>,
)
    requires
        state.wf(),
        state.phase is Receiving,
        forall|i: int| 0 <= i < sends.len() ==> #[trigger] sends[i] is Sent,
        sends.len() <= state.registry.upsert(from, now).others(from).len(),
    ensures
        ({
            let begun = state.next(EventView::Datagram { payload, from, now });
            let everyone = state.registry.upsert(from, now);
            let after = begun.run(sends);
            &&& everyone.others(from).no_duplicates()
            &&& forall|a: PeerAddr|
                #[trigger] everyone.others(from).contains(a) <==> everyone.contains(a) && a
                    != from
            &&& sends.len() < everyone.others(from).len() ==> {
                &&& after.registry == everyone
                &&& after.phase is FanOut
                &&& after.phase->payload == payload
                &&& after.phase->sender == from
                &&& after.action() == Action::Send {
                    to: everyone.others(from)[sends.len() as int],
                }
            }
            &&& sends.len() == everyone.others(from).len() ==> after.phase is Receiving
        }),
    decreases sends.len(),
{
    let begun = state.next(EventView::Datagram { payload, from, now });
    let everyone = state.registry.upsert(from, now);
    state.registry.lemma_upsert_wf(from, now);
    let from_at = everyone.order.index_of(from);
    everyone.lemma_others(from, from_at);
    if sends.len() > 0 {
        law_fan_out_reaches_everyone(state, payload, from, now, sends.drop_last());
    }
}

/// Two datagrams from one address leave one entry: the second arrival
/// replaces the time of the first and adds nothing, so the registry is as if
/// only the second had come, and with a clock that does not run backwards
/// `last_active` never decreases.
pub proof fn law_upsert_twice(
    registry: RegistryView,
    addr: PeerAddr,
    first: Timestamp,
    second: Timestamp,
)
    requires
        registry.wf(),
    ensures
        registry.upsert(addr, first).upsert(addr, second) == registry.upsert(addr, second),
        registry.upsert(addr, first).upsert(addr, second).order == registry.upsert(
            addr,
            first,
        ).order,
        registry.upsert(addr, first).upsert(addr, second).order.no_duplicates(),
        first.nanos <= second.nanos ==> registry.upsert(addr, first).peers[addr].last_active.nanos
            <= registry.upsert(addr, first).upsert(addr, second).peers[addr].last_active.nanos,
{
    registry.lemma_upsert_wf(addr, first);
    registry.upsert(addr, first).lemma_upsert_wf(addr, second);
    assert(registry.upsert(addr, first).upsert(addr, second) =~= registry.upsert(addr, second));
}

/// With no other peer registered, a datagram causes no send and no removal:
/// its sender is registered or refreshed, at most its connection is made
/// known, and the relay goes on receiving.
pub proof fn law_alone_means_no_fan_out(
    state: RelayView,
    payload: Seq<u8>,
    from: PeerAddr,
    now: Timestamp,
)
    requires
        state.wf(),
        state.phase is Receiving,
        forall|a: PeerAddr| state.registry.contains(a) ==> a == from,
    ensures
        ({
            let event = EventView::Datagram { payload, from, now };
            &&& state.next(event).phase is Receiving
            &&& state.next(event).action() == Action::Receive
            &&& state.next(event).registry == state.registry.upsert(from, now)
            &&& state.notices(event) == if state.registry.contains(from) {
                Seq::<Notice>::empty()
            } else {
                seq![Notice::Connected(from)]
            }
        }),
{
    let everyone = state.registry.upsert(from, now);
    state.registry.lemma_upsert_wf(from, now);
    let from_at = everyone.order.index_of(from);
    everyone.lemma_others(from, from_at);
    if everyone.others(from).len() > 0 {
        let other = everyone.others(from)[0];
        assert(everyone.others(from).contains(other));
        assert(everyone.contains(other) && other != from);
        assert(state.registry.contains(other));
    }
}

/// An I/O failure ends the relay for good: the step on it asks the driver to
/// halt and leaves the registry as it was, and whatever is reported
/// afterwards changes nothing.
pub proof fn law_failure_is_final(state: RelayView, later: Seq<EventView>)
    requires
        !(state.phase is Halted),
    ensures
        state.next(EventView::Failed).action() == Action::Halt,
        state.next(EventView::Failed).registry == state.registry,
        state.next(EventView::Failed).run(later) == state.next(EventView::Failed),
    decreases later.len(),
{
    if later.len() > 0 {
        law_failure_is_final(state, later.drop_last());
    }
}

} // verus!
