//! The peer registry: who is believed to be connected, and since when each
//! has been silent.

use crate::addr::PeerAddr;
use crate::model::registry::RegistryView;
use crate::model::seqs::{differs_from, lemma_filter_keeps_all};
use crate::time::Timestamp;
use vstd::prelude::*;

verus! {

/// What the relay knows of one connected peer.
#[derive(Clone, Copy, Debug, PartialEq, Eq, Structural, Hash)]
pub struct Peer {
    /// When the most recent datagram from this peer arrived.
    pub last_active: Timestamp,
}

/// One registered peer under its address.
#[derive(Clone, Copy, Debug)]
struct Entry {
    addr: PeerAddr,
    peer: Peer,
}

/// The peers that are believed to be connected, each under its address, in
/// the order in which they joined.
#[derive(Debug)]
pub struct Registry {
    entries: Vec<Entry>,
}

/// The addresses of `entries`, in order.
spec fn addrs(entries: Seq<Entry>) -> Seq<PeerAddr> {
    Seq::new(entries.len(), |i: int| entries[i].addr)
}

/// Some position at which `entries` holds `addr`.
spec fn place(entries: Seq<Entry>, addr: PeerAddr) -> int {
    choose|i: int| 0 <= i < entries.len() && entries[i].addr == addr
}

/// What `entries` stand for.
spec fn shown(entries: Seq<Entry>) -> RegistryView {
    RegistryView {
        order: addrs(entries),
        peers: Map::new(
            |a: PeerAddr| addrs(entries).contains(a),
            |a: PeerAddr| entries[place(entries, a)].peer,
        ),
    }
}

/// Entries with distinct addresses stand for a well-formed registry, in
/// which each entry's address maps to that entry's peer.
proof fn lemma_shown(entries: Seq<Entry>)
    requires
        addrs(entries).no_duplicates(),
    ensures
        shown(entries).wf(),
        forall|i: int|
            0 <= i < entries.len() ==> shown(entries).contains(#[trigger] entries[i].addr)
                && shown(entries).peers[entries[i].addr] == entries[i].peer,
{
    assert forall|i: int| 0 <= i < entries.len() implies shown(entries).contains(
        #[trigger] entries[i].addr,
    ) && shown(entries).peers[entries[i].addr] == entries[i].peer by {
        assert(addrs(entries)[i] == entries[i].addr);
        let j = place(entries, entries[i].addr);
        assert(addrs(entries)[j] == addrs(entries)[i]);
    }
}

/// An address that no entry holds is not registered.
proof fn lemma_absent(entries: Seq<Entry>, addr: PeerAddr)
    requires
        forall|i: int| 0 <= i < entries.len() ==> (#[trigger] entries[i]).addr != addr,
    ensures
        !shown(entries).contains(addr),
{
    if addrs(entries).contains(addr) {
        let i = choose|i: int| 0 <= i < addrs(entries).len() && addrs(entries)[i] == addr;
        assert(entries[i].addr == addr);
    }
}

impl View for Registry {
    type V = RegistryView;

    closed spec fn view(&self) -> RegistryView {
        shown(self.entries@)
    }
}

impl Registry {
    #[verifier::type_invariant]
    spec fn distinct(&self) -> bool {
        addrs(self.entries@).no_duplicates()
    }

    /// A registry without any peer.
    pub fn new() -> (registry: Registry)
        ensures
            registry@ == RegistryView::empty(),
            registry@.wf(),
    {
        let registry = Registry { entries: Vec::new() };
        proof {
            lemma_absent_everywhere(registry.entries@);
            assert(registry@ =~= RegistryView::empty());
        }
        registry
    }

    /// How many peers are registered.
    pub fn len(&self) -> (n: usize)
        ensures
            n == self@.order.len(),
            self@.wf(),
    {
        proof {
            use_type_invariant(self);
            lemma_shown(self.entries@);
        }
        self.entries.len()
    }

    /// The position of `addr` among the entries, if it has one.
    fn find(&self, addr: PeerAddr) -> (found: Option<usize>)
        ensures
            self@.wf(),
            match found {
                Some(at) => at < self@.order.len() && self@.order[at as int] == addr
                    && self@.contains(addr) && self.entries@[at as int].addr == addr
                    && self@.peers[addr] == self.entries@[at as int].peer,
                None => !self@.contains(addr),
            },
    {
        proof {
            use_type_invariant(self);
            lemma_shown(self.entries@);
        }
        let mut at: usize = 0;
        while at < self.entries.len()
            invariant
                at <= self.entries.len(),
                shown(self.entries@).wf(),
                forall|i: int| 0 <= i < at ==> (#[trigger] self.entries@[i]).addr != addr,
                forall|i: int|
                    0 <= i < self.entries@.len() ==> shown(self.entries@).contains(
                        #[trigger] self.entries@[i].addr,
                    ) && shown(self.entries@).peers[self.entries@[i].addr]
                        == self.entries@[i].peer,
            decreases self.entries.len() - at,
        {
            if self.entries[at].addr == addr {
                return Some(at);
            }
            at += 1;
        }
        proof {
            lemma_absent(self.entries@, addr);
        }
        None
    }

    /// Whether no peer is registered.
    pub fn is_empty(&self) -> (empty: bool)
        ensures
            empty == (self@.order.len() == 0),
    {
        self.entries.len() == 0
    }

    /// Whether `addr` is registered.
    pub fn contains(&self, addr: PeerAddr) -> (known: bool)
        ensures
            known == self@.contains(addr),
    {
        self.find(addr).is_some()
    }

    /// What is known of `addr`, if it is registered.
    pub fn get(&self, addr: PeerAddr) -> (peer: Option<Peer>)
        ensures
            peer == if self@.contains(addr) {
                Some(self@.peers[addr])
            } else {
                None
            },
    {
        match self.find(addr) {
            Some(at) => Some(self.entries[at].peer),
            None => None,
        }
    }

    /// Where `addr` stands in the fan-out order, if it is registered.
    pub fn position(&self, addr: PeerAddr) -> (at: Option<usize>)
        ensures
            self@.wf(),
            match at {
                Some(at) => at < self@.order.len() && self@.order[at as int] == addr,
                None => !self@.contains(addr),
            },
    {
        self.find(addr)
    }

    /// The entry at position `at` of the fan-out order, if there is one.
    pub fn nth(&self, at: usize) -> (entry: Option<(PeerAddr, Peer)>)
        ensures
            self@.wf(),
            entry == if at < self@.order.len() {
                Some((self@.order[at as int], self@.peers[self@.order[at as int]]))
            } else {
                None
            },
    {
        if at < self.len() {
            Some(self.entry(at))
        } else {
            None
        }
    }

    /// The entry at position `at` of the fan-out order.
    pub(crate) fn entry(&self, at: usize) -> (entry: (PeerAddr, Peer))
        requires
            at < self@.order.len(),
        ensures
            entry == (self@.order[at as int], self@.peers[self@.order[at as int]]),
    {
        proof {
            use_type_invariant(self);
            lemma_shown(self.entries@);
        }
        let entry = self.entries[at];
        (entry.addr, entry.peer)
    }

    /// Records that a datagram from `addr` arrived at `now`: registers the
    /// address if it is new, and refreshes its `last_active` if it is not.
    pub fn upsert(&mut self, addr: PeerAddr, now: Timestamp)
        ensures
            final(self)@ == old(self)@.upsert(addr, now),
            final(self)@.wf(),
    {
        let entry = Entry { addr, peer: Peer { last_active: now } };
        let ghost before = self.entries@;
        proof {
            use_type_invariant(&*self);
            lemma_shown(before);
        }
        let found = self.find(addr);
        let mut entries: Vec<Entry> = Vec::new();
        std::mem::swap(&mut entries, &mut self.entries);
        match found {
            Some(at) => {
                entries.set(at, entry);
                proof {
                    assert(addrs(entries@) =~= addrs(before));
                }
            },
            None => {
                entries.push(entry);
                proof {
                    assert(addrs(entries@) =~= addrs(before).push(addr));
                    assert(addrs(entries@).no_duplicates()) by {
                        assert(!addrs(before).contains(addr));
                    }
                }
            },
        }
        self.entries = entries;
        proof {
            let after = self.entries@;
            lemma_shown(after);
            old(self)@.lemma_upsert_wf(addr, now);
            let want = old(self)@.upsert(addr, now);
            assert forall|a: PeerAddr| #[trigger]
                shown(after).peers.dom().contains(a) implies shown(after).peers[a]
                == want.peers[a] by {
                let i = choose|i: int| 0 <= i < addrs(after).len() && addrs(after)[i] == a;
                assert(after[i].addr == a);
                if a != addr {
                    assert(before[i].addr == a);
                }
            }
            assert(shown(after).peers =~= want.peers);
            assert(self@ =~= want);
        }
    }

    /// Forgets `addr`; changes nothing where it is not registered.
    pub fn remove(&mut self, addr: PeerAddr)
        ensures
            final(self)@ == old(self)@.remove(addr),
            final(self)@.wf(),
    {
        let ghost before = self.entries@;
        proof {
            use_type_invariant(&*self);
            lemma_shown(before);
            old(self)@.lemma_remove_wf(addr);
        }
        match self.find(addr) {
            Some(at) => {
                let mut entries: Vec<Entry> = Vec::new();
                std::mem::swap(&mut entries, &mut self.entries);
                entries.remove(at);
                proof {
                    old(self)@.lemma_others(addr, at as int);
                    assert(addrs(entries@) =~= addrs(before).remove(at as int));
                }
                self.entries = entries;
                proof {
                    let after = self.entries@;
                    lemma_shown(after);
                    let want = old(self)@.remove(addr);
                    assert forall|a: PeerAddr| #[trigger]
                        shown(after).peers.dom().contains(a) implies shown(after).peers[a]
                        == want.peers[a] by {
                        let i = choose|i: int|
                            0 <= i < addrs(after).len() && addrs(after)[i] == a;
                        assert(after[i].addr == a);
                        if i < at {
                            assert(before[i].addr == a);
                        } else {
                            assert(before[i + 1].addr == a);
                        }
                    }
                    assert(shown(after).peers =~= want.peers);
                    assert(self@ =~= want);
                }
            },
            None => {
                proof {
                    assert forall|i: int| 0 <= i < before.len() implies differs_from(addr)(
                        #[trigger] addrs(before)[i],
                    ) by {
                        assert(addrs(before).contains(addrs(before)[i]));
                    }
                    lemma_filter_keeps_all(addrs(before), differs_from(addr));
                    assert(self@ =~= old(self)@.remove(addr));
                }
            },
        }
    }

    /// Every registered peer under its address, in fan-out order: a snapshot
    /// that later changes of the registry do not touch.
    pub fn iterate(&self) -> (all: Vec<(PeerAddr, Peer)>)
        ensures
            self@.wf(),
            all@.len() == self@.order.len(),
            forall|i: int|
                0 <= i < all@.len() ==> #[trigger] all@[i] == (
                    self@.order[i],
                    self@.peers[self@.order[i]],
                ),
    {
        proof {
            use_type_invariant(self);
            lemma_shown(self.entries@);
        }
        let mut all: Vec<(PeerAddr, Peer)> = Vec::new();
        let mut at: usize = 0;
        while at < self.entries.len()
            invariant
                at <= self.entries.len(),
                all@.len() == at,
                shown(self.entries@).wf(),
                forall|i: int|
                    0 <= i < self.entries@.len() ==> shown(self.entries@).contains(
                        #[trigger] self.entries@[i].addr,
                    ) && shown(self.entries@).peers[self.entries@[i].addr]
                        == self.entries@[i].peer,
                forall|i: int|
                    0 <= i < at ==> #[trigger] all@[i] == (
                        self.entries@[i].addr,
                        self.entries@[i].peer,
                    ),
            decreases self.entries.len() - at,
        {
            let entry = self.entries[at];
            all.push((entry.addr, entry.peer));
            at += 1;
        }
        all
    }
}

/// Without entries nothing is registered.
proof fn lemma_absent_everywhere(entries: Seq<Entry>)
    requires
        entries.len() == 0,
    ensures
        shown(entries).wf(),
        forall|a: PeerAddr| !shown(entries).contains(a),
{
    assert forall|a: PeerAddr| !shown(entries).contains(a) by {
        lemma_absent(entries, a);
    }
}

} // verus!
