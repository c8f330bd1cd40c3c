//! What a peer registry stands for: a finite map from addresses to peers,
//! with the order in which the addresses joined.

use crate::addr::PeerAddr;
use crate::model::seqs::{
    differs_from, lemma_filter_keeps_all, lemma_filter_members, lemma_filter_no_duplicates,
    lemma_filter_out_is_remove, lemma_filter_out_one_more, not_among,
};
use crate::registry::Peer;
use crate::time::Timestamp;
use vstd::prelude::*;

verus! {

/// The peers that are believed to be connected.
///
/// `peers` says what is known of each address; `order` lists the same
/// addresses, oldest entry first, and is the order in which a datagram is
/// fanned out.
#[verifier::ext_equal]
pub struct RegistryView {
    pub order: Seq<PeerAddr>,
    pub peers: Map<PeerAddr, Peer>,
}

impl RegistryView {
    /// No address is listed twice, and the listed addresses are exactly those
    /// the map knows.
    pub open spec fn wf(self) -> bool {
        &&& self.order.no_duplicates()
        &&& forall|a: PeerAddr| #[trigger] self.peers.dom().contains(a) <==> self.order.contains(a)
    }

    /// The registry without any peer.
    pub open spec fn empty() -> RegistryView {
        RegistryView { order: Seq::empty(), peers: Map::empty() }
    }

    /// Whether `addr` is registered.
    pub open spec fn contains(self, addr: PeerAddr) -> bool {
        self.peers.dom().contains(addr)
    }

    /// The registry once a datagram from `addr` has arrived at `now`: a new
    /// entry at the end where `addr` was unknown, a fresher `last_active` on
    /// the entry it had otherwise.
    pub open spec fn upsert(self, addr: PeerAddr, now: Timestamp) -> RegistryView {
        RegistryView {
            order: if self.contains(addr) {
                self.order
            } else {
                self.order.push(addr)
            },
            peers: self.peers.insert(addr, Peer { last_active: now }),
        }
    }

    /// The registry without `addr`.
    pub open spec fn remove(self, addr: PeerAddr) -> RegistryView {
        RegistryView {
            order: self.order.filter(differs_from(addr)),
            peers: self.peers.remove(addr),
        }
    }

    /// The registry without any of the addresses in `gone`.
    pub open spec fn remove_all(self, gone: Seq<PeerAddr>) -> RegistryView {
        RegistryView {
            order: self.order.filter(not_among(gone)),
            peers: self.peers.remove_keys(gone.to_set()),
        }
    }

    /// The registered addresses other than `addr`, in fan-out order.
    pub open spec fn others(self, addr: PeerAddr) -> Seq<PeerAddr> {
        self.order.filter(differs_from(addr))
    }

    /// `upsert` keeps a registry well formed.
    pub proof fn lemma_upsert_wf(self, addr: PeerAddr, now: Timestamp)
        requires
            self.wf(),
        ensures
            self.upsert(addr, now).wf(),
            self.upsert(addr, now).contains(addr),
    {
        let after = self.upsert(addr, now);
        if !self.contains(addr) {
            assert(after.order[self.order.len() as int] == addr);
        }
        assert forall|a: PeerAddr| #[trigger]
            after.peers.dom().contains(a) <==> after.order.contains(a) by {
            if self.order.contains(a) {
                let i = choose|i: int| 0 <= i < self.order.len() && self.order[i] == a;
                assert(after.order[i] == a);
            }
            if after.order.contains(a) && a != addr {
                let i = choose|i: int| 0 <= i < after.order.len() && after.order[i] == a;
                assert(self.order[i] == a);
            }
        }
    }

    /// `remove` keeps a registry well formed.
    pub proof fn lemma_remove_wf(self, addr: PeerAddr)
        requires
            self.wf(),
        ensures
            self.remove(addr).wf(),
            !self.remove(addr).contains(addr),
    {
        lemma_filter_no_duplicates(self.order, differs_from(addr));
        lemma_filter_members(self.order, differs_from(addr));
    }

    /// `remove_all` keeps a registry well formed, and removes what it is
    /// told to and nothing else.
    pub proof fn lemma_remove_all_wf(self, gone: Seq<PeerAddr>)
        requires
            self.wf(),
        ensures
            self.remove_all(gone).wf(),
            forall|a: PeerAddr|
                #[trigger] self.remove_all(gone).contains(a) <==> self.contains(a)
                    && !gone.contains(a),
    {
        lemma_filter_no_duplicates(self.order, not_among(gone));
        lemma_filter_members(self.order, not_among(gone));
    }

    /// Removing nothing changes nothing.
    pub proof fn lemma_remove_none(self)
        ensures
            self.remove_all(Seq::empty()) == self,
    {
        let nobody = Seq::<PeerAddr>::empty();
        lemma_filter_keeps_all(self.order, not_among(nobody));
        assert(self.peers.remove_keys(nobody.to_set()) =~= self.peers);
    }

    /// Removing the members of `gone` and then `addr` is removing the members
    /// of `gone` with `addr` added.
    pub proof fn lemma_remove_one_more(self, gone: Seq<PeerAddr>, addr: PeerAddr)
        ensures
            self.remove_all(gone).remove(addr) == self.remove_all(gone.push(addr)),
    {
        lemma_filter_out_one_more(self.order, gone, addr);
        let more = gone.push(addr);
        assert forall|a: PeerAddr| more.contains(a) <==> gone.contains(a) || a == addr by {
            if gone.contains(a) {
                let i = choose|i: int| 0 <= i < gone.len() && gone[i] == a;
                assert(more[i] == a);
            }
            if a == addr {
                assert(more[gone.len() as int] == a);
            }
            if more.contains(a) {
                let i = choose|i: int| 0 <= i < more.len() && more[i] == a;
                if i < gone.len() {
                    assert(gone[i] == a);
                }
            }
        }
        assert(self.peers.remove_keys(gone.to_set()).remove(addr) =~= self.peers.remove_keys(
            more.to_set(),
        ));
    }

    /// The others of a registered address are the order with that address
    /// taken out: one fewer, none listed twice, the address itself not among
    /// them, every other registered address among them.
    pub proof fn lemma_others(self, addr: PeerAddr, at: int)
        requires
            self.wf(),
            0 <= at < self.order.len(),
            self.order[at] == addr,
        ensures
            self.others(addr) == self.order.remove(at),
            self.others(addr).len() == self.order.len() - 1,
            self.others(addr).no_duplicates(),
            forall|a: PeerAddr|
                #[trigger] self.others(addr).contains(a) <==> self.contains(a) && a != addr,
    {
        lemma_filter_out_is_remove(self.order, at);
        lemma_filter_no_duplicates(self.order, differs_from(addr));
        lemma_filter_members(self.order, differs_from(addr));
    }
}

} // verus!
