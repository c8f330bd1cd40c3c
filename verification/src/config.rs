//! What a relay is started with, and what holds where nothing is chosen.

use crate::addr::PeerAddr;
use crate::relay::Relay;
use crate::model::relay::RelayView;
use vstd::prelude::*;

verus! {

/// Seconds of silence after which a peer counts as gone, unless another
/// number is chosen.
pub const DEFAULT_EXPIRATION_SECS: u64 = 5;

/// The size in bytes of the buffer that a datagram is received into. What
/// the transport cannot fit into it is cut off before the relay sees it.
pub const RECEIVE_CAPACITY: usize = 1024;

/// The address that is listened on unless another is chosen:
/// `127.0.0.1:8080`.
pub open spec fn default_listen() -> PeerAddr {
    PeerAddr::V4 { ip: 0x7f00_0001, port: 8080 }
}

/// The settings of a relay, fixed before it starts.
#[derive(Clone, Copy, Debug, PartialEq, Eq, Structural)]
pub struct Config {
    /// The address whose datagrams are relayed.
    pub listen: PeerAddr,
    /// Seconds of silence after which a peer counts as gone.
    pub expiration_secs: u64,
}

impl Config {
    /// The settings for what was chosen, with the default in place of each
    /// setting that was not.
    pub fn new(listen: Option<PeerAddr>, expiration_secs: Option<u64>) -> (config: Config)
        ensures
            config.listen == match listen {
                Some(addr) => addr,
                None => default_listen(),
            },
            config.expiration_secs == match expiration_secs {
                Some(secs) => secs,
                None => DEFAULT_EXPIRATION_SECS,
            },
    {
        Config {
            listen: match listen {
                Some(addr) => addr,
                None => PeerAddr::V4 { ip: 0x7f00_0001, port: 8080 },
            },
            expiration_secs: match expiration_secs {
                Some(secs) => secs,
                None => DEFAULT_EXPIRATION_SECS,
            },
        }
    }

    /// A fresh relay with these settings: no peer known, waiting for its
    /// first datagram.
    pub fn relay(&self) -> (relay: Relay)
        ensures
            relay@ == RelayView::init(self.expiration_secs),
            relay@.wf(),
    {
        Relay::new(self.expiration_secs)
    }
}

} // verus!
