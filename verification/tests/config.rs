use relay_core::addr::PeerAddr;
use relay_core::config::{Config, DEFAULT_EXPIRATION_SECS, RECEIVE_CAPACITY};
use relay_core::protocol::Action;

#[test]
fn defaults_are_loopback_8080_and_five_seconds() {
    let config = Config::new(None, None);
    assert_eq!(config.listen, PeerAddr::v4(127, 0, 0, 1, 8080));
    assert_eq!(config.expiration_secs, 5);
    assert_eq!(DEFAULT_EXPIRATION_SECS, 5);
}

#[test]
fn the_receive_buffer_holds_1024_bytes() {
    assert_eq!(RECEIVE_CAPACITY, 1024);
}

#[test]
fn chosen_settings_replace_the_defaults() {
    let listen = PeerAddr::v4(0, 0, 0, 0, 9000);
    assert_eq!(
        Config::new(Some(listen), Some(30)),
        Config { listen, expiration_secs: 30 }
    );
    assert_eq!(
        Config::new(Some(listen), None),
        Config { listen, expiration_secs: 5 }
    );
    assert_eq!(
        Config::new(None, Some(0)),
        Config { listen: PeerAddr::v4(127, 0, 0, 1, 8080), expiration_secs: 0 }
    );
}

#[test]
fn a_relay_from_settings_starts_empty_and_receiving() {
    let relay = Config::new(None, Some(12)).relay();
    assert_eq!(relay.expiration_secs(), 12);
    assert!(relay.registry().is_empty());
    assert_eq!(relay.action(), Action::Receive);
    assert!(!relay.is_halted());
    assert!(relay.pending().is_none());
}
