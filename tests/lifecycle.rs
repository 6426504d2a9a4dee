use udp_link::config::{ConfigError, LinkConfig, LinkMode, MAX_DATAGRAM_PAYLOAD};
use udp_link::lifecycle::{LinkCommand, LinkController};

fn tx_config(interval: u32) -> LinkConfig {
    LinkConfig::tx("0.0.0.0".to_string(), "127.0.0.1".to_string(), 27000, 500, interval)
}

#[test]
fn start_then_stop() {
    let mut c = LinkController::new();
    assert!(!c.is_running());
    let cfg = tx_config(10_000);
    match c.request(Some(cfg.clone())) {
        Ok(LinkCommand::Start(started)) => assert!(started == cfg),
        other => panic!("unexpected {:?}", other),
    }
    c.started(cfg, true);
    assert!(c.is_running());
    assert_eq!(c.generation, 1);
    assert!(matches!(c.request(None), Ok(LinkCommand::Stop)));
    assert!(!c.is_running());
    assert!(matches!(c.request(None), Ok(LinkCommand::Nothing)));
}

#[test]
fn reconfigure_with_same_config_is_noop() {
    let mut c = LinkController::new();
    let cfg = tx_config(10_000);
    c.request(Some(cfg.clone())).unwrap();
    c.started(cfg, true);
    let generation = c.generation;
    assert!(matches!(c.request(Some(tx_config(10_000))), Ok(LinkCommand::Nothing)));
    assert!(c.is_running());
    assert_eq!(c.generation, generation);
}

#[test]
fn reconfigure_with_changed_field_restarts() {
    let mut c = LinkController::new();
    let cfg = tx_config(10_000);
    c.request(Some(cfg.clone())).unwrap();
    c.started(cfg, true);
    let changed = tx_config(5_000);
    match c.request(Some(changed.clone())) {
        Ok(LinkCommand::Restart(next)) => assert!(next == changed),
        other => panic!("unexpected {:?}", other),
    }
    assert!(!c.is_running());
    c.started(changed, true);
    assert_eq!(c.generation, 2);
}

#[test]
fn failed_start_leaves_link_stopped() {
    let mut c = LinkController::new();
    let cfg = LinkConfig::rx("0.0.0.0".to_string(), 27000);
    assert!(matches!(c.request(Some(cfg.clone())), Ok(LinkCommand::Start(_))));
    c.started(cfg, false);
    assert!(!c.is_running());
    assert_eq!(c.generation, 0);
}

#[test]
fn invalid_config_is_refused_and_link_kept() {
    let mut c = LinkController::new();
    let cfg = tx_config(10_000);
    c.request(Some(cfg.clone())).unwrap();
    c.started(cfg, true);
    let bad = LinkConfig::tx("0.0.0.0".to_string(), "127.0.0.1".to_string(), 0, 500, 1_000);
    assert!(matches!(c.request(Some(bad)), Err(ConfigError::InvalidPort)));
    assert!(c.is_running());
    assert_eq!(c.generation, 1);
}

#[test]
fn validate_reports_each_error() {
    assert_eq!(tx_config(1).validate(), Ok(()));
    let no_port = LinkConfig::tx("0.0.0.0".to_string(), "127.0.0.1".to_string(), 0, 64, 1);
    assert_eq!(no_port.validate(), Err(ConfigError::InvalidPort));
    let too_big = LinkConfig::tx(
        "0.0.0.0".to_string(),
        "127.0.0.1".to_string(),
        9,
        MAX_DATAGRAM_PAYLOAD + 1,
        1,
    );
    assert_eq!(too_big.validate(), Err(ConfigError::InvalidPayloadSize));
    let largest = LinkConfig::tx(
        "0.0.0.0".to_string(),
        "127.0.0.1".to_string(),
        9,
        MAX_DATAGRAM_PAYLOAD,
        1,
    );
    assert_eq!(largest.validate(), Ok(()));
    assert_eq!(LinkConfig::rx("0.0.0.0".to_string(), 0).validate(), Ok(()));
}

#[test]
fn config_equality_compares_every_field() {
    let a = tx_config(1_000);
    assert!(a == tx_config(1_000));
    assert!(a != tx_config(1_001));
    let mut b = tx_config(1_000);
    b.target_address = "127.0.0.2".to_string();
    assert!(a != b);
    let mut m = tx_config(1_000);
    m.mode = LinkMode::Rx;
    assert!(a != m);
}
