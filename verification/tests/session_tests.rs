use rtp_fanout_server::Addr;
use rtp_fanout_server::config::ServerConfig;
use rtp_fanout_server::session::{RegistryError, Session, SessionId, SessionManager};

fn source_addr() -> Addr {
    Addr::v4(127, 0, 0, 1, 5004)
}

#[test]
fn session_test_session_creation() {
    let session = Session::new(SessionId::new(), source_addr(), 12345, 0);
    assert_eq!(session.ssrc, 12345);
}

#[test]
fn integration_test_test_session_creation() {
    let session = Session::new(SessionId::new(), source_addr(), 12345, 0);
    assert_eq!(session.ssrc, 12345);
}

#[test]
fn session_test_session_add_subscriber() {
    let mut session = Session::new(SessionId::new(), source_addr(), 12345, 0);
    let addr = Addr::v4(127, 0, 0, 1, 6000);
    assert!(session.add_subscriber(addr, 0, 1000));
    assert_eq!(session.subscribers.len(), 1);
}

#[test]
fn integration_test_test_session_add_subscriber() {
    let mut session = Session::new(SessionId::new(), source_addr(), 12345, 0);
    let addr = Addr::v4(127, 0, 0, 1, 6000);
    assert!(session.add_subscriber(addr, 0, 1000));
    assert_eq!(session.subscribers.len(), 1);
}

#[test]
fn test_session_manager() {
    let config = ServerConfig::default();
    let mut manager = SessionManager::new(config);

    let addr = source_addr();
    let ssrc = 12345u32;

    let session = manager.create_session(addr, ssrc, 0);
    assert!(session.is_ok());

    let retrieved = manager.get_session_by_ssrc(ssrc);
    assert!(retrieved.is_some());

    assert_eq!(manager.session_count(), 1);
}

#[test]
fn test_create_session_idempotent() {
    let mut manager = SessionManager::new(ServerConfig::default());
    let id1 = manager.create_session(source_addr(), 7, 0).unwrap();
    let id2 = manager.create_session(source_addr(), 7, 1).unwrap();
    assert_eq!(id1, id2);
    assert_eq!(manager.session_count(), 1);
}

#[test]
fn test_capacity_rejection() {
    let mut config = ServerConfig::default();
    config.max_sessions = 2;
    let mut manager = SessionManager::new(config);

    assert!(manager.create_session(source_addr(), 1, 0).is_ok());
    assert!(manager.create_session(source_addr(), 2, 0).is_ok());
    assert_eq!(
        manager.create_session(source_addr(), 3, 0),
        Err(RegistryError::AtCapacity)
    );
    assert!(manager.get_session_by_ssrc(1).is_some());
    assert!(manager.get_session_by_ssrc(2).is_some());
    assert!(manager.get_session_by_ssrc(3).is_none());
    assert_eq!(manager.session_count(), 2);
}

#[test]
fn test_get_session_by_id() {
    let mut manager = SessionManager::new(ServerConfig::default());
    let id = manager.create_session(source_addr(), 42, 0).unwrap();
    let s = manager.get_session(&id).unwrap();
    assert_eq!(s.ssrc, 42);
    let other = SessionId(id.0.wrapping_add(1));
    assert!(manager.get_session(&other).is_none());
}

#[test]
fn test_remove_session() {
    let mut manager = SessionManager::new(ServerConfig::default());
    let id = manager.create_session(source_addr(), 42, 0).unwrap();
    assert!(manager.remove_session(&id));
    assert!(manager.get_session_by_ssrc(42).is_none());
    assert!(!manager.remove_session(&id));
    assert_eq!(manager.session_count(), 0);
}

#[test]
fn test_add_subscriber_no_session() {
    let mut manager = SessionManager::new(ServerConfig::default());
    let sub = Addr::v4(127, 0, 0, 1, 6000);
    assert_eq!(
        manager.add_subscriber(99, sub, 0),
        Err(RegistryError::NoSession)
    );
}

#[test]
fn test_add_subscriber_fanout_full() {
    let mut config = ServerConfig::default();
    config.max_fanout_per_session = 1;
    let mut manager = SessionManager::new(config);
    manager.create_session(source_addr(), 5, 0).unwrap();
    assert_eq!(manager.add_subscriber(5, Addr::v4(127, 0, 0, 1, 7001), 0), Ok(()));
    assert_eq!(
        manager.add_subscriber(5, Addr::v4(127, 0, 0, 1, 7002), 0),
        Err(RegistryError::FanoutFull)
    );
    // Re-adding the address already present still succeeds.
    assert_eq!(manager.add_subscriber(5, Addr::v4(127, 0, 0, 1, 7001), 1), Ok(()));
    assert_eq!(manager.total_subscribers(), 1);
}

#[test]
fn test_remove_subscriber() {
    let mut manager = SessionManager::new(ServerConfig::default());
    manager.create_session(source_addr(), 5, 0).unwrap();
    let sub = Addr::v4(127, 0, 0, 1, 7001);
    manager.add_subscriber(5, sub, 0).unwrap();
    assert_eq!(manager.total_subscribers(), 1);
    assert!(manager.remove_subscriber(5, sub, 1));
    assert!(!manager.remove_subscriber(5, sub, 2));
    assert_eq!(manager.total_subscribers(), 0);
}

#[test]
fn test_expiry_sweep() {
    let mut config = ServerConfig::default();
    config.session_timeout_secs = 1;
    let mut manager = SessionManager::new(config);
    manager.create_session(source_addr(), 10, 0).unwrap();

    // Activity 2 seconds ago: over the 1-second window, swept.
    manager.cleanup_expired_sessions(2000 + 1);
    assert!(manager.get_session_by_ssrc(10).is_none());
    assert_eq!(manager.session_count(), 0);
}

#[test]
fn test_expiry_retains_active() {
    let mut config = ServerConfig::default();
    config.session_timeout_secs = 1;
    let mut manager = SessionManager::new(config);
    manager.create_session(source_addr(), 10, 0).unwrap();
    manager.create_session(source_addr(), 11, 1800).unwrap();

    // At t=2001ms the first session is idle for >1s, the second is not.
    manager.cleanup_expired_sessions(2001);
    assert!(manager.get_session_by_ssrc(10).is_none());
    assert!(manager.get_session_by_ssrc(11).is_some());
    assert_eq!(manager.session_count(), 1);
}

#[test]
fn test_is_expired_boundary() {
    let session = Session::new(SessionId::new(), source_addr(), 1, 1000);
    // Exactly the timeout is not yet expired; one millisecond past is.
    assert!(!session.is_expired(1, 2000));
    assert!(session.is_expired(1, 2001));
    assert!(!session.is_expired(u64::MAX, u64::MAX));
}

#[test]
fn test_config_defaults() {
    let config = ServerConfig::default();
    assert_eq!(config.bind_address, "0.0.0.0:5004");
    assert_eq!(config.max_sessions, 10000);
    assert_eq!(config.max_fanout_per_session, 1000);
    assert_eq!(config.buffer_size, 65536);
    assert_eq!(config.session_timeout_secs, 300);
    assert!(config.enable_metrics);
    assert_eq!(config.metrics_bind_address, "0.0.0.0:9090");
}
