use rtp_fanout_server::Addr;
use rtp_fanout_server::config::ServerConfig;
use rtp_fanout_server::fanout::FanoutEngine;
use rtp_fanout_server::metrics::MetricsCollector;
use rtp_fanout_server::session::SessionManager;

fn source_addr() -> Addr {
    Addr::v4(127, 0, 0, 1, 5004)
}

fn datagram(marker: bool, sequence: u16, timestamp: u32, ssrc: u32, payload: &[u8]) -> Vec<u8> {
    let mut data = vec![0x80u8, if marker { 0x80 } else { 0x60 }];
    data.extend_from_slice(&sequence.to_be_bytes());
    data.extend_from_slice(&timestamp.to_be_bytes());
    data.extend_from_slice(&ssrc.to_be_bytes());
    data.extend_from_slice(payload);
    data
}

#[test]
fn test_single_subscriber_passthrough() {
    let mut manager = SessionManager::new(ServerConfig::default());
    let mut engine = FanoutEngine::new();

    manager.create_session(source_addr(), 0xDEADBEEF, 0).unwrap();
    let sub = Addr::v4(127, 0, 0, 1, 6000);
    manager.add_subscriber(0xDEADBEEF, sub, 0).unwrap();

    let data = datagram(false, 1, 0, 0xDEADBEEF, b"test payload");
    assert_eq!(
        data[..12],
        [0x80, 0x60, 0x00, 0x01, 0x00, 0x00, 0x00, 0x00, 0xDE, 0xAD, 0xBE, 0xEF]
    );
    assert!(engine.handle_datagram(&data));
    let out = engine.process_batch(&mut manager, 1);

    assert_eq!(out.len(), 1);
    assert_eq!(out[0].dest, sub);
    // Same header modulo the payload-type policy (PT dropped to zero).
    assert_eq!(
        out[0].data[..12],
        [0x80, 0x00, 0x00, 0x01, 0x00, 0x00, 0x00, 0x00, 0xDE, 0xAD, 0xBE, 0xEF]
    );
    assert_eq!(&out[0].data[12..], b"test payload");
}

#[test]
fn test_fanout_to_three() {
    let mut manager = SessionManager::new(ServerConfig::default());
    let mut engine = FanoutEngine::new();

    manager.create_session(source_addr(), 1, 0).unwrap();
    let subs = [
        Addr::v4(127, 0, 0, 1, 7001),
        Addr::v4(127, 0, 0, 1, 7002),
        Addr::v4(127, 0, 0, 1, 7003),
    ];
    for s in subs {
        manager.add_subscriber(1, s, 0).unwrap();
    }

    for seq in 100u16..110 {
        let data = datagram(false, seq, 0, 1, b"p");
        assert!(engine.handle_datagram(&data));
    }
    let out = engine.process_batch(&mut manager, 1);

    // One ingress packet with three subscribers yields exactly three egress
    // datagrams; ten packets yield thirty.
    assert_eq!(out.len(), 30);
    for s in subs {
        let seqs: Vec<u16> = out
            .iter()
            .filter(|d| d.dest == s)
            .map(|d| u16::from_be_bytes([d.data[2], d.data[3]]))
            .collect();
        let expected: Vec<u16> = (100..110).collect();
        assert_eq!(seqs, expected);
    }
}

#[test]
fn test_unknown_ssrc_dropped() {
    let mut manager = SessionManager::new(ServerConfig::default());
    let mut engine = FanoutEngine::new();

    let data = datagram(false, 1, 0, 0x12345678, b"x");
    assert!(engine.handle_datagram(&data));
    let received_before = engine.metrics.packets_received_total;
    let sent_before = engine.metrics.packets_sent_total;
    assert_eq!(received_before, 1);

    let out = engine.process_batch(&mut manager, 1);
    assert_eq!(out.len(), 0);
    assert_eq!(engine.metrics.packets_received_total, received_before);
    assert_eq!(engine.metrics.packets_sent_total, sent_before);
    assert_eq!(engine.metrics.packets_sent_total, 0);
}

#[test]
fn test_malformed_datagram_counted() {
    let mut engine = FanoutEngine::new();
    assert!(!engine.handle_datagram(&[0x80, 0x00, 0x01]));
    assert_eq!(engine.metrics.parse_errors_total, 1);
    assert_eq!(engine.metrics.packets_received_total, 0);
}

#[test]
fn test_batch_is_fifo_and_bounded() {
    let mut manager = SessionManager::new(ServerConfig::default());
    let mut engine = FanoutEngine::new();
    manager.create_session(source_addr(), 9, 0).unwrap();
    manager
        .add_subscriber(9, Addr::v4(10, 0, 0, 1, 9000), 0)
        .unwrap();

    // Queue 300 packets: one batch drains at most 256, the rest stay queued.
    for seq in 0u16..300 {
        let data = datagram(false, seq, 0, 9, b"q");
        assert!(engine.handle_datagram(&data));
    }
    let first = engine.process_batch(&mut manager, 1);
    assert_eq!(first.len(), 256);
    for (k, d) in first.iter().enumerate() {
        assert_eq!(u16::from_be_bytes([d.data[2], d.data[3]]), k as u16);
    }
    let second = engine.process_batch(&mut manager, 2);
    assert_eq!(second.len(), 44);
    for (k, d) in second.iter().enumerate() {
        assert_eq!(u16::from_be_bytes([d.data[2], d.data[3]]), 256 + k as u16);
    }
    assert_eq!(engine.metrics.packets_sent_total, 300);
}

#[test]
fn test_metrics_collector_counts() {
    let mut m = MetricsCollector::new();
    m.record_packet_received(100);
    m.record_packet_received(50);
    m.record_packet_sent(3);
    m.update_session_count(7);
    m.update_subscriber_count(21);
    assert_eq!(m.packets_received_total, 2);
    assert_eq!(m.bytes_received_total, 150);
    assert_eq!(m.packets_sent_total, 3);
    assert_eq!(m.active_sessions, 7);
    assert_eq!(m.total_subscribers, 21);
}

#[test]
fn test_ingress_updates_session_activity() {
    let mut config = ServerConfig::default();
    config.session_timeout_secs = 1;
    let mut manager = SessionManager::new(config);
    let mut engine = FanoutEngine::new();
    manager.create_session(source_addr(), 3, 0).unwrap();
    manager
        .add_subscriber(3, Addr::v4(127, 0, 0, 1, 7001), 0)
        .unwrap();

    // Traffic at t=1500ms refreshes the session, so a sweep at t=2001ms
    // keeps it; without that traffic it would have been swept.
    let data = datagram(false, 5, 0, 3, b"keepalive");
    assert!(engine.handle_datagram(&data));
    let out = engine.process_batch(&mut manager, 1500);
    assert_eq!(out.len(), 1);
    manager.cleanup_expired_sessions(2001);
    assert!(manager.get_session_by_ssrc(3).is_some());
    manager.cleanup_expired_sessions(2502);
    assert!(manager.get_session_by_ssrc(3).is_none());
}
