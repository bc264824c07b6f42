//! Counters the data plane maintains.
//!
//! The library does the counting — what is incremented, when, and by how
//! much — and exposes the totals as plain values; exporting them to a
//! metrics endpoint is I/O and lives with the caller. Counters are advisory
//! and saturate rather than wrap.

use vstd::prelude::*;

verus! {

/// Add with saturation at the counter's ceiling.
pub open spec fn spec_sat_add(a: u64, b: u64) -> u64 {
    if a + b <= u64::MAX {
        (a + b) as u64
    } else {
        u64::MAX
    }
}

/// The data-plane counters and gauges.
#[derive(Clone, Copy, PartialEq, Eq, Structural, Debug)]
pub struct MetricsCollector {
    /// Packets accepted by the parser on ingress.
    pub packets_received_total: u64,
    /// Payload bytes accepted on ingress.
    pub bytes_received_total: u64,
    /// Egress datagrams handed to the sender.
    pub packets_sent_total: u64,
    /// Datagrams the parser rejected.
    pub parse_errors_total: u64,
    /// Gauge: sessions live in the registry.
    pub active_sessions: u64,
    /// Gauge: subscriber entries across all sessions.
    pub total_subscribers: u64,
}

impl MetricsCollector {
    /// All counters at zero.
    pub fn new() -> (r: Self)
        ensures
            r == (MetricsCollector {
                packets_received_total: 0,
                bytes_received_total: 0,
                packets_sent_total: 0,
                parse_errors_total: 0,
                active_sessions: 0,
                total_subscribers: 0,
            }),
    {
        MetricsCollector {
            packets_received_total: 0,
            bytes_received_total: 0,
            packets_sent_total: 0,
            parse_errors_total: 0,
            active_sessions: 0,
            total_subscribers: 0,
        }
    }

    /// One packet of `size` payload bytes came in.
    pub fn record_packet_received(&mut self, size: usize)
        ensures
            final(self).packets_received_total == spec_sat_add(old(self).packets_received_total, 1),
            final(self).bytes_received_total == spec_sat_add(
                old(self).bytes_received_total,
                size as u64,
            ),
            final(self).packets_sent_total == old(self).packets_sent_total,
            final(self).parse_errors_total == old(self).parse_errors_total,
            final(self).active_sessions == old(self).active_sessions,
            final(self).total_subscribers == old(self).total_subscribers,
    {
        self.packets_received_total = sat_add(self.packets_received_total, 1);
        self.bytes_received_total = sat_add(self.bytes_received_total, size as u64);
    }

    /// One ingress packet went out to `subscriber_count` subscribers.
    pub fn record_packet_sent(&mut self, subscriber_count: usize)
        ensures
            final(self).packets_sent_total == spec_sat_add(
                old(self).packets_sent_total,
                subscriber_count as u64,
            ),
            final(self).packets_received_total == old(self).packets_received_total,
            final(self).bytes_received_total == old(self).bytes_received_total,
            final(self).parse_errors_total == old(self).parse_errors_total,
            final(self).active_sessions == old(self).active_sessions,
            final(self).total_subscribers == old(self).total_subscribers,
    {
        self.packets_sent_total = sat_add(self.packets_sent_total, subscriber_count as u64);
    }

    /// One datagram was rejected by the parser.
    pub fn record_parse_error(&mut self)
        ensures
            final(self).parse_errors_total == spec_sat_add(old(self).parse_errors_total, 1),
            final(self).packets_received_total == old(self).packets_received_total,
            final(self).bytes_received_total == old(self).bytes_received_total,
            final(self).packets_sent_total == old(self).packets_sent_total,
            final(self).active_sessions == old(self).active_sessions,
            final(self).total_subscribers == old(self).total_subscribers,
    {
        self.parse_errors_total = sat_add(self.parse_errors_total, 1);
    }

    /// Set the live-session gauge.
    pub fn update_session_count(&mut self, count: usize)
        ensures
            final(self).active_sessions == count as u64,
            final(self).packets_received_total == old(self).packets_received_total,
            final(self).bytes_received_total == old(self).bytes_received_total,
            final(self).packets_sent_total == old(self).packets_sent_total,
            final(self).parse_errors_total == old(self).parse_errors_total,
            final(self).total_subscribers == old(self).total_subscribers,
    {
        self.active_sessions = count as u64;
    }

    /// Set the subscriber-total gauge.
    pub fn update_subscriber_count(&mut self, count: usize)
        ensures
            final(self).total_subscribers == count as u64,
            final(self).packets_received_total == old(self).packets_received_total,
            final(self).bytes_received_total == old(self).bytes_received_total,
            final(self).packets_sent_total == old(self).packets_sent_total,
            final(self).parse_errors_total == old(self).parse_errors_total,
            final(self).active_sessions == old(self).active_sessions,
    {
        self.total_subscribers = count as u64;
    }
}

/// Saturating add on counters.
fn sat_add(a: u64, b: u64) -> (r: u64)
    ensures
        r == spec_sat_add(a, b),
{
    if a <= u64::MAX - b {
        a + b
    } else {
        u64::MAX
    }
}

} // verus!
