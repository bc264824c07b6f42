//! The fan-out engine: queue ingress packets, and per batch replicate each
//! one to every subscriber of its session.
//!
//! The engine decides which datagrams go where; putting them on the wire is
//! the caller's I/O. One ingress packet for a session with `k` subscribers
//! yields exactly `k` egress datagrams, in subscriber order, and packets
//! leave in the order they were queued.

use vstd::prelude::*;
use crate::{Addr, Datagram, RtpPacket};
use crate::codec;
use crate::metrics::MetricsCollector;
use crate::session::{SessionManager, spec_has_ssrc, spec_index_of_ssrc, spec_session_for, spec_routing_eq};

verus! {

/// How many packets one `process_batch` call drains at most.
pub const BATCH_SIZE: usize = 256;

/// Declares crossbeam's lock-free queue so its values can stand in fields.
#[verifier::external_type_specification]
#[verifier::external_body]
#[verifier::reject_recursive_types(T)]
pub struct ExSegQueue<T>(crossbeam::queue::SegQueue<T>);

/// The lock-free ingress queue.
pub type PacketQueue = crossbeam::queue::SegQueue<RtpPacket>;

/// The packets a queue holds, head first.
pub uninterp spec fn queue_contents(q: PacketQueue) -> Seq<RtpPacket>;

/// Relies on crossbeam's SegQueue::new: the new queue is empty.
#[verifier::external_body]
fn queue_new() -> (r: PacketQueue)
    ensures
        (queue_contents(r) == Seq::<RtpPacket>::empty()),
{
    crossbeam::queue::SegQueue::new()
}

/// Relies on crossbeam's SegQueue::push: the value joins the tail of the
/// queue.
#[verifier::external_body]
fn queue_push(q: &mut PacketQueue, packet: RtpPacket)
    ensures
        queue_contents(*final(q)) == queue_contents(*old(q)).push(packet),
{
    q.push(packet);
}

/// Relies on crossbeam's SegQueue::pop: the head of the queue leaves first
/// (first in, first out); an empty queue yields nothing.
#[verifier::external_body]
fn queue_pop(q: &mut PacketQueue) -> (r: Option<RtpPacket>)
    ensures
        queue_contents(*old(q)).len() == 0 ==> r is None && queue_contents(*final(q))
            == queue_contents(*old(q)),
        queue_contents(*old(q)).len() > 0 ==> r == Some(queue_contents(*old(q))[0])
            && queue_contents(*final(q)) == queue_contents(*old(q)).subrange(
            1,
            queue_contents(*old(q)).len() as int,
        ),
{
    q.pop()
}

/// The egress datagrams one ingress packet produces: one per subscriber of
/// its session, in subscriber order, each carrying the canonical
/// re-serialization of the packet; none when no session has its SSRC.
pub open spec fn spec_fanout(m: SessionManager, p: RtpPacket) -> Seq<(Addr, Seq<u8>)> {
    if spec_has_ssrc(m.sessions@, p.ssrc) {
        Seq::new(
            spec_session_for(m.sessions@, p.ssrc).subscribers@.len(),
            |k: int|
                (
                    spec_session_for(m.sessions@, p.ssrc).subscribers@[k].addr,
                    codec::spec_serialize(p.marker, p.sequence, p.timestamp, p.ssrc, p.payload@),
                ),
        )
    } else {
        Seq::empty()
    }
}

/// The egress datagrams a run of packets produces, packet by packet in
/// order.
pub open spec fn spec_batch(ps: Seq<RtpPacket>, m: SessionManager) -> Seq<(Addr, Seq<u8>)>
    decreases ps.len(),
{
    if ps.len() == 0 {
        Seq::empty()
    } else {
        spec_fanout(m, ps[0]) + spec_batch(ps.subrange(1, ps.len() as int), m)
    }
}

/// Two registries that route alike fan a packet out alike.
pub proof fn lemma_fanout_routing_eq(a: SessionManager, b: SessionManager, p: RtpPacket)
    requires
        a.wf(),
        spec_routing_eq(a, b),
    ensures
        spec_fanout(b, p) == spec_fanout(a, p),
{
    if spec_has_ssrc(a.sessions@, p.ssrc) {
        let ia = spec_index_of_ssrc(a.sessions@, p.ssrc);
        let ib = spec_index_of_ssrc(b.sessions@, p.ssrc);
        assert(a.sessions@[ia].ssrc == p.ssrc);
        assert(spec_has_ssrc(b.sessions@, p.ssrc)) by {
            assert(b.sessions@[ia].ssrc == p.ssrc);
        }
        assert(b.sessions@[ib].ssrc == p.ssrc);
        assert(a.sessions@[ib].ssrc == p.ssrc);
        if ia != ib {
            assert(a.sessions@[ia].ssrc != a.sessions@[ib].ssrc);
        }
        assert(b.sessions@[ib].subscribers@ == a.sessions@[ia].subscribers@);
        assert(spec_fanout(b, p) =~= spec_fanout(a, p));
    } else {
        if spec_has_ssrc(b.sessions@, p.ssrc) {
            let ib = spec_index_of_ssrc(b.sessions@, p.ssrc);
            assert(b.sessions@[ib].ssrc == p.ssrc);
            assert(a.sessions@[ib].ssrc == p.ssrc);
        }
    }
}

/// Law: fan-out distributes over concatenation of ingress runs. Packets
/// queued earlier contribute all their egress datagrams before any datagram
/// of a packet queued later: per (SSRC, subscriber) pair, egress order
/// follows ingress order.
pub proof fn lemma_batch_order(ps1: Seq<RtpPacket>, ps2: Seq<RtpPacket>, m: SessionManager)
    ensures
        spec_batch(ps1 + ps2, m) == spec_batch(ps1, m) + spec_batch(ps2, m),
    decreases ps1.len(),
{
    if ps1.len() == 0 {
        assert(ps1 + ps2 =~= ps2);
        assert(spec_batch(ps1, m) + spec_batch(ps2, m) =~= spec_batch(ps2, m));
    } else {
        let rest = ps1.subrange(1, ps1.len() as int);
        lemma_batch_order(rest, ps2, m);
        assert((ps1 + ps2).subrange(1, (ps1 + ps2).len() as int) =~= rest + ps2);
        assert((ps1 + ps2)[0] == ps1[0]);
        assert(spec_fanout(m, ps1[0]) + (spec_batch(rest, m) + spec_batch(ps2, m)) =~= (
        spec_fanout(m, ps1[0]) + spec_batch(rest, m)) + spec_batch(ps2, m));
    }
}

/// A batch grows at its tail: processing one more packet appends that
/// packet's fan-out.
proof fn lemma_batch_snoc(ps: Seq<RtpPacket>, m: SessionManager)
    requires
        ps.len() > 0,
    ensures
        spec_batch(ps, m) == spec_batch(ps.subrange(0, ps.len() - 1), m) + spec_fanout(
            m,
            ps[ps.len() - 1],
        ),
{
    let front = ps.subrange(0, ps.len() - 1);
    let last = ps.subrange(ps.len() - 1, ps.len() as int);
    assert(ps =~= front + last);
    lemma_batch_order(front, last, m);
    let e = last.subrange(1, last.len() as int);
    assert(e =~= Seq::<RtpPacket>::empty());
    assert(e.len() == 0);
    assert(spec_batch(e, m) =~= Seq::<(Addr, Seq<u8>)>::empty());
    assert(spec_batch(last, m) =~= spec_fanout(m, last[0]) + spec_batch(e, m));
    assert(last[0] == ps[ps.len() - 1]);
    assert(spec_batch(last, m) =~= spec_fanout(m, ps[ps.len() - 1]));
    assert(spec_batch(front, m) + spec_batch(last, m) =~= spec_batch(front, m) + spec_fanout(
        m,
        ps[ps.len() - 1],
    ));
}

/// Copy a byte buffer.
fn copy_bytes(src: &Vec<u8>) -> (r: Vec<u8>)
    ensures
        r@ == src@,
{
    let mut out: Vec<u8> = Vec::new();
    let mut i: usize = 0;
    while i < src.len()
        invariant
            i <= src@.len(),
            out@ == src@.subrange(0, i as int),
        decreases src@.len() - i,
    {
        out.push(src[i]);
        assert(out@ =~= src@.subrange(0, i + 1));
        i = i + 1;
    }
    assert(src@.subrange(0, src@.len() as int) =~= src@);
    out
}

/// The fan-out engine: the ingress queue and the data-plane counters.
pub struct FanoutEngine {
    pub queue: PacketQueue,
    pub metrics: MetricsCollector,
}

impl FanoutEngine {
    /// An idle engine: empty queue, zeroed counters.
    pub fn new() -> (r: Self)
        ensures
            queue_contents(r.queue).len() == 0,
            r.metrics == (MetricsCollector {
                packets_received_total: 0,
                bytes_received_total: 0,
                packets_sent_total: 0,
                parse_errors_total: 0,
                active_sessions: 0,
                total_subscribers: 0,
            }),
    {
        FanoutEngine { queue: queue_new(), metrics: MetricsCollector::new() }
    }

    /// Queue one parsed packet for the next batch.
    pub fn enqueue_packet(&mut self, packet: RtpPacket)
        ensures
            queue_contents(final(self).queue) == queue_contents(old(self).queue).push(packet),
            final(self).metrics == old(self).metrics,
    {
        queue_push(&mut self.queue, packet);
    }

    /// Ingress entry point: parse a datagram; a well-formed one is counted
    /// and queued, a malformed one is counted and dropped. Returns whether
    /// the datagram was accepted.
    pub fn handle_datagram(&mut self, data: &[u8]) -> (r: bool)
        ensures
            r == codec::spec_well_formed(data@),
            r ==> {
                &&& queue_contents(final(self).queue).len() == queue_contents(
                    old(self).queue,
                ).len() + 1
                &&& queue_contents(final(self).queue).subrange(
                    0,
                    queue_contents(old(self).queue).len() as int,
                ) == queue_contents(old(self).queue)
                &&& ({
                    let p = queue_contents(final(self).queue).last();
                    &&& p.marker == codec::spec_marker(data@)
                    &&& p.sequence as int == codec::spec_sequence(data@)
                    &&& p.timestamp as int == codec::spec_timestamp(data@)
                    &&& p.ssrc as int == codec::spec_ssrc(data@)
                    &&& p.payload@ == codec::spec_payload(data@)
                })
                &&& final(self).metrics.packets_received_total == crate::metrics::spec_sat_add(
                    old(self).metrics.packets_received_total,
                    1,
                )
                &&& final(self).metrics.packets_sent_total == old(self).metrics.packets_sent_total
                &&& final(self).metrics.parse_errors_total == old(self).metrics.parse_errors_total
            },
            !r ==> {
                &&& queue_contents(final(self).queue) == queue_contents(old(self).queue)
                &&& final(self).metrics.parse_errors_total == crate::metrics::spec_sat_add(
                    old(self).metrics.parse_errors_total,
                    1,
                )
                &&& final(self).metrics.packets_received_total == old(
                    self,
                ).metrics.packets_received_total
                &&& final(self).metrics.packets_sent_total == old(self).metrics.packets_sent_total
            },
    {
        match codec::parse_rtp_packet(data) {
            Ok(packet) => {
                self.metrics.record_packet_received(data.len());
                queue_push(&mut self.queue, packet);
                assert(queue_contents(self.queue).subrange(
                    0,
                    queue_contents(old(self).queue).len() as int,
                ) =~= queue_contents(old(self).queue));
                true
            },
            Err(_) => {
                self.metrics.record_parse_error();
                false
            },
        }
    }

    /// Replicate one packet: look its session up, bump activity and
    /// counters, serialize once, and emit one datagram per subscriber, in
    /// subscriber order, onto `out`. A packet whose SSRC has no session is
    /// dropped and emits nothing.
    pub fn fanout_packet(
        &mut self,
        mgr: &mut SessionManager,
        packet: &RtpPacket,
        now_ms: u64,
        out: &mut Vec<Datagram>,
    )
        requires
            old(mgr).wf(),
        ensures
            final(mgr).wf(),
            spec_routing_eq(*old(mgr), *final(mgr)),
            final(out)@.len() == old(out)@.len() + spec_fanout(*old(mgr), *packet).len(),
            (forall|k: int| 0 <= k < old(out)@.len() ==> final(out)@[k] == old(out)@[k]),
            (forall|k: int|
                0 <= k < spec_fanout(*old(mgr), *packet).len() ==> {
                    &&& (#[trigger] final(out)@[old(out)@.len() + k]).dest == spec_fanout(
                        *old(mgr),
                        *packet,
                    )[k].0
                    &&& final(out)@[old(out)@.len() + k].data@ == spec_fanout(
                        *old(mgr),
                        *packet,
                    )[k].1
                }),
            queue_contents(final(self).queue) == queue_contents(old(self).queue),
            final(self).metrics.packets_sent_total == crate::metrics::spec_sat_add(
                old(self).metrics.packets_sent_total,
                spec_fanout(*old(mgr), *packet).len() as u64,
            ),
            final(self).metrics.packets_received_total == old(self).metrics.packets_received_total,
            final(self).metrics.parse_errors_total == old(self).metrics.parse_errors_total,
    {
        let ghost out0 = out@;
        match mgr.record_ingress(packet.ssrc, packet.payload.len(), now_ms) {
            None => {
                self.metrics.record_packet_sent(0);
            },
            Some(addrs) => {
                let bytes = codec::serialize_rtp_packet(packet);
                let mut k: usize = 0;
                while k < addrs.len()
                    invariant
                        k <= addrs@.len(),
                        out@.len() == out0.len() + k,
                        forall|t: int| 0 <= t < out0.len() ==> out@[t] == out0[t],
                        forall|t: int|
                            0 <= t < k ==> (#[trigger] out@[out0.len() + t]).dest == addrs@[t]
                                && out@[out0.len() + t].data@ == bytes@,
                        bytes@ == codec::spec_serialize(
                            packet.marker,
                            packet.sequence,
                            packet.timestamp,
                            packet.ssrc,
                            packet.payload@,
                        ),
                    decreases addrs@.len() - k,
                {
                    let data = copy_bytes(&bytes);
                    out.push(Datagram { dest: addrs[k], data });
                    k = k + 1;
                }
                self.metrics.record_packet_sent(addrs.len());
            },
        }
    }

    /// Drain up to `BATCH_SIZE` packets from the queue, oldest first, and
    /// emit their fan-out. The egress sequence is exactly the concatenation,
    /// in queue order, of each drained packet's fan-out against the registry
    /// as the batch began.
    pub fn process_batch(&mut self, mgr: &mut SessionManager, now_ms: u64) -> (r: Vec<Datagram>)
        requires
            old(mgr).wf(),
        ensures
            final(mgr).wf(),
            spec_routing_eq(*old(mgr), *final(mgr)),
            ({
                let q0 = queue_contents(old(self).queue);
                let n = vstd::math::min(q0.len() as int, BATCH_SIZE as int);
                &&& queue_contents(final(self).queue) == q0.subrange(n, q0.len() as int)
                &&& r@.len() == spec_batch(q0.subrange(0, n), *old(mgr)).len()
                &&& (forall|k: int|
                    0 <= k < r@.len() ==> (#[trigger] r@[k]).dest == spec_batch(
                        q0.subrange(0, n),
                        *old(mgr),
                    )[k].0 && r@[k].data@ == spec_batch(q0.subrange(0, n), *old(mgr))[k].1)
            }),
    {
        let ghost q0 = queue_contents(self.queue);
        let ghost m0 = *mgr;
        let mut out: Vec<Datagram> = Vec::new();
        let mut count: usize = 0;
        let mut stopped: bool = false;
        proof {
            assert(q0.subrange(0, 0) =~= Seq::<RtpPacket>::empty());
        }
        while count < BATCH_SIZE && !stopped
            invariant
                mgr.wf(),
                m0.wf(),
                m0 == *old(mgr),
                spec_routing_eq(m0, *mgr),
                count <= BATCH_SIZE,
                count <= q0.len(),
                stopped ==> count == q0.len(),
                queue_contents(self.queue) == q0.subrange(count as int, q0.len() as int),
                out@.len() == spec_batch(q0.subrange(0, count as int), m0).len(),
                forall|k: int|
                    0 <= k < out@.len() ==> (#[trigger] out@[k]).dest == spec_batch(
                        q0.subrange(0, count as int),
                        m0,
                    )[k].0 && out@[k].data@ == spec_batch(q0.subrange(0, count as int), m0)[k].1,
            decreases BATCH_SIZE - count + (if stopped { 0int } else { 1int }),
        {
            let ghost mgr_pre = *mgr;
            let ghost done = count as int;
            match queue_pop(&mut self.queue) {
                None => {
                    stopped = true;
                },
                Some(packet) => {
                    proof {
                        assert(q0.subrange(done, q0.len() as int)[0] == q0[done]);
                        assert(packet == q0[done]);
                        assert(queue_contents(self.queue) =~= q0.subrange(
                            done + 1,
                            q0.len() as int,
                        ));
                    }
                    let ghost out_pre = out@;
                    self.fanout_packet(mgr, &packet, now_ms, &mut out);
                    count = count + 1;
                    proof {
                        lemma_fanout_routing_eq(m0, mgr_pre, packet);
                        lemma_batch_snoc(q0.subrange(0, count as int), m0);
                        assert(q0.subrange(0, count as int).subrange(0, done) =~= q0.subrange(
                            0,
                            done,
                        ));
                        assert(q0.subrange(0, count as int)[done] == q0[done]);
                        assert forall|i: int|
                            0 <= i < m0.sessions@.len() implies {
                            &&& (#[trigger] mgr.sessions@[i]).ssrc == m0.sessions@[i].ssrc
                            &&& mgr.sessions@[i].id == m0.sessions@[i].id
                            &&& mgr.sessions@[i].source_addr == m0.sessions@[i].source_addr
                            &&& mgr.sessions@[i].created_at == m0.sessions@[i].created_at
                            &&& mgr.sessions@[i].subscribers@ == m0.sessions@[i].subscribers@
                        } by {
                            assert(mgr_pre.sessions@[i].ssrc == m0.sessions@[i].ssrc);
                        }
                        let fan = spec_fanout(m0, q0[done]);
                        let prevb = spec_batch(q0.subrange(0, done), m0);
                        let newb = spec_batch(q0.subrange(0, count as int), m0);
                        assert(newb == prevb + fan);
                        assert(spec_fanout(mgr_pre, packet) == fan);
                        assert(out@.len() == out_pre.len() + fan.len());
                        assert forall|k: int|
                            0 <= k < out@.len() implies (#[trigger] out@[k]).dest == newb[k].0
                            && out@[k].data@ == newb[k].1 by {
                            if k < out_pre.len() {
                                assert(out@[k] == out_pre[k]);
                                assert(newb[k] == prevb[k]);
                            } else {
                                let t = k - out_pre.len();
                                assert(out@[out_pre.len() + t].dest == spec_fanout(
                                    mgr_pre,
                                    packet,
                                )[t].0);
                                assert(out@[out_pre.len() + t].data@ == spec_fanout(
                                    mgr_pre,
                                    packet,
                                )[t].1);
                                assert(newb[k] == fan[t]);
                            }
                        }
                    }
                },
            }
        }
        proof {
            if !stopped {
                assert(count == BATCH_SIZE);
            }
            assert(count as int == vstd::math::min(q0.len() as int, BATCH_SIZE as int));
        }
        out
    }
}

} // verus!
