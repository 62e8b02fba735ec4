//! The STP client's transport state: one task-owned bundle of connection
//! numbering, congestion control, loss recovery and pacing, with the
//! decisions of the send and ACK paths. The surrounding binary moves the
//! datagrams this state prepares.

use crate::congestion::BbrCongestionControl;
use crate::pacing::{sat_add, spec_sat_add, Pacer};
use crate::protocol::{
    lemma_ack_split_lens, lemma_header_round_trip, lemma_loss_recovery_partition, rtt_micros,
    spec_ack_outcome, spec_header_decode, spec_rtt_micros, ConnectionState, InFlightPacket,
    LossRecovery, StpPacket,
};
use crate::throughput::spec_sat_u64;
use vstd::prelude::*;

verus! {

/// RTT assumed for an ACK that echoes no timestamp, microseconds.
pub const DEFAULT_RTT_MICROS: u64 = 1000;

/// Sum of the datagram sizes of a sequence of in-flight packets.
pub open spec fn spec_in_flight_size_sum(s: Seq<InFlightPacket>) -> int
    decreases s.len(),
{
    if s.len() == 0 {
        0
    } else {
        spec_in_flight_size_sum(s.drop_last()) + s.last().size
    }
}

/// The datagram-size sum of in-flight packets is nonnegative.
pub proof fn lemma_in_flight_size_sum_nonneg(s: Seq<InFlightPacket>)
    ensures
        spec_in_flight_size_sum(s) >= 0,
    decreases s.len(),
{
    if s.len() > 0 {
        lemma_in_flight_size_sum_nonneg(s.drop_last());
    }
}

/// The RTT sample an ACK header yields at clock reading `now`: the echoed
/// timestamp against the clock, or the default when nothing was echoed.
pub open spec fn spec_ack_rtt(echo: u64, now: u64) -> u64 {
    if echo > 0 {
        spec_rtt_micros(now, echo)
    } else {
        DEFAULT_RTT_MICROS
    }
}

/// `a - b`, or 0 when `b` exceeds `a`.
pub open spec fn spec_sat_sub(a: u64, b: u64) -> u64 {
    if a >= b {
        (a - b) as u64
    } else {
        0
    }
}

/// What one prepared send hands the socket: the encoded datagram and the
/// pacer's gap before it may go out.
#[derive(Debug, Clone, PartialEq, Eq)]
pub struct PreparedSend {
    pub datagram: Vec<u8>,
    /// Hold the datagram this many microseconds; `None` sends at once.
    pub wait_micros: Option<u64>,
}

/// How one received ACK datagram changes the client: the header is
/// recorded, the in-flight FIFO splits into delivered, lost and retained
/// packets, one RTT sample and one counted delivery per delivered packet,
/// and one retransmission per lost packet under a fresh, increasing
/// packet number.
pub open spec fn spec_ack_effect(
    pre: StpClientState,
    header: crate::protocol::StpHeader,
    now: u64,
    post: StpClientState,
    retransmits: Seq<Vec<u8>>,
    delivered: Seq<InFlightPacket>,
    lost: Seq<InFlightPacket>,
    retained: Seq<InFlightPacket>,
) -> bool {
    &&& spec_ack_outcome(
        pre.loss_recovery.in_flight@,
        header.latest_ack,
        post.loss_recovery.largest_acked,
        now,
        pre.loss_recovery.loss_threshold,
        pre.loss_recovery.loss_timeout_micros,
        delivered,
        lost,
        retained,
    )
    &&& post.rtt_samples@ == pre.rtt_samples@ + Seq::new(
        delivered.len(),
        |t: int| spec_ack_rtt(header.ack_timestamp_echo, now),
    )
    &&& post.packets_acked == spec_sat_u64(pre.packets_acked + delivered.len())
    &&& post.bytes_acked == spec_sat_u64(pre.bytes_acked + spec_in_flight_size_sum(delivered))
    &&& retransmits.len() == lost.len()
    &&& post.loss_recovery.in_flight@.len() == retained.len() + lost.len()
    &&& post.connection.local_packet_number == pre.connection.local_packet_number + lost.len()
    &&& (forall|k: int|
        0 <= k < retransmits.len() ==> (#[trigger] retransmits[k])@.len() >= 32
            && spec_header_decode(retransmits[k]@).packet_number
            == pre.connection.local_packet_number + 1 + k)
}

/// The STP client's transport state, owned by a single task.
#[derive(Debug, Clone, PartialEq, Eq)]
pub struct StpClientState {
    pub connection: ConnectionState,
    pub congestion: BbrCongestionControl,
    pub loss_recovery: LossRecovery,
    pub pacer: Pacer,
    pub bytes_sent: u64,
    pub bytes_acked: u64,
    pub packets_sent: u64,
    pub packets_acked: u64,
    /// RTT samples awarded on delivery, microseconds.
    pub rtt_samples: Vec<u64>,
}

impl StpClientState {
    /// The state's invariant: the pacer holds its floor, the bandwidth
    /// filter its cached maximum, and every in-flight record keeps a
    /// whole encoded datagram.
    pub open spec fn wf(self) -> bool {
        &&& self.pacer.wf()
        &&& self.congestion.max_bw.wf()
        &&& forall|i: int|
            0 <= i < self.loss_recovery.in_flight@.len()
                ==> (#[trigger] self.loss_recovery.in_flight@[i]).data@.len() >= 32
    }

    /// Fresh state for one peer: congestion control in Startup, nothing
    /// in flight, and the pacer at the congestion controller's rate.
    pub fn new(peer_addr: String) -> (s: StpClientState)
        ensures
            s.wf(),
            s.connection.local_packet_number == 0,
            !s.connection.established,
            s.loss_recovery.in_flight@.len() == 0,
            s.bytes_sent == 0,
            s.bytes_acked == 0,
            s.packets_sent == 0,
            s.packets_acked == 0,
            s.rtt_samples@.len() == 0,
    {
        let congestion = BbrCongestionControl::new();
        let initial_rate = congestion.get_sending_rate();
        StpClientState {
            connection: ConnectionState::new(peer_addr),
            congestion,
            loss_recovery: LossRecovery::new(),
            pacer: Pacer::new(initial_rate),
            bytes_sent: 0,
            bytes_acked: 0,
            packets_sent: 0,
            packets_acked: 0,
            rtt_samples: Vec::new(),
        }
    }

    /// Whether the congestion window admits more data: the bytes still in
    /// flight are under the window.
    pub fn can_send(&self) -> (r: bool)
        ensures
            r == (spec_sat_sub(self.bytes_sent, self.bytes_acked) < self.congestion.cwnd),
    {
        let in_flight = if self.bytes_sent >= self.bytes_acked {
            self.bytes_sent - self.bytes_acked
        } else {
            0
        };
        self.congestion.can_send(in_flight)
    }

    /// Prepare one payload for sending at clock reading `now`: assign the
    /// next packet number, acknowledge what was last received, pace the
    /// datagram, record it in flight, and refresh the congestion
    /// controls. The datagram carries the payload after its 32 header
    /// bytes.
    pub fn prepare_send(&mut self, payload: Vec<u8>, now: u64) -> (r: PreparedSend)
        requires
            old(self).wf(),
            old(self).connection.local_packet_number < u64::MAX,
        ensures
            final(self).wf(),
            final(self).connection.local_packet_number == old(
                self,
            ).connection.local_packet_number + 1,
            final(self).connection.established == old(self).connection.established,
            final(self).connection.last_received_packet == old(
                self,
            ).connection.last_received_packet,
            r.datagram@.len() == 32 + payload@.len(),
            r.datagram@.subrange(32, r.datagram@.len() as int) == payload@,
            spec_header_decode(r.datagram@).packet_number == old(
                self,
            ).connection.local_packet_number + 1,
            spec_header_decode(r.datagram@).latest_ack == old(
                self,
            ).connection.last_received_packet,
            spec_header_decode(r.datagram@).ack_timestamp_echo == old(
                self,
            ).connection.last_received_timestamp,
            final(self).loss_recovery.in_flight@.len() == old(
                self,
            ).loss_recovery.in_flight@.len() + 1,
            final(self).loss_recovery.in_flight@.drop_last() == old(
                self,
            ).loss_recovery.in_flight@,
            final(self).loss_recovery.in_flight@.last().packet_number == old(
                self,
            ).connection.local_packet_number + 1,
            final(self).loss_recovery.in_flight@.last().data@ == r.datagram@,
            !final(self).loss_recovery.in_flight@.last().retransmitted,
            final(self).bytes_sent == spec_sat_add(old(self).bytes_sent, r.datagram@.len() as u64),
            final(self).packets_sent == spec_sat_add(old(self).packets_sent, 1),
            final(self).bytes_acked == old(self).bytes_acked,
            final(self).packets_acked == old(self).packets_acked,
            final(self).rtt_samples@ == old(self).rtt_samples@,
    {
        let packet_number = self.connection.next_packet_number();
        let packet = StpPacket::new(
            packet_number,
            self.connection.last_received_packet,
            self.connection.last_received_timestamp,
            payload,
        );
        let encoded = packet.encode();
        let datagram = packet.encode();
        proof {
            lemma_header_round_trip(packet.header, packet.payload@);
        }

        let wait_micros = self.pacer.schedule_next_send(encoded.len(), now);

        self.bytes_sent = sat_add(self.bytes_sent, encoded.len() as u64);
        self.packets_sent = sat_add(self.packets_sent, 1);
        self.congestion.on_packet_sent(now);
        self.pacer.update_rate(self.congestion.get_sending_rate());

        let record = InFlightPacket::new(packet_number, encoded.len(), encoded);
        self.loss_recovery.on_packet_sent(record);
        proof {
            assert(self.loss_recovery.in_flight@.drop_last() =~= old(
                self,
            ).loss_recovery.in_flight@);
        }
        PreparedSend { datagram, wait_micros }
    }

    /// Take one received datagram at clock reading `now`: record the
    /// peer's header, award one RTT sample and one counted delivery per
    /// delivered packet, feed the congestion controller, and rebuild each
    /// lost packet's payload into a retransmission under a fresh number.
    /// A datagram under 32 bytes changes nothing. The retransmissions
    /// come back encoded, ready to send.
    pub fn on_ack_datagram(&mut self, data: &[u8], now: u64) -> (retransmits: Vec<Vec<u8>>)
        requires
            old(self).wf(),
            old(self).connection.local_packet_number + old(
                self,
            ).loss_recovery.in_flight@.len() <= u64::MAX,
        ensures
            final(self).wf(),
            data@.len() < 32 ==> *final(self) == *old(self) && retransmits@.len() == 0,
            data@.len() >= 32 ==> ({
                let header = spec_header_decode(data@);
                &&& final(self).connection.peer_latest_ack == header.latest_ack
                &&& final(self).connection.last_received_packet == header.packet_number
                &&& final(self).connection.last_received_timestamp == header.timestamp
                &&& final(self).connection.established
                &&& final(self).loss_recovery.largest_acked == if old(
                    self,
                ).loss_recovery.largest_acked >= header.latest_ack {
                    old(self).loss_recovery.largest_acked
                } else {
                    header.latest_ack
                }
                &&& final(self).bytes_sent == old(self).bytes_sent
                &&& final(self).packets_sent == old(self).packets_sent
                &&& exists|
                    delivered: Seq<InFlightPacket>,
                    lost: Seq<InFlightPacket>,
                    retained: Seq<InFlightPacket>,
                |
                    #[trigger] spec_ack_effect(
                        *old(self),
                        header,
                        now,
                        *final(self),
                        retransmits@,
                        delivered,
                        lost,
                        retained,
                    )
            }),
    {
        let ghost pre = *self;
        let packet = match StpPacket::decode(data) {
            Some(p) => p,
            None => {
                return Vec::new();
            },
        };
        self.connection.update_from_received(&packet.header);
        let ghost conn0 = self.connection;

        let rtt = if packet.header.ack_timestamp_echo > 0 {
            rtt_micros(now, packet.header.ack_timestamp_echo)
        } else {
            DEFAULT_RTT_MICROS
        };

        let (acked_packets, lost_packets) = self.loss_recovery.on_ack_received_at(
            packet.header.latest_ack,
            now,
        );
        let ghost largest = self.loss_recovery.largest_acked;
        let ghost retained_seq = self.loss_recovery.in_flight@;
        proof {
            lemma_loss_recovery_partition(
                pre.loss_recovery.in_flight@,
                packet.header.latest_ack,
                largest,
                now,
                pre.loss_recovery.loss_threshold,
                pre.loss_recovery.loss_timeout_micros,
                acked_packets@,
                lost_packets@,
                retained_seq,
            );
            lemma_ack_split_lens(
                pre.loss_recovery.in_flight@,
                packet.header.latest_ack,
                largest,
                now,
                pre.loss_recovery.loss_threshold,
                pre.loss_recovery.loss_timeout_micros,
            );
            assert forall|i: int| 0 <= i < lost_packets@.len() implies (
            #[trigger] lost_packets@[i]).data@.len() >= 32 by {
                assert(lost_packets@.contains(lost_packets@[i]));
                let t = choose|t: int|
                    0 <= t < pre.loss_recovery.in_flight@.len()
                        && pre.loss_recovery.in_flight@[t] == lost_packets@[i];
                assert(pre.loss_recovery.in_flight@[t].data@.len() >= 32);
            }
            assert forall|i: int| 0 <= i < retained_seq.len() implies (
            #[trigger] retained_seq[i]).data@.len() >= 32 by {
                assert(retained_seq.contains(retained_seq[i]));
                let t = choose|t: int|
                    0 <= t < pre.loss_recovery.in_flight@.len()
                        && pre.loss_recovery.in_flight@[t] == retained_seq[i];
                assert(pre.loss_recovery.in_flight@[t].data@.len() >= 32);
            }
        }

        let ghost pre_samples = self.rtt_samples@;
        let mut i: usize = 0;
        proof {
            assert(acked_packets@.take(0) =~= Seq::<InFlightPacket>::empty());
        }
        while i < acked_packets.len()
            invariant
                i <= acked_packets@.len(),
                self.congestion.max_bw.wf(),
                self.pacer == pre.pacer,
                self.connection == conn0,
                self.loss_recovery.in_flight@ == retained_seq,
                self.loss_recovery.loss_threshold == pre.loss_recovery.loss_threshold,
                self.loss_recovery.loss_timeout_micros == pre.loss_recovery.loss_timeout_micros,
                self.loss_recovery.largest_acked == largest,
                self.bytes_sent == pre.bytes_sent,
                self.packets_sent == pre.packets_sent,
                self.rtt_samples@.len() == pre_samples.len() + i,
                forall|t: int|
                    0 <= t < pre_samples.len() ==> #[trigger] self.rtt_samples@[t]
                        == pre_samples[t],
                forall|t: int|
                    pre_samples.len() <= t < self.rtt_samples@.len()
                        ==> #[trigger] self.rtt_samples@[t] == rtt,
                self.packets_acked == spec_sat_u64(pre.packets_acked + i),
                self.bytes_acked == spec_sat_u64(
                    pre.bytes_acked + spec_in_flight_size_sum(acked_packets@.take(i as int)),
                ),
            decreases acked_packets@.len() - i,
        {
            proof {
                assert(acked_packets@.take(i as int + 1).drop_last() =~= acked_packets@.take(
                    i as int,
                ));
                assert(acked_packets@.take(i as int + 1).last() == acked_packets@[i as int]);
                lemma_in_flight_size_sum_nonneg(acked_packets@.take(i as int));
            }
            let size = acked_packets[i].size;
            self.bytes_acked = sat_add(self.bytes_acked, size as u64);
            self.packets_acked = sat_add(self.packets_acked, 1);
            self.rtt_samples.push(rtt);
            self.congestion.on_ack_received(size as u64, rtt, now);
            i = i + 1;
        }
        proof {
            assert(acked_packets@.take(acked_packets@.len() as int) =~= acked_packets@);
        }

        let mut retransmits: Vec<Vec<u8>> = Vec::new();
        let ghost samples_after_acks = self.rtt_samples@;
        let ghost acked_after_loop = self.packets_acked;
        let ghost bytes_after_loop = self.bytes_acked;
        let mut j: usize = 0;
        while j < lost_packets.len()
            invariant
                j <= lost_packets@.len(),
                self.congestion.max_bw.wf(),
                self.pacer.wf(),
                self.connection.peer_latest_ack == conn0.peer_latest_ack,
                self.connection.last_received_packet == conn0.last_received_packet,
                self.connection.last_received_timestamp == conn0.last_received_timestamp,
                self.connection.established == conn0.established,
                conn0.established,
                self.connection.peer_addr == conn0.peer_addr,
                self.connection.local_packet_number == pre.connection.local_packet_number + j,
                conn0.local_packet_number == pre.connection.local_packet_number,
                pre.connection.local_packet_number + lost_packets@.len() <= u64::MAX,
                retransmits@.len() == j,
                self.loss_recovery.in_flight@.len() == retained_seq.len() + j,
                forall|t: int|
                    0 <= t < self.loss_recovery.in_flight@.len()
                        ==> (#[trigger] self.loss_recovery.in_flight@[t]).data@.len() >= 32,
                forall|t: int|
                    0 <= t < lost_packets@.len() ==> (#[trigger] lost_packets@[t]).data@.len()
                        >= 32,
                forall|k: int|
                    0 <= k < j ==> (#[trigger] retransmits@[k])@.len() >= 32 && spec_header_decode(
                        retransmits@[k]@,
                    ).packet_number == pre.connection.local_packet_number + 1 + k,
                self.rtt_samples@ == samples_after_acks,
                self.packets_acked == acked_after_loop,
                self.bytes_acked == bytes_after_loop,
                self.bytes_sent == pre.bytes_sent,
                self.packets_sent == pre.packets_sent,
                self.loss_recovery.loss_threshold == pre.loss_recovery.loss_threshold,
                self.loss_recovery.loss_timeout_micros == pre.loss_recovery.loss_timeout_micros,
                self.loss_recovery.largest_acked == largest,
            decreases lost_packets@.len() - j,
        {
            self.congestion.on_packet_lost(now);
            let new_packet_number = self.connection.next_packet_number();
            let lost = &lost_packets[j];
            let original = match StpPacket::decode(lost.data.as_slice()) {
                Some(p) => p,
                None => {
                    proof {
                        assert(lost_packets@[j as int].data@.len() >= 32);
                        assert(false);
                    }
                    return Vec::new();
                },
            };
            let retransmit = StpPacket::new(
                new_packet_number,
                self.connection.last_received_packet,
                self.connection.last_received_timestamp,
                original.payload,
            );
            let encoded = retransmit.encode();
            let datagram = retransmit.encode();
            proof {
                lemma_header_round_trip(retransmit.header, retransmit.payload@);
            }
            let mut record = InFlightPacket::new(new_packet_number, encoded.len(), encoded);
            record.retransmitted = true;
            self.loss_recovery.on_packet_sent(record);
            retransmits.push(datagram);
            j = j + 1;
        }
        self.pacer.update_rate(self.congestion.get_sending_rate());

        proof {
            let header = spec_header_decode(data@);
            assert(Seq::new(
                acked_packets@.len(),
                |t: int| spec_ack_rtt(header.ack_timestamp_echo, now),
            ) =~= self.rtt_samples@.skip(pre_samples.len() as int));
            assert(self.rtt_samples@ =~= pre_samples + self.rtt_samples@.skip(
                pre_samples.len() as int,
            ));
            assert(spec_ack_effect(
                pre,
                header,
                now,
                *self,
                retransmits@,
                acked_packets@,
                lost_packets@,
                retained_seq,
            ));
        }
        retransmits
    }
}

} // verus!
