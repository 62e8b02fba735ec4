//! The STP server's per-peer logic: decoding datagrams, updating the
//! peer's connection state and counters, answering every packet with an
//! ACK, and switching a peer into download mode on command — including the
//! parse of the requested packet size and the fragmentation plan for
//! payloads over the datagram ceiling.

use crate::http_logic::{chunk_sizes, spec_chunk_count, spec_size_sum};
use crate::protocol::{spec_header_decode, ConnectionState, StpPacket};
use vstd::prelude::*;

verus! {

/// Payload size a download-mode peer gets when the command names none.
pub const DEFAULT_DOWNLOAD_PAYLOAD_SIZE: usize = 1024;

/// Largest payload sent in one datagram; larger requests are fragmented.
pub const MAX_UDP_PAYLOAD: usize = 1400;

/// How many data packets one burst of download mode sends.
pub const DOWNLOAD_BURST_PACKETS: usize = 10;

/// Pause between fragments of one oversized payload, microseconds.
pub const FRAGMENT_GAP_MICROS: u64 = 50;

/// Pause between download bursts, microseconds.
pub const BURST_GAP_MICROS: u64 = 500;

/// Whether `s` starts with `prefix`.
pub open spec fn spec_starts_with(s: Seq<u8>, prefix: Seq<u8>) -> bool {
    s.len() >= prefix.len() && s.subrange(0, prefix.len() as int) == prefix
}

/// Whether every byte is an ASCII decimal digit.
pub open spec fn spec_all_digits(s: Seq<u8>) -> bool {
    forall|i: int| 0 <= i < s.len() ==> 48 <= #[trigger] s[i] <= 57
}

/// The number that a sequence of ASCII digits denotes.
pub open spec fn spec_digits_value(s: Seq<u8>) -> int
    decreases s.len(),
{
    if s.len() == 0 {
        0
    } else {
        spec_digits_value(s.drop_last()) * 10 + (s.last() - 48)
    }
}

/// The bytes of the download command.
pub open spec fn spec_download_prefix() -> Seq<u8> {
    seq![68u8, 79u8, 87u8, 78u8, 76u8, 79u8, 65u8, 68u8]
}

/// Whether `data` starts with `prefix`.
pub fn starts_with(data: &[u8], prefix: &[u8]) -> (r: bool)
    ensures
        r == spec_starts_with(data@, prefix@),
{
    if data.len() < prefix.len() {
        proof {
            assert(!spec_starts_with(data@, prefix@));
        }
        return false;
    }
    let mut i: usize = 0;
    while i < prefix.len()
        invariant
            i <= prefix@.len(),
            prefix@.len() <= data@.len(),
            forall|t: int| 0 <= t < i ==> data@[t] == prefix@[t],
        decreases prefix@.len() - i,
    {
        if data[i] != prefix[i] {
            proof {
                assert(data@.subrange(0, prefix@.len() as int)[i as int] != prefix@[i as int]);
            }
            return false;
        }
        i = i + 1;
    }
    proof {
        assert(data@.subrange(0, prefix@.len() as int) =~= prefix@);
    }
    true
}

/// Parse an ASCII decimal number: `Some` exactly when the bytes are
/// non-empty, all digits, and the value fits a `usize`.
pub fn parse_usize(data: &[u8]) -> (r: Option<usize>)
    ensures
        r is Some <==> (data@.len() > 0 && spec_all_digits(data@) && spec_digits_value(data@)
            <= usize::MAX),
        r matches Some(v) ==> v == spec_digits_value(data@),
{
    if data.len() == 0 {
        return None;
    }
    let ghost s = data@;
    let mut acc: usize = 0;
    let mut i: usize = 0;
    proof {
        assert(s.take(0) =~= Seq::<u8>::empty());
    }
    while i < data.len()
        invariant
            i <= s.len(),
            data@ == s,
            spec_all_digits(s.take(i as int)),
            acc == spec_digits_value(s.take(i as int)),
        decreases s.len() - i,
    {
        proof {
            assert(s.take(i as int + 1).drop_last() =~= s.take(i as int));
            assert(s.take(i as int + 1).last() == s[i as int]);
        }
        let b = data[i];
        if b < 48 || b > 57 {
            proof {
                assert(!spec_all_digits(s)) by {
                    assert(s[i as int] == b);
                }
            }
            return None;
        }
        let d = (b - 48) as usize;
        let wide: u128 = (acc as u128) * 10 + (d as u128);
        if wide > usize::MAX as u128 {
            proof {
                assert(spec_all_digits(s.take(i as int + 1))) by {
                    assert(forall|t: int|
                        0 <= t < i ==> s.take(i as int + 1)[t] == #[trigger] s.take(i as int)[t]);
                    assert(s.take(i as int + 1)[i as int] == b);
                }
                if spec_all_digits(s) {
                    lemma_digits_value_grows(s, i as int + 1);
                }
            }
            return None;
        }
        acc = acc * 10 + d;
        i = i + 1;
        proof {
            assert(spec_all_digits(s.take(i as int))) by {
                assert(forall|t: int|
                    0 <= t < i - 1 ==> s.take(i as int)[t] == #[trigger] s.take(i as int - 1)[t]);
                assert(s.take(i as int)[i - 1] == b);
            }
        }
    }
    proof {
        assert(s.take(s.len() as int) =~= s);
    }
    Some(acc)
}

/// The value of a digit string is nonnegative.
pub proof fn lemma_digits_value_nonneg(s: Seq<u8>)
    requires
        spec_all_digits(s),
    ensures
        spec_digits_value(s) >= 0,
    decreases s.len(),
{
    if s.len() > 0 {
        assert(spec_all_digits(s.drop_last())) by {
            assert(forall|t: int| 0 <= t < s.len() - 1 ==> s.drop_last()[t] == #[trigger] s[t]);
        }
        lemma_digits_value_nonneg(s.drop_last());
        assert(spec_digits_value(s.drop_last()) * 10 >= 0) by (nonlinear_arith)
            requires
                spec_digits_value(s.drop_last()) >= 0,
        ;
    }
}

/// A longer prefix of a digit string denotes at least as large a value.
pub proof fn lemma_digits_value_grows(s: Seq<u8>, i: int)
    requires
        0 < i <= s.len(),
        spec_all_digits(s.take(i)),
        spec_all_digits(s),
    ensures
        spec_digits_value(s) >= spec_digits_value(s.take(i)),
    decreases s.len() - i,
{
    if i < s.len() {
        assert(s.take(i + 1).drop_last() =~= s.take(i));
        assert(spec_all_digits(s.take(i + 1))) by {
            assert(forall|t: int| 0 <= t < i + 1 ==> s.take(i + 1)[t] == #[trigger] s[t]);
        }
        lemma_digits_value_nonneg(s.take(i));
        assert(spec_digits_value(s.take(i + 1)) == spec_digits_value(s.take(i)) * 10 + (s[i] - 48));
        assert(spec_digits_value(s.take(i)) * 10 >= spec_digits_value(s.take(i)))
            by (nonlinear_arith)
            requires
                spec_digits_value(s.take(i)) >= 0,
        ;
        lemma_digits_value_grows(s, i + 1);
        assert(s.take(s.len() as int) =~= s);
    } else {
        assert(s.take(i) =~= s);
    }
}

/// The download payload size a command payload asks for: the size after
/// the `DOWNLOAD:` prefix when it parses, the default otherwise.
pub open spec fn spec_requested_download_size(payload: Seq<u8>) -> usize {
    let rest = payload.skip(9);
    if payload.len() > 9 && payload[8] == 58 && spec_all_digits(rest) && rest.len() > 0
        && spec_digits_value(rest) <= usize::MAX {
        spec_digits_value(rest) as usize
    } else {
        DEFAULT_DOWNLOAD_PAYLOAD_SIZE
    }
}

/// The payload size a download command asks for.
pub fn requested_download_size(payload: &[u8]) -> (r: usize)
    requires
        spec_starts_with(payload@, spec_download_prefix()),
    ensures
        r == spec_requested_download_size(payload@),
{
    if payload.len() > 9 && payload[8] == 58 {
        let rest = vstd::slice::slice_subrange(payload, 9, payload.len());
        proof {
            assert(rest@ =~= payload@.skip(9));
        }
        match parse_usize(rest) {
            Some(v) => v,
            None => DEFAULT_DOWNLOAD_PAYLOAD_SIZE,
        }
    } else {
        DEFAULT_DOWNLOAD_PAYLOAD_SIZE
    }
}

/// What the server does with one datagram, beyond updating its state.
#[derive(Debug, Clone, PartialEq, Eq)]
pub struct StpServerReply {
    /// The ACK to send back: a fresh packet number, `latest_ack` naming
    /// the received packet, and the received timestamp echoed.
    pub ack: StpPacket,
    /// Set when the peer is in download mode: the fragment lengths of one
    /// data packet's payload; a burst sends `DOWNLOAD_BURST_PACKETS` of
    /// these.
    pub download_fragments: Option<Vec<usize>>,
}

/// The server's state for one peer.
#[derive(Debug, Clone, PartialEq, Eq)]
pub struct StpPeerState {
    pub connection: ConnectionState,
    pub total_bytes: u64,
    pub packets_received: u64,
    pub local_packet_number: u64,
    pub download_mode: bool,
    pub download_payload_size: usize,
}

impl StpPeerState {
    /// A fresh peer record.
    pub fn new(peer_addr: String) -> (s: StpPeerState)
        ensures
            s.connection.peer_addr@ == peer_addr@,
            !s.connection.established,
            s.total_bytes == 0,
            s.packets_received == 0,
            s.local_packet_number == 0,
            !s.download_mode,
            s.download_payload_size == DEFAULT_DOWNLOAD_PAYLOAD_SIZE,
    {
        StpPeerState {
            connection: ConnectionState::new(peer_addr),
            total_bytes: 0,
            packets_received: 0,
            local_packet_number: 0,
            download_mode: false,
            download_payload_size: DEFAULT_DOWNLOAD_PAYLOAD_SIZE,
        }
    }

    /// The next packet number this server side assigns to the peer.
    pub fn next_packet_number(&mut self) -> (n: u64)
        requires
            old(self).local_packet_number < u64::MAX,
        ensures
            n == old(self).local_packet_number + 1,
            final(self).local_packet_number == n,
            final(self).connection == old(self).connection,
            final(self).total_bytes == old(self).total_bytes,
            final(self).packets_received == old(self).packets_received,
            final(self).download_mode == old(self).download_mode,
            final(self).download_payload_size == old(self).download_payload_size,
    {
        self.local_packet_number = self.local_packet_number + 1;
        self.local_packet_number
    }

    /// Handle one datagram from this peer. A datagram under 32 bytes is
    /// dropped without reply. Otherwise the connection state takes the
    /// received header, the byte and packet counters grow, a download
    /// command switches the peer into download mode with the requested
    /// payload size, and the reply acknowledges the received packet with
    /// its timestamp echoed — with the fragment plan of one data packet
    /// when the peer is in download mode.
    pub fn handle_datagram(&mut self, data: &[u8]) -> (r: Option<StpServerReply>)
        requires
            old(self).local_packet_number < u64::MAX,
            old(self).total_bytes <= u64::MAX - data@.len(),
            old(self).packets_received < u64::MAX,
        ensures
            data@.len() < 32 ==> r is None && *final(self) == *old(self),
            data@.len() >= 32 ==> ({
                let header = spec_header_decode(data@);
                let payload = data@.subrange(32, data@.len() as int);
                let is_download = spec_starts_with(payload, spec_download_prefix());
                &&& r is Some
                &&& final(self).connection.peer_latest_ack == header.latest_ack
                &&& final(self).connection.last_received_packet == header.packet_number
                &&& final(self).connection.last_received_timestamp == header.timestamp
                &&& final(self).connection.established
                &&& final(self).total_bytes == old(self).total_bytes + payload.len()
                &&& final(self).packets_received == old(self).packets_received + 1
                &&& final(self).local_packet_number == old(self).local_packet_number + 1
                &&& final(self).download_mode == (old(self).download_mode || is_download)
                &&& final(self).download_payload_size == if is_download {
                    spec_requested_download_size(payload)
                } else {
                    old(self).download_payload_size
                }
                &&& (r matches Some(reply) ==> {
                    &&& reply.ack.header.packet_number == old(self).local_packet_number + 1
                    &&& reply.ack.header.latest_ack == header.packet_number
                    &&& reply.ack.header.ack_timestamp_echo == header.timestamp
                    &&& reply.ack.payload@.len() == 0
                    &&& (reply.download_fragments is Some) == final(self).download_mode
                    &&& (reply.download_fragments matches Some(frags) ==> spec_size_sum(frags@)
                        == final(self).download_payload_size && frags@.len() == spec_chunk_count(
                        final(self).download_payload_size as int,
                        MAX_UDP_PAYLOAD as int,
                    ))
                })
            }),
    {
        let packet = match StpPacket::decode(data) {
            Some(p) => p,
            None => {
                return None;
            },
        };
        let download_cmd: [u8; 8] = [68, 79, 87, 78, 76, 79, 65, 68];
        proof {
            assert(download_cmd@ =~= spec_download_prefix());
        }
        let is_download = starts_with(packet.payload.as_slice(), download_cmd.as_slice());
        if is_download {
            self.download_mode = true;
            self.download_payload_size = requested_download_size(packet.payload.as_slice());
        }
        self.connection.update_from_received(&packet.header);
        self.total_bytes = self.total_bytes + packet.payload.len() as u64;
        self.packets_received = self.packets_received + 1;
        let ack_number = self.next_packet_number();
        let ack = StpPacket::ack_only(ack_number, packet.header.packet_number, packet.header.timestamp);
        let download_fragments = if self.download_mode {
            Some(chunk_sizes(self.download_payload_size, MAX_UDP_PAYLOAD))
        } else {
            None
        };
        Some(StpServerReply { ack, download_fragments })
    }
}

} // verus!
