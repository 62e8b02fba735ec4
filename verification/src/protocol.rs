//! STP wire format and reliability state: a fixed 32-byte header of four
//! big-endian `u64` fields followed by the payload bytes of the datagram,
//! per-connection packet numbering, and loss recovery over a FIFO of
//! in-flight packets.
//!
//! Times are microseconds since the Unix epoch, held in `u64`.

use vstd::prelude::*;

verus! {

/// Number of bytes in an encoded `StpHeader`.
pub const HEADER_SIZE: usize = 32;

/// Packets this many below the largest acknowledged number are declared lost.
pub const LOSS_THRESHOLD: u64 = 3;

/// Packets in flight longer than this many microseconds are declared lost.
pub const LOSS_TIMEOUT_MICROS: u64 = 1_000_000;

/// The eight bytes of `x` in big-endian order.
pub open spec fn u64_be_bytes(x: u64) -> Seq<u8> {
    seq![
        (x >> 56) as u8,
        (x >> 48) as u8,
        (x >> 40) as u8,
        (x >> 32) as u8,
        (x >> 24) as u8,
        (x >> 16) as u8,
        (x >> 8) as u8,
        x as u8,
    ]
}

/// The `u64` read from eight bytes in big-endian order.
pub open spec fn u64_from_be(s: Seq<u8>) -> u64
    recommends
        s.len() == 8,
{
    (((s[0] as u64) << 56) | ((s[1] as u64) << 48) | ((s[2] as u64) << 40) | ((s[3] as u64) << 32)
        | ((s[4] as u64) << 24) | ((s[5] as u64) << 16) | ((s[6] as u64) << 8) | (s[7] as u64)) as u64
}

/// Reading back the big-endian bytes of `x` yields `x`.
pub proof fn lemma_u64_be_round_trip(x: u64)
    ensures
        u64_from_be(u64_be_bytes(x)) == x,
{
    assert(((((x >> 56) as u8) as u64) << 56 | (((x >> 48) as u8) as u64) << 48
        | (((x >> 40) as u8) as u64) << 40 | (((x >> 32) as u8) as u64) << 32
        | (((x >> 24) as u8) as u64) << 24 | (((x >> 16) as u8) as u64) << 16
        | (((x >> 8) as u8) as u64) << 8 | ((x as u8) as u64)) == x) by (bit_vector);
}

/// Append the big-endian bytes of `x` to `buf`.
pub fn put_u64_be(buf: &mut Vec<u8>, x: u64)
    ensures
        final(buf)@ == old(buf)@ + u64_be_bytes(x),
{
    buf.push((x >> 56) as u8);
    buf.push((x >> 48) as u8);
    buf.push((x >> 40) as u8);
    buf.push((x >> 32) as u8);
    buf.push((x >> 24) as u8);
    buf.push((x >> 16) as u8);
    buf.push((x >> 8) as u8);
    buf.push(x as u8);
    assert(buf@ =~= old(buf)@ + u64_be_bytes(x));
}

/// Read a big-endian `u64` from `data` at `offset`.
pub fn get_u64_be(data: &[u8], offset: usize) -> (x: u64)
    requires
        offset + 8 <= data@.len(),
    ensures
        x == u64_from_be(data@.subrange(offset as int, offset as int + 8)),
{
    let ghost s = data@.subrange(offset as int, offset as int + 8);
    let x: u64 = ((data[offset] as u64) << 56) | ((data[offset + 1] as u64) << 48)
        | ((data[offset + 2] as u64) << 40) | ((data[offset + 3] as u64) << 32)
        | ((data[offset + 4] as u64) << 24) | ((data[offset + 5] as u64) << 16)
        | ((data[offset + 6] as u64) << 8) | (data[offset + 7] as u64);
    assert(s[0] == data@[offset as int] && s[1] == data@[offset as int + 1]
        && s[2] == data@[offset as int + 2] && s[3] == data@[offset as int + 3]
        && s[4] == data@[offset as int + 4] && s[5] == data@[offset as int + 5]
        && s[6] == data@[offset as int + 6] && s[7] == data@[offset as int + 7]);
    x
}

/// Current time in microseconds since the Unix epoch.
///
/// Relies on `std::time::SystemTime::now`; before the epoch it returns 0, as
/// the duration since the epoch then has no value and the default is used.
#[verifier::external_body]
pub fn current_timestamp_micros() -> u64 {
    std::time::SystemTime::now()
        .duration_since(std::time::UNIX_EPOCH)
        .unwrap_or_default()
        .as_micros() as u64
}

/// Round-trip time implied by an echoed send timestamp, given the current
/// clock reading: their difference, or 0 when the clock reads earlier.
pub open spec fn spec_rtt_micros(current: u64, echo: u64) -> u64 {
    if current > echo {
        (current - echo) as u64
    } else {
        0
    }
}

/// The RTT that an echo `echo` yields against clock reading `current`.
pub fn rtt_micros(current: u64, echo: u64) -> (r: u64)
    ensures
        r == spec_rtt_micros(current, echo),
{
    if current > echo {
        current - echo
    } else {
        0
    }
}

/// RTT in microseconds from a timestamp echo, measured against the clock now.
///
/// The clock value is read inside, so only the relation to some reading is
/// promised.
pub fn calculate_rtt(ack_timestamp_echo: u64) -> (r: u64)
    ensures
        exists|current: u64| r == spec_rtt_micros(current, ack_timestamp_echo),
{
    let current = current_timestamp_micros();
    let r = rtt_micros(current, ack_timestamp_echo);
    assert(r == spec_rtt_micros(current, ack_timestamp_echo));
    r
}

/// STP packet header: packet number, send timestamp, highest peer packet
/// number seen, and the echoed peer timestamp for RTT measurement.
#[derive(Debug, Clone, Copy, PartialEq, Eq, Structural)]
pub struct StpHeader {
    pub packet_number: u64,
    pub timestamp: u64,
    pub latest_ack: u64,
    pub ack_timestamp_echo: u64,
}

/// The 32 bytes of an encoded header.
pub open spec fn spec_header_bytes(h: StpHeader) -> Seq<u8> {
    u64_be_bytes(h.packet_number) + u64_be_bytes(h.timestamp) + u64_be_bytes(h.latest_ack)
        + u64_be_bytes(h.ack_timestamp_echo)
}

/// The header read from the first 32 bytes of `s`.
pub open spec fn spec_header_decode(s: Seq<u8>) -> StpHeader
    recommends
        s.len() >= 32,
{
    StpHeader {
        packet_number: u64_from_be(s.subrange(0, 8)),
        timestamp: u64_from_be(s.subrange(8, 16)),
        latest_ack: u64_from_be(s.subrange(16, 24)),
        ack_timestamp_echo: u64_from_be(s.subrange(24, 32)),
    }
}

/// An encoded header is exactly 32 bytes.
pub proof fn lemma_header_length(h: StpHeader)
    ensures
        spec_header_bytes(h).len() == 32,
{
}

/// Decoding an encoded header, with anything after it, yields the header back.
pub proof fn lemma_header_round_trip(h: StpHeader, rest: Seq<u8>)
    ensures
        spec_header_decode(spec_header_bytes(h) + rest) == h,
{
    let s = spec_header_bytes(h) + rest;
    assert(s.subrange(0, 8) =~= u64_be_bytes(h.packet_number));
    assert(s.subrange(8, 16) =~= u64_be_bytes(h.timestamp));
    assert(s.subrange(16, 24) =~= u64_be_bytes(h.latest_ack));
    assert(s.subrange(24, 32) =~= u64_be_bytes(h.ack_timestamp_echo));
    lemma_u64_be_round_trip(h.packet_number);
    lemma_u64_be_round_trip(h.timestamp);
    lemma_u64_be_round_trip(h.latest_ack);
    lemma_u64_be_round_trip(h.ack_timestamp_echo);
}

impl StpHeader {
    /// A header stamped with the clock now; the other fields are as given.
    pub fn new(packet_number: u64, latest_ack: u64, ack_timestamp_echo: u64) -> (h: StpHeader)
        ensures
            h.packet_number == packet_number,
            h.latest_ack == latest_ack,
            h.ack_timestamp_echo == ack_timestamp_echo,
    {
        StpHeader {
            packet_number,
            timestamp: current_timestamp_micros(),
            latest_ack,
            ack_timestamp_echo,
        }
    }

    /// A header with every field given, the timestamp included.
    pub fn with_timestamp(
        packet_number: u64,
        timestamp: u64,
        latest_ack: u64,
        ack_timestamp_echo: u64,
    ) -> (h: StpHeader)
        ensures
            h == (StpHeader { packet_number, timestamp, latest_ack, ack_timestamp_echo }),
    {
        StpHeader { packet_number, timestamp, latest_ack, ack_timestamp_echo }
    }

    /// Append the 32 encoded header bytes to `buf`.
    pub fn encode(&self, buf: &mut Vec<u8>)
        ensures
            final(buf)@ == old(buf)@ + spec_header_bytes(*self),
            final(buf)@.len() == old(buf)@.len() + HEADER_SIZE,
    {
        put_u64_be(buf, self.packet_number);
        put_u64_be(buf, self.timestamp);
        put_u64_be(buf, self.latest_ack);
        put_u64_be(buf, self.ack_timestamp_echo);
        assert(buf@ =~= old(buf)@ + spec_header_bytes(*self));
    }

    /// Decode a header from the front of `data`; `None` iff `data` holds
    /// fewer than 32 bytes.
    pub fn decode(data: &[u8]) -> (r: Option<StpHeader>)
        ensures
            data@.len() < 32 ==> r is None,
            data@.len() >= 32 ==> r == Some(spec_header_decode(data@)),
    {
        if data.len() < HEADER_SIZE {
            return None;
        }
        let packet_number = get_u64_be(data, 0);
        let timestamp = get_u64_be(data, 8);
        let latest_ack = get_u64_be(data, 16);
        let ack_timestamp_echo = get_u64_be(data, 24);
        Some(StpHeader { packet_number, timestamp, latest_ack, ack_timestamp_echo })
    }
}

/// A complete STP packet: header and payload. An empty payload marks an
/// ACK-only packet.
#[derive(Debug, Clone, PartialEq, Eq)]
pub struct StpPacket {
    pub header: StpHeader,
    pub payload: Vec<u8>,
}

/// The bytes of an encoded packet: 32 header bytes, then the payload.
pub open spec fn spec_packet_bytes(p: StpPacket) -> Seq<u8> {
    spec_header_bytes(p.header) + p.payload@
}

impl StpPacket {
    /// A packet stamped with the clock now.
    pub fn new(
        packet_number: u64,
        latest_ack: u64,
        ack_timestamp_echo: u64,
        payload: Vec<u8>,
    ) -> (p: StpPacket)
        ensures
            p.header.packet_number == packet_number,
            p.header.latest_ack == latest_ack,
            p.header.ack_timestamp_echo == ack_timestamp_echo,
            p.payload@ == payload@,
    {
        StpPacket { header: StpHeader::new(packet_number, latest_ack, ack_timestamp_echo), payload }
    }

    /// An ACK-only packet: empty payload, stamped with the clock now.
    pub fn ack_only(packet_number: u64, latest_ack: u64, ack_timestamp_echo: u64) -> (p: StpPacket)
        ensures
            p.header.packet_number == packet_number,
            p.header.latest_ack == latest_ack,
            p.header.ack_timestamp_echo == ack_timestamp_echo,
            p.payload@.len() == 0,
    {
        StpPacket {
            header: StpHeader::new(packet_number, latest_ack, ack_timestamp_echo),
            payload: Vec::new(),
        }
    }

    /// Encode the packet into a fresh byte vector.
    pub fn encode(&self) -> (r: Vec<u8>)
        ensures
            r@ == spec_packet_bytes(*self),
            r@.len() == HEADER_SIZE + self.payload@.len(),
    {
        let mut buf: Vec<u8> = Vec::new();
        self.header.encode(&mut buf);
        let mut i: usize = 0;
        while i < self.payload.len()
            invariant
                i <= self.payload@.len(),
                buf@ == spec_header_bytes(self.header) + self.payload@.subrange(0, i as int),
            decreases self.payload@.len() - i,
        {
            buf.push(self.payload[i]);
            assert(buf@ =~= spec_header_bytes(self.header) + self.payload@.subrange(
                0,
                i as int + 1,
            ));
            i = i + 1;
        }
        assert(buf@ =~= spec_packet_bytes(*self));
        buf
    }

    /// Decode a packet; `None` iff `data` holds fewer than 32 bytes.
    /// Everything after the header is the payload.
    pub fn decode(data: &[u8]) -> (r: Option<StpPacket>)
        ensures
            data@.len() < 32 ==> r is None,
            data@.len() >= 32 ==> (r matches Some(p) && p.header == spec_header_decode(data@)
                && p.payload@ == data@.subrange(32, data@.len() as int)),
    {
        let header = match StpHeader::decode(data) {
            Some(h) => h,
            None => {
                return None;
            },
        };
        let mut payload: Vec<u8> = Vec::new();
        let mut i: usize = HEADER_SIZE;
        while i < data.len()
            invariant
                32 <= i <= data@.len(),
                payload@ == data@.subrange(32, i as int),
            decreases data@.len() - i,
        {
            payload.push(data[i]);
            assert(payload@ =~= data@.subrange(32, i as int + 1));
            i = i + 1;
        }
        Some(StpPacket { header, payload })
    }

    /// Whether the packet carries no payload.
    pub fn is_ack_only(&self) -> (r: bool)
        ensures
            r == (self.payload@.len() == 0),
    {
        self.payload.len() == 0
    }
}

/// Decoding an encoded packet yields the packet back, byte for byte.
pub proof fn lemma_stp_round_trip(p: StpPacket)
    requires
        p.payload@.len() <= 65536,
    ensures
        spec_packet_bytes(p).len() >= 32,
        spec_header_decode(spec_packet_bytes(p)) == p.header,
        spec_packet_bytes(p).subrange(32, spec_packet_bytes(p).len() as int) =~= p.payload@,
{
    lemma_header_round_trip(p.header, p.payload@);
}

/// Connection state bound to one remote peer, owned by a single task.
#[derive(Debug, Clone, PartialEq, Eq)]
pub struct ConnectionState {
    /// The peer's address, as text; the logic never reads inside it.
    pub peer_addr: String,
    /// The number of the last packet this side assigned.
    pub local_packet_number: u64,
    /// Highest `latest_ack` the peer has reported.
    pub peer_latest_ack: u64,
    /// Packet number of the last packet received from the peer.
    pub last_received_packet: u64,
    /// Timestamp carried by the last packet received from the peer.
    pub last_received_timestamp: u64,
    /// True once anything was received from the peer.
    pub established: bool,
}

/// The packet numbers that `n` successive calls of `next_packet_number`
/// yield, starting from counter value `start`.
pub open spec fn spec_packet_numbers(start: u64, n: nat) -> Seq<u64>
    decreases n,
{
    if n == 0 {
        Seq::empty()
    } else {
        spec_packet_numbers(start, (n - 1) as nat).push((start + n) as u64)
    }
}

/// Packet numbers assigned by one connection state strictly increase and
/// never repeat.
pub proof fn lemma_packet_number_monotonic(start: u64, n: nat)
    requires
        start + n <= u64::MAX,
    ensures
        spec_packet_numbers(start, n).len() == n,
        forall|i: int|
            0 <= i < n ==> #[trigger] spec_packet_numbers(start, n)[i] == start + i + 1,
        forall|i: int, j: int|
            0 <= i < j < n ==> spec_packet_numbers(start, n)[i] < spec_packet_numbers(start, n)[j],
    decreases n,
{
    if n > 0 {
        lemma_packet_number_monotonic(start, (n - 1) as nat);
        let s = spec_packet_numbers(start, n);
        let prev = spec_packet_numbers(start, (n - 1) as nat);
        assert forall|i: int| 0 <= i < n implies #[trigger] s[i] == start + i + 1 by {
            if i < n - 1 {
                assert(s[i] == prev[i]);
            }
        }
    }
}

impl ConnectionState {
    /// A fresh, unestablished state for the given peer.
    pub fn new(peer_addr: String) -> (s: ConnectionState)
        ensures
            s.peer_addr@ == peer_addr@,
            s.local_packet_number == 0,
            s.peer_latest_ack == 0,
            s.last_received_packet == 0,
            s.last_received_timestamp == 0,
            !s.established,
    {
        ConnectionState {
            peer_addr,
            local_packet_number: 0,
            peer_latest_ack: 0,
            last_received_packet: 0,
            last_received_timestamp: 0,
            established: false,
        }
    }

    /// The next packet number: the counter is incremented first, so the
    /// sequence starts at 1 and strictly increases.
    pub fn next_packet_number(&mut self) -> (n: u64)
        requires
            old(self).local_packet_number < u64::MAX,
        ensures
            n == old(self).local_packet_number + 1,
            final(self).local_packet_number == n,
            final(self).peer_addr == old(self).peer_addr,
            final(self).peer_latest_ack == old(self).peer_latest_ack,
            final(self).last_received_packet == old(self).last_received_packet,
            final(self).last_received_timestamp == old(self).last_received_timestamp,
            final(self).established == old(self).established,
    {
        self.local_packet_number = self.local_packet_number + 1;
        self.local_packet_number
    }

    /// Record a received header: remember the peer's ack and packet data and
    /// mark the connection established.
    pub fn update_from_received(&mut self, header: &StpHeader)
        ensures
            final(self).peer_latest_ack == header.latest_ack,
            final(self).last_received_packet == header.packet_number,
            final(self).last_received_timestamp == header.timestamp,
            final(self).established,
            final(self).local_packet_number == old(self).local_packet_number,
            final(self).peer_addr == old(self).peer_addr,
    {
        self.peer_latest_ack = header.latest_ack;
        self.last_received_packet = header.packet_number;
        self.last_received_timestamp = header.timestamp;
        if !self.established {
            self.established = true;
        }
    }
}

/// A packet that was sent and is neither acknowledged nor declared lost.
#[derive(Debug, Clone, PartialEq, Eq)]
pub struct InFlightPacket {
    pub packet_number: u64,
    /// Send time in microseconds since the Unix epoch.
    pub sent_time: u64,
    /// Size of the encoded datagram in bytes.
    pub size: usize,
    /// The encoded datagram, kept for retransmission.
    pub data: Vec<u8>,
    /// Whether this packet itself is a retransmission.
    pub retransmitted: bool,
}

impl InFlightPacket {
    /// An in-flight record stamped with the clock now, not retransmitted.
    pub fn new(packet_number: u64, size: usize, data: Vec<u8>) -> (p: InFlightPacket)
        ensures
            p.packet_number == packet_number,
            p.size == size,
            p.data@ == data@,
            !p.retransmitted,
    {
        InFlightPacket {
            packet_number,
            sent_time: current_timestamp_micros(),
            size,
            data,
            retransmitted: false,
        }
    }
}

/// A packet is delivered by an ACK carrying `acked` iff its number is at
/// most `acked`.
pub open spec fn spec_is_delivered(p: InFlightPacket, acked: u64) -> bool {
    p.packet_number <= acked
}

/// How far the largest acknowledged number is past a packet's own number,
/// 0 when it is not past it.
pub open spec fn spec_higher_gap(largest: u64, number: u64) -> u64 {
    if largest >= number {
        (largest - number) as u64
    } else {
        0
    }
}

/// A packet not delivered is lost iff at least `threshold` higher packets
/// were acknowledged past it, or it has been in flight longer than
/// `timeout` microseconds at time `now`.
pub open spec fn spec_is_lost(
    p: InFlightPacket,
    acked: u64,
    largest: u64,
    now: u64,
    threshold: u64,
    timeout: u64,
) -> bool {
    !spec_is_delivered(p, acked) && (spec_higher_gap(largest, p.packet_number) >= threshold || (now
        > p.sent_time && now - p.sent_time > timeout))
}

/// A packet is retained iff it is neither delivered nor lost.
pub open spec fn spec_is_retained(
    p: InFlightPacket,
    acked: u64,
    largest: u64,
    now: u64,
    threshold: u64,
    timeout: u64,
) -> bool {
    !spec_is_delivered(p, acked) && !spec_is_lost(p, acked, largest, now, threshold, timeout)
}

/// Loss recovery over a FIFO of in-flight packets.
#[derive(Debug, Clone, PartialEq, Eq)]
pub struct LossRecovery {
    pub in_flight: Vec<InFlightPacket>,
    pub largest_acked: u64,
    pub loss_threshold: u64,
    pub loss_timeout_micros: u64,
}

/// The packets of `pre` that an ACK carrying `acked` delivers, in FIFO
/// order.
pub open spec fn spec_delivered_of(pre: Seq<InFlightPacket>, acked: u64) -> Seq<InFlightPacket>
    decreases pre.len(),
{
    if pre.len() == 0 {
        Seq::empty()
    } else {
        let rest = spec_delivered_of(pre.drop_last(), acked);
        if spec_is_delivered(pre.last(), acked) {
            rest.push(pre.last())
        } else {
            rest
        }
    }
}

/// The packets of `pre` that the ACK declares lost, in FIFO order.
pub open spec fn spec_lost_of(
    pre: Seq<InFlightPacket>,
    acked: u64,
    largest: u64,
    now: u64,
    threshold: u64,
    timeout: u64,
) -> Seq<InFlightPacket>
    decreases pre.len(),
{
    if pre.len() == 0 {
        Seq::empty()
    } else {
        let rest = spec_lost_of(pre.drop_last(), acked, largest, now, threshold, timeout);
        if spec_is_lost(pre.last(), acked, largest, now, threshold, timeout) {
            rest.push(pre.last())
        } else {
            rest
        }
    }
}

/// The packets of `pre` that stay in flight after the ACK, in FIFO order.
pub open spec fn spec_retained_of(
    pre: Seq<InFlightPacket>,
    acked: u64,
    largest: u64,
    now: u64,
    threshold: u64,
    timeout: u64,
) -> Seq<InFlightPacket>
    decreases pre.len(),
{
    if pre.len() == 0 {
        Seq::empty()
    } else {
        let rest = spec_retained_of(pre.drop_last(), acked, largest, now, threshold, timeout);
        if spec_is_retained(pre.last(), acked, largest, now, threshold, timeout) {
            rest.push(pre.last())
        } else {
            rest
        }
    }
}

/// How one ACK splits the previous in-flight FIFO: delivered packets,
/// lost packets, and the retained remainder, each in FIFO order.
pub open spec fn spec_ack_outcome(
    pre: Seq<InFlightPacket>,
    acked: u64,
    largest: u64,
    now: u64,
    threshold: u64,
    timeout: u64,
    delivered: Seq<InFlightPacket>,
    lost: Seq<InFlightPacket>,
    retained: Seq<InFlightPacket>,
) -> bool {
    &&& delivered == spec_delivered_of(pre, acked)
    &&& lost == spec_lost_of(pre, acked, largest, now, threshold, timeout)
    &&& retained == spec_retained_of(pre, acked, largest, now, threshold, timeout)
}

impl LossRecovery {
    /// Fresh state: nothing in flight, with the default loss threshold and
    /// timeout.
    pub fn new() -> (r: LossRecovery)
        ensures
            r.in_flight@.len() == 0,
            r.largest_acked == 0,
            r.loss_threshold == LOSS_THRESHOLD,
            r.loss_timeout_micros == LOSS_TIMEOUT_MICROS,
    {
        LossRecovery {
            in_flight: Vec::new(),
            largest_acked: 0,
            loss_threshold: LOSS_THRESHOLD,
            loss_timeout_micros: LOSS_TIMEOUT_MICROS,
        }
    }

    /// Record a sent packet at the back of the FIFO.
    pub fn on_packet_sent(&mut self, packet: InFlightPacket)
        ensures
            final(self).in_flight@ == old(self).in_flight@.push(packet),
            final(self).largest_acked == old(self).largest_acked,
            final(self).loss_threshold == old(self).loss_threshold,
            final(self).loss_timeout_micros == old(self).loss_timeout_micros,
    {
        self.in_flight.push(packet);
    }

    /// Process a cumulative ACK carrying `acked`, judging timeouts against
    /// the clock reading `now`: raise `largest_acked`, and split the FIFO
    /// into delivered and lost packets, retaining the rest in order.
    pub fn on_ack_received_at(&mut self, acked: u64, now: u64) -> (r: (
        Vec<InFlightPacket>,
        Vec<InFlightPacket>,
    ))
        ensures
            final(self).largest_acked == if old(self).largest_acked >= acked {
                old(self).largest_acked
            } else {
                acked
            },
            final(self).loss_threshold == old(self).loss_threshold,
            final(self).loss_timeout_micros == old(self).loss_timeout_micros,
            spec_ack_outcome(
                old(self).in_flight@,
                acked,
                final(self).largest_acked,
                now,
                old(self).loss_threshold,
                old(self).loss_timeout_micros,
                r.0@,
                r.1@,
                final(self).in_flight@,
            ),
    {
        let ghost pre = self.in_flight@;
        if acked > self.largest_acked {
            self.largest_acked = acked;
        }
        let largest = self.largest_acked;
        let threshold = self.loss_threshold;
        let timeout = self.loss_timeout_micros;

        let mut delivered: Vec<InFlightPacket> = Vec::new();
        let mut lost: Vec<InFlightPacket> = Vec::new();
        let mut kept: Vec<InFlightPacket> = Vec::new();
        let ghost n = pre.len();
        let ghost mut i: int = 0;
        proof {
            assert(pre.take(0) =~= Seq::<InFlightPacket>::empty());
        }
        while self.in_flight.len() > 0
            invariant
                0 <= i,
                i + self.in_flight@.len() == n,
                n == pre.len(),
                self.in_flight@ =~= pre.skip(i),
                delivered@ == spec_delivered_of(pre.take(i), acked),
                lost@ == spec_lost_of(pre.take(i), acked, largest, now, threshold, timeout),
                kept@ == spec_retained_of(pre.take(i), acked, largest, now, threshold, timeout),
                self.largest_acked == largest,
                self.loss_threshold == threshold,
                self.loss_timeout_micros == timeout,
            decreases self.in_flight@.len(),
        {
            let p = self.in_flight.remove(0);
            proof {
                assert(pre.skip(i)[0] == pre[i]);
                lemma_ack_split_take_step(pre, i, acked, largest, now, threshold, timeout);
            }
            if p.packet_number <= acked {
                delivered.push(p);
            } else {
                let higher_acked = if largest >= p.packet_number {
                    largest - p.packet_number
                } else {
                    0
                };
                let timed_out = now > p.sent_time && now - p.sent_time > timeout;
                if higher_acked >= threshold || timed_out {
                    lost.push(p);
                } else {
                    kept.push(p);
                }
            }
            proof {
                i = i + 1;
                assert(self.in_flight@ =~= pre.skip(i));
            }
        }
        proof {
            assert(pre.take(n as int) =~= pre);
        }
        self.in_flight = kept;
        (delivered, lost)
    }

    /// Process a cumulative ACK against the clock now. The split is the one
    /// that `on_ack_received_at` gives for some clock reading.
    pub fn on_ack_received(&mut self, acked: u64) -> (r: (
        Vec<InFlightPacket>,
        Vec<InFlightPacket>,
    ))
        ensures
            final(self).largest_acked == if old(self).largest_acked >= acked {
                old(self).largest_acked
            } else {
                acked
            },
            final(self).loss_threshold == old(self).loss_threshold,
            final(self).loss_timeout_micros == old(self).loss_timeout_micros,
            exists|now: u64|
                spec_ack_outcome(
                    old(self).in_flight@,
                    acked,
                    final(self).largest_acked,
                    now,
                    old(self).loss_threshold,
                    old(self).loss_timeout_micros,
                    r.0@,
                    r.1@,
                    final(self).in_flight@,
                ),
    {
        let now = current_timestamp_micros();
        let r = self.on_ack_received_at(acked, now);
        r
    }
}

/// Extending the split prefix by one element appends that element to
/// exactly the bucket whose predicate holds of it.
proof fn lemma_ack_split_take_step(
    s: Seq<InFlightPacket>,
    i: int,
    acked: u64,
    largest: u64,
    now: u64,
    threshold: u64,
    timeout: u64,
)
    requires
        0 <= i < s.len(),
    ensures
        spec_delivered_of(s.take(i + 1), acked) == if spec_is_delivered(s[i], acked) {
            spec_delivered_of(s.take(i), acked).push(s[i])
        } else {
            spec_delivered_of(s.take(i), acked)
        },
        spec_lost_of(s.take(i + 1), acked, largest, now, threshold, timeout) == if spec_is_lost(
            s[i],
            acked,
            largest,
            now,
            threshold,
            timeout,
        ) {
            spec_lost_of(s.take(i), acked, largest, now, threshold, timeout).push(s[i])
        } else {
            spec_lost_of(s.take(i), acked, largest, now, threshold, timeout)
        },
        spec_retained_of(s.take(i + 1), acked, largest, now, threshold, timeout)
            == if spec_is_retained(s[i], acked, largest, now, threshold, timeout) {
            spec_retained_of(s.take(i), acked, largest, now, threshold, timeout).push(s[i])
        } else {
            spec_retained_of(s.take(i), acked, largest, now, threshold, timeout)
        },
{
    let t = s.take(i + 1);
    assert(t.drop_last() =~= s.take(i));
    assert(t.last() == s[i]);
}

/// An element of one of the split buckets is an element of the sequence and
/// meets the bucket's predicate.
proof fn lemma_ack_split_subset(
    s: Seq<InFlightPacket>,
    acked: u64,
    largest: u64,
    now: u64,
    threshold: u64,
    timeout: u64,
)
    ensures
        forall|p: InFlightPacket| #[trigger]
            spec_delivered_of(s, acked).contains(p) ==> s.contains(p) && spec_is_delivered(
                p,
                acked,
            ),
        forall|p: InFlightPacket| #[trigger]
            spec_lost_of(s, acked, largest, now, threshold, timeout).contains(p) ==> s.contains(p)
                && spec_is_lost(p, acked, largest, now, threshold, timeout),
        forall|p: InFlightPacket| #[trigger]
            spec_retained_of(s, acked, largest, now, threshold, timeout).contains(p) ==> s.contains(
                p,
            ) && spec_is_retained(p, acked, largest, now, threshold, timeout),
    decreases s.len(),
{
    if s.len() > 0 {
        lemma_ack_split_subset(s.drop_last(), acked, largest, now, threshold, timeout);
        assert forall|p: InFlightPacket| #[trigger]
            spec_delivered_of(s, acked).contains(p) implies s.contains(p) && spec_is_delivered(
            p,
            acked,
        ) by {
            if spec_delivered_of(s.drop_last(), acked).contains(p) {
                let j = choose|j: int| 0 <= j < s.drop_last().len() && s.drop_last()[j] == p;
                assert(s[j] == p);
            } else {
                assert(p == s.last());
                assert(s[s.len() - 1] == p);
            }
        }
        assert forall|p: InFlightPacket| #[trigger]
            spec_lost_of(s, acked, largest, now, threshold, timeout).contains(
            p,
        ) implies s.contains(p) && spec_is_lost(p, acked, largest, now, threshold, timeout) by {
            if spec_lost_of(s.drop_last(), acked, largest, now, threshold, timeout).contains(p) {
                let j = choose|j: int| 0 <= j < s.drop_last().len() && s.drop_last()[j] == p;
                assert(s[j] == p);
            } else {
                assert(p == s.last());
                assert(s[s.len() - 1] == p);
            }
        }
        assert forall|p: InFlightPacket| #[trigger]
            spec_retained_of(s, acked, largest, now, threshold, timeout).contains(
            p,
        ) implies s.contains(p) && spec_is_retained(p, acked, largest, now, threshold, timeout) by {
            if spec_retained_of(s.drop_last(), acked, largest, now, threshold, timeout).contains(
                p,
            ) {
                let j = choose|j: int| 0 <= j < s.drop_last().len() && s.drop_last()[j] == p;
                assert(s[j] == p);
            } else {
                assert(p == s.last());
                assert(s[s.len() - 1] == p);
            }
        }
    }
}

/// An element of the sequence lands in the bucket whose predicate it meets.
proof fn lemma_ack_split_complete(
    s: Seq<InFlightPacket>,
    acked: u64,
    largest: u64,
    now: u64,
    threshold: u64,
    timeout: u64,
)
    ensures
        forall|i: int|
            0 <= i < s.len() && spec_is_delivered(s[i], acked) ==> #[trigger] spec_delivered_of(
                s,
                acked,
            ).contains(s[i]),
        forall|i: int|
            0 <= i < s.len() && spec_is_lost(s[i], acked, largest, now, threshold, timeout)
                ==> #[trigger] spec_lost_of(s, acked, largest, now, threshold, timeout).contains(
                s[i],
            ),
        forall|i: int|
            0 <= i < s.len() && spec_is_retained(s[i], acked, largest, now, threshold, timeout)
                ==> #[trigger] spec_retained_of(
                s,
                acked,
                largest,
                now,
                threshold,
                timeout,
            ).contains(s[i]),
    decreases s.len(),
{
    if s.len() > 0 {
        lemma_ack_split_complete(s.drop_last(), acked, largest, now, threshold, timeout);
        assert forall|i: int|
            0 <= i < s.len() && spec_is_delivered(s[i], acked) implies #[trigger] spec_delivered_of(
            s,
            acked,
        ).contains(s[i]) by {
            if i < s.len() - 1 {
                assert(s.drop_last()[i] == s[i]);
                assert(spec_delivered_of(s.drop_last(), acked).contains(s[i]));
                let j = choose|j: int|
                    0 <= j < spec_delivered_of(s.drop_last(), acked).len() && spec_delivered_of(
                        s.drop_last(),
                        acked,
                    )[j] == s[i];
                if spec_is_delivered(s.last(), acked) {
                    assert(spec_delivered_of(s, acked)[j] == s[i]);
                }
            } else {
                assert(s[i] == s.last());
                let d = spec_delivered_of(s, acked);
                assert(d.last() == s.last());
            }
        }
        assert forall|i: int|
            0 <= i < s.len() && spec_is_lost(s[i], acked, largest, now, threshold, timeout)
                implies #[trigger] spec_lost_of(s, acked, largest, now, threshold, timeout).contains(
            s[i],
        ) by {
            if i < s.len() - 1 {
                assert(s.drop_last()[i] == s[i]);
                assert(spec_lost_of(s.drop_last(), acked, largest, now, threshold, timeout)
                    .contains(s[i]));
                let j = choose|j: int|
                    0 <= j < spec_lost_of(
                        s.drop_last(),
                        acked,
                        largest,
                        now,
                        threshold,
                        timeout,
                    ).len() && spec_lost_of(
                        s.drop_last(),
                        acked,
                        largest,
                        now,
                        threshold,
                        timeout,
                    )[j] == s[i];
                if spec_is_lost(s.last(), acked, largest, now, threshold, timeout) {
                    assert(spec_lost_of(s, acked, largest, now, threshold, timeout)[j] == s[i]);
                }
            } else {
                assert(s[i] == s.last());
                let d = spec_lost_of(s, acked, largest, now, threshold, timeout);
                assert(d.last() == s.last());
            }
        }
        assert forall|i: int|
            0 <= i < s.len() && spec_is_retained(s[i], acked, largest, now, threshold, timeout)
                implies #[trigger] spec_retained_of(
            s,
            acked,
            largest,
            now,
            threshold,
            timeout,
        ).contains(s[i]) by {
            if i < s.len() - 1 {
                assert(s.drop_last()[i] == s[i]);
                assert(spec_retained_of(s.drop_last(), acked, largest, now, threshold, timeout)
                    .contains(s[i]));
                let j = choose|j: int|
                    0 <= j < spec_retained_of(
                        s.drop_last(),
                        acked,
                        largest,
                        now,
                        threshold,
                        timeout,
                    ).len() && spec_retained_of(
                        s.drop_last(),
                        acked,
                        largest,
                        now,
                        threshold,
                        timeout,
                    )[j] == s[i];
                if spec_is_retained(s.last(), acked, largest, now, threshold, timeout) {
                    assert(spec_retained_of(s, acked, largest, now, threshold, timeout)[j] == s[i]);
                }
            } else {
                assert(s[i] == s.last());
                let d = spec_retained_of(s, acked, largest, now, threshold, timeout);
                assert(d.last() == s.last());
            }
        }
    }
}

/// Every packet of the FIFO lands in exactly one bucket, so the three
/// bucket sizes sum to the FIFO's size.
pub proof fn lemma_ack_split_lens(
    s: Seq<InFlightPacket>,
    acked: u64,
    largest: u64,
    now: u64,
    threshold: u64,
    timeout: u64,
)
    ensures
        spec_delivered_of(s, acked).len() + spec_lost_of(
            s,
            acked,
            largest,
            now,
            threshold,
            timeout,
        ).len() + spec_retained_of(s, acked, largest, now, threshold, timeout).len() == s.len(),
    decreases s.len(),
{
    if s.len() > 0 {
        lemma_ack_split_lens(s.drop_last(), acked, largest, now, threshold, timeout);
    }
}

/// Loss recovery partitions the previous in-flight FIFO: delivered and lost
/// packets both come from it and never overlap; a packet is delivered iff
/// its number is at most the ACK value; a packet of the FIFO is lost iff it
/// is not delivered and either the updated largest acknowledged number is at
/// least the loss threshold above it or it timed out; everything else is
/// retained.
pub proof fn lemma_loss_recovery_partition(
    pre: Seq<InFlightPacket>,
    acked: u64,
    largest: u64,
    now: u64,
    threshold: u64,
    timeout: u64,
    delivered: Seq<InFlightPacket>,
    lost: Seq<InFlightPacket>,
    retained: Seq<InFlightPacket>,
)
    requires
        spec_ack_outcome(pre, acked, largest, now, threshold, timeout, delivered, lost, retained),
    ensures
        forall|p: InFlightPacket| #[trigger]
            delivered.contains(p) ==> pre.contains(p) && spec_is_delivered(p, acked),
        forall|p: InFlightPacket| #[trigger]
            lost.contains(p) ==> pre.contains(p) && spec_is_lost(
                p,
                acked,
                largest,
                now,
                threshold,
                timeout,
            ),
        forall|p: InFlightPacket| #[trigger]
            retained.contains(p) ==> pre.contains(p) && spec_is_retained(
                p,
                acked,
                largest,
                now,
                threshold,
                timeout,
            ),
        forall|p: InFlightPacket| #[trigger] delivered.contains(p) ==> !lost.contains(p),
        forall|i: int|
            0 <= i < pre.len() && spec_is_delivered(pre[i], acked) ==> #[trigger] delivered.contains(
                pre[i],
            ),
        forall|i: int|
            0 <= i < pre.len() && spec_is_lost(pre[i], acked, largest, now, threshold, timeout)
                ==> #[trigger] lost.contains(pre[i]),
        forall|i: int|
            0 <= i < pre.len() && spec_is_retained(pre[i], acked, largest, now, threshold, timeout)
                ==> #[trigger] retained.contains(pre[i]),
{
    lemma_ack_split_subset(pre, acked, largest, now, threshold, timeout);
    lemma_ack_split_complete(pre, acked, largest, now, threshold, timeout);
}

} // verus!
