//! The TCP test protocol's decision logic: the one-byte command that
//! selects a connection's role, the server's configuration, its metrics
//! and per-connection statistics, and the buffer decisions of both sides.
//! Times are microseconds unless named otherwise.

use vstd::prelude::*;

verus! {

/// Command byte requesting a download: the server streams.
pub const CMD_DOWNLOAD: u8 = 68;

/// Command byte requesting an upload: the client streams.
pub const CMD_UPLOAD: u8 = 85;

/// Byte pattern the download server fills its buffer with.
pub const FILL_PATTERN: u8 = 66;

/// Cap on the client's download read buffer, bytes.
pub const CLIENT_READ_BUFFER_CAP: usize = 8192;

/// The role a TCP connection runs after its command byte.
#[derive(Debug, Clone, Copy, PartialEq, Eq, Structural)]
pub enum TcpRole {
    /// The client streams to the server.
    Upload,
    /// The server streams to the client.
    Download,
}

/// Parse the command byte: an upload or download request, or a protocol
/// error closing the connection.
pub fn parse_command(b: u8) -> (r: Option<TcpRole>)
    ensures
        b == CMD_UPLOAD ==> r == Some(TcpRole::Upload),
        b == CMD_DOWNLOAD ==> r == Some(TcpRole::Download),
        (b != CMD_UPLOAD && b != CMD_DOWNLOAD) ==> r is None,
{
    if b == CMD_UPLOAD {
        Some(TcpRole::Upload)
    } else if b == CMD_DOWNLOAD {
        Some(TcpRole::Download)
    } else {
        None
    }
}

/// The client's download read-buffer length: the payload size, capped.
pub fn download_buffer_len(payload_size: usize) -> (r: usize)
    ensures
        r == if payload_size < CLIENT_READ_BUFFER_CAP {
            payload_size
        } else {
            CLIENT_READ_BUFFER_CAP
        },
{
    if payload_size < CLIENT_READ_BUFFER_CAP {
        payload_size
    } else {
        CLIENT_READ_BUFFER_CAP
    }
}

/// A buffer of `len` bytes of the download fill pattern.
pub fn fill_buffer(len: usize) -> (r: Vec<u8>)
    ensures
        r@.len() == len,
        forall|i: int| 0 <= i < len ==> #[trigger] r@[i] == FILL_PATTERN,
{
    let mut v: Vec<u8> = Vec::new();
    let mut i: usize = 0;
    while i < len
        invariant
            i <= len,
            v@.len() == i,
            forall|t: int| 0 <= t < i ==> #[trigger] v@[t] == FILL_PATTERN,
        decreases len - i,
    {
        v.push(FILL_PATTERN);
        i = i + 1;
    }
    v
}

/// Whether a connection has hit its optional byte cap.
pub fn reached_byte_cap(total_bytes: u64, cap: Option<u64>) -> (r: bool)
    ensures
        r == (cap matches Some(c) && total_bytes >= c),
{
    match cap {
        Some(c) => total_bytes >= c,
        None => false,
    }
}

/// The TCP server's tunables.
#[derive(Debug, Clone, PartialEq, Eq)]
pub struct TcpServerConfig {
    /// Cap on concurrent connections.
    pub max_connections: usize,
    /// Idle cutoff for a whole connection, seconds.
    pub connection_timeout_secs: u64,
    /// Cutoff for one read, seconds.
    pub read_timeout_secs: u64,
    /// Read and write buffer size, bytes.
    pub buffer_size: usize,
    /// How often progress is reported, seconds.
    pub report_interval_secs: u64,
    /// Bytes after which a connection is closed, if set.
    pub max_bytes_per_connection: Option<u64>,
}

impl Default for TcpServerConfig {
    /// The defaults: 1000 connections, 5-minute connection timeout,
    /// 30-second reads, a 128 KiB buffer, 5-second reports, and a 1 TB
    /// per-connection cap.
    fn default() -> (c: TcpServerConfig)
        ensures
            c.max_connections == 1000,
            c.connection_timeout_secs == 300,
            c.read_timeout_secs == 30,
            c.buffer_size == 131072,
            c.report_interval_secs == 5,
            c.max_bytes_per_connection == Some(1_000_000_000_000u64),
    {
        TcpServerConfig {
            max_connections: 1000,
            connection_timeout_secs: 300,
            read_timeout_secs: 30,
            buffer_size: 131072,
            report_interval_secs: 5,
            max_bytes_per_connection: Some(1_000_000_000_000),
        }
    }
}

/// Builder for a TCP server configuration.
#[derive(Debug, Clone, PartialEq, Eq)]
pub struct TcpServerBuilder {
    pub config: TcpServerConfig,
}

impl TcpServerBuilder {
    /// A builder holding the defaults.
    pub fn new() -> (b: TcpServerBuilder)
        ensures
            b.config.max_connections == 1000,
            b.config.connection_timeout_secs == 300,
            b.config.read_timeout_secs == 30,
            b.config.buffer_size == 131072,
            b.config.report_interval_secs == 5,
            b.config.max_bytes_per_connection == Some(1_000_000_000_000u64),
    {
        TcpServerBuilder { config: TcpServerConfig::default() }
    }

    /// Cap the number of concurrent connections.
    pub fn max_connections(self, max: usize) -> (b: TcpServerBuilder)
        ensures
            b.config == (TcpServerConfig { max_connections: max, ..self.config }),
    {
        TcpServerBuilder { config: TcpServerConfig { max_connections: max, ..self.config } }
    }

    /// Set the whole-connection idle cutoff, in seconds.
    pub fn connection_timeout_secs(self, secs: u64) -> (b: TcpServerBuilder)
        ensures
            b.config == (TcpServerConfig { connection_timeout_secs: secs, ..self.config }),
    {
        TcpServerBuilder {
            config: TcpServerConfig { connection_timeout_secs: secs, ..self.config },
        }
    }

    /// Set the per-read cutoff, in seconds.
    pub fn read_timeout_secs(self, secs: u64) -> (b: TcpServerBuilder)
        ensures
            b.config == (TcpServerConfig { read_timeout_secs: secs, ..self.config }),
    {
        TcpServerBuilder { config: TcpServerConfig { read_timeout_secs: secs, ..self.config } }
    }

    /// Set the buffer size, in bytes.
    pub fn buffer_size(self, size: usize) -> (b: TcpServerBuilder)
        ensures
            b.config == (TcpServerConfig { buffer_size: size, ..self.config }),
    {
        TcpServerBuilder { config: TcpServerConfig { buffer_size: size, ..self.config } }
    }

    /// Set the progress-report interval, in seconds.
    pub fn report_interval_secs(self, secs: u64) -> (b: TcpServerBuilder)
        ensures
            b.config == (TcpServerConfig { report_interval_secs: secs, ..self.config }),
    {
        TcpServerBuilder { config: TcpServerConfig { report_interval_secs: secs, ..self.config } }
    }

    /// Set or clear the per-connection byte cap.
    pub fn max_bytes_per_connection(self, max_bytes: Option<u64>) -> (b: TcpServerBuilder)
        ensures
            b.config == (TcpServerConfig { max_bytes_per_connection: max_bytes, ..self.config }),
    {
        TcpServerBuilder {
            config: TcpServerConfig { max_bytes_per_connection: max_bytes, ..self.config },
        }
    }

    /// The finished configuration.
    pub fn build(self) -> (c: TcpServerConfig)
        ensures
            c == self.config,
    {
        self.config
    }
}

/// The TCP server's counters.
#[derive(Debug, Clone, PartialEq, Eq)]
pub struct TcpServerMetrics {
    pub total_connections: u64,
    pub active_connections: u64,
    pub total_bytes_received: u64,
    pub total_bytes_sent: u64,
    pub connection_errors: u64,
}

impl TcpServerMetrics {
    /// All counters at zero.
    pub fn new() -> (m: TcpServerMetrics)
        ensures
            m.total_connections == 0,
            m.active_connections == 0,
            m.total_bytes_received == 0,
            m.total_bytes_sent == 0,
            m.connection_errors == 0,
    {
        TcpServerMetrics {
            total_connections: 0,
            active_connections: 0,
            total_bytes_received: 0,
            total_bytes_sent: 0,
            connection_errors: 0,
        }
    }

    /// Count an accepted connection.
    pub fn record_connection(&mut self)
        ensures
            final(self).total_connections == crate::pacing::spec_sat_add(
                old(self).total_connections,
                1,
            ),
            final(self).active_connections == crate::pacing::spec_sat_add(
                old(self).active_connections,
                1,
            ),
            final(self).total_bytes_received == old(self).total_bytes_received,
            final(self).total_bytes_sent == old(self).total_bytes_sent,
            final(self).connection_errors == old(self).connection_errors,
    {
        self.total_connections = crate::pacing::sat_add(self.total_connections, 1);
        self.active_connections = crate::pacing::sat_add(self.active_connections, 1);
    }

    /// Count a closed connection.
    pub fn record_disconnect(&mut self)
        ensures
            final(self).active_connections == if old(self).active_connections > 0 {
                (old(self).active_connections - 1) as u64
            } else {
                0
            },
            final(self).total_connections == old(self).total_connections,
            final(self).total_bytes_received == old(self).total_bytes_received,
            final(self).total_bytes_sent == old(self).total_bytes_sent,
            final(self).connection_errors == old(self).connection_errors,
    {
        if self.active_connections > 0 {
            self.active_connections = self.active_connections - 1;
        }
    }

    /// Count received bytes.
    pub fn record_bytes_received(&mut self, n: u64)
        ensures
            final(self).total_bytes_received == crate::pacing::spec_sat_add(
                old(self).total_bytes_received,
                n,
            ),
            final(self).total_connections == old(self).total_connections,
            final(self).active_connections == old(self).active_connections,
            final(self).total_bytes_sent == old(self).total_bytes_sent,
            final(self).connection_errors == old(self).connection_errors,
    {
        self.total_bytes_received = crate::pacing::sat_add(self.total_bytes_received, n);
    }

    /// Count sent bytes.
    pub fn record_bytes_sent(&mut self, n: u64)
        ensures
            final(self).total_bytes_sent == crate::pacing::spec_sat_add(
                old(self).total_bytes_sent,
                n,
            ),
            final(self).total_connections == old(self).total_connections,
            final(self).active_connections == old(self).active_connections,
            final(self).total_bytes_received == old(self).total_bytes_received,
            final(self).connection_errors == old(self).connection_errors,
    {
        self.total_bytes_sent = crate::pacing::sat_add(self.total_bytes_sent, n);
    }

    /// Count a per-connection error.
    pub fn record_error(&mut self)
        ensures
            final(self).connection_errors == crate::pacing::spec_sat_add(
                old(self).connection_errors,
                1,
            ),
            final(self).total_connections == old(self).total_connections,
            final(self).active_connections == old(self).active_connections,
            final(self).total_bytes_received == old(self).total_bytes_received,
            final(self).total_bytes_sent == old(self).total_bytes_sent,
    {
        self.connection_errors = crate::pacing::sat_add(self.connection_errors, 1);
    }
}

/// Per-connection statistics, judged against clock readings the caller
/// passes in.
#[derive(Debug, Clone, PartialEq, Eq)]
pub struct ConnectionStats {
    pub total_bytes: u64,
    /// When the connection began.
    pub start_time_micros: u64,
    /// When progress was last reported.
    pub last_report_micros: u64,
    /// When bytes last moved.
    pub last_activity_micros: u64,
}

impl ConnectionStats {
    /// Fresh statistics for a connection that began at `now`.
    pub fn new(now: u64) -> (s: ConnectionStats)
        ensures
            s.total_bytes == 0,
            s.start_time_micros == now,
            s.last_report_micros == now,
            s.last_activity_micros == now,
    {
        ConnectionStats {
            total_bytes: 0,
            start_time_micros: now,
            last_report_micros: now,
            last_activity_micros: now,
        }
    }

    /// Count moved bytes and mark the connection active at `now`.
    pub fn add_bytes(&mut self, bytes: u64, now: u64)
        ensures
            final(self).total_bytes == crate::pacing::spec_sat_add(old(self).total_bytes, bytes),
            final(self).last_activity_micros == now,
            final(self).start_time_micros == old(self).start_time_micros,
            final(self).last_report_micros == old(self).last_report_micros,
    {
        self.total_bytes = crate::pacing::sat_add(self.total_bytes, bytes);
        self.last_activity_micros = now;
    }

    /// Whether a report is due at `now`; a due report resets the report
    /// clock.
    pub fn should_report(&mut self, report_interval_micros: u64, now: u64) -> (r: bool)
        ensures
            r == (crate::congestion::spec_elapsed(now, old(self).last_report_micros)
                >= report_interval_micros),
            r ==> final(self).last_report_micros == now,
            !r ==> final(self).last_report_micros == old(self).last_report_micros,
            final(self).total_bytes == old(self).total_bytes,
            final(self).start_time_micros == old(self).start_time_micros,
            final(self).last_activity_micros == old(self).last_activity_micros,
    {
        if crate::congestion::elapsed_micros(now, self.last_report_micros)
            >= report_interval_micros {
            self.last_report_micros = now;
            true
        } else {
            false
        }
    }

    /// Whether the connection has been idle past `timeout` at `now`.
    pub fn is_idle(&self, timeout_micros: u64, now: u64) -> (r: bool)
        ensures
            r == (crate::congestion::spec_elapsed(now, self.last_activity_micros)
                > timeout_micros),
    {
        crate::congestion::elapsed_micros(now, self.last_activity_micros) > timeout_micros
    }

    /// The byte total, the elapsed time at `now`, and the throughput in
    /// bytes per second those imply.
    pub fn get_summary(&self, now: u64) -> (r: (u64, u64, u64))
        ensures
            r.0 == self.total_bytes,
            r.1 == crate::congestion::spec_elapsed(now, self.start_time_micros),
            r.2 == if r.1 == 0 {
                0
            } else {
                crate::congestion::spec_mul_div(self.total_bytes, 1_000_000, r.1)
            },
    {
        let elapsed = crate::congestion::elapsed_micros(now, self.start_time_micros);
        let bps = if elapsed == 0 {
            0
        } else {
            crate::congestion::mul_div_sat(self.total_bytes, 1_000_000, elapsed)
        };
        (self.total_bytes, elapsed, bps)
    }
}

} // verus!
