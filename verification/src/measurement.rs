//! Per-operation measurements and the error taxonomy: a throughput
//! measurement is either a success carrying bytes and a duration, or a
//! failure carrying an error, a duration and a retry count.
//!
//! Durations are microseconds; rates derived from them are exact integer
//! arithmetic, saturated to the result type where the mathematical value
//! does not fit.

use vstd::prelude::*;

verus! {

/// The closed kinds of transfer errors.
#[derive(Debug, Clone, Copy, PartialEq, Eq, Hash, Structural)]
pub enum ErrorKind {
    /// Transport setup failed: DNS, connect, TLS handshake.
    ConnectionFailed,
    /// Mid-transfer failure.
    TransferFailed,
    /// An operation exceeded its deadline.
    Timeout,
    /// Catch-all preserving the source description.
    Unknown,
}

/// A transfer error: a closed kind carrying a message.
#[derive(Debug, Clone, PartialEq, Eq)]
pub enum ConnectionError {
    ConnectionFailed(String),
    TransferFailed(String),
    Timeout(String),
    Unknown(String),
}

/// The kind of an error value.
pub open spec fn spec_error_kind(e: ConnectionError) -> ErrorKind {
    match e {
        ConnectionError::ConnectionFailed(_) => ErrorKind::ConnectionFailed,
        ConnectionError::TransferFailed(_) => ErrorKind::TransferFailed,
        ConnectionError::Timeout(_) => ErrorKind::Timeout,
        ConnectionError::Unknown(_) => ErrorKind::Unknown,
    }
}

impl ConnectionError {
    /// The kind of this error.
    pub fn kind(&self) -> (k: ErrorKind)
        ensures
            k == spec_error_kind(*self),
    {
        match self {
            ConnectionError::ConnectionFailed(_) => ErrorKind::ConnectionFailed,
            ConnectionError::TransferFailed(_) => ErrorKind::TransferFailed,
            ConnectionError::Timeout(_) => ErrorKind::Timeout,
            ConnectionError::Unknown(_) => ErrorKind::Unknown,
        }
    }

    /// The message the error carries.
    pub fn message(&self) -> (m: &String)
        ensures
            *self matches ConnectionError::ConnectionFailed(s) ==> m@ == s@,
            *self matches ConnectionError::TransferFailed(s) ==> m@ == s@,
            *self matches ConnectionError::Timeout(s) ==> m@ == s@,
            *self matches ConnectionError::Unknown(s) ==> m@ == s@,
    {
        match self {
            ConnectionError::ConnectionFailed(s) => s,
            ConnectionError::TransferFailed(s) => s,
            ConnectionError::Timeout(s) => s,
            ConnectionError::Unknown(s) => s,
        }
    }
}

/// One throughput observation: a successful transfer or a failure.
#[derive(Debug, Clone, PartialEq, Eq)]
pub enum ThroughputMeasurement {
    Success {
        /// Bytes transferred.
        bytes: u64,
        /// Time the transfer took, microseconds.
        duration_micros: u64,
    },
    Failure {
        /// What went wrong.
        error: ConnectionError,
        /// Time until the failure, microseconds.
        duration_micros: u64,
        /// Retry attempts made before giving up.
        retry_count: u32,
    },
}

/// The bytes a measurement contributes to a total: its payload on success,
/// 0 on failure.
pub open spec fn spec_measured_bytes(m: ThroughputMeasurement) -> u64 {
    match m {
        ThroughputMeasurement::Success { bytes, .. } => bytes,
        ThroughputMeasurement::Failure { .. } => 0,
    }
}

/// Whether a measurement is a success.
pub open spec fn spec_is_success(m: ThroughputMeasurement) -> bool {
    m is Success
}

/// Throughput of one measurement in bits per second: eight times the bytes
/// over the duration in seconds, 0 for failures and zero durations,
/// saturated to `u64::MAX`.
pub open spec fn spec_throughput_bps(m: ThroughputMeasurement) -> u64 {
    match m {
        ThroughputMeasurement::Success { bytes, duration_micros } => {
            if duration_micros == 0 {
                0
            } else if bytes * 8_000_000 / (duration_micros as int) > u64::MAX {
                u64::MAX
            } else {
                (bytes * 8_000_000 / (duration_micros as int)) as u64
            }
        },
        ThroughputMeasurement::Failure { .. } => 0,
    }
}

impl ThroughputMeasurement {
    /// A successful transfer of `bytes` bytes in `duration_micros`
    /// microseconds.
    pub fn new(bytes: u64, duration_micros: u64) -> (m: ThroughputMeasurement)
        ensures
            m == (ThroughputMeasurement::Success { bytes, duration_micros }),
    {
        ThroughputMeasurement::Success { bytes, duration_micros }
    }

    /// A failure after `duration_micros` microseconds and `retry_count`
    /// retries.
    pub fn new_error(error: ConnectionError, duration_micros: u64, retry_count: u32) -> (
        m: ThroughputMeasurement)
        ensures
            m == (ThroughputMeasurement::Failure { error, duration_micros, retry_count }),
    {
        ThroughputMeasurement::Failure { error, duration_micros, retry_count }
    }

    /// Throughput in bits per second; 0 for failures and zero durations.
    pub fn throughput_bps(&self) -> (r: u64)
        ensures
            r == spec_throughput_bps(*self),
    {
        match self {
            ThroughputMeasurement::Success { bytes, duration_micros } => {
                if *duration_micros == 0 {
                    0
                } else {
                    crate::congestion::mul_div_sat(*bytes, 8_000_000, *duration_micros)
                }
            },
            ThroughputMeasurement::Failure { .. } => 0,
        }
    }
}

} // verus!
