use vstd::prelude::*;

verus! {

/// One parsed outcome of a single echo request: either a reply with its
/// round-trip latency, or a timeout notice.
///
/// `latency_us` is the round-trip time in microseconds. The probe tool
/// reports latencies in milliseconds with a short decimal fraction, so an
/// integer count of microseconds represents every reported value exactly
/// (fractional digits past the third are truncated).
#[derive(Clone, Copy, Debug, PartialEq, Eq, Structural)]
pub enum ProbeEvent {
    Received { sequence_number: usize, latency_us: u64 },
    Dropped { sequence_number: usize },
}

impl ProbeEvent {
    /// The probe index the event reports on.
    pub open spec fn index(self) -> nat {
        match self {
            ProbeEvent::Received { sequence_number, .. } => sequence_number as nat,
            ProbeEvent::Dropped { sequence_number } => sequence_number as nat,
        }
    }
}

/// Why a line could not be decoded into a `ProbeEvent`. Every variant is
/// recoverable: the line is skipped and the session continues.
#[derive(Clone, Copy, Debug, PartialEq, Eq, Structural)]
pub enum ParseError {
    /// A sequence-number token was present but is not a decimal number in
    /// the supported range.
    BadSequenceNumber,
    /// A latency token was present but is not a decimal number in the
    /// supported range.
    BadLatency,
    /// The line is neither a timeout notice nor carries an `icmp_seq=`
    /// token, so it is not a probe report at all.
    MissingSequenceToken,
}

/// What one successfully decoded line of probe output means.
#[derive(Clone, Copy, Debug, PartialEq, Eq, Structural)]
pub enum Parsed {
    /// A probe report.
    Event(ProbeEvent),
    /// The trailing statistics block has begun: no further lines follow.
    EndOfStream,
}

} // verus!
