use vstd::prelude::*;

use crate::parse::{parse_line, parse_spec, lemma_parsed_event_fits};
use crate::probe::{Parsed, ParseError, ProbeEvent};
use crate::series::{recorded, update_for, SeriesStore};
use crate::viewport::{bumped, Viewport, LATENCY_HEADROOM_US, SEQUENCE_HEADROOM};

verus! {

/// Where a session stands. A session is created `Running`, right after
/// the probe process was successfully spawned; it starts `Draining` once
/// the stream has ended, and `Terminated` once termination was requested.
/// No transition leaves `Terminated`.
#[derive(Clone, Copy, Debug, PartialEq, Eq, Structural)]
pub enum Phase {
    Running,
    Draining,
    Terminated,
}

/// What one offered line did to the session.
#[derive(Clone, Copy, Debug, PartialEq, Eq, Structural)]
pub enum Consumed {
    /// The line was a probe report and was recorded.
    Recorded(ProbeEvent),
    /// The line could not be decoded; it was counted and skipped.
    Skipped(ParseError),
    /// The line announced the end of the stream.
    Finished,
    /// The session is no longer running; the line was not looked at.
    Ignored,
}

/// The latency an event offers to the viewport: a reply carries one, a
/// timeout notice does not.
pub open spec fn observed_latency(e: ProbeEvent) -> Option<u64> {
    match e {
        ProbeEvent::Received { latency_us, .. } => Some(latency_us),
        ProbeEvent::Dropped { .. } => None,
    }
}

/// The sequence number an event reports on, as the machine value it
/// carries.
pub open spec fn observed_sequence(e: ProbeEvent) -> usize {
    match e {
        ProbeEvent::Received { sequence_number, .. } => sequence_number,
        ProbeEvent::Dropped { sequence_number } => sequence_number,
    }
}

/// One probe session: the two series, the chart bounds, the phase of the
/// stream, and a count of lines that could not be decoded. Owned by the
/// main loop and mutated only by feeding it lines, one at a time.
pub struct Session {
    pub store: SeriesStore,
    pub viewport: Viewport,
    pub phase: Phase,
    pub parse_errors: u64,
}

impl Session {
    /// A fresh session, created at the moment the probe process starts:
    /// both series empty, initial chart bounds, running, no errors seen.
    pub fn new() -> (s: Session)
        ensures
            s.store.received@.len() == 0,
            s.store.dropped@.len() == 0,
            s.viewport.max_sequence_number == crate::viewport::INITIAL_MAX_SEQUENCE,
            s.viewport.max_latency_us == crate::viewport::INITIAL_MAX_LATENCY_US,
            s.phase == Phase::Running,
            s.parse_errors == 0,
    {
        Session {
            store: SeriesStore::new(),
            viewport: Viewport::new(),
            phase: Phase::Running,
            parse_errors: 0,
        }
    }

    /// Feed one raw line of probe output to the session.
    ///
    /// While running, the line's meaning under the grammar decides: an
    /// event is recorded into its series and grows the viewport; the
    /// end-of-stream marker moves the session to `Draining`; an
    /// undecodable line is counted and skipped, and the session carries
    /// on. Outside `Running` the line is ignored whole.
    pub fn consume_line(&mut self, line: &[u8]) -> (c: Consumed)
        ensures
            old(self).phase != Phase::Running ==> *final(self) == *old(self) && c
                == Consumed::Ignored,
            old(self).phase == Phase::Running ==> match parse_spec(line@) {
                Ok(Parsed::EndOfStream) => {
                    &&& c == Consumed::Finished
                    &&& final(self).phase == Phase::Draining
                    &&& final(self).store == old(self).store
                    &&& final(self).viewport == old(self).viewport
                    &&& final(self).parse_errors == old(self).parse_errors
                },
                Ok(Parsed::Event(e)) => {
                    &&& c == Consumed::Recorded(e)
                    &&& final(self).phase == Phase::Running
                    &&& final(self).parse_errors == old(self).parse_errors
                    &&& final(self).store.received@ == (match update_for(e, false) {
                        Some(u) => recorded(old(self).store.received@, u.0 as int, u.1),
                        None => old(self).store.received@,
                    })
                    &&& final(self).store.dropped@ == (match update_for(e, true) {
                        Some(u) => recorded(old(self).store.dropped@, u.0 as int, u.1),
                        None => old(self).store.dropped@,
                    })
                    &&& final(self).viewport.max_sequence_number == bumped(
                        old(self).viewport.max_sequence_number,
                        observed_sequence(e) as u64,
                        SEQUENCE_HEADROOM,
                    )
                    &&& final(self).viewport.max_latency_us == (match observed_latency(e) {
                        Some(l) => bumped(old(self).viewport.max_latency_us, l, LATENCY_HEADROOM_US),
                        None => old(self).viewport.max_latency_us,
                    })
                },
                Err(err) => {
                    &&& c == Consumed::Skipped(err)
                    &&& final(self).phase == Phase::Running
                    &&& final(self).store == old(self).store
                    &&& final(self).viewport == old(self).viewport
                    &&& final(self).parse_errors == (if old(self).parse_errors < u64::MAX {
                        (old(self).parse_errors + 1) as u64
                    } else {
                        u64::MAX
                    })
                },
            },
    {
        match self.phase {
            Phase::Running => {},
            _ => {
                return Consumed::Ignored;
            },
        }
        match parse_line(line) {
            Ok(Parsed::EndOfStream) => {
                self.phase = Phase::Draining;
                Consumed::Finished
            },
            Ok(Parsed::Event(e)) => {
                proof {
                    lemma_parsed_event_fits(line@);
                }
                match e {
                    ProbeEvent::Received { sequence_number, latency_us } => {
                        self.viewport.observe(sequence_number, Some(latency_us));
                    },
                    ProbeEvent::Dropped { sequence_number } => {
                        self.viewport.observe(sequence_number, None);
                    },
                }
                self.store.record(e);
                Consumed::Recorded(e)
            },
            Err(err) => {
                if self.parse_errors < u64::MAX {
                    self.parse_errors = self.parse_errors + 1;
                }
                Consumed::Skipped(err)
            },
        }
    }

    /// Request termination. Safe to call in any phase and idempotent:
    /// the session ends `Terminated` and nothing else changes.
    pub fn terminate(&mut self)
        ensures
            final(self).phase == Phase::Terminated,
            final(self).store == old(self).store,
            final(self).viewport == old(self).viewport,
            final(self).parse_errors == old(self).parse_errors,
    {
        self.phase = Phase::Terminated;
    }
}

} // verus!
