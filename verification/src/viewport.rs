use vstd::prelude::*;

verus! {

/// Margin added above a newly observed sequence number.
pub const SEQUENCE_HEADROOM: u64 = 5;

/// Margin added above a newly observed latency, in microseconds (5 ms).
pub const LATENCY_HEADROOM_US: u64 = 5000;

/// Sequence-number bound a fresh viewport starts with.
pub const INITIAL_MAX_SEQUENCE: u64 = 100;

/// Latency bound a fresh viewport starts with, in microseconds (10 ms).
pub const INITIAL_MAX_LATENCY_US: u64 = 10000;

/// The bound that results from holding `current` against an observed
/// `value`: unchanged while `value` stays below it, and pushed to
/// `value + headroom` (clamped to `u64::MAX`) once `value` reaches it.
pub open spec fn bumped(current: u64, value: u64, headroom: u64) -> u64 {
    if value >= current {
        if value + headroom <= u64::MAX {
            (value + headroom) as u64
        } else {
            u64::MAX
        }
    } else {
        current
    }
}

/// Growing axis bounds for the rendered chart: the largest sequence number
/// and the largest latency to display, each kept with a fixed headroom
/// margin. Bounds only ever grow within a session, so the chart scale
/// never jitters.
pub struct Viewport {
    pub max_sequence_number: u64,
    pub max_latency_us: u64,
}

impl Viewport {
    pub fn new() -> (v: Viewport)
        ensures
            v.max_sequence_number == INITIAL_MAX_SEQUENCE,
            v.max_latency_us == INITIAL_MAX_LATENCY_US,
    {
        Viewport { max_sequence_number: INITIAL_MAX_SEQUENCE, max_latency_us: INITIAL_MAX_LATENCY_US }
    }

    /// Grow the bounds to cover a newly observed event: a sequence number,
    /// and the reported latency if the event carried one. Each bound is
    /// exactly `bumped` of its old value, and in particular never shrinks.
    pub fn observe(&mut self, sequence_number: usize, latency_us: Option<u64>)
        ensures
            final(self).max_sequence_number == bumped(
                old(self).max_sequence_number,
                sequence_number as u64,
                SEQUENCE_HEADROOM,
            ),
            final(self).max_latency_us == (match latency_us {
                Some(l) => bumped(old(self).max_latency_us, l, LATENCY_HEADROOM_US),
                None => old(self).max_latency_us,
            }),
            final(self).max_sequence_number >= old(self).max_sequence_number,
            final(self).max_latency_us >= old(self).max_latency_us,
    {
        let s = sequence_number as u64;
        if s >= self.max_sequence_number {
            self.max_sequence_number = if s <= u64::MAX - SEQUENCE_HEADROOM {
                s + SEQUENCE_HEADROOM
            } else {
                u64::MAX
            };
        }
        match latency_us {
            Some(l) => {
                if l >= self.max_latency_us {
                    self.max_latency_us = if l <= u64::MAX - LATENCY_HEADROOM_US {
                        l + LATENCY_HEADROOM_US
                    } else {
                        u64::MAX
                    };
                }
            },
            None => {},
        }
    }

    /// The current axis bounds: `(max sequence number, max latency in us)`.
    pub fn bounds(&self) -> (b: (u64, u64))
        ensures
            b.0 == self.max_sequence_number,
            b.1 == self.max_latency_us,
    {
        (self.max_sequence_number, self.max_latency_us)
    }
}

} // verus!
