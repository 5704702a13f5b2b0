use vstd::prelude::*;

use crate::probe::ProbeEvent;

verus! {

/// One position of a series: either no sample has been observed at this
/// index yet, or a latency in microseconds was. A renderer maps `Missing`
/// to the out-of-range sentinel `-1.0` (valid latencies are non-negative),
/// which keeps the series dense for a consumer that expects numeric pairs.
#[derive(Clone, Copy, Debug, PartialEq, Eq, Structural)]
pub enum Sample {
    Missing,
    Observed(u64),
}

/// The series that results from storing latency `v` at position `i` of
/// `s`: the length grows to `i + 1` if `s` was shorter (never shrinks),
/// position `i` holds `Observed(v)`, positions newly created by the growth
/// hold `Missing`, and every other position keeps its old value.
pub open spec fn recorded(s: Seq<Sample>, i: int, v: u64) -> Seq<Sample> {
    let n = if i + 1 > s.len() {
        i + 1
    } else {
        s.len() as int
    };
    Seq::new(
        n as nat,
        |j: int|
            if j == i {
                Sample::Observed(v)
            } else if 0 <= j < s.len() {
                s[j]
            } else {
                Sample::Missing
            },
    )
}

/// Two independent sparse, gap-filled series indexed by sequence number:
/// one for received replies, one for dropped probes. Position `i` of a
/// series always corresponds to sequence number `i`.
pub struct SeriesStore {
    pub received: Vec<Sample>,
    pub dropped: Vec<Sample>,
}

/// Extend `series` with `Missing` up to length `index + 1` if it is
/// shorter, then overwrite position `index` with the observed latency.
fn record_into(series: &mut Vec<Sample>, index: usize, latency_us: u64)
    requires
        index < usize::MAX,
    ensures
        final(series)@ == recorded(old(series)@, index as int, latency_us),
{
    while series.len() < index + 1
        invariant
            index < usize::MAX,
            series@.len() >= old(series)@.len(),
            series@.len() <= (if old(series)@.len() > index + 1 {
                old(series)@.len() as int
            } else {
                index + 1
            }),
            forall|j: int| 0 <= j < old(series)@.len() ==> series@[j] == old(series)@[j],
            forall|j: int|
                old(series)@.len() <= j < series@.len() ==> series@[j] == Sample::Missing,
        decreases index + 1 - series@.len(),
    {
        series.push(Sample::Missing);
    }
    series[index] = Sample::Observed(latency_us);
    proof {
        assert(series@ =~= recorded(old(series)@, index as int, latency_us));
    }
}

/// Copy a series for a read-only snapshot.
fn copy_samples(series: &Vec<Sample>) -> (r: Vec<Sample>)
    ensures
        r@ == series@,
{
    let mut r: Vec<Sample> = Vec::new();
    let mut i: usize = 0;
    while i < series.len()
        invariant
            i <= series@.len(),
            r@ == series@.take(i as int),
        decreases series@.len() - i,
    {
        r.push(series[i]);
        proof {
            assert(r@ =~= series@.take(i + 1));
        }
        i = i + 1;
    }
    proof {
        assert(series@.take(series@.len() as int) =~= series@);
    }
    r
}

impl SeriesStore {
    /// A store with both series empty: no probe has been observed yet.
    pub fn new() -> (s: SeriesStore)
        ensures
            s.received@ == Seq::<Sample>::empty(),
            s.dropped@ == Seq::<Sample>::empty(),
    {
        SeriesStore { received: Vec::new(), dropped: Vec::new() }
    }

    /// Record one probe event. A reply stores its latency in the
    /// `received` series; a timeout stores latency `0` in the `dropped`
    /// series (the timeout notice carries no duration). Either way the
    /// touched series becomes exactly `recorded` of its old value — gaps
    /// are filled with `Missing`, and an index already inside the series
    /// is overwritten in place, never re-extended — and the other series
    /// is untouched.
    pub fn record(&mut self, event: ProbeEvent)
        requires
            event.index() + 1 <= usize::MAX,
        ensures
            final(self).received@ == (match event {
                ProbeEvent::Received { sequence_number, latency_us } => recorded(
                    old(self).received@,
                    sequence_number as int,
                    latency_us,
                ),
                ProbeEvent::Dropped { .. } => old(self).received@,
            }),
            final(self).dropped@ == (match event {
                ProbeEvent::Received { .. } => old(self).dropped@,
                ProbeEvent::Dropped { sequence_number } => recorded(
                    old(self).dropped@,
                    sequence_number as int,
                    0u64,
                ),
            }),
    {
        match event {
            ProbeEvent::Received { sequence_number, latency_us } => {
                record_into(&mut self.received, sequence_number, latency_us);
            },
            ProbeEvent::Dropped { sequence_number } => {
                record_into(&mut self.dropped, sequence_number, 0);
            },
        }
    }

    /// The current series, for rendering: `(received, dropped)`.
    /// Read-only: the store is unchanged.
    pub fn snapshot(&self) -> (r: (Vec<Sample>, Vec<Sample>))
        ensures
            r.0@ == self.received@,
            r.1@ == self.dropped@,
    {
        (copy_samples(&self.received), copy_samples(&self.dropped))
    }
}

/// The update a single event makes to one of the two series, if any:
/// the position written and the latency stored there. `timeout_series`
/// selects the `dropped` series, otherwise the `received` one.
pub open spec fn update_for(e: ProbeEvent, timeout_series: bool) -> Option<(usize, u64)> {
    match e {
        ProbeEvent::Received { sequence_number, latency_us } => if timeout_series {
            None
        } else {
            Some((sequence_number, latency_us))
        },
        ProbeEvent::Dropped { sequence_number } => if timeout_series {
            Some((sequence_number, 0u64))
        } else {
            None
        },
    }
}

/// The chosen series after a whole sequence of events has been recorded
/// into a fresh store, oldest first.
pub open spec fn series_after(events: Seq<ProbeEvent>, timeout_series: bool) -> Seq<Sample>
    decreases events.len(),
{
    if events.len() == 0 {
        Seq::empty()
    } else {
        let prev = series_after(events.drop_last(), timeout_series);
        match update_for(events.last(), timeout_series) {
            Some(u) => recorded(prev, u.0 as int, u.1),
            None => prev,
        }
    }
}

/// One more than the largest sequence number the events wrote to the
/// chosen series, or `0` if none wrote to it.
pub open spec fn extent_after(events: Seq<ProbeEvent>, timeout_series: bool) -> int
    decreases events.len(),
{
    if events.len() == 0 {
        0
    } else {
        let prev = extent_after(events.drop_last(), timeout_series);
        match update_for(events.last(), timeout_series) {
            Some(u) => if u.0 + 1 > prev {
                u.0 + 1
            } else {
                prev
            },
            None => prev,
        }
    }
}

/// Whether a single event writes position `i` of the chosen series.
pub open spec fn writes(e: ProbeEvent, timeout_series: bool, i: int) -> bool {
    match update_for(e, timeout_series) {
        Some(u) => u.0 == i,
        None => false,
    }
}

/// Whether some event among `events` wrote position `i` of the chosen
/// series.
pub open spec fn touched(events: Seq<ProbeEvent>, timeout_series: bool, i: int) -> bool {
    exists|k: int| 0 <= k < events.len() && writes(#[trigger] events[k], timeout_series, i)
}

/// Recording one more event is one step of the fold: the chosen series
/// after `events.push(e)` is `recorded` applied to the series after
/// `events` — exactly what `SeriesStore::record` ensures of one call.
pub proof fn lemma_series_after_step(events: Seq<ProbeEvent>, e: ProbeEvent, timeout_series: bool)
    ensures
        series_after(events.push(e), timeout_series) == (match update_for(e, timeout_series) {
            Some(u) => recorded(series_after(events, timeout_series), u.0 as int, u.1),
            None => series_after(events, timeout_series),
        }),
{
    assert(events.push(e).drop_last() =~= events);
    assert(events.push(e).last() == e);
}

/// Shape law for either series, over every sequence of recorded events:
/// the series is exactly as long as the largest sequence number seen for
/// it plus one (length `0` while nothing was seen), and every position no
/// event explicitly wrote holds the `Missing` sentinel.
pub proof fn lemma_series_shape(events: Seq<ProbeEvent>, timeout_series: bool)
    ensures
        series_after(events, timeout_series).len() == extent_after(events, timeout_series),
        forall|i: int|
            0 <= i < series_after(events, timeout_series).len() && !touched(
                events,
                timeout_series,
                i,
            ) ==> series_after(events, timeout_series)[i] == Sample::Missing,
    decreases events.len(),
{
    if events.len() > 0 {
        let prior = events.drop_last();
        lemma_series_shape(prior, timeout_series);
        let prev = series_after(prior, timeout_series);
        assert forall|i: int|
            0 <= i < series_after(events, timeout_series).len() && !touched(
                events,
                timeout_series,
                i,
            ) implies series_after(events, timeout_series)[i] == Sample::Missing by {
            if touched(prior, timeout_series, i) {
                let k = choose|k: int|
                    0 <= k < prior.len() && writes(#[trigger] prior[k], timeout_series, i);
                assert(events[k] == prior[k]);
                assert(writes(events[k], timeout_series, i));
                assert(touched(events, timeout_series, i));
            }
            if writes(events.last(), timeout_series, i) {
                assert(writes(events[events.len() - 1], timeout_series, i));
                assert(touched(events, timeout_series, i));
            }
        }
    }
}

/// Idempotence law: recording the same latency at the same position twice
/// leaves exactly the state that recording it once leaves.
pub proof fn lemma_record_idempotent(s: Seq<Sample>, i: int, v: u64)
    requires
        0 <= i,
    ensures
        recorded(recorded(s, i, v), i, v) == recorded(s, i, v),
{
    assert(recorded(recorded(s, i, v), i, v) =~= recorded(s, i, v));
}

/// Out-of-order safety law: recording at a position already inside the
/// series never truncates it, sets exactly that position, and leaves
/// every other existing position as it was.
pub proof fn lemma_record_preserves(s: Seq<Sample>, i: int, v: u64)
    requires
        0 <= i,
    ensures
        recorded(s, i, v).len() >= s.len(),
        recorded(s, i, v)[i] == Sample::Observed(v),
        forall|j: int| 0 <= j < s.len() && j != i ==> recorded(s, i, v)[j] == s[j],
{
}

} // verus!
