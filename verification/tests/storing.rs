use pingplot::probe::ProbeEvent;
use pingplot::series::{Sample, SeriesStore};

#[test]
fn gaps_are_filled_with_the_sentinel() {
    let mut store = SeriesStore::new();
    store.record(ProbeEvent::Received { sequence_number: 3, latency_us: 1_000 });
    let (received, dropped) = store.snapshot();
    assert_eq!(
        received,
        vec![Sample::Missing, Sample::Missing, Sample::Missing, Sample::Observed(1_000)]
    );
    assert_eq!(dropped, vec![]);
}

#[test]
fn out_of_order_report_overwrites_in_place() {
    let mut store = SeriesStore::new();
    store.record(ProbeEvent::Received { sequence_number: 10, latency_us: 5_000 });
    store.record(ProbeEvent::Received { sequence_number: 3, latency_us: 2_000 });
    let (received, _) = store.snapshot();
    assert_eq!(received.len(), 11);
    assert_eq!(received[3], Sample::Observed(2_000));
    assert_eq!(received[10], Sample::Observed(5_000));
    for i in 0..11 {
        if i != 3 && i != 10 {
            assert_eq!(received[i], Sample::Missing);
        }
    }
}

#[test]
fn recording_twice_equals_recording_once() {
    let mut once = SeriesStore::new();
    let mut twice = SeriesStore::new();
    let e = ProbeEvent::Received { sequence_number: 5, latency_us: 7_700 };
    once.record(e);
    twice.record(e);
    twice.record(e);
    assert_eq!(once.snapshot(), twice.snapshot());
}

#[test]
fn repeated_index_is_overwritten() {
    let mut store = SeriesStore::new();
    store.record(ProbeEvent::Received { sequence_number: 1, latency_us: 100 });
    store.record(ProbeEvent::Received { sequence_number: 1, latency_us: 200 });
    let (received, _) = store.snapshot();
    assert_eq!(received, vec![Sample::Missing, Sample::Observed(200)]);
}

#[test]
fn dropped_probes_fill_their_own_series() {
    let mut store = SeriesStore::new();
    store.record(ProbeEvent::Dropped { sequence_number: 2 });
    let (received, dropped) = store.snapshot();
    assert_eq!(received, vec![]);
    assert_eq!(dropped, vec![Sample::Missing, Sample::Missing, Sample::Observed(0)]);
}

#[test]
fn the_two_series_are_independent() {
    let mut store = SeriesStore::new();
    store.record(ProbeEvent::Received { sequence_number: 0, latency_us: 900 });
    store.record(ProbeEvent::Dropped { sequence_number: 1 });
    let (received, dropped) = store.snapshot();
    assert_eq!(received, vec![Sample::Observed(900)]);
    assert_eq!(dropped, vec![Sample::Missing, Sample::Observed(0)]);
}
