use pingplot::probe::{ParseError, ProbeEvent};
use pingplot::series::Sample;
use pingplot::session::{Consumed, Phase, Session};

#[test]
fn a_fresh_session_is_running_and_empty() {
    let s = Session::new();
    assert_eq!(s.phase, Phase::Running);
    assert_eq!(s.parse_errors, 0);
    assert_eq!(s.store.snapshot(), (vec![], vec![]));
    assert_eq!(s.viewport.bounds(), (100, 10_000));
}

#[test]
fn a_report_line_is_recorded() {
    let mut s = Session::new();
    let c = s.consume_line(b"64 bytes from 1.1.1.1: icmp_seq=0 ttl=56 time=12.3 ms");
    assert_eq!(
        c,
        Consumed::Recorded(ProbeEvent::Received { sequence_number: 0, latency_us: 12_300 })
    );
    let (received, dropped) = s.store.snapshot();
    assert_eq!(received, vec![Sample::Observed(12_300)]);
    assert_eq!(dropped, vec![]);
    assert_eq!(s.phase, Phase::Running);
}

#[test]
fn a_large_latency_grows_the_viewport() {
    let mut s = Session::new();
    s.consume_line(b"64 bytes from h: icmp_seq=1 time=64.125 ms");
    assert_eq!(s.viewport.bounds(), (100, 69_125));
}

#[test]
fn an_undecodable_line_is_counted_and_skipped() {
    let mut s = Session::new();
    let c = s.consume_line(b"ping: sendto: No route to host");
    assert_eq!(c, Consumed::Skipped(ParseError::MissingSequenceToken));
    assert_eq!(s.parse_errors, 1);
    assert_eq!(s.phase, Phase::Running);
    assert_eq!(s.store.snapshot(), (vec![], vec![]));
}

#[test]
fn the_statistics_block_drains_the_session() {
    let mut s = Session::new();
    let c = s.consume_line(b"--- 1.1.1.1 ping statistics ---");
    assert_eq!(c, Consumed::Finished);
    assert_eq!(s.phase, Phase::Draining);
    let later = s.consume_line(b"64 bytes from h: icmp_seq=1 time=1 ms");
    assert_eq!(later, Consumed::Ignored);
    assert_eq!(s.store.snapshot(), (vec![], vec![]));
}

#[test]
fn terminate_is_final_and_idempotent() {
    let mut s = Session::new();
    s.consume_line(b"64 bytes from h: icmp_seq=0 time=1 ms");
    s.terminate();
    assert_eq!(s.phase, Phase::Terminated);
    s.terminate();
    assert_eq!(s.phase, Phase::Terminated);
    let c = s.consume_line(b"64 bytes from h: icmp_seq=1 time=1 ms");
    assert_eq!(c, Consumed::Ignored);
    let (received, _) = s.store.snapshot();
    assert_eq!(received.len(), 1);
}

#[test]
fn a_whole_exchange_builds_both_series() {
    let mut s = Session::new();
    let lines: Vec<&[u8]> = vec![
        b"PING 1.1.1.1 (1.1.1.1): 56 data bytes",
        b"64 bytes from 1.1.1.1: icmp_seq=0 ttl=56 time=10.5 ms",
        b"64 bytes from 1.1.1.1: icmp_seq=1 ttl=56 time=11 ms",
        b"Request timeout for icmp_seq 2",
        b"64 bytes from 1.1.1.1: icmp_seq=3 ttl=56 time=9.25 ms",
        b"--- 1.1.1.1 ping statistics ---",
    ];
    for line in lines {
        s.consume_line(line);
    }
    assert_eq!(s.phase, Phase::Draining);
    assert_eq!(s.parse_errors, 1);
    let (received, dropped) = s.store.snapshot();
    assert_eq!(
        received,
        vec![
            Sample::Observed(10_500),
            Sample::Observed(11_000),
            Sample::Missing,
            Sample::Observed(9_250),
        ]
    );
    assert_eq!(dropped, vec![Sample::Missing, Sample::Missing, Sample::Observed(0)]);
    assert_eq!(s.viewport.bounds(), (100, 15_500));
}
