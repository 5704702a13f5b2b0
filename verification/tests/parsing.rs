use pingplot::parse::parse_line;
use pingplot::probe::{Parsed, ParseError, ProbeEvent};

#[test]
fn received_line_is_parsed() {
    let r = parse_line(b"64 bytes from 1.1.1.1: icmp_seq=4 ttl=56 time=12.3 ms");
    assert_eq!(
        r,
        Ok(Parsed::Event(ProbeEvent::Received { sequence_number: 4, latency_us: 12_300 }))
    );
}

#[test]
fn timeout_line_is_parsed() {
    let r = parse_line(b"Request timeout for icmp_seq 7");
    assert_eq!(r, Ok(Parsed::Event(ProbeEvent::Dropped { sequence_number: 7 })));
}

#[test]
fn statistics_line_ends_stream() {
    let r = parse_line(b"--- 1.1.1.1 ping statistics ---");
    assert_eq!(r, Ok(Parsed::EndOfStream));
}

#[test]
fn empty_line_ends_stream() {
    assert_eq!(parse_line(b""), Ok(Parsed::EndOfStream));
}

#[test]
fn foreign_line_is_recoverable() {
    let r = parse_line(b"PING 1.1.1.1 (1.1.1.1): 56 data bytes");
    assert_eq!(r, Err(ParseError::MissingSequenceToken));
}

#[test]
fn whitespace_only_line_is_recoverable() {
    assert_eq!(parse_line(b"   \t "), Err(ParseError::MissingSequenceToken));
}

#[test]
fn non_numeric_timeout_sequence_is_recoverable() {
    let r = parse_line(b"Request timeout for icmp_seq x7");
    assert_eq!(r, Err(ParseError::BadSequenceNumber));
}

#[test]
fn non_numeric_sequence_token_is_recoverable() {
    let r = parse_line(b"64 bytes from h: icmp_seq=four time=1.0 ms");
    assert_eq!(r, Err(ParseError::BadSequenceNumber));
}

#[test]
fn non_numeric_latency_is_recoverable() {
    let r = parse_line(b"64 bytes from h: icmp_seq=2 time=abc ms");
    assert_eq!(r, Err(ParseError::BadLatency));
}

#[test]
fn oversized_sequence_is_recoverable() {
    let r = parse_line(b"x icmp_seq=99999999999999999999999 time=1.0");
    assert_eq!(r, Err(ParseError::BadSequenceNumber));
}

#[test]
fn missing_time_token_defaults_to_zero() {
    let r = parse_line(b"64 bytes from h: icmp_seq=3 ttl=56");
    assert_eq!(
        r,
        Ok(Parsed::Event(ProbeEvent::Received { sequence_number: 3, latency_us: 0 }))
    );
}

#[test]
fn integer_latency_is_scaled_to_microseconds() {
    let r = parse_line(b"a icmp_seq=1 time=5");
    assert_eq!(
        r,
        Ok(Parsed::Event(ProbeEvent::Received { sequence_number: 1, latency_us: 5_000 }))
    );
}

#[test]
fn leading_dot_latency_is_read() {
    let r = parse_line(b"a icmp_seq=1 time=.5");
    assert_eq!(
        r,
        Ok(Parsed::Event(ProbeEvent::Received { sequence_number: 1, latency_us: 500 }))
    );
}

#[test]
fn trailing_dot_latency_is_read() {
    let r = parse_line(b"a icmp_seq=1 time=12.");
    assert_eq!(
        r,
        Ok(Parsed::Event(ProbeEvent::Received { sequence_number: 1, latency_us: 12_000 }))
    );
}

#[test]
fn latency_digits_past_microseconds_are_truncated() {
    let r = parse_line(b"a icmp_seq=1 time=1.2345");
    assert_eq!(
        r,
        Ok(Parsed::Event(ProbeEvent::Received { sequence_number: 1, latency_us: 1_234 }))
    );
}

#[test]
fn double_dot_latency_is_recoverable() {
    let r = parse_line(b"a icmp_seq=1 time=1.2.3");
    assert_eq!(r, Err(ParseError::BadLatency));
}

#[test]
fn last_marker_token_decides() {
    let r = parse_line(b"a icmp_seq=1 icmp_seq=2 time=3 time=4.5");
    assert_eq!(
        r,
        Ok(Parsed::Event(ProbeEvent::Received { sequence_number: 2, latency_us: 4_500 }))
    );
}

#[test]
fn dash_must_open_the_line_to_end_the_stream() {
    let r = parse_line(b" --- late stats ---");
    assert_eq!(r, Err(ParseError::MissingSequenceToken));
}

#[test]
fn variant_token_order_is_accepted() {
    let r = parse_line(b"time=3.5 then icmp_seq=9 in any order");
    assert_eq!(
        r,
        Ok(Parsed::Event(ProbeEvent::Received { sequence_number: 9, latency_us: 3_500 }))
    );
}
