use vstd::prelude::*;

use crate::probe::{Parsed, ParseError, ProbeEvent};

verus! {

// ---------------------------------------------------------------------------
// Whitespace and tokens
//
// Probe output is whitespace-tokenized ASCII. A token is a maximal run of
// non-whitespace bytes; the parser never looks at a line in any other way.
// ---------------------------------------------------------------------------

/// The ASCII whitespace bytes (space, tab, line feed, form feed, carriage
/// return), the separators the probe tool uses between tokens.
pub open spec fn is_space(b: u8) -> bool {
    b == 32 || b == 9 || b == 10 || b == 12 || b == 13
}

/// Length of the token starting at the head of `s`: the longest prefix
/// holding no whitespace byte.
pub open spec fn token_len(s: Seq<u8>) -> nat
    decreases s.len(),
{
    if s.len() == 0 || is_space(s[0]) {
        0
    } else {
        1 + token_len(s.drop_first())
    }
}

proof fn lemma_token_len_le(s: Seq<u8>)
    ensures
        token_len(s) <= s.len(),
        s.len() > 0 && !is_space(s[0]) ==> token_len(s) >= 1,
    decreases s.len(),
{
    if s.len() > 0 && !is_space(s[0]) {
        lemma_token_len_le(s.drop_first());
    }
}

/// The whitespace-delimited tokens of `s`, in order.
pub open spec fn tokenize(s: Seq<u8>) -> Seq<Seq<u8>>
    decreases s.len(),
    via tokenize_decreases
{
    if s.len() == 0 {
        Seq::empty()
    } else if is_space(s[0]) {
        tokenize(s.drop_first())
    } else {
        seq![s.take(token_len(s) as int)] + tokenize(s.skip(token_len(s) as int))
    }
}

#[via_fn]
proof fn tokenize_decreases(s: Seq<u8>) {
    lemma_token_len_le(s);
}

/// `token_len` is exactly the scan the tokenizer performs: if the first
/// `k` bytes are non-space and byte `k` is the end or a space, the token
/// has length `k`.
proof fn lemma_token_len_is(s: Seq<u8>, k: int)
    requires
        0 <= k <= s.len(),
        forall|j: int| 0 <= j < k ==> !is_space(#[trigger] s[j]),
        k == s.len() || is_space(s[k]),
    ensures
        token_len(s) == k,
    decreases k,
{
    if k > 0 {
        assert(!is_space(s[0]));
        lemma_token_len_is(s.drop_first(), k - 1);
    }
}

// ---------------------------------------------------------------------------
// Decimal numbers
// ---------------------------------------------------------------------------

/// ASCII decimal digit.
pub open spec fn is_digit(b: u8) -> bool {
    48 <= b && b <= 57
}

/// All bytes of `t` are decimal digits.
pub open spec fn all_digits(t: Seq<u8>) -> bool {
    forall|k: int| 0 <= k < t.len() ==> is_digit(#[trigger] t[k])
}

/// The value of `t` read as a decimal numeral, most significant digit
/// first. Meaningful only when `all_digits(t)` holds.
pub open spec fn digits_val(t: Seq<u8>) -> int
    decreases t.len(),
{
    if t.len() == 0 {
        0
    } else {
        10 * digits_val(t.drop_last()) + (t.last() - 48)
    }
}

proof fn lemma_digits_val_nonneg(t: Seq<u8>)
    requires
        all_digits(t),
    ensures
        digits_val(t) >= 0,
    decreases t.len(),
{
    if t.len() > 0 {
        assert(forall|k: int| 0 <= k < t.len() - 1 ==> is_digit(#[trigger] t.drop_last()[k]));
        lemma_digits_val_nonneg(t.drop_last());
    }
}

/// Reading more digits never makes the value smaller.
proof fn lemma_digits_val_prefix_le(t: Seq<u8>, i: int)
    requires
        all_digits(t),
        0 <= i <= t.len(),
    ensures
        digits_val(t.take(i)) <= digits_val(t),
    decreases t.len() - i,
{
    if i == t.len() {
        assert(t.take(i) =~= t);
    } else {
        assert(forall|k: int| 0 <= k < t.len() - 1 ==> is_digit(#[trigger] t.drop_last()[k]));
        assert(t.drop_last().take(i) =~= t.take(i));
        lemma_digits_val_prefix_le(t.drop_last(), i);
        lemma_digits_val_nonneg(t.drop_last());
    }
}

/// Whether `t` is a numeral whose value lies in `0 ..= bound`.
pub open spec fn is_numeral_up_to(t: Seq<u8>, bound: int) -> bool {
    t.len() > 0 && all_digits(t) && 0 <= digits_val(t) <= bound
}

/// Read `t` as a decimal `u64`: `Some` exactly when `t` is a non-empty
/// all-digit numeral whose value fits.
fn parse_decimal_u64(t: &[u8]) -> (r: Option<u64>)
    ensures
        r is Some <==> is_numeral_up_to(t@, u64::MAX as int),
        r matches Some(v) ==> v == digits_val(t@),
{
    if t.len() == 0 {
        return None;
    }
    let mut acc: u64 = 0;
    let mut i: usize = 0;
    while i < t.len()
        invariant
            0 < t@.len(),
            i <= t@.len(),
            all_digits(t@.take(i as int)),
            acc == digits_val(t@.take(i as int)),
        decreases t@.len() - i,
    {
        let b = t[i];
        if b < 48 || b > 57 {
            assert(!is_digit(t@[i as int]));
            return None;
        }
        let d: u64 = (b - 48) as u64;
        proof {
            assert(t@.take(i + 1).drop_last() =~= t@.take(i as int));
            assert(t@.take(i + 1).last() == t@[i as int]);
            assert(forall|k: int|
                0 <= k < i + 1 ==> is_digit(#[trigger] t@.take(i + 1)[k]));
        }
        let grown = match acc.checked_mul(10) {
            Some(g) => match g.checked_add(d) {
                Some(v) => Some(v),
                None => None,
            },
            None => None,
        };
        match grown {
            Some(v) => {
                acc = v;
            },
            None => {
                proof {
                    if is_numeral_up_to(t@, u64::MAX as int) {
                        lemma_digits_val_prefix_le(t@, i + 1);
                    }
                }
                return None;
            },
        }
        i = i + 1;
    }
    proof {
        assert(t@.take(t@.len() as int) =~= t@);
    }
    Some(acc)
}

// ---------------------------------------------------------------------------
// Byte-string helpers
// ---------------------------------------------------------------------------

/// `p` is a prefix of `t`.
pub open spec fn has_prefix(t: Seq<u8>, p: Seq<u8>) -> bool {
    t.len() >= p.len() && t.take(p.len() as int) == p
}

/// Decide `has_prefix` on slices.
fn starts_with_bytes(t: &[u8], p: &[u8]) -> (r: bool)
    ensures
        r == has_prefix(t@, p@),
{
    if t.len() < p.len() {
        return false;
    }
    let mut j: usize = 0;
    while j < p.len()
        invariant
            j <= p@.len() <= t@.len(),
            forall|k: int| 0 <= k < j ==> t@[k] == p@[k],
        decreases p@.len() - j,
    {
        if t[j] != p[j] {
            assert(t@.take(p@.len() as int)[j as int] != p@[j as int]);
            return false;
        }
        j = j + 1;
    }
    proof {
        assert(t@.take(p@.len() as int) =~= p@);
    }
    true
}

/// Decide byte-for-byte equality of two slices.
fn bytes_eq(a: &[u8], b: &[u8]) -> (r: bool)
    ensures
        r == (a@ == b@),
{
    if a.len() != b.len() {
        return false;
    }
    let r = starts_with_bytes(a, b);
    proof {
        assert(a@.take(b@.len() as int) =~= a@);
    }
    r
}

// ---------------------------------------------------------------------------
// Tokenizer
// ---------------------------------------------------------------------------

/// The views of a vector of tokens.
pub open spec fn token_views(ts: Seq<Vec<u8>>) -> Seq<Seq<u8>> {
    ts.map_values(|t: Vec<u8>| t@)
}

/// Whether an ASCII whitespace byte, decided on a byte.
fn is_space_byte(b: u8) -> (r: bool)
    ensures
        r == is_space(b),
{
    b == 32 || b == 9 || b == 10 || b == 12 || b == 13
}

/// Split `line` into its whitespace-delimited tokens.
fn tokens_of(line: &[u8]) -> (toks: Vec<Vec<u8>>)
    ensures
        token_views(toks@) == tokenize(line@),
{
    let n = line.len();
    let mut toks: Vec<Vec<u8>> = Vec::new();
    let mut i: usize = 0;
    proof {
        assert(line@.skip(0) =~= line@);
        assert(token_views(toks@) + tokenize(line@) =~= tokenize(line@));
    }
    while i < n
        invariant
            i <= n,
            n == line@.len(),
            tokenize(line@) == token_views(toks@) + tokenize(line@.skip(i as int)),
        decreases n - i,
    {
        if is_space_byte(line[i]) {
            proof {
                assert(line@.skip(i as int).drop_first() =~= line@.skip(i + 1));
            }
            i = i + 1;
        } else {
            let ghost start_rest = line@.skip(i as int);
            let start = i;
            let mut tok: Vec<u8> = Vec::new();
            loop
                invariant
                    start <= i <= n,
                    n == line@.len(),
                    start < n,
                    !is_space(line@[start as int]),
                    tok@ == line@.subrange(start as int, i as int),
                    forall|k: int| start <= k < i ==> !is_space(#[trigger] line@[k]),
                ensures
                    start <= i <= n,
                    tok@ == line@.subrange(start as int, i as int),
                    forall|k: int| start <= k < i ==> !is_space(#[trigger] line@[k]),
                    i == n || is_space(line@[i as int]),
                decreases n - i,
            {
                if i == n {
                    break;
                }
                let b = line[i];
                if is_space_byte(b) {
                    break;
                }
                tok.push(b);
                proof {
                    assert(tok@ =~= line@.subrange(start as int, i + 1));
                }
                i = i + 1;
            }
            proof {
                let s = line@.skip(start as int);
                assert forall|j: int| 0 <= j < i - start implies !is_space(#[trigger] s[j]) by {
                    assert(s[j] == line@[start + j]);
                }
                if i < n {
                    assert(s[i - start] == line@[i as int]);
                }
                lemma_token_len_is(s, i - start);
                assert(s.take(i - start) =~= line@.subrange(start as int, i as int));
                assert(s.skip(i - start) =~= line@.skip(i as int));
                assert(tokenize(s) == seq![tok@] + tokenize(line@.skip(i as int)));
            }
            let ghost old_toks = toks@;
            toks.push(tok);
            proof {
                assert(token_views(toks@) =~= token_views(old_toks).push(tok@));
                assert(token_views(old_toks) + tokenize(start_rest) == token_views(old_toks) + (
                seq![tok@] + tokenize(line@.skip(i as int))));
                assert(token_views(old_toks) + (seq![tok@] + tokenize(line@.skip(i as int)))
                    =~= token_views(toks@) + tokenize(line@.skip(i as int)));
            }
        }
    }
    proof {
        assert(line@.skip(n as int) =~= Seq::<u8>::empty());
        assert(tokenize(line@) =~= token_views(toks@));
    }
    toks
}

// ---------------------------------------------------------------------------
// Line grammar
//
// One line of probe output means, in this order of recognition:
//   1. empty, or starting with `-` (the trailing statistics block):
//      end of stream;
//   2. first token `Request` (a timeout notice): a `Dropped` event whose
//      sequence number is the line's last token;
//   3. otherwise a report line: the sequence number comes from the last
//      token prefixed `icmp_seq=`, the latency from the last token
//      prefixed `time=` (`0` if that token is absent). A report line
//      without an `icmp_seq=` token is not a probe report.
// Any failure to read a number is a recoverable per-line error.
// ---------------------------------------------------------------------------

/// The bytes of the literal word `Request`.
pub open spec fn request_word() -> Seq<u8> {
    seq![82u8, 101u8, 113u8, 117u8, 101u8, 115u8, 116u8]
}

/// The bytes of the token prefix `icmp_seq=`.
pub open spec fn seq_marker() -> Seq<u8> {
    seq![105u8, 99u8, 109u8, 112u8, 95u8, 115u8, 101u8, 113u8, 61u8]
}

/// The bytes of the token prefix `time=`.
pub open spec fn time_marker() -> Seq<u8> {
    seq![116u8, 105u8, 109u8, 101u8, 61u8]
}

/// The payload (text after the prefix) of the last token of `toks` that
/// starts with `p`, if any. Should the tool ever repeat a marker on one
/// line, the last occurrence decides.
pub open spec fn last_payload(toks: Seq<Seq<u8>>, p: Seq<u8>) -> Option<Seq<u8>>
    decreases toks.len(),
{
    if toks.len() == 0 {
        None
    } else if has_prefix(toks.last(), p) {
        Some(toks.last().skip(p.len() as int))
    } else {
        last_payload(toks.drop_last(), p)
    }
}

/// Largest sequence number a line may carry: one below `usize::MAX`, so
/// that the series length `sequence_number + 1` always fits a `usize`.
pub open spec fn sequence_limit() -> int {
    usize::MAX - 1
}

/// Index of the first `.` in `t`, or `t.len()` if there is none.
pub open spec fn dot_pos(t: Seq<u8>) -> int
    decreases t.len(),
{
    if t.len() == 0 {
        0
    } else if t[0] == 46 {
        0
    } else {
        1 + dot_pos(t.drop_first())
    }
}

/// The fractional digits of `t`: everything after the first `.`, or
/// nothing if there is no `.`.
pub open spec fn frac_digits(t: Seq<u8>) -> Seq<u8> {
    if dot_pos(t) < t.len() {
        t.skip(dot_pos(t) + 1)
    } else {
        Seq::empty()
    }
}

/// Whether `t` is a decimal latency numeral: digits with at most one
/// `.`, and at least one digit somewhere.
pub open spec fn is_latency_numeral(t: Seq<u8>) -> bool {
    all_digits(t.take(dot_pos(t))) && all_digits(frac_digits(t)) && t.take(dot_pos(t)).len()
        + frac_digits(t).len() > 0
}

/// Microseconds contributed by the fractional digits: the first three
/// count (hundreds, tens, ones of a microsecond), further digits are
/// below a microsecond and are truncated.
pub open spec fn frac_micros(f: Seq<u8>) -> int {
    (if f.len() > 0 {
        (f[0] - 48) * 100
    } else {
        0
    }) + (if f.len() > 1 {
        (f[1] - 48) * 10
    } else {
        0
    }) + (if f.len() > 2 {
        f[2] - 48
    } else {
        0
    })
}

/// The value of latency numeral `t`, milliseconds text to microseconds.
pub open spec fn latency_micros_val(t: Seq<u8>) -> int {
    digits_val(t.take(dot_pos(t))) * 1000 + frac_micros(frac_digits(t))
}

/// Meaning of the last token of a timeout notice.
pub open spec fn parse_dropped(t: Seq<u8>) -> Result<Parsed, ParseError> {
    if is_numeral_up_to(t, sequence_limit()) {
        Ok(Parsed::Event(ProbeEvent::Dropped { sequence_number: digits_val(t) as usize }))
    } else {
        Err(ParseError::BadSequenceNumber)
    }
}

/// Meaning of a report line, given its tokens.
pub open spec fn parse_received(toks: Seq<Seq<u8>>) -> Result<Parsed, ParseError> {
    match last_payload(toks, seq_marker()) {
        None => Err(ParseError::MissingSequenceToken),
        Some(st) => if !is_numeral_up_to(st, sequence_limit()) {
            Err(ParseError::BadSequenceNumber)
        } else {
            match last_payload(toks, time_marker()) {
                None => Ok(
                    Parsed::Event(
                        ProbeEvent::Received {
                            sequence_number: digits_val(st) as usize,
                            latency_us: 0,
                        },
                    ),
                ),
                Some(tt) => if is_latency_numeral(tt) && 0 <= latency_micros_val(tt)
                    <= u64::MAX {
                    Ok(
                        Parsed::Event(
                            ProbeEvent::Received {
                                sequence_number: digits_val(st) as usize,
                                latency_us: latency_micros_val(tt) as u64,
                            },
                        ),
                    )
                } else {
                    Err(ParseError::BadLatency)
                },
            }
        },
    }
}

/// What one line of probe output means, by the recognition rules above.
pub open spec fn parse_spec(s: Seq<u8>) -> Result<Parsed, ParseError> {
    if s.len() == 0 || s[0] == 45 {
        Ok(Parsed::EndOfStream)
    } else {
        let toks = tokenize(s);
        if toks.len() > 0 && toks[0] == request_word() {
            parse_dropped(toks.last())
        } else {
            parse_received(toks)
        }
    }
}

/// Every event the grammar yields carries a sequence number below
/// `usize::MAX`, so the series length `sequence_number + 1` fits a
/// `usize`.
pub proof fn lemma_parsed_event_fits(s: Seq<u8>)
    ensures
        (match parse_spec(s) {
            Ok(Parsed::Event(e)) => e.index() + 1 <= usize::MAX,
            _ => true,
        }),
{
}

proof fn lemma_dot_pos_is(t: Seq<u8>, k: int)
    requires
        0 <= k <= t.len(),
        forall|j: int| 0 <= j < k ==> t[j] != 46,
        k == t.len() || t[k] == 46,
    ensures
        dot_pos(t) == k,
    decreases k,
{
    if k > 0 {
        assert(t[0] != 46);
        lemma_dot_pos_is(t.drop_first(), k - 1);
    }
}

/// Decide `all_digits` on a slice.
fn all_digits_exec(t: &[u8]) -> (r: bool)
    ensures
        r == all_digits(t@),
{
    let mut i: usize = 0;
    while i < t.len()
        invariant
            i <= t@.len(),
            forall|k: int| 0 <= k < i ==> is_digit(#[trigger] t@[k]),
        decreases t@.len() - i,
    {
        let b = t[i];
        if b < 48 || b > 57 {
            assert(!is_digit(t@[i as int]));
            return false;
        }
        i = i + 1;
    }
    true
}

/// Find the payload of the last token starting with `p`, as `last_payload`
/// names it.
fn find_last_payload(toks: &Vec<Vec<u8>>, p: &[u8]) -> (r: Option<Vec<u8>>)
    ensures
        match r {
            Some(v) => last_payload(token_views(toks@), p@) == Some(v@),
            None => last_payload(token_views(toks@), p@) == None::<Seq<u8>>,
        },
{
    let ghost views = token_views(toks@);
    let mut j: usize = toks.len();
    proof {
        assert(views.take(views.len() as int) =~= views);
    }
    while j > 0
        invariant
            j <= toks@.len(),
            views == token_views(toks@),
            last_payload(views, p@) == last_payload(views.take(j as int), p@),
        decreases j,
    {
        let t = &toks[j - 1];
        proof {
            assert(views.take(j as int).last() == t@);
        }
        if starts_with_bytes(t.as_slice(), p) {
            let mut out: Vec<u8> = Vec::new();
            let mut k: usize = p.len();
            proof {
                assert(out@ =~= t@.subrange(p@.len() as int, p@.len() as int));
            }
            while k < t.len()
                invariant
                    p@.len() <= k <= t@.len(),
                    out@ == t@.subrange(p@.len() as int, k as int),
                decreases t@.len() - k,
            {
                out.push(t[k]);
                proof {
                    assert(out@ =~= t@.subrange(p@.len() as int, k + 1));
                }
                k = k + 1;
            }
            proof {
                assert(out@ =~= t@.skip(p@.len() as int));
            }
            return Some(out);
        }
        proof {
            assert(views.take(j as int).drop_last() =~= views.take(j - 1));
        }
        j = j - 1;
    }
    proof {
        assert(views.take(0) =~= Seq::<Seq<u8>>::empty());
    }
    None
}

/// Read a token as a sequence number, `Some` exactly when it is a numeral
/// within the supported range.
fn parse_sequence_number(t: &[u8]) -> (r: Option<usize>)
    ensures
        r is Some <==> is_numeral_up_to(t@, sequence_limit()),
        r matches Some(v) ==> v == digits_val(t@),
{
    proof {
        assert(usize::MAX as int <= u64::MAX as int);
    }
    match parse_decimal_u64(t) {
        Some(v) => {
            if v <= usize::MAX as u64 - 1 {
                Some(v as usize)
            } else {
                None
            }
        },
        None => None,
    }
}

/// Read a token as a latency in milliseconds, `Some` exactly when it is a
/// latency numeral whose microsecond value fits a `u64`.
fn parse_latency(t: &[u8]) -> (r: Option<u64>)
    ensures
        r is Some <==> is_latency_numeral(t@) && 0 <= latency_micros_val(t@) <= u64::MAX,
        r matches Some(v) ==> v == latency_micros_val(t@),
{
    let n = t.len();
    let mut p: usize = 0;
    while p < n && t[p] != 46
        invariant
            p <= n,
            n == t@.len(),
            forall|j: int| 0 <= j < p ==> t@[j] != 46,
        decreases n - p,
    {
        p = p + 1;
    }
    proof {
        lemma_dot_pos_is(t@, p as int);
    }
    let mut intpart: Vec<u8> = Vec::new();
    let mut k: usize = 0;
    while k < p
        invariant
            k <= p <= n,
            n == t@.len(),
            intpart@ == t@.subrange(0, k as int),
        decreases p - k,
    {
        intpart.push(t[k]);
        proof {
            assert(intpart@ =~= t@.subrange(0, k + 1));
        }
        k = k + 1;
    }
    proof {
        assert(intpart@ =~= t@.take(p as int));
    }
    let mut frac: Vec<u8> = Vec::new();
    if p < n {
        let mut k2: usize = p + 1;
        while k2 < n
            invariant
                p + 1 <= k2 <= n,
                n == t@.len(),
                frac@ == t@.subrange(p + 1, k2 as int),
            decreases n - k2,
        {
            frac.push(t[k2]);
            proof {
                assert(frac@ =~= t@.subrange(p + 1, k2 + 1));
            }
            k2 = k2 + 1;
        }
        proof {
            assert(frac@ =~= t@.skip(p + 1));
        }
    }
    proof {
        assert(frac@ =~= frac_digits(t@));
    }
    if !all_digits_exec(intpart.as_slice()) {
        return None;
    }
    if !all_digits_exec(frac.as_slice()) {
        return None;
    }
    if intpart.len() == 0 && frac.len() == 0 {
        return None;
    }
    let mut fm: u64 = 0;
    if frac.len() > 0 {
        fm = fm + ((frac[0] - 48) as u64) * 100;
    }
    if frac.len() > 1 {
        fm = fm + ((frac[1] - 48) as u64) * 10;
    }
    if frac.len() > 2 {
        fm = fm + (frac[2] - 48) as u64;
    }
    assert(fm == frac_micros(frac_digits(t@)));
    let iv: u64 = if intpart.len() == 0 {
        0
    } else {
        match parse_decimal_u64(intpart.as_slice()) {
            Some(v) => v,
            None => {
                proof {
                    lemma_digits_val_nonneg(frac_digits(t@));
                }
                return None;
            },
        }
    };
    assert(latency_micros_val(t@) == iv as int * 1000 + fm as int);
    match iv.checked_mul(1000) {
        Some(m) => match m.checked_add(fm) {
            Some(v) => Some(v),
            None => None,
        },
        None => None,
    }
}

/// Decode one raw line of probe output into its meaning: an event, the
/// end-of-stream marker, or a recoverable per-line error. The result is
/// exactly `parse_spec` of the line's bytes.
pub fn parse_line(line: &[u8]) -> (r: Result<Parsed, ParseError>)
    ensures
        r == parse_spec(line@),
{
    if line.len() == 0 {
        return Ok(Parsed::EndOfStream);
    }
    if line[0] == 45 {
        return Ok(Parsed::EndOfStream);
    }
    let toks = tokens_of(line);
    let ghost views = token_views(toks@);
    if toks.len() > 0 {
        let req: [u8; 7] = [82, 101, 113, 117, 101, 115, 116];
        proof {
            assert(req@ =~= request_word());
            assert(views[0] == toks@[0]@);
        }
        if bytes_eq(toks[0].as_slice(), req.as_slice()) {
            let lastv = &toks[toks.len() - 1];
            proof {
                assert(views.last() == lastv@);
            }
            return match parse_sequence_number(lastv.as_slice()) {
                Some(s) => Ok(Parsed::Event(ProbeEvent::Dropped { sequence_number: s })),
                None => Err(ParseError::BadSequenceNumber),
            };
        }
    }
    let seq_pat: [u8; 9] = [105, 99, 109, 112, 95, 115, 101, 113, 61];
    let time_pat: [u8; 5] = [116, 105, 109, 101, 61];
    proof {
        assert(seq_pat@ =~= seq_marker());
        assert(time_pat@ =~= time_marker());
    }
    match find_last_payload(&toks, seq_pat.as_slice()) {
        None => Err(ParseError::MissingSequenceToken),
        Some(st) => match parse_sequence_number(st.as_slice()) {
            None => Err(ParseError::BadSequenceNumber),
            Some(s) => match find_last_payload(&toks, time_pat.as_slice()) {
                None => Ok(
                    Parsed::Event(ProbeEvent::Received { sequence_number: s, latency_us: 0 }),
                ),
                Some(tt) => match parse_latency(tt.as_slice()) {
                    Some(us) => Ok(
                        Parsed::Event(
                            ProbeEvent::Received { sequence_number: s, latency_us: us },
                        ),
                    ),
                    None => Err(ParseError::BadLatency),
                },
            },
        },
    }
}

} // verus!
