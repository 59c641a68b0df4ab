//! Timestamps and rate gates.
//!
//! A timestamp is a microsecond count since an epoch that only the session
//! knows. It lives in a `u64` and may wrap, so two timestamps are never
//! compared directly: what counts is the distance from the earlier to the
//! later one, taken modulo 2^64.

use vstd::prelude::*;

verus! {

/// Number of values a timestamp can take.
pub open spec fn modulus() -> int {
    0x1_0000_0000_0000_0000
}

/// The time that passed from `earlier` to `later`, modulo 2^64.
pub open spec fn elapsed_between(earlier: u64, later: u64) -> u64 {
    ((later - earlier) % modulus()) as u64
}

/// The timestamp reached `duration` microseconds after `start`, modulo 2^64.
pub open spec fn advanced_by(start: u64, duration: u64) -> u64 {
    ((start + duration) % modulus()) as u64
}

/// Whether an operation that last ran at `last` and runs at most once per
/// `interval` is to run again at `now`.
pub open spec fn is_due(last: u64, now: u64, interval: u64) -> bool {
    elapsed_between(last, now) >= interval
}

/// Time passed from `earlier` to `later`, tolerant of one wraparound.
pub fn elapsed(earlier: u64, later: u64) -> (d: u64)
    ensures
        d == elapsed_between(earlier, later),
{
    later.wrapping_sub(earlier)
}

/// The timestamp `duration` microseconds after `start`, wrapping at 2^64.
pub fn advance(start: u64, duration: u64) -> (t: u64)
    ensures
        t == advanced_by(start, duration),
{
    start.wrapping_add(duration)
}

/// Rate gate: true when at least `interval` has passed since `last`.
pub fn due(last: u64, now: u64, interval: u64) -> (b: bool)
    ensures
        b == is_due(last, now, interval),
{
    elapsed(last, now) >= interval
}

/// Wrapping subtraction undoes wrapping addition: whatever the start and
/// however often the counter wrapped on the way, the elapsed time read back
/// from two timestamps is the duration that separated them.
pub proof fn lemma_elapsed_after_advance(start: u64, duration: u64)
    ensures
        elapsed_between(start, advanced_by(start, duration)) == duration,
{
}

/// Without wraparound the elapsed time is the plain difference.
pub proof fn lemma_elapsed_is_difference(earlier: u64, later: u64)
    requires
        earlier <= later,
    ensures
        elapsed_between(earlier, later) == later - earlier,
{
}

/// Two moments on an unbounded time line, reduced to timestamps, are as far
/// apart as the moments are, as long as less than 2^64 microseconds lie
/// between them.
pub proof fn lemma_elapsed_of_wrapped(earlier: int, later: int)
    requires
        earlier <= later,
        later - earlier < modulus(),
    ensures
        elapsed_between((earlier % modulus()) as u64, (later % modulus()) as u64) == later
            - earlier,
{
    let m = modulus();
    let a = earlier % m;
    let b = later % m;
    vstd::arithmetic::div_mod::lemma_fundamental_div_mod(earlier, m);
    vstd::arithmetic::div_mod::lemma_fundamental_div_mod(later, m);
    let k = later / m - earlier / m;
    assert(b - a == later - earlier - m * k) by (nonlinear_arith)
        requires
            earlier == m * (earlier / m) + a,
            later == m * (later / m) + b,
            k == later / m - earlier / m,
    ;
    assert(k == 0 || k == 1) by (nonlinear_arith)
        requires
            b - a == later - earlier - m * k,
            0 <= a < m,
            0 <= b < m,
            0 <= later - earlier < m,
    ;
    if k == 0 {
        vstd::arithmetic::div_mod::lemma_fundamental_div_mod_converse(b - a, m, 0, b - a);
    } else {
        vstd::arithmetic::div_mod::lemma_fundamental_div_mod_converse(b - a, m, -1, b - a + m);
    }
}

} // verus!
