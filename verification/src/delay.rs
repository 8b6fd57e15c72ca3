//! The picosecond time scalar used both for propagation delays and for
//! absolute simulated time.

use vstd::prelude::*;

verus! {

/// A non-negative picosecond count.
#[derive(PartialEq, Eq, Structural, Debug, Copy, Clone)]
pub struct Delay {
    pub picoseconds: u64,
}

/// Picoseconds denoted by `n` nanoseconds.
pub open spec fn picos_of_nanos(n: u64) -> int {
    n * 1000
}

/// Picoseconds denoted by `n` microseconds.
pub open spec fn picos_of_micros(n: u64) -> int {
    n * 1_000_000
}

/// Picoseconds denoted by `n` milliseconds.
pub open spec fn picos_of_millis(n: u64) -> int {
    n * 1_000_000_000
}

/// Picoseconds denoted by `n` seconds.
pub open spec fn picos_of_seconds(n: u64) -> int {
    n * 1_000_000_000_000
}

impl Delay {
    /// The sum of two delays.
    pub fn plus(&self, other: &Self) -> (r: Self)
        requires
            self.picoseconds + other.picoseconds <= u64::MAX,
        ensures
            r.picoseconds == self.picoseconds + other.picoseconds,
    {
        Delay { picoseconds: self.picoseconds + other.picoseconds }
    }

    /// The zero delay.
    pub fn no_delay() -> (r: Self)
        ensures
            r.picoseconds == 0,
    {
        Delay { picoseconds: 0 }
    }

    pub fn from_picos(pico: u64) -> (r: Self)
        ensures
            r.picoseconds == pico,
    {
        Delay { picoseconds: pico }
    }

    pub fn from_nanos(nanos: u64) -> (r: Self)
        requires
            picos_of_nanos(nanos) <= u64::MAX,
        ensures
            r.picoseconds == picos_of_nanos(nanos),
    {
        Delay { picoseconds: nanos * 1000 }
    }

    pub fn from_micros(micros: u64) -> (r: Self)
        requires
            picos_of_micros(micros) <= u64::MAX,
        ensures
            r.picoseconds == picos_of_micros(micros),
    {
        Delay { picoseconds: micros * 1_000_000 }
    }

    pub fn from_millis(millis: u64) -> (r: Self)
        requires
            picos_of_millis(millis) <= u64::MAX,
        ensures
            r.picoseconds == picos_of_millis(millis),
    {
        Delay { picoseconds: millis * 1_000_000_000 }
    }

    pub fn from_seconds(seconds: u64) -> (r: Self)
        requires
            picos_of_seconds(seconds) <= u64::MAX,
        ensures
            r.picoseconds == picos_of_seconds(seconds),
    {
        Delay { picoseconds: seconds * 1_000_000_000_000 }
    }
}

/// Each time unit is exactly one thousand of the next finer one: a delay
/// built from `n` of a coarser unit equals the delay built from `n * 1000`
/// of the finer unit, whenever that count is representable.
pub proof fn lemma_delay_unit_scaling(n: u64)
    ensures
        picos_of_nanos(n) == n * 1000,
        n * 1000 <= u64::MAX ==> picos_of_micros(n) == picos_of_nanos((n * 1000) as u64),
        n * 1000 <= u64::MAX ==> picos_of_millis(n) == picos_of_micros((n * 1000) as u64),
        n * 1000 <= u64::MAX ==> picos_of_seconds(n) == picos_of_millis((n * 1000) as u64),
{
    if n * 1000 <= u64::MAX {
        let m = (n * 1000) as u64;
        assert(picos_of_micros(n) == picos_of_nanos(m)) by (nonlinear_arith)
            requires m == n * 1000,
        ;
        assert(picos_of_millis(n) == picos_of_micros(m)) by (nonlinear_arith)
            requires m == n * 1000,
        ;
        assert(picos_of_seconds(n) == picos_of_millis(m)) by (nonlinear_arith)
            requires m == n * 1000,
        ;
    }
}

} // verus!
