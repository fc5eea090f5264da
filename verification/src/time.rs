//! Simulated time, event frequencies, and fixed-point probabilities.
//!
//! The simulator advances in integer minute ticks. Every time quantity is an
//! integer number of minutes. Frequencies and probabilities share one
//! fixed-point base, `PROB_ONE`, chosen as the minute-to-seven-year ladder
//! `60 * 24 * 30 * 12 * 7 * 100` so that frequencies from once per minute down
//! to once per seven years are represented exactly.

use vstd::prelude::*;

verus! {

/// Minutes in one minute.
pub const MINUTE: u64 = 1;

/// Minutes in one hour.
pub const HOUR: u64 = 60;

/// Minutes in one day.
pub const DAY: u64 = 60 * 24;

/// Minutes in one week.
pub const WEEK: u64 = 60 * 24 * 7;

/// Minutes in one month (of 30 days).
pub const MONTH: u64 = 60 * 24 * 30;

/// Minutes in one year (of 12 months of 30 days).
pub const YEAR: u64 = 60 * 24 * 30 * 12;

/// Fixed-point scale shared by `Frequency` and `Probability`: the count of
/// "once per seven years" units that make up "once per minute".
pub const PER_SEVEN_YEARS: u64 = 100;

/// Frequency units of one event per year.
pub const PER_YEAR: u64 = PER_SEVEN_YEARS * 7;

/// Frequency units of one event per month.
pub const PER_MONTH: u64 = PER_YEAR * 12;

/// Frequency units of one event per day.
pub const PER_DAY: u64 = PER_MONTH * 30;

/// Frequency units of one event per week.
pub const PER_WEEK: u64 = PER_DAY / 7;

/// Frequency units of one event per hour.
pub const PER_HOUR: u64 = PER_DAY * 24;

/// Frequency units of one event per minute; also the fixed-point "one" for
/// `Probability`.
pub const PER_MINUTE: u64 = PER_HOUR * 60;

/// The probability denominator: a `Probability` of `PROB_ONE` always fires.
pub const PROB_ONE: u64 = PER_MINUTE;

/// An instant of simulated time, counted in minutes from the start of the run.
#[derive(Debug, Clone, Copy, PartialEq, Eq, Structural)]
pub struct SimInstant(pub u64);

impl SimInstant {
    /// The start of simulated time.
    pub fn zero() -> (r: Self)
        ensures
            r.0 == 0,
    {
        SimInstant(0)
    }

    /// This instant shifted later by `d` minutes.
    pub fn plus(self, d: SimDuration) -> (r: Self)
        requires
            self.0 + d.0 <= u64::MAX,
        ensures
            r.0 == self.0 + d.0,
    {
        SimInstant(self.0 + d.0)
    }
}

/// A non-negative span of simulated time, in minutes.
#[derive(Debug, Clone, Copy, PartialEq, Eq, Structural)]
pub struct SimDuration(pub u64);

impl SimDuration {
    /// The empty duration.
    pub fn zero() -> (r: Self)
        ensures
            r.0 == 0,
    {
        SimDuration(0)
    }
}

/// A rate of events per unit time, in units of `1 / (PROB_ONE minutes)`:
/// a `Frequency` of `PER_HOUR` is one event per hour on average.
#[derive(Debug, Clone, Copy, PartialEq, Eq, Structural)]
pub struct Frequency(pub u64);

impl Frequency {
    /// One event per minute: the fastest representable rate.
    pub fn once_per_minute() -> (r: Self)
        ensures
            r.0 == PER_MINUTE,
    {
        Frequency(PER_MINUTE)
    }

    /// `freq` events per hour.
    pub fn from_freq_per_hour(freq: u64) -> (r: Self)
        requires
            freq * PER_HOUR <= u64::MAX,
        ensures
            r.0 == freq * PER_HOUR,
    {
        Frequency(freq * PER_HOUR)
    }

    /// `freq` events per day.
    pub fn from_freq_per_day(freq: u64) -> (r: Self)
        requires
            freq * PER_DAY <= u64::MAX,
        ensures
            r.0 == freq * PER_DAY,
    {
        Frequency(freq * PER_DAY)
    }

    /// `times` events per week.
    pub fn from_freq_per_week(times: u64) -> (r: Self)
        requires
            times * PER_WEEK <= u64::MAX,
        ensures
            r.0 == times * PER_WEEK,
    {
        Frequency(times * PER_WEEK)
    }

    /// `times` events per month.
    pub fn from_freq_per_month(times: u64) -> (r: Self)
        requires
            times * PER_MONTH <= u64::MAX,
        ensures
            r.0 == times * PER_MONTH,
    {
        Frequency(times * PER_MONTH)
    }

    /// `times` events per year.
    pub fn from_freq_per_year(times: u64) -> (r: Self)
        requires
            times * PER_YEAR <= u64::MAX,
        ensures
            r.0 == times * PER_YEAR,
    {
        Frequency(times * PER_YEAR)
    }

    /// One event per `period`: `PER_MINUTE / period` frequency units, so that
    /// `Probability::from_frequency(Frequency::from_period(d))` fires on
    /// average once every `d` minutes.
    pub fn from_period(period: SimDuration) -> (r: Self)
        requires
            period.0 > 0,
        ensures
            r.0 == PER_MINUTE as int / period.0 as int,
    {
        Frequency(PER_MINUTE / period.0)
    }
}

/// A per-tick firing chance, as a fixed-point fraction of `PROB_ONE`.
///
/// A probability `p` fires on a uniform draw `r` from `[0, PROB_ONE)` exactly
/// when `p.0 >= r`.
#[derive(Debug, Clone, Copy, PartialEq, Eq, Structural)]
pub struct Probability(pub u64);

impl Probability {
    /// The per-minute chance equivalent to `freq`: the same fixed-point value.
    pub fn from_frequency(freq: Frequency) -> (r: Self)
        ensures
            r.0 == freq.0,
    {
        Probability(freq.0)
    }

    /// `percent` chances in one hundred.
    pub fn from_percent(percent: u64) -> (r: Self)
        requires
            percent <= 100,
        ensures
            r.0 == percent * PROB_ONE as int / 100,
    {
        Probability(percent * PROB_ONE / 100)
    }

    /// `permille` chances in one thousand.
    pub fn from_permille(permille: u64) -> (r: Self)
        requires
            permille <= 1000,
        ensures
            r.0 == permille * PROB_ONE as int / 1000,
    {
        Probability(permille * PROB_ONE / 1000)
    }

    /// Whether this probability fires on the uniform draw `roll`.
    pub fn does_fire(&self, roll: &DiceRoll<PROB_ONE>) -> (r: bool)
        ensures
            r == (self.0 >= roll.0),
    {
        self.0 >= roll.0
    }
}

/// One uniform sample from `[0, SIDES)`, drawn by rejection from a 64-bit
/// pseudorandom stream.
pub struct DiceRoll<const SIDES: u64>(pub u64);

} // verus!
