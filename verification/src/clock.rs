//! Points in time and spans of time, counted in nanoseconds.
use crate::digits::{decimal, decimal_text, fraction, fraction_text};
use crate::text::join_three;
use vstd::prelude::*;

verus! {

/// Nanoseconds in one second.
pub const NANOS_PER_SEC: u64 = 1_000_000_000;

/// Nanoseconds in one millisecond.
pub const NANOS_PER_MILLI: u64 = 1_000_000;

/// A span of time.
#[derive(Clone, Copy, Debug, PartialEq, Eq, PartialOrd, Ord, Hash, Structural)]
pub struct Duration {
    pub nanos: u64,
}

/// A point in time, counted from a start that the clock chose.
#[derive(Clone, Copy, Debug, PartialEq, Eq, PartialOrd, Ord, Hash, Structural)]
pub struct Instant {
    pub nanos: u64,
}

impl Duration {
    /// A span of `secs` seconds.
    pub fn from_secs(secs: u64) -> (d: Duration)
        requires
            secs * NANOS_PER_SEC <= u64::MAX,
        ensures
            d.nanos == secs * NANOS_PER_SEC,
            d.nanos == secs * 1_000_000_000,
    {
        Duration { nanos: secs * NANOS_PER_SEC }
    }

    /// A span of `millis` milliseconds.
    pub fn from_millis(millis: u64) -> (d: Duration)
        requires
            millis * NANOS_PER_MILLI <= u64::MAX,
        ensures
            d.nanos == millis * NANOS_PER_MILLI,
            d.nanos == millis * 1_000_000,
    {
        Duration { nanos: millis * NANOS_PER_MILLI }
    }

    /// The whole seconds in this span.
    pub fn as_secs(&self) -> (secs: u64)
        ensures
            secs == self.nanos / NANOS_PER_SEC,
    {
        self.nanos / NANOS_PER_SEC
    }

    /// The whole milliseconds in this span.
    pub fn as_millis(&self) -> (millis: u64)
        ensures
            millis == self.nanos / NANOS_PER_MILLI,
    {
        self.nanos / NANOS_PER_MILLI
    }
}

/// How long ago `earlier` was at `now`; zero where it lies ahead.
pub open spec fn since(now: Instant, earlier: Instant) -> int {
    if now.nanos >= earlier.nanos {
        now.nanos - earlier.nanos
    } else {
        0
    }
}

impl Instant {
    /// The point in time `d` after this one.
    pub fn after(&self, d: Duration) -> (t: Instant)
        requires
            self.nanos + d.nanos <= u64::MAX,
        ensures
            t.nanos == self.nanos + d.nanos,
    {
        Instant { nanos: self.nanos + d.nanos }
    }

    /// How long ago this point was at `now`; zero where it lies ahead.
    pub fn elapsed(&self, now: Instant) -> (d: Duration)
        ensures
            d.nanos == since(now, *self),
    {
        if now.nanos >= self.nanos {
            Duration { nanos: now.nanos - self.nanos }
        } else {
            Duration { nanos: 0 }
        }
    }
}

/// A span of time in the largest unit that it fills, from seconds down to nanoseconds.
pub open spec fn duration_text(nanos: nat) -> Seq<char> {
    if nanos >= 1_000_000_000 {
        decimal(nanos / 1_000_000_000) + fraction(nanos % 1_000_000_000, 9) + "s"@
    } else if nanos >= 1_000_000 {
        decimal(nanos / 1_000_000) + fraction(nanos % 1_000_000, 6) + "ms"@
    } else if nanos >= 1_000 {
        decimal(nanos / 1_000) + fraction(nanos % 1_000, 3) + "µs"@
    } else {
        decimal(nanos) + fraction(0, 0) + "ns"@
    }
}

impl Duration {
    /// This span in the largest unit that it fills, from seconds down to nanoseconds.
    pub fn to_text(&self) -> (s: String)
        ensures
            s@ == duration_text(self.nanos as nat),
    {
        let n: u64 = self.nanos;
        let (whole, rest, width, unit): (u64, u64, usize, &str) = if n >= 1_000_000_000 {
            (n / 1_000_000_000, n % 1_000_000_000, 9, "s")
        } else if n >= 1_000_000 {
            (n / 1_000_000, n % 1_000_000, 6, "ms")
        } else if n >= 1_000 {
            (n / 1_000, n % 1_000, 3, "µs")
        } else {
            (n, 0, 0, "ns")
        };
        join_three(decimal_text(whole).as_str(), fraction_text(rest, width).as_str(), unit)
    }
}

/// A time that lies ahead is no time ago, and of two times the earlier one is longer ago, by as much
/// as lies between them.
pub proof fn times_ago(now: Instant, earlier: Instant)
    ensures
        since(now, earlier) >= 0,
        now.nanos <= earlier.nanos ==> since(now, earlier) == 0,
        now.nanos >= earlier.nanos ==> earlier.nanos + since(now, earlier) == now.nanos,
{
}

/// A span is written in the largest of the units second, millisecond, microsecond and nanosecond that
/// it fills, and whole ones are written without a fraction.
pub proof fn spans_are_written_in_their_unit(n: nat)
    ensures
        0 < n ==> duration_text(n * 1_000_000_000) == decimal(n) + "s"@,
        0 < n < 1000 ==> duration_text(n * 1_000_000) == decimal(n) + "ms"@,
        0 < n < 1000 ==> duration_text(n * 1_000) == decimal(n) + "µs"@,
        n < 1000 ==> duration_text(n) == decimal(n) + "ns"@,
        n >= 1_000_000_000 ==> duration_text(n) == decimal(n / 1_000_000_000) + fraction(
            n % 1_000_000_000,
            9,
        ) + "s"@,
        1_000_000 <= n < 1_000_000_000 ==> duration_text(n) == decimal(n / 1_000_000) + fraction(
            n % 1_000_000,
            6,
        ) + "ms"@,
        1_000 <= n < 1_000_000 ==> duration_text(n) == decimal(n / 1_000) + fraction(n % 1_000, 3)
            + "µs"@,
{
    let none = Seq::<char>::empty();
    assert(decimal(n) + none =~= decimal(n));
    assert(fraction(0, 9) =~= none && fraction(0, 6) =~= none && fraction(0, 3) =~= none
        && fraction(0, 0) =~= none);
}

/// A second has 10^9 nanoseconds and a millisecond 10^6.
pub proof fn units_of_time()
    ensures
        NANOS_PER_SEC == 1_000_000_000,
        NANOS_PER_MILLI == 1_000_000,
{
}

/// A span of whole seconds or milliseconds has as many of them, and adding a span to a time is undone
/// by asking how long ago that time was.
pub proof fn spans_are_read_back(secs: u64, d: Duration, back: u64, now: Instant, later: Instant)
    requires
        secs * 1_000_000_000 <= u64::MAX,
        call_ensures(Duration::from_secs, (secs,), d),
        call_ensures(Duration::as_secs, (&d,), back),
        now.nanos + d.nanos <= u64::MAX,
        call_ensures(Instant::after, (&now, d), later),
    ensures
        back == secs,
        since(later, now) == secs * 1_000_000_000,
{
}

/// A span of whole milliseconds has as many of them, and what is left of a span beyond its whole
/// milliseconds is less than one.
pub proof fn milliseconds_are_read_back(millis: u64, d: Duration, back: u64, span: Duration, whole: u64)
    requires
        millis * 1_000_000 <= u64::MAX,
        call_ensures(Duration::from_millis, (millis,), d),
        call_ensures(Duration::as_millis, (&d,), back),
        call_ensures(Duration::as_millis, (&span,), whole),
    ensures
        back == millis,
        whole * 1_000_000 <= span.nanos < (whole + 1) * 1_000_000,
{
}

} // verus!
