//! Points in time and spans of time.

use vstd::prelude::*;

verus! {

/// Nanoseconds in a second.
pub const NANOS_PER_SEC: u32 = 1_000_000_000;

/// The nanoseconds of the longest span there is: the largest number of seconds and all but one of
/// the nanoseconds of another one.
pub const MAX_NANOS: i128 = 18_446_744_073_709_551_615_999_999_999;

/// A span of time.
#[derive(Copy, Clone, PartialEq, Eq, Structural, Debug)]
pub struct Duration {
    secs: u64,
    nanos: u32,
}

impl Duration {
    /// The nanoseconds on top of the whole seconds are less than a second.
    #[verifier::type_invariant]
    pub closed spec fn valid(self) -> bool {
        self.nanos < NANOS_PER_SEC
    }

    /// The span in nanoseconds.
    pub closed spec fn total_nanos(self) -> int {
        self.secs * NANOS_PER_SEC + self.nanos
    }

    /// A span of `secs` seconds and `nanos` nanoseconds. A second's worth of nanoseconds is carried
    /// over.
    pub fn new(secs: u64, nanos: u32) -> (res: Duration)
        requires
            secs + nanos / NANOS_PER_SEC <= u64::MAX,
        ensures
            res.valid(),
            res.total_nanos() == secs * NANOS_PER_SEC + nanos,
    {
        Duration {
            secs: secs + (nanos / NANOS_PER_SEC) as u64,
            nanos: nanos % NANOS_PER_SEC,
        }
    }

    /// A span of whole seconds.
    pub fn from_secs(secs: u64) -> (res: Duration)
        ensures
            res.valid(),
            res.total_nanos() == secs * NANOS_PER_SEC,
    {
        Duration { secs, nanos: 0 }
    }
}

fn nanos_of(secs: u64, nanos: u32) -> (res: i128)
    ensures
        res == secs * NANOS_PER_SEC + nanos,
        0 <= res <= MAX_NANOS + u32::MAX,
{
    assert(0 <= secs * 1_000_000_000 <= 18_446_744_073_709_551_615_000_000_000);
    secs as i128 * NANOS_PER_SEC as i128 + nanos as i128
}

proof fn split_span(secs: int, nanos: int)
    requires
        0 <= nanos < NANOS_PER_SEC,
    ensures
        (secs * NANOS_PER_SEC + nanos) / NANOS_PER_SEC as int == secs,
        (secs * NANOS_PER_SEC + nanos) % NANOS_PER_SEC as int == nanos,
{
    vstd::arithmetic::div_mod::lemma_fundamental_div_mod_converse(
        secs * NANOS_PER_SEC + nanos,
        NANOS_PER_SEC as int,
        secs,
        nanos,
    );
}

/// Spans that are equally long are equal.
pub proof fn equal_spans_are_equal(one: Duration, other: Duration)
    requires
        one.valid(),
        other.valid(),
        one.total_nanos() == other.total_nanos(),
    ensures
        one == other,
{
    split_span(one.secs as int, one.nanos as int);
    split_span(other.secs as int, other.nanos as int);
}

/// A point in time, which is no further from the Unix epoch than the longest span.
#[derive(Copy, Clone, PartialEq, Eq, Structural, Debug)]
pub struct Timestamp {
    nanos: i128,
}

impl Timestamp {
    /// The point is no further from the epoch than the longest span.
    #[verifier::type_invariant]
    pub closed spec fn valid(self) -> bool {
        -MAX_NANOS <= self.nanos <= MAX_NANOS
    }

    /// Nanoseconds since the epoch. They are negative for points before it.
    pub closed spec fn spec_nanos(self) -> int {
        self.nanos as int
    }

    /// The point so many nanoseconds after the epoch, or the last one there is.
    pub closed spec fn of_nanos(nanos: int) -> Timestamp {
        Timestamp {
            nanos: if nanos > MAX_NANOS {
                MAX_NANOS
            } else {
                nanos as i128
            },
        }
    }

    /// Nanoseconds since the epoch.
    pub fn nanos(&self) -> (res: i128)
        ensures
            res == self.spec_nanos(),
    {
        self.nanos
    }

    /// The Unix epoch.
    pub fn epoch() -> (res: Timestamp)
        ensures
            res.valid(),
            res.spec_nanos() == 0,
    {
        Timestamp { nanos: 0 }
    }

    /// The point `secs` seconds and `nanos` nanoseconds after the epoch, or the last one there is.
    pub open spec fn spec_at(secs: u64, nanos: u32) -> Timestamp {
        Timestamp::of_nanos(secs * NANOS_PER_SEC + nanos)
    }

    /// The whole seconds and the remaining nanoseconds that passed since the epoch, or `None` for
    /// a point before it.
    pub open spec fn spec_since_epoch(self) -> Option<(u64, u32)> {
        if self.spec_nanos() < 0 {
            None
        } else {
            Some(
                (
                    (self.spec_nanos() / NANOS_PER_SEC as int) as u64,
                    (self.spec_nanos() % NANOS_PER_SEC as int) as u32,
                ),
            )
        }
    }

    /// The point `secs` seconds and `nanos` nanoseconds after the epoch.
    pub fn at(secs: u64, nanos: u32) -> (res: Timestamp)
        ensures
            res.valid(),
            res == Timestamp::spec_at(secs, nanos),
            nanos < NANOS_PER_SEC ==> res.spec_nanos() == secs * NANOS_PER_SEC + nanos,
    {
        let total: i128 = nanos_of(secs, nanos);
        if total > MAX_NANOS {
            Timestamp { nanos: MAX_NANOS }
        } else {
            Timestamp { nanos: total }
        }
    }

    /// The time that passed since the epoch, as whole seconds and the nanoseconds left over.
    pub fn since_epoch(self) -> (res: Option<(u64, u32)>)
        ensures
            res == self.spec_since_epoch(),
    {
        proof {
            use_type_invariant(&self);
        }
        if self.nanos < 0 {
            return None;
        }
        let secs: i128 = self.nanos / NANOS_PER_SEC as i128;
        let nanos: i128 = self.nanos % NANOS_PER_SEC as i128;
        Some((secs as u64, nanos as u32))
    }

    /// The point `span` after this one, or the last one there is.
    pub open spec fn spec_after(self, span: Duration) -> Timestamp {
        Timestamp::of_nanos(self.spec_nanos() + span.total_nanos())
    }

    /// The point `span` after this one.
    pub fn after(self, span: Duration) -> (res: Timestamp)
        ensures
            res.valid(),
            res == self.spec_after(span),
    {
        proof {
            use_type_invariant(&self);
        }
        let total: i128 = self.nanos + nanos_of(span.secs, span.nanos);
        if total > MAX_NANOS {
            Timestamp { nanos: MAX_NANOS }
        } else {
            Timestamp { nanos: total }
        }
    }

    /// The point that a clock shows which is so many seconds and nanoseconds after the epoch, or
    /// before it if the reading is an error.
    pub fn of_reading(reading: Result<(u64, u32), (u64, u32)>) -> (res: Timestamp)
        ensures
            res.valid(),
            match reading {
                Ok((secs, nanos)) => res == Timestamp::spec_at(secs, nanos),
                Err((secs, nanos)) => res.spec_nanos() == -Timestamp::spec_at(
                    secs,
                    nanos,
                ).spec_nanos(),
            },
    {
        match reading {
            Ok((secs, nanos)) => Timestamp::at(secs, nanos),
            Err((secs, nanos)) => {
                let mirrored = Timestamp::at(secs, nanos);
                proof {
                    use_type_invariant(&mirrored);
                }
                Timestamp { nanos: -mirrored.nanos }
            },
        }
    }

    /// Whether this is a valid point that is the epoch or lies after it.
    pub open spec fn countable(self) -> bool {
        self.valid() && 0 <= self.spec_nanos()
    }
}

/// Points with the same nanoseconds are the same, and every number of nanoseconds of a valid point
/// is that of one.
pub proof fn points_are_their_nanos(time: Timestamp, other: Timestamp)
    requires
        time.valid(),
    ensures
        -MAX_NANOS <= time.spec_nanos() <= MAX_NANOS,
        Timestamp::of_nanos(time.spec_nanos()) == time,
        time.spec_nanos() == other.spec_nanos() ==> time == other,
{
}

/// The nanoseconds of the point that a number of them stands for.
pub proof fn nanos_of_point(nanos: int)
    requires
        -MAX_NANOS <= nanos,
    ensures
        Timestamp::of_nanos(nanos).valid(),
        Timestamp::of_nanos(nanos).spec_nanos() == (if nanos > MAX_NANOS {
            MAX_NANOS as int
        } else {
            nanos
        }),
{
}

/// A point at or after the epoch survives being split into seconds and nanoseconds.
pub proof fn timestamp_round_trips(t: Timestamp)
    requires
        t.countable(),
    ensures
        t.spec_since_epoch() matches Some((secs, nanos)) && nanos < NANOS_PER_SEC
            && Timestamp::spec_at(secs, nanos) == t,
{
}

/// Splitting a point into seconds and nanoseconds undoes putting it together from them, unless
/// the nanoseconds hold a whole second or more.
pub proof fn split_timestamp_round_trips(secs: u64, nanos: u32)
    requires
        nanos < NANOS_PER_SEC,
    ensures
        Timestamp::spec_at(secs, nanos).valid(),
        Timestamp::spec_at(secs, nanos).spec_since_epoch() == Some((secs, nanos)),
{
    split_span(secs as int, nanos as int);
}

/// Going on from a point by a span is going on by the span's nanoseconds, which are not negative.
pub proof fn advance_meaning(nanos: int, span: Duration)
    requires
        -MAX_NANOS <= nanos,
        span.valid(),
    ensures
        0 <= span.total_nanos(),
        Timestamp::of_nanos(nanos).spec_after(span) == Timestamp::of_nanos(
            nanos + span.total_nanos(),
        ),
{
}

/// Advances add up: going on by one span and then by another is going on by both.
pub proof fn advances_add_up(time: Timestamp, first: Duration, second: Duration)
    requires
        time.valid(),
        first.valid(),
        second.valid(),
    ensures
        time.spec_after(first).spec_after(second) == Timestamp::of_nanos(
            time.spec_nanos() + first.total_nanos() + second.total_nanos(),
        ),
        time.spec_nanos() + first.total_nanos() + second.total_nanos() <= MAX_NANOS
            ==> time.spec_after(first).spec_after(second).spec_nanos() == time.spec_nanos()
            + first.total_nanos() + second.total_nanos(),
{
}

} // verus!
