//! What clocks show after their times were set and advanced, in any order.
//!
//! Setting or advancing a clock takes one step under its lock, so that whatever its holders do comes
//! to these steps one after the other, in some order.

use parking_lot::Mutex;
use vstd::prelude::*;

use crate::time;
use crate::time::{Duration, Timestamp};
use crate::tree::snapshot::clock;
use crate::tree::snapshot::clock::FixedClock;

verus! {

// One clock.

/// What happens to the time of a clock.
pub enum Tick {
    /// It is set.
    SetTo(Timestamp),
    /// It is advanced.
    AdvanceBy(Duration),
}

impl Tick {
    /// The time or the span is valid.
    pub open spec fn valid(self) -> bool {
        match self {
            Tick::SetTo(time) => time.valid(),
            Tick::AdvanceBy(span) => span.valid(),
        }
    }

    /// The time after the tick.
    pub open spec fn applied(self, now: Timestamp) -> Timestamp {
        match self {
            Tick::SetTo(time) => time,
            Tick::AdvanceBy(span) => now.spec_after(span),
        }
    }
}

/// The time after all `ticks`, in order.
pub open spec fn time_after(first: Timestamp, ticks: Seq<Tick>) -> Timestamp
    decreases ticks.len(),
{
    if ticks.len() == 0 {
        first
    } else {
        ticks.last().applied(time_after(first, ticks.drop_last()))
    }
}

/// The last time that `ticks` set, or `first` if they set none.
pub open spec fn last_set(first: Timestamp, ticks: Seq<Tick>) -> Timestamp
    decreases ticks.len(),
{
    if ticks.len() == 0 {
        first
    } else {
        match ticks.last() {
            Tick::SetTo(time) => time,
            Tick::AdvanceBy(_) => last_set(first, ticks.drop_last()),
        }
    }
}

/// The nanoseconds that `ticks` advance behind the last time they set.
pub open spec fn advanced_since(ticks: Seq<Tick>) -> int
    decreases ticks.len(),
{
    if ticks.len() == 0 {
        0
    } else {
        match ticks.last() {
            Tick::SetTo(_) => 0,
            Tick::AdvanceBy(span) => advanced_since(ticks.drop_last()) + span.total_nanos(),
        }
    }
}

/// After any sets and advances the time is the last one set plus the advances behind it, or the last
/// point in time if that is past it.
pub proof fn time_is_the_last_set_plus_advances(first: Timestamp, ticks: Seq<Tick>)
    requires
        first.valid(),
        forall|i: int| 0 <= i < ticks.len() ==> (#[trigger] ticks[i]).valid(),
    ensures
        0 <= advanced_since(ticks),
        last_set(first, ticks).valid(),
        time_after(first, ticks) == Timestamp::of_nanos(
            last_set(first, ticks).spec_nanos() + advanced_since(ticks),
        ),
        last_set(first, ticks).spec_nanos() + advanced_since(ticks) <= time::MAX_NANOS
            ==> time_after(first, ticks).spec_nanos() == last_set(first, ticks).spec_nanos()
            + advanced_since(ticks),
    decreases ticks.len(),
{
    if ticks.len() > 0 {
        let init = ticks.drop_last();
        let last = ticks[ticks.len() - 1];
        assert(last.valid());
        assert forall|i: int| 0 <= i < init.len() implies (#[trigger] init[i]).valid() by {
            assert(ticks[i].valid());
        }
        time_is_the_last_set_plus_advances(first, init);
        let base = last_set(first, init);
        time::points_are_their_nanos(base, base);
        if let Tick::AdvanceBy(span) = last {
            time::advance_meaning(base.spec_nanos() + advanced_since(init), span);
        }
    }
    let base = last_set(first, ticks);
    time::points_are_their_nanos(base, base);
    time::nanos_of_point(base.spec_nanos() + advanced_since(ticks));
}

// Several clocks.

/// The times behind all locks when they were made.
pub open spec fn first_times() -> Map<Mutex<Timestamp>, Timestamp> {
    Map::new(|lock: Mutex<Timestamp>| true, |lock: Mutex<Timestamp>| clock::first_time(lock))
}

/// The times behind all locks after `events`, in order: ticks, each through one of the clocks.
pub open spec fn times_after(events: Seq<(FixedClock, Tick)>) -> Map<Mutex<Timestamp>, Timestamp>
    decreases events.len(),
{
    if events.len() == 0 {
        first_times()
    } else {
        let before = times_after(events.drop_last());
        let (through, tick) = events.last();
        before.insert(through.lock(), tick.applied(before[through.lock()]))
    }
}

/// The time that a clock shows after `events`.
pub open spec fn shown(events: Seq<(FixedClock, Tick)>, clock: FixedClock) -> Timestamp {
    times_after(events)[clock.lock()]
}

/// The ticks through a clock and those that share its time, in order.
pub open spec fn ticks_of(events: Seq<(FixedClock, Tick)>, clock: FixedClock) -> Seq<Tick>
    decreases events.len(),
{
    if events.len() == 0 {
        Seq::empty()
    } else {
        let before = ticks_of(events.drop_last(), clock);
        let (through, tick) = events.last();
        if through.lock() == clock.lock() {
            before.push(tick)
        } else {
            before
        }
    }
}

/// A clock starts with the time it was made with, and follows the ticks through itself and those
/// that share its time, whichever of them they come through, and no others.
pub proof fn clocks_follow_shared_ticks(events: Seq<(FixedClock, Tick)>, clock: FixedClock)
    ensures
        shown(events, clock) == time_after(
            clock::first_time(clock.lock()),
            ticks_of(events, clock),
        ),
    decreases events.len(),
{
    if events.len() > 0 {
        let init = events.drop_last();
        clocks_follow_shared_ticks(init, clock);
        let (through, tick) = events.last();
        if through.lock() == clock.lock() {
            let before = ticks_of(init, clock);
            assert(before.push(tick).drop_last() =~= before);
        }
    }
}

/// Right after a clock was set, it and those that share its time show that time, and all others show
/// what they showed before.
pub proof fn set_is_shown(
    events: Seq<(FixedClock, Tick)>,
    set: FixedClock,
    time: Timestamp,
    other: FixedClock,
)
    ensures
        ({
            let after = events.push((set, Tick::SetTo(time)));
            shown(after, other) == (if other.lock() == set.lock() {
                time
            } else {
                shown(events, other)
            })
        }),
{
    assert(events.push((set, Tick::SetTo(time))).drop_last() =~= events);
}

/// Right after a clock was advanced, it and those that share its time show a time that is so much
/// later, and all others show what they showed before.
pub proof fn advance_is_shown(
    events: Seq<(FixedClock, Tick)>,
    advanced: FixedClock,
    span: Duration,
    other: FixedClock,
)
    ensures
        ({
            let after = events.push((advanced, Tick::AdvanceBy(span)));
            shown(after, other) == (if other.lock() == advanced.lock() {
                shown(events, advanced).spec_after(span)
            } else {
                shown(events, other)
            })
        }),
{
    assert(events.push((advanced, Tick::AdvanceBy(span))).drop_last() =~= events);
}

} // verus!
