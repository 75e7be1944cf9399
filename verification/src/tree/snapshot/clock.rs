//! Injectable clocks used to make snapshots reproducible.

use std::sync::Arc;

use parking_lot::Mutex;
use vstd::prelude::*;

use crate::time;
use crate::time::{Duration, Timestamp, NANOS_PER_SEC};

verus! {

/// The time that a lock was made with.
pub uninterp spec fn first_time(lock: Mutex<Timestamp>) -> Timestamp;

/// Whether, at some point in the life of the lock, a holder of it finds the time `before` and leaves
/// the time `after`.
pub uninterp spec fn steps(lock: Mutex<Timestamp>, before: Timestamp, after: Timestamp) -> bool;

/// Makes a lock with `parking_lot::Mutex::new`, which puts `time` behind it.
#[verifier::external_body]
fn new_lock(time: Timestamp) -> (res: Mutex<Timestamp>)
    ensures
        first_time(res) == time,
{
    Mutex::new(time)
}

/// Runs `change` on the time behind the lock, which `parking_lot::Mutex::lock` gives access to for
/// as long as its guard lives. The result is what `change` returns for the time it found, and
/// that time and the one it left are a step of the lock. Nothing is said of which time is found: that
/// is up to all holders. `change` must not take the same lock again.
#[verifier::external_body]
fn with_time<T, F: FnOnce(&mut Timestamp) -> T>(lock: &Mutex<Timestamp>, change: F) -> (res: T)
    requires
        forall|now: &mut Timestamp| change.requires((now,)),
    ensures
        exists|now: &mut Timestamp| #[trigger]
            change.ensures((now,), res) && steps(*lock, *now, *final(now)),
{
    change(&mut lock.lock())
}

/// A controllable clock for tests and deterministic replays.
///
/// Multiple clones share the same current time, advancing the time through one clone is visible
/// through all of them. Snapshots taken from a tree with a fixed clock contain exactly the
/// injected timestamps, which makes the serialized bytes reproducible.
#[derive(Debug)]
pub struct FixedClock {
    now: Arc<Mutex<Timestamp>>,
}

impl Clone for FixedClock {
    fn clone(&self) -> (res: FixedClock)
        ensures
            res == *self,
    {
        FixedClock { now: Arc::clone(&self.now) }
    }
}

impl FixedClock {
    /// The lock of the current time, which all clones share.
    pub closed spec fn lock(self) -> Mutex<Timestamp> {
        *self.now
    }

    /// Create a clock frozen at the Unix epoch.
    pub fn epoch() -> (res: FixedClock)
        ensures
            first_time(res.lock()).spec_nanos() == 0,
    {
        FixedClock::at(Timestamp::epoch())
    }

    /// Create a clock frozen at the given time.
    pub fn at(time: Timestamp) -> (res: FixedClock)
        ensures
            first_time(res.lock()) == time,
    {
        FixedClock { now: Arc::new(new_lock(time)) }
    }

    /// Advance the shared clock by `duration`.
    pub fn advance(&self, duration: Duration)
        ensures
            exists|before: Timestamp| #[trigger]
                steps(self.lock(), before, before.spec_after(duration)),
    {
        let change = |now: &mut Timestamp|
            ensures
                *final(now) == old(now).spec_after(duration),
            { *now = now.after(duration) };
        assert(self.lock() == *self.now);
        with_time(&self.now, change);
    }

    /// Set the shared clock to an absolute time.
    pub fn set(&self, time: Timestamp)
        ensures
            exists|before: Timestamp| #[trigger] steps(self.lock(), before, time),
    {
        let change = |now: &mut Timestamp|
            ensures
                *final(now) == time,
            { *now = time };
        assert(self.lock() == *self.now);
        with_time(&self.now, change);
    }

    /// The current time.
    pub fn get(&self) -> (res: Timestamp)
        ensures
            steps(self.lock(), res, res),
    {
        let read = |now: &mut Timestamp| -> (time: Timestamp)
            ensures
                time == *old(now),
                *final(now) == *old(now),
            { *now };
        with_time(&self.now, read)
    }
}

/// Reads the system clock with `std::time::SystemTime::elapsed` on the epoch: the seconds, and the
/// nanoseconds short of another second, that have passed since the epoch, or, as an error, those
/// that are left until it. Nothing is said of which reading comes.
#[verifier::external_body]
fn system_reading() -> (res: Result<(u64, u32), (u64, u32)>)
    ensures
        match res {
            Ok((_, nanos)) => nanos < NANOS_PER_SEC,
            Err((_, nanos)) => nanos < NANOS_PER_SEC,
        },
{
    match std::time::UNIX_EPOCH.elapsed() {
        Ok(span) => Ok((span.as_secs(), span.subsec_nanos())),
        Err(error) => Err((error.duration().as_secs(), error.duration().subsec_nanos())),
    }
}

/// Whether a reading of the system clock came out like this.
pub closed spec fn is_system_reading(reading: Result<(u64, u32), (u64, u32)>) -> bool {
    call_ensures(system_reading, (), reading)
}

/// Whether `time` is the point that a reading stands for: so many nanoseconds after the epoch, or,
/// for an error, before it.
pub open spec fn is_point_of(time: Timestamp, reading: Result<(u64, u32), (u64, u32)>) -> bool {
    &&& time.valid()
    &&& match reading {
        Ok((secs, nanos)) => time.spec_nanos() == secs * 1_000_000_000 + nanos,
        Err((secs, nanos)) => time.spec_nanos() == -(secs * 1_000_000_000 + nanos),
    }
}

/// A clock used to timestamp messages. It is injectable so that trees with a [`FixedClock`]
/// produce byte-reproducible snapshots.
#[derive(Debug)]
pub enum Clock {
    /// The clock of the system.
    System,
    /// A clock that shows what it was told to.
    Fixed(FixedClock),
}

impl Clone for Clock {
    fn clone(&self) -> (res: Clock)
        ensures
            res == *self,
    {
        match self {
            Clock::System => Clock::System,
            Clock::Fixed(clock) => Clock::Fixed(clock.clone()),
        }
    }
}

impl Clock {
    /// Whether this clock can show `time`. The clock of the system shows the points that readings of
    /// it stand for, which are so many seconds before or after the epoch as a `u64` can count, and
    /// less than another one.
    pub open spec fn shows(self, time: Timestamp) -> bool {
        match self {
            Clock::System => {
                &&& -(u64::MAX + 1) * NANOS_PER_SEC < time.spec_nanos() < (u64::MAX + 1)
                    * NANOS_PER_SEC
                &&& exists|reading: Result<(u64, u32), (u64, u32)>| #[trigger]
                    is_system_reading(reading) && is_point_of(time, reading)
            },
            Clock::Fixed(clock) => steps(clock.lock(), time, time),
        }
    }

    /// The current time.
    pub fn now(&self) -> (res: Timestamp)
        ensures
            self.shows(res),
    {
        match self {
            Clock::System => {
                // Called as a value, the function vouches for what it returned.
                let read = system_reading;
                let reading = read();
                let shown = Timestamp::of_reading(reading);
                proof {
                    time::points_are_their_nanos(shown, shown);
                    match reading {
                        Ok((secs, nanos)) => time::nanos_of_point(secs * NANOS_PER_SEC + nanos),
                        Err((secs, nanos)) => time::nanos_of_point(secs * NANOS_PER_SEC + nanos),
                    }
                    assert(is_system_reading(reading) && is_point_of(shown, reading));
                }
                shown
            },
            Clock::Fixed(clock) => clock.get(),
        }
    }
}

/// What counts as a reading of the system clock comes out of a call that reads it.
proof fn readings_are_taken(reading: Result<(u64, u32), (u64, u32)>)
    requires
        is_system_reading(reading),
    ensures
        call_ensures(system_reading, (), reading),
{
}

/// The time that the clock of the system returns is the point that a reading of it stands for: so
/// many seconds and nanoseconds after the epoch, or, where the reading failed, before it.
pub proof fn system_time_is_read(time: Timestamp)
    requires
        call_ensures(Clock::now, (&Clock::System,), time),
    ensures
        time.valid(),
        exists|reading: Result<(u64, u32), (u64, u32)>| #[trigger]
            is_system_reading(reading) && match reading {
                Ok((secs, nanos)) => time.spec_nanos() == secs * 1_000_000_000 + nanos,
                Err((secs, nanos)) => time.spec_nanos() == -(secs * 1_000_000_000 + nanos),
            },
{
}

/// The clock of the system shows exactly the points that readings of it stand for.
pub proof fn system_shows_readings(time: Timestamp)
    ensures
        Clock::System.shows(time) <==> time.valid() && exists|
            reading: Result<(u64, u32), (u64, u32)>,
        | #[trigger]
            is_system_reading(reading) && match reading {
                Ok((secs, nanos)) => time.spec_nanos() == secs * 1_000_000_000 + nanos,
                Err((secs, nanos)) => time.spec_nanos() == -(secs * 1_000_000_000 + nanos),
            },
{
    if time.valid() && exists|reading: Result<(u64, u32), (u64, u32)>| #[trigger]
        is_system_reading(reading) && is_point_of(time, reading) {
        let reading = choose|reading: Result<(u64, u32), (u64, u32)>| #[trigger]
            is_system_reading(reading) && is_point_of(time, reading);
        readings_are_taken(reading);
    }
}

} // verus!
