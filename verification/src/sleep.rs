//! Sleeping on the timer tick counter: a sleep waits until the counter
//! reaches a goal; the caller reads the counter and spins.
use vstd::prelude::*;

verus! {

pub struct Sleep;

impl Sleep {
    /// The tick count at which a sleep of `ms` milliseconds, started when
    /// the counter read `now`, ends (one tick per millisecond).
    pub fn ms(now: u64, ms: u64) -> (goal: u64)
        requires
            now + ms <= u64::MAX,
        ensures
            goal == now + ms,
    {
        now + ms
    }

    /// The tick count at which a sleep of `sec` seconds, started when the
    /// counter read `now`, ends.
    pub fn sec(now: u64, sec: u64) -> (goal: u64)
        requires
            now + sec * 1000 <= u64::MAX,
        ensures
            goal == now + sec * 1000,
    {
        now + sec * 1000
    }

    /// Whether the counter has reached the goal.
    pub fn reached(now: u64, goal: u64) -> (res: bool)
        ensures
            res == (now >= goal),
    {
        now >= goal
    }
}

} // verus!
