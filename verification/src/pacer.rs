//! Drift-corrected native frame pacing.
//!
//! Times are nanoseconds of a monotonic clock.

use vstd::prelude::*;

verus! {

/// Schedules frames one interval apart.
#[derive(Debug, Clone, Copy, PartialEq, Eq, Structural)]
pub struct FramePacer {
    /// When the next frame is due.
    pub next_tick: u128,
    /// The time from one frame to the next.
    pub interval: u128,
}

/// The deadline after a frame that was due at `due` and ended at `now`: one
/// interval after the old deadline, or, if that has passed already, one
/// interval from now.
pub open spec fn deadline_after(due: int, interval: int, now: int) -> int {
    if due + interval <= now {
        now + interval
    } else {
        due + interval
    }
}

/// The deadline after a frame was skipped at time `now`, whatever it was
/// before.
pub open spec fn after_skip(interval: int, now: int) -> int {
    now + interval
}

/// How long there is to wait at time `now` for a frame that is due at `due`.
pub open spec fn waiting(due: int, now: int) -> int {
    if due > now {
        due - now
    } else {
        0
    }
}

impl FramePacer {
    /// Schedule the first frame one interval from now.
    pub fn new(interval: u128, now: u128) -> (r: Self)
        requires
            now + interval <= u128::MAX,
        ensures
            r.next_tick == now + interval,
            r.interval == interval,
    {
        FramePacer { next_tick: now + interval, interval }
    }

    /// How long to sleep until the next frame is due; nothing if it is.
    pub fn time_until_next_frame(&self, now: u128) -> (r: Option<u128>)
        ensures
            r == (if self.next_tick > now {
                Some((self.next_tick - now) as u128)
            } else {
                None
            }),
            waiting(self.next_tick as int, now as int) == (match r {
                Some(nanos) => nanos as int,
                None => 0,
            }),
    {
        if self.next_tick > now {
            Some(self.next_tick - now)
        } else {
            None
        }
    }

    /// Schedule the next frame once the sleep is over, correcting for
    /// occasional slow frames without accumulating delay forever.
    pub fn schedule_next_frame(&mut self, now: u128)
        requires
            old(self).next_tick + old(self).interval <= u128::MAX,
            now + old(self).interval <= u128::MAX,
        ensures
            final(self).next_tick == deadline_after(
                old(self).next_tick as int,
                old(self).interval as int,
                now as int,
            ),
            final(self).interval == old(self).interval,
    {
        self.next_tick = self.next_tick + self.interval;
        if self.next_tick <= now {
            self.next_tick = now + self.interval;
        }
    }

    /// Drop the normal frame-rate limit while a frontend turbo modifier is
    /// held, without leaving a stale deadline to delay the next normal frame.
    pub fn skip_frame(&mut self, now: u128)
        requires
            now + old(self).interval <= u128::MAX,
        ensures
            final(self).next_tick == after_skip(old(self).interval as int, now as int),
            final(self).interval == old(self).interval,
    {
        self.next_tick = now + self.interval;
    }
}

/// After a frame the next deadline lies ahead, at most one interval after the
/// later of now and the old deadline.
pub proof fn the_next_deadline_lies_ahead(due: int, interval: int, now: int)
    requires
        interval > 0,
    ensures
        deadline_after(due, interval, now) > now,
        deadline_after(due, interval, now) <= due + interval || deadline_after(due, interval, now)
            <= now + interval,
{
}

/// The deadline after frames were skipped at the given times.
pub open spec fn deadline_after_skips(due: int, interval: int, skips: Seq<int>) -> int {
    if skips.len() == 0 {
        due
    } else {
        after_skip(interval, skips.last())
    }
}

/// A skipped frame leaves no stale deadline: however many frames were skipped,
/// and wherever the deadline was before, the next wait is at most one
/// interval.
pub proof fn a_skip_leaves_at_most_one_interval(
    due: int,
    interval: int,
    skips: Seq<int>,
    now: int,
)
    requires
        interval >= 0,
        skips.len() > 0,
        skips.last() <= now,
    ensures
        0 <= waiting(deadline_after_skips(due, interval, skips), now) <= interval,
{
}

/// The deadline after frames that ended the given times after the deadlines
/// they were due at.
pub open spec fn deadline_after_frames(due: int, interval: int, late: Seq<int>) -> int
    decreases late.len(),
{
    if late.len() == 0 {
        due
    } else {
        let last = deadline_after_frames(due, interval, late.drop_last());
        deadline_after(last, interval, last + late.last())
    }
}

/// Frames that each end less than one interval after their deadline keep the
/// cadence exactly: the lateness of one is not carried over to the next.
pub proof fn lateness_does_not_accumulate(due: int, interval: int, late: Seq<int>)
    requires
        forall|i: int| 0 <= i < late.len() ==> late[i] < interval,
    ensures
        deadline_after_frames(due, interval, late) == due + late.len() * interval,
    decreases late.len(),
{
    let n = late.len();
    if n > 0 {
        assert(late.drop_last().len() == n - 1);
        lateness_does_not_accumulate(due, interval, late.drop_last());
        assert(late.last() < interval);
        assert((n - 1) * interval + interval == n * interval) by (nonlinear_arith);
    } else {
        assert(n * interval == 0) by (nonlinear_arith)
            requires
                n == 0,
        ;
    }
}

/// The next deadline is one interval after the last, so long as that lies
/// ahead, and one interval from now otherwise.
pub proof fn a_deadline_that_lies_ahead_is_kept(due: int, interval: int, now: int)
    ensures
        now < due + interval ==> deadline_after(due, interval, now) - due == interval,
        now >= due + interval ==> deadline_after(due, interval, now) - now == interval,
{
}

/// A wait ends when the frame is due, or is none if that time has come.
pub proof fn a_wait_ends_at_the_deadline(due: int, now: int)
    ensures
        now <= due ==> now + waiting(due, now) == due,
        now >= due ==> waiting(due, now) == 0,
{
}

/// A skipped frame puts the deadline one interval from now.
pub proof fn a_skip_starts_over(interval: int, now: int)
    ensures
        after_skip(interval, now) - now == interval,
        waiting(after_skip(interval, now), now) == (if interval > 0 {
            interval
        } else {
            0
        }),
{
}

} // verus!
