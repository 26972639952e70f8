//! Time: milliseconds since the epoch, deadlines, and a clock that is moved by hand.
use vstd::prelude::*;

use crate::builtin_run::{move_time, moved};

verus! {

/// `std::time::SystemTime::elapsed` on the Unix epoch: the milliseconds that have passed since it,
/// if the clock is not set before it. Nothing is said of the value.
#[verifier::external_body]
fn elapsed_ms() -> (r: Option<u128>) {
    std::time::UNIX_EPOCH.elapsed().ok().map(|d| d.as_millis())
}

/// The time of a clock that shows `elapsed` milliseconds since the epoch; zero before it, and the
/// largest time where it is later.
pub fn epoch_ms(elapsed: Option<u128>) -> (r: i64)
    ensures
        r == match elapsed {
            Some(ms) => if ms <= i64::MAX {
                ms as i64
            } else {
                i64::MAX
            },
            None => 0,
        },
        r >= 0,
{
    match elapsed {
        Some(ms) => if ms <= i64::MAX as u128 {
            ms as i64
        } else {
            i64::MAX
        },
        None => 0,
    }
}

/// The present time.
pub fn system_now_ms() -> (r: i64)
    ensures
        r >= 0,
{
    epoch_ms(elapsed_ms())
}

/// The text of a moment, given in milliseconds since the epoch, as chrono's
/// `DateTime::to_rfc3339_opts` writes it in UTC with milliseconds and a `Z`.
pub uninterp spec fn rfc3339(ms: i64) -> Seq<char>;

/// `chrono::DateTime::to_rfc3339_opts` on the moment that
/// `chrono::DateTime::from_timestamp_millis` gives, which is one for every number of milliseconds
/// that is admitted here: the text of the moment.
#[verifier::external_body]
pub(crate) fn rfc3339_text(ms: i64) -> (r: String)
    requires
        0 <= ms <= 8_000_000_000_000_000,
    ensures
        r@ == rfc3339(ms),
{
    let moment = chrono::DateTime::from_timestamp_millis(ms).unwrap_or_default();
    moment.to_rfc3339_opts(chrono::SecondsFormat::Millis, true)
}

/// A duration in milliseconds as far as it fits.
pub open spec fn fitted(ms: u128) -> i64 {
    if ms <= i64::MAX {
        ms as i64
    } else {
        i64::MAX
    }
}

/// A duration in milliseconds as far as it fits.
pub fn duration_ms(ms: u128) -> (r: i64)
    ensures
        r == fitted(ms),
{
    if ms <= i64::MAX as u128 {
        ms as i64
    } else {
        i64::MAX
    }
}

/// The deadline of a sleep of `ms` that starts at `now_ms`.
pub fn sleep_deadline(now_ms: i64, ms: u128) -> (r: i64)
    ensures
        r == moved(now_ms, fitted(ms)),
{
    move_time(now_ms, duration_ms(ms))
}

/// The milliseconds until a deadline; none where it has passed.
pub fn remaining_ms(deadline_ms: i64, now_ms: i64) -> (r: u64)
    ensures
        r == (if deadline_ms <= now_ms {
            0
        } else if deadline_ms - now_ms > i64::MAX {
            i64::MAX as int
        } else {
            deadline_ms - now_ms
        }),
{
    let gap: i128 = (deadline_ms as i128) - (now_ms as i128);
    if gap <= 0 {
        0
    } else if gap > i64::MAX as i128 {
        i64::MAX as u64
    } else {
        gap as u64
    }
}

/// Wall time as sessions use it. Deadlines are kept in milliseconds since the epoch, so that they
/// mean the same after a restart.
pub trait Clock {
    fn now_ms(&self) -> i64;
}

#[derive(Clone, Copy, Debug)]
pub struct SystemClock;

impl Clock for SystemClock {
    fn now_ms(&self) -> (r: i64)
        ensures
            r >= 0,
    {
        system_now_ms()
    }
}

/// A timer: its deadline and its number.
#[derive(Clone, Copy, Debug, PartialEq, Eq, Structural)]
pub struct Timer {
    pub deadline_ms: i64,
    pub number: u64,
}

/// The order in which timers fire.
pub open spec fn fires_before(a: Timer, b: Timer) -> bool {
    a.deadline_ms < b.deadline_ms || (a.deadline_ms == b.deadline_ms && a.number < b.number)
}

/// Whether `timers` lie after `now_ms`, stand in the order in which they fire and have numbers up to
/// `last`.
pub open spec fn are_pending(timers: Seq<Timer>, now_ms: i64, last: u64) -> bool {
    &&& forall|i: int, j: int|
        0 <= i < j < timers.len() ==> fires_before(#[trigger] timers[i], #[trigger] timers[j])
    &&& forall|i: int|
        0 <= i < timers.len() ==> (#[trigger] timers[i]).deadline_ms > now_ms && timers[i].number
            <= last
}

/// A clock that is moved by hand. Timers that are waited for are kept until their time comes.
#[derive(Debug)]
pub struct ManualClock {
    now_ms: i64,
    next_timer: u64,
    timers: Vec<Timer>,
}

impl ManualClock {
    pub closed spec fn spec_now(&self) -> i64 {
        self.now_ms
    }

    /// The timers that have not fired, in the order in which they will.
    pub closed spec fn pending(&self) -> Seq<Timer> {
        self.timers@
    }

    /// The number that was given last; 0 where none was.
    pub closed spec fn last_number(&self) -> u64 {
        self.next_timer
    }

    /// Timers lie in the future, stand in order and have numbers that were given.
    pub open spec fn well_formed(&self) -> bool {
        are_pending(self.pending(), self.spec_now(), self.last_number())
    }

    pub fn new(now_ms: i64) -> (r: ManualClock)
        ensures
            r.well_formed(),
            r.spec_now() == now_ms,
            r.last_number() == 0,
            r.pending().len() == 0,
    {
        ManualClock { now_ms, next_timer: 0, timers: Vec::new() }
    }

    pub fn current_ms(&self) -> (r: i64)
        ensures
            r == self.spec_now(),
    {
        self.now_ms
    }

    /// Moves the clock on by a duration.
    pub fn advance(&mut self, ms: u128) -> (r: Vec<Timer>)
        requires
            old(self).well_formed(),
        ensures
            final(self).well_formed(),
            final(self).spec_now() == moved(old(self).spec_now(), fitted(ms)),
            final(self).last_number() == old(self).last_number(),
            r@ + final(self).pending() == old(self).pending(),
            forall|i: int|
                0 <= i < r@.len() ==> (#[trigger] r@[i]).deadline_ms <= final(self).spec_now(),
    {
        let target: i64 = move_time(self.now_ms, duration_ms(ms));
        self.advance_to(target)
    }

    /// Moves the clock on to a time, never back, and returns the timers that fire, in order.
    pub fn advance_to(&mut self, now_ms: i64) -> (r: Vec<Timer>)
        requires
            old(self).well_formed(),
        ensures
            final(self).well_formed(),
            final(self).spec_now() == (if now_ms > old(self).spec_now() {
                now_ms
            } else {
                old(self).spec_now()
            }),
            final(self).last_number() == old(self).last_number(),
            r@ + final(self).pending() == old(self).pending(),
            forall|i: int|
                0 <= i < r@.len() ==> (#[trigger] r@[i]).deadline_ms <= final(self).spec_now(),
    {
        if now_ms > self.now_ms {
            self.now_ms = now_ms;
        }
        let ghost all = self.timers@;
        let mut count: usize = 0;
        while count < self.timers.len() && self.timers[count].deadline_ms <= self.now_ms
            invariant
                self.timers@ == all,
                count <= all.len(),
                forall|i: int| 0 <= i < count ==> (#[trigger] all[i]).deadline_ms <= self.now_ms,
            decreases all.len() - count,
        {
            count = count + 1;
        }
        let rest = self.timers.split_off(count);
        let mut fired: Vec<Timer> = Vec::new();
        fired.append(&mut self.timers);
        self.timers = rest;
        proof {
            assert(fired@ =~= all.take(count as int));
            assert(self.timers@ =~= all.skip(count as int));
            assert(fired@ + self.timers@ =~= all);
            assert forall|i: int| 0 <= i < self.timers@.len() implies (
            #[trigger] self.timers@[i]).deadline_ms > self.now_ms by {
                assert(self.timers@[0] == all[count as int]);
                if i > 0 {
                    assert(fires_before(all[count as int], all[count + i]));
                }
            }
        }
        fired
    }

    pub fn pending_timer_count(&self) -> (r: usize)
        ensures
            r == self.pending().len(),
    {
        self.timers.len()
    }

    /// The deadlines of the timers that have not fired, in order.
    pub fn pending_deadlines(&self) -> (r: Vec<i64>)
        ensures
            r@ == self.pending().map_values(|timer: Timer| timer.deadline_ms),
    {
        let mut out: Vec<i64> = Vec::new();
        let mut i: usize = 0;
        while i < self.timers.len()
            invariant
                i <= self.timers@.len(),
                out@.len() == i,
                forall|j: int| 0 <= j < i ==> #[trigger] out@[j] == self.timers@[j].deadline_ms,
            decreases self.timers@.len() - i,
        {
            out.push(self.timers[i].deadline_ms);
            i = i + 1;
        }
        proof {
            assert(out@ =~= self.pending().map_values(|timer: Timer| timer.deadline_ms));
        }
        out
    }

    /// Waits until `deadline_ms`: the timer to wait for, or none where that time has come. Timers
    /// are numbered through from 1. At the largest number the count stays there, and a wait shares
    /// the timer of an earlier one that has both its number and its deadline.
    pub fn sleep_until(&mut self, deadline_ms: i64) -> (r: Option<Timer>)
        requires
            old(self).well_formed(),
        ensures
            final(self).well_formed(),
            final(self).spec_now() == old(self).spec_now(),
            match r {
                None => {
                    &&& deadline_ms <= old(self).spec_now()
                    &&& final(self).pending() == old(self).pending()
                    &&& final(self).last_number() == old(self).last_number()
                },
                Some(timer) => {
                    &&& deadline_ms > old(self).spec_now()
                    &&& timer.deadline_ms == deadline_ms
                    &&& timer.number == final(self).last_number()
                    &&& final(self).last_number() == (if old(self).last_number() < u64::MAX {
                        (old(self).last_number() + 1) as u64
                    } else {
                        u64::MAX
                    })
                    &&& old(self).last_number() < u64::MAX ==> !old(self).pending().contains(timer)
                    &&& final(self).pending().len() == old(self).pending().len() + (if old(
                        self,
                    ).pending().contains(timer) {
                        0int
                    } else {
                        1int
                    })
                    &&& forall|other: Timer|
                        final(self).pending().contains(other) <==> (other == timer || old(
                            self,
                        ).pending().contains(other))
                },
            },
    {
        if deadline_ms <= self.now_ms {
            return None;
        }
        if self.next_timer < u64::MAX {
            self.next_timer = self.next_timer + 1;
        }
        let timer = Timer { deadline_ms, number: self.next_timer };
        let ghost all = self.timers@;
        let mut at: usize = 0;
        while at < self.timers.len() && (self.timers[at].deadline_ms < deadline_ms || (
        self.timers[at].deadline_ms == deadline_ms && self.timers[at].number < timer.number))
            invariant
                self.timers@ == all,
                at <= all.len(),
                timer.deadline_ms == deadline_ms,
                forall|i: int| 0 <= i < at ==> fires_before(#[trigger] all[i], timer),
            decreases all.len() - at,
        {
            at = at + 1;
        }
        if at < self.timers.len() && self.timers[at].deadline_ms == deadline_ms
            && self.timers[at].number == timer.number {
            proof {
                assert(all[at as int] == timer);
            }
            return Some(timer);
        }
        self.timers.insert(at, timer);
        proof {
            let after = all.insert(at as int, timer);
            assert(self.timers@ == after);
            assert forall|i: int, j: int| 0 <= i < j < after.len() implies fires_before(
                #[trigger] after[i],
                #[trigger] after[j],
            ) by {
                if j == at {
                    assert(after[i] == all[i]);
                } else if i == at {
                    assert(after[j] == all[j - 1]);
                    if j - 1 > at {
                        assert(fires_before(all[at as int], all[j - 1]));
                    }
                } else {
                    let x = if i < at { i } else { i - 1 };
                    let y = if j < at { j } else { j - 1 };
                    assert(after[i] == all[x] && after[j] == all[y]);
                    assert(fires_before(all[x], all[y]));
                }
            }
            if all.contains(timer) {
                let x = choose|x: int| 0 <= x < all.len() && all[x] == timer;
                if x > at {
                    assert(fires_before(all[at as int], all[x]));
                }
            }
            assert forall|i: int| 0 <= i < after.len() implies (#[trigger] after[i]).deadline_ms
                > self.now_ms && after[i].number <= self.next_timer by {
                let x = if i < at { i } else { i - 1 };
                if i != at {
                    assert(after[i] == all[x]);
                }
            }
            assert forall|other: Timer| after.contains(other) <==> (other == timer || all.contains(
                other,
            )) by {
                if all.contains(other) {
                    let x = choose|x: int| 0 <= x < all.len() && all[x] == other;
                    let i = if x < at { x } else { x + 1 };
                    assert(after[i] == other);
                }
                if after.contains(other) && other != timer {
                    let i = choose|i: int| 0 <= i < after.len() && after[i] == other;
                    let x = if i < at { i } else { i - 1 };
                    assert(all[x] == other);
                }
                assert(after[at as int] == timer);
            }
        }
        Some(timer)
    }

    /// Forgets a timer that nobody waits for any more.
    pub fn cancel(&mut self, timer: Timer) -> (r: bool)
        requires
            old(self).well_formed(),
        ensures
            final(self).well_formed(),
            final(self).spec_now() == old(self).spec_now(),
            final(self).last_number() == old(self).last_number(),
            r == old(self).pending().contains(timer),
            r ==> final(self).pending().len() == old(self).pending().len() - 1,
            !r ==> final(self).pending() == old(self).pending(),
            forall|other: Timer|
                final(self).pending().contains(other) <==> (other != timer && old(
                    self,
                ).pending().contains(other)),
    {
        let ghost all = self.timers@;
        let mut at: usize = 0;
        while at < self.timers.len()
            invariant
                self.timers@ == all,
                self.now_ms == old(self).now_ms,
                self.next_timer == old(self).next_timer,
                all == old(self).timers@,
                old(self).well_formed(),
                at <= all.len(),
                forall|i: int| 0 <= i < at ==> #[trigger] all[i] != timer,
            decreases all.len() - at,
        {
            if self.timers[at] == timer {
                let _ = self.timers.remove(at);
                proof {
                    let after = all.remove(at as int);
                    assert(self.timers@ == after);
                    assert(all[at as int] == timer);
                    assert forall|i: int, j: int| 0 <= i < j < after.len() implies fires_before(
                        #[trigger] after[i],
                        #[trigger] after[j],
                    ) by {
                        let x = if i < at { i } else { i + 1 };
                        let y = if j < at { j } else { j + 1 };
                        assert(fires_before(all[x], all[y]));
                    }
                    assert forall|i: int| 0 <= i < after.len() implies (
                    #[trigger] after[i]).deadline_ms > self.now_ms && after[i].number
                        <= self.next_timer by {
                        let x = if i < at { i } else { i + 1 };
                        assert(after[i] == all[x]);
                    }
                    assert forall|other: Timer| after.contains(other) <==> (other != timer
                        && all.contains(other)) by {
                        if after.contains(other) {
                            let i = choose|i: int| 0 <= i < after.len() && after[i] == other;
                            let x = if i < at { i } else { i + 1 };
                            assert(all[x] == other);
                            if x < at {
                                assert(fires_before(all[x], all[at as int]));
                            } else {
                                assert(fires_before(all[at as int], all[x]));
                            }
                        }
                        if other != timer && all.contains(other) {
                            let x = choose|x: int| 0 <= x < all.len() && all[x] == other;
                            let i = if x < at { x } else { x - 1 };
                            assert(after[i] == other);
                        }
                    }
                }
                return true;
            }
            at = at + 1;
        }
        false
    }
}

impl Default for ManualClock {
    fn default() -> (r: ManualClock)
        ensures
            r.well_formed(),
            r.spec_now() == 1_700_000_000_000,
            r.last_number() == 0,
            r.pending().len() == 0,
    {
        ManualClock::new(1_700_000_000_000)
    }
}

impl Clock for ManualClock {
    fn now_ms(&self) -> (r: i64)
        ensures
            r == self.spec_now(),
    {
        self.now_ms
    }
}

/// No timer fires before its time, and none that is due is left: what is pending lies in the
/// future.
pub proof fn pending_timers_lie_ahead(clock: &ManualClock, i: int)
    requires
        clock.well_formed(),
        0 <= i < clock.pending().len(),
    ensures
        clock.pending()[i].deadline_ms > clock.spec_now(),
{
}

/// A duration counts as it is where it fits, and as the longest that fits where it does not.
/// Timers fire in the order of their deadlines, and those of one deadline in the order of their
/// numbers.
pub proof fn timers_fire_in_order(ms: u128, a: Timer, b: Timer)
    ensures
        ms <= i64::MAX ==> fitted(ms) == ms,
        ms > i64::MAX ==> fitted(ms) == i64::MAX,
        a.deadline_ms < b.deadline_ms ==> fires_before(a, b) && !fires_before(b, a),
        a.deadline_ms == b.deadline_ms && a.number < b.number ==> fires_before(a, b)
            && !fires_before(b, a),
        !fires_before(a, a),
{
}

} // verus!
