//! The capture scheduler: a fixed-rate cadence whose every deadline is
//! computed from the tick count, never from the deadline before it.
//!
//! The scheduler keeps its own clock, which follows the times it is shown
//! and never runs backwards. Time can be shown in two ways: `advance` and
//! `poll` count it as time spent running, `discount` as time spent
//! suspended, which moves every future deadline back by as much.

use vstd::prelude::*;
use crate::rate::{
    lemma_due_from_offset, lemma_due_is_monotone, lemma_offset_nonneg, FrameRate, Frequency,
    NANOS_PER_SECOND,
};

verus! {

/// The scheduler's state: its rate, the instant its running time is counted
/// from, the number its first tick carries, how many ticks it has fired,
/// and the latest instant it has seen.
pub struct Schedule {
    pub rate: Frequency,
    pub anchor: nat,
    pub first: nat,
    pub ticks: nat,
    pub clock: nat,
}

impl Schedule {
    /// Nothing has fired early: the latest tick, if any, was due by now.
    pub open spec fn wf(self) -> bool {
        &&& self.rate.wf()
        &&& self.anchor <= self.clock <= u64::MAX
        &&& self.first + self.ticks <= u64::MAX
        &&& self.ticks > 0 ==> self.rate.due((self.ticks - 1) as nat, self.elapsed())
    }

    /// Nanoseconds spent running so far.
    pub open spec fn elapsed(self) -> nat {
        (self.clock - self.anchor) as nat
    }

    /// The clock moved up to `now`, the time in between counted as running.
    pub open spec fn advanced(self, now: nat) -> Schedule {
        if now > self.clock {
            Schedule { clock: now, ..self }
        } else {
            self
        }
    }

    /// The clock moved up to `now`, the time in between counted as suspended.
    pub open spec fn discounted(self, now: nat) -> Schedule {
        if now > self.clock {
            Schedule { anchor: (self.anchor + (now - self.clock)) as nat, clock: now, ..self }
        } else {
            self
        }
    }

    /// The number the next tick carries.
    pub open spec fn number(self) -> nat {
        self.first + self.ticks
    }

    /// Whether the next tick is due at the present clock. The last number a
    /// `u64` can hold is never given out: a schedule that has reached it
    /// fires no more.
    pub open spec fn fires(self) -> bool {
        self.number() < u64::MAX && self.rate.due(self.ticks, self.elapsed())
    }

    /// One more tick fired.
    pub open spec fn fired(self) -> Schedule {
        Schedule { ticks: (self.ticks + 1) as nat, ..self }
    }

    /// The state after a poll at `now`.
    pub open spec fn polled(self, now: nat) -> Schedule {
        let seen = self.advanced(now);
        if seen.fires() {
            seen.fired()
        } else {
            seen
        }
    }

    /// The instant at which the next tick falls due.
    pub open spec fn deadline(self) -> int {
        self.anchor + self.rate.offset(self.ticks)
    }

    /// The deadline as a clock reading, if the clock can show it.
    pub open spec fn wake(self) -> Option<u64> {
        if self.deadline() <= u64::MAX {
            Some(self.deadline() as u64)
        } else {
            None
        }
    }
}

/// What a poll decided.
#[derive(Clone, Copy, Debug, PartialEq, Eq)]
pub enum Trigger {
    /// Capture now. `number` is the number the capture carries, `at` is the
    /// clock reading.
    Fire { number: u64, at: u64 },
    /// Nothing is due. `until` is the next deadline, or `None` if it lies
    /// beyond the clock's range.
    Wait { until: Option<u64> },
}

/// The capture scheduler.
#[derive(Clone, Copy, Debug)]
pub struct CaptureScheduler {
    rate: FrameRate,
    anchor: u64,
    first: u64,
    ticks: u64,
    clock: u64,
}

impl View for CaptureScheduler {
    type V = Schedule;

    closed spec fn view(&self) -> Schedule {
        Schedule {
            rate: self.rate@,
            anchor: self.anchor as nat,
            first: self.first as nat,
            ticks: self.ticks as nat,
            clock: self.clock as nat,
        }
    }
}

impl CaptureScheduler {
    #[verifier::type_invariant]
    pub open spec fn valid(&self) -> bool {
        self@.wf()
    }

    /// A scheduler whose first tick is due at `start` and carries the number 0.
    pub fn new(rate: FrameRate, start: u64) -> (scheduler: CaptureScheduler)
        ensures
            scheduler@ == (Schedule {
                rate: rate@,
                anchor: start as nat,
                first: 0,
                ticks: 0,
                clock: start as nat,
            }),
            scheduler@.wf(),
    {
        CaptureScheduler::starting_at(rate, start, 0)
    }

    /// A scheduler whose first tick is due at `start` and carries the number
    /// `first`: for a cadence that goes on numbering where an earlier run
    /// stopped.
    pub fn starting_at(rate: FrameRate, start: u64, first: u64) -> (scheduler: CaptureScheduler)
        ensures
            scheduler@ == (Schedule {
                rate: rate@,
                anchor: start as nat,
                first: first as nat,
                ticks: 0,
                clock: start as nat,
            }),
            scheduler@.wf(),
    {
        proof {
            use_type_invariant(&rate);
        }
        CaptureScheduler { rate, anchor: start, first, ticks: 0, clock: start }
    }

    /// Shows the scheduler the time and asks whether a capture is due. At
    /// most one tick fires per poll, and only once it is due; a tick whose
    /// deadline has long passed fires at once.
    pub fn poll(&mut self, now: u64) -> (trigger: Trigger)
        ensures
            final(self)@ == old(self)@.polled(now as nat),
            final(self)@.wf(),
            trigger == if old(self)@.advanced(now as nat).fires() {
                Trigger::Fire { number: old(self)@.number() as u64, at: final(self)@.clock as u64 }
            } else {
                Trigger::Wait { until: final(self)@.wake() }
            },
    {
        proof {
            use_type_invariant(&*self);
        }
        self.advance(now);
        proof {
            use_type_invariant(&*self);
        }
        let elapsed: u64 = self.clock - self.anchor;
        if self.ticks < u64::MAX - self.first && self.rate.is_due(self.ticks, elapsed) {
            let number: u64 = self.first + self.ticks;
            self.ticks = self.ticks + 1;
            Trigger::Fire { number, at: self.clock }
        } else {
            Trigger::Wait { until: self.next_deadline() }
        }
    }

    /// Shows the scheduler the time without asking for a tick.
    pub fn advance(&mut self, now: u64)
        ensures
            final(self)@ == old(self)@.advanced(now as nat),
            final(self)@.wf(),
    {
        proof {
            use_type_invariant(&*self);
            use_type_invariant(&self.rate);
            if now > self.clock && self.ticks > 0 {
                lemma_due_is_monotone(
                    self.rate@,
                    (self.ticks - 1) as nat,
                    (self.clock - self.anchor) as nat,
                    (now - self.anchor) as nat,
                );
            }
        }
        if now > self.clock {
            self.clock = now;
        }
    }

    /// Shows the scheduler the time and has it treat the time since it last
    /// looked as not having run: the cadence picks up where it left off.
    pub fn discount(&mut self, now: u64)
        ensures
            final(self)@ == old(self)@.discounted(now as nat),
            final(self)@.wf(),
            final(self)@.elapsed() == old(self)@.elapsed(),
    {
        proof {
            use_type_invariant(&*self);
        }
        if now > self.clock {
            let idle: u64 = now - self.clock;
            let anchor: u64 = self.anchor + idle;
            *self = CaptureScheduler {
                rate: self.rate,
                anchor,
                first: self.first,
                ticks: self.ticks,
                clock: now,
            };
        }
    }

    /// The instant the next tick falls due, or `None` if it lies beyond the
    /// clock's range.
    pub fn next_deadline(&self) -> (until: Option<u64>)
        ensures
            until == self@.wake(),
    {
        proof {
            use_type_invariant(self);
            use_type_invariant(&self.rate);
            lemma_offset_nonneg(self.rate@, self.ticks as nat);
        }
        match self.rate.offset(self.ticks) {
            None => None,
            Some(offset) => self.anchor.checked_add(offset),
        }
    }

    /// How many ticks have fired.
    pub fn ticks(&self) -> (n: u64)
        ensures
            n == self@.ticks,
    {
        self.ticks
    }

    /// The number the next tick will carry.
    pub fn number(&self) -> (n: u64)
        ensures
            n == self@.number(),
    {
        proof {
            use_type_invariant(self);
        }
        self.first + self.ticks
    }

    /// The latest instant the scheduler has seen.
    pub fn clock(&self) -> (t: u64)
        ensures
            t == self@.clock,
    {
        self.clock
    }

    /// Nanoseconds spent running so far.
    pub fn elapsed(&self) -> (t: u64)
        ensures
            t == self@.elapsed(),
    {
        proof {
            use_type_invariant(self);
        }
        self.clock - self.anchor
    }
}

/// Every reachable state of a schedule is well formed.
pub proof fn lemma_schedule_steps_keep_wf(s: Schedule, now: nat)
    requires
        s.wf(),
        now <= u64::MAX,
    ensures
        s.advanced(now).wf(),
        s.discounted(now).wf(),
        s.polled(now).wf(),
{
    if now > s.clock && s.ticks > 0 {
        lemma_due_is_monotone(s.rate, (s.ticks - 1) as nat, s.elapsed(), (now - s.anchor) as nat);
    }
}

/// The trigger count tracks the rate. Whenever a schedule has nothing due,
/// the number `n` of ticks fired over `T` nanoseconds of running time
/// satisfies `n - 1 <= rate * T < n` (with `T` in seconds): the count is the
/// ideal count rounded down, plus the tick at time zero.
pub proof fn lemma_count_tracks_rate(s: Schedule)
    requires
        s.wf(),
        s.number() < u64::MAX,
        !s.fires(),
    ensures
        s.ticks >= 1,
        (s.ticks - 1) * NANOS_PER_SECOND * s.rate.denom <= s.rate.numer * s.elapsed(),
        s.rate.numer * s.elapsed() < s.ticks * NANOS_PER_SECOND * s.rate.denom,
{
    if s.ticks == 0 {
        assert(0 * NANOS_PER_SECOND * s.rate.denom == 0) by (nonlinear_arith);
        assert(s.rate.numer * s.elapsed() >= 0) by (nonlinear_arith)
            requires
                s.rate.numer >= 0,
                s.elapsed() >= 0,
        ;
    }
}

/// The count never runs ahead of the rate, whether or not the scheduler has
/// caught up: after `T` nanoseconds of running time at most `rate * T + 1`
/// ticks have fired.
pub proof fn lemma_count_never_leads(s: Schedule)
    requires
        s.wf(),
    ensures
        s.ticks > 0 ==> (s.ticks - 1) * NANOS_PER_SECOND * s.rate.denom <= s.rate.numer * s.elapsed(),
{
}

/// Suspended time fires nothing and moves nothing: a discount leaves the
/// tick count and the running time as they were, so the wait that was left
/// before the suspension is the wait that is left after it.
pub proof fn lemma_discount_keeps_cadence(s: Schedule, now: nat)
    requires
        s.wf(),
    ensures
        s.discounted(now).ticks == s.ticks,
        s.discounted(now).elapsed() == s.elapsed(),
        s.discounted(now).fires() == s.fires(),
        s.discounted(now).deadline() - s.discounted(now).clock == s.deadline() - s.clock,
{
}

/// A wait names the first instant at which the next poll fires: polling
/// before it fires nothing, polling at it or later fires.
pub proof fn lemma_wait_is_tight(s: Schedule, now: nat)
    requires
        s.wf(),
        s.number() < u64::MAX,
        s.clock <= now,
    ensures
        s.advanced(now).fires() <==> s.deadline() <= now,
{
    lemma_due_from_offset(s.rate, s.ticks, (now - s.anchor) as nat);
}

} // verus!
