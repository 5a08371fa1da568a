//! The running timer. Time is measured on the wall clock, so a session
//! stays right when the machine sleeps in the middle of it; pauses are not
//! counted.

use vstd::prelude::*;
use crate::clock::{UtcTime, utc_now, clock_read, lemma_clock_read};

verus! {

/// Whole seconds from `start` to `now`, rounded down; zero when `now` is
/// not later than `start` (`(now - start).num_seconds().max(0)`).
pub open spec fn whole_secs_between(now: UtcTime, start: UtcTime) -> int {
    let d = now.total_nanos() - start.total_nanos();
    if d > 0 {
        d / 1_000_000_000
    } else {
        0
    }
}

/// The largest `i64`, where a reading saturates.
pub open spec fn cap(total: int) -> int {
    if total > i64::MAX {
        i64::MAX as int
    } else {
        total
    }
}

/// A running or paused timer.
#[derive(Clone, Copy, Debug)]
pub struct RunningTimer {
    /// When the timer was started.
    pub started_at: UtcTime,
    /// When the current segment began (the last start or resume).
    pub seg_start: UtcTime,
    /// The seconds of the segments before the current one.
    pub accumulated_secs: i64,
    pub paused: bool,
}

impl RunningTimer {
    /// A timer started at `now`.
    pub open spec fn started(now: UtcTime) -> RunningTimer {
        RunningTimer { started_at: now, seg_start: now, accumulated_secs: 0, paused: false }
    }

    /// The reading of the timer at `now`, in seconds.
    pub open spec fn reading(self, now: UtcTime) -> int {
        let extra = if self.paused {
            0
        } else {
            whole_secs_between(now, self.seg_start)
        };
        cap(self.accumulated_secs + extra)
    }

    /// The timer after a pause at `now`; a paused timer stays as it is.
    pub open spec fn paused_at(self, now: UtcTime) -> RunningTimer {
        if self.paused {
            self
        } else {
            RunningTimer { accumulated_secs: self.reading(now) as i64, paused: true, ..self }
        }
    }

    /// The timer after resuming at `now`; a running timer stays as it is.
    pub open spec fn resumed_at(self, now: UtcTime) -> RunningTimer {
        if self.paused {
            RunningTimer { seg_start: now, paused: false, ..self }
        } else {
            self
        }
    }

    /// A timer started at `now`.
    pub fn new_at(now: UtcTime) -> (t: RunningTimer)
        ensures
            t == RunningTimer::started(now),
    {
        RunningTimer { started_at: now, seg_start: now, accumulated_secs: 0, paused: false }
    }

    /// A timer started now, at the instant the clock gave.
    pub fn new() -> (t: RunningTimer)
        ensures
            exists|now: UtcTime| #[trigger] clock_read(now) && t == RunningTimer::started(now),
    {
        let now = utc_now();
        proof {
            lemma_clock_read(now);
        }
        RunningTimer::new_at(now)
    }

    /// The reading of the timer at `now`, in seconds.
    pub fn elapsed_at(&self, now: UtcTime) -> (r: i64)
        ensures
            r == self.reading(now),
    {
        let extra: i128 = if self.paused {
            0
        } else {
            let d: i128 = ((now.secs as i128) - (self.seg_start.secs as i128)) * 1_000_000_000
                + (now.nanos as i128) - (self.seg_start.nanos as i128);
            if d > 0 {
                d / 1_000_000_000
            } else {
                0
            }
        };
        let total: i128 = (self.accumulated_secs as i128) + extra;
        if total > (i64::MAX as i128) {
            i64::MAX
        } else {
            total as i64
        }
    }

    /// The reading of the timer now. A paused timer reads the seconds it had
    /// when it was paused.
    pub fn elapsed_secs(&self) -> (r: i64)
        ensures
            exists|now: UtcTime| #[trigger] clock_read(now) && r == self.reading(now),
            self.paused ==> r == self.accumulated_secs,
    {
        let now = utc_now();
        proof {
            lemma_clock_read(now);
        }
        self.elapsed_at(now)
    }

    /// Pauses the timer at `now`: the reading is kept and stops growing.
    pub fn pause_at(&mut self, now: UtcTime)
        ensures
            *final(self) == old(self).paused_at(now),
    {
        if !self.paused {
            self.accumulated_secs = self.elapsed_at(now);
            self.paused = true;
        }
    }

    /// Pauses the timer now, at the instant the clock gives; a paused timer
    /// stays as it is and the clock is not read.
    pub fn pause(&mut self)
        ensures
            !old(self).paused ==> exists|now: UtcTime|
                #[trigger] clock_read(now) && *final(self) == old(self).paused_at(now),
            old(self).paused ==> *final(self) == *old(self),
    {
        if !self.paused {
            let now = utc_now();
            proof {
                lemma_clock_read(now);
            }
            self.pause_at(now);
        }
    }

    /// Resumes the timer at `now`: a new segment begins.
    pub fn resume_at(&mut self, now: UtcTime)
        ensures
            *final(self) == old(self).resumed_at(now),
    {
        if self.paused {
            self.seg_start = now;
            self.paused = false;
        }
    }

    /// Resumes the timer now, at the instant the clock gives; a running
    /// timer stays as it is and the clock is not read.
    pub fn resume(&mut self)
        ensures
            old(self).paused ==> exists|now: UtcTime|
                #[trigger] clock_read(now) && *final(self) == old(self).resumed_at(now),
            !old(self).paused ==> *final(self) == *old(self),
    {
        if self.paused {
            let now = utc_now();
            proof {
                lemma_clock_read(now);
            }
            self.resume_at(now);
        }
    }
}

/// A paused timer reads the same at every instant.
pub proof fn paused_reading_is_frozen(t: RunningTimer, a: UtcTime, b: UtcTime)
    requires
        t.paused,
    ensures
        t.reading(a) == t.reading(b),
{
}

/// The reading never goes down as the clock goes forward.
pub proof fn reading_is_monotone(t: RunningTimer, a: UtcTime, b: UtcTime)
    requires
        a.total_nanos() <= b.total_nanos(),
    ensures
        t.reading(a) <= t.reading(b),
{
    let da = a.total_nanos() - t.seg_start.total_nanos();
    let db = b.total_nanos() - t.seg_start.total_nanos();
    if da > 0 {
        vstd::arithmetic::div_mod::lemma_div_is_ordered(da, db, 1_000_000_000);
    }
    if db > 0 {
        vstd::arithmetic::div_mod::lemma_div_pos_is_pos(db, 1_000_000_000);
    }
}

/// Pausing keeps the reading of the moment of the pause, whenever the timer
/// is read later.
pub proof fn pause_keeps_reading(t: RunningTimer, now: UtcTime, later: UtcTime)
    ensures
        t.paused_at(now).reading(later) == t.reading(now),
{
}

/// Pausing twice is pausing once, and resuming twice is resuming once.
pub proof fn pause_and_resume_are_idempotent(t: RunningTimer, a: UtcTime, b: UtcTime)
    ensures
        t.paused_at(a).paused_at(b) == t.paused_at(a),
        t.resumed_at(a).resumed_at(b) == t.resumed_at(a),
{
}

/// After a resume, the reading grows from where the pause left it by the
/// whole seconds since the resume.
pub proof fn resume_continues_from_pause(t: RunningTimer, now: UtcTime, later: UtcTime)
    requires
        t.paused,
    ensures
        t.resumed_at(now).reading(later) == cap(
            t.accumulated_secs + whole_secs_between(later, now),
        ),
{
}

/// A session that is started, paused, resumed and read counts the time of
/// its two running segments and not the pause between them.
pub proof fn pauses_are_not_counted(t0: UtcTime, t1: UtcTime, t2: UtcTime, t3: UtcTime)
    requires
        whole_secs_between(t1, t0) + whole_secs_between(t3, t2) <= i64::MAX,
    ensures
        RunningTimer::started(t0).paused_at(t1).resumed_at(t2).reading(t3) == whole_secs_between(
            t1,
            t0,
        ) + whole_secs_between(t3, t2),
{
    let d = t1.total_nanos() - t0.total_nanos();
    if d > 0 {
        vstd::arithmetic::div_mod::lemma_div_pos_is_pos(d, 1_000_000_000);
    }
    let e = t3.total_nanos() - t2.total_nanos();
    if e > 0 {
        vstd::arithmetic::div_mod::lemma_div_pos_is_pos(e, 1_000_000_000);
    }
}

/// A call on a timer: a pause, a resume or a reading.
#[derive(Clone, Copy, Debug, PartialEq, Eq, Structural)]
pub enum TimerOp {
    Pause,
    Resume,
    Read,
}

/// The timer after the call `op` at `now`; a reading changes nothing.
pub open spec fn apply_op(t: RunningTimer, op: TimerOp, now: UtcTime) -> RunningTimer {
    match op {
        TimerOp::Pause => t.paused_at(now),
        TimerOp::Resume => t.resumed_at(now),
        TimerOp::Read => t,
    }
}

/// The timer after a sequence of calls, each with the instant it was made.
pub open spec fn run_ops(t: RunningTimer, ops: Seq<(TimerOp, UtcTime)>) -> RunningTimer
    decreases ops.len(),
{
    if ops.len() == 0 {
        t
    } else {
        apply_op(run_ops(t, ops.drop_last()), ops.last().0, ops.last().1)
    }
}

/// What the timer reads at the instant of the call `k`, before that call.
pub open spec fn reading_at_call(t: RunningTimer, ops: Seq<(TimerOp, UtcTime)>, k: int) -> int {
    run_ops(t, ops.take(k)).reading(ops[k].1)
}

/// The calls were made in the order of the clock, none before `start`.
pub open spec fn calls_in_clock_order(start: UtcTime, ops: Seq<(TimerOp, UtcTime)>) -> bool {
    &&& forall|i: int| 0 <= i < ops.len() ==> start.total_nanos() <= (#[trigger] ops[i]).1.total_nanos()
    &&& forall|i: int, j: int|
        0 <= i < j < ops.len() ==> (#[trigger] ops[i]).1.total_nanos() <= (
        #[trigger] ops[j]).1.total_nanos()
}

proof fn lemma_whole_secs_nonneg(now: UtcTime, start: UtcTime)
    ensures
        whole_secs_between(now, start) >= 0,
{
    let d = now.total_nanos() - start.total_nanos();
    if d > 0 {
        vstd::arithmetic::div_mod::lemma_div_pos_is_pos(d, 1_000_000_000);
    }
}

proof fn lemma_step_never_falls(u: RunningTimer, op: TimerOp, a: UtcTime, b: UtcTime)
    requires
        u.accumulated_secs >= 0,
        a.total_nanos() <= b.total_nanos(),
    ensures
        apply_op(u, op, a).accumulated_secs >= 0,
        u.reading(a) >= 0,
        apply_op(u, op, a).reading(b) >= u.reading(a),
{
    lemma_whole_secs_nonneg(a, u.seg_start);
    lemma_whole_secs_nonneg(b, a);
    reading_is_monotone(u, a, b);
    match op {
        TimerOp::Pause => {
            pause_keeps_reading(u, a, b);
        },
        TimerOp::Resume => {},
        TimerOp::Read => {},
    }
}

/// Over any sequence of pauses, resumes and readings made in the order of
/// the clock, the readings of a timer started at `start` are never negative
/// and never go down.
pub proof fn readings_never_fall(start: UtcTime, ops: Seq<(TimerOp, UtcTime)>)
    requires
        calls_in_clock_order(start, ops),
    ensures
        forall|i: int| 0 <= i < ops.len() ==> reading_at_call(RunningTimer::started(start), ops, i) >= 0,
        forall|i: int, j: int|
            0 <= i < j < ops.len() ==> reading_at_call(RunningTimer::started(start), ops, i)
                <= reading_at_call(RunningTimer::started(start), ops, j),
    decreases ops.len(),
{
    let t0 = RunningTimer::started(start);
    if ops.len() > 0 {
        let d = ops.drop_last();
        assert(calls_in_clock_order(start, d)) by {
            assert forall|i: int| 0 <= i < d.len() implies start.total_nanos() <= (
            #[trigger] d[i]).1.total_nanos() by {
                assert(d[i] == ops[i]);
            }
            assert forall|i: int, j: int| 0 <= i < j < d.len() implies (#[trigger] d[i]).1.total_nanos()
                <= (#[trigger] d[j]).1.total_nanos() by {
                assert(d[i] == ops[i] && d[j] == ops[j]);
            }
        }
        readings_never_fall(start, d);
        let n = ops.len() - 1;
        assert forall|i: int| 0 <= i < d.len() implies reading_at_call(t0, ops, i) == reading_at_call(
            t0,
            d,
            i,
        ) by {
            assert(ops.take(i) =~= d.take(i));
            assert(ops[i] == d[i]);
        }
        // Every state along the run keeps a non-negative count.
        assert forall|k: int| 0 <= k <= ops.len() implies (#[trigger] run_ops(t0, ops.take(k))).accumulated_secs
            >= 0 by {
            lemma_run_nonneg(start, ops, k);
        }
        // The last reading is not below the one before it.
        if n > 0 {
            let u = run_ops(t0, ops.take(n - 1));
            assert(ops.take(n).drop_last() =~= ops.take(n - 1));
            assert(ops.take(n).last() == ops[n - 1]);
            assert(run_ops(t0, ops.take(n)) == apply_op(u, ops[n - 1].0, ops[n - 1].1));
            assert(ops[n - 1].1.total_nanos() <= ops[n].1.total_nanos());
            lemma_step_never_falls(u, ops[n - 1].0, ops[n - 1].1, ops[n].1);
            assert(reading_at_call(t0, ops, n - 1) == u.reading(ops[n - 1].1));
            assert(reading_at_call(t0, ops, n - 1) <= reading_at_call(t0, ops, n));
            assert(reading_at_call(t0, d, n - 1) == reading_at_call(t0, ops, n - 1));
        } else {
            assert(ops.take(0) =~= Seq::<(TimerOp, UtcTime)>::empty());
        }
        lemma_whole_secs_nonneg(ops[n].1, run_ops(t0, ops.take(n)).seg_start);
        assert(run_ops(t0, ops.take(n)).accumulated_secs >= 0);
        assert forall|i: int, j: int| 0 <= i < j < ops.len() implies reading_at_call(t0, ops, i)
            <= reading_at_call(t0, ops, j) by {
            assert(reading_at_call(t0, ops, i) == reading_at_call(t0, d, i));
            if j < n {
                assert(reading_at_call(t0, ops, j) == reading_at_call(t0, d, j));
            } else if i < n - 1 {
                assert(reading_at_call(t0, d, i) <= reading_at_call(t0, d, n - 1));
            }
        }
    }
}

proof fn lemma_run_nonneg(start: UtcTime, ops: Seq<(TimerOp, UtcTime)>, k: int)
    requires
        0 <= k <= ops.len(),
        calls_in_clock_order(start, ops),
    ensures
        run_ops(RunningTimer::started(start), ops.take(k)).accumulated_secs >= 0,
    decreases k,
{
    let t0 = RunningTimer::started(start);
    if k > 0 {
        lemma_run_nonneg(start, ops, k - 1);
        assert(ops.take(k).drop_last() =~= ops.take(k - 1));
        assert(ops.take(k).last() == ops[k - 1]);
        let u = run_ops(t0, ops.take(k - 1));
        lemma_step_never_falls(u, ops[k - 1].0, ops[k - 1].1, ops[k - 1].1);
    } else {
        assert(ops.take(0) =~= Seq::<(TimerOp, UtcTime)>::empty());
    }
}

} // verus!
