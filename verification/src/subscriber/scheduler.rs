//! When the renewal task runs next.
//!
//! Times are Unix times in seconds. The task that sleeps and wakes is the caller's; the
//! decisions are here: what to sleep until, when the sleep is over, and what comes after a run.
use vstd::prelude::*;

verus! {

/// The next time of the renewal task, shared with whoever may hasten it.
///
/// `u64::MAX` stands for "no tick scheduled".
#[derive(Debug)]
pub struct Handle {
    next_tick: u64,
}

/// The tick that a stored value stands for.
pub open spec fn decoded_tick(stored: u64) -> Option<u64> {
    if stored == u64::MAX {
        None
    } else {
        Some(stored)
    }
}

impl Handle {
    /// The stored next tick (`u64::MAX` for none).
    pub closed spec fn stored(&self) -> u64 {
        self.next_tick
    }

    /// The next tick, if one is scheduled.
    pub open spec fn tick(&self) -> Option<u64> {
        decoded_tick(self.stored())
    }

    pub fn new(first_tick: Option<u64>) -> (r: Handle)
        ensures
            r.stored() == match first_tick {
                Some(t) => t,
                None => u64::MAX,
            },
    {
        Handle {
            next_tick: match first_tick {
                Some(t) => t,
                None => u64::MAX,
            },
        }
    }

    /// Hastens the next tick to `next_tick`.
    ///
    /// Does nothing if the current next tick is not after it. Returns whether the tick moved,
    /// that is, whether the task must be woken to sleep for less.
    pub fn hasten(&mut self, next_tick: u64) -> (woken: bool)
        ensures
            final(self).stored() == if next_tick < old(self).stored() {
                next_tick
            } else {
                old(self).stored()
            },
            woken == (next_tick < old(self).stored()),
    {
        let prev = self.next_tick;
        if next_tick < prev {
            self.next_tick = next_tick;
            true
        } else {
            false
        }
    }

    /// Records the tick that the last run chose (`None`: nothing left to renew).
    pub fn store(&mut self, next_tick: Option<u64>)
        requires
            next_tick != Some(u64::MAX),
        ensures
            final(self).tick() == next_tick,
    {
        self.next_tick = match next_tick {
            Some(t) => t,
            None => u64::MAX,
        };
    }

    /// The next tick, if one is scheduled.
    pub fn decode_next_tick(&self) -> (r: Option<u64>)
        ensures
            r == self.tick(),
    {
        if self.next_tick != u64::MAX {
            Some(self.next_tick)
        } else {
            None
        }
    }
}

/// Hastening never makes a tick later, and the tick after hastening to `t` is at most `t`.
pub proof fn lemma_hasten_never_later(before: u64, t: u64, after: u64)
    requires
        after == if t < before {
            t
        } else {
            before
        },
    ensures
        after <= before,
        after <= t,
        after == before || after == t,
{
}

/// Hastening to two times in either order gives the same tick: the earlier of them.
pub proof fn lemma_hasten_commutes(s: u64, a: u64, b: u64)
    ensures
        ({
            let s1 = if a < s {
                a
            } else {
                s
            };
            let s2 = if b < s1 {
                b
            } else {
                s1
            };
            let t1 = if b < s {
                b
            } else {
                s
            };
            let t2 = if a < t1 {
                a
            } else {
                t1
            };
            s2 == t2
        }),
{
}

/// The deadline after taking in the handle's tick `tick`: the earlier of the two.
pub open spec fn armed(deadline: Option<u64>, tick: Option<u64>) -> Option<u64> {
    match (deadline, tick) {
        (Some(d), Some(t)) => Some(
            if t < d {
                t
            } else {
                d
            },
        ),
        (Some(d), None) => Some(d),
        (None, t) => t,
    }
}

/// Whether a sleep until `deadline` is over at `now`.
pub open spec fn due(deadline: Option<u64>, now: u64) -> bool {
    deadline matches Some(d) && d <= now
}

/// The sleep of the renewal task: the time it sleeps until, if it sleeps.
#[derive(Debug)]
pub struct Scheduler {
    sleep: Option<u64>,
}

impl Scheduler {
    /// The time the task sleeps until.
    pub closed spec fn deadline(&self) -> Option<u64> {
        self.sleep
    }

    /// A scheduler that sleeps until the handle's next tick.
    pub fn new(handle: &Handle) -> (r: Scheduler)
        ensures
            r.deadline() == handle.tick(),
    {
        Scheduler { sleep: handle.decode_next_tick() }
    }

    /// Takes in a hastened tick: sleeps until the handle's tick where that is earlier than the
    /// current deadline, or where there is no deadline.
    pub fn arm(&mut self, handle: &Handle)
        ensures
            final(self).deadline() == armed(old(self).deadline(), handle.tick()),
    {
        match (self.sleep, handle.decode_next_tick()) {
            (Some(d), Some(t)) => {
                if t < d {
                    self.sleep = Some(t);
                }
            },
            (Some(_), None) => {},
            (None, t) => {
                self.sleep = t;
            },
        }
    }

    /// The time the task sleeps until.
    pub fn deadline_secs(&self) -> (r: Option<u64>)
        ensures
            r == self.deadline(),
    {
        self.sleep
    }

    /// Whether the renewal is due at `now`.
    pub fn is_due(&self, now: u64) -> (r: bool)
        ensures
            r == due(self.deadline(), now),
    {
        match self.sleep {
            Some(d) => d <= now,
            None => false,
        }
    }

    /// After a run that chose `next_tick`: records it in the handle and sleeps until it, or
    /// stops sleeping where there is nothing left to renew.
    pub fn after_tick(&mut self, handle: &mut Handle, next_tick: Option<u64>)
        requires
            next_tick != Some(u64::MAX),
        ensures
            final(self).deadline() == next_tick,
            final(handle).tick() == next_tick,
    {
        handle.store(next_tick);
        self.sleep = next_tick;
    }
}

/// After a hasten to `t` and an `arm`, the task sleeps until no later than `t`.
pub proof fn lemma_armed_after_hasten(deadline: Option<u64>, stored: u64, t: u64)
    requires
        t != u64::MAX,
    ensures
        ({
            let hastened = if t < stored {
                t
            } else {
                stored
            };
            armed(deadline, decoded_tick(hastened)) matches Some(a) && a <= t
        }),
{
}

/// One poll of the renewal task at `now`, from the deadline `deadline` and the handle's tick
/// `tick`: it takes in the tick (`arm`) and, where the sleep is over (`is_due`), runs the
/// renewal, which chooses `next`, and records it (`after_tick`). The deadline and the handle's
/// tick after it, and whether the renewal ran.
pub open spec fn poll(deadline: Option<u64>, tick: Option<u64>, now: u64, next: Option<u64>) -> (Option<u64>, Option<u64>, bool) {
    let d = armed(deadline, tick);
    if due(d, now) {
        (next, next, true)
    } else {
        (d, tick, false)
    }
}

/// `k` polls at `now`, nothing hastening the handle in between, where the renewal chooses
/// `results[0]` when it first runs, `results[1]` when it runs next, and so on. The deadline and
/// the handle's tick after them, and how many times the renewal ran.
pub open spec fn polls(
    deadline: Option<u64>,
    tick: Option<u64>,
    now: u64,
    results: Seq<Option<u64>>,
    k: nat,
) -> (Option<u64>, Option<u64>, nat)
    decreases k,
{
    if k == 0 {
        (deadline, tick, 0)
    } else {
        let (d, t, n) = polls(deadline, tick, now, results, (k - 1) as nat);
        let (d2, t2, ran) = poll(d, t, now, results[n as int]);
        (d2, t2, if ran {
            n + 1
        } else {
            n
        })
    }
}

/// A poll runs the renewal only where the deadline or the handle's tick has come.
pub proof fn lemma_poll_runs_only_when_due(deadline: Option<u64>, tick: Option<u64>, now: u64, next: Option<u64>)
    ensures
        poll(deadline, tick, now, next).2 ==> due(deadline, now) || due(tick, now),
{
}

/// Any number of polls at one instant run the renewal at most once, where the renewal always
/// chooses a later time (or nothing): after a run, the task sleeps until that time.
pub proof fn lemma_polls_at_one_instant_run_at_most_once(
    deadline: Option<u64>,
    tick: Option<u64>,
    now: u64,
    results: Seq<Option<u64>>,
    k: nat,
)
    requires
        results.len() > 0,
        forall|i: int| 0 <= i < results.len() ==> (#[trigger] results[i] matches Some(t) ==> now < t),
    ensures
        polls(deadline, tick, now, results, k).2 <= 1,
        polls(deadline, tick, now, results, k).2 == 1 ==> polls(deadline, tick, now, results, k).0
            == results[0] && polls(deadline, tick, now, results, k).1 == results[0],
    decreases k,
{
    if k > 0 {
        lemma_polls_at_one_instant_run_at_most_once(deadline, tick, now, results, (k - 1) as nat);
        let (d, t, n) = polls(deadline, tick, now, results, (k - 1) as nat);
        if n == 1 {
            assert(armed(d, t) == d);
            assert(!due(d, now));
        }
    }
}

/// Whether the task's deadline is never before the handle's tick: where the task sleeps, the
/// handle holds a tick at or before the deadline. `Scheduler::new` starts so, and `poll` and
/// `Handle::hasten` keep it so.
pub open spec fn consistent(deadline: Option<u64>, tick: Option<u64>) -> bool {
    deadline matches Some(d) ==> (tick matches Some(t) && t <= d)
}

/// The handle's tick after hastening it to `t`.
pub open spec fn hastened(tick: Option<u64>, t: u64) -> Option<u64> {
    match tick {
        Some(x) => Some(
            if t < x {
                t
            } else {
                x
            },
        ),
        None => Some(t),
    }
}

/// A poll runs the renewal exactly when the handle's stored tick has come, and leaves the
/// deadline and the tick consistent; hastening keeps them consistent too.
pub proof fn lemma_poll_runs_when_stored_tick_has_come(
    deadline: Option<u64>,
    tick: Option<u64>,
    now: u64,
    next: Option<u64>,
    t: u64,
)
    requires
        consistent(deadline, tick),
    ensures
        poll(deadline, tick, now, next).2 <==> due(tick, now),
        consistent(poll(deadline, tick, now, next).0, poll(deadline, tick, now, next).1),
        consistent(deadline, hastened(tick, t)),
{
    assert(armed(deadline, tick) == tick);
}

} // verus!
