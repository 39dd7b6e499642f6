//! Exponential backoff: how long to wait after each failure in a row.
//!
//! Times are in seconds, on whatever clock the caller sleeps by.
use vstd::prelude::*;

verus! {

/// The first period of waiting, in seconds.
pub const INITIAL_WAIT: u64 = 1;

/// The state of a backoff that has been increased at least once.
#[derive(Clone, Copy, Debug)]
struct Inner {
    deadline: u64,
    wait: u64,
}

/// Exponential backoff.
#[derive(Clone, Copy, Debug)]
pub struct Backoff {
    inner: Option<Inner>,
}

impl Backoff {
    /// The length of the period this backoff is or was waiting for (`0` initially and after
    /// `reset`).
    pub closed spec fn wait(&self) -> u64 {
        match self.inner {
            Some(i) => i.wait,
            None => 0,
        }
    }

    /// The time the backoff waits until, once it has been increased.
    pub closed spec fn deadline(&self) -> Option<u64> {
        match self.inner {
            Some(i) => Some(i.deadline),
            None => None,
        }
    }

    /// Whether `increase` at `now` stays within the range of the clock.
    pub open spec fn can_increase(&self, now: u64) -> bool {
        if self.wait() == 0 {
            now + INITIAL_WAIT <= u64::MAX
        } else {
            self.deadline() matches Some(d) && 2 * self.wait() <= u64::MAX && d + 2 * self.wait()
                <= u64::MAX
        }
    }

    pub fn new() -> (r: Self)
        ensures
            r.wait() == 0,
            r.deadline() is None,
    {
        Backoff { inner: None }
    }

    /// The length of the time period this `Backoff` is/was waiting for.
    ///
    /// It is set to `0` in the initial state.
    pub fn wait_secs(&self) -> (r: u64)
        ensures
            r == self.wait(),
    {
        match self.inner {
            Some(i) => i.wait,
            None => 0,
        }
    }

    /// Increases the waiting period, at `now`.
    ///
    /// If the current period is non-zero, it is doubled and the new period starts where the
    /// current one ends; if it is zero, it is set to `1` and starts now.
    pub fn increase(&mut self, now: u64)
        requires
            old(self).can_increase(now),
        ensures
            final(self).wait() == if old(self).wait() == 0 {
                INITIAL_WAIT as int
            } else {
                2 * old(self).wait()
            },
            final(self).deadline() == Some(
                if old(self).wait() == 0 {
                    (now + INITIAL_WAIT) as u64
                } else {
                    (old(self).deadline()->0 + 2 * old(self).wait()) as u64
                },
            ),
    {
        match self.inner {
            Some(i) => {
                if i.wait == 0 {
                    self.inner = Some(Inner { deadline: now + INITIAL_WAIT, wait: INITIAL_WAIT });
                } else {
                    let wait = i.wait * 2;
                    self.inner = Some(Inner { deadline: i.deadline + wait, wait });
                }
            },
            None => {
                self.inner = Some(Inner { deadline: now + INITIAL_WAIT, wait: INITIAL_WAIT });
            },
        }
    }

    /// Resets the backoff to a period of zero.
    pub fn reset(&mut self)
        ensures
            final(self).wait() == 0,
            final(self).deadline() == old(self).deadline(),
    {
        if let Some(i) = self.inner {
            self.inner = Some(Inner { deadline: i.deadline, wait: 0 });
        }
    }

    /// Whether the backoff has completed at `now`: its period is zero or has elapsed.
    pub fn is_complete(&self, now: u64) -> (r: bool)
        ensures
            r == (self.wait() == 0 || (self.deadline() matches Some(d) && d <= now)),
    {
        match self.inner {
            Some(i) => i.wait == 0 || i.deadline <= now,
            None => true,
        }
    }
}

/// After `k` increases in a row from a zero period, the period is `2^(k-1)` seconds.
pub open spec fn wait_after_increases(k: nat) -> nat
    decreases k,
{
    if k == 0 {
        0
    } else if k == 1 {
        INITIAL_WAIT as nat
    } else {
        2 * wait_after_increases((k - 1) as nat)
    }
}

/// Increasing a period of `wait_after_increases(k)` gives `wait_after_increases(k + 1)`: the
/// periods go 0, 1, 2, 4, and so on, doubling.
pub proof fn lemma_increase_doubles(k: nat)
    ensures
        wait_after_increases(k + 1) == if wait_after_increases(k) == 0 {
            INITIAL_WAIT as nat
        } else {
            2 * wait_after_increases(k)
        },
        k > 0 ==> wait_after_increases(k) > 0,
    decreases k,
{
    if k > 1 {
        lemma_increase_doubles((k - 1) as nat);
    }
}

} // verus!
