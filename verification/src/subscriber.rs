//! The subscriber: its settings, its callback URI, and the rules it answers hubs by.
pub mod scheduler;
pub mod service;
pub mod update;

use vstd::prelude::*;
use vstd::string::StrSliceExecFns;

use crate::hub::{appended, has_path_and_query, path_and_query, Callback, CallbackView};
use self::scheduler::Handle;
use self::service::Service;

verus! {

/// The renewal margin that a `Builder` starts with: an hour.
pub open spec fn default_renewal_margin() -> u64 {
    3600
}

/// Settings of a subscriber.
#[derive(Clone, Debug)]
pub struct Builder {
    renewal_margin: u64,
}

/// The tick at which a subscription that expires at `expires_at` is renewed: the renewal margin
/// before the expiry, or at once for an expiry before the epoch.
pub open spec fn tick_for_expiry(expires_at: Option<i64>, margin: u64) -> Option<u64> {
    match expires_at {
        None => None,
        Some(e) => Some(
            if e < 0 {
                0
            } else {
                (e - margin) as u64
            },
        ),
    }
}

/// Whether the renewal time of an expiry can be computed (it is not within the margin after
/// the epoch).
pub open spec fn expiry_in_range(expires_at: Option<i64>, margin: u64) -> bool {
    expires_at matches Some(e) ==> (e < 0 || e >= margin)
}

/// The renewal tick for the earliest expiry in the store.
pub fn next_tick_for(expires_at: Option<i64>, margin: u64) -> (r: Option<u64>)
    requires
        expiry_in_range(expires_at, margin),
    ensures
        r == tick_for_expiry(expires_at, margin),
        r != Some(u64::MAX),
{
    match expires_at {
        None => None,
        Some(e) => {
            if e < 0 {
                Some(0)
            } else {
                Some(e as u64 - margin)
            }
        },
    }
}

impl Builder {
    /// The renewal margin in seconds.
    pub closed spec fn margin(&self) -> u64 {
        self.renewal_margin
    }

    pub fn new() -> (r: Self)
        ensures
            r.margin() == default_renewal_margin(),
    {
        Builder { renewal_margin: 3600 }
    }

    /// Sets how many seconds before expiry a subscription is renewed.
    pub fn renewal_margin(&mut self, renewal_margin: u64) -> (r: &mut Self)
        ensures
            r.margin() == renewal_margin,
            final(self).margin() == final(r).margin(),
    {
        self.renewal_margin = renewal_margin;
        self
    }

    /// Makes the subscriber's state: the callback prefix made to end with a slash, the margin,
    /// and the first renewal tick from the earliest expiry in the store.
    pub fn build(&self, callback: Callback, next_expiry: Option<i64>) -> (r: Service)
        requires
            has_path_and_query(callback@),
            expiry_in_range(next_expiry, self.margin()),
        ensures
            r.callback() == prepared_prefix(callback@),
            r.margin() == self.margin(),
            r.handle().tick() == tick_for_expiry(next_expiry, self.margin()),
    {
        let first_tick = next_tick_for(next_expiry, self.renewal_margin);
        let callback = prepare_callback_prefix(callback);
        Service::new(callback, self.renewal_margin, Handle::new(first_tick))
    }
}

impl Default for Builder {
    fn default() -> (r: Self)
        ensures
            r.margin() == default_renewal_margin(),
    {
        Self::new()
    }
}

/// Whether a text ends with a slash.
pub open spec fn ends_with_slash(s: Seq<char>) -> bool {
    s.len() > 0 && s.last() == '/'
}

/// The callback prefix made to end with a slash.
pub open spec fn prepared_prefix(c: CallbackView) -> CallbackView {
    if ends_with_slash(path_and_query(c)) {
        c
    } else {
        appended(c, "/"@)
    }
}

fn ends_with_slash_exec(s: &str) -> (r: bool)
    ensures
        r == ends_with_slash(s@),
{
    let n = s.unicode_len();
    n > 0 && s.get_char(n - 1) == '/'
}

/// Ensures that `prefix` ends with a slash.
pub fn prepare_callback_prefix(prefix: Callback) -> (r: Callback)
    requires
        has_path_and_query(prefix@),
    ensures
        r@ == prepared_prefix(prefix@),
        ends_with_slash(path_and_query(r@)),
{
    let ends = match &prefix.query {
        Some(q) => ends_with_slash_exec(q.as_str()),
        None => ends_with_slash_exec(prefix.path.as_str()),
    };
    proof {
        reveal_strlit("?");
        reveal_strlit("/");
        let pq = path_and_query(prefix@);
        match prefix@.query {
            Some(q) => {
                assert(pq == prefix@.path + ("?"@ + q));
                assert(q.len() > 0 ==> pq.last() == q.last());
            },
            None => {
                assert(pq =~= prefix@.path);
            },
        }
    }
    if ends {
        prefix
    } else {
        let r = prefix.append("/");
        proof {
            let c = r@;
            match c.query {
                Some(q) => {
                    assert(path_and_query(c) == c.path + ("?"@ + q));
                    assert(path_and_query(c).last() == q.last());
                },
                None => {
                    assert(path_and_query(c) =~= c.path);
                },
            }
        }
        r
    }
}

/// Preparing a prefix twice changes nothing more than preparing it once.
pub proof fn lemma_prepare_idempotent(c: CallbackView)
    ensures
        prepared_prefix(prepared_prefix(c)) == prepared_prefix(c),
{
    reveal_strlit("?");
    reveal_strlit("/");
    let p = prepared_prefix(c);
    match p.query {
        Some(q) => {
            assert(path_and_query(p) == p.path + ("?"@ + q));
        },
        None => {
            assert(path_and_query(p) =~= p.path);
        },
    }
    if !ends_with_slash(path_and_query(c)) {
        match c.query {
            Some(q) => {
                assert(p.query == Some(q + "/"@));
                assert((q + "/"@).last() == '/');
            },
            None => {
                assert(p.path == c.path + "/"@);
            },
        }
    }
}

} // verus!
