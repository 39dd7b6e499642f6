//! How the subscriber answers requests at its callback URIs and renews its subscriptions.
use vstd::prelude::*;
use vstd::string::{StrSliceExecFns, StringSliceAdditionalSpecFns};
use vstd::utf8::encode_utf8;

use super::scheduler::Handle;
use super::update::{Content, Update};
use crate::db::{deactivated_before, expires_before, ConnectionRef, SubscriptionRecord};
use crate::hub::{
    self, is_generated_secret, opt_view, subscribe_body, unsubscribe_body, verify_from_query, Callback,
    CallbackView, HubRequest, Verify, VerifyView,
};
use crate::signature::{best_signature, parsed_signatures, signature_of, Signature};
use crate::util::callback_id;

verus! {

/// The state that answers the hubs: the callback prefix, the renewal margin and the handle of
/// the renewal task.
#[derive(Debug)]
pub struct Service {
    callback: Callback,
    renewal_margin: u64,
    handle: Handle,
}

impl Service {
    /// The callback prefix.
    pub closed spec fn callback(&self) -> CallbackView {
        self.callback@
    }

    /// The renewal margin in seconds.
    pub closed spec fn margin(&self) -> u64 {
        self.renewal_margin
    }

    /// The handle of the renewal task.
    pub closed spec fn handle(&self) -> Handle {
        self.handle
    }

    pub fn new(callback: Callback, renewal_margin: u64, handle: Handle) -> (r: Service)
        ensures
            r.callback() == callback@,
            r.margin() == renewal_margin,
            r.handle() == handle,
    {
        Service { callback, renewal_margin, handle }
    }

    /// The handle of the renewal task.
    pub fn handle_ref(&self) -> (r: &Handle)
        ensures
            *r == self.handle(),
    {
        &self.handle
    }

    /// Mutable access to the handle of the renewal task.
    pub fn handle_mut(&mut self) -> (r: &mut Handle)
        ensures
            *r == old(self).handle(),
            final(self).handle() == *final(r),
            final(self).callback() == old(self).callback(),
            final(self).margin() == old(self).margin(),
    {
        &mut self.handle
    }

    /// The callback prefix.
    pub fn callback_prefix(&self) -> (r: &Callback)
        ensures
            r@ == self.callback(),
    {
        &self.callback
    }

    /// When a subscription that expires at `expires_at` is renewed.
    pub fn refresh_time(&self, expires_at: u64) -> (r: u64)
        requires
            expires_at >= self.margin(),
        ensures
            r == expires_at - self.margin(),
    {
        expires_at - self.renewal_margin
    }

    /// Subscribes to a topic at a hub (see `hub::subscribe`).
    pub fn subscribe<C: ConnectionRef>(&self, hub: String, topic: String, conn: &mut C) -> (r: Result<HubRequest, C::Error>)
        ensures
            final(conn).reliable() == old(conn).reliable(),
            old(conn).reliable() ==> r is Ok,
            r is Err ==> final(conn).subscriptions() == old(conn).subscriptions(),
            r matches Ok(req) ==> {
                let secret = final(conn).subscriptions()[req.id].secret;
                &&& is_generated_secret(secret)
                &&& !old(conn).subscriptions().contains_key(req.id)
                &&& final(conn).subscriptions() == old(conn).subscriptions().insert(
                    req.id,
                    SubscriptionRecord { hub: hub@, topic: topic@, secret, expires_at: None },
                )
                &&& req.hub@ == hub@
                &&& req.topic@ == topic@
                &&& req.body@ == subscribe_body(self.callback(), req.id, topic@, secret)
            },
    {
        hub::subscribe(&self.callback, hub, topic, conn)
    }

    /// Unsubscribes from a topic at a hub (see `hub::unsubscribe`).
    pub fn unsubscribe<C: ConnectionRef>(&self, id: u64, hub: String, topic: String, conn: &mut C) -> (r: Result<HubRequest, C::Error>)
        ensures
            final(conn).reliable() == old(conn).reliable(),
            old(conn).reliable() ==> r is Ok,
            r is Err ==> final(conn).subscriptions() == old(conn).subscriptions(),
            r matches Ok(req) ==> {
                &&& final(conn).subscriptions() == old(conn).subscriptions().remove(id)
                &&& req.id == id
                &&& req.hub@ == hub@
                &&& req.topic@ == topic@
                &&& req.body@ == unsubscribe_body(self.callback(), id, topic@)
            },
    {
        hub::unsubscribe(&self.callback, id, hub, topic, conn)
    }
}

/// What the subscriber answers an HTTP request with: a status code and a body.
#[derive(Debug)]
pub struct Reply {
    pub status: u16,
    pub body: String,
}

/// An operation that a store error stopped partway: the requests to hubs that it had made by
/// then, which go out all the same, and the error.
#[derive(Debug)]
pub struct Interrupted<E> {
    pub requests: Vec<HubRequest>,
    pub error: E,
}

/// The expiry of a subscription verified at `now` for `lease_seconds`: their sum, at most
/// `i64::MAX`.
pub open spec fn subscription_expiry(now: u64, lease_seconds: u64) -> i64 {
    if now + lease_seconds > i64::MAX {
        i64::MAX
    } else {
        (now + lease_seconds) as i64
    }
}

/// Whether the table has a pending subscription with the ID and topic.
pub open spec fn is_pending(t: Map<u64, SubscriptionRecord>, id: u64, topic: Seq<char>) -> bool {
    t.contains_key(id) && t[id].topic == topic && t[id].expires_at is None
}

/// Whether the table has a subscription with the ID and topic.
pub open spec fn has_subscription(t: Map<u64, SubscriptionRecord>, id: u64, topic: Seq<char>) -> bool {
    t.contains_key(id) && t[id].topic == topic
}

/// The other subscriptions to the topic at the hub.
pub open spec fn other_ids(t: Map<u64, SubscriptionRecord>, id: u64, hub: Seq<char>, topic: Seq<char>) -> Set<u64> {
    Set::new(|x: u64| x != id && t.contains_key(x) && t[x].hub == hub && t[x].topic == topic)
}

/// The table with a subscription made active until `expires_at`.
pub open spec fn activated(t: Map<u64, SubscriptionRecord>, id: u64, expires_at: i64) -> Map<u64, SubscriptionRecord> {
    t.insert(id, SubscriptionRecord { expires_at: Some(expires_at), ..t[id] })
}

/// Whether `reqs` are the unsubscription requests for exactly the IDs in `ids`, each once.
pub open spec fn unsubscribes_exactly(reqs: Seq<HubRequest>, ids: Set<u64>, prefix: CallbackView, hub: Seq<char>, topic: Seq<char>) -> bool {
    &&& forall|i: int, j: int| 0 <= i < j < reqs.len() ==> reqs[i].id != reqs[j].id
    &&& forall|i: int| 0 <= i < reqs.len() ==> ids.contains(#[trigger] reqs[i].id)
    &&& forall|x: u64| ids.contains(x) ==> exists|i: int| 0 <= i < reqs.len() && #[trigger] reqs[i].id == x
    &&& forall|i: int| 0 <= i < reqs.len() ==> {
        &&& (#[trigger] reqs[i]).hub@ == hub
        &&& reqs[i].topic@ == topic
        &&& reqs[i].body@ == unsubscribe_body(prefix, reqs[i].id, topic)
    }
}

/// Whether the query of a subscription verification needs the margin subtracted from an
/// expiry below the margin (the renewal time would be before the epoch).
pub open spec fn intent_in_range(t: Map<u64, SubscriptionRecord>, id: u64, query: Seq<char>, now: u64, margin: u64) -> bool {
    match verify_from_query(query) {
        Some(VerifyView::Subscribe { topic, lease_seconds, .. }) => is_pending(t, id, topic)
            ==> subscription_expiry(now, lease_seconds) >= margin,
        _ => true,
    }
}

/// The outcome of an intent verification query for subscription `id` at `now`: the table
/// before and after, the handle's stored tick before and after, the reply and the requests made.
pub open spec fn intent_outcome(
    prefix: CallbackView,
    margin: u64,
    id: u64,
    query: Seq<char>,
    now: u64,
    before: Map<u64, SubscriptionRecord>,
    after: Map<u64, SubscriptionRecord>,
    tick_before: u64,
    tick_after: u64,
    status: u16,
    body: Seq<char>,
    reqs: Seq<HubRequest>,
) -> bool {
    match verify_from_query(query) {
        Some(VerifyView::Subscribe { topic, challenge, lease_seconds }) if is_pending(before, id, topic) => {
            let hub = before[id].hub;
            let exp = subscription_expiry(now, lease_seconds);
            let refresh = (exp - margin) as u64;
            &&& status == 200 && body == challenge
            &&& after == activated(before.remove_keys(other_ids(before, id, hub, topic)), id, exp)
            &&& unsubscribes_exactly(reqs, other_ids(before, id, hub, topic), prefix, hub, topic)
            &&& tick_after == if refresh < tick_before { refresh } else { tick_before }
        },
        Some(VerifyView::Unsubscribe { topic, challenge }) if !has_subscription(before, id, topic) => {
            &&& status == 200 && body == challenge
            &&& after == before && reqs.len() == 0 && tick_after == tick_before
        },
        _ => {
            &&& status == 404 && body.len() == 0
            &&& after == before && reqs.len() == 0 && tick_after == tick_before
        },
    }
}

/// The IDs of the subscriptions that requests are about.
pub open spec fn request_ids(reqs: Seq<HubRequest>) -> Set<u64> {
    reqs.map_values(|r: HubRequest| r.id).to_set()
}

/// An intent verification that a store error stopped partway. For a subscription query about a
/// pending subscription, the renewal task may have been hastened to the renewal time (it was,
/// where any request was made), and some of the other subscriptions to the topic at the hub
/// removed, each with a request to its hub to end it. Otherwise nothing changed.
pub open spec fn partial_intent(
    prefix: CallbackView,
    margin: u64,
    id: u64,
    query: Seq<char>,
    now: u64,
    before: Map<u64, SubscriptionRecord>,
    after: Map<u64, SubscriptionRecord>,
    tick_before: u64,
    tick_after: u64,
    reqs: Seq<HubRequest>,
) -> bool {
    match verify_from_query(query) {
        Some(VerifyView::Subscribe { topic, lease_seconds, .. }) if is_pending(before, id, topic) => {
            let hub = before[id].hub;
            let refresh = (subscription_expiry(now, lease_seconds) - margin) as u64;
            let hastened = if refresh < tick_before { refresh } else { tick_before };
            &&& tick_after == tick_before || tick_after == hastened
            &&& reqs.len() > 0 ==> tick_after == hastened
            &&& forall|i: int, j: int| 0 <= i < j < reqs.len() ==> reqs[i].id != reqs[j].id
            &&& forall|i: int| 0 <= i < reqs.len() ==> {
                &&& other_ids(before, id, hub, topic).contains(#[trigger] reqs[i].id)
                &&& reqs[i].hub@ == hub
                &&& reqs[i].topic@ == topic
                &&& reqs[i].body@ == unsubscribe_body(prefix, reqs[i].id, topic)
            }
            &&& after == before.remove_keys(request_ids(reqs))
        },
        _ => reqs.len() == 0 && after == before && tick_after == tick_before,
    }
}

impl Service {
    /// Answers an intent verification query of a hub about subscription `id`, at Unix time
    /// `now`.
    ///
    /// A subscription query about a pending subscription to the topic activates it until
    /// `now + lease_seconds` (at most `i64::MAX`), hastens the renewal task to the renewal time,
    /// removes the other subscriptions to the topic at the hub, asking the hub to end each,
    /// and echoes the challenge. An unsubscription query about a subscription that does not
    /// exist (any more) echoes the challenge. Anything else is answered with 404. Where the
    /// store fails partway, the requests made by then come back with the error.
    pub fn verify_intent<C: ConnectionRef>(&mut self, id: u64, query: &str, now: u64, conn: &mut C) -> (r: Result<(Reply, Vec<HubRequest>), Interrupted<C::Error>>)
        requires
            intent_in_range(old(conn).subscriptions(), id, query@, now, old(self).margin()),
        ensures
            final(conn).reliable() == old(conn).reliable(),
            old(conn).reliable() ==> r is Ok,
            verify_from_query(query@) is None ==> (r matches Ok((reply, reqs)) && reply.status == 404
                && reply.body@.len() == 0 && reqs@.len() == 0) && *final(conn) == *old(conn)
                && *final(self) == *old(self),
            final(self).callback() == old(self).callback(),
            final(self).margin() == old(self).margin(),
            r matches Ok((reply, reqs)) ==> intent_outcome(
                old(self).callback(),
                old(self).margin(),
                id,
                query@,
                now,
                old(conn).subscriptions(),
                final(conn).subscriptions(),
                old(self).handle().stored(),
                final(self).handle().stored(),
                reply.status,
                reply.body@,
                reqs@,
            ),
            r matches Err(f) ==> partial_intent(
                old(self).callback(),
                old(self).margin(),
                id,
                query@,
                now,
                old(conn).subscriptions(),
                final(conn).subscriptions(),
                old(self).handle().stored(),
                final(self).handle().stored(),
                f.requests@,
            ),
    {
        let no_reqs: Vec<HubRequest> = Vec::new();
        let not_found = Reply { status: 404, body: String::new() };
        proof {
            assert(request_ids(Seq::<HubRequest>::empty()) =~= Set::<u64>::empty());
            assert(conn.subscriptions().remove_keys(Set::<u64>::empty()) =~= conn.subscriptions());
        }
        match Verify::parse(query) {
            Some(Verify::Subscribe { topic, challenge, lease_seconds }) => {
                let hub = match conn.get_hub_of_inactive_subscription(id, topic.as_str()) {
                    Ok(Some(hub)) => hub,
                    Ok(None) => return Ok((not_found, no_reqs)),
                    Err(error) => return Err(Interrupted { requests: no_reqs, error }),
                };
                let sum = now.saturating_add(lease_seconds);
                let expires_at: i64 = if sum > 0x7fff_ffff_ffff_ffff {
                    0x7fff_ffff_ffff_ffff
                } else {
                    sum as i64
                };
                let refresh = self.refresh_time(expires_at as u64);
                self.handle.hasten(refresh);
                let ghost t0 = conn.subscriptions();
                let ghost olds = other_ids(t0, id, hub@, topic@);
                let old_ids = match conn.get_old_subscriptions(id, hub.as_str(), topic.as_str()) {
                    Ok(v) => v,
                    Err(error) => return Err(Interrupted { requests: no_reqs, error }),
                };
                let mut reqs: Vec<HubRequest> = Vec::new();
                let mut i: usize = 0;
                while i < old_ids.len()
                    invariant
                        i <= old_ids@.len(),
                        verify_from_query(query@) == Some(VerifyView::Subscribe { topic: topic@, challenge: challenge@, lease_seconds }),
                        t0 == old(conn).subscriptions(),
                        refresh == (subscription_expiry(now, lease_seconds) - old(self).margin()) as u64,
                        conn.reliable() == old(conn).reliable(),
                        self.callback() == old(self).callback(),
                        self.margin() == old(self).margin(),
                        self.handle().stored() == (if refresh < old(self).handle().stored() {
                            refresh
                        } else {
                            old(self).handle().stored()
                        }),
                        is_pending(t0, id, topic@),
                        t0[id].hub == hub@,
                        forall|a: int, b: int| 0 <= a < b < old_ids@.len() ==> old_ids@[a] != old_ids@[b],
                        forall|x: u64| old_ids@.contains(x) <==> olds.contains(x),
                        olds == other_ids(t0, id, hub@, topic@),
                        conn.subscriptions() == t0.remove_keys(old_ids@.subrange(0, i as int).to_set()),
                        reqs@.len() == i,
                        forall|j: int| 0 <= j < i ==> (#[trigger] reqs@[j]).id == old_ids@[j]
                            && reqs@[j].hub@ == hub@ && reqs@[j].topic@ == topic@
                            && reqs@[j].body@ == unsubscribe_body(self.callback(), old_ids@[j], topic@),
                    decreases old_ids@.len() - i,
                {
                    let req = match self.unsubscribe(old_ids[i], hub.clone(), topic.clone(), conn) {
                        Ok(req) => req,
                        Err(error) => {
                            proof {
                                assert(reqs@.map_values(|r: HubRequest| r.id) =~= old_ids@.subrange(0, i as int));
                                assert forall|j: int| 0 <= j < reqs@.len() implies other_ids(t0, id, hub@, topic@).contains(#[trigger] reqs@[j].id) by {
                                    assert(old_ids@.contains(old_ids@[j]));
                                }
                            }
                            return Err(Interrupted { requests: reqs, error });
                        },
                    };
                    reqs.push(req);
                    proof {
                        let s0 = old_ids@.subrange(0, i as int);
                        let s1 = old_ids@.subrange(0, i + 1);
                        assert forall|x: u64| s1.contains(x) <==> (s0.contains(x) || x == old_ids@[i as int]) by {
                            if s1.contains(x) {
                                let k = choose|k: int| 0 <= k < s1.len() && s1[k] == x;
                                if k < i {
                                    assert(s0[k] == x);
                                }
                            }
                            if s0.contains(x) {
                                let k = choose|k: int| 0 <= k < s0.len() && s0[k] == x;
                                assert(s1[k] == x);
                            }
                            if x == old_ids@[i as int] {
                                assert(s1[i as int] == x);
                            }
                        }
                        assert(s1.to_set() =~= s0.to_set().insert(old_ids@[i as int]));
                        assert(t0.remove_keys(old_ids@.subrange(0, i + 1).to_set()) =~= t0.remove_keys(old_ids@.subrange(0, i as int).to_set()).remove(old_ids@[i as int]));
                    }
                    i = i + 1;
                }
                proof {
                    assert(old_ids@.subrange(0, old_ids@.len() as int) =~= old_ids@);
                    assert(old_ids@.to_set() =~= olds) by {
                        assert forall|x: u64| old_ids@.to_set().contains(x) <==> olds.contains(x) by {
                            if old_ids@.contains(x) {
                                let k = choose|k: int| 0 <= k < old_ids@.len() && old_ids@[k] == x;
                            }
                        }
                    }
                    assert(!olds.contains(id));
                }
                if let Err(error) = conn.activate_subscription(id, expires_at) {
                    proof {
                        assert(reqs@.map_values(|r: HubRequest| r.id) =~= old_ids@);
                        assert forall|j: int| 0 <= j < reqs@.len() implies olds.contains(#[trigger] reqs@[j].id) by {
                            assert(old_ids@.contains(old_ids@[j]));
                        }
                    }
                    return Err(Interrupted { requests: reqs, error });
                }
                proof {
                    assert forall|x: u64| olds.contains(x) implies exists|j: int| 0 <= j < reqs@.len() && #[trigger] reqs@[j].id == x by {
                        assert(old_ids@.contains(x));
                        let k = choose|k: int| 0 <= k < old_ids@.len() && old_ids@[k] == x;
                        assert(reqs@[k].id == x);
                    }
                    assert forall|j: int| 0 <= j < reqs@.len() implies olds.contains(#[trigger] reqs@[j].id) by {
                        assert(old_ids@.contains(old_ids@[j]));
                    }
                }
                Ok((Reply { status: 200, body: challenge }, reqs))
            },
            Some(Verify::Unsubscribe { topic, challenge }) => {
                match conn.subscription_exists(id, topic.as_str()) {
                    Ok(true) => Ok((not_found, no_reqs)),
                    Ok(false) => Ok((Reply { status: 200, body: challenge }, no_reqs)),
                    Err(error) => Err(Interrupted { requests: no_reqs, error }),
                }
            },
            None => Ok((not_found, no_reqs)),
        }
    }
}

/// The IDs of the active subscriptions that expire at or before `before`.
pub open spec fn expiring_ids(t: Map<u64, SubscriptionRecord>, before: i64) -> Set<u64> {
    Set::new(|id: u64| t.contains_key(id) && expires_before(t[id], before))
}

/// A renewal request made from the table `after`: for a fresh pending subscription, which
/// `before` does not hold, with a generated secret.
pub open spec fn renewal_request(prefix: CallbackView, before: Map<u64, SubscriptionRecord>, after: Map<u64, SubscriptionRecord>, r: HubRequest) -> bool {
    &&& !before.contains_key(r.id)
    &&& after.contains_key(r.id)
    &&& after[r.id].hub == r.hub@
    &&& after[r.id].topic == r.topic@
    &&& after[r.id].expires_at is None
    &&& is_generated_secret(after[r.id].secret)
    &&& r.body@ == subscribe_body(prefix, r.id, r.topic@, after[r.id].secret)
}

/// A renewal that a store error stopped partway: the requests made by then renew distinct
/// expiring subscriptions, each with a fresh pending subscription to the same topic at the same
/// hub; the table holds those besides what it held, and nothing was set pending.
pub open spec fn partial_renewal(
    prefix: CallbackView,
    before: Map<u64, SubscriptionRecord>,
    after: Map<u64, SubscriptionRecord>,
    threshold: i64,
    reqs: Seq<HubRequest>,
) -> bool {
    &&& forall|i: int, j: int| 0 <= i < j < reqs.len() ==> reqs[i].id != reqs[j].id
    &&& forall|x: u64| #[trigger] after.contains_key(x) <==> (before.contains_key(x) || exists|i: int|
        0 <= i < reqs.len() && reqs[i].id == x)
    &&& forall|x: u64| #[trigger] before.contains_key(x) ==> after[x] == before[x]
    &&& forall|i: int| 0 <= i < reqs.len() ==> renewal_request(prefix, before, after, #[trigger] reqs[i])
    &&& exists|renewed: Seq<u64>| {
        &&& renewed.len() == reqs.len()
        &&& forall|i: int, j: int| 0 <= i < j < renewed.len() ==> renewed[i] != renewed[j]
        &&& forall|i: int| 0 <= i < reqs.len() ==> expiring_ids(before, threshold).contains(#[trigger] renewed[i])
            && before[renewed[i]].hub == reqs[i].hub@ && before[renewed[i]].topic == reqs[i].topic@
    }
}

/// The outcome of renewing the subscriptions that expire at or before `threshold`: each of
/// them is set pending and a new pending subscription to the same topic at the same hub,
/// with a fresh ID and secret, is created and requested from the hub.
pub open spec fn renewal_outcome(
    prefix: CallbackView,
    before: Map<u64, SubscriptionRecord>,
    after: Map<u64, SubscriptionRecord>,
    threshold: i64,
    reqs: Seq<HubRequest>,
) -> bool {
    &&& forall|i: int, j: int| 0 <= i < j < reqs.len() ==> reqs[i].id != reqs[j].id
    &&& forall|x: u64| #[trigger] after.contains_key(x) <==> (before.contains_key(x) || exists|i: int|
        0 <= i < reqs.len() && reqs[i].id == x)
    &&& forall|x: u64| #[trigger] before.contains_key(x) ==> after[x] == deactivated_before(before, threshold)[x]
    &&& forall|i: int| 0 <= i < reqs.len() ==> {
        let r = #[trigger] reqs[i];
        &&& !before.contains_key(r.id)
        &&& after[r.id].hub == r.hub@
        &&& after[r.id].topic == r.topic@
        &&& after[r.id].expires_at is None
        &&& is_generated_secret(after[r.id].secret)
        &&& r.body@ == subscribe_body(prefix, r.id, r.topic@, after[r.id].secret)
    }
    &&& exists|renewed: Seq<u64>| {
        &&& renewed.len() == reqs.len()
        &&& forall|i: int, j: int| 0 <= i < j < renewed.len() ==> renewed[i] != renewed[j]
        &&& forall|x: u64| renewed.contains(x) <==> expiring_ids(before, threshold).contains(x)
        &&& forall|i: int| 0 <= i < reqs.len() ==> before[#[trigger] renewed[i]].hub == reqs[i].hub@
            && before[renewed[i]].topic == reqs[i].topic@
    }
}

impl Service {
    /// Renews the subscriptions that expire within the renewal margin (plus a second) of `now`.
    ///
    /// Where the store fails partway, the requests made by then come back with the error.
    pub fn renew_subscriptions<C: ConnectionRef>(&self, conn: &mut C, now: u64) -> (r: Result<Vec<HubRequest>, Interrupted<C::Error>>)
        requires
            now + self.margin() + 1 <= i64::MAX,
        ensures
            final(conn).reliable() == old(conn).reliable(),
            old(conn).reliable() ==> r is Ok,
            r matches Ok(reqs) ==> renewal_outcome(
                self.callback(),
                old(conn).subscriptions(),
                final(conn).subscriptions(),
                (now + self.margin() + 1) as i64,
                reqs@,
            ),
            r matches Err(f) ==> partial_renewal(
                self.callback(),
                old(conn).subscriptions(),
                final(conn).subscriptions(),
                (now + self.margin() + 1) as i64,
                f.requests@,
            ),
    {
        let threshold: i64 = (now + self.renewal_margin + 1) as i64;
        let ghost t0 = conn.subscriptions();
        let expiring = match conn.get_subscriptions_expire_before(threshold) {
            Ok(v) => v,
            Err(error) => {
                proof {
                    assert(partial_renewal(self.callback(), t0, conn.subscriptions(), threshold, Seq::empty())) by {
                        let w = Seq::<u64>::empty();
                        assert(w.len() == 0);
                    }
                }
                return Err(Interrupted { requests: Vec::new(), error });
            },
        };
        let mut reqs: Vec<HubRequest> = Vec::new();
        let ghost renewed = expiring@.map_values(|e: (u64, String, String)| e.0);
        let mut i: usize = 0;
        while i < expiring.len()
            invariant
                i <= expiring@.len(),
                conn.reliable() == old(conn).reliable(),
                renewed == expiring@.map_values(|e: (u64, String, String)| e.0),
                threshold == (now + self.margin() + 1) as i64,
                t0 == old(conn).subscriptions(),
                forall|a: int, b: int| 0 <= a < b < expiring@.len() ==> expiring@[a].0 != expiring@[b].0,
                forall|j: int| 0 <= j < expiring@.len() ==> {
                    let id = #[trigger] expiring@[j].0;
                    &&& t0.contains_key(id)
                    &&& expires_before(t0[id], threshold)
                    &&& expiring@[j].1@ == t0[id].hub
                    &&& expiring@[j].2@ == t0[id].topic
                },
                reqs@.len() == i,
                forall|a: int, b: int| 0 <= a < b < i ==> reqs@[a].id != reqs@[b].id,
                forall|x: u64| #[trigger] conn.subscriptions().contains_key(x) <==> (t0.contains_key(x)
                    || exists|j: int| 0 <= j < i && reqs@[j].id == x),
                forall|x: u64| #[trigger] t0.contains_key(x) ==> conn.subscriptions()[x] == t0[x],
                forall|j: int| 0 <= j < i ==> {
                    let r = #[trigger] reqs@[j];
                    &&& !t0.contains_key(r.id)
                    &&& conn.subscriptions()[r.id].hub == r.hub@
                    &&& conn.subscriptions()[r.id].topic == r.topic@
                    &&& conn.subscriptions()[r.id].expires_at is None
                    &&& is_generated_secret(conn.subscriptions()[r.id].secret)
                    &&& r.body@ == subscribe_body(self.callback(), r.id, r.topic@, conn.subscriptions()[r.id].secret)
                    &&& r.hub@ == expiring@[j].1@
                    &&& r.topic@ == expiring@[j].2@
                },
            decreases expiring@.len() - i,
        {
            let hub = expiring[i].1.clone();
            let topic = expiring[i].2.clone();
            let ghost prev = reqs@;
            let ghost c0 = conn.subscriptions();
            let req = match self.subscribe(hub, topic, conn) {
                Ok(req) => req,
                Err(error) => {
                    proof {
                        assert forall|j: int| 0 <= j < reqs@.len() implies renewal_request(self.callback(), t0, conn.subscriptions(), #[trigger] reqs@[j]) by {
                            assert(conn.subscriptions().contains_key(reqs@[j].id));
                        }
                        assert forall|j: int| 0 <= j < reqs@.len() implies expiring_ids(t0, threshold).contains(#[trigger] renewed[j])
                            && t0[renewed[j]].hub == reqs@[j].hub@ && t0[renewed[j]].topic == reqs@[j].topic@ by {
                            assert(renewed[j] == expiring@[j].0);
                        }
                        assert forall|a: int, b: int| 0 <= a < b < renewed.len() implies renewed[a] != renewed[b] by {
                            assert(renewed[a] == expiring@[a].0 && renewed[b] == expiring@[b].0);
                        }
                        lemma_renewed_so_far(self.callback(), t0, conn.subscriptions(), threshold, reqs@, renewed);
                    }
                    return Err(Interrupted { requests: reqs, error });
                },
            };
            let ghost rid = req.id;
            reqs.push(req);
            proof {
                assert(reqs@[i as int].id == rid);
                assert forall|j: int| 0 <= j < i implies reqs@[j] == prev[j] by {}
                assert forall|x: u64| #[trigger] conn.subscriptions().contains_key(x) <==> (t0.contains_key(x)
                    || exists|j: int| 0 <= j < i + 1 && reqs@[j].id == x) by {
                    if x == rid {
                        assert(reqs@[i as int].id == x);
                    } else if exists|j: int| 0 <= j < i && prev[j].id == x {
                        let j = choose|j: int| 0 <= j < i && prev[j].id == x;
                        assert(reqs@[j].id == x);
                    } else if exists|j: int| 0 <= j < i + 1 && reqs@[j].id == x {
                        let j = choose|j: int| 0 <= j < i + 1 && reqs@[j].id == x;
                        assert(prev[j].id == x);
                    }
                }
                assert forall|j: int| 0 <= j < i implies (#[trigger] reqs@[j]).id != rid by {
                    assert(c0.contains_key(prev[j].id));
                }
            }
            i = i + 1;
        }
        let ghost mid = conn.subscriptions();
        if expiring.len() > 0 {
            if let Err(error) = conn.deactivate_subscriptions_expire_before(threshold) {
                proof {
                    assert forall|j: int| 0 <= j < reqs@.len() implies renewal_request(self.callback(), t0, conn.subscriptions(), #[trigger] reqs@[j]) by {
                        assert(conn.subscriptions().contains_key(reqs@[j].id));
                    }
                    assert forall|j: int| 0 <= j < reqs@.len() implies expiring_ids(t0, threshold).contains(#[trigger] renewed[j])
                        && t0[renewed[j]].hub == reqs@[j].hub@ && t0[renewed[j]].topic == reqs@[j].topic@ by {
                        assert(renewed[j] == expiring@[j].0);
                    }
                    assert forall|a: int, b: int| 0 <= a < b < renewed.len() implies renewed[a] != renewed[b] by {
                        assert(renewed[a] == expiring@[a].0 && renewed[b] == expiring@[b].0);
                    }
                    lemma_renewed_so_far(self.callback(), t0, conn.subscriptions(), threshold, reqs@, renewed);
                }
                return Err(Interrupted { requests: reqs, error });
            }
        }
        proof {
            let t1 = conn.subscriptions();
            assert forall|x: u64| #[trigger] t0.contains_key(x) implies t1[x] == deactivated_before(t0, threshold)[x] by {
                assert(mid[x] == t0[x]);
                if expiring@.len() == 0 {
                    if expires_before(t0[x], threshold) {
                        let k = choose|k: int| 0 <= k < expiring@.len() && expiring@[k].0 == x;
                    }
                }
            }
            assert forall|k: int| 0 <= k < reqs@.len() implies t1[(#[trigger] reqs@[k]).id] == mid[reqs@[k].id] by {
                assert(mid.contains_key(reqs@[k].id));
            }
            if expiring@.len() == 0 {
                assert forall|x: u64| #[trigger] t0.contains_key(x) implies !expires_before(t0[x], threshold) by {
                    if expires_before(t0[x], threshold) {
                        let k = choose|k: int| 0 <= k < expiring@.len() && expiring@[k].0 == x;
                    }
                }
            }
            assert forall|x: u64| renewed.contains(x) <==> expiring_ids(t0, threshold).contains(x) by {
                if renewed.contains(x) {
                    let k = choose|k: int| 0 <= k < renewed.len() && renewed[k] == x;
                    assert(expiring@[k].0 == x);
                }
                if expiring_ids(t0, threshold).contains(x) {
                    let k = choose|k: int| 0 <= k < expiring@.len() && expiring@[k].0 == x;
                    assert(renewed[k] == x);
                }
            }
            assert forall|k: int| 0 <= k < reqs@.len() implies t0[#[trigger] renewed[k]].hub == reqs@[k].hub@
                && t0[renewed[k]].topic == reqs@[k].topic@ by {
                assert(renewed[k] == expiring@[k].0);
            }
            assert(renewed.len() == reqs@.len());
            assert forall|a: int, b: int| 0 <= a < b < renewed.len() implies renewed[a] != renewed[b] by {
                assert(renewed[a] == expiring@[a].0 && renewed[b] == expiring@[b].0);
            }
        }
        Ok(reqs)
    }
}

/// The requests of a renewal that stopped partway, each for the expiring subscription at its
/// place in `renewed`, make a partial renewal.
proof fn lemma_renewed_so_far(
    prefix: CallbackView,
    before: Map<u64, SubscriptionRecord>,
    after: Map<u64, SubscriptionRecord>,
    threshold: i64,
    reqs: Seq<HubRequest>,
    renewed: Seq<u64>,
)
    requires
        reqs.len() <= renewed.len(),
        forall|a: int, b: int| 0 <= a < b < renewed.len() ==> renewed[a] != renewed[b],
        forall|j: int| 0 <= j < reqs.len() ==> expiring_ids(before, threshold).contains(#[trigger] renewed[j])
            && before[renewed[j]].hub == reqs[j].hub@ && before[renewed[j]].topic == reqs[j].topic@,
        forall|a: int, b: int| 0 <= a < b < reqs.len() ==> reqs[a].id != reqs[b].id,
        forall|x: u64| #[trigger] after.contains_key(x) <==> (before.contains_key(x)
            || exists|j: int| 0 <= j < reqs.len() && reqs[j].id == x),
        forall|x: u64| #[trigger] before.contains_key(x) ==> after[x] == before[x],
        forall|j: int| 0 <= j < reqs.len() ==> renewal_request(prefix, before, after, #[trigger] reqs[j]),
    ensures
        partial_renewal(prefix, before, after, threshold, reqs),
{
    let w = renewed.subrange(0, reqs.len() as int);
    assert forall|i: int| 0 <= i < reqs.len() implies expiring_ids(before, threshold).contains(#[trigger] w[i])
        && before[w[i]].hub == reqs[i].hub@ && before[w[i]].topic == reqs[i].topic@ by {
        assert(w[i] == renewed[i]);
    }
    assert forall|i: int, j: int| 0 <= i < j < w.len() implies w[i] != w[j] by {
        assert(w[i] == renewed[i] && w[j] == renewed[j]);
    }
    assert(w.len() == reqs.len());
}

/// A request that reached the subscriber's server: its path, its query, and its headers in
/// order, each name (in lower case) with its value.
pub struct CallbackRequest {
    pub path: String,
    pub query: Option<String>,
    pub headers: Vec<(String, Vec<u8>)>,
}

/// What the subscriber does with a request: the reply, the requests to make to hubs, and the
/// update to hand to the user.
pub struct CallOutcome {
    pub reply: Reply,
    pub requests: Vec<HubRequest>,
    pub update: Option<Update>,
}

/// Where a request goes.
pub enum Route {
    /// Not a callback of this subscriber.
    NotFound,
    /// A callback of no subscription.
    Gone,
    /// An intent verification query about a subscription.
    Intent(u64, Seq<char>),
    /// Content distributed to a subscription.
    Content(u64),
}

/// Where a request with the path and query goes, for the callback prefix path `prefix`.
///
/// The part of the path after the prefix is the subscription ID. A part that is no ID is
/// answered 404 where it holds a slash or the request has a query (an endpoint that may mean
/// something else, or a malformed verification), else 410, as for a removed subscription.
pub open spec fn route(prefix: Seq<char>, path: Seq<char>, query: Option<Seq<char>>) -> Route {
    if prefix.is_prefix_of(path) {
        let tail = path.subrange(prefix.len() as int, path.len() as int);
        match callback_id::decoded_id(encode_utf8(tail)) {
            Some(id) => match query {
                Some(q) => Route::Intent(id, q),
                None => Route::Content(id),
            },
            None => if encode_utf8(tail).contains(0x2f) || query is Some {
                Route::NotFound
            } else {
                Route::Gone
            },
        }
    } else {
        Route::NotFound
    }
}

/// The names and values of headers.
pub open spec fn headers_view(h: Seq<(String, Vec<u8>)>) -> Seq<(Seq<char>, Seq<u8>)> {
    h.map_values(|p: (String, Vec<u8>)| (p.0@, p.1@))
}

/// Whether a header name (in lower case) is that of the signature header, `X-Hub-Signature`.
pub open spec fn is_signature_header(name: Seq<char>) -> bool {
    name == "x-hub-signature"@
}

/// The values of the signature headers among `h`, in order.
pub open spec fn signature_values(h: Seq<(Seq<char>, Seq<u8>)>) -> Seq<Seq<u8>>
    decreases h.len(),
{
    if h.len() == 0 {
        Seq::empty()
    } else {
        let rest = signature_values(h.drop_last());
        if is_signature_header(h.last().0) {
            rest.push(h.last().1)
        } else {
            rest
        }
    }
}

/// Whether the request is answered without a look at the subscription table: it is no callback
/// of a subscription, an intent verification query that does not parse, or content without a
/// signature.
pub open spec fn answered_without_store(prefix: Seq<char>, req: &CallbackRequest) -> bool {
    match route(prefix, req.path@, opt_view(req.query)) {
        Route::NotFound | Route::Gone => true,
        Route::Intent(_, q) => verify_from_query(q) is None,
        Route::Content(_) => best_signature(signature_values(headers_view(req.headers@))) is None,
    }
}

/// Whether the answer to a request leaves everything as it was: no requests, no update, the
/// table and the renewal tick unchanged.
pub open spec fn no_effect(
    before: Map<u64, SubscriptionRecord>,
    after: Map<u64, SubscriptionRecord>,
    tick_before: u64,
    tick_after: u64,
    out: CallOutcome,
) -> bool {
    &&& after == before
    &&& tick_after == tick_before
    &&& out.requests@.len() == 0
    &&& out.update is None
}

/// Whether the request can be answered without a renewal time before the epoch.
pub open spec fn call_in_range(
    t: Map<u64, SubscriptionRecord>,
    prefix: Seq<char>,
    req: &CallbackRequest,
    now: u64,
    margin: u64,
) -> bool {
    match route(prefix, req.path@, opt_view(req.query)) {
        Route::Intent(id, q) => intent_in_range(t, id, q, now, margin),
        _ => true,
    }
}

/// Strips a prefix off a string, by characters.
fn strip_prefix<'a>(s: &'a str, prefix: &str) -> (r: Option<&'a str>)
    ensures
        r matches Some(t) ==> prefix@.is_prefix_of(s@) && t@ == s@.subrange(
            prefix@.len() as int,
            s@.len() as int,
        ),
        r is None ==> !prefix@.is_prefix_of(s@),
{
    let n = prefix.unicode_len();
    let m = s.unicode_len();
    if n > m {
        return None;
    }
    let mut i: usize = 0;
    while i < n
        invariant
            n == prefix@.len(),
            m == s@.len(),
            n <= m,
            i <= n,
            forall|j: int| 0 <= j < i ==> prefix@[j] == s@[j],
        decreases n - i,
    {
        if s.get_char(i) != prefix.get_char(i) {
            return None;
        }
        i = i + 1;
    }
    assert(prefix@ =~= s@.subrange(0, n as int));
    Some(s.substring_char(n, m))
}

/// Whether two strings hold the same characters.
fn str_eq(a: &str, b: &str) -> (r: bool)
    ensures
        r == (a@ == b@),
{
    let n = a.unicode_len();
    if n != b.unicode_len() {
        return false;
    }
    let mut i: usize = 0;
    while i < n
        invariant
            n == a@.len(),
            n == b@.len(),
            i <= n,
            forall|j: int| 0 <= j < i ==> a@[j] == b@[j],
        decreases n - i,
    {
        if a.get_char(i) != b.get_char(i) {
            return false;
        }
        i = i + 1;
    }
    assert(a@ =~= b@);
    true
}

/// Copies headers, names and values.
fn copy_headers(h: &Vec<(String, Vec<u8>)>) -> (r: Vec<(String, Vec<u8>)>)
    ensures
        headers_view(r@) == headers_view(h@),
{
    let mut r: Vec<(String, Vec<u8>)> = Vec::new();
    let mut i: usize = 0;
    while i < h.len()
        invariant
            i <= h@.len(),
            headers_view(r@) == headers_view(h@.subrange(0, i as int)),
        decreases h@.len() - i,
    {
        let name = h[i].0.clone();
        let value = vstd::slice::slice_to_vec(h[i].1.as_slice());
        r.push((name, value));
        proof {
            assert(headers_view(h@.subrange(0, i + 1)) =~= headers_view(h@.subrange(0, i as int)).push((h@[i as int].0@, h@[i as int].1@)));
        }
        i = i + 1;
        proof {
            assert(headers_view(r@) =~= headers_view(h@.subrange(0, i as int)));
        }
    }
    assert(h@.subrange(0, h@.len() as int) =~= h@);
    r
}

/// What `call` does with a request at `now`: the service and the store before and after,
/// and the result.
pub open spec fn call_answer<C: ConnectionRef>(
    before: Service,
    after: Service,
    conn_before: C,
    conn_after: C,
    req: &CallbackRequest,
    now: u64,
    r: Result<CallOutcome, Interrupted<C::Error>>,
) -> bool {
    let t0 = conn_before.subscriptions();
    let t1 = conn_after.subscriptions();
    let tick0 = before.handle().stored();
    let tick1 = after.handle().stored();
    let dest = route(before.callback().path, req.path@, opt_view(req.query));
    &&& conn_after.reliable() == conn_before.reliable()
    &&& conn_before.reliable() ==> r is Ok
    &&& answered_without_store(before.callback().path, req) ==> r is Ok && conn_after == conn_before && after == before
    &&& after.callback() == before.callback()
    &&& after.margin() == before.margin()
    &&& r matches Err(f) ==> match dest {
        Route::Intent(id, q) => partial_intent(before.callback(), before.margin(), id, q, now, t0, t1, tick0, tick1, f.requests@),
        _ => f.requests@.len() == 0 && t1 == t0 && tick1 == tick0,
    }
    &&& r matches Ok(out) ==> match dest {
        Route::NotFound => out.reply.status == 404 && out.reply.body@.len() == 0 && no_effect(t0, t1, tick0, tick1, out),
        Route::Gone => out.reply.status == 410 && out.reply.body@.len() == 0 && no_effect(t0, t1, tick0, tick1, out),
        Route::Intent(id, q) => out.update is None && intent_outcome(
            before.callback(),
            before.margin(),
            id,
            q,
            now,
            t0,
            t1,
            tick0,
            tick1,
            out.reply.status,
            out.reply.body@,
            out.requests@,
        ),
        Route::Content(id) => {
            &&& t1 == t0
            &&& tick1 == tick0
            &&& out.requests@.len() == 0
            &&& out.reply.body@.len() == 0
            &&& match best_signature(signature_values(headers_view(req.headers@))) {
                None => out.reply.status == 200 && out.update is None,
                Some((a, d)) => if t0.contains_key(id) {
                    &&& out.reply.status == 200
                    &&& out.update matches Some(u) && {
                        &&& u.topic@ == t0[id].topic
                        &&& headers_view(u.headers@) == headers_view(req.headers@)
                        &&& u.content.algorithm() == a
                        &&& u.content.expected() == d
                        &&& u.content.key() == encode_utf8(t0[id].secret)
                        &&& u.content.body() == Seq::<u8>::empty()
                    }
                } else {
                    out.reply.status == 410 && out.update is None
                },
            }
        },
    }
}

impl Service {
    /// Answers a request at the subscriber's server, at Unix time `now`.
    ///
    /// Intent verification queries go to `verify_intent`. Content distributed to a subscription
    /// is handed over as an `Update`, with the request's headers, the strongest parseable
    /// `X-Hub-Signature` value and the subscription's secret to check it; without a signature
    /// it is dropped, and for a subscription that does not exist it is answered 410 so that the
    /// hub ends it. Requests that need no look at the table (see `answered_without_store`) are
    /// answered whatever the store would do, and leave it untouched.
    pub fn call<C: ConnectionRef>(&mut self, req: &CallbackRequest, now: u64, conn: &mut C) -> (r: Result<CallOutcome, Interrupted<C::Error>>)
        requires
            call_in_range(old(conn).subscriptions(), old(self).callback().path, req, now, old(self).margin()),
        ensures
            call_answer(*old(self), *final(self), *old(conn), *final(conn), req, now, r),
    {
        let no_reqs: Vec<HubRequest> = Vec::new();
        let tail = match strip_prefix(req.path.as_str(), self.callback.path.as_str()) {
            Some(tail) => tail,
            None => return Ok(CallOutcome { reply: Reply { status: 404, body: String::new() }, requests: no_reqs, update: None }),
        };
        let id = match callback_id::decode(tail) {
            Some(id) => id,
            None => {
                let has_slash = crate::signature::find_byte(tail.as_bytes(), 0x2f).is_some();
                let status: u16 = if has_slash || req.query.is_some() {
                    404
                } else {
                    410
                };
                return Ok(CallOutcome { reply: Reply { status, body: String::new() }, requests: no_reqs, update: None });
            },
        };
        if let Some(q) = &req.query {
            return match self.verify_intent(id, q.as_str(), now, conn) {
                Ok((reply, requests)) => Ok(CallOutcome { reply, requests, update: None }),
                Err(f) => Err(f),
            };
        }
        let mut best: Option<Signature> = None;
        let mut i: usize = 0;
        while i < req.headers.len()
            invariant
                i <= req.headers@.len(),
                match best {
                    None => best_signature(signature_values(headers_view(req.headers@.subrange(0, i as int)))) is None,
                    Some(b) => best_signature(signature_values(headers_view(req.headers@.subrange(0, i as int))))
                        == Some((b.algorithm(), b.digest())),
                },
            decreases req.headers@.len() - i,
        {
            let ghost h0 = headers_view(req.headers@.subrange(0, i as int));
            let ghost h1 = headers_view(req.headers@.subrange(0, i + 1));
            proof {
                assert(h1.drop_last() =~= h0);
                assert(h1.last() == (req.headers@[i as int].0@, req.headers@[i as int].1@));
            }
            if str_eq(req.headers[i].0.as_str(), "x-hub-signature") {
                proof {
                    let v = signature_values(h1);
                    assert(v.drop_last() =~= signature_values(h0));
                    assert(parsed_signatures(v).drop_last() =~= parsed_signatures(v.drop_last()));
                    assert(parsed_signatures(v).last() == signature_of(v.last()));
                }
                match Signature::parse(req.headers[i].1.as_slice()) {
                    Ok(sig) => {
                        let replace = match &best {
                            Some(prev) => sig.is_preferable_to(prev),
                            None => true,
                        };
                        if replace {
                            best = Some(sig);
                        }
                    },
                    Err(_) => {},
                }
            }
            i = i + 1;
        }
        proof {
            assert(req.headers@.subrange(0, req.headers@.len() as int) =~= req.headers@);
        }
        let signature = match best {
            Some(sig) => sig,
            None => return Ok(CallOutcome { reply: Reply { status: 200, body: String::new() }, requests: no_reqs, update: None }),
        };
        let found = match conn.get_topic(id) {
            Ok(found) => found,
            Err(error) => return Err(Interrupted { requests: no_reqs, error }),
        };
        match found {
            None => Ok(CallOutcome { reply: Reply { status: 410, body: String::new() }, requests: no_reqs, update: None }),
            Some((topic, secret)) => {
                let content = Content::new(signature, secret.as_str().as_bytes());
                let headers = copy_headers(&req.headers);
                Ok(CallOutcome { reply: Reply { status: 200, body: String::new() }, requests: no_reqs, update: Some(Update { topic, headers, content }) })
            },
        }
    }

    /// Answers a request as `call` does, where the clock and the renewal margin let every
    /// verified subscription have a renewal time: `None`, with nothing done, where `now` is
    /// below the margin or the margin is beyond `i64::MAX`.
    pub fn try_call<C: ConnectionRef>(&mut self, req: &CallbackRequest, now: u64, conn: &mut C) -> (r: Option<Result<CallOutcome, Interrupted<C::Error>>>)
        ensures
            r is None <==> (now < old(self).margin() || old(self).margin() > i64::MAX),
            r is None ==> *final(self) == *old(self) && *final(conn) == *old(conn),
            r matches Some(o) ==> call_answer(*old(self), *final(self), *old(conn), *final(conn), req, now, o),
    {
        if now < self.renewal_margin || self.renewal_margin > 0x7fff_ffff_ffff_ffff {
            return None;
        }
        Some(self.call(req, now, conn))
    }
}

/// A request whose path does not start with the callback prefix's path is no callback of this
/// subscriber: it is answered 404 with an empty body (never 410), whatever the store, and
/// changes nothing. Conversely, 410 is answered only to paths under the prefix.
pub proof fn lemma_foreign_paths_are_not_found<C: ConnectionRef>(
    before: Service,
    after: Service,
    conn_before: C,
    conn_after: C,
    req: &CallbackRequest,
    now: u64,
    r: Result<CallOutcome, Interrupted<C::Error>>,
)
    requires
        call_answer(before, after, conn_before, conn_after, req, now, r),
    ensures
        !before.callback().path.is_prefix_of(req.path@) ==> {
            &&& r matches Ok(out) && out.reply.status == 404 && out.reply.body@.len() == 0
                && out.requests@.len() == 0 && out.update is None
            &&& conn_after == conn_before
            &&& after == before
        },
        r matches Ok(out) && out.reply.status == 410 ==> before.callback().path.is_prefix_of(req.path@),
{
}

/// A request under the callback prefix whose remaining path is no subscription ID is answered
/// without the store and changes nothing: 404 where that part holds a slash or the request has a
/// query (another endpoint, or a malformed verification), else 410, as for a removed
/// subscription.
pub proof fn lemma_unknown_callbacks<C: ConnectionRef>(
    before: Service,
    after: Service,
    conn_before: C,
    conn_after: C,
    req: &CallbackRequest,
    now: u64,
    r: Result<CallOutcome, Interrupted<C::Error>>,
)
    requires
        call_answer(before, after, conn_before, conn_after, req, now, r),
        before.callback().path.is_prefix_of(req.path@),
        callback_id::decoded_id(
            encode_utf8(req.path@.subrange(before.callback().path.len() as int, req.path@.len() as int)),
        ) is None,
    ensures
        conn_after == conn_before,
        after == before,
        r matches Ok(out) && out.reply.body@.len() == 0 && out.requests@.len() == 0 && out.update is None
            && out.reply.status == if encode_utf8(
            req.path@.subrange(before.callback().path.len() as int, req.path@.len() as int),
        ).contains(0x2f) || req.query is Some {
            404u16
        } else {
            410u16
        },
{
}

/// After a renewal, no subscription that expires at or before the threshold is active any more,
/// and every renewal is a pending subscription to the topic of an expiring one.
pub proof fn lemma_renewal_leaves_nothing_expiring(
    prefix: CallbackView,
    before: Map<u64, SubscriptionRecord>,
    after: Map<u64, SubscriptionRecord>,
    threshold: i64,
    reqs: Seq<HubRequest>,
)
    requires
        renewal_outcome(prefix, before, after, threshold, reqs),
    ensures
        forall|id: u64| #[trigger] after.contains_key(id) ==> !expires_before(after[id], threshold),
        forall|id: u64| #[trigger] before.contains_key(id) ==> after.contains_key(id),
{
    assert forall|id: u64| #[trigger] after.contains_key(id) implies !expires_before(after[id], threshold) by {
        if before.contains_key(id) {
            assert(after[id] == deactivated_before(before, threshold)[id]);
        } else {
            let i = choose|i: int| 0 <= i < reqs.len() && reqs[i].id == id;
            assert(after[reqs[i].id].expires_at is None);
        }
    }
}

/// After a hub verifies a subscription, the subscription is active until its expiry and is the
/// only one to its topic at its hub; the renewal task runs no later than the renewal time.
pub proof fn lemma_verified_subscription_is_the_only_one(
    prefix: CallbackView,
    margin: u64,
    id: u64,
    query: Seq<char>,
    now: u64,
    before: Map<u64, SubscriptionRecord>,
    after: Map<u64, SubscriptionRecord>,
    tick_before: u64,
    tick_after: u64,
    status: u16,
    body: Seq<char>,
    reqs: Seq<HubRequest>,
    topic: Seq<char>,
    challenge: Seq<char>,
    lease_seconds: u64,
)
    requires
        intent_outcome(prefix, margin, id, query, now, before, after, tick_before, tick_after, status, body, reqs),
        verify_from_query(query) == Some(VerifyView::Subscribe { topic, challenge, lease_seconds }),
        is_pending(before, id, topic),
        subscription_expiry(now, lease_seconds) >= margin,
    ensures
        status == 200 && body == challenge,
        after.contains_key(id),
        after[id].expires_at == Some(subscription_expiry(now, lease_seconds)),
        forall|x: u64| #[trigger] after.contains_key(x) && x != id ==> !(after[x].hub == before[id].hub
            && after[x].topic == topic),
        tick_after <= tick_before,
        tick_after <= subscription_expiry(now, lease_seconds) - margin,
{
    let hub = before[id].hub;
    let olds = other_ids(before, id, hub, topic);
    assert forall|x: u64| #[trigger] after.contains_key(x) && x != id implies !(after[x].hub == hub
        && after[x].topic == topic) by {
        assert(before.remove_keys(olds).contains_key(x));
        assert(!olds.contains(x));
    }
}

} // verus!
