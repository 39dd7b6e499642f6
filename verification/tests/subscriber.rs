use hmac::{Hmac, Mac};
use websub_sub::db::{ConnectionRef, MemoryConnection, Subscription};
use websub_sub::hub::{make_callback, Callback};
use websub_sub::subscriber::scheduler::{Handle, Scheduler};
use websub_sub::subscriber::service::{CallbackRequest, Service};
use websub_sub::subscriber::{prepare_callback_prefix, Builder};
use websub_sub::util::callback_id;

const TOPIC: &str = "http://example.com/topic/1";
const HUB: &str = "http://example.com/hub";

fn prepared(s: &str) -> String {
    prepare_callback_prefix(Callback::parse(s).unwrap()).to_string()
}

#[test]
fn callback_prefix() {
    // Should remain intact (root directory).
    assert_eq!(prepared("http://example.com/"), "http://example.com/");
    // Should remain intact (subdirectory).
    assert_eq!(prepared("http://example.com/websub/"), "http://example.com/websub/");
    // Should append a slash (root directory).
    assert_eq!(prepared("http://example.com"), "http://example.com/");
    // Should append a slash (subdirectory).
    assert_eq!(prepared("http://example.com/websub"), "http://example.com/websub/");
}

#[test]
fn builder_defaults_to_an_hour_of_margin() {
    let b = Builder::new();
    let service = b.build(Callback::parse("http://example.com").unwrap(), None);
    assert_eq!(service.refresh_time(10_000), 10_000 - 3600);
    assert_eq!(service.handle_ref().decode_next_tick(), None);
    assert_eq!(service.callback_prefix().to_string(), "http://example.com/");
}

#[test]
fn builder_schedules_the_first_renewal() {
    let mut b = Builder::default();
    b.renewal_margin(42);
    let service = b.build(Callback::parse("http://example.com/").unwrap(), Some(1000));
    assert_eq!(service.handle_ref().decode_next_tick(), Some(958));
    let service = b.build(Callback::parse("http://example.com/").unwrap(), Some(-5));
    assert_eq!(service.handle_ref().decode_next_tick(), Some(0));
}

#[test]
fn hasten() {
    let mut handle = Handle::new(None);
    assert_eq!(handle.decode_next_tick(), None);
    assert!(handle.hasten(100));
    assert_eq!(handle.decode_next_tick(), Some(100));
    assert!(!handle.hasten(150));
    assert_eq!(handle.decode_next_tick(), Some(100));
    assert!(handle.hasten(50));
    assert_eq!(handle.decode_next_tick(), Some(50));
}

#[test]
fn scheduler() {
    let mut handle = Handle::new(Some(10));
    let mut sched = Scheduler::new(&handle);
    assert!(!sched.is_due(9));
    assert!(sched.is_due(10));
    sched.after_tick(&mut handle, Some(52));
    assert!(!sched.is_due(51));
    assert!(sched.is_due(52));
    handle.hasten(20);
    sched.arm(&handle);
    assert!(sched.is_due(20));
    sched.after_tick(&mut handle, None);
    assert_eq!(handle.decode_next_tick(), None);
    assert!(!sched.is_due(u64::MAX - 1));
}

/// One poll of the renewal task at `now`, as a runner does it; returns whether the renewal ran.
fn poll(sched: &mut Scheduler, handle: &mut Handle, now: u64, count: &mut u64) -> bool {
    sched.arm(handle);
    if sched.is_due(now) {
        *count += 1;
        sched.after_tick(handle, Some(now + *count * 42));
        true
    } else {
        false
    }
}

#[test]
fn polls_at_one_instant_run_once() {
    let mut handle = Handle::new(Some(1001));
    let mut sched = Scheduler::new(&handle);
    let mut count = 0;
    assert!(!poll(&mut sched, &mut handle, 1000, &mut count));
    assert_eq!(count, 0);
    assert!(poll(&mut sched, &mut handle, 1001, &mut count));
    assert!(!poll(&mut sched, &mut handle, 1001, &mut count));
    assert_eq!(count, 1);
    assert!(poll(&mut sched, &mut handle, 1043, &mut count));
    assert!(!poll(&mut sched, &mut handle, 1043, &mut count));
    assert_eq!(count, 2);
    assert!(!poll(&mut sched, &mut handle, 1085, &mut count));
    assert_eq!(count, 2);
    assert!(poll(&mut sched, &mut handle, 1127, &mut count));
    assert!(!poll(&mut sched, &mut handle, 1127, &mut count));
    assert_eq!(count, 3);
}

fn service(margin: u64) -> Service {
    let mut b = Builder::new();
    b.renewal_margin(margin);
    b.build(Callback::parse("http://example.com/").unwrap(), None)
}

fn request(path: &str, query: Option<&str>, signatures: &[&str]) -> CallbackRequest {
    CallbackRequest {
        path: path.to_owned(),
        query: query.map(str::to_owned),
        headers: signatures.iter().map(|s| ("x-hub-signature".to_owned(), s.as_bytes().to_vec())).collect(),
    }
}

fn callback_path(service: &Service, id: u64) -> String {
    make_callback(service.callback_prefix(), id).path
}

#[test]
fn subscribe_then_verify_intent() {
    let mut conn = MemoryConnection::new();
    let mut service = service(42);
    let req = service.subscribe(HUB.to_owned(), TOPIC.to_owned(), &mut conn).unwrap();
    assert_eq!(req.hub, HUB);
    assert_eq!(req.topic, TOPIC);
    let id = req.id;
    assert!(req.body.starts_with("hub.mode=subscribe&hub.callback=http%3A%2F%2Fexample.com%2F"));
    assert_eq!(conn.rows().len(), 1);
    assert_eq!(conn.rows()[0].1.expires_at, None);

    let path = callback_path(&service, id);
    assert_eq!(path, format!("/{}", callback_id::encode(&id.to_le_bytes())));
    let q = format!("hub.mode=subscribe&hub.topic={}&hub.challenge=ch&hub.lease_seconds=100", TOPIC);
    let out = service.call(&request(&path, Some(&q), &[]), 1_000_000, &mut conn).unwrap();
    assert_eq!(callback_id::decode(&callback_id::encode(&id.to_le_bytes())), Some(id));
    assert_eq!(out.reply.status, 200);
    assert_eq!(out.reply.body, "ch");
    assert_eq!(conn.rows()[0].1.expires_at, Some(1_000_100));
    assert_eq!(service.handle_ref().decode_next_tick(), Some(1_000_100 - 42));
    // A second verification of the now active subscription is refused.
    let out = service.call(&request(&path, Some(&q), &[]), 1_000_000, &mut conn).unwrap();
    assert_eq!(out.reply.status, 404);
}

#[test]
fn verification_removes_old_subscriptions() {
    let rows = vec![
        (1u64, Subscription { hub: HUB.to_owned(), topic: TOPIC.to_owned(), secret: "s1".to_owned(), expires_at: Some(500) }),
        (2u64, Subscription { hub: HUB.to_owned(), topic: TOPIC.to_owned(), secret: "s2".to_owned(), expires_at: None }),
        (3u64, Subscription { hub: HUB.to_owned(), topic: "other".to_owned(), secret: "s3".to_owned(), expires_at: Some(700) }),
    ];
    let mut conn = MemoryConnection::from_rows(rows).unwrap();
    let mut service = service(42);
    let path = callback_path(&service, 2);
    let q = format!("hub.mode=subscribe&hub.topic={}&hub.challenge=c2&hub.lease_seconds=1000", TOPIC);
    let out = service.call(&request(&path, Some(&q), &[]), 100, &mut conn).unwrap();
    assert_eq!(out.reply.status, 200);
    assert_eq!(out.reply.body, "c2");
    assert_eq!(out.requests.len(), 1);
    assert_eq!(out.requests[0].id, 1);
    assert_eq!(out.requests[0].body, "hub.mode=unsubscribe&hub.callback=http%3A%2F%2Fexample.com%2FAQ&hub.topic=http%3A%2F%2Fexample.com%2Ftopic%2F1");
    let ids: Vec<u64> = conn.rows().iter().map(|r| r.0).collect();
    assert!(!ids.contains(&1));
    assert!(ids.contains(&2) && ids.contains(&3));
    assert_eq!(conn.get_next_expiry(), Ok(Some(700)));

    // Unsubscription of the removed subscription is confirmed.
    let old_path = callback_path(&service, 1);
    let q = format!("hub.mode=unsubscribe&hub.topic={}&hub.challenge=bye", TOPIC);
    let out = service.call(&request(&old_path, Some(&q), &[]), 100, &mut conn).unwrap();
    assert_eq!(out.reply.status, 200);
    assert_eq!(out.reply.body, "bye");
    // Unsubscription of an existing one is not.
    let out = service.call(&request(&path, Some(&q), &[]), 100, &mut conn).unwrap();
    assert_eq!(out.reply.status, 404);
}

#[test]
fn routes_requests() {
    let mut conn = MemoryConnection::new();
    let mut service = service(42);
    let out = service.call(&request("/elsewhere/x", None, &[]), 100, &mut conn);
    let _ = out;
    let out = service.call(&request("/a/b", None, &[]), 100, &mut conn).unwrap();
    assert_eq!(out.reply.status, 404);
    let out = service.call(&request("/!!", None, &[]), 100, &mut conn).unwrap();
    assert_eq!(out.reply.status, 410);
    let out = service.call(&request("/!!", Some("x=y"), &[]), 100, &mut conn).unwrap();
    assert_eq!(out.reply.status, 404);
    // Content for a subscription that does not exist.
    let path = callback_path(&service, 7);
    let sig = "sha1=b51fc029a4765b9d49a82e3c6665c0503a7ffca8";
    let out = service.call(&request(&path, None, &[sig]), 100, &mut conn).unwrap();
    assert_eq!(out.reply.status, 410);
    // Without a signature, content is dropped.
    let out = service.call(&request(&path, None, &[]), 100, &mut conn).unwrap();
    assert_eq!(out.reply.status, 200);
    assert!(out.update.is_none());
}

#[test]
fn delivers_content_with_the_strongest_signature() {
    let rows = vec![(
        5u64,
        Subscription { hub: HUB.to_owned(), topic: TOPIC.to_owned(), secret: "super strong secret".to_owned(), expires_at: Some(900) },
    )];
    let mut conn = MemoryConnection::from_rows(rows).unwrap();
    let mut service = service(42);
    let path = callback_path(&service, 5);
    let sigs = [
        "sha256=96c8f07509f42a391eaec872b8b63861a9511c67d81428f90f893ba893fbcc59",
        "garbage",
        "sha1=0000000000000000000000000000000000000000",
        "md5=00",
    ];
    let out = service.call(&request(&path, None, &sigs), 100, &mut conn).unwrap();
    assert_eq!(out.reply.status, 200);
    let mut update = out.update.unwrap();
    assert_eq!(update.topic, TOPIC);
    assert_eq!(update.headers.len(), 4);
    assert_eq!(update.headers[1], ("x-hub-signature".to_owned(), b"garbage".to_vec()));
    update.content.absorb(b"hello world");
    assert!(update.content.finish().is_ok());
}

#[test]
fn renews_expiring_subscriptions() {
    let rows = vec![
        (1u64, Subscription { hub: HUB.to_owned(), topic: "t1".to_owned(), secret: "s1".to_owned(), expires_at: Some(140) }),
        (2u64, Subscription { hub: HUB.to_owned(), topic: "t2".to_owned(), secret: "s2".to_owned(), expires_at: Some(1000) }),
    ];
    let mut conn = MemoryConnection::from_rows(rows).unwrap();
    let service = service(42);
    let reqs = service.renew_subscriptions(&mut conn, 100).unwrap();
    assert_eq!(reqs.len(), 1);
    assert_eq!(reqs[0].topic, "t1");
    assert_eq!(conn.rows().len(), 3);
    for (id, row) in conn.rows().iter() {
        match *id {
            1 => assert_eq!(row.expires_at, None),
            2 => assert_eq!(row.expires_at, Some(1000)),
            new => {
                assert_eq!(new, reqs[0].id);
                assert_eq!(row.topic, "t1");
                assert_eq!(row.expires_at, None);
                assert_eq!(row.secret.len(), 32);
            }
        }
    }
    assert_eq!(conn.get_next_expiry(), Ok(Some(1000)));
}

#[test]
fn unsubscribe_all_ends_matching_subscriptions() {
    let rows = vec![
        (1u64, Subscription { hub: HUB.to_owned(), topic: TOPIC.to_owned(), secret: "s1".to_owned(), expires_at: Some(500) }),
        (2u64, Subscription { hub: "http://other/hub".to_owned(), topic: TOPIC.to_owned(), secret: "s2".to_owned(), expires_at: None }),
        (3u64, Subscription { hub: HUB.to_owned(), topic: "other".to_owned(), secret: "s3".to_owned(), expires_at: Some(700) }),
    ];
    let prefix = Callback::parse("http://example.com/").unwrap();
    let mut conn = MemoryConnection::from_rows(rows).unwrap();
    let reqs = websub_sub::hub::unsubscribe_all(&prefix, Some(HUB.to_owned()), TOPIC.to_owned(), &mut conn).unwrap();
    assert_eq!(reqs.len(), 1);
    assert_eq!(reqs[0].id, 1);
    assert_eq!(conn.rows().len(), 2);
    let reqs = websub_sub::hub::unsubscribe_all(&prefix, None, TOPIC.to_owned(), &mut conn).unwrap();
    assert_eq!(reqs.len(), 1);
    assert_eq!(reqs[0].id, 2);
    assert_eq!(reqs[0].hub, "http://other/hub");
    assert_eq!(conn.rows().len(), 1);
    assert_eq!(conn.rows()[0].0, 3);
}

#[test]
fn rows_with_repeated_ids_are_refused() {
    let rows = vec![
        (1u64, Subscription { hub: HUB.to_owned(), topic: TOPIC.to_owned(), secret: "a".to_owned(), expires_at: None }),
        (1u64, Subscription { hub: HUB.to_owned(), topic: TOPIC.to_owned(), secret: "b".to_owned(), expires_at: None }),
    ];
    assert!(MemoryConnection::from_rows(rows).is_none());
}

fn query_subscribe(topic: &str, challenge: &str, lease: u64) -> String {
    format!(
        "hub.mode=subscribe&hub.topic={}&hub.challenge={}&hub.lease_seconds={}",
        topic, challenge, lease
    )
}

fn query_unsubscribe(topic: &str, challenge: &str) -> String {
    format!("hub.mode=unsubscribe&hub.topic={}&hub.challenge={}", topic, challenge)
}

/// Whether the callback of a subscription ID routes back to it.
fn routable(id: u64) -> bool {
    callback_id::decode(&callback_id::encode(&id.to_le_bytes())) == Some(id)
}

#[test]
fn entire_flow() {
    const MARGIN: u64 = 42;
    let secret_body = b"<feed/>";
    let mut conn = MemoryConnection::new();
    let mut service = service(MARGIN);
    let mut now = 1_000_000u64;

    // Subscribe to the topic.
    let req = service.subscribe(HUB.to_owned(), TOPIC.to_owned(), &mut conn).unwrap();
    let id = req.id;
    assert!(routable(id));
    let path = callback_path(&service, id);

    // Hub verifies intent of the subscriber.
    let q = query_subscribe(TOPIC, "subscription_challenge", 2 * MARGIN);
    let out = service.call(&request(&path, Some(&q), &[]), now, &mut conn).unwrap();
    assert_eq!(out.reply.status, 200);
    assert_eq!(out.reply.body, "subscription_challenge");
    assert_eq!(service.handle_ref().decode_next_tick(), Some(now + 2 * MARGIN - MARGIN));

    // Content distribution, signed with the secret.
    let secret = conn.rows()[0].1.secret.clone();
    let sig = {
        let mut mac = Hmac::<sha1::Sha1>::new_from_slice(secret.as_bytes()).unwrap();
        mac.update(secret_body);
        format!("sha1={}", hex::encode(mac.finalize().into_bytes()))
    };
    let out = service.call(&request(&path, None, &[&sig]), now, &mut conn).unwrap();
    assert_eq!(out.reply.status, 200);
    let mut update = out.update.unwrap();
    assert_eq!(update.topic, TOPIC);
    assert_eq!(update.headers, vec![("x-hub-signature".to_owned(), sig.as_bytes().to_vec())]);
    update.content.absorb(secret_body);
    assert!(update.content.finish().is_ok());

    // Subscription renewal.
    now += MARGIN;
    let renewals = service.renew_subscriptions(&mut conn, now).unwrap();
    assert_eq!(renewals.len(), 1);
    assert_eq!(renewals[0].topic, TOPIC);
    let new_id = renewals[0].id;
    assert_ne!(new_id, id);
    assert!(routable(new_id));
    let new_path = callback_path(&service, new_id);

    // Hub verifies intent of the renewal; the old subscription is ended.
    let q = query_subscribe(TOPIC, "renewal_challenge", 2 * MARGIN);
    let out = service.call(&request(&new_path, Some(&q), &[]), now, &mut conn).unwrap();
    assert_eq!(out.reply.body, "renewal_challenge");
    assert_eq!(out.requests.len(), 1);
    assert_eq!(out.requests[0].id, id);
    assert!(out.requests[0].body.starts_with("hub.mode=unsubscribe"));

    // Hub verifies intent of the unsubscription.
    let q = query_unsubscribe(TOPIC, "unsubscription_challenge");
    let out = service.call(&request(&path, Some(&q), &[]), now, &mut conn).unwrap();
    assert_eq!(out.reply.status, 200);
    assert_eq!(out.reply.body, "unsubscription_challenge");

    // Old subscription should be deleted from the database.
    assert!(conn.rows().iter().all(|r| r.0 != id));
    assert_eq!(conn.rows().len(), 1);
}

#[test]
fn renew_multi_subs() {
    const MARGIN: u64 = 42;
    let mut service = service(MARGIN);
    let now = 1_000_000u64;
    let rows = vec![
        (1u64, Subscription { hub: HUB.to_owned(), topic: "http://example.com/topic/1".to_owned(), secret: "secret1".to_owned(), expires_at: Some((now + MARGIN) as i64) }),
        (2u64, Subscription { hub: HUB.to_owned(), topic: "http://example.com/topic/2".to_owned(), secret: "secret2".to_owned(), expires_at: Some((now + 2 * MARGIN) as i64) }),
    ];
    let mut conn = MemoryConnection::from_rows(rows).unwrap();

    // Renewal of the first subscription.
    let reqs = service.renew_subscriptions(&mut conn, now).unwrap();
    assert_eq!(reqs.len(), 1);
    assert_eq!(reqs[0].topic, "http://example.com/topic/1");
    let id1 = reqs[0].id;
    assert!(routable(id1));
    let q = query_subscribe("http://example.com/topic/1", "subscription_challenge1", 2 * MARGIN + 2);
    let out = service.call(&request(&callback_path(&service, id1), Some(&q), &[]), now, &mut conn).unwrap();
    assert_eq!(out.reply.body, "subscription_challenge1");
    // Subscriber should unsubscribe from the old subscription.
    assert_eq!(out.requests.len(), 1);
    assert_eq!(out.requests[0].id, 1);
    assert_eq!(
        out.requests[0].body,
        "hub.mode=unsubscribe&hub.callback=http%3A%2F%2Fexample.com%2FAQ&hub.topic=http%3A%2F%2Fexample.com%2Ftopic%2F1"
    );
    let q = query_unsubscribe("http://example.com/topic/1", "unsubscription_challenge1");
    let out = service.call(&request(&callback_path(&service, 1), Some(&q), &[]), now, &mut conn).unwrap();
    assert_eq!(out.reply.body, "unsubscription_challenge1");

    // Renewal of the second subscription.
    let later = now + MARGIN;
    let reqs = service.renew_subscriptions(&mut conn, later).unwrap();
    assert_eq!(reqs.len(), 1);
    assert_eq!(reqs[0].topic, "http://example.com/topic/2");
    let id2 = reqs[0].id;
    assert!(routable(id2));
    let q = query_subscribe("http://example.com/topic/2", "subscription_challenge2", MARGIN + 1);
    let out = service.call(&request(&callback_path(&service, id2), Some(&q), &[]), later, &mut conn).unwrap();
    assert_eq!(out.reply.body, "subscription_challenge2");
    assert_eq!(out.requests.len(), 1);
    assert_eq!(out.requests[0].id, 2);
    let q = query_unsubscribe("http://example.com/topic/2", "unsubscription_challenge2");
    let out = service.call(&request(&callback_path(&service, 2), Some(&q), &[]), later, &mut conn).unwrap();
    assert_eq!(out.reply.body, "unsubscription_challenge2");
}

#[test]
fn only_signature_headers_are_read() {
    let rows = vec![(
        5u64,
        Subscription { hub: HUB.to_owned(), topic: TOPIC.to_owned(), secret: "super strong secret".to_owned(), expires_at: Some(900) },
    )];
    let mut conn = MemoryConnection::from_rows(rows).unwrap();
    let mut service = service(42);
    let path = callback_path(&service, 5);
    let sig = "sha256=96c8f07509f42a391eaec872b8b63861a9511c67d81428f90f893ba893fbcc59";
    // A valid signature under another header name is no signature.
    let req = CallbackRequest {
        path: path.clone(),
        query: None,
        headers: vec![
            ("content-type".to_owned(), b"text/plain".to_vec()),
            ("x-hub-signature-256".to_owned(), sig.as_bytes().to_vec()),
        ],
    };
    let out = service.call(&req, 100, &mut conn).unwrap();
    assert_eq!(out.reply.status, 200);
    assert!(out.update.is_none());
    // The same with the signature header: the update carries every header.
    let req = CallbackRequest {
        path,
        query: None,
        headers: vec![
            ("content-type".to_owned(), b"text/plain".to_vec()),
            ("x-hub-signature".to_owned(), sig.as_bytes().to_vec()),
        ],
    };
    let out = service.call(&req, 100, &mut conn).unwrap();
    assert_eq!(out.reply.status, 200);
    let mut update = out.update.unwrap();
    assert_eq!(update.headers, req.headers);
    update.content.absorb(b"hello world");
    assert!(update.content.finish().is_ok());
}
