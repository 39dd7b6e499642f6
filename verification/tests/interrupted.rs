use websub_sub::db::{ConnectionRef, MemoryConnection, StoreError, Subscription, SubscriptionRecord};
use websub_sub::hub::Callback;
use websub_sub::subscriber::service::{CallbackRequest, Service};
use websub_sub::subscriber::Builder;

const HUB: &str = "http://example.com/hub";

/// A store that fails once it has served a given number of calls.
struct Failing {
    inner: MemoryConnection,
    calls_left: usize,
}

#[derive(Debug, PartialEq)]
struct Down;

impl Failing {
    fn call<T>(&mut self, r: Result<T, StoreError>) -> Result<T, Down> {
        if self.calls_left == 0 {
            return Err(Down);
        }
        self.calls_left -= 1;
        Ok(r.unwrap())
    }

    fn allowed(&self) -> bool {
        self.calls_left > 0
    }
}

impl ConnectionRef for Failing {
    type Error = Down;

    fn subscriptions(&self) -> vstd::map::Map<u64, SubscriptionRecord> {
        self.inner.subscriptions()
    }

    fn reliable(&self) -> bool {
        false
    }

    fn create_subscription(&mut self, hub: &str, topic: &str, secret: &str) -> Result<u64, Down> {
        if !self.allowed() {
            return Err(Down);
        }
        let r = self.inner.create_subscription(hub, topic, secret);
        self.call(r)
    }

    fn get_topic(&mut self, id: u64) -> Result<Option<(String, String)>, Down> {
        let r = self.inner.get_topic(id);
        self.call(r)
    }

    fn subscription_exists(&mut self, id: u64, topic: &str) -> Result<bool, Down> {
        let r = self.inner.subscription_exists(id, topic);
        self.call(r)
    }

    fn get_subscriptions_expire_before(&mut self, before: i64) -> Result<Vec<(u64, String, String)>, Down> {
        let r = self.inner.get_subscriptions_expire_before(before);
        self.call(r)
    }

    fn get_hub_of_inactive_subscription(&mut self, id: u64, topic: &str) -> Result<Option<String>, Down> {
        let r = self.inner.get_hub_of_inactive_subscription(id, topic);
        self.call(r)
    }

    fn get_old_subscriptions(&mut self, id: u64, hub: &str, topic: &str) -> Result<Vec<u64>, Down> {
        let r = self.inner.get_old_subscriptions(id, hub, topic);
        self.call(r)
    }

    fn activate_subscription(&mut self, id: u64, expires_at: i64) -> Result<bool, Down> {
        if !self.allowed() {
            return Err(Down);
        }
        let r = self.inner.activate_subscription(id, expires_at);
        self.call(r)
    }

    fn deactivate_subscriptions_expire_before(&mut self, before: i64) -> Result<(), Down> {
        if !self.allowed() {
            return Err(Down);
        }
        let r = self.inner.deactivate_subscriptions_expire_before(before);
        self.call(r)
    }

    fn delete_subscriptions(&mut self, id: u64) -> Result<bool, Down> {
        if !self.allowed() {
            return Err(Down);
        }
        let r = self.inner.delete_subscriptions(id);
        self.call(r)
    }

    fn get_next_expiry(&mut self) -> Result<Option<i64>, Down> {
        let r = self.inner.get_next_expiry();
        self.call(r)
    }
}

fn row(topic: &str, expires_at: Option<i64>) -> Subscription {
    Subscription { hub: HUB.to_owned(), topic: topic.to_owned(), secret: "s".to_owned(), expires_at }
}

fn service() -> Service {
    let mut b = Builder::new();
    b.renewal_margin(42);
    b.build(Callback::parse("http://example.com/").unwrap(), None)
}

#[test]
fn renewal_hands_back_the_requests_made_before_a_failure() {
    let rows = vec![(1u64, row("t1", Some(100))), (2u64, row("t2", Some(110)))];
    // The listing and one insertion succeed; the second insertion fails.
    let mut conn = Failing { inner: MemoryConnection::from_rows(rows).unwrap(), calls_left: 2 };
    let f = service().renew_subscriptions(&mut conn, 100).unwrap_err();
    assert_eq!(f.error, Down);
    assert_eq!(f.requests.len(), 1);
    assert!(f.requests[0].body.starts_with("hub.mode=subscribe&"));
    // The table holds the new pending subscription besides the old rows, all as they were.
    let rows = conn.inner.rows();
    assert_eq!(rows.len(), 3);
    assert!(rows.iter().any(|(id, s)| *id == f.requests[0].id && s.expires_at.is_none()));
    assert!(rows.iter().any(|(id, s)| *id == 1 && s.expires_at == Some(100)));
}

#[test]
fn verification_hands_back_the_requests_made_before_a_failure() {
    let rows = vec![(1u64, row("t", Some(500))), (2u64, row("t", Some(600))), (3u64, row("t", None))];
    let mut service = service();
    let path = websub_sub::hub::make_callback(service.callback_prefix(), 3).path;
    let query = "hub.mode=subscribe&hub.topic=t&hub.challenge=c&hub.lease_seconds=1000";
    // The lookups and one removal succeed; the second removal fails.
    let mut conn = Failing { inner: MemoryConnection::from_rows(rows).unwrap(), calls_left: 3 };
    let req = CallbackRequest { path, query: Some(query.to_owned()), headers: Vec::new() };
    let f = match service.call(&req, 100, &mut conn) {
        Ok(_) => panic!("the store failed"),
        Err(f) => f,
    };
    assert_eq!(f.error, Down);
    assert_eq!(f.requests.len(), 1);
    assert!(f.requests[0].body.starts_with("hub.mode=unsubscribe&"));
    // The renewal task was hastened before the store failed.
    assert_eq!(service.handle_ref().decode_next_tick(), Some(1100 - 42));
    assert_eq!(conn.inner.rows().len(), 2);
}

#[test]
fn unparseable_queries_are_answered_without_the_store() {
    let mut service = service();
    let path = websub_sub::hub::make_callback(service.callback_prefix(), 3).path;
    let mut conn = Failing { inner: MemoryConnection::new(), calls_left: 0 };
    let req = CallbackRequest { path, query: Some("hub.mode=nonsense".to_owned()), headers: Vec::new() };
    match service.call(&req, 100, &mut conn) {
        Ok(out) => assert_eq!(out.reply.status, 404),
        Err(_) => panic!("the store was asked"),
    }
}

#[test]
fn try_call_refuses_a_clock_before_the_margin() {
    let mut service = service();
    let mut conn = MemoryConnection::new();
    let req = CallbackRequest { path: "/x/y".to_owned(), query: None, headers: Vec::new() };
    assert!(service.try_call(&req, 41, &mut conn).is_none());
    let out = service.try_call(&req, 42, &mut conn).unwrap();
    assert_eq!(out.unwrap().reply.status, 404);
}

#[test]
fn failed_subscriptions_leave_the_table() {
    let mut conn = Failing { inner: MemoryConnection::new(), calls_left: 0 };
    let prefix = Callback::parse("http://example.com/").unwrap();
    let r = websub_sub::hub::subscribe(&prefix, HUB.to_owned(), "t".to_owned(), &mut conn);
    assert_eq!(r.unwrap_err(), Down);
    assert!(conn.inner.rows().is_empty());
}
