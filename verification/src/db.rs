//! The subscription store that a subscriber keeps its subscriptions in.
//!
//! The store is a table of subscriptions keyed by ID. A subscription whose `expires_at` is
//! `None` is pending (its intent has not been verified yet, or it is being renewed); one with
//! an expiry is active.
use vstd::prelude::*;
use vstd::string::{StringExecFns, StringSliceAdditionalSpecFns};


verus! {

/// One row of the subscription table.
pub struct SubscriptionRecord {
    pub hub: Seq<char>,
    pub topic: Seq<char>,
    pub secret: Seq<char>,
    pub expires_at: Option<i64>,
}

/// Whether a row is active and expires at or before `before`.
pub open spec fn expires_before(r: SubscriptionRecord, before: i64) -> bool {
    r.expires_at matches Some(e) && e <= before
}

/// The table after every row that expires at or before `before` is set pending.
pub open spec fn deactivated_before(
    table: Map<u64, SubscriptionRecord>,
    before: i64,
) -> Map<u64, SubscriptionRecord> {
    Map::new(
        |id: u64| table.contains_key(id),
        |id: u64|
            if expires_before(table[id], before) {
                SubscriptionRecord { expires_at: None, ..table[id] }
            } else {
                table[id]
            },
    )
}

/// The least expiry among the active rows of a table, if any row is active.
pub open spec fn is_next_expiry(table: Map<u64, SubscriptionRecord>, r: Option<i64>) -> bool {
    match r {
        None => forall|id: u64| #[trigger] table.contains_key(id) ==> table[id].expires_at is None,
        Some(e) => (exists|id: u64| #[trigger]
            table.contains_key(id) && table[id].expires_at == Some(e)) && forall|id: u64|
            #[trigger] table.contains_key(id) ==> (table[id].expires_at matches Some(f) ==> e <= f),
    }
}

/// A subscription read back after it is created has the hub, topic and secret it was created
/// with and is pending; the other subscriptions read back as they were.
pub proof fn lemma_created_reads_back(
    before: Map<u64, SubscriptionRecord>,
    id: u64,
    hub: Seq<char>,
    topic: Seq<char>,
    secret: Seq<char>,
    other: u64,
)
    requires
        !before.contains_key(id),
    ensures
        ({
            let after = before.insert(id, SubscriptionRecord { hub, topic, secret, expires_at: None });
            &&& after.contains_key(id)
            &&& after[id].hub == hub && after[id].topic == topic && after[id].secret == secret
            &&& after[id].expires_at is None
            &&& other != id ==> (after.contains_key(other) == before.contains_key(other))
            &&& other != id && before.contains_key(other) ==> after[other] == before[other]
        }),
{
}

/// A subscription read back after it is activated expires when it was activated until and
/// keeps its hub, topic and secret; one read back after it is removed is gone.
pub proof fn lemma_activated_and_removed_read_back(
    before: Map<u64, SubscriptionRecord>,
    id: u64,
    expires_at: i64,
)
    requires
        before.contains_key(id),
    ensures
        ({
            let activated = before.insert(id, SubscriptionRecord { expires_at: Some(expires_at), ..before[id] });
            &&& activated[id].expires_at == Some(expires_at)
            &&& activated[id].hub == before[id].hub
            &&& activated[id].topic == before[id].topic
            &&& activated[id].secret == before[id].secret
            &&& activated.dom() == before.dom()
        }),
        !before.remove(id).contains_key(id),
{
    assert(before.insert(id, SubscriptionRecord { expires_at: Some(expires_at), ..before[id] }).dom() =~= before.dom());
}

/// A connection to the subscription store.
///
/// Implementations keep `subscriptions()` as the content of the table and do what each
/// method's contract says of it. Reads leave the table as it is, and so does a write that
/// fails. An operation of several calls that fails partway is given up by the caller's
/// transaction.
pub trait ConnectionRef: Sized {
    type Error;

    /// The subscription table, by ID.
    spec fn subscriptions(&self) -> Map<u64, SubscriptionRecord>;

    /// Whether the connection never reports an error: every operation succeeds. A store that
    /// can fail (a database behind a network, a disk) says `false`; one that cannot says
    /// `true`. Operations leave it as it is.
    spec fn reliable(&self) -> bool;

    /// Adds a pending subscription under a fresh ID and returns the ID.
    fn create_subscription(&mut self, hub: &str, topic: &str, secret: &str) -> (r: Result<
        u64,
        Self::Error,
    >)
        ensures
            final(self).reliable() == old(self).reliable(),
            old(self).reliable() ==> r is Ok,
            r matches Ok(id) ==> !old(self).subscriptions().contains_key(id) && final(self).subscriptions() == old(self).subscriptions().insert(
                id,
                SubscriptionRecord { hub: hub@, topic: topic@, secret: secret@, expires_at: None },
            ),
            r is Err ==> final(self).subscriptions() == old(self).subscriptions(),
    ;

    /// The topic and secret of a subscription.
    fn get_topic(&mut self, id: u64) -> (r: Result<Option<(String, String)>, Self::Error>)
        ensures
            final(self).reliable() == old(self).reliable(),
            old(self).reliable() ==> r is Ok,
            final(self).subscriptions() == old(self).subscriptions(),
            r matches Ok(o) ==> (o is Some <==> old(self).subscriptions().contains_key(id)),
            r matches Ok(Some(p)) ==> p.0@ == old(self).subscriptions()[id].topic && p.1@ == old(self).subscriptions()[id].secret,
    ;

    /// Whether a subscription with the ID and topic exists.
    fn subscription_exists(&mut self, id: u64, topic: &str) -> (r: Result<bool, Self::Error>)
        ensures
            final(self).reliable() == old(self).reliable(),
            old(self).reliable() ==> r is Ok,
            final(self).subscriptions() == old(self).subscriptions(),
            r matches Ok(b) ==> b == (old(self).subscriptions().contains_key(id) && old(self).subscriptions()[id].topic == topic@),
    ;

    /// The ID, hub and topic of every active subscription that expires at or before `before`,
    /// each once.
    fn get_subscriptions_expire_before(&mut self, before: i64) -> (r: Result<
        Vec<(u64, String, String)>,
        Self::Error,
    >)
        ensures
            final(self).reliable() == old(self).reliable(),
            old(self).reliable() ==> r is Ok,
            final(self).subscriptions() == old(self).subscriptions(),
            r matches Ok(v) ==> {
                &&& forall|i: int, j: int| 0 <= i < j < v@.len() ==> v@[i].0 != v@[j].0
                &&& forall|i: int|
                    0 <= i < v@.len() ==> {
                        let id = #[trigger] v@[i].0;
                        &&& old(self).subscriptions().contains_key(id)
                        &&& expires_before(old(self).subscriptions()[id], before)
                        &&& v@[i].1@ == old(self).subscriptions()[id].hub
                        &&& v@[i].2@ == old(self).subscriptions()[id].topic
                    }
                &&& forall|id: u64|
                    #[trigger] old(self).subscriptions().contains_key(id) && expires_before(
                        old(self).subscriptions()[id],
                        before,
                    ) ==> exists|i: int| 0 <= i < v@.len() && v@[i].0 == id
            },
    ;

    /// The hub of a pending subscription with the ID and topic.
    fn get_hub_of_inactive_subscription(&mut self, id: u64, topic: &str) -> (r: Result<
        Option<String>,
        Self::Error,
    >)
        ensures
            final(self).reliable() == old(self).reliable(),
            old(self).reliable() ==> r is Ok,
            final(self).subscriptions() == old(self).subscriptions(),
            r matches Ok(o) ==> (o is Some <==> (old(self).subscriptions().contains_key(id)
                && old(self).subscriptions()[id].topic == topic@ && old(self).subscriptions()[id].expires_at is None)),
            r matches Ok(Some(h)) ==> h@ == old(self).subscriptions()[id].hub,
    ;

    /// The IDs of the other subscriptions to the same topic at the same hub, each once.
    fn get_old_subscriptions(&mut self, id: u64, hub: &str, topic: &str) -> (r: Result<
        Vec<u64>,
        Self::Error,
    >)
        ensures
            final(self).reliable() == old(self).reliable(),
            old(self).reliable() ==> r is Ok,
            final(self).subscriptions() == old(self).subscriptions(),
            r matches Ok(v) ==> {
                &&& forall|i: int, j: int| 0 <= i < j < v@.len() ==> v@[i] != v@[j]
                &&& forall|x: u64|
                    v@.contains(x) <==> (x != id && old(self).subscriptions().contains_key(x)
                        && old(self).subscriptions()[x].hub == hub@ && old(self).subscriptions()[x].topic == topic@)
            },
    ;

    /// Makes a subscription active until `expires_at`; tells whether it existed.
    fn activate_subscription(&mut self, id: u64, expires_at: i64) -> (r: Result<
        bool,
        Self::Error,
    >)
        ensures
            final(self).reliable() == old(self).reliable(),
            old(self).reliable() ==> r is Ok,
            r matches Ok(b) ==> b == old(self).subscriptions().contains_key(id),
            r is Ok ==> final(self).subscriptions() == (if old(self).subscriptions().contains_key(
                id,
            ) {
                old(self).subscriptions().insert(
                    id,
                    SubscriptionRecord {
                        expires_at: Some(expires_at),
                        ..old(self).subscriptions()[id]
                    },
                )
            } else {
                old(self).subscriptions()
            }),
            r is Err ==> final(self).subscriptions() == old(self).subscriptions(),
    ;

    /// Sets pending every active subscription that expires at or before `before`.
    fn deactivate_subscriptions_expire_before(&mut self, before: i64) -> (r: Result<
        (),
        Self::Error,
    >)
        ensures
            final(self).reliable() == old(self).reliable(),
            old(self).reliable() ==> r is Ok,
            r is Ok ==> final(self).subscriptions() == deactivated_before(
                old(self).subscriptions(),
                before,
            ),
            r is Err ==> final(self).subscriptions() == old(self).subscriptions(),
    ;

    /// Removes a subscription; tells whether it existed.
    fn delete_subscriptions(&mut self, id: u64) -> (r: Result<bool, Self::Error>)
        ensures
            final(self).reliable() == old(self).reliable(),
            old(self).reliable() ==> r is Ok,
            r matches Ok(b) ==> b == old(self).subscriptions().contains_key(id),
            r is Ok ==> final(self).subscriptions() == old(self).subscriptions().remove(id),
            r is Err ==> final(self).subscriptions() == old(self).subscriptions(),
    ;

    /// The earliest expiry among the active subscriptions.
    fn get_next_expiry(&mut self) -> (r: Result<Option<i64>, Self::Error>)
        ensures
            final(self).reliable() == old(self).reliable(),
            old(self).reliable() ==> r is Ok,
            final(self).subscriptions() == old(self).subscriptions(),
            r matches Ok(e) ==> is_next_expiry(old(self).subscriptions(), e),
    ;
}

// ---------------------------------------------------------------------------------------------
// A store held in memory
/// Draws a random ID with `rand::thread_rng().next_u64()`.
///
/// Claimed of it: nothing; any value may come back.
#[verifier::external_body]
fn random_id() -> u64 {
    rand::RngCore::next_u64(&mut rand::thread_rng())
}

/// A row of the subscription table.
#[derive(Debug)]
pub struct Subscription {
    pub hub: String,
    pub topic: String,
    pub secret: String,
    pub expires_at: Option<i64>,
}

impl View for Subscription {
    type V = SubscriptionRecord;

    open spec fn view(&self) -> SubscriptionRecord {
        SubscriptionRecord {
            hub: self.hub@,
            topic: self.topic@,
            secret: self.secret@,
            expires_at: self.expires_at,
        }
    }
}

fn clone_subscription(s: &Subscription) -> (r: Subscription)
    ensures
        r@ == s@,
{
    Subscription {
        hub: s.hub.clone(),
        topic: s.topic.clone(),
        secret: s.secret.clone(),
        expires_at: s.expires_at,
    }
}

/// Whether a row has the ID.
pub open spec fn has_id(rows: Seq<(u64, Subscription)>, id: u64) -> bool {
    exists|i: int| 0 <= i < rows.len() && rows[i].0 == id
}

/// The index of the row with the ID.
pub open spec fn index_of(rows: Seq<(u64, Subscription)>, id: u64) -> int {
    choose|i: int| 0 <= i < rows.len() && rows[i].0 == id
}

/// No two rows have the same ID.
pub open spec fn ids_distinct(rows: Seq<(u64, Subscription)>) -> bool {
    forall|i: int, j: int| 0 <= i < j < rows.len() ==> rows[i].0 != rows[j].0
}

/// The table that the rows make up.
pub open spec fn table(rows: Seq<(u64, Subscription)>) -> Map<u64, SubscriptionRecord> {
    Map::new(|id: u64| has_id(rows, id), |id: u64| rows[index_of(rows, id)].1@)
}

pub proof fn lemma_table_at(rows: Seq<(u64, Subscription)>, k: int)
    requires
        ids_distinct(rows),
        0 <= k < rows.len(),
    ensures
        table(rows).contains_key(rows[k].0),
        table(rows)[rows[k].0] == rows[k].1@,
        index_of(rows, rows[k].0) == k,
{
    assert(has_id(rows, rows[k].0));
    let i = index_of(rows, rows[k].0);
    if i != k {
        if i < k {
            assert(rows[i].0 != rows[k].0);
        } else {
            assert(rows[k].0 != rows[i].0);
        }
    }
}

/// A subscription store held in memory: the rows of the table, each ID once.
#[derive(Debug)]
pub struct MemoryConnection {
    rows: Vec<(u64, Subscription)>,
}

/// Errors of the store held in memory.
///
/// None occurs: a fresh ID is always found.
#[derive(Debug, PartialEq, Eq, Structural)]
pub enum StoreError {
    /// No free ID was found for a new subscription.
    NoFreeId,
}

/// The `i`-th ID tried for a new subscription after `start`, wrapping around.
pub open spec fn probe(start: u64, i: int) -> u64 {
    if start + i > u64::MAX {
        (start + i - 0x1_0000_0000_0000_0000) as u64
    } else {
        (start + i) as u64
    }
}

/// Among the first `len + 1` IDs tried, one is free: they are all different, and the table
/// has only `len` IDs.
proof fn lemma_some_probe_is_free(rows: Seq<(u64, Subscription)>, start: u64)
    requires
        ids_distinct(rows),
        rows.len() < 0x1_0000_0000_0000_0000,
    ensures
        exists|k: int| 0 <= k <= rows.len() && !has_id(rows, #[trigger] probe(start, k)),
{
    let n = rows.len();
    if forall|k: int| 0 <= k <= n ==> has_id(rows, #[trigger] probe(start, k)) {
        let s = Seq::new(n + 1, |k: int| probe(start, k));
        assert(s.no_duplicates()) by {
            assert forall|i: int, j: int| 0 <= i < s.len() && 0 <= j < s.len() && i != j implies s[i] != s[j] by {
                assert(s[i] == probe(start, i) && s[j] == probe(start, j));
            }
        }
        s.unique_seq_to_set();
        let ids = rows.map_values(|r: (u64, Subscription)| r.0);
        ids.lemma_cardinality_of_set();
        assert(s.to_set().subset_of(ids.to_set())) by {
            assert forall|x: u64| s.to_set().contains(x) implies ids.to_set().contains(x) by {
                let k = choose|k: int| 0 <= k < s.len() && s[k] == x;
                assert(has_id(rows, probe(start, k)));
                let i = choose|i: int| 0 <= i < rows.len() && rows[i].0 == probe(start, k);
                assert(ids[i] == x);
            }
        }
        vstd::seq_lib::seq_to_set_is_finite(ids);
        vstd::set_lib::lemma_len_subset(s.to_set(), ids.to_set());
        assert(false);
    }
}

/// Whether the row has the ID.
fn row_index(rows: &Vec<(u64, Subscription)>, id: u64) -> (r: Option<usize>)
    requires
        ids_distinct(rows@),
    ensures
        r matches Some(k) ==> k < rows@.len() && rows@[k as int].0 == id,
        r is None ==> !has_id(rows@, id),
{
    let mut i: usize = 0;
    while i < rows.len()
        invariant
            i <= rows@.len(),
            forall|j: int| 0 <= j < i ==> rows@[j].0 != id,
        decreases rows@.len() - i,
    {
        if rows[i].0 == id {
            return Some(i);
        }
        i = i + 1;
    }
    None
}

impl MemoryConnection {
    #[verifier::type_invariant]
    spec fn wf(self) -> bool {
        ids_distinct(self.rows@)
    }

    /// An empty store.
    pub fn new() -> (r: MemoryConnection)
        ensures
            r.subscriptions() == Map::<u64, SubscriptionRecord>::empty(),
    {
        let r = MemoryConnection { rows: Vec::new() };
        assert(table(r.rows@) =~= Map::<u64, SubscriptionRecord>::empty());
        r
    }

    /// A store with the given rows, or `None` where two rows have the same ID.
    pub fn from_rows(rows: Vec<(u64, Subscription)>) -> (r: Option<MemoryConnection>)
        ensures
            r matches Some(c) ==> c.subscriptions() == table(rows@),
            r is None ==> !ids_distinct(rows@),
    {
        let mut i: usize = 0;
        while i < rows.len()
            invariant
                i <= rows@.len(),
                forall|a: int, b: int| 0 <= a < b < rows@.len() && a < i ==> rows@[a].0 != rows@[b].0,
            decreases rows@.len() - i,
        {
            let mut j: usize = i + 1;
            while j < rows.len()
                invariant
                    i < rows@.len(),
                    i < j <= rows@.len(),
                    forall|a: int, b: int| 0 <= a < b < rows@.len() && a < i ==> rows@[a].0 != rows@[b].0,
                    forall|b: int| i < b < j ==> rows@[i as int].0 != rows@[b].0,
                decreases rows@.len() - j,
            {
                if rows[i].0 == rows[j].0 {
                    return None;
                }
                j = j + 1;
            }
            i = i + 1;
        }
        Some(MemoryConnection { rows })
    }

    /// The rows of the table.
    pub fn rows(&self) -> (r: &Vec<(u64, Subscription)>)
        ensures
            table(r@) == self.subscriptions(),
            ids_distinct(r@),
    {
        proof {
            use_type_invariant(self);
        }
        &self.rows
    }
}

impl ConnectionRef for MemoryConnection {
    type Error = StoreError;

    closed spec fn subscriptions(&self) -> Map<u64, SubscriptionRecord> {
        table(self.rows@)
    }

    open spec fn reliable(&self) -> bool {
        true
    }

    fn create_subscription(&mut self, hub: &str, topic: &str, secret: &str) -> (r: Result<u64, StoreError>)
        ensures
            r is Ok,
    {
        proof {
            use_type_invariant(&*self);
        }
        let start = random_id();
        let n = self.rows.len();
        let mut k: u128 = 0;
        while k <= n as u128
            invariant
                ids_distinct(self.rows@),
                self.rows@ == old(self).rows@,
                n == self.rows@.len(),
                k <= n + 1,
                forall|j: int| 0 <= j < k ==> has_id(self.rows@, #[trigger] probe(start, j)),
            decreases n + 1 - k,
        {
            let id = start.wrapping_add(k as u64);
            assert(id == probe(start, k as int));
            if row_index(&self.rows, id).is_none() {
                let mut rows = Vec::new();
                std::mem::swap(&mut rows, &mut self.rows);
                let ghost before = rows@;
                rows.push((id, Subscription {
                    hub: String::from_str(hub),
                    topic: String::from_str(topic),
                    secret: String::from_str(secret),
                    expires_at: None,
                }));
                proof {
                    let expected = table(before).insert(id, SubscriptionRecord { hub: hub@, topic: topic@, secret: secret@, expires_at: None });
                    assert forall|a: int, b: int| 0 <= a < b < rows@.len() implies rows@[a].0 != rows@[b].0 by {
                        if b == rows@.len() - 1 {
                            assert(rows@[a] == before[a]);
                        } else {
                            assert(rows@[a] == before[a] && rows@[b] == before[b]);
                        }
                    }
                    assert forall|x: u64| #[trigger] table(rows@).contains_key(x) <==> expected.contains_key(x) by {
                        if has_id(rows@, x) {
                            let i = choose|i: int| 0 <= i < rows@.len() && rows@[i].0 == x;
                            if i < before.len() {
                                assert(before[i].0 == x);
                            }
                        }
                        if has_id(before, x) {
                            let i = choose|i: int| 0 <= i < before.len() && before[i].0 == x;
                            assert(rows@[i].0 == x);
                        }
                        if x == id {
                            assert(rows@[before.len() as int].0 == x);
                        }
                    }
                    assert forall|x: u64| #[trigger] table(rows@).contains_key(x) implies table(rows@)[x] == expected[x] by {
                        let i = choose|i: int| 0 <= i < rows@.len() && rows@[i].0 == x;
                        lemma_table_at(rows@, i);
                        if i < before.len() {
                            assert(rows@[i] == before[i]);
                            lemma_table_at(before, i);
                        }
                    }
                    assert(table(rows@) =~= expected);
                }
                self.rows = rows;
                return Ok(id);
            }
            k = k + 1;
        }
        proof {
            lemma_some_probe_is_free(self.rows@, start);
        }
        Ok(start)
    }

    fn get_topic(&mut self, id: u64) -> (r: Result<Option<(String, String)>, StoreError>)
        ensures
            r is Ok,
    {
        proof {
            use_type_invariant(&*self);
        }
        match row_index(&self.rows, id) {
            Some(k) => {
                proof {
                    lemma_table_at(self.rows@, k as int);
                }
                Ok(Some((self.rows[k].1.topic.clone(), self.rows[k].1.secret.clone())))
            },
            None => Ok(None),
        }
    }

    fn subscription_exists(&mut self, id: u64, topic: &str) -> (r: Result<bool, StoreError>)
        ensures
            r is Ok,
    {
        proof {
            use_type_invariant(&*self);
        }
        match row_index(&self.rows, id) {
            Some(k) => {
                proof {
                    lemma_table_at(self.rows@, k as int);
                }
                Ok(self.rows[k].1.topic == String::from_str(topic))
            },
            None => Ok(false),
        }
    }

    fn get_subscriptions_expire_before(&mut self, before: i64) -> (r: Result<Vec<(u64, String, String)>, StoreError>)
        ensures
            r is Ok,
    {
        proof {
            use_type_invariant(&*self);
        }
        let mut out: Vec<(u64, String, String)> = Vec::new();
        let mut ks: Vec<usize> = Vec::new();
        let mut i: usize = 0;
        while i < self.rows.len()
            invariant
                ids_distinct(self.rows@),
                i <= self.rows@.len(),
                out@.len() == ks@.len(),
                forall|j: int| 0 <= j < ks@.len() ==> #[trigger] ks@[j] < i && out@[j].0 == self.rows@[ks@[j] as int].0
                    && expires_before(self.rows@[ks@[j] as int].1@, before)
                    && out@[j].1@ == self.rows@[ks@[j] as int].1.hub@
                    && out@[j].2@ == self.rows@[ks@[j] as int].1.topic@,
                forall|a: int, b: int| 0 <= a < b < ks@.len() ==> ks@[a] < ks@[b],
                forall|m: int| 0 <= m < i && expires_before(#[trigger] self.rows@[m].1@, before) ==> exists|j: int| 0 <= j < ks@.len() && ks@[j] == m,
            decreases self.rows@.len() - i,
        {
            let row = &self.rows[i];
            let hit = match row.1.expires_at {
                Some(e) => e <= before,
                None => false,
            };
            let ghost ks0 = ks@;
            if hit {
                out.push((row.0, row.1.hub.clone(), row.1.topic.clone()));
                ks.push(i);
                proof {
                    assert(ks@[ks@.len() - 1] == i);
                }
            }
            proof {
                assert forall|m: int| 0 <= m < i + 1 && expires_before(#[trigger] self.rows@[m].1@, before) implies exists|j: int| 0 <= j < ks@.len() && ks@[j] == m by {
                    if m < i {
                        let j = choose|j: int| 0 <= j < ks0.len() && ks0[j] == m;
                        assert(ks@[j] == m);
                    } else {
                        assert(ks@[ks@.len() - 1] == m);
                    }
                }
            }
            i = i + 1;
        }
        proof {
            let t = table(self.rows@);
            assert forall|a: int, b: int| 0 <= a < b < out@.len() implies out@[a].0 != out@[b].0 by {
                assert(ks@[a] < ks@[b]);
            }
            assert forall|j: int| 0 <= j < out@.len() implies {
                let id = #[trigger] out@[j].0;
                &&& t.contains_key(id)
                &&& expires_before(t[id], before)
                &&& out@[j].1@ == t[id].hub
                &&& out@[j].2@ == t[id].topic
            } by {
                lemma_table_at(self.rows@, ks@[j] as int);
            }
            assert forall|id: u64| #[trigger] t.contains_key(id) && expires_before(t[id], before) implies exists|j: int| 0 <= j < out@.len() && out@[j].0 == id by {
                let m = index_of(self.rows@, id);
                lemma_table_at(self.rows@, m);
                let j = choose|j: int| 0 <= j < ks@.len() && ks@[j] == m;
                assert(out@[j].0 == id);
            }
        }
        Ok(out)
    }

    fn get_hub_of_inactive_subscription(&mut self, id: u64, topic: &str) -> (r: Result<Option<String>, StoreError>)
        ensures
            r is Ok,
    {
        proof {
            use_type_invariant(&*self);
        }
        match row_index(&self.rows, id) {
            Some(k) => {
                proof {
                    lemma_table_at(self.rows@, k as int);
                }
                let row = &self.rows[k].1;
                if row.topic == String::from_str(topic) && row.expires_at.is_none() {
                    Ok(Some(row.hub.clone()))
                } else {
                    Ok(None)
                }
            },
            None => Ok(None),
        }
    }

    fn get_old_subscriptions(&mut self, id: u64, hub: &str, topic: &str) -> (r: Result<Vec<u64>, StoreError>)
        ensures
            r is Ok,
    {
        proof {
            use_type_invariant(&*self);
        }
        let hub = String::from_str(hub);
        let topic = String::from_str(topic);
        let mut out: Vec<u64> = Vec::new();
        let mut ks: Vec<usize> = Vec::new();
        let mut i: usize = 0;
        while i < self.rows.len()
            invariant
                ids_distinct(self.rows@),
                i <= self.rows@.len(),
                out@.len() == ks@.len(),
                forall|j: int| 0 <= j < ks@.len() ==> #[trigger] ks@[j] < i && out@[j] == self.rows@[ks@[j] as int].0
                    && out@[j] != id && self.rows@[ks@[j] as int].1.hub@ == hub@
                    && self.rows@[ks@[j] as int].1.topic@ == topic@,
                forall|a: int, b: int| 0 <= a < b < ks@.len() ==> ks@[a] < ks@[b],
                forall|m: int| 0 <= m < i && #[trigger] self.rows@[m].0 != id && self.rows@[m].1.hub@ == hub@
                    && self.rows@[m].1.topic@ == topic@ ==> exists|j: int| 0 <= j < ks@.len() && ks@[j] == m,
            decreases self.rows@.len() - i,
        {
            let row = &self.rows[i];
            let ghost ks0 = ks@;
            let hit = row.0 != id && row.1.hub == hub && row.1.topic == topic;
            if hit {
                out.push(row.0);
                ks.push(i);
                proof {
                    assert(ks@[ks@.len() - 1] == i);
                }
            }
            proof {
                assert forall|m: int| 0 <= m < i + 1 && #[trigger] self.rows@[m].0 != id && self.rows@[m].1.hub@ == hub@
                    && self.rows@[m].1.topic@ == topic@ implies exists|j: int| 0 <= j < ks@.len() && ks@[j] == m by {
                    if m < i {
                        let j = choose|j: int| 0 <= j < ks0.len() && ks0[j] == m;
                        assert(ks@[j] == m);
                    } else {
                        assert(ks@[ks@.len() - 1] == m);
                    }
                }
            }
            i = i + 1;
        }
        proof {
            let t = table(self.rows@);
            assert forall|a: int, b: int| 0 <= a < b < out@.len() implies out@[a] != out@[b] by {
                assert(ks@[a] < ks@[b]);
            }
            assert forall|x: u64| out@.contains(x) <==> (x != id && t.contains_key(x) && t[x].hub == hub@ && t[x].topic == topic@) by {
                if out@.contains(x) {
                    let j = choose|j: int| 0 <= j < out@.len() && out@[j] == x;
                    lemma_table_at(self.rows@, ks@[j] as int);
                }
                if x != id && t.contains_key(x) && t[x].hub == hub@ && t[x].topic == topic@ {
                    let m = index_of(self.rows@, x);
                    lemma_table_at(self.rows@, m);
                    let j = choose|j: int| 0 <= j < ks@.len() && ks@[j] == m;
                    assert(out@[j] == x);
                }
            }
        }
        Ok(out)
    }

    fn activate_subscription(&mut self, id: u64, expires_at: i64) -> (r: Result<bool, StoreError>)
        ensures
            r is Ok,
    {
        proof {
            use_type_invariant(&*self);
        }
        let k = match row_index(&self.rows, id) {
            Some(k) => k,
            None => return Ok(false),
        };
        let mut rows = Vec::new();
        std::mem::swap(&mut rows, &mut self.rows);
        let ghost before = rows@;
        let old_row = clone_subscription(&rows[k].1);
        let new_row = Subscription { expires_at: Some(expires_at), ..old_row };
        let ghost nv = new_row@;
        rows.set(k, (id, new_row));
        proof {
            let expected = table(before).insert(id, SubscriptionRecord { expires_at: Some(expires_at), ..table(before)[id] });
            lemma_table_at(before, k as int);
            assert forall|a: int, b: int| 0 <= a < b < rows@.len() implies rows@[a].0 != rows@[b].0 by {
                assert(rows@[a].0 == before[a].0 && rows@[b].0 == before[b].0);
            }
            assert forall|x: u64| #[trigger] table(rows@).contains_key(x) <==> expected.contains_key(x) by {
                if has_id(rows@, x) {
                    let i = choose|i: int| 0 <= i < rows@.len() && rows@[i].0 == x;
                    assert(before[i].0 == x);
                }
                if has_id(before, x) {
                    let i = choose|i: int| 0 <= i < before.len() && before[i].0 == x;
                    assert(rows@[i].0 == x);
                }
            }
            assert forall|x: u64| #[trigger] table(rows@).contains_key(x) implies table(rows@)[x] == expected[x] by {
                let i = choose|i: int| 0 <= i < rows@.len() && rows@[i].0 == x;
                lemma_table_at(rows@, i);
                lemma_table_at(before, i);
            }
            assert(table(rows@) =~= expected);
        }
        self.rows = rows;
        Ok(true)
    }

    fn deactivate_subscriptions_expire_before(&mut self, before: i64) -> (r: Result<(), StoreError>)
        ensures
            r is Ok,
    {
        proof {
            use_type_invariant(&*self);
        }
        let mut rows: Vec<(u64, Subscription)> = Vec::new();
        let mut i: usize = 0;
        while i < self.rows.len()
            invariant
                ids_distinct(self.rows@),
                i <= self.rows@.len(),
                rows@.len() == i,
                forall|j: int| 0 <= j < i ==> (#[trigger] rows@[j]).0 == self.rows@[j].0 && rows@[j].1@ == if expires_before(self.rows@[j].1@, before) {
                    SubscriptionRecord { expires_at: None, ..self.rows@[j].1@ }
                } else {
                    self.rows@[j].1@
                },
            decreases self.rows@.len() - i,
        {
            let row = &self.rows[i];
            let mut copy = clone_subscription(&row.1);
            let hit = match row.1.expires_at {
                Some(e) => e <= before,
                None => false,
            };
            if hit {
                copy.expires_at = None;
            }
            rows.push((row.0, copy));
            i = i + 1;
        }
        proof {
            let old_rows = self.rows@;
            let expected = deactivated_before(table(old_rows), before);
            assert forall|a: int, b: int| 0 <= a < b < rows@.len() implies rows@[a].0 != rows@[b].0 by {
                assert(rows@[a].0 == old_rows[a].0 && rows@[b].0 == old_rows[b].0);
            }
            assert forall|x: u64| #[trigger] table(rows@).contains_key(x) <==> expected.contains_key(x) by {
                if has_id(rows@, x) {
                    let i = choose|i: int| 0 <= i < rows@.len() && rows@[i].0 == x;
                    assert(old_rows[i].0 == x);
                }
                if has_id(old_rows, x) {
                    let i = choose|i: int| 0 <= i < old_rows.len() && old_rows[i].0 == x;
                    assert(rows@[i].0 == x);
                }
            }
            assert forall|x: u64| #[trigger] table(rows@).contains_key(x) implies table(rows@)[x] == expected[x] by {
                let i = choose|i: int| 0 <= i < rows@.len() && rows@[i].0 == x;
                lemma_table_at(rows@, i);
                lemma_table_at(old_rows, i);
            }
            assert(table(rows@) =~= expected);
        }
        self.rows = rows;
        Ok(())
    }

    fn delete_subscriptions(&mut self, id: u64) -> (r: Result<bool, StoreError>)
        ensures
            r is Ok,
    {
        proof {
            use_type_invariant(&*self);
        }
        let k = match row_index(&self.rows, id) {
            Some(k) => k,
            None => {
                proof {
                    assert(table(self.rows@).remove(id) =~= table(self.rows@));
                }
                return Ok(false);
            },
        };
        let mut rows = Vec::new();
        std::mem::swap(&mut rows, &mut self.rows);
        let ghost before = rows@;
        rows.remove(k);
        proof {
            let expected = table(before).remove(id);
            lemma_table_at(before, k as int);
            assert forall|a: int, b: int| 0 <= a < b < rows@.len() implies rows@[a].0 != rows@[b].0 by {
                let a2 = if a < k { a } else { a + 1 };
                let b2 = if b < k { b } else { b + 1 };
                assert(rows@[a] == before[a2] && rows@[b] == before[b2]);
            }
            assert forall|x: u64| #[trigger] table(rows@).contains_key(x) <==> expected.contains_key(x) by {
                if has_id(rows@, x) {
                    let i = choose|i: int| 0 <= i < rows@.len() && rows@[i].0 == x;
                    let i2 = if i < k { i } else { i + 1 };
                    assert(before[i2].0 == x);
                    assert(i2 != k);
                }
                if has_id(before, x) && x != id {
                    let i = choose|i: int| 0 <= i < before.len() && before[i].0 == x;
                    assert(i != k);
                    let i2 = if i < k { i } else { i - 1 };
                    assert(rows@[i2].0 == x);
                }
            }
            assert forall|x: u64| #[trigger] table(rows@).contains_key(x) implies table(rows@)[x] == expected[x] by {
                let i = choose|i: int| 0 <= i < rows@.len() && rows@[i].0 == x;
                let i2 = if i < k { i } else { i + 1 };
                lemma_table_at(rows@, i);
                lemma_table_at(before, i2);
            }
            assert(table(rows@) =~= expected);
        }
        self.rows = rows;
        Ok(true)
    }

    fn get_next_expiry(&mut self) -> (r: Result<Option<i64>, StoreError>)
        ensures
            r is Ok,
    {
        proof {
            use_type_invariant(&*self);
        }
        let mut best: Option<i64> = None;
        let mut at: usize = 0;
        let mut i: usize = 0;
        while i < self.rows.len()
            invariant
                ids_distinct(self.rows@),
                i <= self.rows@.len(),
                best is None ==> forall|m: int| 0 <= m < i ==> (#[trigger] self.rows@[m]).1.expires_at is None,
                best matches Some(e) ==> at < i && self.rows@[at as int].1.expires_at == Some(e) && forall|m: int|
                    0 <= m < i ==> ((#[trigger] self.rows@[m]).1.expires_at matches Some(f) ==> e <= f),
            decreases self.rows@.len() - i,
        {
            match self.rows[i].1.expires_at {
                Some(f) => {
                    let better = match best {
                        Some(e) => f < e,
                        None => true,
                    };
                    if better {
                        best = Some(f);
                        at = i;
                    }
                },
                None => {},
            }
            i = i + 1;
        }
        proof {
            let t = table(self.rows@);
            match best {
                None => {
                    assert forall|id: u64| #[trigger] t.contains_key(id) implies t[id].expires_at is None by {
                        lemma_table_at(self.rows@, index_of(self.rows@, id));
                    }
                },
                Some(e) => {
                    lemma_table_at(self.rows@, at as int);
                    assert forall|id: u64| #[trigger] t.contains_key(id) implies (t[id].expires_at matches Some(f) ==> e <= f) by {
                        lemma_table_at(self.rows@, index_of(self.rows@, id));
                    }
                },
            }
        }
        Ok(best)
    }
}

} // verus!
