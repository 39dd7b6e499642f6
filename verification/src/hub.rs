//! Requests to a hub and the hub's intent verification queries.
use vstd::prelude::*;
use vstd::string::{StringExecFns, StringSliceAdditionalSpecFns};
use vstd::utf8::encode_utf8;
use rand::RngCore;

use crate::db::{table, ConnectionRef, MemoryConnection, SubscriptionRecord};
use crate::subscriber::service::{route, Route};
use crate::util::callback_id::{
    base64_encode, base64_url_encoding, decoded_id, encode, encoded_part, id_to_le_bytes, le_bytes,
    lemma_le_value_le_bytes,
};




verus! {

/// The pairs of text that `serde_urlencoded::from_str` decodes an
/// `application/x-www-form-urlencoded` string into, in order, or `None` where it fails.
pub uninterp spec fn form_pairs(query: Seq<char>) -> Option<Seq<(Seq<char>, Seq<char>)>>;

/// The `application/x-www-form-urlencoded` string that `serde_urlencoded::to_string` writes for
/// a sequence of name-value pairs.
pub uninterp spec fn form_encoding(pairs: Seq<(Seq<char>, Seq<char>)>) -> Seq<char>;

/// The pairs of strings as pairs of character sequences.
pub open spec fn pairs_view(pairs: Seq<(String, String)>) -> Seq<(Seq<char>, Seq<char>)> {
    pairs.map_values(|p: (String, String)| (p.0@, p.1@))
}

/// Decodes a query string into name-value pairs with
/// `serde_urlencoded::from_str::<Vec<(String, String)>>`.
///
/// Claimed of it: the result is the named decoding of the query.
#[verifier::external_body]
fn decode_form(query: &str) -> (r: Option<Vec<(String, String)>>)
    ensures
        r matches Some(v) ==> form_pairs(query@) == Some(pairs_view(v@)),
        r is None ==> form_pairs(query@) is None,
{
    serde_urlencoded::from_str::<Vec<(String, String)>>(query).ok()
}

/// Encodes name-value pairs with `serde_urlencoded::to_string`.
///
/// Claimed of it: the result is the named encoding of the pairs. Serialising a sequence of
/// pairs of strings does not fail (each pair goes through `PairSerializer` as a key and a
/// string value).
#[verifier::external_body]
fn encode_form(pairs: &Vec<(String, String)>) -> (r: String)
    ensures
        r@ == form_encoding(pairs_view(pairs@)),
{
    serde_urlencoded::to_string(pairs).unwrap()
}

/// Fills a buffer of the given length from `rand::thread_rng()`.
///
/// Claimed of it: only the length of the result; its bytes are random.
#[verifier::external_body]
fn random_bytes(n: usize) -> (r: Vec<u8>)
    ensures
        r@.len() == n,
{
    let mut buf = vec![0u8; n];
    rand::thread_rng().fill_bytes(&mut buf);
    buf
}

// ---------------------------------------------------------------------------------------------
// Decimal numbers
/// Value of an ASCII decimal digit.
pub open spec fn digit_value(b: u8) -> int {
    b - 0x30
}

/// Whether a byte is an ASCII decimal digit.
pub open spec fn is_digit(b: u8) -> bool {
    0x30 <= b <= 0x39
}

/// The number that a string of decimal digits spells.
pub open spec fn decimal_value(d: Seq<u8>) -> nat
    decreases d.len(),
{
    if d.len() == 0 {
        0
    } else {
        (decimal_value(d.drop_last()) * 10 + digit_value(d.last())) as nat
    }
}

/// The digits of an unsigned number: the string without one leading `+`.
pub open spec fn unsigned_digits(s: Seq<u8>) -> Seq<u8> {
    if s.len() > 0 && s[0] == 0x2b {
        s.drop_first()
    } else {
        s
    }
}

/// Whether every byte is a decimal digit.
pub open spec fn all_digits(d: Seq<u8>) -> bool {
    forall|i: int| 0 <= i < d.len() ==> is_digit(#[trigger] d[i])
}

/// What `u64::from_str` gives for the UTF-8 bytes of a string: an optional `+` and at least
/// one decimal digit, of a value that fits in 64 bits.
pub open spec fn u64_from_str(s: Seq<u8>) -> Option<u64> {
    let d = unsigned_digits(s);
    if d.len() > 0 && all_digits(d) && decimal_value(d) <= u64::MAX {
        Some(decimal_value(d) as u64)
    } else {
        None
    }
}

proof fn lemma_decimal_prefix_mono(d: Seq<u8>, i: int)
    requires
        0 <= i <= d.len(),
        forall|k: int| 0 <= k < d.len() ==> is_digit(#[trigger] d[k]),
    ensures
        decimal_value(d.subrange(0, i)) <= decimal_value(d),
    decreases d.len() - i,
{
    if i < d.len() {
        lemma_decimal_prefix_mono(d, i + 1);
        assert(d.subrange(0, i + 1).drop_last() =~= d.subrange(0, i));
    } else {
        assert(d.subrange(0, i) =~= d);
    }
}

/// Parses a decimal `u64` as `u64::from_str` does.
pub fn parse_u64(s: &str) -> (r: Option<u64>)
    ensures
        r == u64_from_str(s.spec_bytes()),
{
    let b = s.as_bytes();
    let n = b.len();
    let start: usize = if n > 0 && b[0] == 0x2b {
        1
    } else {
        0
    };
    let ghost d = unsigned_digits(b@);
    assert(d =~= b@.subrange(start as int, n as int));
    if start >= n {
        return None;
    }
    let mut v: u64 = 0;
    let mut i: usize = start;
    while i < n
        invariant
            start <= i <= n,
            n == b@.len(),
            b@ == s.spec_bytes(),
            d == unsigned_digits(b@),
            d =~= b@.subrange(start as int, n as int),
            forall|k: int| start <= k < i ==> is_digit(#[trigger] b@[k]),
            v == decimal_value(b@.subrange(start as int, i as int)),
        decreases n - i,
    {
        let c = b[i];
        if c < 0x30 || c > 0x39 {
            assert(d[i - start] == b@[i as int]);
            assert(!is_digit(d[i - start]));
            return None;
        }
        proof {
            assert(b@.subrange(start as int, i + 1).drop_last() =~= b@.subrange(
                start as int,
                i as int,
            ));
            assert(b@.subrange(start as int, i + 1).last() == c);
            assert(decimal_value(b@.subrange(start as int, i + 1)) == v * 10 + (c - 0x30));
        }
        if v > 1844674407370955161 || (v == 1844674407370955161 && c > 0x35) {
            proof {
                assert(decimal_value(b@.subrange(start as int, i + 1)) > u64::MAX);
                if all_digits(d) {
                    assert(d.subrange(0, i + 1 - start) =~= b@.subrange(start as int, i + 1));
                    lemma_decimal_prefix_mono(d, i + 1 - start);
                }
            }
            return None;
        }
        v = v * 10 + (c - 0x30) as u64;
        i = i + 1;
    }
    proof {
        assert forall|k: int| 0 <= k < d.len() implies is_digit(#[trigger] d[k]) by {
            assert(d[k] == b@[k + start]);
        }
        assert(all_digits(d));
    }
    Some(v)
}

// ---------------------------------------------------------------------------------------------
// Intent verification queries
/// How many pairs have the given name.
pub open spec fn name_count(pairs: Seq<(Seq<char>, Seq<char>)>, name: Seq<char>) -> nat
    decreases pairs.len(),
{
    if pairs.len() == 0 {
        0
    } else {
        name_count(pairs.drop_last(), name) + if pairs.last().0 == name {
            1nat
        } else {
            0nat
        }
    }
}

/// The value of the first pair with the given name.
pub open spec fn value_of(pairs: Seq<(Seq<char>, Seq<char>)>, name: Seq<char>) -> Seq<char>
    decreases pairs.len(),
{
    if pairs.len() == 0 {
        Seq::empty()
    } else if pairs[0].0 == name {
        pairs[0].1
    } else {
        value_of(pairs.drop_first(), name)
    }
}

/// An intent verification query sent by a hub.
pub enum Verify {
    Subscribe { topic: String, challenge: String, lease_seconds: u64 },
    Unsubscribe { topic: String, challenge: String },
}

/// A view of an intent verification query.
pub enum VerifyView {
    Subscribe { topic: Seq<char>, challenge: Seq<char>, lease_seconds: u64 },
    Unsubscribe { topic: Seq<char>, challenge: Seq<char> },
}

impl View for Verify {
    type V = VerifyView;

    open spec fn view(&self) -> VerifyView {
        match self {
            Verify::Subscribe { topic, challenge, lease_seconds } => VerifyView::Subscribe {
                topic: topic@,
                challenge: challenge@,
                lease_seconds: *lease_seconds,
            },
            Verify::Unsubscribe { topic, challenge } => VerifyView::Unsubscribe {
                topic: topic@,
                challenge: challenge@,
            },
        }
    }
}

/// The names of the fields of a query.
pub open spec fn mode_name() -> Seq<char> {
    "hub.mode"@
}

pub open spec fn topic_name() -> Seq<char> {
    "hub.topic"@
}

pub open spec fn challenge_name() -> Seq<char> {
    "hub.challenge"@
}

pub open spec fn lease_name() -> Seq<char> {
    "hub.lease_seconds"@
}

/// The query that a sequence of name-value pairs stands for: `hub.mode` exactly once, either
/// `subscribe` or `unsubscribe`, and each field of that mode exactly once (the lease a decimal
/// `u64`); other names are ignored.
pub open spec fn verify_from_pairs(p: Seq<(Seq<char>, Seq<char>)>) -> Option<VerifyView> {
    if name_count(p, mode_name()) != 1 || name_count(p, topic_name()) != 1 || name_count(
        p,
        challenge_name(),
    ) != 1 {
        None
    } else if value_of(p, mode_name()) == "subscribe"@ {
        if name_count(p, lease_name()) != 1 {
            None
        } else {
            match u64_from_str(encode_utf8(value_of(p, lease_name()))) {
                None => None,
                Some(l) => Some(
                    VerifyView::Subscribe {
                        topic: value_of(p, topic_name()),
                        challenge: value_of(p, challenge_name()),
                        lease_seconds: l,
                    },
                ),
            }
        }
    } else if value_of(p, mode_name()) == "unsubscribe"@ {
        Some(
            VerifyView::Unsubscribe {
                topic: value_of(p, topic_name()),
                challenge: value_of(p, challenge_name()),
            },
        )
    } else {
        None
    }
}

/// The query that a query string stands for.
pub open spec fn verify_from_query(query: Seq<char>) -> Option<VerifyView> {
    match form_pairs(query) {
        None => None,
        Some(p) => verify_from_pairs(p),
    }
}

/// Counts the pairs with a name and finds the value of the first.
fn lookup(pairs: &Vec<(String, String)>, name: &String) -> (r: (usize, Option<String>))
    ensures
        r.0 == name_count(pairs_view(pairs@), name@),
        r.1 is Some <==> r.0 > 0,
        r.1 matches Some(v) ==> v@ == value_of(pairs_view(pairs@), name@),
{
    let ghost pv = pairs_view(pairs@);
    let mut count: usize = 0;
    let mut found: Option<String> = None;
    let mut i: usize = 0;
    assert(pv.subrange(0, pv.len() as int) =~= pv);
    assert(pv.subrange(0, 0) =~= Seq::<(Seq<char>, Seq<char>)>::empty());
    while i < pairs.len()
        invariant
            pv == pairs_view(pairs@),
            i <= pairs@.len(),
            count == name_count(pv.subrange(0, i as int), name@),
            count <= i,
            found is Some <==> count > 0,
            found matches Some(v) ==> v@ == value_of(pv, name@),
            found is None ==> value_of(pv, name@) == value_of(
                pv.subrange(i as int, pv.len() as int),
                name@,
            ),
        decreases pairs@.len() - i,
    {
        proof {
            assert(pv.subrange(0, i + 1).drop_last() =~= pv.subrange(0, i as int));
            assert(pv.subrange(i + 1, pv.len() as int) =~= pv.subrange(
                i as int,
                pv.len() as int,
            ).drop_first());
            assert(pv[i as int] == (pairs@[i as int].0@, pairs@[i as int].1@));
            assert(pv.subrange(i as int, pv.len() as int)[0] == pv[i as int]);
        }
        if pairs[i].0 == *name {
            if found.is_none() {
                found = Some(pairs[i].1.clone());
            }
            count = count + 1;
        }
        i = i + 1;
    }
    proof {
        assert(pv.subrange(0, pv.len() as int) =~= pv);
    }
    (count, found)
}

impl Verify {
    /// Reads a query from decoded name-value pairs, as a form of the tagged `hub.mode` enum.
    pub fn from_pairs(pairs: &Vec<(String, String)>) -> (r: Option<Verify>)
        ensures
            r matches Some(v) ==> verify_from_pairs(pairs_view(pairs@)) == Some(v@),
            r is None ==> verify_from_pairs(pairs_view(pairs@)) is None,
    {
        let (nm, mode) = lookup(pairs, &String::from_str("hub.mode"));
        let (nt, topic) = lookup(pairs, &String::from_str("hub.topic"));
        let (nc, challenge) = lookup(pairs, &String::from_str("hub.challenge"));
        if nm != 1 || nt != 1 || nc != 1 {
            return None;
        }
        let mode = mode.unwrap();
        let topic = topic.unwrap();
        let challenge = challenge.unwrap();
        if mode == String::from_str("subscribe") {
            let (nl, lease) = lookup(pairs, &String::from_str("hub.lease_seconds"));
            if nl != 1 {
                return None;
            }
            let lease = lease.unwrap();
            match parse_u64(lease.as_str()) {
                None => None,
                Some(lease_seconds) => Some(Verify::Subscribe { topic, challenge, lease_seconds }),
            }
        } else if mode == String::from_str("unsubscribe") {
            Some(Verify::Unsubscribe { topic, challenge })
        } else {
            None
        }
    }

    /// Reads a query from an `application/x-www-form-urlencoded` query string.
    pub fn parse(query: &str) -> (r: Option<Verify>)
        ensures
            r matches Some(v) ==> verify_from_query(query@) == Some(v@),
            r is None ==> verify_from_query(query@) is None,
    {
        match decode_form(query) {
            None => None,
            Some(pairs) => Verify::from_pairs(&pairs),
        }
    }
}

// ---------------------------------------------------------------------------------------------
// Callback URIs
/// The scheme, authority, path and query that `http::Uri` finds in a string, or `None` where it
/// does not parse.
pub uninterp spec fn uri_components_of(s: Seq<char>) -> Option<
    (Option<Seq<char>>, Option<Seq<char>>, Seq<char>, Option<Seq<char>>),
>;

/// Parses a URI with `http::Uri::try_from` and returns `scheme_str()`, the authority as a
/// string, `path()` and `query()`.
///
/// Claimed of it: the result is the named components of the string.
#[verifier::external_body]
fn uri_components(s: &str) -> (r: Option<(Option<String>, Option<String>, String, Option<String>)>)
    ensures
        r matches Some(c) ==> uri_components_of(s@) == Some(
            (opt_view(c.0), opt_view(c.1), c.2@, opt_view(c.3)),
        ),
        r is None ==> uri_components_of(s@) is None,
{
    let uri = http::Uri::try_from(s).ok()?;
    Some((
        uri.scheme_str().map(|x| x.to_owned()),
        uri.authority().map(|a| a.as_str().to_owned()),
        uri.path().to_owned(),
        uri.query().map(|x| x.to_owned()),
    ))
}

/// A URI by its components, as `http::Uri` holds them.
#[derive(Clone, Debug)]
pub struct Callback {
    pub scheme: Option<String>,
    pub authority: Option<String>,
    pub path: String,
    pub query: Option<String>,
}

/// A view of a URI.
pub struct CallbackView {
    pub scheme: Option<Seq<char>>,
    pub authority: Option<Seq<char>>,
    pub path: Seq<char>,
    pub query: Option<Seq<char>>,
}

impl View for Callback {
    type V = CallbackView;

    open spec fn view(&self) -> CallbackView {
        CallbackView {
            scheme: opt_view(self.scheme),
            authority: opt_view(self.authority),
            path: self.path@,
            query: opt_view(self.query),
        }
    }
}

/// The view of an optional string.
pub open spec fn opt_view(o: Option<String>) -> Option<Seq<char>> {
    match o {
        Some(x) => Some(x@),
        None => None,
    }
}

/// An optional part, or nothing.
pub open spec fn opt_text(prefix: Seq<char>, o: Option<Seq<char>>, suffix: Seq<char>) -> Seq<char> {
    match o {
        Some(x) => prefix + x + suffix,
        None => Seq::empty(),
    }
}

/// The path and query of a URI, as `PathAndQuery::as_str` spells them.
pub open spec fn path_and_query(c: CallbackView) -> Seq<char> {
    c.path + opt_text("?"@, c.query, Seq::empty())
}

/// The string form of a URI, as its `Display` writes it.
pub open spec fn uri_text(c: CallbackView) -> Seq<char> {
    opt_text(Seq::empty(), c.scheme, "://"@) + opt_text(Seq::empty(), c.authority, Seq::empty())
        + path_and_query(c)
}

/// The URI with `text` appended to its path and query.
pub open spec fn appended(c: CallbackView, text: Seq<char>) -> CallbackView {
    match c.query {
        Some(q) => CallbackView { query: Some(q + text), ..c },
        None => CallbackView { path: c.path + text, ..c },
    }
}

/// Whether the URI has a path and query (`http::Uri::path_and_query` is `Some`).
pub open spec fn has_path_and_query(c: CallbackView) -> bool {
    c.scheme is Some || c.authority is None
}

/// The callback URI of a subscription: the prefix followed by the encoded ID.
pub open spec fn callback_of(prefix: CallbackView, id: u64) -> CallbackView {
    appended(prefix, base64_url_encoding(encoded_part(le_bytes(id))))
}

/// Appends text to an optional string.
fn append_opt(out: &mut String, prefix: &str, o: &Option<String>, suffix: &str)
    ensures
        final(out)@ == old(out)@ + opt_text(prefix@, opt_view(*o), suffix@),
{
    match o {
        Some(x) => {
            out.append(prefix);
            out.append(x.as_str());
            out.append(suffix);
        },
        None => {},
    }
}

impl Callback {
    /// Parses a URI.
    pub fn parse(s: &str) -> (r: Option<Callback>)
        ensures
            r matches Some(c) ==> uri_components_of(s@) == Some(
                (c@.scheme, c@.authority, c@.path, c@.query),
            ),
            r is None ==> uri_components_of(s@) is None,
    {
        match uri_components(s) {
            None => None,
            Some((scheme, authority, path, query)) => Some(Callback { scheme, authority, path, query }),
        }
    }

    /// The string form of the URI.
    pub fn to_string(&self) -> (r: String)
        ensures
            r@ == uri_text(self@),
    {
        let mut out = String::new();
        append_opt(&mut out, "", &self.scheme, "://");
        append_opt(&mut out, "", &self.authority, "");
        out.append(self.path.as_str());
        append_opt(&mut out, "?", &self.query, "");
        proof {
            reveal_strlit("");
        }
        out
    }

    /// The URI with `text` appended to its path and query.
    pub fn append(&self, text: &str) -> (r: Callback)
        ensures
            r@ == appended(self@, text@),
    {
        match &self.query {
            Some(q) => Callback {
                scheme: self.scheme.clone(),
                authority: self.authority.clone(),
                path: self.path.clone(),
                query: Some(q.clone().concat(text)),
            },
            None => Callback {
                scheme: self.scheme.clone(),
                authority: self.authority.clone(),
                path: self.path.clone().concat(text),
                query: None,
            },
        }
    }
}

/// The callback URI of a subscription: the prefix followed by the ID, encoded.
///
/// The encoded ID decodes to the ID, and a request to the callback URI (with or without a
/// query) is routed back to the subscription wherever the prefix has no query.
pub fn make_callback(prefix: &Callback, id: u64) -> (r: Callback)
    ensures
        r@ == callback_of(prefix@, id),
        decoded_id(encode_utf8(base64_url_encoding(encoded_part(le_bytes(id))))) == Some(id),
        prefix@.query is None ==> forall|q: Option<Seq<char>>|
            route(prefix@.path, r@.path, q) == match q {
                Some(q) => Route::Intent(id, q),
                None => Route::Content(id),
            },
{
    let bytes = id_to_le_bytes(id);
    let enc = encode(&bytes);
    let r = prefix.append(enc.as_str());
    proof {
        lemma_le_value_le_bytes(id);
        if prefix@.query is None {
            let tail = r@.path.subrange(prefix@.path.len() as int, r@.path.len() as int);
            assert(r@.path == prefix@.path + enc@);
            assert(tail =~= enc@);
            assert(prefix@.path.is_prefix_of(r@.path)) by {
                assert(r@.path.subrange(0, prefix@.path.len() as int) =~= prefix@.path);
            }
        }
    }
    r
}

// ---------------------------------------------------------------------------------------------
// Subscription requests
/// A subscription or unsubscription request to a hub.
pub enum Form {
    Subscribe { callback: String, topic: String, secret: String },
    Unsubscribe { callback: String, topic: String },
}

/// The fields of a subscription request, in the order they are sent.
pub open spec fn subscribe_pairs(callback: Seq<char>, topic: Seq<char>, secret: Seq<char>) -> Seq<
    (Seq<char>, Seq<char>),
> {
    seq![
        (mode_name(), "subscribe"@),
        ("hub.callback"@, callback),
        (topic_name(), topic),
        ("hub.secret"@, secret),
    ]
}

/// The fields of an unsubscription request, in the order they are sent.
pub open spec fn unsubscribe_pairs(callback: Seq<char>, topic: Seq<char>) -> Seq<
    (Seq<char>, Seq<char>),
> {
    seq![(mode_name(), "unsubscribe"@), ("hub.callback"@, callback), (topic_name(), topic)]
}

impl Form {
    /// The request body, `application/x-www-form-urlencoded`.
    pub fn encode(&self) -> (r: String)
        ensures
            r@ == form_encoding(
                match self {
                    Form::Subscribe { callback, topic, secret } => subscribe_pairs(
                        callback@,
                        topic@,
                        secret@,
                    ),
                    Form::Unsubscribe { callback, topic } => unsubscribe_pairs(callback@, topic@),
                },
            ),
    {
        let mut pairs: Vec<(String, String)> = Vec::new();
        match self {
            Form::Subscribe { callback, topic, secret } => {
                pairs.push((String::from_str("hub.mode"), String::from_str("subscribe")));
                pairs.push((String::from_str("hub.callback"), callback.clone()));
                pairs.push((String::from_str("hub.topic"), topic.clone()));
                pairs.push((String::from_str("hub.secret"), secret.clone()));
                assert(pairs_view(pairs@) =~= subscribe_pairs(callback@, topic@, secret@));
            },
            Form::Unsubscribe { callback, topic } => {
                pairs.push((String::from_str("hub.mode"), String::from_str("unsubscribe")));
                pairs.push((String::from_str("hub.callback"), callback.clone()));
                pairs.push((String::from_str("hub.topic"), topic.clone()));
                assert(pairs_view(pairs@) =~= unsubscribe_pairs(callback@, topic@));
            },
        }
        encode_form(&pairs)
    }
}

/// A request to send to a hub: a form `POST`ed to the hub's URL.
#[derive(Debug)]
pub struct HubRequest {
    /// The hub's URL.
    pub hub: String,
    /// The topic that the request is about.
    pub topic: String,
    /// The subscription that the request is about.
    pub id: u64,
    /// The `application/x-www-form-urlencoded` body.
    pub body: String,
}

/// The body of a subscription request.
pub open spec fn subscribe_body(prefix: CallbackView, id: u64, topic: Seq<char>, secret: Seq<char>) -> Seq<char> {
    form_encoding(subscribe_pairs(uri_text(callback_of(prefix, id)), topic, secret))
}

/// The body of an unsubscription request.
pub open spec fn unsubscribe_body(prefix: CallbackView, id: u64, topic: Seq<char>) -> Seq<char> {
    form_encoding(unsubscribe_pairs(uri_text(callback_of(prefix, id)), topic))
}

/// A subscription secret: 24 random bytes in URL-safe base64, 32 characters.
pub fn gen_secret(random: &[u8]) -> (r: String)
    requires
        random@.len() == 24,
    ensures
        r@ == base64_url_encoding(random@),
        encode_utf8(r@).len() == 32,
{
    base64_encode(random)
}

/// Whether `secret` is a secret that `gen_secret` makes from some random bytes: 32 characters
/// (as UTF-8 bytes), the encoding of 24 bytes.
pub open spec fn is_generated_secret(secret: Seq<char>) -> bool {
    &&& encode_utf8(secret).len() == 32
    &&& exists|random: Seq<u8>| random.len() == 24 && secret == base64_url_encoding(random)
}

/// Creates a pending subscription with a fresh random secret.
pub fn create_subscription<C: ConnectionRef>(hub: &str, topic: &str, conn: &mut C) -> (r: Result<(u64, String), C::Error>)
    ensures
        final(conn).reliable() == old(conn).reliable(),
        old(conn).reliable() ==> r is Ok,
        r is Err ==> final(conn).subscriptions() == old(conn).subscriptions(),
        r matches Ok((id, secret)) ==> {
            &&& is_generated_secret(secret@)
            &&& !old(conn).subscriptions().contains_key(id)
            &&& final(conn).subscriptions() == old(conn).subscriptions().insert(
                id,
                SubscriptionRecord { hub: hub@, topic: topic@, secret: secret@, expires_at: None },
            )
        },
{
    let random = random_bytes(24);
    let secret = gen_secret(random.as_slice());
    let id = conn.create_subscription(hub, topic, secret.as_str())?;
    Ok((id, secret))
}

/// Subscribes to a topic at a hub: records a pending subscription and makes the request that
/// asks the hub for it.
pub fn subscribe<C: ConnectionRef>(callback: &Callback, hub: String, topic: String, conn: &mut C) -> (r: Result<HubRequest, C::Error>)
    ensures
        final(conn).reliable() == old(conn).reliable(),
        old(conn).reliable() ==> r is Ok,
        r is Err ==> final(conn).subscriptions() == old(conn).subscriptions(),
        r matches Ok(req) ==> {
            let secret = final(conn).subscriptions()[req.id].secret;
            &&& is_generated_secret(secret)
            &&& !old(conn).subscriptions().contains_key(req.id)
            &&& final(conn).subscriptions() == old(conn).subscriptions().insert(
                req.id,
                SubscriptionRecord { hub: hub@, topic: topic@, secret, expires_at: None },
            )
            &&& req.hub@ == hub@
            &&& req.topic@ == topic@
            &&& req.body@ == subscribe_body(callback@, req.id, topic@, secret)
        },
{
    let (id, secret) = create_subscription(hub.as_str(), topic.as_str(), conn)?;
    let form = Form::Subscribe { callback: make_callback(callback, id).to_string(), topic: topic.clone(), secret };
    let body = form.encode();
    Ok(HubRequest { hub, topic, id, body })
}

/// Unsubscribes from a topic at a hub: removes the subscription and makes the request that
/// asks the hub to end it.
pub fn unsubscribe<C: ConnectionRef>(callback: &Callback, id: u64, hub: String, topic: String, conn: &mut C) -> (r: Result<HubRequest, C::Error>)
    ensures
        final(conn).reliable() == old(conn).reliable(),
        old(conn).reliable() ==> r is Ok,
        r is Err ==> final(conn).subscriptions() == old(conn).subscriptions(),
        r matches Ok(req) ==> {
            &&& final(conn).subscriptions() == old(conn).subscriptions().remove(id)
            &&& req.id == id
            &&& req.hub@ == hub@
            &&& req.topic@ == topic@
            &&& req.body@ == unsubscribe_body(callback@, id, topic@)
        },
{
    conn.delete_subscriptions(id)?;
    let form = Form::Unsubscribe { callback: make_callback(callback, id).to_string(), topic: topic.clone() };
    let body = form.encode();
    Ok(HubRequest { hub, topic, id, body })
}

/// Whether a subscription is one that `unsubscribe_all` ends: to the topic, and at the hub where
/// one is given.
pub open spec fn matches_filter(r: SubscriptionRecord, hub: Option<Seq<char>>, topic: Seq<char>) -> bool {
    r.topic == topic && match hub {
        Some(h) => r.hub == h,
        None => true,
    }
}

/// Unsubscribes from every subscription to a topic (at the given hub, or at any): removes them
/// and makes the request that asks each one's hub to end it.
pub fn unsubscribe_all(callback: &Callback, hub: Option<String>, topic: String, conn: &mut MemoryConnection) -> (r: Result<Vec<HubRequest>, crate::db::StoreError>)
    ensures
        r is Ok,
        r matches Ok(reqs) ==> {
            let t0 = old(conn).subscriptions();
            let ended = Set::new(|x: u64| t0.contains_key(x) && matches_filter(t0[x], opt_view(hub), topic@));
            &&& final(conn).subscriptions() == t0.remove_keys(ended)
            &&& forall|i: int, j: int| 0 <= i < j < reqs@.len() ==> reqs@[i].id != reqs@[j].id
            &&& forall|x: u64| ended.contains(x) <==> exists|i: int| 0 <= i < reqs@.len() && #[trigger] reqs@[i].id == x
            &&& forall|i: int| 0 <= i < reqs@.len() ==> {
                let req = #[trigger] reqs@[i];
                &&& req.hub@ == t0[req.id].hub
                &&& req.topic@ == topic@
                &&& req.body@ == unsubscribe_body(callback@, req.id, topic@)
            }
        },
{
    let ghost t0 = conn.subscriptions();
    let rows = conn.rows();
    let mut targets: Vec<(u64, String)> = Vec::new();
    let mut i: usize = 0;
    while i < rows.len()
        invariant
            i <= rows@.len(),
            table(rows@) == t0,
            crate::db::ids_distinct(rows@),
            forall|a: int, b: int| 0 <= a < b < targets@.len() ==> targets@[a].0 != targets@[b].0,
            forall|a: int| 0 <= a < targets@.len() ==> exists|k: int| 0 <= k < i && #[trigger] rows@[k].0 == #[trigger] targets@[a].0,
            forall|a: int| 0 <= a < targets@.len() ==> {
                let x = #[trigger] targets@[a].0;
                &&& t0.contains_key(x)
                &&& matches_filter(t0[x], opt_view(hub), topic@)
                &&& targets@[a].1@ == t0[x].hub
            },
            forall|k: int| 0 <= k < i && matches_filter(#[trigger] rows@[k].1@, opt_view(hub), topic@)
                ==> exists|a: int| 0 <= a < targets@.len() && targets@[a].0 == rows@[k].0,
        decreases rows@.len() - i,
    {
        let row = &rows[i];
        let hit = row.1.topic == topic && match &hub {
            Some(h) => row.1.hub == *h,
            None => true,
        };
        let ghost prev = targets@;
        if hit {
            targets.push((row.0, row.1.hub.clone()));
        }
        proof {
            crate::db::lemma_table_at(rows@, i as int);
            assert forall|a: int, b: int| 0 <= a < b < targets@.len() implies targets@[a].0 != targets@[b].0 by {
                if b == prev.len() {
                    let k = choose|k: int| 0 <= k < i && #[trigger] rows@[k].0 == prev[a].0;
                    assert(rows@[k].0 != rows@[i as int].0);
                }
            }
            assert forall|a: int| 0 <= a < targets@.len() implies exists|k: int| 0 <= k < i + 1 && #[trigger] rows@[k].0 == #[trigger] targets@[a].0 by {
                if a < prev.len() {
                    let k = choose|k: int| 0 <= k < i && #[trigger] rows@[k].0 == prev[a].0;
                    assert(rows@[k].0 == targets@[a].0);
                } else {
                    assert(rows@[i as int].0 == targets@[a].0);
                }
            }
            assert forall|k: int| 0 <= k < i + 1 && matches_filter(#[trigger] rows@[k].1@, opt_view(hub), topic@)
                implies exists|a: int| 0 <= a < targets@.len() && targets@[a].0 == rows@[k].0 by {
                if k < i {
                    let a = choose|a: int| 0 <= a < prev.len() && prev[a].0 == rows@[k].0;
                    assert(targets@[a].0 == rows@[k].0);
                } else {
                    assert(targets@[prev.len() as int].0 == rows@[k].0);
                }
            }
        }
        i = i + 1;
    }
    let ghost ended = Set::new(|x: u64| t0.contains_key(x) && matches_filter(t0[x], opt_view(hub), topic@));
    proof {
        assert forall|x: u64| ended.contains(x) implies exists|a: int| 0 <= a < targets@.len() && #[trigger] targets@[a].0 == x by {
            let k = crate::db::index_of(rows@, x);
            crate::db::lemma_table_at(rows@, k);
            let a = choose|a: int| 0 <= a < targets@.len() && targets@[a].0 == rows@[k].0;
        }
    }
    let mut reqs: Vec<HubRequest> = Vec::new();
    let mut j: usize = 0;
    while j < targets.len()
        invariant
            j <= targets@.len(),
            conn.reliable() == old(conn).reliable(),
            ended == Set::new(|x: u64| t0.contains_key(x) && matches_filter(t0[x], opt_view(hub), topic@)),
            forall|a: int, b: int| 0 <= a < b < targets@.len() ==> targets@[a].0 != targets@[b].0,
            forall|a: int| 0 <= a < targets@.len() ==> {
                let x = #[trigger] targets@[a].0;
                &&& t0.contains_key(x)
                &&& matches_filter(t0[x], opt_view(hub), topic@)
                &&& targets@[a].1@ == t0[x].hub
            },
            forall|x: u64| ended.contains(x) ==> exists|a: int| 0 <= a < targets@.len() && #[trigger] targets@[a].0 == x,
            conn.subscriptions() == t0.remove_keys(targets@.subrange(0, j as int).map_values(|t: (u64, String)| t.0).to_set()),
            reqs@.len() == j,
            forall|a: int| 0 <= a < j ==> (#[trigger] reqs@[a]).id == targets@[a].0 && reqs@[a].hub@ == targets@[a].1@
                && reqs@[a].topic@ == topic@ && reqs@[a].body@ == unsubscribe_body(callback@, reqs@[a].id, topic@),
        decreases targets@.len() - j,
    {
        let ghost before = conn.subscriptions();
        let req = unsubscribe(callback, targets[j].0, targets[j].1.clone(), topic.clone(), conn)?;
        reqs.push(req);
        proof {
            let s0 = targets@.subrange(0, j as int).map_values(|t: (u64, String)| t.0);
            let s1 = targets@.subrange(0, j + 1).map_values(|t: (u64, String)| t.0);
            assert(s1 =~= s0.push(targets@[j as int].0));
            assert(s1.to_set() =~= s0.to_set().insert(targets@[j as int].0)) by {
                assert forall|x: u64| s1.contains(x) <==> (s0.contains(x) || x == targets@[j as int].0) by {
                    if s1.contains(x) {
                        let k = choose|k: int| 0 <= k < s1.len() && s1[k] == x;
                        if k < j {
                            assert(s0[k] == x);
                        }
                    }
                    if s0.contains(x) {
                        let k = choose|k: int| 0 <= k < s0.len() && s0[k] == x;
                        assert(s1[k] == x);
                    }
                    if x == targets@[j as int].0 {
                        assert(s1[j as int] == x);
                    }
                }
            }
            assert(t0.remove_keys(s1.to_set()) =~= before.remove(targets@[j as int].0));
        }
        j = j + 1;
    }
    proof {
        let s = targets@.subrange(0, targets@.len() as int).map_values(|t: (u64, String)| t.0);
        assert(s.to_set() =~= ended) by {
            assert forall|x: u64| s.contains(x) <==> ended.contains(x) by {
                if s.contains(x) {
                    let k = choose|k: int| 0 <= k < s.len() && s[k] == x;
                    assert(targets@[k].0 == x);
                }
                if ended.contains(x) {
                    let a = choose|a: int| 0 <= a < targets@.len() && #[trigger] targets@[a].0 == x;
                    assert(s[a] == x);
                }
            }
        }
        assert forall|x: u64| ended.contains(x) <==> exists|i: int| 0 <= i < reqs@.len() && #[trigger] reqs@[i].id == x by {
            if ended.contains(x) {
                let a = choose|a: int| 0 <= a < targets@.len() && #[trigger] targets@[a].0 == x;
                assert(reqs@[a].id == x);
            }
            if exists|i: int| 0 <= i < reqs@.len() && #[trigger] reqs@[i].id == x {
                let i = choose|i: int| 0 <= i < reqs@.len() && #[trigger] reqs@[i].id == x;
                assert(targets@[i].0 == x);
            }
        }
    }
    Ok(reqs)
}

} // verus!
