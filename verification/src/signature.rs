//! The `X-Hub-Signature` header: parsing, preference between digest algorithms, and checking
//! the HMAC of a distributed content against it.
use vstd::prelude::*;
use vstd::string::StringExecFns;
use hmac::{Hmac, Mac};
use sha1::Sha1;
use sha2::{Sha256, Sha384, Sha512};

verus! {

/// What HMAC-SHA1 (`hmac::Hmac<sha1::Sha1>`) computes for a key and a message.
pub uninterp spec fn hmac_sha1(key: Seq<u8>, message: Seq<u8>) -> Seq<u8>;

/// What HMAC-SHA256 (`hmac::Hmac<sha2::Sha256>`) computes for a key and a message.
pub uninterp spec fn hmac_sha256(key: Seq<u8>, message: Seq<u8>) -> Seq<u8>;

/// What HMAC-SHA384 (`hmac::Hmac<sha2::Sha384>`) computes for a key and a message.
pub uninterp spec fn hmac_sha384(key: Seq<u8>, message: Seq<u8>) -> Seq<u8>;

/// What HMAC-SHA512 (`hmac::Hmac<sha2::Sha512>`) computes for a key and a message.
pub uninterp spec fn hmac_sha512(key: Seq<u8>, message: Seq<u8>) -> Seq<u8>;

/// Computes HMAC-SHA1 with `hmac::Hmac<sha1::Sha1>`.
///
/// Claimed of it: the result is the named HMAC of the key and message, and it is 20 bytes
/// long (the SHA-1 output size). `new_from_slice` accepts keys of every length.
#[verifier::external_body]
fn hmac_sha1_digest(key: &[u8], message: &[u8]) -> (r: Vec<u8>)
    ensures
        r@ == hmac_sha1(key@, message@),
        r@.len() == 20,
{
    let mut mac = <Hmac<Sha1> as Mac>::new_from_slice(key).unwrap();
    mac.update(message);
    mac.finalize().into_bytes().to_vec()
}

/// Computes HMAC-SHA256 with `hmac::Hmac<sha2::Sha256>`.
///
/// Claimed of it: the result is the named HMAC of the key and message, and it is 32 bytes
/// long. `new_from_slice` accepts keys of every length.
#[verifier::external_body]
fn hmac_sha256_digest(key: &[u8], message: &[u8]) -> (r: Vec<u8>)
    ensures
        r@ == hmac_sha256(key@, message@),
        r@.len() == 32,
{
    let mut mac = <Hmac<Sha256> as Mac>::new_from_slice(key).unwrap();
    mac.update(message);
    mac.finalize().into_bytes().to_vec()
}

/// Computes HMAC-SHA384 with `hmac::Hmac<sha2::Sha384>`.
///
/// Claimed of it: the result is the named HMAC of the key and message, and it is 48 bytes
/// long. `new_from_slice` accepts keys of every length.
#[verifier::external_body]
fn hmac_sha384_digest(key: &[u8], message: &[u8]) -> (r: Vec<u8>)
    ensures
        r@ == hmac_sha384(key@, message@),
        r@.len() == 48,
{
    let mut mac = <Hmac<Sha384> as Mac>::new_from_slice(key).unwrap();
    mac.update(message);
    mac.finalize().into_bytes().to_vec()
}

/// Computes HMAC-SHA512 with `hmac::Hmac<sha2::Sha512>`.
///
/// Claimed of it: the result is the named HMAC of the key and message, and it is 64 bytes
/// long. `new_from_slice` accepts keys of every length.
#[verifier::external_body]
fn hmac_sha512_digest(key: &[u8], message: &[u8]) -> (r: Vec<u8>)
    ensures
        r@ == hmac_sha512(key@, message@),
        r@.len() == 64,
{
    let mut mac = <Hmac<Sha512> as Mac>::new_from_slice(key).unwrap();
    mac.update(message);
    mac.finalize().into_bytes().to_vec()
}

/// Value of an ASCII hexadecimal digit (either case).
pub open spec fn hex_digit_value(c: u8) -> Option<u8> {
    if 0x30 <= c <= 0x39 {
        Some((c - 0x30) as u8)
    } else if 0x61 <= c <= 0x66 {
        Some((c - 0x61 + 10) as u8)
    } else if 0x41 <= c <= 0x46 {
        Some((c - 0x41 + 10) as u8)
    } else {
        None
    }
}

/// Whether every byte of `hex` is a hexadecimal digit.
pub open spec fn all_hex_digits(hex: Seq<u8>) -> bool {
    forall|i: int| 0 <= i < hex.len() ==> (#[trigger] hex_digit_value(hex[i])) is Some
}

/// The `n` bytes that `hex` spells with two digits each, or `None` where `hex` is not exactly
/// `2 * n` hexadecimal digits.
pub open spec fn hex_decoding(hex: Seq<u8>, n: nat) -> Option<Seq<u8>> {
    if hex.len() == 2 * n && all_hex_digits(hex) {
        Some(
            Seq::new(
                n,
                |i: int|
                    (hex_digit_value(hex[2 * i])->0 * 16 + hex_digit_value(hex[2 * i + 1])->0) as u8,
            ),
        )
    } else {
        None
    }
}

/// Decodes `hex` into exactly `n` bytes with `hex::decode_to_slice`.
///
/// Claimed of it: it succeeds exactly when `hex` is `2 * n` hexadecimal digits (of either
/// case), and then yields the bytes they spell, high digit first.
#[verifier::external_body]
fn hex_decode_exact(hex: &[u8], n: usize) -> (r: Option<Vec<u8>>)
    ensures
        r matches Some(v) ==> hex_decoding(hex@, n as nat) == Some(v@),
        r is None ==> hex_decoding(hex@, n as nat) is None,
{
    let mut out = vec![0u8; n];
    match hex::decode_to_slice(hex, &mut out) {
        Ok(()) => Some(out),
        Err(_) => None,
    }
}

/// A digest algorithm that a hub may sign with.
#[derive(Clone, Copy, Debug, PartialEq, Eq, Structural)]
pub enum Algorithm {
    Sha1,
    Sha256,
    Sha384,
    Sha512,
}

/// The name of the algorithm in a header value, as ASCII bytes.
pub open spec fn method_name(a: Algorithm) -> Seq<u8> {
    match a {
        Algorithm::Sha1 => seq![0x73u8, 0x68, 0x61, 0x31],  // "sha1"
        Algorithm::Sha256 => seq![0x73u8, 0x68, 0x61, 0x32, 0x35, 0x36],  // "sha256"
        Algorithm::Sha384 => seq![0x73u8, 0x68, 0x61, 0x33, 0x38, 0x34],  // "sha384"
        Algorithm::Sha512 => seq![0x73u8, 0x68, 0x61, 0x35, 0x31, 0x32],  // "sha512"
    }
}

/// The algorithm that a method name stands for.
pub open spec fn algorithm_named(m: Seq<u8>) -> Option<Algorithm> {
    if m == method_name(Algorithm::Sha1) {
        Some(Algorithm::Sha1)
    } else if m == method_name(Algorithm::Sha256) {
        Some(Algorithm::Sha256)
    } else if m == method_name(Algorithm::Sha384) {
        Some(Algorithm::Sha384)
    } else if m == method_name(Algorithm::Sha512) {
        Some(Algorithm::Sha512)
    } else {
        None
    }
}

/// Length in bytes of the algorithm's output.
pub open spec fn digest_len(a: Algorithm) -> nat {
    match a {
        Algorithm::Sha1 => 20,
        Algorithm::Sha256 => 32,
        Algorithm::Sha384 => 48,
        Algorithm::Sha512 => 64,
    }
}

/// Preference rank of an algorithm: stronger digests rank higher.
pub open spec fn rank(a: Algorithm) -> nat {
    match a {
        Algorithm::Sha1 => 0,
        Algorithm::Sha256 => 1,
        Algorithm::Sha384 => 2,
        Algorithm::Sha512 => 3,
    }
}

/// The HMAC of `message` under `key` with the given algorithm.
pub open spec fn hmac_of(a: Algorithm, key: Seq<u8>, message: Seq<u8>) -> Seq<u8> {
    match a {
        Algorithm::Sha1 => hmac_sha1(key, message),
        Algorithm::Sha256 => hmac_sha256(key, message),
        Algorithm::Sha384 => hmac_sha384(key, message),
        Algorithm::Sha512 => hmac_sha512(key, message),
    }
}

/// Serialized `X-Hub-Signature` header value.
pub enum Signature {
    Sha1(Vec<u8>),
    Sha256(Vec<u8>),
    Sha384(Vec<u8>),
    Sha512(Vec<u8>),
}

/// Error while serializing a `Signature`.
pub enum SerializeError<'a> {
    Parse,
    UnknownMethod(&'a [u8]),
}

/// Error verifying a signature sent by a hub, indicating that the distributed content has been
/// falsified.
///
/// If you encounter this error, you must not trust the content.
#[derive(Debug)]
pub struct SignatureMismatch {
    _priv: (),
}

impl SignatureMismatch {
    /// The message of this error.
    pub fn to_string(&self) -> (r: String)
        ensures
            r@ == "the hub has sent an invalid signature"@,
    {
        String::from_str("the hub has sent an invalid signature")
    }
}

/// The index of the first occurrence of `b` in `s`.
pub open spec fn first_index_of(s: Seq<u8>, b: u8) -> Option<int> {
    if exists|i: int| 0 <= i < s.len() && s[i] == b {
        Some(choose|i: int| 0 <= i < s.len() && s[i] == b && forall|j: int| 0 <= j < i ==> s[j] != b)
    } else {
        None
    }
}

/// Finds the first occurrence of a byte (what `memchr::memchr` computes).
pub fn find_byte(s: &[u8], b: u8) -> (r: Option<usize>)
    ensures
        r matches Some(i) ==> i < s@.len() && s@[i as int] == b && forall|j: int|
            0 <= j < i ==> s@[j] != b,
        r is None ==> forall|j: int| 0 <= j < s@.len() ==> s@[j] != b,
        r matches Some(i) ==> first_index_of(s@, b) == Some(i as int),
        r is None ==> first_index_of(s@, b) is None,
{
    let mut i: usize = 0;
    while i < s.len()
        invariant
            i <= s@.len(),
            forall|j: int| 0 <= j < i ==> s@[j] != b,
        decreases s@.len() - i,
    {
        if s[i] == b {
            proof {
                let k = choose|k: int|
                    0 <= k < s@.len() && s@[k] == b && forall|j: int| 0 <= j < k ==> s@[j] != b;
                assert(0 <= i && (i as int) < s@.len() && s@[i as int] == b && forall|j: int|
                    0 <= j < i ==> s@[j] != b);
                if k < i {
                    assert(s@[k] != b);
                } else if k > i {
                    assert(s@[i as int] != b);
                }
            }
            return Some(i);
        }
        i = i + 1;
    }
    None
}

/// Which algorithm a method name is, comparing its bytes.
fn algorithm_of(m: &[u8]) -> (r: Option<Algorithm>)
    ensures
        r == algorithm_named(m@),
{
    let n = m.len();
    if n == 4 && m[0] == 0x73 && m[1] == 0x68 && m[2] == 0x61 && m[3] == 0x31 {
        assert(m@ =~= method_name(Algorithm::Sha1));
        return Some(Algorithm::Sha1);
    }
    if n == 6 && m[0] == 0x73 && m[1] == 0x68 && m[2] == 0x61 {
        if m[3] == 0x32 && m[4] == 0x35 && m[5] == 0x36 {
            assert(m@ =~= method_name(Algorithm::Sha256));
            return Some(Algorithm::Sha256);
        }
        if m[3] == 0x33 && m[4] == 0x38 && m[5] == 0x34 {
            assert(m@ =~= method_name(Algorithm::Sha384));
            return Some(Algorithm::Sha384);
        }
        if m[3] == 0x35 && m[4] == 0x31 && m[5] == 0x32 {
            assert(m@ =~= method_name(Algorithm::Sha512));
            return Some(Algorithm::Sha512);
        }
    }
    proof {
        if m@ == method_name(Algorithm::Sha1) {
            assert(m@[3] == 0x31);
        }
        if m@ == method_name(Algorithm::Sha256) {
            assert(m@[3] == 0x32 && m@[4] == 0x35 && m@[5] == 0x36);
        }
        if m@ == method_name(Algorithm::Sha384) {
            assert(m@[3] == 0x33 && m@[4] == 0x38 && m@[5] == 0x34);
        }
        if m@ == method_name(Algorithm::Sha512) {
            assert(m@[3] == 0x35 && m@[4] == 0x31 && m@[5] == 0x32);
        }
    }
    None
}

/// Whether two byte strings are equal.
fn bytes_equal(a: &[u8], b: &[u8]) -> (r: bool)
    ensures
        r == (a@ == b@),
{
    if a.len() != b.len() {
        return false;
    }
    let mut i: usize = 0;
    while i < a.len()
        invariant
            a@.len() == b@.len(),
            i <= a@.len(),
            forall|j: int| 0 <= j < i ==> a@[j] == b@[j],
        decreases a@.len() - i,
    {
        if a[i] != b[i] {
            return false;
        }
        i = i + 1;
    }
    assert(a@ =~= b@);
    true
}

/// What `Signature::parse` gives for a header value.
pub open spec fn parse_result_matches(header: Seq<u8>, r: Result<Signature, SerializeError>) -> bool {
    match first_index_of(header, 0x3d) {
        None => r matches Err(SerializeError::Parse),
        Some(i) => {
            let method = header.subrange(0, i);
            let hex = header.subrange(i + 1, header.len() as int);
            match algorithm_named(method) {
                None => r matches Err(SerializeError::UnknownMethod(m)) && m@ == method,
                Some(a) => match hex_decoding(hex, digest_len(a)) {
                    None => r matches Err(SerializeError::Parse),
                    Some(d) => r matches Ok(sig) && sig.algorithm() == a && sig.digest() == d,
                },
            }
        },
    }
}

/// The algorithm and digest that a header value carries, if it parses.
pub open spec fn signature_of(header: Seq<u8>) -> Option<(Algorithm, Seq<u8>)> {
    match first_index_of(header, 0x3d) {
        None => None,
        Some(i) => match algorithm_named(header.subrange(0, i)) {
            None => None,
            Some(a) => match hex_decoding(header.subrange(i + 1, header.len() as int), digest_len(a)) {
                None => None,
                Some(d) => Some((a, d)),
            },
        },
    }
}

/// The signature kept from a sequence of parsed header values: each one that parsed replaces the
/// one kept so far unless that one's algorithm is stronger.
pub open spec fn best_parsed(ps: Seq<Option<(Algorithm, Seq<u8>)>>) -> Option<(Algorithm, Seq<u8>)>
    decreases ps.len(),
{
    if ps.len() == 0 {
        None
    } else {
        let kept = best_parsed(ps.drop_last());
        match ps.last() {
            None => kept,
            Some(s) => match kept {
                None => Some(s),
                Some(k) => if rank(s.0) >= rank(k.0) {
                    Some(s)
                } else {
                    Some(k)
                },
            },
        }
    }
}

/// The signatures that header values carry.
pub open spec fn parsed_signatures(headers: Seq<Seq<u8>>) -> Seq<Option<(Algorithm, Seq<u8>)>> {
    headers.map_values(|h: Seq<u8>| signature_of(h))
}

/// The signature that a request's header values leave.
pub open spec fn best_signature(headers: Seq<Seq<u8>>) -> Option<(Algorithm, Seq<u8>)> {
    best_parsed(parsed_signatures(headers))
}

/// Preference between signatures is a total preorder: every algorithm is preferable to
/// itself, of two one is preferable to the other, and preference is transitive.
pub proof fn lemma_preference_total_preorder(a: Algorithm, b: Algorithm, c: Algorithm)
    ensures
        rank(a) >= rank(a),
        rank(a) >= rank(b) || rank(b) >= rank(a),
        rank(a) >= rank(b) && rank(b) >= rank(c) ==> rank(a) >= rank(c),
{
}

/// The signature kept from a request's headers is one that some header carries, no header
/// carries a signature of a stronger algorithm, and none is kept only where no header carries
/// one.
pub proof fn lemma_best_signature_is_strongest(headers: Seq<Seq<u8>>)
    ensures
        best_signature(headers) is None <==> forall|i: int|
            0 <= i < headers.len() ==> signature_of(#[trigger] headers[i]) is None,
        best_signature(headers) matches Some(s) ==> exists|i: int|
            0 <= i < headers.len() && signature_of(#[trigger] headers[i]) == Some(s),
        best_signature(headers) matches Some(s) ==> forall|i: int|
            0 <= i < headers.len() ==> (signature_of(#[trigger] headers[i]) matches Some(t) ==> rank(t.0)
                <= rank(s.0)),
{
    let ps = parsed_signatures(headers);
    lemma_best_parsed_is_strongest(ps);
    assert forall|i: int| 0 <= i < headers.len() implies #[trigger] signature_of(headers[i]) == ps[i] by {}
    if let Some(s) = best_signature(headers) {
        let i = choose|i: int| 0 <= i < ps.len() && ps[i] == Some(s);
        assert(signature_of(headers[i]) == Some(s));
    }
}

proof fn lemma_best_parsed_is_strongest(ps: Seq<Option<(Algorithm, Seq<u8>)>>)
    ensures
        best_parsed(ps) is None <==> forall|i: int| 0 <= i < ps.len() ==> (#[trigger] ps[i]) is None,
        best_parsed(ps) matches Some(s) ==> exists|i: int| 0 <= i < ps.len() && #[trigger] ps[i] == Some(s),
        best_parsed(ps) matches Some(s) ==> forall|i: int|
            0 <= i < ps.len() ==> ((#[trigger] ps[i]) matches Some(t) ==> rank(t.0) <= rank(s.0)),
    decreases ps.len(),
{
    if ps.len() > 0 {
        let init = ps.drop_last();
        lemma_best_parsed_is_strongest(init);
        let n = ps.len() - 1;
        assert forall|i: int| 0 <= i < n implies #[trigger] init[i] == ps[i] by {}
        if let Some(k) = best_parsed(init) {
            let w = choose|i: int| 0 <= i < init.len() && #[trigger] init[i] == Some(k);
            assert(ps[w] == Some(k));
        }
        assert(ps.last() == ps[n]);
        assert((forall|i: int| 0 <= i < ps.len() ==> (#[trigger] ps[i]) is None) ==> best_parsed(ps) is None) by {
            if forall|i: int| 0 <= i < ps.len() ==> (#[trigger] ps[i]) is None {
                assert forall|i: int| 0 <= i < init.len() implies (#[trigger] init[i]) is None by {
                    assert(ps[i] is None);
                }
                assert(ps[n] is None);
            }
        }
        if best_parsed(ps) is None {
            assert forall|i: int| 0 <= i < ps.len() implies (#[trigger] ps[i]) is None by {
                if i < n {
                    assert(init[i] is None);
                }
            }
        }
        if let Some(s) = best_parsed(ps) {
            assert forall|i: int| 0 <= i < ps.len() implies ((#[trigger] ps[i]) matches Some(t) ==> rank(t.0) <= rank(s.0)) by {
                if i < n {
                    assert(init[i] == ps[i]);
                }
            }
        }
    }
}

impl Signature {
    /// The algorithm of the signature.
    pub open spec fn algorithm(&self) -> Algorithm {
        match self {
            Signature::Sha1(_) => Algorithm::Sha1,
            Signature::Sha256(_) => Algorithm::Sha256,
            Signature::Sha384(_) => Algorithm::Sha384,
            Signature::Sha512(_) => Algorithm::Sha512,
        }
    }

    /// The digest bytes of the signature.
    pub open spec fn digest(&self) -> Seq<u8> {
        match self {
            Signature::Sha1(d) => d@,
            Signature::Sha256(d) => d@,
            Signature::Sha384(d) => d@,
            Signature::Sha512(d) => d@,
        }
    }

    /// The digest is as long as the algorithm's output.
    pub open spec fn wf(&self) -> bool {
        self.digest().len() == digest_len(self.algorithm())
    }

    /// Parses an `X-Hub-Signature` header value of the form `method=hexdigest`.
    ///
    /// The method is what precedes the first `=`; an unknown method is reported with its
    /// bytes, and a digest that is not exactly the algorithm's output length in hexadecimal
    /// is a parse error, as is a value without `=`.
    pub fn parse(header_value: &[u8]) -> (r: Result<Signature, SerializeError<'_>>)
        ensures
            parse_result_matches(header_value@, r),
            r matches Ok(sig) ==> sig.wf(),
            r is Ok <==> signature_of(header_value@) is Some,
            r matches Ok(sig) ==> signature_of(header_value@) == Some((sig.algorithm(), sig.digest())),
    {
        let i = match find_byte(header_value, 0x3d) {
            Some(i) => i,
            None => return Err(SerializeError::Parse),
        };
        let len = header_value.len();
        let method = &header_value[0..i];
        let hex = &header_value[i + 1..len];
        let alg = match algorithm_of(method) {
            Some(a) => a,
            None => return Err(SerializeError::UnknownMethod(method)),
        };
        let n: usize = match alg {
            Algorithm::Sha1 => 20,
            Algorithm::Sha256 => 32,
            Algorithm::Sha384 => 48,
            Algorithm::Sha512 => 64,
        };
        match hex_decode_exact(hex, n) {
            None => Err(SerializeError::Parse),
            Some(d) => Ok(
                match alg {
                    Algorithm::Sha1 => Signature::Sha1(d),
                    Algorithm::Sha256 => Signature::Sha256(d),
                    Algorithm::Sha384 => Signature::Sha384(d),
                    Algorithm::Sha512 => Signature::Sha512(d),
                },
            ),
        }
    }

    /// Whether this signature's algorithm is at least as strong as `other`'s.
    pub fn is_preferable_to(&self, other: &Self) -> (r: bool)
        ensures
            r == (rank(self.algorithm()) >= rank(other.algorithm())),
    {
        self.discriminant() >= other.discriminant()
    }

    fn discriminant(&self) -> (r: u8)
        ensures
            r == rank(self.algorithm()),
    {
        match *self {
            Signature::Sha1(_) => 0,
            Signature::Sha256(_) => 1,
            Signature::Sha384(_) => 2,
            Signature::Sha512(_) => 3,
        }
    }

    /// Starts checking a content against this signature, with the subscription's secret as key.
    pub fn verify_with(self, secret: &[u8]) -> (r: Verifier)
        ensures
            r.algorithm() == self.algorithm(),
            r.expected() == self.digest(),
            r.key() == secret@,
            r.absorbed() == Seq::<u8>::empty(),
    {
        let algorithm = match self {
            Signature::Sha1(_) => Algorithm::Sha1,
            Signature::Sha256(_) => Algorithm::Sha256,
            Signature::Sha384(_) => Algorithm::Sha384,
            Signature::Sha512(_) => Algorithm::Sha512,
        };
        let signature = match self {
            Signature::Sha1(d) => d,
            Signature::Sha256(d) => d,
            Signature::Sha384(d) => d,
            Signature::Sha512(d) => d,
        };
        Verifier { algorithm, signature, key: vstd::slice::slice_to_vec(secret), absorbed: Vec::new() }
    }
}

/// A signature together with the key and the bytes absorbed so far, used to verify a content
/// against the signature.
#[derive(Debug)]
pub struct Verifier {
    algorithm: Algorithm,
    signature: Vec<u8>,
    key: Vec<u8>,
    absorbed: Vec<u8>,
}

impl Verifier {
    /// The digest algorithm.
    pub closed spec fn algorithm(&self) -> Algorithm {
        self.algorithm
    }

    /// The digest that the hub sent.
    pub closed spec fn expected(&self) -> Seq<u8> {
        self.signature@
    }

    /// The HMAC key (the subscription's secret).
    pub closed spec fn key(&self) -> Seq<u8> {
        self.key@
    }

    /// The bytes absorbed since the start or the last `verify_reset`.
    pub closed spec fn absorbed(&self) -> Seq<u8> {
        self.absorbed@
    }

    /// Absorbs the next bytes of the content.
    pub fn update(&mut self, bytes: &[u8])
        ensures
            final(self).absorbed() == old(self).absorbed() + bytes@,
            final(self).algorithm() == old(self).algorithm(),
            final(self).expected() == old(self).expected(),
            final(self).key() == old(self).key(),
    {
        let mut i: usize = 0;
        let ghost start = self.absorbed@;
        while i < bytes.len()
            invariant
                i <= bytes@.len(),
                self.absorbed@ == start + bytes@.subrange(0, i as int),
                self.algorithm == old(self).algorithm,
                self.signature@ == old(self).signature@,
                self.key@ == old(self).key@,
            decreases bytes@.len() - i,
        {
            self.absorbed.push(bytes[i]);
            i = i + 1;
            assert(start + bytes@.subrange(0, i as int) =~= (start + bytes@.subrange(
                0,
                i - 1,
            )).push(bytes@[i - 1]));
        }
        assert(bytes@.subrange(0, bytes@.len() as int) =~= bytes@);
    }

    /// Checks the absorbed bytes against the signature and starts over with no bytes absorbed.
    pub fn verify_reset(&mut self) -> (r: Result<(), SignatureMismatch>)
        ensures
            r is Ok <==> hmac_of(old(self).algorithm(), old(self).key(), old(self).absorbed())
                == old(self).expected(),
            hmac_of(old(self).algorithm(), old(self).key(), old(self).absorbed()).len() == digest_len(
                old(self).algorithm(),
            ),
            final(self).absorbed() == Seq::<u8>::empty(),
            final(self).algorithm() == old(self).algorithm(),
            final(self).expected() == old(self).expected(),
            final(self).key() == old(self).key(),
    {
        let code = match self.algorithm {
            Algorithm::Sha1 => hmac_sha1_digest(self.key.as_slice(), self.absorbed.as_slice()),
            Algorithm::Sha256 => hmac_sha256_digest(self.key.as_slice(), self.absorbed.as_slice()),
            Algorithm::Sha384 => hmac_sha384_digest(self.key.as_slice(), self.absorbed.as_slice()),
            Algorithm::Sha512 => hmac_sha512_digest(self.key.as_slice(), self.absorbed.as_slice()),
        };
        self.absorbed = Vec::new();
        if bytes_equal(code.as_slice(), self.signature.as_slice()) {
            Ok(())
        } else {
            Err(SignatureMismatch { _priv: () })
        }
    }
}

/// The lower-case hexadecimal digit of a nibble.
pub open spec fn hex_digit(n: u8) -> u8 {
    if n < 10 {
        (0x30 + n) as u8
    } else {
        (0x61 + n - 10) as u8
    }
}

/// The lower-case hexadecimal spelling of bytes, high digit first (what `hex::encode` writes).
pub open spec fn hex_encoding(d: Seq<u8>) -> Seq<u8> {
    Seq::new(
        2 * d.len(),
        |i: int|
            if i % 2 == 0 {
                hex_digit(d[i / 2] / 16)
            } else {
                hex_digit(d[i / 2] % 16)
            },
    )
}

/// Decoding the hexadecimal spelling of bytes gives them back.
pub proof fn lemma_hex_round_trip(d: Seq<u8>)
    ensures
        hex_decoding(hex_encoding(d), d.len()) == Some(d),
{
    let h = hex_encoding(d);
    assert forall|i: int| 0 <= i < h.len() implies (#[trigger] hex_digit_value(h[i])) is Some by {
        let n: u8 = if i % 2 == 0 { d[i / 2] / 16 } else { d[i / 2] % 16 };
        assert(n < 16);
        assert(h[i] == hex_digit(n));
    }
    let s = Seq::new(
        d.len(),
        |k: int| (hex_digit_value(h[2 * k])->0 * 16 + hex_digit_value(h[2 * k + 1])->0) as u8,
    );
    assert forall|k: int| 0 <= k < d.len() implies s[k] == d[k] by {
        let hi: u8 = d[k] / 16;
        let lo: u8 = d[k] % 16;
        assert((2 * k) % 2 == 0 && (2 * k) / 2 == k);
        assert((2 * k + 1) % 2 == 1 && (2 * k + 1) / 2 == k);
        assert(h[2 * k] == hex_digit(hi));
        assert(h[2 * k + 1] == hex_digit(lo));
        assert(hex_digit_value(hex_digit(hi)) == Some(hi));
        assert(hex_digit_value(hex_digit(lo)) == Some(lo));
        assert(hi * 16 + lo == d[k]);
    }
    assert(s =~= d);
}

/// The method names are told apart.
proof fn lemma_method_names_distinct(a: Algorithm)
    ensures
        algorithm_named(method_name(a)) == Some(a),
        forall|i: int| 0 <= i < method_name(a).len() ==> method_name(a)[i] != 0x3d,
{
    let s1 = method_name(Algorithm::Sha1);
    let s256 = method_name(Algorithm::Sha256);
    let s384 = method_name(Algorithm::Sha384);
    let s512 = method_name(Algorithm::Sha512);
    assert(s1.len() != s256.len() && s1.len() != s384.len() && s1.len() != s512.len());
    assert(s256[3] != s384[3] && s256[3] != s512[3] && s384[3] != s512[3]);
}

/// A body signed by its hub verifies: a header naming the algorithm, `=`, and the hexadecimal
/// HMAC of the body under the secret (as long as that algorithm's output) parses into that
/// algorithm and HMAC, and the HMAC that a content with that signature is checked against is
/// the one that the hub computed, with the same algorithm.
pub proof fn lemma_signed_body_verifies(a: Algorithm, key: Seq<u8>, body: Seq<u8>, mac: Seq<u8>)
    requires
        match a {
            Algorithm::Sha1 => mac == hmac_sha1(key, body) && mac.len() == 20,
            Algorithm::Sha256 => mac == hmac_sha256(key, body) && mac.len() == 32,
            Algorithm::Sha384 => mac == hmac_sha384(key, body) && mac.len() == 48,
            Algorithm::Sha512 => mac == hmac_sha512(key, body) && mac.len() == 64,
        },
    ensures
        signature_of(
            match a {
                Algorithm::Sha1 => seq![0x73u8, 0x68, 0x61, 0x31],
                Algorithm::Sha256 => seq![0x73u8, 0x68, 0x61, 0x32, 0x35, 0x36],
                Algorithm::Sha384 => seq![0x73u8, 0x68, 0x61, 0x33, 0x38, 0x34],
                Algorithm::Sha512 => seq![0x73u8, 0x68, 0x61, 0x35, 0x31, 0x32],
            } + seq![0x3du8] + hex_encoding(mac),
        ) == Some((a, mac)),
        hmac_of(a, key, body) == mac,
{
    let m = method_name(a);
    assert(m =~= match a {
        Algorithm::Sha1 => seq![0x73u8, 0x68, 0x61, 0x31],
        Algorithm::Sha256 => seq![0x73u8, 0x68, 0x61, 0x32, 0x35, 0x36],
        Algorithm::Sha384 => seq![0x73u8, 0x68, 0x61, 0x33, 0x38, 0x34],
        Algorithm::Sha512 => seq![0x73u8, 0x68, 0x61, 0x35, 0x31, 0x32],
    });
    let x = hex_encoding(mac);
    let h = m + seq![0x3du8] + x;
    lemma_method_names_distinct(a);
    lemma_hex_round_trip(mac);
    let i = m.len() as int;
    assert(h[i] == 0x3d);
    assert(forall|j: int| 0 <= j < i ==> h[j] == m[j]);
    assert(exists|j: int| 0 <= j < h.len() && h[j] == 0x3d);
    let c = choose|j: int| 0 <= j < h.len() && h[j] == 0x3d && forall|t: int| 0 <= t < j ==> h[t] != 0x3d;
    assert(0 <= i < h.len() && h[i] == 0x3d && forall|t: int| 0 <= t < i ==> h[t] != 0x3d);
    if c < i {
        assert(h[c] == m[c]);
    }
    assert(first_index_of(h, 0x3d) == Some(i));
    assert(h.subrange(0, i) =~= m);
    assert(h.subrange(i + 1, h.len() as int) =~= x);
}

/// Of two signatures, the one whose algorithm has the longer output (SHA-1: 20 bytes, SHA-256:
/// 32, SHA-384: 48, SHA-512: 64) is preferred, and of two with the same algorithm, either.
pub proof fn lemma_longer_digests_are_preferred(a: Algorithm, b: Algorithm)
    ensures
        ({
            let size = |x: Algorithm| match x {
                Algorithm::Sha1 => 20int,
                Algorithm::Sha256 => 32int,
                Algorithm::Sha384 => 48int,
                Algorithm::Sha512 => 64int,
            };
            (rank(a) >= rank(b)) <==> (size(a) >= size(b))
        }),
{
}

} // verus!
