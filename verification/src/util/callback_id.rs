//! Compact encoding of subscription IDs in callback URLs.
use vstd::prelude::*;
use vstd::utf8::encode_utf8;
use vstd::string::StringSliceAdditionalSpecFns;

verus! {

/// What `base64::encode_config` with `base64::URL_SAFE_NO_PAD` produces for the given bytes.
pub uninterp spec fn base64_url_encoding(bytes: Seq<u8>) -> Seq<char>;

/// What `base64::decode_config_slice` with `base64::URL_SAFE_NO_PAD` decodes the given text
/// (as UTF-8 bytes) to, or `None` where it reports an error.
pub uninterp spec fn base64_url_decoding(text: Seq<u8>) -> Option<Seq<u8>>;

/// Calls `base64::encode_config(bytes, base64::URL_SAFE_NO_PAD)`.
///
/// Claimed of it: the result is the named encoding of `bytes`, its UTF-8 form is
/// `ceil(4 * n / 3)` bytes long (no padding), and decoding it gives `bytes` back.
#[verifier::external_body]
pub(crate) fn base64_encode(bytes: &[u8]) -> (r: String)
    ensures
        r@ == base64_url_encoding(bytes@),
        encode_utf8(r@).len() == (4 * bytes@.len() + 2) / 3,
        base64_url_decoding(encode_utf8(r@)) == Some(bytes@),
{
    base64::encode_config(bytes, base64::URL_SAFE_NO_PAD)
}

/// Calls `base64::decode_config_slice(text, base64::URL_SAFE_NO_PAD, &mut buf)` with a 9-byte
/// buffer and returns the bytes that it wrote.
///
/// Claimed of it: the result is the named decoding of the UTF-8 bytes of `text`, and a
/// decoding is never longer than three quarters of the input. The 11-byte bound keeps the
/// decoder within the buffer.
#[verifier::external_body]
fn base64_decode_short(text: &str) -> (r: Option<Vec<u8>>)
    requires
        text.spec_bytes().len() <= 11,
    ensures
        r matches Some(v) ==> base64_url_decoding(text.spec_bytes()) == Some(v@),
        r is None ==> base64_url_decoding(text.spec_bytes()) is None,
        r matches Some(v) ==> 4 * v@.len() <= 3 * text.spec_bytes().len(),
{
    let mut buf = [0u8; 9];
    match base64::decode_config_slice(text, base64::URL_SAFE_NO_PAD, &mut buf) {
        Ok(n) => Some(buf[..n].to_vec()),
        Err(_) => None,
    }
}

/// The length of the first `n` bytes of `s` without their trailing zero bytes.
pub open spec fn significant_len(s: Seq<u8>, n: int) -> int
    decreases n,
{
    if n <= 0 {
        0
    } else if s[n - 1] != 0 {
        n
    } else {
        significant_len(s, n - 1)
    }
}

/// The part of an ID that goes into a callback URL: its little-endian bytes without the most
/// significant zero bytes.
pub open spec fn encoded_part(id: Seq<u8>) -> Seq<u8> {
    id.subrange(0, significant_len(id, id.len() as int))
}

/// Little-endian value of a byte sequence.
pub open spec fn le_value(s: Seq<u8>) -> nat
    decreases s.len(),
{
    if s.len() == 0 {
        0
    } else {
        s[0] as nat + 256 * le_value(s.drop_first())
    }
}

/// `256` to the power `k`.
pub open spec fn pow256(k: nat) -> nat
    decreases k,
{
    if k == 0 {
        1
    } else {
        256 * pow256((k - 1) as nat)
    }
}

/// The ID that a callback URL segment (as UTF-8 bytes) stands for.
pub open spec fn decoded_id(text: Seq<u8>) -> Option<u64> {
    if text.len() > 11 {
        None
    } else {
        match base64_url_decoding(text) {
            None => None,
            Some(v) => if v.len() > 8 {
                None
            } else {
                Some(le_value(v) as u64)
            },
        }
    }
}

/// The little-endian bytes of `x` (what `u64::to_le_bytes` gives).
pub open spec fn le_bytes(x: u64) -> Seq<u8> {
    seq![
        (x & 0xff) as u8,
        ((x >> 8) & 0xff) as u8,
        ((x >> 16) & 0xff) as u8,
        ((x >> 24) & 0xff) as u8,
        ((x >> 32) & 0xff) as u8,
        ((x >> 40) & 0xff) as u8,
        ((x >> 48) & 0xff) as u8,
        ((x >> 56) & 0xff) as u8,
    ]
}

/// The little-endian bytes of an ID.
pub fn id_to_le_bytes(x: u64) -> (r: [u8; 8])
    ensures
        r@ == le_bytes(x),
{
    let r = [
        (x & 0xff) as u8,
        ((x >> 8) & 0xff) as u8,
        ((x >> 16) & 0xff) as u8,
        ((x >> 24) & 0xff) as u8,
        ((x >> 32) & 0xff) as u8,
        ((x >> 40) & 0xff) as u8,
        ((x >> 48) & 0xff) as u8,
        ((x >> 56) & 0xff) as u8,
    ];
    assert(r@ =~= le_bytes(x));
    r
}

/// Reading the little-endian bytes of an ID gives the ID back.
pub proof fn lemma_le_value_le_bytes(x: u64)
    ensures
        le_value(le_bytes(x)) == x,
{
    let s = le_bytes(x);
    reveal_with_fuel(le_value, 9);
    assert(s.drop_first().drop_first().drop_first().drop_first().drop_first().drop_first().drop_first().drop_first().len() == 0);
    let b0 = x & 0xff;
    let b1 = (x >> 8) & 0xff;
    let b2 = (x >> 16) & 0xff;
    let b3 = (x >> 24) & 0xff;
    let b4 = (x >> 32) & 0xff;
    let b5 = (x >> 40) & 0xff;
    let b6 = (x >> 48) & 0xff;
    let b7 = (x >> 56) & 0xff;
    assert(x == b0 + 256 * (b1 + 256 * (b2 + 256 * (b3 + 256 * (b4 + 256 * (b5 + 256 * (b6
        + 256 * b7))))))) by (bit_vector)
        requires
            b0 == x & 0xff,
            b1 == (x >> 8) & 0xff,
            b2 == (x >> 16) & 0xff,
            b3 == (x >> 24) & 0xff,
            b4 == (x >> 32) & 0xff,
            b5 == (x >> 40) & 0xff,
            b6 == (x >> 48) & 0xff,
            b7 == (x >> 56) & 0xff,
    ;
    assert(b0 < 256 && b1 < 256 && b2 < 256 && b3 < 256 && b4 < 256 && b5 < 256 && b6 < 256
        && b7 < 256) by (bit_vector)
        requires
            b0 == x & 0xff,
            b1 == (x >> 8) & 0xff,
            b2 == (x >> 16) & 0xff,
            b3 == (x >> 24) & 0xff,
            b4 == (x >> 32) & 0xff,
            b5 == (x >> 40) & 0xff,
            b6 == (x >> 48) & 0xff,
            b7 == (x >> 56) & 0xff,
    ;
    assert(s[0] == b0 && s[1] == b1 && s[2] == b2 && s[3] == b3);
    assert(s[4] == b4 && s[5] == b5 && s[6] == b6 && s[7] == b7);
}

proof fn lemma_le_value_bound(s: Seq<u8>)
    ensures
        le_value(s) < pow256(s.len()),
    decreases s.len(),
{
    if s.len() > 0 {
        lemma_le_value_bound(s.drop_first());
    }
}

proof fn lemma_pow256_8()
    ensures
        pow256(8) == 0x1_0000_0000_0000_0000,
{
    reveal_with_fuel(pow256, 9);
}

/// Trailing zero bytes do not change a little-endian value.
proof fn lemma_le_value_zero_suffix(s: Seq<u8>, k: int)
    requires
        0 <= k <= s.len(),
        forall|j: int| k <= j < s.len() ==> s[j] == 0,
    ensures
        le_value(s) == le_value(s.subrange(0, k)),
    decreases s.len(),
{
    if s.len() == 0 {
    } else if k == 0 {
        lemma_le_value_all_zero(s);
    } else {
        assert(s.drop_first().subrange(0, k - 1) =~= s.subrange(0, k).drop_first());
        lemma_le_value_zero_suffix(s.drop_first(), k - 1);
    }
}

proof fn lemma_le_value_all_zero(s: Seq<u8>)
    requires
        forall|j: int| 0 <= j < s.len() ==> s[j] == 0,
    ensures
        le_value(s) == 0,
    decreases s.len(),
{
    if s.len() > 0 {
        lemma_le_value_all_zero(s.drop_first());
    }
}

/// The bytes from `significant_len` on are zero bytes.
proof fn lemma_significant_len(s: Seq<u8>, n: int)
    requires
        0 <= n <= s.len(),
    ensures
        0 <= significant_len(s, n) <= n,
        forall|j: int| significant_len(s, n) <= j < n ==> s[j] == 0,
    decreases n,
{
    if n > 0 && s[n - 1] == 0 {
        lemma_significant_len(s, n - 1);
    }
}

/// The number of bytes of an ID before its most significant zero bytes.
fn significant_bytes(id: &[u8; 8]) -> (r: usize)
    ensures
        r == significant_len(id@, 8),
{
    let mut i: usize = 8;
    while i > 0 && id[i - 1] == 0
        invariant
            i <= 8,
            id@.len() == 8,
            significant_len(id@, 8) == significant_len(id@, i as int),
        decreases i,
    {
        i = i - 1;
    }
    i
}

/// Little-endian value of at most eight bytes.
pub fn le_u64(bytes: &[u8]) -> (r: u64)
    requires
        bytes@.len() <= 8,
    ensures
        r == le_value(bytes@),
{
    let n = bytes.len();
    let mut v: u64 = 0;
    let mut i: usize = n;
    proof {
        lemma_pow256_8();
        assert(bytes@.subrange(n as int, n as int) =~= Seq::<u8>::empty());
    }
    while i > 0
        invariant
            n == bytes@.len(),
            n <= 8,
            i <= n,
            v == le_value(bytes@.subrange(i as int, n as int)),
            pow256(8) == 0x1_0000_0000_0000_0000,
        decreases i,
    {
        let ghost rest = bytes@.subrange(i as int, n as int);
        let ghost next = bytes@.subrange(i - 1, n as int);
        proof {
            assert(next.drop_first() =~= rest);
            lemma_le_value_bound(next);
            lemma_pow256_mono(next.len(), 8);
        }
        v = v * 256 + bytes[i - 1] as u64;
        i = i - 1;
    }
    assert(bytes@.subrange(0, n as int) =~= bytes@);
    v
}

proof fn lemma_pow256_mono(a: nat, b: nat)
    requires
        a <= b,
    ensures
        pow256(a) <= pow256(b),
    decreases b,
{
    if a < b {
        lemma_pow256_mono(a, (b - 1) as nat);
    }
}

/// Encodes the little-endian bytes of a subscription ID for use in a callback URL, leaving out
/// the most significant zero bytes.
///
/// Decoding the result gives the ID back.
pub fn encode(id: &[u8; 8]) -> (r: String)
    ensures
        r@ == base64_url_encoding(encoded_part(id@)),
        decoded_id(encode_utf8(r@)) == Some(le_value(id@) as u64),
{
    let end = significant_bytes(id);
    proof {
        lemma_significant_len(id@, 8);
    }
    let mut part: Vec<u8> = Vec::new();
    let mut j: usize = 0;
    while j < end
        invariant
            end <= 8,
            j <= end,
            id@.len() == 8,
            part@ =~= id@.subrange(0, j as int),
        decreases end - j,
    {
        part.push(id[j]);
        j = j + 1;
    }
    proof {
        assert(id@.subrange(0, 8) =~= id@);
        assert(part@ == encoded_part(id@));
    }
    let r = base64_encode(part.as_slice());
    proof {
        let p = encoded_part(id@);
        lemma_le_value_zero_suffix(id@, end as int);
        lemma_le_value_bound(p);
        lemma_pow256_mono(p.len(), 8);
        lemma_pow256_8();
    }
    r
}

/// Decodes a callback URL segment into a subscription ID.
///
/// Returns `None` for a segment longer than 11 bytes, one that is not URL-safe base64, or one
/// that decodes to more than eight bytes; otherwise the little-endian value of the decoded bytes.
pub fn decode(id: &str) -> (r: Option<u64>)
    ensures
        r == decoded_id(id.spec_bytes()),
{
    let bytes = id.as_bytes();
    if bytes.len() > 11 {
        return None;
    }
    match base64_decode_short(id) {
        None => None,
        Some(v) => {
            if v.len() > 8 {
                None
            } else {
                Some(le_u64(v.as_slice()))
            }
        },
    }
}

} // verus!
