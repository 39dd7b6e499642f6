use websub_sub::signature::{Algorithm, SerializeError, Signature};
use websub_sub::subscriber::update::Content;

const SECRET: &[u8] = b"super strong secret";
const HELLO_WORLD_SHA1: &str = "b51fc029a4765b9d49a82e3c6665c0503a7ffca8";
const HELLO_WORLD_SHA256: &str = "96c8f07509f42a391eaec872b8b63861a9511c67d81428f90f893ba893fbcc59";

fn parse(header: &str) -> Signature {
    match Signature::parse(header.as_bytes()) {
        Ok(sig) => sig,
        Err(_) => panic!("header does not parse"),
    }
}

#[test]
fn parses_known_methods() {
    let sig = parse(&format!("sha1={}", HELLO_WORLD_SHA1));
    match sig {
        Signature::Sha1(d) => assert_eq!(hex::encode(d), HELLO_WORLD_SHA1),
        _ => panic!(),
    }
    let sig = parse(&format!("sha256={}", HELLO_WORLD_SHA256.to_uppercase()));
    match sig {
        Signature::Sha256(d) => assert_eq!(hex::encode(d), HELLO_WORLD_SHA256),
        _ => panic!(),
    }
}

#[test]
fn rejects_malformed_values() {
    assert!(matches!(Signature::parse(b"sha1"), Err(SerializeError::Parse)));
    assert!(matches!(Signature::parse(b"sha1=abc"), Err(SerializeError::Parse)));
    assert!(matches!(Signature::parse(b"sha1=zz"), Err(SerializeError::Parse)));
    let short = format!("sha256={}", HELLO_WORLD_SHA1);
    assert!(matches!(Signature::parse(short.as_bytes()), Err(SerializeError::Parse)));
}

#[test]
fn reports_unknown_methods() {
    match Signature::parse(b"md5=00") {
        Err(SerializeError::UnknownMethod(m)) => assert_eq!(m, b"md5"),
        _ => panic!(),
    }
    match Signature::parse(b"=00") {
        Err(SerializeError::UnknownMethod(m)) => assert_eq!(m, b""),
        _ => panic!(),
    }
}

#[test]
fn stronger_algorithms_are_preferable() {
    let sha1 = parse(&format!("sha1={}", HELLO_WORLD_SHA1));
    let sha256 = parse(&format!("sha256={}", HELLO_WORLD_SHA256));
    assert!(sha256.is_preferable_to(&sha1));
    assert!(!sha1.is_preferable_to(&sha256));
    assert!(sha1.is_preferable_to(&sha1));
}

#[test]
fn verifier_checks_the_hmac_of_everything_absorbed() {
    let key_sig = parse("sha1=de7c9b85b8b78aa6bc8a7a36f70a90701c9db4d9");
    let mut v = key_sig.verify_with(b"key");
    v.update(b"The quick brown fox ");
    v.update(b"jumps over the lazy dog");
    assert!(v.verify_reset().is_ok());
    // After a reset nothing is absorbed any more.
    assert!(v.verify_reset().is_err());
}

#[test]
fn preserves_body() {
    let mut content = Content::new(parse(&format!("sha1={}", HELLO_WORLD_SHA1)), SECRET);
    content.absorb(b"hello");
    content.absorb(b" world");
    assert!(content.finish().is_ok());

    let mut content = Content::new(parse(&format!("sha256={}", HELLO_WORLD_SHA256)), SECRET);
    content.absorb(b"hello world");
    assert!(content.finish().is_ok());
}

#[test]
fn rejects_invalid_signature() {
    let mut content = Content::new(parse(&format!("sha1={}", HELLO_WORLD_SHA1)), b"super malicious secret");
    content.absorb(b"hello");
    content.absorb(b" world");
    assert!(content.finish().is_err());

    let mut content = Content::new(parse(&format!("sha1={}", HELLO_WORLD_SHA1)), SECRET);
    content.absorb(b"hello");
    assert!(content.finish().is_err());
}

#[test]
fn mismatch_message() {
    let mut content = Content::new(parse(&format!("sha1={}", HELLO_WORLD_SHA1)), SECRET);
    let e = content.finish().unwrap_err();
    assert_eq!(e.to_string(), "the hub has sent an invalid signature");
    let _ = Algorithm::Sha1;
}
