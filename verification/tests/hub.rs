use websub_sub::hub::{gen_secret, make_callback, parse_u64, Callback, Form, Verify};

fn verify(query: &str) -> Option<Verify> {
    Verify::parse(query)
}

#[test]
fn parses_subscription_queries() {
    match verify("hub.mode=subscribe&hub.topic=http%3A%2F%2Fexample.com%2Ffeed&hub.challenge=abc&hub.lease_seconds=86400") {
        Some(Verify::Subscribe { topic, challenge, lease_seconds }) => {
            assert_eq!(topic, "http://example.com/feed");
            assert_eq!(challenge, "abc");
            assert_eq!(lease_seconds, 86400);
        }
        _ => panic!(),
    }
}

#[test]
fn parses_unsubscription_queries_ignoring_other_fields() {
    match verify("hub.topic=t&hub.mode=unsubscribe&hub.challenge=c&hub.lease_seconds=x&foo=bar") {
        Some(Verify::Unsubscribe { topic, challenge }) => {
            assert_eq!(topic, "t");
            assert_eq!(challenge, "c");
        }
        _ => panic!(),
    }
}

#[test]
fn rejects_incomplete_or_ambiguous_queries() {
    assert!(verify("hub.mode=subscribe&hub.topic=t&hub.challenge=c").is_none());
    assert!(verify("hub.mode=subscribe&hub.topic=t&hub.challenge=c&hub.lease_seconds=-1").is_none());
    assert!(verify("hub.mode=subscribe&hub.mode=subscribe&hub.topic=t&hub.challenge=c&hub.lease_seconds=1").is_none());
    assert!(verify("hub.mode=unsubscribe&hub.topic=t&hub.topic=u&hub.challenge=c").is_none());
    assert!(verify("hub.mode=denied&hub.topic=t&hub.challenge=c").is_none());
    assert!(verify("hub.topic=t&hub.challenge=c").is_none());
}

#[test]
fn parses_u64_as_std_does() {
    for s in ["0", "42", "+42", "18446744073709551615", "007"] {
        assert_eq!(parse_u64(s), s.parse::<u64>().ok());
    }
    for s in ["", "+", "-", "-1", "18446744073709551616", "1a", " 1", "99999999999999999999"] {
        assert_eq!(parse_u64(s), None);
        assert!(s.parse::<u64>().is_err());
    }
}

#[test]
fn encodes_subscription_forms() {
    let form = Form::Subscribe {
        callback: "http://example.com/AQAAAAAAAA".to_owned(),
        topic: "http://example.com/feed.xml".to_owned(),
        secret: "s".to_owned(),
    };
    assert_eq!(
        form.encode(),
        "hub.mode=subscribe&hub.callback=http%3A%2F%2Fexample.com%2FAQAAAAAAAA&hub.topic=http%3A%2F%2Fexample.com%2Ffeed.xml&hub.secret=s"
    );
    let form = Form::Unsubscribe { callback: "cb".to_owned(), topic: "t".to_owned() };
    assert_eq!(form.encode(), "hub.mode=unsubscribe&hub.callback=cb&hub.topic=t");
}

#[test]
fn makes_callbacks_under_the_prefix() {
    let prefix = Callback::parse("http://example.com/websub/").unwrap();
    assert_eq!(make_callback(&prefix, 1).to_string(), "http://example.com/websub/AQ");
    let prefix = Callback::parse("http://example.com/cb?x=").unwrap();
    assert_eq!(make_callback(&prefix, 2).to_string(), "http://example.com/cb?x=Ag");
}

#[test]
fn callbacks_print_as_uris() {
    for s in ["http://example.com/", "https://example.com:8080/a/b?c=d", "/relative/path"] {
        assert_eq!(Callback::parse(s).unwrap().to_string(), s);
    }
    assert!(Callback::parse("http://exa mple.com/").is_none());
}

#[test]
fn secrets_are_base64_of_the_random_bytes() {
    let random: Vec<u8> = (0..24).collect();
    let secret = gen_secret(&random);
    assert_eq!(secret, "AAECAwQFBgcICQoLDA0ODxAREhMUFRYX");
    assert_eq!(secret.len(), 32);
}
