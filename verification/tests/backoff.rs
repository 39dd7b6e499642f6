use websub_sub::util::backoff::Backoff;

#[test]
fn it_works() {
    let mut backoff = Backoff::new();
    let mut now = 0u64;
    for _ in 0..2 {
        now += 42;
        assert_eq!(backoff.wait_secs(), 0);
        assert!(backoff.is_complete(now));

        backoff.increase(now);
        assert_eq!(backoff.wait_secs(), 1);
        assert!(!backoff.is_complete(now));
        now += 1;
        assert!(backoff.is_complete(now));

        backoff.increase(now);
        assert_eq!(backoff.wait_secs(), 2);
        assert!(!backoff.is_complete(now));
        now += 1;
        assert!(!backoff.is_complete(now));
        now += 1;
        assert!(backoff.is_complete(now));

        backoff.increase(now);
        assert_eq!(backoff.wait_secs(), 4);
        assert!(!backoff.is_complete(now));
        now += 2;
        assert!(!backoff.is_complete(now));
        now += 2;
        assert!(backoff.is_complete(now));

        backoff.reset();
    }
}

#[test]
fn reset_starts_over_from_one_second() {
    let mut backoff = Backoff::new();
    backoff.increase(10);
    backoff.increase(10);
    backoff.increase(10);
    assert_eq!(backoff.wait_secs(), 4);
    backoff.reset();
    assert_eq!(backoff.wait_secs(), 0);
    backoff.increase(100);
    assert_eq!(backoff.wait_secs(), 1);
    assert!(!backoff.is_complete(100));
    assert!(backoff.is_complete(101));
}
