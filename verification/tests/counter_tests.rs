use block_resync::counter::ErrorCounter;

fn counter(errors: u64, last_try: u64) -> ErrorCounter {
    ErrorCounter { errors, last_try }
}

#[test]
fn encode_layout_is_two_big_endian_words() {
    let c = counter(1, 2);
    let bytes = c.encode();
    assert_eq!(bytes.len(), 16);
    assert_eq!(
        bytes,
        vec![0, 0, 0, 0, 0, 0, 0, 1, 0, 0, 0, 0, 0, 0, 0, 2]
    );
}

#[test]
fn encode_decode_round_trip() {
    let cases = [
        counter(1, 0),
        counter(2, 90),
        counter(7, 1_700_000_000_000),
        counter(u64::MAX, u64::MAX),
        counter(0x0102_0304_0506_0708, 0x1112_1314_1516_1718),
    ];
    for c in cases {
        let decoded = ErrorCounter::decode(&c.encode());
        assert_eq!(decoded, c);
    }
}

#[test]
fn backoff_schedule_doubles_then_caps() {
    let expected: [(u64, u64); 9] = [
        (1, 60_000),
        (2, 120_000),
        (3, 240_000),
        (4, 480_000),
        (5, 960_000),
        (6, 1_920_000),
        (7, 3_840_000),
        (8, 3_840_000),
        (1000, 3_840_000),
    ];
    for (errors, delay) in expected {
        assert_eq!(counter(errors, 0).delay_msec(), delay);
    }
}

#[test]
fn next_try_adds_the_delay() {
    assert_eq!(counter(1, 100).next_try(), 60_100);
    assert_eq!(counter(2, 90).next_try(), 90 + 120_000);
}

#[test]
fn first_failure_then_second_failure() {
    let t1: u64 = 1_000;
    let t2: u64 = 5_000;
    let first = ErrorCounter::new(t1 + 1);
    assert_eq!(first.errors, 1);
    assert_eq!(first.last_try, t1 + 1);
    let second = first.add1(t2 + 1);
    assert_eq!(second.errors, 2);
    assert_eq!(second.last_try, t2 + 1);
    assert_eq!(second.next_try(), t2 + 1 + 120_000);
}
