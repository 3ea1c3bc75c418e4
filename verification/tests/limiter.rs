use redlimit::limiter::{limiting, Counter};
use redlimit::redlimit::{LimitArgs, LimitResult};

#[test]
fn limiting_works() {
    // the state under the key "TT:core:user1"
    let mut slot: Option<Counter> = None;
    let mut now: u64 = 1_700_000_000_000;

    let res = limiting(&mut slot, now, &LimitArgs(1, 8, 1000, 5, 300));
    assert_eq!(LimitResult(1, 0), res);

    let res = limiting(&mut slot, now, &LimitArgs(3, 8, 1000, 5, 300));
    assert_eq!(LimitResult(4, 0), res);

    let res = limiting(&mut slot, now, &LimitArgs(3, 8, 1000, 5, 300));
    assert_eq!(4, res.0);
    assert!(res.1 > 0);

    now += res.1 + 1;
    let res = limiting(&mut slot, now, &LimitArgs(3, 8, 1000, 5, 300));
    assert_eq!(LimitResult(7, 0), res);

    let res = limiting(&mut slot, now, &LimitArgs(2, 8, 1000, 5, 300));
    assert_eq!(7, res.0);
    assert!(res.1 > 0);

    let res = limiting(&mut slot, now, &LimitArgs(1, 8, 1000, 5, 300));
    assert_eq!(LimitResult(8, 0), res);

    let res = limiting(&mut slot, now, &LimitArgs(1, 8, 1000, 5, 300));
    assert_eq!(8, res.0);
    assert!(res.1 > 0);

    now += res.1 + 1;
    let res = limiting(&mut slot, now, &LimitArgs(1, 8, 1000, 5, 300));
    assert_eq!(LimitResult(1, 0), res);

    let res = limiting(&mut slot, now, &LimitArgs(1, 1, 1000, 5, 300));
    assert_eq!(1, res.0);
    assert!(res.1 > 0, "with new max count");
}

#[test]
fn basic_admit_then_burst_limit() {
    let mut slot = None;
    assert_eq!(
        LimitResult(1, 0),
        limiting(&mut slot, 5000, &LimitArgs(1, 8, 1000, 5, 300))
    );
    assert_eq!(
        Some(Counter {
            count: 1,
            burst: 1,
            burst_at: 5000,
            expires_at: 6000
        }),
        slot
    );
    assert_eq!(
        LimitResult(4, 0),
        limiting(&mut slot, 5100, &LimitArgs(3, 8, 1000, 5, 300))
    );
    // the burst window began at 5000 and ends at 5300
    assert_eq!(
        LimitResult(4, 200),
        limiting(&mut slot, 5100, &LimitArgs(3, 8, 1000, 5, 300))
    );
    assert_eq!(
        Some(Counter {
            count: 4,
            burst: 4,
            burst_at: 5000,
            expires_at: 6000
        }),
        slot
    );
}

#[test]
fn burst_recovery() {
    let mut slot = Some(Counter {
        count: 4,
        burst: 4,
        burst_at: 5000,
        expires_at: 6000,
    });
    // one ms before the window's end the wait is 1
    assert_eq!(
        LimitResult(4, 1),
        limiting(&mut slot, 5299, &LimitArgs(3, 8, 1000, 5, 300))
    );
    assert_eq!(
        LimitResult(7, 0),
        limiting(&mut slot, 5300, &LimitArgs(3, 8, 1000, 5, 300))
    );
    assert_eq!(
        Some(Counter {
            count: 7,
            burst: 3,
            burst_at: 5300,
            expires_at: 6000
        }),
        slot
    );
}

#[test]
fn period_full_rejection() {
    let mut slot = Some(Counter {
        count: 7,
        burst: 3,
        burst_at: 5300,
        expires_at: 6000,
    });
    let before = slot;
    assert_eq!(
        LimitResult(7, 600),
        limiting(&mut slot, 5400, &LimitArgs(2, 8, 1000, 5, 300))
    );
    assert_eq!(before, slot);
    assert_eq!(
        LimitResult(8, 0),
        limiting(&mut slot, 5400, &LimitArgs(1, 8, 1000, 5, 300))
    );
    let full = slot;
    assert_eq!(
        LimitResult(8, 600),
        limiting(&mut slot, 5400, &LimitArgs(1, 8, 1000, 5, 300))
    );
    assert_eq!(full, slot);
}

#[test]
fn fresh_window_after_expiry() {
    let mut slot = Some(Counter {
        count: 8,
        burst: 4,
        burst_at: 5300,
        expires_at: 6000,
    });
    assert_eq!(
        LimitResult(1, 0),
        limiting(&mut slot, 6001, &LimitArgs(1, 8, 1000, 5, 300))
    );
    assert_eq!(
        Some(Counter {
            count: 1,
            burst: 1,
            burst_at: 6001,
            expires_at: 7001
        }),
        slot
    );
}

#[test]
fn quantity_above_max_count() {
    // against a live key
    let mut slot = Some(Counter {
        count: 1,
        burst: 1,
        burst_at: 6001,
        expires_at: 7001,
    });
    let before = slot;
    let res = limiting(&mut slot, 6001, &LimitArgs(1, 1, 1000, 5, 300));
    assert_eq!(LimitResult(1, 1000), res);
    assert_eq!(before, slot);
    // out of hand: the quantity comes back as the count, the wait is 1
    assert_eq!(
        LimitResult(2, 1),
        limiting(&mut slot, 6001, &LimitArgs(2, 1, 1000, 5, 300))
    );
    assert_eq!(before, slot);
    let mut none = None;
    assert_eq!(
        LimitResult(9, 1),
        limiting(&mut none, 6001, &LimitArgs(9, 8, 1000, 0, 0))
    );
    assert_eq!(None, none);
}

#[test]
fn without_burst_limit_only_the_count_moves() {
    let mut slot = None;
    assert_eq!(
        LimitResult(3, 0),
        limiting(&mut slot, 100, &LimitArgs(3, 5, 1000, 0, 1000))
    );
    assert_eq!(
        Some(Counter {
            count: 3,
            burst: 0,
            burst_at: 0,
            expires_at: 1100
        }),
        slot
    );
    assert_eq!(
        LimitResult(5, 0),
        limiting(&mut slot, 900, &LimitArgs(2, 5, 1000, 0, 1000))
    );
    assert_eq!(
        Some(Counter {
            count: 5,
            burst: 0,
            burst_at: 0,
            expires_at: 1100
        }),
        slot
    );
    assert_eq!(
        LimitResult(5, 200),
        limiting(&mut slot, 900, &LimitArgs(1, 5, 1000, 0, 1000))
    );
}

#[test]
fn the_period_is_not_stretched() {
    let mut slot = None;
    limiting(&mut slot, 0, &LimitArgs(1, 100, 1000, 0, 1000));
    for now in [1, 500, 999, 1000] {
        let res = limiting(&mut slot, now, &LimitArgs(1, 100, 1000, 0, 1000));
        assert_eq!(0, res.1);
        assert_eq!(1000, slot.unwrap().expires_at);
    }
    assert_eq!(5, slot.unwrap().count);
    let res = limiting(&mut slot, 1001, &LimitArgs(1, 100, 1000, 0, 1000));
    assert_eq!(LimitResult(1, 0), res);
    assert_eq!(2001, slot.unwrap().expires_at);
}

#[test]
fn a_full_period_in_the_ms_of_expiry_deletes_the_key() {
    let mut slot = Some(Counter {
        count: 8,
        burst: 0,
        burst_at: 0,
        expires_at: 6000,
    });
    assert_eq!(
        LimitResult(8, 1),
        limiting(&mut slot, 6000, &LimitArgs(1, 8, 1000, 0, 1000))
    );
    assert_eq!(None, slot);
    assert_eq!(
        LimitResult(1, 0),
        limiting(&mut slot, 6000, &LimitArgs(1, 8, 1000, 0, 1000))
    );
}

#[test]
fn admitted_within_a_period_stays_within_the_max_count() {
    let limit = (10u64, 1000u64);
    let mut slot = None;
    let mut admitted = 0;
    let start = 50_000;
    for (i, quantity) in [3u64, 4, 2, 5, 1, 1, 1, 2].iter().enumerate() {
        let now = start + 120 * i as u64;
        let res = limiting(&mut slot, now, &LimitArgs(*quantity, limit.0, limit.1, 0, 1000));
        if res.1 == 0 {
            admitted += quantity;
            assert_eq!(admitted, res.0);
        }
    }
    assert_eq!(10, admitted);
    assert_eq!(10, slot.unwrap().count);
}

#[test]
fn admitted_within_a_burst_window_stays_within_the_max_burst() {
    let mut slot = None;
    let mut admitted = 0;
    let start = 50_000;
    for (i, quantity) in [2u64, 2, 2, 1, 1].iter().enumerate() {
        let now = start + 50 * i as u64;
        let res = limiting(&mut slot, now, &LimitArgs(*quantity, 100, 10_000, 5, 300));
        if res.1 == 0 {
            admitted += quantity;
        }
    }
    assert_eq!(5, admitted);
    assert_eq!(5, slot.unwrap().burst);
    assert_eq!(start, slot.unwrap().burst_at);
}

#[test]
fn waits_and_expiry_stay_within_64_bits() {
    let mut slot = None;
    assert_eq!(
        LimitResult(1, 0),
        limiting(&mut slot, u64::MAX - 5, &LimitArgs(1, 1, 1000, 0, 1000))
    );
    assert_eq!(u64::MAX, slot.unwrap().expires_at);

    let mut slot = Some(Counter {
        count: 0,
        burst: 5,
        burst_at: u64::MAX,
        expires_at: u64::MAX,
    });
    assert_eq!(
        LimitResult(0, u64::MAX),
        limiting(&mut slot, 0, &LimitArgs(1, 8, 1000, 5, u64::MAX))
    );
    let mut slot = Some(Counter {
        count: u64::MAX,
        burst: 0,
        burst_at: 0,
        expires_at: 10,
    });
    assert_eq!(
        LimitResult(u64::MAX, 9),
        limiting(&mut slot, 1, &LimitArgs(1, u64::MAX, 1000, 0, 0))
    );
}

#[test]
fn arguments_as_the_counter_reads_them() {
    assert_eq!(
        LimitArgs(1, 8, 1000, 5, 300),
        LimitArgs(1, 8, 1000, 5, 300).as_received()
    );
    assert_eq!(
        LimitArgs(1, 8, 1000, 5, 1000),
        LimitArgs(1, 8, 1000, 5, 0).as_received()
    );
    assert_eq!(
        LimitArgs(1, 8, 1000, 0, 1000),
        LimitArgs(1, 8, 1000, 0, 0).as_received()
    );
    // a burst period without a max burst is not sent
    assert_eq!(
        LimitArgs(1, 8, 1000, 0, 1000),
        LimitArgs(1, 8, 1000, 0, 300).as_received()
    );
}
