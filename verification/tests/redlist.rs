use redlimit::redlist::Redlist;
use redlimit::sync::{RedlistScan, REDLIST_SCAN_COUNT};
use redlimit::table::Table;
use redlimit::text::write_decimal;

fn rows(entries: &[(&str, u64)]) -> Table<u64> {
    let mut list = Table::new();
    for (id, ttl) in entries {
        list.insert(id.to_string(), *ttl);
    }
    list
}

#[test]
fn write_decimal_writes_numbers() {
    assert_eq!("0", write_decimal(0));
    assert_eq!("9", write_decimal(9));
    assert_eq!("10", write_decimal(10));
    assert_eq!("1700000000123", write_decimal(1700000000123));
    assert_eq!("18446744073709551615", write_decimal(u64::MAX));
    for n in [0u64, 1, 99, 100, 101, 12345678901234567890] {
        assert_eq!(n.to_string(), write_decimal(n));
    }
}

#[test]
fn store_add_then_scan() {
    let mut store = Redlist::new();
    assert_eq!(0, store.len());
    assert!(store.redlist_scan(0).is_empty());

    // an addition of nothing
    assert_eq!(0, store.redlist_add(1000, &Table::new()));
    assert!(store.redlist_scan(0).is_empty());

    assert_eq!(
        2,
        store.redlist_add(1000, &rows(&[("user1", 100), ("user2", 50)]))
    );
    assert_eq!(2, store.len());
    assert_eq!(
        vec!["1002", "user1", "1100", "user2", "1050"],
        store.redlist_scan(0)
    );
    assert_eq!(
        vec!["1002", "user1", "1100", "user2", "1050"],
        store.redlist_scan(1001)
    );
    assert_eq!(vec!["1002", "user2", "1050"], store.redlist_scan(1002));
    assert!(store.redlist_scan(1003).is_empty());
}

#[test]
fn store_add_again_moves_the_member_on() {
    let mut store = Redlist::new();
    store.redlist_add(1000, &rows(&[("user1", 100), ("user2", 500)]));
    // user1 is there already: nothing new
    assert_eq!(0, store.redlist_add(1010, &rows(&[("user1", 200)])));
    assert_eq!(2, store.len());
    assert_eq!(
        vec!["1011", "user2", "1500", "user1", "1210"],
        store.redlist_scan(0)
    );
    // a scan from above the cursor of an earlier scan sees user1 again,
    // with its new score
    assert_eq!(vec!["1011", "user1", "1210"], store.redlist_scan(1003));
}

#[test]
fn store_sweeps_on_every_addition() {
    let mut store = Redlist::new();
    store.redlist_add(1000, &rows(&[("a", 10), ("b", 20), ("c", 30)]));
    // at 1020 only a has expired before now
    assert_eq!(0, store.redlist_add(1020, &Table::new()));
    assert_eq!(
        vec!["1003", "b", "1020", "c", "1030"],
        store.redlist_scan(0)
    );
    assert_eq!(1, store.redlist_add(1031, &rows(&[("d", 5)])));
    assert_eq!(vec!["1032", "d", "1036"], store.redlist_scan(0));
    // an id that was swept is new again
    assert_eq!(1, store.redlist_add(1031, &rows(&[("a", 5)])));
    assert_eq!(2, store.len());
}

#[test]
fn store_keeps_the_order_of_scores() {
    let mut store = Redlist::new();
    store.redlist_add(2000, &rows(&[("late", 1000)]));
    // the clock has gone back
    store.redlist_add(1000, &rows(&[("early1", 5000), ("early2", 5000)]));
    assert_eq!(
        vec!["2001", "early1", "6000", "early2", "6000", "late", "3000"],
        store.redlist_scan(0)
    );
    // equal scores: in the order of arrival
    store.redlist_add(2000, &rows(&[("same", 1000)]));
    assert_eq!(
        vec!["2001", "late", "3000", "same", "3000"],
        store.redlist_scan(2001)
    );
}

#[test]
fn store_scores_stay_within_64_bits() {
    let mut store = Redlist::new();
    store.redlist_add(u64::MAX - 1, &rows(&[("a", 10), ("b", 0), ("c", u64::MAX)]));
    assert_eq!(
        vec![
            "18446744073709551615",
            "a",
            "18446744073709551615",
            "b",
            "18446744073709551614",
            "c",
            "18446744073709551615"
        ],
        store.redlist_scan(0)
    );
}

#[test]
fn scan_hands_out_pages() {
    let mut store = Redlist::new();
    let mut list = Table::new();
    for i in 0..(REDLIST_SCAN_COUNT + 5) {
        list.insert(format!("user{}", i), 1000);
    }
    assert_eq!(REDLIST_SCAN_COUNT + 5, store.redlist_add(5000, &list));

    let reply = store.redlist_scan(0);
    assert_eq!(1 + 2 * REDLIST_SCAN_COUNT, reply.len());
    assert_eq!("15000", reply[0]);
    assert_eq!("user0", reply[1]);
    assert_eq!("6000", reply[2]);
    assert_eq!("user9999", reply[reply.len() - 2]);

    let reply = store.redlist_scan(15001);
    assert_eq!(
        vec!["15005", "user10000", "6000", "user10001", "6000", "user10002", "6000",
             "user10003", "6000", "user10004", "6000"],
        reply
    );
}

#[test]
fn reader_and_store_agree() {
    let mut store = Redlist::new();
    let mut list = Table::new();
    for i in 0..(REDLIST_SCAN_COUNT + 3) {
        list.insert(format!("user{}", i), if i % 2 == 0 { 100 } else { 900 });
    }
    store.redlist_add(5000, &list);

    let now = 5500;
    let mut scan = RedlistScan::new(0);
    let mut scans = 0;
    loop {
        let reply = store.redlist_scan(scan.cursor());
        scans += 1;
        let (next, again) = scan.absorb(now, &reply).unwrap();
        scan = next;
        if !again {
            break;
        }
    }
    assert_eq!(2, scans);
    assert!(scan.has_stale());
    let (cursor, seen) = scan.finish();
    assert_eq!(5000 + REDLIST_SCAN_COUNT as u64 + 3, cursor);
    // the members that expire at 5900
    assert_eq!((REDLIST_SCAN_COUNT + 3) / 2, seen.len());
    assert_eq!(Some(&5900), seen.get("user1"));
    assert_eq!(None, seen.get("user0"));
    assert_eq!(Some(&5900), seen.get("user10001"));

    // the next pass starts at the cursor and sees the last member once more
    let reply = store.redlist_scan(cursor);
    assert_eq!(vec!["15003", "user10002", "5100"], reply);
    let (scan, _) = RedlistScan::new(cursor).absorb(now, &reply).unwrap();
    assert_eq!(cursor + 1, scan.cursor());
    assert!(store.redlist_scan(scan.cursor()).is_empty());
}
