use std::time::{SystemTime, UNIX_EPOCH};

use redlimit::conf::Rule;
use redlimit::redlimit::{LimitArgs, RedRules, NS};
use redlimit::table::Table;

fn unix_ms() -> u64 {
    SystemTime::now()
        .duration_since(UNIX_EPOCH)
        .expect("the clock is set before 1970")
        .as_millis() as u64
}

fn rule(limit: Vec<u64>, paths: &[(&str, u64)]) -> Rule {
    let mut path = Table::new();
    for (p, q) in paths {
        path.insert(p.to_string(), *q);
    }
    Rule {
        limit,
        quantity: 0,
        path,
    }
}

fn sample_rules() -> Table<Rule> {
    let mut rules = Table::new();
    rules.insert("*".to_owned(), rule(vec![10, 10000, 3, 1000], &[]));
    rules.insert("-".to_owned(), rule(vec![3, 10000, 1, 1000], &[]));
    rules.insert(
        "core".to_owned(),
        rule(vec![100, 10000, 50, 2000], &[("GET /v1/file/list", 5)]),
    );
    rules.insert(
        "biz".to_owned(),
        rule(
            vec![100, 10000, 50, 2000],
            &[
                ("GET /v1/app/info", 1),
                ("GET /v2/app/info", 3),
                ("GET /v3/app/info", 10),
            ],
        ),
    );
    rules
}

#[test]
fn limit_args_works() {
    assert_eq!(LimitArgs(1, 0, 0, 0, 0), LimitArgs::new(1, &vec![]));
    assert_eq!(LimitArgs(2, 0, 0, 0, 0), LimitArgs::new(2, &vec![]));
    assert_eq!(LimitArgs(2, 0, 0, 0, 0), LimitArgs::new(2, &vec![100]));

    assert_eq!(
        LimitArgs(3, 100, 10000, 0, 0),
        LimitArgs::new(3, &vec![100, 10000])
    );

    assert_eq!(
        LimitArgs(3, 100, 10000, 10, 0),
        LimitArgs::new(3, &vec![100, 10000, 10])
    );

    assert_eq!(
        LimitArgs(1, 100, 10000, 50, 2000),
        LimitArgs::new(1, &vec![100, 10000, 50, 2000])
    );

    assert_eq!(
        LimitArgs(1, 0, 0, 0, 0),
        LimitArgs::new(1, &vec![100, 10000, 50, 2000, 1])
    );
}

#[test]
fn limit_args_validity() {
    assert!(LimitArgs(1, 8, 1000, 5, 300).is_valid());
    assert!(LimitArgs(8, 8, 60000, 0, 0).is_valid());
    assert!(LimitArgs(1, 1, 1, 1, 1).is_valid());
    // no quantity
    assert!(!LimitArgs(0, 8, 1000, 5, 300).is_valid());
    // more than the max count
    assert!(!LimitArgs(9, 8, 1000, 0, 0).is_valid());
    // no period, or one of more than a minute
    assert!(!LimitArgs(1, 8, 0, 0, 0).is_valid());
    assert!(!LimitArgs(1, 8, 60001, 0, 0).is_valid());
    // more than the max burst
    assert!(!LimitArgs(6, 8, 1000, 5, 300).is_valid());
    // a burst period longer than the period
    assert!(!LimitArgs(1, 8, 1000, 5, 1001).is_valid());
    assert!(LimitArgs(1, 8, 1000, 5, 1000).is_valid());
    // what a request without an id gets
    assert!(!LimitArgs::new(0, &vec![]).is_valid());
}

#[test]
fn ns_keys() {
    let ns = NS::new("myns".to_owned());
    assert_eq!("myns", ns.as_str());
    assert_eq!("user1", NS::redlist_key("user1"));
    assert_eq!(
        "core:GET /v1/file/list",
        NS::redrules_key("core", "GET /v1/file/list")
    );
    assert_eq!(":", NS::redrules_key("", ""));
    assert_eq!("myns:core:user1", ns.limiting_key("core", "user1"));
    assert_eq!("::", NS::new(String::new()).limiting_key("", ""));
}

#[test]
fn red_rules_works() {
    let rules = sample_rules();
    let mut redrules = RedRules::new("myns", &rules);

    {
        assert_eq!(&vec![3, 10000, 1, 1000], redrules.floor());

        assert_eq!(vec![10, 10000, 3, 1000], redrules.default_rule().limit);
        assert!(redrules.default_rule().path.is_empty());

        assert_eq!(0, redrules.redlist_cursor());

        let core_rules = redrules.rule("core").expect("'core' not exists");
        assert_eq!(vec![100, 10000, 50, 2000], core_rules.limit);
        assert_eq!(
            5,
            core_rules.path.get("GET /v1/file/list").unwrap().to_owned()
        );

        assert!(redrules.rule("core2").is_none());
    }

    {
        assert!(redrules.redlist(0).is_empty());
        assert!(redrules.redrules(0).is_empty());

        assert_eq!(
            LimitArgs(5, 100, 10000, 50, 2000),
            redrules.limit_args(0, "core", "GET /v1/file/list", "user1")
        );
        assert_eq!(
            LimitArgs(5, 100, 10000, 50, 2000),
            redrules.limit_args(0, "core", "GET /v1/file/list", "user2"),
            "any user"
        );

        assert_eq!(
            LimitArgs(1, 100, 10000, 50, 2000),
            redrules.limit_args(0, "core", "GET /v2/file/list", "user1"),
            "path not exists"
        );

        assert_eq!(
            LimitArgs(1, 10, 10000, 3, 1000),
            redrules.limit_args(0, "core2", "GET /v1/file/list", "user1"),
            "scope not exists"
        );

        assert_eq!(
            LimitArgs(1, 100, 10000, 50, 2000),
            redrules.limit_args(0, "biz", "GET /v1/app/info", "user1")
        );
        assert_eq!(
            LimitArgs(3, 100, 10000, 50, 2000),
            redrules.limit_args(0, "biz", "GET /v2/app/info", "user1")
        );
        assert_eq!(
            LimitArgs(10, 100, 10000, 50, 2000),
            redrules.limit_args(0, "biz", "GET /v3/app/info", "user1"),
            "any user"
        );
    }

    let ts = unix_ms();
    {
        let mut dyn_blacklist = Table::new();
        dyn_blacklist.insert("user1".to_owned(), ts + 1000);
        redrules.dyn_update(ts, 1, dyn_blacklist, Table::new());

        assert_eq!(1, redrules.redlist_cursor());

        assert_eq!(1, redrules.redlist(0).len());
        assert_eq!(1, redrules.redlist(ts + 999).len());
        assert!(redrules.redlist(ts + 1000).is_empty());
        assert!(redrules.redlist(ts + 1001).is_empty());
        assert!(redrules.redrules(0).is_empty());

        assert_eq!(
            LimitArgs(1, 3, 10000, 1, 1000),
            redrules.limit_args(0, "core", "GET /v1/file/list", "user1"),
            "limited by dyn_blacklist"
        );
        assert_eq!(
            LimitArgs(5, 100, 10000, 50, 2000),
            redrules.limit_args(0, "core", "GET /v1/file/list", "user2"),
            "not limited by dyn_blacklist"
        );
        assert_eq!(
            LimitArgs(1, 3, 10000, 1, 1000),
            redrules.limit_args(ts, "core", "GET /v1/file/list", "user1"),
            "limited by dyn_blacklist"
        );
        assert_eq!(
            LimitArgs(5, 100, 10000, 50, 2000),
            redrules.limit_args(ts + 1001, "core", "GET /v1/file/list", "user1"),
            "not limited by dyn_blacklist after ttl"
        );
    }

    {
        let mut dyn_rules = Table::new();
        dyn_rules.insert("core:GET /v1/file/list".to_owned(), (3, ts + 1000));
        dyn_rules.insert("core:GET /v2/file/list".to_owned(), (5, ts + 1000));
        redrules.dyn_update(ts, 2, Table::new(), dyn_rules);

        assert_eq!(2, redrules.redlist_cursor());

        assert_eq!(1, redrules.redlist(0).len());
        assert_eq!(2, redrules.redrules(0).len());
        assert_eq!(2, redrules.redrules(ts + 999).len());
        assert!(redrules.redrules(ts + 1000).is_empty());
        assert!(redrules.redrules(ts + 1001).is_empty());

        assert_eq!(
            LimitArgs(1, 3, 10000, 1, 1000),
            redrules.limit_args(0, "core", "GET /v1/file/list", "user1"),
            "limited by dyn_blacklist"
        );
        assert_eq!(
            LimitArgs(3, 100, 10000, 50, 2000),
            redrules.limit_args(0, "core", "GET /v1/file/list", "user2"),
            "limited by dyn_rules"
        );
        assert_eq!(
            LimitArgs(5, 100, 10000, 50, 2000),
            redrules.limit_args(0, "core", "GET /v2/file/list", "user2"),
            "limited by dyn_rules"
        );

        assert_eq!(
            LimitArgs(5, 100, 10000, 50, 2000),
            redrules.limit_args(ts + 1001, "core", "GET /v1/file/list", "user1"),
            "not limited by dyn_blacklist after ttl"
        );
        assert_eq!(
            LimitArgs(5, 100, 10000, 50, 2000),
            redrules.limit_args(ts + 1001, "core", "GET /v1/file/list", "user2"),
            "not limited by dyn_blacklist after ttl"
        );
        assert_eq!(
            LimitArgs(1, 100, 10000, 50, 2000),
            redrules.limit_args(ts + 1001, "core", "GET /v2/file/list", "user2"),
            "not limited by dyn_blacklist after ttl"
        );
    }

    {
        redrules.dyn_update(ts + 1001, ts, Table::new(), Table::new());

        assert_eq!(ts, redrules.redlist_cursor());

        assert!(redrules.redlist(0).is_empty(), "auto sweep stale rules");
        assert!(redrules.redrules(0).is_empty(), "auto sweep stale rules");

        let mut dyn_rules = Table::new();
        dyn_rules.insert("core:GET /v1/file/list".to_owned(), (3, ts + 1000)); // stale rules
        dyn_rules.insert("core:GET /v1/file/list".to_owned(), (5, ts + 1002));

        redrules.dyn_update(ts + 1001, ts + 1, Table::new(), dyn_rules);

        assert_eq!(ts + 1, redrules.redlist_cursor());

        assert!(redrules.redlist(0).is_empty());
        assert_eq!(
            1,
            redrules.redrules(0).len(),
            "stale rules should not be added"
        );
    }
}

#[test]
fn builtin_rules_without_configuration() {
    let redrules = RedRules::new("ns", &Table::new());
    assert_eq!("ns", redrules.ns.as_str());
    assert_eq!("ns", redrules.namespace().as_str());
    assert_eq!(&vec![2, 10000, 1, 1000], redrules.floor());
    assert_eq!(vec![5, 5000, 2, 1000], redrules.default_rule().limit);
    assert_eq!(1, redrules.default_rule().quantity);
    assert!(redrules.default_rule().path.is_empty());
    assert_eq!(
        LimitArgs(1, 5, 5000, 2, 1000),
        redrules.limit_args(7, "any", "GET /", "user1")
    );
}

#[test]
fn star_and_dash_are_no_scopes() {
    let redrules = RedRules::new("ns", &sample_rules());
    assert!(redrules.rule("*").is_none());
    assert!(redrules.rule("-").is_none());
    assert!(redrules.rule("biz").is_some());
    // a scope named "*" or "-" falls back like any scope without a rule
    assert_eq!(
        LimitArgs(1, 10, 10000, 3, 1000),
        redrules.limit_args(0, "-", "GET /", "user1")
    );
}

#[test]
fn request_without_id_is_not_limited() {
    let mut redrules = RedRules::new("ns", &sample_rules());
    assert_eq!(
        LimitArgs(0, 0, 0, 0, 0),
        redrules.limit_args(0, "core", "GET /v1/file/list", "")
    );
    // not even where the empty id is on the floor list
    let mut list = Table::new();
    list.insert(String::new(), 5000);
    redrules.dyn_update(1000, 1, list, Table::new());
    assert_eq!(1, redrules.redlist(2000).len());
    assert_eq!(
        LimitArgs(0, 0, 0, 0, 0),
        redrules.limit_args(2000, "core", "GET /v1/file/list", "")
    );
}

#[test]
fn rule_quantity_and_zero_costs() {
    let mut rules = Table::new();
    let mut path = Table::new();
    path.insert("GET /free".to_owned(), 0);
    path.insert("GET /dear".to_owned(), 7);
    rules.insert(
        "shop".to_owned(),
        Rule {
            limit: vec![20, 1000],
            quantity: 2,
            path,
        },
    );
    let redrules = RedRules::new("ns", &rules);
    assert_eq!(
        LimitArgs(7, 20, 1000, 0, 0),
        redrules.limit_args(0, "shop", "GET /dear", "u")
    );
    assert_eq!(
        LimitArgs(2, 20, 1000, 0, 0),
        redrules.limit_args(0, "shop", "GET /other", "u")
    );
    assert_eq!(
        LimitArgs(1, 20, 1000, 0, 0),
        redrules.limit_args(0, "shop", "GET /free", "u")
    );
}

#[test]
fn redlist_goes_before_redrules() {
    let mut redrules = RedRules::new("ns", &sample_rules());
    let now = 1_700_000_000_000;
    let mut list = Table::new();
    list.insert("u1".to_owned(), now + 60_000);
    let mut overrides = Table::new();
    overrides.insert(NS::redrules_key("core", "p"), (5, now + 60_000));
    redrules.dyn_update(now, 10, list, overrides);

    assert_eq!(
        LimitArgs(1, 3, 10000, 1, 1000),
        redrules.limit_args(now, "core", "p", "u1")
    );
    assert_eq!(
        LimitArgs(5, 100, 10000, 50, 2000),
        redrules.limit_args(now, "core", "p", "u2")
    );
    // the override belongs to its scope alone
    assert_eq!(
        LimitArgs(1, 100, 10000, 50, 2000),
        redrules.limit_args(now, "biz", "p", "u2")
    );
}

#[test]
fn an_entry_in_the_ms_of_its_expiry() {
    let mut redrules = RedRules::new("ns", &sample_rules());
    let mut list = Table::new();
    list.insert("u1".to_owned(), 2000);
    let mut overrides = Table::new();
    overrides.insert("core:p".to_owned(), (4, 2000));
    redrules.dyn_update(1000, 0, list, overrides);

    // a reader is shown it up to the ms before
    assert_eq!(Some(&2000), redrules.redlist(1999).get("u1"));
    assert!(redrules.redlist(2000).get("u1").is_none());
    assert!(redrules.redlist(2000).is_empty());
    assert!(redrules.redlist(2001).get("u1").is_none());
    assert_eq!(Some(&(4, 2000)), redrules.redrules(1999).get("core:p"));
    assert!(redrules.redrules(2000).get("core:p").is_none());
    assert!(redrules.redrules(2000).is_empty());
    assert!(redrules.redrules(2001).get("core:p").is_none());
    // a request is still held to it
    assert_eq!(
        LimitArgs(1, 3, 10000, 1, 1000),
        redrules.limit_args(2000, "core", "p", "u1")
    );
    assert_eq!(
        LimitArgs(4, 100, 10000, 50, 2000),
        redrules.limit_args(2000, "core", "p", "u2")
    );
    assert_eq!(
        LimitArgs(1, 100, 10000, 50, 2000),
        redrules.limit_args(2001, "core", "p", "u2")
    );
    assert_eq!(
        LimitArgs(1, 100, 10000, 50, 2000),
        redrules.limit_args(2001, "core", "p", "u1")
    );
}

#[test]
fn update_drops_what_has_expired_and_keeps_the_cursor_up() {
    let mut redrules = RedRules::new("ns", &Table::new());
    let mut list = Table::new();
    list.insert("gone".to_owned(), 1000); // expires in the ms of the update
    list.insert("stays".to_owned(), 1001);
    redrules.dyn_update(1000, 50, list, Table::new());
    assert_eq!(50, redrules.redlist_cursor());
    let seen = redrules.redlist(0);
    assert_eq!(1, seen.len());
    assert_eq!(Some(&1001), seen.get("stays"));

    // a smaller cursor does not take the cursor back
    let mut list = Table::new();
    list.insert("stays".to_owned(), 3000);
    list.insert("new".to_owned(), 1500);
    redrules.dyn_update(1000, 7, list, Table::new());
    assert_eq!(50, redrules.redlist_cursor());
    let seen = redrules.redlist(0);
    assert_eq!(2, seen.len());
    assert_eq!(Some(&3000), seen.get("stays"));
    assert_eq!(Some(&1500), seen.get("new"));

    // a later update drops what has expired by then
    redrules.dyn_update(1500, 51, Table::new(), Table::new());
    assert_eq!(51, redrules.redlist_cursor());
    let seen = redrules.redlist(0);
    assert_eq!(1, seen.len());
    assert_eq!(Some(&3000), seen.get("stays"));

    // at the largest time nothing lies ahead
    let mut list = Table::new();
    list.insert("last".to_owned(), u64::MAX);
    redrules.dyn_update(u64::MAX, 52, list, Table::new());
    assert!(redrules.redlist(0).is_empty());
}
