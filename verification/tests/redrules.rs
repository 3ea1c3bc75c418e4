use redlimit::redrules::Redrules;
use redlimit::sync::RedrulesLoad;

fn tuple(scope: &str, path: &str, quantity: u64, expiry: u64) -> (String, String, u64, u64) {
    (scope.to_owned(), path.to_owned(), quantity, expiry)
}

#[test]
fn overrides_are_stored_and_replaced() {
    let mut store = Redrules::new();
    assert!(store.redrules_all().is_empty());

    assert_eq!(1, store.redrules_add(1000, "core", "path1", 2, 100));
    assert_eq!(1, store.redrules_add(1000, "core2", "path1", 2, 100));
    assert_eq!(
        vec![tuple("core", "path1", 2, 1100), tuple("core2", "path1", 2, 1100)],
        store.redrules_all()
    );

    // the same scope and path again: stored in place
    assert_eq!(0, store.redrules_add(1050, "core", "path1", 7, 500));
    assert_eq!(
        vec![tuple("core", "path1", 7, 1550), tuple("core2", "path1", 2, 1100)],
        store.redrules_all()
    );
}

#[test]
fn overrides_are_swept_on_every_addition() {
    let mut store = Redrules::new();
    store.redrules_add(1000, "a", "p", 1, 10);
    store.redrules_add(1000, "b", "p", 2, 20);
    store.redrules_add(1000, "c", "p", 3, 30);

    // an addition of nothing sweeps nothing that expires now or later
    store.redrules_sweep(1010);
    assert_eq!(3, store.redrules_all().len());
    store.redrules_sweep(1011);
    assert_eq!(
        vec![tuple("b", "p", 2, 1020), tuple("c", "p", 3, 1030)],
        store.redrules_all()
    );
    // an id that was swept is new again
    assert_eq!(1, store.redrules_add(1025, "a", "p", 9, 5));
    assert_eq!(
        vec![tuple("c", "p", 3, 1030), tuple("a", "p", 9, 1030)],
        store.redrules_all()
    );
}

#[test]
fn override_ids_are_scope_and_path_in_a_row() {
    let mut store = Redrules::new();
    assert_eq!(1, store.redrules_add(1000, "ab", "c", 1, 100));
    // another scope and path, the same id
    assert_eq!(0, store.redrules_add(1000, "a", "bc", 2, 100));
    assert_eq!(vec![tuple("a", "bc", 2, 1100)], store.redrules_all());
    assert_eq!(1, store.redrules_add(1000, "a", "b", 3, 100));
    assert_eq!(2, store.redrules_all().len());
}

#[test]
fn override_expiry_stays_within_64_bits() {
    let mut store = Redrules::new();
    store.redrules_add(u64::MAX - 1, "a", "p", 1, 10);
    assert_eq!(vec![tuple("a", "p", 1, u64::MAX)], store.redrules_all());
}

#[test]
fn reader_takes_in_what_the_store_holds() {
    let mut store = Redrules::new();
    store.redrules_add(1000, "core", "GET /v1", 3, 100);
    store.redrules_add(1000, "core", "GET /v2", 5, 1000);
    store.redrules_add(1000, "biz", "GET /v1", 7, 1000);

    // the reader comes at 1100, before any sweep
    let mut load = RedrulesLoad::new();
    for entry in store.redrules_all() {
        load.absorb_entry(1100, Some(entry));
    }
    assert!(load.has_stale());
    let rules = load.finish();
    assert_eq!(2, rules.len());
    assert_eq!(None, rules.get("core:GET /v1"));
    assert_eq!(Some(&(5, 2000)), rules.get("core:GET /v2"));
    assert_eq!(Some(&(7, 2000)), rules.get("biz:GET /v1"));

    // the sweep that the reader asks for
    store.redrules_sweep(1101);
    assert_eq!(2, store.redrules_all().len());
}
