use isabelle_core::item::Item;
use isabelle_core::store::Store;
use isabelle_core::store::StoreError;
use isabelle_core::store::merge_database;
use isabelle_core::unset_id;

fn named(id: u64, name: &str) -> Item {
    let mut itm = Item::new();
    itm.id = id;
    itm.set_str("name", name);
    itm
}

#[test]
fn unknown_collection_is_a_caller_visible_error() {
    let mut store = Store::new();
    assert!(!store.has_collection("user"));
    let res = store.get_items("user", u64::MAX, u64::MAX, "", "", u64::MAX, u64::MAX);
    assert!(matches!(res, Err(StoreError::NoCollection)));
    let res = store.set_item("user", &Item::new(), false);
    assert!(matches!(res, Err(StoreError::NoCollection)));
    assert!(store.get_item("user", 1).is_none());
    assert_eq!(store.get_item_ids("user").len(), 0);
    assert!(!store.del_item("user", 1));
}

#[test]
fn store_level_id_allocation_scenario() {
    // P8: create with unset ID in an empty "user" collection, the ID is 1;
    // delete it; create again: the ID is 2, never 1 again.
    let mut store = Store::new();
    assert!(store.add_collection("user"));
    let first = store.set_item("user", &named(unset_id(), "a"), false).unwrap();
    assert_eq!(first, 1);
    assert!(store.del_item("user", first));
    let second = store.set_item("user", &named(unset_id(), "b"), false).unwrap();
    assert_eq!(second, 2);
    assert!(store.get_item("user", 1).is_none());
    assert_eq!(store.get_item("user", 2).unwrap().safe_str("name", ""), "b");
}

#[test]
fn set_item_round_trip_through_store() {
    // P3 at the store level: what set_item wrote, get_item returns.
    let mut store = Store::new();
    store.add_collection("doc");
    let mut rec = named(12, "document");
    rec.set_u64("size", 345);
    rec.set_bool("done", true);
    store.set_item("doc", &rec, false).unwrap();
    let back = store.get_item("doc", 12).unwrap();
    assert_eq!(back.id, 12);
    assert_eq!(back.safe_str("name", ""), "document");
    assert_eq!(back.safe_u64("size", 0), 345);
    assert_eq!(back.safe_bool("done", false), true);
}

#[test]
fn set_item_merge_fetches_before_writing() {
    let mut store = Store::new();
    store.add_collection("doc");
    store.set_item("doc", &named(1, "original"), false).unwrap();
    let mut patch = Item::new();
    patch.id = 1;
    patch.set_str("extra", "added");
    store.set_item("doc", &patch, true).unwrap();
    let got = store.get_item("doc", 1).unwrap();
    assert_eq!(got.safe_str("name", ""), "original");
    assert_eq!(got.safe_str("extra", ""), "added");
}

#[test]
fn explicit_id_advances_the_counter() {
    let mut store = Store::new();
    store.add_collection("doc");
    store.set_item("doc", &named(10, "x"), false).unwrap();
    let next = store.set_item("doc", &named(unset_id(), "y"), false).unwrap();
    assert_eq!(next, 11);
}

fn paged(store: &Store, skip: u64, limit: u64) -> (Vec<u64>, u64) {
    let lr = store.get_items("doc", u64::MAX, u64::MAX, "", "", skip, limit).unwrap();
    (lr.items.iter().map(|it| it.id).collect(), lr.total_count)
}

#[test]
fn pagination_pages_partition_the_match_set() {
    // P4: walking skip in limit-sized steps recovers the unpaginated set,
    // and every page reports the same total.
    let mut store = Store::new();
    store.add_collection("doc");
    for i in 1..=5u64 {
        store.set_item("doc", &named(i, "r"), false).unwrap();
    }
    let (all, total) = paged(&store, u64::MAX, u64::MAX);
    assert_eq!(all, vec![1, 2, 3, 4, 5]);
    assert_eq!(total, 5);
    let mut walked: Vec<u64> = Vec::new();
    for page in 0..3u64 {
        let (ids, t) = paged(&store, page * 2, 2);
        assert_eq!(t, 5);
        walked.extend(ids);
    }
    assert_eq!(walked, all);
    let (beyond, t) = paged(&store, 10, 2);
    assert_eq!(beyond.len(), 0);
    assert_eq!(t, 5);
}

#[test]
fn range_bounds_and_sentinels() {
    let mut store = Store::new();
    store.add_collection("doc");
    for i in [2u64, 4, 6, 8] {
        store.set_item("doc", &named(i, "r"), false).unwrap();
    }
    let lr = store.get_items("doc", 4, 6, "", "", u64::MAX, u64::MAX).unwrap();
    let ids: Vec<u64> = lr.items.iter().map(|it| it.id).collect();
    assert_eq!(ids, vec![4, 6]);
    assert_eq!(lr.total_count, 2);
    // An unset lower bound means zero; an unset skip means none.
    let lr = store.get_items("doc", u64::MAX, 4, "", "", u64::MAX, u64::MAX).unwrap();
    let ids: Vec<u64> = lr.items.iter().map(|it| it.id).collect();
    assert_eq!(ids, vec![2, 4]);
}

#[test]
fn filter_and_sort_key_are_a_documented_no_op() {
    // The directory-backed store accepts the backend-native filter but does
    // not apply it: the same query with and without a filter agrees.
    let mut store = Store::new();
    store.add_collection("doc");
    for i in 1..=3u64 {
        store.set_item("doc", &named(i, "r"), false).unwrap();
    }
    let plain = store.get_items("doc", u64::MAX, u64::MAX, "", "", u64::MAX, u64::MAX).unwrap();
    let filtered = store.get_items(
        "doc",
        u64::MAX,
        u64::MAX,
        "name",
        "{ \"name\": \"never\" }",
        u64::MAX,
        u64::MAX,
    ).unwrap();
    assert_eq!(plain.items.len(), filtered.items.len());
    assert_eq!(plain.total_count, filtered.total_count);
}

#[test]
fn get_all_items_is_the_full_range() {
    let mut store = Store::new();
    store.add_collection("doc");
    for i in [3u64, 1] {
        store.set_item("doc", &named(i, "r"), false).unwrap();
    }
    let lr = store.get_all_items("doc", "id", "").unwrap();
    let ids: Vec<u64> = lr.items.iter().map(|it| it.id).collect();
    assert_eq!(ids, vec![1, 3]);
    assert_eq!(lr.total_count, 2);
}

#[test]
fn collections_and_ids_are_reported() {
    let mut store = Store::new();
    store.add_collection("user");
    store.add_collection("doc");
    assert!(!store.add_collection("user"));
    let mut names = store.get_collections();
    names.sort();
    assert_eq!(names, vec![String::from("doc"), String::from("user")]);
    store.set_item("doc", &named(4, "a"), false).unwrap();
    store.set_item("doc", &named(2, "b"), false).unwrap();
    assert_eq!(store.get_item_ids("doc"), vec![2, 4]);
}

#[test]
fn settings_and_internals_are_singletons() {
    let mut store = Store::new();
    let mut s = Item::new();
    s.set_str("site_name", "demo");
    store.set_settings(s);
    assert_eq!(store.get_settings().safe_str("site_name", ""), "demo");
    assert_eq!(store.get_internals().safe_str("anything", "none"), "none");
}

#[test]
fn artifact_paths_hang_off_the_root() {
    let mut store = Store::new();
    store.path = String::from("/data");
    assert_eq!(store.get_credentials(), "/data/credentials.json");
    assert_eq!(store.get_pickle(), "/data/token.pickle");
}

#[test]
fn raised_counter_is_honored_and_never_lowered() {
    let mut store = Store::new();
    store.add_collection("doc");
    store.set_item("doc", &named(3, "r"), false).unwrap();
    // A persisted counter ahead of the largest live ID is kept...
    assert!(store.raise_count("doc", 7));
    let next = store.set_item("doc", &named(unset_id(), "s"), false).unwrap();
    assert_eq!(next, 8);
    // ...and one behind never lowers it.
    assert!(store.raise_count("doc", 2));
    let next = store.set_item("doc", &named(unset_id(), "t"), false).unwrap();
    assert_eq!(next, 9);
    assert!(!store.raise_count("nowhere", 5));
}

#[test]
fn merge_database_copies_and_overlays() {
    let mut src = Store::new();
    src.add_collection("doc");
    src.set_item("doc", &named(1, "from_src"), false).unwrap();
    src.set_item("doc", &named(3, "only_src"), false).unwrap();
    let mut dst = Store::new();
    dst.add_collection("doc");
    dst.add_collection("keepme");
    dst.set_item("doc", &named(1, "stale"), false).unwrap();
    dst.set_item("doc", &named(2, "only_dst"), false).unwrap();
    dst.set_item("keepme", &named(9, "untouched"), false).unwrap();
    merge_database(&src, &mut dst);
    assert_eq!(dst.get_item("doc", 1).unwrap().safe_str("name", ""), "from_src");
    assert_eq!(dst.get_item("doc", 2).unwrap().safe_str("name", ""), "only_dst");
    assert_eq!(dst.get_item("doc", 3).unwrap().safe_str("name", ""), "only_src");
    assert_eq!(dst.get_item("keepme", 9).unwrap().safe_str("name", ""), "untouched");
}
