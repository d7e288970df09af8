use isabelle_core::collection::Collection;
use isabelle_core::item::Dict;
use isabelle_core::item::Item;
use isabelle_core::item::UNSET_ID;

fn record(pairs: &[(&str, &str)]) -> Item {
    let mut itm = Item::new();
    for (k, v) in pairs {
        itm.set_str(k, v);
    }
    itm
}

#[test]
fn new_item_has_unset_id_and_defaults() {
    let itm = Item::new();
    assert_eq!(itm.id, u64::MAX);
    assert_eq!(itm.id, UNSET_ID);
    assert_eq!(itm.safe_str("anything", "fallback"), "fallback");
    assert_eq!(itm.safe_u64("n", 17), 17);
    assert_eq!(itm.safe_bool("b", true), true);
    assert_eq!(itm.safe_id("ref", 5), 5);
}

#[test]
fn typed_maps_are_independent() {
    let mut itm = Item::new();
    itm.set_str("x", "text");
    itm.set_u64("x", 7);
    itm.set_bool("x", true);
    itm.set_id("x", 9);
    assert_eq!(itm.safe_str("x", ""), "text");
    assert_eq!(itm.safe_u64("x", 0), 7);
    assert_eq!(itm.safe_bool("x", false), true);
    assert_eq!(itm.safe_id("x", 0), 9);
}

#[test]
fn set_overwrites_existing_key() {
    let mut itm = Item::new();
    itm.set_str("k", "first");
    itm.set_str("k", "second");
    assert_eq!(itm.safe_str("k", ""), "second");
}

#[test]
fn merge_keeps_target_only_keys_and_takes_incoming_values() {
    // P2, concretely: keys only in A unchanged, keys in B take B's value.
    let mut a = record(&[("only_a", "va"), ("shared", "old")]);
    a.set_u64("num_a", 1);
    let mut b = record(&[("shared", "new"), ("only_b", "vb")]);
    b.set_u64("num_b", 2);
    a.merge(&b);
    assert_eq!(a.safe_str("only_a", ""), "va");
    assert_eq!(a.safe_str("shared", ""), "new");
    assert_eq!(a.safe_str("only_b", ""), "vb");
    assert_eq!(a.safe_u64("num_a", 0), 1);
    assert_eq!(a.safe_u64("num_b", 0), 2);
}

#[test]
fn merge_is_idempotent() {
    // P2: merge(merge(A,B), B) leaves the same attributes as merge(A,B).
    let mut once = record(&[("a", "1"), ("s", "x")]);
    let b = record(&[("s", "y"), ("b", "2")]);
    once.merge(&b);
    let mut twice = once.dup();
    twice.merge(&b);
    for key in ["a", "s", "b"] {
        assert_eq!(once.safe_str(key, "<gone>"), twice.safe_str(key, "<gone>"));
    }
    assert_eq!(once.safe_str("s", ""), "y");
}

#[test]
fn merge_keeps_target_id() {
    let mut a = Item::new();
    a.id = 4;
    let mut b = Item::new();
    b.id = 9;
    b.set_str("k", "v");
    a.merge(&b);
    assert_eq!(a.id, 4);
}

#[test]
fn nested_string_maps_round_trip() {
    let mut inner: Dict<String, String> = Dict::new();
    inner.insert(String::from("alpha"), String::from("1"));
    inner.insert(String::from("beta"), String::from("2"));
    let mut itm = Item::new();
    itm.set_strstr("bindings", &inner);
    let empty: Dict<String, String> = Dict::new();
    let back = itm.safe_strstr("bindings", &empty);
    assert_eq!(back.get(&String::from("alpha")).unwrap(), "1");
    assert_eq!(back.get(&String::from("beta")).unwrap(), "2");
    assert!(back.get(&String::from("gamma")).is_none());
    let miss = itm.safe_strstr("absent", &empty);
    assert!(miss.get(&String::from("alpha")).is_none());
}

#[test]
fn id_keyed_boolean_maps_round_trip() {
    let mut inner: Dict<u64, bool> = Dict::new();
    inner.insert(41, true);
    inner.insert(42, false);
    let mut itm = Item::new();
    itm.set_idbools("participants", &inner);
    let empty: Dict<u64, bool> = Dict::new();
    let back = itm.safe_idbools("participants", &empty);
    assert_eq!(*back.get(&41).unwrap(), true);
    assert_eq!(*back.get(&42).unwrap(), false);
    assert!(back.get(&43).is_none());
}

#[test]
fn dup_is_a_deep_copy() {
    let mut itm = record(&[("k", "v")]);
    itm.id = 3;
    let copy = itm.dup();
    itm.set_str("k", "changed");
    assert_eq!(copy.id, 3);
    assert_eq!(copy.safe_str("k", ""), "v");
}

#[test]
fn collection_set_and_get_round_trip() {
    // P3, concretely, on the in-memory collection.
    let mut c = Collection::new();
    let written = record(&[("name", "thing")]);
    let id = c.set(7, written, false);
    assert_eq!(id, 7);
    let back = c.get(7).expect("the record must be there");
    assert_eq!(back.id, 7);
    assert_eq!(back.safe_str("name", ""), "thing");
    assert!(c.get(8).is_none());
}

#[test]
fn collection_merge_write() {
    let mut c = Collection::new();
    c.set(1, record(&[("a", "1"), ("s", "old")]), false);
    c.set(1, record(&[("s", "new")]), true);
    let got = c.get(1).unwrap();
    assert_eq!(got.safe_str("a", ""), "1");
    assert_eq!(got.safe_str("s", ""), "new");
    // An overwrite (merge = false) drops the old attributes instead.
    c.set(1, record(&[("fresh", "x")]), false);
    let got = c.get(1).unwrap();
    assert_eq!(got.safe_str("a", "<gone>"), "<gone>");
    assert_eq!(got.safe_str("fresh", ""), "x");
}

#[test]
fn collection_allocates_and_never_reuses_ids() {
    // P1/P8 on the collection: unset-ID writes get 1, then 2, even after a
    // deletion in between.
    let mut c = Collection::new();
    let first = c.set(u64::MAX, record(&[("n", "a")]), false);
    assert_eq!(first, 1);
    assert!(c.count >= 1);
    assert!(c.del(first));
    let second = c.set(u64::MAX, record(&[("n", "b")]), false);
    assert_eq!(second, 2);
    assert!(c.get(1).is_none());
}

#[test]
fn collection_del_only_removes_live_records() {
    let mut c = Collection::new();
    c.set(3, record(&[]), false);
    assert!(!c.del(4));
    assert!(!c.del(u64::MAX));
    assert!(c.del(3));
    assert!(!c.del(3));
    assert_eq!(c.get_all().len(), 0);
}

#[test]
fn collection_get_range_is_ascending_and_limited() {
    let mut c = Collection::new();
    for i in [5u64, 1, 9, 3, 7] {
        c.set(i, record(&[]), false);
    }
    let all = c.get_range(u64::MAX, u64::MAX, u64::MAX);
    let ids: Vec<u64> = all.iter().map(|it| it.id).collect();
    assert_eq!(ids, vec![1, 3, 5, 7, 9]);
    let bounded = c.get_range(3, 7, u64::MAX);
    let ids: Vec<u64> = bounded.iter().map(|it| it.id).collect();
    assert_eq!(ids, vec![3, 5, 7]);
    let limited = c.get_range(u64::MAX, u64::MAX, 2);
    let ids: Vec<u64> = limited.iter().map(|it| it.id).collect();
    assert_eq!(ids, vec![1, 3]);
}
