use isabelle_core::hooks::DataObjectAction;
use isabelle_core::hooks::Plugin;
use isabelle_core::hooks::auth_combine;
use isabelle_core::hooks::ProcessResult;
use isabelle_core::hooks::WebResponse;
use isabelle_core::hooks::call_otp_hook;
use isabelle_core::hooks::call_periodic_job_hook;
use isabelle_core::hooks::call_url_post_route;
use isabelle_core::hooks::call_url_route;
use isabelle_core::hooks::call_url_unprotected_route;
use isabelle_core::hooks::filter_items_by_owner;
use isabelle_core::item::Dict;
use isabelle_core::item::Item;
use isabelle_core::itm::ItmDelOutcome;
use isabelle_core::itm::ItmEditOutcome;
use isabelle_core::itm::ItmListOutcome;
use isabelle_core::itm::ListQuery;
use isabelle_core::itm::combine_filters;
use isabelle_core::itm::itm_del;
use isabelle_core::itm::itm_edit;
use isabelle_core::itm::itm_list;
use isabelle_core::maintenance::init_checks;
use isabelle_core::maintenance::sweep_record;
use isabelle_core::security::security_collection_read_hook;
use isabelle_core::store::Store;
use std::cell::Cell;

struct TestPlugin {
    deny_collection: Option<String>,
    reject_message: Option<String>,
    stamp: Option<(String, String)>,
    owner_filter: Option<u64>,
    inject_foreign: bool,
    salt_upgrade: bool,
    route_data: Option<String>,
    upgrades: Cell<usize>,
    otp_seen: Cell<usize>,
    periodic_seen: Cell<usize>,
    post_seen: Cell<usize>,
}

fn quiet() -> TestPlugin {
    TestPlugin {
        deny_collection: None,
        reject_message: None,
        stamp: None,
        owner_filter: None,
        inject_foreign: false,
        salt_upgrade: false,
        route_data: None,
        upgrades: Cell::new(0),
        otp_seen: Cell::new(0),
        periodic_seen: Cell::new(0),
        post_seen: Cell::new(0),
    }
}

impl Plugin for TestPlugin {
    fn item_auth_hook(
        &self,
        _hndl: &str,
        _user: &Option<Item>,
        collection: &str,
        _id: u64,
        _new_item: &Option<Item>,
        _del: bool,
    ) -> bool {
        match &self.deny_collection {
            Some(denied) => denied != collection,
            None => true,
        }
    }

    fn item_pre_edit_hook(
        &self,
        _hndl: &str,
        _user: &Option<Item>,
        _collection: &str,
        _old_itm: &Option<Item>,
        itm: &mut Item,
        _action: DataObjectAction,
        _merge: bool,
    ) -> ProcessResult {
        if let Some(msg) = &self.reject_message {
            return ProcessResult { succeeded: false, error: msg.clone() };
        }
        if let Some((k, v)) = &self.stamp {
            itm.set_str(k, v);
        }
        ProcessResult { succeeded: true, error: String::new() }
    }

    fn item_post_edit_hook(
        &self,
        _hndl: &str,
        _collection: &str,
        _old_itm: &Option<Item>,
        _id: u64,
        _action: DataObjectAction,
    ) {
        self.post_seen.set(self.post_seen.get() + 1);
    }

    fn item_list_filter_hook(
        &self,
        _hndl: &str,
        _user: &Option<Item>,
        _collection: &str,
        _context: &str,
        items: &mut Vec<Item>,
    ) {
        if let Some(uid) = self.owner_filter {
            *items = filter_items_by_owner(items, "user", uid);
        }
        if self.inject_foreign {
            let mut rogue = Item::new();
            rogue.id = 999;
            rogue.set_str("name", "rogue");
            items.push(rogue);
        }
    }

    fn item_list_db_filter_hook(
        &self,
        _hndl: &str,
        _user: &Option<Item>,
        _collection: &str,
        _context: &str,
        _filter_type: &str,
    ) -> String {
        String::new()
    }

    fn collection_read_hook(&self, _hndl: &str, collection: &str, itm: &mut Item) -> bool {
        if self.salt_upgrade {
            let changed = security_collection_read_hook(collection, itm);
            if changed {
                self.upgrades.set(self.upgrades.get() + 1);
            }
            changed
        } else {
            false
        }
    }

    fn route_url_hook(&self, _hndl: &str, _user: &Option<Item>, _query: &str) -> WebResponse {
        match &self.route_data {
            Some(text) => WebResponse::OkData(text.clone()),
            None => WebResponse::NotImplemented,
        }
    }

    fn route_url_post_hook(
        &self,
        _hndl: &str,
        _user: &Option<Item>,
        _query: &str,
        _post_itm: &Item,
    ) -> WebResponse {
        match &self.route_data {
            Some(text) => WebResponse::OkData(text.clone()),
            None => WebResponse::NotImplemented,
        }
    }

    fn route_unprotected_url_hook(
        &self,
        _hndl: &str,
        _user: &Option<Item>,
        _query: &str,
    ) -> WebResponse {
        match &self.route_data {
            Some(text) => WebResponse::OkData(text.clone()),
            None => WebResponse::NotImplemented,
        }
    }

    fn route_unprotected_url_post_hook(
        &self,
        _hndl: &str,
        _user: &Option<Item>,
        _query: &str,
        _post_itm: &Item,
    ) -> WebResponse {
        match &self.route_data {
            Some(text) => WebResponse::OkData(text.clone()),
            None => WebResponse::NotImplemented,
        }
    }

    fn call_otp_hook(&self, _hndl: &str, _itm: &Item) {
        self.otp_seen.set(self.otp_seen.get() + 1);
    }

    fn call_periodic_job_hook(&self, _timing: &str) {
        self.periodic_seen.set(self.periodic_seen.get() + 1);
    }
}

fn bind(internals: &mut Item, kind: &str, coll: &str, hndl: &str) {
    let empty: Dict<String, String> = Dict::new();
    let mut d = internals.safe_strstr(kind, &empty);
    d.insert(String::from(coll), String::from(hndl));
    internals.set_strstr(kind, &d);
}

fn owned_record(id: u64, owner: u64) -> Item {
    let mut itm = Item::new();
    itm.id = id;
    itm.set_id("user", owner);
    itm.set_str("name", "rec");
    itm
}

#[test]
fn auth_veto_scenario() {
    // P5: of two registered extensions one vetoes writes to "job"; the
    // write is rejected although the other extension would allow it.
    let mut store = Store::new();
    store.add_collection("job");
    let mut internals = Item::new();
    bind(&mut internals, "itm_auth_hook", "job", "guard");
    store.internals = internals;
    let permissive = quiet();
    let mut vetoing = quiet();
    vetoing.deny_collection = Some(String::from("job"));
    let plugins = vec![permissive, vetoing];
    let mut rec = Item::new();
    rec.id = 5;
    let r = itm_edit(&mut store, &plugins, &None, "job", rec, false);
    assert!(matches!(r, ItmEditOutcome::Forbidden));
    assert!(store.get_item("job", 5).is_none());
    // With only the permissive extension the same write goes through.
    let solo = vec![quiet()];
    let mut rec = Item::new();
    rec.id = 5;
    let r = itm_edit(&mut store, &solo, &None, "job", rec, false);
    assert!(matches!(r, ItmEditOutcome::Saved(5)));
    assert!(store.get_item("job", 5).is_some());
}

#[test]
fn edit_without_binding_is_a_plain_write() {
    let mut store = Store::new();
    store.add_collection("doc");
    let plugins: Vec<TestPlugin> = vec![];
    let mut rec = Item::new();
    rec.set_str("name", "x");
    let r = itm_edit(&mut store, &plugins, &None, "doc", rec, false);
    assert!(matches!(r, ItmEditOutcome::Saved(1)));
    let r = itm_edit(&mut store, &plugins, &None, "nowhere", Item::new(), false);
    assert!(matches!(r, ItmEditOutcome::NoCollection));
}

#[test]
fn pre_edit_rejection_aborts_with_its_reason() {
    let mut store = Store::new();
    store.add_collection("doc");
    let mut internals = Item::new();
    bind(&mut internals, "item_pre_edit_hook", "doc", "checker");
    store.internals = internals;
    let mut rejecting = quiet();
    rejecting.reject_message = Some(String::from("value out of range"));
    let plugins = vec![rejecting];
    let mut rec = Item::new();
    rec.id = 1;
    match itm_edit(&mut store, &plugins, &None, "doc", rec, false) {
        ItmEditOutcome::Rejected(res) => {
            assert!(!res.succeeded);
            assert_eq!(res.error, "value out of range");
        },
        _ => panic!("the pre-edit rejection must abort the write"),
    }
    assert!(store.get_item("doc", 1).is_none());
}

#[test]
fn pre_edit_not_applicable_sentinel_is_skipped() {
    let mut store = Store::new();
    store.add_collection("doc");
    let mut internals = Item::new();
    bind(&mut internals, "item_pre_edit_hook", "doc", "checker");
    store.internals = internals;
    let mut sentinel = quiet();
    sentinel.reject_message = Some(String::from("not implemented"));
    let plugins = vec![sentinel];
    let mut rec = Item::new();
    rec.id = 2;
    let r = itm_edit(&mut store, &plugins, &None, "doc", rec, false);
    assert!(matches!(r, ItmEditOutcome::Saved(2)));
}

#[test]
fn pre_edit_hook_amends_the_record_before_the_write() {
    let mut store = Store::new();
    store.add_collection("doc");
    let mut internals = Item::new();
    bind(&mut internals, "item_pre_edit_hook", "doc", "marker");
    bind(&mut internals, "item_post_edit_hook", "doc", "notify");
    store.internals = internals;
    let mut stamping = quiet();
    stamping.stamp = Some((String::from("derived"), String::from("yes")));
    let plugins = vec![stamping];
    let mut rec = Item::new();
    rec.id = 3;
    let r = itm_edit(&mut store, &plugins, &None, "doc", rec, false);
    assert!(matches!(r, ItmEditOutcome::Saved(3)));
    assert_eq!(store.get_item("doc", 3).unwrap().safe_str("derived", ""), "yes");
    assert_eq!(plugins[0].post_seen.get(), 1);
}

#[test]
fn delete_pipeline() {
    let mut store = Store::new();
    store.add_collection("doc");
    let plugins: Vec<TestPlugin> = vec![];
    let mut rec = Item::new();
    rec.id = 4;
    itm_edit(&mut store, &plugins, &None, "doc", rec, false);
    let r = itm_del(&mut store, &plugins, &None, "doc", 4);
    assert!(matches!(r, ItmDelOutcome::Deleted(true)));
    let r = itm_del(&mut store, &plugins, &None, "doc", 4);
    assert!(matches!(r, ItmDelOutcome::Deleted(false)));
    let r = itm_del(&mut store, &plugins, &None, "nowhere", 4);
    assert!(matches!(r, ItmDelOutcome::NoCollection));
}

fn listing(store: &Store, plugins: &Vec<TestPlugin>, user: &Option<Item>, coll: &str) -> Vec<u64> {
    let lq = ListQuery {
        collection: String::from(coll),
        context: String::new(),
        id: u64::MAX,
        id_min: 0,
        id_max: u64::MAX,
        sort_key: String::new(),
        filter: String::new(),
        skip: u64::MAX,
        limit: u64::MAX,
        id_list: Vec::new(),
    };
    match itm_list(store, plugins, user, &lq) {
        ItmListOutcome::Listed(lr) => lr.items.iter().map(|it| it.id).collect(),
        _ => panic!("the listing must succeed"),
    }
}

#[test]
fn list_filter_narrows_to_the_requesting_user() {
    // P6: with an owner filter registered, listing as user 7 never shows a
    // record owned by anyone else, whatever the input.
    let mut store = Store::new();
    store.add_collection("doc");
    for (id, owner) in [(1u64, 7u64), (2, 8), (3, 7), (4, 9)] {
        store.set_item("doc", &owned_record(id, owner), false).unwrap();
    }
    let mut internals = Item::new();
    bind(&mut internals, "itm_list_filter_hook", "doc", "owner");
    store.internals = internals;
    let mut filtering = quiet();
    filtering.owner_filter = Some(7);
    let plugins = vec![filtering];
    let me = Some(owned_record(7, 7));
    let visible = listing(&store, &plugins, &me, "doc");
    assert_eq!(visible, vec![1, 3]);
}

#[test]
fn list_filter_cannot_add_records() {
    // The dispatcher re-imposes the narrowing: a hook that injects a record
    // that was never in the list does not make it visible.
    let mut store = Store::new();
    store.add_collection("doc");
    store.set_item("doc", &owned_record(1, 7), false).unwrap();
    let mut internals = Item::new();
    bind(&mut internals, "itm_list_filter_hook", "doc", "rogue");
    store.internals = internals;
    let mut injecting = quiet();
    injecting.inject_foreign = true;
    let plugins = vec![injecting];
    let visible = listing(&store, &plugins, &None, "doc");
    assert_eq!(visible, vec![1]);
}

#[test]
fn filter_items_by_owner_alone() {
    let items = vec![owned_record(1, 7), owned_record(2, 8), owned_record(3, 7)];
    let kept = filter_items_by_owner(&items, "user", 7);
    let ids: Vec<u64> = kept.iter().map(|it| it.id).collect();
    assert_eq!(ids, vec![1, 3]);
    for it in &kept {
        assert_eq!(it.safe_id("user", u64::MAX), 7);
    }
}

#[test]
fn list_single_id_and_id_list_forms() {
    let mut store = Store::new();
    store.add_collection("doc");
    for i in 1..=3u64 {
        store.set_item("doc", &owned_record(i, i), false).unwrap();
    }
    let plugins: Vec<TestPlugin> = vec![];
    let mut lq = ListQuery {
        collection: String::from("doc"),
        context: String::new(),
        id: 2,
        id_min: u64::MAX,
        id_max: u64::MAX,
        sort_key: String::new(),
        filter: String::new(),
        skip: u64::MAX,
        limit: u64::MAX,
        id_list: Vec::new(),
    };
    match itm_list(&store, &plugins, &None, &lq) {
        ItmListOutcome::Listed(lr) => {
            assert_eq!(lr.total_count, 1);
            assert_eq!(lr.items[0].id, 2);
        },
        _ => panic!("a live single record must list"),
    }
    lq.id = 9;
    assert!(matches!(itm_list(&store, &plugins, &None, &lq), ItmListOutcome::BadId));
    lq.id = u64::MAX;
    lq.id_list = vec![3, 1, 9];
    match itm_list(&store, &plugins, &None, &lq) {
        ItmListOutcome::Listed(lr) => {
            let ids: Vec<u64> = lr.items.iter().map(|it| it.id).collect();
            assert_eq!(ids, vec![3, 1]);
            assert_eq!(lr.total_count, 2);
        },
        _ => panic!("the ID-list form must list"),
    }
    lq.collection = String::from("nowhere");
    assert!(matches!(itm_list(&store, &plugins, &None, &lq), ItmListOutcome::NoCollection));
}

#[test]
fn maintenance_sweep_is_idempotent() {
    // P7: the second run of the sweep upgrades nothing further.
    let mut store = Store::new();
    store.add_collection("user");
    for i in 1..=2u64 {
        let mut u = Item::new();
        u.id = i;
        u.set_str("password", "plaintext");
        store.set_item("user", &u, false).unwrap();
    }
    let mut internals = Item::new();
    bind(&mut internals, "collection_read_hook", "user", "salt");
    store.internals = internals;
    let mut upgrading = quiet();
    upgrading.salt_upgrade = true;
    let plugins = vec![upgrading];
    init_checks(&mut store, &plugins);
    assert_eq!(plugins[0].upgrades.get(), 2);
    for i in 1..=2u64 {
        let u = store.get_item("user", i).unwrap();
        assert_ne!(u.safe_str("salt", ""), "");
        assert_ne!(u.safe_str("password", ""), "plaintext");
    }
    let first_pass_1 = store.get_item("user", 1).unwrap().safe_str("password", "");
    init_checks(&mut store, &plugins);
    assert_eq!(plugins[0].upgrades.get(), 2);
    assert_eq!(store.get_item("user", 1).unwrap().safe_str("password", ""), first_pass_1);
}

#[test]
fn url_route_first_applicable_answer_wins() {
    let silent = quiet();
    let mut talking = quiet();
    talking.route_data = Some(String::from("payload"));
    let plugins = vec![silent, talking];
    match call_url_route(&plugins, "h", &None, "q=1") {
        WebResponse::OkData(text) => assert_eq!(text, "payload"),
        _ => panic!("the second extension's answer must be taken"),
    }
    let nobody: Vec<TestPlugin> = vec![quiet()];
    assert!(matches!(call_url_route(&nobody, "h", &None, ""), WebResponse::NotFound));
    assert!(matches!(
        call_url_unprotected_route(&nobody, "h", &None, ""),
        WebResponse::NotFound
    ));
    assert!(matches!(
        call_url_post_route(&nobody, "h", &None, "", &Item::new()),
        WebResponse::Accepted
    ));
}

#[test]
fn otp_and_periodic_hooks_fan_out() {
    let plugins = vec![quiet(), quiet()];
    call_otp_hook(&plugins, "h", &Item::new());
    call_periodic_job_hook(&plugins, "hourly");
    call_periodic_job_hook(&plugins, "daily");
    for p in &plugins {
        assert_eq!(p.otp_seen.get(), 1);
        assert_eq!(p.periodic_seen.get(), 2);
    }
}

#[test]
fn auth_combine_is_a_veto() {
    assert!(auth_combine(&vec![]));
    assert!(auth_combine(&vec![true, true, true]));
    assert!(!auth_combine(&vec![true, false, true]));
    assert!(!auth_combine(&vec![false]));
}

#[test]
fn sweep_without_binding_or_plugins_changes_nothing() {
    let mut store = Store::new();
    store.add_collection("user");
    let mut u = Item::new();
    u.id = 1;
    u.set_str("password", "plaintext");
    store.set_item("user", &u, false).unwrap();
    // An upgrading extension without a binding never runs.
    let mut upgrading = quiet();
    upgrading.salt_upgrade = true;
    let plugins = vec![upgrading];
    init_checks(&mut store, &plugins);
    assert_eq!(plugins[0].upgrades.get(), 0);
    assert_eq!(store.get_item("user", 1).unwrap().safe_str("password", ""), "plaintext");
    // A binding without loaded extensions does nothing either.
    let mut internals = Item::new();
    bind(&mut internals, "collection_read_hook", "user", "salt");
    store.internals = internals;
    let nobody: Vec<TestPlugin> = vec![];
    init_checks(&mut store, &nobody);
    assert_eq!(store.get_item("user", 1).unwrap().safe_str("password", ""), "plaintext");
}

#[test]
fn sweep_record_writes_back_exactly_the_upgraded_record() {
    let mut store = Store::new();
    store.add_collection("user");
    let mut u = Item::new();
    u.id = 1;
    u.set_str("password", "plaintext");
    store.set_item("user", &u, false).unwrap();
    let mut routes: Dict<String, String> = Dict::new();
    routes.insert(String::from("user"), String::from("salt"));
    let mut upgrading = quiet();
    upgrading.salt_upgrade = true;
    let plugins = vec![upgrading];
    let written = sweep_record(&mut store, &plugins, &routes, "user", 1)
        .expect("the unsalted record must be upgraded");
    assert_eq!(written.id, 1);
    let stored = store.get_item("user", 1).unwrap();
    assert_eq!(stored.safe_str("salt", ""), written.safe_str("salt", ""));
    assert_ne!(stored.safe_str("password", ""), "plaintext");
    // A second pass reports nothing and leaves the store alone.
    assert!(sweep_record(&mut store, &plugins, &routes, "user", 1).is_none());
    // A missing record, or no loaded extension, changes nothing either.
    assert!(sweep_record(&mut store, &plugins, &routes, "user", 9).is_none());
    let nobody: Vec<TestPlugin> = vec![];
    assert!(sweep_record(&mut store, &nobody, &routes, "user", 1).is_none());
}

#[test]
fn combine_filters_joins_under_and() {
    assert_eq!(combine_filters(&vec![]), "");
    assert_eq!(combine_filters(&vec![String::from("{ \"a\": 1 }")]), "{ \"a\": 1 }");
    let two = combine_filters(&vec![String::from("A"), String::from("B")]);
    assert_eq!(two, "{ \"$and\": [A, B]}");
    let three = combine_filters(&vec![String::from("A"), String::from("B"), String::from("C")]);
    assert_eq!(three, "{ \"$and\": [{ \"$and\": [A, B]}, C]}");
}
