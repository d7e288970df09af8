//! The record pipelines behind the three item endpoints: authorize, run
//! the bound pre-edit chain, write through the store, notify post-edit
//! hooks; and the list pipeline with its single-ID, range and ID-list
//! forms followed by the narrowing list filters.
use crate::collection::Collection;
use crate::collection::eff_skip;
use crate::collection::page_window;
use crate::hooks::DataObjectAction;
use crate::hooks::Plugin;
use crate::hooks::ProcessResult;
use crate::hooks::call_item_auth_hook;
use crate::hooks::call_item_post_edit_hook;
use crate::hooks::call_item_pre_edit_hook;
use crate::hooks::call_itm_list_db_filter_hook;
use crate::hooks::call_itm_list_filter_hook;
use crate::item::Dict;
use crate::item::Item;
use crate::item::ItemView;
use crate::item::UNSET_ID;
use crate::store::ListResult;
use crate::store::Store;
use crate::store::matches_of;
use crate::store::set_outcome_contents;
use crate::store::set_outcome_count;
use crate::store::set_ret_id;
use vstd::prelude::*;
use vstd::string::StringExecFns;

verus! {

/// A list request: one record by ID, an ID range with pagination, or an
/// explicit list of IDs, against one collection.
pub struct ListQuery {
    pub collection: String,
    pub context: String,
    pub id: u64,
    pub id_min: u64,
    pub id_max: u64,
    pub sort_key: String,
    pub filter: String,
    pub skip: u64,
    pub limit: u64,
    pub id_list: Vec<u64>,
}

/// Is a hook of this kind bound to this collection in the internals
/// document?
pub open spec fn hook_binding(
    internals: ItemView,
    kind: Seq<char>,
    collection: Seq<char>,
) -> bool {
    internals.strstrs.contains_key(kind) && internals.strstrs[kind].contains_key(collection)
}

/// The records that the picked IDs name, in the order picked, absent ones
/// skipped.
pub open spec fn id_list_views(c: Collection, ids: Seq<u64>) -> Seq<ItemView>
    decreases ids.len(),
{
    if ids.len() == 0 {
        Seq::empty()
    } else {
        let rest = id_list_views(c, ids.drop_last());
        if c.contents().contains_key(ids.last()) {
            rest.push(c.contents()[ids.last()])
        } else {
            rest
        }
    }
}

/// Does the query use its range form? Any explicit bound, sort key or
/// filter selects it.
pub open spec fn is_range_query(lq: ListQuery) -> bool {
    &&& lq.id == UNSET_ID
    &&& (lq.id_min != UNSET_ID || lq.id_max != UNSET_ID || lq.sort_key@.len() > 0
        || lq.filter@.len() > 0)
}

/// The record list a query yields before list filters run.
pub open spec fn base_list(c: Collection, lq: ListQuery) -> Seq<ItemView> {
    if lq.id != UNSET_ID {
        if c.contents().contains_key(lq.id) && (lq.limit == UNSET_ID || lq.limit >= 1) {
            seq![c.contents()[lq.id]]
        } else {
            Seq::empty()
        }
    } else if is_range_query(lq) {
        page_window(matches_of(c, lq.id_min, lq.id_max), eff_skip(lq.skip), lq.limit)
    } else if lq.id_list@.len() > 0 {
        id_list_views(c, lq.id_list@)
    } else {
        Seq::empty()
    }
}

/// The match count a query reports, regardless of pagination and of the
/// list filters.
pub open spec fn base_total(c: Collection, lq: ListQuery) -> int {
    if lq.id != UNSET_ID {
        if c.contents().contains_key(lq.id) && (lq.limit == UNSET_ID || lq.limit >= 1) {
            1
        } else {
            0
        }
    } else if is_range_query(lq) {
        matches_of(c, lq.id_min, lq.id_max).len() as int
    } else if lq.id_list@.len() > 0 {
        id_list_views(c, lq.id_list@).len() as int
    } else {
        0
    }
}

/// The outcome of a list request.
pub enum ItmListOutcome {
    /// The collection is unknown: a bad request.
    NoCollection,
    /// The single requested record does not exist: a bad request.
    BadId,
    /// The visible page, after the narrowing list filters.
    Listed(ListResult),
}

/// One backend-native filter expression combined from several, joined
/// pairwise under an `$and`, left to right.
pub open spec fn combined_filter(fs: Seq<Seq<char>>) -> Seq<char>
    decreases fs.len(),
{
    if fs.len() == 0 {
        Seq::empty()
    } else if fs.len() == 1 {
        fs[0]
    } else {
        "{ \"$and\": ["@ + combined_filter(fs.drop_last()) + ", "@ + fs.last() + "]}"@
    }
}

/// Join the collected filter expressions into one, as `combined_filter`
/// describes.
pub fn combine_filters(fs: &Vec<String>) -> (r: String)
    ensures
        r@ == combined_filter(fs@.map_values(|s: String| s@)),
{
    let ghost views = fs@.map_values(|s: String| s@);
    let mut result = String::new();
    let mut i: usize = 0;
    while i < fs.len()
        invariant
            views == fs@.map_values(|s: String| s@),
            0 <= i <= fs@.len(),
            result@ == combined_filter(views.take(i as int)),
        decreases fs@.len() - i,
    {
        proof {
            assert(views.take(i as int + 1).drop_last() =~= views.take(i as int));
            assert(views.take(i as int + 1).last() == fs@[i as int]@);
        }
        if i == 0 {
            result = fs[0].clone();
            proof {
                assert(views.take(1).len() == 1);
                assert(views.take(1)[0] == fs@[0]@);
            }
        } else {
            let mut joined = String::from_str("{ \"$and\": [");
            joined.append(result.as_str());
            joined.append(", ");
            joined.append(fs[i].as_str());
            joined.append("]}");
            result = joined;
        }
        i += 1;
    }
    proof {
        assert(views.take(fs@.len() as int) =~= views);
    }
    result
}

/// List records: one by ID, a paged range, or an explicit ID list; then
/// the narrowing list filter bound to the collection, if any. The reported
/// total is the match count before pagination and before narrowing. The
/// range form ignores `sort_key` and `filter` deliberately: records come
/// in ID order and unfiltered, whatever they hold.
pub fn itm_list<P: Plugin>(
    store: &Store,
    plugins: &Vec<P>,
    usr: &Option<Item>,
    lq: &ListQuery,
) -> (r: ItmListOutcome)
    requires
        store.wf(),
    ensures
        r is NoCollection <==> !store.cmap().contains_key(lq.collection@),
        r is BadId <==> store.cmap().contains_key(lq.collection@) && lq.id != UNSET_ID
            && !store.cmap()[lq.collection@].contents().contains_key(lq.id),
        store.cmap().contains_key(lq.collection@) && lq.id != UNSET_ID && store.cmap()[
            lq.collection@
        ].contents().contains_key(lq.id) ==> r is Listed,
        r matches ItmListOutcome::Listed(lr) ==> ({
            let c = store.cmap()[lq.collection@];
            let base = base_list(c, *lq);
            &&& lr.total_count as int == base_total(c, *lq)
            &&& (forall|i: int| 0 <= i < lr.items@.len() ==> (#[trigger] lr.items@[i]).inv())
            &&& (!hook_binding(store.internals.deep_view(), "itm_list_filter_hook"@, lq.collection@)
                ==> crate::collection::item_views(lr.items@) == base)
            &&& (forall|i: int|
                0 <= i < lr.items@.len() ==> base.map_values(|v: ItemView| v.id).contains(
                    (#[trigger] lr.items@[i]).id,
                ))
        }),
{
    let (pos, found) = store.find_coll(lq.collection.as_str());
    if !found {
        return ItmListOutcome::NoCollection;
    }
    proof {
        store.lemma_cmap();
    }
    let ghost c = store.cmap()[lq.collection@];
    let mut items: Vec<Item> = Vec::new();
    let mut total: u64 = 0;
    if lq.id != u64::MAX {
        let res = store.get_item(lq.collection.as_str(), lq.id);
        match res {
            Option::None => {
                return ItmListOutcome::BadId;
            },
            Option::Some(it) => {
                if lq.limit == u64::MAX || lq.limit >= 1 {
                    items.push(it);
                    total = 1;
                    proof {
                        assert(crate::collection::item_views(items@) =~= base_list(c, *lq));
                    }
                } else {
                    proof {
                        assert(crate::collection::item_views(items@) =~= base_list(c, *lq));
                    }
                }
            },
        }
    } else {
        let range_form = lq.id_min != u64::MAX || lq.id_max != u64::MAX
            || !lq.sort_key.as_str().is_empty() || !lq.filter.as_str().is_empty();
        if range_form {
            let mut filters: Vec<String> = Vec::new();
            if !lq.filter.as_str().is_empty() {
                filters.push(lq.filter.clone());
            }
            let internals = store.get_internals();
            let empty: Dict<String, String> = Dict::new();
            let db_bindings = internals.safe_strstr("itm_list_db_filter_hook", &empty);
            match db_bindings.get(&lq.collection) {
                Option::Some(hndl) => {
                    let more = call_itm_list_db_filter_hook(
                        plugins,
                        hndl.as_str(),
                        usr,
                        lq.collection.as_str(),
                        lq.context.as_str(),
                        "native",
                    );
                    let mut mi: usize = 0;
                    while mi < more.len()
                        invariant
                            0 <= mi <= more@.len(),
                        decreases more@.len() - mi,
                    {
                        filters.push(more[mi].clone());
                        mi += 1;
                    }
                },
                Option::None => {},
            }
            let final_filter = combine_filters(&filters);
            let lr = store.get_items(
                lq.collection.as_str(),
                lq.id_min,
                lq.id_max,
                lq.sort_key.as_str(),
                final_filter.as_str(),
                lq.skip,
                lq.limit,
            );
            match lr {
                Result::Ok(got) => {
                    items = got.items;
                    total = got.total_count;
                    proof {
                        assert(crate::collection::item_views(items@) == base_list(c, *lq));
                    }
                },
                Result::Err(_) => {
                    proof {
                        assert(false);
                    }
                },
            }
        } else if lq.id_list.len() > 0 {
            let mut k: usize = 0;
            while k < lq.id_list.len()
                invariant
                    store.wf(),
                    store.cmap().contains_key(lq.collection@),
                    c == store.cmap()[lq.collection@],
                    0 <= k <= lq.id_list@.len(),
                    crate::collection::item_views(items@) == id_list_views(
                        c,
                        lq.id_list@.take(k as int),
                    ),
                    total as int == id_list_views(c, lq.id_list@.take(k as int)).len(),
                    total as int <= k as int,
                    forall|j: int| 0 <= j < items@.len() ==> (#[trigger] items@[j]).inv(),
                decreases lq.id_list@.len() - k,
            {
                proof {
                    assert(lq.id_list@.take(k as int + 1).drop_last() =~= lq.id_list@.take(
                        k as int,
                    ));
                    assert(lq.id_list@.take(k as int + 1).last() == lq.id_list@[k as int]);
                }
                let res = store.get_item(lq.collection.as_str(), lq.id_list[k]);
                match res {
                    Option::Some(it) => {
                        items.push(it);
                        total = total + 1;
                        proof {
                            assert(crate::collection::item_views(items@) =~= id_list_views(
                                c,
                                lq.id_list@.take(k as int + 1),
                            ));
                        }
                    },
                    Option::None => {},
                }
                k += 1;
            }
            proof {
                assert(lq.id_list@.take(lq.id_list@.len() as int) =~= lq.id_list@);
            }
        } else {
            proof {
                assert(crate::collection::item_views(items@) =~= base_list(c, *lq));
            }
        }
    }
    let ghost base = base_list(c, *lq);
    let ghost pre_ids = items@.map_values(|it: Item| it.id);
    proof {
        assert(crate::collection::item_views(items@) == base);
        assert forall|i: int| 0 <= i < items@.len() implies base.map_values(
            |v: ItemView| v.id,
        ).contains((#[trigger] items@[i]).id) by {
            assert(base.map_values(|v: ItemView| v.id)[i] == base[i].id);
            assert(base[i] == items@[i].deep_view());
        }
    }
    let internals = store.get_internals();
    let empty: Dict<String, String> = Dict::new();
    let bindings = internals.safe_strstr("itm_list_filter_hook", &empty);
    match bindings.get(&lq.collection) {
        Option::Some(hndl) => {
            call_itm_list_filter_hook(
                plugins,
                hndl.as_str(),
                usr,
                lq.collection.as_str(),
                lq.context.as_str(),
                &mut items,
            );
            proof {
                assert forall|i: int| 0 <= i < items@.len() implies base.map_values(
                    |v: ItemView| v.id,
                ).contains((#[trigger] items@[i]).id) by {
                    assert(pre_ids.contains(items@[i].id));
                    let j = choose|j: int| 0 <= j < pre_ids.len() && pre_ids[j] == items@[i].id;
                    assert(base.map_values(|v: ItemView| v.id)[j] == base[j].id);
                }
            }
        },
        Option::None => {},
    }
    ItmListOutcome::Listed(ListResult { items, total_count: total })
}

/// The outcome of an edit request.
pub enum ItmEditOutcome {
    /// An authorization hook vetoed the write.
    Forbidden,
    /// The collection is unknown: a bad request.
    NoCollection,
    /// A pre-edit hook rejected the write, with its reason.
    Rejected(ProcessResult),
    /// The write went through, under this ID.
    Saved(u64),
}

/// The outcome of a delete request.
pub enum ItmDelOutcome {
    /// An authorization hook vetoed the deletion.
    Forbidden,
    /// The collection is unknown: a bad request.
    NoCollection,
    /// A pre-edit hook rejected the deletion, with its reason.
    Rejected(ProcessResult),
    /// Whether a live record was removed.
    Deleted(bool),
}

/// Write a record through the pipeline: the bound authorization hook may
/// veto; the bound pre-edit chain may reject or amend the record; the
/// store allocates or merges as `set_item` says; the bound post-edit hook
/// is then notified of the committed write. Without bound hooks, the write
/// is exactly a `set_item`.
pub fn itm_edit<P: Plugin>(
    store: &mut Store,
    plugins: &Vec<P>,
    usr: &Option<Item>,
    collection: &str,
    itm: Item,
    merge: bool,
) -> (r: ItmEditOutcome)
    requires
        old(store).wf(),
        itm.inv(),
        old(store).cmap().contains_key(collection@) && itm.id == UNSET_ID ==> old(store).cmap()[
            collection@
        ].count < u64::MAX - 1,
    ensures
        final(store).wf(),
        r is NoCollection ==> !old(store).cmap().contains_key(collection@) && *final(store)
            == *old(store),
        r is Forbidden ==> *final(store) == *old(store),
        r matches ItmEditOutcome::Rejected(res) ==> old(store).cmap().contains_key(collection@)
            && *final(store) == *old(store) && !res.succeeded,
        r matches ItmEditOutcome::Saved(rid) ==> ({
            let c0 = old(store).cmap()[collection@];
            &&& old(store).cmap().contains_key(collection@)
            &&& rid == set_ret_id(c0, itm.id)
            &&& final(store).cmap()[collection@].count == set_outcome_count(c0, itm.id)
            &&& (forall|n: Seq<char>|
                final(store).cmap().contains_key(n) == old(store).cmap().contains_key(n))
            &&& (forall|n: Seq<char>|
                n != collection@ && old(store).cmap().contains_key(n) ==> final(store).cmap()[n]
                    == old(store).cmap()[n])
            &&& final(store).settings == old(store).settings
            &&& final(store).internals == old(store).internals
            &&& final(store).path == old(store).path
        }),
        !old(store).cmap().contains_key(collection@) ==> (r is NoCollection || r is Forbidden),
        !hook_binding(old(store).internals.deep_view(), "itm_auth_hook"@, collection@) ==> !(
        r is Forbidden),
        !hook_binding(old(store).internals.deep_view(), "item_pre_edit_hook"@, collection@)
            ==> !(r is Rejected),
        (!hook_binding(old(store).internals.deep_view(), "itm_auth_hook"@, collection@)
            || plugins@.len() == 0) && (!hook_binding(
            old(store).internals.deep_view(),
            "item_pre_edit_hook"@,
            collection@,
        ) || plugins@.len() == 0) && old(store).cmap().contains_key(collection@) ==> ({
            let c0 = old(store).cmap()[collection@];
            &&& r == ItmEditOutcome::Saved(set_ret_id(c0, itm.id))
            &&& final(store).cmap()[collection@].contents() == set_outcome_contents(
                c0,
                itm.id,
                itm.deep_view(),
                merge,
            )
            &&& final(store).cmap()[collection@].count == set_outcome_count(c0, itm.id)
        }),
{
    let ckey: String = collection.to_owned();
    let internals = store.get_internals();
    let empty: Dict<String, String> = Dict::new();
    let auth_b = internals.safe_strstr("itm_auth_hook", &empty);
    match auth_b.get(&ckey) {
        Option::Some(hndl) => {
            let new_item = Some(itm.dup());
            if !call_item_auth_hook(
                plugins,
                hndl.as_str(),
                usr,
                collection,
                itm.id,
                &new_item,
                false,
            ) {
                return ItmEditOutcome::Forbidden;
            }
        },
        Option::None => {},
    }
    let (_pos, found) = store.find_coll(collection);
    if !found {
        return ItmEditOutcome::NoCollection;
    }
    let old_itm = store.get_item(collection, itm.id);
    let action = if old_itm.is_some() {
        DataObjectAction::Modify
    } else {
        DataObjectAction::Create
    };
    let mut work = itm;
    let pre_b = internals.safe_strstr("item_pre_edit_hook", &empty);
    match pre_b.get(&ckey) {
        Option::Some(hndl) => {
            let res = call_item_pre_edit_hook(
                plugins,
                hndl.as_str(),
                usr,
                collection,
                &old_itm,
                &mut work,
                action,
                merge,
            );
            if !res.succeeded {
                return ItmEditOutcome::Rejected(res);
            }
        },
        Option::None => {},
    }
    let rid: u64 = match store.set_item(collection, &work, merge) {
        Result::Ok(id) => id,
        Result::Err(_) => {
            proof {
                assert(false);
            }
            0
        },
    };
    let post_b = internals.safe_strstr("item_post_edit_hook", &empty);
    match post_b.get(&ckey) {
        Option::Some(hndl) => {
            call_item_post_edit_hook(plugins, hndl.as_str(), collection, &old_itm, rid, action);
        },
        Option::None => {},
    }
    ItmEditOutcome::Saved(rid)
}

/// Delete a record through the pipeline: the bound authorization hook may
/// veto; the bound pre-edit chain may reject; then the record leaves the
/// store and the bound post-edit hook is notified. Without bound hooks,
/// the deletion is exactly a `del_item`.
pub fn itm_del<P: Plugin>(
    store: &mut Store,
    plugins: &Vec<P>,
    usr: &Option<Item>,
    collection: &str,
    id: u64,
) -> (r: ItmDelOutcome)
    requires
        old(store).wf(),
    ensures
        final(store).wf(),
        r is NoCollection ==> !old(store).cmap().contains_key(collection@) && *final(store)
            == *old(store),
        r is Forbidden ==> *final(store) == *old(store),
        r matches ItmDelOutcome::Rejected(res) ==> old(store).cmap().contains_key(collection@)
            && *final(store) == *old(store) && !res.succeeded,
        !old(store).cmap().contains_key(collection@) ==> (r is NoCollection || r is Forbidden),
        !hook_binding(old(store).internals.deep_view(), "itm_auth_hook"@, collection@) ==> !(
        r is Forbidden),
        !hook_binding(old(store).internals.deep_view(), "item_pre_edit_hook"@, collection@)
            ==> !(r is Rejected),
        r matches ItmDelOutcome::Deleted(b) ==> ({
            let c0 = old(store).cmap()[collection@];
            &&& old(store).cmap().contains_key(collection@)
            &&& b == (id != UNSET_ID && c0.contents().contains_key(id))
            &&& final(store).cmap()[collection@].contents() == c0.contents().remove(id)
            &&& final(store).cmap()[collection@].count == c0.count
            &&& (forall|n: Seq<char>|
                final(store).cmap().contains_key(n) == old(store).cmap().contains_key(n))
            &&& (forall|n: Seq<char>|
                n != collection@ && old(store).cmap().contains_key(n) ==> final(store).cmap()[n]
                    == old(store).cmap()[n])
            &&& final(store).settings == old(store).settings
            &&& final(store).internals == old(store).internals
            &&& final(store).path == old(store).path
        }),
        (!hook_binding(old(store).internals.deep_view(), "itm_auth_hook"@, collection@)
            || plugins@.len() == 0) && (!hook_binding(
            old(store).internals.deep_view(),
            "item_pre_edit_hook"@,
            collection@,
        ) || plugins@.len() == 0) && old(store).cmap().contains_key(collection@) ==> r is Deleted,
{
    let ckey: String = collection.to_owned();
    let internals = store.get_internals();
    let empty: Dict<String, String> = Dict::new();
    let auth_b = internals.safe_strstr("itm_auth_hook", &empty);
    match auth_b.get(&ckey) {
        Option::Some(hndl) => {
            let no_item: Option<Item> = None;
            if !call_item_auth_hook(plugins, hndl.as_str(), usr, collection, id, &no_item, true) {
                return ItmDelOutcome::Forbidden;
            }
        },
        Option::None => {},
    }
    let (_pos, found) = store.find_coll(collection);
    if !found {
        return ItmDelOutcome::NoCollection;
    }
    let old_itm = store.get_item(collection, id);
    let mut scratch = Item::new();
    let pre_b = internals.safe_strstr("item_pre_edit_hook", &empty);
    match pre_b.get(&ckey) {
        Option::Some(hndl) => {
            let res = call_item_pre_edit_hook(
                plugins,
                hndl.as_str(),
                usr,
                collection,
                &old_itm,
                &mut scratch,
                DataObjectAction::Delete,
                false,
            );
            if !res.succeeded {
                return ItmDelOutcome::Rejected(res);
            }
        },
        Option::None => {},
    }
    let deleted = store.del_item(collection, id);
    let post_b = internals.safe_strstr("item_post_edit_hook", &empty);
    match post_b.get(&ckey) {
        Option::Some(hndl) => {
            call_item_post_edit_hook(
                plugins,
                hndl.as_str(),
                collection,
                &old_itm,
                id,
                DataObjectAction::Delete,
            );
        },
        Option::None => {},
    }
    ItmDelOutcome::Deleted(deleted)
}

} // verus!
