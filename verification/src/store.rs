//! The persistence contract: CRUD on named collections of records, range
//! and pagination queries, ID allocation with merge-on-write, and the two
//! singleton documents (settings, internals).
//!
//! This is the in-memory store of record that both persistence shims (the
//! directory-per-record one and the document-database one) must realize; all
//! decisions — which ID a write gets, what a merge produces, what a page
//! holds — are made and proved here.
use crate::collection::Collection;
use crate::collection::eff_skip;
use crate::collection::item_views;
use crate::collection::page_window;
use crate::collection::range_filter;
use crate::collection::with_id;
use crate::item::Item;
use crate::item::ItemView;
use crate::item::UNSET_ID;
use crate::item::assoc_map;
use crate::item::distinct_keys;
use crate::item::lemma_assoc_at;
use crate::item::lemma_assoc_contains;
use crate::item::lemma_assoc_push;
use crate::item::lemma_assoc_update;
use vstd::prelude::*;
use vstd::string::StringExecFns;
use vstd::string::StringExecFnsIsAscii;

verus! {

/// A page of records plus the number of records matching the query
/// regardless of pagination.
pub struct ListResult {
    pub items: Vec<Item>,
    pub total_count: u64,
}

/// The caller-visible failure of a single-record operation.
#[derive(Debug, PartialEq, Eq, Structural, Clone, Copy)]
pub enum StoreError {
    /// The named collection is not known to the store.
    NoCollection,
}

/// The record list matching an ID range query against a collection.
pub open spec fn matches_of(c: Collection, id_min: u64, id_max: u64) -> Seq<ItemView> {
    range_filter(item_views(c.items@), id_min, id_max)
}

/// The ID a write of a record with ID `id` will be stored under.
pub open spec fn set_ret_id(c: Collection, id: u64) -> u64 {
    if id == UNSET_ID {
        (c.count + 1) as u64
    } else {
        id
    }
}

/// The contents of a collection after a write (§ set_item): allocate on an
/// unset ID, merge or overwrite on a live one, insert on a fresh one.
pub open spec fn set_outcome_contents(c: Collection, id: u64, v: ItemView, merge: bool) -> Map<
    u64,
    ItemView,
> {
    if id == UNSET_ID {
        c.contents().insert((c.count + 1) as u64, with_id(v, (c.count + 1) as u64))
    } else if c.contents().contains_key(id) {
        c.contents().insert(
            id,
            if merge {
                ItemView::merged(c.contents()[id], v)
            } else {
                with_id(v, id)
            },
        )
    } else {
        c.contents().insert(id, with_id(v, id))
    }
}

/// The allocation counter after a write: advancing-only.
pub open spec fn set_outcome_count(c: Collection, id: u64) -> u64 {
    if id == UNSET_ID {
        (c.count + 1) as u64
    } else if c.contents().contains_key(id) {
        c.count
    } else if id > c.count {
        id
    } else {
        c.count
    }
}

/// An ID range covering everything, paged with no skip and no limit, yields
/// the records themselves.
pub proof fn lemma_full_query(s: Seq<ItemView>)
    ensures
        range_filter(s, UNSET_ID, UNSET_ID) == s,
        page_window(s, 0, UNSET_ID) == s,
    decreases s.len(),
{
    if s.len() > 0 {
        lemma_full_query(s.drop_last());
        assert(range_filter(s, UNSET_ID, UNSET_ID) =~= s);
    } else {
        assert(range_filter(s, UNSET_ID, UNSET_ID) =~= s);
    }
    assert(page_window(s, 0, UNSET_ID) =~= s);
}

/// The store: the known collections, the two singleton documents, and the
/// root path its artifacts live under.
pub struct Store {
    pub collections: Vec<Collection>,
    pub settings: Item,
    pub internals: Item,
    pub path: String,
}

impl Store {
    /// The collections, keyed by name.
    pub open spec fn centries(self) -> Seq<(Seq<char>, Collection)> {
        self.collections@.map_values(|c: Collection| (c.name@, c))
    }

    pub open spec fn cmap(self) -> Map<Seq<char>, Collection> {
        assoc_map(self.centries())
    }

    /// Well-formed: collection names unique, every collection and both
    /// singleton documents well-formed.
    pub open spec fn wf(self) -> bool {
        &&& distinct_keys(self.centries())
        &&& forall|i: int| 0 <= i < self.collections@.len() ==> (#[trigger] self.collections@[i]).wf()
        &&& self.settings.inv()
        &&& self.internals.inv()
    }

    /// Which names are known, and which collection each names.
    pub proof fn lemma_cmap(self)
        requires
            self.wf(),
        ensures
            forall|n: Seq<char>|
                self.cmap().contains_key(n) <==> exists|i: int|
                    0 <= i < self.collections@.len() && (#[trigger] self.collections@[i]).name@
                        == n,
            forall|i: int|
                0 <= i < self.collections@.len() ==> self.cmap().contains_key(
                    (#[trigger] self.collections@[i]).name@,
                ) && self.cmap()[self.collections@[i].name@] == self.collections@[i],
            forall|n: Seq<char>|
                self.cmap().contains_key(n) ==> (#[trigger] self.cmap()[n]).name@ == n
                    && self.cmap()[n].wf(),
    {
        let s = self.centries();
        assert forall|n: Seq<char>|
            self.cmap().contains_key(n) <==> exists|i: int|
                0 <= i < self.collections@.len() && (#[trigger] self.collections@[i]).name@
                    == n by {
            lemma_assoc_contains(s, n);
            if exists|i: int| 0 <= i < s.len() && (#[trigger] s[i]).0 == n {
                let i = choose|i: int| 0 <= i < s.len() && (#[trigger] s[i]).0 == n;
                assert(self.collections@[i].name@ == n);
            }
            if exists|i: int|
                0 <= i < self.collections@.len() && (#[trigger] self.collections@[i]).name@ == n {
                let i = choose|i: int|
                    0 <= i < self.collections@.len() && (#[trigger] self.collections@[i]).name@
                        == n;
                assert(s[i].0 == n);
            }
        }
        assert forall|i: int| 0 <= i < self.collections@.len() implies self.cmap().contains_key(
            (#[trigger] self.collections@[i]).name@,
        ) && self.cmap()[self.collections@[i].name@] == self.collections@[i] by {
            lemma_assoc_at(s, i);
        }
        assert forall|n: Seq<char>| self.cmap().contains_key(n) implies (
        #[trigger] self.cmap()[n]).name@ == n && self.cmap()[n].wf() by {
            let i = choose|i: int|
                0 <= i < self.collections@.len() && (#[trigger] self.collections@[i]).name@ == n;
            lemma_assoc_at(s, i);
        }
    }

    pub fn new() -> (r: Store)
        ensures
            r.wf(),
            r.cmap() =~= Map::<Seq<char>, Collection>::empty(),
            r.settings.deep_view() =~~= ItemView::empty(),
            r.internals.deep_view() =~~= ItemView::empty(),
    {
        Store {
            collections: Vec::new(),
            settings: Item::new(),
            internals: Item::new(),
            path: String::new(),
        }
    }

    /// Index of the collection with this name.
    pub fn find_coll(&self, collection: &str) -> (r: (usize, bool))
        requires
            self.wf(),
        ensures
            r.0 <= self.collections@.len(),
            r.1 ==> r.0 < self.collections@.len() && self.collections@[r.0 as int].name@
                == collection@ && self.cmap().contains_key(collection@)
                && self.cmap()[collection@] == self.collections@[r.0 as int],
            !r.1 ==> !self.cmap().contains_key(collection@),
    {
        let key: String = collection.to_owned();
        let mut i: usize = 0;
        while i < self.collections.len()
            invariant
                self.wf(),
                key@ == collection@,
                0 <= i <= self.collections@.len(),
                forall|j: int| 0 <= j < i ==> (#[trigger] self.collections@[j]).name@ != collection@,
            decreases self.collections@.len() - i,
        {
            if self.collections[i].name.eq(&key) {
                proof {
                    self.lemma_cmap();
                }
                return (i, true);
            }
            i += 1;
        }
        proof {
            self.lemma_cmap();
        }
        (i, false)
    }

    /// Does the store know this collection?
    pub fn has_collection(&self, collection: &str) -> (r: bool)
        requires
            self.wf(),
        ensures
            r == self.cmap().contains_key(collection@),
    {
        let (_, found) = self.find_coll(collection);
        found
    }

    /// The names of all known collections.
    pub fn get_collections(&self) -> (r: Vec<String>)
        requires
            self.wf(),
        ensures
            r@.len() == self.collections@.len(),
            forall|i: int| 0 <= i < r@.len() ==> (#[trigger] r@[i])@ == self.collections@[i].name@,
    {
        let mut lst: Vec<String> = Vec::new();
        let mut i: usize = 0;
        while i < self.collections.len()
            invariant
                0 <= i <= self.collections@.len(),
                lst@.len() == i,
                forall|j: int| 0 <= j < i ==> (#[trigger] lst@[j])@ == self.collections@[j].name@,
            decreases self.collections@.len() - i,
        {
            lst.push(self.collections[i].name.clone());
            i += 1;
        }
        lst
    }

    /// Make a collection of this name known, with an empty record set and a
    /// zero counter; a known name is left as it is.
    pub fn add_collection(&mut self, collection: &str) -> (r: bool)
        requires
            old(self).wf(),
        ensures
            final(self).wf(),
            r == !old(self).cmap().contains_key(collection@),
            final(self).cmap().contains_key(collection@),
            !r ==> *final(self) == *old(self),
            r ==> final(self).cmap() == old(self).cmap().insert(
                collection@,
                final(self).cmap()[collection@],
            ) && final(self).cmap()[collection@].contents()
                =~= Map::<u64, ItemView>::empty() && final(self).cmap()[collection@].count == 0,
            final(self).settings == old(self).settings,
            final(self).internals == old(self).internals,
            final(self).path == old(self).path,
            forall|n: Seq<char>|
                n != collection@ && old(self).cmap().contains_key(n) ==> final(self).cmap().contains_key(n)
                    && final(self).cmap()[n] == old(self).cmap()[n],
    {
        let (_, found) = self.find_coll(collection);
        if found {
            proof {
                self.lemma_cmap();
            }
            return false;
        }
        let mut c = Collection::new();
        c.name = collection.to_owned();
        proof {
            self.lemma_cmap();
            assert forall|j: int| 0 <= j < self.centries().len() implies (
            #[trigger] self.centries()[j]).0 != collection@ by {
                assert(self.collections@[j].name@ == self.centries()[j].0);
            }
            lemma_assoc_push(self.centries(), collection@, c);
        }
        self.collections.push(c);
        proof {
            assert(self.centries() =~= old(self).centries().push((collection@, c)));
            assert(final(self).cmap() =~= old(self).cmap().insert(collection@, c));
            self.lemma_cmap();
        }
        true
    }

    /// The record with this ID in this collection, or nothing — also when
    /// the collection itself is unknown.
    pub fn get_item(&self, collection: &str, id: u64) -> (r: Option<Item>)
        requires
            self.wf(),
        ensures
            match r {
                Some(v) => self.cmap().contains_key(collection@)
                    && self.cmap()[collection@].contents().contains_key(id) && v.deep_view()
                    == self.cmap()[collection@].contents()[id] && v.inv() && v.id == id,
                None => !self.cmap().contains_key(collection@) || !self.cmap()[
                    collection@
                ].contents().contains_key(id),
            },
    {
        let (pos, found) = self.find_coll(collection);
        if !found {
            return None;
        }
        self.collections[pos].get(id)
    }

    /// The IDs of every record of the collection, ascending; empty when the
    /// collection is unknown.
    pub fn get_item_ids(&self, collection: &str) -> (r: Vec<u64>)
        requires
            self.wf(),
        ensures
            self.cmap().contains_key(collection@) ==> r@ == self.cmap()[
                collection@
            ].items@.map_values(|it: Item| it.id),
            !self.cmap().contains_key(collection@) ==> r@.len() == 0,
    {
        let (pos, found) = self.find_coll(collection);
        if !found {
            return Vec::new();
        }
        let c = &self.collections[pos];
        let mut ids: Vec<u64> = Vec::new();
        let mut i: usize = 0;
        while i < c.items.len()
            invariant
                0 <= i <= c.items@.len(),
                ids@.len() == i,
                forall|j: int| 0 <= j < i ==> (#[trigger] ids@[j]) == c.items@[j].id,
            decreases c.items@.len() - i,
        {
            ids.push(c.items[i].id);
            i += 1;
        }
        proof {
            assert(ids@ =~= c.items@.map_values(|it: Item| it.id));
        }
        ids
    }

    /// One page of the records whose IDs fall in `id_min ..= id_max`
    /// (sentinel bounds mean unbounded), in ascending ID order, skipping
    /// `skip` matches and yielding at most `limit` (sentinels mean none /
    /// all), plus the match count regardless of pagination. `sort_key` and
    /// `filter` are accepted for interface parity but deliberately not
    /// honored: the order is always the ID order and no further filtering
    /// happens, whatever they hold — the contract below pins the result
    /// without mentioning them.
    pub fn get_items(
        &self,
        collection: &str,
        id_min: u64,
        id_max: u64,
        sort_key: &str,
        filter: &str,
        skip: u64,
        limit: u64,
    ) -> (r: Result<ListResult, StoreError>)
        requires
            self.wf(),
        ensures
            r is Err <==> !self.cmap().contains_key(collection@),
            r is Err ==> r == Result::<ListResult, StoreError>::Err(StoreError::NoCollection),
            r is Ok ==> item_views(r.unwrap().items@) == page_window(
                matches_of(self.cmap()[collection@], id_min, id_max),
                eff_skip(skip),
                limit,
            ) && r.unwrap().total_count as int == matches_of(
                self.cmap()[collection@],
                id_min,
                id_max,
            ).len() && forall|i: int|
                0 <= i < r.unwrap().items@.len() ==> (#[trigger] r.unwrap().items@[i]).inv(),
    {
        let _ = sort_key;
        let _ = filter;
        let (pos, found) = self.find_coll(collection);
        if !found {
            return Err(StoreError::NoCollection);
        }
        let (items, total) = self.collections[pos].page(id_min, id_max, skip, limit);
        Ok(ListResult { items, total_count: total })
    }

    /// Every record of the collection, in ascending ID order: the full range
    /// with no skip and no limit.
    pub fn get_all_items(&self, collection: &str, sort_key: &str, filter: &str) -> (r: Result<
        ListResult,
        StoreError,
    >)
        requires
            self.wf(),
        ensures
            r is Err <==> !self.cmap().contains_key(collection@),
            r is Err ==> r == Result::<ListResult, StoreError>::Err(StoreError::NoCollection),
            r is Ok ==> item_views(r.unwrap().items@) == item_views(
                self.cmap()[collection@].items@,
            ) && r.unwrap().total_count as int == self.cmap()[collection@].items@.len() && forall|
                i: int,
            |
                0 <= i < r.unwrap().items@.len() ==> (#[trigger] r.unwrap().items@[i]).inv(),
    {
        let r = self.get_items(collection, u64::MAX, u64::MAX, sort_key, filter, u64::MAX, u64::MAX);
        proof {
            if self.cmap().contains_key(collection@) {
                lemma_full_query(item_views(self.cmap()[collection@].items@));
            }
        }
        r
    }

    /// A copy of the settings singleton.
    pub fn get_settings(&self) -> (r: Item)
        requires
            self.wf(),
        ensures
            r.inv(),
            r.deep_view() == self.settings.deep_view(),
    {
        self.settings.dup()
    }

    /// Replace the settings singleton.
    pub fn set_settings(&mut self, itm: Item)
        requires
            old(self).wf(),
            itm.inv(),
        ensures
            final(self).wf(),
            final(self).settings == itm,
            final(self).collections == old(self).collections,
            final(self).internals == old(self).internals,
            final(self).path == old(self).path,
    {
        self.settings = itm;
    }

    /// A copy of the internals singleton.
    pub fn get_internals(&self) -> (r: Item)
        requires
            self.wf(),
        ensures
            r.inv(),
            r.deep_view() == self.internals.deep_view(),
    {
        self.internals.dup()
    }

    /// Path of the credential artifact of the external calendar integration.
    pub fn get_credentials(&self) -> (r: String)
        ensures
            r@ == self.path@ + "/credentials.json"@,
    {
        let mut s = self.path.clone();
        s.append("/credentials.json");
        s
    }

    /// Write a record to the collection (§ set_item): an unset ID allocates
    /// the next counter value; an explicit ID overwrites the record of that
    /// ID, or merges into it when `merge` is set; the counter only ever
    /// advances. Fails exactly when the collection is unknown.
    pub fn set_item(&mut self, collection: &str, itm: &Item, merge: bool) -> (r: Result<
        u64,
        StoreError,
    >)
        requires
            old(self).wf(),
            itm.inv(),
            old(self).cmap().contains_key(collection@) && itm.id == UNSET_ID ==> old(self).cmap()[
                collection@
            ].count < u64::MAX - 1,
        ensures
            final(self).wf(),
            r is Err <==> !old(self).cmap().contains_key(collection@),
            r is Err ==> *final(self) == *old(self) && r == Result::<u64, StoreError>::Err(
                StoreError::NoCollection,
            ),
            r is Ok ==> ({
                let c0 = old(self).cmap()[collection@];
                &&& r == Result::<u64, StoreError>::Ok(set_ret_id(c0, itm.id))
                &&& final(self).cmap().contains_key(collection@)
                &&& final(self).cmap()[collection@].contents() == set_outcome_contents(
                    c0,
                    itm.id,
                    itm.deep_view(),
                    merge,
                )
                &&& final(self).cmap()[collection@].count == set_outcome_count(c0, itm.id)
                &&& final(self).cmap()[collection@].count >= c0.count
                &&& forall|n: Seq<char>|
                    final(self).cmap().contains_key(n) == old(self).cmap().contains_key(n)
                &&& forall|n: Seq<char>|
                    n != collection@ && old(self).cmap().contains_key(n)
                        ==> final(self).cmap()[n] == old(self).cmap()[n]
                &&& final(self).settings == old(self).settings
                &&& final(self).internals == old(self).internals
                &&& final(self).path == old(self).path
            }),
    {
        let (pos, found) = self.find_coll(collection);
        if !found {
            return Err(StoreError::NoCollection);
        }
        proof {
            self.lemma_cmap();
        }
        let ghost g0 = self.centries();
        let mut c = self.collections.remove(pos);
        let rid = c.set(itm.id, itm.dup(), merge);
        self.collections.insert(pos, c);
        proof {
            assert(self.collections@ =~= old(self).collections@.update(
                pos as int,
                self.collections@[pos as int],
            ));
            assert(self.centries() =~= g0.update(
                pos as int,
                (collection@, self.collections@[pos as int]),
            ));
            lemma_assoc_update(g0, pos as int, collection@, self.collections@[pos as int]);
            assert(final(self).cmap() =~= old(self).cmap().insert(
                collection@,
                self.collections@[pos as int],
            ));
            assert forall|i: int| 0 <= i < self.collections@.len() implies (
            #[trigger] self.collections@[i]).wf() by {
                if i != pos {
                    assert(self.collections@[i] == old(self).collections@[i]);
                }
            }
            self.lemma_cmap();
            assert forall|n: Seq<char>|
                n != collection@ && old(self).cmap().contains_key(n) implies final(self).cmap()[n]
                == old(self).cmap()[n] by {
                assert(final(self).cmap()[n] == old(self).cmap().insert(
                    collection@,
                    self.collections@[pos as int],
                )[n]);
            }
        }
        Ok(rid)
    }

    /// Delete a record: succeeds exactly when the collection is known and a
    /// record with this ID is live in it; the record leaves both the
    /// contents and the ID index, and the counter stays, so the ID is not
    /// reused. An unknown collection leaves the store untouched.
    pub fn del_item(&mut self, collection: &str, id: u64) -> (r: bool)
        requires
            old(self).wf(),
        ensures
            final(self).wf(),
            r == (old(self).cmap().contains_key(collection@) && id != UNSET_ID && old(
                self,
            ).cmap()[collection@].contents().contains_key(id)),
            !old(self).cmap().contains_key(collection@) ==> *final(self) == *old(self),
            old(self).cmap().contains_key(collection@) ==> ({
                &&& final(self).cmap().contains_key(collection@)
                &&& final(self).cmap()[collection@].contents() == old(self).cmap()[
                    collection@
                ].contents().remove(id)
                &&& final(self).cmap()[collection@].count == old(self).cmap()[collection@].count
                &&& forall|n: Seq<char>|
                    final(self).cmap().contains_key(n) == old(self).cmap().contains_key(n)
                &&& forall|n: Seq<char>|
                    n != collection@ && old(self).cmap().contains_key(n)
                        ==> final(self).cmap()[n] == old(self).cmap()[n]
                &&& final(self).settings == old(self).settings
                &&& final(self).internals == old(self).internals
                &&& final(self).path == old(self).path
            }),
    {
        let (pos, found) = self.find_coll(collection);
        if !found {
            return false;
        }
        proof {
            self.lemma_cmap();
        }
        let ghost g0 = self.centries();
        let mut c = self.collections.remove(pos);
        let r = c.del(id);
        self.collections.insert(pos, c);
        proof {
            assert(self.collections@ =~= old(self).collections@.update(
                pos as int,
                self.collections@[pos as int],
            ));
            assert(self.centries() =~= g0.update(
                pos as int,
                (collection@, self.collections@[pos as int]),
            ));
            lemma_assoc_update(g0, pos as int, collection@, self.collections@[pos as int]);
            assert(final(self).cmap() =~= old(self).cmap().insert(
                collection@,
                self.collections@[pos as int],
            ));
            assert forall|i: int| 0 <= i < self.collections@.len() implies (
            #[trigger] self.collections@[i]).wf() by {
                if i != pos {
                    assert(self.collections@[i] == old(self).collections@[i]);
                }
            }
            self.lemma_cmap();
            assert forall|n: Seq<char>|
                n != collection@ && old(self).cmap().contains_key(n) implies final(self).cmap()[n]
                == old(self).cmap()[n] by {
                assert(final(self).cmap()[n] == old(self).cmap().insert(
                    collection@,
                    self.collections@[pos as int],
                )[n]);
            }
        }
        r
    }

    /// Raise a collection's allocation counter to at least `cnt`, never
    /// lowering it: how a persisted counter that ran ahead of the largest
    /// live ID is honored when the store is rebuilt, so IDs are not reused
    /// after a crash between index update and counter write. Nothing else
    /// changes; an unknown collection leaves the store untouched.
    pub fn raise_count(&mut self, collection: &str, cnt: u64) -> (r: bool)
        requires
            old(self).wf(),
        ensures
            final(self).wf(),
            r == old(self).cmap().contains_key(collection@),
            !r ==> *final(self) == *old(self),
            r ==> ({
                let c0 = old(self).cmap()[collection@];
                &&& final(self).cmap().contains_key(collection@)
                &&& final(self).cmap()[collection@].count == (if cnt > c0.count {
                    cnt
                } else {
                    c0.count
                })
                &&& final(self).cmap()[collection@].contents() == c0.contents()
                &&& final(self).cmap()[collection@].name@ == collection@
                &&& (forall|n: Seq<char>|
                    final(self).cmap().contains_key(n) == old(self).cmap().contains_key(n))
                &&& (forall|n: Seq<char>|
                    n != collection@ && old(self).cmap().contains_key(n) ==> final(self).cmap()[n]
                        == old(self).cmap()[n])
                &&& final(self).settings == old(self).settings
                &&& final(self).internals == old(self).internals
                &&& final(self).path == old(self).path
            }),
    {
        let (pos, found) = self.find_coll(collection);
        if !found {
            return false;
        }
        proof {
            self.lemma_cmap();
        }
        let ghost g0 = self.centries();
        let mut c = self.collections.remove(pos);
        if cnt > c.count {
            c.count = cnt;
        }
        self.collections.insert(pos, c);
        proof {
            assert(self.collections@ =~= old(self).collections@.update(
                pos as int,
                self.collections@[pos as int],
            ));
            assert(self.centries() =~= g0.update(
                pos as int,
                (collection@, self.collections@[pos as int]),
            ));
            lemma_assoc_update(g0, pos as int, collection@, self.collections@[pos as int]);
            assert(final(self).cmap() =~= old(self).cmap().insert(
                collection@,
                self.collections@[pos as int],
            ));
            assert forall|i: int| 0 <= i < self.collections@.len() implies (
            #[trigger] self.collections@[i]).wf() by {
                if i != pos {
                    assert(self.collections@[i] == old(self).collections@[i]);
                }
            }
            self.lemma_cmap();
            assert forall|n: Seq<char>|
                n != collection@ && old(self).cmap().contains_key(n) implies final(self).cmap()[n]
                == old(self).cmap()[n] by {
                assert(final(self).cmap()[n] == old(self).cmap().insert(
                    collection@,
                    self.collections@[pos as int],
                )[n]);
            }
        }
        true
    }

    /// Path of the token artifact of the external calendar integration.
    pub fn get_pickle(&self) -> (r: String)
        ensures
            r@ == self.path@ + "/token.pickle"@,
    {
        let mut s = self.path.clone();
        s.append("/token.pickle");
        s
    }
}

/// Round-trip law: writing a record (without merging) and reading it back
/// under the ID the write reports yields exactly the written value, carrying
/// that ID. Every store shim realizes `set_item`/`get_item` against
/// `set_outcome_contents`, so the two backends agree on this by contract.
pub proof fn lemma_set_get_round_trip(c: Collection, id: u64, v: ItemView)
    ensures
        set_outcome_contents(c, id, v, false).contains_key(set_ret_id(c, id)),
        set_outcome_contents(c, id, v, false)[set_ret_id(c, id)] == with_id(v, set_ret_id(c, id)),
{
}

/// Copy every record of every collection of `src` into `dst`, creating
/// collections as needed: afterwards each such collection holds its old
/// records overlaid by `src`'s (record by record, keyed by ID), and
/// collections unknown to `src` are untouched. Done once, at first
/// propagation of one backend's data into the other.
pub fn merge_database(src: &Store, dst: &mut Store)
    requires
        src.wf(),
        old(dst).wf(),
    ensures
        final(dst).wf(),
        forall|n: Seq<char>|
            final(dst).cmap().contains_key(n) <==> (old(dst).cmap().contains_key(n)
                || src.cmap().contains_key(n)),
        forall|n: Seq<char>|
            old(dst).cmap().contains_key(n) && !src.cmap().contains_key(n) ==> final(dst).cmap()[n]
                == old(dst).cmap()[n],
        forall|n: Seq<char>|
            src.cmap().contains_key(n) ==> (#[trigger] final(dst).cmap()[n]).contents() == (
            if old(dst).cmap().contains_key(n) {
                old(dst).cmap()[n].contents()
            } else {
                Map::<u64, ItemView>::empty()
            }).union_prefer_right(src.cmap()[n].contents()),
        final(dst).settings == old(dst).settings,
        final(dst).internals == old(dst).internals,
        final(dst).path == old(dst).path,
{
    let mut i: usize = 0;
    while i < src.collections.len()
        invariant
            src.wf(),
            dst.wf(),
            0 <= i <= src.collections@.len(),
            forall|n: Seq<char>|
                dst.cmap().contains_key(n) <==> (old(dst).cmap().contains_key(n) || exists|k: int|
                    0 <= k < i && (#[trigger] src.collections@[k]).name@ == n),
            forall|k: int|
                0 <= k < i ==> (#[trigger] dst.cmap()[src.collections@[k].name@]).contents() == (
                if old(dst).cmap().contains_key(src.collections@[k].name@) {
                    old(dst).cmap()[src.collections@[k].name@].contents()
                } else {
                    Map::<u64, ItemView>::empty()
                }).union_prefer_right(src.collections@[k].contents()),
            forall|n: Seq<char>|
                old(dst).cmap().contains_key(n) && !(exists|k: int|
                    0 <= k < i && (#[trigger] src.collections@[k]).name@ == n) ==> dst.cmap()[n]
                    == old(dst).cmap()[n],
            dst.settings == old(dst).settings,
            dst.internals == old(dst).internals,
            dst.path == old(dst).path,
        decreases src.collections@.len() - i,
    {
        let ghost pre = *dst;
        let cname: String = src.collections[i].name.clone();
        proof {
            src.lemma_cmap();
            assert(!(exists|k: int|
                0 <= k < i && (#[trigger] src.collections@[k]).name@ == cname@)) by {
                if exists|k: int| 0 <= k < i && (#[trigger] src.collections@[k]).name@ == cname@ {
                    let k = choose|k: int|
                        0 <= k < i && (#[trigger] src.collections@[k]).name@ == cname@;
                    assert(src.centries()[k].0 == src.centries()[i as int].0);
                }
            }
        }
        let added = dst.add_collection(cname.as_str());
        let ghost base = dst.cmap()[cname@].contents();
        let ghost mid = *dst;
        proof {
            assert(base == if old(dst).cmap().contains_key(cname@) {
                old(dst).cmap()[cname@].contents()
            } else {
                Map::<u64, ItemView>::empty()
            }) by {
                if added {
                } else {
                    assert(pre.cmap()[cname@] == old(dst).cmap()[cname@]);
                }
            }
        }
        let sc = &src.collections[i];
        let ghost sviews = crate::collection::id_entries(sc.items@);
        let mut j: usize = 0;
        while j < sc.items.len()
            invariant
                src.wf(),
                dst.wf(),
                0 <= i < src.collections@.len(),
                sc == &src.collections@[i as int],
                sviews == crate::collection::id_entries(sc.items@),
                cname@ == sc.name@,
                0 <= j <= sc.items@.len(),
                mid.wf(),
                dst.cmap().contains_key(cname@),
                dst.cmap()[cname@].contents() == base.union_prefer_right(
                    assoc_map(sviews.take(j as int)),
                ),
                forall|n: Seq<char>|
                    dst.cmap().contains_key(n) == mid.cmap().contains_key(n),
                forall|n: Seq<char>|
                    n != cname@ && mid.cmap().contains_key(n) ==> dst.cmap()[n] == mid.cmap()[n],
                dst.settings == mid.settings,
                dst.internals == mid.internals,
                dst.path == mid.path,
            decreases sc.items@.len() - j,
        {
            proof {
                assert(sc.items@[j as int].inv());
                assert(sc.items@[j as int].id != UNSET_ID);
            }
            let res = dst.set_item(cname.as_str(), &sc.items[j], false);
            proof {
                assert(res is Ok);
                let it = sc.items@[j as int];
                assert(with_id(it.deep_view(), it.id) =~~= it.deep_view());
                assert(sviews.take(j as int + 1).drop_last() =~= sviews.take(j as int));
                assert(sviews.take(j as int + 1).last() == (it.deep_view().id, it.deep_view()));
                assert(dst.cmap()[cname@].contents() =~= base.union_prefer_right(
                    assoc_map(sviews.take(j as int + 1)),
                ));
            }
            j += 1;
        }
        proof {
            assert(sviews.take(sc.items@.len() as int) =~= sviews);
            assert(dst.cmap()[cname@].contents() == base.union_prefer_right(
                sc.contents(),
            ));
            assert forall|n: Seq<char>|
                dst.cmap().contains_key(n) <==> (old(dst).cmap().contains_key(n) || exists|k: int|
                    0 <= k < i + 1 && (#[trigger] src.collections@[k]).name@ == n) by {
                assert(dst.cmap().contains_key(n) == mid.cmap().contains_key(n));
                if n == cname@ {
                    assert(src.collections@[i as int].name@ == n);
                } else {
                    assert(mid.cmap().contains_key(n) == pre.cmap().contains_key(n));
                    if dst.cmap().contains_key(n) {
                        assert(pre.cmap().contains_key(n));
                    }
                    if exists|k: int|
                        0 <= k < i + 1 && (#[trigger] src.collections@[k]).name@ == n {
                        let k = choose|k: int|
                            0 <= k < i + 1 && (#[trigger] src.collections@[k]).name@ == n;
                        assert(k < i);
                        assert(pre.cmap().contains_key(n));
                    }
                }
            }
            assert forall|k: int| 0 <= k < i + 1 implies (
            #[trigger] dst.cmap()[src.collections@[k].name@]).contents() == (
            if old(dst).cmap().contains_key(src.collections@[k].name@) {
                old(dst).cmap()[src.collections@[k].name@].contents()
            } else {
                Map::<u64, ItemView>::empty()
            }).union_prefer_right(src.collections@[k].contents()) by {
                let n = src.collections@[k].name@;
                if k < i {
                    assert(src.centries()[k].0 != src.centries()[i as int].0);
                    assert(n != cname@);
                    assert(pre.cmap().contains_key(n));
                    assert(mid.cmap().contains_key(n) && mid.cmap()[n] == pre.cmap()[n]);
                    assert(dst.cmap()[n] == mid.cmap()[n]);
                }
            }
            assert forall|n: Seq<char>|
                old(dst).cmap().contains_key(n) && !(exists|k: int|
                    0 <= k < i + 1 && (#[trigger] src.collections@[k]).name@ == n) implies dst.cmap()[n]
                    == old(dst).cmap()[n] by {
                assert(n != cname@) by {
                    assert(src.collections@[i as int].name@ == cname@);
                }
                assert(!(exists|k: int|
                    0 <= k < i && (#[trigger] src.collections@[k]).name@ == n));
                assert(pre.cmap().contains_key(n) && pre.cmap()[n] == old(dst).cmap()[n]);
                assert(mid.cmap().contains_key(n) && mid.cmap()[n] == pre.cmap()[n]);
                assert(dst.cmap()[n] == mid.cmap()[n]);
            }
        }
        i += 1;
    }
    proof {
        src.lemma_cmap();
        assert forall|n: Seq<char>| src.cmap().contains_key(n) implies (
        #[trigger] final(dst).cmap()[n]).contents() == (
        if old(dst).cmap().contains_key(n) {
            old(dst).cmap()[n].contents()
        } else {
            Map::<u64, ItemView>::empty()
        }).union_prefer_right(src.cmap()[n].contents()) by {
            let k = choose|k: int|
                0 <= k < src.collections@.len() && (#[trigger] src.collections@[k]).name@ == n;
            assert(src.cmap()[n] == src.collections@[k]);
            assert(dst.cmap()[src.collections@[k].name@].contents() == (
            if old(dst).cmap().contains_key(src.collections@[k].name@) {
                old(dst).cmap()[src.collections@[k].name@].contents()
            } else {
                Map::<u64, ItemView>::empty()
            }).union_prefer_right(src.collections@[k].contents()));
        }
    }
}

} // verus!
