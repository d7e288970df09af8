//! A named collection of records: an ID-sorted set of `Item`s plus the
//! monotonic counter used to allocate IDs for records submitted without one.
use crate::item::Item;
use crate::item::ItemView;
use crate::item::UNSET_ID;
use crate::item::assoc_map;
use crate::item::distinct_keys;
use crate::item::lemma_assoc_at;
use crate::item::lemma_assoc_contains;
use crate::item::lemma_assoc_insert_at;
use crate::item::lemma_assoc_remove;
use crate::item::lemma_assoc_update;
use vstd::prelude::*;

verus! {

/// The abstract values of a sequence of records.
pub open spec fn item_views(s: Seq<Item>) -> Seq<ItemView> {
    s.map_values(|it: Item| it.deep_view())
}

/// The records of a sequence, keyed by their IDs.
pub open spec fn id_entries(s: Seq<Item>) -> Seq<(u64, ItemView)> {
    s.map_values(|it: Item| (it.deep_view().id, it.deep_view()))
}

/// A record value with its ID replaced.
pub open spec fn with_id(v: ItemView, id: u64) -> ItemView {
    ItemView { id, ..v }
}

/// An unbounded lower range bound is written as the unset ID.
pub open spec fn eff_min(id_min: u64) -> u64 {
    if id_min == UNSET_ID {
        0
    } else {
        id_min
    }
}

/// An unset skip means no skip.
pub open spec fn eff_skip(skip: u64) -> u64 {
    if skip == UNSET_ID {
        0
    } else {
        skip
    }
}

pub open spec fn in_id_range(id: u64, id_min: u64, id_max: u64) -> bool {
    eff_min(id_min) <= id && id <= id_max
}

/// The records of `s` whose IDs fall in the range, in order.
pub open spec fn range_filter(s: Seq<ItemView>, id_min: u64, id_max: u64) -> Seq<ItemView>
    decreases s.len(),
{
    if s.len() == 0 {
        Seq::empty()
    } else if in_id_range(s.last().id, id_min, id_max) {
        range_filter(s.drop_last(), id_min, id_max).push(s.last())
    } else {
        range_filter(s.drop_last(), id_min, id_max)
    }
}

/// One page of a match list: `limit` entries starting at `skip`; an unset
/// limit means no limit; both bounds are clamped to the list.
pub open spec fn page_window(s: Seq<ItemView>, skip: u64, limit: u64) -> Seq<ItemView> {
    let lo = if skip as int <= s.len() {
        skip as int
    } else {
        s.len() as int
    };
    let hi = if limit == UNSET_ID || skip as int + limit as int > s.len() {
        s.len() as int
    } else {
        skip as int + limit as int
    };
    if lo <= hi {
        s.subrange(lo, hi)
    } else {
        s.subrange(lo, lo)
    }
}

/// A named, unordered set of records plus the ID-allocation counter. The
/// records are kept sorted by ID so that listing order is deterministic.
pub struct Collection {
    pub name: String,
    pub count: u64,
    pub items: Vec<Item>,
    pub settings: Item,
}

impl Collection {
    /// The live records, keyed by ID.
    pub open spec fn contents(self) -> Map<u64, ItemView> {
        assoc_map(id_entries(self.items@))
    }

    /// Well-formed: IDs strictly ascending, never the sentinel, all dominated
    /// by the counter; every record well-formed.
    pub open spec fn wf(self) -> bool {
        &&& forall|i: int, j: int|
            0 <= i < j < self.items@.len() ==> (#[trigger] self.items@[i]).id < (
            #[trigger] self.items@[j]).id
        &&& forall|i: int|
            0 <= i < self.items@.len() ==> (#[trigger] self.items@[i]).id != UNSET_ID
        &&& forall|i: int| 0 <= i < self.items@.len() ==> (#[trigger] self.items@[i]).id <= self.count
        &&& forall|i: int| 0 <= i < self.items@.len() ==> (#[trigger] self.items@[i]).inv()
        &&& self.settings.inv()
    }

    proof fn lemma_distinct(self)
        requires
            self.wf(),
        ensures
            distinct_keys(id_entries(self.items@)),
    {
        let s = id_entries(self.items@);
        assert forall|i: int, j: int| 0 <= i < j < s.len() implies (#[trigger] s[i]).0 != (
        #[trigger] s[j]).0 by {
            assert(self.items@[i].id < self.items@[j].id);
        }
    }

    /// Which IDs are live: exactly the IDs of the stored records.
    pub proof fn lemma_contents_ids(self)
        requires
            self.wf(),
        ensures
            forall|id: u64|
                self.contents().contains_key(id) <==> exists|i: int|
                    0 <= i < self.items@.len() && (#[trigger] self.items@[i]).id == id,
            forall|i: int|
                0 <= i < self.items@.len() ==> self.contents().contains_key(
                    (#[trigger] self.items@[i]).id,
                ) && self.contents()[self.items@[i].id] == self.items@[i].deep_view(),
    {
        self.lemma_distinct();
        let s = id_entries(self.items@);
        assert forall|id: u64|
            self.contents().contains_key(id) <==> exists|i: int|
                0 <= i < self.items@.len() && (#[trigger] self.items@[i]).id == id by {
            lemma_assoc_contains(s, id);
            if exists|i: int| 0 <= i < s.len() && (#[trigger] s[i]).0 == id {
                let i = choose|i: int| 0 <= i < s.len() && (#[trigger] s[i]).0 == id;
                assert(self.items@[i].id == id);
            }
            if exists|i: int| 0 <= i < self.items@.len() && (#[trigger] self.items@[i]).id == id {
                let i = choose|i: int|
                    0 <= i < self.items@.len() && (#[trigger] self.items@[i]).id == id;
                assert(s[i].0 == id);
            }
        }
        assert forall|i: int| 0 <= i < self.items@.len() implies self.contents().contains_key(
            (#[trigger] self.items@[i]).id,
        ) && self.contents()[self.items@[i].id] == self.items@[i].deep_view() by {
            lemma_assoc_at(s, i);
        }
    }

    pub fn new() -> (r: Collection)
        ensures
            r.wf(),
            r.count == 0,
            r.contents() =~= Map::<u64, ItemView>::empty(),
            r.name@ == Seq::<char>::empty(),
    {
        Collection { name: String::new(), count: 0, items: Vec::new(), settings: Item::new() }
    }

    /// Index of the record with this ID, or the insertion point keeping the
    /// records sorted.
    fn locate(&self, id: u64) -> (r: (usize, bool))
        requires
            self.wf(),
        ensures
            r.0 <= self.items@.len(),
            r.1 ==> r.0 < self.items@.len() && self.items@[r.0 as int].id == id
                && self.contents().contains_key(id),
            !r.1 ==> !self.contents().contains_key(id),
            !r.1 ==> forall|j: int| 0 <= j < r.0 ==> (#[trigger] self.items@[j]).id < id,
            !r.1 ==> (r.0 < self.items@.len() ==> self.items@[r.0 as int].id > id),
    {
        let mut i: usize = 0;
        while i < self.items.len() && self.items[i].id < id
            invariant
                self.wf(),
                0 <= i <= self.items@.len(),
                forall|j: int| 0 <= j < i ==> (#[trigger] self.items@[j]).id < id,
            decreases self.items@.len() - i,
        {
            i += 1;
        }
        proof {
            self.lemma_contents_ids();
        }
        if i < self.items.len() && self.items[i].id == id {
            (i, true)
        } else {
            proof {
                if self.contents().contains_key(id) {
                    let j = choose|j: int|
                        0 <= j < self.items@.len() && (#[trigger] self.items@[j]).id == id;
                    if j < i {
                    } else if j > i {
                        assert(self.items@[i as int].id < self.items@[j].id);
                    }
                }
            }
            (i, false)
        }
    }

    /// The record with this ID, or nothing.
    pub fn get(&self, id: u64) -> (r: Option<Item>)
        requires
            self.wf(),
        ensures
            match r {
                Some(v) => self.contents().contains_key(id) && v.deep_view() == self.contents()[id]
                    && v.inv() && v.id == id,
                None => !self.contents().contains_key(id),
            },
    {
        let (i, found) = self.locate(id);
        if found {
            proof {
                self.lemma_contents_ids();
                assert(self.items@[i as int].inv());
            }
            Some(self.items[i].dup())
        } else {
            None
        }
    }

    /// Write a record. An unset `id` allocates the next counter value; an
    /// explicit `id` overwrites, or merges when `merge` is set and a record
    /// with that ID exists. The counter never decreases, and a freshly
    /// allocated ID never collides with a live record.
    #[verifier::rlimit(60)]
    pub fn set(&mut self, id: u64, itm: Item, merge: bool) -> (ret_id: u64)
        requires
            old(self).wf(),
            itm.inv(),
            id == UNSET_ID ==> old(self).count < u64::MAX - 1,
        ensures
            final(self).wf(),
            final(self).count >= old(self).count,
            final(self).name == old(self).name,
            final(self).settings == old(self).settings,
            ret_id != UNSET_ID,
            id == UNSET_ID ==> ret_id == old(self).count + 1 && !old(self).contents().contains_key(
                ret_id,
            ) && final(self).count == old(self).count + 1 && final(self).contents() == old(
                self,
            ).contents().insert(ret_id, with_id(itm.deep_view(), ret_id)),
            id != UNSET_ID ==> ret_id == id,
            id != UNSET_ID && old(self).contents().contains_key(id) ==> final(self).count == old(
                self,
            ).count && final(self).contents() == old(self).contents().insert(
                id,
                if merge {
                    ItemView::merged(old(self).contents()[id], itm.deep_view())
                } else {
                    with_id(itm.deep_view(), id)
                },
            ),
            id != UNSET_ID && !old(self).contents().contains_key(id) ==> final(self).count == (
            if id > old(self).count {
                id
            } else {
                old(self).count
            }) && final(self).contents() == old(self).contents().insert(
                id,
                with_id(itm.deep_view(), id),
            ),
    {
        proof {
            self.lemma_distinct();
        }
        let (pos, found) = self.locate(id);
        if found {
            proof {
                self.lemma_contents_ids();
                assert(self.items@[pos as int].inv());
            }
            let stored: Item = if merge {
                let mut m = self.items[pos].dup();
                m.merge(&itm);
                m
            } else {
                let mut m = itm;
                m.id = id;
                m
            };
            proof {
                lemma_assoc_update(
                    id_entries(self.items@),
                    pos as int,
                    id,
                    stored.deep_view(),
                );
            }
            self.items.set(pos, stored);
            proof {
                assert(id_entries(self.items@) =~= id_entries(old(self).items@).update(
                    pos as int,
                    (id, stored.deep_view()),
                ));
                assert(final(self).contents() =~= old(self).contents().insert(
                    id,
                    stored.deep_view(),
                ));
            }
            id
        } else {
            let ret_id: u64 = if id == u64::MAX {
                self.count + 1
            } else {
                id
            };
            let mut stored = itm;
            stored.id = ret_id;
            if id == u64::MAX {
                self.count = self.count + 1;
            } else if id > self.count {
                self.count = id;
            }
            proof {
                self.lemma_contents_ids();
                assert forall|j: int| 0 <= j < id_entries(self.items@).len() implies (
                #[trigger] id_entries(self.items@)[j]).0 != ret_id by {
                    if id == u64::MAX {
                        assert(self.items@[j].id <= old(self).count);
                    } else {
                        assert(self.items@[j].id == id_entries(self.items@)[j].0);
                    }
                }
                lemma_assoc_insert_at(
                    id_entries(self.items@),
                    pos as int,
                    ret_id,
                    stored.deep_view(),
                );
                if id == u64::MAX {
                    assert forall|j: int| 0 <= j < pos implies (#[trigger] self.items@[j]).id
                        < ret_id by {
                        assert(self.items@[j].id <= old(self).count);
                    }
                }
            }
            self.items.insert(pos, stored);
            proof {
                assert(id_entries(self.items@) =~= id_entries(old(self).items@).insert(
                    pos as int,
                    (ret_id, stored.deep_view()),
                ));
                assert(final(self).contents() =~= old(self).contents().insert(
                    ret_id,
                    stored.deep_view(),
                ));
                assert forall|a: int, b: int| 0 <= a < b < self.items@.len() implies (
                #[trigger] self.items@[a]).id < (#[trigger] self.items@[b]).id by {
                    if a < pos && b == pos {
                        assert(self.items@[a] == old(self).items@[a]);
                    } else if a == pos && b > pos {
                        assert(self.items@[b] == old(self).items@[b - 1]);
                    } else if a < pos && b > pos {
                        assert(self.items@[a] == old(self).items@[a]);
                        assert(self.items@[b] == old(self).items@[b - 1]);
                    } else if a > pos && b > pos {
                        assert(self.items@[a] == old(self).items@[a - 1]);
                        assert(self.items@[b] == old(self).items@[b - 1]);
                    }
                }
            }
            ret_id
        }
    }

    /// Delete a record. Succeeds exactly when a record with this ID is live;
    /// the counter is untouched, so the ID is not reused later.
    pub fn del(&mut self, id: u64) -> (r: bool)
        requires
            old(self).wf(),
        ensures
            final(self).wf(),
            r == (id != UNSET_ID && old(self).contents().contains_key(id)),
            final(self).contents() == old(self).contents().remove(id),
            final(self).count == old(self).count,
            final(self).name == old(self).name,
            final(self).settings == old(self).settings,
    {
        proof {
            self.lemma_distinct();
        }
        if id == u64::MAX {
            proof {
                self.lemma_contents_ids();
                assert(final(self).contents() =~= old(self).contents().remove(id));
            }
            return false;
        }
        let (pos, found) = self.locate(id);
        if found {
            proof {
                lemma_assoc_remove(id_entries(self.items@), pos as int);
            }
            self.items.remove(pos);
            proof {
                assert(id_entries(self.items@) =~= id_entries(old(self).items@).remove(
                    pos as int,
                ));
                assert(final(self).contents() =~= old(self).contents().remove(id));
                assert forall|a: int, b: int| 0 <= a < b < self.items@.len() implies (
                #[trigger] self.items@[a]).id < (#[trigger] self.items@[b]).id by {
                    if b < pos {
                        assert(self.items@[a] == old(self).items@[a]);
                        assert(self.items@[b] == old(self).items@[b]);
                    } else if a < pos {
                        assert(self.items@[a] == old(self).items@[a]);
                        assert(self.items@[b] == old(self).items@[b + 1]);
                    } else {
                        assert(self.items@[a] == old(self).items@[a + 1]);
                        assert(self.items@[b] == old(self).items@[b + 1]);
                    }
                }
            }
            true
        } else {
            proof {
                assert(final(self).contents() =~= old(self).contents().remove(id));
            }
            false
        }
    }

    /// All live records, sorted by ID.
    pub fn get_all(&self) -> (r: &Vec<Item>)
        ensures
            r@ == self.items@,
    {
        &self.items
    }

    /// One page of the records whose IDs fall in the range: `limit` matches
    /// starting at match number `skip`, in ascending ID order, together with
    /// the total number of matches regardless of `skip` and `limit`.
    pub fn page(&self, id_min: u64, id_max: u64, skip: u64, limit: u64) -> (r: (Vec<Item>, u64))
        requires
            self.wf(),
        ensures
            item_views(r.0@) == page_window(
                range_filter(item_views(self.items@), id_min, id_max),
                eff_skip(skip),
                limit,
            ),
            r.1 as int == range_filter(item_views(self.items@), id_min, id_max).len(),
            forall|i: int| 0 <= i < r.0@.len() ==> (#[trigger] r.0@[i]).inv(),
    {
        let ghost allv = item_views(self.items@);
        let lo: u64 = if id_min == u64::MAX {
            0
        } else {
            id_min
        };
        let esk: u64 = if skip == u64::MAX {
            0
        } else {
            skip
        };
        let mut out: Vec<Item> = Vec::new();
        let mut matched: u64 = 0;
        let mut i: usize = 0;
        while i < self.items.len()
            invariant
                self.wf(),
                allv == item_views(self.items@),
                lo == eff_min(id_min),
                esk == eff_skip(skip),
                0 <= i <= self.items@.len(),
                matched as int <= i as int,
                matched as int == range_filter(allv.take(i as int), id_min, id_max).len(),
                item_views(out@) == page_window(
                    range_filter(allv.take(i as int), id_min, id_max),
                    esk,
                    limit,
                ),
                forall|j: int| 0 <= j < out@.len() ==> (#[trigger] out@[j]).inv(),
            decreases self.items@.len() - i,
        {
            let ghost f = range_filter(allv.take(i as int), id_min, id_max);
            proof {
                assert(allv.take(i as int + 1).drop_last() =~= allv.take(i as int));
                assert(allv.take(i as int + 1).last() == self.items@[i as int].deep_view());
                assert(out@.len() == item_views(out@).len());
            }
            let ghost f1 = range_filter(allv.take(i as int + 1), id_min, id_max);
            let matches: bool = self.items[i].id >= lo && self.items[i].id <= id_max;
            if matches {
                proof {
                    assert(f1 == f.push(self.items@[i as int].deep_view()));
                }
                if matched >= esk && (limit == u64::MAX || (out.len() as u64) < limit) {
                    proof {
                        assert(self.items@[i as int].inv());
                        assert(page_window(f1, esk, limit) =~= page_window(f, esk, limit).push(
                            self.items@[i as int].deep_view(),
                        ));
                    }
                    out.push(self.items[i].dup());
                    proof {
                        assert(item_views(out@) =~= page_window(f1, esk, limit));
                    }
                } else {
                    proof {
                        assert(page_window(f1, esk, limit) =~= page_window(f, esk, limit));
                    }
                }
                matched = matched + 1;
            } else {
                proof {
                    assert(f1 == f);
                }
            }
            i += 1;
        }
        proof {
            assert(allv.take(self.items@.len() as int) =~= allv);
        }
        (out, matched)
    }

    /// The records in the ID range, ascending, at most `limit` of them (an
    /// unset limit means all).
    pub fn get_range(&self, id_min: u64, id_max: u64, limit: u64) -> (r: Vec<Item>)
        requires
            self.wf(),
        ensures
            item_views(r@) == page_window(
                range_filter(item_views(self.items@), id_min, id_max),
                0,
                limit,
            ),
            forall|i: int| 0 <= i < r@.len() ==> (#[trigger] r@[i]).inv(),
    {
        let (out, _total) = self.page(id_min, id_max, 0, limit);
        out
    }
}

/// The first `n` pages of a match list, fetched by walking `skip` in
/// `limit`-sized steps, concatenated in order.
pub open spec fn pages_concat(m: Seq<ItemView>, limit: u64, n: nat) -> Seq<ItemView>
    decreases n,
{
    if n == 0 {
        Seq::empty()
    } else {
        pages_concat(m, limit, (n - 1) as nat) + page_window(
            m,
            ((n - 1) * limit) as u64,
            limit,
        )
    }
}

/// Pagination law: walking `skip` in `limit`-sized steps recovers, in order
/// and without overlap, exactly the prefix of the match list those pages
/// span; with enough pages, exactly the whole match list implied by one
/// unpaginated fetch. Together with `page`'s guarantee that the reported
/// total is the match count whatever `skip` and `limit` are, this is the
/// pagination invariant.
pub proof fn lemma_pagination_covers(m: Seq<ItemView>, limit: u64, n: nat)
    requires
        1 <= limit,
        limit < UNSET_ID,
        n * limit <= u64::MAX,
    ensures
        n * limit <= m.len() ==> pages_concat(m, limit, n) == m.take((n * limit) as int),
        n * limit > m.len() ==> pages_concat(m, limit, n) == m,
    decreases n,
{
    if n == 0 {
        assert(n * limit == 0) by (nonlinear_arith)
            requires
                n == 0,
        ;
        assert(pages_concat(m, limit, n) =~= m.take((n * limit) as int));
    } else {
        assert((n - 1) * limit >= 0 && (n - 1) * limit + limit == n * limit) by (nonlinear_arith)
            requires
                n >= 1,
                limit >= 1,
        ;
        lemma_pagination_covers(m, limit, (n - 1) as nat);
        let s = ((n - 1) * limit) as u64;
        if n * limit <= m.len() {
            assert(pages_concat(m, limit, n) =~= m.take((n * limit) as int));
        } else if (n - 1) * limit <= m.len() {
            assert(pages_concat(m, limit, n) =~= m);
        } else {
            assert(page_window(m, s, limit) =~= Seq::<ItemView>::empty());
            assert(pages_concat(m, limit, n) =~= m);
        }
    }
}

/// ID uniqueness law: in a well-formed collection every live ID is bounded by
/// the counter, so the ID that the next unset-ID write will allocate collides
/// with no live record; since neither `set` nor `del` ever decreases the
/// counter, IDs of records written with unset IDs are never reused, even
/// after deletions.
pub proof fn lemma_alloc_fresh(c: Collection)
    requires
        c.wf(),
        c.count < u64::MAX,
    ensures
        !c.contents().contains_key((c.count + 1) as u64),
        forall|id: u64| c.contents().contains_key(id) ==> id <= c.count,
{
    c.lemma_contents_ids();
    assert forall|id: u64| c.contents().contains_key(id) implies id <= c.count by {
        let i = choose|i: int| 0 <= i < c.items@.len() && (#[trigger] c.items@[i]).id == id;
        assert(c.items@[i].id <= c.count);
    }
}

} // verus!
