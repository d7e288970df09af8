//! The schema-less typed record ("Item"): a bag of independently typed
//! attribute maps keyed by name, identified by a 64-bit ID.
use vstd::prelude::*;

verus! {

/// Mathematical content of an association list: later entries win.
pub open spec fn assoc_map<KT, VT>(s: Seq<(KT, VT)>) -> Map<KT, VT>
    decreases s.len(),
{
    if s.len() == 0 {
        Map::empty()
    } else {
        assoc_map(s.drop_last()).insert(s.last().0, s.last().1)
    }
}

/// No two entries of the association list carry the same key.
pub open spec fn distinct_keys<KT, VT>(s: Seq<(KT, VT)>) -> bool {
    forall|i: int, j: int| 0 <= i < j < s.len() ==> (#[trigger] s[i]).0 != (#[trigger] s[j]).0
}

pub proof fn lemma_assoc_contains<KT, VT>(s: Seq<(KT, VT)>, k: KT)
    ensures
        assoc_map(s).contains_key(k) <==> exists|i: int|
            0 <= i < s.len() && (#[trigger] s[i]).0 == k,
    decreases s.len(),
{
    if s.len() > 0 {
        lemma_assoc_contains(s.drop_last(), k);
        if s.last().0 == k {
            assert(s[s.len() - 1].0 == k);
        } else {
            if assoc_map(s).contains_key(k) {
                let i = choose|i: int| 0 <= i < s.drop_last().len() && (#[trigger] s.drop_last()[i]).0 == k;
                assert(s[i].0 == k);
            }
            if exists|i: int| 0 <= i < s.len() && (#[trigger] s[i]).0 == k {
                let i = choose|i: int| 0 <= i < s.len() && (#[trigger] s[i]).0 == k;
                assert(s.drop_last()[i].0 == k);
            }
        }
    }
}

pub proof fn lemma_assoc_at<KT, VT>(s: Seq<(KT, VT)>, i: int)
    requires
        distinct_keys(s),
        0 <= i < s.len(),
    ensures
        assoc_map(s).contains_key(s[i].0),
        assoc_map(s)[s[i].0] == s[i].1,
    decreases s.len(),
{
    if i == s.len() - 1 {
    } else {
        assert(s.drop_last()[i] == s[i]);
        lemma_assoc_at(s.drop_last(), i);
        assert(s.last().0 != s[i].0);
    }
}

pub proof fn lemma_assoc_update<KT, VT>(s: Seq<(KT, VT)>, i: int, k: KT, v: VT)
    requires
        distinct_keys(s),
        0 <= i < s.len(),
        k == s[i].0,
    ensures
        assoc_map(s.update(i, (k, v))) =~= assoc_map(s).insert(k, v),
        distinct_keys(s.update(i, (k, v))),
    decreases s.len(),
{
    let t = s.update(i, (k, v));
    assert forall|a: int, b: int| 0 <= a < b < t.len() implies (#[trigger] t[a]).0 != (#[trigger] t[b]).0 by {
        assert(s[a].0 != s[b].0);
    }
    if i == s.len() - 1 {
        assert(t.drop_last() =~= s.drop_last());
    } else {
        assert(t.drop_last() =~= s.drop_last().update(i, (k, v)));
        assert(s.drop_last()[i] == s[i]);
        lemma_assoc_update(s.drop_last(), i, k, v);
        assert(s.last().0 != k);
        assert(t.last() == s.last());
    }
}

pub proof fn lemma_assoc_push<KT, VT>(s: Seq<(KT, VT)>, k: KT, v: VT)
    requires
        distinct_keys(s),
        forall|i: int| 0 <= i < s.len() ==> (#[trigger] s[i]).0 != k,
    ensures
        assoc_map(s.push((k, v))) =~= assoc_map(s).insert(k, v),
        distinct_keys(s.push((k, v))),
{
    assert(s.push((k, v)).drop_last() =~= s);
    assert(s.push((k, v)).last() == (k, v));
}

pub proof fn lemma_assoc_insert_at<KT, VT>(s: Seq<(KT, VT)>, i: int, k: KT, v: VT)
    requires
        distinct_keys(s),
        0 <= i <= s.len(),
        forall|j: int| 0 <= j < s.len() ==> (#[trigger] s[j]).0 != k,
    ensures
        assoc_map(s.insert(i, (k, v))) =~= assoc_map(s).insert(k, v),
        distinct_keys(s.insert(i, (k, v))),
    decreases s.len(),
{
    let t = s.insert(i, (k, v));
    assert forall|a: int, b: int| 0 <= a < b < t.len() implies (#[trigger] t[a]).0 != (#[trigger] t[b]).0 by {
        if a < i && b < i {
            assert(t[a] == s[a] && t[b] == s[b]);
        } else if a < i && b == i {
            assert(t[a] == s[a]);
        } else if a < i && b > i {
            assert(t[a] == s[a] && t[b] == s[b - 1]);
        } else if a == i {
            assert(t[b] == s[b - 1]);
        } else {
            assert(t[a] == s[a - 1] && t[b] == s[b - 1]);
        }
    }
    if i == s.len() {
        assert(t =~= s.push((k, v)));
        lemma_assoc_push(s, k, v);
    } else {
        assert(t.last() == s.last());
        assert(t.drop_last() =~= s.drop_last().insert(i, (k, v)));
        assert(forall|j: int| 0 <= j < s.drop_last().len() ==> (#[trigger] s.drop_last()[j]).0 != k);
        lemma_assoc_insert_at(s.drop_last(), i, k, v);
        assert(s.last().0 != k);
    }
}

pub proof fn lemma_assoc_remove<KT, VT>(s: Seq<(KT, VT)>, i: int)
    requires
        distinct_keys(s),
        0 <= i < s.len(),
    ensures
        assoc_map(s.remove(i)) =~= assoc_map(s).remove(s[i].0),
        distinct_keys(s.remove(i)),
    decreases s.len(),
{
    let t = s.remove(i);
    assert forall|a: int, b: int| 0 <= a < b < t.len() implies (#[trigger] t[a]).0 != (#[trigger] t[b]).0 by {
        if a < i && b < i {
            assert(t[a] == s[a] && t[b] == s[b]);
        } else if a < i {
            assert(t[a] == s[a] && t[b] == s[b + 1]);
        } else {
            assert(t[a] == s[a + 1] && t[b] == s[b + 1]);
        }
    }
    if i == s.len() - 1 {
        assert(t =~= s.drop_last());
        lemma_assoc_contains(t, s[i].0);
        assert(forall|j: int| 0 <= j < t.len() ==> (#[trigger] t[j]).0 != s[i].0);
        assert(assoc_map(s.remove(i)) =~= assoc_map(s).remove(s[i].0)) by {
            lemma_assoc_remove_absent(t, s[i].0);
        }
    } else {
        assert(t.last() == s.last());
        assert(t.drop_last() =~= s.drop_last().remove(i));
        assert(s.drop_last()[i] == s[i]);
        lemma_assoc_remove(s.drop_last(), i);
        assert(s.last().0 != s[i].0);
    }
}

/// Removing a key that no entry carries does not change the map.
proof fn lemma_assoc_remove_absent<KT, VT>(s: Seq<(KT, VT)>, k: KT)
    requires
        forall|j: int| 0 <= j < s.len() ==> (#[trigger] s[j]).0 != k,
    ensures
        assoc_map(s).remove(k) =~= assoc_map(s),
    decreases s.len(),
{
    lemma_assoc_contains(s, k);
}

/// A key type of the record's attribute maps: comparable and copyable, with
/// both operations pinned to the key's abstract (deep) view.
pub trait DictKey: DeepView + Sized {
    fn key_eq(&self, other: &Self) -> (r: bool)
        ensures
            r <==> self.deep_view() == other.deep_view(),
    ;

    fn key_dup(&self) -> (r: Self)
        ensures
            r.deep_view() == self.deep_view(),
    ;
}

/// A value type of the record's attribute maps. `inv` is the value's own
/// well-formedness; `dup` is a copy that preserves the abstract view.
pub trait DictValue: DeepView + Sized {
    spec fn inv(&self) -> bool;

    fn dup(&self) -> (r: Self)
        requires
            self.inv(),
        ensures
            r.inv(),
            r.deep_view() == self.deep_view(),
    ;
}

impl DictKey for String {
    fn key_eq(&self, other: &Self) -> (r: bool) {
        let r = self.eq(other);
        proof {
            assert(self.deep_view() == self@);
            assert(other.deep_view() == other@);
        }
        r
    }

    fn key_dup(&self) -> (r: Self) {
        self.clone()
    }
}

impl DictKey for u64 {
    fn key_eq(&self, other: &Self) -> (r: bool) {
        *self == *other
    }

    fn key_dup(&self) -> (r: Self) {
        *self
    }
}

impl DictValue for String {
    open spec fn inv(&self) -> bool {
        true
    }

    fn dup(&self) -> (r: Self) {
        self.clone()
    }
}

impl DictValue for u64 {
    open spec fn inv(&self) -> bool {
        true
    }

    fn dup(&self) -> (r: Self) {
        *self
    }
}

impl DictValue for bool {
    open spec fn inv(&self) -> bool {
        true
    }

    fn dup(&self) -> (r: Self) {
        *self
    }
}

/// One typed attribute map of a record: an association list with unique keys,
/// viewed abstractly as a `Map`.
pub struct Dict<K, V> {
    pub entries: Vec<(K, V)>,
}

impl<K: DeepView, V: DeepView> Dict<K, V> {
    /// The entries, abstracted to (key view, value view) pairs.
    pub open spec fn pairs(self) -> Seq<(K::V, V::V)> {
        self.entries@.map_values(|p: (K, V)| (p.0.deep_view(), p.1.deep_view()))
    }
}

impl<K: DeepView, V: DeepView> DeepView for Dict<K, V> {
    type V = Map<K::V, V::V>;

    open spec fn deep_view(&self) -> Map<K::V, V::V> {
        assoc_map(self.pairs())
    }
}

impl<K: DictKey, V: DictValue> Dict<K, V> {
    /// Well-formed: keys unique, every value well-formed.
    pub open spec fn wf(self) -> bool {
        &&& distinct_keys(self.pairs())
        &&& forall|i: int| 0 <= i < self.entries@.len() ==> (#[trigger] self.entries@[i]).1.inv()
    }

    pub fn new() -> (r: Self)
        ensures
            r.wf(),
            r.deep_view() =~= Map::<K::V, V::V>::empty(),
    {
        Dict { entries: Vec::new() }
    }

    pub fn get<'a>(&'a self, key: &K) -> (r: Option<&'a V>)
        requires
            self.wf(),
        ensures
            match r {
                Some(v) => self.deep_view().contains_key(key.deep_view()) && v.deep_view()
                    == self.deep_view()[key.deep_view()] && v.inv(),
                None => !self.deep_view().contains_key(key.deep_view()),
            },
    {
        let mut i: usize = 0;
        while i < self.entries.len()
            invariant
                self.wf(),
                0 <= i <= self.entries@.len(),
                forall|j: int| 0 <= j < i ==> (#[trigger] self.pairs()[j]).0 != key.deep_view(),
            decreases self.entries@.len() - i,
        {
            if self.entries[i].0.key_eq(key) {
                proof {
                    lemma_assoc_at(self.pairs(), i as int);
                }
                return Some(&self.entries[i].1);
            }
            i += 1;
        }
        proof {
            lemma_assoc_contains(self.pairs(), key.deep_view());
        }
        None
    }

    pub fn contains_key(&self, key: &K) -> (r: bool)
        requires
            self.wf(),
        ensures
            r == self.deep_view().contains_key(key.deep_view()),
    {
        self.get(key).is_some()
    }

    pub fn insert(&mut self, key: K, value: V)
        requires
            old(self).wf(),
            value.inv(),
        ensures
            final(self).wf(),
            final(self).deep_view() =~= old(self).deep_view().insert(
                key.deep_view(),
                value.deep_view(),
            ),
    {
        let mut i: usize = 0;
        while i < self.entries.len()
            invariant
                self.wf(),
                value.inv(),
                self == old(self),
                0 <= i <= self.entries@.len(),
                forall|j: int| 0 <= j < i ==> (#[trigger] self.pairs()[j]).0 != key.deep_view(),
            decreases self.entries@.len() - i,
        {
            if self.entries[i].0.key_eq(&key) {
                proof {
                    lemma_assoc_update(
                        self.pairs(),
                        i as int,
                        key.deep_view(),
                        value.deep_view(),
                    );
                }
                self.entries.set(i, (key, value));
                proof {
                    assert(self.pairs() =~= old(self).pairs().update(
                        i as int,
                        (key.deep_view(), value.deep_view()),
                    ));
                }
                return ;
            }
            i += 1;
        }
        proof {
            lemma_assoc_push(self.pairs(), key.deep_view(), value.deep_view());
        }
        self.entries.push((key, value));
        proof {
            assert(self.pairs() =~= old(self).pairs().push(
                (key.deep_view(), value.deep_view()),
            ));
        }
    }

    /// Drop a key; absent keys are left silently.
    pub fn remove(&mut self, key: &K)
        requires
            old(self).wf(),
        ensures
            final(self).wf(),
            final(self).deep_view() =~= old(self).deep_view().remove(key.deep_view()),
    {
        let mut i: usize = 0;
        while i < self.entries.len()
            invariant
                self.wf(),
                self == old(self),
                0 <= i <= self.entries@.len(),
                forall|j: int| 0 <= j < i ==> (#[trigger] self.pairs()[j]).0 != key.deep_view(),
            decreases self.entries@.len() - i,
        {
            if self.entries[i].0.key_eq(key) {
                proof {
                    lemma_assoc_remove(self.pairs(), i as int);
                }
                self.entries.remove(i);
                proof {
                    assert(self.pairs() =~= old(self).pairs().remove(i as int));
                }
                return ;
            }
            i += 1;
        }
        proof {
            lemma_assoc_contains(self.pairs(), key.deep_view());
            assert(self.deep_view().remove(key.deep_view()) =~= self.deep_view());
        }
    }

    /// Per-key, right-biased union: every entry of `other` overwrites or
    /// extends `self`; keys only in `self` are preserved.
    pub fn merge_from(&mut self, other: &Dict<K, V>)
        requires
            old(self).wf(),
            other.wf(),
        ensures
            final(self).wf(),
            final(self).deep_view() =~= old(self).deep_view().union_prefer_right(
                other.deep_view(),
            ),
    {
        let mut i: usize = 0;
        while i < other.entries.len()
            invariant
                self.wf(),
                other.wf(),
                0 <= i <= other.entries@.len(),
                self.deep_view() =~= old(self).deep_view().union_prefer_right(
                    assoc_map(other.pairs().take(i as int)),
                ),
            decreases other.entries@.len() - i,
        {
            let k = other.entries[i].0.key_dup();
            let v = other.entries[i].1.dup();
            proof {
                assert(other.entries@[i as int].1.inv());
                let p = other.pairs().take(i as int + 1);
                assert(p.drop_last() =~= other.pairs().take(i as int));
                assert(p.last() == other.pairs()[i as int]);
            }
            self.insert(k, v);
            i += 1;
        }
        proof {
            assert(other.pairs().take(other.pairs().len() as int) =~= other.pairs());
        }
    }
}

impl<K: DictKey, V: DictValue> DictValue for Dict<K, V> {
    open spec fn inv(&self) -> bool {
        self.wf()
    }

    fn dup(&self) -> (r: Self) {
        let mut entries: Vec<(K, V)> = Vec::new();
        let mut i: usize = 0;
        while i < self.entries.len()
            invariant
                self.wf(),
                0 <= i <= self.entries@.len(),
                entries@.len() == i,
                forall|j: int| 0 <= j < i ==> (#[trigger] entries@[j]).0.deep_view()
                    == self.entries@[j].0.deep_view() && entries@[j].1.deep_view()
                    == self.entries@[j].1.deep_view() && entries@[j].1.inv(),
            decreases self.entries@.len() - i,
        {
            proof {
                assert(self.entries@[i as int].1.inv());
            }
            let k = self.entries[i].0.key_dup();
            let v = self.entries[i].1.dup();
            entries.push((k, v));
            i += 1;
        }
        let r = Dict { entries };
        proof {
            assert(r.pairs() =~= self.pairs());
        }
        r
    }
}

/// The ID of a record that has not been assigned one yet.
pub const UNSET_ID: u64 = u64::MAX;

/// Abstract value of an `Item`: the ID and the six attribute maps.
#[verifier::ext_equal]
pub ghost struct ItemView {
    pub id: u64,
    pub strs: Map<Seq<char>, Seq<char>>,
    pub u64s: Map<Seq<char>, u64>,
    pub bools: Map<Seq<char>, bool>,
    pub ids: Map<Seq<char>, u64>,
    pub strstrs: Map<Seq<char>, Map<Seq<char>, Seq<char>>>,
    pub idbools: Map<Seq<char>, Map<u64, bool>>,
}

impl ItemView {
    /// A record with no attributes and the unset ID.
    pub open spec fn empty() -> ItemView {
        ItemView {
            id: UNSET_ID,
            strs: Map::empty(),
            u64s: Map::empty(),
            bools: Map::empty(),
            ids: Map::empty(),
            strstrs: Map::empty(),
            idbools: Map::empty(),
        }
    }

    /// Per-key, right-biased union of two records (§ merge): keys of `b`
    /// overwrite, keys only in `a` survive, `a`'s ID is kept.
    pub open spec fn merged(a: ItemView, b: ItemView) -> ItemView {
        ItemView {
            id: a.id,
            strs: a.strs.union_prefer_right(b.strs),
            u64s: a.u64s.union_prefer_right(b.u64s),
            bools: a.bools.union_prefer_right(b.bools),
            ids: a.ids.union_prefer_right(b.ids),
            strstrs: a.strstrs.union_prefer_right(b.strstrs),
            idbools: a.idbools.union_prefer_right(b.idbools),
        }
    }
}

/// The schema-less typed record: six independent attribute maps plus an ID.
/// A key lives in at most the map it was written under; readers supply a
/// default for absent keys instead of failing.
pub struct Item {
    pub id: u64,
    pub strs: Dict<String, String>,
    pub u64s: Dict<String, u64>,
    pub bools: Dict<String, bool>,
    pub ids: Dict<String, u64>,
    pub strstrs: Dict<String, Dict<String, String>>,
    pub idbools: Dict<String, Dict<u64, bool>>,
}

impl DeepView for Item {
    type V = ItemView;

    open spec fn deep_view(&self) -> ItemView {
        ItemView {
            id: self.id,
            strs: self.strs.deep_view(),
            u64s: self.u64s.deep_view(),
            bools: self.bools.deep_view(),
            ids: self.ids.deep_view(),
            strstrs: self.strstrs.deep_view(),
            idbools: self.idbools.deep_view(),
        }
    }
}

impl Item {
    pub open spec fn inv(&self) -> bool {
        &&& self.strs.wf()
        &&& self.u64s.wf()
        &&& self.bools.wf()
        &&& self.ids.wf()
        &&& self.strstrs.wf()
        &&& self.idbools.wf()
    }

    pub fn new() -> (r: Item)
        ensures
            r.inv(),
            r.deep_view() =~~= ItemView::empty(),
    {
        Item {
            id: UNSET_ID,
            strs: Dict::new(),
            u64s: Dict::new(),
            bools: Dict::new(),
            ids: Dict::new(),
            strstrs: Dict::new(),
            idbools: Dict::new(),
        }
    }

    /// An exact copy: same ID, same attribute maps.
    pub fn dup(&self) -> (r: Item)
        requires
            self.inv(),
        ensures
            r.inv(),
            r.deep_view() == self.deep_view(),
    {
        Item {
            id: self.id,
            strs: self.strs.dup(),
            u64s: self.u64s.dup(),
            bools: self.bools.dup(),
            ids: self.ids.dup(),
            strstrs: self.strstrs.dup(),
            idbools: self.idbools.dup(),
        }
    }

    /// Merge `other` into `self`: for each attribute map, keys of `other`
    /// overwrite; keys absent from `other` keep their old value; the ID is
    /// untouched.
    pub fn merge(&mut self, other: &Item)
        requires
            old(self).inv(),
            other.inv(),
        ensures
            final(self).inv(),
            final(self).deep_view() == ItemView::merged(old(self).deep_view(), other.deep_view()),
    {
        self.strs.merge_from(&other.strs);
        self.u64s.merge_from(&other.u64s);
        self.bools.merge_from(&other.bools);
        self.ids.merge_from(&other.ids);
        self.strstrs.merge_from(&other.strstrs);
        self.idbools.merge_from(&other.idbools);
        proof {
            assert(self.deep_view() =~~= ItemView::merged(
                old(self).deep_view(),
                other.deep_view(),
            ));
        }
    }

    pub fn set_str(&mut self, key: &str, value: &str)
        requires
            old(self).inv(),
        ensures
            final(self).inv(),
            final(self).deep_view() == (ItemView {
                strs: old(self).deep_view().strs.insert(key@, value@),
                ..old(self).deep_view()
            }),
    {
        self.strs.insert(key.to_owned(), value.to_owned());
        proof {
            assert(self.deep_view() =~~= (ItemView {
                strs: old(self).deep_view().strs.insert(key@, value@),
                ..old(self).deep_view()
            }));
        }
    }

    /// Drop a string attribute.
    pub fn del_str(&mut self, key: &str)
        requires
            old(self).inv(),
        ensures
            final(self).inv(),
            final(self).deep_view() == (ItemView {
                strs: old(self).deep_view().strs.remove(key@),
                ..old(self).deep_view()
            }),
    {
        let k: String = key.to_owned();
        self.strs.remove(&k);
        proof {
            assert(self.deep_view() =~~= (ItemView {
                strs: old(self).deep_view().strs.remove(key@),
                ..old(self).deep_view()
            }));
        }
    }

    pub fn safe_str(&self, key: &str, def: &str) -> (r: String)
        requires
            self.inv(),
        ensures
            r@ == if self.deep_view().strs.contains_key(key@) {
                self.deep_view().strs[key@]
            } else {
                def@
            },
    {
        let k: String = key.to_owned();
        match self.strs.get(&k) {
            Some(v) => v.clone(),
            None => def.to_owned(),
        }
    }

    pub fn set_u64(&mut self, key: &str, value: u64)
        requires
            old(self).inv(),
        ensures
            final(self).inv(),
            final(self).deep_view() == (ItemView {
                u64s: old(self).deep_view().u64s.insert(key@, value),
                ..old(self).deep_view()
            }),
    {
        self.u64s.insert(key.to_owned(), value);
        proof {
            assert(self.deep_view() =~~= (ItemView {
                u64s: old(self).deep_view().u64s.insert(key@, value),
                ..old(self).deep_view()
            }));
        }
    }

    pub fn safe_u64(&self, key: &str, def: u64) -> (r: u64)
        requires
            self.inv(),
        ensures
            r == if self.deep_view().u64s.contains_key(key@) {
                self.deep_view().u64s[key@]
            } else {
                def
            },
    {
        let k: String = key.to_owned();
        match self.u64s.get(&k) {
            Some(v) => *v,
            None => def,
        }
    }

    pub fn set_bool(&mut self, key: &str, value: bool)
        requires
            old(self).inv(),
        ensures
            final(self).inv(),
            final(self).deep_view() == (ItemView {
                bools: old(self).deep_view().bools.insert(key@, value),
                ..old(self).deep_view()
            }),
    {
        self.bools.insert(key.to_owned(), value);
        proof {
            assert(self.deep_view() =~~= (ItemView {
                bools: old(self).deep_view().bools.insert(key@, value),
                ..old(self).deep_view()
            }));
        }
    }

    pub fn safe_bool(&self, key: &str, def: bool) -> (r: bool)
        requires
            self.inv(),
        ensures
            r == if self.deep_view().bools.contains_key(key@) {
                self.deep_view().bools[key@]
            } else {
                def
            },
    {
        let k: String = key.to_owned();
        match self.bools.get(&k) {
            Some(v) => *v,
            None => def,
        }
    }

    pub fn set_id(&mut self, key: &str, value: u64)
        requires
            old(self).inv(),
        ensures
            final(self).inv(),
            final(self).deep_view() == (ItemView {
                ids: old(self).deep_view().ids.insert(key@, value),
                ..old(self).deep_view()
            }),
    {
        self.ids.insert(key.to_owned(), value);
        proof {
            assert(self.deep_view() =~~= (ItemView {
                ids: old(self).deep_view().ids.insert(key@, value),
                ..old(self).deep_view()
            }));
        }
    }

    pub fn safe_id(&self, key: &str, def: u64) -> (r: u64)
        requires
            self.inv(),
        ensures
            r == if self.deep_view().ids.contains_key(key@) {
                self.deep_view().ids[key@]
            } else {
                def
            },
    {
        let k: String = key.to_owned();
        match self.ids.get(&k) {
            Some(v) => *v,
            None => def,
        }
    }

    pub fn set_strstr(&mut self, key: &str, value: &Dict<String, String>)
        requires
            old(self).inv(),
            value.wf(),
        ensures
            final(self).inv(),
            final(self).deep_view() == (ItemView {
                strstrs: old(self).deep_view().strstrs.insert(key@, value.deep_view()),
                ..old(self).deep_view()
            }),
    {
        self.strstrs.insert(key.to_owned(), value.dup());
        proof {
            assert(self.deep_view() =~~= (ItemView {
                strstrs: old(self).deep_view().strstrs.insert(key@, value.deep_view()),
                ..old(self).deep_view()
            }));
        }
    }

    pub fn safe_strstr(&self, key: &str, def: &Dict<String, String>) -> (r: Dict<String, String>)
        requires
            self.inv(),
            def.wf(),
        ensures
            r.wf(),
            r.deep_view() == if self.deep_view().strstrs.contains_key(key@) {
                self.deep_view().strstrs[key@]
            } else {
                def.deep_view()
            },
    {
        let k: String = key.to_owned();
        match self.strstrs.get(&k) {
            Some(v) => v.dup(),
            None => def.dup(),
        }
    }

    pub fn set_idbools(&mut self, key: &str, value: &Dict<u64, bool>)
        requires
            old(self).inv(),
            value.wf(),
        ensures
            final(self).inv(),
            final(self).deep_view() == (ItemView {
                idbools: old(self).deep_view().idbools.insert(key@, value.deep_view()),
                ..old(self).deep_view()
            }),
    {
        self.idbools.insert(key.to_owned(), value.dup());
        proof {
            assert(self.deep_view() =~~= (ItemView {
                idbools: old(self).deep_view().idbools.insert(key@, value.deep_view()),
                ..old(self).deep_view()
            }));
        }
    }

    pub fn safe_idbools(&self, key: &str, def: &Dict<u64, bool>) -> (r: Dict<u64, bool>)
        requires
            self.inv(),
            def.wf(),
        ensures
            r.wf(),
            r.deep_view() == if self.deep_view().idbools.contains_key(key@) {
                self.deep_view().idbools[key@]
            } else {
                def.deep_view()
            },
    {
        let k: String = key.to_owned();
        match self.idbools.get(&k) {
            Some(v) => v.dup(),
            None => def.dup(),
        }
    }
}

/// Merge law, pointwise: a key present only in the target is unchanged, a key
/// present in the incoming record takes the incoming value. Stated here for
/// the string map and, symmetrically, for the other five maps.
pub proof fn lemma_merge_points(a: ItemView, b: ItemView, k: Seq<char>)
    ensures
        a.strs.contains_key(k) && !b.strs.contains_key(k) ==> ItemView::merged(a, b).strs.contains_key(k)
            && ItemView::merged(a, b).strs[k] == a.strs[k],
        b.strs.contains_key(k) ==> ItemView::merged(a, b).strs.contains_key(k)
            && ItemView::merged(a, b).strs[k] == b.strs[k],
        a.u64s.contains_key(k) && !b.u64s.contains_key(k) ==> ItemView::merged(a, b).u64s[k] == a.u64s[k],
        b.u64s.contains_key(k) ==> ItemView::merged(a, b).u64s[k] == b.u64s[k],
        a.bools.contains_key(k) && !b.bools.contains_key(k) ==> ItemView::merged(a, b).bools[k] == a.bools[k],
        b.bools.contains_key(k) ==> ItemView::merged(a, b).bools[k] == b.bools[k],
        a.ids.contains_key(k) && !b.ids.contains_key(k) ==> ItemView::merged(a, b).ids[k] == a.ids[k],
        b.ids.contains_key(k) ==> ItemView::merged(a, b).ids[k] == b.ids[k],
        a.strstrs.contains_key(k) && !b.strstrs.contains_key(k) ==> ItemView::merged(a, b).strstrs[k] == a.strstrs[k],
        b.strstrs.contains_key(k) ==> ItemView::merged(a, b).strstrs[k] == b.strstrs[k],
        a.idbools.contains_key(k) && !b.idbools.contains_key(k) ==> ItemView::merged(a, b).idbools[k] == a.idbools[k],
        b.idbools.contains_key(k) ==> ItemView::merged(a, b).idbools[k] == b.idbools[k],
        !a.strs.contains_key(k) && !b.strs.contains_key(k) ==> !ItemView::merged(a, b).strs.contains_key(k),
{
}

/// Merge law: merging the same incoming record twice changes nothing more
/// than merging it once.
pub proof fn lemma_merge_idempotent(a: ItemView, b: ItemView)
    ensures
        ItemView::merged(ItemView::merged(a, b), b) == ItemView::merged(a, b),
{
    assert(ItemView::merged(ItemView::merged(a, b), b) =~~= ItemView::merged(a, b));
}

} // verus!
