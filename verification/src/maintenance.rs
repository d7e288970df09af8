//! The startup maintenance sweep: every record of every collection is
//! offered to the bound collection-read hooks, and records they report as
//! upgraded are written back.
use crate::collection::with_id;
use crate::hooks::Plugin;
use crate::hooks::call_collection_read_hook;
use crate::item::Dict;
use crate::item::Item;
use crate::item::ItemView;
use crate::item::UNSET_ID;
use crate::item::lemma_assoc_at;
use crate::store::Store;
use vstd::prelude::*;

verus! {

/// One record's sweep step: load it, offer it to every bound hook in
/// binding order, and write it back (without merging) when some hook
/// reports an upgrade. The result is the record as written back — or
/// nothing, and then the store is untouched: when the record does not
/// load, when no hook is bound, when no extension is loaded, or when no
/// hook reported an upgrade.
pub fn sweep_record<P: Plugin>(
    store: &mut Store,
    plugins: &Vec<P>,
    routes: &Dict<String, String>,
    collection: &str,
    id: u64,
) -> (r: Option<Item>)
    requires
        old(store).wf(),
        routes.wf(),
        id != UNSET_ID,
    ensures
        final(store).wf(),
        r is None ==> *final(store) == *old(store),
        plugins@.len() == 0 ==> r is None,
        routes.entries@.len() == 0 ==> r is None,
        r matches Some(w) ==> ({
            &&& old(store).cmap().contains_key(collection@)
            &&& old(store).cmap()[collection@].contents().contains_key(id)
            &&& w.inv()
            &&& w.id == id
            &&& final(store).cmap()[collection@].contents() == old(store).cmap()[
                collection@
            ].contents().insert(id, with_id(w.deep_view(), id))
            &&& final(store).cmap()[collection@].count == old(store).cmap()[collection@].count
            &&& (forall|n: Seq<char>|
                final(store).cmap().contains_key(n) == old(store).cmap().contains_key(n))
            &&& (forall|n: Seq<char>|
                n != collection@ && old(store).cmap().contains_key(n) ==> final(store).cmap()[n]
                    == old(store).cmap()[n])
            &&& final(store).settings == old(store).settings
            &&& final(store).internals == old(store).internals
            &&& final(store).path == old(store).path
        }),
{
    let loaded = store.get_item(collection, id);
    let mut itm = match loaded {
        Option::Some(i) => i,
        Option::None => {
            return None;
        },
    };
    let mut should_save = false;
    let mut ri: usize = 0;
    while ri < routes.entries.len()
        invariant
            routes.wf(),
            itm.inv(),
            itm.id == id,
            0 <= ri <= routes.entries@.len(),
            plugins@.len() == 0 ==> !should_save,
            routes.entries@.len() == 0 ==> !should_save,
        decreases routes.entries@.len() - ri,
    {
        if call_collection_read_hook(plugins, routes.entries[ri].1.as_str(), collection, &mut itm)
        {
            should_save = true;
        }
        ri += 1;
    }
    if !should_save {
        return None;
    }
    let _res = store.set_item(collection, &itm, false);
    Some(itm)
}

/// Load every record of every known collection, pass it through the
/// collection-read hooks bound under the internals key
/// "collection_read_hook", and write back (without merging) every record
/// some hook reports as upgraded — the lazy schema upgrade. The sweep
/// neither creates nor destroys anything: the set of collections, each
/// collection's set of live record IDs, each allocation counter, the
/// singleton documents and the root path all stay; with no loaded
/// extension, or no binding under that key, the store is untouched. When
/// every bound hook is an idempotent upgrade, running the sweep twice
/// changes nothing more than running it once: `lemma_sweep_idempotent`
/// below states that law over the sweep's abstract effect.
pub fn init_checks<P: Plugin>(store: &mut Store, plugins: &Vec<P>)
    requires
        old(store).wf(),
    ensures
        final(store).wf(),
        forall|n: Seq<char>|
            final(store).cmap().contains_key(n) == old(store).cmap().contains_key(n),
        forall|n: Seq<char>|
            old(store).cmap().contains_key(n) ==> (#[trigger] final(store).cmap()[n]).count
                == old(store).cmap()[n].count,
        forall|n: Seq<char>|
            old(store).cmap().contains_key(n) ==> (#[trigger] final(store).cmap()[
                n
            ]).contents().dom() == old(store).cmap()[n].contents().dom(),
        final(store).settings == old(store).settings,
        final(store).internals == old(store).internals,
        final(store).path == old(store).path,
        plugins@.len() == 0 ==> *final(store) == *old(store),
        !old(store).internals.deep_view().strstrs.contains_key("collection_read_hook"@)
            ==> *final(store) == *old(store),
{
    let internals = store.get_internals();
    let empty: Dict<String, String> = Dict::new();
    let routes = internals.safe_strstr("collection_read_hook", &empty);
    let ghost no_binding = !old(store).internals.deep_view().strstrs.contains_key(
        "collection_read_hook"@,
    );
    proof {
        if no_binding {
            assert(routes.deep_view() =~= Map::<Seq<char>, Seq<char>>::empty());
            if routes.entries@.len() > 0 {
                lemma_assoc_at(routes.pairs(), 0);
            }
        }
    }
    let collections = store.get_collections();
    let mut ci: usize = 0;
    while ci < collections.len()
        invariant
            store.wf(),
            routes.wf(),
            no_binding == !old(store).internals.deep_view().strstrs.contains_key(
                "collection_read_hook"@,
            ),
            no_binding ==> routes.entries@.len() == 0,
            forall|n: Seq<char>|
                store.cmap().contains_key(n) == old(store).cmap().contains_key(n),
            forall|n: Seq<char>|
                old(store).cmap().contains_key(n) ==> (#[trigger] store.cmap()[n]).count == old(
                    store,
                ).cmap()[n].count,
            forall|n: Seq<char>|
                old(store).cmap().contains_key(n) ==> (#[trigger] store.cmap()[
                    n
                ]).contents().dom() == old(store).cmap()[n].contents().dom(),
            store.settings == old(store).settings,
            store.internals == old(store).internals,
            store.path == old(store).path,
            plugins@.len() == 0 ==> *store == *old(store),
            no_binding ==> *store == *old(store),
        decreases collections@.len() - ci,
    {
        let cname = &collections[ci];
        let ids = store.get_item_ids(cname.as_str());
        proof {
            if store.cmap().contains_key(cname@) {
                store.lemma_cmap();
                let c = store.cmap()[cname@];
                assert forall|j: int| 0 <= j < ids@.len() implies (#[trigger] ids@[j])
                    != UNSET_ID by {
                    assert(ids@[j] == c.items@[j].id);
                }
            }
        }
        let mut ii: usize = 0;
        while ii < ids.len()
            invariant
                store.wf(),
                routes.wf(),
                no_binding == !old(store).internals.deep_view().strstrs.contains_key(
                    "collection_read_hook"@,
                ),
                no_binding ==> routes.entries@.len() == 0,
                0 <= ii <= ids@.len(),
                forall|j: int| 0 <= j < ids@.len() ==> (#[trigger] ids@[j]) != UNSET_ID,
                forall|n: Seq<char>|
                    store.cmap().contains_key(n) == old(store).cmap().contains_key(n),
                forall|n: Seq<char>|
                    old(store).cmap().contains_key(n) ==> (#[trigger] store.cmap()[n]).count
                        == old(store).cmap()[n].count,
                forall|n: Seq<char>|
                    old(store).cmap().contains_key(n) ==> (#[trigger] store.cmap()[
                        n
                    ]).contents().dom() == old(store).cmap()[n].contents().dom(),
                store.settings == old(store).settings,
                store.internals == old(store).internals,
                store.path == old(store).path,
                plugins@.len() == 0 ==> *store == *old(store),
                no_binding ==> *store == *old(store),
            decreases ids@.len() - ii,
        {
            let ghost pre = *store;
            let written = sweep_record(store, plugins, &routes, cname.as_str(), ids[ii]);
            proof {
                match written {
                    Option::Some(w) => {
                        assert(store.cmap()[cname@].contents().dom() =~= pre.cmap()[
                            cname@
                        ].contents().dom());
                        assert forall|n: Seq<char>|
                            old(store).cmap().contains_key(n) implies (#[trigger] store.cmap()[
                            n
                        ]).contents().dom() == old(store).cmap()[n].contents().dom() by {
                            if n != cname@ {
                                assert(store.cmap()[n] == pre.cmap()[n]);
                            }
                        }
                        assert forall|n: Seq<char>|
                            old(store).cmap().contains_key(n) implies (#[trigger] store.cmap()[
                            n
                        ]).count == old(store).cmap()[n].count by {
                            if n != cname@ {
                                assert(store.cmap()[n] == pre.cmap()[n]);
                            }
                        }
                    },
                    Option::None => {},
                }
            }
            ii += 1;
        }
        ci += 1;
    }
}

/// One pass of the sweep over a collection's abstract contents, given which
/// records a hook would report as needing an upgrade (`needs`) and what it
/// would turn them into (`upgraded`).
pub open spec fn sweep_map(
    m: Map<u64, ItemView>,
    upgraded: spec_fn(ItemView) -> ItemView,
    needs: spec_fn(ItemView) -> bool,
) -> Map<u64, ItemView> {
    m.map_values(
        |v: ItemView|
            if needs(v) {
                upgraded(v)
            } else {
                v
            },
    )
}

/// Collection-read idempotence law: when an upgraded record never needs
/// upgrading again, sweeping twice is the same as sweeping once — after one
/// sweep no record needs an upgrade, so the second sweep mutates nothing.
pub proof fn lemma_sweep_idempotent(
    m: Map<u64, ItemView>,
    upgraded: spec_fn(ItemView) -> ItemView,
    needs: spec_fn(ItemView) -> bool,
)
    requires
        forall|v: ItemView| #[trigger] needs(v) ==> !needs(upgraded(v)),
    ensures
        sweep_map(sweep_map(m, upgraded, needs), upgraded, needs) == sweep_map(m, upgraded, needs),
        forall|id: u64|
            sweep_map(m, upgraded, needs).contains_key(id) ==> !needs(
                #[trigger] sweep_map(m, upgraded, needs)[id],
            ),
{
    let once = sweep_map(m, upgraded, needs);
    assert forall|id: u64| once.contains_key(id) implies !needs(#[trigger] once[id]) by {
        if needs(m[id]) {
        }
    }
    assert(sweep_map(once, upgraded, needs) =~= once);
}

} // verus!
