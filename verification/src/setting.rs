//! The settings endpoints: only administrators may read or replace the
//! settings singleton.
use crate::item::Item;
use crate::item::ItemView;
use crate::store::Store;
use crate::user_control::check_role;
use crate::user_control::role_prefix;
use vstd::prelude::*;

verus! {

/// Does this caller hold the administrator role under the configured
/// prefix?
pub open spec fn is_admin(internals: ItemView, user: Option<Item>) -> bool {
    match user {
        Option::None => false,
        Option::Some(u) => {
            let key = role_prefix(internals) + "admin"@;
            u.deep_view().bools.contains_key(key) && u.deep_view().bools[key]
        },
    }
}

/// The outcome of a settings write.
pub enum SettingOutcome {
    /// The caller is no administrator.
    Forbidden,
    /// The settings singleton was replaced.
    Saved,
}

/// Replace the settings singleton: administrators only; nothing else of
/// the store is touched.
pub fn setting_edit(store: &mut Store, user: &Option<Item>, itm: Item) -> (r: SettingOutcome)
    requires
        old(store).wf(),
        itm.inv(),
        user matches Some(u) ==> u.inv(),
    ensures
        final(store).wf(),
        r is Forbidden <==> !is_admin(old(store).internals.deep_view(), *user),
        r is Forbidden ==> *final(store) == *old(store),
        r is Saved ==> final(store).settings == itm && final(store).collections == old(
            store,
        ).collections && final(store).internals == old(store).internals && final(store).path
            == old(store).path,
{
    if !check_role(store, user, "admin") {
        return SettingOutcome::Forbidden;
    }
    store.set_settings(itm);
    SettingOutcome::Saved
}

/// Read the settings singleton: administrators only.
pub fn setting_list(store: &Store, user: &Option<Item>) -> (r: Option<Item>)
    requires
        store.wf(),
        user matches Some(u) ==> u.inv(),
    ensures
        r is Some <==> is_admin(store.internals.deep_view(), *user),
        r matches Some(s) ==> s.inv() && s.deep_view() == store.settings.deep_view(),
{
    if !check_role(store, user, "admin") {
        return None;
    }
    Some(store.get_settings())
}

} // verus!
