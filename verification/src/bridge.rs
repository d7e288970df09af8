//! The synchronous-to-asynchronous bridge, owner side. A synchronous
//! extension call becomes a request message; a dedicated owner of the one
//! store consumes requests one at a time and answers over the caller's
//! channel. `handle_request` is that owner's whole decision: every store
//! access of the extension interface, as one verified step function. The
//! channels, the worker pool and the owner loop itself live outside, and
//! carry values of these two types only.
use crate::email::EmailJob;
use crate::email::email_request;
use crate::item::Item;
use crate::item::UNSET_ID;
use crate::store::ListResult;
use crate::store::Store;
use crate::store::StoreError;
use crate::store::set_outcome_contents;
use crate::store::set_outcome_count;
use crate::store::set_ret_id;
use crate::user_control::check_role;
use crate::user_control::role_prefix;
use vstd::prelude::*;

verus! {

/// One synchronous extension call, as a message to the store's owner.
pub enum StoreRequest {
    GetCollections,
    GetItemIds { collection: String },
    GetAllItems { collection: String, sort_key: String, filter: String },
    GetItems {
        collection: String,
        id_min: u64,
        id_max: u64,
        sort_key: String,
        filter: String,
        skip: u64,
        limit: u64,
    },
    GetItem { collection: String, id: u64 },
    SetItem { collection: String, itm: Item, merge: bool },
    DelItem { collection: String, id: u64 },
    GetSettings,
    SetSettings { itm: Item },
    GetInternals,
    GetCredentials,
    GetPickle,
    CheckRole { user: Option<Item>, role: String },
    SendEmail { to: String, subject: String, body: String },
}

/// The owner's answer to one request.
pub enum StoreResponse {
    Names(Vec<String>),
    Ids(Vec<u64>),
    Listing(Result<ListResult, StoreError>),
    MaybeItem(Option<Item>),
    Stored(Result<u64, StoreError>),
    Removed(bool),
    Doc(Item),
    Done,
    Flag(bool),
    ArtifactPath(String),
    Mail(Option<EmailJob>),
}

/// Are the records a request carries well-formed?
pub open spec fn req_wf(req: StoreRequest) -> bool {
    match req {
        StoreRequest::SetItem { itm, .. } => itm.inv(),
        StoreRequest::SetSettings { itm } => itm.inv(),
        StoreRequest::CheckRole { user, .. } => match user {
            Option::Some(u) => u.inv(),
            Option::None => true,
        },
        _ => true,
    }
}

/// The owner's step: perform one request against the store and form the
/// answer. Reads leave the store untouched; `SetItem`, `DelItem` and
/// `SetSettings` change it exactly as the store contract says; sending
/// mail only assembles the job here — the transport runs outside.
pub fn handle_request(store: &mut Store, req: StoreRequest) -> (r: StoreResponse)
    requires
        old(store).wf(),
        req_wf(req),
        req matches StoreRequest::SetItem { collection, itm, .. } ==> ((old(
            store,
        ).cmap().contains_key(collection@) && itm.id == UNSET_ID) ==> old(store).cmap()[
            collection@
        ].count < u64::MAX - 1),
    ensures
        final(store).wf(),
        !(req matches StoreRequest::SetItem { .. }) && !(req
            matches StoreRequest::DelItem { .. }) && !(req
            matches StoreRequest::SetSettings { .. }) ==> *final(store) == *old(store),
        req matches StoreRequest::GetCollections ==> r matches StoreResponse::Names(ns)
            && ns@.len() == old(store).collections@.len(),
        req matches StoreRequest::GetItemIds { collection } ==> (r matches StoreResponse::Ids(ids)
            && (old(store).cmap().contains_key(collection@) ==> ids@ == old(store).cmap()[
            collection@
        ].items@.map_values(|it: Item| it.id)) && (!old(store).cmap().contains_key(collection@)
            ==> ids@.len() == 0)),
        req matches StoreRequest::GetItem { collection, id } ==> (r
            matches StoreResponse::MaybeItem(o) && (match o {
            Option::Some(v) => old(store).cmap().contains_key(collection@) && old(store).cmap()[
                collection@
            ].contents().contains_key(id) && v.deep_view() == old(store).cmap()[
                collection@
            ].contents()[id],
            Option::None => !old(store).cmap().contains_key(collection@) || !old(store).cmap()[
                collection@
            ].contents().contains_key(id),
        })),
        req matches StoreRequest::GetItems { collection, .. } ==> (r
            matches StoreResponse::Listing(l) && (l is Err <==> !old(store).cmap().contains_key(
            collection@,
        ))),
        req matches StoreRequest::GetAllItems { collection, .. } ==> (r
            matches StoreResponse::Listing(l) && (l is Err <==> !old(store).cmap().contains_key(
            collection@,
        )) && (l matches Ok(lr) ==> crate::collection::item_views(lr.items@)
            == crate::collection::item_views(old(store).cmap()[collection@].items@))),
        req matches StoreRequest::SetItem { collection, itm, merge } ==> (r
            matches StoreResponse::Stored(s) && (s is Err <==> !old(store).cmap().contains_key(
            collection@,
        )) && (s is Err ==> *final(store) == *old(store)) && (s is Ok ==> s == Result::<
            u64,
            StoreError,
        >::Ok(set_ret_id(old(store).cmap()[collection@], itm.id)) && final(store).cmap()[
            collection@
        ].contents() == set_outcome_contents(
            old(store).cmap()[collection@],
            itm.id,
            itm.deep_view(),
            merge,
        ) && final(store).cmap()[collection@].count == set_outcome_count(
            old(store).cmap()[collection@],
            itm.id,
        ))),
        req matches StoreRequest::DelItem { collection, id } ==> (r
            matches StoreResponse::Removed(b) && b == (old(store).cmap().contains_key(collection@)
            && id != UNSET_ID && old(store).cmap()[collection@].contents().contains_key(id)) && (
        old(store).cmap().contains_key(collection@) ==> final(store).cmap()[
            collection@
        ].contents() == old(store).cmap()[collection@].contents().remove(id))),
        req matches StoreRequest::GetSettings ==> (r matches StoreResponse::Doc(d)
            && d.deep_view() == old(store).settings.deep_view()),
        req matches StoreRequest::GetInternals ==> (r matches StoreResponse::Doc(d)
            && d.deep_view() == old(store).internals.deep_view()),
        req matches StoreRequest::SetSettings { itm } ==> (r is Done && final(store).settings
            == itm && final(store).collections == old(store).collections && final(store).internals
            == old(store).internals),
        req matches StoreRequest::GetCredentials ==> (r matches StoreResponse::ArtifactPath(p)
            && p@ == old(store).path@ + "/credentials.json"@),
        req matches StoreRequest::GetPickle ==> (r matches StoreResponse::ArtifactPath(p) && p@
            == old(store).path@ + "/token.pickle"@),
        req matches StoreRequest::CheckRole { user, role } ==> (r matches StoreResponse::Flag(b)
            && b == (match user {
            Option::None => false,
            Option::Some(u) => {
                let key = role_prefix(old(store).internals.deep_view()) + role@;
                u.deep_view().bools.contains_key(key) && u.deep_view().bools[key]
            },
        })),
        req matches StoreRequest::SendEmail { .. } ==> r matches StoreResponse::Mail(m),
{
    match req {
        StoreRequest::GetCollections => StoreResponse::Names(store.get_collections()),
        StoreRequest::GetItemIds { collection } => StoreResponse::Ids(
            store.get_item_ids(collection.as_str()),
        ),
        StoreRequest::GetAllItems { collection, sort_key, filter } => StoreResponse::Listing(
            store.get_all_items(collection.as_str(), sort_key.as_str(), filter.as_str()),
        ),
        StoreRequest::GetItems { collection, id_min, id_max, sort_key, filter, skip, limit } => {
            StoreResponse::Listing(
                store.get_items(
                    collection.as_str(),
                    id_min,
                    id_max,
                    sort_key.as_str(),
                    filter.as_str(),
                    skip,
                    limit,
                ),
            )
        },
        StoreRequest::GetItem { collection, id } => StoreResponse::MaybeItem(
            store.get_item(collection.as_str(), id),
        ),
        StoreRequest::SetItem { collection, itm, merge } => StoreResponse::Stored(
            store.set_item(collection.as_str(), &itm, merge),
        ),
        StoreRequest::DelItem { collection, id } => StoreResponse::Removed(
            store.del_item(collection.as_str(), id),
        ),
        StoreRequest::GetSettings => StoreResponse::Doc(store.get_settings()),
        StoreRequest::SetSettings { itm } => {
            store.set_settings(itm);
            StoreResponse::Done
        },
        StoreRequest::GetInternals => StoreResponse::Doc(store.get_internals()),
        StoreRequest::GetCredentials => StoreResponse::ArtifactPath(store.get_credentials()),
        StoreRequest::GetPickle => StoreResponse::ArtifactPath(store.get_pickle()),
        StoreRequest::CheckRole { user, role } => StoreResponse::Flag(
            check_role(store, &user, role.as_str()),
        ),
        StoreRequest::SendEmail { to, subject, body } => {
            let settings = store.get_settings();
            StoreResponse::Mail(
                email_request(&settings, to.as_str(), subject.as_str(), body.as_str()),
            )
        },
    }
}

} // verus!
