//! The hook registry: the capability set an extension implements, the pool
//! of loaded extensions, and the dispatchers with their combination
//! policies — AND-veto for authorization, first-failure chains for
//! pre-edit, fire-and-continue for post-edit, enforced narrowing for list
//! filters, first-answer for URL routes, fan-out for OTP and periodic jobs.
use crate::item::Item;
use crate::item::ItemView;
use crate::item::UNSET_ID;
use vstd::prelude::*;

verus! {

/// Outcome of a validating operation: a success flag and a human-readable
/// reason on failure, handed to the caller verbatim.
pub struct ProcessResult {
    pub succeeded: bool,
    pub error: String,
}

/// The answer of a URL-route hook. `NotImplemented` is the sentinel by
/// which a hook declares the call not applicable to it, so that dispatch
/// goes on to the next extension instead of treating it as an answer.
pub enum WebResponse {
    Accepted,
    OkData(String),
    NotFound,
    Unauthorized,
    BadRequest,
    Forbidden,
    NotImplemented,
}

impl WebResponse {
    pub open spec fn is_not_implemented(self) -> bool {
        self is NotImplemented
    }
}

/// What a write was doing when a hook runs.
#[derive(Clone, Copy, PartialEq, Eq, Structural, Debug)]
pub enum DataObjectAction {
    Create,
    Modify,
    Delete,
}

/// The capability set of one extension. Every record an implementation
/// hands back must be well-formed, and an upgrade hook keeps the record's
/// identity; nothing else is assumed of extension behaviour.
pub trait Plugin: Sized {
    /// Authorization: false vetoes the operation.
    fn item_auth_hook(
        &self,
        hndl: &str,
        user: &Option<Item>,
        collection: &str,
        id: u64,
        new_item: &Option<Item>,
        del: bool,
    ) -> bool;

    /// Validation and derivation before a write; may mutate the in-flight
    /// record. A result that fails with the reason "not implemented" means
    /// "not applicable", and dispatch moves on.
    fn item_pre_edit_hook(
        &self,
        hndl: &str,
        user: &Option<Item>,
        collection: &str,
        old_itm: &Option<Item>,
        itm: &mut Item,
        action: DataObjectAction,
        merge: bool,
    ) -> (r: ProcessResult)
        requires
            old(itm).inv(),
        ensures
            final(itm).inv(),
            final(itm).id == old(itm).id,
    ;

    /// Best-effort notification after a committed write or delete.
    fn item_post_edit_hook(
        &self,
        hndl: &str,
        collection: &str,
        old_itm: &Option<Item>,
        id: u64,
        action: DataObjectAction,
    );

    /// Narrowing transform of a visible record list; dispatch re-checks the
    /// narrowing, so an implementation cannot add records.
    fn item_list_filter_hook(
        &self,
        hndl: &str,
        user: &Option<Item>,
        collection: &str,
        context: &str,
        items: &mut Vec<Item>,
    )
        requires
            forall|i: int| 0 <= i < old(items)@.len() ==> (#[trigger] old(items)@[i]).inv(),
        ensures
            forall|i: int| 0 <= i < final(items)@.len() ==> (#[trigger] final(items)@[i]).inv(),
    ;

    /// A backend-native filter expression to merge into a list query.
    fn item_list_db_filter_hook(
        &self,
        hndl: &str,
        user: &Option<Item>,
        collection: &str,
        context: &str,
        filter_type: &str,
    ) -> String;

    /// Idempotent upgrade of one record during the maintenance sweep;
    /// returns whether the record was mutated. The record keeps its ID.
    fn collection_read_hook(&self, hndl: &str, collection: &str, itm: &mut Item) -> (r: bool)
        requires
            old(itm).inv(),
        ensures
            final(itm).inv(),
            final(itm).id == old(itm).id,
    ;

    /// A URL route needing an authenticated user.
    fn route_url_hook(&self, hndl: &str, user: &Option<Item>, query: &str) -> WebResponse;

    /// A URL POST route needing an authenticated user.
    fn route_url_post_hook(
        &self,
        hndl: &str,
        user: &Option<Item>,
        query: &str,
        post_itm: &Item,
    ) -> WebResponse;

    /// A URL route open to anonymous callers.
    fn route_unprotected_url_hook(&self, hndl: &str, user: &Option<Item>, query: &str)
        -> WebResponse;

    /// A URL POST route open to anonymous callers.
    fn route_unprotected_url_post_hook(
        &self,
        hndl: &str,
        user: &Option<Item>,
        query: &str,
        post_itm: &Item,
    ) -> WebResponse;

    /// One-time-password fan-out.
    fn call_otp_hook(&self, hndl: &str, itm: &Item);

    /// Periodic job fan-out.
    fn call_periodic_job_hook(&self, timing: &str);
}

/// The ordered set of loaded extensions, queried in load order.
pub struct PluginPool<P> {
    pub plugins: Vec<P>,
}

/// Authorization dispatch: every extension is asked, and the answers are
/// folded through the verified AND-veto policy — any extension returning
/// false vetoes; with no extensions the operation is allowed.
pub fn call_item_auth_hook<P: Plugin>(
    plugins: &Vec<P>,
    hndl: &str,
    user: &Option<Item>,
    collection: &str,
    id: u64,
    new_item: &Option<Item>,
    del: bool,
) -> (r: bool)
    ensures
        plugins@.len() == 0 ==> r,
{
    let mut answers: Vec<bool> = Vec::new();
    let mut i: usize = 0;
    while i < plugins.len()
        invariant
            0 <= i <= plugins@.len(),
            answers@.len() == i as int,
        decreases plugins@.len() - i,
    {
        answers.push(plugins[i].item_auth_hook(hndl, user, collection, id, new_item, del));
        i += 1;
    }
    auth_combine(&answers)
}

/// Is every answer in the list an approval?
pub open spec fn all_approve(answers: Seq<bool>) -> bool {
    forall|i: int| 0 <= i < answers.len() ==> answers[i]
}

/// The authorization combination policy as a value-level building block:
/// a set of collected answers stands exactly when every one approves, so
/// one veto among any number of approvals rejects the operation.
pub fn auth_combine(answers: &Vec<bool>) -> (r: bool)
    ensures
        r == all_approve(answers@),
{
    let mut i: usize = 0;
    while i < answers.len()
        invariant
            0 <= i <= answers@.len(),
            forall|j: int| 0 <= j < i ==> answers@[j],
        decreases answers@.len() - i,
    {
        if !answers[i] {
            return false;
        }
        i += 1;
    }
    true
}

/// Pre-edit dispatch: a sequential chain in load order; the first failure
/// (other than the "not applicable" sentinel) aborts with its reason;
/// successful hooks may mutate the in-flight record before the next runs.
pub fn call_item_pre_edit_hook<P: Plugin>(
    plugins: &Vec<P>,
    hndl: &str,
    user: &Option<Item>,
    collection: &str,
    old_itm: &Option<Item>,
    itm: &mut Item,
    action: DataObjectAction,
    merge: bool,
) -> (r: ProcessResult)
    requires
        old(itm).inv(),
    ensures
        final(itm).inv(),
        final(itm).id == old(itm).id,
        plugins@.len() == 0 ==> r.succeeded && *final(itm) == *old(itm),
{
    let mut i: usize = 0;
    while i < plugins.len()
        invariant
            itm.inv(),
            itm.id == old(itm).id,
            0 <= i <= plugins@.len(),
            plugins@.len() == 0 ==> *itm == *old(itm),
        decreases plugins@.len() - i,
    {
        let r = plugins[i].item_pre_edit_hook(hndl, user, collection, old_itm, itm, action, merge);
        if !r.succeeded {
            let not_applicable = r.error.eq(&String::from_str("not implemented"));
            if !not_applicable {
                return r;
            }
        }
        i += 1;
    }
    ProcessResult { succeeded: true, error: String::new() }
}

/// Post-edit dispatch: fire-and-continue notification of every extension;
/// no answer can abort the already committed write.
pub fn call_item_post_edit_hook<P: Plugin>(
    plugins: &Vec<P>,
    hndl: &str,
    collection: &str,
    old_itm: &Option<Item>,
    id: u64,
    action: DataObjectAction,
)
{
    let mut i: usize = 0;
    while i < plugins.len()
        invariant
            0 <= i <= plugins@.len(),
        decreases plugins@.len() - i,
    {
        plugins[i].item_post_edit_hook(hndl, collection, old_itm, id, action);
        i += 1;
    }
}

/// Does `id` occur in `ids`?
pub fn ids_contain(ids: &Vec<u64>, id: u64) -> (r: bool)
    ensures
        r == ids@.contains(id),
{
    let mut i: usize = 0;
    while i < ids.len()
        invariant
            0 <= i <= ids@.len(),
            forall|j: int| 0 <= j < i ==> (#[trigger] ids@[j]) != id,
        decreases ids@.len() - i,
    {
        if ids[i] == id {
            return true;
        }
        i += 1;
    }
    false
}

/// Keep, of `items`, the first record of each ID drawn from `allowed`,
/// in order: the enforcement step of the narrowing policy.
fn narrow_items(items: &mut Vec<Item>, allowed: &Vec<u64>)
    requires
        forall|i: int| 0 <= i < old(items)@.len() ==> (#[trigger] old(items)@[i]).inv(),
    ensures
        forall|i: int| 0 <= i < final(items)@.len() ==> (#[trigger] final(items)@[i]).inv(),
        forall|i: int|
            0 <= i < final(items)@.len() ==> allowed@.contains((#[trigger] final(items)@[i]).id),
        forall|i: int, j: int|
            0 <= i < j < final(items)@.len() ==> (#[trigger] final(items)@[i]).id != (
            #[trigger] final(items)@[j]).id,
{
    let mut narrowed: Vec<Item> = Vec::new();
    let mut seen: Vec<u64> = Vec::new();
    let mut i: usize = 0;
    while i < items.len()
        invariant
            0 <= i <= items@.len(),
            items@ == old(items)@,
            forall|j: int| 0 <= j < items@.len() ==> (#[trigger] items@[j]).inv(),
            forall|j: int| 0 <= j < narrowed@.len() ==> (#[trigger] narrowed@[j]).inv(),
            forall|j: int|
                0 <= j < narrowed@.len() ==> allowed@.contains((#[trigger] narrowed@[j]).id),
            forall|a: int, b: int|
                0 <= a < b < narrowed@.len() ==> (#[trigger] narrowed@[a]).id != (
                #[trigger] narrowed@[b]).id,
            seen@ == narrowed@.map_values(|it: Item| it.id),
        decreases items@.len() - i,
    {
        let id = items[i].id;
        if ids_contain(allowed, id) && !ids_contain(&seen, id) {
            proof {
                assert(items@[i as int].inv());
                assert forall|b: int| 0 <= b < narrowed@.len() implies (
                #[trigger] narrowed@[b]).id != id by {
                    assert(seen@[b] == narrowed@[b].id);
                }
            }
            narrowed.push(items[i].dup());
            seen.push(id);
            proof {
                assert(seen@ =~= narrowed@.map_values(|it: Item| it.id));
            }
        }
        i += 1;
    }
    *items = narrowed;
}

/// List-filter dispatch: each extension in turn receives the visible list
/// and may shrink or redact it; the dispatcher itself re-imposes the
/// narrowing, so whatever an extension answers, no record ID survives that
/// was not visible at the start, and no ID is duplicated.
pub fn call_itm_list_filter_hook<P: Plugin>(
    plugins: &Vec<P>,
    hndl: &str,
    user: &Option<Item>,
    collection: &str,
    context: &str,
    items: &mut Vec<Item>,
)
    requires
        forall|i: int| 0 <= i < old(items)@.len() ==> (#[trigger] old(items)@[i]).inv(),
    ensures
        forall|i: int| 0 <= i < final(items)@.len() ==> (#[trigger] final(items)@[i]).inv(),
        forall|i: int|
            0 <= i < final(items)@.len() ==> old(items)@.map_values(|it: Item| it.id).contains(
                (#[trigger] final(items)@[i]).id,
            ),
        forall|i: int, j: int|
            0 <= i < j < final(items)@.len() ==> (#[trigger] final(items)@[i]).id != (
            #[trigger] final(items)@[j]).id,
{
    let ghost ids0 = old(items)@.map_values(|it: Item| it.id);
    let mut allowed: Vec<u64> = Vec::new();
    let mut i: usize = 0;
    while i < items.len()
        invariant
            0 <= i <= items@.len(),
            allowed@.len() == i,
            items@ == old(items)@,
            forall|j: int| 0 <= j < i ==> (#[trigger] allowed@[j]) == items@[j].id,
        decreases items@.len() - i,
    {
        allowed.push(items[i].id);
        i += 1;
    }
    proof {
        assert(allowed@ =~= ids0);
    }
    narrow_items(items, &allowed);
    let mut k: usize = 0;
    while k < plugins.len()
        invariant
            0 <= k <= plugins@.len(),
            allowed@ == ids0,
            forall|i: int| 0 <= i < items@.len() ==> (#[trigger] items@[i]).inv(),
            forall|i: int| 0 <= i < items@.len() ==> ids0.contains((#[trigger] items@[i]).id),
            forall|i: int, j: int|
                0 <= i < j < items@.len() ==> (#[trigger] items@[i]).id != (
                #[trigger] items@[j]).id,
        decreases plugins@.len() - k,
    {
        plugins[k].item_list_filter_hook(hndl, user, collection, context, items);
        narrow_items(items, &allowed);
        k += 1;
    }
}

/// Collect the backend-native filter expressions of every extension,
/// skipping empty answers.
pub fn call_itm_list_db_filter_hook<P: Plugin>(
    plugins: &Vec<P>,
    hndl: &str,
    user: &Option<Item>,
    collection: &str,
    context: &str,
    filter_type: &str,
) -> (r: Vec<String>)
    ensures
        forall|i: int| 0 <= i < r@.len() ==> (#[trigger] r@[i])@.len() > 0,
{
    let mut filters: Vec<String> = Vec::new();
    let mut i: usize = 0;
    while i < plugins.len()
        invariant
            0 <= i <= plugins@.len(),
            forall|j: int| 0 <= j < filters@.len() ==> (#[trigger] filters@[j])@.len() > 0,
        decreases plugins@.len() - i,
    {
        let f = plugins[i].item_list_db_filter_hook(hndl, user, collection, context, filter_type);
        if !f.as_str().is_empty() {
            filters.push(f);
        }
        i += 1;
    }
    filters
}

/// Maintenance-sweep dispatch: asks every extension in turn whether it
/// upgraded the record; true as soon as one did. With no extensions the
/// record is untouched.
pub fn call_collection_read_hook<P: Plugin>(
    plugins: &Vec<P>,
    hndl: &str,
    collection: &str,
    itm: &mut Item,
) -> (r: bool)
    requires
        old(itm).inv(),
    ensures
        final(itm).inv(),
        final(itm).id == old(itm).id,
        plugins@.len() == 0 ==> !r && *final(itm) == *old(itm),
{
    let mut i: usize = 0;
    while i < plugins.len()
        invariant
            itm.inv(),
            itm.id == old(itm).id,
            0 <= i <= plugins@.len(),
            plugins@.len() == 0 ==> *itm == *old(itm),
        decreases plugins@.len() - i,
    {
        if plugins[i].collection_read_hook(hndl, collection, itm) {
            return true;
        }
        i += 1;
    }
    false
}

/// One-time-password dispatch: fan-out to every extension, no veto.
pub fn call_otp_hook<P: Plugin>(plugins: &Vec<P>, hndl: &str, itm: &Item)
{
    let mut i: usize = 0;
    while i < plugins.len()
        invariant
            0 <= i <= plugins@.len(),
        decreases plugins@.len() - i,
    {
        plugins[i].call_otp_hook(hndl, itm);
        i += 1;
    }
}

/// Periodic-job dispatch: fan-out to every extension on a scheduler tick.
pub fn call_periodic_job_hook<P: Plugin>(plugins: &Vec<P>, timing: &str)
{
    let mut i: usize = 0;
    while i < plugins.len()
        invariant
            0 <= i <= plugins@.len(),
        decreases plugins@.len() - i,
    {
        plugins[i].call_periodic_job_hook(timing);
        i += 1;
    }
}

/// URL-route dispatch: the first extension whose answer is not the
/// "not applicable" sentinel wins; with none, the route is not found. The
/// sentinel itself never escapes.
pub fn call_url_route<P: Plugin>(
    plugins: &Vec<P>,
    hndl: &str,
    user: &Option<Item>,
    query: &str,
) -> (r: WebResponse)
    ensures
        !r.is_not_implemented(),
        plugins@.len() == 0 ==> r is NotFound,
{
    let mut i: usize = 0;
    while i < plugins.len()
        invariant
            0 <= i <= plugins@.len(),
        decreases plugins@.len() - i,
    {
        let wr = plugins[i].route_url_hook(hndl, user, query);
        match wr {
            WebResponse::NotImplemented => {},
            _ => {
                return wr;
            },
        }
        i += 1;
    }
    WebResponse::NotFound
}

/// URL POST-route dispatch: every extension is offered the call; the last
/// applicable answer stands, and with none the call is plainly accepted.
pub fn call_url_post_route<P: Plugin>(
    plugins: &Vec<P>,
    hndl: &str,
    user: &Option<Item>,
    query: &str,
    post_itm: &Item,
) -> (r: WebResponse)
    ensures
        !r.is_not_implemented(),
        plugins@.len() == 0 ==> r is Accepted,
{
    let mut response = WebResponse::Accepted;
    let mut i: usize = 0;
    while i < plugins.len()
        invariant
            0 <= i <= plugins@.len(),
            !response.is_not_implemented(),
            plugins@.len() == 0 ==> response is Accepted,
        decreases plugins@.len() - i,
    {
        let wr = plugins[i].route_url_post_hook(hndl, user, query, post_itm);
        match wr {
            WebResponse::NotImplemented => {},
            _ => {
                response = wr;
            },
        }
        i += 1;
    }
    response
}

/// As `call_url_route`, for routes open to anonymous callers.
pub fn call_url_unprotected_route<P: Plugin>(
    plugins: &Vec<P>,
    hndl: &str,
    user: &Option<Item>,
    query: &str,
) -> (r: WebResponse)
    ensures
        !r.is_not_implemented(),
        plugins@.len() == 0 ==> r is NotFound,
{
    let mut i: usize = 0;
    while i < plugins.len()
        invariant
            0 <= i <= plugins@.len(),
        decreases plugins@.len() - i,
    {
        let wr = plugins[i].route_unprotected_url_hook(hndl, user, query);
        match wr {
            WebResponse::NotImplemented => {},
            _ => {
                return wr;
            },
        }
        i += 1;
    }
    WebResponse::NotFound
}

/// As `call_url_post_route`, for POST routes open to anonymous callers.
pub fn call_url_unprotected_post_route<P: Plugin>(
    plugins: &Vec<P>,
    hndl: &str,
    user: &Option<Item>,
    query: &str,
    post_itm: &Item,
) -> (r: WebResponse)
    ensures
        !r.is_not_implemented(),
        plugins@.len() == 0 ==> r is Accepted,
{
    let mut response = WebResponse::Accepted;
    let mut i: usize = 0;
    while i < plugins.len()
        invariant
            0 <= i <= plugins@.len(),
            !response.is_not_implemented(),
            plugins@.len() == 0 ==> response is Accepted,
        decreases plugins@.len() - i,
    {
        let wr = plugins[i].route_unprotected_url_post_hook(hndl, user, query, post_itm);
        match wr {
            WebResponse::NotImplemented => {},
            _ => {
                response = wr;
            },
        }
        i += 1;
    }
    response
}

/// Does some record of `items` have exactly this value?
pub open spec fn some_item_has_view(items: Seq<Item>, v: ItemView) -> bool {
    exists|j: int| 0 <= j < items.len() && (#[trigger] items[j]).deep_view() == v
}

/// The record list narrowed to the records owned by one user: a library
/// building block for owner-scoped list filters. For any input list, every
/// surviving record's owner reference equals `user_id`, and only records of
/// the input survive, unchanged.
pub fn filter_items_by_owner(items: &Vec<Item>, owner_key: &str, user_id: u64) -> (r: Vec<Item>)
    requires
        forall|i: int| 0 <= i < items@.len() ==> (#[trigger] items@[i]).inv(),
    ensures
        forall|i: int| 0 <= i < r@.len() ==> (#[trigger] r@[i]).inv(),
        forall|i: int|
            0 <= i < r@.len() ==> ({
                let v = (#[trigger] r@[i]).deep_view();
                if v.ids.contains_key(owner_key@) {
                    v.ids[owner_key@] == user_id
                } else {
                    user_id == UNSET_ID
                }
            }),
        forall|i: int|
            0 <= i < r@.len() ==> some_item_has_view(items@, (#[trigger] r@[i]).deep_view()),
{
    let mut out: Vec<Item> = Vec::new();
    let ghost mut wit: Seq<int> = Seq::empty();
    let mut i: usize = 0;
    while i < items.len()
        invariant
            0 <= i <= items@.len(),
            forall|j: int| 0 <= j < items@.len() ==> (#[trigger] items@[j]).inv(),
            forall|j: int| 0 <= j < out@.len() ==> (#[trigger] out@[j]).inv(),
            forall|j: int|
                0 <= j < out@.len() ==> ({
                    let v = (#[trigger] out@[j]).deep_view();
                    if v.ids.contains_key(owner_key@) {
                        v.ids[owner_key@] == user_id
                    } else {
                        user_id == UNSET_ID
                    }
                }),
            wit.len() == out@.len(),
            forall|j: int|
                0 <= j < out@.len() ==> 0 <= #[trigger] wit[j] < items@.len() && out@[j].deep_view()
                    == items@[wit[j]].deep_view(),
        decreases items@.len() - i,
    {
        proof {
            assert(items@[i as int].inv());
        }
        if items[i].safe_id(owner_key, u64::MAX) == user_id {
            out.push(items[i].dup());
            proof {
                wit = wit.push(i as int);
            }
        }
        i += 1;
    }
    proof {
        assert forall|i: int| 0 <= i < out@.len() implies some_item_has_view(
            items@,
            (#[trigger] out@[i]).deep_view(),
        ) by {
            assert(0 <= wit[i] < items@.len() && items@[wit[i]].deep_view()
                == out@[i].deep_view());
        }
    }
    out
}

} // verus!
