//! The stock security hooks: pre-edit validation that logins and e-mails
//! stay unique, and the maintenance upgrade that backfills a missing salt
//! and rehashes a plaintext-stored password under it.
use crate::crypto::get_new_salt;
use crate::crypto::get_password_hash;
use crate::crypto::hash_of;
use crate::crypto::verify_password;
use crate::hooks::ProcessResult;
use crate::item::Item;
use crate::item::ItemView;
use crate::store::Store;
use crate::user_control::lower_of;
use vstd::prelude::*;
use vstd::string::StringExecFns;

verus! {

/// The record a write will leave behind, as the uniqueness check sees it:
/// the live record (or nothing) overlaid or replaced by the incoming one.
pub open spec fn effective_record(old_itm: Option<Item>, itm: ItemView, merge: bool) -> ItemView {
    if merge {
        let base = match old_itm {
            Option::Some(o) => o.deep_view(),
            Option::None => ItemView::empty(),
        };
        ItemView::merged(base, itm)
    } else {
        itm
    }
}

/// A string attribute of a record, case-folded; folded emptiness stands
/// for an absent value.
pub open spec fn folded_attr(v: ItemView, key: Seq<char>) -> Seq<char> {
    if v.strs.contains_key(key) {
        lower_of(v.strs[key])
    } else {
        lower_of(Seq::<char>::empty())
    }
}

/// Does the record at `i` (not the one being written) collide on the
/// submitted login?
pub open spec fn login_conflict_at(
    items: Seq<Item>,
    self_id: u64,
    login: Seq<char>,
    i: int,
) -> bool {
    &&& 0 <= i < items.len()
    &&& items[i].id != self_id
    &&& login.len() > 0
    &&& folded_attr(items[i].deep_view(), "login"@) == login
}

/// Does the record at `i` collide on the submitted e-mail?
pub open spec fn email_conflict_at(
    items: Seq<Item>,
    self_id: u64,
    email: Seq<char>,
    i: int,
) -> bool {
    &&& 0 <= i < items.len()
    &&& items[i].id != self_id
    &&& folded_attr(items[i].deep_view(), "email"@) == email
}

/// Is `i` the first record that collides at all?
pub open spec fn first_conflict_at(
    items: Seq<Item>,
    self_id: u64,
    login: Seq<char>,
    email: Seq<char>,
    i: int,
) -> bool {
    &&& (login_conflict_at(items, self_id, login, i) || email_conflict_at(
        items,
        self_id,
        email,
        i,
    ))
    &&& forall|j: int|
        0 <= j < i ==> !login_conflict_at(items, self_id, login, j) && !email_conflict_at(
            items,
            self_id,
            email,
            j,
        )
}

/// Pre-edit validation: a write to any collection must not leave a user
/// record whose login or e-mail collides, case-insensitively, with another
/// live user's; the effective record's e-mail must not be empty. Deletions
/// pass. The first colliding record (in ID order) names the reason: its
/// login collision before its e-mail collision.
pub fn security_check_unique_login_email(
    store: &Store,
    user: &Option<Item>,
    collection: &str,
    old_itm: &Option<Item>,
    itm: &Item,
    del: bool,
    merge: bool,
) -> (r: ProcessResult)
    requires
        store.wf(),
        itm.inv(),
        old_itm matches Some(o) ==> o.inv(),
    ensures
        ({
            let eff = effective_record(*old_itm, itm.deep_view(), merge);
            let email = folded_attr(eff, "email"@);
            let login = folded_attr(itm.deep_view(), "login"@);
            &&& (del ==> r.succeeded)
            &&& (!del && email.len() == 0 ==> !r.succeeded && r.error@
                == "E-Mail must not be empty"@)
            &&& (!del && email.len() > 0 && store.cmap().contains_key("user"@) ==> ({
                let items = store.cmap()["user"@].items@;
                &&& (r.succeeded <==> (forall|i: int|
                    0 <= i < items.len() ==> !login_conflict_at(items, itm.id, login, i)
                        && !email_conflict_at(items, itm.id, email, i)))
                &&& (forall|i: int|
                    first_conflict_at(items, itm.id, login, email, i)
                        && login_conflict_at(items, itm.id, login, i) ==> r.error@
                        == "Login mustn't match already existing one"@)
                &&& (forall|i: int|
                    first_conflict_at(items, itm.id, login, email, i)
                        && !login_conflict_at(items, itm.id, login, i) ==> r.error@
                        == "E-Mail mustn't match already existing one"@)
            }))
            &&& (!del && email.len() > 0 && !store.cmap().contains_key("user"@) ==> r.succeeded)
        }),
{
    let _ = user;
    let _ = collection;
    if del {
        return ProcessResult { succeeded: true, error: String::new() };
    }
    let mut itm_upd: Item = match old_itm {
        Option::Some(o) => o.dup(),
        Option::None => Item::new(),
    };
    if merge {
        itm_upd.merge(itm);
    } else {
        itm_upd = itm.dup();
    }
    proof {
        assert(itm_upd.deep_view() =~~= effective_record(*old_itm, itm.deep_view(), merge));
    }
    let email = lower_str(&itm_upd.safe_str("email", ""));
    let login = lower_str(&itm.safe_str("login", ""));
    proof {
        reveal_strlit("");
        assert(""@ =~= Seq::<char>::empty());
    }
    if email.as_str().is_empty() {
        return ProcessResult {
            succeeded: false,
            error: String::from_str("E-Mail must not be empty"),
        };
    }
    let (pos, found) = store.find_coll("user");
    if !found {
        return ProcessResult { succeeded: true, error: String::new() };
    }
    let ghost eff = effective_record(*old_itm, itm.deep_view(), merge);
    let c = &store.collections[pos];
    let login_empty = login.as_str().is_empty();
    let mut i: usize = 0;
    while i < c.items.len()
        invariant
            store.wf(),
            pos < store.collections@.len(),
            c == &store.collections@[pos as int],
            c.wf(),
            store.cmap().contains_key("user"@),
            store.cmap()["user"@] == store.collections@[pos as int],
            !del,
            eff == effective_record(*old_itm, itm.deep_view(), merge),
            email@ == folded_attr(eff, "email"@),
            login@ == folded_attr(itm.deep_view(), "login"@),
            email@.len() > 0,
            login_empty == (login@.len() == 0),
            0 <= i <= c.items@.len(),
            forall|j: int|
                0 <= j < i ==> !login_conflict_at(c.items@, itm.id, login@, j)
                    && !email_conflict_at(c.items@, itm.id, email@, j),
        decreases c.items@.len() - i,
    {
        proof {
            assert(c.items@[i as int].inv());
            reveal_strlit("");
            assert(""@ =~= Seq::<char>::empty());
        }
        let usr = &c.items[i];
        if usr.id != itm.id {
            if !login_empty {
                let other_login = lower_str(&usr.safe_str("login", ""));
                if other_login.eq(&login) {
                    proof {
                        assert(login_conflict_at(c.items@, itm.id, login@, i as int));
                        assert(first_conflict_at(c.items@, itm.id, login@, email@, i as int));
                        lemma_conflict_unique(c.items@, itm.id, login@, email@, i as int);
                    }
                    return ProcessResult {
                        succeeded: false,
                        error: String::from_str("Login mustn't match already existing one"),
                    };
                }
            }
            let other_email = lower_str(&usr.safe_str("email", ""));
            if other_email.eq(&email) {
                proof {
                    assert(email_conflict_at(c.items@, itm.id, email@, i as int));
                    assert(!login_conflict_at(c.items@, itm.id, login@, i as int));
                    assert(first_conflict_at(c.items@, itm.id, login@, email@, i as int));
                    lemma_conflict_unique(c.items@, itm.id, login@, email@, i as int);
                }
                return ProcessResult {
                    succeeded: false,
                    error: String::from_str("E-Mail mustn't match already existing one"),
                };
            }
        }
        i += 1;
    }
    proof {
        assert forall|k: int|
            first_conflict_at(c.items@, itm.id, login@, email@, k) implies false by {}
    }
    ProcessResult { succeeded: true, error: String::new() }
}

/// Two "first conflict" positions coincide.
proof fn lemma_conflict_unique(
    items: Seq<Item>,
    self_id: u64,
    login: Seq<char>,
    email: Seq<char>,
    i: int,
)
    requires
        first_conflict_at(items, self_id, login, email, i),
    ensures
        forall|k: int| first_conflict_at(items, self_id, login, email, k) ==> k == i,
{
    assert forall|k: int| first_conflict_at(items, self_id, login, email, k) implies k == i by {
        if k < i {
        } else if k > i {
        }
    }
}

/// The case-folded form of a string, by the same folding the lookups use.
fn lower_str(s: &String) -> (r: String)
    ensures
        r@ == lower_of(s@),
{
    crate::user_control::to_lowercase(s.as_str())
}

/// Maintenance upgrade of one record: in the "user" collection, a record
/// without a salt gets a fresh one, and a password it already carried is
/// rehashed under that salt in the same step. Returns whether the record
/// was mutated; a mutated record is pinned exactly, an unmutated one is
/// untouched, and once a record carries a salt running this again changes
/// nothing — the idempotence the maintenance sweep relies on. (A record
/// is also left untouched in the one case hashing refuses: a stored
/// password beyond the hasher's input bound.)
pub fn security_collection_read_hook(collection: &str, itm: &mut Item) -> (r: bool)
    requires
        old(itm).inv(),
    ensures
        final(itm).inv(),
        final(itm).id == old(itm).id,
        !r ==> *final(itm) == *old(itm),
        r ==> collection@ == "user"@ && !old(itm).deep_view().strs.contains_key("salt"@),
        collection@ == "user"@ && !old(itm).deep_view().strs.contains_key("salt"@) && !old(
            itm,
        ).deep_view().strs.contains_key("password"@) ==> r,
        r ==> ({
            let s = final(itm).deep_view().strs["salt"@];
            let ov = old(itm).deep_view();
            let nv = final(itm).deep_view();
            &&& nv.strs.contains_key("salt"@)
            &&& (!ov.strs.contains_key("password"@) ==> nv.strs == ov.strs.insert("salt"@, s))
            &&& (ov.strs.contains_key("password"@) ==> nv.strs == ov.strs.insert(
                "salt"@,
                s,
            ).insert("password"@, hash_of(ov.strs["password"@], s)))
            &&& nv.u64s == ov.u64s
            &&& nv.bools == ov.bools
            &&& nv.ids == ov.ids
            &&& nv.strstrs == ov.strstrs
            &&& nv.idbools == ov.idbools
        }),
{
    let cn: String = collection.to_owned();
    let user_coll = String::from_str("user");
    if !cn.eq(&user_coll) {
        return false;
    }
    let salt_key = String::from_str("salt");
    if itm.strs.contains_key(&salt_key) {
        return false;
    }
    proof {
        reveal_strlit("salt");
        reveal_strlit("password");
        assert("salt"@ !~= "password"@);
    }
    let pw_key = String::from_str("password");
    let had_pw = itm.strs.contains_key(&pw_key);
    let old_pw = itm.safe_str("password", "");
    let salt = get_new_salt();
    if had_pw {
        match get_password_hash(old_pw.as_str(), salt.as_str()) {
            Some(h) => {
                itm.set_str("salt", salt.as_str());
                itm.set_str("password", h.as_str());
                true
            },
            None => false,
        }
    } else {
        itm.set_str("salt", salt.as_str());
        true
    }
}

/// Is the record a challenge submission: all three transient password
/// fields present?
pub open spec fn has_challenge_fields(v: ItemView) -> bool {
    &&& v.strs.contains_key("__password"@)
    &&& v.strs.contains_key("__new_password1"@)
    &&& v.strs.contains_key("__new_password2"@)
}

/// The salt a password change will hash under: the live record's, or the
/// stock placeholder when it has none.
pub open spec fn challenge_salt(old_v: ItemView) -> Seq<char> {
    if old_v.strs.contains_key("salt"@) {
        old_v.strs["salt"@]
    } else {
        "<empty salt>"@
    }
}

/// A string attribute of a record, or empty when absent.
pub open spec fn attr_or_empty(v: ItemView, key: Seq<char>) -> Seq<char> {
    if v.strs.contains_key(key) {
        v.strs[key]
    } else {
        Seq::<char>::empty()
    }
}

/// Does the submitted challenge pass: the caller is an administrator, or
/// presents the old password, or the pending one-time password?
pub open spec fn challenge_passes(old_v: ItemView, v: ItemView, admin: bool) -> bool {
    ||| admin
    ||| crate::crypto::verifies(attr_or_empty(v, "__password"@), attr_or_empty(old_v, "password"@))
    ||| (attr_or_empty(old_v, "otp"@).len() > 0 && attr_or_empty(old_v, "otp"@) == attr_or_empty(
        v,
        "__password"@,
    ))
}

/// The in-flight record after a passed challenge: the transient fields and
/// any pending one-time password gone, the new password hashed under the
/// salt in their place.
pub open spec fn challenge_applied(v: ItemView, salt: Seq<char>) -> ItemView {
    ItemView {
        strs: v.strs.remove("__password"@).remove("__new_password1"@).remove(
            "__new_password2"@,
        ).remove("otp"@).insert("password"@, hash_of(v.strs["__new_password1"@], salt)),
        ..v
    }
}

/// Pre-edit guard of the user collection's credentials: direct edits of
/// "password" or "salt" are rejected; a fresh user record is given a salt;
/// a password change must pass the challenge — the old password, the
/// pending one-time password, or administrator rights, with both copies of
/// the new password agreeing — and then replaces the transient fields with
/// the hash of the new password under the record's salt. Deletions and
/// other collections pass untouched.
pub fn security_password_challenge_pre_edit_hook(
    store: &Store,
    user: &Option<Item>,
    collection: &str,
    old_itm: &Option<Item>,
    itm: &mut Item,
    del: bool,
    merge: bool,
) -> (r: ProcessResult)
    requires
        store.wf(),
        old(itm).inv(),
        user matches Some(u) ==> u.inv(),
        old_itm matches Some(o) ==> o.inv(),
    ensures
        final(itm).inv(),
        final(itm).id == old(itm).id,
        ({
            let uc = collection@ == "user"@;
            let admin = crate::setting::is_admin(store.internals.deep_view(), *user);
            let blocked = uc && old_itm is Some && (old(itm).deep_view().strs.contains_key(
                "password"@,
            ) || old(itm).deep_view().strs.contains_key("salt"@));
            &&& (del ==> r.succeeded && *final(itm) == *old(itm))
            &&& (!del && blocked ==> !r.succeeded && r.error@ == "Can't edit password directly"@
                && *final(itm) == *old(itm))
            &&& (!del && !uc ==> r.succeeded && *final(itm) == *old(itm))
            &&& (!del && !blocked && uc && old_itm is None ==> r.succeeded && ({
                let s = final(itm).deep_view().strs["salt"@];
                final(itm).deep_view() == (ItemView {
                    strs: old(itm).deep_view().strs.insert("salt"@, s),
                    ..old(itm).deep_view()
                })
            }))
            &&& (old_itm matches Some(o) ==> (!del && !blocked && uc ==> {
                let old_v = o.deep_view();
                let v = old(itm).deep_view();
                let checked = attr_or_empty(v, "__password"@);
                &&& (!has_challenge_fields(v) ==> r.succeeded && *final(itm) == *old(itm))
                &&& (has_challenge_fields(v) && !admin && checked.len() == 0 ==> !r.succeeded
                    && r.error@ == "Old password is empty"@ && *final(itm) == *old(itm))
                &&& (has_challenge_fields(v) && (admin || checked.len() > 0) && !(
                challenge_passes(old_v, v, admin) && v.strs["__new_password1"@]
                    == v.strs["__new_password2"@]) ==> !r.succeeded && r.error@
                    == "Password change challenge failed"@ && *final(itm) == *old(itm))
                &&& (has_challenge_fields(v) && (admin || checked.len() > 0) && challenge_passes(
                    old_v,
                    v,
                    admin,
                ) && v.strs["__new_password1"@] == v.strs["__new_password2"@] ==> ((r.succeeded
                    && final(itm).deep_view() == challenge_applied(v, challenge_salt(old_v)))
                    || (!r.succeeded && r.error@ == "Password change challenge failed"@)))
            }))
        }),
{
    let is_admin_now = crate::user_control::check_role(store, user, "admin");
    if del {
        return ProcessResult { succeeded: true, error: String::new() };
    }
    let uc_key = String::from_str("user");
    let coll_s: String = collection.to_owned();
    let uc = coll_s.eq(&uc_key);
    if !uc {
        return ProcessResult { succeeded: true, error: String::new() };
    }
    let pw_key = String::from_str("password");
    let salt_key = String::from_str("salt");
    if old_itm.is_some() && (itm.strs.contains_key(&pw_key) || itm.strs.contains_key(&salt_key)) {
        return ProcessResult {
            succeeded: false,
            error: String::from_str("Can't edit password directly"),
        };
    }
    proof {
        reveal_strlit("");
        assert(""@ =~= Seq::<char>::empty());
    }
    match old_itm {
        Option::None => {
            let fresh = get_new_salt();
            itm.set_str("salt", fresh.as_str());
            ProcessResult { succeeded: true, error: String::new() }
        },
        Option::Some(o) => {
            let salt = o.safe_str("salt", "<empty salt>");
            proof {
                assert(salt@ == challenge_salt(o.deep_view()));
            }
            let c1 = String::from_str("__password");
            let c2 = String::from_str("__new_password1");
            let c3 = String::from_str("__new_password2");
            let has_fields = itm.strs.contains_key(&c1) && itm.strs.contains_key(&c2)
                && itm.strs.contains_key(&c3);
            if !has_fields {
                return ProcessResult { succeeded: true, error: String::new() };
            }
            let old_pw_hash = o.safe_str("password", "");
            let old_otp = o.safe_str("otp", "");
            let old_checked = itm.safe_str("__password", "");
            if !is_admin_now && old_checked.as_str().is_empty() {
                return ProcessResult {
                    succeeded: false,
                    error: String::from_str("Old password is empty"),
                };
            }
            let pass = is_admin_now || verify_password(old_checked.as_str(), old_pw_hash.as_str())
                || (!old_otp.as_str().is_empty() && old_otp.eq(&old_checked));
            let n1 = itm.safe_str("__new_password1", "<bad1>");
            let n2 = itm.safe_str("__new_password2", "<bad2>");
            if !pass || !n1.eq(&n2) {
                return ProcessResult {
                    succeeded: false,
                    error: String::from_str("Password change challenge failed"),
                };
            }
            let hashed = get_password_hash(n1.as_str(), salt.as_str());
            match hashed {
                Option::Some(h) => {
                    itm.del_str("__password");
                    itm.del_str("__new_password1");
                    itm.del_str("__new_password2");
                    itm.del_str("otp");
                    itm.set_str("password", h.as_str());
                    proof {
                        assert(final(itm).deep_view() =~~= challenge_applied(
                            old(itm).deep_view(),
                            challenge_salt(o.deep_view()),
                        ));
                    }
                    ProcessResult { succeeded: true, error: String::new() }
                },
                Option::None => ProcessResult {
                    succeeded: false,
                    error: String::from_str("Password change challenge failed"),
                },
            }
        },
    }
}

/// Does the redaction keep this record: in the user collection only one's
/// own record (or any, for an administrator); elsewhere all.
pub open spec fn redact_keeps(v: ItemView, uid: u64, admin: bool, usercoll: bool) -> bool {
    if usercoll {
        v.id == uid || admin
    } else {
        true
    }
}

/// The visible form of one kept record: in listing mode a fresh record
/// with only the public attributes (name; and for the user collection the
/// phone, insurance and the active/administrator flags); in full mode the
/// record itself, with salt and password stripped in the user collection.
pub open spec fn redact_one(v: ItemView, list: bool, usercoll: bool) -> ItemView {
    if list {
        if usercoll {
            ItemView {
                id: v.id,
                strs: Map::<Seq<char>, Seq<char>>::empty().insert(
                    "name"@,
                    attr_or_empty(v, "name"@),
                ).insert("phone"@, attr_or_empty(v, "phone"@)),
                bools: Map::<Seq<char>, bool>::empty().insert(
                    "has_insurance"@,
                    v.bools.contains_key("has_insurance"@) && v.bools["has_insurance"@],
                ).insert(
                    "role_is_active"@,
                    v.bools.contains_key("role_is_active"@) && v.bools["role_is_active"@],
                ).insert(
                    "role_is_admin"@,
                    v.bools.contains_key("role_is_admin"@) && v.bools["role_is_admin"@],
                ),
                ..ItemView::empty()
            }
        } else {
            ItemView {
                id: v.id,
                strs: Map::<Seq<char>, Seq<char>>::empty().insert(
                    "name"@,
                    attr_or_empty(v, "name"@),
                ),
                ..ItemView::empty()
            }
        }
    } else {
        if usercoll {
            ItemView { strs: v.strs.remove("salt"@).remove("password"@), ..v }
        } else {
            v
        }
    }
}

/// The whole visible list after redaction, in order.
pub open spec fn redact_list(
    vs: Seq<ItemView>,
    uid: u64,
    admin: bool,
    list: bool,
    usercoll: bool,
) -> Seq<ItemView>
    decreases vs.len(),
{
    if vs.len() == 0 {
        Seq::empty()
    } else {
        let rest = redact_list(vs.drop_last(), uid, admin, list, usercoll);
        if redact_keeps(vs.last(), uid, admin, usercoll) {
            rest.push(redact_one(vs.last(), list, usercoll))
        } else {
            rest
        }
    }
}

/// The stock list filter: redact the visible records for the requesting
/// user. An administrator sees collections other than "user" untouched; an
/// anonymous caller sees nothing; otherwise a listing shows only public
/// attributes, and a full view ("full" context) shows one's own user
/// record with the credentials stripped.
pub fn security_itm_filter_hook(
    store: &Store,
    user: &Option<Item>,
    collection: &str,
    context: &str,
    items: &mut Vec<Item>,
)
    requires
        store.wf(),
        user matches Some(u) ==> u.inv(),
        forall|i: int| 0 <= i < old(items)@.len() ==> (#[trigger] old(items)@[i]).inv(),
    ensures
        forall|i: int| 0 <= i < final(items)@.len() ==> (#[trigger] final(items)@[i]).inv(),
        ({
            let admin = crate::setting::is_admin(store.internals.deep_view(), *user);
            let usercoll = collection@ == "user"@;
            let list = context@ != "full"@;
            &&& (admin && !usercoll ==> final(items)@ == old(items)@)
            &&& (!(admin && !usercoll) && user is None ==> final(items)@.len() == 0)
            &&& (user matches Some(u) ==> (!(admin && !usercoll)
                ==> crate::collection::item_views(final(items)@) == redact_list(
                crate::collection::item_views(old(items)@),
                u.id,
                admin,
                list,
                usercoll,
            )))
        }),
{
    let admin = crate::user_control::check_role(store, user, "admin");
    let uc_key = String::from_str("user");
    let coll_s: String = collection.to_owned();
    let usercoll = coll_s.eq(&uc_key);
    if admin && !usercoll {
        return ;
    }
    let uid: u64 = match user {
        Option::Some(u) => u.id,
        Option::None => {
            *items = Vec::new();
            return ;
        },
    };
    let full_key = String::from_str("full");
    let ctx_s: String = context.to_owned();
    let list = !ctx_s.eq(&full_key);
    let ghost allv = crate::collection::item_views(items@);
    let mut out: Vec<Item> = Vec::new();
    let mut i: usize = 0;
    while i < items.len()
        invariant
            allv == crate::collection::item_views(items@),
            0 <= i <= items@.len(),
            forall|j: int| 0 <= j < items@.len() ==> (#[trigger] items@[j]).inv(),
            forall|j: int| 0 <= j < out@.len() ==> (#[trigger] out@[j]).inv(),
            crate::collection::item_views(out@) == redact_list(
                allv.take(i as int),
                uid,
                admin,
                list,
                usercoll,
            ),
        decreases items@.len() - i,
    {
        proof {
            assert(allv.take(i as int + 1).drop_last() =~= allv.take(i as int));
            assert(allv.take(i as int + 1).last() == items@[i as int].deep_view());
            assert(items@[i as int].inv());
            reveal_strlit("");
            assert(""@ =~= Seq::<char>::empty());
        }
        let el = &items[i];
        if !usercoll || el.id == uid || admin {
            let shown: Item = if list {
                let mut v = Item::new();
                v.id = el.id;
                v.set_str("name", el.safe_str("name", "").as_str());
                if usercoll {
                    v.set_str("phone", el.safe_str("phone", "").as_str());
                    v.set_bool("has_insurance", el.safe_bool("has_insurance", false));
                    v.set_bool("role_is_active", el.safe_bool("role_is_active", false));
                    v.set_bool("role_is_admin", el.safe_bool("role_is_admin", false));
                }
                v
            } else {
                let mut v = el.dup();
                if usercoll {
                    v.del_str("salt");
                    v.del_str("password");
                }
                v
            };
            proof {
                assert(shown.deep_view() =~~= redact_one(
                    items@[i as int].deep_view(),
                    list,
                    usercoll,
                ));
            }
            out.push(shown);
            proof {
                assert(crate::collection::item_views(out@) =~= redact_list(
                    allv.take(i as int + 1),
                    uid,
                    admin,
                    list,
                    usercoll,
                ));
            }
        } else {
            proof {
                assert(crate::collection::item_views(out@) =~= redact_list(
                    allv.take(i as int + 1),
                    uid,
                    admin,
                    list,
                    usercoll,
                ));
            }
        }
        i += 1;
    }
    proof {
        assert(allv.take(items@.len() as int) =~= allv);
    }
    *items = out;
}

} // verus!
