//! The account flows: one-time-password generation, self-registration,
//! password/OTP login, and the session-status summary.
use crate::collection::Collection;
use crate::collection::with_id;
use crate::crypto::get_otp_code;
use crate::crypto::verifies;
use crate::crypto::verify_password;
use crate::hooks::Plugin;
use crate::hooks::ProcessResult;
use crate::hooks::call_otp_hook;
use crate::item::Dict;
use crate::item::Item;
use crate::item::ItemView;
use crate::item::UNSET_ID;
use crate::store::Store;
use crate::user_control::clear_otp;
use crate::user_control::first_both_match;
use crate::user_control::otp_cleared;
use crate::user_control::user_matches_both;
use crate::user_control::get_user;
use crate::user_control::has_bad_symbol;
use crate::user_control::is_first_user_match;
use crate::user_control::login_has_bad_symbols;
use crate::user_control::role_prefix;
use crate::user_control::user_matches;
use vstd::prelude::*;
use vstd::string::StringExecFns;
use vstd::string::StringSliceAdditionalSpecFns;

verus! {

/// A username/password pair as submitted to the login endpoint.
pub struct LoginUser {
    pub username: String,
    pub password: String,
}

/// The session summary handed to the frontend: who is logged in, their
/// roles, and the site's branding values.
pub struct DetailedLoginUser {
    pub username: String,
    pub id: u64,
    pub role: Vec<String>,
    pub site_name: String,
    pub site_logo: String,
    pub licensed_to: String,
}

/// Is position `i` the first record answering to this login?
pub open spec fn first_user_match_at(items: Seq<Item>, login: Seq<char>, i: int) -> bool {
    &&& 0 <= i < items.len()
    &&& user_matches(items[i].deep_view(), login)
    &&& forall|j: int| 0 <= j < i ==> !user_matches((#[trigger] items[j]).deep_view(), login)
}

/// Does some record answer to this login?
pub open spec fn some_user_matches(items: Seq<Item>, login: Seq<char>) -> bool {
    exists|i: int| 0 <= i < items.len() && user_matches((#[trigger] items[i]).deep_view(), login)
}

/// A record with a fresh one-time password written into it.
pub open spec fn otp_set(v: ItemView, code: Seq<char>) -> ItemView {
    ItemView { strs: v.strs.insert("otp"@, code), ..v }
}

/// Did generating an OTP leave the user collection as expected: the first
/// record answering to the login rewritten with some nine-digit code?
pub open spec fn otp_written(c0: Collection, login: Seq<char>, m: Map<u64, ItemView>) -> bool {
    exists|i: int, code: Seq<char>|
        #![trigger c0.items@[i], code.len()]
        first_user_match_at(c0.items@, login, i) && code.len() == 9 && m == c0.contents().insert(
            c0.items@[i].id,
            with_id(otp_set(c0.items@[i].deep_view(), code), c0.items@[i].id),
        )
}

/// Generate a one-time password for the user answering to this login:
/// the user record is rewritten with a fresh nine-digit code under "otp",
/// and the bound OTP hooks are notified. Rejected, with the store
/// untouched, when no user answers.
pub fn gen_otp<P: Plugin>(store: &mut Store, plugins: &Vec<P>, username: &str) -> (r:
    ProcessResult)
    requires
        old(store).wf(),
    ensures
        final(store).wf(),
        forall|n: Seq<char>|
            final(store).cmap().contains_key(n) == old(store).cmap().contains_key(n),
        final(store).settings == old(store).settings,
        final(store).internals == old(store).internals,
        final(store).path == old(store).path,
        r.succeeded <==> (!has_bad_symbol(username.spec_bytes()) && old(store).cmap().contains_key(
            "user"@,
        ) && some_user_matches(old(store).cmap()["user"@].items@, username@)),
        !r.succeeded ==> r.error@ == "Invalid login"@ && *final(store) == *old(store),
        r.succeeded ==> otp_written(
            old(store).cmap()["user"@],
            username@,
            final(store).cmap()["user"@].contents(),
        ),
{
    let usr = get_user(store, username);
    match usr {
        Option::None => {
            proof {
                if !has_bad_symbol(username.spec_bytes()) && old(store).cmap().contains_key(
                    "user"@,
                ) {
                    if some_user_matches(old(store).cmap()["user"@].items@, username@) {
                        let i = choose|i: int|
                            0 <= i < old(store).cmap()["user"@].items@.len() && user_matches(
                                (#[trigger] old(store).cmap()["user"@].items@[i]).deep_view(),
                                username@,
                            );
                        assert(false);
                    }
                }
            }
            ProcessResult { succeeded: false, error: String::from_str("Invalid login") }
        },
        Option::Some(u) => {
            let ghost c0 = store.cmap()["user"@];
            let ghost fidx = choose|i: int|
                0 <= i < c0.items@.len() && (#[trigger] c0.items@[i]).deep_view() == u.deep_view()
                    && user_matches(u.deep_view(), username@) && (forall|j: int|
                    0 <= j < i ==> !user_matches((#[trigger] c0.items@[j]).deep_view(), username@));
            proof {
                assert(first_user_match_at(c0.items@, username@, fidx));
                assert(0 <= fidx < c0.items@.len() && user_matches(
                    (#[trigger] c0.items@[fidx]).deep_view(),
                    username@,
                ));
            }
            let code = get_otp_code();
            let mut new_usr = u;
            new_usr.set_str("otp", code.as_str());
            proof {
                store.lemma_cmap();
                assert(c0.wf());
                assert(new_usr.deep_view() =~~= otp_set(c0.items@[fidx].deep_view(), code@));
                assert(new_usr.id == c0.items@[fidx].id);
                assert(new_usr.id != UNSET_ID);
                c0.lemma_contents_ids();
                assert(c0.contents().contains_key(new_usr.id));
            }
            let _res = store.set_item("user", &new_usr, false);
            proof {
                assert(store.cmap()["user"@].contents() == c0.contents().insert(
                    new_usr.id,
                    with_id(new_usr.deep_view(), new_usr.id),
                ));
                assert(with_id(new_usr.deep_view(), new_usr.id) =~~= with_id(
                    otp_set(c0.items@[fidx].deep_view(), code@),
                    c0.items@[fidx].id,
                ));
                assert(otp_written(c0, username@, store.cmap()["user"@].contents())) by {
                    assert(first_user_match_at(c0.items@, username@, fidx) && code@.len() == 9
                        && store.cmap()["user"@].contents() == c0.contents().insert(
                        c0.items@[fidx].id,
                        with_id(otp_set(c0.items@[fidx].deep_view(), code@), c0.items@[fidx].id),
                    ));
                }
            }
            let internals = store.get_internals();
            let empty: Dict<String, String> = Dict::new();
            let otp_b = internals.safe_strstr("otp_hook", &empty);
            let mut k: usize = 0;
            while k < otp_b.entries.len()
                invariant
                    0 <= k <= otp_b.entries@.len(),
                    new_usr.inv(),
                decreases otp_b.entries@.len() - k,
            {
                call_otp_hook(plugins, otp_b.entries[k].1.as_str(), &new_usr);
                k += 1;
            }
            proof {
                assert(otp_written(c0, username@, final(store).cmap()["user"@].contents()));
            }
            ProcessResult { succeeded: true, error: String::new() }
        },
    }
}

/// Is this user record marked as having completed a first login?
pub open spec fn logged_once(v: ItemView) -> bool {
    v.bools.contains_key("logged_once"@) && v.bools["logged_once"@]
}

/// Is the login name taken: does its first matching user record carry the
/// first-login mark?
pub open spec fn name_taken(items: Seq<Item>, login: Seq<char>) -> bool {
    exists|i: int|
        #![trigger items[i]]
        first_user_match_at(items, login, i) && logged_once(items[i].deep_view())
}

/// The record a fresh registration writes: the login as name and login,
/// the e-mail, and the active-role flag.
pub open spec fn registered_user(login: Seq<char>, email: Seq<char>) -> ItemView {
    ItemView {
        strs: Map::empty().insert("name"@, login).insert("login"@, login).insert("email"@, email),
        bools: Map::empty().insert("role_is_active"@, true),
        ..ItemView::empty()
    }
}

/// Register a user: rejected when the submitted login or e-mail already
/// answers to a user who has logged in before; otherwise (unless a dry
/// run) a fresh active user record is allocated with the submitted login
/// and e-mail.
pub fn register(store: &mut Store, login: &str, email: &str, dry: &str) -> (r: ProcessResult)
    requires
        old(store).wf(),
        old(store).cmap().contains_key("user"@) ==> old(store).cmap()["user"@].count < u64::MAX
            - 1,
    ensures
        final(store).wf(),
        forall|n: Seq<char>|
            final(store).cmap().contains_key(n) == old(store).cmap().contains_key(n),
        final(store).settings == old(store).settings,
        final(store).internals == old(store).internals,
        final(store).path == old(store).path,
        ({
            let taken_login = !has_bad_symbol(login.spec_bytes())
                && old(store).cmap().contains_key("user"@)
                && name_taken(old(store).cmap()["user"@].items@, login@);
            let taken_email = !has_bad_symbol(email.spec_bytes())
                && old(store).cmap().contains_key("user"@)
                && name_taken(old(store).cmap()["user"@].items@, email@);
            &&& r.succeeded <==> (!taken_login && !taken_email)
            &&& (taken_login ==> r.error@ == "Login is already used"@
                && *final(store) == *old(store))
            &&& (!taken_login && taken_email ==> r.error@ == "Email is already used"@
                && *final(store) == *old(store))
            &&& (r.succeeded && dry@ == "true"@ ==> *final(store) == *old(store))
            &&& (r.succeeded && dry@ != "true"@ && old(store).cmap().contains_key("user"@) ==> ({
                let c0 = old(store).cmap()["user"@];
                let nid = (c0.count + 1) as u64;
                &&& final(store).cmap()["user"@].contents() == c0.contents().insert(
                    nid,
                    with_id(registered_user(login@, email@), nid),
                )
                &&& final(store).cmap()["user"@].count == nid
            }))
        }),
{
    let usr = get_user(store, login);
    match usr {
        Option::Some(u) => {
            if u.safe_bool("logged_once", false) {
                proof {
                    lemma_first_match_taken(store.cmap()["user"@].items@, login@, u.deep_view());
                }
                return ProcessResult {
                    succeeded: false,
                    error: String::from_str("Login is already used"),
                };
            }
            proof {
                lemma_first_match_not_taken(store.cmap()["user"@].items@, login@, u.deep_view());
            }
        },
        Option::None => {
            proof {
                lemma_no_match_not_taken(*store, login@, login.spec_bytes());
            }
        },
    }
    let usr2 = get_user(store, email);
    match usr2 {
        Option::Some(u) => {
            if u.safe_bool("logged_once", false) {
                proof {
                    lemma_first_match_taken(store.cmap()["user"@].items@, email@, u.deep_view());
                }
                return ProcessResult {
                    succeeded: false,
                    error: String::from_str("Email is already used"),
                };
            }
            proof {
                lemma_first_match_not_taken(store.cmap()["user"@].items@, email@, u.deep_view());
            }
        },
        Option::None => {
            proof {
                lemma_no_match_not_taken(*store, email@, email.spec_bytes());
            }
        },
    }
    let dry_key = String::from_str("true");
    let dry_s: String = dry.to_owned();
    if !dry_s.eq(&dry_key) {
        let mut itm = Item::new();
        itm.set_str("name", login);
        itm.set_str("login", login);
        itm.set_str("email", email);
        itm.set_bool("role_is_active", true);
        proof {
            assert(itm.deep_view() =~~= registered_user(login@, email@));
            assert(itm.id == UNSET_ID);
        }
        let _res = store.set_item("user", &itm, false);
    }
    ProcessResult { succeeded: true, error: String::new() }
}

/// A first match that carries the first-login mark makes the name taken.
proof fn lemma_first_match_taken(items: Seq<Item>, login: Seq<char>, v: ItemView)
    requires
        is_first_user_match(items, login, v),
        logged_once(v),
    ensures
        name_taken(items, login),
{
    let i = choose|i: int|
        0 <= i < items.len() && (#[trigger] items[i]).deep_view() == v && user_matches(v, login)
            && (forall|j: int| 0 <= j < i ==> !user_matches((#[trigger] items[j]).deep_view(), login));
    assert(first_user_match_at(items, login, i));
    assert(items[i].deep_view() == v);
}

/// A first match without the first-login mark leaves the name free.
proof fn lemma_first_match_not_taken(items: Seq<Item>, login: Seq<char>, v: ItemView)
    requires
        is_first_user_match(items, login, v),
        !logged_once(v),
    ensures
        !name_taken(items, login),
{
    let i = choose|i: int|
        0 <= i < items.len() && (#[trigger] items[i]).deep_view() == v && user_matches(v, login)
            && (forall|j: int| 0 <= j < i ==> !user_matches((#[trigger] items[j]).deep_view(), login));
    if name_taken(items, login) {
        let k = choose|k: int|
            #![trigger items[k]]
            first_user_match_at(items, login, k) && logged_once(items[k].deep_view());
        if k < i {
            assert(user_matches(items[k].deep_view(), login));
        } else if k > i {
            assert(!user_matches(items[i].deep_view(), login));
        }
    }
}

/// With no matching record at all, the name is free.
proof fn lemma_no_match_not_taken(store: Store, login: Seq<char>, bytes: Seq<u8>)
    requires
        has_bad_symbol(bytes) || !store.cmap().contains_key("user"@) || (forall|i: int|
            0 <= i < store.cmap()["user"@].items@.len() ==> !user_matches(
                (#[trigger] store.cmap()["user"@].items@[i]).deep_view(),
                login,
            )),
    ensures
        !has_bad_symbol(bytes) && store.cmap().contains_key("user"@) ==> !name_taken(
            store.cmap()["user"@].items@,
            login,
        ),
{
    if !has_bad_symbol(bytes) && store.cmap().contains_key("user"@) {
        let items = store.cmap()["user"@].items@;
        if name_taken(items, login) {
            let k = choose|k: int|
                #![trigger items[k]]
                first_user_match_at(items, login, k) && logged_once(items[k].deep_view());
            assert(user_matches(items[k].deep_view(), login));
        }
    }
}

/// Is this user record marked active?
pub open spec fn active_user(v: ItemView) -> bool {
    v.bools.contains_key("role_is_active"@) && v.bools["role_is_active"@]
}

/// Does this record accept the submitted password: by Argon2 verification
/// against its stored hash, or by equality with its pending one-time
/// password?
pub open spec fn accepts_password(v: ItemView, password: Seq<char>) -> bool {
    ||| (v.strs.contains_key("password"@) && v.strs["password"@].len() > 0 && verifies(
        password,
        v.strs["password"@],
    ))
    ||| (v.strs.contains_key("otp"@) && v.strs["otp"@].len() > 0 && v.strs["otp"@] == password)
}

/// Does the login succeed: the first record answering to the username is
/// active and accepts the password?
pub open spec fn login_accepted(items: Seq<Item>, username: Seq<char>, password: Seq<char>) -> bool {
    exists|i: int|
        #![trigger items[i]]
        first_user_match_at(items, username, i) && active_user(items[i].deep_view())
            && accepts_password(items[i].deep_view(), password)
}

/// The record a successful login leaves behind: the first-login mark
/// merged into it, everything else kept.
pub open spec fn login_marked(v: ItemView, uid: u64) -> ItemView {
    ItemView::merged(
        v,
        ItemView {
            id: uid,
            bools: Map::<Seq<char>, bool>::empty().insert("logged_once"@, true),
            ..ItemView::empty()
        },
    )
}

/// No record answers to the login by both its login name and its e-mail,
/// so the clearing step leaves the store alone.
pub open spec fn no_both_match(items: Seq<Item>, login: Seq<char>) -> bool {
    forall|i: int|
        0 <= i < items.len() ==> !user_matches_both((#[trigger] items[i]).deep_view(), login)
}

/// Where some record answers by both login name and e-mail, a first such
/// record exists.
proof fn lemma_first_both_exists(items: Seq<Item>, login: Seq<char>, n: int)
    requires
        0 <= n <= items.len(),
        exists|i: int|
            0 <= i < n && user_matches_both((#[trigger] items[i]).deep_view(), login),
    ensures
        exists|j: int| #![trigger items[j]] first_both_match(items, login, j),
    decreases n,
{
    let i = choose|i: int|
        0 <= i < n && user_matches_both((#[trigger] items[i]).deep_view(), login);
    if exists|k: int| 0 <= k < i && user_matches_both((#[trigger] items[k]).deep_view(), login) {
        lemma_first_both_exists(items, login, i);
    } else {
        assert(first_both_match(items, login, i));
    }
}

/// Log a user in: the user answering to the username must be active and
/// present the stored password (or the pending one-time password). On
/// success the record's first-login mark is set and the session is granted
/// under the user's e-mail; any pending one-time password of the matching
/// login is cleared first, so a code is spendable once.
#[verifier::rlimit(100)]
pub fn login(store: &mut Store, username: &str, password: &str) -> (r: (
    ProcessResult,
    Option<String>,
))
    requires
        old(store).wf(),
    ensures
        final(store).wf(),
        forall|n: Seq<char>|
            final(store).cmap().contains_key(n) == old(store).cmap().contains_key(n),
        final(store).settings == old(store).settings,
        final(store).internals == old(store).internals,
        final(store).path == old(store).path,
        r.0.succeeded <==> (!has_bad_symbol(username.spec_bytes()) && old(
            store,
        ).cmap().contains_key("user"@) && login_accepted(
            old(store).cmap()["user"@].items@,
            username@,
            password@,
        )),
        r.0.succeeded <==> r.1 is Some,
        r.0.succeeded ==> (forall|i: int|
            first_user_match_at(old(store).cmap()["user"@].items@, username@, i) ==> ({
                let items0 = old(store).cmap()["user"@].items@;
                let uid = items0[i].id;
                let c0 = old(store).cmap()["user"@].contents();
                &&& final(store).cmap().contains_key("user"@)
                &&& (no_both_match(items0, username@) ==> final(store).cmap()[
                    "user"@
                ].contents() == c0.insert(uid, login_marked(c0[uid], uid)))
                &&& (forall|j: int|
                    first_both_match(items0, username@, j) ==> ({
                        let cid = items0[j].id;
                        let c1 = c0.insert(
                            cid,
                            with_id(otp_cleared(items0[j].deep_view()), cid),
                        );
                        final(store).cmap()["user"@].contents() == c1.insert(
                            uid,
                            login_marked(c1[uid], uid),
                        )
                    }))
            })),
        r.1 matches Some(email) ==> (forall|i: int|
            first_user_match_at(old(store).cmap()["user"@].items@, username@, i) ==> email@
                == ({
                let v = old(store).cmap()["user"@].items@[i].deep_view();
                if v.strs.contains_key("email"@) {
                    v.strs["email"@]
                } else {
                    Seq::<char>::empty()
                }
            })),
        !r.0.succeeded ==> (r.0.error@ == "Invalid login/password"@ || r.0.error@
            == "User is inactive"@),
        (has_bad_symbol(username.spec_bytes()) || !old(store).cmap().contains_key("user"@) || !(
        some_user_matches(old(store).cmap()["user"@].items@, username@))) ==> *final(store)
            == *old(store) && r.0.error@ == "Invalid login/password"@,
{
    let usr = get_user(store, username);
    match usr {
        Option::None => {
            proof {
                lemma_no_match_no_login(*old(store), username@, password@, username.spec_bytes());
            }
            (
                ProcessResult {
                    succeeded: false,
                    error: String::from_str("Invalid login/password"),
                },
                None,
            )
        },
        Option::Some(itm_real) => {
            let ghost items0 = old(store).cmap()["user"@].items@;
            clear_otp(store, username);
            let ghost mid = *store;
            if !itm_real.safe_bool("role_is_active", false) {
                proof {
                    lemma_first_match_rejects(items0, username@, password@, itm_real.deep_view());
                }
                return (
                    ProcessResult { succeeded: false, error: String::from_str("User is inactive") },
                    None,
                );
            }
            proof {
                reveal_strlit("");
            }
            let pw = itm_real.safe_str("password", "");
            let otp = itm_real.safe_str("otp", "");
            let pw_ok = !pw.as_str().is_empty() && verify_password(password, pw.as_str());
            let pwd_s: String = password.to_owned();
            let otp_ok = !otp.as_str().is_empty() && pwd_s.eq(&otp);
            if pw_ok || otp_ok {
                proof {
                    assert(""@.len() == 0);
                    lemma_first_match_accepts(items0, username@, password@, itm_real.deep_view());
                    store.lemma_cmap();
                    old(store).lemma_cmap();
                    let gi = choose|i: int|
                        0 <= i < items0.len() && (#[trigger] items0[i]).deep_view()
                            == itm_real.deep_view() && user_matches(itm_real.deep_view(), username@)
                            && (forall|j: int|
                            0 <= j < i ==> !user_matches(
                                (#[trigger] items0[j]).deep_view(),
                                username@,
                            ));
                    assert(items0[gi].id != UNSET_ID);
                    assert(itm_real.id == items0[gi].deep_view().id);
                }
                let mut logged = Item::new();
                logged.id = itm_real.id;
                logged.set_bool("logged_once", true);
                proof {
                    let ghost c1 = store.cmap()["user"@];
                    c1.lemma_contents_ids();
                }
                proof {
                    assert(logged.deep_view() =~~= (ItemView {
                        id: itm_real.id,
                        bools: Map::<Seq<char>, bool>::empty().insert("logged_once"@, true),
                        ..ItemView::empty()
                    }));
                }
                let _res = store.set_item("user", &logged, true);
                proof {
                    let gi = choose|i: int|
                        0 <= i < items0.len() && (#[trigger] items0[i]).deep_view()
                            == itm_real.deep_view() && user_matches(itm_real.deep_view(), username@)
                            && (forall|j: int|
                            0 <= j < i ==> !user_matches(
                                (#[trigger] items0[j]).deep_view(),
                                username@,
                            ));
                    assert(first_user_match_at(items0, username@, gi));
                    assert forall|i: int|
                        first_user_match_at(items0, username@, i) implies i == gi by {
                        if i < gi {
                            assert(user_matches(items0[i].deep_view(), username@));
                        } else if i > gi {
                            assert(!user_matches(items0[gi].deep_view(), username@));
                        }
                    }
                    let uid = items0[gi].id;
                    let c0 = old(store).cmap()["user"@].contents();
                    old(store).cmap()["user"@].lemma_contents_ids();
                    assert(c0.contains_key(uid));
                    assert(uid == itm_real.id);
                    if no_both_match(items0, username@) {
                        assert(mid == *old(store));
                    } else {
                        assert(exists|k: int|
                            0 <= k < items0.len() && user_matches_both(
                                (#[trigger] items0[k]).deep_view(),
                                username@,
                            ));
                        lemma_first_both_exists(items0, username@, items0.len() as int);
                        let j = choose|j: int| #![trigger items0[j]] first_both_match(
                            items0,
                            username@,
                            j,
                        );
                        assert(mid.cmap()["user"@].contents() == c0.insert(
                            items0[j].id,
                            with_id(otp_cleared(items0[j].deep_view()), items0[j].id),
                        ));
                    }
                    assert(mid.cmap().contains_key("user"@));
                    assert(mid.cmap()["user"@].contents().contains_key(uid));
                    assert(store.cmap()["user"@].contents() == mid.cmap()[
                        "user"@
                    ].contents().insert(
                        uid,
                        ItemView::merged(
                            mid.cmap()["user"@].contents()[uid],
                            logged.deep_view(),
                        ),
                    ));
                    if no_both_match(items0, username@) {
                        assert(store.cmap()["user"@].contents() == c0.insert(
                            uid,
                            login_marked(c0[uid], uid),
                        ));
                    }
                    assert forall|j: int| first_both_match(items0, username@, j) implies ({
                        let cid = items0[j].id;
                        let c1 = c0.insert(cid, with_id(otp_cleared(items0[j].deep_view()), cid));
                        store.cmap()["user"@].contents() == c1.insert(
                            uid,
                            login_marked(c1[uid], uid),
                        )
                    }) by {
                        assert(mid.cmap()["user"@].contents() == c0.insert(
                            items0[j].id,
                            with_id(otp_cleared(items0[j].deep_view()), items0[j].id),
                        ));
                    }
                }
                (
                    ProcessResult { succeeded: true, error: String::new() },
                    Some(itm_real.safe_str("email", "")),
                )
            } else {
                proof {
                    lemma_first_match_rejects(items0, username@, password@, itm_real.deep_view());
                }
                (
                    ProcessResult {
                        succeeded: false,
                        error: String::from_str("Invalid login/password"),
                    },
                    None,
                )
            }
        },
    }
}

/// A first match that is active and accepts the password makes the login
/// succeed.
proof fn lemma_first_match_accepts(
    items: Seq<Item>,
    username: Seq<char>,
    password: Seq<char>,
    v: ItemView,
)
    requires
        is_first_user_match(items, username, v),
        active_user(v),
        accepts_password(v, password),
    ensures
        login_accepted(items, username, password),
{
    let i = choose|i: int|
        0 <= i < items.len() && (#[trigger] items[i]).deep_view() == v && user_matches(v, username)
            && (forall|j: int|
            0 <= j < i ==> !user_matches((#[trigger] items[j]).deep_view(), username));
    assert(first_user_match_at(items, username, i));
    assert(items[i].deep_view() == v);
}

/// A first match that is inactive or rejects the password makes the login
/// fail.
proof fn lemma_first_match_rejects(
    items: Seq<Item>,
    username: Seq<char>,
    password: Seq<char>,
    v: ItemView,
)
    requires
        is_first_user_match(items, username, v),
        !(active_user(v) && accepts_password(v, password)),
    ensures
        !login_accepted(items, username, password),
{
    let i = choose|i: int|
        0 <= i < items.len() && (#[trigger] items[i]).deep_view() == v && user_matches(v, username)
            && (forall|j: int|
            0 <= j < i ==> !user_matches((#[trigger] items[j]).deep_view(), username));
    if login_accepted(items, username, password) {
        let k = choose|k: int|
            #![trigger items[k]]
            first_user_match_at(items, username, k) && active_user(items[k].deep_view())
                && accepts_password(items[k].deep_view(), password);
        if k < i {
            assert(user_matches(items[k].deep_view(), username));
        } else if k > i {
            assert(!user_matches(items[i].deep_view(), username));
        }
    }
}

/// With no matching record, the login fails.
proof fn lemma_no_match_no_login(store: Store, username: Seq<char>, password: Seq<char>, bytes: Seq<u8>)
    requires
        has_bad_symbol(bytes) || !store.cmap().contains_key("user"@) || (forall|i: int|
            0 <= i < store.cmap()["user"@].items@.len() ==> !user_matches(
                (#[trigger] store.cmap()["user"@].items@[i]).deep_view(),
                username,
            )),
    ensures
        !has_bad_symbol(bytes) && store.cmap().contains_key("user"@) ==> !login_accepted(
            store.cmap()["user"@].items@,
            username,
            password,
        ) && !some_user_matches(store.cmap()["user"@].items@, username),
{
    if !has_bad_symbol(bytes) && store.cmap().contains_key("user"@) {
        let items = store.cmap()["user"@].items@;
        if login_accepted(items, username, password) {
            let k = choose|k: int|
                #![trigger items[k]]
                first_user_match_at(items, username, k) && active_user(items[k].deep_view())
                    && accepts_password(items[k].deep_view(), password);
            assert(user_matches(items[k].deep_view(), username));
        }
        if some_user_matches(items, username) {
            let k = choose|k: int|
                0 <= k < items.len() && user_matches((#[trigger] items[k]).deep_view(), username);
            assert(user_matches(items[k].deep_view(), username));
        }
    }
}

/// Relies on str::strip_prefix: the remainder after the prefix when the
/// string starts with it, nothing otherwise.
#[verifier::external_body]
fn strip_prefix_str<'a>(s: &'a str, prefix: &str) -> (r: Option<&'a str>)
    ensures
        match r {
            Some(t) => s@ == prefix@ + t@,
            None => !prefix@.is_prefix_of(s@),
        },
{
    s.strip_prefix(prefix)
}

/// The role names encoded in a record's boolean attributes: the remainder
/// of every key that starts with the role prefix, in attribute order,
/// whatever the flag's value.
pub open spec fn roles_of(pairs: Seq<(Seq<char>, bool)>, prefix: Seq<char>) -> Seq<Seq<char>>
    decreases pairs.len(),
{
    if pairs.len() == 0 {
        Seq::empty()
    } else {
        let rest = roles_of(pairs.drop_last(), prefix);
        if prefix.is_prefix_of(pairs.last().0) {
            rest.push(pairs.last().0.skip(prefix.len() as int))
        } else {
            rest
        }
    }
}

/// Does this record carry this e-mail, verbatim?
pub open spec fn user_email_is(v: ItemView, email: Seq<char>) -> bool {
    v.strs.contains_key("email"@) && v.strs["email"@] == email
}

/// Is position `i` the first record carrying this e-mail?
pub open spec fn first_email_match_at(items: Seq<Item>, email: Seq<char>, i: int) -> bool {
    &&& 0 <= i < items.len()
    &&& user_email_is(items[i].deep_view(), email)
    &&& forall|j: int| 0 <= j < i ==> !user_email_is((#[trigger] items[j]).deep_view(), email)
}

/// One branding value: the settings entry when present and non-empty, else
/// the internals default, else the stock value.
pub open spec fn site_field(
    settings: ItemView,
    internals: ItemView,
    key: Seq<char>,
    default_key: Seq<char>,
    stock: Seq<char>,
) -> Seq<char> {
    let v = if settings.strs.contains_key(key) {
        settings.strs[key]
    } else {
        Seq::empty()
    };
    if v.len() > 0 {
        v
    } else {
        if internals.strs.contains_key(default_key) {
            internals.strs[default_key]
        } else {
            stock
        }
    }
}

/// The session summary: the site's branding values with their fallbacks,
/// and — when a session e-mail is given, the user collection is known, and
/// a record carries that e-mail verbatim — the user's ID and the role
/// names encoded in that record's boolean attributes.
pub fn is_logged_in(store: &Store, session: Option<&str>) -> (r: DetailedLoginUser)
    requires
        store.wf(),
    ensures
        r.site_name@ == site_field(
            store.settings.deep_view(),
            store.internals.deep_view(),
            "site_name"@,
            "default_site_name"@,
            "Isabelle"@,
        ),
        r.site_logo@ == site_field(
            store.settings.deep_view(),
            store.internals.deep_view(),
            "site_logo"@,
            "default_site_logo"@,
            "/logo.png"@,
        ),
        r.licensed_to@ == site_field(
            store.settings.deep_view(),
            store.internals.deep_view(),
            "licensed_to"@,
            "default_licensed_to"@,
            "end user"@,
        ),
        (session is None || !store.cmap().contains_key("user"@)) ==> r.username@ == Seq::<
            char,
        >::empty() && r.id == 0 && r.role@.len() == 0,
        session matches Some(email) ==> (forall|i: int|
            store.cmap().contains_key("user"@) && !has_bad_symbol(email.spec_bytes())
                && first_email_match_at(store.cmap()["user"@].items@, email@, i) ==> ({
                let items = store.cmap()["user"@].items@;
                &&& r.username@ == email@
                &&& r.id == items[i].id
                &&& r.role@.map_values(|x: String| x@) == roles_of(
                    items[i].bools.pairs(),
                    role_prefix(store.internals.deep_view()),
                )
            })),
{
    proof {
        reveal_strlit("");
    }
    let mut user = DetailedLoginUser {
        username: String::new(),
        id: 0,
        role: Vec::new(),
        site_name: String::new(),
        site_logo: String::new(),
        licensed_to: String::new(),
    };
    user.site_name = store.settings.safe_str("site_name", "");
    if user.site_name.as_str().is_empty() {
        user.site_name = store.internals.safe_str("default_site_name", "Isabelle");
    }
    user.site_logo = store.settings.safe_str("site_logo", "");
    if user.site_logo.as_str().is_empty() {
        user.site_logo = store.internals.safe_str("default_site_logo", "/logo.png");
    }
    user.licensed_to = store.settings.safe_str("licensed_to", "");
    if user.licensed_to.as_str().is_empty() {
        user.licensed_to = store.internals.safe_str("default_licensed_to", "end user");
    }
    let email: &str = match session {
        Option::Some(e) => e,
        Option::None => {
            return user;
        },
    };
    let (pos, found) = store.find_coll("user");
    if !found {
        return user;
    }
    if login_has_bad_symbols(email) {
        return user;
    }
    let role_is = store.internals.safe_str("user_role_prefix", "role_is_");
    let email_s: String = email.to_owned();
    let email_key = String::from_str("email");
    let c = &store.collections[pos];
    let mut i: usize = 0;
    let mut hit = false;
    while !hit && i < c.items.len()
        invariant
            store.wf(),
            pos < store.collections@.len(),
            c == &store.collections@[pos as int],
            c.wf(),
            store.cmap().contains_key("user"@),
            store.cmap()["user"@] == store.collections@[pos as int],
            email_s@ == email@,
            email_key@ == "email"@,
            0 <= i <= c.items@.len(),
            forall|j: int|
                0 <= j < i ==> !user_email_is((#[trigger] c.items@[j]).deep_view(), email@),
            hit ==> i < c.items@.len() && first_email_match_at(c.items@, email@, i as int),
        decreases c.items@.len() - i, (if hit { 0int } else { 1int }),
    {
        proof {
            assert(c.items@[i as int].inv());
        }
        let matched = match c.items[i].strs.get(&email_key) {
            Option::Some(v) => v.eq(&email_s),
            Option::None => false,
        };
        if matched {
            hit = true;
        } else {
            i += 1;
        }
    }
    if !hit {
        proof {
            assert forall|k: int|
                first_email_match_at(store.cmap()["user"@].items@, email@, k) implies false by {
                assert(user_email_is(c.items@[k].deep_view(), email@));
            }
        }
        return user;
    }
    let ghost fidx = i as int;
    let it = &c.items[i];
    user.username = email_s;
    user.id = it.id;
    let ghost prefix = role_prefix(store.internals.deep_view());
    let mut roles: Vec<String> = Vec::new();
    let mut k: usize = 0;
    while k < it.bools.entries.len()
        invariant
            it.inv(),
            role_is@ == prefix,
            0 <= k <= it.bools.entries@.len(),
            roles@.map_values(|x: String| x@) == roles_of(
                it.bools.pairs().take(k as int),
                prefix,
            ),
        decreases it.bools.entries@.len() - k,
    {
        proof {
            assert(it.bools.pairs().take(k as int + 1).drop_last() =~= it.bools.pairs().take(
                k as int,
            ));
            assert(it.bools.pairs().take(k as int + 1).last() == it.bools.pairs()[k as int]);
        }
        match strip_prefix_str(it.bools.entries[k].0.as_str(), role_is.as_str()) {
            Option::Some(rest) => {
                roles.push(rest.to_owned());
                proof {
                    let key = it.bools.pairs()[k as int].0;
                    assert(key == prefix + rest@);
                    assert(prefix.is_prefix_of(key));
                    assert(key.skip(prefix.len() as int) =~= rest@);
                    assert(roles@.map_values(|x: String| x@) =~= roles_of(
                        it.bools.pairs().take(k as int + 1),
                        prefix,
                    ));
                }
            },
            Option::None => {},
        }
        k += 1;
    }
    proof {
        assert(it.bools.pairs().take(it.bools.pairs().len() as int) =~= it.bools.pairs());
    }
    user.role = roles;
    proof {
        assert forall|i2: int|
            first_email_match_at(c.items@, email@, i2) implies i2 == fidx by {
            if i2 < fidx {
                assert(user_email_is(c.items@[i2].deep_view(), email@));
            } else if i2 > fidx {
                assert(!user_email_is(c.items@[fidx].deep_view(), email@));
            }
        }
    }
    user
}

} // verus!
