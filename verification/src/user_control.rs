//! Finding and checking users: login lookup by login name or e-mail
//! (case-folded), role checks against the configured role prefix, and
//! clearing spent one-time passwords.
use crate::collection::with_id;
use crate::item::Item;
use crate::item::ItemView;
use crate::item::UNSET_ID;
use crate::store::Store;
use vstd::prelude::*;
use vstd::string::StringExecFns;
use vstd::string::StringSliceAdditionalSpecFns;

verus! {

/// The case-folded form of a string, as str::to_lowercase yields it: a
/// function of the characters alone.
pub uninterp spec fn lower_of(s: Seq<char>) -> Seq<char>;

/// Relies on str::to_lowercase: the result depends on the characters
/// alone; an empty string stays empty.
#[verifier::external_body]
pub(crate) fn to_lowercase(s: &str) -> (r: String)
    ensures
        r@ == lower_of(s@),
        s@.len() == 0 ==> r@.len() == 0,
{
    s.to_lowercase()
}

/// Does the UTF-8 encoding contain a byte of one of the symbols that may
/// not occur in a submitted login: `"` `\` `{` `}` `[` `]` `$`? These are
/// all single-byte characters, so a byte-level scan is a character scan.
pub open spec fn is_bad_symbol_byte(b: u8) -> bool {
    b == 34 || b == 92 || b == 123 || b == 125 || b == 91 || b == 93 || b == 36
}

pub open spec fn has_bad_symbol(bytes: Seq<u8>) -> bool {
    exists|i: int| 0 <= i < bytes.len() && is_bad_symbol_byte(#[trigger] bytes[i])
}

/// Check whether a submitted login contains a symbol that could break out
/// of a backend-native filter expression.
pub fn login_has_bad_symbols(login: &str) -> (r: bool)
    ensures
        r == has_bad_symbol(login.spec_bytes()),
{
    let bytes = login.as_bytes();
    let mut i: usize = 0;
    while i < bytes.len()
        invariant
            bytes@ == login.spec_bytes(),
            0 <= i <= bytes@.len(),
            forall|j: int| 0 <= j < i ==> !is_bad_symbol_byte(#[trigger] bytes@[j]),
        decreases bytes@.len() - i,
    {
        let b = bytes[i];
        if b == 34 || b == 92 || b == 123 || b == 125 || b == 91 || b == 93 || b == 36 {
            return true;
        }
        i += 1;
    }
    false
}

/// Does this user record answer to this (case-folded) login, by its login
/// name or its e-mail?
pub open spec fn user_matches(v: ItemView, login: Seq<char>) -> bool {
    ||| (v.strs.contains_key("login"@) && lower_of(v.strs["login"@]) == lower_of(login))
    ||| (v.strs.contains_key("email"@) && lower_of(v.strs["email"@]) == lower_of(login))
}

/// Is `v` the first record (in ID order) of the user list that answers to
/// this login?
pub open spec fn is_first_user_match(items: Seq<Item>, login: Seq<char>, v: ItemView) -> bool {
    exists|i: int|
        0 <= i < items.len() && (#[trigger] items[i]).deep_view() == v && user_matches(v, login)
            && (forall|j: int| 0 <= j < i ==> !user_matches((#[trigger] items[j]).deep_view(), login))
}

/// Look a user up by login name or e-mail, case-insensitively: the first
/// matching record of the "user" collection, in ID order; nothing when the
/// login holds a forbidden symbol, the collection is unknown, or no record
/// matches.
pub fn get_user(store: &Store, login: &str) -> (r: Option<Item>)
    requires
        store.wf(),
    ensures
        match r {
            Some(v) => !has_bad_symbol(login.spec_bytes()) && store.cmap().contains_key("user"@)
                && v.inv() && is_first_user_match(
                store.cmap()["user"@].items@,
                login@,
                v.deep_view(),
            ),
            None => has_bad_symbol(login.spec_bytes()) || !store.cmap().contains_key("user"@)
                || (forall|i: int|
                0 <= i < store.cmap()["user"@].items@.len() ==> !user_matches(
                    (#[trigger] store.cmap()["user"@].items@[i]).deep_view(),
                    login@,
                )),
        },
{
    if login_has_bad_symbols(login) {
        return None;
    }
    let (pos, found) = store.find_coll("user");
    if !found {
        return None;
    }
    let c = &store.collections[pos];
    let tmp_login = to_lowercase(login);
    let login_key = String::from_str("login");
    let email_key = String::from_str("email");
    let mut i: usize = 0;
    while i < c.items.len()
        invariant
            store.wf(),
            pos < store.collections@.len(),
            c == &store.collections@[pos as int],
            c.wf(),
            !has_bad_symbol(login.spec_bytes()),
            store.cmap().contains_key("user"@),
            store.cmap()["user"@] == store.collections@[pos as int],
            tmp_login@ == lower_of(login@),
            login_key@ == "login"@,
            email_key@ == "email"@,
            0 <= i <= c.items@.len(),
            forall|j: int|
                0 <= j < i ==> !user_matches((#[trigger] c.items@[j]).deep_view(), login@),
        decreases c.items@.len() - i,
    {
        proof {
            assert(c.items@[i as int].inv());
        }
        let it = &c.items[i];
        match it.strs.get(&login_key) {
            Some(v) => {
                let lv = to_lowercase(v.as_str());
                if lv.eq(&tmp_login) {
                    proof {
                        assert(user_matches(it.deep_view(), login@));
                        assert(c.items@ == store.cmap()["user"@].items@);
                        assert(c.items@[i as int].deep_view() == it.deep_view());
                        assert(is_first_user_match(c.items@, login@, it.deep_view()));
                    }
                    return Some(it.dup());
                }
            },
            None => {},
        }
        match it.strs.get(&email_key) {
            Some(v) => {
                let lv = to_lowercase(v.as_str());
                if lv.eq(&tmp_login) {
                    proof {
                        assert(user_matches(it.deep_view(), login@));
                        assert(c.items@ == store.cmap()["user"@].items@);
                        assert(c.items@[i as int].deep_view() == it.deep_view());
                        assert(is_first_user_match(c.items@, login@, it.deep_view()));
                    }
                    return Some(it.dup());
                }
            },
            None => {},
        }
        i += 1;
    }
    None
}

/// The role prefix configured in the internals document, or the stock one.
pub open spec fn role_prefix(internals: ItemView) -> Seq<char> {
    if internals.strs.contains_key("user_role_prefix"@) {
        internals.strs["user_role_prefix"@]
    } else {
        "role_is_"@
    }
}

/// Does this user hold this role? The role flag is the boolean attribute
/// named by the configured prefix followed by the role name; an anonymous
/// caller holds no role.
pub fn check_role(store: &Store, user: &Option<Item>, role: &str) -> (r: bool)
    requires
        store.wf(),
        user matches Some(u) ==> u.inv(),
    ensures
        r == match *user {
            Option::None => false,
            Option::Some(u) => {
                let key = role_prefix(store.internals.deep_view()) + role@;
                &&& u.deep_view().bools.contains_key(key)
                &&& u.deep_view().bools[key]
            },
        },
{
    let role_is = store.internals.safe_str("user_role_prefix", "role_is_");
    match user {
        Option::None => false,
        Option::Some(u) => {
            let mut key = role_is;
            key.append(role);
            u.safe_bool(key.as_str(), false)
        },
    }
}

/// What clearing the one-time password of a user record leaves behind: the
/// same record with an empty "otp" attribute.
pub open spec fn otp_cleared(v: ItemView) -> ItemView {
    ItemView { strs: v.strs.insert("otp"@, Seq::<char>::empty()), ..v }
}

/// Does this record answer to the login by both its login name and its
/// e-mail?
pub open spec fn user_matches_both(v: ItemView, login: Seq<char>) -> bool {
    &&& v.strs.contains_key("login"@) && lower_of(v.strs["login"@]) == lower_of(login)
    &&& v.strs.contains_key("email"@) && lower_of(v.strs["email"@]) == lower_of(login)
}

/// Is `i` the position of the first record answering to the login by both
/// login name and e-mail?
pub open spec fn first_both_match(items: Seq<Item>, login: Seq<char>, i: int) -> bool {
    &&& 0 <= i < items.len()
    &&& user_matches_both(items[i].deep_view(), login)
    &&& forall|j: int| 0 <= j < i ==> !user_matches_both((#[trigger] items[j]).deep_view(), login)
}

/// Clear the one-time password of the first user record whose login name
/// and e-mail both answer to this login: its "otp" attribute becomes
/// empty, everything else stays; with no such record, or a login holding a
/// forbidden symbol, the store is untouched.
pub fn clear_otp(store: &mut Store, login: &str)
    requires
        old(store).wf(),
    ensures
        final(store).wf(),
        forall|n: Seq<char>|
            final(store).cmap().contains_key(n) == old(store).cmap().contains_key(n),
        final(store).settings == old(store).settings,
        final(store).internals == old(store).internals,
        final(store).path == old(store).path,
        (has_bad_symbol(login.spec_bytes()) || !old(store).cmap().contains_key("user"@) || (forall|
            i: int,
        |
            0 <= i < old(store).cmap()["user"@].items@.len() ==> !user_matches_both(
                (#[trigger] old(store).cmap()["user"@].items@[i]).deep_view(),
                login@,
            ))) ==> *final(store) == *old(store),
        forall|i: int|
            !has_bad_symbol(login.spec_bytes()) && old(store).cmap().contains_key("user"@)
                && first_both_match(old(store).cmap()["user"@].items@, login@, i) ==> ({
                let c0 = old(store).cmap()["user"@];
                let id = c0.items@[i].id;
                &&& final(store).cmap().contains_key("user"@)
                &&& final(store).cmap()["user"@].contents() == c0.contents().insert(
                    id,
                    with_id(otp_cleared(c0.items@[i].deep_view()), id),
                )
                &&& forall|n: Seq<char>|
                    final(store).cmap().contains_key(n) == old(store).cmap().contains_key(n)
                &&& forall|n: Seq<char>|
                    n != "user"@ && old(store).cmap().contains_key(n) ==> final(store).cmap()[n]
                        == old(store).cmap()[n]
                &&& final(store).settings == old(store).settings
                &&& final(store).internals == old(store).internals
                &&& final(store).path == old(store).path
            }),
{
    if login_has_bad_symbols(login) {
        return ;
    }
    let (pos, found) = store.find_coll("user");
    if !found {
        return ;
    }
    let tmp_login = to_lowercase(login);
    let login_key = String::from_str("login");
    let email_key = String::from_str("email");
    let ghost c0 = store.cmap()["user"@];
    proof {
        store.lemma_cmap();
    }
    let c = &store.collections[pos];
    let mut i: usize = 0;
    let mut found = false;
    while !found && i < c.items.len()
        invariant
            store.wf(),
            c == &store.collections@[pos as int],
            c.wf(),
            *c == c0,
            c0 == store.cmap()["user"@],
            tmp_login@ == lower_of(login@),
            login_key@ == "login"@,
            email_key@ == "email"@,
            0 <= i <= c.items@.len(),
            forall|j: int|
                0 <= j < i ==> !user_matches_both((#[trigger] c.items@[j]).deep_view(), login@),
            found ==> i < c.items@.len() && first_both_match(c.items@, login@, i as int),
        decreases c.items@.len() - i, (if found { 0int } else { 1int }),
    {
        proof {
            assert(c.items@[i as int].inv());
        }
        let it = &c.items[i];
        let login_match = match it.strs.get(&login_key) {
            Some(v) => to_lowercase(v.as_str()).eq(&tmp_login),
            None => false,
        };
        let email_match = match it.strs.get(&email_key) {
            Some(v) => to_lowercase(v.as_str()).eq(&tmp_login),
            None => false,
        };
        if login_match && email_match {
            found = true;
        } else {
            i += 1;
        }
    }
    if !found {
        proof {
            assert(*final(store) == *old(store));
        }
        return ;
    }
    let ghost fidx = i as int;
    let mut upd = c.items[i].dup();
    upd.set_str("otp", "");
    proof {
        reveal_strlit("");
        assert(""@ =~= Seq::<char>::empty());
        assert(upd.deep_view() =~~= otp_cleared(c0.items@[fidx].deep_view()));
        assert(upd.id == c0.items@[fidx].id);
        assert(upd.id != UNSET_ID);
    }
    let _res = store.set_item("user", &upd, false);
    proof {
        let id = c0.items@[fidx].id;
        c0.lemma_contents_ids();
        assert(c0.contents().contains_key(id));
        assert(with_id(upd.deep_view(), id) =~~= with_id(
            otp_cleared(c0.items@[fidx].deep_view()),
            id,
        ));
        assert forall|i2: int| first_both_match(c0.items@, login@, i2) implies i2 == fidx by {
            if i2 < fidx {
                assert(user_matches_both(c0.items@[i2].deep_view(), login@));
            } else if i2 > fidx {
                assert(!user_matches_both(c0.items@[fidx].deep_view(), login@));
            }
        }
    }
}

} // verus!
