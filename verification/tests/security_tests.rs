use isabelle_core::crypto::get_new_salt;
use isabelle_core::crypto::get_password_hash;
use isabelle_core::crypto::verify_password;
use isabelle_core::item::Item;
use isabelle_core::security::security_check_unique_login_email;
use isabelle_core::security::security_itm_filter_hook;
use isabelle_core::security::security_password_challenge_pre_edit_hook;
use isabelle_core::store::Store;

fn user_record(id: u64, login: &str, email: &str) -> Item {
    let mut u = Item::new();
    u.id = id;
    u.set_str("login", login);
    u.set_str("email", email);
    u.set_str("name", login);
    u
}

fn seeded_store() -> Store {
    let mut store = Store::new();
    store.add_collection("user");
    store.set_item("user", &user_record(1, "ann", "ann@example.org"), false).unwrap();
    store.set_item("user", &user_record(2, "ben", "ben@example.org"), false).unwrap();
    store
}

#[test]
fn uniqueness_check_rejects_collisions() {
    let store = seeded_store();
    // A fresh record reusing Ann's login collides, case-insensitively.
    let cand = user_record(u64::MAX, "ANN", "new@example.org");
    let r = security_check_unique_login_email(&store, &None, "user", &None, &cand, false, false);
    assert!(!r.succeeded);
    assert_eq!(r.error, "Login mustn't match already existing one");
    // Reusing Ben's e-mail collides too.
    let cand = user_record(u64::MAX, "carl", "BEN@example.org");
    let r = security_check_unique_login_email(&store, &None, "user", &None, &cand, false, false);
    assert!(!r.succeeded);
    assert_eq!(r.error, "E-Mail mustn't match already existing one");
    // A record may keep its own login and e-mail when edited.
    let own = user_record(1, "ann", "ann@example.org");
    let r = security_check_unique_login_email(&store, &None, "user", &None, &own, false, false);
    assert!(r.succeeded);
    // A fresh, unique pair passes; an empty e-mail never does.
    let fresh = user_record(u64::MAX, "carl", "carl@example.org");
    let r = security_check_unique_login_email(&store, &None, "user", &None, &fresh, false, false);
    assert!(r.succeeded);
    let mut no_mail = Item::new();
    no_mail.set_str("login", "dora");
    let r = security_check_unique_login_email(&store, &None, "user", &None, &no_mail, false, false);
    assert!(!r.succeeded);
    assert_eq!(r.error, "E-Mail must not be empty");
    // Deletions pass whatever they name.
    let r = security_check_unique_login_email(&store, &None, "user", &None, &no_mail, true, false);
    assert!(r.succeeded);
}

#[test]
fn uniqueness_check_sees_the_merged_record() {
    let store = seeded_store();
    // Merging a patch without an e-mail into Ann's live record keeps her
    // e-mail, so the merged result is complete and passes.
    let old = Some(store.get_item("user", 1).unwrap());
    let mut patch = Item::new();
    patch.id = 1;
    patch.set_str("name", "Ann B.");
    let r = security_check_unique_login_email(&store, &None, "user", &old, &patch, false, true);
    assert!(r.succeeded);
    // An overwrite of the same patch loses the e-mail and is rejected.
    let r = security_check_unique_login_email(&store, &None, "user", &old, &patch, false, false);
    assert!(!r.succeeded);
    assert_eq!(r.error, "E-Mail must not be empty");
}

#[test]
fn password_challenge_guards_credential_edits() {
    let store = Store::new();
    let salt = get_new_salt();
    let hash = get_password_hash("old pw", &salt).unwrap();
    let mut live = user_record(1, "ann", "ann@example.org");
    live.set_str("salt", &salt);
    live.set_str("password", &hash);
    let old = Some(live);
    // Direct edits of the credential fields are rejected.
    let mut direct = Item::new();
    direct.set_str("password", "sneaky");
    let r = security_password_challenge_pre_edit_hook(
        &store, &None, "user", &old, &mut direct, false, false,
    );
    assert!(!r.succeeded);
    assert_eq!(r.error, "Can't edit password directly");
    // A wrong old password fails the challenge.
    let mut attempt = Item::new();
    attempt.set_str("__password", "wrong");
    attempt.set_str("__new_password1", "next pw");
    attempt.set_str("__new_password2", "next pw");
    let r = security_password_challenge_pre_edit_hook(
        &store, &None, "user", &old, &mut attempt.dup(), false, false,
    );
    assert!(!r.succeeded);
    assert_eq!(r.error, "Password change challenge failed");
    // Disagreeing copies of the new password fail it too.
    let mut skewed = attempt.dup();
    skewed.set_str("__password", "old pw");
    skewed.set_str("__new_password2", "different");
    let r = security_password_challenge_pre_edit_hook(
        &store, &None, "user", &old, &mut skewed, false, false,
    );
    assert!(!r.succeeded);
    // The right old password rotates the hash and strips the transients.
    let mut good = attempt.dup();
    good.set_str("__password", "old pw");
    let r = security_password_challenge_pre_edit_hook(
        &store, &None, "user", &old, &mut good, false, false,
    );
    assert!(r.succeeded);
    assert_eq!(good.safe_str("__password", "<gone>"), "<gone>");
    assert_eq!(good.safe_str("__new_password1", "<gone>"), "<gone>");
    assert_eq!(good.safe_str("__new_password2", "<gone>"), "<gone>");
    assert!(verify_password("next pw", &good.safe_str("password", "")));
}

#[test]
fn password_challenge_salts_fresh_users() {
    let store = Store::new();
    let mut fresh = user_record(u64::MAX, "carl", "carl@example.org");
    let r = security_password_challenge_pre_edit_hook(
        &store, &None, "user", &None, &mut fresh, false, false,
    );
    assert!(r.succeeded);
    assert_ne!(fresh.safe_str("salt", ""), "");
    // Other collections pass untouched.
    let mut doc = Item::new();
    doc.set_str("password", "not a credential here");
    let r = security_password_challenge_pre_edit_hook(
        &store, &None, "doc", &None, &mut doc, false, false,
    );
    assert!(r.succeeded);
    assert_eq!(doc.safe_str("salt", "<none>"), "<none>");
}

fn filter_user_fixture() -> Vec<Item> {
    let mut ann = user_record(1, "ann", "ann@example.org");
    ann.set_str("salt", "s1");
    ann.set_str("password", "h1");
    ann.set_str("phone", "111");
    ann.set_bool("role_is_active", true);
    let mut ben = user_record(2, "ben", "ben@example.org");
    ben.set_str("salt", "s2");
    ben.set_str("password", "h2");
    vec![ann, ben]
}

#[test]
fn redaction_lists_only_own_public_attributes() {
    let store = Store::new();
    let me = Some(user_record(1, "ann", "ann@example.org"));
    let mut items = filter_user_fixture();
    security_itm_filter_hook(&store, &me, "user", "", &mut items);
    assert_eq!(items.len(), 1);
    assert_eq!(items[0].id, 1);
    assert_eq!(items[0].safe_str("name", ""), "ann");
    assert_eq!(items[0].safe_str("phone", ""), "111");
    assert!(items[0].safe_bool("role_is_active", false));
    assert_eq!(items[0].safe_str("salt", "<hidden>"), "<hidden>");
    assert_eq!(items[0].safe_str("password", "<hidden>"), "<hidden>");
}

#[test]
fn redaction_full_view_strips_credentials() {
    let store = Store::new();
    let me = Some(user_record(1, "ann", "ann@example.org"));
    let mut items = filter_user_fixture();
    security_itm_filter_hook(&store, &me, "user", "full", &mut items);
    assert_eq!(items.len(), 1);
    assert_eq!(items[0].id, 1);
    assert_eq!(items[0].safe_str("phone", ""), "111");
    assert_eq!(items[0].safe_str("salt", "<hidden>"), "<hidden>");
    assert_eq!(items[0].safe_str("password", "<hidden>"), "<hidden>");
}

#[test]
fn redaction_admin_and_anonymous_cases() {
    let store = Store::new();
    let mut root = user_record(9, "root", "root@example.org");
    root.set_bool("role_is_admin", true);
    let admin = Some(root);
    let mut items = filter_user_fixture();
    security_itm_filter_hook(&store, &admin, "user", "", &mut items);
    assert_eq!(items.len(), 2);
    // Another collection is untouched for an administrator.
    let mut docs = vec![user_record(5, "doc", "d@example.org")];
    security_itm_filter_hook(&store, &admin, "doc", "", &mut docs);
    assert_eq!(docs.len(), 1);
    assert_eq!(docs[0].safe_str("email", ""), "d@example.org");
    // An anonymous caller sees nothing at all.
    let mut items = filter_user_fixture();
    security_itm_filter_hook(&store, &None, "user", "", &mut items);
    assert!(items.is_empty());
    // A plain user listing another collection sees names only.
    let me = Some(user_record(1, "ann", "ann@example.org"));
    let mut docs = vec![user_record(5, "thing", "t@example.org")];
    security_itm_filter_hook(&store, &me, "doc", "", &mut docs);
    assert_eq!(docs.len(), 1);
    assert_eq!(docs[0].safe_str("name", ""), "thing");
    assert_eq!(docs[0].safe_str("email", "<hidden>"), "<hidden>");
}
