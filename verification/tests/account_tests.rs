use isabelle_core::bridge::StoreRequest;
use isabelle_core::bridge::StoreResponse;
use isabelle_core::bridge::handle_request;
use isabelle_core::crypto::get_new_salt;
use isabelle_core::crypto::get_otp_code;
use isabelle_core::crypto::get_password_hash;
use isabelle_core::crypto::verify_password;
use isabelle_core::email::email_request;
use isabelle_core::email::web_contact;
use isabelle_core::hooks::DataObjectAction;
use isabelle_core::hooks::Plugin;
use isabelle_core::hooks::ProcessResult;
use isabelle_core::hooks::WebResponse;
use isabelle_core::item::Item;
use isabelle_core::login::gen_otp;
use isabelle_core::login::is_logged_in;
use isabelle_core::login::login;
use isabelle_core::login::register;
use isabelle_core::security::security_collection_read_hook;
use isabelle_core::setting::SettingOutcome;
use isabelle_core::setting::setting_edit;
use isabelle_core::setting::setting_list;
use isabelle_core::store::Store;
use isabelle_core::user_control::check_role;
use isabelle_core::user_control::clear_otp;
use isabelle_core::user_control::get_user;
use isabelle_core::user_control::login_has_bad_symbols;

struct MutePlugin;

impl Plugin for MutePlugin {
    fn item_auth_hook(
        &self,
        _hndl: &str,
        _user: &Option<Item>,
        _collection: &str,
        _id: u64,
        _new_item: &Option<Item>,
        _del: bool,
    ) -> bool {
        true
    }

    fn item_pre_edit_hook(
        &self,
        _hndl: &str,
        _user: &Option<Item>,
        _collection: &str,
        _old_itm: &Option<Item>,
        _itm: &mut Item,
        _action: DataObjectAction,
        _merge: bool,
    ) -> ProcessResult {
        ProcessResult { succeeded: true, error: String::new() }
    }

    fn item_post_edit_hook(
        &self,
        _hndl: &str,
        _collection: &str,
        _old_itm: &Option<Item>,
        _id: u64,
        _action: DataObjectAction,
    ) {
    }

    fn item_list_filter_hook(
        &self,
        _hndl: &str,
        _user: &Option<Item>,
        _collection: &str,
        _context: &str,
        _items: &mut Vec<Item>,
    ) {
    }

    fn item_list_db_filter_hook(
        &self,
        _hndl: &str,
        _user: &Option<Item>,
        _collection: &str,
        _context: &str,
        _filter_type: &str,
    ) -> String {
        String::new()
    }

    fn collection_read_hook(&self, _hndl: &str, _collection: &str, _itm: &mut Item) -> bool {
        false
    }

    fn route_url_hook(&self, _hndl: &str, _user: &Option<Item>, _query: &str) -> WebResponse {
        WebResponse::NotImplemented
    }

    fn route_url_post_hook(
        &self,
        _hndl: &str,
        _user: &Option<Item>,
        _query: &str,
        _post_itm: &Item,
    ) -> WebResponse {
        WebResponse::NotImplemented
    }

    fn route_unprotected_url_hook(
        &self,
        _hndl: &str,
        _user: &Option<Item>,
        _query: &str,
    ) -> WebResponse {
        WebResponse::NotImplemented
    }

    fn route_unprotected_url_post_hook(
        &self,
        _hndl: &str,
        _user: &Option<Item>,
        _query: &str,
        _post_itm: &Item,
    ) -> WebResponse {
        WebResponse::NotImplemented
    }

    fn call_otp_hook(&self, _hndl: &str, _itm: &Item) {
    }

    fn call_periodic_job_hook(&self, _timing: &str) {
    }
}

fn store_with_users() -> Store {
    let mut store = Store::new();
    store.add_collection("user");
    store
}

fn add_user(store: &mut Store, login_name: &str, email: &str, active: bool) -> u64 {
    let mut u = Item::new();
    u.set_str("login", login_name);
    u.set_str("email", email);
    u.set_bool("role_is_active", active);
    store.set_item("user", &u, false).unwrap()
}

#[test]
fn bad_symbols_are_detected() {
    assert!(!login_has_bad_symbols("plain.name@example.org"));
    for bad in ["a\"b", "a\\b", "a{b", "a}b", "a[b", "a]b", "a$b"] {
        assert!(login_has_bad_symbols(bad), "{bad} must be rejected");
    }
}

#[test]
fn get_user_matches_login_or_email_case_insensitively() {
    let mut store = store_with_users();
    let id = add_user(&mut store, "Admin", "boss@example.org", true);
    let by_login = get_user(&store, "aDmIn").expect("login match");
    assert_eq!(by_login.id, id);
    let by_email = get_user(&store, "BOSS@example.org").expect("email match");
    assert_eq!(by_email.id, id);
    assert!(get_user(&store, "nobody").is_none());
    assert!(get_user(&store, "adm\"in").is_none());
}

#[test]
fn password_hash_round_trip() {
    let salt = get_new_salt();
    let hash = get_password_hash("open sesame", &salt).expect("a fresh salt must hash");
    assert!(verify_password("open sesame", &hash));
    assert!(!verify_password("open sesamE", &hash));
    assert!(!verify_password("open sesame", "not a phc string"));
    assert!(get_password_hash("pw", "not*b64!").is_none());
}

#[test]
fn otp_codes_are_nine_digits() {
    for _ in 0..8 {
        let code = get_otp_code();
        assert_eq!(code.len(), 9);
        assert!(code.chars().all(|c| c.is_ascii_digit()));
        assert!(!code.starts_with('0'));
    }
}

#[test]
fn login_with_password() {
    let mut store = store_with_users();
    let salt = get_new_salt();
    let hash = get_password_hash("secret", &salt).unwrap();
    let mut u = Item::new();
    u.set_str("login", "jane");
    u.set_str("email", "jane@example.org");
    u.set_str("password", &hash);
    u.set_bool("role_is_active", true);
    store.set_item("user", &u, false).unwrap();
    let (res, session) = login(&mut store, "jane", "secret");
    assert!(res.succeeded);
    assert_eq!(session.unwrap(), "jane@example.org");
    let marked = get_user(&store, "jane").unwrap();
    assert!(marked.safe_bool("logged_once", false));
    let (res, session) = login(&mut store, "jane", "wrong");
    assert!(!res.succeeded);
    assert_eq!(res.error, "Invalid login/password");
    assert!(session.is_none());
}

#[test]
fn inactive_users_cannot_log_in() {
    let mut store = store_with_users();
    let salt = get_new_salt();
    let hash = get_password_hash("pw", &salt).unwrap();
    let mut u = Item::new();
    u.set_str("login", "bob");
    u.set_str("email", "bob@example.org");
    u.set_str("password", &hash);
    store.set_item("user", &u, false).unwrap();
    let (res, session) = login(&mut store, "bob", "pw");
    assert!(!res.succeeded);
    assert_eq!(res.error, "User is inactive");
    assert!(session.is_none());
}

#[test]
fn unknown_user_cannot_log_in() {
    let mut store = store_with_users();
    let (res, session) = login(&mut store, "ghost", "pw");
    assert!(!res.succeeded);
    assert_eq!(res.error, "Invalid login/password");
    assert!(session.is_none());
}

#[test]
fn otp_flow_is_single_use() {
    let mut store = store_with_users();
    // The clearing step only fires when login and e-mail both answer to
    // the submitted name, so this user carries the e-mail as login too.
    add_user(&mut store, "amy@example.org", "amy@example.org", true);
    let plugins: Vec<MutePlugin> = vec![MutePlugin];
    let res = gen_otp(&mut store, &plugins, "amy@example.org");
    assert!(res.succeeded);
    let code = get_user(&store, "amy@example.org").unwrap().safe_str("otp", "");
    assert_eq!(code.len(), 9);
    let (res, session) = login(&mut store, "amy@example.org", &code);
    assert!(res.succeeded);
    assert!(session.is_some());
    // The code was cleared on the way in: it does not work twice.
    let (res, _) = login(&mut store, "amy@example.org", &code);
    assert!(!res.succeeded);
    let res = gen_otp(&mut store, &plugins, "ghost");
    assert!(!res.succeeded);
    assert_eq!(res.error, "Invalid login");
}

#[test]
fn clear_otp_needs_both_login_and_email_to_match() {
    let mut store = store_with_users();
    let mut u = Item::new();
    u.set_str("login", "sam");
    u.set_str("email", "sam");
    u.set_str("otp", "123456789");
    let id = store.set_item("user", &u, false).unwrap();
    clear_otp(&mut store, "sam");
    assert_eq!(store.get_item("user", id).unwrap().safe_str("otp", "<unset>"), "");
}

#[test]
fn register_rejects_taken_names_only_after_first_login() {
    let mut store = store_with_users();
    // A record that never logged in does not block the name.
    add_user(&mut store, "new", "new@example.org", true);
    let res = register(&mut store, "new", "new@example.org", "true");
    assert!(res.succeeded);
    // Once logged_once is set, both login and e-mail are taken.
    let mut mark = Item::new();
    mark.id = 1;
    mark.set_bool("logged_once", true);
    store.set_item("user", &mark, true).unwrap();
    let res = register(&mut store, "new", "other@example.org", "true");
    assert!(!res.succeeded);
    assert_eq!(res.error, "Login is already used");
    let res = register(&mut store, "other", "new@example.org", "true");
    assert!(!res.succeeded);
    assert_eq!(res.error, "Email is already used");
    // A dry run writes nothing; a real run creates the active user.
    let before = store.get_item_ids("user").len();
    let res = register(&mut store, "fresh", "fresh@example.org", "true");
    assert!(res.succeeded);
    assert_eq!(store.get_item_ids("user").len(), before);
    let res = register(&mut store, "fresh", "fresh@example.org", "no");
    assert!(res.succeeded);
    let created = get_user(&store, "fresh").unwrap();
    assert!(created.safe_bool("role_is_active", false));
    assert_eq!(created.safe_str("email", ""), "fresh@example.org");
}

#[test]
fn session_summary_reports_branding_and_roles() {
    let mut store = store_with_users();
    let mut u = Item::new();
    u.set_str("email", "root@example.org");
    u.set_bool("role_is_admin", true);
    u.set_bool("role_is_active", true);
    u.set_bool("unrelated", true);
    let id = store.set_item("user", &u, false).unwrap();
    let summary = is_logged_in(&store, Some("root@example.org"));
    assert_eq!(summary.username, "root@example.org");
    assert_eq!(summary.id, id);
    let mut roles = summary.role.clone();
    roles.sort();
    assert_eq!(roles, vec![String::from("active"), String::from("admin")]);
    // Branding falls back from settings through internals to the stock values.
    assert_eq!(summary.site_name, "Isabelle");
    assert_eq!(summary.site_logo, "/logo.png");
    assert_eq!(summary.licensed_to, "end user");
    let mut s = Item::new();
    s.set_str("site_name", "My School");
    store.set_settings(s);
    let mut i = Item::new();
    i.set_str("default_site_logo", "/other.png");
    store.internals = i;
    let summary = is_logged_in(&store, Some("root@example.org"));
    assert_eq!(summary.site_name, "My School");
    assert_eq!(summary.site_logo, "/other.png");
    let anon = is_logged_in(&store, None);
    assert_eq!(anon.username, "");
    assert_eq!(anon.id, 0);
    assert!(anon.role.is_empty());
}

#[test]
fn roles_gate_the_settings_endpoints() {
    let mut store = Store::new();
    let mut admin = Item::new();
    admin.set_bool("role_is_admin", true);
    let admin = Some(admin);
    let nobody: Option<Item> = None;
    let mut pleb = Item::new();
    pleb.set_bool("role_is_active", true);
    let pleb = Some(pleb);
    assert!(check_role(&store, &admin, "admin"));
    assert!(!check_role(&store, &pleb, "admin"));
    assert!(!check_role(&store, &nobody, "admin"));
    let mut s = Item::new();
    s.set_str("site_name", "demo");
    assert!(matches!(setting_edit(&mut store, &pleb, s.dup()), SettingOutcome::Forbidden));
    assert!(setting_list(&store, &pleb).is_none());
    assert!(matches!(setting_edit(&mut store, &admin, s), SettingOutcome::Saved));
    let seen = setting_list(&store, &admin).unwrap();
    assert_eq!(seen.safe_str("site_name", ""), "demo");
}

#[test]
fn custom_role_prefix_is_honored() {
    let mut store = Store::new();
    let mut internals = Item::new();
    internals.set_str("user_role_prefix", "can_");
    store.internals = internals;
    let mut u = Item::new();
    u.set_bool("can_admin", true);
    u.set_bool("role_is_admin", true);
    let user = Some(u);
    assert!(check_role(&store, &user, "admin"));
    let mut v = Item::new();
    v.set_bool("role_is_admin", true);
    let wrong_prefix = Some(v);
    assert!(!check_role(&store, &wrong_prefix, "admin"));
}

#[test]
fn email_request_needs_all_transport_settings() {
    let mut settings = Item::new();
    settings.set_str("smtp_server", "mail.example.org");
    settings.set_str("smtp_login", "mailer");
    settings.set_str("smtp_password", "pw");
    assert!(email_request(&settings, "to@example.org", "s", "b").is_none());
    settings.set_str("smtp_from", "noreply@example.org");
    let job = email_request(&settings, "to@example.org", "Hello", "Body").unwrap();
    assert_eq!(job.server, "mail.example.org");
    assert_eq!(job.from, "noreply@example.org");
    assert_eq!(job.to, "to@example.org");
    assert_eq!(job.subject, "Hello");
    assert_eq!(job.body, "Body");
    assert!(email_request(&settings, "", "s", "b").is_none());
}

#[test]
fn contact_form_mail_is_assembled_verbatim() {
    let mut settings = Item::new();
    settings.set_str("smtp_server", "mail.example.org");
    settings.set_str("smtp_login", "mailer");
    settings.set_str("smtp_password", "pw");
    settings.set_str("smtp_from", "noreply@example.org");
    settings.set_str("web_contact_email", "owner@example.org");
    let mut form = Item::new();
    form.set_str("from_email", "guest@example.org");
    form.set_str("from_name", "Guest");
    form.set_str("topic", "Lessons");
    form.set_str("message", "When are you open?");
    let job = web_contact(&settings, &form).unwrap();
    assert_eq!(job.to, "owner@example.org");
    assert_eq!(job.subject, "Website: Lessons (Guest)");
    assert_eq!(
        job.body,
        "From: guest@example.org\nName: Guest\nTopic: Lessons\n\nWhen are you open?"
    );
    // Without the operator's address nothing is sent.
    let bare = Item::new();
    assert!(web_contact(&bare, &form).is_none());
}

#[test]
fn salt_upgrade_hook_is_idempotent_per_record() {
    let mut u = Item::new();
    u.id = 1;
    u.set_str("password", "plaintext");
    assert!(security_collection_read_hook("user", &mut u));
    let salt = u.safe_str("salt", "");
    assert_ne!(salt, "");
    let rehashed = u.safe_str("password", "");
    assert_ne!(rehashed, "plaintext");
    assert!(verify_password("plaintext", &rehashed));
    // A second pass changes nothing, and other collections are never touched.
    assert!(!security_collection_read_hook("user", &mut u));
    assert_eq!(u.safe_str("salt", ""), salt);
    let mut other = Item::new();
    assert!(!security_collection_read_hook("doc", &mut other));
}

#[test]
fn bridge_requests_drive_the_store() {
    let mut store = Store::new();
    store.add_collection("doc");
    let mut rec = Item::new();
    rec.id = u64::MAX;
    rec.set_str("name", "via bridge");
    let r = handle_request(&mut store, StoreRequest::SetItem {
        collection: String::from("doc"),
        itm: rec,
        merge: false,
    });
    match r {
        StoreResponse::Stored(Ok(id)) => assert_eq!(id, 1),
        _ => panic!("the write must be acknowledged with its ID"),
    }
    let r = handle_request(&mut store, StoreRequest::GetItem {
        collection: String::from("doc"),
        id: 1,
    });
    match r {
        StoreResponse::MaybeItem(Some(it)) => {
            assert_eq!(it.safe_str("name", ""), "via bridge")
        },
        _ => panic!("the record must come back over the bridge"),
    }
    let r = handle_request(&mut store, StoreRequest::DelItem {
        collection: String::from("doc"),
        id: 1,
    });
    assert!(matches!(r, StoreResponse::Removed(true)));
    let r = handle_request(&mut store, StoreRequest::GetCollections);
    match r {
        StoreResponse::Names(ns) => assert_eq!(ns, vec![String::from("doc")]),
        _ => panic!("the collection names must come back"),
    }
    let mut admin = Item::new();
    admin.set_bool("role_is_admin", true);
    let r = handle_request(&mut store, StoreRequest::CheckRole {
        user: Some(admin),
        role: String::from("admin"),
    });
    assert!(matches!(r, StoreResponse::Flag(true)));
    store.path = String::from("/tmp/data");
    let r = handle_request(&mut store, StoreRequest::GetCredentials);
    match r {
        StoreResponse::ArtifactPath(p) => assert_eq!(p, "/tmp/data/credentials.json"),
        _ => panic!("the credentials path must come back"),
    }
}
