use lanshare::api::{
    guard_request, WebRequest,
    access_share, audit_limit, auth_user, change_of, change_password, create_share, create_user,
    decide_login, default_permissions, delete_share, delete_user, download_zip, extract_token,
    finish_account, finish_create_share, finish_create_user, finish_login, get_audit_logs,
    is_config_key, is_simple_mode, list_shares, list_users, login, require_admin, require_auth,
    reset_user_password, set_admin_settings, share_file, stored_setting, validate_password, zip_entry_name, zip_name,
    AccountOp, ChangePasswordReq, CreateUserReq, LoginReq, LoginStep, Setting, SettingValue, ShareFile,
    ShareItem, ShareStep, UpdateUserReq, UserResp,
};
use lanshare::clock::{date_or_epoch, format_unix_utc, http_date};
use lanshare::db::{
    admit_if, count_access, create_user_error, hash_password, share_expiry, share_grants, share_user, update_user,
    verify_login, verify_share, AuditLogEntry, FailedLogins, LoginRow, ShareRow, User,
};
use lanshare::http::{err_reason, permit};
use lanshare::server::{render_dav_ui, render_ui, AppState, WebDavState};
use lanshare::token::{
    new_lock, new_packed_file, new_temporary_upload, packed_file, session_token, share_token,
    temporary_upload,
};
use lanshare::webdav::{
    authenticate, basic_pair, choose_credential, check_transfer, credential, dir_listing, finish_op, get_destination,
    handle_delete, handle_get, handle_head, handle_lock, multistatus, PropItem, handle_mkcol, handle_propfind, handle_proppatch,
    handle_request, prop_entry, propfind_children, propfind_entry, query_token, raw_query_token,
    split_credentials,
    xml_escape, Credential, DavMethod, DavOp, ListItem, Node,
};

fn user(role: &str, permissions: &str) -> User {
    User {
        id: 7,
        username: "ada".into(),
        role: role.into(),
        permissions: permissions.into(),
        ..share_user()
    }
}

fn s(x: &str) -> Option<String> {
    Some(x.to_string())
}

#[test]
fn permissions_of_accounts() {
    let u = user("user", "read, write");
    assert!(u.can_read() && u.can_write());
    assert!(!u.can_delete() && !u.can_rename() && !u.can_share() && !u.can_mkdir());
    let a = user("admin", "");
    assert!(a.can_read() && a.can_write() && a.can_delete());
    assert!(a.can_rename() && a.can_share() && a.can_mkdir() && a.can("anything"));
    let p = share_user();
    for perm in ["read", "write", "delete", "rename", "share", "mkdir"] {
        assert!(p.can(perm));
    }
    assert!(!p.can("admin"));
    assert_eq!(default_permissions(), "read,write,delete,rename,share,mkdir");
}

#[test]
fn passwords_are_hashed_and_checked() {
    let hash = hash_password("Secret12").unwrap();
    assert_ne!(hash, "Secret12");
    let row = || Some(LoginRow { user: user("user", ""), password_hash: hash.clone() });
    assert_eq!(verify_login(row(), "Secret12").unwrap().username, "ada");
    assert!(verify_login(row(), "secret12").is_none());
    assert!(verify_login(None, "Secret12").is_none());
    let broken = Some(LoginRow { user: user("user", ""), password_hash: "Secret12".into() });
    assert!(verify_login(broken, "Secret12").is_none());
    assert!(admit_if(user("user", ""), None).is_none());
    let req = LoginReq { username: "ada".into(), password: "Secret12".into() };
    assert!(matches!(login(false, false, 0, &req, row()), LoginStep::Accept(_)));
    assert!(matches!(login(true, false, 0, &req, row()), LoginStep::Refuse(r) if r.status == 403));
    assert!(matches!(login(false, true, 9, &req, row()), LoginStep::Refuse(r) if r.status == 429));
    assert!(matches!(login(false, false, 0, &req, None), LoginStep::Fail(r, _) if r.status == 401));
}

#[test]
fn password_rules() {
    assert_eq!(validate_password("Abc1234"), Err("密码至少 8 位".to_string()));
    assert_eq!(
        validate_password("abcdefgh"),
        Err("密码须包含大写字母、小写字母、数字中的至少 2 种".to_string())
    );
    assert_eq!(validate_password("abcdefg1"), Ok(()));
    assert_eq!(validate_password("ABCDefgh"), Ok(()));
    for short in ["密码1a", "Aa1密密", "Aa1密密密密"] {
        assert_eq!(validate_password(short), Err("密码至少 8 位".to_string()));
    }
    assert_eq!(validate_password("Aa1密密密密密"), Ok(()));
}

#[test]
fn login_texts() {
    match decide_login(false, true, 12, "ada", None) {
        LoginStep::Refuse(r) => assert_eq!(
            r.body,
            "{\"error\":\"登录失败次数过多，请 12 秒后重试\"}"
        ),
        other => panic!("{:?}", other),
    }
    match decide_login(false, false, 0, "eve", None) {
        LoginStep::Fail(r, a) => {
            assert_eq!(r.body, "{\"error\":\"用户名或密码错误\"}");
            assert_eq!((a.username.as_str(), a.action.as_str()), ("eve", "login_failed"));
        }
        other => panic!("{:?}", other),
    }
    assert!(matches!(
        decide_login(true, false, 0, "ada", Some(user("admin", ""))),
        LoginStep::Accept(_)
    ));
    let (resp, audit) = finish_login("ada", user("user", "read"), Ok("tok".into())).unwrap();
    assert_eq!((resp.token.as_str(), resp.user.id), ("tok", 7));
    assert_eq!(audit.action, "login");
    assert_eq!(finish_login("ada", user("user", ""), Err("db".into())).unwrap_err().status, 500);
}

#[test]
fn failures_lock_a_name() {
    let mut f = FailedLogins::none();
    for _ in 0..4 {
        f.record_login_attempt(1000, false);
        assert_eq!(f.is_account_locked(1000), (false, 0));
    }
    f.record_login_attempt(1000, false);
    assert_eq!(f.is_account_locked(1000), (true, 900));
    assert_eq!(f.is_account_locked(1899), (true, 1));
    assert_eq!(f.is_account_locked(1900), (false, 0));
    f.record_login_attempt(1900, false);
    assert_eq!(f.count, 1);
    f.record_login_attempt(1900, true);
    assert_eq!(f.count, 0);
}

#[test]
fn tokens_and_modes() {
    assert_eq!(extract_token(&s("Bearer abc")), s("abc"));
    assert_eq!(extract_token(&s("bearer abc")), None);
    assert_eq!(extract_token(&None), None);
    assert!(is_simple_mode(&None) && is_simple_mode(&s("true")) && !is_simple_mode(&s("false")));
    assert_eq!(auth_user(&s("1"), true, "1", None).unwrap().id, 0);
    assert!(auth_user(&s("1"), false, "1", None).is_none());
    assert_eq!(auth_user(&s("x"), true, "1", Some(user("user", ""))).unwrap().id, 7);
    assert!(auth_user(&None, true, "1", Some(user("user", ""))).is_none());
    assert_eq!(require_auth(None).unwrap_err().body, "{\"error\":\"未登录或会话已\"}");
    assert_eq!(require_admin(Some(user("user", ""))).unwrap_err().status, 403);
    assert!(require_admin(Some(user("admin", ""))).is_ok());
    assert_eq!(permit(None, "read", "no").unwrap_err().status, 401);
    assert_eq!(permit(Some(user("user", "")), "read", "no").unwrap_err().body, "{\"error\":\"no\"}");
    assert_eq!(err_reason(500, "a: ", "b").body, "{\"error\":\"a: b\"}");
}

#[test]
fn accounts_are_managed() {
    let admin = || Some(user("admin", ""));
    let req = |username: &str, password: &str, role: &str, dir: Option<&str>| CreateUserReq {
        username: username.into(),
        password: password.into(),
        role: role.into(),
        shared_dir: dir.map(|d| d.to_string()),
        permissions: default_permissions(),
        quota_mb: 0,
    };
    assert_eq!(create_user(None, &req("a", "Abcd1234", "user", None)).unwrap_err().status, 401);
    let text = |r: CreateUserReq| create_user(admin(), &r).unwrap_err().body;
    assert_eq!(text(req("", "x", "y", None)), "{\"error\":\"用户名不能为空\"}");
    assert_eq!(text(req("a", "x", "y", None)), "{\"error\":\"密码至少 8 位\"}");
    assert_eq!(text(req("a", "Abcd1234", "y", None)), "{\"error\":\"role 必须是 admin 或 user\"}");
    let plan = |d: Option<&str>| create_user(admin(), &req("a", "Abcd1234", "user", d)).unwrap().shared_dir;
    assert_eq!(plan(None), None);
    assert_eq!(plan(Some("  ")), None);
    assert_eq!(plan(Some(" docs ")), s("docs"));
    let (r, a) = finish_create_user(&user("admin", ""), "bob", Ok(12));
    assert_eq!((r.status, r.body.as_str()), (201, "{\"ok\":true,\"id\":12}"));
    assert_eq!(a.unwrap().detail, s("用户: bob"));
    assert_eq!(finish_create_user(&user("admin", ""), "bob", Err("用户名已存在".into())).0.status, 400);
    assert_eq!(create_user_error(true, "x".into()), "用户名已存在");
    assert_eq!(create_user_error(false, "x".into()), "x");
    assert!(delete_user(admin(), true, 2).is_ok());
    assert!(delete_user(admin(), false, 1).is_ok());
    assert_eq!(
        delete_user(admin(), true, 1).unwrap_err().body,
        "{\"error\":\"不能删除最后一个管理员\"}"
    );
    let short = ChangePasswordReq { new_password: "x".into() };
    let good = ChangePasswordReq { new_password: "Abcd1234".into() };
    assert_eq!(change_password(admin(), &short).unwrap_err().status, 400);
    assert!(change_password(Some(user("user", "")), &good).is_ok());
    assert_eq!(reset_user_password(Some(user("user", "")), &good).unwrap_err().status, 403);
    let (r, a) = finish_account(&user("admin", ""), AccountOp::DeleteUser(-3), Ok(()));
    assert_eq!((r.status, a.unwrap().detail), (200, s("用户ID: -3")));
    assert_eq!(finish_account(&user("admin", ""), AccountOp::ChangePassword, Err("e".into())).0.status, 500);
    assert_eq!(finish_account(&user("admin", ""), AccountOp::UpdateUser(1), Err("e".into())).0.status, 400);
    let list = list_users(admin(), vec![user("user", "read"), user("admin", "")]).unwrap();
    assert_eq!((list.len(), list[1].role.as_str()), (2, "admin"));
    assert_eq!(UserResp::from(user("user", "read")).permissions, "read");
}

#[test]
fn account_changes() {
    let change = change_of(UpdateUserReq {
        role: None,
        shared_dir: Some(None),
        permissions: s("read"),
        quota_mb: Some(5),
    });
    let mut before = user("user", "write");
    before.shared_dir = s("d");
    let after = update_user(before, change);
    assert_eq!(
        (after.role.as_str(), after.shared_dir, after.permissions.as_str(), after.quota_mb),
        ("user", None, "read", 5)
    );
}

#[test]
fn share_links() {
    let row = |exp: Option<&str>, max: Option<i64>, count: i64| ShareRow {
        user_id: 4,
        path: "/p".into(),
        expires_at: exp.map(|e| e.to_string()),
        max_downloads: max,
        download_count: count,
    };
    // 2023-11-14 22:13:20 is 1700000000.
    let end = Some("2023-11-14 22:13:20");
    assert_eq!(verify_share(Some(row(end, None, 0)), (1700000000, 0)), Some((4, "/p".to_string())));
    assert_eq!(verify_share(Some(row(end, None, 0)), (1700000000, 1)), None);
    assert_eq!(verify_share(Some(row(end, None, 0)), (1699999999, 999)), Some((4, "/p".to_string())));
    assert!(verify_share(Some(row(Some("never"), None, 0)), (i64::MAX, 0)).is_some());
    assert!(verify_share(Some(row(None, Some(2), 1)), (0, 0)).is_some());
    assert!(verify_share(Some(row(None, Some(2), 2)), (0, 0)).is_none());
    assert!(verify_share(None, (0, 0)).is_none());
    assert!(share_grants(row(None, None, 0), Some((5, 0)), (6, 0)).is_none());
    assert_eq!(
        share_expiry(1700000000 - 7200, Some(2)),
        Ok(s("2023-11-14 22:13:20"))
    );
    assert_eq!(share_expiry(0, None), Ok(None));
    assert_eq!(share_expiry(i64::MAX, Some(i64::MAX)), Err(()));
}

#[test]
fn share_answers() {
    let path = || Some(vec!["srv".to_string()]);
    assert_eq!(create_share(Some(user("user", "")), &path()).unwrap_err().body, "{\"error\":\"无分享权限\"}");
    assert_eq!(create_share(Some(user("user", "share")), &None).unwrap_err().body, "{\"error\":\"路径非法\"}");
    let (r, a) = finish_create_share(&user("user", ""), "/p", "tok");
    assert_eq!(r.body, "{\"ok\":true,\"token\":\"tok\",\"url\":\"/s/tok\"}");
    assert_eq!(a.detail, s("token: tok"));
    let items = vec![
        ShareItem { token: "a".into(), path: "/x".into(), expires_at: s("E"), download_count: 2 },
        ShareItem { token: "b".into(), path: "/y".into(), expires_at: None, download_count: 0 },
    ];
    assert_eq!(
        list_shares(&items),
        "{\"shares\":[{\"token\":\"a\",\"path\":\"/x\",\"url\":\"/s/a\",\"expires_at\":\"E\",\"download_count\":2},{\"token\":\"b\",\"path\":\"/y\",\"url\":\"/s/b\",\"download_count\":0}]}"
    );
    assert_eq!(list_shares(&vec![]), "{\"shares\":[]}");
    let share = |user_id: i64| {
        Some(ShareRow {
            user_id,
            path: "/p".into(),
            expires_at: s("2000-01-01 00:00:00"),
            max_downloads: Some(1),
            download_count: 1,
        })
    };
    assert!(verify_share(share(1), (1700000000, 0)).is_none());
    assert!(delete_share(Some(user("user", "")), &share(7)).is_ok());
    assert!(delete_share(Some(user("user", "")), &None).is_ok());
    assert!(delete_share(Some(user("admin", "")), &share(1)).is_ok());
    assert_eq!(delete_share(Some(user("user", "")), &share(1)).unwrap_err().status, 403);
    assert_eq!(delete_share(None, &share(1)).unwrap_err().status, 401);
    let fresh = ShareRow { max_downloads: Some(2), download_count: 0, ..share(1).unwrap() };
    let once = count_access(fresh).unwrap();
    let twice = count_access(once).unwrap();
    assert_eq!(twice.download_count, 2);
    assert!(count_access(twice.clone()).is_none());
    let free = ShareRow { max_downloads: None, ..twice };
    assert_eq!(count_access(free).unwrap().download_count, 3);
    let grant = Some((7i64, "/p".to_string()));
    let owner = Some(user("user", ""));
    assert!(matches!(access_share("t", &None, &owner, &path()), ShareStep::Invalid));
    assert!(matches!(access_share("t", &grant, &None, &path()), ShareStep::Broken));
    assert!(matches!(access_share("t", &grant, &owner, &None), ShareStep::Forbidden));
    assert!(matches!(
        access_share("t", &grant, &owner, &path()),
        ShareStep::Serve(a) if a.action == "share_access" && a.user_id == Some(7)
    ));
    assert!(matches!(share_file(true, false, &s("d")), ShareFile::Packed(n) if n == "d.zip"));
    assert!(matches!(share_file(false, true, &None), ShareFile::Single(n) if n == "download"));
    assert!(matches!(share_file(false, false, &None), ShareFile::Nothing));
}

#[test]
fn requests_are_guarded() {
    let admin_only = [
        WebRequest::UpdateUser,
        WebRequest::GetAdminSettings,
        WebRequest::SetAdminSettings,
        WebRequest::RestartServer,
        WebRequest::GetAuditLogs,
    ];
    let for_all = [
        WebRequest::Me,
        WebRequest::GetUserSettings,
        WebRequest::SetUserSettings,
        WebRequest::ListShares,
        WebRequest::DiscoverServers,
    ];
    for r in admin_only {
        assert_eq!(guard_request(r, None).unwrap_err().status, 401);
        assert_eq!(guard_request(r, Some(user("user", "read"))).unwrap_err().status, 403);
        assert!(guard_request(r, Some(user("admin", ""))).is_ok());
    }
    for r in for_all {
        assert_eq!(guard_request(r, None).unwrap_err().status, 401);
        assert_eq!(guard_request(r, Some(user("user", ""))).unwrap().id, 7);
    }
}

#[test]
fn packing() {
    let path = Some(vec!["srv".to_string()]);
    assert_eq!(download_zip(&None, &path, true).unwrap_err().status, 401);
    assert_eq!(
        download_zip(&Some(user("user", "write")), &path, true).unwrap_err().body,
        "{\"error\":\"无读取权限\"}"
    );
    let reader = Some(user("user", "read"));
    assert_eq!(download_zip(&reader, &None, true).unwrap_err().body, "{\"error\":\"路径非法\"}");
    assert_eq!(download_zip(&reader, &path, false).unwrap_err().status, 400);
    assert!(download_zip(&reader, &path, true).is_ok());
    assert!(download_zip(&Some(user("admin", "")), &path, true).is_ok());
    assert_eq!(zip_name(&s("photos"), "download"), "photos.zip");
    assert_eq!(zip_name(&None, "download"), "download.zip");
    let v = |p: &[&str]| p.iter().map(|x| x.to_string()).collect::<Vec<String>>();
    assert_eq!(zip_entry_name(&v(&["srv"]), &v(&["srv", "a", "b"]), false), "a/b");
    assert_eq!(zip_entry_name(&v(&["srv"]), &v(&["srv", "a"]), true), "a/");
    assert_eq!(zip_entry_name(&v(&["x"]), &v(&["srv", "a"]), false), "srv/a");
}

#[test]
fn settings_and_audit() {
    assert!(is_config_key("pin") && is_config_key("web_port") && !is_config_key("simple_mode"));
    assert_eq!(stored_setting(&SettingValue::Text("x".into())), "x");
    assert_eq!(stored_setting(&SettingValue::Integer(-5)), "-5");
    assert_eq!(stored_setting(&SettingValue::Bool(true)), "true");
    assert_eq!(stored_setting(&SettingValue::Other("null".into())), "null");
    assert_eq!(stored_setting(&SettingValue::Fraction("1.5".into())), "1.5");
    let set = |key: &str, value: SettingValue| Setting { key: key.into(), value };
    let (stored, to_file) = set_admin_settings(&vec![
        set("pin", SettingValue::Text("9".into())),
        set("simple_mode", SettingValue::Bool(false)),
        set("web_port", SettingValue::Integer(81)),
        set("lsp_port", SettingValue::Other("null".into())),
    ]);
    assert_eq!(stored[1], ("simple_mode".to_string(), "false".to_string()));
    assert_eq!((stored.len(), to_file), (4, vec![0, 2]));
    assert_eq!(audit_limit(&None), 100);
    assert_eq!(audit_limit(&s("7")), 7);
    assert_eq!(audit_limit(&s("x")), 100);
    let e = AuditLogEntry {
        id: 1,
        user_id: Some(2),
        username: s("a\"b"),
        action: "login".into(),
        path: s("/p"),
        detail: None,
        ip: None,
        created_at: "T".into(),
    };
    let f = AuditLogEntry { id: 2, user_id: None, username: None, path: None, ip: s("1.2.3.4"), ..e.clone() };
    assert_eq!(
        get_audit_logs(&vec![e, f]),
        "{\"logs\":[{\"id\":1,\"user_id\":Some(2),\"username\":\"a\\\"b\",\"action\":\"login\",\"path\":\"/p\",\"created_at\":\"T\"},{\"id\":2,\"user_id\":None,\"username\":null,\"action\":\"login\",\"ip\":\"1.2.3.4\",\"created_at\":\"T\"}]}"
    );
}

#[test]
fn dates() {
    assert_eq!(http_date(0), "Thu, 01 Jan 1970 00:00:00 GMT");
    assert_eq!(http_date(1700000000), "Tue, 14 Nov 2023 22:13:20 GMT");
    assert_eq!(http_date(u64::MAX), "Wed, 31 Dec 1969 23:59:59 GMT");
    assert_eq!(http_date(i64::MAX as u64), "Thu, 01 Jan 1970 00:00:00 GMT");
    assert_eq!(date_or_epoch(s("x")), "x");
    assert_eq!(format_unix_utc(0), "1970-01-01 00:00:00");
    assert_eq!(format_unix_utc(951782400), "2000-02-29 00:00:00");
    assert_eq!(format_unix_utc(1700000000), "2023-11-14 22:13:20");
    assert_eq!(format_unix_utc(4107542399), "2100-02-28 23:59:59");
    assert_eq!(format_unix_utc(4107542400), "2100-03-01 00:00:00");
}

#[test]
fn credentials() {
    assert!(matches!(credential(&s("Bearer t"), &s("token=q")), Credential::Bearer(t) if t == "t"));
    // "share:123456"
    assert!(matches!(
        credential(&s("Basic c2hhcmU6MTIzNDU2"), &None),
        Credential::Basic(n, p) if n == "share" && p == "123456"
    ));
    assert!(matches!(
        credential(&s("Basic !!!"), &s("a=1&token=x%20y")),
        Credential::Query(t) if t == "x y"
    ));
    assert!(matches!(credential(&None, &s("a=1")), Credential::Nothing));
    assert_eq!(query_token(&s("pin=%E4%BD%A0&token=z")), s("你"));
    assert_eq!(query_token(&s("token")), None);
    assert_eq!(query_token(&None), None);
    assert_eq!(
        split_credentials(Some(b"a:b:c".to_vec())),
        Some(("a".to_string(), "b:c".to_string()))
    );
    assert_eq!(split_credentials(Some(vec![0xFF, b':'])), None);
    assert_eq!(split_credentials(Some(b"ab".to_vec())), None);
}

#[test]
fn credentials_in_order() {
    let pair = || Some(("n".to_string(), "p".to_string()));
    assert!(matches!(choose_credential(s("t"), pair(), s("q")), Credential::Bearer(_)));
    assert!(matches!(choose_credential(None, pair(), s("q")), Credential::Basic(_, _)));
    assert!(matches!(choose_credential(None, None, s("q")), Credential::Query(_)));
    assert!(matches!(choose_credential(None, None, None), Credential::Nothing));
    assert_eq!(basic_pair(&s("Basic YTpi")), Some(("a".to_string(), "b".to_string())));
    assert_eq!(basic_pair(&s("Bearer YTpi")), None);
    assert_eq!(raw_query_token(&s("x=1&pin=%31")), s("%31"));
}

#[test]
fn tokens_are_random() {
    let hex = |c: char| c.is_ascii_digit() || ('a'..='f').contains(&c);
    let t = share_token();
    assert_eq!(t.len(), 32);
    assert!(t.chars().all(hex));
    assert_ne!(t, share_token());
    let g = session_token();
    assert_eq!(g.len(), 36);
    for (i, c) in g.chars().enumerate() {
        assert_eq!(c == '-', [8, 13, 18, 23].contains(&i));
        assert!(c == '-' || hex(c));
    }
    assert_eq!(temporary_upload("x"), ".upload_x");
    assert_eq!(new_temporary_upload().len(), 40);
    assert_eq!(packed_file("x", Some(7)), "lanshare_x_7.zip");
    assert_eq!(packed_file("x", None), "lanshare_share_x.zip");
    assert!(new_packed_file(Some(7)).ends_with("_7.zip"));
    let (xml, header) = new_lock();
    let token = &header["<opaquelocktoken:".len()..header.len() - 1];
    assert_eq!(token.len(), 36);
    assert!(xml.contains(token));
}

#[test]
fn dav_modes() {
    let session = || Some(user("admin", ""));
    let bearer = Credential::Bearer("123456".into());
    assert_eq!(authenticate(&bearer, true, "123456", None, None).unwrap().id, 0);
    assert!(authenticate(&bearer, false, "123456", None, None).is_none());
    assert_eq!(authenticate(&bearer, false, "1", session(), None).unwrap().id, 7);
    let q = Credential::Query("123456".into());
    assert_eq!(authenticate(&q, true, "123456", None, None).unwrap().id, 0);
    let b = Credential::Basic("share".into(), "123456".into());
    assert_eq!(authenticate(&b, true, "123456", None, None).unwrap().id, 0);
    let b = Credential::Basic("ada".into(), "123456".into());
    assert!(authenticate(&b, true, "123456", session(), None).is_none());
    let row = LoginRow { user: user("user", ""), password_hash: hash_password("123456").unwrap() };
    assert_eq!(authenticate(&b, false, "x", None, Some(row)).unwrap().username, "ada");
    assert!(authenticate(&Credential::Nothing, true, "1", session(), None).is_none());
    let ordinary = || Some(user("user", "read"));
    for c in [Credential::Bearer("T".into()), Credential::Query("T".into())] {
        assert!(authenticate(&c, true, "123456", ordinary(), None).is_none());
        assert_eq!(authenticate(&c, true, "123456", session(), None).unwrap().role, "admin");
        assert_eq!(authenticate(&c, false, "123456", ordinary(), None).unwrap().role, "user");
    }
}

#[test]
fn dav_methods_need_their_permission() {
    let path = Some(vec!["srv".to_string()]);
    let methods = [
        ("GET", "read"),
        ("HEAD", "read"),
        ("PROPFIND", "read"),
        ("PUT", "write"),
        ("COPY", "write"),
        ("DELETE", "delete"),
        ("MKCOL", "mkdir"),
        ("MOVE", "rename"),
    ];
    let all = "read,write,delete,rename,share,mkdir";
    for (method, perm) in methods {
        assert!(handle_request(&Some(user("user", perm)), &path, method).is_ok(), "{method}");
        assert!(handle_request(&Some(user("admin", "")), &path, method).is_ok(), "{method}");
        let others: Vec<&str> = all.split(',').filter(|p| *p != perm).collect();
        let u = Some(user("user", &others.join(",")));
        let e = handle_request(&u, &path, method).unwrap_err();
        assert_eq!((e.status, e.body.as_str()), (403, "Permission denied"), "{method}");
    }
    for method in ["OPTIONS", "PROPPATCH", "LOCK", "UNLOCK"] {
        assert!(handle_request(&Some(user("user", "")), &path, method).is_ok(), "{method}");
    }
}

#[test]
fn dav_requests() {
    let path = Some(vec!["srv".to_string()]);
    let u = Some(user("user", ""));
    assert_eq!(handle_request(&None, &path, "GET").unwrap_err().status, 401);
    assert_eq!(handle_request(&u, &None, "GET").unwrap_err().body, "Path traversal denied");
    assert_eq!(handle_request(&u, &path, "PATCH").unwrap_err().status, 405);
    assert_eq!(
        handle_request(&Some(user("user", "read")), &path, "PROPFIND").unwrap(),
        DavMethod::Propfind
    );
    assert_eq!(handle_request(&u, &path, "UNLOCK").unwrap(), DavMethod::Unlock);
    assert_eq!(propfind_children(Node::Directory, &None).unwrap(), true);
    assert_eq!(propfind_children(Node::Directory, &s("0")).unwrap(), false);
    assert_eq!(propfind_children(Node::File, &s("1")).unwrap(), false);
    assert_eq!(propfind_children(Node::Nothing, &None).unwrap_err().status, 404);
    assert_eq!(check_transfer(&None, true, false, &None).unwrap_err().status, 400);
    assert_eq!(check_transfer(&path, false, false, &None).unwrap_err().status, 404);
    assert_eq!(check_transfer(&path, true, true, &s("F")).unwrap_err().status, 412);
    assert!(check_transfer(&path, true, true, &s("T")).is_ok());
    assert!(check_transfer(&path, true, false, &s("F")).is_ok());
    assert_eq!(finish_op(DavOp::Put(true), Ok(())).status, 204);
    assert_eq!(finish_op(DavOp::Put(false), Ok(())).body, "Created");
    assert_eq!(finish_op(DavOp::Move, Ok(())).body, "Moved");
    assert_eq!(finish_op(DavOp::Copy, Err("x".into())).body, "Copy failed: x");
    assert_eq!(finish_op(DavOp::Delete, Ok(())).status, 204);
    assert_eq!(finish_op(DavOp::Mkcol, Err("x".into())).body, "MKCOL failed: x");
    assert_eq!(handle_mkcol(true).unwrap_err().status, 405);
    assert_eq!(handle_delete(Node::Nothing).unwrap_err().status, 404);
    assert_eq!(
        handle_head(Node::File, "a.txt", 5).unwrap(),
        ("text/plain".to_string(), "5".to_string())
    );
    assert_eq!(handle_head(Node::Directory, "a.txt", 5).unwrap().0, "httpd/unix-directory");
}

#[test]
fn destinations() {
    assert_eq!(get_destination(&s("http://h:1/a%20b?x=1")), s("/a b"));
    assert_eq!(get_destination(&s("/c%2Fd")), s("/c/d"));
    assert_eq!(get_destination(&s("http://[")), None);
    assert_eq!(get_destination(&None), None);
    assert_eq!(get_destination(&s("/%FFx")), s("/\u{FFFD}x"));
    assert_eq!(get_destination(&s("/%zz%4")), s("/%zz%4"));
}

#[test]
fn dav_documents() {
    assert_eq!(xml_escape("a&<b>\"c'"), "a&amp;&lt;b&gt;&quot;c'");
    let dir = prop_entry("/d", &s("d&"), true, 9, "D");
    assert_eq!(
        dir,
        "<D:response>\n  <D:href>/d</D:href>\n  <D:propstat>\n    <D:prop>\n      <D:displayname>d&amp;</D:displayname>\n      <D:resourcetype><D:collection/></D:resourcetype>\n      <D:getlastmodified>D</D:getlastmodified>\n      \n    </D:prop>\n    <D:status>HTTP/1.1 200 OK</D:status>\n  </D:propstat>\n</D:response>"
    );
    let file = propfind_entry("/f", &None, false, 9, 0);
    assert!(file.contains("<D:displayname>share</D:displayname>"));
    assert!(file.contains("<D:getcontentlength>9</D:getcontentlength>"));
    assert!(file.contains("Thu, 01 Jan 1970 00:00:00 GMT"));
    assert_eq!(
        multistatus(&vec!["A".to_string(), "B".to_string()]),
        "<?xml version=\"1.0\" encoding=\"utf-8\"?>\n<D:multistatus xmlns:D=\"DAV:\">\nA\nB\n</D:multistatus>"
    );
    let item = |href: &str, is_dir: bool| PropItem {
        href: href.to_string(),
        name: s("n"),
        is_dir,
        size: 1,
        modified: 0,
    };
    let xml_of = |e: &PropItem| propfind_entry(&e.href, &e.name, e.is_dir, e.size, e.modified);
    let (own, inner) = (item("/", true), vec![item("/a", false), item("/b", true)]);
    let whole = handle_propfind(Node::Directory, &None, &own, &inner);
    assert_eq!(whole.status, 207);
    assert_eq!(whole.body, multistatus(&vec![xml_of(&own), xml_of(&inner[0]), xml_of(&inner[1])]));
    let alone = handle_propfind(Node::Directory, &s("0"), &own, &inner);
    assert_eq!(alone.body, multistatus(&vec![xml_of(&own)]));
    assert_eq!(handle_propfind(Node::Nothing, &None, &own, &inner).status, 404);
    let (mime, saved) = handle_get(&s("a b.pdf"));
    assert_eq!(mime, "application/pdf");
    assert_eq!(saved, "attachment; filename*=UTF-8''a%20b%2Epdf");
    assert_eq!(handle_get(&None).1, "attachment; filename*=UTF-8''download");
    assert!(handle_proppatch("/x").contains("<D:href>/x</D:href>"));
    assert!(propfind_entry("/a&b", &None, false, 9, 0).contains("<D:href>/a&b</D:href>"));
    let (xml, header) = handle_lock("T");
    assert!(xml.contains("<D:href>opaquelocktoken:T</D:href>"));
    assert_eq!(header, "<opaquelocktoken:T>");
    let html = dir_listing(&vec![
        ListItem { name: "a b".into(), is_dir: true },
        ListItem { name: "<x>".into(), is_dir: false },
    ]);
    assert!(html.contains("<li>📁 <a href=\"a%20b\">a b</a></li><li>📄 <a href=\"%3Cx%3E\">&lt;x&gt;</a></li>"));
}

#[test]
fn pages_are_filled_in() {
    let st = AppState {
        shared_dir: "/srv".into(),
        pin: "1".into(),
        device_name: "box".into(),
        local_ip: "10.0.0.1".into(),
        lsp_port: 9820,
        web_port: 8080,
        start_ts: 5,
        config_path: None,
    };
    assert_eq!(
        render_ui("{{DEVICE_NAME}} {{LOCAL_IP}}:{{WEB_PORT}}/{{LSP_PORT}} {{SHARED_DIR}} {{START_TS}} {{WEBDAV_PORT}}", &st),
        "box 10.0.0.1:8080/9820 /srv 5 {{WEBDAV_PORT}}"
    );
    let st = WebDavState {
        shared_dir: "/srv".into(),
        canonical_dir: vec!["srv".into()],
        pin: "1".into(),
        device_name: "box".into(),
        local_ip: "10.0.0.1".into(),
        lsp_port: 9820,
        webdav_port: 8081,
        start_ts: 5,
        config_path: None,
    };
    assert_eq!(render_dav_ui("{{WEBDAV_PORT}}{{WEB_PORT}}", &st), "8081{{WEB_PORT}}");
}
