//! The REST interface: login, accounts, settings, share links and the audit log.
use vstd::prelude::*;
use crate::db::{
    allowed, audit_of, login_of, pin_account, share_user, user_of, verify_login, Audit, AuditLogEntry,
    AuditView, LoginRow, ShareRow, User, UserChange, UserView, ALL_PERMISSIONS,
};
use crate::http::{err_json, error_view, ok_reply, HttpReply, HttpView};
use crate::paths::{path_behind, path_of, starts_within};
use crate::text::{
    begins_with, chars_of, digits, drop_chars, holds_part, join, joined,
    lemma_holds_middle, lemma_holds_within, parse_signed, push_number, push_signed,
    replace_char, replaced, signed, signed_in, str_eq, substitute, substituted, text_of, texts, trim,
    trimmed,
};

verus! {

#[derive(Debug, Clone)]
pub struct LoginReq {
    pub username: String,
    pub password: String,
}

#[derive(Debug, Clone)]
pub struct LoginResp {
    pub token: String,
    pub user: UserResp,
    pub must_change_password: bool,
}

/// What a client is told of an account.
#[derive(Debug, Clone)]
pub struct UserResp {
    pub id: i64,
    pub username: String,
    pub role: String,
    pub shared_dir: Option<String>,
    pub permissions: String,
    pub quota_mb: i64,
}

impl From<User> for UserResp {
    fn from(u: User) -> (r: Self) {
        UserResp {
            id: u.id,
            username: u.username,
            role: u.role,
            shared_dir: u.shared_dir,
            permissions: u.permissions,
            quota_mb: u.quota_mb,
        }
    }
}

impl vstd::std_specs::convert::FromSpecImpl<User> for UserResp {
    open spec fn obeys_from_spec() -> bool {
        true
    }

    open spec fn from_spec(u: User) -> Self {
        UserResp {
            id: u.id,
            username: u.username,
            role: u.role,
            shared_dir: u.shared_dir,
            permissions: u.permissions,
            quota_mb: u.quota_mb,
        }
    }
}

#[derive(Debug, Clone)]
pub struct CreateUserReq {
    pub username: String,
    pub password: String,
    pub role: String,
    pub shared_dir: Option<String>,
    /// All permissions where the request names none.
    pub permissions: String,
    /// 0, no limit, where the request names none.
    pub quota_mb: i64,
}

/// The permissions of a new account for which none are named: all of them.
pub fn default_permissions() -> (r: String)
    ensures
        r@ == "read,write,delete,rename,share,mkdir"@,
{
    ALL_PERMISSIONS.to_owned()
}

#[derive(Debug, Clone)]
pub struct UpdateUserReq {
    pub role: Option<String>,
    pub shared_dir: Option<Option<String>>,
    pub permissions: Option<String>,
    pub quota_mb: Option<i64>,
}

#[derive(Debug, Clone)]
pub struct ChangePasswordReq {
    pub new_password: String,
}

/// A directory to be packed, and the token of a session.
#[derive(Debug, Clone)]
pub struct ZipQuery {
    pub path: String,
    pub token: String,
}

/// A path to be shared; for how many hours and how many downloads, if there is a limit.
#[derive(Debug, Clone)]
pub struct CreateShareReq {
    pub path: String,
    pub expires_hours: Option<i64>,
    pub max_downloads: Option<i64>,
}

/// The token in an `Authorization` header of the kind `Bearer`.
pub open spec fn bearer(header: Option<Seq<char>>) -> Option<Seq<char>> {
    match header {
        Some(h) => if "Bearer "@.is_prefix_of(h) {
            Some(h.skip("Bearer "@.len() as int))
        } else {
            None
        },
        None => None,
    }
}

/// The token in an `Authorization` header of the kind `Bearer`.
pub fn extract_token(header: &Option<String>) -> (r: Option<String>)
    ensures
        text_of(r) == bearer(text_of(*header)),
{
    match header {
        Some(h) => {
            if begins_with(h.as_str(), "Bearer ") {
                proof {
                    reveal_strlit("Bearer ");
                    assert("Bearer "@.len() == 7);
                    assert(h@.len() >= 7);
                }
                Some(drop_chars(h.as_str(), 7))
            } else {
                None
            }
        },
        None => None,
    }
}

/// Is simple mode on? It is unless the setting says `false`.
pub open spec fn simple_mode(setting: Option<Seq<char>>) -> bool {
    setting != Some("false"@)
}

/// Is simple mode on? `setting` is the value of the setting `simple_mode`, if it is set.
pub fn is_simple_mode(setting: &Option<String>) -> (r: bool)
    ensures
        r == simple_mode(text_of(*setting)),
{
    match setting {
        Some(v) => !str_eq(v.as_str(), "false"),
        None => true,
    }
}

/// Whom a bearer token stands for: in simple mode the PIN stands for the PIN account, any other
/// token for the account of its session.
pub open spec fn bearer_user(
    token: Option<Seq<char>>,
    simple: bool,
    pin: Seq<char>,
    session: Option<UserView>,
) -> Option<UserView> {
    match token {
        None => None,
        Some(t) => if simple && t == pin {
            Some(pin_account())
        } else {
            session
        },
    }
}

/// Whom a bearer token stands for. `session` is the account whose session has the token.
pub fn auth_user(
    token: &Option<String>,
    simple: bool,
    pin: &str,
    session: Option<User>,
) -> (r: Option<User>)
    ensures
        user_of(r) == bearer_user(text_of(*token), simple, pin@, user_of(session)),
{
    match token {
        None => None,
        Some(t) => {
            if simple && str_eq(t.as_str(), pin) {
                return Some(share_user());
            }
            session
        },
    }
}

/// What stands in the way of a request that needs a login, and of one that needs an administrator.
pub open spec fn login_barrier(user: Option<UserView>, admin: bool) -> Option<HttpView> {
    match user {
        None => Some(error_view(401, "未登录或会话已"@)),
        Some(u) => if admin && u.role != "admin"@ {
            Some(error_view(403, "需要管理员权限"@))
        } else {
            None
        },
    }
}

/// Lets a request through if somebody is logged in.
pub fn require_auth(user: Option<User>) -> (r: Result<User, HttpReply>)
    ensures
        match r {
            Ok(u) => login_barrier(user_of(user), false) is None && user == Some(u),
            Err(e) => login_barrier(user_of(user), false) == Some(e@),
        },
{
    match user {
        Some(u) => Ok(u),
        None => Err(err_json(401, "未登录或会话已")),
    }
}

/// Lets a request through if an administrator is logged in.
pub fn require_admin(user: Option<User>) -> (r: Result<User, HttpReply>)
    ensures
        match r {
            Ok(u) => login_barrier(user_of(user), true) is None && user == Some(u),
            Err(e) => login_barrier(user_of(user), true) == Some(e@),
        },
{
    match user {
        Some(u) => {
            if u.is_admin() {
                Ok(u)
            } else {
                Err(err_json(403, "需要管理员权限"))
            }
        },
        None => Err(err_json(401, "未登录或会话已")),
    }
}

/// The requests of which the guard is all that is decided before they are carried out.
#[derive(Debug, Clone, Copy, PartialEq, Eq, Structural)]
pub enum WebRequest {
    /// Who am I?
    Me,
    UpdateUser,
    GetAdminSettings,
    SetAdminSettings,
    RestartServer,
    GetAuditLogs,
    GetUserSettings,
    SetUserSettings,
    ListShares,
    DiscoverServers,
}

/// Does the request need an administrator? The others need a login.
pub open spec fn needs_admin(request: WebRequest) -> bool {
    match request {
        WebRequest::UpdateUser | WebRequest::GetAdminSettings | WebRequest::SetAdminSettings
        | WebRequest::RestartServer | WebRequest::GetAuditLogs => true,
        WebRequest::Me | WebRequest::GetUserSettings | WebRequest::SetUserSettings
        | WebRequest::ListShares | WebRequest::DiscoverServers => false,
    }
}

/// Lets a request through if whoever makes it may.
pub fn guard_request(request: WebRequest, user: Option<User>) -> (r: Result<User, HttpReply>)
    ensures
        match r {
            Ok(u) => login_barrier(user_of(user), needs_admin(request)) is None && user == Some(u),
            Err(e) => login_barrier(user_of(user), needs_admin(request)) == Some(e@),
        },
{
    match request {
        WebRequest::UpdateUser | WebRequest::GetAdminSettings | WebRequest::SetAdminSettings
        | WebRequest::RestartServer | WebRequest::GetAuditLogs => require_admin(user),
        WebRequest::Me | WebRequest::GetUserSettings | WebRequest::SetUserSettings
        | WebRequest::ListShares | WebRequest::DiscoverServers => require_auth(user),
    }
}

/// Does the text hold a character between two others?
pub open spec fn holds_between(s: Seq<char>, lo: char, hi: char) -> bool {
    exists|i: int| 0 <= i < s.len() && lo <= #[trigger] s[i] && s[i] <= hi
}

/// How many of the three kinds of characters, capital letters, small letters and digits of ASCII,
/// a password holds.
pub open spec fn kinds_in(s: Seq<char>) -> int {
    (if holds_between(s, 'A', 'Z') {
        1int
    } else {
        0
    }) + (if holds_between(s, 'a', 'z') {
        1int
    } else {
        0
    }) + (if holds_between(s, '0', '9') {
        1int
    } else {
        0
    })
}

/// What is wrong with a password: it has fewer than eight characters, or fewer than two kinds of
/// them.
pub open spec fn password_fault(pwd: Seq<char>) -> Option<Seq<char>> {
    if pwd.len() < 8 {
        Some("密码至少 8 位"@)
    } else if kinds_in(pwd) < 2 {
        Some("密码须包含大写字母、小写字母、数字中的至少 2 种"@)
    } else {
        None
    }
}

fn has_between(v: &Vec<char>, lo: char, hi: char) -> (r: bool)
    ensures
        r == holds_between(v@, lo, hi),
{
    let mut i: usize = 0;
    while i < v.len()
        invariant
            i <= v@.len(),
            forall|k: int| 0 <= k < i ==> !(lo <= #[trigger] v@[k] && v@[k] <= hi),
        decreases v@.len() - i,
    {
        let c: char = v[i];
        if lo <= c && c <= hi {
            proof {
                assert(v@[i as int] == c);
            }
            return true;
        }
        i = i + 1;
    }
    false
}

/// Checks a new password: at least eight characters, and at least two of capital letters, small
/// letters and digits.
pub fn validate_password(pwd: &str) -> (r: Result<(), String>)
    ensures
        match r {
            Ok(_) => password_fault(pwd@) is None,
            Err(e) => password_fault(pwd@) == Some(e@),
        },
{
    let v = chars_of(pwd);
    if v.len() < 8 {
        return Err("密码至少 8 位".to_owned());
    }
    let upper: u8 = if has_between(&v, 'A', 'Z') { 1 } else { 0 };
    let lower: u8 = if has_between(&v, 'a', 'z') { 1 } else { 0 };
    let digit: u8 = if has_between(&v, '0', '9') { 1 } else { 0 };
    if upper + lower + digit < 2 {
        return Err(
            "密码须包含大写字母、小写字母、数字中的至少 2 种".to_owned(),
        );
    }
    Ok(())
}

/// What comes of an attempt to log in.
#[derive(Debug)]
pub enum LoginStep {
    /// The attempt is answered, and nothing else happens.
    Refuse(HttpReply),
    /// The account is let in: a session is opened for it.
    Accept(User),
    /// The attempt counts as a failure, and is recorded.
    Fail(HttpReply, Audit),
}

pub enum LoginView {
    Refuse(HttpView),
    Accept(UserView),
    Fail(HttpView, AuditView),
}

impl View for LoginStep {
    type V = LoginView;

    open spec fn view(&self) -> LoginView {
        match *self {
            LoginStep::Refuse(r) => LoginView::Refuse(r@),
            LoginStep::Accept(u) => LoginView::Accept(u@),
            LoginStep::Fail(r, a) => LoginView::Fail(r@, a@),
        }
    }
}

/// What comes of an attempt to log in, if `found` is the account whose name and password were
/// given. A locked name is refused, whatever the password. In simple mode only administrators log
/// in.
pub open spec fn login_outcome(
    simple: bool,
    locked: bool,
    remain_secs: u64,
    username: Seq<char>,
    found: Option<UserView>,
) -> LoginView {
    if locked {
        LoginView::Refuse(
            error_view(
                429,
                "登录失败次数过多，请 "@ + digits(remain_secs as nat) + " 秒后重试"@,
            ),
        )
    } else {
        match found {
            Some(u) => if simple && u.role != "admin"@ {
                LoginView::Refuse(
                    error_view(403, "简易模式下请使用 PIN 码连接"@),
                )
            } else {
                LoginView::Accept(u)
            },
            None => LoginView::Fail(
                error_view(401, "用户名或密码错误"@),
                AuditView {
                    user_id: None,
                    username,
                    action: "login_failed"@,
                    path: None,
                    detail: Some("用户名或密码错误"@),
                },
            ),
        }
    }
}

/// What comes of an attempt to log in with the right name and password, or with wrong ones.
pub fn decide_login(
    simple: bool,
    locked: bool,
    remain_secs: u64,
    username: &str,
    found: Option<User>,
) -> (r: LoginStep)
    ensures
        r@ == login_outcome(simple, locked, remain_secs, username@, user_of(found)),
{
    if locked {
        let mut text: String = "登录失败次数过多，请 ".to_owned();
        push_number(&mut text, remain_secs);
        text.append(" 秒后重试");
        return LoginStep::Refuse(err_json(429, text.as_str()));
    }
    match found {
        Some(u) => {
            if simple && !u.is_admin() {
                LoginStep::Refuse(err_json(403, "简易模式下请使用 PIN 码连接"))
            } else {
                LoginStep::Accept(u)
            }
        },
        None => LoginStep::Fail(
            err_json(401, "用户名或密码错误"),
            Audit {
                user_id: None,
                username: username.to_owned(),
                action: "login_failed".to_owned(),
                path: None,
                detail: Some("用户名或密码错误".to_owned()),
            },
        ),
    }
}

/// What comes of an attempt to log in. `row` is what the database holds under the name, and
/// `locked` says that the name is locked for `remain_secs` more seconds.
pub fn login(
    simple: bool,
    locked: bool,
    remain_secs: u64,
    req: &LoginReq,
    row: Option<LoginRow>,
) -> (r: LoginStep)
    ensures
        r@ == login_outcome(
            simple,
            locked,
            remain_secs,
            req.username@,
            login_of(row, req.password@),
        ),
{
    if locked {
        return decide_login(simple, locked, remain_secs, req.username.as_str(), None);
    }
    let found = verify_login(row, req.password.as_str());
    decide_login(simple, locked, remain_secs, req.username.as_str(), found)
}

/// Answers a login for which a session has been opened, or could not be.
pub fn finish_login(username: &str, user: User, session: Result<String, String>) -> (r: Result<
    (LoginResp, Audit),
    HttpReply,
>)
    ensures
        match session {
            Ok(token) => r matches Ok(p) && p.0.token@ == token@ && p.0.must_change_password
                == user.must_change_password && p.0.user == UserResp::from_spec_of(user) && p.1@
                == (AuditView {
                user_id: Some(user.id),
                username: username@,
                action: "login"@,
                path: None,
                detail: Some("登录成功"@),
            }),
            Err(e) => r matches Err(h) && h@ == error_view(500, e@),
        },
{
    match session {
        Ok(token) => {
            let audit = Audit {
                user_id: Some(user.id),
                username: username.to_owned(),
                action: "login".to_owned(),
                path: None,
                detail: Some("登录成功".to_owned()),
            };
            let must_change_password = user.must_change_password;
            Ok((LoginResp { token, user: UserResp::from(user), must_change_password }, audit))
        },
        Err(e) => Err(err_json(500, e.as_str())),
    }
}

impl UserResp {
    /// What a client is told of an account.
    pub open spec fn from_spec_of(u: User) -> UserResp {
        UserResp {
            id: u.id,
            username: u.username,
            role: u.role,
            shared_dir: u.shared_dir,
            permissions: u.permissions,
            quota_mb: u.quota_mb,
        }
    }
}

/// May somebody change a password? With `admin` it is that of another account.
pub open spec fn password_barrier(user: Option<UserView>, admin: bool, pwd: Seq<char>) -> Option<
    HttpView,
> {
    if login_barrier(user, admin) is Some {
        login_barrier(user, admin)
    } else {
        match password_fault(pwd) {
            Some(m) => Some(error_view(400, m)),
            None => None,
        }
    }
}

/// May somebody change their own password?
pub fn change_password(user: Option<User>, req: &ChangePasswordReq) -> (r: Result<User, HttpReply>)
    ensures
        match r {
            Ok(u) => password_barrier(user_of(user), false, req.new_password@) is None && user
                == Some(u),
            Err(e) => password_barrier(user_of(user), false, req.new_password@) == Some(e@),
        },
{
    let u = require_auth(user)?;
    match validate_password(req.new_password.as_str()) {
        Ok(_) => Ok(u),
        Err(m) => Err(err_json(400, m.as_str())),
    }
}

/// May an administrator set the password of an account?
pub fn reset_user_password(user: Option<User>, req: &ChangePasswordReq) -> (r: Result<
    User,
    HttpReply,
>)
    ensures
        match r {
            Ok(u) => password_barrier(user_of(user), true, req.new_password@) is None && user
                == Some(u),
            Err(e) => password_barrier(user_of(user), true, req.new_password@) == Some(e@),
        },
{
    let u = require_admin(user)?;
    match validate_password(req.new_password.as_str()) {
        Ok(_) => Ok(u),
        Err(m) => Err(err_json(400, m.as_str())),
    }
}

/// What an account has done to itself or another.
#[derive(Debug, Clone, Copy)]
pub enum AccountOp {
    ChangePassword,
    ResetPassword(i64),
    DeleteUser(i64),
    UpdateUser(i64),
    UpdateSettings,
}

/// The action and the remark in the audit log.
pub open spec fn account_trace(op: AccountOp) -> (Seq<char>, Seq<char>) {
    match op {
        AccountOp::ChangePassword => ("change_password"@, "修改自己的密码"@),
        AccountOp::ResetPassword(id) => ("reset_password"@, "用户ID: "@ + signed(id as int)),
        AccountOp::DeleteUser(id) => ("delete_user"@, "用户ID: "@ + signed(id as int)),
        AccountOp::UpdateUser(id) => ("update_user"@, "用户ID: "@ + signed(id as int)),
        AccountOp::UpdateSettings => ("update_settings"@, "修改系统设置"@),
    }
}

/// The status with which a failure is answered: the caller's fault or the server's.
pub open spec fn account_failure(op: AccountOp) -> u16 {
    match op {
        AccountOp::DeleteUser(_) | AccountOp::UpdateUser(_) => 400,
        _ => 500,
    }
}

fn id_remark(id: i64) -> (r: String)
    ensures
        r@ == "用户ID: "@ + signed(id as int),
{
    let mut out: String = "用户ID: ".to_owned();
    push_signed(&mut out, id);
    out
}

/// Answers a change to an account after it was tried. Only one that was made is recorded.
pub fn finish_account(actor: &User, op: AccountOp, result: Result<(), String>) -> (r: (
    HttpReply,
    Option<Audit>,
))
    ensures
        match result {
            Ok(_) => r.0@ == (HttpView { status: 200, body: "{\"ok\":true}"@ }) && audit_of(r.1)
                == Some(
                AuditView {
                    user_id: Some(actor.id),
                    username: actor.username@,
                    action: account_trace(op).0,
                    path: None,
                    detail: Some(account_trace(op).1),
                },
            ),
            Err(e) => r.0@ == error_view(account_failure(op), e@) && r.1 is None,
        },
{
    match result {
        Ok(_) => {
            let (action, detail) = match op {
                AccountOp::ChangePassword => ("change_password", "修改自己的密码".to_owned()),
                AccountOp::ResetPassword(id) => ("reset_password", id_remark(id)),
                AccountOp::DeleteUser(id) => ("delete_user", id_remark(id)),
                AccountOp::UpdateUser(id) => ("update_user", id_remark(id)),
                AccountOp::UpdateSettings => ("update_settings", "修改系统设置".to_owned()),
            };
            let audit = Audit {
                user_id: Some(actor.id),
                username: actor.username.clone(),
                action: action.to_owned(),
                path: None,
                detail: Some(detail),
            };
            (ok_reply(200), Some(audit))
        },
        Err(e) => {
            let status: u16 = match op {
                AccountOp::DeleteUser(_) | AccountOp::UpdateUser(_) => 400,
                _ => 500,
            };
            (err_json(status, e.as_str()), None)
        },
    }
}

/// The directory of a new account: one that the request names, or one of its own under its name,
/// which is created below the shared directory of the server.
pub open spec fn new_user_dir(req: CreateUserReq) -> Option<Seq<char>> {
    match text_of(req.shared_dir) {
        Some(d) => if trimmed(d).len() > 0 {
            Some(trimmed(d))
        } else {
            None
        },
        None => None,
    }
}

/// Why an account cannot be created.
pub open spec fn create_barrier(user: Option<UserView>, req: CreateUserReq) -> Option<HttpView> {
    if login_barrier(user, true) is Some {
        login_barrier(user, true)
    } else if req.username@.len() == 0 {
        Some(error_view(400, "用户名不能为空"@))
    } else if password_fault(req.password@) is Some {
        Some(error_view(400, password_fault(req.password@)->0))
    } else if req.role@ != "admin"@ && req.role@ != "user"@ {
        Some(error_view(400, "role 必须是 admin 或 user"@))
    } else {
        None
    }
}

/// Who creates an account, and the directory that the request names for it, if it names one.
#[derive(Debug)]
pub struct CreatePlan {
    pub actor: User,
    pub shared_dir: Option<String>,
}

/// May an account be created, and with which directory? Where none is named, it is one with the
/// name of the user.
pub fn create_user(user: Option<User>, req: &CreateUserReq) -> (r: Result<CreatePlan, HttpReply>)
    ensures
        match r {
            Ok(p) => create_barrier(user_of(user), *req) is None && user == Some(p.actor)
                && text_of(p.shared_dir) == new_user_dir(*req),
            Err(e) => create_barrier(user_of(user), *req) == Some(e@),
        },
{
    let actor = require_admin(user)?;
    proof {
        reveal_strlit("");
        assert(req.username@.len() == 0 ==> req.username@ =~= ""@);
    }
    if str_eq(req.username.as_str(), "") {
        return Err(err_json(400, "用户名不能为空"));
    }
    match validate_password(req.password.as_str()) {
        Ok(_) => {},
        Err(m) => {
            return Err(err_json(400, m.as_str()));
        },
    }
    if !str_eq(req.role.as_str(), "admin") && !str_eq(req.role.as_str(), "user") {
        return Err(err_json(400, "role 必须是 admin 或 user"));
    }
    let shared_dir = match &req.shared_dir {
        Some(d) => {
            let t = trim(d.as_str());
            proof {
                assert(t@.len() == 0 ==> t@ =~= ""@);
            }
            if str_eq(t.as_str(), "") {
                None
            } else {
                Some(t)
            }
        },
        None => None,
    };
    Ok(CreatePlan { actor, shared_dir })
}

/// Answers the creation of an account: its number, or why it failed.
pub fn finish_create_user(actor: &User, username: &str, result: Result<i64, String>) -> (r: (
    HttpReply,
    Option<Audit>,
))
    ensures
        match result {
            Ok(id) => r.0@ == (HttpView {
                status: 201,
                body: "{\"ok\":true,\"id\":"@ + signed(id as int) + "}"@,
            }) && audit_of(r.1) == Some(
                AuditView {
                    user_id: Some(actor.id),
                    username: actor.username@,
                    action: "create_user"@,
                    path: None,
                    detail: Some("用户: "@ + username@),
                },
            ),
            Err(e) => r.0@ == error_view(400, e@) && r.1 is None,
        },
{
    match result {
        Ok(id) => {
            let mut body: String = "{\"ok\":true,\"id\":".to_owned();
            push_signed(&mut body, id);
            body.append("}");
            let mut detail: String = "用户: ".to_owned();
            detail.append(username);
            let audit = Audit {
                user_id: Some(actor.id),
                username: actor.username.clone(),
                action: "create_user".to_owned(),
                path: None,
                detail: Some(detail),
            };
            (HttpReply { status: 201, body }, Some(audit))
        },
        Err(e) => (err_json(400, e.as_str()), None),
    }
}

/// The change that a request asks for.
pub fn change_of(req: UpdateUserReq) -> (r: UserChange)
    ensures
        r == (UserChange {
            role: req.role,
            shared_dir: req.shared_dir,
            permissions: req.permissions,
            quota_mb: req.quota_mb,
        }),
{
    UserChange {
        role: req.role,
        shared_dir: req.shared_dir,
        permissions: req.permissions,
        quota_mb: req.quota_mb,
    }
}

/// Is the setting one that also stands in the configuration file?
pub open spec fn in_config_file(key: Seq<char>) -> bool {
    key == "shared_dir"@ || key == "lsp_port"@ || key == "web_port"@ || key == "device_name"@
        || key == "auto_browser"@ || key == "pin"@
}

/// Is the setting one that also stands in the configuration file?
pub fn is_config_key(key: &str) -> (r: bool)
    ensures
        r == in_config_file(key@),
{
    str_eq(key, "shared_dir") || str_eq(key, "lsp_port") || str_eq(key, "web_port") || str_eq(
        key,
        "device_name",
    ) || str_eq(key, "auto_browser") || str_eq(key, "pin")
}

/// A JSON value of a setting. Numbers that are no integers of 64 bits, and nested values, are held
/// as their JSON text.
#[derive(Debug, Clone)]
pub enum SettingValue {
    Text(String),
    Integer(i64),
    Fraction(String),
    Bool(bool),
    Other(String),
}

/// The text under which a setting is stored: a string as it is, anything else as JSON.
pub open spec fn setting_text(v: SettingValue) -> Seq<char> {
    match v {
        SettingValue::Text(s) => s@,
        SettingValue::Integer(n) => signed(n as int),
        SettingValue::Fraction(s) => s@,
        SettingValue::Bool(b) => if b {
            "true"@
        } else {
            "false"@
        },
        SettingValue::Other(s) => s@,
    }
}

/// The text under which a setting is stored.
pub fn stored_setting(v: &SettingValue) -> (r: String)
    ensures
        r@ == setting_text(*v),
{
    match v {
        SettingValue::Text(s) => s.clone(),
        SettingValue::Integer(n) => {
            let mut out: String = String::new();
            push_signed(&mut out, *n);
            proof {
                assert(out@ =~= signed(*n as int));
            }
            out
        },
        SettingValue::Fraction(s) => s.clone(),
        SettingValue::Bool(b) => {
            if *b {
                "true".to_owned()
            } else {
                "false".to_owned()
            }
        },
        SettingValue::Other(s) => s.clone(),
    }
}

/// A setting and its value.
#[derive(Debug, Clone)]
pub struct Setting {
    pub key: String,
    pub value: SettingValue,
}

/// What is stored of settings: the text of each.
pub open spec fn stored_texts(v: Seq<Setting>) -> Seq<(Seq<char>, Seq<char>)> {
    v.map_values(|s: Setting| (s.key@, setting_text(s.value)))
}

/// The places of the settings that also go to the configuration file: those that stand there, if
/// they are texts, numbers or truth values.
pub open spec fn file_places(v: Seq<Setting>) -> Seq<usize>
    decreases v.len(),
{
    if v.len() == 0 {
        Seq::<usize>::empty()
    } else if in_config_file(v.last().key@) && !(v.last().value is Other) {
        file_places(v.drop_last()).push((v.len() - 1) as usize)
    } else {
        file_places(v.drop_last())
    }
}

/// What a change of the settings comes to: the keys and texts to be stored, and the places of the
/// settings that go to the configuration file as well.
pub fn set_admin_settings(v: &Vec<Setting>) -> (r: (Vec<(String, String)>, Vec<usize>))
    ensures
        r.0@.map_values(|p: (String, String)| (p.0@, p.1@)) == stored_texts(v@),
        r.1@ == file_places(v@),
{
    let mut texts_out: Vec<(String, String)> = Vec::new();
    let mut places: Vec<usize> = Vec::new();
    let mut i: usize = 0;
    proof {
        assert(v@.take(0) =~= Seq::<Setting>::empty());
        assert(texts_out@.map_values(|p: (String, String)| (p.0@, p.1@)) =~= stored_texts(v@.take(0)));
        assert(places@ =~= file_places(v@.take(0)));
    }
    while i < v.len()
        invariant
            i <= v@.len(),
            texts_out@.map_values(|p: (String, String)| (p.0@, p.1@)) == stored_texts(
                v@.take(i as int),
            ),
            places@ == file_places(v@.take(i as int)),
        decreases v@.len() - i,
    {
        proof {
            assert(v@.take(i + 1).drop_last() =~= v@.take(i as int));
            assert(v@.take(i + 1).last() == v@[i as int]);
        }
        let ghost before = texts_out@.map_values(|p: (String, String)| (p.0@, p.1@));
        let text = stored_setting(&v[i].value);
        texts_out.push((v[i].key.clone(), text));
        proof {
            assert(texts_out@.map_values(|p: (String, String)| (p.0@, p.1@)) =~= before.push(
                (v@[i as int].key@, setting_text(v@[i as int].value)),
            ));
            assert(stored_texts(v@.take(i + 1)) =~= stored_texts(v@.take(i as int)).push(
                (v@[i as int].key@, setting_text(v@[i as int].value)),
            ));
        }
        let plain = match &v[i].value {
            SettingValue::Other(_) => false,
            _ => true,
        };
        if is_config_key(v[i].key.as_str()) && plain {
            places.push(i);
        }
        i = i + 1;
    }
    proof {
        assert(v@.take(i as int) =~= v@);
    }
    (texts_out, places)
}

/// What stands in the way of packing a directory.
pub open spec fn zip_barrier(
    user: Option<UserView>,
    path: Option<Seq<Seq<char>>>,
    is_dir: bool,
) -> Option<HttpView> {
    if user is None {
        Some(error_view(401, "未登录或会话已"@))
    } else if !allowed(user->0, "read"@) {
        Some(error_view(403, "无读取权限"@))
    } else if path is None {
        Some(error_view(403, "路径非法"@))
    } else if !is_dir {
        Some(error_view(400, "不是目录"@))
    } else {
        None
    }
}

/// May a directory be packed and sent? The account is that of the session in the query, and must be
/// allowed to read.
pub fn download_zip(user: &Option<User>, path: &Option<Vec<String>>, is_dir: bool) -> (r: Result<
    (),
    HttpReply,
>)
    ensures
        match r {
            Ok(_) => zip_barrier(user_of(*user), path_of(*path), is_dir) is None,
            Err(e) => zip_barrier(user_of(*user), path_of(*path), is_dir) == Some(e@),
        },
{
    match user {
        None => {
            return Err(err_json(401, "未登录或会话已"));
        },
        Some(u) => {
            if !u.can_read() {
                return Err(err_json(403, "无读取权限"));
            }
        },
    }
    if path.is_none() {
        return Err(err_json(403, "路径非法"));
    }
    if !is_dir {
        return Err(err_json(400, "不是目录"));
    }
    Ok(())
}

/// The name of a packed directory.
pub fn zip_name(dir_name: &Option<String>, fallback: &str) -> (r: String)
    ensures
        r@ == match text_of(*dir_name) {
            Some(n) => n + ".zip"@,
            None => fallback@ + ".zip"@,
        },
{
    let mut out = match dir_name {
        Some(n) => n.clone(),
        None => fallback.to_owned(),
    };
    out.append(".zip");
    out
}

/// What stands in the way of sharing a path.
pub open spec fn share_barrier(user: Option<UserView>, path: Option<Seq<Seq<char>>>) -> Option<
    HttpView,
> {
    match user {
        None => Some(error_view(401, "未登录或会话已"@)),
        Some(u) => if !allowed(u, "share"@) {
            Some(error_view(403, "无分享权限"@))
        } else if path is None {
            Some(error_view(403, "路径非法"@))
        } else {
            None
        },
    }
}

/// May a path be shared?
pub fn create_share(user: Option<User>, path: &Option<Vec<String>>) -> (r: Result<User, HttpReply>)
    ensures
        match r {
            Ok(u) => share_barrier(user_of(user), path_of(*path)) is None && user == Some(u),
            Err(e) => share_barrier(user_of(user), path_of(*path)) == Some(e@),
        },
{
    let u = require_auth(user)?;
    if !u.can_share() {
        return Err(err_json(403, "无分享权限"));
    }
    if path.is_none() {
        return Err(err_json(403, "路径非法"));
    }
    Ok(u)
}

/// Answers a new share link with its token and its address.
pub fn finish_create_share(actor: &User, path: &str, token: &str) -> (r: (HttpReply, Audit))
    ensures
        r.0@ == (HttpView {
            status: 200,
            body: "{\"ok\":true,\"token\":\""@ + token@ + "\",\"url\":\"/s/"@ + token@ + "\"}"@,
        }),
        r.1@ == (AuditView {
            user_id: Some(actor.id),
            username: actor.username@,
            action: "create_share"@,
            path: Some(path@),
            detail: Some("token: "@ + token@),
        }),
{
    let mut body: String = "{\"ok\":true,\"token\":\"".to_owned();
    body.append(token);
    body.append("\",\"url\":\"/s/");
    body.append(token);
    body.append("\"}");
    let mut detail: String = "token: ".to_owned();
    detail.append(token);
    let audit = Audit {
        user_id: Some(actor.id),
        username: actor.username.clone(),
        action: "create_share".to_owned(),
        path: Some(path.to_owned()),
        detail: Some(detail),
    };
    (HttpReply { status: 200, body }, audit)
}

/// A share link as it is listed.
#[derive(Debug, Clone)]
pub struct ShareItem {
    pub token: String,
    pub path: String,
    pub expires_at: Option<String>,
    pub download_count: i64,
}

/// A share link as JSON. The texts stand there as they are.
pub open spec fn share_json(s: ShareItem) -> Seq<char> {
    "{\"token\":\""@ + s.token@ + "\",\"path\":\""@ + s.path@ + "\",\"url\":\"/s/"@ + s.token@
        + "\""@ + (match text_of(s.expires_at) {
        Some(e) => ",\"expires_at\":\""@ + e + "\""@,
        None => Seq::<char>::empty(),
    }) + ",\"download_count\":"@ + signed(s.download_count as int) + "}"@
}

fn push_share(out: &mut String, s: &ShareItem)
    ensures
        final(out)@ == old(out)@ + share_json(*s),
{
    let ghost start = out@;
    out.append("{\"token\":\"");
    out.append(s.token.as_str());
    out.append("\",\"path\":\"");
    out.append(s.path.as_str());
    out.append("\",\"url\":\"/s/");
    out.append(s.token.as_str());
    out.append("\"");
    match &s.expires_at {
        Some(e) => {
            out.append(",\"expires_at\":\"");
            out.append(e.as_str());
            out.append("\"");
        },
        None => {},
    }
    out.append(",\"download_count\":");
    push_signed(out, s.download_count);
    out.append("}");
    proof {
        assert(out@ =~= start + share_json(*s));
    }
}

/// The share links as JSON, with commas between them.
pub open spec fn shares_json(v: Seq<ShareItem>) -> Seq<char>
    decreases v.len(),
{
    if v.len() == 0 {
        Seq::<char>::empty()
    } else if v.len() == 1 {
        share_json(v[0])
    } else {
        shares_json(v.drop_last()) + ","@ + share_json(v.last())
    }
}

/// The list of an account's share links.
pub fn list_shares(v: &Vec<ShareItem>) -> (r: String)
    ensures
        r@ == "{\"shares\":["@ + shares_json(v@) + "]}"@,
{
    let mut out: String = "{\"shares\":[".to_owned();
    let mut i: usize = 0;
    proof {
        assert(v@.take(0) =~= Seq::<ShareItem>::empty());
        assert(out@ =~= "{\"shares\":["@ + shares_json(v@.take(0)));
    }
    while i < v.len()
        invariant
            i <= v@.len(),
            out@ == "{\"shares\":["@ + shares_json(v@.take(i as int)),
        decreases v@.len() - i,
    {
        if i > 0 {
            out.append(",");
        }
        push_share(&mut out, &v[i]);
        proof {
            assert(v@.take(i + 1).drop_last() =~= v@.take(i as int));
            assert(v@.take(i + 1).last() == v@[i as int]);
            assert(out@ =~= "{\"shares\":["@ + shares_json(v@.take(i + 1)));
        }
        i = i + 1;
    }
    proof {
        assert(v@.take(v@.len() as int) =~= v@);
    }
    out.append("]}");
    out
}

/// May a share link be deleted? Administrators delete any, everybody else only their own, whether or
/// not it still opens. `row` is what the database holds under the token; where it holds nothing,
/// there is nothing to refuse.
pub fn delete_share(user: Option<User>, row: &Option<ShareRow>) -> (r: Result<(), HttpReply>)
    ensures
        match r {
            Ok(_) => user is Some && (user->0@.role == "admin"@ || row is None || row->0.user_id
                == user->0.id),
            Err(e) => if user is None {
                e@ == error_view(401, "未登录或会话已"@)
            } else {
                user->0@.role != "admin"@ && row is Some && row->0.user_id != user->0.id && e@
                    == error_view(403, "无权删除此分享链接"@)
            },
        },
{
    let u = require_auth(user)?;
    if !u.is_admin() {
        if let Some(share) = row {
            if share.user_id != u.id {
                return Err(err_json(403, "无权删除此分享链接"));
            }
        }
    }
    Ok(())
}

/// What comes of a visit to a share link.
#[derive(Debug)]
pub enum ShareStep {
    /// The link does not open: a page says so.
    Invalid,
    /// The account behind the link is gone.
    Broken,
    /// The path of the link leaves the account's directory.
    Forbidden,
    /// The visit counts as a download, and is recorded.
    Serve(Audit),
}

/// What comes of a visit to a share link. `grant` is what the link opens, `owner` the account
/// behind it, and `path` what the sandbox lets through.
pub fn access_share(
    token: &str,
    grant: &Option<(i64, String)>,
    owner: &Option<User>,
    path: &Option<Vec<String>>,
) -> (r: ShareStep)
    ensures
        grant is None <==> r is Invalid,
        grant is Some && owner is None <==> r is Broken,
        grant is Some && owner is Some && path is None <==> r is Forbidden,
        grant is Some && owner is Some && path is Some ==> (r matches ShareStep::Serve(a) && a@ == (
        AuditView {
            user_id: Some((grant->0).0),
            username: owner->0.username@,
            action: "share_access"@,
            path: Some((grant->0).1@),
            detail: Some("token: "@ + token@),
        })),
{
    match grant {
        None => ShareStep::Invalid,
        Some(g) => match owner {
            None => ShareStep::Broken,
            Some(u) => {
                if path.is_none() {
                    return ShareStep::Forbidden;
                }
                let mut detail: String = "token: ".to_owned();
                detail.append(token);
                ShareStep::Serve(
                    Audit {
                        user_id: Some(g.0),
                        username: u.username.clone(),
                        action: "share_access".to_owned(),
                        path: Some(g.1.clone()),
                        detail: Some(detail),
                    },
                )
            },
        },
    }
}

/// The page for a link that does not open.
pub const INVALID_LINK_PAGE: &'static str = "<!DOCTYPE html><html><head><meta charset=\"utf-8\"><title>链接无效</title>\n<style>body{font-family:system-ui;display:flex;align-items:center;justify-content:center;height:100vh;margin:0;background:#0a1120;color:#e8eef9}\n.box{text-align:center}.big{font-size:64px}h2{margin:16px 0 8px}p{color:#7e91ad}</style></head>\n<body><div class=\"box\"><div class=\"big\">🔗</div><h2>链接无效或已过期</h2><p>请联系分享者重新生成链接</p></div></body></html>";

/// The number of audit entries that are asked for, one hundred where the query does not say.
pub fn audit_limit(limit: &Option<String>) -> (r: i64)
    ensures
        r == match text_of(*limit) {
            Some(t) => match signed_in(t) {
                Some(n) => n,
                None => 100,
            },
            None => 100,
        },
{
    match limit {
        Some(t) => match parse_signed(t.as_str()) {
            Some(n) => n,
            None => 100,
        },
        None => 100,
    }
}

/// A text with a backslash before every quotation mark.
pub open spec fn quoted(s: Seq<char>) -> Seq<char> {
    substituted(s, '"', "\\\""@)
}

/// A member of a JSON object that stands there only if it has a value.
pub open spec fn member(name: Seq<char>, value: Option<Seq<char>>) -> Seq<char> {
    match value {
        Some(v) => ",\""@ + name + "\":\""@ + v + "\""@,
        None => Seq::<char>::empty(),
    }
}

/// An optional number as it is shown.
pub open spec fn shown_id(id: Option<i64>) -> Seq<char> {
    match id {
        Some(n) => "Some("@ + signed(n as int) + ")"@,
        None => "None"@,
    }
}

pub open spec fn quoted_of(o: Option<String>) -> Option<Seq<char>> {
    match o {
        Some(s) => Some(quoted(s@)),
        None => None,
    }
}

/// Who and what, of an audit entry as JSON.
pub open spec fn audit_head(l: AuditLogEntry) -> Seq<char> {
    "{\"id\":"@ + signed(l.id as int) + ",\"user_id\":"@ + shown_id(l.user_id) + ",\"username\":"@
        + (match l.username {
        Some(u) => "\""@ + quoted(u@) + "\""@,
        None => "null"@,
    }) + ",\"action\":\""@ + l.action@ + "\""@
}

/// Where, how and when, of an audit entry as JSON.
pub open spec fn audit_tail(l: AuditLogEntry) -> Seq<char> {
    member("path"@, quoted_of(l.path)) + member("detail"@, quoted_of(l.detail)) + member(
        "ip"@,
        text_of(l.ip),
    ) + ",\"created_at\":\""@ + l.created_at@ + "\"}"@
}

/// An audit entry as JSON. Quotation marks are escaped in the name, the path and the remark.
pub open spec fn audit_json(l: AuditLogEntry) -> Seq<char> {
    audit_head(l) + audit_tail(l)
}

fn push_member(out: &mut String, name: &str, value: &Option<String>)
    ensures
        final(out)@ == old(out)@ + member(name@, text_of(*value)),
{
    let ghost start = out@;
    match value {
        Some(v) => {
            out.append(",\"");
            out.append(name);
            out.append("\":\"");
            out.append(v.as_str());
            out.append("\"");
        },
        None => {},
    }
    proof {
        assert(out@ =~= start + member(name@, text_of(*value)));
    }
}

fn quote(o: &Option<String>) -> (r: Option<String>)
    ensures
        text_of(r) == quoted_of(*o),
{
    match o {
        Some(s) => Some(substitute(s.as_str(), '"', "\\\"")),
        None => None,
    }
}

fn push_id(out: &mut String, id: Option<i64>)
    ensures
        final(out)@ == old(out)@ + shown_id(id),
{
    let ghost start = out@;
    match id {
        Some(n) => {
            out.append("Some(");
            push_signed(out, n);
            out.append(")");
        },
        None => out.append("None"),
    }
    proof {
        assert(out@ =~= start + shown_id(id));
    }
}

fn push_audit_head(out: &mut String, l: &AuditLogEntry)
    ensures
        final(out)@ == old(out)@ + audit_head(*l),
{
    let ghost start = out@;
    out.append("{\"id\":");
    push_signed(out, l.id);
    out.append(",\"user_id\":");
    push_id(out, l.user_id);
    out.append(",\"username\":");
    match &l.username {
        Some(u) => {
            out.append("\"");
            out.append(substitute(u.as_str(), '"', "\\\"").as_str());
            out.append("\"");
        },
        None => out.append("null"),
    }
    out.append(",\"action\":\"");
    out.append(l.action.as_str());
    out.append("\"");
    proof {
        assert(out@ =~= start + audit_head(*l));
    }
}

fn push_audit(out: &mut String, l: &AuditLogEntry)
    ensures
        final(out)@ == old(out)@ + audit_json(*l),
{
    let ghost start = out@;
    push_audit_head(out, l);
    push_member(out, "path", &quote(&l.path));
    push_member(out, "detail", &quote(&l.detail));
    push_member(out, "ip", &l.ip);
    out.append(",\"created_at\":\"");
    out.append(l.created_at.as_str());
    out.append("\"}");
    proof {
        assert(out@ =~= start + (audit_head(*l) + audit_tail(*l)));
    }
}

/// The audit entries as JSON, with commas between them.
pub open spec fn audits_json(v: Seq<AuditLogEntry>) -> Seq<char>
    decreases v.len(),
{
    if v.len() == 0 {
        Seq::<char>::empty()
    } else if v.len() == 1 {
        audit_json(v[0])
    } else {
        audits_json(v.drop_last()) + ","@ + audit_json(v.last())
    }
}

/// The audit log as it is sent to an administrator.
pub fn get_audit_logs(v: &Vec<AuditLogEntry>) -> (r: String)
    ensures
        r@ == "{\"logs\":["@ + audits_json(v@) + "]}"@,
{
    let mut out: String = "{\"logs\":[".to_owned();
    let mut i: usize = 0;
    proof {
        assert(v@.take(0) =~= Seq::<AuditLogEntry>::empty());
        assert(out@ =~= "{\"logs\":["@ + audits_json(v@.take(0)));
    }
    while i < v.len()
        invariant
            i <= v@.len(),
            out@ == "{\"logs\":["@ + audits_json(v@.take(i as int)),
        decreases v@.len() - i,
    {
        if i > 0 {
            out.append(",");
        }
        push_audit(&mut out, &v[i]);
        proof {
            assert(v@.take(i + 1).drop_last() =~= v@.take(i as int));
            assert(v@.take(i + 1).last() == v@[i as int]);
            assert(out@ =~= "{\"logs\":["@ + audits_json(v@.take(i + 1)));
        }
        i = i + 1;
    }
    proof {
        assert(v@.take(v@.len() as int) =~= v@);
    }
    out.append("]}");
    out
}

/// While a name is locked, no password lets anybody in under it.
pub proof fn law_locked_means_refused(
    simple: bool,
    remain_secs: u64,
    username: Seq<char>,
    found: Option<UserView>,
)
    ensures
        login_outcome(simple, true, remain_secs, username, found) is Refuse,
{
}

/// Simple mode and account mode exclude each other: in simple mode nobody but an administrator
/// logs in with a password, and in account mode the PIN opens nothing by itself.
pub proof fn law_modes_exclude_each_other(
    locked: bool,
    remain_secs: u64,
    username: Seq<char>,
    found: Option<UserView>,
    pin: Seq<char>,
    session: Option<UserView>,
)
    ensures
        login_outcome(true, locked, remain_secs, username, found) matches LoginView::Accept(u)
            ==> u.role == "admin"@,
        bearer_user(Some(pin), true, pin, session) == Some(pin_account()),
        bearer_user(Some(pin), false, pin, session) == session,
{
}

/// The accounts as an administrator sees them.
pub fn list_users(user: Option<User>, users: Vec<User>) -> (r: Result<Vec<UserResp>, HttpReply>)
    ensures
        match r {
            Ok(v) => login_barrier(user_of(user), true) is None && v@.len() == users@.len()
                && forall|i: int|
                0 <= i < users@.len() ==> #[trigger] v@[i] == UserResp::from_spec_of(users@[i]),
            Err(e) => login_barrier(user_of(user), true) == Some(e@),
        },
{
    let _admin = require_admin(user)?;
    let mut out: Vec<UserResp> = Vec::new();
    for u in it: users
        invariant
            out@.len() == it.index(),
            it.seq() == users@,
            forall|i: int|
                0 <= i < it.index() ==> #[trigger] out@[i] == UserResp::from_spec_of(users@[i]),
    {
        out.push(UserResp::from(u));
    }
    Ok(out)
}

/// May an account be deleted? Only by an administrator, and never the last administrator.
pub fn delete_user(user: Option<User>, is_admin: bool, admin_count: i64) -> (r: Result<
    User,
    HttpReply,
>)
    ensures
        match r {
            Ok(u) => login_barrier(user_of(user), true) is None && user == Some(u) && !(is_admin
                && admin_count <= 1),
            Err(e) => if login_barrier(user_of(user), true) is Some {
                login_barrier(user_of(user), true) == Some(e@)
            } else {
                is_admin && admin_count <= 1 && e@ == error_view(
                    400,
                    "不能删除最后一个管理员"@,
                )
            },
        },
{
    let u = require_admin(user)?;
    match crate::db::delete_user(is_admin, admin_count) {
        Ok(_) => Ok(u),
        Err(e) => Err(err_json(400, e.as_str())),
    }
}

/// What a share link serves.
#[derive(Debug)]
pub enum ShareFile {
    /// The directory, packed, under this name.
    Packed(String),
    /// The file, under this name.
    Single(String),
    Nothing,
}

/// What a share link serves: a directory is packed, a file is sent as it is.
pub fn share_file(is_dir: bool, is_file: bool, name: &Option<String>) -> (r: ShareFile)
    ensures
        if is_dir {
            r matches ShareFile::Packed(n) && n@ == (match text_of(*name) {
                Some(x) => x,
                None => "share"@,
            }) + ".zip"@
        } else if is_file {
            r matches ShareFile::Single(n) && n@ == match text_of(*name) {
                Some(x) => x,
                None => "download"@,
            }
        } else {
            r is Nothing
        },
{
    if is_dir {
        ShareFile::Packed(zip_name(name, "share"))
    } else if is_file {
        match name {
            Some(n) => ShareFile::Single(n.clone()),
            None => ShareFile::Single("download".to_owned()),
        }
    } else {
        ShareFile::Nothing
    }
}

/// The name of an entry in a packed directory: its path from the directory above the packed one
/// on, with slashes; that of a directory ends with one.
pub open spec fn packed_name(
    base: Seq<Seq<char>>,
    path: Seq<Seq<char>>,
    is_dir: bool,
) -> Seq<char> {
    let rel = if crate::paths::within(base, path) {
        path.skip(base.len() as int)
    } else {
        path
    };
    replaced(joined(rel, '/'), '\\', '/') + if is_dir {
        "/"@
    } else {
        Seq::<char>::empty()
    }
}

/// The name of an entry in a packed directory.
pub fn zip_entry_name(base: &Vec<String>, path: &Vec<String>, is_dir: bool) -> (r: String)
    ensures
        r@ == packed_name(texts(base@), texts(path@), is_dir),
{
    let rel = if starts_within(base, path) {
        join(&path_behind(base, path), '/')
    } else {
        join(path, '/')
    };
    let mut out = replace_char(rel.as_str(), '\\', '/');
    let ghost before = out@;
    if is_dir {
        out.append("/");
    } else {
        proof {
            assert(before + Seq::<char>::empty() =~= before);
        }
    }
    out
}

/// A bearer token is what follows the word in the header, as it stands.
pub proof fn law_bearer_tokens(t: Seq<char>)
    ensures
        bearer(Some("Bearer "@ + t)) == Some(t),
        bearer(None) is None,
        !"Bearer "@.is_prefix_of(t) ==> bearer(Some(t)) is None,
{
    let p = "Bearer "@;
    let h = p + t;
    assert(h.subrange(0, p.len() as int) =~= p);
    assert(h.skip(p.len() as int) =~= t);
}

/// A token that is not the PIN stands for the account of its session, in both modes, and without a
/// token nobody is logged in.
pub proof fn law_tokens_stand_for_their_session(
    t: Seq<char>,
    simple: bool,
    pin: Seq<char>,
    session: Option<UserView>,
)
    ensures
        bearer_user(None, simple, pin, session) is None,
        t != pin ==> bearer_user(Some(t), simple, pin, session) == session,
        simple_mode(None),
        simple_mode(Some("true"@)) && !simple_mode(Some("false"@)),
{
    reveal_strlit("true");
    reveal_strlit("false");
    assert("true"@.len() == 4 && "false"@.len() == 5);
}

/// A request that needs a login goes through for everybody who is logged in, and one that needs an
/// administrator for administrators alone.
pub proof fn law_who_gets_through(user: Option<UserView>)
    ensures
        login_barrier(user, false) is None <==> user is Some,
        login_barrier(user, true) is None <==> user is Some && user->0.role == "admin"@,
        user is None ==> login_barrier(user, false)->0.status == 401 && login_barrier(
            user,
            true,
        )->0.status == 401,
        user is Some && user->0.role != "admin"@ ==> login_barrier(user, true)->0.status == 403,
        forall|r: WebRequest| #[trigger]
            needs_admin(r) <==> r == WebRequest::UpdateUser || r == WebRequest::GetAdminSettings || r
                == WebRequest::SetAdminSettings || r == WebRequest::RestartServer || r
                == WebRequest::GetAuditLogs,
{
}

/// A password is accepted if it has at least eight characters and at least two of capital letters,
/// small letters and digits, and only then.
pub proof fn law_good_passwords(p: Seq<char>, i: int, j: int)
    requires
        0 <= i < p.len(),
        0 <= j < p.len(),
    ensures
        p.len() < 8 ==> password_fault(p) is Some,
        p.len() >= 8 && 'A' <= p[i] <= 'Z' && ('a' <= p[j] <= 'z' || '0' <= p[j] <= '9')
            ==> password_fault(p) is None,
        p.len() >= 8 && 'a' <= p[i] <= 'z' && '0' <= p[j] <= '9' ==> password_fault(p) is None,
        (forall|k: int| 0 <= k < p.len() ==> !('A' <= #[trigger] p[k] <= 'Z' || 'a' <= p[k] <= 'z'))
            ==> password_fault(p) is Some,
        (forall|k: int| 0 <= k < p.len() ==> !('A' <= #[trigger] p[k] <= 'Z' || '0' <= p[k] <= '9'))
            ==> password_fault(p) is Some,
        (forall|k: int| 0 <= k < p.len() ==> !('a' <= #[trigger] p[k] <= 'z' || '0' <= p[k] <= '9'))
            ==> password_fault(p) is Some,
{
    if 'A' <= p[i] <= 'Z' {
        assert(holds_between(p, 'A', 'Z'));
    }
    if 'a' <= p[i] <= 'z' {
        assert(holds_between(p, 'a', 'z'));
    }
    if 'a' <= p[j] <= 'z' {
        assert(holds_between(p, 'a', 'z'));
    }
    if '0' <= p[j] <= '9' {
        assert(holds_between(p, '0', '9'));
    }
}

/// A login with the right password is accepted, for the account that it belongs to, unless the name
/// is locked or simple mode keeps ordinary users out; a wrong one is told 401, counts as a failure,
/// and stands in the audit log under the name that was tried.
pub proof fn law_logins(simple: bool, remain_secs: u64, username: Seq<char>, u: UserView)
    ensures
        !simple || u.role == "admin"@ ==> login_outcome(
            simple,
            false,
            remain_secs,
            username,
            Some(u),
        ) == LoginView::Accept(u),
        simple && u.role != "admin"@ ==> (login_outcome(
            simple,
            false,
            remain_secs,
            username,
            Some(u),
        ) matches LoginView::Refuse(r) && r.status == 403),
        login_outcome(simple, false, remain_secs, username, None) matches LoginView::Fail(r, a)
            && r.status == 401 && a.username == username && a.user_id is None,
        login_outcome(simple, true, remain_secs, username, Some(u)) matches LoginView::Refuse(r)
            && r.status == 429 && holds_part(r.body, digits(remain_secs as nat)),
{
    let d = digits(remain_secs as nat);
    let a = "登录失败次数过多，请 "@;
    let b = " 秒后重试"@;
    lemma_holds_middle(a, d, b);
    lemma_holds_within("{\"error\":\""@, a + d + b, "\"}"@, d);
}

/// An account is created by an administrator, under a name, with a good password, as an
/// administrator or a user; and in no other case.
pub proof fn law_which_accounts_are_created(user: Option<UserView>, req: CreateUserReq)
    ensures
        create_barrier(user, req) is None <==> {
            &&& user is Some && user->0.role == "admin"@
            &&& req.username@.len() > 0
            &&& password_fault(req.password@) is None
            &&& req.role@ == "admin"@ || req.role@ == "user"@
        },
        user is Some && user->0.role == "admin"@ && create_barrier(user, req) is Some
            ==> create_barrier(user, req)->0.status == 400,
        req.shared_dir is None ==> new_user_dir(req) is None,
        req.shared_dir matches Some(d) ==> if trimmed(d@).len() > 0 {
            new_user_dir(req) == Some(trimmed(d@))
        } else {
            new_user_dir(req) is None
        },
{
}

/// A password is changed by whoever is logged in, and another's by an administrator, if it is good.
pub proof fn law_which_passwords_are_changed(user: Option<UserView>, pwd: Seq<char>)
    ensures
        password_barrier(user, false, pwd) is None <==> user is Some && password_fault(pwd) is None,
        password_barrier(user, true, pwd) is None <==> user is Some && user->0.role == "admin"@
            && password_fault(pwd) is None,
{
}

/// A directory is packed for whoever may read, if it is one inside; a path is shared by whoever may
/// share, if it is inside.
pub proof fn law_what_is_packed_and_shared(
    user: Option<UserView>,
    path: Option<Seq<Seq<char>>>,
    is_dir: bool,
)
    ensures
        zip_barrier(user, path, is_dir) is None <==> user is Some && allowed(user->0, "read"@)
            && path is Some && is_dir,
        share_barrier(user, path) is None <==> user is Some && allowed(user->0, "share"@) && path
            is Some,
{
}

/// The audit log tells the changes to accounts apart, and names the account that was changed.
pub proof fn law_account_changes_leave_their_trace(id: i64, a: AccountOp, b: AccountOp)
    ensures
        signed(id as int).is_suffix_of(account_trace(AccountOp::ResetPassword(id)).1),
        signed(id as int).is_suffix_of(account_trace(AccountOp::DeleteUser(id)).1),
        signed(id as int).is_suffix_of(account_trace(AccountOp::UpdateUser(id)).1),
        account_trace(a).0 == account_trace(b).0 ==> match a {
            AccountOp::ChangePassword => b is ChangePassword,
            AccountOp::ResetPassword(_) => b is ResetPassword,
            AccountOp::DeleteUser(_) => b is DeleteUser,
            AccountOp::UpdateUser(_) => b is UpdateUser,
            AccountOp::UpdateSettings => b is UpdateSettings,
        },
{
    let t = "用户ID: "@ + signed(id as int);
    assert(t.subrange(t.len() - signed(id as int).len(), t.len() as int) =~= signed(id as int));
    reveal_strlit("change_password");
    reveal_strlit("reset_password");
    reveal_strlit("delete_user");
    reveal_strlit("update_user");
    reveal_strlit("update_settings");
    assert("change_password"@.len() == 15 && "reset_password"@.len() == 14 && "delete_user"@.len()
        == 11 && "update_user"@.len() == 11 && "update_settings"@.len() == 15);
    assert("change_password"@[0] == 'c' && "update_settings"@[0] == 'u');
    assert("delete_user"@[0] == 'd' && "update_user"@[0] == 'u');
}

/// Every setting is stored under its key with its value: a text as it is, a number so that it is read
/// back, and yes or no in words.
pub proof fn law_settings_are_stored(v: Seq<Setting>, i: int, n: i64)
    requires
        0 <= i < v.len(),
    ensures
        stored_texts(v).len() == v.len(),
        stored_texts(v)[i].0 == v[i].key@,
        stored_texts(v)[i].1 == setting_text(v[i].value),
        v[i].value matches SettingValue::Text(s) ==> stored_texts(v)[i].1 == s@,
        signed_in(setting_text(SettingValue::Integer(n))) == Some(n as int),
        setting_text(SettingValue::Bool(true)) == "true"@,
        setting_text(SettingValue::Bool(false)) == "false"@,
{
    crate::text::law_signed_round_trip(n as int);
}

/// The configuration file takes exactly the settings that it holds, as far as they are plain values.
pub proof fn law_which_settings_go_to_the_file(v: Seq<Setting>, i: int)
    requires
        0 <= i < v.len() <= usize::MAX,
    ensures
        file_places(v).contains(i as usize) <==> in_config_file(v[i].key@) && !(v[i].value is Other),
    decreases v.len(),
{
    let front = file_places(v.drop_last());
    let all = file_places(v);
    lemma_places_below(v.drop_last());
    if i < v.len() - 1 {
        law_which_settings_go_to_the_file(v.drop_last(), i);
        if front.contains(i as usize) {
            let k = choose|k: int| 0 <= k < front.len() && front[k] == i as usize;
            assert(all[k] == i as usize);
        }
        if all.contains(i as usize) {
            let k = choose|k: int| 0 <= k < all.len() && all[k] == i as usize;
            if k < front.len() {
                assert(front[k] == i as usize);
            }
        }
    } else {
        if in_config_file(v[i].key@) && !(v[i].value is Other) {
            assert(all[all.len() - 1] == i as usize);
        } else if all.contains(i as usize) {
            let k = choose|k: int| 0 <= k < all.len() && all[k] == i as usize;
            assert(front[k] < v.len() - 1);
        }
    }
}

proof fn lemma_places_below(v: Seq<Setting>)
    requires
        v.len() <= usize::MAX,
    ensures
        forall|k: int| 0 <= k < file_places(v).len() ==> #[trigger] file_places(v)[k] < v.len(),
    decreases v.len(),
{
    if v.len() > 0 {
        lemma_places_below(v.drop_last());
        let front = file_places(v.drop_last());
        assert forall|k: int| 0 <= k < file_places(v).len() implies #[trigger] file_places(v)[k]
            < v.len() by {
            if k < front.len() {
                assert(front[k] < v.len() - 1);
            }
        }
    }
}

/// The list of share links tells of each its token, its path, its address and how often it was
/// used.
pub proof fn law_shares_are_listed(v: Seq<ShareItem>, k: int)
    requires
        0 <= k < v.len(),
    ensures
        holds_part(shares_json(v), share_json(v[k])),
        holds_part(share_json(v[k]), v[k].token@),
        holds_part(share_json(v[k]), v[k].path@),
        holds_part(share_json(v[k]), "/s/"@ + v[k].token@),
        holds_part(share_json(v[k]), signed(v[k].download_count as int)),
        v[k].expires_at matches Some(e) ==> holds_part(share_json(v[k]), e@),
    decreases v.len(),
{
    let none = Seq::<char>::empty();
    lemma_share_parts(v[k]);
    if v.len() == 1 {
        lemma_holds_middle(none, share_json(v[0]), none);
        assert(none + share_json(v[0]) + none =~= share_json(v[0]));
    } else {
        let front = shares_json(v.drop_last());
        let last = share_json(v.last());
        if k == v.len() - 1 {
            lemma_holds_middle(front + ","@, last, none);
            assert(front + ","@ + last + none =~= shares_json(v));
        } else {
            law_shares_are_listed(v.drop_last(), k);
            lemma_holds_within(none, front, ","@ + last, share_json(v[k]));
            assert(none + front + (","@ + last) =~= shares_json(v));
        }
    }
}

proof fn lemma_share_parts(s: ShareItem)
    ensures
        holds_part(share_json(s), s.token@),
        holds_part(share_json(s), s.path@),
        holds_part(share_json(s), "/s/"@ + s.token@),
        holds_part(share_json(s), signed(s.download_count as int)),
        s.expires_at matches Some(e) ==> holds_part(share_json(s), e@),
{
    let a = "{\"token\":\""@;
    let b = "\",\"path\":\""@;
    let c = "\",\"url\":\"/s/"@;
    let end = match text_of(s.expires_at) {
        Some(e) => ",\"expires_at\":\""@ + e + "\""@,
        None => Seq::<char>::empty(),
    };
    let q = "\""@;
    let d = ",\"download_count\":"@;
    let n = signed(s.download_count as int);
    let x = share_json(s);
    lemma_share_tag();
    lemma_holds_middle(a, s.token@, b + s.path@ + c + s.token@ + q + end + d + n + "}"@);
    assert(a + s.token@ + (b + s.path@ + c + s.token@ + q + end + d + n + "}"@) =~= x);
    lemma_holds_middle(a + s.token@ + b, s.path@, c + s.token@ + q + end + d + n + "}"@);
    assert(a + s.token@ + b + s.path@ + (c + s.token@ + q + end + d + n + "}"@) =~= x);
    let u = "/s/"@ + s.token@;
    let pre = a + s.token@ + b + s.path@ + c.take(c.len() - 3);
    lemma_holds_middle(pre, u, q + end + d + n + "}"@);
    assert(pre + u + (q + end + d + n + "}"@) =~= x);
    lemma_holds_middle(a + s.token@ + b + s.path@ + c + s.token@ + q + end + d, n, "}"@);
    if let Some(e) = s.expires_at {
        let o = ",\"expires_at\":\""@;
        let pre = a + s.token@ + b + s.path@ + c + s.token@ + q + o;
        lemma_holds_middle(pre, e@, q + d + n + "}"@);
        assert(pre + e@ + (q + d + n + "}"@) =~= x);
    }
}

proof fn lemma_share_tag()
    ensures
        ({
            let c = "\",\"url\":\"/s/"@;
            c.len() >= 3 && c == c.take(c.len() - 3) + "/s/"@
        }),
{
    reveal_strlit("\",\"url\":\"/s/");
    reveal_strlit("/s/");
    let c = "\",\"url\":\"/s/"@;
    assert(c =~= c.take(c.len() - 3) + "/s/"@);
}

/// Every entry of the audit log is sent, with its action and its time.
pub proof fn law_audit_log_is_sent(v: Seq<AuditLogEntry>, k: int)
    requires
        0 <= k < v.len(),
    ensures
        holds_part(audits_json(v), audit_json(v[k])),
        holds_part(audit_json(v[k]), signed(v[k].id as int)),
        holds_part(audit_json(v[k]), v[k].action@),
        holds_part(audit_json(v[k]), v[k].created_at@),
        v[k].path matches Some(p) ==> holds_part(audit_json(v[k]), quoted(p@)),
        v[k].detail matches Some(d) ==> holds_part(audit_json(v[k]), quoted(d@)),
        v[k].username matches Some(u) ==> holds_part(audit_json(v[k]), quoted(u@)),
    decreases v.len(),
{
    let none = Seq::<char>::empty();
    lemma_audit_head_parts(v[k]);
    lemma_audit_tail_parts(v[k]);
    if v.len() == 1 {
        lemma_holds_middle(none, audit_json(v[0]), none);
        assert(none + audit_json(v[0]) + none =~= audit_json(v[0]));
    } else {
        let front = audits_json(v.drop_last());
        let last = audit_json(v.last());
        if k == v.len() - 1 {
            lemma_holds_middle(front + ","@, last, none);
            assert(front + ","@ + last + none =~= audits_json(v));
        } else {
            law_audit_log_is_sent(v.drop_last(), k);
            lemma_holds_within(none, front, ","@ + last, audit_json(v[k]));
            assert(none + front + (","@ + last) =~= audits_json(v));
        }
    }
}

proof fn lemma_audit_head_parts(l: AuditLogEntry)
    ensures
        holds_part(audit_json(l), signed(l.id as int)),
        holds_part(audit_json(l), l.action@),
        l.username matches Some(u) ==> holds_part(audit_json(l), quoted(u@)),
{
    let none = Seq::<char>::empty();
    let h = audit_head(l);
    let t = audit_tail(l);
    let a = "{\"id\":"@;
    let b = ",\"user_id\":"@;
    let c = ",\"username\":"@;
    let d = ",\"action\":\""@;
    let q = "\""@;
    let who = match l.username {
        Some(u) => q + quoted(u@) + q,
        None => "null"@,
    };
    let id = signed(l.id as int);
    let uid = shown_id(l.user_id);
    lemma_holds_middle(a, id, b + uid + c + who + d + l.action@ + q);
    assert(a + id + (b + uid + c + who + d + l.action@ + q) =~= h);
    lemma_holds_middle(a + id + b + uid + c + who + d, l.action@, q);
    lemma_holds_within(none, h, t, id);
    lemma_holds_within(none, h, t, l.action@);
    assert(none + h + t =~= audit_json(l));
    if let Some(u) = l.username {
        lemma_holds_middle(a + id + b + uid + c + q, quoted(u@), q + d + l.action@ + q);
        assert(a + id + b + uid + c + q + quoted(u@) + (q + d + l.action@ + q) =~= h);
        lemma_holds_within(none, h, t, quoted(u@));
    }
}

proof fn lemma_audit_tail_parts(l: AuditLogEntry)
    ensures
        holds_part(audit_json(l), l.created_at@),
        l.path matches Some(p) ==> holds_part(audit_json(l), quoted(p@)),
        l.detail matches Some(d) ==> holds_part(audit_json(l), quoted(d@)),
{
    let none = Seq::<char>::empty();
    let h = audit_head(l);
    let t = audit_tail(l);
    let p = member("path"@, quoted_of(l.path));
    let d = member("detail"@, quoted_of(l.detail));
    let i = member("ip"@, text_of(l.ip));
    let c = ",\"created_at\":\""@;
    let e = "\"}"@;
    lemma_holds_middle(p + d + i + c, l.created_at@, e);
    lemma_holds_within(h, t, none, l.created_at@);
    assert(h + t + none =~= audit_json(l));
    if let Some(x) = l.path {
        lemma_member("path"@, quoted(x@));
        lemma_holds_within(none, p, d + i + c + l.created_at@ + e, quoted(x@));
        assert(none + p + (d + i + c + l.created_at@ + e) =~= t);
        lemma_holds_within(h, t, none, quoted(x@));
    }
    if let Some(x) = l.detail {
        lemma_member("detail"@, quoted(x@));
        lemma_holds_within(p, d, i + c + l.created_at@ + e, quoted(x@));
        assert(p + d + (i + c + l.created_at@ + e) =~= t);
        lemma_holds_within(h, t, none, quoted(x@));
    }
}

proof fn lemma_member(name: Seq<char>, value: Seq<char>)
    ensures
        holds_part(member(name, Some(value)), value),
{
    lemma_holds_middle(",\""@ + name + "\":\""@, value, "\""@);
}

/// An entry of a packed directory has its path below the directory that is packed from; directories
/// end with a slash.
pub proof fn law_names_of_packed_entries(base: Seq<Seq<char>>, name: Seq<char>)
    requires
        !name.contains('\\'),
    ensures
        packed_name(base, base.push(name), false) == name,
        packed_name(base, base.push(name), true) == name.push('/'),
{
    let p = base.push(name);
    assert(p.subrange(0, base.len() as int) =~= base);
    assert(p.skip(base.len() as int) =~= seq![name]);
    assert forall|i: int| 0 <= i < name.len() implies replaced(name, '\\', '/')[i] == name[i] by {
        assert(name.contains(name[i]));
    }
    assert(replaced(name, '\\', '/') =~= name);
    reveal_strlit("/");
    assert(name + Seq::<char>::empty() =~= name);
    assert(name + "/"@ =~= name.push('/'));
}

} // verus!
