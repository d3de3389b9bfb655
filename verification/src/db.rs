//! Accounts, permissions, share links and the audit log: the rules over the rows of the database.
use vstd::prelude::*;
use crate::clock::{
    format_moment, later, moment_in, moment_text, parse_moment, EXPIRY_FORMAT, LAST_COMMON_SECOND,
};
use crate::text::{
    joined, law_join_split, list_has, list_holds, str_eq, text_of, trim_end,
    trim_start, trimmed,
};

verus! {

/// The six permissions, in the form in which an account carries them.
pub const ALL_PERMISSIONS: &'static str = "read,write,delete,rename,share,mkdir";

/// An account.
#[derive(Debug, Clone)]
pub struct User {
    pub id: i64,
    pub username: String,
    /// `admin` or `user`.
    pub role: String,
    pub shared_dir: Option<String>,
    pub must_change_password: bool,
    /// Comma-separated: read,write,delete,rename,share,mkdir.
    pub permissions: String,
    /// In MB; 0 means no limit.
    pub quota_mb: i64,
}

/// An account as a mathematical value.
pub struct UserView {
    pub id: i64,
    pub username: Seq<char>,
    pub role: Seq<char>,
    pub shared_dir: Option<Seq<char>>,
    pub must_change_password: bool,
    pub permissions: Seq<char>,
    pub quota_mb: i64,
}

impl View for User {
    type V = UserView;

    open spec fn view(&self) -> UserView {
        UserView {
            id: self.id,
            username: self.username@,
            role: self.role@,
            shared_dir: text_of(self.shared_dir),
            must_change_password: self.must_change_password,
            permissions: self.permissions@,
            quota_mb: self.quota_mb,
        }
    }
}

/// The view of an account that may be absent.
pub open spec fn user_of(o: Option<User>) -> Option<UserView> {
    match o {
        Some(u) => Some(u@),
        None => None,
    }
}

/// May the account do what the permission names? An administrator may do everything.
pub open spec fn allowed(u: UserView, perm: Seq<char>) -> bool {
    u.role == "admin"@ || list_holds(u.permissions, perm)
}

impl User {
    /// Has the account the permission? An administrator has all of them.
    pub fn can(&self, perm: &str) -> (r: bool)
        ensures
            r == allowed(self@, perm@),
    {
        if str_eq(self.role.as_str(), "admin") {
            return true;
        }
        list_has(self.permissions.as_str(), perm)
    }

    /// May it list directories and download?
    pub fn can_read(&self) -> (r: bool)
        ensures
            r == allowed(self@, "read"@),
    {
        self.can("read")
    }

    /// May it upload and create files?
    pub fn can_write(&self) -> (r: bool)
        ensures
            r == allowed(self@, "write"@),
    {
        self.can("write")
    }

    /// May it delete?
    pub fn can_delete(&self) -> (r: bool)
        ensures
            r == allowed(self@, "delete"@),
    {
        self.can("delete")
    }

    /// May it rename?
    pub fn can_rename(&self) -> (r: bool)
        ensures
            r == allowed(self@, "rename"@),
    {
        self.can("rename")
    }

    /// May it create share links?
    pub fn can_share(&self) -> (r: bool)
        ensures
            r == allowed(self@, "share"@),
    {
        self.can("share")
    }

    /// May it create directories?
    pub fn can_mkdir(&self) -> (r: bool)
        ensures
            r == allowed(self@, "mkdir"@),
    {
        self.can("mkdir")
    }

    /// Is it an administrator?
    pub fn is_admin(&self) -> (r: bool)
        ensures
            r == (self@.role == "admin"@),
    {
        str_eq(self.role.as_str(), "admin")
    }
}

/// The account that everybody who knows the PIN works under.
pub open spec fn pin_account() -> UserView {
    UserView {
        id: 0,
        username: "share"@,
        role: "user"@,
        shared_dir: None,
        must_change_password: false,
        permissions: ALL_PERMISSIONS@,
        quota_mb: 0,
    }
}

/// The account that everybody who knows the PIN works under.
pub fn share_user() -> (r: User)
    ensures
        r@ == pin_account(),
{
    User {
        id: 0,
        username: "share".to_owned(),
        role: "user".to_owned(),
        shared_dir: None,
        must_change_password: false,
        permissions: ALL_PERMISSIONS.to_owned(),
        quota_mb: 0,
    }
}

/// One entry of the audit log.
#[derive(Debug, Clone)]
pub struct AuditLogEntry {
    pub id: i64,
    pub user_id: Option<i64>,
    pub username: Option<String>,
    pub action: String,
    pub path: Option<String>,
    pub detail: Option<String>,
    pub ip: Option<String>,
    pub created_at: String,
}

/// What is to be written to the audit log.
#[derive(Debug, Clone)]
pub struct Audit {
    pub user_id: Option<i64>,
    pub username: String,
    pub action: String,
    pub path: Option<String>,
    pub detail: Option<String>,
}

/// An audit record as a mathematical value.
pub struct AuditView {
    pub user_id: Option<i64>,
    pub username: Seq<char>,
    pub action: Seq<char>,
    pub path: Option<Seq<char>>,
    pub detail: Option<Seq<char>>,
}

impl View for Audit {
    type V = AuditView;

    open spec fn view(&self) -> AuditView {
        AuditView {
            user_id: self.user_id,
            username: self.username@,
            action: self.action@,
            path: text_of(self.path),
            detail: text_of(self.detail),
        }
    }
}

/// The view of an audit record that may be absent.
pub open spec fn audit_of(o: Option<Audit>) -> Option<AuditView> {
    match o {
        Some(a) => Some(a@),
        None => None,
    }
}

/// The name of what `bcrypt::verify` answers on a password and a hash: nothing where the hash is
/// not one.
pub uninterp spec fn bcrypt_answer(password: Seq<char>, hash: Seq<char>) -> Option<bool>;

/// Calls `bcrypt::verify`, whose answer is a function of the password and the hash.
#[verifier::external_body]
pub(crate) fn bcrypt_verify(password: &str, hash: &str) -> (r: Option<bool>)
    ensures
        r == bcrypt_answer(password@, hash@),
{
    bcrypt::verify(password, hash).ok()
}

/// Calls `bcrypt::hash` with the default cost. The hash holds a random salt, so two calls differ;
/// whatever the salt, `bcrypt::verify` accepts the password with the hash. That a call succeeds is
/// not stated: it needs random bytes from the machine.
#[verifier::external_body]
pub(crate) fn bcrypt_hash(password: &str) -> (r: Result<String, String>)
    ensures
        r matches Ok(h) ==> bcrypt_answer(password@, h@) == Some(true),
{
    bcrypt::hash(password, bcrypt::DEFAULT_COST).map_err(|e| e.to_string())
}

/// Is the password the one that the hash was made of?
pub open spec fn password_fits(password: Seq<char>, hash: Seq<char>) -> bool {
    bcrypt_answer(password, hash) == Some(true)
}

/// The hash to store for a password.
pub fn hash_password(password: &str) -> (r: Result<String, String>)
    ensures
        r matches Ok(h) ==> password_fits(password@, h@),
{
    bcrypt_hash(password)
}

/// The account and password hash that the database holds under a name.
#[derive(Debug, Clone)]
pub struct LoginRow {
    pub user: User,
    pub password_hash: String,
}

/// Whom a password lets in, against the row found under the user's name: the account, if there is
/// a row and the password fits.
pub open spec fn login_of(row: Option<LoginRow>, password: Seq<char>) -> Option<UserView> {
    match row {
        Some(l) => if password_fits(password, l.password_hash@) {
            Some(l.user@)
        } else {
            None
        },
        None => None,
    }
}

/// Checks a password against the row found under the user's name.
pub fn verify_login(row: Option<LoginRow>, password: &str) -> (r: Option<User>)
    ensures
        user_of(r) == login_of(row, password@),
{
    match row {
        Some(l) => {
            let answer = bcrypt_verify(password, l.password_hash.as_str());
            admit_if(l.user, answer)
        },
        None => None,
    }
}

/// Lets an account in if the password check said yes; a hash that cannot be read counts as no.
pub fn admit_if(user: User, answer: Option<bool>) -> (r: Option<User>)
    ensures
        user_of(r) == if answer == Some(true) {
            Some(user@)
        } else {
            None
        },
{
    match answer {
        Some(true) => Some(user),
        _ => None,
    }
}

/// A password whose hash was stored lets its account in, and nobody is let in without a row.
pub proof fn law_stored_password_lets_in(row: LoginRow, password: Seq<char>)
    requires
        password_fits(password, row.password_hash@),
    ensures
        login_of(Some(row), password) == Some(row.user@),
        login_of(None, password) is None,
{
}

/// May a user be deleted? The last administrator may not. `admin_count` is the number of
/// administrators, the user to be deleted among them if `is_admin`.
pub fn delete_user(is_admin: bool, admin_count: i64) -> (r: Result<(), String>)
    ensures
        r is Ok <==> !(is_admin && admin_count <= 1),
        r matches Err(e) ==> e@ == "不能删除最后一个管理员"@,
{
    if is_admin && admin_count <= 1 {
        return Err("不能删除最后一个管理员".to_owned());
    }
    Ok(())
}

/// The number of administrators among the accounts.
pub open spec fn admins(users: Seq<UserView>) -> nat
    decreases users.len(),
{
    if users.len() == 0 {
        0
    } else {
        admins(users.drop_last()) + if users.last().role == "admin"@ {
            1nat
        } else {
            0nat
        }
    }
}

/// Taking one account out changes the number of administrators by that account alone.
proof fn lemma_admins_remove(users: Seq<UserView>, i: int)
    requires
        0 <= i < users.len(),
    ensures
        admins(users.remove(i)) + (if users[i].role == "admin"@ {
            1nat
        } else {
            0nat
        }) == admins(users),
    decreases users.len(),
{
    if i == users.len() - 1 {
        assert(users.remove(i) =~= users.drop_last());
    } else {
        lemma_admins_remove(users.drop_last(), i);
        assert(users.remove(i).drop_last() =~= users.drop_last().remove(i));
        assert(users.remove(i).last() == users.last());
    }
}

/// A share that has an administrator keeps one, whichever user an allowed deletion takes.
pub proof fn law_an_admin_remains(users: Seq<UserView>, i: int)
    requires
        0 <= i < users.len(),
        admins(users) >= 1,
        !(users[i].role == "admin"@ && admins(users) <= 1),
    ensures
        admins(users.remove(i)) >= 1,
{
    lemma_admins_remove(users, i);
}

/// Changes to an account; what is absent stays as it is.
#[derive(Debug, Clone)]
pub struct UserChange {
    pub role: Option<String>,
    pub shared_dir: Option<Option<String>>,
    pub permissions: Option<String>,
    pub quota_mb: Option<i64>,
}

/// The account after the changes.
pub fn update_user(user: User, change: UserChange) -> (r: User)
    ensures
        r@ == (UserView {
            id: user@.id,
            username: user@.username,
            role: if change.role is Some {
                change.role->0@
            } else {
                user@.role
            },
            shared_dir: if change.shared_dir is Some {
                text_of(change.shared_dir->0)
            } else {
                user@.shared_dir
            },
            must_change_password: user@.must_change_password,
            permissions: if change.permissions is Some {
                change.permissions->0@
            } else {
                user@.permissions
            },
            quota_mb: if change.quota_mb is Some {
                change.quota_mb->0
            } else {
                user@.quota_mb
            },
        }),
{
    let role = match change.role {
        Some(v) => v,
        None => user.role,
    };
    let shared_dir = match change.shared_dir {
        Some(v) => v,
        None => user.shared_dir,
    };
    let permissions = match change.permissions {
        Some(v) => v,
        None => user.permissions,
    };
    let quota_mb: i64 = match change.quota_mb {
        Some(v) => v,
        None => user.quota_mb,
    };
    User {
        id: user.id,
        username: user.username,
        role,
        shared_dir,
        must_change_password: user.must_change_password,
        permissions,
        quota_mb,
    }
}

/// A share link as the database holds it.
#[derive(Debug, Clone)]
pub struct ShareRow {
    pub user_id: i64,
    pub path: String,
    pub expires_at: Option<String>,
    pub max_downloads: Option<i64>,
    pub download_count: i64,
}

/// Is the link past its end? An end that cannot be read is none.
pub open spec fn share_expired(expiry: Option<(i64, u32)>, now: (i64, u32)) -> bool {
    expiry is Some && later(now, expiry->0)
}

/// Are the downloads of the link used up?
pub open spec fn share_used_up(max: Option<i64>, count: i64) -> bool {
    max is Some && count >= max->0
}

/// Decides about a share link whose end has been read: whose files it opens, and which path.
pub fn share_grants(row: ShareRow, expiry: Option<(i64, u32)>, now: (i64, u32)) -> (r: Option<
    (i64, String),
>)
    ensures
        match r {
            Some(g) => !share_expired(expiry, now) && !share_used_up(
                row.max_downloads,
                row.download_count,
            ) && g.0 == row.user_id && g.1@ == row.path@,
            None => share_expired(expiry, now) || share_used_up(
                row.max_downloads,
                row.download_count,
            ),
        },
{
    if let Some(end) = expiry {
        if now.0 > end.0 || (now.0 == end.0 && now.1 > end.1) {
            return None;
        }
    }
    if let Some(max) = row.max_downloads {
        if row.download_count >= max {
            return None;
        }
    }
    Some((row.user_id, row.path))
}

/// The number of downloads after one more.
pub open spec fn next_count(count: i64) -> i64 {
    if count == i64::MAX {
        count
    } else {
        (count + 1) as i64
    }
}

/// Counts one access to a share link that is about to deliver: the link as it is stored from then
/// on, or nothing where its downloads are used up.
pub fn count_access(row: ShareRow) -> (r: Option<ShareRow>)
    ensures
        r == if share_used_up(row.max_downloads, row.download_count) {
            None::<ShareRow>
        } else {
            Some(ShareRow { download_count: next_count(row.download_count), ..row })
        },
{
    if let Some(max) = row.max_downloads {
        if row.download_count >= max {
            return None;
        }
    }
    let download_count: i64 = if row.download_count == i64::MAX {
        row.download_count
    } else {
        row.download_count + 1
    };
    Some(ShareRow { download_count, ..row })
}

/// How often a link has delivered after several visits, and its count then. Each visit is at a
/// moment; one that finds the link past its end or used up gets nothing.
pub open spec fn after_visits(
    expiry: Option<(i64, u32)>,
    max: Option<i64>,
    count: i64,
    visits: Seq<(i64, u32)>,
) -> (nat, i64)
    decreases visits.len(),
{
    if visits.len() == 0 {
        (0, count)
    } else {
        let before = after_visits(expiry, max, count, visits.drop_last());
        if share_expired(expiry, visits.last()) || share_used_up(max, before.1) {
            before
        } else {
            (before.0 + 1, next_count(before.1))
        }
    }
}

/// A link with a limit delivers at most as often as the limit says, however often and whenever it is
/// visited.
pub proof fn law_share_keeps_to_its_limit(
    expiry: Option<(i64, u32)>,
    max: i64,
    visits: Seq<(i64, u32)>,
)
    requires
        max >= 0,
    ensures
        after_visits(expiry, Some(max), 0, visits).0 <= max,
        after_visits(expiry, Some(max), 0, visits).1 == after_visits(
            expiry,
            Some(max),
            0,
            visits,
        ).0,
    decreases visits.len(),
{
    if visits.len() > 0 {
        law_share_keeps_to_its_limit(expiry, max, visits.drop_last());
    }
}

/// What the end of a link is, read from its text.
pub open spec fn expiry_of(text: Option<Seq<char>>) -> Option<(i64, u32)> {
    match text {
        Some(t) => moment_in(t, EXPIRY_FORMAT@),
        None => None,
    }
}

/// Checks a share link: whose files it opens, and which path; nothing where there is no such link,
/// or where it is past its end or used up.
pub fn verify_share(row: Option<ShareRow>, now: (i64, u32)) -> (r: Option<(i64, String)>)
    ensures
        match r {
            Some(g) => row is Some && !share_expired(expiry_of(text_of(row->0.expires_at)), now)
                && !share_used_up(row->0.max_downloads, row->0.download_count) && g.0
                == row->0.user_id && g.1@ == row->0.path@,
            None => row is None || share_expired(expiry_of(text_of(row->0.expires_at)), now)
                || share_used_up(row->0.max_downloads, row->0.download_count),
        },
{
    match row {
        Some(s) => {
            let expiry = match &s.expires_at {
                Some(text) => parse_moment(text.as_str(), EXPIRY_FORMAT),
                None => None,
            };
            share_grants(s, expiry, now)
        },
        None => None,
    }
}

/// A link that no longer opens stays shut: neither more time nor more downloads open it again.
pub proof fn law_share_stays_shut(
    expiry: Option<(i64, u32)>,
    max: Option<i64>,
    count: i64,
    now: (i64, u32),
    later_count: i64,
    later_now: (i64, u32),
)
    requires
        share_expired(expiry, now) || share_used_up(max, count),
        count <= later_count,
        now == later_now || later(later_now, now),
    ensures
        share_expired(expiry, later_now) || share_used_up(max, later_count),
{
}

/// A text that neither begins nor ends with white space is not changed by trimming.
proof fn lemma_trimmed_same(s: Seq<char>)
    requires
        s.len() > 0,
        !crate::text::is_white(s[0]),
        !crate::text::is_white(s.last()),
    ensures
        trimmed(s) == s,
{
    assert(trim_start(s) == s);
    assert(trim_end(s) == s);
}

/// The permissions are independent: an account whose list is made of certain words, none of which
/// holds a comma, has exactly the permissions that these words name, white space aside.
pub proof fn law_permissions_are_independent(words: Seq<Seq<char>>, perm: Seq<char>)
    requires
        words.len() > 0,
        forall|i: int| 0 <= i < words.len() ==> !(#[trigger] words[i]).contains(','),
    ensures
        list_holds(joined(words, ','), perm) <==> exists|i: int|
            0 <= i < words.len() && trimmed(#[trigger] words[i]) == perm,
{
    law_join_split(words, ',');
}

/// The six permissions, one by one.
pub open spec fn six_permissions() -> Seq<Seq<char>> {
    seq!["read"@, "write"@, "delete"@, "rename"@, "share"@, "mkdir"@]
}

/// An account that has all permissions has each of the six; the PIN account does, and is no
/// administrator.
pub proof fn law_all_means_each_of_six(i: int)
    requires
        0 <= i < 6,
    ensures
        list_holds(ALL_PERMISSIONS@, six_permissions()[i]),
        allowed(pin_account(), six_permissions()[i]),
        pin_account().role != "admin"@,
{
    let w = six_permissions();
    reveal_strlit("read");
    reveal_strlit("write");
    reveal_strlit("delete");
    reveal_strlit("rename");
    reveal_strlit("share");
    reveal_strlit("mkdir");
    reveal_strlit("admin");
    reveal_strlit("user");
    reveal_strlit("read,write,delete,rename,share,mkdir");
    assert("admin"@.len() == 5);
    assert("user"@.len() == 4);
    reveal_with_fuel(joined, 7);
    assert(w.drop_last() =~= seq!["read"@, "write"@, "delete"@, "rename"@, "share"@]);
    assert(w.drop_last().drop_last() =~= seq!["read"@, "write"@, "delete"@, "rename"@]);
    assert(w.drop_last().drop_last().drop_last() =~= seq!["read"@, "write"@, "delete"@]);
    assert(w.drop_last().drop_last().drop_last().drop_last() =~= seq!["read"@, "write"@]);
    assert(w.drop_last().drop_last().drop_last().drop_last().drop_last() =~= seq!["read"@]);
    assert(joined(w, ',') =~= ALL_PERMISSIONS@);
    assert forall|k: int| 0 <= k < w.len() implies !(#[trigger] w[k]).contains(',') by {
        assert(k == 0 || k == 1 || k == 2 || k == 3 || k == 4 || k == 5);
    }
    law_permissions_are_independent(w, w[i]);
    assert(i == 0 || i == 1 || i == 2 || i == 3 || i == 4 || i == 5);
    lemma_trimmed_same(w[i]);
}

/// What is told of an account that could not be stored: that its name is taken, or the reason.
pub fn create_user_error(name_taken: bool, reason: String) -> (r: String)
    ensures
        r@ == if name_taken {
            "用户名已存在"@
        } else {
            reason@
        },
{
    if name_taken {
        "用户名已存在".to_owned()
    } else {
        reason
    }
}

/// The second at which a link made now ends, if it ends, and if that can be counted.
pub open spec fn end_second(now: i64, hours: i64) -> Option<i64> {
    let end = now + hours * 3600;
    if i64::MIN <= end <= i64::MAX {
        Some(end as i64)
    } else {
        None
    }
}

/// The text under which the end of a new link is stored: none for a link without end. An end that
/// cannot be written is an error.
pub fn share_expiry(now: i64, hours: Option<i64>) -> (r: Result<Option<String>, ()>)
    ensures
        match hours {
            None => r == Ok::<Option<String>, ()>(None),
            Some(h) => match r {
                Ok(Some(t)) => end_second(now, h) is Some && moment_text(
                    end_second(now, h)->0,
                    EXPIRY_FORMAT@,
                ) == Some(t@),
                Ok(None) => false,
                Err(_) => end_second(now, h) is None || moment_text(
                    end_second(now, h)->0,
                    EXPIRY_FORMAT@,
                ) is None,
            },
        },
        hours is Some && 0 <= now + hours->0 * 3600 <= LAST_COMMON_SECOND ==> r is Ok && expiry_of(
            text_of(r->Ok_0),
        ) == Some(((now + hours->0 * 3600) as i64, 0u32)),
{
    match hours {
        None => Ok(None),
        Some(h) => {
            let end: i128 = now as i128 + h as i128 * 3600;
            if end < -0x8000_0000_0000_0000 || end > 0x7FFF_FFFF_FFFF_FFFF {
                return Err(());
            }
            match format_moment(end as i64, EXPIRY_FORMAT) {
                Some(t) => Ok(Some(t)),
                None => Err(()),
            }
        },
    }
}

/// A link opens until its end and not after: if its stored end is a second, it is shut exactly at
/// the moments after that second began.
pub proof fn law_share_ends_on_time(end: i64, now: (i64, u32))
    ensures
        share_expired(Some((end, 0u32)), now) <==> now.0 > end || (now.0 == end && now.1 > 0),
{
}

/// An administrator has every permission, whatever its permission list says.
pub proof fn law_admin_has_all(u: UserView, perm: Seq<char>)
    requires
        u.role == "admin"@,
    ensures
        allowed(u, perm),
{
}

/// How long a name stays locked after too many failed logins in a row, in seconds: 15 minutes.
pub const LOCK_SECS: u64 = 900;

/// How many failed logins in a row lock a name.
pub const MAX_FAILED_LOGINS: u32 = 5;

/// The failed logins in a row under one name, and the second of the last one.
#[derive(Debug, Clone, Copy, PartialEq, Eq, Structural)]
pub struct FailedLogins {
    pub count: u32,
    pub last: u64,
}

/// For how many more seconds a name is locked: too many failures in a row lock it for 15
/// minutes from the last one on.
pub open spec fn lock_left(f: FailedLogins, now: u64) -> int {
    if f.count >= MAX_FAILED_LOGINS && now < f.last + LOCK_SECS {
        f.last + LOCK_SECS - now
    } else {
        0
    }
}

/// The failures after one more attempt: one that went well clears them, and a lock that has run out
/// counts as cleared.
pub open spec fn after_attempt(f: FailedLogins, now: u64, success: bool) -> FailedLogins {
    if success {
        FailedLogins { count: 0, last: f.last }
    } else if f.count >= MAX_FAILED_LOGINS && lock_left(f, now) == 0 {
        FailedLogins { count: 1, last: now }
    } else {
        FailedLogins {
            count: if f.count == u32::MAX {
                f.count
            } else {
                (f.count + 1) as u32
            },
            last: now,
        }
    }
}

impl FailedLogins {
    /// No failures.
    pub fn none() -> (r: Self)
        ensures
            r == (FailedLogins { count: 0, last: 0 }),
    {
        FailedLogins { count: 0, last: 0 }
    }

    /// Is the name locked, and for how many more seconds?
    pub fn is_account_locked(&self, now: u64) -> (r: (bool, u64))
        ensures
            r.0 == (lock_left(*self, now) > 0),
            r.1 == if lock_left(*self, now) > u64::MAX {
                u64::MAX as int
            } else {
                lock_left(*self, now)
            },
    {
        let end: u128 = self.last as u128 + LOCK_SECS as u128;
        if self.count >= MAX_FAILED_LOGINS && (now as u128) < end {
            let left: u128 = end - now as u128;
            if left > 0xFFFF_FFFF_FFFF_FFFF {
                return (true, 0xFFFF_FFFF_FFFF_FFFF);
            }
            return (true, left as u64);
        }
        (false, 0)
    }

    /// Takes note of an attempt to log in.
    pub fn record_login_attempt(&mut self, now: u64, success: bool)
        ensures
            *final(self) == after_attempt(*old(self), now, success),
    {
        if success {
            self.count = 0;
            return;
        }
        let (locked, _) = self.is_account_locked(now);
        if self.count >= MAX_FAILED_LOGINS && !locked {
            self.count = 1;
        } else if self.count < 0xFFFF_FFFF {
            self.count = self.count + 1;
        }
        self.last = now;
    }
}

/// The failures after `n` failed attempts at one time.
pub open spec fn after_failures(f: FailedLogins, now: u64, n: nat) -> FailedLogins
    decreases n,
{
    if n == 0 {
        f
    } else {
        after_attempt(after_failures(f, now, (n - 1) as nat), now, false)
    }
}

proof fn lemma_failures_count(now: u64, n: nat)
    requires
        n <= MAX_FAILED_LOGINS,
    ensures
        after_failures(FailedLogins { count: 0, last: 0 }, now, n).count == n,
        n > 0 ==> after_failures(FailedLogins { count: 0, last: 0 }, now, n).last == now,
    decreases n,
{
    if n > 0 {
        lemma_failures_count(now, (n - 1) as nat);
    }
}

/// Failed logins in a row lock a name for 15 minutes: after five of them it is locked, one second
/// before the 15 minutes are over it still is, and then it is not. A login that goes well clears
/// the count.
pub proof fn law_failures_lock_for_15_minutes(now: u64)
    requires
        now + LOCK_SECS <= u64::MAX,
    ensures
        ({
            let f = after_failures(FailedLogins { count: 0, last: 0 }, now, MAX_FAILED_LOGINS as nat);
            &&& lock_left(f, now) == LOCK_SECS
            &&& lock_left(f, (now + LOCK_SECS - 1) as u64) == 1
            &&& lock_left(f, (now + LOCK_SECS) as u64) == 0
            &&& lock_left(after_attempt(f, now, true), now) == 0
        }),
{
    lemma_failures_count(now, MAX_FAILED_LOGINS as nat);
}

/// How long a session lasts: 24 hours.
pub const SESSION_SECS: u64 = 86400;

/// A session as the database holds it: whose it is, and when it ends, in seconds since 1970.
#[derive(Debug, Clone, Copy, PartialEq, Eq, Structural)]
pub struct SessionRow {
    pub user_id: i64,
    pub expires_at: u64,
}

/// Whose session it is, if it has not ended.
pub open spec fn session_user(row: Option<SessionRow>, now: u64) -> Option<i64> {
    match row {
        Some(s) => if s.expires_at > now {
            Some(s.user_id)
        } else {
            None
        },
        None => None,
    }
}

/// Is the row of a session to be removed? It is if it is there and the session has ended.
pub open spec fn session_ended(row: Option<SessionRow>, now: u64) -> bool {
    row is Some && row->0.expires_at <= now
}

/// A new session of an account.
pub fn create_session(user_id: i64, now: u64) -> (r: SessionRow)
    requires
        now + SESSION_SECS <= u64::MAX,
    ensures
        r == (SessionRow { user_id, expires_at: (now + SESSION_SECS) as u64 }),
{
    SessionRow { user_id, expires_at: now + SESSION_SECS }
}

/// What comes of a token: whose session it stands for, and whether its row is to be removed.
#[derive(Debug, Clone, Copy, PartialEq, Eq, Structural)]
pub struct SessionCheck {
    pub user_id: Option<i64>,
    pub remove: bool,
}

/// Whose session it is, if it has not ended, and whether its row is to be removed, because it has.
/// `row` is what the database holds under the token.
pub fn verify_session(row: Option<SessionRow>, now: u64) -> (r: SessionCheck)
    ensures
        r.user_id == session_user(row, now),
        r.remove == session_ended(row, now),
{
    match row {
        Some(s) => {
            if s.expires_at > now {
                SessionCheck { user_id: Some(s.user_id), remove: false }
            } else {
                SessionCheck { user_id: None, remove: true }
            }
        },
        None => SessionCheck { user_id: None, remove: false },
    }
}

/// A session stands for the account that opened it for 24 hours, and for nobody from then on, when its
/// row goes.
pub proof fn law_session_lasts_a_day(user_id: i64, start: u64, now: u64)
    requires
        start <= now,
        start + SESSION_SECS <= u64::MAX,
    ensures
        session_user(
            Some(SessionRow { user_id, expires_at: (start + SESSION_SECS) as u64 }),
            now,
        ) == if now < start + SESSION_SECS {
            Some(user_id)
        } else {
            None
        },
        session_ended(
            Some(SessionRow { user_id, expires_at: (start + SESSION_SECS) as u64 }),
            now,
        ) <==> now >= start + SESSION_SECS,
{
}

/// A link opens its owner's path as long as it is neither past its end nor used up: one without an
/// end never ends, one without a limit is never used up, and one with a limit opens until it has
/// delivered that often.
pub proof fn law_when_a_link_opens(
    end: (i64, u32),
    now: (i64, u32),
    max: i64,
    count: i64,
)
    ensures
        !share_expired(None, now),
        now.0 < end.0 ==> !share_expired(Some(end), now),
        now == end ==> !share_expired(Some(end), now),
        now.0 > end.0 ==> share_expired(Some(end), now),
        !share_used_up(None, count),
        count < max ==> !share_used_up(Some(max), count),
        count >= max ==> share_used_up(Some(max), count),
        count < i64::MAX ==> next_count(count) == count + 1,
{
}

/// A link that is made for some hours ends that many hours later.
pub proof fn law_links_last_their_hours(now: i64, hours: i64)
    requires
        i64::MIN <= now + hours * 3600 <= i64::MAX,
    ensures
        end_second(now, hours) is Some,
        end_second(now, hours)->0 - now == hours * 60 * 60,
{
}

/// A link with a limit delivers as often as the limit says, if it is visited that often before its
/// end.
pub proof fn law_link_delivers_up_to_its_limit(max: i64, visits: Seq<(i64, u32)>)
    requires
        max >= 0,
    ensures
        visits.len() <= max ==> after_visits(None, Some(max), 0, visits).0 == visits.len(),
        visits.len() >= max ==> after_visits(None, Some(max), 0, visits).0 == max,
    decreases visits.len(),
{
    law_share_keeps_to_its_limit(None, max, visits);
    if visits.len() > 0 {
        law_link_delivers_up_to_its_limit(max, visits.drop_last());
        law_share_keeps_to_its_limit(None, max, visits.drop_last());
    }
}

/// A login with the password that fits lets in the account of the row, and with any other password
/// nobody.
pub proof fn law_password_decides(row: LoginRow, password: Seq<char>)
    ensures
        login_of(Some(row), password) is Some <==> password_fits(password, row.password_hash@),
        login_of(Some(row), password) matches Some(u) ==> u == row.user@,
        password_fits(password, row.password_hash@) <==> bcrypt_answer(
            password,
            row.password_hash@,
        ) == Some(true),
{
}

/// Fewer than five failures do not lock a name, and a success clears them; while a name is locked,
/// a further failure keeps it locked for 15 minutes more.
pub proof fn law_few_failures_do_not_lock(f: FailedLogins, now: u64)
    ensures
        f.count < 5 ==> lock_left(f, now) == 0,
        lock_left(after_attempt(f, now, true), now) == 0,
        f.count < 4 ==> lock_left(after_attempt(f, now, false), now) == 0,
        f.count == 4 ==> lock_left(after_attempt(f, now, false), now) == 15 * 60,
        lock_left(f, now) > 0 ==> lock_left(after_attempt(f, now, false), now) == 15 * 60,
        lock_left(f, now) == 0 && f.count >= 5 ==> after_attempt(f, now, false).count == 1,
{
}

/// Of an account that is no administrator, the list alone decides: a permission counts if a word of
/// the list names it, and no other does.
pub proof fn law_list_decides(u: UserView, words: Seq<Seq<char>>, perm: Seq<char>)
    requires
        u.role != "admin"@,
        words.len() > 0,
        forall|i: int| 0 <= i < words.len() ==> !(#[trigger] words[i]).contains(','),
        u.permissions == joined(words, ','),
    ensures
        allowed(u, perm) <==> exists|i: int|
            0 <= i < words.len() && trimmed(#[trigger] words[i]) == perm,
{
    law_permissions_are_independent(words, perm);
}

} // verus!
