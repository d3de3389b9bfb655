//! Replies to HTTP requests: a status and a text.
use vstd::prelude::*;
use crate::db::{allowed, User};
use crate::text::{holds_part, lemma_holds_middle};

verus! {

/// A reply to an HTTP request.
#[derive(Debug, Clone)]
pub struct HttpReply {
    pub status: u16,
    pub body: String,
}

pub struct HttpView {
    pub status: u16,
    pub body: Seq<char>,
}

impl View for HttpReply {
    type V = HttpView;

    open spec fn view(&self) -> HttpView {
        HttpView { status: self.status, body: self.body@ }
    }
}

/// The body of an error: the message in a JSON object. The message stands there as it is.
pub open spec fn error_body(msg: Seq<char>) -> Seq<char> {
    "{\"error\":\""@ + msg + "\"}"@
}

/// The reply that reports an error.
pub open spec fn error_view(status: u16, msg: Seq<char>) -> HttpView {
    HttpView { status, body: error_body(msg) }
}

/// The reply that reports an error.
pub fn err_json(status: u16, msg: &str) -> (r: HttpReply)
    ensures
        r@ == error_view(status, msg@),
{
    let mut body: String = "{\"error\":\"".to_owned();
    body.append(msg);
    body.append("\"}");
    HttpReply { status, body }
}

/// The reply that reports an error whose message ends with a reason.
pub fn err_reason(status: u16, msg: &str, reason: &str) -> (r: HttpReply)
    ensures
        r@ == error_view(status, msg@ + reason@),
{
    let mut text: String = msg.to_owned();
    text.append(reason);
    err_json(status, text.as_str())
}

/// A reply with a status and a text.
pub fn status_response(status: u16, msg: &str) -> (r: HttpReply)
    ensures
        r@ == (HttpView { status, body: msg@ }),
{
    HttpReply { status, body: msg.to_owned() }
}

/// The reply that says that all went well.
pub fn ok_reply(status: u16) -> (r: HttpReply)
    ensures
        r@ == (HttpView { status, body: "{\"ok\":true}"@ }),
{
    HttpReply { status, body: "{\"ok\":true}".to_owned() }
}

/// What stands in the way of a request, if it needs an account with a permission: nobody is logged
/// in, or the permission is missing.
pub open spec fn barrier(user: Option<User>, perm: Seq<char>, refusal: Seq<char>) -> Option<
    HttpView,
> {
    match user {
        None => Some(error_view(401, "未登录或会话过期"@)),
        Some(u) => if allowed(u@, perm) {
            None
        } else {
            Some(error_view(403, refusal))
        },
    }
}

/// Lets a request through if somebody is logged in who has the permission.
pub fn permit(user: Option<User>, perm: &str, refusal: &str) -> (r: Result<User, HttpReply>)
    ensures
        match r {
            Ok(u) => barrier(user, perm@, refusal@) is None && user == Some(u),
            Err(e) => barrier(user, perm@, refusal@) == Some(e@),
        },
{
    match user {
        None => Err(err_json(401, "未登录或会话过期")),
        Some(u) => {
            if u.can(perm) {
                Ok(u)
            } else {
                Err(err_json(403, refusal))
            }
        },
    }
}

/// A request that needs a permission is let through if and only if somebody is logged in who has
/// it; nobody is told 401, and somebody without the permission 403, with the reason.
pub proof fn law_permission_decides(user: Option<User>, perm: Seq<char>, refusal: Seq<char>)
    ensures
        barrier(user, perm, refusal) is None <==> user is Some && allowed(user->0@, perm),
        user is None ==> barrier(user, perm, refusal)->0.status == 401,
        user is Some && !allowed(user->0@, perm) ==> barrier(user, perm, refusal)->0.status == 403
            && holds_part(barrier(user, perm, refusal)->0.body, refusal),
{
    lemma_holds_middle("{\"error\":\""@, refusal, "\"}"@);
}

/// An error is answered with its status, and says what it is.
pub proof fn law_errors_say_what_they_are(status: u16, msg: Seq<char>)
    ensures
        error_view(status, msg).status == status,
        holds_part(error_view(status, msg).body, msg),
{
    lemma_holds_middle("{\"error\":\""@, msg, "\"}"@);
}

} // verus!
