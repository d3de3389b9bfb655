//! The WebDAV interface: who is let in, what each method does, and the XML it answers with.
use vstd::prelude::*;
use vstd::utf8::{decode_utf8, valid_utf8};
use crate::api::bearer;
use crate::clock::{http_date, moment_text, HTTP_DATE_FORMAT, LAST_COMMON_SECOND};
use crate::db::{
    allowed, login_of, pin_account, share_user, user_of, verify_login, LoginRow, User, UserView,
};
use crate::encoding::{
    base64_bytes, base64_decode, decode_path, decoded_path, percent_encode, percent_text,
    utf8_strict,
};
use crate::files::disposition;
use crate::http::{status_response, HttpReply, HttpView};
use crate::text::{
    begins_with, chars_of, cut, cut_at, digits, drop_chars, holds_part, lemma_holds_middle,
    lemma_holds_within, push_number, split, split_on, str_eq,
    text_of, texts,
};

verus! {

/// How somebody who makes a request shows who they are.
#[derive(Debug, Clone)]
pub enum Credential {
    /// A token in the header.
    Bearer(String),
    /// A name and a password in the header.
    Basic(String, String),
    /// A token in the query.
    Query(String),
    Nothing,
}

pub enum CredentialView {
    Bearer(Seq<char>),
    Basic(Seq<char>, Seq<char>),
    Query(Seq<char>),
    Nothing,
}

impl View for Credential {
    type V = CredentialView;

    open spec fn view(&self) -> CredentialView {
        match *self {
            Credential::Bearer(t) => CredentialView::Bearer(t@),
            Credential::Basic(n, p) => CredentialView::Basic(n@, p@),
            Credential::Query(t) => CredentialView::Query(t@),
            Credential::Nothing => CredentialView::Nothing,
        }
    }
}

/// The name and the password in decoded bytes: UTF-8, with a colon between them.
pub open spec fn pair_in(bytes: Option<Seq<u8>>) -> Option<(Seq<char>, Seq<char>)> {
    match bytes {
        Some(b) => if valid_utf8(b) {
            cut_at(decode_utf8(b), ':')
        } else {
            None
        },
        None => None,
    }
}

/// The view of bytes that may be absent.
pub open spec fn bytes_of(o: Option<Vec<u8>>) -> Option<Seq<u8>> {
    match o {
        Some(b) => Some(b@),
        None => None,
    }
}

/// The view of a name and a password.
pub open spec fn pair_of(o: Option<(String, String)>) -> Option<(Seq<char>, Seq<char>)> {
    match o {
        Some(p) => Some((p.0@, p.1@)),
        None => None,
    }
}

/// The name and the password in decoded bytes.
pub fn split_credentials(bytes: Option<Vec<u8>>) -> (r: Option<(String, String)>)
    ensures
        pair_of(r) == pair_in(bytes_of(bytes)),
{
    match bytes {
        Some(b) => match utf8_strict(b) {
            Some(text) => cut(text.as_str(), ':'),
            None => None,
        },
        None => None,
    }
}

/// The value of a pair `token=..` or `pin=..`.
pub open spec fn token_value(pair: Seq<char>) -> Option<Seq<char>> {
    match cut_at(pair, '=') {
        Some(kv) => if kv.0 == "token"@ || kv.0 == "pin"@ {
            Some(kv.1)
        } else {
            None
        },
        None => None,
    }
}

/// The value of the first such pair.
pub open spec fn first_token(pairs: Seq<Seq<char>>) -> Option<Seq<char>>
    decreases pairs.len(),
{
    if pairs.len() == 0 {
        None
    } else if token_value(pairs[0]) is Some {
        token_value(pairs[0])
    } else {
        first_token(pairs.skip(1))
    }
}

/// The token in a query, in percent coding.
pub open spec fn raw_token_in(query: Option<Seq<char>>) -> Option<Seq<char>> {
    match query {
        Some(q) => first_token(split_on(q, '&')),
        None => None,
    }
}

/// The token in a query, with its percent coding undone.
pub open spec fn token_in(query: Option<Seq<char>>) -> Option<Seq<char>> {
    match raw_token_in(query) {
        Some(v) => Some(decoded_path(v)),
        None => None,
    }
}

/// The token in a query, in percent coding.
pub fn raw_query_token(query: &Option<String>) -> (r: Option<String>)
    ensures
        text_of(r) == raw_token_in(text_of(*query)),
{
    match query {
        Some(q) => {
            let pairs = split(q.as_str(), '&');
            let ghost pv = texts(pairs@);
            let mut i: usize = 0;
            proof {
                assert(pv.skip(0) =~= pv);
            }
            while i < pairs.len()
                invariant
                    pv == texts(pairs@),
                    pv == split_on(q@, '&'),
                    text_of(*query) == Some(q@),
                    i <= pairs@.len(),
                    first_token(pv) == first_token(pv.skip(i as int)),
                decreases pairs@.len() - i,
            {
                proof {
                    assert(pv[i as int] == pairs@[i as int]@);
                    assert(pv.skip(i as int)[0] == pv[i as int]);
                    assert(pv.skip(i as int).skip(1) =~= pv.skip(i + 1));
                }
                match cut(pairs[i].as_str(), '=') {
                    Some(kv) => {
                        if str_eq(kv.0.as_str(), "token") || str_eq(kv.0.as_str(), "pin") {
                            return Some(kv.1);
                        }
                    },
                    None => {},
                }
                i = i + 1;
            }
            None
        },
        None => None,
    }
}

/// The token in a query, where no header can be sent.
pub fn query_token(query: &Option<String>) -> (r: Option<String>)
    ensures
        text_of(r) == token_in(text_of(*query)),
{
    match raw_query_token(query) {
        Some(v) => Some(decode_path(v.as_str())),
        None => None,
    }
}

/// The name and the password in a header of the kind `Basic`.
pub open spec fn basic(header: Option<Seq<char>>) -> Option<(Seq<char>, Seq<char>)> {
    match header {
        Some(h) => if "Basic "@.is_prefix_of(h) {
            pair_in(base64_bytes(h.skip("Basic "@.len() as int)))
        } else {
            None
        },
        None => None,
    }
}

/// How somebody shows who they are: a bearer token comes first, then a name and a password that
/// can be read, then a token in the query.
pub open spec fn shown_credential(
    token: Option<Seq<char>>,
    pair: Option<(Seq<char>, Seq<char>)>,
    query: Option<Seq<char>>,
) -> CredentialView {
    if token is Some {
        CredentialView::Bearer(token->0)
    } else if pair is Some {
        CredentialView::Basic((pair->0).0, (pair->0).1)
    } else {
        match query {
            Some(t) => CredentialView::Query(t),
            None => CredentialView::Nothing,
        }
    }
}

/// How somebody shows who they are, by what was found in the header and in the query.
pub fn choose_credential(
    token: Option<String>,
    pair: Option<(String, String)>,
    query: Option<String>,
) -> (r: Credential)
    ensures
        r@ == shown_credential(text_of(token), pair_of(pair), text_of(query)),
{
    match token {
        Some(t) => Credential::Bearer(t),
        None => match pair {
            Some(p) => Credential::Basic(p.0, p.1),
            None => match query {
                Some(t) => Credential::Query(t),
                None => Credential::Nothing,
            },
        },
    }
}

/// The name and the password in a header of the kind `Basic`.
pub fn basic_pair(header: &Option<String>) -> (r: Option<(String, String)>)
    ensures
        pair_of(r) == basic(text_of(*header)),
{
    match header {
        Some(h) => {
            if begins_with(h.as_str(), "Basic ") {
                proof {
                    reveal_strlit("Basic ");
                    assert("Basic "@.len() == 6);
                    assert(h@.len() >= 6);
                }
                let b64 = drop_chars(h.as_str(), 6);
                split_credentials(base64_decode(b64.as_str()))
            } else {
                None
            }
        },
        None => None,
    }
}

/// How somebody shows who they are, by the `Authorization` header and the query.
pub fn credential(header: &Option<String>, query: &Option<String>) -> (r: Credential)
    ensures
        r@ == shown_credential(
            bearer(text_of(*header)),
            basic(text_of(*header)),
            token_in(text_of(*query)),
        ),
{
    choose_credential(crate::api::extract_token(header), basic_pair(header), query_token(query))
}

/// Who is let in. In simple mode the PIN lets in under the PIN account, as a token or as the
/// password of `share`, and no other password does; of sessions only an administrator's counts. In
/// account mode a session lets in, or a name and its password, and the PIN does not.
pub open spec fn let_in(
    c: CredentialView,
    simple: bool,
    pin: Seq<char>,
    session: Option<UserView>,
    login: Option<UserView>,
) -> Option<UserView> {
    match c {
        CredentialView::Bearer(t) | CredentialView::Query(t) => if !simple {
            session
        } else if t == pin {
            Some(pin_account())
        } else if session is Some && session->0.role == "admin"@ {
            session
        } else {
            None
        },
        CredentialView::Basic(name, password) => if simple {
            if name == "share"@ && password == pin {
                Some(pin_account())
            } else {
                None
            }
        } else {
            login
        },
        CredentialView::Nothing => None,
    }
}

/// The account that a name and a password let in, by the row that the database holds.
pub open spec fn basic_login(c: CredentialView, row: Option<LoginRow>) -> Option<UserView> {
    match c {
        CredentialView::Basic(_, password) => login_of(row, password),
        _ => None,
    }
}

/// Whom a token lets in.
fn token_account(token: &str, simple: bool, pin: &str, session: Option<User>) -> (r: Option<User>)
    ensures
        user_of(r) == let_in(
            CredentialView::Bearer(token@),
            simple,
            pin@,
            user_of(session),
            None,
        ),
{
    if !simple {
        return session;
    }
    if str_eq(token, pin) {
        return Some(share_user());
    }
    match session {
        Some(u) => {
            if u.is_admin() {
                Some(u)
            } else {
                None
            }
        },
        None => None,
    }
}

/// Who is let in. `session` is the account whose session has the token, `row` what the database
/// holds under the name.
pub fn authenticate(
    c: &Credential,
    simple: bool,
    pin: &str,
    session: Option<User>,
    row: Option<LoginRow>,
) -> (r: Option<User>)
    ensures
        user_of(r) == let_in(c@, simple, pin@, user_of(session), basic_login(c@, row)),
{
    match c {
        Credential::Bearer(t) => token_account(t.as_str(), simple, pin, session),
        Credential::Query(t) => token_account(t.as_str(), simple, pin, session),
        Credential::Basic(name, password) => {
            if simple {
                if str_eq(name.as_str(), "share") && str_eq(password.as_str(), pin) {
                    Some(share_user())
                } else {
                    None
                }
            } else {
                verify_login(row, password.as_str())
            }
        },
        Credential::Nothing => None,
    }
}

/// Simple mode and account mode exclude each other: in simple mode only the PIN and an
/// administrator's session let anybody in, and in account mode the PIN is a password like any other.
pub proof fn law_dav_modes_exclude_each_other(
    c: CredentialView,
    pin: Seq<char>,
    session: Option<UserView>,
    login: Option<UserView>,
)
    ensures
        let_in(c, true, pin, session, login) matches Some(u) ==> match c {
            CredentialView::Bearer(t) | CredentialView::Query(t) => t == pin && u == pin_account()
                || session == Some(u) && u.role == "admin"@,
            CredentialView::Basic(name, password) => name == "share"@ && password == pin && u
                == pin_account(),
            CredentialView::Nothing => false,
        },
        let_in(c, false, pin, session, login) == match c {
            CredentialView::Bearer(_) | CredentialView::Query(_) => session,
            CredentialView::Basic(_, _) => login,
            CredentialView::Nothing => None,
        },
{
}

/// The methods that are served.
#[derive(Debug, Clone, Copy, PartialEq, Eq, Structural)]
pub enum DavMethod {
    Options,
    Get,
    Head,
    Put,
    Delete,
    Mkcol,
    Move,
    Copy,
    Propfind,
    Proppatch,
    Lock,
    Unlock,
}

/// The method of a name, as far as it is served. Capitals count.
pub open spec fn method_of(name: Seq<char>) -> Option<DavMethod> {
    if name == "OPTIONS"@ {
        Some(DavMethod::Options)
    } else if name == "GET"@ {
        Some(DavMethod::Get)
    } else if name == "HEAD"@ {
        Some(DavMethod::Head)
    } else if name == "PUT"@ {
        Some(DavMethod::Put)
    } else if name == "DELETE"@ {
        Some(DavMethod::Delete)
    } else if name == "MKCOL"@ {
        Some(DavMethod::Mkcol)
    } else if name == "MOVE"@ {
        Some(DavMethod::Move)
    } else if name == "COPY"@ {
        Some(DavMethod::Copy)
    } else if name == "PROPFIND"@ {
        Some(DavMethod::Propfind)
    } else if name == "PROPPATCH"@ {
        Some(DavMethod::Proppatch)
    } else if name == "LOCK"@ {
        Some(DavMethod::Lock)
    } else if name == "UNLOCK"@ {
        Some(DavMethod::Unlock)
    } else {
        None
    }
}

/// The permission that a method needs, if it needs one: what it shows is read, and what it changes
/// is written, deleted, made or renamed.
pub open spec fn needed(m: DavMethod) -> Option<Seq<char>> {
    match m {
        DavMethod::Get | DavMethod::Head | DavMethod::Propfind => Some("read"@),
        DavMethod::Put | DavMethod::Copy => Some("write"@),
        DavMethod::Delete => Some("delete"@),
        DavMethod::Mkcol => Some("mkdir"@),
        DavMethod::Move => Some("rename"@),
        DavMethod::Options | DavMethod::Proppatch | DavMethod::Lock | DavMethod::Unlock => None,
    }
}

/// May the account use the method?
pub open spec fn may_use(u: UserView, m: DavMethod) -> bool {
    needed(m) is None || allowed(u, needed(m)->0)
}

fn has_permission(u: &User, m: DavMethod) -> (r: bool)
    ensures
        r == may_use(u@, m),
{
    match m {
        DavMethod::Get | DavMethod::Head | DavMethod::Propfind => u.can_read(),
        DavMethod::Put | DavMethod::Copy => u.can_write(),
        DavMethod::Delete => u.can_delete(),
        DavMethod::Mkcol => u.can_mkdir(),
        DavMethod::Move => u.can_rename(),
        DavMethod::Options | DavMethod::Proppatch | DavMethod::Lock | DavMethod::Unlock => true,
    }
}

/// The method of a name, as far as it is served.
fn method_named(name: &str) -> (r: Option<DavMethod>)
    ensures
        r == method_of(name@),
{
    if str_eq(name, "OPTIONS") {
        Some(DavMethod::Options)
    } else if str_eq(name, "GET") {
        Some(DavMethod::Get)
    } else if str_eq(name, "HEAD") {
        Some(DavMethod::Head)
    } else if str_eq(name, "PUT") {
        Some(DavMethod::Put)
    } else if str_eq(name, "DELETE") {
        Some(DavMethod::Delete)
    } else if str_eq(name, "MKCOL") {
        Some(DavMethod::Mkcol)
    } else if str_eq(name, "MOVE") {
        Some(DavMethod::Move)
    } else if str_eq(name, "COPY") {
        Some(DavMethod::Copy)
    } else if str_eq(name, "PROPFIND") {
        Some(DavMethod::Propfind)
    } else if str_eq(name, "PROPPATCH") {
        Some(DavMethod::Proppatch)
    } else if str_eq(name, "LOCK") {
        Some(DavMethod::Lock)
    } else if str_eq(name, "UNLOCK") {
        Some(DavMethod::Unlock)
    } else {
        None
    }
}

/// What a request comes to: nobody is let in, the path leaves the shared directory, the method is
/// not served, the permission for it is missing, or the method that is served.
pub fn handle_request(user: &Option<User>, path: &Option<Vec<String>>, method: &str) -> (r: Result<
    DavMethod,
    HttpReply,
>)
    ensures
        match r {
            Ok(m) => user is Some && path is Some && method_of(method@) == Some(m) && may_use(
                user->0@,
                m,
            ),
            Err(e) => if user is None {
                e@ == (HttpView { status: 401, body: "Unauthorized"@ })
            } else if path is None {
                e@ == (HttpView { status: 403, body: "Path traversal denied"@ })
            } else if method_of(method@) is None {
                e@ == (HttpView { status: 405, body: "Method not allowed"@ })
            } else {
                !may_use(user->0@, method_of(method@)->0) && e@ == (HttpView {
                    status: 403,
                    body: "Permission denied"@,
                })
            },
        },
{
    let u = match user {
        Some(u) => u,
        None => {
            return Err(status_response(401, "Unauthorized"));
        },
    };
    if path.is_none() {
        return Err(status_response(403, "Path traversal denied"));
    }
    match method_named(method) {
        None => Err(status_response(405, "Method not allowed")),
        Some(m) => {
            if has_permission(u, m) {
                Ok(m)
            } else {
                Err(status_response(403, "Permission denied"))
            }
        },
    }
}

/// A character as it stands in XML text.
pub open spec fn xml_char(c: char) -> Seq<char> {
    if c == '&' {
        "&amp;"@
    } else if c == '<' {
        "&lt;"@
    } else if c == '>' {
        "&gt;"@
    } else if c == '"' {
        "&quot;"@
    } else {
        seq![c]
    }
}

/// A text as it stands in XML.
pub open spec fn xml_text(s: Seq<char>) -> Seq<char>
    decreases s.len(),
{
    if s.len() == 0 {
        s
    } else {
        xml_text(s.drop_last()) + xml_char(s.last())
    }
}

/// A text as it stands in XML.
pub fn xml_escape(s: &str) -> (r: String)
    ensures
        r@ == xml_text(s@),
{
    let v = chars_of(s);
    let mut out: String = String::new();
    let mut i: usize = 0;
    proof {
        assert(v@.take(0) =~= Seq::<char>::empty());
    }
    while i < v.len()
        invariant
            v@ == s@,
            i <= v@.len(),
            out@ == xml_text(v@.take(i as int)),
        decreases v@.len() - i,
    {
        proof {
            assert(v@.take(i + 1).drop_last() =~= v@.take(i as int));
        }
        let ghost before = out@;
        let c: char = v[i];
        if c == '&' {
            out.append("&amp;");
        } else if c == '<' {
            out.append("&lt;");
        } else if c == '>' {
            out.append("&gt;");
        } else if c == '"' {
            out.append("&quot;");
        } else {
            out.push(c);
        }
        proof {
            assert(out@ =~= before + xml_char(c));
        }
        i = i + 1;
    }
    proof {
        assert(v@.take(v@.len() as int) =~= s@);
    }
    out
}

/// Escaped text holds no angle bracket and no quotation mark, so it cannot break the markup.
pub proof fn law_escaped_text_is_inert(s: Seq<char>, c: char)
    requires
        c == '<' || c == '>' || c == '"',
    ensures
        !xml_text(s).contains(c),
    decreases s.len(),
{
    if s.len() > 0 {
        law_escaped_text_is_inert(s.drop_last(), c);
        let a = xml_text(s.drop_last());
        let b = xml_char(s.last());
        reveal_strlit("&amp;");
        reveal_strlit("&lt;");
        reveal_strlit("&gt;");
        reveal_strlit("&quot;");
        assert(!b.contains(c));
        if (a + b).contains(c) {
            let k = choose|k: int| 0 <= k < (a + b).len() && (a + b)[k] == c;
            if k < a.len() {
                assert(a[k] == c);
            } else {
                assert(b[k - a.len()] == c);
            }
        }
    }
}

/// The properties of one entry, up to its name.
pub open spec fn prop_head(href: Seq<char>, name: Option<Seq<char>>) -> Seq<char> {
    "<D:response>\n  <D:href>"@ + href
        + "</D:href>\n  <D:propstat>\n    <D:prop>\n      <D:displayname>"@ + (match name {
        Some(n) => xml_text(n),
        None => "share"@,
    }) + "</D:displayname>\n      "@
}

/// The properties of one entry, from its type on.
pub open spec fn prop_tail(is_dir: bool, size: nat, date: Seq<char>) -> Seq<char> {
    (if is_dir {
        "<D:resourcetype><D:collection/></D:resourcetype>"@
    } else {
        "<D:resourcetype/>"@
    }) + "\n      <D:getlastmodified>"@ + date + "</D:getlastmodified>\n      "@ + (if is_dir {
        Seq::<char>::empty()
    } else {
        "<D:getcontentlength>"@ + digits(size) + "</D:getcontentlength>"@
    })
        + "\n    </D:prop>\n    <D:status>HTTP/1.1 200 OK</D:status>\n  </D:propstat>\n</D:response>"@
}

/// The properties of one entry, as XML. Its address stands there as it is.
pub open spec fn prop_xml(
    href: Seq<char>,
    name: Option<Seq<char>>,
    is_dir: bool,
    size: nat,
    date: Seq<char>,
) -> Seq<char> {
    prop_head(href, name) + prop_tail(is_dir, size, date)
}

fn prop_first_half(href: &str, name: &Option<String>) -> (r: String)
    ensures
        r@ == prop_head(href@, text_of(*name)),
{
    let mut out: String = "<D:response>\n  <D:href>".to_owned();
    out.append(href);
    out.append("</D:href>\n  <D:propstat>\n    <D:prop>\n      <D:displayname>");
    match name {
        Some(n) => out.append(xml_escape(n.as_str()).as_str()),
        None => out.append("share"),
    }
    out.append("</D:displayname>\n      ");
    out
}

fn prop_second_half(is_dir: bool, size: u64, date: &str) -> (r: String)
    ensures
        r@ == prop_tail(is_dir, size as nat, date@),
{
    let mut out: String = if is_dir {
        "<D:resourcetype><D:collection/></D:resourcetype>".to_owned()
    } else {
        "<D:resourcetype/>".to_owned()
    };
    out.append("\n      <D:getlastmodified>");
    out.append(date);
    out.append("</D:getlastmodified>\n      ");
    let ghost before = out@;
    if !is_dir {
        out.append("<D:getcontentlength>");
        push_number(&mut out, size);
        out.append("</D:getcontentlength>");
        proof {
            assert(out@ =~= before + ("<D:getcontentlength>"@ + digits(size as nat)
                + "</D:getcontentlength>"@));
        }
    } else {
        proof {
            assert(out@ =~= before + Seq::<char>::empty());
        }
    }
    out.append(
        "\n    </D:prop>\n    <D:status>HTTP/1.1 200 OK</D:status>\n  </D:propstat>\n</D:response>",
    );
    out
}

/// The date of an entry, as it stands in XML.
pub open spec fn date_of(modified: u64) -> Seq<char> {
    if modified == 0 {
        crate::clock::HTTP_EPOCH@
    } else {
        match crate::clock::moment_text(
            crate::clock::as_signed(modified),
            crate::clock::HTTP_DATE_FORMAT@,
        ) {
            Some(t) => t,
            None => crate::clock::HTTP_EPOCH@,
        }
    }
}

/// The properties of one entry with a given date.
pub fn prop_entry(href: &str, name: &Option<String>, is_dir: bool, size: u64, date: &str) -> (r:
    String)
    ensures
        r@ == prop_xml(href@, text_of(*name), is_dir, size as nat, date@),
{
    let mut out = prop_first_half(href, name);
    out.append(prop_second_half(is_dir, size, date).as_str());
    out
}

/// The properties of one entry: its address, its name if it has one, whether it is a directory,
/// its size and when it was changed.
pub fn propfind_entry(
    href: &str,
    name: &Option<String>,
    is_dir: bool,
    size: u64,
    modified: u64,
) -> (r: String)
    ensures
        r@ == prop_xml(href@, text_of(*name), is_dir, size as nat, date_of(modified)),
        0 < modified <= LAST_COMMON_SECOND ==> moment_text(modified as i64, HTTP_DATE_FORMAT@)
            is Some && holds_part(
            r@,
            "<D:getlastmodified>"@ + moment_text(modified as i64, HTTP_DATE_FORMAT@)->0
                + "</D:getlastmodified>"@,
        ),
{
    let date = http_date(modified);
    proof {
        law_properties_tell_what_is_known(
            href@,
            text_of(*name),
            is_dir,
            size as nat,
            date@,
        );
    }
    prop_entry(href, name, is_dir, size, date.as_str())
}

/// What there is at a path.
#[derive(Debug, Clone, Copy, PartialEq, Eq, Structural)]
pub enum Node {
    Directory,
    File,
    Nothing,
}

/// How far a request for properties goes: to the entry alone, to what a directory holds as well,
/// or to nothing because nothing is there. A depth other than `0` reaches into a directory.
pub fn propfind_children(node: Node, depth: &Option<String>) -> (r: Result<bool, HttpReply>)
    ensures
        match r {
            Ok(inside) => node != Node::Nothing && inside == reaches_inside(
                node,
                text_of(*depth),
            ),
            Err(e) => node == Node::Nothing && e@ == (HttpView { status: 404, body: "Not found"@ }),
        },
{
    match node {
        Node::Nothing => Err(status_response(404, "Not found")),
        Node::File => Ok(false),
        Node::Directory => match depth {
            Some(d) => Ok(!str_eq(d.as_str(), "0")),
            None => Ok(true),
        },
    }
}

/// The entries with a line end between them.
pub open spec fn lines(v: Seq<Seq<char>>) -> Seq<char> {
    crate::text::joined(v, '\n')
}

/// The document that holds the properties of entries.
pub open spec fn multistatus_text(responses: Seq<Seq<char>>) -> Seq<char> {
    "<?xml version=\"1.0\" encoding=\"utf-8\"?>\n<D:multistatus xmlns:D=\"DAV:\">\n"@ + lines(
        responses,
    ) + "\n</D:multistatus>"@
}

/// The document that holds the properties of entries.
pub fn multistatus(responses: &Vec<String>) -> (r: String)
    ensures
        r@ == multistatus_text(texts(responses@)),
{
    let mut out: String =
        "<?xml version=\"1.0\" encoding=\"utf-8\"?>\n<D:multistatus xmlns:D=\"DAV:\">\n".to_owned();
    out.append(crate::text::join(responses, '\n').as_str());
    out.append("\n</D:multistatus>");
    out
}

/// An entry whose properties are asked for: its address, its name if it has one, whether it is a
/// directory, its size and when it was changed.
#[derive(Debug, Clone)]
pub struct PropItem {
    pub href: String,
    pub name: Option<String>,
    pub is_dir: bool,
    pub size: u64,
    pub modified: u64,
}

/// The properties of an entry, as XML.
pub open spec fn item_xml(e: PropItem) -> Seq<char> {
    prop_xml(e.href@, text_of(e.name), e.is_dir, e.size as nat, date_of(e.modified))
}

/// The properties of an entry and, where the request reaches into it, of what it holds.
pub open spec fn described(own: PropItem, children: Seq<PropItem>, inside: bool) -> Seq<Seq<char>> {
    seq![item_xml(own)] + if inside {
        children.map_values(|e: PropItem| item_xml(e))
    } else {
        Seq::<Seq<char>>::empty()
    }
}

/// Does a text tell the date of an entry, where it has one that every calendar knows?
pub open spec fn dated(e: PropItem, t: Seq<char>) -> bool {
    0 < e.modified <= LAST_COMMON_SECOND ==> holds_part(
        t,
        "<D:getlastmodified>"@ + moment_text(e.modified as i64, HTTP_DATE_FORMAT@)->0
            + "</D:getlastmodified>"@,
    )
}

/// What an entry tells, the whole document tells.
proof fn lemma_dated(all: Seq<Seq<char>>, e: PropItem, k: int)
    requires
        0 <= k < all.len(),
        dated(e, all[k]),
    ensures
        dated(e, multistatus_text(all)),
{
    law_document_holds_each_entry(all, k);
    if 0 < e.modified <= LAST_COMMON_SECOND {
        let part = "<D:getlastmodified>"@ + moment_text(e.modified as i64, HTTP_DATE_FORMAT@)->0
            + "</D:getlastmodified>"@;
        let whole = multistatus_text(all);
        let i = choose|i: int|
            0 <= i && i + all[k].len() <= whole.len() && #[trigger] whole.subrange(
                i,
                i + all[k].len(),
            ) == all[k];
        lemma_holds_within(
            whole.take(i),
            all[k],
            whole.skip(i + all[k].len()),
            part,
        );
        assert(whole.take(i) + all[k] + whole.skip(i + all[k].len()) =~= whole);
    }
}

/// Does a request for properties reach into a directory?
pub open spec fn reaches_inside(node: Node, depth: Option<Seq<char>>) -> bool {
    node == Node::Directory && depth != Some("0"@)
}

/// Answers a request for properties with those of the entry itself and, for a directory and a depth
/// other than `0`, with those of its entries, in the order given.
pub fn handle_propfind(
    node: Node,
    depth: &Option<String>,
    own: &PropItem,
    children: &Vec<PropItem>,
) -> (r: HttpReply)
    ensures
        r@ == if node == Node::Nothing {
            HttpView { status: 404, body: "Not found"@ }
        } else {
            HttpView {
                status: 207,
                body: multistatus_text(
                    described(*own, children@, reaches_inside(node, text_of(*depth))),
                ),
            }
        },
        node != Node::Nothing && 0 < own.modified <= LAST_COMMON_SECOND ==> holds_part(
            r.body@,
            "<D:getlastmodified>"@ + moment_text(own.modified as i64, HTTP_DATE_FORMAT@)->0
                + "</D:getlastmodified>"@,
        ),
        node == Node::Directory && text_of(*depth) != Some("0"@) ==> forall|k: int|
            0 <= k < children@.len() && 0 < (#[trigger] children@[k]).modified
                <= LAST_COMMON_SECOND ==> holds_part(
                r.body@,
                "<D:getlastmodified>"@ + moment_text(
                    children@[k].modified as i64,
                    HTTP_DATE_FORMAT@,
                )->0 + "</D:getlastmodified>"@,
            ),
{
    let inside = match propfind_children(node, depth) {
        Ok(inside) => inside,
        Err(e) => {
            return e;
        },
    };
    let mut responses: Vec<String> = Vec::new();
    responses.push(
        propfind_entry(own.href.as_str(), &own.name, own.is_dir, own.size, own.modified),
    );
    let ghost all = described(*own, children@, inside);
    if inside {
        let mut i: usize = 0;
        while i < children.len()
            invariant
                i <= children@.len(),
                all == seq![item_xml(*own)] + children@.map_values(|e: PropItem| item_xml(e)),
                responses@.len() == i + 1,
                forall|k: int| 0 <= k <= i ==> (#[trigger] responses@[k])@ == all[k],
                forall|k: int| 0 <= k < i ==> dated(#[trigger] children@[k], all[k + 1]),
                dated(*own, all[0]),
            decreases children@.len() - i,
        {
            let e = &children[i];
            responses.push(
                propfind_entry(e.href.as_str(), &e.name, e.is_dir, e.size, e.modified),
            );
            i = i + 1;
        }
    }
    let body = multistatus(&responses);
    proof {
        assert(texts(responses@) =~= all);
        assert(all[0] == item_xml(*own));
        lemma_dated(all, *own, 0);
        if inside {
            assert forall|k: int| 0 <= k < children@.len() implies dated(
                #[trigger] children@[k],
                body@,
            ) by {
                assert(all[k + 1] == item_xml(children@[k]));
                lemma_dated(all, children@[k], k + 1);
            }
        }
    }
    HttpReply { status: 207, body }
}

/// The answer to a request to change properties: nothing is changed, and that went well.
pub fn handle_proppatch(href: &str) -> (r: String)
    ensures
        r@
            == "<?xml version=\"1.0\" encoding=\"utf-8\"?>\n<D:multistatus xmlns:D=\"DAV:\">\n  <D:response>\n    <D:href>"@
            + href@
            + "</D:href>\n    <D:propstat>\n      <D:prop/>\n      <D:status>HTTP/1.1 200 OK</D:status>\n    </D:propstat>\n  </D:response>\n</D:multistatus>"@,
{
    let mut out: String =
        "<?xml version=\"1.0\" encoding=\"utf-8\"?>\n<D:multistatus xmlns:D=\"DAV:\">\n  <D:response>\n    <D:href>".to_owned();
    out.append(href);
    out.append(
        "</D:href>\n    <D:propstat>\n      <D:prop/>\n      <D:status>HTTP/1.1 200 OK</D:status>\n    </D:propstat>\n  </D:response>\n</D:multistatus>",
    );
    out
}

/// The document that describes a lock.
pub open spec fn lock_document(token: Seq<char>) -> Seq<char> {
    "<?xml version=\"1.0\" encoding=\"utf-8\"?>\n<D:prop xmlns:D=\"DAV:\">\n  <D:lockdiscovery>\n    <D:activelock>\n      <D:locktype><D:write/></D:locktype>\n      <D:lockscope><D:exclusive/></D:lockscope>\n      <D:depth>infinity</D:depth>\n      <D:timeout>Second-3600</D:timeout>\n      <D:locktoken>\n        <D:href>opaquelocktoken:"@
        + token
        + "</D:href>\n      </D:locktoken>\n      <D:owner>LanShare</D:owner>\n    </D:activelock>\n  </D:lockdiscovery>\n</D:prop>"@
}

/// The answer to a request for a lock, and the value of the header that names it. Locks are not
/// kept: every request gets one, under a token of its own.
pub fn handle_lock(token: &str) -> (r: (String, String))
    ensures
        r.0@ == lock_document(token@),
        r.1@ == "<opaquelocktoken:"@ + token@ + ">"@,
{
    let mut xml: String =
        "<?xml version=\"1.0\" encoding=\"utf-8\"?>\n<D:prop xmlns:D=\"DAV:\">\n  <D:lockdiscovery>\n    <D:activelock>\n      <D:locktype><D:write/></D:locktype>\n      <D:lockscope><D:exclusive/></D:lockscope>\n      <D:depth>infinity</D:depth>\n      <D:timeout>Second-3600</D:timeout>\n      <D:locktoken>\n        <D:href>opaquelocktoken:".to_owned();
    xml.append(token);
    xml.append(
        "</D:href>\n      </D:locktoken>\n      <D:owner>LanShare</D:owner>\n    </D:activelock>\n  </D:lockdiscovery>\n</D:prop>",
    );
    let mut header: String = "<opaquelocktoken:".to_owned();
    header.append(token);
    header.append(">");
    (xml, header)
}

/// A name in a directory, and whether it is a directory.
#[derive(Debug, Clone)]
pub struct ListItem {
    pub name: String,
    pub is_dir: bool,
}

/// A line of the page that lists a directory: the address is percent coded, the name escaped.
pub open spec fn item_html(e: ListItem) -> Seq<char> {
    "<li>"@ + (if e.is_dir {
        "📁"@
    } else {
        "📄"@
    }) + " <a href=\""@ + percent_text(e.name@) + "\">"@ + xml_text(e.name@) + "</a></li>"@
}

pub open spec fn items_html(v: Seq<ListItem>) -> Seq<char>
    decreases v.len(),
{
    if v.len() == 0 {
        Seq::<char>::empty()
    } else {
        items_html(v.drop_last()) + item_html(v.last())
    }
}

/// The page that lists a directory.
pub fn dir_listing(v: &Vec<ListItem>) -> (r: String)
    ensures
        r@
            == "<html><head><meta charset='utf-8'><title>LanShare</title></head><body><h2>LanShare WebDAV</h2><ul>"@
            + items_html(v@) + "</ul></body></html>"@,
{
    let mut out: String =
        "<html><head><meta charset='utf-8'><title>LanShare</title></head><body><h2>LanShare WebDAV</h2><ul>".to_owned();
    let ghost head = out@;
    let mut i: usize = 0;
    proof {
        assert(v@.take(0) =~= Seq::<ListItem>::empty());
        assert(out@ =~= head + items_html(v@.take(0)));
    }
    while i < v.len()
        invariant
            i <= v@.len(),
            out@ == head + items_html(v@.take(i as int)),
        decreases v@.len() - i,
    {
        let ghost before = out@;
        out.append("<li>");
        out.append(if v[i].is_dir { "📁" } else { "📄" });
        out.append(" <a href=\"");
        out.append(percent_encode(v[i].name.as_str()).as_str());
        out.append("\">");
        out.append(xml_escape(v[i].name.as_str()).as_str());
        out.append("</a></li>");
        proof {
            assert(v@.take(i + 1).drop_last() =~= v@.take(i as int));
            assert(v@.take(i + 1).last() == v@[i as int]);
            assert(out@ =~= before + item_html(v@[i as int]));
            assert(out@ =~= head + items_html(v@.take(i + 1)));
        }
        i = i + 1;
    }
    proof {
        assert(v@.take(v@.len() as int) =~= v@);
    }
    out.append("</ul></body></html>");
    out
}

/// The name of the path in a URL, as the `http` crate reads it; nothing where it is no URL.
pub uninterp spec fn url_path(text: Seq<char>) -> Option<Seq<char>>;

/// Calls the parser of `axum::http::Uri` and takes the path. The result is a function of the text.
#[verifier::external_body]
pub(crate) fn uri_path(text: &str) -> (r: Option<String>)
    ensures
        text_of(r) == url_path(text@),
{
    text.parse::<axum::http::Uri>().ok().map(|u| u.path().to_string())
}

/// Is the text a whole URL?
pub open spec fn is_url(text: Seq<char>) -> bool {
    "http://"@.is_prefix_of(text) || "https://"@.is_prefix_of(text)
}

/// The path that a `Destination` header names: a whole URL or a path, in percent coding.
pub open spec fn destination(header: Option<Seq<char>>) -> Option<Seq<char>> {
    match header {
        Some(h) => if is_url(h) {
            match url_path(h) {
                Some(p) => Some(decoded_path(p)),
                None => None,
            }
        } else {
            Some(decoded_path(h))
        },
        None => None,
    }
}

/// The path that a `Destination` header names.
pub fn get_destination(header: &Option<String>) -> (r: Option<String>)
    ensures
        text_of(r) == destination(text_of(*header)),
{
    match header {
        Some(h) => {
            if begins_with(h.as_str(), "http://") || begins_with(h.as_str(), "https://") {
                match uri_path(h.as_str()) {
                    Some(p) => Some(decode_path(p.as_str())),
                    None => None,
                }
            } else {
                Some(decode_path(h.as_str()))
            }
        },
        None => None,
    }
}

/// What stands in the way of moving or copying. `to` is what the sandbox makes of the destination.
/// Only the header `Overwrite: F` protects what is there.
pub open spec fn transfer_barrier(
    to_known: bool,
    source_exists: bool,
    dest_exists: bool,
    overwrite: Option<Seq<char>>,
) -> Option<HttpView> {
    if !to_known {
        Some(HttpView { status: 400, body: "Missing Destination header"@ })
    } else if !source_exists {
        Some(HttpView { status: 404, body: "Source not found"@ })
    } else if dest_exists && overwrite == Some("F"@) {
        Some(HttpView { status: 412, body: "Destination exists"@ })
    } else {
        None
    }
}

/// May an entry be moved or copied?
pub fn check_transfer(
    to: &Option<Vec<String>>,
    source_exists: bool,
    dest_exists: bool,
    overwrite: &Option<String>,
) -> (r: Result<(), HttpReply>)
    ensures
        match r {
            Ok(_) => transfer_barrier(to is Some, source_exists, dest_exists, text_of(*overwrite)) is None,
            Err(e) => transfer_barrier(
                to is Some,
                source_exists,
                dest_exists,
                text_of(*overwrite),
            ) == Some(e@),
        },
{
    if to.is_none() {
        return Err(status_response(400, "Missing Destination header"));
    }
    if !source_exists {
        return Err(status_response(404, "Source not found"));
    }
    let kept = match overwrite {
        Some(v) => str_eq(v.as_str(), "F"),
        None => false,
    };
    if dest_exists && kept {
        return Err(status_response(412, "Destination exists"));
    }
    Ok(())
}

/// The operations that are answered after they were tried.
#[derive(Debug, Clone, Copy, PartialEq, Eq, Structural)]
pub enum DavOp {
    /// Whether the file was there before.
    Put(bool),
    Delete,
    Mkcol,
    Move,
    Copy,
}

/// The answer to an operation that went well.
pub open spec fn done_reply(op: DavOp) -> HttpView {
    match op {
        DavOp::Put(true) => HttpView { status: 204, body: ""@ },
        DavOp::Put(false) => HttpView { status: 201, body: "Created"@ },
        DavOp::Delete => HttpView { status: 204, body: ""@ },
        DavOp::Mkcol => HttpView { status: 201, body: "Created"@ },
        DavOp::Move => HttpView { status: 201, body: "Moved"@ },
        DavOp::Copy => HttpView { status: 201, body: "Copied"@ },
    }
}

/// What an operation that failed is answered, up to the reason.
pub open spec fn failed_text(op: DavOp) -> Seq<char> {
    match op {
        DavOp::Put(_) => "Write failed: "@,
        DavOp::Delete => "Delete failed: "@,
        DavOp::Mkcol => "MKCOL failed: "@,
        DavOp::Move => "Move failed: "@,
        DavOp::Copy => "Copy failed: "@,
    }
}

/// Answers an operation after it was tried.
pub fn finish_op(op: DavOp, result: Result<(), String>) -> (r: HttpReply)
    ensures
        r@ == match result {
            Ok(_) => done_reply(op),
            Err(e) => HttpView { status: 500, body: failed_text(op) + e@ },
        },
{
    match result {
        Ok(_) => match op {
            DavOp::Put(existed) => {
                if existed {
                    status_response(204, "")
                } else {
                    status_response(201, "Created")
                }
            },
            DavOp::Delete => status_response(204, ""),
            DavOp::Mkcol => status_response(201, "Created"),
            DavOp::Move => status_response(201, "Moved"),
            DavOp::Copy => status_response(201, "Copied"),
        },
        Err(e) => {
            let mut text: String = match op {
                DavOp::Put(_) => "Write failed: ",
                DavOp::Delete => "Delete failed: ",
                DavOp::Mkcol => "MKCOL failed: ",
                DavOp::Move => "Move failed: ",
                DavOp::Copy => "Copy failed: ",
            }.to_owned();
            text.append(e.as_str());
            HttpReply { status: 500, body: text }
        },
    }
}

/// May a collection be created? Not where something is.
pub fn handle_mkcol(exists_already: bool) -> (r: Result<(), HttpReply>)
    ensures
        r is Ok <==> !exists_already,
        r matches Err(e) ==> e@ == (HttpView { status: 405, body: "Already exists"@ }),
{
    if exists_already {
        return Err(status_response(405, "Already exists"));
    }
    Ok(())
}

/// May an entry be deleted? Only where something is.
pub fn handle_delete(node: Node) -> (r: Result<(), HttpReply>)
    ensures
        r is Ok <==> node != Node::Nothing,
        r matches Err(e) ==> e@ == (HttpView { status: 404, body: "Not found"@ }),
{
    match node {
        Node::Nothing => Err(status_response(404, "Not found")),
        _ => Ok(()),
    }
}

/// The media type of a file, by its name.
pub open spec fn media_type_of(name: Seq<char>) -> Seq<char> {
    match crate::mime::extension_of(name) {
        Some(e) => crate::mime::dav_media_type(e),
        None => "application/octet-stream"@,
    }
}

/// The headers that a file is sent with: its media type, and the name under which it is saved. A
/// file without a name is saved as `download`.
pub fn handle_get(name: &Option<String>) -> (r: (String, String))
    ensures
        r.0@ == match text_of(*name) {
            Some(n) => media_type_of(n),
            None => "application/octet-stream"@,
        },
        r.1@ == "attachment"@ + "; filename*=UTF-8''"@ + percent_text(
            match text_of(*name) {
                Some(n) => n,
                None => "download"@,
            },
        ),
{
    match name {
        Some(n) => (crate::mime::guess_mime(n.as_str()), disposition(true, n.as_str())),
        None => ("application/octet-stream".to_owned(), disposition(true, "download")),
    }
}

/// The media type and the length of an entry, or that there is none.
pub fn handle_head(node: Node, name: &str, len: u64) -> (r: Result<(String, String), HttpReply>)
    ensures
        match r {
            Ok(h) => node != Node::Nothing && h.0@ == (if node == Node::Directory {
                "httpd/unix-directory"@
            } else {
                media_type_of(name@)
            }) && h.1@ == digits(len as nat),
            Err(e) => node == Node::Nothing && e@ == (HttpView { status: 404, body: "Not found"@ }),
        },
{
    match node {
        Node::Nothing => Err(status_response(404, "Not found")),
        Node::Directory => Ok(("httpd/unix-directory".to_owned(), crate::text::number(len))),
        Node::File => Ok((crate::mime::guess_mime(name), crate::text::number(len))),
    }
}

/// The properties of an entry tell what is known of it: its address, its name, whether it is a
/// directory, when it was changed and, of a file, its size.
pub proof fn law_properties_tell_what_is_known(
    href: Seq<char>,
    name: Option<Seq<char>>,
    is_dir: bool,
    size: nat,
    date: Seq<char>,
)
    ensures
        ({
            let x = prop_xml(href, name, is_dir, size, date);
            &&& holds_part(x, "<D:href>"@ + href + "</D:href>"@)
            &&& name matches Some(n) ==> holds_part(
                x,
                "<D:displayname>"@ + xml_text(n) + "</D:displayname>"@,
            )
            &&& holds_part(x, "<D:getlastmodified>"@ + date + "</D:getlastmodified>"@)
            &&& is_dir ==> holds_part(x, "<D:resourcetype><D:collection/></D:resourcetype>"@)
            &&& !is_dir ==> holds_part(x, "<D:resourcetype/>"@) && holds_part(
                x,
                "<D:getcontentlength>"@ + digits(size) + "</D:getcontentlength>"@,
            )
        }),
{
    let head = prop_head(href, name);
    let tail = prop_tail(is_dir, size, date);
    let none = Seq::<char>::empty();
    lemma_head_holds(href, name);
    lemma_tail_holds(is_dir, size, date);
    lemma_holds_within(none, head, tail, "<D:href>"@ + href + "</D:href>"@);
    if let Some(n) = name {
        lemma_holds_within(
            none,
            head,
            tail,
            "<D:displayname>"@ + xml_text(n) + "</D:displayname>"@,
        );
    }
    lemma_holds_within(
        head,
        tail,
        none,
        "<D:getlastmodified>"@ + date + "</D:getlastmodified>"@,
    );
    if is_dir {
        lemma_holds_within(head, tail, none, "<D:resourcetype><D:collection/></D:resourcetype>"@);
    } else {
        lemma_holds_within(head, tail, none, "<D:resourcetype/>"@);
        lemma_holds_within(
            head,
            tail,
            none,
            "<D:getcontentlength>"@ + digits(size) + "</D:getcontentlength>"@,
        );
    }
    assert(none + head + tail =~= prop_xml(href, name, is_dir, size, date));
    assert(head + tail + none =~= prop_xml(href, name, is_dir, size, date));
}

/// A value between two tags stands in a text that holds the tags with more around them.
proof fn lemma_tagged(
    pre: Seq<char>,
    more: Seq<char>,
    open: Seq<char>,
    value: Seq<char>,
    close: Seq<char>,
    rest: Seq<char>,
    post: Seq<char>,
)
    ensures
        holds_part(pre + (more + open) + value + (close + rest) + post, open + value + close),
{
    lemma_holds_middle(pre + more, open + value + close, rest + post);
    assert((pre + more) + (open + value + close) + (rest + post) =~= pre + (more + open) + value + (
    close + rest) + post);
}

proof fn lemma_head_holds(href: Seq<char>, name: Option<Seq<char>>)
    ensures
        holds_part(prop_head(href, name), "<D:href>"@ + href + "</D:href>"@),
        name matches Some(n) ==> holds_part(
            prop_head(href, name),
            "<D:displayname>"@ + xml_text(n) + "</D:displayname>"@,
        ),
{
    let none = Seq::<char>::empty();
    let shown = match name {
        Some(n) => xml_text(n),
        None => "share"@,
    };
    let open = "<D:response>\n  <D:href>"@;
    let mid = "</D:href>\n  <D:propstat>\n    <D:prop>\n      <D:displayname>"@;
    let close = "</D:displayname>\n      "@;
    lemma_head_tags();
    lemma_tagged(
        none,
        open.take(open.len() - 8),
        "<D:href>"@,
        href,
        "</D:href>"@,
        mid.skip(9),
        shown + close,
    );
    assert(none + open + href + mid + (shown + close) =~= prop_head(href, name));
    lemma_tagged(
        open + href,
        mid.take(mid.len() - 15),
        "<D:displayname>"@,
        shown,
        "</D:displayname>"@,
        close.skip(16),
        none,
    );
    assert(open + href + mid + shown + close + none =~= prop_head(href, name));
}

proof fn lemma_head_tags()
    ensures
        ({
            let open = "<D:response>\n  <D:href>"@;
            let mid = "</D:href>\n  <D:propstat>\n    <D:prop>\n      <D:displayname>"@;
            let close = "</D:displayname>\n      "@;
            &&& open == open.take(open.len() - 8) + "<D:href>"@
            &&& mid == "</D:href>"@ + mid.skip(9)
            &&& mid == mid.take(mid.len() - 15) + "<D:displayname>"@
            &&& close == "</D:displayname>"@ + close.skip(16)
        }),
{
    reveal_strlit("<D:response>\n  <D:href>");
    reveal_strlit("<D:href>");
    reveal_strlit("</D:href>\n  <D:propstat>\n    <D:prop>\n      <D:displayname>");
    reveal_strlit("</D:href>");
    reveal_strlit("<D:displayname>");
    reveal_strlit("</D:displayname>\n      ");
    reveal_strlit("</D:displayname>");
    let open = "<D:response>\n  <D:href>"@;
    let mid = "</D:href>\n  <D:propstat>\n    <D:prop>\n      <D:displayname>"@;
    let close = "</D:displayname>\n      "@;
    assert(open =~= open.take(open.len() - 8) + "<D:href>"@);
    assert(mid =~= "</D:href>"@ + mid.skip(9));
    assert(mid =~= mid.take(mid.len() - 15) + "<D:displayname>"@);
    assert(close =~= "</D:displayname>"@ + close.skip(16));
}

proof fn lemma_date_tags()
    ensures
        ({
            let before = "\n      <D:getlastmodified>"@;
            let after = "</D:getlastmodified>\n      "@;
            &&& before == before.take(before.len() - 19) + "<D:getlastmodified>"@
            &&& after == "</D:getlastmodified>"@ + after.skip(20)
        }),
{
    reveal_strlit("\n      <D:getlastmodified>");
    reveal_strlit("<D:getlastmodified>");
    reveal_strlit("</D:getlastmodified>\n      ");
    reveal_strlit("</D:getlastmodified>");
    let before = "\n      <D:getlastmodified>"@;
    let after = "</D:getlastmodified>\n      "@;
    assert(before =~= before.take(before.len() - 19) + "<D:getlastmodified>"@);
    assert(after =~= "</D:getlastmodified>"@ + after.skip(20));
}

proof fn lemma_tail_holds(is_dir: bool, size: nat, date: Seq<char>)
    ensures
        ({
            let t = prop_tail(is_dir, size, date);
            &&& holds_part(t, "<D:getlastmodified>"@ + date + "</D:getlastmodified>"@)
            &&& is_dir ==> holds_part(t, "<D:resourcetype><D:collection/></D:resourcetype>"@)
            &&& !is_dir ==> holds_part(t, "<D:resourcetype/>"@) && holds_part(
                t,
                "<D:getcontentlength>"@ + digits(size) + "</D:getcontentlength>"@,
            )
        }),
{
    let t = prop_tail(is_dir, size, date);
    let none = Seq::<char>::empty();
    let kind = if is_dir {
        "<D:resourcetype><D:collection/></D:resourcetype>"@
    } else {
        "<D:resourcetype/>"@
    };
    let length = if is_dir {
        none
    } else {
        "<D:getcontentlength>"@ + digits(size) + "</D:getcontentlength>"@
    };
    let end =
        "\n    </D:prop>\n    <D:status>HTTP/1.1 200 OK</D:status>\n  </D:propstat>\n</D:response>"@;
    let before = "\n      <D:getlastmodified>"@;
    let after = "</D:getlastmodified>\n      "@;
    lemma_date_tags();
    lemma_tagged(
        kind,
        before.take(before.len() - 19),
        "<D:getlastmodified>"@,
        date,
        "</D:getlastmodified>"@,
        after.skip(20),
        length + end,
    );
    assert(kind + before + date + after + (length + end) =~= t);
    lemma_holds_middle(none, kind, before + date + after + length + end);
    assert(none + kind + (before + date + after + length + end) =~= t);
    lemma_holds_middle(kind + before + date + after, length, end);
    assert((kind + before + date + after) + length + end =~= t);
}

/// A document holds the properties of each entry that it describes.
pub proof fn law_document_holds_each_entry(responses: Seq<Seq<char>>, k: int)
    requires
        0 <= k < responses.len(),
    ensures
        holds_part(multistatus_text(responses), responses[k]),
{
    crate::text::law_joined_holds_each(responses, '\n', k);
    lemma_holds_within(
        "<?xml version=\"1.0\" encoding=\"utf-8\"?>\n<D:multistatus xmlns:D=\"DAV:\">\n"@,
        lines(responses),
        "\n</D:multistatus>"@,
        responses[k],
    );
}

/// A request for properties describes the entry itself first; with a depth other than 0 it also
/// describes every entry of a directory, in order, and with the depth 0 none of them.
pub proof fn law_which_entries_are_described(
    own: PropItem,
    children: Seq<PropItem>,
    node: Node,
    depth: Option<Seq<char>>,
    k: int,
)
    requires
        0 <= k < children.len(),
    ensures
        ({
            let d = described(own, children, reaches_inside(node, depth));
            &&& d[0] == item_xml(own)
            &&& node == Node::Directory && depth != Some("0"@) ==> d.len() == children.len() + 1
                && d[k + 1] == item_xml(children[k])
            &&& node != Node::Directory || depth == Some("0"@) ==> d.len() == 1
        }),
        item_xml(own) == prop_xml(
            own.href@,
            text_of(own.name),
            own.is_dir,
            own.size as nat,
            date_of(own.modified),
        ),
        own.modified == 0 ==> date_of(own.modified) == crate::clock::HTTP_EPOCH@,
        0 < own.modified <= i64::MAX && moment_text(own.modified as i64, HTTP_DATE_FORMAT@) is Some
            ==> date_of(own.modified) == moment_text(own.modified as i64, HTTP_DATE_FORMAT@)->0,
{
}

/// Escaping changes the four special characters and nothing else, one by one.
pub proof fn law_escaping(a: Seq<char>, b: Seq<char>, c: char)
    ensures
        xml_text(a + b) == xml_text(a) + xml_text(b),
        c != '&' && c != '<' && c != '>' && c != '"' ==> xml_text(seq![c]) == seq![c],
        xml_text(seq!['&']) == "&amp;"@,
        xml_text(seq!['<']) == "&lt;"@,
        xml_text(seq!['>']) == "&gt;"@,
        xml_text(seq!['"']) == "&quot;"@,
    decreases b.len(),
{
    lemma_one(c);
    lemma_one('&');
    lemma_one('<');
    lemma_one('>');
    lemma_one('"');
    if b.len() == 0 {
        assert(a + b =~= a);
        assert(xml_text(a) + xml_text(b) =~= xml_text(a));
    } else {
        law_escaping(a, b.drop_last(), c);
        assert((a + b).drop_last() =~= a + b.drop_last());
        assert((a + b).last() == b.last());
        assert(xml_text(a + b) =~= xml_text(a) + xml_text(b));
    }
}

proof fn lemma_one(c: char)
    ensures
        xml_text(seq![c]) == xml_char(c),
{
    let s = seq![c];
    assert(s.drop_last() =~= Seq::<char>::empty());
    reveal_with_fuel(xml_text, 2);
    assert(xml_text(s) =~= xml_char(c));
}

/// The PIN opens the share in simple mode, as a token or as the password of `share`; an
/// administrator's session opens it in both modes; and in account mode so do every session and
/// every name with its password.
pub proof fn law_who_is_let_in(
    t: Seq<char>,
    pin: Seq<char>,
    session: UserView,
    login: Option<UserView>,
)
    ensures
        let_in(CredentialView::Bearer(pin), true, pin, None, login) == Some(pin_account()),
        let_in(CredentialView::Query(pin), true, pin, None, login) == Some(pin_account()),
        let_in(CredentialView::Basic("share"@, pin), true, pin, None, login) == Some(pin_account()),
        session.role == "admin"@ && t != pin ==> let_in(
            CredentialView::Bearer(t),
            true,
            pin,
            Some(session),
            login,
        ) == Some(session) && let_in(CredentialView::Query(t), true, pin, Some(session), login)
            == Some(session),
        let_in(CredentialView::Bearer(t), false, pin, Some(session), login) == Some(session),
        let_in(CredentialView::Query(t), false, pin, Some(session), login) == Some(session),
        let_in(CredentialView::Basic(t, pin), false, pin, None, login) == login,
        pin_account().id == 0 && pin_account().username == "share"@,
{
}

/// A name and a password in a header are read as they were written: Base64 of both in UTF-8 with a
/// colon between them, the first colon being the one that counts.
pub proof fn law_basic_credentials(name: Seq<char>, password: Seq<char>, coded: Seq<char>)
    requires
        !name.contains(':'),
        base64_bytes(coded) == Some(vstd::utf8::encode_utf8(name.push(':') + password)),
    ensures
        basic(Some("Basic "@ + coded)) == Some((name, password)),
        basic(Some(coded)) is None || "Basic "@.is_prefix_of(coded),
        basic(None) is None,
{
    let p = "Basic "@;
    let h = p + coded;
    assert(h.subrange(0, p.len() as int) =~= p);
    assert(h.skip(p.len() as int) =~= coded);
    let s = name.push(':') + password;
    vstd::utf8::encode_utf8_decode_utf8(s);
    vstd::utf8::encode_utf8_valid_utf8(s);
    crate::text::law_cutting(s, ':');
    assert(s[name.len() as int] == ':');
    assert(s.contains(':'));
    let c = cut_at(s, ':')->0;
    lemma_same_cut(name, password, c.0, c.1, ':');
}

/// There is one way to cut a text at the first of a character.
proof fn lemma_same_cut(a: Seq<char>, b: Seq<char>, x: Seq<char>, y: Seq<char>, c: char)
    requires
        !a.contains(c),
        !x.contains(c),
        a.push(c) + b == x.push(c) + y,
    ensures
        a == x,
        b == y,
{
    let s = a.push(c) + b;
    if a.len() < x.len() {
        assert(s[a.len() as int] == c);
        assert((x.push(c) + y)[a.len() as int] == x[a.len() as int]);
        assert(x.contains(x[a.len() as int]));
    }
    if x.len() < a.len() {
        assert((x.push(c) + y)[x.len() as int] == c);
        assert(s[x.len() as int] == a[x.len() as int]);
        assert(a.contains(a[x.len() as int]));
    }
    assert(a =~= s.take(a.len() as int));
    assert(x =~= s.take(x.len() as int));
    assert(b =~= s.skip(a.len() as int + 1));
    assert(y =~= s.skip(x.len() as int + 1));
}

/// The token in a query is the value of the first member that is named `token` or `pin`; members of
/// other names do not matter.
pub proof fn law_first_token_counts(pairs: Seq<Seq<char>>, value: Seq<char>, k: int)
    requires
        0 <= k < pairs.len(),
        pairs[k] == "token="@ + value || pairs[k] == "pin="@ + value,
        forall|i: int|
            0 <= i < k ==> !"token="@.is_prefix_of(#[trigger] pairs[i]) && !"pin="@.is_prefix_of(
                pairs[i],
            ),
    ensures
        first_token(pairs) == Some(value),
    decreases k,
{
    lemma_token_value(pairs[0]);
    if k == 0 {
        lemma_token_of("token"@, "token="@, value);
        lemma_token_of("pin"@, "pin="@, value);
    } else {
        let rest = pairs.skip(1);
        assert(rest[k - 1] == pairs[k]);
        assert forall|i: int| 0 <= i < k - 1 implies !"token="@.is_prefix_of(#[trigger] rest[i])
            && !"pin="@.is_prefix_of(rest[i]) by {
            assert(rest[i] == pairs[i + 1]);
        }
        law_first_token_counts(rest, value, k - 1);
    }
}

proof fn lemma_token_of(key: Seq<char>, start: Seq<char>, value: Seq<char>)
    requires
        key == "token"@ && start == "token="@ || key == "pin"@ && start == "pin="@,
    ensures
        token_value(start + value) == Some(value),
{
    reveal_strlit("token");
    reveal_strlit("token=");
    reveal_strlit("pin");
    reveal_strlit("pin=");
    assert(start =~= key.push('='));
    let s = start + value;
    crate::text::law_cutting(s, '=');
    assert(s[key.len() as int] == '=');
    assert(s.contains('='));
    assert(!key.contains('='));
    let c = cut_at(s, '=')->0;
    assert(s =~= key.push('=') + value);
    lemma_same_cut(key, value, c.0, c.1, '=');
}

/// A member has a token only if it begins with its name.
proof fn lemma_token_value(pair: Seq<char>)
    ensures
        token_value(pair) is Some ==> "token="@.is_prefix_of(pair) || "pin="@.is_prefix_of(pair),
{
    reveal_strlit("token");
    reveal_strlit("token=");
    reveal_strlit("pin");
    reveal_strlit("pin=");
    crate::text::law_cutting(pair, '=');
    if let Some(kv) = cut_at(pair, '=') {
        let key = kv.0;
        if key == "token"@ {
            assert(pair.subrange(0, 6) =~= "token="@);
        }
        if key == "pin"@ {
            assert(pair.subrange(0, 4) =~= "pin="@);
        }
    }
}

/// A header comes before the query, and a bearer token before a name and a password.
pub proof fn law_which_credential_counts(
    token: Option<Seq<char>>,
    pair: Option<(Seq<char>, Seq<char>)>,
    query: Option<Seq<char>>,
)
    ensures
        token matches Some(t) ==> shown_credential(token, pair, query) == CredentialView::Bearer(t),
        token is None && pair is Some ==> shown_credential(token, pair, query)
            == CredentialView::Basic((pair->0).0, (pair->0).1),
        token is None && pair is None && query is Some ==> shown_credential(token, pair, query)
            == CredentialView::Query(query->0),
        token is None && pair is None && query is None ==> shown_credential(token, pair, query)
            == CredentialView::Nothing,
{
}

/// Each method is served under its name, and needs its permission: what shows a file needs `read`,
/// what stores one `write`, and so on; a name of no method is not served.
pub proof fn law_methods_need_their_permission(u: UserView, name: Seq<char>)
    ensures
        ({
            let served = method_of(name) is Some && may_use(u, method_of(name)->0);
            &&& name == "GET"@ || name == "HEAD"@ || name == "PROPFIND"@ ==> served == allowed(
                u,
                "read"@,
            )
            &&& name == "PUT"@ || name == "COPY"@ ==> served == allowed(u, "write"@)
            &&& name == "DELETE"@ ==> served == allowed(u, "delete"@)
            &&& name == "MKCOL"@ ==> served == allowed(u, "mkdir"@)
            &&& name == "MOVE"@ ==> served == allowed(u, "rename"@)
            &&& name == "OPTIONS"@ || name == "PROPPATCH"@ || name == "LOCK"@ || name == "UNLOCK"@
                ==> served
            &&& name == "GET"@ <==> method_of(name) == Some(DavMethod::Get)
            &&& name == "HEAD"@ <==> method_of(name) == Some(DavMethod::Head)
            &&& name == "PROPFIND"@ <==> method_of(name) == Some(DavMethod::Propfind)
            &&& name == "PUT"@ <==> method_of(name) == Some(DavMethod::Put)
            &&& name == "COPY"@ <==> method_of(name) == Some(DavMethod::Copy)
            &&& name == "MOVE"@ <==> method_of(name) == Some(DavMethod::Move)
            &&& name == "DELETE"@ <==> method_of(name) == Some(DavMethod::Delete)
            &&& name == "MKCOL"@ <==> method_of(name) == Some(DavMethod::Mkcol)
            &&& name == "OPTIONS"@ <==> method_of(name) == Some(DavMethod::Options)
            &&& name == "PROPPATCH"@ <==> method_of(name) == Some(DavMethod::Proppatch)
            &&& name == "LOCK"@ <==> method_of(name) == Some(DavMethod::Lock)
            &&& name == "UNLOCK"@ <==> method_of(name) == Some(DavMethod::Unlock)
        }),
{
    reveal_strlit("OPTIONS");
    reveal_strlit("GET");
    reveal_strlit("HEAD");
    reveal_strlit("PUT");
    reveal_strlit("DELETE");
    reveal_strlit("MKCOL");
    reveal_strlit("MOVE");
    reveal_strlit("COPY");
    reveal_strlit("PROPFIND");
    reveal_strlit("PROPPATCH");
    reveal_strlit("LOCK");
    reveal_strlit("UNLOCK");
    assert("OPTIONS"@.len() == 7 && "GET"@.len() == 3 && "HEAD"@.len() == 4 && "PUT"@.len() == 3
        && "DELETE"@.len() == 6 && "MKCOL"@.len() == 5 && "MOVE"@.len() == 4 && "COPY"@.len() == 4
        && "PROPFIND"@.len() == 8 && "PROPPATCH"@.len() == 9 && "LOCK"@.len() == 4
        && "UNLOCK"@.len() == 6);
    assert("GET"@[0] == 'G' && "PUT"@[0] == 'P');
    assert("HEAD"@[0] == 'H' && "MOVE"@[0] == 'M' && "COPY"@[0] == 'C' && "LOCK"@[0] == 'L');
    assert("DELETE"@[0] == 'D' && "UNLOCK"@[0] == 'U');
}

/// An entry is moved or copied if it is there and the destination is a place inside; what is at the
/// destination is protected by `Overwrite: F` and by nothing else.
pub proof fn law_what_may_be_moved(
    to_known: bool,
    source_exists: bool,
    dest_exists: bool,
    overwrite: Option<Seq<char>>,
)
    ensures
        transfer_barrier(to_known, source_exists, dest_exists, overwrite) is None <==> to_known
            && source_exists && (!dest_exists || overwrite != Some("F"@)),
        !to_known ==> transfer_barrier(to_known, source_exists, dest_exists, overwrite)->0.status
            == 400,
        to_known && !source_exists ==> transfer_barrier(
            to_known,
            source_exists,
            dest_exists,
            overwrite,
        )->0.status == 404,
        to_known && source_exists && dest_exists && overwrite == Some("F"@) ==> transfer_barrier(
            to_known,
            source_exists,
            dest_exists,
            overwrite,
        )->0.status == 412,
{
}

/// What was done is answered with success: 201 where something new is there, 204 where not.
pub proof fn law_success_is_told(op: DavOp)
    ensures
        done_reply(op).status == match op {
            DavOp::Put(true) | DavOp::Delete => 204u16,
            _ => 201,
        },
{
}

/// A destination is the path that the header names, with its percent coding undone; of a whole URL
/// only the path counts.
pub proof fn law_destinations(h: Seq<char>)
    ensures
        destination(None) is None,
        !"http://"@.is_prefix_of(h) && !"https://"@.is_prefix_of(h) ==> destination(Some(h))
            == Some(decoded_path(h)),
        "http://"@.is_prefix_of(h) || "https://"@.is_prefix_of(h) ==> (url_path(h) matches Some(
            p,
        ) ==> destination(Some(h)) == Some(decoded_path(p))) && (url_path(h) is None
            ==> destination(Some(h)) is None),
{
}

/// The page of a directory links each of its entries, under its name.
pub proof fn law_page_links_each_entry(v: Seq<ListItem>, k: int)
    requires
        0 <= k < v.len(),
    ensures
        holds_part(
            items_html(v),
            "<a href=\""@ + percent_text(v[k].name@) + "\">"@ + xml_text(v[k].name@) + "</a>"@,
        ),
    decreases v.len(),
{
    let none = Seq::<char>::empty();
    let part = "<a href=\""@ + percent_text(v[k].name@) + "\">"@ + xml_text(v[k].name@) + "</a>"@;
    let front = items_html(v.drop_last());
    let last = item_html(v.last());
    if k == v.len() - 1 {
        lemma_item_links(v.last());
        lemma_holds_within(front, last, none, part);
        assert(front + last + none =~= items_html(v));
    } else {
        law_page_links_each_entry(v.drop_last(), k);
        lemma_holds_within(none, front, last, part);
        assert(none + front + last =~= items_html(v));
    }
}

proof fn lemma_item_links(e: ListItem)
    ensures
        holds_part(
            item_html(e),
            "<a href=\""@ + percent_text(e.name@) + "\">"@ + xml_text(e.name@) + "</a>"@,
        ),
{
    let icon = if e.is_dir {
        "📁"@
    } else {
        "📄"@
    };
    lemma_link_tags();
    let a = percent_text(e.name@);
    let b = xml_text(e.name@);
    let part = "<a href=\""@ + a + "\">"@ + b + "</a>"@;
    let pre = "<li>"@ + icon + seq![' '];
    lemma_holds_middle(pre, part, "</li>"@);
    assert(pre + part + "</li>"@ =~= "<li>"@ + icon + (seq![' '] + "<a href=\""@) + a + "\">"@ + b + (
    "</a>"@ + "</li>"@));
}

proof fn lemma_link_tags()
    ensures
        " <a href=\""@ == seq![' '] + "<a href=\""@,
        "</a></li>"@ == "</a>"@ + "</li>"@,
{
    reveal_strlit(" <a href=\"");
    reveal_strlit("<a href=\"");
    reveal_strlit("</a></li>");
    reveal_strlit("</a>");
    reveal_strlit("</li>");
    assert(" <a href=\""@ =~= seq![' '] + "<a href=\""@);
    assert("</a></li>"@ =~= "</a>"@ + "</li>"@);
}

/// A lock is described under the token that names it.
pub proof fn law_lock_names_its_token(token: Seq<char>)
    ensures
        holds_part(lock_document(token), token),
{
    lemma_holds_middle(
        "<?xml version=\"1.0\" encoding=\"utf-8\"?>\n<D:prop xmlns:D=\"DAV:\">\n  <D:lockdiscovery>\n    <D:activelock>\n      <D:locktype><D:write/></D:locktype>\n      <D:lockscope><D:exclusive/></D:lockscope>\n      <D:depth>infinity</D:depth>\n      <D:timeout>Second-3600</D:timeout>\n      <D:locktoken>\n        <D:href>opaquelocktoken:"@,
        token,
        "</D:href>\n      </D:locktoken>\n      <D:owner>LanShare</D:owner>\n    </D:activelock>\n  </D:lockdiscovery>\n</D:prop>"@,
    );
}

} // verus!
