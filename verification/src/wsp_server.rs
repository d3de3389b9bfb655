//! The server's side of a connection as a state machine.
//!
//! [`handle_frame`] takes a request to a reply, or to a piece of work on the files or the
//! accounts; the `complete_..` functions take the outcome of that work to the reply.
use vstd::prelude::*;
use vstd::set_lib::{lemma_int_range, lemma_len_subset, set_int_range};
use crate::bytes::{
    be64, byte_range, from_be64, law_from_be64, push_be64, push_range, read_be64,
};
use crate::db::{
    allowed, audit_of, pin_account, share_user, user_of, Audit, AuditView, User, UserView,
};
use crate::frame::{
    FrameView, WspFrame, MSG_AUTH_ACK, MSG_DOWNLOAD_DATA, MSG_DOWNLOAD_END, MSG_HELLO_ACK,
    MSG_KEEPALIVE, MSG_LIST_DIR_RESP, MSG_OP_ACK, MSG_TRASH_LIST_RESP, WSP_VERSION,
};
use crate::gaps::Gaps;
use crate::paths::{is_inside, stays_inside};
use crate::mime::{extension_of, split_name};
use crate::text::{digits, finishes_with, number, str_eq};
use crate::wsp::{
    audit_name, bump, conn_can, conn_ok, error_frame, error_reply, has_room, op_ack, op_ack_reply,
    received, upload_ack, upload_ack_reply, AuthAckMsg, Body, BodyView, ConnState, ConnView, DirEntryMsg,
    DownloadEndMsg, HelloAckMsg, ListDirRespMsg, Reply, ReplyView, Request, Step, StepView,
    TrashEntry, UploadClosed, UploadState, UploadView, Work,
    WorkView, MAX_UPLOAD_SIZE,
};

verus! {

/// Does a reply carry the next sequence number, and does the connection count it?
pub open spec fn answers(c: ConnView, d: ConnView, r: ReplyView) -> bool {
    d.seq == c.seq + 1 && r.seq_num == d.seq
}

/// Something that the server does on a connection, as far as it sends frames.
pub enum Exchange {
    /// It handles a request, which it may answer at once.
    Request(u32, Request),
    /// It sends one frame: the greeting, or the answer after work was done.
    Answer(ReplyView),
    /// It sends a file in so many pieces, and the frame that ends the download.
    Download(nat),
}

/// Does the connection go from one state to another by an exchange?
pub open spec fn follows(c: ConnView, e: Exchange, d: ConnView) -> bool {
    match e {
        Exchange::Request(sid, req) => has_room(c) && d == next_step(c, sid, req).0,
        Exchange::Answer(r) => c.seq < u32::MAX && answers(c, d, r),
        Exchange::Download(n) => c.seq + n + 2 <= u32::MAX && d.seq == c.seq + n + 2,
    }
}

/// The sequence numbers of the frames that an exchange sends, in order.
pub open spec fn numbers(c: ConnView, e: Exchange) -> Seq<int> {
    match e {
        Exchange::Request(sid, req) => match next_step(c, sid, req).1 {
            StepView::Reply(r) => seq![r.seq_num as int],
            StepView::CloseUpload { reply, .. } => seq![reply.seq_num as int],
            StepView::Work(_) => Seq::<int>::empty(),
        },
        Exchange::Answer(r) => seq![r.seq_num as int],
        Exchange::Download(n) => Seq::new(
            n + 1,
            |i: int|
                if i < n {
                    c.seq + 1 + i
                } else {
                    c.seq + n + 2
                },
        ),
    }
}

/// The sequence numbers of all frames of several exchanges, the first of which begins in the first
/// state, and each other one where the one before it has led.
pub open spec fn all_numbers(states: Seq<ConnView>, exchanges: Seq<Exchange>) -> Seq<int>
    decreases exchanges.len(),
{
    if exchanges.len() == 0 {
        Seq::<int>::empty()
    } else {
        all_numbers(states, exchanges.drop_last()) + numbers(
            states[exchanges.len() - 1],
            exchanges.last(),
        )
    }
}

/// Takes the next sequence number and answers with an error.
pub open spec fn fail(c: ConnView, sid: u32, code: u32, text: Seq<char>) -> (ConnView, StepView) {
    (bump(c), StepView::Reply(error_reply(sid, bump(c).seq, code, text)))
}

/// Takes the next sequence number and answers that an upload cannot go on.
pub open spec fn fail_upload(c: ConnView, sid: u32, offset: u64, text: Seq<char>) -> (
    ConnView,
    StepView,
) {
    (bump(c), StepView::Reply(upload_ack_reply(sid, bump(c).seq, false, offset, Some(text))))
}

/// Does the work if the permission is there; if not, the error carries the number that the request
/// itself took.
pub open spec fn gated(
    c: ConnView,
    sid: u32,
    perm: Seq<char>,
    refusal: Seq<char>,
    work: WorkView,
) -> (ConnView, StepView) {
    if conn_can(c, perm) {
        (c, StepView::Work(work))
    } else {
        (c, StepView::Reply(error_reply(sid, c.seq, 403, refusal)))
    }
}

/// Works on an entry of the trash, if its name stays inside the trash. What deletes needs the
/// permission for it.
pub open spec fn trash_entry(
    c: ConnView,
    sid: u32,
    deletes: bool,
    name: Seq<char>,
    work: WorkView,
) -> (ConnView, StepView) {
    if deletes && !conn_can(c, "delete"@) {
        (c, StepView::Reply(error_reply(sid, c.seq, 403, "无删除权限"@)))
    } else if stays_inside(name) {
        (c, StepView::Work(work))
    } else {
        (bump(c), StepView::Reply(op_ack_reply(sid, bump(c).seq, false, Some("路径非法"@))))
    }
}

/// The message about bytes that would go past the announced size.
pub open spec fn overrun_text(offset: nat, len: nat, size: nat) -> Seq<char> {
    "写入越界: offset="@ + digits(offset) + " + len="@ + digits(len) + " > size="@ + digits(size)
}

/// A piece of an upload: eight bytes of offset, then the bytes to be written.
pub open spec fn upload_data_step(c: ConnView, sid: u32, payload: Seq<u8>) -> (ConnView, StepView) {
    if payload.len() < 8 {
        fail(c, sid, 400, "UploadData 太短"@)
    } else {
        let offset = from_be64(payload.take(8));
        let data = payload.skip(8);
        if !c.uploads.contains_key(sid) {
            fail_upload(c, sid, offset as u64, "未找到上传会话"@)
        } else if offset + data.len() > c.uploads[sid].size {
            fail_upload(
                c,
                sid,
                offset as u64,
                overrun_text(offset as nat, data.len(), c.uploads[sid].size as nat),
            )
        } else {
            (c, StepView::Work(WorkView::WriteUpload(offset as u64, data)))
        }
    }
}

/// The end of an upload: the file is kept if and only if every byte of what was announced has
/// arrived.
pub open spec fn upload_end_step(c: ConnView, sid: u32) -> (ConnView, StepView) {
    if !c.uploads.contains_key(sid) {
        fail(c, sid, 400, "未找到上传会话"@)
    } else {
        let up = c.uploads[sid];
        let d = ConnView { uploads: c.uploads.remove(sid), ..bump(c) };
        if received(up) != up.size {
            (
                d,
                StepView::CloseUpload {
                    path: up.path,
                    keep: false,
                    audit: None,
                    reply: op_ack_reply(
                        sid,
                        d.seq,
                        false,
                        Some(
                            "大小不匹配: 声明 "@ + digits(up.size as nat) + " 实际 "@ + digits(
                                received(up) as nat,
                            ),
                        ),
                    ),
                },
            )
        } else {
            (
                d,
                StepView::CloseUpload {
                    path: up.path,
                    keep: true,
                    audit: Some(
                        AuditView {
                            user_id: None,
                            username: audit_name(c),
                            action: "upload"@,
                            path: Some(up.path),
                            detail: Some(digits(received(up) as nat) + " bytes"@),
                        },
                    ),
                    reply: op_ack_reply(sid, d.seq, true, None),
                },
            )
        }
    }
}

/// Two hexadecimal digits, upper case.
pub open spec fn hex_digit(d: nat) -> char {
    if d < 10 {
        (48 + d) as char
    } else {
        (55 + d % 16) as char
    }
}

pub open spec fn hex_byte(b: u8) -> Seq<char> {
    seq![hex_digit(b as nat / 16), hex_digit(b as nat % 16)]
}

/// What a request of an authenticated connection comes to. Its sequence number has been taken.
pub open spec fn served(c: ConnView, sid: u32, req: Request) -> (ConnView, StepView) {
    match req {
        Request::Malformed(e) => (c, StepView::Reply(error_reply(sid, c.seq, 400, e@))),
        Request::ListDir(m) => gated(
            c,
            sid,
            "read"@,
            "无读取权限"@,
            WorkView::ListDir(m.path@),
        ),
        Request::Mkdir(m) => gated(
            c,
            sid,
            "mkdir"@,
            "无创建目录权限"@,
            WorkView::Mkdir(m.path@),
        ),
        Request::Rename(m) => gated(
            c,
            sid,
            "rename"@,
            "无重命名权限"@,
            WorkView::Rename(m.old_path@, m.new_path@),
        ),
        Request::Delete(m) => gated(
            c,
            sid,
            "delete"@,
            "无删除权限"@,
            WorkView::Discard(m.path@),
        ),
        Request::UploadStart(m) => if !conn_can(c, "write"@) {
            (
                c,
                StepView::Reply(
                    upload_ack_reply(sid, c.seq, false, 0, Some("无上传权限"@)),
                ),
            )
        } else if m.size > MAX_UPLOAD_SIZE {
            fail_upload(c, sid, 0, "文件超过上限 10GB"@)
        } else {
            (c, StepView::Work(WorkView::OpenUpload(m.path@, m.size)))
        },
        Request::UploadData(payload) => upload_data_step(c, sid, payload@),
        Request::UploadEnd => upload_end_step(c, sid),
        Request::DownloadReq(m) => gated(
            c,
            sid,
            "read"@,
            "无读取权限"@,
            WorkView::Download(m.path@, m.offset),
        ),
        Request::TrashList => (c, StepView::Work(WorkView::TrashList)),
        Request::TrashRestore(n) => trash_entry(c, sid, false, n@, WorkView::TrashRestore(n@)),
        Request::TrashDelete(n) => trash_entry(c, sid, true, n@, WorkView::TrashDelete(n@)),
        Request::TrashEmpty => gated(
            c,
            sid,
            "delete"@,
            "无删除权限"@,
            WorkView::TrashEmpty,
        ),
        Request::KeepAlive => (
            bump(c),
            StepView::Reply(
                ReplyView {
                    msg_type: MSG_KEEPALIVE,
                    stream_id: sid,
                    seq_num: bump(c).seq,
                    body: BodyView::Empty,
                },
            ),
        ),
        Request::Unknown(t) => fail(c, sid, 400, "未知消息类型: 0x"@ + hex_byte(t)),
        Request::Hello | Request::Auth(_) | Request::MalformedAuth(_) => (
            c,
            StepView::Reply(error_reply(sid, c.seq, 401, "未认证"@)),
        ),
    }
}

/// What a request comes to: the connection after it, and the reply or the work.
///
/// A greeting is answered, and a token is checked, at any time. Everything else is refused until
/// the connection is authenticated.
pub open spec fn next_step(c: ConnView, sid: u32, req: Request) -> (ConnView, StepView) {
    let d = bump(c);
    match req {
        Request::Hello => (
            d,
            StepView::Reply(
                ReplyView {
                    msg_type: MSG_HELLO_ACK,
                    stream_id: sid,
                    seq_num: d.seq,
                    body: BodyView::HelloAck {
                        server_name: "LanShare"@,
                        version: WSP_VERSION,
                        ok: true,
                    },
                },
            ),
        ),
        Request::Auth(m) => (d, StepView::Work(WorkView::CheckToken(m.token@))),
        Request::MalformedAuth(e) => (d, StepView::Reply(error_reply(sid, d.seq, 400, e@))),
        _ => if c.authenticated {
            served(d, sid, req)
        } else {
            (d, StepView::Reply(error_reply(sid, d.seq, 401, "未认证"@)))
        },
    }
}

/// A byte as two hexadecimal digits, upper case.
fn push_hex_byte(out: &mut String, b: u8)
    ensures
        final(out)@ == old(out)@ + hex_byte(b),
{
    let hi: u8 = b / 16;
    let lo: u8 = b % 16;
    out.push((if hi < 10 { 48 + hi } else { 55 + hi }) as char);
    out.push((if lo < 10 { 48 + lo } else { 55 + lo }) as char);
    proof {
        assert(out@ =~= old(out)@ + hex_byte(b));
    }
}

/// Answers a request, or names the work that it asks for.
pub fn handle_frame(conn: &mut ConnState, sid: u32, req: Request) -> (r: Step)
    requires
        has_room(old(conn)@),
    ensures
        (final(conn)@, r@) == next_step(old(conn)@, sid, req),
{
    let seq: u32 = conn.next_seq();
    match req {
        Request::Hello => Step::Reply(
            Reply {
                msg_type: MSG_HELLO_ACK,
                stream_id: sid,
                seq_num: seq,
                body: Body::HelloAck(
                    HelloAckMsg {
                        server_name: "LanShare".to_owned(),
                        version: WSP_VERSION,
                        ok: true,
                    },
                ),
            },
        ),
        Request::Auth(m) => Step::Work(Work::CheckToken(m.token)),
        Request::MalformedAuth(e) => Step::Reply(error_frame(sid, seq, 400, e.as_str())),
        other => {
            if conn.authenticated {
                serve(conn, sid, other)
            } else {
                Step::Reply(error_frame(sid, seq, 401, "未认证"))
            }
        },
    }
}

/// Answers a request of an authenticated connection.
fn serve(conn: &mut ConnState, sid: u32, req: Request) -> (r: Step)
    requires
        old(conn).seq < u32::MAX,
    ensures
        (final(conn)@, r@) == served(old(conn)@, sid, req),
{
    match req {
        Request::Malformed(e) => Step::Reply(error_frame(sid, conn.seq, 400, e.as_str())),
        Request::ListDir(m) => {
            if conn.can("read") {
                Step::Work(Work::ListDir(m.path))
            } else {
                Step::Reply(error_frame(sid, conn.seq, 403, "无读取权限"))
            }
        },
        Request::Mkdir(m) => {
            if conn.can("mkdir") {
                Step::Work(Work::Mkdir(m.path))
            } else {
                Step::Reply(error_frame(sid, conn.seq, 403, "无创建目录权限"))
            }
        },
        Request::Rename(m) => {
            if conn.can("rename") {
                Step::Work(Work::Rename(m.old_path, m.new_path))
            } else {
                Step::Reply(error_frame(sid, conn.seq, 403, "无重命名权限"))
            }
        },
        Request::Delete(m) => {
            if conn.can("delete") {
                Step::Work(Work::Discard(m.path))
            } else {
                Step::Reply(error_frame(sid, conn.seq, 403, "无删除权限"))
            }
        },
        Request::UploadStart(m) => {
            if !conn.can("write") {
                Step::Reply(
                    upload_ack(
                        sid,
                        conn.seq,
                        false,
                        0,
                        Some("无上传权限".to_owned()),
                    ),
                )
            } else if m.size > MAX_UPLOAD_SIZE {
                let seq: u32 = conn.next_seq();
                Step::Reply(
                    upload_ack(
                        sid,
                        seq,
                        false,
                        0,
                        Some("文件超过上限 10GB".to_owned()),
                    ),
                )
            } else {
                Step::Work(Work::OpenUpload(m.path, m.size))
            }
        },
        Request::UploadData(payload) => upload_data(conn, sid, payload),
        Request::UploadEnd => upload_end(conn, sid),
        Request::DownloadReq(m) => {
            if conn.can("read") {
                Step::Work(Work::Download(m.path, m.offset))
            } else {
                Step::Reply(error_frame(sid, conn.seq, 403, "无读取权限"))
            }
        },
        Request::TrashList => Step::Work(Work::TrashList),
        Request::TrashRestore(n) => match refuse_trash(conn, sid, false, n.as_str()) {
            Some(reply) => Step::Reply(reply),
            None => Step::Work(Work::TrashRestore(n)),
        },
        Request::TrashDelete(n) => match refuse_trash(conn, sid, true, n.as_str()) {
            Some(reply) => Step::Reply(reply),
            None => Step::Work(Work::TrashDelete(n)),
        },
        Request::TrashEmpty => {
            if conn.can("delete") {
                Step::Work(Work::TrashEmpty)
            } else {
                Step::Reply(error_frame(sid, conn.seq, 403, "无删除权限"))
            }
        },
        Request::KeepAlive => {
            let seq: u32 = conn.next_seq();
            Step::Reply(
                Reply {
                    msg_type: MSG_KEEPALIVE,
                    stream_id: sid,
                    seq_num: seq,
                    body: Body::Empty,
                },
            )
        },
        Request::Unknown(t) => {
            let seq: u32 = conn.next_seq();
            let mut text: String = "未知消息类型: 0x".to_owned();
            push_hex_byte(&mut text, t);
            Step::Reply(error_frame(sid, seq, 400, text.as_str()))
        },
        Request::Hello | Request::Auth(_) | Request::MalformedAuth(_) => Step::Reply(
            error_frame(sid, conn.seq, 401, "未认证"),
        ),
    }
}

/// Refuses to work on an entry of the trash under a name that leaves the trash, and to delete one
/// without the permission.
fn refuse_trash(conn: &mut ConnState, sid: u32, deletes: bool, name: &str) -> (r: Option<Reply>)
    requires
        old(conn).seq < u32::MAX,
    ensures
        match r {
            Some(reply) => forall|work: WorkView|
                (final(conn)@, StepView::Reply(reply@)) == #[trigger] trash_entry(
                    old(conn)@,
                    sid,
                    deletes,
                    name@,
                    work,
                ),
            None => forall|work: WorkView|
                (final(conn)@, StepView::Work(work)) == #[trigger] trash_entry(
                    old(conn)@,
                    sid,
                    deletes,
                    name@,
                    work,
                ),
        },
{
    if deletes && !conn.can("delete") {
        return Some(error_frame(sid, conn.seq, 403, "无删除权限"));
    }
    if is_inside(name) {
        return None;
    }
    let seq: u32 = conn.next_seq();
    Some(op_ack(sid, seq, false, Some("路径非法".to_owned())))
}

/// A piece of an upload.
fn upload_data(conn: &mut ConnState, sid: u32, payload: Vec<u8>) -> (r: Step)
    requires
        old(conn).seq < u32::MAX,
    ensures
        (final(conn)@, r@) == upload_data_step(old(conn)@, sid, payload@),
{
    broadcast use vstd::std_specs::hash::group_hash_axioms;

    if payload.len() < 8 {
        let seq: u32 = conn.next_seq();
        return Step::Reply(error_frame(sid, seq, 400, "UploadData 太短"));
    }
    let offset: u64 = read_be64(payload.as_slice(), 0);
    let len: usize = payload.len() - 8;
    proof {
        assert(payload@.subrange(0, 8) =~= payload@.take(8));
        assert(payload@.skip(8) =~= payload@.subrange(8, payload@.len() as int));
    }
    let size: u64 = match conn.uploads.get(&sid) {
        Some(up) => up.missing.size(),
        None => {
            let seq: u32 = conn.next_seq();
            return Step::Reply(
                upload_ack(
                    sid,
                    seq,
                    false,
                    offset,
                    Some("未找到上传会话".to_owned()),
                ),
            );
        },
    };
    if offset > size || len as u64 > size - offset {
        let seq: u32 = conn.next_seq();
        let mut text: String = "写入越界: offset=".to_owned();
        text.append(number(offset).as_str());
        text.append(" + len=");
        text.append(number(len as u64).as_str());
        text.append(" > size=");
        text.append(number(size).as_str());
        proof {
            assert(text@ =~= overrun_text(offset as nat, len as nat, size as nat));
        }
        return Step::Reply(upload_ack(sid, seq, false, offset, Some(text)));
    }
    Step::Work(Work::WriteUpload(offset, byte_range(payload.as_slice(), 8, payload.len())))
}

/// The end of an upload.
fn upload_end(conn: &mut ConnState, sid: u32) -> (r: Step)
    requires
        old(conn).seq < u32::MAX,
    ensures
        (final(conn)@, r@) == upload_end_step(old(conn)@, sid),
{
    broadcast use vstd::std_specs::hash::group_hash_axioms;

    let removed = conn.uploads.remove(&sid);
    match removed {
        None => {
            proof {
                assert(conn@.uploads =~= old(conn)@.uploads);
            }
            let seq: u32 = conn.next_seq();
            Step::Reply(error_frame(sid, seq, 400, "未找到上传会话"))
        },
        Some(up) => {
            proof {
                assert(conn@.uploads =~= old(conn)@.uploads.remove(sid));
            }
            let seq: u32 = conn.next_seq();
            let size: u64 = up.missing.size();
            let count: u64 = up.missing.received();
            if count != size {
                let mut text: String = "大小不匹配: 声明 ".to_owned();
                text.append(number(size).as_str());
                text.append(" 实际 ");
                text.append(number(count).as_str());
                Step::CloseUpload(
                    UploadClosed {
                        path: up.path,
                        keep: false,
                        audit: None,
                        reply: op_ack(sid, seq, false, Some(text)),
                    },
                )
            } else {
                let mut detail = number(count);
                detail.append(" bytes");
                let audit = Audit {
                    user_id: None,
                    username: conn.log_name(),
                    action: "upload".to_owned(),
                    path: Some(up.path.clone()),
                    detail: Some(detail),
                };
                Step::CloseUpload(
                    UploadClosed {
                        path: up.path,
                        keep: true,
                        audit: Some(audit),
                        reply: op_ack(sid, seq, true, None),
                    },
                )
            }
        },
    }
}

/// The connection of a user who has been let in.
pub open spec fn logged_in(c: ConnView, u: UserView, home: Seq<char>) -> ConnView {
    ConnView {
        authenticated: true,
        admin: u.role == "admin"@,
        username: Some(u.username),
        user_home: Some(home),
        permissions: u.permissions,
        quota_mb: u.quota_mb,
        ..c
    }
}

/// Whom a token stands for. In simple mode it must be the PIN, and a session of an account does
/// not count; in account mode it must be the token of a session, and the PIN does not count.
pub fn token_user(simple_mode: bool, token: &str, pin: &str, session: Option<User>) -> (r: Option<
    User,
>)
    ensures
        user_of(r) == if simple_mode {
            if token@ == pin@ {
                Some(pin_account())
            } else {
                None
            }
        } else {
            user_of(session)
        },
{
    if simple_mode {
        if str_eq(token, pin) {
            Some(share_user())
        } else {
            None
        }
    } else {
        session
    }
}

/// Answers an authentication request: with the account that the token stands for and its home
/// directory, or without.
pub fn complete_auth(conn: &mut ConnState, sid: u32, user: Option<User>, home: String) -> (r: Reply)
    requires
        old(conn).seq < u32::MAX,
    ensures
        answers(old(conn)@, final(conn)@, r@),
        final(conn)@ == match user {
            Some(u) => logged_in(bump(old(conn)@), u@, home@),
            None => bump(old(conn)@),
        },
        r@ == (ReplyView {
            msg_type: MSG_AUTH_ACK,
            stream_id: sid,
            seq_num: (old(conn).seq + 1) as u32,
            body: match user {
                Some(u) => BodyView::AuthAck { ok: true, user: Some(u@.username), error: None },
                None => BodyView::AuthAck {
                    ok: false,
                    user: None,
                    error: Some("token 无效或已过期"@),
                },
            },
        }),
        conn_ok(old(conn)@) ==> conn_ok(final(conn)@),
{
    let seq: u32 = conn.next_seq();
    match user {
        Some(u) => {
            conn.authenticated = true;
            conn.admin = u.is_admin();
            conn.username = Some(u.username.clone());
            conn.user_home = Some(home);
            conn.permissions = u.permissions;
            conn.quota_mb = u.quota_mb;
            Reply {
                msg_type: MSG_AUTH_ACK,
                stream_id: sid,
                seq_num: seq,
                body: Body::AuthAck(AuthAckMsg { ok: true, user: Some(u.username), error: None }),
            }
        },
        None => Reply {
            msg_type: MSG_AUTH_ACK,
            stream_id: sid,
            seq_num: seq,
            body: Body::AuthAck(
                AuthAckMsg {
                    ok: false,
                    user: None,
                    error: Some("token 无效或已过期".to_owned()),
                },
            ),
        },
    }
}

/// Answers a request whose path leaves the home directory.
pub fn refuse_path(conn: &mut ConnState, sid: u32) -> (r: Reply)
    requires
        old(conn).seq < u32::MAX,
    ensures
        answers(old(conn)@, final(conn)@, r@),
        final(conn)@ == bump(old(conn)@),
        r@ == error_reply(sid, final(conn).seq, 403, "路径非法"@),
{
    let seq: u32 = conn.next_seq();
    error_frame(sid, seq, 403, "路径非法")
}

/// Answers a listing with the entries of the directory, or with the reason why there are none.
pub fn complete_list(
    conn: &mut ConnState,
    sid: u32,
    path: String,
    result: Result<Vec<DirEntryMsg>, String>,
) -> (r: Reply)
    requires
        old(conn).seq < u32::MAX,
    ensures
        answers(old(conn)@, final(conn)@, r@),
        final(conn)@ == bump(old(conn)@),
        r@ == match result {
            Ok(entries) => ReplyView {
                msg_type: MSG_LIST_DIR_RESP,
                stream_id: sid,
                seq_num: final(conn).seq,
                body: BodyView::ListDir { path: path@, entries: entries@ },
            },
            Err(e) => error_reply(sid, final(conn).seq, 500, e@),
        },
{
    let seq: u32 = conn.next_seq();
    match result {
        Ok(entries) => Reply {
            msg_type: MSG_LIST_DIR_RESP,
            stream_id: sid,
            seq_num: seq,
            body: Body::ListDir(ListDirRespMsg { path, entries }),
        },
        Err(e) => error_frame(sid, seq, 500, e.as_str()),
    }
}

/// An operation that is answered with success or failure and leaves a trace in the audit log.
#[derive(Debug, Clone)]
pub enum FileOp {
    Mkdir(String),
    Rename(String, String),
    Discard(String),
    TrashRestore(String),
    TrashDelete(String),
}

/// The trace of an operation: the action, what it was done to, and a remark.
pub open spec fn op_trace(op: FileOp) -> (Seq<char>, Seq<char>, Option<Seq<char>>) {
    match op {
        FileOp::Mkdir(p) => ("mkdir"@, p@, None),
        FileOp::Rename(a, b) => ("rename"@, a@, Some("→ "@ + b@)),
        FileOp::Discard(p) => ("delete"@, p@, Some("移到回收站"@)),
        FileOp::TrashRestore(n) => ("trash_restore"@, n@, None),
        FileOp::TrashDelete(n) => ("trash_delete"@, n@, Some("永久删除"@)),
    }
}

/// Answers an operation after it was tried. Only one that was done is recorded.
pub fn complete_op(conn: &mut ConnState, sid: u32, op: FileOp, result: Result<(), String>) -> (r: (
    Reply,
    Option<Audit>,
))
    requires
        old(conn).seq < u32::MAX,
    ensures
        answers(old(conn)@, final(conn)@, r.0@),
        final(conn)@ == bump(old(conn)@),
        match result {
            Ok(_) => r.0@ == op_ack_reply(sid, final(conn).seq, true, None) && audit_of(r.1)
                == Some(
                AuditView {
                    user_id: None,
                    username: audit_name(old(conn)@),
                    action: op_trace(op).0,
                    path: Some(op_trace(op).1),
                    detail: op_trace(op).2,
                },
            ),
            Err(e) => r.0@ == op_ack_reply(sid, final(conn).seq, false, Some(e@)) && r.1 is None,
        },
{
    let username = conn.log_name();
    let seq: u32 = conn.next_seq();
    match result {
        Ok(_) => {
            let (action, path, detail) = match op {
                FileOp::Mkdir(p) => ("mkdir", p, None),
                FileOp::Rename(a, b) => {
                    let mut d: String = "→ ".to_owned();
                    d.append(b.as_str());
                    ("rename", a, Some(d))
                },
                FileOp::Discard(p) => ("delete", p, Some("移到回收站".to_owned())),
                FileOp::TrashRestore(n) => ("trash_restore", n, None),
                FileOp::TrashDelete(n) => ("trash_delete", n, Some("永久删除".to_owned())),
            };
            let audit = Audit {
                user_id: None,
                username,
                action: action.to_owned(),
                path: Some(path),
                detail,
            };
            (op_ack(sid, seq, true, None), Some(audit))
        },
        Err(e) => (op_ack(sid, seq, false, Some(e)), None),
    }
}

/// Answers a request for the contents of the trash.
pub fn complete_trash_list(conn: &mut ConnState, sid: u32, entries: Vec<TrashEntry>) -> (r: Reply)
    requires
        old(conn).seq < u32::MAX,
    ensures
        answers(old(conn)@, final(conn)@, r@),
        final(conn)@ == bump(old(conn)@),
        r@ == (ReplyView {
            msg_type: MSG_TRASH_LIST_RESP,
            stream_id: sid,
            seq_num: final(conn).seq,
            body: BodyView::TrashList(entries@),
        }),
{
    let seq: u32 = conn.next_seq();
    Reply {
        msg_type: MSG_TRASH_LIST_RESP,
        stream_id: sid,
        seq_num: seq,
        body: Body::TrashList(entries),
    }
}

/// Answers after the trash was emptied, with the number of entries that went.
pub fn complete_trash_empty(conn: &mut ConnState, sid: u32, result: Result<u64, String>) -> (r: (
    Reply,
    Option<Audit>,
))
    requires
        old(conn).seq < u32::MAX,
    ensures
        answers(old(conn)@, final(conn)@, r.0@),
        final(conn)@ == bump(old(conn)@),
        match result {
            Ok(n) => r.0@ == (ReplyView {
                msg_type: MSG_OP_ACK,
                stream_id: sid,
                seq_num: final(conn).seq,
                body: BodyView::TrashEmptied(n),
            }) && audit_of(r.1) == Some(
                AuditView {
                    user_id: None,
                    username: audit_name(old(conn)@),
                    action: "trash_empty"@,
                    path: None,
                    detail: Some("删除 "@ + digits(n as nat) + " 项"@),
                },
            ),
            Err(e) => r.0@ == op_ack_reply(sid, final(conn).seq, false, Some(e@)) && r.1 is None,
        },
{
    let username = conn.log_name();
    let seq: u32 = conn.next_seq();
    match result {
        Ok(n) => {
            let mut detail: String = "删除 ".to_owned();
            detail.append(number(n).as_str());
            detail.append(" 项");
            let audit = Audit {
                user_id: None,
                username,
                action: "trash_empty".to_owned(),
                path: None,
                detail: Some(detail),
            };
            let reply = Reply {
                msg_type: MSG_OP_ACK,
                stream_id: sid,
                seq_num: seq,
                body: Body::TrashEmptied(n),
            };
            (reply, Some(audit))
        },
        Err(e) => (op_ack(sid, seq, false, Some(e)), None),
    }
}

/// Would an upload go over the quota? Of the announced size only what is not there yet counts. A
/// quota of 0 or less is none.
pub open spec fn over_quota(quota_mb: int, usage: int, size: int, existing: int) -> bool {
    quota_mb > 0 && usage + (if size > existing {
        size - existing
    } else {
        0
    }) > quota_mb * 1048576
}

/// Refuses an upload that goes over the quota. `usage` is the size of all that the home directory
/// holds, `existing` that of the file that is there already.
pub fn check_quota(conn: &mut ConnState, sid: u32, size: u64, usage: u64, existing: u64) -> (r:
    Option<Reply>)
    requires
        old(conn).seq < u32::MAX,
    ensures
        r matches Some(reply) ==> answers(old(conn)@, final(conn)@, reply@),
        r is Some <==> over_quota(
            old(conn).quota_mb as int,
            usage as int,
            size as int,
            existing as int,
        ),
        match r {
            Some(reply) => final(conn)@ == bump(old(conn)@) && reply@ == upload_ack_reply(
                sid,
                final(conn).seq,
                false,
                0,
                Some(
                    "超出配额限制 ("@ + digits(usage as nat / 1024 / 1024) + " MB / "@ + digits(
                        old(conn).quota_mb as nat,
                    ) + " MB)"@,
                ),
            ),
            None => final(conn)@ == old(conn)@,
        },
{
    if conn.quota_mb <= 0 {
        return None;
    }
    let quota: u64 = conn.quota_mb as u64;
    let added: u64 = if size > existing { size - existing } else { 0 };
    if usage as u128 + added as u128 > quota as u128 * 1048576 {
        let seq: u32 = conn.next_seq();
        let mut text: String = "超出配额限制 (".to_owned();
        text.append(number(usage / 1024 / 1024).as_str());
        text.append(" MB / ");
        text.append(number(quota).as_str());
        text.append(" MB)");
        return Some(upload_ack(sid, seq, false, 0, Some(text)));
    }
    None
}

/// Where an upload goes on: behind what is there, if that is a part of the file or all of it;
/// from the start, if nothing is there or more than was announced.
pub open spec fn resume_at(existing: u64, size: u64) -> u64 {
    if existing <= size {
        existing
    } else {
        0
    }
}

/// Where an upload goes on. Only at 0 the file is created anew, else it is opened as it is.
pub fn resume_offset(existing: u64, size: u64) -> (r: u64)
    ensures
        r == resume_at(existing, size),
{
    if existing > 0 && existing < size {
        existing
    } else if existing == size {
        size
    } else {
        0
    }
}

/// Refuses an upload.
pub fn refuse_upload(conn: &mut ConnState, sid: u32, text: String) -> (r: Reply)
    requires
        old(conn).seq < u32::MAX,
    ensures
        answers(old(conn)@, final(conn)@, r@),
        final(conn)@ == bump(old(conn)@),
        r@ == upload_ack_reply(sid, final(conn).seq, false, 0, Some(text@)),
{
    let seq: u32 = conn.next_seq();
    upload_ack(sid, seq, false, 0, Some(text))
}

/// Starts an upload whose file is open, and says where it goes on. One that was in progress on the
/// same stream is given up.
pub fn complete_upload_start(
    conn: &mut ConnState,
    sid: u32,
    path: String,
    size: u64,
    existing: u64,
) -> (r: Reply)
    requires
        old(conn).seq < u32::MAX,
        old(conn).authenticated,
        size <= MAX_UPLOAD_SIZE,
    ensures
        answers(old(conn)@, final(conn)@, r@),
        final(conn)@ == (ConnView {
            uploads: old(conn)@.uploads.insert(
                sid,
                UploadView {
                    path: path@,
                    size,
                    missing: set_int_range(resume_at(existing, size) as int, size as int),
                },
            ),
            ..bump(old(conn)@)
        }),
        r@ == upload_ack_reply(sid, final(conn).seq, true, resume_at(existing, size), None),
        conn_ok(old(conn)@) ==> conn_ok(final(conn)@),
{
    broadcast use vstd::std_specs::hash::group_hash_axioms;

    let seq: u32 = conn.next_seq();
    let start: u64 = resume_offset(existing, size);
    conn.uploads.insert(sid, UploadState { path, missing: Gaps::new(start, size) });
    proof {
        assert(conn@.uploads =~= old(conn)@.uploads.insert(
            sid,
            UploadView { path: path@, size, missing: set_int_range(start as int, size as int) },
        ));
    }
    upload_ack(sid, seq, true, start, None)
}

/// An upload after the bytes from one offset up to another have arrived.
pub open spec fn arrived(u: UploadView, from: int, to: int) -> UploadView {
    UploadView { missing: u.missing.difference(set_int_range(from, to)), ..u }
}

/// Answers a piece of an upload after it was written, or could not be. The acknowledgement names
/// the end of the piece.
pub fn complete_write(
    conn: &mut ConnState,
    sid: u32,
    offset: u64,
    len: usize,
    result: Result<(), String>,
) -> (r: Reply)
    requires
        old(conn).seq < u32::MAX,
        old(conn)@.uploads.contains_key(sid),
        offset + len <= old(conn)@.uploads[sid].size,
    ensures
        answers(old(conn)@, final(conn)@, r@),
        match result {
            Ok(_) => final(conn)@ == (ConnView {
                uploads: old(conn)@.uploads.insert(
                    sid,
                    arrived(old(conn)@.uploads[sid], offset as int, offset + len),
                ),
                ..bump(old(conn)@)
            }) && r@ == upload_ack_reply(sid, final(conn).seq, true, (offset + len) as u64, None),
            Err(e) => final(conn)@ == bump(old(conn)@) && r@ == upload_ack_reply(
                sid,
                final(conn).seq,
                false,
                offset,
                Some(e@),
            ),
        },
        conn_ok(old(conn)@) ==> conn_ok(final(conn)@),
{
    broadcast use vstd::std_specs::hash::group_hash_axioms;

    let seq: u32 = conn.next_seq();
    match result {
        Ok(_) => {
            let end: u64 = offset + len as u64;
            if let Some(found) = conn.uploads.remove(&sid) {
                let missing = found.missing.filled(offset, end);
                conn.uploads.insert(sid, UploadState { path: found.path, missing });
            }
            proof {
                assert(conn@.uploads =~= old(conn)@.uploads.insert(
                    sid,
                    arrived(old(conn)@.uploads[sid], offset as int, offset + len),
                ));
            }
            upload_ack(sid, seq, true, end, None)
        },
        Err(e) => upload_ack(sid, seq, false, offset, Some(e)),
    }
}

/// A file on its way to the client.
#[derive(Debug)]
pub struct Download {
    pub stream_id: u32,
    pub seq: u32,
    pub offset: u64,
    pub total: u64,
}

/// The payload of one piece: the offset, whether it is the last, and the bytes.
pub open spec fn chunk_payload(offset: u64, total: u64, data: Seq<u8>) -> Seq<u8> {
    be64(offset) + seq![if offset + data.len() >= total { 1u8 } else { 0u8 }] + data
}

/// Begins to send a file of `total` bytes from an offset on.
pub fn begin_download(conn: &mut ConnState, sid: u32, offset: u64, total: u64) -> (r: Download)
    requires
        old(conn).seq < u32::MAX,
    ensures
        final(conn)@ == bump(old(conn)@),
        r == (Download { stream_id: sid, seq: final(conn).seq, offset, total }),
{
    let seq: u32 = conn.next_seq();
    Download { stream_id: sid, seq, offset, total }
}

impl Download {
    /// The frame with the next bytes of the file.
    pub fn chunk(&mut self, data: &[u8]) -> (r: WspFrame)
        requires
            old(self).seq < u32::MAX,
            old(self).offset + data@.len() <= u64::MAX,
        ensures
            r@ == (FrameView {
                msg_type: MSG_DOWNLOAD_DATA,
                stream_id: old(self).stream_id,
                seq_num: old(self).seq,
                payload: chunk_payload(old(self).offset, old(self).total, data@),
            }),
            *final(self) == (Download {
                seq: (old(self).seq + 1) as u32,
                offset: (old(self).offset + data@.len()) as u64,
                ..*old(self)
            }),
    {
        let end: u64 = self.offset + data.len() as u64;
        let mut payload: Vec<u8> = Vec::new();
        push_be64(&mut payload, self.offset);
        payload.push(if end >= self.total { 1 } else { 0 });
        push_range(&mut payload, data, 0, data.len());
        proof {
            assert(payload@ =~= chunk_payload(self.offset, self.total, data@));
        }
        let frame = WspFrame::new(MSG_DOWNLOAD_DATA, self.stream_id, self.seq, payload);
        self.seq = self.seq + 1;
        self.offset = end;
        frame
    }
}

/// Ends a download: the connection counts on behind the pieces, and the download is recorded. The
/// pieces took the numbers from that of the connection on, up to that of the run.
pub fn complete_download(conn: &mut ConnState, run: Download, path: String) -> (r: (Reply, Audit))
    requires
        old(conn).seq <= run.seq < u32::MAX,
    ensures
        forall|c: ConnView|
            c.seq + 1 == old(conn).seq ==> #[trigger] follows(
                c,
                Exchange::Download((run.seq - old(conn).seq) as nat),
                final(conn)@,
            ),
        final(conn)@ == bump((ConnView { seq: run.seq, ..old(conn)@ })),
        r.0@ == (ReplyView {
            msg_type: MSG_DOWNLOAD_END,
            stream_id: run.stream_id,
            seq_num: final(conn).seq,
            body: BodyView::DownloadEnd { path: path@, size: run.total },
        }),
        r.1@ == (AuditView {
            user_id: None,
            username: audit_name(old(conn)@),
            action: "download"@,
            path: Some(path@),
            detail: Some(digits(run.total as nat) + " bytes"@),
        }),
{
    conn.seq = run.seq;
    let username = conn.log_name();
    let mut detail = number(run.total);
    detail.append(" bytes");
    let audit = Audit {
        user_id: None,
        username,
        action: "download".to_owned(),
        path: Some(path.clone()),
        detail: Some(detail),
    };
    let seq: u32 = conn.next_seq();
    let reply = Reply {
        msg_type: MSG_DOWNLOAD_END,
        stream_id: run.stream_id,
        seq_num: seq,
        body: Body::DownloadEnd(DownloadEndMsg { path, size: run.total }),
    };
    (reply, audit)
}

/// Answers a download that cannot begin (404) or go on (500).
pub fn fail_download(conn: &mut ConnState, sid: u32, started: bool, text: &str) -> (r: Reply)
    requires
        old(conn).seq < u32::MAX,
    ensures
        answers(old(conn)@, final(conn)@, r@),
        final(conn)@ == bump(old(conn)@),
        r@ == error_reply(
            sid,
            final(conn).seq,
            if started {
                500
            } else {
                404
            },
            text@,
        ),
{
    let seq: u32 = conn.next_seq();
    error_frame(sid, seq, if started { 500 } else { 404 }, text)
}

/// Before it is authenticated, a connection gets nothing done: no request leads to any work but
/// the check of a token, and what the connection may do does not change.
pub proof fn law_unauthenticated_does_nothing(c: ConnView, sid: u32, req: Request)
    requires
        !c.authenticated,
    ensures
        match next_step(c, sid, req).1 {
            StepView::Reply(_) => true,
            StepView::Work(w) => w is CheckToken,
            StepView::CloseUpload { .. } => false,
        },
        next_step(c, sid, req).0 == bump(c),
{
}

/// Nothing is done without the permission for it: directories are listed and files downloaded with
/// `read`, directories are made with `mkdir`, entries renamed with `rename`, moved to the trash and
/// deleted there with `delete`, and uploads opened with `write`. To look at the trash and to restore
/// from it, it is enough to be authenticated.
pub proof fn law_work_needs_permission(c: ConnView, sid: u32, req: Request)
    requires
        next_step(c, sid, req).1 is Work,
    ensures
        match next_step(c, sid, req).1->Work_0 {
            WorkView::ListDir(_) | WorkView::Download(_, _) => c.authenticated && conn_can(
                c,
                "read"@,
            ),
            WorkView::Mkdir(_) => c.authenticated && conn_can(c, "mkdir"@),
            WorkView::Rename(_, _) => c.authenticated && conn_can(c, "rename"@),
            WorkView::Discard(_) | WorkView::TrashDelete(_) | WorkView::TrashEmpty => c.authenticated
                && conn_can(c, "delete"@),
            WorkView::TrashList | WorkView::TrashRestore(_) => c.authenticated,
            WorkView::OpenUpload(_, size) => c.authenticated && conn_can(c, "write"@) && size
                <= MAX_UPLOAD_SIZE,
            WorkView::WriteUpload(offset, data) => c.authenticated && c.uploads.contains_key(sid)
                && offset + data.len() <= c.uploads[sid].size,
            WorkView::CheckToken(_) => true,
        },
{
    if let Request::UploadData(payload) = req {
        if payload@.len() >= 8 {
            law_from_be64(payload@.take(8));
        }
    }
}

/// A connection has exactly the permissions of the account that was let in; an administrator's has
/// all of them.
pub proof fn law_connection_has_the_accounts_permissions(
    c: ConnView,
    u: UserView,
    home: Seq<char>,
    perm: Seq<char>,
)
    ensures
        conn_can(logged_in(c, u, home), perm) <==> allowed(u, perm),
{
}

/// Whatever is asked, the connection stays in order: no upload lacks bytes beyond what it
/// announced.
pub proof fn law_connection_stays_in_order(c: ConnView, sid: u32, req: Request)
    requires
        conn_ok(c),
        has_room(c),
    ensures
        conn_ok(next_step(c, sid, req).0),
{
    if req is UploadEnd && c.authenticated && c.uploads.contains_key(sid) {
        let d = next_step(c, sid, req).0;
        assert forall|k: u32| #[trigger] d.uploads.contains_key(k) implies d.uploads[
            k
        ].missing.subset_of(set_int_range(0, d.uploads[k].size as int)) && d.uploads[k].size
            <= MAX_UPLOAD_SIZE by {
            assert(c.uploads.contains_key(k));
        }
    }
}

/// Over a whole connection, whatever is asked and in whatever order, the sequence numbers of the
/// frames that the server sends strictly increase: those of replies, of answers after work, and of
/// the pieces and ends of downloads. No number is used twice.
pub proof fn law_numbers_increase(states: Seq<ConnView>, exchanges: Seq<Exchange>)
    requires
        states.len() == exchanges.len() + 1,
        forall|i: int|
            0 <= i < exchanges.len() ==> follows(
                states[i],
                #[trigger] exchanges[i],
                states[i + 1],
            ),
    ensures
        states[0].seq <= states.last().seq,
        forall|k: int|
            0 <= k < all_numbers(states, exchanges).len() ==> states[0].seq < #[trigger] all_numbers(
                states,
                exchanges,
            )[k] <= states.last().seq,
        forall|j: int, k: int|
            0 <= j < k < all_numbers(states, exchanges).len() ==> #[trigger] all_numbers(
                states,
                exchanges,
            )[j] < #[trigger] all_numbers(states, exchanges)[k],
    decreases exchanges.len(),
{
    if exchanges.len() > 0 {
        let n = exchanges.len() as int;
        let front = exchanges.drop_last();
        let before = states.drop_last();
        assert forall|i: int| 0 <= i < front.len() implies follows(
            before[i],
            #[trigger] front[i],
            before[i + 1],
        ) by {
            assert(front[i] == exchanges[i]);
        }
        law_numbers_increase(before, front);
        lemma_numbers_prefix(states, front, before);
        let c = states[n - 1];
        let d = states[n];
        assert(follows(c, exchanges[n - 1], d));
        lemma_exchange_numbers(c, exchanges[n - 1], d);
        let a = all_numbers(states, front);
        let b = numbers(c, exchanges[n - 1]);
        assert(all_numbers(states, exchanges) == a + b);
        assert(before.last() == c);
        assert(before[0] == states[0]);
        assert forall|k: int| 0 <= k < (a + b).len() implies states[0].seq < #[trigger] (a + b)[k]
            <= d.seq by {
            if k < a.len() {
                assert((a + b)[k] == a[k]);
            } else {
                assert((a + b)[k] == b[k - a.len()]);
            }
        }
        assert forall|j: int, k: int| 0 <= j < k < (a + b).len() implies #[trigger] (a + b)[j]
            < #[trigger] (a + b)[k] by {
            if k < a.len() {
                assert(a[j] < a[k]);
            } else if j < a.len() {
                assert(a[j] <= c.seq);
                assert(c.seq < b[k - a.len()]);
            } else {
                assert(b[j - a.len()] < b[k - a.len()]);
            }
        }
    }
}

proof fn lemma_numbers_prefix(states: Seq<ConnView>, exchanges: Seq<Exchange>, before: Seq<ConnView>)
    requires
        before == states.drop_last(),
        exchanges.len() < states.len(),
    ensures
        all_numbers(states, exchanges) == all_numbers(before, exchanges),
    decreases exchanges.len(),
{
    if exchanges.len() > 0 {
        lemma_numbers_prefix(states, exchanges.drop_last(), before);
    }
}

proof fn lemma_exchange_numbers(c: ConnView, e: Exchange, d: ConnView)
    requires
        follows(c, e, d),
    ensures
        c.seq <= d.seq,
        forall|k: int|
            0 <= k < numbers(c, e).len() ==> c.seq < #[trigger] numbers(c, e)[k] <= d.seq,
        forall|j: int, k: int|
            0 <= j < k < numbers(c, e).len() ==> #[trigger] numbers(c, e)[j] < #[trigger] numbers(
                c,
                e,
            )[k],
{
    if let Exchange::Request(sid, req) = e {
        law_sequence_grows(c, sid, req);
    }
}

/// Sequence numbers grow: every request takes one or two, and a reply carries the last one taken.
pub proof fn law_sequence_grows(c: ConnView, sid: u32, req: Request)
    requires
        has_room(c),
    ensures
        c.seq < next_step(c, sid, req).0.seq <= c.seq + 2,
        next_step(c, sid, req).1 matches StepView::Reply(r) ==> r.seq_num == next_step(
            c,
            sid,
            req,
        ).0.seq && r.stream_id == sid,
        next_step(c, sid, req).1 matches StepView::CloseUpload { reply, .. } ==> reply.seq_num
            == next_step(c, sid, req).0.seq && reply.stream_id == sid,
{
}

/// A finished upload is kept if and only if every byte of the announced size has arrived, and only
/// then is it recorded and acknowledged; if not, its file goes. Either way the upload is over.
pub proof fn law_only_complete_uploads_are_kept(c: ConnView, sid: u32)
    requires
        conn_ok(c),
        c.authenticated,
        c.uploads.contains_key(sid),
    ensures
        !next_step(c, sid, Request::UploadEnd).0.uploads.contains_key(sid),
        match next_step(c, sid, Request::UploadEnd).1 {
            StepView::CloseUpload { path, keep, audit, reply } => path == c.uploads[sid].path
                && (keep <==> forall|i: int|
                0 <= i < c.uploads[sid].size ==> !c.uploads[sid].missing.contains(i)) && (audit
                is Some <==> keep) && (reply.body matches BodyView::OpAck { ok, error } && ok
                == keep && (error is Some <==> !keep)),
            _ => false,
        },
{
    let u = c.uploads[sid];
    let all = set_int_range(0, u.size as int);
    lemma_int_range(0, u.size as int);
    lemma_len_subset(u.missing, all);
    if received(u) == u.size {
        assert(u.missing.len() == 0);
        assert(u.missing =~= Set::<int>::empty());
    } else {
        assert(u.missing.len() > 0);
        let i = u.missing.choose();
        assert(u.missing.contains(i));
        assert(all.contains(i));
    }
}

/// The bytes that an upload lacks after several pieces, each from an offset up to another.
pub open spec fn after_pieces(u: UploadView, pieces: Seq<(int, int)>) -> UploadView
    decreases pieces.len(),
{
    if pieces.len() == 0 {
        u
    } else {
        arrived(after_pieces(u, pieces.drop_last()), pieces.last().0, pieces.last().1)
    }
}

/// Whatever pieces arrive, in whatever order and however often, a byte is missing if and only if it
/// was missing at the start and no piece held it.
pub proof fn law_missing_is_what_no_piece_held(u: UploadView, pieces: Seq<(int, int)>, i: int)
    ensures
        after_pieces(u, pieces).size == u.size,
        after_pieces(u, pieces).missing.contains(i) <==> u.missing.contains(i) && forall|k: int|
            0 <= k < pieces.len() ==> !((#[trigger] pieces[k]).0 <= i < pieces[k].1),
    decreases pieces.len(),
{
    if pieces.len() > 0 {
        let front = pieces.drop_last();
        law_missing_is_what_no_piece_held(u, front, i);
        assert forall|k: int| 0 <= k < front.len() implies front[k] == #[trigger] pieces[k] by {}
        if after_pieces(u, pieces).missing.contains(i) {
            assert forall|k: int| 0 <= k < pieces.len() implies !((#[trigger] pieces[k]).0 <= i
                < pieces[k].1) by {
                if k < front.len() {
                    assert(front[k] == pieces[k]);
                }
            }
        }
        if u.missing.contains(i) && forall|k: int|
            0 <= k < pieces.len() ==> !((#[trigger] pieces[k]).0 <= i < pieces[k].1) {
            assert forall|k: int| 0 <= k < front.len() implies !((#[trigger] front[k]).0 <= i
                < front[k].1) by {
                assert(front[k] == pieces[k]);
            }
            assert(pieces[pieces.len() - 1] == pieces.last());
        }
    }
}

/// An upload that is let through keeps to the quota: what is in use and what is added to it stay
/// within the limit.
pub proof fn law_quota_is_kept(quota_mb: int, usage: int, size: int, existing: int)
    requires
        quota_mb > 0,
        !over_quota(quota_mb, usage, size, existing),
    ensures
        usage <= quota_mb * 1048576,
        existing <= size ==> usage - existing + size <= quota_mb * 1048576,
{
}

/// An upload that goes on after a break goes on where the file on disk ends, and never beyond the
/// announced size; a file that is complete needs no more bytes.
pub proof fn law_resume(existing: u64, size: u64)
    ensures
        resume_at(existing, size) <= size,
        existing <= size ==> resume_at(existing, size) == existing,
        existing > size ==> resume_at(existing, size) == 0,
{
}

/// The directory that deleted entries go to.
pub const TRASH: &'static str = ".trash";

/// The name that an entry gets in the trash: its own and the time.
pub fn discarded_name(file_name: &str, millis: u64) -> (r: String)
    ensures
        r@ == file_name@ + "_"@ + digits(millis as nat),
{
    let mut out: String = file_name.to_owned();
    out.append("_");
    out.append(number(millis).as_str());
    out
}

/// The name of the file that records where an entry of the trash came from.
pub fn record_name(trash_name: &str) -> (r: String)
    ensures
        r@ == trash_name@ + ".meta"@,
{
    let mut out: String = trash_name.to_owned();
    out.append(".meta");
    out
}

/// Is the name that of such a record? Records are not listed.
pub fn is_record(name: &str) -> (r: bool)
    ensures
        r == ".meta"@.is_suffix_of(name@),
{
    finishes_with(name, ".meta")
}

/// Does the name count when the trash is emptied? All but the names with the extension `meta` do.
pub fn counts_as_entry(name: &str) -> (r: bool)
    ensures
        r == (extension_of(name@) != Some("meta"@)),
{
    let (_, ext) = split_name(name);
    match ext {
        Some(e) => !str_eq(e.as_str(), "meta"),
        None => true,
    }
}

/// A record is recognised as one.
pub proof fn law_records_are_recognised(name: Seq<char>)
    ensures
        ".meta"@.is_suffix_of(name + ".meta"@),
{
    let s = name + ".meta"@;
    assert(s.subrange(name.len() as int, s.len() as int) =~= ".meta"@);
}

/// An upload that fits is let through: if what is in use, and what the upload adds to it, stays
/// within the quota, it is not refused; and without a quota no upload is.
pub proof fn law_fitting_upload_is_let_through(quota_mb: int, usage: int, size: int, existing: int)
    ensures
        quota_mb <= 0 ==> !over_quota(quota_mb, usage, size, existing),
        size >= existing && usage + size - existing <= quota_mb * 1024 * 1024 ==> !over_quota(
            quota_mb,
            usage,
            size,
            existing,
        ),
        size <= existing && usage <= quota_mb * 1024 * 1024 ==> !over_quota(
            quota_mb,
            usage,
            size,
            existing,
        ),
        quota_mb > 0 && usage > quota_mb * 1024 * 1024 ==> over_quota(
            quota_mb,
            usage,
            size,
            existing,
        ),
        quota_mb > 0 && usage + size - existing > quota_mb * 1024 * 1024 ==> over_quota(
            quota_mb,
            usage,
            size,
            existing,
        ),
{
}

/// Each request of a user who may make it leads to the work that it names, on the paths that it
/// names, and nothing but the sequence number of the connection changes before the work is done.
pub proof fn law_requests_lead_to_their_work(c: ConnView, sid: u32, req: Request)
    requires
        c.authenticated,
        has_room(c),
    ensures
        ({
            let s = next_step(c, sid, req).1;
            let d = next_step(c, sid, req).0;
            &&& s is Work ==> d == (ConnView { seq: (c.seq + 1) as u32, ..c })
            &&& match req {
                Request::Auth(m) => s == StepView::Work(WorkView::CheckToken(m.token@)),
                Request::ListDir(m) => conn_can(c, "read"@) ==> s == StepView::Work(
                    WorkView::ListDir(m.path@),
                ),
                Request::DownloadReq(m) => conn_can(c, "read"@) ==> s == StepView::Work(
                    WorkView::Download(m.path@, m.offset),
                ),
                Request::Mkdir(m) => conn_can(c, "mkdir"@) ==> s == StepView::Work(
                    WorkView::Mkdir(m.path@),
                ),
                Request::Rename(m) => conn_can(c, "rename"@) ==> s == StepView::Work(
                    WorkView::Rename(m.old_path@, m.new_path@),
                ),
                Request::Delete(m) => conn_can(c, "delete"@) ==> s == StepView::Work(
                    WorkView::Discard(m.path@),
                ),
                Request::UploadStart(m) => conn_can(c, "write"@) && m.size <= 10 * 1024 * 1024
                    * 1024 ==> s == StepView::Work(WorkView::OpenUpload(m.path@, m.size)),
                Request::TrashList => s == StepView::Work(WorkView::TrashList),
                Request::TrashRestore(n) => stays_inside(n@) ==> s == StepView::Work(
                    WorkView::TrashRestore(n@),
                ),
                Request::TrashDelete(n) => conn_can(c, "delete"@) && stays_inside(n@) ==> s
                    == StepView::Work(WorkView::TrashDelete(n@)),
                Request::TrashEmpty => conn_can(c, "delete"@) ==> s == StepView::Work(
                    WorkView::TrashEmpty,
                ),
                Request::KeepAlive => s matches StepView::Reply(r) && r.msg_type == 0xF1
                    && r.body is Empty,
                Request::Hello => s matches StepView::Reply(r) && r.msg_type == 0x02 && (
                r.body matches BodyView::HelloAck { ok, version, .. } && ok && version == 1),
                _ => true,
            }
        }),
{
}

/// A request that is refused changes nothing but the sequence number, and says that it is refused:
/// for want of a permission with the code 403, and an upload with an acknowledgement that is not ok
/// and begins at 0.
pub proof fn law_refusals_say_so(c: ConnView, sid: u32, req: Request)
    requires
        c.authenticated,
        has_room(c),
        match req {
            Request::ListDir(_) | Request::DownloadReq(_) => !conn_can(c, "read"@),
            Request::Mkdir(_) => !conn_can(c, "mkdir"@),
            Request::Rename(_) => !conn_can(c, "rename"@),
            Request::Delete(_) | Request::TrashDelete(_) | Request::TrashEmpty => !conn_can(
                c,
                "delete"@,
            ),
            Request::UploadStart(m) => !conn_can(c, "write"@) || m.size > 10 * 1024 * 1024 * 1024,
            Request::TrashRestore(n) => !stays_inside(n@),
            _ => false,
        },
    ensures
        ({
            let s = next_step(c, sid, req).1;
            let d = next_step(c, sid, req).0;
            &&& d == (ConnView { seq: d.seq, ..c })
            &&& s matches StepView::Reply(r) && r.stream_id == sid && match r.body {
                BodyView::Error { code, .. } => code == 403 && !(req is UploadStart) && !(req
                    is TrashRestore),
                BodyView::UploadAck { ok, offset, error } => req is UploadStart && !ok && offset
                    == 0 && error is Some,
                BodyView::OpAck { ok, error } => req is TrashRestore && !ok && error is Some,
                _ => false,
            }
        }),
{
}

/// A piece of an upload that does not fit into the announced size, or that belongs to no upload, is
/// not written: the acknowledgement is not ok and names the offset of the piece, and the uploads
/// stay as they are.
pub proof fn law_stray_pieces_are_not_written(
    c: ConnView,
    sid: u32,
    offset: u64,
    data: Seq<u8>,
    req: Request,
)
    requires
        c.authenticated,
        has_room(c),
        req matches Request::UploadData(p) && p@ == be64(offset) + data,
        !c.uploads.contains_key(sid) || offset + data.len() > c.uploads[sid].size,
    ensures
        next_step(c, sid, req).0.uploads == c.uploads,
        next_step(c, sid, req).1 matches StepView::Reply(r) && (
        r.body matches BodyView::UploadAck { ok, offset: o, error } && !ok && o == offset && error
            is Some),
{
    crate::bytes::law_be64(offset);
    let p = be64(offset) + data;
    assert(p.take(8) =~= be64(offset));
    assert(p.skip(8) =~= data);
}

/// A piece of a download says where it belongs, whether the file ends with it, and holds the bytes.
pub proof fn law_piece_of_a_download(offset: u64, total: u64, data: Seq<u8>)
    ensures
        ({
            let p = chunk_payload(offset, total, data);
            &&& p.len() == 9 + data.len()
            &&& from_be64(p.take(8)) == offset
            &&& p[8] == 1 <==> offset + data.len() >= total
            &&& p[8] == 0 <==> offset + data.len() < total
            &&& p.skip(9) == data
        }),
{
    crate::bytes::law_be64(offset);
    let p = chunk_payload(offset, total, data);
    assert(p.take(8) =~= be64(offset));
    assert(p.skip(9) =~= data);
}

/// Whoever is let in works under their own name, in their own directory, with their own quota; the
/// uploads and the sequence number of the connection stay.
pub proof fn law_let_in_under_their_own_name(c: ConnView, u: UserView, home: Seq<char>)
    ensures
        ({
            let d = logged_in(c, u, home);
            &&& d.authenticated
            &&& d.username == Some(u.username)
            &&& d.user_home == Some(home)
            &&& d.quota_mb == u.quota_mb
            &&& d.seq == c.seq && d.uploads == c.uploads
            &&& audit_name(d) == u.username
        }),
{
}

/// The audit log tells operations apart, and names what they were done to.
pub proof fn law_operations_leave_their_trace(a: FileOp, b: FileOp)
    ensures
        match a {
            FileOp::Mkdir(p) | FileOp::Rename(p, _) | FileOp::Discard(p) | FileOp::TrashRestore(p)
            | FileOp::TrashDelete(p) => op_trace(a).1 == p@,
        },
        a matches FileOp::Rename(_, to) ==> op_trace(a).2 is Some && to@.is_suffix_of(
            op_trace(a).2->0,
        ),
        op_trace(a).0 == op_trace(b).0 ==> match a {
            FileOp::Mkdir(_) => b is Mkdir,
            FileOp::Rename(_, _) => b is Rename,
            FileOp::Discard(_) => b is Discard,
            FileOp::TrashRestore(_) => b is TrashRestore,
            FileOp::TrashDelete(_) => b is TrashDelete,
        },
{
    reveal_strlit("mkdir");
    reveal_strlit("rename");
    reveal_strlit("delete");
    reveal_strlit("trash_restore");
    reveal_strlit("trash_delete");
    assert("mkdir"@.len() == 5 && "rename"@.len() == 6 && "delete"@.len() == 6
        && "trash_restore"@.len() == 13 && "trash_delete"@.len() == 12);
    assert("rename"@[0] == 'r' && "delete"@[0] == 'd');
    if let FileOp::Rename(_, to) = a {
        let t = op_trace(a).2->0;
        assert(t.subrange(t.len() - to@.len(), t.len() as int) =~= to@);
    }
}

} // verus!
