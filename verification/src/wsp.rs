//! The messages of the share protocol, and what the server knows of a connection.
use std::collections::HashMap;
use vstd::prelude::*;
use vstd::set_lib::set_int_range;
use crate::db::{audit_of, Audit, AuditView};
use crate::frame::{
    MSG_AUTH, MSG_DELETE, MSG_DOWNLOAD_REQ, MSG_ERROR, MSG_HELLO, MSG_KEEPALIVE, MSG_LIST_DIR,
    MSG_MKDIR, MSG_OP_ACK, MSG_RENAME, MSG_TRASH_DELETE, MSG_TRASH_EMPTY, MSG_TRASH_LIST,
    MSG_TRASH_RESTORE, MSG_UPLOAD_ACK, MSG_UPLOAD_DATA, MSG_UPLOAD_END, MSG_UPLOAD_START,
    WSP_VERSION,
};
use crate::gaps::Gaps;
use crate::text::{list_has, list_holds, text_of};

verus! {

/// The largest number of connections at one time.
pub const MAX_CONNECTIONS: usize = 200;

/// The largest file that can be uploaded, 10 GB.
pub const MAX_UPLOAD_SIZE: u64 = 10737418240;

/// The size of the pieces in which a file is sent, 64 KB.
pub const DOWNLOAD_CHUNK: usize = 65536;

#[derive(Debug, Clone)]
pub struct HelloMsg {
    pub client_name: String,
    pub version: u8,
}

#[derive(Debug, Clone)]
pub struct HelloAckMsg {
    pub server_name: String,
    pub version: u8,
    pub ok: bool,
}

#[derive(Debug, Clone)]
pub struct AuthMsg {
    pub token: String,
}

#[derive(Debug, Clone)]
pub struct AuthAckMsg {
    pub ok: bool,
    pub user: Option<String>,
    pub error: Option<String>,
}

#[derive(Debug, Clone)]
pub struct ListDirMsg {
    pub path: String,
}

#[derive(Debug, Clone)]
pub struct DirEntryMsg {
    pub name: String,
    pub is_dir: bool,
    pub size: u64,
    pub mtime: String,
}

#[derive(Debug, Clone)]
pub struct ListDirRespMsg {
    pub path: String,
    pub entries: Vec<DirEntryMsg>,
}

#[derive(Debug, Clone)]
pub struct MkdirMsg {
    pub path: String,
}

#[derive(Debug, Clone)]
pub struct RenameMsg {
    pub old_path: String,
    pub new_path: String,
}

#[derive(Debug, Clone)]
pub struct DeleteMsg {
    pub path: String,
}

#[derive(Debug, Clone)]
pub struct OpAckMsg {
    pub ok: bool,
    pub error: Option<String>,
}

#[derive(Debug, Clone)]
pub struct UploadStartMsg {
    pub path: String,
    pub size: u64,
}

#[derive(Debug, Clone)]
pub struct UploadEndMsg {
    pub path: String,
    pub size: u64,
}

#[derive(Debug, Clone)]
pub struct UploadAckMsg {
    pub ok: bool,
    pub offset: u64,
    pub error: Option<String>,
}

#[derive(Debug, Clone)]
pub struct DownloadReqMsg {
    pub path: String,
    pub offset: u64,
}

#[derive(Debug, Clone)]
pub struct DownloadEndMsg {
    pub path: String,
    pub size: u64,
}

#[derive(Debug, Clone)]
pub struct ErrorMsg {
    pub code: u32,
    pub message: String,
}

/// One entry of the trash, and where it came from.
#[derive(Debug, Clone)]
pub struct TrashEntry {
    pub name: String,
    pub original_path: String,
    pub is_dir: bool,
    pub size: u64,
}

/// What a frame from the server says.
#[derive(Debug, Clone)]
pub enum Body {
    Hello(HelloMsg),
    HelloAck(HelloAckMsg),
    AuthAck(AuthAckMsg),
    ListDir(ListDirRespMsg),
    OpAck(OpAckMsg),
    UploadAck(UploadAckMsg),
    DownloadEnd(DownloadEndMsg),
    TrashList(Vec<TrashEntry>),
    TrashEmptied(u64),
    Error(ErrorMsg),
    Empty,
}

/// A frame from the server whose body is not yet JSON.
#[derive(Debug, Clone)]
pub struct Reply {
    pub msg_type: u8,
    pub stream_id: u32,
    pub seq_num: u32,
    pub body: Body,
}

pub enum BodyView {
    Hello { client_name: Seq<char>, version: u8 },
    HelloAck { server_name: Seq<char>, version: u8, ok: bool },
    AuthAck { ok: bool, user: Option<Seq<char>>, error: Option<Seq<char>> },
    ListDir { path: Seq<char>, entries: Seq<DirEntryMsg> },
    OpAck { ok: bool, error: Option<Seq<char>> },
    UploadAck { ok: bool, offset: u64, error: Option<Seq<char>> },
    DownloadEnd { path: Seq<char>, size: u64 },
    TrashList(Seq<TrashEntry>),
    TrashEmptied(u64),
    Error { code: u32, message: Seq<char> },
    Empty,
}

pub struct ReplyView {
    pub msg_type: u8,
    pub stream_id: u32,
    pub seq_num: u32,
    pub body: BodyView,
}

impl View for Body {
    type V = BodyView;

    open spec fn view(&self) -> BodyView {
        match *self {
            Body::Hello(m) => BodyView::Hello { client_name: m.client_name@, version: m.version },
            Body::HelloAck(m) => BodyView::HelloAck {
                server_name: m.server_name@,
                version: m.version,
                ok: m.ok,
            },
            Body::AuthAck(m) => BodyView::AuthAck {
                ok: m.ok,
                user: text_of(m.user),
                error: text_of(m.error),
            },
            Body::ListDir(m) => BodyView::ListDir { path: m.path@, entries: m.entries@ },
            Body::OpAck(m) => BodyView::OpAck { ok: m.ok, error: text_of(m.error) },
            Body::UploadAck(m) => BodyView::UploadAck {
                ok: m.ok,
                offset: m.offset,
                error: text_of(m.error),
            },
            Body::DownloadEnd(m) => BodyView::DownloadEnd { path: m.path@, size: m.size },
            Body::TrashList(v) => BodyView::TrashList(v@),
            Body::TrashEmptied(n) => BodyView::TrashEmptied(n),
            Body::Error(m) => BodyView::Error { code: m.code, message: m.message@ },
            Body::Empty => BodyView::Empty,
        }
    }
}

impl View for Reply {
    type V = ReplyView;

    open spec fn view(&self) -> ReplyView {
        ReplyView {
            msg_type: self.msg_type,
            stream_id: self.stream_id,
            seq_num: self.seq_num,
            body: self.body@,
        }
    }
}

/// A reply that reports an error.
pub open spec fn error_reply(sid: u32, seq: u32, code: u32, text: Seq<char>) -> ReplyView {
    ReplyView {
        msg_type: MSG_ERROR,
        stream_id: sid,
        seq_num: seq,
        body: BodyView::Error { code, message: text },
    }
}

/// A reply that says whether an operation was done.
pub open spec fn op_ack_reply(
    sid: u32,
    seq: u32,
    ok: bool,
    error: Option<Seq<char>>,
) -> ReplyView {
    ReplyView {
        msg_type: MSG_OP_ACK,
        stream_id: sid,
        seq_num: seq,
        body: BodyView::OpAck { ok, error },
    }
}

/// A reply that says how far an upload has come.
pub open spec fn upload_ack_reply(
    sid: u32,
    seq: u32,
    ok: bool,
    offset: u64,
    error: Option<Seq<char>>,
) -> ReplyView {
    ReplyView {
        msg_type: MSG_UPLOAD_ACK,
        stream_id: sid,
        seq_num: seq,
        body: BodyView::UploadAck { ok, offset, error },
    }
}

pub fn error_frame(sid: u32, seq: u32, code: u32, msg: &str) -> (r: Reply)
    ensures
        r@ == error_reply(sid, seq, code, msg@),
{
    Reply {
        msg_type: MSG_ERROR,
        stream_id: sid,
        seq_num: seq,
        body: Body::Error(ErrorMsg { code, message: msg.to_owned() }),
    }
}

pub fn op_ack(sid: u32, seq: u32, ok: bool, error: Option<String>) -> (r: Reply)
    ensures
        r@ == op_ack_reply(sid, seq, ok, text_of(error)),
{
    Reply {
        msg_type: MSG_OP_ACK,
        stream_id: sid,
        seq_num: seq,
        body: Body::OpAck(OpAckMsg { ok, error }),
    }
}

pub fn upload_ack(sid: u32, seq: u32, ok: bool, offset: u64, error: Option<String>) -> (r: Reply)
    ensures
        r@ == upload_ack_reply(sid, seq, ok, offset, text_of(error)),
{
    Reply {
        msg_type: MSG_UPLOAD_ACK,
        stream_id: sid,
        seq_num: seq,
        body: Body::UploadAck(UploadAckMsg { ok, offset, error }),
    }
}

/// An upload in progress: where it goes, and what of its announced size has not arrived.
#[derive(Debug)]
pub struct UploadState {
    pub path: String,
    pub missing: Gaps,
}

/// An upload in progress: where it goes, its announced size, and the offsets of the bytes that have
/// not arrived.
pub struct UploadView {
    pub path: Seq<char>,
    pub size: u64,
    pub missing: Set<int>,
}

/// How many bytes of an upload have arrived.
pub open spec fn received(u: UploadView) -> int {
    u.size - u.missing.len()
}

impl View for UploadState {
    type V = UploadView;

    open spec fn view(&self) -> UploadView {
        UploadView { path: self.path@, size: self.missing.total(), missing: self.missing@ }
    }
}

/// What the server knows of one connection.
#[derive(Debug)]
pub struct ConnState {
    pub authenticated: bool,
    /// Is the user an administrator, who may do everything?
    pub admin: bool,
    pub username: Option<String>,
    pub user_home: Option<String>,
    pub permissions: String,
    pub quota_mb: i64,
    pub seq: u32,
    pub uploads: HashMap<u32, UploadState>,
}

pub struct ConnView {
    pub authenticated: bool,
    pub admin: bool,
    pub username: Option<Seq<char>>,
    pub user_home: Option<Seq<char>>,
    pub permissions: Seq<char>,
    pub quota_mb: i64,
    pub seq: u32,
    pub uploads: Map<u32, UploadView>,
}

impl View for ConnState {
    type V = ConnView;

    open spec fn view(&self) -> ConnView {
        ConnView {
            authenticated: self.authenticated,
            admin: self.admin,
            username: text_of(self.username),
            user_home: text_of(self.user_home),
            permissions: self.permissions@,
            quota_mb: self.quota_mb,
            seq: self.seq,
            uploads: self.uploads@.map_values(|u: UploadState| u@),
        }
    }
}

/// What holds of every connection: an authenticated one has a user and a home, uploads belong to
/// an authenticated one, and no upload lacks bytes beyond what it announced, nor announced more
/// than the limit.
pub open spec fn conn_ok(c: ConnView) -> bool {
    &&& c.authenticated ==> c.username is Some && c.user_home is Some
    &&& !c.authenticated ==> c.uploads == Map::<u32, UploadView>::empty()
    &&& forall|k: u32| #[trigger]
        c.uploads.contains_key(k) ==> c.uploads[k].missing.subset_of(
            set_int_range(0, c.uploads[k].size as int),
        ) && c.uploads[k].size <= MAX_UPLOAD_SIZE
}

/// Has the user of the connection the permission? An administrator has all of them.
pub open spec fn conn_can(c: ConnView, perm: Seq<char>) -> bool {
    c.admin || list_holds(c.permissions, perm)
}

/// Room for the two sequence numbers that one request can take.
pub open spec fn has_room(c: ConnView) -> bool {
    c.seq <= 0xFFFF_FFFD
}

/// The connection after one more sequence number was taken.
pub open spec fn bump(c: ConnView) -> ConnView {
    ConnView { seq: (c.seq + 1) as u32, ..c }
}

/// The name under which the user of a connection stands in the audit log.
pub open spec fn audit_name(c: ConnView) -> Seq<char> {
    match c.username {
        Some(n) => n,
        None => "?"@,
    }
}

impl ConnState {
    pub fn new() -> (r: Self)
        ensures
            r@ == (ConnView {
                authenticated: false,
                admin: false,
                username: None,
                user_home: None,
                permissions: Seq::<char>::empty(),
                quota_mb: 0,
                seq: 0,
                uploads: Map::<u32, UploadView>::empty(),
            }),
            conn_ok(r@),
    {
        broadcast use vstd::std_specs::hash::group_hash_axioms;

        let r = ConnState {
            authenticated: false,
            admin: false,
            username: None,
            user_home: None,
            permissions: String::new(),
            quota_mb: 0,
            seq: 0,
            uploads: HashMap::new(),
        };
        proof {
            assert(r@.uploads =~= Map::<u32, UploadView>::empty());
            assert(r@.permissions =~= Seq::<char>::empty());
        }
        r
    }

    /// Takes the next sequence number.
    pub fn next_seq(&mut self) -> (r: u32)
        requires
            old(self).seq < u32::MAX,
        ensures
            r == old(self).seq + 1,
            final(self)@ == bump(old(self)@),
    {
        self.seq = self.seq + 1;
        self.seq
    }

    /// Has the user of the connection the permission? An administrator has all of them.
    pub fn can(&self, perm: &str) -> (r: bool)
        ensures
            r == conn_can(self@, perm@),
    {
        self.admin || list_has(self.permissions.as_str(), perm)
    }

    /// The name under which the user stands in the audit log.
    pub fn log_name(&self) -> (r: String)
        ensures
            r@ == audit_name(self@),
    {
        match &self.username {
            Some(n) => n.clone(),
            None => "?".to_owned(),
        }
    }
}

/// Is there room for one more connection?
pub fn accepts_connection(count: usize) -> (r: bool)
    ensures
        r <==> count < MAX_CONNECTIONS,
{
    count < MAX_CONNECTIONS
}

/// The frame with which the server opens a connection.
pub fn greeting(conn: &mut ConnState) -> (r: Reply)
    requires
        old(conn).seq < u32::MAX,
    ensures
        final(conn)@ == bump(old(conn)@),
        r@ == (ReplyView {
            msg_type: MSG_HELLO,
            stream_id: 0,
            seq_num: final(conn).seq,
            body: BodyView::Hello { client_name: "LanShare-Server"@, version: WSP_VERSION },
        }),
{
    let seq: u32 = conn.next_seq();
    Reply {
        msg_type: MSG_HELLO,
        stream_id: 0,
        seq_num: seq,
        body: Body::Hello(
            HelloMsg { client_name: "LanShare-Server".to_owned(), version: WSP_VERSION },
        ),
    }
}

/// The requests by the type of their frame.
#[derive(Debug, Clone, Copy, PartialEq, Eq, Structural)]
pub enum RequestKind {
    Hello,
    Auth,
    ListDir,
    Mkdir,
    Rename,
    Delete,
    UploadStart,
    UploadData,
    UploadEnd,
    DownloadReq,
    TrashList,
    TrashRestore,
    TrashDelete,
    TrashEmpty,
    KeepAlive,
    Unknown,
}

/// The kind of request that a frame type announces.
pub open spec fn kind_of(msg_type: u8) -> RequestKind {
    if msg_type == MSG_HELLO {
        RequestKind::Hello
    } else if msg_type == MSG_AUTH {
        RequestKind::Auth
    } else if msg_type == MSG_LIST_DIR {
        RequestKind::ListDir
    } else if msg_type == MSG_MKDIR {
        RequestKind::Mkdir
    } else if msg_type == MSG_RENAME {
        RequestKind::Rename
    } else if msg_type == MSG_DELETE {
        RequestKind::Delete
    } else if msg_type == MSG_UPLOAD_START {
        RequestKind::UploadStart
    } else if msg_type == MSG_UPLOAD_DATA {
        RequestKind::UploadData
    } else if msg_type == MSG_UPLOAD_END {
        RequestKind::UploadEnd
    } else if msg_type == MSG_DOWNLOAD_REQ {
        RequestKind::DownloadReq
    } else if msg_type == MSG_TRASH_LIST {
        RequestKind::TrashList
    } else if msg_type == MSG_TRASH_RESTORE {
        RequestKind::TrashRestore
    } else if msg_type == MSG_TRASH_DELETE {
        RequestKind::TrashDelete
    } else if msg_type == MSG_TRASH_EMPTY {
        RequestKind::TrashEmpty
    } else if msg_type == MSG_KEEPALIVE {
        RequestKind::KeepAlive
    } else {
        RequestKind::Unknown
    }
}

/// The kind of request that a frame type announces.
pub fn request_kind(msg_type: u8) -> (r: RequestKind)
    ensures
        r == kind_of(msg_type),
{
    match msg_type {
        0x01 => RequestKind::Hello,
        0x03 => RequestKind::Auth,
        0x10 => RequestKind::ListDir,
        0x14 => RequestKind::Mkdir,
        0x15 => RequestKind::Rename,
        0x16 => RequestKind::Delete,
        0x20 => RequestKind::UploadStart,
        0x21 => RequestKind::UploadData,
        0x22 => RequestKind::UploadEnd,
        0x30 => RequestKind::DownloadReq,
        0x40 => RequestKind::TrashList,
        0x42 => RequestKind::TrashRestore,
        0x43 => RequestKind::TrashDelete,
        0x44 => RequestKind::TrashEmpty,
        0xF1 => RequestKind::KeepAlive,
        _ => RequestKind::Unknown,
    }
}

/// A request whose JSON has been read. `Malformed` is one whose JSON could not be read, with the
/// reason, and `MalformedAuth` the same of an authentication request.
#[derive(Debug, Clone)]
pub enum Request {
    Hello,
    Auth(AuthMsg),
    MalformedAuth(String),
    Malformed(String),
    ListDir(ListDirMsg),
    Mkdir(MkdirMsg),
    Rename(RenameMsg),
    Delete(DeleteMsg),
    UploadStart(UploadStartMsg),
    UploadData(Vec<u8>),
    UploadEnd,
    DownloadReq(DownloadReqMsg),
    TrashList,
    TrashRestore(String),
    TrashDelete(String),
    TrashEmpty,
    KeepAlive,
    Unknown(u8),
}

/// Work that a request asks for.
#[derive(Debug, Clone)]
pub enum Work {
    /// Find out whom the token stands for.
    CheckToken(String),
    ListDir(String),
    Mkdir(String),
    Rename(String, String),
    /// Move to the trash.
    Discard(String),
    /// Measure the space in use and what is there already, then open the file.
    OpenUpload(String, u64),
    /// Write the bytes at the offset of the upload's file.
    WriteUpload(u64, Vec<u8>),
    Download(String, u64),
    TrashList,
    TrashRestore(String),
    TrashDelete(String),
    TrashEmpty,
}

pub enum WorkView {
    CheckToken(Seq<char>),
    ListDir(Seq<char>),
    Mkdir(Seq<char>),
    Rename(Seq<char>, Seq<char>),
    Discard(Seq<char>),
    OpenUpload(Seq<char>, u64),
    WriteUpload(u64, Seq<u8>),
    Download(Seq<char>, u64),
    TrashList,
    TrashRestore(Seq<char>),
    TrashDelete(Seq<char>),
    TrashEmpty,
}

impl View for Work {
    type V = WorkView;

    open spec fn view(&self) -> WorkView {
        match *self {
            Work::CheckToken(t) => WorkView::CheckToken(t@),
            Work::ListDir(p) => WorkView::ListDir(p@),
            Work::Mkdir(p) => WorkView::Mkdir(p@),
            Work::Rename(a, b) => WorkView::Rename(a@, b@),
            Work::Discard(p) => WorkView::Discard(p@),
            Work::OpenUpload(p, n) => WorkView::OpenUpload(p@, n),
            Work::WriteUpload(o, d) => WorkView::WriteUpload(o, d@),
            Work::Download(p, o) => WorkView::Download(p@, o),
            Work::TrashList => WorkView::TrashList,
            Work::TrashRestore(n) => WorkView::TrashRestore(n@),
            Work::TrashDelete(n) => WorkView::TrashDelete(n@),
            Work::TrashEmpty => WorkView::TrashEmpty,
        }
    }
}

/// The end of an upload: its file is closed, and kept only if it is complete.
#[derive(Debug, Clone)]
pub struct UploadClosed {
    pub path: String,
    pub keep: bool,
    pub audit: Option<Audit>,
    pub reply: Reply,
}

/// What comes of a request.
#[derive(Debug, Clone)]
pub enum Step {
    Reply(Reply),
    Work(Work),
    CloseUpload(UploadClosed),
}

pub enum StepView {
    Reply(ReplyView),
    Work(WorkView),
    CloseUpload { path: Seq<char>, keep: bool, audit: Option<AuditView>, reply: ReplyView },
}

impl View for Step {
    type V = StepView;

    open spec fn view(&self) -> StepView {
        match *self {
            Step::Reply(r) => StepView::Reply(r@),
            Step::Work(w) => StepView::Work(w@),
            Step::CloseUpload(c) => StepView::CloseUpload {
                path: c.path@,
                keep: c.keep,
                audit: audit_of(c.audit),
                reply: c.reply@,
            },
        }
    }
}

/// A reply says on which stream it is, and what: an error its code and its text, an acknowledgement
/// whether it went well.
pub proof fn law_replies_say_what_they_are(
    sid: u32,
    seq: u32,
    code: u32,
    text: Seq<char>,
    ok: bool,
    offset: u64,
)
    ensures
        ({
            let r = error_reply(sid, seq, code, text);
            &&& r.msg_type == 0xF0 && r.stream_id == sid && r.seq_num == seq
            &&& r.body matches BodyView::Error { code: c, message } && c == code && message == text
        }),
        ({
            let r = op_ack_reply(sid, seq, ok, Some(text));
            &&& r.msg_type == 0x17 && r.stream_id == sid && r.seq_num == seq
            &&& r.body matches BodyView::OpAck { ok: o, error } && o == ok && error == Some(text)
        }),
        ({
            let r = upload_ack_reply(sid, seq, ok, offset, Some(text));
            &&& r.msg_type == 0x23 && r.stream_id == sid && r.seq_num == seq
            &&& r.body matches BodyView::UploadAck { ok: o, offset: f, error } && o == ok && f
                == offset && error == Some(text)
        }),
{
}

} // verus!
