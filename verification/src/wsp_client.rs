//! The client's side of the share protocol: what comes of the frames that arrive.
use vstd::prelude::*;
use crate::bytes::{be64, law_be64, push_be64, push_range};
use crate::content::written;
use crate::frame::{
    check_frame, frame_fault, frame_in, payload_len, read_frame, FrameFault, FrameView, WspFrame,
    MSG_AUTH, MSG_AUTH_ACK, MSG_DELETE, MSG_DOWNLOAD_DATA, MSG_DOWNLOAD_END, MSG_DOWNLOAD_REQ,
    MSG_ERROR, MSG_HELLO, MSG_KEEPALIVE, MSG_LIST_DIR, MSG_LIST_DIR_RESP, MSG_MKDIR, MSG_OP_ACK,
    MSG_RENAME, MSG_TRASH_DELETE, MSG_TRASH_EMPTY, MSG_TRASH_LIST, MSG_TRASH_LIST_RESP,
    MSG_TRASH_RESTORE, MSG_UPLOAD_ACK, MSG_UPLOAD_DATA, MSG_UPLOAD_END, MSG_UPLOAD_START,
};
use crate::lsp_client::{basename, last_step, stat_missing};
use crate::text::{digits, number, str_eq, text_of};
use crate::paths::stays_inside;
use crate::wsp::{kind_of, BodyView, ConnView, Request, RequestKind, StepView, WorkView};
use crate::wsp_server::{chunk_payload, next_step, numbers, resume_at, Exchange};

verus! {

pub const MSG_STAT: u8 = 0x12;

pub const MSG_STAT_RESP: u8 = 0x13;

/// An entry of a directory, as a client sees it. The time is text.
#[derive(Debug, Clone)]
pub struct DirEntry {
    pub name: String,
    pub is_dir: bool,
    pub size: u64,
    pub mtime: String,
}

/// What a client learns of one path.
#[derive(Debug, Clone)]
pub struct StatResp {
    pub name: String,
    pub is_dir: bool,
    pub size: u64,
    pub mtime: String,
    pub exists: bool,
}

/// The message that goes with a fault, as a client words it.
pub open spec fn client_fault_text(data: Seq<u8>, fault: FrameFault) -> Seq<char> {
    match fault {
        FrameFault::Short => "帧太短: "@ + digits(data.len()),
        FrameFault::Magic | FrameFault::Version => "magic 不匹配"@,
        FrameFault::TooLarge => "payload 超限: "@ + digits(payload_len(data) as nat),
        FrameFault::Incomplete => "payload 不完整"@,
    }
}

/// Reads a frame from a server of any version.
pub fn decode(data: &[u8]) -> (r: Result<WspFrame, String>)
    ensures
        match r {
            Ok(f) => frame_fault(data@, true) is None && f@ == frame_in(data@),
            Err(e) => frame_fault(data@, true) is Some && e@ == client_fault_text(
                data@,
                frame_fault(data@, true)->0,
            ),
        },
{
    match check_frame(data, true) {
        None => Ok(read_frame(data, true)),
        Some(fault) => {
            let mut out: String = String::new();
            match fault {
                FrameFault::Short => {
                    out.append("帧太短: ");
                    out.append(number(data.len() as u64).as_str());
                },
                FrameFault::Magic | FrameFault::Version => {
                    out.append("magic 不匹配");
                },
                FrameFault::TooLarge => {
                    out.append("payload 超限: ");
                    out.append(number(crate::bytes::read_be32(data, 12) as u64).as_str());
                },
                FrameFault::Incomplete => {
                    out.append("payload 不完整");
                },
            }
            proof {
                assert(out@ =~= client_fault_text(data@, fault));
            }
            Err(out)
        },
    }
}

/// What arrives over a connection.
#[derive(Debug)]
pub enum Arrival {
    /// Bytes, which should be a frame.
    Binary(Vec<u8>),
    /// The server closes the connection.
    Closed,
    /// The connection fails, for a reason.
    Failed(String),
    /// The connection is over.
    Ended,
    /// Something else, such as a sign of life.
    Other,
}

/// What comes of an arrival while a client waits for a reply.
#[derive(Debug)]
pub enum Received {
    /// It is the reply.
    Reply(WspFrame),
    /// The server reports an error; its body says which.
    Error(WspFrame),
    /// It is not for this request; the client waits on.
    Wait,
    /// It cannot be read. The request fails, the connection stays.
    Unreadable(String),
    /// The connection is lost. The request fails, and the next one needs a new connection.
    Lost(String),
}

pub enum ReceivedView {
    Reply(FrameView),
    Error(FrameView),
    Wait,
    Unreadable(Seq<char>),
    Lost(Seq<char>),
}

impl View for Received {
    type V = ReceivedView;

    open spec fn view(&self) -> ReceivedView {
        match *self {
            Received::Reply(f) => ReceivedView::Reply(f@),
            Received::Error(f) => ReceivedView::Error(f@),
            Received::Wait => ReceivedView::Wait,
            Received::Unreadable(e) => ReceivedView::Unreadable(e@),
            Received::Lost(e) => ReceivedView::Lost(e@),
        }
    }
}

/// Is a frame of one type the reply to a request of another? By convention the type of a reply is
/// the next; the start of an upload is answered with an acknowledgement.
pub open spec fn replies_to(msg_type: u8, reply: u8) -> bool {
    reply == msg_type + 1 || (msg_type == MSG_UPLOAD_START && reply == MSG_UPLOAD_ACK)
}

/// What comes of a frame that is the reply, or is not. An error counts either way.
pub open spec fn sorted_by(is_reply: bool, f: FrameView) -> ReceivedView {
    if f.msg_type == MSG_ERROR {
        ReceivedView::Error(f)
    } else if is_reply {
        ReceivedView::Reply(f)
    } else {
        ReceivedView::Wait
    }
}

/// What comes of a frame while a client waits for the reply to a request of type `msg_type` on a
/// stream. An error counts whatever its stream; the reply must be of the same stream.
pub open spec fn sorted_frame(msg_type: u8, stream_id: u32, f: FrameView) -> ReceivedView {
    sorted_by(f.stream_id == stream_id && replies_to(msg_type, f.msg_type), f)
}

/// What comes of an arrival that is no frame.
pub open spec fn sorted_other(a: Arrival) -> ReceivedView {
    match a {
        Arrival::Closed => ReceivedView::Lost("连接已关闭"@),
        Arrival::Failed(e) => ReceivedView::Lost("接收错误: "@ + e@),
        Arrival::Ended => ReceivedView::Lost("连接已断开"@),
        _ => ReceivedView::Wait,
    }
}

/// What comes of an arrival while a client waits for a reply.
pub open spec fn sorted_arrival(msg_type: u8, stream_id: u32, a: Arrival) -> ReceivedView {
    match a {
        Arrival::Binary(data) => match frame_fault(data@, true) {
            None => sorted_frame(msg_type, stream_id, frame_in(data@)),
            Some(fault) => ReceivedView::Unreadable(client_fault_text(data@, fault)),
        },
        _ => sorted_other(a),
    }
}

/// Sorts a frame that arrives while a client waits for a reply.
pub fn receive(msg_type: u8, stream_id: u32, frame: WspFrame) -> (r: Received)
    requires
        msg_type < 255,
    ensures
        r@ == sorted_frame(msg_type, stream_id, frame@),
{
    if frame.msg_type == MSG_ERROR {
        return Received::Error(frame);
    }
    let awaited = frame.msg_type == msg_type + 1 || (msg_type == MSG_UPLOAD_START
        && frame.msg_type == MSG_UPLOAD_ACK);
    if frame.stream_id == stream_id && awaited {
        return Received::Reply(frame);
    }
    Received::Wait
}

fn receive_other(arrival: Arrival) -> (r: Received)
    ensures
        r@ == sorted_other(arrival),
{
    match arrival {
        Arrival::Closed => Received::Lost("连接已关闭".to_owned()),
        Arrival::Failed(e) => {
            let mut text: String = "接收错误: ".to_owned();
            text.append(e.as_str());
            Received::Lost(text)
        },
        Arrival::Ended => Received::Lost("连接已断开".to_owned()),
        _ => Received::Wait,
    }
}

/// Sorts what arrives while a client waits for the reply to a request of type `msg_type`.
pub fn send_and_recv_frame(msg_type: u8, stream_id: u32, arrival: Arrival) -> (r: Received)
    requires
        msg_type < 255,
    ensures
        r@ == sorted_arrival(msg_type, stream_id, arrival),
{
    match arrival {
        Arrival::Binary(data) => match decode(data.as_slice()) {
            Ok(frame) => receive(msg_type, stream_id, frame),
            Err(e) => Received::Unreadable(e),
        },
        other => receive_other(other),
    }
}

/// Sorts what arrives while a client waits for the acknowledgement of an operation, whose type is
/// the same for all operations.
pub fn operation_answer(stream_id: u32, arrival: Arrival) -> (r: Received)
    ensures
        r@ == match arrival {
            Arrival::Binary(data) => match frame_fault(data@, true) {
                None => sorted_by(
                    frame_in(data@).stream_id == stream_id && frame_in(data@).msg_type
                        == MSG_OP_ACK,
                    frame_in(data@),
                ),
                Some(fault) => ReceivedView::Unreadable(client_fault_text(data@, fault)),
            },
            _ => sorted_other(arrival),
        },
{
    match arrival {
        Arrival::Binary(data) => match decode(data.as_slice()) {
            Ok(frame) => {
                if frame.msg_type == MSG_ERROR {
                    Received::Error(frame)
                } else if frame.stream_id == stream_id && frame.msg_type == MSG_OP_ACK {
                    Received::Reply(frame)
                } else {
                    Received::Wait
                }
            },
            Err(e) => Received::Unreadable(e),
        },
        other => receive_other(other),
    }
}

/// The text of an error that a server reports. `message` is what its body says, if it can be read.
pub fn server_error(message: &Option<String>) -> (r: String)
    ensures
        r@ == "服务端错误: "@ + match text_of(*message) {
            Some(m) => m,
            None => "未知错误"@,
        },
{
    let mut out: String = "服务端错误: ".to_owned();
    match message {
        Some(m) => out.append(m.as_str()),
        None => out.append("未知错误"),
    }
    out
}

/// Judges the reply to an authentication: whether it went well, or the error with its reason.
pub fn check_auth(ok: bool, error: &Option<String>) -> (r: Result<(), String>)
    ensures
        r is Ok <==> ok,
        r matches Err(e) ==> e@ == "认证失败: "@ + match text_of(*error) {
            Some(m) => m,
            None => Seq::<char>::empty(),
        },
{
    if ok {
        return Ok(());
    }
    let mut out: String = "认证失败: ".to_owned();
    match error {
        Some(m) => out.append(m.as_str()),
        None => {},
    }
    proof {
        assert(out@ =~= "认证失败: "@ + match text_of(*error) {
            Some(m) => m,
            None => Seq::<char>::empty(),
        });
    }
    Err(out)
}

/// Judges the reply to the start of an upload: the offset from which it goes on, or the error.
pub fn check_upload_start(ok: bool, offset: u64, error: &Option<String>) -> (r: Result<u64, String>)
    ensures
        match r {
            Ok(n) => ok && n == offset,
            Err(e) => !ok && e@ == "上传开始失败: "@ + match text_of(*error) {
                Some(m) => m,
                None => Seq::<char>::empty(),
            },
        },
{
    if ok {
        return Ok(offset);
    }
    let mut out: String = "上传开始失败: ".to_owned();
    match error {
        Some(m) => out.append(m.as_str()),
        None => {},
    }
    proof {
        assert(out@ =~= "上传开始失败: "@ + match text_of(*error) {
            Some(m) => m,
            None => Seq::<char>::empty(),
        });
    }
    Err(out)
}

/// The place of the first entry of a name; -1 where there is none.
pub open spec fn entry_place(v: Seq<DirEntry>, name: Seq<char>) -> int
    decreases v.len(),
{
    if v.len() == 0 {
        -1
    } else {
        let k = entry_place(v.drop_last(), name);
        if k >= 0 {
            k
        } else if v.last().name@ == name {
            v.len() - 1
        } else {
            -1
        }
    }
}

/// What is known of a path by the listing of the directory that it lies in: what the entry of its
/// name says, or that it does not exist.
pub fn stat_in(path: &str, entries: &Vec<DirEntry>) -> (r: StatResp)
    ensures
        r.name@ == last_step(path@),
        ({
            let k = entry_place(entries@, last_step(path@));
            if 0 <= k < entries@.len() {
                &&& r.exists
                &&& r.is_dir == entries@[k].is_dir
                &&& r.size == entries@[k].size
                &&& r.mtime@ == entries@[k].mtime@
            } else {
                !r.exists && !r.is_dir && r.size == 0 && r.mtime@ == "0"@
            }
        }),
{
    let name = basename(path);
    let mut i: usize = 0;
    proof {
        assert(entries@.take(0) =~= Seq::<DirEntry>::empty());
    }
    while i < entries.len()
        invariant
            name@ == last_step(path@),
            i <= entries@.len(),
            entry_place(entries@.take(i as int), name@) == -1,
        decreases entries@.len() - i,
    {
        proof {
            assert(entries@.take(i + 1).drop_last() =~= entries@.take(i as int));
            assert(entries@.take(i + 1).last() == entries@[i as int]);
        }
        if str_eq(entries[i].name.as_str(), name.as_str()) {
            proof {
                lemma_entry_place(entries@, name@, i + 1);
            }
            let e = &entries[i];
            return StatResp {
                name,
                is_dir: e.is_dir,
                size: e.size,
                mtime: e.mtime.clone(),
                exists: true,
            };
        }
        i = i + 1;
    }
    proof {
        assert(entries@.take(i as int) =~= entries@);
    }
    stat_missing(path)
}

proof fn lemma_entry_place(v: Seq<DirEntry>, name: Seq<char>, n: int)
    requires
        0 <= n <= v.len(),
        entry_place(v.take(n), name) >= 0,
    ensures
        entry_place(v, name) == entry_place(v.take(n), name),
    decreases v.len() - n,
{
    if n < v.len() {
        assert(v.take(n + 1).drop_last() =~= v.take(n));
        lemma_entry_place(v, name, n + 1);
    } else {
        assert(v.take(n) =~= v);
    }
}

/// The payload that carries a piece of an upload.
pub open spec fn upload_payload(offset: u64, data: Seq<u8>) -> Seq<u8> {
    be64(offset) + data
}

/// The payload that carries a piece of an upload.
pub fn upload_data(offset: u64, data: &[u8]) -> (r: Vec<u8>)
    ensures
        r@ == upload_payload(offset, data@),
{
    let mut payload: Vec<u8> = Vec::new();
    push_be64(&mut payload, offset);
    push_range(&mut payload, data, 0, data.len());
    proof {
        assert(payload@ =~= upload_payload(offset, data@));
    }
    payload
}

/// A hexadecimal digit, small letters from ten on.
pub open spec fn small_hex(d: nat) -> char {
    if d < 10 {
        (48 + d) as char
    } else {
        (87 + d % 16) as char
    }
}

/// Judges the frame that follows a piece of an upload: it must acknowledge it.
pub fn check_upload_ack(msg_type: u8) -> (r: Result<(), String>)
    ensures
        r is Ok <==> msg_type == MSG_UPLOAD_ACK,
        r matches Err(e) ==> e@ == "上传期望 ACK (0x23)，收到 0x"@ + seq![
            small_hex(msg_type as nat / 16),
            small_hex(msg_type as nat % 16),
        ],
{
    if msg_type == MSG_UPLOAD_ACK {
        return Ok(());
    }
    let mut out: String = "上传期望 ACK (0x23)，收到 0x".to_owned();
    let ghost before = out@;
    let hi: u8 = msg_type / 16;
    let lo: u8 = msg_type % 16;
    out.push((if hi < 10 { 48 + hi } else { 87 + hi }) as char);
    out.push((if lo < 10 { 48 + lo } else { 87 + lo }) as char);
    proof {
        assert(out@ =~= before + seq![
            small_hex(msg_type as nat / 16),
            small_hex(msg_type as nat % 16),
        ]);
    }
    Err(out)
}

/// Judges what arrives after a piece of an upload: it must be a frame that acknowledges it.
pub fn upload_answer(arrival: Arrival) -> (r: Result<(), String>)
    ensures
        match arrival {
            Arrival::Binary(data) => match frame_fault(data@, true) {
                None => (r is Ok <==> frame_in(data@).msg_type == MSG_UPLOAD_ACK) && (r matches Err(
                    e,
                ) ==> e@ == "上传期望 ACK (0x23)，收到 0x"@ + seq![
                    small_hex(frame_in(data@).msg_type as nat / 16),
                    small_hex(frame_in(data@).msg_type as nat % 16),
                ]),
                Some(fault) => r matches Err(e) && e@ == client_fault_text(data@, fault),
            },
            _ => r matches Err(e) && e@ == "上传 ACK 接收失败"@,
        },
{
    match arrival {
        Arrival::Binary(data) => match decode(data.as_slice()) {
            Ok(frame) => check_upload_ack(frame.msg_type),
            Err(e) => Err(e),
        },
        _ => Err("上传 ACK 接收失败".to_owned()),
    }
}

/// A download in progress: its stream, and the bytes that have arrived.
#[derive(Debug)]
pub struct Incoming {
    pub stream_id: u32,
    pub data: Vec<u8>,
}

/// How a download goes on after a frame.
#[derive(Debug)]
pub enum Progress {
    /// More is to come.
    More,
    /// All has arrived.
    Done,
    /// The server gives up; the body of the frame says why.
    Failed(WspFrame),
    /// A frame cannot be read. The download fails, the connection stays.
    Unreadable(String),
    /// The connection is lost.
    Lost(String),
}

/// The bytes that have arrived after one more frame: of a data frame of the stream, all behind the
/// offset and the mark of the last piece.
pub open spec fn gathered(stream_id: u32, data: Seq<u8>, f: FrameView) -> Seq<u8> {
    if f.stream_id == stream_id && f.msg_type == MSG_DOWNLOAD_DATA && f.payload.len() > 9 {
        data + f.payload.skip(9)
    } else {
        data
    }
}

impl Incoming {
    pub fn new(stream_id: u32) -> (r: Self)
        ensures
            r.stream_id == stream_id,
            r.data@ == Seq::<u8>::empty(),
    {
        Incoming { stream_id, data: Vec::new() }
    }

    /// Takes a frame. Frames of other streams and of other types are passed over.
    pub fn take_frame(&mut self, frame: WspFrame) -> (r: Progress)
        ensures
            final(self).stream_id == old(self).stream_id,
            final(self).data@ == gathered(old(self).stream_id, old(self).data@, frame@),
            match r {
                Progress::Done => frame.stream_id == old(self).stream_id && frame.msg_type
                    == MSG_DOWNLOAD_END,
                Progress::Failed(f) => frame.stream_id == old(self).stream_id && frame.msg_type
                    == MSG_ERROR && f == frame,
                Progress::More => !(frame.stream_id == old(self).stream_id && (frame.msg_type
                    == MSG_DOWNLOAD_END || frame.msg_type == MSG_ERROR)),
                _ => false,
            },
    {
        if frame.stream_id != self.stream_id {
            return Progress::More;
        }
        if frame.msg_type == MSG_DOWNLOAD_DATA {
            if frame.payload.len() > 9 {
                let n: usize = frame.payload.len();
                push_range(&mut self.data, frame.payload.as_slice(), 9, n);
                proof {
                    assert(frame.payload@.subrange(9, n as int) =~= frame.payload@.skip(9));
                }
            }
            return Progress::More;
        }
        if frame.msg_type == MSG_DOWNLOAD_END {
            return Progress::Done;
        }
        if frame.msg_type == MSG_ERROR {
            return Progress::Failed(frame);
        }
        Progress::More
    }

    /// Takes what arrives during the download.
    pub fn download_raw(&mut self, arrival: Arrival) -> (r: Progress)
        ensures
            final(self).stream_id == old(self).stream_id,
            match arrival {
                Arrival::Binary(data) => match frame_fault(data@, true) {
                    None => {
                        let f = frame_in(data@);
                        let own = f.stream_id == old(self).stream_id;
                        &&& final(self).data@ == gathered(
                            old(self).stream_id,
                            old(self).data@,
                            f,
                        )
                        &&& r is Done <==> own && f.msg_type == MSG_DOWNLOAD_END
                        &&& r is Failed <==> own && f.msg_type == MSG_ERROR
                        &&& r matches Progress::Failed(g) ==> g@ == f
                        &&& r is Done || r is Failed || r is More
                    },
                    Some(fault) => final(self).data@ == old(self).data@ && (
                    r matches Progress::Unreadable(e) && e@ == client_fault_text(data@, fault)),
                },
                Arrival::Closed | Arrival::Ended => final(self).data@ == old(self).data@ && (
                r matches Progress::Lost(e) && e@ == "下载时连接断开"@),
                Arrival::Failed(reason) => final(self).data@ == old(self).data@ && (
                r matches Progress::Lost(e) && e@ == "下载接收错误: "@ + reason@),
                Arrival::Other => final(self).data@ == old(self).data@ && r is More,
            },
    {
        match arrival {
            Arrival::Binary(data) => match decode(data.as_slice()) {
                Ok(frame) => self.take_frame(frame),
                Err(e) => Progress::Unreadable(e),
            },
            Arrival::Closed | Arrival::Ended => Progress::Lost("下载时连接断开".to_owned()),
            Arrival::Failed(reason) => {
                let mut text: String = "下载接收错误: ".to_owned();
                text.append(reason.as_str());
                Progress::Lost(text)
            },
            Arrival::Other => Progress::More,
        }
    }
}

/// The bytes of several pieces, one after the other.
pub open spec fn concatenated(pieces: Seq<Seq<u8>>) -> Seq<u8>
    decreases pieces.len(),
{
    if pieces.len() == 0 {
        Seq::<u8>::empty()
    } else {
        concatenated(pieces.drop_last()) + pieces.last()
    }
}

/// The frames in which a server sends several pieces of a file, from an offset on.
pub open spec fn sent_frames(
    stream_id: u32,
    seq: u32,
    offset: u64,
    total: u64,
    pieces: Seq<Seq<u8>>,
) -> Seq<FrameView>
    decreases pieces.len(),
{
    if pieces.len() == 0 {
        Seq::<FrameView>::empty()
    } else {
        let front = pieces.drop_last();
        sent_frames(stream_id, seq, offset, total, front).push(
            FrameView {
                msg_type: MSG_DOWNLOAD_DATA,
                stream_id,
                seq_num: (seq + front.len()) as u32,
                payload: chunk_payload(
                    (offset + concatenated(front).len()) as u64,
                    total,
                    pieces.last(),
                ),
            },
        )
    }
}

/// The pieces of a download carry the sequence numbers that the connection counts for them.
pub proof fn law_pieces_carry_their_numbers(
    c: ConnView,
    stream_id: u32,
    offset: u64,
    total: u64,
    pieces: Seq<Seq<u8>>,
    i: int,
)
    requires
        c.seq + 1 + pieces.len() <= u32::MAX,
        0 <= i < pieces.len(),
    ensures
        sent_frames(stream_id, (c.seq + 1) as u32, offset, total, pieces).len() == pieces.len(),
        sent_frames(stream_id, (c.seq + 1) as u32, offset, total, pieces)[i].seq_num == numbers(
            c,
            Exchange::Download(pieces.len()),
        )[i],
{
    lemma_sent_number(stream_id, (c.seq + 1) as u32, offset, total, pieces, i);
}

proof fn lemma_sent_number(
    stream_id: u32,
    seq: u32,
    offset: u64,
    total: u64,
    pieces: Seq<Seq<u8>>,
    i: int,
)
    requires
        seq + pieces.len() <= u32::MAX,
    ensures
        sent_frames(stream_id, seq, offset, total, pieces).len() == pieces.len(),
        0 <= i < pieces.len() ==> sent_frames(stream_id, seq, offset, total, pieces)[i].seq_num
            == seq + i,
    decreases pieces.len(),
{
    if pieces.len() > 0 {
        lemma_sent_number(stream_id, seq, offset, total, pieces.drop_last(), i);
    }
}

/// What a client has gathered after several frames.
pub open spec fn gathered_all(stream_id: u32, frames: Seq<FrameView>) -> Seq<u8>
    decreases frames.len(),
{
    if frames.len() == 0 {
        Seq::<u8>::empty()
    } else {
        gathered(stream_id, gathered_all(stream_id, frames.drop_last()), frames.last())
    }
}

/// A download gives back what the server read: whatever the pieces, the client gathers exactly
/// their bytes, in order.
pub proof fn law_download_is_faithful(
    stream_id: u32,
    seq: u32,
    offset: u64,
    total: u64,
    pieces: Seq<Seq<u8>>,
)
    ensures
        gathered_all(stream_id, sent_frames(stream_id, seq, offset, total, pieces))
            == concatenated(pieces),
    decreases pieces.len(),
{
    if pieces.len() > 0 {
        let front = pieces.drop_last();
        law_download_is_faithful(stream_id, seq, offset, total, front);
        let frames = sent_frames(stream_id, seq, offset, total, pieces);
        assert(frames.drop_last() =~= sent_frames(stream_id, seq, offset, total, front));
        let o = (offset + concatenated(front).len()) as u64;
        let payload = chunk_payload(o, total, pieces.last());
        assert(payload.len() == 9 + pieces.last().len());
        assert(payload.skip(9) =~= pieces.last());
        if pieces.last().len() == 0 {
            assert(concatenated(pieces) =~= concatenated(front));
        }
    }
}

/// An upload arrives as it was sent: the server writes exactly the bytes of a piece, at its offset,
/// if they fit into the announced size.
pub proof fn law_upload_is_faithful(c: ConnView, sid: u32, offset: u64, data: Seq<u8>, req: Request)
    requires
        c.authenticated,
        c.uploads.contains_key(sid),
        offset + data.len() <= c.uploads[sid].size,
        req matches Request::UploadData(p) && p@ == upload_payload(offset, data),
    ensures
        next_step(c, sid, req).1 == StepView::Work(WorkView::WriteUpload(offset, data)),
{
    let payload = upload_payload(offset, data);
    law_be64(offset);
    assert(payload.take(8) =~= be64(offset));
    assert(payload.skip(8) =~= data);
}

/// Is the request one that a frame of the type carries?
pub open spec fn carried_by(req: Request, msg_type: u8) -> bool {
    match req {
        Request::Malformed(_) => true,
        Request::MalformedAuth(_) => msg_type == MSG_AUTH,
        Request::Hello => msg_type == MSG_HELLO,
        Request::Auth(_) => msg_type == MSG_AUTH,
        Request::ListDir(_) => msg_type == MSG_LIST_DIR,
        Request::Mkdir(_) => msg_type == MSG_MKDIR,
        Request::Rename(_) => msg_type == MSG_RENAME,
        Request::Delete(_) => msg_type == MSG_DELETE,
        Request::UploadStart(_) => msg_type == MSG_UPLOAD_START,
        Request::UploadData(_) => msg_type == MSG_UPLOAD_DATA,
        Request::UploadEnd => msg_type == MSG_UPLOAD_END,
        Request::DownloadReq(_) => msg_type == MSG_DOWNLOAD_REQ,
        Request::TrashList => msg_type == MSG_TRASH_LIST,
        Request::TrashRestore(_) => msg_type == MSG_TRASH_RESTORE,
        Request::TrashDelete(_) => msg_type == MSG_TRASH_DELETE,
        Request::TrashEmpty => msg_type == MSG_TRASH_EMPTY,
        Request::KeepAlive => msg_type == MSG_KEEPALIVE,
        Request::Unknown(t) => msg_type == t,
    }
}

/// The type of the frame that answers work which was done.
pub open spec fn work_answer(w: WorkView) -> u8 {
    match w {
        WorkView::CheckToken(_) => MSG_AUTH_ACK,
        WorkView::ListDir(_) => MSG_LIST_DIR_RESP,
        WorkView::OpenUpload(_, _) | WorkView::WriteUpload(_, _) => MSG_UPLOAD_ACK,
        WorkView::TrashList => MSG_TRASH_LIST_RESP,
        WorkView::Download(_, _) => MSG_DOWNLOAD_DATA,
        _ => MSG_OP_ACK,
    }
}

/// Is a frame of one type taken as the answer to a request of another, by the client's function for
/// that request: the one for replies, for operations, for pieces of uploads or for downloads?
pub open spec fn is_taken(msg_type: u8, answer: u8) -> bool {
    if msg_type == MSG_MKDIR || msg_type == MSG_RENAME || msg_type == MSG_DELETE || msg_type
        == MSG_UPLOAD_END || msg_type == MSG_TRASH_RESTORE || msg_type == MSG_TRASH_DELETE
        || msg_type == MSG_TRASH_EMPTY {
        answer == MSG_OP_ACK
    } else if msg_type == MSG_UPLOAD_DATA {
        answer == MSG_UPLOAD_ACK
    } else if msg_type == MSG_KEEPALIVE {
        answer == MSG_KEEPALIVE
    } else {
        replies_to(msg_type, answer)
    }
}

/// A client takes every answer of the server: whatever it asked, a frame that answers it is an error
/// or of a type that the client takes, and so is the frame that follows work.
pub proof fn law_answers_are_taken(c: ConnView, sid: u32, req: Request, msg_type: u8)
    requires
        carried_by(req, msg_type),
    ensures
        match next_step(c, sid, req).1 {
            StepView::Reply(r) => r.stream_id == sid && (r.msg_type == MSG_ERROR || is_taken(
                msg_type,
                r.msg_type,
            )),
            StepView::CloseUpload { reply, .. } => reply.stream_id == sid && is_taken(
                msg_type,
                reply.msg_type,
            ),
            StepView::Work(w) => is_taken(msg_type, work_answer(w)),
        },
{
}

/// The contents of a file after several pieces were written to it, one behind the other, from an
/// offset on.
pub open spec fn stored_pieces(file: Seq<u8>, offset: int, pieces: Seq<Seq<u8>>) -> Seq<u8>
    decreases pieces.len(),
{
    if pieces.len() == 0 {
        file
    } else {
        let front = pieces.drop_last();
        written(
            stored_pieces(file, offset, front),
            offset + concatenated(front).len(),
            pieces.last(),
        )
    }
}

/// An upload stores what was sent, also after a break: if the file holds the first part of the
/// bytes, as far as the server says that it goes on, and the rest is sent in pieces, the file holds
/// all the bytes in the end, and as many as were announced.
pub proof fn law_upload_stores_the_file(bytes: Seq<u8>, existing: u64, pieces: Seq<Seq<u8>>)
    requires
        bytes.len() <= u64::MAX,
        concatenated(pieces) == bytes.skip(resume_at(existing, bytes.len() as u64) as int),
    ensures
        stored_pieces(
            bytes.take(resume_at(existing, bytes.len() as u64) as int),
            resume_at(existing, bytes.len() as u64) as int,
            pieces,
        ) == bytes,
        resume_at(existing, bytes.len() as u64) + concatenated(pieces).len() == bytes.len(),
{
    let o = resume_at(existing, bytes.len() as u64) as int;
    lemma_stored_pieces(bytes, o, pieces, pieces.len() as int);
    assert(pieces.take(pieces.len() as int) =~= pieces);
    assert(bytes.take(o + concatenated(pieces).len()) =~= bytes);
}

proof fn lemma_concatenated_take(pieces: Seq<Seq<u8>>, n: int)
    requires
        0 <= n <= pieces.len(),
    ensures
        concatenated(pieces.take(n)).len() <= concatenated(pieces).len(),
        concatenated(pieces.take(n)) == concatenated(pieces).take(
            concatenated(pieces.take(n)).len() as int,
        ),
    decreases pieces.len() - n,
{
    if n < pieces.len() {
        lemma_concatenated_take(pieces, n + 1);
        assert(pieces.take(n + 1).drop_last() =~= pieces.take(n));
        let a = concatenated(pieces.take(n));
        let b = concatenated(pieces.take(n + 1));
        assert(b == a + pieces[n]);
        assert(a =~= b.take(a.len() as int));
        assert(a =~= concatenated(pieces).take(a.len() as int));
    } else {
        assert(pieces.take(n) =~= pieces);
        assert(concatenated(pieces).take(concatenated(pieces).len() as int) =~= concatenated(
            pieces,
        ));
    }
}

proof fn lemma_stored_pieces(bytes: Seq<u8>, o: int, pieces: Seq<Seq<u8>>, n: int)
    requires
        0 <= o <= bytes.len(),
        0 <= n <= pieces.len(),
        concatenated(pieces) == bytes.skip(o),
    ensures
        stored_pieces(bytes.take(o), o, pieces.take(n)) == bytes.take(
            o + concatenated(pieces.take(n)).len(),
        ),
    decreases n,
{
    if n == 0 {
        assert(pieces.take(0) =~= Seq::<Seq<u8>>::empty());
    } else {
        lemma_stored_pieces(bytes, o, pieces, n - 1);
        lemma_concatenated_take(pieces, n - 1);
        lemma_concatenated_take(pieces, n);
        let p = pieces.take(n);
        assert(p.drop_last() =~= pieces.take(n - 1));
        let a = concatenated(pieces.take(n - 1));
        let b = concatenated(p);
        assert(b == a + pieces[n - 1]);
        let before = bytes.take(o + a.len());
        let after = bytes.take(o + b.len());
        assert forall|i: int| o + a.len() <= i < o + b.len() implies bytes[i] == pieces[n - 1][i - o
            - a.len()] by {
            assert(bytes.skip(o)[i - o] == bytes[i]);
            assert(b[i - o] == concatenated(pieces)[i - o]);
        }
        assert(written(before, o + a.len(), pieces[n - 1]) =~= after);
    }
}

/// Every frame type leads to the work that it names: the kind of request that a type announces, the
/// request that a frame of the type carries, and what becomes of the request are one thing. An
/// administrator asks, who may do everything.
pub proof fn law_every_type_leads_to_its_work(c: ConnView, sid: u32, req: Request, t: u8)
    requires
        c.authenticated,
        c.admin,
        crate::wsp::has_room(c),
        carried_by(req, t),
        !(req is Malformed),
        req matches Request::Unknown(x) ==> kind_of(x) is Unknown,
    ensures
        ({
            let s = next_step(c, sid, req).1;
            match kind_of(t) {
                RequestKind::Hello => t == 0x01 && (s matches StepView::Reply(r) && r.msg_type
                    == 0x02),
                RequestKind::Auth => t == 0x03 && (req is MalformedAuth || (
                s matches StepView::Work(w) && w is CheckToken)),
                RequestKind::ListDir => t == 0x10 && (s matches StepView::Work(w) && w is ListDir),
                RequestKind::Mkdir => t == 0x14 && (s matches StepView::Work(w) && w is Mkdir),
                RequestKind::Rename => t == 0x15 && (s matches StepView::Work(w) && w is Rename),
                RequestKind::Delete => t == 0x16 && (s matches StepView::Work(w) && w is Discard),
                RequestKind::UploadStart => t == 0x20 && (match s {
                    StepView::Work(w) => w is OpenUpload,
                    StepView::Reply(r) => r.body is UploadAck,
                    _ => false,
                }),
                RequestKind::UploadData => t == 0x21 && (match s {
                    StepView::Work(w) => w is WriteUpload,
                    StepView::Reply(r) => r.body is UploadAck || r.body is Error,
                    _ => false,
                }),
                RequestKind::UploadEnd => t == 0x22 && (s is CloseUpload
                    || !c.uploads.contains_key(sid)),
                RequestKind::DownloadReq => t == 0x30 && (s matches StepView::Work(w) && w
                    is Download),
                RequestKind::TrashList => t == 0x40 && (s matches StepView::Work(w) && w
                    is TrashList),
                RequestKind::TrashRestore => t == 0x42 && (req matches Request::TrashRestore(n) && (
                stays_inside(n@) ==> s == StepView::Work(WorkView::TrashRestore(n@)))),
                RequestKind::TrashDelete => t == 0x43 && (req matches Request::TrashDelete(n) && (
                stays_inside(n@) ==> s == StepView::Work(WorkView::TrashDelete(n@)))),
                RequestKind::TrashEmpty => t == 0x44 && (s matches StepView::Work(w) && w
                    is TrashEmpty),
                RequestKind::KeepAlive => t == 0xF1 && (s matches StepView::Reply(r) && r.msg_type
                    == 0xF1),
                RequestKind::Unknown => req is Unknown && (s matches StepView::Reply(r) && (
                r.body matches BodyView::Error { code, .. } && code == 400)),
            }
        }),
{
}

/// A client takes as the reply only a frame of its own stream, and takes every error.
pub proof fn law_only_own_replies_are_taken(msg_type: u8, stream_id: u32, f: FrameView)
    requires
        msg_type < 255,
    ensures
        f.msg_type == 0xF0 ==> sorted_frame(msg_type, stream_id, f) == ReceivedView::Error(f),
        f.msg_type != 0xF0 && f.stream_id == stream_id && f.msg_type == msg_type + 1
            ==> sorted_frame(msg_type, stream_id, f) == ReceivedView::Reply(f),
        f.stream_id == stream_id && msg_type == 0x20 && f.msg_type == 0x23 ==> sorted_frame(
            msg_type,
            stream_id,
            f,
        ) == ReceivedView::Reply(f),
        f.msg_type != 0xF0 && f.stream_id != stream_id ==> sorted_frame(msg_type, stream_id, f)
            == ReceivedView::Wait,
        f.msg_type != 0xF0 && f.msg_type != msg_type + 1 && msg_type != 0x20 ==> sorted_frame(
            msg_type,
            stream_id,
            f,
        ) == ReceivedView::Wait,
{
}

/// A download takes nothing from other streams, nor from frames that carry no data.
pub proof fn law_other_frames_are_passed_over(stream_id: u32, data: Seq<u8>, f: FrameView)
    requires
        f.stream_id != stream_id || f.msg_type != 0x31 || f.payload.len() <= 9,
    ensures
        gathered(stream_id, data, f) == data,
{
}

/// What is known of a path by a listing is what the first entry of its name says; where there is no
/// such entry, nothing is.
pub proof fn law_first_entry_of_the_name(v: Seq<DirEntry>, name: Seq<char>)
    ensures
        ({
            let k = entry_place(v, name);
            &&& -1 <= k < v.len()
            &&& k >= 0 ==> v[k].name@ == name
            &&& forall|i: int|
                0 <= i < (if k >= 0 {
                    k
                } else {
                    v.len() as int
                }) ==> (#[trigger] v[i]).name@ != name
        }),
    decreases v.len(),
{
    if v.len() > 0 {
        law_first_entry_of_the_name(v.drop_last(), name);
        assert forall|i: int| 0 <= i < v.len() - 1 implies v.drop_last()[i] == #[trigger] v[i] by {}
    }
}

} // verus!
