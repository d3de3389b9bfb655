//! Frames of the WebSocket share protocol (WSP): a header of sixteen bytes and a payload.
//!
//! ```text
//! [0..2]   magic        0x57 0x53 ("WS")
//! [2]      version      0x01
//! [3]      msg_type
//! [4..8]   stream_id    most significant byte first
//! [8..12]  seq_num      most significant byte first
//! [12..16] payload_len  most significant byte first
//! [16..]   payload      JSON in control messages, raw bytes in data messages
//! ```
use vstd::prelude::*;
use crate::bytes::{be32, byte_range, from_be32, law_be32, law_from_be32, push_be32, push_range, read_be32};
use crate::text::{digits, number};

verus! {

/// The first byte of every frame, "W".
pub const WSP_MAGIC_0: u8 = 0x57;

/// The second byte of every frame, "S".
pub const WSP_MAGIC_1: u8 = 0x53;

/// The protocol version.
pub const WSP_VERSION: u8 = 0x01;

/// The length of the header.
pub const WSP_HEADER_LEN: usize = 16;

/// The largest payload of one frame, 4 MB.
pub const MAX_PAYLOAD: usize = 4194304;

pub const MSG_HELLO: u8 = 0x01;

pub const MSG_HELLO_ACK: u8 = 0x02;

pub const MSG_AUTH: u8 = 0x03;

pub const MSG_AUTH_ACK: u8 = 0x04;

pub const MSG_LIST_DIR: u8 = 0x10;

pub const MSG_LIST_DIR_RESP: u8 = 0x11;

pub const MSG_MKDIR: u8 = 0x14;

pub const MSG_RENAME: u8 = 0x15;

pub const MSG_DELETE: u8 = 0x16;

pub const MSG_OP_ACK: u8 = 0x17;

pub const MSG_UPLOAD_START: u8 = 0x20;

pub const MSG_UPLOAD_DATA: u8 = 0x21;

pub const MSG_UPLOAD_END: u8 = 0x22;

pub const MSG_UPLOAD_ACK: u8 = 0x23;

pub const MSG_DOWNLOAD_REQ: u8 = 0x30;

pub const MSG_DOWNLOAD_DATA: u8 = 0x31;

pub const MSG_DOWNLOAD_END: u8 = 0x32;

pub const MSG_TRASH_LIST: u8 = 0x40;

pub const MSG_TRASH_LIST_RESP: u8 = 0x41;

pub const MSG_TRASH_RESTORE: u8 = 0x42;

pub const MSG_TRASH_DELETE: u8 = 0x43;

pub const MSG_TRASH_EMPTY: u8 = 0x44;

pub const MSG_ERROR: u8 = 0xF0;

pub const MSG_KEEPALIVE: u8 = 0xF1;

/// One frame.
#[derive(Debug, Clone)]
pub struct WspFrame {
    pub msg_type: u8,
    pub stream_id: u32,
    pub seq_num: u32,
    pub payload: Vec<u8>,
}

/// A frame as a mathematical value.
pub struct FrameView {
    pub msg_type: u8,
    pub stream_id: u32,
    pub seq_num: u32,
    pub payload: Seq<u8>,
}

impl View for WspFrame {
    type V = FrameView;

    open spec fn view(&self) -> FrameView {
        FrameView {
            msg_type: self.msg_type,
            stream_id: self.stream_id,
            seq_num: self.seq_num,
            payload: self.payload@,
        }
    }
}

/// The bytes of a frame. The length field holds the payload's length modulo 2 to the 32.
pub open spec fn frame_bytes(f: FrameView) -> Seq<u8> {
    seq![WSP_MAGIC_0, WSP_MAGIC_1, WSP_VERSION, f.msg_type] + be32(f.stream_id) + be32(f.seq_num)
        + be32((f.payload.len() % 0x1_0000_0000) as u32) + f.payload
}

/// The length field of a header.
pub open spec fn payload_len(data: Seq<u8>) -> int {
    from_be32(data.subrange(12, 16))
}

/// The frame in `data`, whose header and payload are complete. What follows the payload is not
/// looked at.
pub open spec fn frame_in(data: Seq<u8>) -> FrameView {
    FrameView {
        msg_type: data[3],
        stream_id: from_be32(data.subrange(4, 8)) as u32,
        seq_num: from_be32(data.subrange(8, 12)) as u32,
        payload: data.subrange(16, 16 + payload_len(data)),
    }
}

/// Why `data` does not hold a frame, in the order in which the checks are made; nothing where it
/// holds one. With `any_version` the version byte is not looked at.
pub enum FrameFault {
    Short,
    Magic,
    Version,
    TooLarge,
    Incomplete,
}

pub open spec fn frame_fault(data: Seq<u8>, any_version: bool) -> Option<FrameFault> {
    if data.len() < 16 {
        Some(FrameFault::Short)
    } else if data[0] != WSP_MAGIC_0 || data[1] != WSP_MAGIC_1 {
        Some(FrameFault::Magic)
    } else if !any_version && data[2] != WSP_VERSION {
        Some(FrameFault::Version)
    } else if payload_len(data) > MAX_PAYLOAD {
        Some(FrameFault::TooLarge)
    } else if data.len() < 16 + payload_len(data) {
        Some(FrameFault::Incomplete)
    } else {
        None
    }
}

/// The message that goes with a fault.
pub open spec fn fault_text(data: Seq<u8>, fault: FrameFault) -> Seq<char> {
    match fault {
        FrameFault::Short => "帧太短: "@ + digits(data.len()) + " < 16"@,
        FrameFault::Magic => "magic 不匹配"@,
        FrameFault::Version => "版本不支持: "@ + digits(data[2] as nat),
        FrameFault::TooLarge => "payload 超限: "@ + digits(payload_len(data) as nat) + " > 4194304"@,
        FrameFault::Incomplete => "payload 不完整: "@ + digits(data.len()) + " < "@ + digits(
            (16 + payload_len(data)) as nat,
        ),
    }
}

/// Checks the header and finds out what is wrong with it.
pub fn check_frame(data: &[u8], any_version: bool) -> (r: Option<FrameFault>)
    ensures
        r == frame_fault(data@, any_version),
{
    if data.len() < WSP_HEADER_LEN {
        return Some(FrameFault::Short);
    }
    if data[0] != WSP_MAGIC_0 || data[1] != WSP_MAGIC_1 {
        return Some(FrameFault::Magic);
    }
    if !any_version && data[2] != WSP_VERSION {
        return Some(FrameFault::Version);
    }
    let len: u32 = read_be32(data, 12);
    if len > MAX_PAYLOAD as u32 {
        return Some(FrameFault::TooLarge);
    }
    if data.len() - WSP_HEADER_LEN < len as usize {
        return Some(FrameFault::Incomplete);
    }
    None
}

/// Reads the frame out of bytes that hold one.
pub fn read_frame(data: &[u8], any_version: bool) -> (r: WspFrame)
    requires
        frame_fault(data@, any_version) is None,
    ensures
        r@ == frame_in(data@),
{
    let len: u32 = read_be32(data, 12);
    let stream_id: u32 = read_be32(data, 4);
    let seq_num: u32 = read_be32(data, 8);
    let payload = byte_range(data, WSP_HEADER_LEN, WSP_HEADER_LEN + len as usize);
    WspFrame { msg_type: data[3], stream_id, seq_num, payload }
}

impl WspFrame {
    pub fn new(msg_type: u8, stream_id: u32, seq_num: u32, payload: Vec<u8>) -> (r: Self)
        ensures
            r@ == (FrameView { msg_type, stream_id, seq_num, payload: payload@ }),
    {
        WspFrame { msg_type, stream_id, seq_num, payload }
    }

    /// A frame with a copy of some bytes as its payload.
    pub fn binary(msg_type: u8, stream_id: u32, seq_num: u32, payload: &[u8]) -> (r: Self)
        ensures
            r@ == (FrameView { msg_type, stream_id, seq_num, payload: payload@ }),
    {
        let copy = byte_range(payload, 0, payload.len());
        proof {
            assert(copy@ =~= payload@);
        }
        WspFrame { msg_type, stream_id, seq_num, payload: copy }
    }

    /// The bytes of the frame.
    pub fn encode(&self) -> (r: Vec<u8>)
        ensures
            r@ == frame_bytes(self@),
    {
        let len: u32 = (self.payload.len() as u64 % 0x1_0000_0000) as u32;
        let mut buf: Vec<u8> = Vec::new();
        buf.push(WSP_MAGIC_0);
        buf.push(WSP_MAGIC_1);
        buf.push(WSP_VERSION);
        buf.push(self.msg_type);
        push_be32(&mut buf, self.stream_id);
        push_be32(&mut buf, self.seq_num);
        push_be32(&mut buf, len);
        push_range(&mut buf, self.payload.as_slice(), 0, self.payload.len());
        proof {
            assert(buf@ =~= frame_bytes(self@));
        }
        buf
    }

    /// Reads a frame. Of several things that are wrong, the message names the first: the length of
    /// the header, the magic, the version, the size of the payload, its completeness.
    pub fn decode(data: &[u8]) -> (r: Result<Self, String>)
        ensures
            match r {
                Ok(f) => frame_fault(data@, false) is None && f@ == frame_in(data@),
                Err(e) => frame_fault(data@, false) is Some && e@ == fault_text(
                    data@,
                    frame_fault(data@, false)->0,
                ),
            },
    {
        match check_frame(data, false) {
            None => Ok(read_frame(data, false)),
            Some(fault) => Err(fault_message(data, fault)),
        }
    }
}

/// The message that goes with a fault.
fn fault_message(data: &[u8], fault: FrameFault) -> (r: String)
    requires
        frame_fault(data@, false) == Some(fault),
    ensures
        r@ == fault_text(data@, fault),
{
    let mut out: String = String::new();
    match fault {
        FrameFault::Short => {
            out.append("帧太短: ");
            out.append(number(data.len() as u64).as_str());
            out.append(" < 16");
        },
        FrameFault::Magic => {
            out.append("magic 不匹配");
        },
        FrameFault::Version => {
            out.append("版本不支持: ");
            out.append(number(data[2] as u64).as_str());
        },
        FrameFault::TooLarge => {
            out.append("payload 超限: ");
            out.append(number(read_be32(data, 12) as u64).as_str());
            out.append(" > 4194304");
        },
        FrameFault::Incomplete => {
            out.append("payload 不完整: ");
            out.append(number(data.len() as u64).as_str());
            out.append(" < ");
            out.append(number(16 + read_be32(data, 12) as u64).as_str());
        },
    }
    proof {
        assert(out@ =~= fault_text(data@, fault));
    }
    out
}

/// The parts of a sequence that was put together from a header of four words, a payload and a
/// tail.
proof fn lemma_parts(h: Seq<u8>, a: Seq<u8>, b: Seq<u8>, c: Seq<u8>, p: Seq<u8>, tail: Seq<u8>)
    requires
        h.len() == 4,
        a.len() == 4,
        b.len() == 4,
        c.len() == 4,
    ensures
        (h + a + b + c + p + tail).len() == 16 + p.len() + tail.len(),
        (h + a + b + c + p + tail).subrange(0, 4) == h,
        (h + a + b + c + p + tail).subrange(4, 8) == a,
        (h + a + b + c + p + tail).subrange(8, 12) == b,
        (h + a + b + c + p + tail).subrange(12, 16) == c,
        (h + a + b + c + p + tail).subrange(16, 16 + p.len() as int) == p,
{
    let s = h + a + b + c + p + tail;
    assert(s.subrange(0, 4) =~= h);
    assert(s.subrange(4, 8) =~= a);
    assert(s.subrange(8, 12) =~= b);
    assert(s.subrange(12, 16) =~= c);
    assert(s.subrange(16, 16 + p.len() as int) =~= p);
}

/// The fields of an encoded frame, whatever follows it.
proof fn lemma_header(f: FrameView, tail: Seq<u8>)
    requires
        f.payload.len() <= MAX_PAYLOAD,
    ensures
        frame_fault(frame_bytes(f) + tail, false) is None,
        frame_in(frame_bytes(f) + tail) == f,
{
    let data = frame_bytes(f) + tail;
    let len = f.payload.len() as u32;
    let h = seq![WSP_MAGIC_0, WSP_MAGIC_1, WSP_VERSION, f.msg_type];
    lemma_parts(h, be32(f.stream_id), be32(f.seq_num), be32(len), f.payload, tail);
    law_be32(f.stream_id);
    law_be32(f.seq_num);
    law_be32(len);
    assert(data[0] == data.subrange(0, 4)[0]);
    assert(data[1] == data.subrange(0, 4)[1]);
    assert(data[2] == data.subrange(0, 4)[2]);
    assert(data[3] == data.subrange(0, 4)[3]);
}

/// Decoding what was encoded gives the frame back, whatever bytes follow it, if its payload is
/// within the limit.
pub proof fn law_decode_encode(f: FrameView, tail: Seq<u8>)
    requires
        f.payload.len() <= MAX_PAYLOAD,
    ensures
        frame_fault(frame_bytes(f) + tail, false) is None,
        frame_in(frame_bytes(f) + tail) == f,
{
    lemma_header(f, tail);
}

/// Encoding a decoded frame gives back the bytes that it was read from.
pub proof fn law_encode_decode(data: Seq<u8>)
    requires
        frame_fault(data, false) is None,
    ensures
        frame_bytes(frame_in(data)) == data.take(16 + payload_len(data)),
        frame_in(data).payload.len() <= MAX_PAYLOAD,
{
    law_from_be32(data.subrange(4, 8));
    law_from_be32(data.subrange(8, 12));
    law_from_be32(data.subrange(12, 16));
    assert(frame_bytes(frame_in(data)) =~= data.take(16 + payload_len(data)));
}

/// A frame whose payload is over the limit is never accepted: either its length field says so, or
/// only a part of the payload is read.
pub proof fn law_oversized_payload(f: FrameView)
    requires
        MAX_PAYLOAD < f.payload.len() <= u32::MAX,
    ensures
        frame_fault(frame_bytes(f), false) == Some(FrameFault::TooLarge),
{
    let data = frame_bytes(f);
    let len = f.payload.len() as u32;
    law_be32(len);
    assert(data.subrange(12, 16) =~= be32(len));
}

/// Where the parts of a frame stand: "WS", the version, the type, the stream, the sequence number
/// and the length of the payload, each number with its most significant byte first, and then the
/// payload.
pub proof fn law_frame_layout(f: FrameView)
    requires
        f.payload.len() < 0x1_0000_0000,
    ensures
        ({
            let b = frame_bytes(f);
            &&& b.len() == 16 + f.payload.len()
            &&& b[0] == 0x57 && b[1] == 0x53 && b[2] == 1 && b[3] == f.msg_type
            &&& b[4] * 16777216 + b[5] * 65536 + b[6] * 256 + b[7] == f.stream_id
            &&& b[8] * 16777216 + b[9] * 65536 + b[10] * 256 + b[11] == f.seq_num
            &&& b[12] * 16777216 + b[13] * 65536 + b[14] * 256 + b[15] == f.payload.len()
            &&& b.skip(16) == f.payload
        }),
{
    let b = frame_bytes(f);
    crate::bytes::law_big_endian(f.stream_id, 0);
    crate::bytes::law_big_endian(f.seq_num, 0);
    crate::bytes::law_big_endian(f.payload.len() as u32, 0);
    assert(b.skip(16) =~= f.payload);
}

/// What is read of bytes, and when: they begin with a header whose first bytes are "WS" and, unless
/// any version will do, the version 1; the payload is as long as the header says, at most 4 MB, and
/// all of it is there. What follows it is left alone. Anything else is refused.
pub proof fn law_frames_are_read(data: Seq<u8>, any_version: bool)
    ensures
        frame_fault(data, any_version) is None <==> {
            &&& data.len() >= 16
            &&& data[0] == 0x57 && data[1] == 0x53 && (any_version || data[2] == 1)
            &&& data[12] * 16777216 + data[13] * 65536 + data[14] * 256 + data[15] <= 4 * 1024 * 1024
            &&& data.len() >= 16 + data[12] * 16777216 + data[13] * 65536 + data[14] * 256
                + data[15]
        },
        frame_fault(data, any_version) is None ==> {
            let n = data[12] * 16777216 + data[13] * 65536 + data[14] * 256 + data[15];
            let f = frame_in(data);
            &&& f.msg_type == data[3]
            &&& f.stream_id == data[4] * 16777216 + data[5] * 65536 + data[6] * 256 + data[7]
            &&& f.seq_num == data[8] * 16777216 + data[9] * 65536 + data[10] * 256 + data[11]
            &&& f.payload == data.subrange(16, 16 + n)
        },
        frame_fault(data, any_version) == Some(FrameFault::Short) <==> data.len() < 16,
{
    if data.len() >= 16 {
        let a = data.subrange(4, 8);
        let b = data.subrange(8, 12);
        let c = data.subrange(12, 16);
        crate::bytes::law_from_be32(a);
        crate::bytes::law_from_be32(b);
        assert(a[0] == data[4] && a[1] == data[5] && a[2] == data[6] && a[3] == data[7]);
        assert(b[0] == data[8] && b[1] == data[9] && b[2] == data[10] && b[3] == data[11]);
        assert(c[0] == data[12] && c[1] == data[13] && c[2] == data[14] && c[3] == data[15]);
    }
}

} // verus!
