use lanshare::bytes::{push_be32, push_be64, read_be32, read_be64};
use lanshare::frame::{
    WspFrame, MAX_PAYLOAD, MSG_DOWNLOAD_DATA, MSG_ERROR, MSG_HELLO, MSG_UPLOAD_ACK,
};
use lanshare::text::{
    begins_with, cut, finishes_with, join, less, list_has, number, parse_number, parse_signed,
    replace_char, rewrite, split, strip_leading, strip_trailing, substitute, trim,
};
use lanshare::utf16::{decode_utf16, encode_utf16};
use lanshare::quote::push_quoted;
use lanshare::wsp_client::{self, Arrival, Incoming, Progress};

#[test]
fn numbers_as_bytes() {
    let mut v: Vec<u8> = Vec::new();
    push_be32(&mut v, 0x0102_0304);
    push_be64(&mut v, 0x1122_3344_5566_7788);
    assert_eq!(v, vec![1, 2, 3, 4, 0x11, 0x22, 0x33, 0x44, 0x55, 0x66, 0x77, 0x88]);
    assert_eq!(read_be32(&v, 0), 0x0102_0304);
    assert_eq!(read_be64(&v, 4), 0x1122_3344_5566_7788);
}

#[test]
fn frame_bytes_are_exact() {
    let f = WspFrame::new(MSG_HELLO, 0x01020304, 0x0A0B0C0D, vec![7, 8]);
    assert_eq!(
        f.encode(),
        vec![0x57, 0x53, 1, 1, 1, 2, 3, 4, 0x0A, 0x0B, 0x0C, 0x0D, 0, 0, 0, 2, 7, 8]
    );
}

#[test]
fn frame_round_trip() {
    let f = WspFrame::binary(MSG_DOWNLOAD_DATA, 9, 77, &[1, 2, 3]);
    let mut bytes = f.encode();
    bytes.push(99);
    let g = WspFrame::decode(&bytes).unwrap();
    assert_eq!(
        (g.msg_type, g.stream_id, g.seq_num, g.payload.clone()),
        (MSG_DOWNLOAD_DATA, 9, 77, vec![1, 2, 3])
    );
    assert_eq!(g.encode(), bytes[..19].to_vec());
}

#[test]
fn frame_errors() {
    let good = WspFrame::new(MSG_HELLO, 0, 1, vec![5]).encode();
    assert_eq!(WspFrame::decode(&good[..15]).unwrap_err(), "帧太短: 15 < 16");
    let mut bad = good.clone();
    bad[0] = 0;
    bad[2] = 9;
    assert_eq!(WspFrame::decode(&bad).unwrap_err(), "magic 不匹配");
    let mut bad = good.clone();
    bad[2] = 9;
    assert_eq!(WspFrame::decode(&bad).unwrap_err(), "版本不支持: 9");
    let mut bad = good.clone();
    bad[12..16].copy_from_slice(&(MAX_PAYLOAD as u32 + 1).to_be_bytes());
    assert_eq!(
        WspFrame::decode(&bad).unwrap_err(),
        "payload 超限: 4194305 > 4194304"
    );
    assert_eq!(
        WspFrame::decode(&good[..16]).unwrap_err(),
        "payload 不完整: 16 < 17"
    );
}

#[test]
fn client_reads_any_version() {
    let mut bytes = WspFrame::new(MSG_HELLO, 3, 1, vec![5]).encode();
    bytes[2] = 9;
    let f = wsp_client::decode(&bytes).unwrap();
    assert_eq!((f.stream_id, f.payload), (3, vec![5]));
    assert_eq!(wsp_client::decode(&bytes[..3]).unwrap_err(), "帧太短: 3");
    assert_eq!(wsp_client::decode(&bytes[..16]).unwrap_err(), "payload 不完整");
    let mut big = bytes.clone();
    big[12] = 1;
    assert_eq!(wsp_client::decode(&big).unwrap_err(), "payload 超限: 16777217");
    bytes[1] = 0;
    assert_eq!(wsp_client::decode(&bytes).unwrap_err(), "magic 不匹配");
}

#[test]
fn client_sorts_replies() {
    let reply = WspFrame::new(MSG_HELLO + 1, 4, 1, vec![]);
    assert!(matches!(
        wsp_client::receive(MSG_HELLO, 4, reply.clone()),
        wsp_client::Received::Reply(_)
    ));
    assert!(matches!(
        wsp_client::receive(MSG_HELLO, 5, reply.clone()),
        wsp_client::Received::Wait
    ));
    let arrive = |a: Arrival| wsp_client::send_and_recv_frame(MSG_HELLO, 4, a);
    assert!(matches!(arrive(Arrival::Binary(reply.encode())), wsp_client::Received::Reply(_)));
    assert!(matches!(arrive(Arrival::Binary(vec![1])), wsp_client::Received::Unreadable(e) if e == "帧太短: 1"));
    assert!(matches!(arrive(Arrival::Closed), wsp_client::Received::Lost(e) if e == "连接已关闭"));
    assert!(matches!(arrive(Arrival::Failed("x".into())), wsp_client::Received::Lost(e) if e == "接收错误: x"));
    assert!(matches!(arrive(Arrival::Ended), wsp_client::Received::Lost(e) if e == "连接已断开"));
    assert!(matches!(arrive(Arrival::Other), wsp_client::Received::Wait));
    let frame = |t: u8| WspFrame::new(t, 0, 1, vec![]);
    for (asked, answered) in [(0x03, 0x04), (0x10, 0x11), (0x14, 0x15), (0x20, 0x23), (0x40, 0x41)] {
        assert!(matches!(
            wsp_client::receive(asked, 0, frame(answered)),
            wsp_client::Received::Reply(_)
        ));
        assert!(matches!(wsp_client::receive(asked, 0, frame(0x32)), wsp_client::Received::Wait));
    }
    assert!(matches!(wsp_client::receive(0x14, 0, frame(0x17)), wsp_client::Received::Wait));
    let operation = |a: Arrival| wsp_client::operation_answer(0, a);
    assert!(matches!(operation(Arrival::Binary(frame(0x17).encode())), wsp_client::Received::Reply(_)));
    assert!(matches!(operation(Arrival::Binary(frame(0xF0).encode())), wsp_client::Received::Error(_)));
    assert!(matches!(operation(Arrival::Binary(frame(0x15).encode())), wsp_client::Received::Wait));
    assert!(matches!(operation(Arrival::Ended), wsp_client::Received::Lost(e) if e == "连接已断开"));
    assert!(matches!(operation(Arrival::Binary(vec![])), wsp_client::Received::Unreadable(_)));
    assert!(matches!(
        wsp_client::receive(MSG_HELLO, 5, WspFrame::new(MSG_ERROR, 0, 1, vec![])),
        wsp_client::Received::Error(_)
    ));
}

#[test]
fn client_messages() {
    assert_eq!(wsp_client::server_error(&None), "服务端错误: 未知错误");
    assert_eq!(
        wsp_client::server_error(&Some("满".to_string())),
        "服务端错误: 满"
    );
    assert_eq!(wsp_client::check_auth(true, &None), Ok(()));
    assert_eq!(
        wsp_client::check_auth(false, &Some("x".to_string())),
        Err("认证失败: x".to_string())
    );
    let entries = vec![wsp_client::DirEntry {
        name: "b".into(),
        is_dir: false,
        size: 3,
        mtime: "9".into(),
    }];
    let found = wsp_client::stat_in("/a/b", &entries);
    assert_eq!((found.exists, found.size, found.mtime.as_str()), (true, 3, "9"));
    let missing = wsp_client::stat_in("/a/c/", &entries);
    assert_eq!((missing.exists, missing.name.as_str()), (false, "c"));
    assert_eq!(wsp_client::check_upload_start(true, 5, &None), Ok(5));
    assert_eq!(
        wsp_client::check_upload_start(false, 5, &None),
        Err("上传开始失败: ".to_string())
    );
    assert_eq!(wsp_client::check_upload_ack(MSG_UPLOAD_ACK), Ok(()));
    assert_eq!(
        wsp_client::check_upload_ack(0xF0),
        Err("上传期望 ACK (0x23)，收到 0xf0".to_string())
    );
    assert_eq!(
        wsp_client::upload_data(258, &[9]),
        vec![0, 0, 0, 0, 0, 0, 1, 2, 9]
    );
}

#[test]
fn arrivals_during_transfers() {
    let ack = WspFrame::new(MSG_UPLOAD_ACK, 0, 1, vec![]);
    assert_eq!(wsp_client::upload_answer(Arrival::Binary(ack.encode())), Ok(()));
    assert_eq!(
        wsp_client::upload_answer(Arrival::Closed),
        Err("上传 ACK 接收失败".to_string())
    );
    assert_eq!(
        wsp_client::upload_answer(Arrival::Binary(vec![])),
        Err("帧太短: 0".to_string())
    );
    let mut inc = Incoming::new(4);
    let data = WspFrame::new(MSG_DOWNLOAD_DATA, 4, 1, vec![0, 0, 0, 0, 0, 0, 0, 0, 1, 7, 8]);
    assert!(matches!(inc.download_raw(Arrival::Binary(data.encode())), Progress::More));
    assert_eq!(inc.data, vec![7, 8]);
    assert!(matches!(inc.download_raw(Arrival::Ended), Progress::Lost(e) if e == "下载时连接断开"));
    assert!(matches!(inc.download_raw(Arrival::Closed), Progress::Lost(e) if e == "下载时连接断开"));
    assert!(matches!(inc.download_raw(Arrival::Failed("x".into())), Progress::Lost(e) if e == "下载接收错误: x"));
    assert!(matches!(inc.download_raw(Arrival::Binary(vec![2])), Progress::Unreadable(_)));
    assert!(matches!(inc.download_raw(Arrival::Other), Progress::More));
    assert_eq!(inc.data, vec![7, 8]);
}

#[test]
fn pieces_make_the_file() {
    let bytes: Vec<u8> = (0..100).collect();
    let offset = lanshare::wsp_server::resume_offset(30, 100) as usize;
    let mut file = bytes[..offset].to_vec();
    let mut at = offset;
    for piece in bytes[offset..].chunks(17) {
        lanshare::content::write_at(&mut file, at, piece);
        at += piece.len();
    }
    assert_eq!((file, at), (bytes, 100));
}

#[test]
fn splitting_and_joining() {
    let parts = split("a,,b", ',');
    assert_eq!(parts, vec!["a", "", "b"]);
    assert_eq!(join(&parts, ','), "a,,b");
    assert_eq!(split("", ','), vec![""]);
    assert_eq!(cut("k=v=w", '='), Some(("k".to_string(), "v=w".to_string())));
    assert_eq!(cut("kv", '='), None);
    assert!(list_has(" read , write", "read"));
    assert!(!list_has("readwrite", "read"));
}

#[test]
fn trimming_and_replacing() {
    assert_eq!(trim(" \t\u{3000}x y\n"), "x y");
    assert_eq!(trim(" \n"), "");
    assert_eq!(strip_leading("//a/", '/'), "a/");
    assert_eq!(strip_trailing("/a//", '/'), "/a");
    assert_eq!(replace_char("a\\b", '\\', '/'), "a/b");
    let mut text = String::from("x=");
    let odd = "a\"b\\c\n\t\r\u{8}\u{c}\u{1}\u{1f}\u{7f}/密";
    push_quoted(&mut text, odd);
    assert_eq!(text, format!("x={}", serde_json::to_string(odd).unwrap()));
    assert_eq!(substitute("a\"b", '"', "\\\""), "a\\\"b");
    assert_eq!(rewrite("xaaay", "aa", "b"), "xbay");
    assert!(begins_with("Bearer x", "Bearer "));
    assert!(!begins_with("Bear", "Bearer "));
    assert!(finishes_with("x.meta", ".meta"));
    assert!(!finishes_with("meta", ".meta"));
}

#[test]
fn numbers_as_text() {
    assert_eq!(number(0), "0");
    assert_eq!(number(u64::MAX), "18446744073709551615");
    assert_eq!(parse_number("18446744073709551615", u64::MAX), Some(u64::MAX));
    assert_eq!(parse_number("18446744073709551616", u64::MAX), None);
    assert_eq!(parse_number("+42", 100), Some(42));
    assert_eq!(parse_number("+", 100), None);
    assert_eq!(parse_number("", 100), None);
    assert_eq!(parse_number("4 2", 100), None);
    assert_eq!(parse_number("101", 100), None);
    for text in ["-9223372036854775808", "9223372036854775807", "-0", "+7", "-+7", "--1", "9223372036854775808"] {
        assert_eq!(parse_signed(text), text.parse::<i64>().ok(), "{text}");
    }
}

#[test]
fn order_of_texts() {
    let v = |s: &str| s.chars().collect::<Vec<char>>();
    assert!(less(&v("a"), &v("ab")));
    assert!(less(&v("ab"), &v("b")));
    assert!(!less(&v("b"), &v("b")));
    assert!(less(&v(""), &v("a")));
}

#[test]
fn utf16_both_ways() {
    let s = "aé漢😀";
    let units = encode_utf16(s);
    assert_eq!(units, s.encode_utf16().collect::<Vec<u16>>());
    assert_eq!(decode_utf16(&units), s);
    let broken = [0x61, 0xD800, 0x62, 0xDC00];
    assert_eq!(decode_utf16(&broken), String::from_utf16_lossy(&broken));
}
