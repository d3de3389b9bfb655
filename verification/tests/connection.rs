use lanshare::db::{share_user, User};
use lanshare::frame::{
    WspFrame, MSG_AUTH_ACK, MSG_DOWNLOAD_DATA, MSG_DOWNLOAD_END, MSG_ERROR, MSG_HELLO,
    MSG_HELLO_ACK, MSG_KEEPALIVE, MSG_LIST_DIR_RESP, MSG_OP_ACK, MSG_TRASH_LIST_RESP,
    MSG_UPLOAD_ACK,
};
use lanshare::listing::list_dir_entries;
use lanshare::wsp::{
    accepts_connection, greeting, request_kind, AuthMsg, Body, ConnState, DeleteMsg, DirEntryMsg,
    DownloadReqMsg, ListDirMsg, MkdirMsg, RenameMsg, Reply, Request, RequestKind, Step, TrashEntry,
    UploadStartMsg, Work, MAX_UPLOAD_SIZE,
};
use lanshare::wsp_client::{upload_data, Incoming, Progress};
use lanshare::wsp_server::{
    begin_download, check_quota, complete_auth, complete_download, complete_list, complete_op,
    complete_trash_empty, complete_trash_list, complete_upload_start, complete_write,
    counts_as_entry, discarded_name, fail_download, handle_frame, is_record, record_name,
    refuse_path, refuse_upload, resume_offset, token_user, FileOp,
};

fn reply(s: Step) -> Reply {
    match s {
        Step::Reply(r) => r,
        other => panic!("no reply: {:?}", other),
    }
}

fn work(s: Step) -> Work {
    match s {
        Step::Work(w) => w,
        other => panic!("no work: {:?}", other),
    }
}

fn error_of(r: &Reply) -> (u32, u32, String) {
    match &r.body {
        Body::Error(e) => {
            assert_eq!(r.msg_type, MSG_ERROR);
            (r.seq_num, e.code, e.message.clone())
        }
        other => panic!("no error: {:?}", other),
    }
}

fn upload_ack_of(r: &Reply) -> (u32, bool, u64, Option<String>) {
    match &r.body {
        Body::UploadAck(a) => {
            assert_eq!(r.msg_type, MSG_UPLOAD_ACK);
            (r.seq_num, a.ok, a.offset, a.error.clone())
        }
        other => panic!("no upload ack: {:?}", other),
    }
}

fn op_ack_of(r: &Reply) -> (u32, bool, Option<String>) {
    match &r.body {
        Body::OpAck(a) => {
            assert_eq!(r.msg_type, MSG_OP_ACK);
            (r.seq_num, a.ok, a.error.clone())
        }
        other => panic!("no op ack: {:?}", other),
    }
}

fn logged_in(permissions: &str, quota_mb: i64) -> ConnState {
    let mut c = ConnState::new();
    let user = User {
        permissions: permissions.to_string(),
        quota_mb,
        username: "ada".to_string(),
        ..share_user()
    };
    complete_auth(&mut c, 1, Some(user), "/srv".to_string());
    c
}

#[test]
fn hello_is_answered_at_any_time() {
    let mut c = ConnState::new();
    let g = greeting(&mut c);
    assert_eq!((g.msg_type, g.stream_id, g.seq_num), (MSG_HELLO, 0, 1));
    assert!(matches!(&g.body, Body::Hello(m) if m.client_name == "LanShare-Server" && m.version == 1));
    let r = reply(handle_frame(&mut c, 5, Request::Hello));
    assert_eq!((r.msg_type, r.stream_id, r.seq_num), (MSG_HELLO_ACK, 5, 2));
    assert!(matches!(&r.body, Body::HelloAck(m) if m.server_name == "LanShare" && m.ok));
}

#[test]
fn nothing_is_done_before_authentication() {
    let mut c = ConnState::new();
    let requests = vec![
        Request::ListDir(ListDirMsg { path: "/".into() }),
        Request::UploadData(vec![0; 20]),
        Request::UploadEnd,
        Request::TrashEmpty,
        Request::KeepAlive,
        Request::Unknown(0x99),
        Request::Malformed("x".into()),
    ];
    for (i, req) in requests.into_iter().enumerate() {
        let r = reply(handle_frame(&mut c, 3, req));
        assert_eq!(error_of(&r), (i as u32 + 1, 401, "未认证".to_string()));
    }
    assert!(!c.authenticated);
    let w = work(handle_frame(&mut c, 3, Request::Auth(AuthMsg { token: "t".into() })));
    assert!(matches!(w, Work::CheckToken(t) if t == "t"));
    let r = reply(handle_frame(&mut c, 3, Request::MalformedAuth("bad".into())));
    assert_eq!(error_of(&r), (9, 400, "bad".to_string()));
}

#[test]
fn modes_of_the_token() {
    let session = || {
        Some(User {
            username: "ada".into(),
            ..share_user()
        })
    };
    assert_eq!(token_user(true, "123456", "123456", None).unwrap().username, "share");
    assert!(token_user(true, "abc", "123456", session()).is_none());
    assert_eq!(token_user(false, "abc", "123456", session()).unwrap().username, "ada");
    assert!(token_user(false, "123456", "123456", None).is_none());
}

#[test]
fn authentication_sets_the_connection_up() {
    let mut c = ConnState::new();
    let r = complete_auth(&mut c, 2, None, String::new());
    assert!(matches!(&r.body, Body::AuthAck(a) if !a.ok && a.error.as_deref() == Some("token 无效或已过期")));
    assert!(!c.authenticated);
    let r = complete_auth(&mut c, 2, Some(share_user()), "/srv".into());
    assert_eq!((r.msg_type, r.seq_num), (MSG_AUTH_ACK, 2));
    assert!(matches!(&r.body, Body::AuthAck(a) if a.ok && a.user.as_deref() == Some("share")));
    assert!(c.authenticated);
    assert_eq!(c.user_home.as_deref(), Some("/srv"));
    assert!(c.can("mkdir"));
}

#[test]
fn administrators_may_do_everything() {
    let mut c = ConnState::new();
    let boss = User { role: "admin".into(), permissions: "read".into(), ..share_user() };
    complete_auth(&mut c, 2, Some(boss), "/srv".into());
    assert!(c.can("write") && c.can("delete"));
    assert!(matches!(
        work(handle_frame(&mut c, 1, Request::UploadStart(UploadStartMsg { path: "a".into(), size: 1 }))),
        Work::OpenUpload(_, 1)
    ));
}

#[test]
fn reading_needs_its_permission() {
    let mut c = logged_in("write", 0);
    let r = reply(handle_frame(&mut c, 1, Request::ListDir(ListDirMsg { path: "d".into() })));
    assert_eq!(error_of(&r), (2, 403, "无读取权限".to_string()));
    let r = reply(handle_frame(
        &mut c,
        1,
        Request::DownloadReq(DownloadReqMsg { path: "f".into(), offset: 0 }),
    ));
    assert_eq!(error_of(&r), (3, 403, "无读取权限".to_string()));
}

#[test]
fn deleting_from_the_trash_needs_its_permission() {
    let mut c = logged_in("read,write,rename,share,mkdir", 0);
    assert!(matches!(work(handle_frame(&mut c, 1, Request::TrashList)), Work::TrashList));
    assert!(matches!(
        work(handle_frame(&mut c, 1, Request::TrashRestore("a".into()))),
        Work::TrashRestore(n) if n == "a"
    ));
    let requests = vec![
        Request::TrashDelete("a".into()),
        Request::TrashDelete("../a".into()),
        Request::TrashEmpty,
    ];
    for (i, req) in requests.into_iter().enumerate() {
        let r = reply(handle_frame(&mut c, 1, req));
        assert_eq!(error_of(&r), (i as u32 + 4, 403, "无删除权限".to_string()));
    }
}

#[test]
fn numbers_grow_over_a_connection() {
    let mut c = ConnState::new();
    let mut sent = vec![greeting(&mut c).seq_num];
    sent.push(reply(handle_frame(&mut c, 1, Request::Hello)).seq_num);
    work(handle_frame(&mut c, 1, Request::Auth(AuthMsg { token: "t".into() })));
    sent.push(complete_auth(&mut c, 1, Some(share_user()), "/srv".into()).seq_num);
    work(handle_frame(&mut c, 2, Request::DownloadReq(DownloadReqMsg { path: "f".into(), offset: 0 })));
    let mut run = begin_download(&mut c, 2, 0, 2);
    sent.push(run.chunk(&[1]).seq_num);
    sent.push(run.chunk(&[2]).seq_num);
    sent.push(complete_download(&mut c, run, "f".into()).0.seq_num);
    sent.push(reply(handle_frame(&mut c, 1, Request::KeepAlive)).seq_num);
    sent.push(refuse_path(&mut c, 1).seq_num);
    for pair in sent.windows(2) {
        assert!(pair[0] < pair[1], "{:?}", sent);
    }
}

#[test]
fn every_byte_must_arrive() {
    let end = |pieces: &[(u64, usize)]| {
        let mut c = logged_in("write", 0);
        complete_upload_start(&mut c, 7, "/srv/f".into(), 10, 0);
        for (offset, len) in pieces {
            let r = complete_write(&mut c, 7, *offset, *len, Ok(()));
            assert!(upload_ack_of(&r).1);
        }
        match handle_frame(&mut c, 7, Request::UploadEnd) {
            Step::CloseUpload(u) => {
                assert!(!c.uploads.contains_key(&7));
                (u.keep, op_ack_of(&u.reply).2)
            }
            other => panic!("{:?}", other),
        }
    };
    assert_eq!(end(&[(8, 2)]), (false, Some("大小不匹配: 声明 10 实际 2".to_string())));
    assert_eq!(end(&[(0, 5), (0, 5)]), (false, Some("大小不匹配: 声明 10 实际 5".to_string())));
    assert_eq!(end(&[(0, 4), (6, 4)]), (false, Some("大小不匹配: 声明 10 实际 8".to_string())));
    assert_eq!(end(&[(6, 4), (0, 4), (3, 4)]), (true, None));
    assert_eq!(end(&[(0, 10)]), (true, None));
    assert_eq!(end(&[(2, 3), (0, 10), (5, 0)]), (true, None));
}

#[test]
fn changes_need_their_permission() {
    let mut c = logged_in("read", 0);
    let r = reply(handle_frame(&mut c, 1, Request::Mkdir(MkdirMsg { path: "a".into() })));
    assert_eq!(error_of(&r), (2, 403, "无创建目录权限".to_string()));
    let r = reply(handle_frame(
        &mut c,
        1,
        Request::Rename(RenameMsg { old_path: "a".into(), new_path: "b".into() }),
    ));
    assert_eq!(error_of(&r), (3, 403, "无重命名权限".to_string()));
    let r = reply(handle_frame(&mut c, 1, Request::Delete(DeleteMsg { path: "a".into() })));
    assert_eq!(error_of(&r), (4, 403, "无删除权限".to_string()));
    let r = reply(handle_frame(
        &mut c,
        1,
        Request::UploadStart(UploadStartMsg { path: "a".into(), size: 1 }),
    ));
    assert_eq!(upload_ack_of(&r), (5, false, 0, Some("无上传权限".to_string())));
    let mut c = logged_in("mkdir, rename ,delete,write", 0);
    assert!(matches!(
        work(handle_frame(&mut c, 1, Request::Mkdir(MkdirMsg { path: "a".into() }))),
        Work::Mkdir(p) if p == "a"
    ));
    assert!(matches!(
        work(handle_frame(&mut c, 1, Request::Rename(RenameMsg { old_path: "a".into(), new_path: "b".into() }))),
        Work::Rename(p, q) if p == "a" && q == "b"
    ));
    assert!(matches!(
        work(handle_frame(&mut c, 1, Request::Delete(DeleteMsg { path: "a".into() }))),
        Work::Discard(p) if p == "a"
    ));
}

#[test]
fn reading_requests_become_work() {
    let mut c = logged_in("read", 0);
    assert!(matches!(
        work(handle_frame(&mut c, 1, Request::ListDir(ListDirMsg { path: "d".into() }))),
        Work::ListDir(p) if p == "d"
    ));
    assert!(matches!(
        work(handle_frame(&mut c, 1, Request::DownloadReq(DownloadReqMsg { path: "f".into(), offset: 3 }))),
        Work::Download(p, 3) if p == "f"
    ));
    let r = reply(handle_frame(&mut c, 1, Request::Malformed("JSON".into())));
    assert_eq!(error_of(&r), (4, 400, "JSON".to_string()));
    let mut c = logged_in("delete", 0);
    assert!(matches!(work(handle_frame(&mut c, 1, Request::TrashList)), Work::TrashList));
    assert!(matches!(work(handle_frame(&mut c, 1, Request::TrashEmpty)), Work::TrashEmpty));
}

#[test]
fn keepalive_and_unknown() {
    let mut c = logged_in("", 0);
    let r = reply(handle_frame(&mut c, 8, Request::KeepAlive));
    assert_eq!((r.msg_type, r.stream_id, r.seq_num), (MSG_KEEPALIVE, 8, 3));
    let r = reply(handle_frame(&mut c, 8, Request::Unknown(0xAB)));
    assert_eq!(error_of(&r), (5, 400, "未知消息类型: 0xAB".to_string()));
}

#[test]
fn trash_names_stay_in_the_trash() {
    let mut c = logged_in("delete", 0);
    for name in ["../x", "/etc/passwd", "a/../b", "/x", ".."] {
        let r = reply(handle_frame(&mut c, 1, Request::TrashDelete(name.into())));
        let (_, ok, e) = op_ack_of(&r);
        assert_eq!((ok, e.as_deref()), (false, Some("路径非法")), "{name}");
        let r = reply(handle_frame(&mut c, 1, Request::TrashRestore(name.into())));
        assert!(!op_ack_of(&r).1);
    }
    assert!(matches!(
        work(handle_frame(&mut c, 1, Request::TrashRestore("a_1".into()))),
        Work::TrashRestore(n) if n == "a_1"
    ));
    assert!(matches!(
        work(handle_frame(&mut c, 1, Request::TrashRestore("\\a_1".into()))),
        Work::TrashRestore(n) if n == "\\a_1"
    ));
    assert!(matches!(
        work(handle_frame(&mut c, 1, Request::TrashDelete("..a".into()))),
        Work::TrashDelete(n) if n == "..a"
    ));
}

#[test]
fn upload_from_start_to_end() {
    let mut c = logged_in("write", 0);
    let w = work(handle_frame(
        &mut c,
        7,
        Request::UploadStart(UploadStartMsg { path: "f".into(), size: 5 }),
    ));
    assert!(matches!(w, Work::OpenUpload(p, 5) if p == "f"));
    let r = complete_upload_start(&mut c, 7, "/srv/f".into(), 5, 0);
    assert_eq!(upload_ack_of(&r), (3, true, 0, None));
    let w = work(handle_frame(&mut c, 7, Request::UploadData(upload_data(0, &[1, 2, 3, 4, 5]))));
    match w {
        Work::WriteUpload(offset, data) => {
            assert_eq!((offset, data.clone()), (0, vec![1, 2, 3, 4, 5]));
            let r = complete_write(&mut c, 7, offset, data.len(), Ok(()));
            assert_eq!(upload_ack_of(&r), (5, true, 5, None));
        }
        other => panic!("{:?}", other),
    }
    match handle_frame(&mut c, 7, Request::UploadEnd) {
        Step::CloseUpload(u) => {
            assert!(u.keep);
            assert_eq!(u.path, "/srv/f");
            assert_eq!(op_ack_of(&u.reply), (7, true, None));
            let a = u.audit.unwrap();
            assert_eq!((a.action.as_str(), a.username.as_str()), ("upload", "ada"));
            assert_eq!(a.detail.as_deref(), Some("5 bytes"));
        }
        other => panic!("{:?}", other),
    }
    let r = reply(handle_frame(&mut c, 7, Request::UploadEnd));
    assert_eq!(error_of(&r), (9, 400, "未找到上传会话".to_string()));
}

#[test]
fn incomplete_uploads_are_not_kept() {
    let mut c = logged_in("write", 0);
    complete_upload_start(&mut c, 7, "/srv/f".into(), 10, 4);
    match handle_frame(&mut c, 7, Request::UploadEnd) {
        Step::CloseUpload(u) => {
            assert!(!u.keep && u.audit.is_none());
            assert_eq!(
                op_ack_of(&u.reply),
                (4, false, Some("大小不匹配: 声明 10 实际 4".to_string()))
            );
        }
        other => panic!("{:?}", other),
    }
}

#[test]
fn upload_errors() {
    let mut c = logged_in("write", 0);
    let r = reply(handle_frame(
        &mut c,
        7,
        Request::UploadStart(UploadStartMsg { path: "f".into(), size: MAX_UPLOAD_SIZE + 1 }),
    ));
    assert_eq!(upload_ack_of(&r), (3, false, 0, Some("文件超过上限 10GB".to_string())));
    let r = reply(handle_frame(&mut c, 7, Request::UploadData(vec![0; 7])));
    assert_eq!(error_of(&r), (5, 400, "UploadData 太短".to_string()));
    let r = reply(handle_frame(&mut c, 7, Request::UploadData(upload_data(6, &[]))));
    assert_eq!(upload_ack_of(&r), (7, false, 6, Some("未找到上传会话".to_string())));
    complete_upload_start(&mut c, 7, "/srv/f".into(), 4, 0);
    let r = reply(handle_frame(&mut c, 7, Request::UploadData(upload_data(3, &[1, 2]))));
    assert_eq!(
        upload_ack_of(&r),
        (10, false, 3, Some("写入越界: offset=3 + len=2 > size=4".to_string()))
    );
    let r = reply(handle_frame(&mut c, 7, Request::UploadData(upload_data(u64::MAX, &[1]))));
    assert!(!upload_ack_of(&r).1);
    let r = complete_write(&mut c, 7, 1, 2, Err("disk".into()));
    assert_eq!(upload_ack_of(&r), (13, false, 1, Some("disk".to_string())));
    assert_eq!(c.uploads[&7].missing.received(), 0);
    let r = refuse_upload(&mut c, 7, "路径非法".into());
    assert_eq!(upload_ack_of(&r), (14, false, 0, Some("路径非法".to_string())));
    let r = refuse_path(&mut c, 7);
    assert_eq!(error_of(&r), (15, 403, "路径非法".to_string()));
}

#[test]
fn quota_counts_what_is_new() {
    let mb = 1024 * 1024;
    let mut c = logged_in("write", 2);
    assert!(check_quota(&mut c, 1, mb, mb, 0).is_none());
    let r = check_quota(&mut c, 1, mb + 1, mb, 0).unwrap();
    assert_eq!(
        upload_ack_of(&r),
        (2, false, 0, Some("超出配额限制 (1 MB / 2 MB)".to_string()))
    );
    assert!(check_quota(&mut c, 1, mb + 1, mb, 1).is_none());
    let mut free = logged_in("write", 0);
    assert!(check_quota(&mut free, 1, u64::MAX, u64::MAX, 0).is_none());
    let mut huge = logged_in("write", i64::MAX);
    assert!(check_quota(&mut huge, 1, u64::MAX, u64::MAX, 0).is_none());
}

#[test]
fn uploads_resume() {
    assert_eq!(resume_offset(0, 10), 0);
    assert_eq!(resume_offset(4, 10), 4);
    assert_eq!(resume_offset(10, 10), 10);
    assert_eq!(resume_offset(11, 10), 0);
    assert_eq!(resume_offset(0, 0), 0);
}

#[test]
fn download_is_gathered() {
    let mut c = logged_in("read", 0);
    let mut run = begin_download(&mut c, 6, 2, 7);
    let mut inc = Incoming::new(6);
    let first = run.chunk(&[3, 4, 5]);
    assert_eq!((first.msg_type, first.seq_num), (MSG_DOWNLOAD_DATA, 2));
    assert_eq!(first.payload, vec![0, 0, 0, 0, 0, 0, 0, 2, 0, 3, 4, 5]);
    let last = run.chunk(&[6, 7]);
    assert_eq!(last.payload[8], 1);
    assert!(matches!(inc.take_frame(first), Progress::More));
    assert!(matches!(
        inc.take_frame(WspFrame::new(MSG_DOWNLOAD_DATA, 5, 0, vec![0; 12])),
        Progress::More
    ));
    assert!(matches!(inc.take_frame(last), Progress::More));
    let (end, audit) = complete_download(&mut c, run, "f".into());
    assert_eq!((end.msg_type, end.seq_num, c.seq), (MSG_DOWNLOAD_END, 5, 5));
    assert!(matches!(&end.body, Body::DownloadEnd(m) if m.path == "f" && m.size == 7));
    assert_eq!(audit.detail.as_deref(), Some("7 bytes"));
    assert!(matches!(
        inc.take_frame(WspFrame::new(MSG_DOWNLOAD_END, 6, 0, vec![])),
        Progress::Done
    ));
    assert_eq!(inc.data, vec![3, 4, 5, 6, 7]);
    assert!(matches!(
        inc.take_frame(WspFrame::new(MSG_ERROR, 6, 0, vec![])),
        Progress::Failed(_)
    ));
    assert_eq!(error_of(&fail_download(&mut c, 6, false, "x")), (6, 404, "x".to_string()));
    assert_eq!(error_of(&fail_download(&mut c, 6, true, "x")), (7, 500, "x".to_string()));
}

#[test]
fn operations_are_recorded() {
    let mut c = logged_in("", 0);
    let (r, a) = complete_op(&mut c, 1, FileOp::Rename("a".into(), "b".into()), Ok(()));
    assert_eq!(op_ack_of(&r), (2, true, None));
    let a = a.unwrap();
    assert_eq!(
        (a.action.as_str(), a.path.as_deref(), a.detail.as_deref()),
        ("rename", Some("a"), Some("→ b"))
    );
    let (_, a) = complete_op(&mut c, 1, FileOp::Discard("a".into()), Ok(()));
    assert_eq!(a.unwrap().detail.as_deref(), Some("移到回收站"));
    let (_, a) = complete_op(&mut c, 1, FileOp::TrashDelete("a".into()), Ok(()));
    assert_eq!(a.unwrap().action, "trash_delete");
    let (_, a) = complete_op(&mut c, 1, FileOp::TrashRestore("a".into()), Ok(()));
    assert_eq!(a.unwrap().action, "trash_restore");
    let (r, a) = complete_op(&mut c, 1, FileOp::Mkdir("a".into()), Err("no".into()));
    assert_eq!((op_ack_of(&r), a.is_none()), ((6, false, Some("no".to_string())), true));
    let (r, a) = complete_trash_empty(&mut c, 1, Ok(3));
    assert!(matches!(r.body, Body::TrashEmptied(3)));
    assert_eq!(a.unwrap().detail.as_deref(), Some("删除 3 项"));
    let (r, _) = complete_trash_empty(&mut c, 1, Err("no".into()));
    assert!(!op_ack_of(&r).1);
    let e = TrashEntry { name: "n".into(), original_path: "p".into(), is_dir: false, size: 1 };
    let r = complete_trash_list(&mut c, 1, vec![e]);
    assert_eq!(r.msg_type, MSG_TRASH_LIST_RESP);
}

#[test]
fn listings_are_sorted() {
    let e = |name: &str, is_dir: bool| DirEntryMsg {
        name: name.into(),
        is_dir,
        size: 0,
        mtime: String::new(),
    };
    let sorted = list_dir_entries(&vec![
        e("b", false),
        e(".trash", true),
        e("A", false),
        e("z", true),
        e("É", true),
        e("a", false),
        e("é", true),
    ]);
    let names: Vec<&str> = sorted.iter().map(|x| x.name.as_str()).collect();
    assert_eq!(names, vec!["z", "É", "é", "A", "a", "b"]);
    let mixed = list_dir_entries(&vec![e("B", false), e("a", false)]);
    assert_eq!((mixed[0].name.as_str(), mixed[1].name.as_str()), ("a", "B"));
    let mut c = logged_in("", 0);
    let r = complete_list(&mut c, 1, "/".into(), Ok(sorted));
    assert_eq!(r.msg_type, MSG_LIST_DIR_RESP);
    let r = complete_list(&mut c, 1, "/".into(), Err("no".into()));
    assert_eq!(error_of(&r).1, 500);
}

#[test]
fn kinds_and_limits() {
    assert_eq!(request_kind(0x20), RequestKind::UploadStart);
    assert_eq!(request_kind(0x41), RequestKind::Unknown);
    assert_eq!(request_kind(0xF1), RequestKind::KeepAlive);
    assert!(accepts_connection(199));
    assert!(!accepts_connection(200));
}

#[test]
fn trash_names() {
    assert_eq!(discarded_name("a.txt", 17), "a.txt_17");
    assert_eq!(record_name("a_1"), "a_1.meta");
    assert!(is_record("a_1.meta") && is_record(".meta") && !is_record("meta"));
    assert!(!counts_as_entry("a_1.meta") && counts_as_entry(".meta") && counts_as_entry("a_1"));
}
