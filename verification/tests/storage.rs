use lanshare::db::{create_session, share_user, verify_session, SessionCheck, User};
use lanshare::files::{
    after_piece, auth, begin_upload, complete_reply, count_parts, default_path, delete_file, disposition, download_file,
    list_files, merged_size, mkdir, part_name, preview_file, rename_file, shown_files, trash_name,
    unique_path, upload_directory, upload_file, FileEntry, RenameProbe, UploadForm, UploadPlan,
    PieceStep, MAX_CHUNKED_UPLOAD,
};
use lanshare::mime::{guess_mime, is_text_preview, mime_type};
use lanshare::paths::{
    fs_path_to_url, has_climb, is_inside, relative_of, resolve_user_dir, restore_path, safe_join,
    safe_path, trash_record, JoinProbe, PathProbe, Place, UserDir,
};

fn v(p: &[&str]) -> Vec<String> {
    p.iter().map(|x| x.to_string()).collect()
}

fn s(x: &str) -> Option<String> {
    Some(x.to_string())
}

fn user(permissions: &str) -> Option<User> {
    Some(User {
        id: 7,
        permissions: permissions.into(),
        ..share_user()
    })
}

fn probe(home: Option<&[&str]>, target: Option<&[&str]>, parent: Option<&[&str]>) -> JoinProbe {
    JoinProbe {
        home: home.map(v),
        target: target.map(v),
        parent: parent.map(v),
    }
}

#[test]
fn joins_stay_home() {
    let home: &[&str] = &["srv", "share"];
    let inside = safe_join("/a/b", &probe(Some(home), Some(&["srv", "share", "a", "b"]), None));
    assert!(matches!(inside, Some(Place::Canonical(p)) if p == v(&["srv", "share", "a", "b"])));
    assert!(safe_join("link", &probe(Some(home), Some(&["etc"]), None)).is_none());
    assert!(safe_join("x", &probe(Some(home), Some(&["srv", "shared"]), None)).is_none());
    assert!(matches!(
        safe_join("", &probe(Some(home), None, None)),
        Some(Place::Canonical(p)) if p == v(&["srv", "share"])
    ));
    assert!(safe_join("/", &probe(None, None, None)).is_none());
    assert!(matches!(
        safe_join("a/new", &probe(Some(home), None, Some(&["srv", "share", "a"]))),
        Some(Place::Under(r)) if r == "a/new"
    ));
    assert!(safe_join("a/new", &probe(Some(home), None, Some(&["etc"]))).is_none());
    assert!(safe_join("a/new", &probe(Some(home), None, None)).is_none());
    assert!(matches!(
        safe_join("new", &probe(Some(home), None, None)),
        Some(Place::Under(r)) if r == "new"
    ));
}

#[test]
fn climbing_is_refused() {
    let home: &[&str] = &["srv"];
    for rel in ["..", "../x", "a/../b", "a\\..\\b", "/..", "\\.."] {
        assert!(safe_join(rel, &probe(Some(home), Some(&["srv", "x"]), Some(home))).is_none(), "{rel}");
        assert!(has_climb(rel));
    }
    assert!(!has_climb("a..b/..c") && !has_climb(""));
    assert!(is_inside("a/b") && !is_inside("/a") && is_inside("\\a") && !is_inside("a/.."));
}

#[test]
fn url_paths_are_confined() {
    assert_eq!(relative_of("//a\\b"), "a/b");
    let p = |full: Option<&[&str]>, parent: Option<&[&str]>, name: &str| PathProbe {
        base: Some(v(&["srv"])),
        full: full.map(v),
        parent: parent.map(v),
        file_name: name.into(),
    };
    assert_eq!(safe_path(&p(Some(&["srv", "a"]), None, "a")), Some(v(&["srv", "a"])));
    assert_eq!(safe_path(&p(Some(&["etc"]), None, "a")), None);
    assert_eq!(safe_path(&p(None, Some(&["srv"]), "new")), Some(v(&["srv", "new"])));
    assert_eq!(safe_path(&p(None, Some(&["srv"]), "")), Some(v(&["srv"])));
    assert_eq!(safe_path(&p(None, Some(&["etc"]), "new")), None);
    assert_eq!(safe_path(&p(None, None, "new")), None);
}

#[test]
fn directories_of_accounts() {
    let mut u = share_user();
    assert!(matches!(resolve_user_dir(&u, false), UserDir::Global));
    u.id = 3;
    assert!(matches!(resolve_user_dir(&u, false), UserDir::Global));
    u.shared_dir = s("ada");
    assert!(matches!(resolve_user_dir(&u, false), UserDir::Below(d) if d == "ada"));
    assert!(matches!(resolve_user_dir(&u, true), UserDir::Own(d) if d == "ada"));
    u.role = "admin".into();
    assert!(matches!(resolve_user_dir(&u, true), UserDir::Global));
}

#[test]
fn urls_of_places() {
    assert_eq!(fs_path_to_url(&v(&["srv"]), &v(&["srv", "a", "b"])), "/a/b");
    assert_eq!(fs_path_to_url(&v(&["srv"]), &v(&["srv"])), "/");
    assert_eq!(fs_path_to_url(&v(&["srv"]), &v(&["etc", "x"])), "/x");
}

#[test]
fn trash_brings_back() {
    let note = trash_record(&v(&["srv"]), &v(&["srv", "a", "b.txt"]));
    assert_eq!(note, "a/b.txt");
    assert_eq!(restore_path(&note), Some(v(&["a", "b.txt"])));
    let note = trash_record(&v(&["srv"]), &v(&["srv", "\\d", "\\..\\x"]));
    assert_eq!(restore_path(&note), Some(v(&["\\d", "\\..\\x"])));
    assert_eq!(restore_path("../x"), None);
    assert_eq!(restore_path("/etc/x"), None);
    assert_eq!(trash_record(&v(&["srv"]), &v(&["etc", "x"])), "/etc/x");
}

#[test]
fn media_types() {
    assert_eq!(mime_type("a.TXT"), "text/plain; charset=utf-8");
    assert_eq!(mime_type("a.tar.gz"), "application/gzip");
    assert_eq!(mime_type("a.7z"), "application/x-7z-compressed");
    assert_eq!(mime_type("archive"), "application/octet-stream");
    assert_eq!(mime_type(".txt"), "application/octet-stream");
    assert_eq!(mime_type("x.ps1"), "text/plain; charset=utf-8");
    assert!(is_text_preview("a.html") && !is_text_preview("a.png"));
    assert_eq!(guess_mime("a.md"), "text/plain");
    assert_eq!(guess_mime("a.MD"), "application/octet-stream");
    assert_eq!(guess_mime("a.js"), "application/javascript");
}

#[test]
fn who_asks_for_files() {
    assert_eq!(default_path(), "/");
    assert_eq!(auth(user(""), true, "1", &s("1"), None).unwrap().id, 7);
    assert_eq!(auth(None, true, "1", &s("1"), None).unwrap().id, 0);
    assert!(auth(None, false, "1", &s("1"), None).is_none());
    assert!(auth(None, true, "1", &None, user("")).is_none());
}

#[test]
fn reading_files() {
    let p = Some(v(&["srv"]));
    assert_eq!(list_files(None, &p, true).unwrap_err().status, 401);
    assert_eq!(list_files(user("write"), &p, true).unwrap_err().body, "{\"error\":\"无读取权限\"}");
    assert_eq!(list_files(user("read"), &None, true).unwrap_err().status, 403);
    assert_eq!(list_files(user("read"), &p, false).unwrap_err().body, "{\"error\":\"不是目录\"}");
    assert_eq!(list_files(user("read"), &p, true).unwrap().id, 7);
    assert_eq!(download_file(user("read"), &p, false).unwrap_err().body, "{\"error\":\"不是文件\"}");
    let big = Some(1024 * 1024 + 1);
    assert_eq!(preview_file(user("read"), &p, true, "a.txt", big).unwrap_err().status, 415);
    assert!(preview_file(user("read"), &p, true, "a.png", big).is_ok());
    assert!(preview_file(user("read"), &p, true, "a.txt", Some(1024 * 1024)).is_ok());
    assert!(preview_file(user("read"), &p, true, "a.txt", None).is_ok());
    assert_eq!(disposition(true, "a b.txt"), "attachment; filename*=UTF-8''a%20b%2Etxt");
    assert_eq!(disposition(false, "你"), "inline; filename*=UTF-8''%E4%BD%A0");
}

#[test]
fn hidden_files_are_not_shown() {
    let e = |name: &str, is_dir: bool| FileEntry { name: name.into(), is_dir, size: 1, mtime: 2 };
    let shown = shown_files(&vec![e("b", false), e(".x", true), e("C", true), e("A", false)]);
    let names: Vec<&str> = shown.iter().map(|x| x.name.as_str()).collect();
    assert_eq!(names, vec!["C", "A", "b"]);
}

#[test]
fn upload_forms() {
    let mut f = UploadForm::new();
    assert_eq!(f.directory().unwrap_err().body, "{\"error\":\"缺少 path 参数\"}");
    f.text_field("path", "/d".into());
    f.text_field("nonsense", "x".into());
    assert!(f.file_field(s("a.txt"), vec![1]).is_ok());
    assert_eq!(f.directory().unwrap(), "/d");
    assert!(matches!(upload_file(f), Ok(UploadPlan::Whole(n, d)) if n == "a.txt" && d == vec![1]));
    assert_eq!(upload_file(UploadForm::new()).unwrap_err().body, "{\"error\":\"缺少文件或文件名\"}");
    let piece = |id: &str, index: &str, total: &str| {
        let mut f = UploadForm::new();
        f.text_field("upload_id", id.into());
        f.text_field("filename", "n".into());
        f.text_field("chunk_index", index.into());
        f.text_field("total_chunks", total.into());
        f.file_field(s("other"), vec![5]).unwrap();
        upload_file(f)
    };
    assert!(matches!(
        piece("ab-1", "0", "2"),
        Ok(UploadPlan::Piece(p)) if p.index == 0 && p.total == 2 && p.filename == "n" && p.upload_id == "ab-1"
    ));
    let text = |r: Result<UploadPlan, lanshare::http::HttpReply>| r.unwrap_err().body;
    assert_eq!(text(piece("ab", "x", "2")), "{\"error\":\"分片上传缺少必要参数\"}");
    assert_eq!(text(piece("ab", "2", "2")), "{\"error\":\"分片参数无效\"}");
    assert_eq!(text(piece("ab", "0", "0")), "{\"error\":\"分片参数无效\"}");
    assert_eq!(text(piece("../ab", "0", "2")), "{\"error\":\"upload_id 非法\"}");
    assert_eq!(text(piece(&"a".repeat(65), "0", "2")), "{\"error\":\"upload_id 非法\"}");
    assert!(piece(&"a".repeat(64), "0", "2").is_ok());
    assert_eq!(upload_directory(&None, true).unwrap_err().status, 403);
    assert_eq!(
        upload_directory(&Some(vec![]), false).unwrap_err().body,
        "{\"error\":\"目标目录不存在\"}"
    );
}

#[test]
fn uploading_needs_its_permission() {
    assert_eq!(begin_upload(None).unwrap_err().status, 401);
    let e = begin_upload(user("read,mkdir")).unwrap_err();
    assert_eq!((e.status, e.body.as_str()), (403, "{\"error\":\"无写入权限\"}"));
    assert_eq!(begin_upload(user("write")).unwrap().permissions, "write");
}

#[test]
fn large_files_come_in_pieces() {
    let data = vec![0u8; 200 * 1024 * 1024 + 1];
    let mut f = UploadForm::new();
    assert_eq!(f.file_field(None, data).unwrap_err().status, 413);
    assert_eq!(part_name(7), "part_000007");
    assert_eq!(part_name(1234567), "part_1234567");
    assert_eq!(count_parts(&v(&["part_000000", "meta.json", "part_000001"])), 2);
    let names = v(&["part_000001", "meta.json", "part_000000"]);
    match after_piece(&names, 3) {
        PieceStep::Partial(r) => assert_eq!(
            (r.status, r.body.as_str()),
            (200, "{\"received\":2,\"status\":\"partial\",\"total\":3}")
        ),
        other => panic!("{:?}", other),
    }
    match after_piece(&names, 2) {
        PieceStep::Merge(parts) => assert_eq!(parts, v(&["part_000000", "part_000001"])),
        other => panic!("{:?}", other),
    }
    assert_eq!(
        complete_reply("a\"b", 7).body,
        "{\"name\":\"a\\\"b\",\"size\":7,\"status\":\"complete\"}"
    );
    assert_eq!(merged_size(&vec![Some(1), Some(2)]).unwrap(), 3);
    assert_eq!(merged_size(&vec![Some(u64::MAX), None]).unwrap_err().status, 400);
    assert_eq!(merged_size(&vec![Some(MAX_CHUNKED_UPLOAD), Some(1)]).unwrap_err().status, 413);
    assert_eq!(merged_size(&vec![Some(MAX_CHUNKED_UPLOAD)]).unwrap(), MAX_CHUNKED_UPLOAD);
    assert_eq!(merged_size(&vec![Some(u64::MAX), Some(u64::MAX)]).unwrap_err().status, 413);
}

#[test]
fn names_do_not_clash() {
    let none = v(&[]);
    assert_eq!(unique_path("a/b\\c.txt", &none), s("c.txt"));
    assert_eq!(unique_path("c.txt", &v(&["c.txt", "c (1).txt"])), s("c (2).txt"));
    assert_eq!(unique_path("c", &v(&["c"])), s("c (1)"));
    assert_eq!(unique_path("c.", &v(&["c."])), s("c (1)."));
    assert_eq!(unique_path("c.tar.gz", &v(&["c.tar.gz"])), s("c.tar (1).gz"));
    for bad in ["", ".", "..", ".x", "a/", "a/.hidden"] {
        assert_eq!(unique_path(bad, &none), None, "{bad}");
    }
    let mut all = v(&["c.txt"]);
    for i in 1..1000 {
        all.push(format!("c ({i}).txt"));
    }
    assert_eq!(unique_path("c.txt", &all), None);
    all.pop();
    assert_eq!(unique_path("c.txt", &all), s("c (999).txt"));
}

#[test]
fn changing_files() {
    let p = Some(v(&["srv", "a"]));
    assert_eq!(mkdir(user("read"), &p, false).unwrap_err().status, 403);
    assert_eq!(mkdir(user("mkdir"), &p, true).unwrap_err().status, 409);
    assert!(mkdir(user("mkdir"), &p, false).is_ok());
    let probe = |source: bool, dir: &[&str], target: bool| RenameProbe {
        source_exists: source,
        base: Some(v(&["srv"])),
        target_dir: Some(v(dir)),
        target_exists: target,
    };
    let ok = probe(true, &["srv"], false);
    for bad in ["", "a/b", "a\\b", ".", ".."] {
        assert_eq!(rename_file(user("rename"), bad, &p, &ok).unwrap_err().status, 400);
    }
    assert_eq!(rename_file(user("read"), "b", &p, &ok).unwrap_err().status, 403);
    assert_eq!(rename_file(user("rename"), "b", &None, &ok).unwrap_err().status, 403);
    assert_eq!(rename_file(user("rename"), "b", &p, &probe(false, &["srv"], false)).unwrap_err().status, 404);
    assert!(rename_file(user("rename"), "b", &p, &probe(true, &["srv", "d"], false)).is_ok());
    assert!(rename_file(user("rename"), "b", &p, &probe(true, &["srv", "d", "e"], false)).is_ok());
    for outside in [&["etc"][..], &[][..], &["srv2", "d"][..]] {
        let probe = probe(true, outside, false);
        assert_eq!(rename_file(user("rename"), "b", &p, &probe).unwrap_err().status, 403);
    }
    assert_eq!(rename_file(user("rename"), "b", &p, &probe(true, &["srv"], true)).unwrap_err().status, 409);
    assert!(rename_file(user("rename"), "b", &p, &ok).is_ok());
    let home = Some(v(&["srv"]));
    assert_eq!(delete_file(user("read"), &p, true, &home, &p).unwrap_err().status, 403);
    assert_eq!(delete_file(user("delete"), &p, false, &home, &p).unwrap_err().status, 404);
    assert_eq!(
        delete_file(user("delete"), &home, true, &home, &home).unwrap_err().body,
        "{\"error\":\"不能删除共享根目录\"}"
    );
    assert!(delete_file(user("delete"), &p, true, &home, &p).is_ok());
    assert_eq!(trash_name(12, &s("a")), "12_a");
    assert_eq!(trash_name(12, &None), "12_deleted");
}

#[test]
fn session_lasts_a_day() {
    let row = create_session(7, 1000);
    assert_eq!((row.user_id, row.expires_at), (7, 87400));
    assert_eq!(verify_session(Some(row), 1000), SessionCheck { user_id: Some(7), remove: false });
    assert_eq!(verify_session(Some(row), 87399), SessionCheck { user_id: Some(7), remove: false });
    assert_eq!(verify_session(Some(row), 87400), SessionCheck { user_id: None, remove: true });
    assert_eq!(verify_session(None, 0), SessionCheck { user_id: None, remove: false });
}
