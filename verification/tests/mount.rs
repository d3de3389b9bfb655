use lanshare::clock::unix_to_filetime;
use lanshare::content::{read_at, resize, write_at};
use lanshare::dokan::{
    choose_drive, drive_letter, exit_kind, find_free_drive, from_wide, mount_create_file,
    mount_find_files, mount_get_file_information, mount_get_volume_information,
    mount_open_directory, mount_read_file,
    parse_server, path_to_unix, to_wide, CreatePlan, ExitKind, CREATE_NEW, OPEN_EXISTING,
};
use lanshare::fuse::{
    check_change, check_truncate, child_path, lookup, make_attr, open, parent_path, readdir, root_attr, truncate,
    Errno, InodeTable, OpenFile, OpenFiles, OpenPlan, MAX_WRITE_BUF_SIZE,
};
use lanshare::lsp_client::{LspAuth, LspShareClient, MountOp};
use lanshare::mounted::{LanShareFuse, SetPlan};
use lanshare::readonly_fs::{self, KeptFiles};
use lanshare::volume::{attributes_of, flush, LanShareFs};
use lanshare::winfs::{
    allocation_size, check_rename, create, is_root, open_entry, opens_for_writing, parent_dir, parse_mtime, read_directory,
    stat_to_fileinfo, to_wsp_path, DirCache, FileCache, LanShareHandle, NewEntry, NtStatus,
    ReadPlan, WriteBuf, FILE_CACHE_MAX_BYTES, FILE_CACHE_MAX_FILE,
};
use lanshare::wsp_client::{DirEntry, StatResp};

fn stat(is_dir: bool, size: u64, mtime: &str, exists: bool) -> StatResp {
    StatResp {
        name: "n".into(),
        is_dir,
        size,
        mtime: mtime.into(),
        exists,
    }
}

fn entry(name: &str, is_dir: bool) -> DirEntry {
    DirEntry {
        name: name.into(),
        is_dir,
        size: 5,
        mtime: "1".into(),
    }
}

fn rights(permission: &str) -> LspShareClient {
    LspShareClient {
        server_addr: "h:1".into(),
        auth: LspAuth::Pin("1".into()),
        permission: permission.into(),
        healthy: true,
    }
}

#[test]
fn contents_in_memory() {
    let mut b: Vec<u8> = vec![1, 2, 3];
    write_at(&mut b, 5, &[9]);
    assert_eq!(b, vec![1, 2, 3, 0, 0, 9]);
    write_at(&mut b, 1, &[7, 8]);
    assert_eq!(b, vec![1, 7, 8, 0, 0, 9]);
    assert_eq!(read_at(&b, 1, 2), vec![7, 8]);
    assert_eq!(read_at(&b, 4, 10), vec![0, 9]);
    assert_eq!(read_at(&b, 6, 10), Vec::<u8>::new());
    resize(&mut b, 2);
    assert_eq!(b, vec![1, 7]);
    resize(&mut b, 4);
    assert_eq!(b, vec![1, 7, 0, 0]);
    write_at(&mut b, 6, &[]);
    assert_eq!(b.len(), 6);
}

#[test]
fn inodes_stay() {
    let mut t = InodeTable::new();
    assert_eq!(t.path_of(1).as_deref(), Some("/"));
    let a = t.get_or_alloc("/a");
    let b = t.get_or_alloc("/b");
    assert_eq!((a, b, t.get_or_alloc("/a"), t.get_or_alloc("/")), (2, 3, 2, 1));
    t.rename_path("/a", "/c");
    assert_eq!(t.path_of(a).as_deref(), Some("/c"));
    assert_eq!(t.get_or_alloc("/c"), a);
    assert_eq!(t.get_or_alloc("/a"), 4);
    t.remove_path("/b");
    assert_eq!(t.path_of(b), None);
    assert_eq!(t.get_or_alloc("/b"), 5);
    t.rename_path("/missing", "/x");
    t.rename_path("/c", "/b");
    assert_eq!(t.get_or_alloc("/b"), a);
    assert_eq!(t.path_of(5).as_deref(), Some("/b"));
}

#[test]
fn paths_of_entries() {
    assert_eq!(child_path("/", "a"), "/a");
    assert_eq!(child_path("/a", "b"), "/a/b");
    assert_eq!(parent_path("/a/b"), "/a");
    assert_eq!(parent_path("/a"), "/");
    assert_eq!(parent_path("a"), "/");
    assert_eq!(parent_dir("/a/b//"), "/a");
    assert_eq!(parent_dir("/a"), "/");
    assert_eq!(parent_dir("/"), "/");
}

#[test]
fn attributes() {
    let a = make_attr(4, false, 513, "100");
    assert_eq!((a.blocks, a.perm, a.nlink, a.mtime), (2, 0o644, 1, 100));
    let d = make_attr(4, true, 0, "x");
    assert_eq!((d.blocks, d.perm, d.nlink, d.mtime), (0, 0o755, 2, 0));
    assert_eq!(lookup(3, &Ok(stat(false, 1, "2", true))).unwrap().mtime, 2);
    assert_eq!(lookup(3, &Ok(stat(false, 1, "2", false))), Err(Errno::NoEntry));
    assert_eq!(lookup(3, &Err("x".into())), Err(Errno::Io));
    assert_eq!(root_attr(1, &Err("x".into())).size, 0);
    assert!(root_attr(1, &Ok(stat(false, 9, "2", true))).is_dir);
}

#[test]
fn directories_are_read() {
    let mut t = InodeTable::new();
    let ino = t.get_or_alloc("/d");
    let items = readdir(&mut t, ino, "/d", &vec![entry("x", false), entry("y", true)]);
    let got: Vec<(u64, bool, &str)> = items.iter().map(|i| (i.ino, i.is_dir, i.name.as_str())).collect();
    assert_eq!(got, vec![(2, true, "."), (1, true, ".."), (3, false, "x"), (4, true, "y")]);
    assert_eq!(t.get_or_alloc("/d/y"), 4);
    let items = readdir(&mut t, 1, "/", &vec![]);
    assert_eq!(items[1].ino, 1);
}

#[test]
fn opening_files() {
    let st = |size: u64| Some(stat(false, size, "0", true));
    assert_eq!(open(false, 0, true, &None), Err(Errno::NoEntry));
    assert_eq!(open(true, 0, false, &None), Ok(OpenPlan::Read));
    assert_eq!(open(true, 1, false, &st(1)), Err(Errno::Access));
    assert_eq!(open(true, 1, true, &None), Err(Errno::NoEntry));
    assert_eq!(open(true, 2, true, &st(1)), Ok(OpenPlan::Write));
    assert_eq!(open(true, 2, true, &st(MAX_WRITE_BUF_SIZE + 1)), Ok(OpenPlan::Read));
    assert_eq!(open(true, 3, true, &None), Ok(OpenPlan::Read));
}

#[test]
fn open_files_are_written_back() {
    let mut files = OpenFiles::new();
    let fh = files.alloc_fh(OpenFile::opened(OpenPlan::Write, "/f".into(), vec![1, 2, 3], true));
    let ro = files.alloc_fh(OpenFile::opened(OpenPlan::Read, "/g".into(), vec![4], true));
    assert_eq!((fh, ro), (1, 2));
    assert!(files.writeback(fh).is_none());
    assert_eq!(files.write(fh, 2, &[8, 9]), Ok(2));
    assert_eq!(files.read(fh, 1, 10), Ok(vec![2, 8, 9]));
    assert_eq!(files.read(ro, 0, 10), Ok(vec![4]));
    assert_eq!(files.write(ro, 0, &[1]), Err(Errno::Access));
    assert_eq!(files.write(9, 0, &[1]), Err(Errno::BadFile));
    assert_eq!(files.read(9, 0, 1), Err(Errno::BadFile));
    assert_eq!(files.write(fh, MAX_WRITE_BUF_SIZE as i64, &[1]), Err(Errno::NoSpace));
    assert_eq!(files.writeback(fh), Some(("/f".to_string(), vec![1, 2, 8, 9])));
    files.uploaded(fh, false);
    assert_eq!(files.writeback(fh), Some(("/f".to_string(), vec![1, 2, 8, 9])));
    files.uploaded(fh, true);
    assert!(files.writeback(fh).is_none());
    assert_eq!(files.release(fh), Some("/f".to_string()));
    assert_eq!(files.release(ro), None);
    assert_eq!(files.release(ro), None);
    let new = OpenFile::created("/n".into(), false);
    assert_eq!(new.writeback(), Some(("/n".to_string(), vec![])));
    assert_eq!(check_change(false, false), Err(Errno::Access));
    assert_eq!(check_change(true, false), Err(Errno::NoEntry));
    assert_eq!(check_change(true, true), Ok(()));
    assert_eq!(check_truncate(false, 1), Err(Errno::Access));
    assert_eq!(check_truncate(true, MAX_WRITE_BUF_SIZE + 1), Err(Errno::NoSpace));
    assert_eq!(truncate(vec![1, 2, 3], 5), vec![1, 2, 3, 0, 0]);
}

#[test]
fn file_times_and_sizes() {
    assert_eq!(unix_to_filetime(0), 116444736000000000);
    assert_eq!(unix_to_filetime(1), 116444736010000000);
    assert_eq!(parse_mtime("1700000000"), 133444736000000000);
    assert_eq!(parse_mtime("x"), 116444736000000000);
    assert_eq!((allocation_size(0), allocation_size(1), allocation_size(512)), (0, 512, 512));
    let i = stat_to_fileinfo(&stat(false, 513, "0", true), 8);
    assert_eq!((i.file_attributes, i.allocation_size, i.index_number), (0x80, 1024, 8));
    let d = stat_to_fileinfo(&stat(true, 513, "0", true), 8);
    assert_eq!((d.file_attributes, d.allocation_size), (0x10, 0));
    let r = readonly_fs::stat_to_fileinfo(&stat(false, 1, "0", true), 8);
    assert_eq!((r.file_attributes, r.allocation_size), (0x81, 512));
    let w: Vec<u16> = "\\docs\\é.txt".encode_utf16().collect();
    assert_eq!(to_wsp_path(&w), "/docs/é.txt");
}

#[test]
fn listings_age() {
    let mut c = DirCache::new();
    c.store("/a".into(), vec![entry("x", false)], 100);
    c.store("/b".into(), vec![], 103);
    assert_eq!(c.list_dir_cached("/a", 104), Some(0));
    assert_eq!(c.list_dir_cached("/a", 105), None);
    assert_eq!(c.list_dir_cached("/a", 99), None);
    c.store("/c".into(), vec![], 106);
    assert_eq!(c.items.len(), 2);
    c.store("/c".into(), vec![entry("y", true)], 107);
    assert_eq!(c.items.len(), 2);
    c.invalidate_dir("/b");
    assert_eq!(c.list_dir_cached("/b", 107), None);
    c.invalidate_dir_parent("/c/file");
    assert!(c.items.is_empty());
}

#[test]
fn files_are_kept_within_the_limit() {
    let mut c = FileCache::new();
    assert_eq!(c.read_fetched("/s".into(), vec![1, 2, 3], 1, 9), vec![2, 3]);
    assert_eq!(c.read_cached("/s", 2, 9), Some(vec![3]));
    assert_eq!(c.read_cached("/s", 3, 9), None);
    assert_eq!(c.read_cached("/t", 0, 9), None);
    c.store("/big".into(), vec![0; FILE_CACHE_MAX_FILE + 1]);
    assert_eq!(c.items.len(), 1);
    for i in 0..4 {
        c.store(format!("/{i}"), vec![i; FILE_CACHE_MAX_FILE]);
    }
    assert!(c.items.iter().map(|e| e.data.len()).sum::<usize>() <= FILE_CACHE_MAX_BYTES);
    assert_eq!(c.read_cached("/s", 0, 1), None);
    assert_eq!(c.read_cached("/0", 0, 1), Some(vec![0]));
    c.store("/new".into(), vec![7]);
    assert_eq!(c.read_cached("/1", 0, 1), None);
    assert_eq!(c.read_cached("/0", 0, 1), Some(vec![0]));
    c.invalidate_file("/0");
    assert_eq!(c.read_cached("/0", 0, 1), None);
}

#[test]
fn a_hundred_files_are_kept() {
    let mut k = KeptFiles::new();
    for i in 0..100 {
        k.store(format!("/{i}"), vec![i]);
    }
    assert_eq!(k.read_cached("/5", 0, 9), Some(vec![5]));
    assert_eq!(k.read_cached("/5", 1, 9), None);
    k.store("/x".into(), vec![1, 2]);
    assert_eq!(k.items.len(), 1);
    k.store("/x".into(), vec![3]);
    assert_eq!((k.items.len(), k.read_cached("/x", 0, 9)), (1, Some(vec![3])));
}

fn handle(buf: Option<Vec<u8>>) -> LanShareHandle {
    LanShareHandle {
        path: "/f".into(),
        is_dir: false,
        size: 10,
        mtime: 0,
        write_buf: buf.map(|data| WriteBuf { data, dirty: false }),
        delete_on_close: false,
        holds_lock: false,
    }
}

#[test]
fn handles_for_writing() {
    let mut h = handle(Some(vec![1, 2, 3]));
    assert!(!h.needs_upload());
    assert_eq!(h.write(&[9], 1, false, false), Ok(1));
    assert!(h.needs_upload());
    assert_eq!(h.write(&[4, 5], 0, true, false), Ok(2));
    assert_eq!(h.write(&[6, 7], 4, false, true), Ok(1));
    assert_eq!(h.write(&[6, 7], 5, false, true), Ok(0));
    assert_eq!(h.write(&[6, 7], 0, true, true), Ok(0));
    assert!(matches!(h.read(0, 10), ReadPlan::Bytes(b) if b == vec![1, 9, 3, 4, 6]));
    assert!(matches!(h.read(5, 10), ReadPlan::Fail(NtStatus::EndOfFile)));
    assert_eq!(h.current_size(), 5);
    assert_eq!(h.set_file_size(2, false), Ok(()));
    assert_eq!(h.set_file_size(9, true), Ok(()));
    assert_eq!(h.current_size(), 2);
    h.uploaded();
    assert!(!h.needs_upload());
    assert_eq!(h.overwrite(&rights("read")), Err(NtStatus::AccessDenied));
    assert_eq!(h.overwrite(&rights("write")), Ok(()));
    assert!(h.needs_upload() && h.current_size() == 0);
}

#[test]
fn handles_for_reading() {
    let mut h = handle(None);
    assert!(matches!(h.read(9, 1), ReadPlan::Remote));
    assert!(matches!(h.read(10, 1), ReadPlan::Fail(NtStatus::EndOfFile)));
    assert_eq!(h.write(&[1], 0, false, false), Err(NtStatus::AccessDenied));
    assert_eq!(h.set_file_size(1, false), Err(NtStatus::AccessDenied));
    assert_eq!(h.set_delete(&rights("write"), true, None), Err(NtStatus::AccessDenied));
    assert_eq!(h.set_delete(&rights("delete"), true, None), Ok(()));
    assert!(h.deletes_on_cleanup(0));
    assert_eq!(h.set_delete(&rights("delete"), false, None), Ok(()));
    assert!(!h.deletes_on_cleanup(0) && h.deletes_on_cleanup(1));
    h.is_dir = true;
    assert!(matches!(h.read(0, 1), ReadPlan::Fail(NtStatus::AccessDenied)));
    assert_eq!(h.set_delete(&rights("delete"), true, Some(1)), Err(NtStatus::DirectoryNotEmpty));
    assert_eq!(h.set_delete(&rights("delete"), true, None), Err(NtStatus::AccessDenied));
    assert_eq!(h.set_delete(&rights("delete"), true, Some(0)), Ok(()));
    assert!(opens_for_writing(true, false, 4, 1));
    assert!(!opens_for_writing(true, false, 1, 1) && !opens_for_writing(true, true, 2, 1));
    assert!(!opens_for_writing(true, false, 2, MAX_WRITE_BUF_SIZE + 1));
    assert!(is_root("/") && is_root("") && !is_root("/a"));
    assert!(open_entry("/", None).unwrap().is_dir);
    assert_eq!(open_entry("/a", Some(stat(false, 7, "0", true))).unwrap().size, 7);
    assert_eq!(open_entry("/a", Some(stat(false, 7, "0", false))).unwrap_err(), NtStatus::NameNotFound);
    assert_eq!(open_entry("/a", None).unwrap_err(), NtStatus::NameNotFound);
    let mut w = handle(Some(vec![]));
    w.holds_lock = true;
    assert_eq!(w.overwrite(&rights("write")), Ok(()));
    let plan = w.cleanup(0);
    assert_eq!((plan.delete, plan.upload, plan.unlock), (false, true, true));
    let plan = w.cleanup(1);
    assert_eq!((plan.delete, plan.upload, plan.unlock), (true, false, false));
    assert_eq!(create(1, &rights("mkdir")), Ok(NewEntry::Directory));
    assert_eq!(create(0, &rights("mkdir")), Err(NtStatus::AccessDenied));
    assert_eq!(create(0, &rights("write")), Ok(NewEntry::File));
    assert_eq!(check_rename(&rights("write")), Err(NtStatus::AccessDenied));
    assert_eq!(check_rename(&rights("rename")), Ok(()));
}

#[test]
fn listing_goes_on_behind_a_marker() {
    let e = vec![entry("a", false), entry("b", false)];
    let p = |m: Option<&str>| read_directory(true, &e, &m.map(|x| x.to_string())).unwrap();
    assert_eq!((p(None).dot, p(None).dotdot, p(None).start), (true, true, 0));
    assert_eq!((p(Some(".")).dot, p(Some(".")).dotdot), (false, true));
    assert_eq!((p(Some("..")).dotdot, p(Some("..")).start), (false, 0));
    assert_eq!(p(Some("a")).start, 1);
    assert_eq!(p(Some("b")).start, 2);
    assert_eq!(p(Some("z")).start, 0);
    assert_eq!(read_directory(false, &e, &None), Err(NtStatus::AccessDenied));
}

#[test]
fn dokan_records() {
    let i = mount_get_file_information(&stat(false, 0x1_0000_0002, "1700000000", true));
    assert_eq!((i.n_file_size_high, i.n_file_size_low, i.dw_file_attributes), (1, 2, 0x80));
    let t = (i.ft_creation_time.dw_high_date_time as u64) << 32 | i.ft_creation_time.dw_low_date_time as u64;
    assert_eq!(t, 133444736000000000);
    let i = mount_get_file_information(&stat(true, 0, "-1", true));
    assert_eq!((i.ft_last_write_time.dw_low_date_time, i.dw_file_attributes), (0, 0x10));
    let f = mount_find_files(&entry(&"x".repeat(300), false));
    assert_eq!((f.c_file_name.len(), f.c_file_name[259]), (260, 0));
    let f = mount_find_files(&entry("é", true));
    assert_eq!(f.c_file_name, vec![0xE9, 0]);
}

#[test]
fn dokan_answers() {
    assert_eq!(mount_create_file(Some(true), CREATE_NEW), CreatePlan::Existing(true));
    assert_eq!(mount_create_file(None, CREATE_NEW), CreatePlan::Create);
    assert_eq!(mount_create_file(None, OPEN_EXISTING), CreatePlan::Missing);
    assert_eq!(mount_open_directory("", None), 0);
    assert_eq!(mount_open_directory("/", None), 0);
    assert_eq!(mount_open_directory("/a", Some(true)), 0);
    assert_eq!(mount_open_directory("/a", Some(false)), -3);
    assert_eq!(mount_read_file(&[1, 2, 3], 2), vec![1, 2]);
    assert_eq!(mount_read_file(&[1], 2), vec![1]);
    assert_eq!(exit_kind(-5), ExitKind::DriveInUse);
    assert_eq!(exit_kind(-1), ExitKind::Failed);
    assert_eq!(exit_kind(-4), ExitKind::Clean);
    let w = to_wide("\\a\\b");
    assert_eq!(w[w.len() - 1], 0);
    assert_eq!(from_wide(&w), "\\a\\b");
    assert_eq!(path_to_unix(&w), "/a/b");
    assert_eq!(from_wide(&[0x61, 0, 0x62]), "a");
    assert_eq!(mount_get_volume_information("abc", 10), vec![0x61, 0x62, 0x63, 0]);
    assert_eq!(mount_get_volume_information("abc", 3), vec![0x61, 0x62, 0]);
    assert_eq!(mount_get_volume_information("abc", 1), vec![0]);
}

#[test]
fn drives_and_addresses() {
    assert_eq!(find_free_drive(0), "Z:");
    assert_eq!(find_free_drive(1 << 25), "Y:");
    assert_eq!(find_free_drive(0x03FF_FFFE), "A:");
    assert_eq!(find_free_drive(0x03FF_FFFF), "L:");
    assert_eq!(choose_drive("*", 0), "Z:");
    assert_eq!(choose_drive("", 0), "Z:");
    assert_eq!(choose_drive("m", 0), "m:");
    assert_eq!(choose_drive("M:", 0), "M:");
    assert_eq!(choose_drive("1", 0), "1");
    assert_eq!(parse_server("h:81"), ("h".to_string(), 81));
    assert_eq!(parse_server("h"), ("h".to_string(), 8080));
    assert_eq!(parse_server("h:x"), ("h".to_string(), 8080));
    assert_eq!(parse_server("h:70000"), ("h".to_string(), 8080));
    assert_eq!(parse_server("a:b:1"), ("a:b".to_string(), 1));
    assert_eq!((drive_letter("Mx"), drive_letter("")), ('M', 'L'));
}

#[test]
fn volume_opens_entries() {
    let mut v = LanShareFs::new(true);
    let (root, info) = v.open("/".into(), None, &rights("write"), 2, None, false).unwrap();
    assert!(root.is_dir && root.write_buf.is_none());
    assert_eq!((info.file_attributes, info.index_number), (0x10, 1));
    assert_eq!(v.open("/x".into(), None, &rights("write"), 2, None, false).unwrap_err(), NtStatus::NameNotFound);
    let gone = stat(false, 3, "1", false);
    assert_eq!(
        v.open("/x".into(), Some(gone.clone()), &rights("write"), 2, None, false).unwrap_err(),
        NtStatus::NameNotFound
    );
    let here = stat(false, 3, "1", true);
    assert_eq!(
        v.open("/x".into(), Some(here.clone()), &rights("write"), 2, None, true).unwrap_err(),
        NtStatus::AccessDenied
    );
    let (file, info) =
        v.open("/x".into(), Some(here.clone()), &rights("write"), 2, Some(vec![1, 2, 3]), true).unwrap();
    assert_eq!((info.file_size, info.allocation_size, info.index_number), (3, 512, 3));
    assert!(file.holds_lock && !file.needs_upload());
    let (read_only, _) = v.open("/x".into(), Some(here.clone()), &rights("write"), 1, None, true).unwrap();
    assert!(read_only.write_buf.is_none() && !read_only.holds_lock);
    assert_eq!(attributes_of("", &None, false), Ok(0x10));
    assert_eq!(attributes_of("/x", &Some(here), false), Ok(0x80));
    assert_eq!(attributes_of("/x", &Some(gone.clone()), true), Ok(0x80));
    assert_eq!(attributes_of("/x", &Some(gone), false), Err(NtStatus::NameNotFound));
    assert_eq!(attributes_of("/x", &None, true), Err(NtStatus::NameNotFound));
}

#[test]
fn volume_lists_entries() {
    let mut v = LanShareFs::new(true);
    let entries = vec![entry("a", true), entry("𝄞", false), entry("c", false)];
    let mut plan = read_directory(true, &entries, &None).unwrap();
    let mut names = Vec::new();
    while let Some(r) = v.next_record(&mut plan, &entries, 7) {
        names.push((String::from_utf16(&r.name).unwrap(), r.info.index_number));
    }
    let expected: Vec<(String, u64)> =
        [(".", 0), ("..", 0), ("a", 1), ("𝄞", 2), ("c", 3)].iter().map(|(n, i)| (n.to_string(), *i)).collect();
    assert_eq!(names, expected);
    let mut rest = read_directory(true, &entries, &Some("a".to_string())).unwrap();
    let next = v.next_record(&mut rest, &entries, 7).unwrap();
    assert_eq!(next.name, vec![0xD834, 0xDD1E]);
    assert_eq!((next.info.file_attributes, next.info.file_size), (0x80, 5));
}

#[test]
fn volume_gives_up_what_changed() {
    let mut v = LanShareFs::new(true);
    v.dirs.store("/".into(), vec![entry("a", false)], 1);
    v.dirs.store("/d".into(), vec![], 1);
    v.files.store("/a".into(), vec![1]);
    let (mut h, _) = v.created("/a".into(), false, 9);
    assert!(h.needs_upload());
    assert_eq!(flush(&mut h, false), Err(NtStatus::AccessDenied));
    v.begin_upload();
    assert_eq!(v.pending_writes_handle(), 1);
    v.finish_upload(&mut h, false);
    assert!(h.needs_upload() && v.dirs.list_dir_cached("/", 1).is_some());
    v.begin_upload();
    v.finish_upload(&mut h, true);
    assert!(!h.needs_upload());
    assert_eq!(v.pending_writes_handle(), 0);
    assert_eq!(flush(&mut h, false), Ok(()));
    assert!(v.dirs.list_dir_cached("/", 1).is_none());
    assert!(v.dirs.list_dir_cached("/d", 1).is_some());
    assert!(v.files.read_cached("/a", 0, 1).is_none());
    v.renamed("/a", "/d/a");
    assert!(v.dirs.list_dir_cached("/d", 1).is_none());
    v.dirs.store("/".into(), vec![], 1);
    v.dirs.store("/d".into(), vec![], 1);
    let (dir, info) = v.created("/d".into(), true, 9);
    assert_eq!((info.file_attributes, info.time), (0x10, 9));
    assert!(v.dirs.list_dir_cached("/", 1).is_none());
    v.deleted(&dir);
    assert!(v.dirs.list_dir_cached("/d", 1).is_none());
    let info = v.get_file_info(&dir);
    assert_eq!((info.file_size, info.time), (0, 9));
}

#[test]
fn readonly_volume() {
    let mut v = readonly_fs::LanShareFs::new();
    let here = stat(false, 3, "1", true);
    assert_eq!(v.open("/x".into(), None).unwrap_err(), NtStatus::NameNotFound);
    let (root, info) = v.open("".into(), None).unwrap();
    assert_eq!((info.file_attributes, info.index_number), (0x10, 1));
    assert_eq!(info.time, unix_to_filetime(0));
    let (h, info) = v.open("/x".into(), Some(here.clone())).unwrap();
    assert_eq!((info.file_attributes, info.allocation_size, info.index_number), (0x81, 512, 2));
    assert_eq!(v.get_file_info(&h).file_size, 3);
    assert_eq!(readonly_fs::attributes_of("/", None), Ok(0x10));
    assert_eq!(readonly_fs::attributes_of("/x", Some(here)), Ok(0x01));
    assert_eq!(
        readonly_fs::attributes_of("/x", Some(stat(false, 3, "1", false))),
        Err(NtStatus::NameNotFound)
    );
    assert!(matches!(v.read(&root, 0, 1), readonly_fs::ReadStep::Fail(NtStatus::AccessDenied)));
    assert!(matches!(v.read(&h, 3, 1), readonly_fs::ReadStep::Fail(NtStatus::EndOfFile)));
    assert!(matches!(v.read(&h, 0, 1), readonly_fs::ReadStep::Fetch));
    assert_eq!(v.read_fetched("/x".into(), vec![7, 8, 9], 1, 5), vec![8, 9]);
    match v.read(&h, 0, 2) {
        readonly_fs::ReadStep::Bytes(b) => assert_eq!(b, vec![7, 8]),
        other => panic!("{:?}", other),
    }
    let entries = vec![entry("a", false)];
    let mut plan = read_directory(true, &entries, &Some(".".to_string())).unwrap();
    let first = v.next_record(&mut plan, &entries, 7).unwrap();
    assert_eq!((first.name, first.info.time), (vec![46, 46], 7));
    let second = v.next_record(&mut plan, &entries, 7).unwrap();
    assert_eq!((second.name, second.info.file_attributes), (vec![97], 0x81));
    assert!(v.next_record(&mut plan, &entries, 7).is_none());
}

#[test]
fn mounted_operations() {
    let mut m = LanShareFuse::new();
    let file = Ok(stat(false, 3, "7", true));
    let down: Result<StatResp, String> = Err("down".into());
    assert_eq!(m.child(1, "a").as_deref(), Some("/a"));
    assert!(m.child(9, "a").is_none());
    assert_eq!(m.target(&rights("write"), MountOp::Remove, 9, "a").unwrap_err(), Errno::Access);
    assert_eq!(m.target(&rights("delete"), MountOp::Remove, 9, "a").unwrap_err(), Errno::NoEntry);
    assert_eq!(m.found("/a", &down).unwrap_err(), Errno::Io);
    assert_eq!(m.found("/a", &Ok(stat(false, 0, "0", false))).unwrap_err(), Errno::NoEntry);
    let a = m.found("/a", &file).unwrap();
    assert_eq!((a.ino, a.size, a.mtime, a.perm), (2, 3, 7, 0o644));
    assert_eq!(m.found("/a", &file).unwrap().ino, 2);
    assert_eq!(m.getattr(2, &file).unwrap().size, 3);
    assert_eq!(m.getattr(2, &down).unwrap_err(), Errno::Io);
    assert_eq!(m.getattr(7, &file).unwrap_err(), Errno::NoEntry);
    let root = m.getattr(1, &down).unwrap();
    assert!(root.is_dir && root.size == 0);
    assert_eq!(m.readdir(7, &None).unwrap_err(), Errno::NoEntry);
    assert_eq!(m.readdir(1, &None).unwrap_err(), Errno::Io);
    let items = m.readdir(1, &Some(vec![entry("b", true), entry("a", false)])).unwrap();
    let inos: Vec<u64> = items.iter().map(|i| i.ino).collect();
    assert_eq!(inos, vec![1, 1, 3, 2]);
    let there = file.clone().ok();
    assert_eq!(m.open(7, 0, &rights("write"), &there, None, false).unwrap_err(), Errno::NoEntry);
    assert_eq!(m.open(2, 1, &rights("read"), &there, None, false).unwrap_err(), Errno::Access);
    assert_eq!(m.open(2, 0, &rights("read"), &there, None, false).unwrap_err(), Errno::Io);
    let fh = m.open(2, 2, &rights("write"), &there, Some(vec![1, 2, 3]), true).unwrap();
    assert_eq!(m.files.write(fh, 1, &[9]).unwrap(), 1);
    assert_eq!(m.writeback(fh).unwrap(), ("/a".to_string(), vec![1, 9, 3]));
    assert_eq!(m.pending_writes_handle(), 1);
    assert_eq!(m.uploaded(fh, false), Err(Errno::Io));
    assert_eq!(m.pending_writes_handle(), 0);
    assert_eq!(m.writeback(fh).unwrap(), ("/a".to_string(), vec![1, 9, 3]));
    assert_eq!(m.uploaded(fh, true), Ok(()));
    assert!(m.writeback(fh).is_none());
    assert_eq!(m.files.release(fh).as_deref(), Some("/a"));
    let (new, fh) = m.created("/c".into(), false);
    assert_eq!((new.ino, new.size, new.mtime), (4, 0, 0));
    assert_eq!(m.files.writeback(fh).unwrap().1, Vec::<u8>::new());
    assert_eq!(m.made_dir("/d", false).unwrap_err(), Errno::Io);
    assert!(m.made_dir("/d", true).unwrap().is_dir);
    assert_eq!(m.renamed("/a", "/e", false), Err(Errno::Io));
    assert_eq!(m.renamed("/a", "/e", true), Ok(()));
    assert_eq!(m.child(2, "x").as_deref(), Some("/e/x"));
    assert_eq!(m.removed("/e", false), Err(Errno::Io));
    assert_eq!(m.removed("/e", true), Ok(()));
    assert!(m.child(2, "x").is_none());
    assert!(matches!(m.setattr(1, None, &rights("read")), Ok(SetPlan::Look(p)) if p == "/"));
    assert_eq!(m.setattr(1, Some(1), &rights("read")).unwrap_err(), Errno::Access);
    assert_eq!(m.setattr(1, Some(MAX_WRITE_BUF_SIZE + 1), &rights("write")).unwrap_err(), Errno::NoSpace);
    assert_eq!(m.setattr(9, Some(1), &rights("write")).unwrap_err(), Errno::NoEntry);
    assert!(matches!(m.setattr(1, Some(5), &rights("write")), Ok(SetPlan::Truncate(_, 5))));
}
