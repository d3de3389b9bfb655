//! The volume that is mounted on Windows: how entries are opened, created and listed, and which
//! copies of the server's state are given up when something changes.
use vstd::prelude::*;
use crate::clock::{filetime, unix_to_filetime, MAX_FILETIME_SECS};
use crate::fuse::MAX_WRITE_BUF_SIZE;
use crate::lsp_client::{granted, LspShareClient, MountOp};
use crate::utf16::{encode_utf16, utf16_units};
use crate::winfs::{
    asks_write, behind_name, buffer_of, dir_views, file_info, file_item_views, info_of, is_root,
    kept_dirs, mtime_seconds, names_of, next_use, opens_for_writing, other_files, parent_in,
    parse_mtime, plan_behind, same_but_contents, DirCache, DirItemView, DirPlan,
    FileCache, FileInfo, FileItemView, LanShareHandle, NtStatus, WriteBuf,
    FILE_ATTRIBUTE_DIRECTORY, FILE_ATTRIBUTE_NORMAL,
};
use crate::wsp_client::{DirEntry, StatResp};

verus! {

/// A mounted volume.
#[derive(Debug)]
pub struct LanShareFs {
    /// Has the server granted any right to change something?
    pub writable: bool,
    pub dirs: DirCache,
    pub files: FileCache,
    /// The number that the next entry is given.
    pub next_index: u64,
    /// The contents that are being stored at the moment.
    pub pending_writes: usize,
}

pub struct VolumeView {
    pub writable: bool,
    pub dirs: Seq<DirItemView>,
    pub files: Seq<FileItemView>,
    pub uses: u64,
    pub next_index: u64,
    pub pending_writes: usize,
}

impl View for LanShareFs {
    type V = VolumeView;

    open spec fn view(&self) -> VolumeView {
        VolumeView {
            writable: self.writable,
            dirs: dir_views(self.dirs.items@),
            files: file_item_views(self.files.items@),
            uses: self.files.seq,
            next_index: self.next_index,
            pending_writes: self.pending_writes,
        }
    }
}

/// What is known of an entry: whether it is a directory, its size, and when it was changed.
pub struct Known {
    pub is_dir: bool,
    pub size: u64,
    pub secs: nat,
}

/// What is known of the entry at a path. The root directory is known without asking; of anything
/// else only what the server answered, and nothing if it does not exist.
pub open spec fn known_entry(path: Seq<char>, stat: Option<StatResp>) -> Option<Known> {
    if path == "/"@ || path.len() == 0 {
        Some(Known { is_dir: true, size: 0, secs: 0 })
    } else {
        match stat {
            Some(s) => if s.exists {
                Some(Known { is_dir: s.is_dir, size: s.size, secs: mtime_seconds(s.mtime@) })
            } else {
                None
            },
            None => None,
        }
    }
}

/// The time text of the root directory stands for no seconds.
pub proof fn lemma_zero_seconds()
    ensures
        mtime_seconds("0"@) == 0,
{
    reveal_strlit("0");
    assert("0"@ =~= seq!['0']);
    assert("0"@.drop_last() =~= Seq::<char>::empty());
    reveal_with_fuel(crate::text::digits_value, 2);
    assert(crate::text::digits_value("0"@) == 0);
}

/// Can Windows be told of the entry: are its size and its time within the range of its numbers?
pub open spec fn can_tell(size: u64, secs: nat) -> bool {
    size <= 0xFFFF_FFFF_FFFF_FE00 && secs <= MAX_FILETIME_SECS
}

/// Is a file of this kind opened for writing?
pub open spec fn for_writing(k: Known, can_write: bool, access: u32) -> bool {
    can_write && !k.is_dir && asks_write(access) && k.size <= MAX_WRITE_BUF_SIZE
}

/// What Windows is told of `.` and `..`: that they are directories, and the time.
pub open spec fn dot_info(now: u64) -> FileInfo {
    FileInfo {
        file_attributes: FILE_ATTRIBUTE_DIRECTORY,
        allocation_size: 0,
        file_size: 0,
        time: now,
        index_number: 0,
    }
}

/// An entry of a listing.
#[derive(Debug)]
pub struct DirRecord {
    pub name: Vec<u16>,
    pub info: FileInfo,
}

/// The volume with another number given.
pub open spec fn counted(v: VolumeView) -> VolumeView {
    VolumeView { next_index: next_use(v.next_index), ..v }
}

/// The volume without the listing of the directory that a path lies in.
pub open spec fn parent_forgotten(v: VolumeView, path: Seq<char>) -> VolumeView {
    VolumeView { dirs: kept_dirs(v.dirs, parent_in(path), None), ..v }
}

/// The volume without the contents that were kept of a file.
pub open spec fn file_forgotten(v: VolumeView, path: Seq<char>) -> VolumeView {
    VolumeView { files: other_files(v.files, path), ..v }
}

/// The volume without the listing of a directory.
pub open spec fn dir_forgotten(v: VolumeView, path: Seq<char>) -> VolumeView {
    VolumeView { dirs: kept_dirs(v.dirs, path, None), ..v }
}

/// The attributes of the entry at a path, which Windows asks for before it opens or creates it. On
/// a volume that can be changed, an entry that does not exist counts as a file that can be created.
pub fn attributes_of(path: &str, stat: &Option<StatResp>, writable: bool) -> (r: Result<
    u32,
    NtStatus,
>)
    ensures
        r == if path@ == "/"@ || path@.len() == 0 {
            Ok::<u32, NtStatus>(FILE_ATTRIBUTE_DIRECTORY)
        } else {
            match *stat {
                Some(s) => if s.is_dir {
                    Ok::<u32, NtStatus>(FILE_ATTRIBUTE_DIRECTORY)
                } else if s.exists || writable {
                    Ok::<u32, NtStatus>(FILE_ATTRIBUTE_NORMAL)
                } else {
                    Err::<u32, NtStatus>(NtStatus::NameNotFound)
                },
                None => Err::<u32, NtStatus>(NtStatus::NameNotFound),
            }
        },
{
    if is_root(path) {
        return Ok(FILE_ATTRIBUTE_DIRECTORY);
    }
    match stat {
        Some(s) => {
            if s.is_dir {
                Ok(FILE_ATTRIBUTE_DIRECTORY)
            } else if s.exists || writable {
                Ok(FILE_ATTRIBUTE_NORMAL)
            } else {
                Err(NtStatus::NameNotFound)
            }
        },
        None => Err(NtStatus::NameNotFound),
    }
}

/// Stores the contents of an open file at once, where they have been changed. `stored` is how that
/// went.
pub fn flush(h: &mut LanShareHandle, stored: bool) -> (r: Result<(), NtStatus>)
    ensures
        same_but_contents(*final(h), *old(h)),
        match buffer_of(*old(h)) {
            Some(b) => if b.1 && !stored {
                r == Err::<(), NtStatus>(NtStatus::AccessDenied) && buffer_of(*final(h)) == Some(b)
            } else {
                r is Ok && buffer_of(*final(h)) == Some((b.0, false))
            },
            None => r is Ok && buffer_of(*final(h)) is None,
        },
{
    if h.needs_upload() {
        if !stored {
            return Err(NtStatus::AccessDenied);
        }
        h.uploaded();
    }
    Ok(())
}

impl LanShareFs {
    /// Is the volume in order: do the files that are kept stay within their limit?
    pub open spec fn wf(&self) -> bool {
        self.files.wf()
    }

    /// A volume of which nothing is known yet.
    pub fn new(writable: bool) -> (r: Self)
        ensures
            r.wf(),
            r@ == (VolumeView {
                writable,
                dirs: Seq::<DirItemView>::empty(),
                files: Seq::<FileItemView>::empty(),
                uses: 0,
                next_index: 1,
                pending_writes: 0,
            }),
    {
        LanShareFs {
            writable,
            dirs: DirCache::new(),
            files: FileCache::new(),
            next_index: 1,
            pending_writes: 0,
        }
    }

    /// How many contents are being stored at the moment; the program waits for them when it ends.
    pub fn pending_writes_handle(&self) -> (r: usize)
        ensures
            r == self@.pending_writes,
    {
        self.pending_writes
    }

    /// The next number of an entry.
    pub fn next_index_number(&mut self) -> (r: u64)
        ensures
            r == old(self)@.next_index,
            final(self)@ == counted(old(self)@),
            old(self).wf() ==> final(self).wf(),
    {
        let n: u64 = self.next_index;
        self.next_index = if n == u64::MAX { 0 } else { n + 1 };
        n
    }

    /// Opens an entry. `stat` is what the server says of it, `download` its contents, which are
    /// needed if it is opened for writing, and `locked` whether the server gave a lock; without the
    /// lock the file is opened all the same.
    pub fn open(
        &mut self,
        path: String,
        stat: Option<StatResp>,
        rights: &LspShareClient,
        access: u32,
        download: Option<Vec<u8>>,
        locked: bool,
    ) -> (r: Result<(LanShareHandle, FileInfo), NtStatus>)
        requires
            known_entry(path@, stat) matches Some(k) ==> can_tell(k.size, k.secs),
        ensures
            old(self).wf() ==> final(self).wf(),
            match known_entry(path@, stat) {
                None => final(self)@ == old(self)@ && r == Err::<(LanShareHandle, FileInfo), NtStatus>(
                    NtStatus::NameNotFound,
                ),
                Some(k) => final(self)@ == counted(old(self)@) && if for_writing(
                    k,
                    granted(rights.permission@, "write"@),
                    access,
                ) && download is None {
                    r == Err::<(LanShareHandle, FileInfo), NtStatus>(NtStatus::AccessDenied)
                } else {
                    &&& r is Ok
                    &&& (r->Ok_0).0.path@ == path@
                    &&& (r->Ok_0).0.is_dir == k.is_dir
                    &&& (r->Ok_0).0.size == k.size
                    &&& (r->Ok_0).0.mtime == filetime(k.secs as int)
                    &&& !(r->Ok_0).0.delete_on_close
                    &&& buffer_of((r->Ok_0).0) == if for_writing(k, granted(rights.permission@, "write"@), access) {
                        Some((download->0@, false))
                    } else {
                        None
                    }
                    &&& (r->Ok_0).0.holds_lock == (for_writing(k, granted(rights.permission@, "write"@), access) && locked)
                    &&& (r->Ok_0).1 == info_of(
                        k.is_dir,
                        k.size,
                        filetime(k.secs as int) as u64,
                        old(self)@.next_index,
                    )
                },
            },
    {
        let (is_dir, size, mtime) = if is_root(path.as_str()) {
            (true, 0, unix_to_filetime(0))
        } else {
            match stat {
                Some(s) => {
                    if !s.exists {
                        return Err(NtStatus::NameNotFound);
                    }
                    (s.is_dir, s.size, parse_mtime(s.mtime.as_str()))
                },
                None => {
                    return Err(NtStatus::NameNotFound);
                },
            }
        };
        let index: u64 = self.next_index_number();
        let info = file_info(is_dir, size, mtime, index);
        let writes = opens_for_writing(rights.may(MountOp::Write), is_dir, access, size);
        let write_buf = if writes {
            match download {
                Some(data) => Some(WriteBuf { data, dirty: false }),
                None => {
                    return Err(NtStatus::AccessDenied);
                },
            }
        } else {
            None
        };
        let handle = LanShareHandle {
            path,
            is_dir,
            size,
            mtime,
            write_buf,
            delete_on_close: false,
            holds_lock: writes && locked,
        };
        Ok((handle, info))
    }

    /// Opens an entry that is new, at the time `now`. A directory has been made on the server; a
    /// file has nothing in it, and is stored when it is closed.
    pub fn created(&mut self, path: String, is_dir: bool, now: u64) -> (r: (
        LanShareHandle,
        FileInfo,
    ))
        ensures
            old(self).wf() ==> final(self).wf(),
            final(self)@ == if is_dir {
                counted(parent_forgotten(old(self)@, path@))
            } else {
                counted(old(self)@)
            },
            r.0.path@ == path@,
            r.0.is_dir == is_dir,
            r.0.size == 0,
            r.0.mtime == now,
            !r.0.delete_on_close,
            !r.0.holds_lock,
            buffer_of(r.0) == if is_dir {
                None
            } else {
                Some((Seq::<u8>::empty(), true))
            },
            r.1 == info_of(is_dir, 0, now, old(self)@.next_index),
    {
        if is_dir {
            self.dirs.invalidate_dir_parent(path.as_str());
        }
        let index: u64 = self.next_index_number();
        let write_buf = if is_dir {
            None
        } else {
            Some(WriteBuf { data: Vec::new(), dirty: true })
        };
        let handle = LanShareHandle {
            path,
            is_dir,
            size: 0,
            mtime: now,
            write_buf,
            delete_on_close: false,
            holds_lock: false,
        };
        (handle, file_info(is_dir, 0, now, index))
    }

    /// What Windows is told of an open entry: of contents to be written, their size.
    pub fn get_file_info(&mut self, h: &LanShareHandle) -> (r: FileInfo)
        requires
            (match buffer_of(*h) {
                Some(b) => b.0.len(),
                None => h.size as nat,
            }) <= 0xFFFF_FFFF_FFFF_FE00,
        ensures
            old(self).wf() ==> final(self).wf(),
            final(self)@ == counted(old(self)@),
            r == info_of(
                h.is_dir,
                match buffer_of(*h) {
                    Some(b) => b.0.len() as u64,
                    None => h.size,
                },
                h.mtime,
                old(self)@.next_index,
            ),
    {
        let index: u64 = self.next_index_number();
        file_info(h.is_dir, h.current_size(), h.mtime, index)
    }

    /// The next entry of a listing, and the plan behind it: first `.`, then `..`, as far as the
    /// plan has them, then the entries of the directory.
    pub fn next_record(&mut self, plan: &mut DirPlan, entries: &Vec<DirEntry>, now: u64) -> (r: Option<
        DirRecord,
    >)
        requires
            !old(plan).dot && !old(plan).dotdot && old(plan).start < entries@.len() ==> can_tell(
                entries@[old(plan).start as int].size,
                mtime_seconds(entries@[old(plan).start as int].mtime@),
            ),
        ensures
            old(self).wf() ==> final(self).wf(),
            if old(plan).dot {
                &&& r matches Some(e) && e.name@ == utf16_units("."@) && e.info == dot_info(now)
                &&& *final(plan) == (DirPlan { dot: false, ..*old(plan) })
                &&& final(self)@ == old(self)@
            } else if old(plan).dotdot {
                &&& r matches Some(e) && e.name@ == utf16_units(".."@) && e.info == dot_info(now)
                &&& *final(plan) == (DirPlan { dotdot: false, ..*old(plan) })
                &&& final(self)@ == old(self)@
            } else if old(plan).start < entries@.len() {
                let e = entries@[old(plan).start as int];
                &&& r matches Some(d) && d.name@ == utf16_units(e.name@) && d.info == info_of(
                    e.is_dir,
                    e.size,
                    filetime(mtime_seconds(e.mtime@) as int) as u64,
                    old(self)@.next_index,
                )
                &&& *final(plan) == (DirPlan { start: (old(plan).start + 1) as usize, ..*old(plan) })
                &&& final(self)@ == counted(old(self)@)
            } else {
                r is None && *final(plan) == *old(plan) && final(self)@ == old(self)@
            },
    {
        if plan.dot {
            plan.dot = false;
            return Some(DirRecord { name: encode_utf16("."), info: file_info(true, 0, now, 0) });
        }
        if plan.dotdot {
            plan.dotdot = false;
            return Some(DirRecord { name: encode_utf16(".."), info: file_info(true, 0, now, 0) });
        }
        if plan.start >= entries.len() {
            return None;
        }
        let e = &entries[plan.start];
        let time: u64 = parse_mtime(e.mtime.as_str());
        let index: u64 = self.next_index_number();
        plan.start = plan.start + 1;
        Some(
            DirRecord {
                name: encode_utf16(e.name.as_str()),
                info: file_info(e.is_dir, e.size, time, index),
            },
        )
    }

    /// Takes note that an entry has been renamed: the listings of both its directories are given up.
    pub fn renamed(&mut self, from: &str, to: &str)
        ensures
            old(self).wf() ==> final(self).wf(),
            final(self)@ == parent_forgotten(parent_forgotten(old(self)@, from@), to@),
    {
        self.dirs.invalidate_dir_parent(from);
        self.dirs.invalidate_dir_parent(to);
    }

    /// Takes note that an entry has been deleted: what was kept of it is given up, and the listing
    /// of its directory.
    pub fn deleted(&mut self, h: &LanShareHandle)
        ensures
            old(self).wf() ==> final(self).wf(),
            final(self)@ == parent_forgotten(
                if h.is_dir {
                    dir_forgotten(old(self)@, h.path@)
                } else {
                    file_forgotten(old(self)@, h.path@)
                },
                h.path@,
            ),
    {
        if h.is_dir {
            self.dirs.invalidate_dir(h.path.as_str());
        } else {
            self.files.invalidate_file(h.path.as_str());
        }
        self.dirs.invalidate_dir_parent(h.path.as_str());
    }

    /// Takes note that contents are about to be stored.
    pub fn begin_upload(&mut self)
        requires
            old(self)@.pending_writes < usize::MAX,
        ensures
            old(self).wf() ==> final(self).wf(),
            final(self)@ == (VolumeView {
                pending_writes: (old(self)@.pending_writes + 1) as usize,
                ..old(self)@
            }),
    {
        self.pending_writes = self.pending_writes + 1;
    }

    /// Takes note of how storing contents went. Stored ones are no longer changed, and what was
    /// kept of the file is given up; otherwise they stay to be stored.
    pub fn finish_upload(&mut self, h: &mut LanShareHandle, stored: bool)
        requires
            old(self)@.pending_writes > 0,
        ensures
            old(self).wf() ==> final(self).wf(),
            final(self)@ == {
                let v = VolumeView {
                    pending_writes: (old(self)@.pending_writes - 1) as usize,
                    ..old(self)@
                };
                if stored {
                    parent_forgotten(file_forgotten(v, old(h).path@), old(h).path@)
                } else {
                    v
                }
            },
            same_but_contents(*final(h), *old(h)),
            buffer_of(*final(h)) == match buffer_of(*old(h)) {
                Some(b) => Some((b.0, b.1 && !stored)),
                None => None,
            },
    {
        self.pending_writes = self.pending_writes - 1;
        if stored {
            h.uploaded();
            self.files.invalidate_file(h.path.as_str());
            self.dirs.invalidate_dir_parent(h.path.as_str());
        }
    }
}

/// A listing that was broken off goes on where it stopped: behind the last entry that was handed
/// out come exactly those that follow it.
pub proof fn law_listing_goes_on(entries: Seq<DirEntry>, k: int)
    requires
        0 <= k < entries.len() <= usize::MAX,
        forall|i: int, j: int|
            0 <= i < j < entries.len() ==> (#[trigger] entries[i]).name@ != (#[trigger] entries[j]).name@,
        entries[k].name@ != "."@,
        entries[k].name@ != ".."@,
    ensures
        plan_behind(names_of(entries), Some(entries[k].name@)) == (DirPlan {
            dot: false,
            dotdot: false,
            start: (k + 1) as usize,
        }),
{
    lemma_behind(entries, k, entries.len() as int);
    assert(names_of(entries).take(entries.len() as int) =~= names_of(entries));
}

proof fn lemma_behind(entries: Seq<DirEntry>, k: int, n: int)
    requires
        0 <= k < entries.len(),
        0 <= n <= entries.len(),
        forall|i: int, j: int|
            0 <= i < j < entries.len() ==> (#[trigger] entries[i]).name@ != (#[trigger] entries[j]).name@,
    ensures
        behind_name(names_of(entries).take(n), entries[k].name@) == if k < n {
            k + 1
        } else {
            0
        },
    decreases n,
{
    let names = names_of(entries);
    if n > 0 {
        lemma_behind(entries, k, n - 1);
        assert(names.take(n).drop_last() =~= names.take(n - 1));
        assert(names.take(n).last() == entries[n - 1].name@);
    }
}

/// After a file has been stored, nothing of its old form is handed out: neither the contents that
/// were kept of it, nor a listing that was kept of its directory.
pub proof fn law_stored_file_is_fetched_anew(v: VolumeView, path: Seq<char>, i: int)
    ensures
        0 <= i < file_forgotten(v, path).files.len() ==> file_forgotten(v, path).files[i].path
            != path,
        0 <= i < parent_forgotten(v, path).dirs.len() ==> parent_forgotten(v, path).dirs[i].path
            != parent_in(path),
{
    lemma_other_files(v.files, path, i);
    if 0 <= i < parent_forgotten(v, path).dirs.len() {
        crate::winfs::law_forgotten_is_gone(v.dirs, parent_in(path), None, i);
    }
}

proof fn lemma_other_files(v: Seq<FileItemView>, path: Seq<char>, i: int)
    ensures
        0 <= i < other_files(v, path).len() ==> other_files(v, path)[i].path != path,
    decreases v.len(),
{
    if v.len() > 0 {
        lemma_other_files(v.drop_last(), path, i);
    }
}

/// A file can be written through a handle if it exists, has at most 512 MB, the right to write is
/// granted, and the access right to write or to append is asked for; directories never can.
pub proof fn law_which_files_open_for_writing(k: Known, can_write: bool, access: u32)
    ensures
        !k.is_dir && can_write && k.size <= 512 * 1024 * 1024 && (access & 2 != 0 || access & 4
            != 0) ==> for_writing(k, can_write, access),
        for_writing(k, can_write, access) ==> !k.is_dir && can_write && k.size <= 512 * 1024 * 1024
            && (access & 2 != 0 || access & 4 != 0),
{
    crate::winfs::law_access_rights(access);
}

/// The root directory is always there; anything else is there if the server says so, with the size,
/// the kind and the time that the server gives it.
pub proof fn law_what_is_known_of_an_entry(path: Seq<char>, s: StatResp)
    requires
        path != "/"@,
        path.len() > 0,
    ensures
        known_entry("/"@, None) is Some && known_entry("/"@, None)->0.is_dir,
        known_entry(path, None) is None,
        !s.exists ==> known_entry(path, Some(s)) is None,
        s.exists ==> known_entry(path, Some(s)) == Some(
            Known { is_dir: s.is_dir, size: s.size, secs: mtime_seconds(s.mtime@) },
        ),
{
}

/// Each change gives up what it makes stale, and nothing else of the volume changes.
pub proof fn law_changes_touch_what_they_must(v: VolumeView, path: Seq<char>)
    ensures
        parent_forgotten(v, path).files == v.files && dir_forgotten(v, path).files == v.files,
        file_forgotten(v, path).dirs == v.dirs,
        counted(v).files == v.files && counted(v).dirs == v.dirs,
        v.next_index < u64::MAX ==> counted(v).next_index == v.next_index + 1,
        parent_forgotten(v, path).pending_writes == v.pending_writes && file_forgotten(
            v,
            path,
        ).pending_writes == v.pending_writes && dir_forgotten(v, path).pending_writes
            == v.pending_writes && counted(v).pending_writes == v.pending_writes,
        dot_info(v.next_index).file_attributes == 0x10 && dot_info(v.next_index).time
            == v.next_index,
{
}

} // verus!
