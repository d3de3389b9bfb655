//! The mounted file system on Unix: what each operation answers, and how it changes what the mount
//! knows of paths and open files.
use vstd::prelude::*;
use crate::fuse::{
    after_upload, attr_of, check_change, check_truncate, child_of, child_path, entry_names,
    existing_size, file_after_write, lookup, new_attr, open, open_plan, readdir, root_attr,
    seconds_in, seen, to_store,
    with_listed, with_path, with_renamed, without_path, Attr, DirItem, Errno, InodeTable, OpenFile,
    OpenFiles, OpenPlan, OpenView, TableView, MAX_WRITE_BUF_SIZE,
};
use crate::lsp_client::{granted, right_for, LspShareClient, MountOp};
use crate::text::{str_eq, text_of};
use crate::wsp_client::{DirEntry, StatResp};

verus! {

/// A mounted file system.
#[derive(Debug)]
pub struct LanShareFuse {
    pub table: InodeTable,
    pub files: OpenFiles,
    /// The files that are being stored at the moment.
    pub pending_writes: usize,
}

/// The path that an inode stands for.
pub open spec fn path_at(t: TableView, ino: u64) -> Option<Seq<char>> {
    if t.paths.contains_key(ino) {
        Some(t.paths[ino])
    } else {
        None
    }
}

/// The path of an entry in a directory that is known.
pub open spec fn entry_at(t: TableView, parent: u64, name: Seq<char>) -> Option<Seq<char>> {
    match path_at(t, parent) {
        Some(p) => Some(child_of(p, name)),
        None => None,
    }
}

/// The path that a change goes to. The permission is asked for first, then the directory.
pub open spec fn target_of(t: TableView, allowed: bool, parent: u64, name: Seq<char>) -> Result<
    Seq<char>,
    Errno,
> {
    if !allowed {
        Err(Errno::Access)
    } else {
        match entry_at(t, parent, name) {
            Some(p) => Ok(p),
            None => Err(Errno::NoEntry),
        }
    }
}

/// The attributes of an entry by what the server says of it.
pub open spec fn stat_attr(ino: u64, stat: Result<StatResp, String>) -> Result<Attr, Errno> {
    match stat {
        Ok(s) => if s.exists {
            Ok(attr_of(ino, s.is_dir, s.size, seconds_in(s.mtime@)))
        } else {
            Err(Errno::NoEntry)
        },
        Err(_) => Err(Errno::Io),
    }
}

/// A file that was opened with its contents.
pub open spec fn opened_view(plan: OpenPlan, path: Seq<char>, data: Seq<u8>, locked: bool) -> OpenView {
    match plan {
        OpenPlan::Read => OpenView {
            path,
            write_buf: None,
            read_cache: Some(data),
            dirty: false,
            holds_lock: false,
        },
        OpenPlan::Write => OpenView {
            path,
            write_buf: Some(data),
            read_cache: None,
            dirty: false,
            holds_lock: locked,
        },
    }
}

/// What a change of attributes comes to.
#[derive(Debug)]
pub enum SetPlan {
    /// Nothing is changed: the server is asked what it knows of the path.
    Look(String),
    /// The contents at the path are fetched, cut or filled to the size, and stored.
    Truncate(String, u64),
}

pub enum SetView {
    Look(Seq<char>),
    Truncate(Seq<char>, u64),
}

impl View for SetPlan {
    type V = SetView;

    open spec fn view(&self) -> SetView {
        match *self {
            SetPlan::Look(p) => SetView::Look(p@),
            SetPlan::Truncate(p, n) => SetView::Truncate(p@, n),
        }
    }
}

/// What a change of attributes comes to: only a change of the size does anything.
pub open spec fn set_plan(t: TableView, ino: u64, size: Option<u64>, can_write: bool) -> Result<
    SetView,
    Errno,
> {
    match size {
        None => match path_at(t, ino) {
            Some(p) => Ok(SetView::Look(p)),
            None => Err(Errno::NoEntry),
        },
        Some(n) => if !can_write {
            Err(Errno::Access)
        } else if n > MAX_WRITE_BUF_SIZE {
            Err(Errno::NoSpace)
        } else {
            match path_at(t, ino) {
                Some(p) => Ok(SetView::Truncate(p, n)),
                None => Err(Errno::NoEntry),
            }
        },
    }
}

impl LanShareFuse {
    /// Are the paths and the open files in order?
    pub open spec fn wf(&self) -> bool {
        self.table.wf() && self.files.wf()
    }

    /// A file system of which only the root directory is known.
    pub fn new() -> (r: Self)
        ensures
            r.wf(),
            r.table@ == (TableView {
                paths: map![crate::fuse::FUSE_ROOT_ID => "/"@],
                inodes: map!["/"@ => crate::fuse::FUSE_ROOT_ID],
                next_ino: 2,
            }),
            r.files.files@ == Map::<u64, OpenFile>::empty(),
            r.files.next_fh == 1,
            r.pending_writes == 0,
    {
        LanShareFuse { table: InodeTable::new(), files: OpenFiles::new(), pending_writes: 0 }
    }

    /// The path of an entry in a directory that is known.
    pub fn child(&self, parent: u64, name: &str) -> (r: Option<String>)
        ensures
            text_of(r) == entry_at(self.table@, parent, name@),
    {
        match self.table.path_of(parent) {
            Some(p) => Some(child_path(p.as_str(), name)),
            None => None,
        }
    }

    /// The path that a change goes to, if the server has granted the right for it.
    pub fn target(&self, rights: &LspShareClient, op: MountOp, parent: u64, name: &str) -> (r: Result<
        String,
        Errno,
    >)
        ensures
            ({
                let t = target_of(
                    self.table@,
                    granted(rights.permission@, right_for(op)),
                    parent,
                    name@,
                );
                match r {
                    Ok(p) => t == Ok::<Seq<char>, Errno>(p@),
                    Err(e) => t == Err::<Seq<char>, Errno>(e),
                }
            }),
    {
        let path = self.child(parent, name);
        check_change(rights.may(op), path.is_some())?;
        match path {
            Some(p) => Ok(p),
            None => Err(Errno::NoEntry),
        }
    }

    /// Looks up a path. One that exists gets an inode, or keeps the one it has.
    pub fn found(&mut self, path: &str, stat: &Result<StatResp, String>) -> (r: Result<Attr, Errno>)
        requires
            old(self).wf(),
            old(self).table.next_ino < u64::MAX,
        ensures
            final(self).wf(),
            final(self).files == old(self).files,
            final(self).pending_writes == old(self).pending_writes,
            final(self).table@ == if stat matches Ok(s) && s.exists {
                with_path(old(self).table@, path@)
            } else {
                old(self).table@
            },
            r == stat_attr(
                if stat matches Ok(s) && s.exists {
                    with_path(old(self).table@, path@).inodes[path@]
                } else {
                    0
                },
                *stat,
            ),
    {
        let there = match stat {
            Ok(s) => s.exists,
            Err(_) => false,
        };
        let ino: u64 = if there { self.table.get_or_alloc(path) } else { 0 };
        lookup(ino, stat)
    }

    /// The attributes of an inode. The root directory has some even while the server does not
    /// answer.
    pub fn getattr(&self, ino: u64, stat: &Result<StatResp, String>) -> (r: Result<Attr, Errno>)
        ensures
            r == match path_at(self.table@, ino) {
                None => Err::<Attr, Errno>(Errno::NoEntry),
                Some(p) => if p == "/"@ {
                    Ok::<Attr, Errno>(
                        match *stat {
                            Ok(s) => attr_of(ino, true, s.size, seconds_in(s.mtime@)),
                            Err(_) => attr_of(ino, true, 0, 0),
                        },
                    )
                } else {
                    stat_attr(ino, *stat)
                },
            },
    {
        match self.table.path_of(ino) {
            None => Err(Errno::NoEntry),
            Some(p) => {
                if str_eq(p.as_str(), "/") {
                    Ok(root_attr(ino, stat))
                } else {
                    lookup(ino, stat)
                }
            },
        }
    }

    /// Lists a directory. `entries` is what the server says it holds.
    pub fn readdir(&mut self, ino: u64, entries: &Option<Vec<DirEntry>>) -> (r: Result<
        Vec<DirItem>,
        Errno,
    >)
        requires
            old(self).wf(),
            entries matches Some(v) ==> old(self).table.next_ino + v@.len() + 1 <= u64::MAX,
        ensures
            final(self).wf(),
            final(self).files == old(self).files,
            final(self).pending_writes == old(self).pending_writes,
            match path_at(old(self).table@, ino) {
                None => r is Err && r->Err_0 == Errno::NoEntry && final(self).table@ == old(
                    self,
                ).table@,
                Some(p) => match *entries {
                    None => r is Err && r->Err_0 == Errno::Io && final(self).table@ == old(
                        self,
                    ).table@,
                    Some(v) => {
                        let t = with_listed(old(self).table@, p, entry_names(v@));
                        &&& final(self).table@ == t
                        &&& r is Ok
                        &&& listed_items(r->Ok_0@, t, ino, p, v@)
                    },
                },
            },
    {
        match self.table.path_of(ino) {
            None => Err(Errno::NoEntry),
            Some(p) => match entries {
                None => Err(Errno::Io),
                Some(v) => Ok(readdir(&mut self.table, ino, p.as_str(), v)),
            },
        }
    }

    /// Opens a file. `stat` is what the server says of it, `download` its contents, and `locked`
    /// whether the server gave a lock; without the lock the file is opened all the same.
    pub fn open(
        &mut self,
        ino: u64,
        flags: i32,
        rights: &LspShareClient,
        stat: &Option<StatResp>,
        download: Option<Vec<u8>>,
        locked: bool,
    ) -> (r: Result<u64, Errno>)
        requires
            old(self).wf(),
            old(self).files.next_fh < u64::MAX,
        ensures
            final(self).wf(),
            final(self).table == old(self).table,
            final(self).pending_writes == old(self).pending_writes,
            ({
                let path = path_at(old(self).table@, ino);
                let can_write = granted(rights.permission@, "write"@);
                match open_plan(path is Some, flags, can_write, existing_size(*stat)) {
                    Err(e) => r == Err::<u64, Errno>(e) && final(self).files == old(self).files,
                    Ok(plan) => match download {
                        None => r == Err::<u64, Errno>(Errno::Io) && final(self).files == old(
                            self,
                        ).files,
                        Some(d) => {
                            let fh = old(self).files.next_fh;
                            &&& r == Ok::<u64, Errno>(fh)
                            &&& final(self).files.next_fh == fh + 1
                            &&& final(self).files.files@ == old(self).files.files@.insert(
                                fh,
                                final(self).files.files@[fh],
                            )
                            &&& final(self).files.files@[fh]@ == opened_view(
                                plan,
                                path->0,
                                d@,
                                locked,
                            )
                        },
                    },
                }
            }),
    {
        let path = self.table.path_of(ino);
        let plan = open(path.is_some(), flags, rights.may(MountOp::Write), stat)?;
        match (path, download) {
            (Some(p), Some(d)) => Ok(self.files.alloc_fh(OpenFile::opened(plan, p, d, locked))),
            _ => Err(Errno::Io),
        }
    }

    /// Opens a file that is new: empty, and to be stored even so.
    pub fn created(&mut self, path: String, locked: bool) -> (r: (Attr, u64))
        requires
            old(self).wf(),
            old(self).table.next_ino < u64::MAX,
            old(self).files.next_fh < u64::MAX,
        ensures
            final(self).wf(),
            final(self).pending_writes == old(self).pending_writes,
            final(self).table@ == with_path(old(self).table@, path@),
            r.0 == attr_of(final(self).table@.inodes[path@], false, 0, 0),
            r.1 == old(self).files.next_fh,
            final(self).files.next_fh == r.1 + 1,
            final(self).files.files@ == old(self).files.files@.insert(
                r.1,
                final(self).files.files@[r.1],
            ),
            final(self).files.files@[r.1]@ == (OpenView {
                path: path@,
                write_buf: Some(Seq::<u8>::empty()),
                read_cache: None,
                dirty: true,
                holds_lock: locked,
            }),
    {
        let ino: u64 = self.table.get_or_alloc(path.as_str());
        let fh: u64 = self.files.alloc_fh(OpenFile::created(path, locked));
        (new_attr(ino, false, 0), fh)
    }

    /// How many files are being stored at the moment.
    pub fn pending_writes_handle(&self) -> (r: usize)
        ensures
            r == self.pending_writes,
    {
        self.pending_writes
    }

    /// What is to be stored of the file of a handle, if it has been changed; if so, it counts as
    /// being stored.
    pub fn writeback(&mut self, fh: u64) -> (r: Option<(String, Vec<u8>)>)
        requires
            old(self).wf(),
            old(self).pending_writes < usize::MAX,
        ensures
            final(self).wf(),
            final(self).table == old(self).table,
            final(self).files == old(self).files,
            match r {
                Some(p) => old(self).files.files@.contains_key(fh) && to_store(
                    old(self).files.files@[fh]@,
                ) == Some((p.0@, p.1@)) && final(self).pending_writes == old(self).pending_writes
                    + 1,
                None => (!old(self).files.files@.contains_key(fh) || to_store(
                    old(self).files.files@[fh]@,
                ) is None) && final(self).pending_writes == old(self).pending_writes,
            },
    {
        let r = self.files.writeback(fh);
        if r.is_some() {
            self.pending_writes = self.pending_writes + 1;
        }
        r
    }

    /// Takes note of how storing the file of a handle went, and answers. A file that could not be
    /// stored still counts as changed.
    pub fn uploaded(&mut self, fh: u64, stored: bool) -> (r: Result<(), Errno>)
        requires
            old(self).wf(),
            old(self).pending_writes > 0,
        ensures
            final(self).wf(),
            final(self).table == old(self).table,
            final(self).pending_writes == old(self).pending_writes - 1,
            r == if stored {
                Ok::<(), Errno>(())
            } else {
                Err::<(), Errno>(Errno::Io)
            },
            final(self).files.next_fh == old(self).files.next_fh,
            final(self).files.files@.dom() == old(self).files.files@.dom(),
            forall|k: u64|
                k != fh && #[trigger] old(self).files.files@.contains_key(k)
                    ==> final(self).files.files@[k] == old(self).files.files@[k],
            old(self).files.files@.contains_key(fh) ==> final(self).files.files@[fh]@
                == after_upload(old(self).files.files@[fh]@, stored),
    {
        self.files.uploaded(fh, stored);
        self.pending_writes = self.pending_writes - 1;
        if stored {
            Ok(())
        } else {
            Err(Errno::Io)
        }
    }

    /// Takes note of how making a directory went.
    pub fn made_dir(&mut self, path: &str, done: bool) -> (r: Result<Attr, Errno>)
        requires
            old(self).wf(),
            old(self).table.next_ino < u64::MAX,
        ensures
            final(self).wf(),
            final(self).files == old(self).files,
            final(self).pending_writes == old(self).pending_writes,
            if done {
                &&& final(self).table@ == with_path(old(self).table@, path@)
                &&& r == Ok::<Attr, Errno>(
                    attr_of(final(self).table@.inodes[path@], true, 0, 0),
                )
            } else {
                r == Err::<Attr, Errno>(Errno::Io) && final(self).table@ == old(self).table@
            },
    {
        if !done {
            return Err(Errno::Io);
        }
        let ino: u64 = self.table.get_or_alloc(path);
        Ok(new_attr(ino, true, 0))
    }

    /// Takes note of how removing an entry went.
    pub fn removed(&mut self, path: &str, done: bool) -> (r: Result<(), Errno>)
        requires
            old(self).wf(),
        ensures
            final(self).wf(),
            final(self).files == old(self).files,
            final(self).pending_writes == old(self).pending_writes,
            if done {
                r is Ok && final(self).table@ == without_path(old(self).table@, path@)
            } else {
                r == Err::<(), Errno>(Errno::Io) && final(self).table@ == old(self).table@
            },
    {
        if !done {
            return Err(Errno::Io);
        }
        self.table.remove_path(path);
        Ok(())
    }

    /// Takes note of how renaming an entry went.
    pub fn renamed(&mut self, from: &str, to: &str, done: bool) -> (r: Result<(), Errno>)
        requires
            old(self).wf(),
        ensures
            final(self).wf(),
            final(self).files == old(self).files,
            final(self).pending_writes == old(self).pending_writes,
            if done {
                r is Ok && final(self).table@ == with_renamed(old(self).table@, from@, to@)
            } else {
                r == Err::<(), Errno>(Errno::Io) && final(self).table@ == old(self).table@
            },
    {
        if !done {
            return Err(Errno::Io);
        }
        self.table.rename_path(from, to);
        Ok(())
    }

    /// What a change of attributes comes to. A change of the size needs the right to write.
    pub fn setattr(&self, ino: u64, size: Option<u64>, rights: &LspShareClient) -> (r: Result<
        SetPlan,
        Errno,
    >)
        ensures
            ({
                let p = set_plan(self.table@, ino, size, granted(rights.permission@, "write"@));
                match r {
                    Ok(plan) => p == Ok::<SetView, Errno>(plan@),
                    Err(e) => p == Err::<SetView, Errno>(e),
                }
            }),
    {
        match size {
            None => match self.table.path_of(ino) {
                Some(p) => Ok(SetPlan::Look(p)),
                None => Err(Errno::NoEntry),
            },
            Some(n) => {
                check_truncate(rights.may(MountOp::Truncate), n)?;
                match self.table.path_of(ino) {
                    Some(p) => Ok(SetPlan::Truncate(p, n)),
                    None => Err(Errno::NoEntry),
                }
            },
        }
    }
}

/// The entries of a listing: the directory itself, its parent, and what it holds, each under its
/// inode.
pub open spec fn listed_items(
    items: Seq<DirItem>,
    t: TableView,
    ino: u64,
    path: Seq<char>,
    entries: Seq<DirEntry>,
) -> bool {
    &&& items.len() == entries.len() + 2
    &&& items[0].ino == ino && items[0].is_dir && items[0].name@ == "."@
    &&& items[1].is_dir && items[1].name@ == ".."@
    &&& items[1].ino == if path == "/"@ {
        crate::fuse::FUSE_ROOT_ID
    } else {
        t.inodes[crate::fuse::parent_of(path)]
    }
    &&& forall|k: int|
        0 <= k < entries.len() ==> {
            let e = #[trigger] entries[k];
            let item = items[k + 2];
            &&& item.name@ == e.name@
            &&& item.is_dir == e.is_dir
            &&& item.ino == t.inodes[child_of(path, e.name@)]
        }
}

/// An entry that is created, looked up or listed is found under its inode from then on: the path
/// that its inode stands for is the path it was asked for by.
pub proof fn law_inode_leads_back(t: TableView, p: Seq<char>)
    requires
        crate::fuse::table_ok(t),
        t.next_ino < u64::MAX,
    ensures
        path_at(with_path(t, p), with_path(t, p).inodes[p]) == Some(p),
{
}

/// A renamed entry is found under its new path by the inode that it had.
pub proof fn law_renamed_is_found(t: TableView, from: Seq<char>, to: Seq<char>)
    requires
        t.inodes.contains_key(from),
    ensures
        path_at(with_renamed(t, from, to), t.inodes[from]) == Some(to),
{
}

/// A removed entry is not found again.
pub proof fn law_removed_is_gone(t: TableView, p: Seq<char>)
    requires
        t.inodes.contains_key(p),
    ensures
        !without_path(t, p).inodes.contains_key(p),
        path_at(without_path(t, p), t.inodes[p]) is None,
{
}

/// A file that is opened to be written can be written: in either mode that writes, with the
/// permission, if it exists and has at most 512 MB, the open file holds its contents. Bytes that are
/// then written, up to that limit, are what a read sees at their place and what is stored in the
/// end, and the rest of the file is as it was fetched.
pub proof fn law_opened_file_can_be_written(
    flags: i32,
    stat: StatResp,
    path: Seq<char>,
    contents: Seq<u8>,
    locked: bool,
    offset: int,
    bytes: Seq<u8>,
    i: int,
)
    requires
        flags & 3 == 1 || flags & 3 == 2,
        stat.exists,
        stat.size <= 512 * 1024 * 1024,
        0 <= offset,
        0 < bytes.len(),
        offset + bytes.len() <= 512 * 1024 * 1024,
    ensures
        ({
            let plan = open_plan(true, flags, true, existing_size(Some(stat)));
            let f = opened_view(plan->Ok_0, path, contents, locked);
            let g = file_after_write(f, offset, bytes);
            &&& plan is Ok
            &&& f.write_buf == Some(contents) && f.path == path && f.holds_lock == locked
                && !f.dirty
            &&& to_store(f) is None
            &&& g is Ok
            &&& to_store(g->Ok_0) is Some
            &&& (to_store(g->Ok_0)->0).0 == path
            &&& seen(g->Ok_0) == Some((to_store(g->Ok_0)->0).1)
            &&& 0 <= i < bytes.len() ==> (to_store(g->Ok_0)->0).1[offset + i] == bytes[i]
            &&& 0 <= i < contents.len() && !(offset <= i < offset + bytes.len())
                ==> (to_store(g->Ok_0)->0).1[i] == contents[i]
        }),
{
}

/// A file that is opened for reading shows its contents, cannot be written, and is not stored.
pub proof fn law_file_for_reading(
    flags: i32,
    stat: Option<StatResp>,
    path: Seq<char>,
    contents: Seq<u8>,
    locked: bool,
    offset: int,
    bytes: Seq<u8>,
)
    requires
        flags & 3 != 1 && flags & 3 != 2,
    ensures
        ({
            let plan = open_plan(true, flags, true, existing_size(stat));
            let f = opened_view(plan->Ok_0, path, contents, locked);
            &&& plan is Ok
            &&& seen(f) == Some(contents)
            &&& file_after_write(f, offset, bytes) == Err::<OpenView, Errno>(Errno::Access)
            &&& to_store(f) is None
            &&& !f.holds_lock
        }),
{
}

/// A change goes where it is asked to go, and only with the right for it: to the entry of that name
/// in a directory that is known.
pub proof fn law_changes_go_to_their_path(t: TableView, parent: u64, name: Seq<char>, allowed: bool)
    ensures
        !allowed ==> target_of(t, allowed, parent, name) == Err::<Seq<char>, Errno>(Errno::Access),
        allowed && t.paths.contains_key(parent) ==> target_of(t, allowed, parent, name) == Ok::<
            Seq<char>,
            Errno,
        >(child_of(t.paths[parent], name)),
        allowed && !t.paths.contains_key(parent) ==> target_of(t, allowed, parent, name) == Err::<
            Seq<char>,
            Errno,
        >(Errno::NoEntry),
{
}

/// The size of a file is changed to what is asked for, with the permission and up to 512 MB;
/// anything else that is asked for changes nothing, and needs no permission.
pub proof fn law_sizes_are_set(t: TableView, ino: u64, n: u64, can_write: bool)
    requires
        t.paths.contains_key(ino),
    ensures
        set_plan(t, ino, None, can_write) == Ok::<SetView, Errno>(SetView::Look(t.paths[ino])),
        can_write && n <= 512 * 1024 * 1024 ==> set_plan(t, ino, Some(n), can_write) == Ok::<
            SetView,
            Errno,
        >(SetView::Truncate(t.paths[ino], n)),
        !can_write ==> set_plan(t, ino, Some(n), can_write) == Err::<SetView, Errno>(Errno::Access),
        can_write && n > 512 * 1024 * 1024 ==> set_plan(t, ino, Some(n), can_write) == Err::<
            SetView,
            Errno,
        >(Errno::NoSpace),
{
}

/// What is told of an entry is what the server says of it: an entry that exists has the server's
/// size and kind, one that does not is not there, and silence is an error.
pub proof fn law_server_decides_what_exists(ino: u64, stat: Result<StatResp, String>)
    ensures
        stat matches Ok(s) ==> if s.exists {
            stat_attr(ino, stat) matches Ok(a) && a.ino == ino && a.size == s.size && a.is_dir
                == s.is_dir && a.mtime == seconds_in(s.mtime@)
        } else {
            stat_attr(ino, stat) == Err::<Attr, Errno>(Errno::NoEntry)
        },
        stat is Err ==> stat_attr(ino, stat) == Err::<Attr, Errno>(Errno::Io),
{
}

/// A listing holds every entry of the directory under its name, each with the inode of its path.
pub proof fn law_listing_is_complete(
    items: Seq<DirItem>,
    t: TableView,
    ino: u64,
    path: Seq<char>,
    entries: Seq<DirEntry>,
    k: int,
)
    requires
        listed_items(items, t, ino, path, entries),
        0 <= k < entries.len(),
    ensures
        items.len() == entries.len() + 2,
        items[0].ino == ino,
        items[k + 2].name@ == entries[k].name@,
        items[k + 2].is_dir == entries[k].is_dir,
        items[k + 2].ino == t.inodes[child_of(path, entries[k].name@)],
{
    let e = entries[k];
}

} // verus!
