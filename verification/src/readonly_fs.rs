//! The mounted file system for reading only: what it tells of entries, and the files it keeps.
use vstd::prelude::*;
use crate::clock::filetime;
use crate::content::{read_at, sliced};
use crate::text::str_eq;
use crate::utf16::{encode_utf16, utf16_units};
use crate::volume::{can_tell, dot_info, known_entry, DirRecord};
use crate::winfs::{
    file_info, info_of, mtime_seconds, next_use, open_entry, parse_mtime, DirPlan, FileInfo,
    NtStatus, FILE_ATTRIBUTE_DIRECTORY, FILE_ATTRIBUTE_NORMAL,
};
use crate::wsp_client::{DirEntry, StatResp};

verus! {

pub const FILE_ATTRIBUTE_READONLY: u32 = 0x01;

/// How many files are kept.
pub const MAX_KEPT_FILES: usize = 100;

/// What Windows is told of an entry; files are marked as not to be changed.
pub open spec fn readonly_info(is_dir: bool, size: u64, time: u64, index: u64) -> FileInfo {
    FileInfo {
        file_attributes: if is_dir {
            FILE_ATTRIBUTE_DIRECTORY
        } else {
            0x81
        },
        ..info_of(is_dir, size, time, index)
    }
}

fn file_info_of(is_dir: bool, size: u64, time: u64, index: u64) -> (r: FileInfo)
    requires
        size <= 0xFFFF_FFFF_FFFF_FE00,
    ensures
        r == readonly_info(is_dir, size, time, index),
{
    FileInfo {
        file_attributes: if is_dir {
            FILE_ATTRIBUTE_DIRECTORY
        } else {
            FILE_ATTRIBUTE_READONLY + FILE_ATTRIBUTE_NORMAL
        },
        ..file_info(is_dir, size, time, index)
    }
}

/// What Windows is told of an entry that the server described.
pub fn stat_to_fileinfo(stat: &StatResp, index: u64) -> (r: FileInfo)
    requires
        can_tell(stat.size, mtime_seconds(stat.mtime@)),
    ensures
        r == readonly_info(
            stat.is_dir,
            stat.size,
            filetime(mtime_seconds(stat.mtime@) as int) as u64,
            index,
        ),
{
    file_info_of(stat.is_dir, stat.size, parse_mtime(stat.mtime.as_str()), index)
}

/// The attributes of the entry at a path, which must exist.
pub fn attributes_of(path: &str, stat: Option<StatResp>) -> (r: Result<u32, NtStatus>)
    ensures
        r == match known_entry(path@, stat) {
            Some(k) => Ok::<u32, NtStatus>(
                if k.is_dir {
                    FILE_ATTRIBUTE_DIRECTORY
                } else {
                    FILE_ATTRIBUTE_READONLY
                },
            ),
            None => Err::<u32, NtStatus>(NtStatus::NameNotFound),
        },
{
    let s = open_entry(path, stat)?;
    if s.is_dir {
        Ok(FILE_ATTRIBUTE_DIRECTORY)
    } else {
        Ok(FILE_ATTRIBUTE_READONLY)
    }
}

/// A file and its contents.
#[derive(Debug)]
pub struct KeptFile {
    pub path: String,
    pub data: Vec<u8>,
}

/// The files that are kept.
#[derive(Debug)]
pub struct KeptFiles {
    pub items: Vec<KeptFile>,
}

/// The contents by their paths.
pub open spec fn kept_map(v: Seq<KeptFile>) -> Map<Seq<char>, Seq<u8>>
    decreases v.len(),
{
    if v.len() == 0 {
        Map::<Seq<char>, Seq<u8>>::empty()
    } else {
        kept_map(v.drop_last()).insert(v.last().path@, v.last().data@)
    }
}

/// Does every path occur once?
pub open spec fn kept_once(v: Seq<KeptFile>) -> bool {
    forall|i: int, j: int|
        0 <= i < j < v.len() ==> (#[trigger] v[i]).path@ != (#[trigger] v[j]).path@
}

proof fn lemma_kept_has(v: Seq<KeptFile>, i: int)
    requires
        kept_once(v),
        0 <= i < v.len(),
    ensures
        kept_map(v).contains_key(v[i].path@),
        kept_map(v)[v[i].path@] == v[i].data@,
    decreases v.len(),
{
    if i < v.len() - 1 {
        let f = v.drop_last();
        assert forall|a: int, b: int| 0 <= a < b < f.len() implies (#[trigger] f[a]).path@ != (
        #[trigger] f[b]).path@ by {
            assert(v[a].path@ != v[b].path@);
        }
        lemma_kept_has(f, i);
        assert(f[i] == v[i]);
        assert(v[i].path@ != v[v.len() - 1].path@);
    }
}

proof fn lemma_kept_lacks(v: Seq<KeptFile>, p: Seq<char>)
    requires
        forall|i: int| 0 <= i < v.len() ==> (#[trigger] v[i]).path@ != p,
    ensures
        !kept_map(v).contains_key(p),
    decreases v.len(),
{
    if v.len() > 0 {
        let f = v.drop_last();
        assert forall|i: int| 0 <= i < f.len() implies (#[trigger] f[i]).path@ != p by {
            assert(v[i].path@ != p);
        }
        lemma_kept_lacks(f, p);
        assert(v[v.len() - 1].path@ != p);
    }
}

proof fn lemma_kept_remove(v: Seq<KeptFile>, i: int)
    requires
        kept_once(v),
        0 <= i < v.len(),
    ensures
        kept_once(v.remove(i)),
        kept_map(v.remove(i)) == kept_map(v).remove(v[i].path@),
    decreases v.len(),
{
    let w = v.remove(i);
    assert forall|a: int, b: int| 0 <= a < b < w.len() implies (#[trigger] w[a]).path@ != (
    #[trigger] w[b]).path@ by {
        let a0 = if a < i { a } else { a + 1 };
        let b0 = if b < i { b } else { b + 1 };
        assert(v[a0].path@ != v[b0].path@);
    }
    let f = v.drop_last();
    assert forall|a: int, b: int| 0 <= a < b < f.len() implies (#[trigger] f[a]).path@ != (
    #[trigger] f[b]).path@ by {
        assert(v[a].path@ != v[b].path@);
    }
    if i == v.len() - 1 {
        assert(w =~= f);
        assert forall|k: int| 0 <= k < f.len() implies (#[trigger] f[k]).path@ != v[i].path@ by {
            assert(v[k].path@ != v[i].path@);
        }
        lemma_kept_lacks(f, v[i].path@);
        assert(kept_map(w) =~= kept_map(v).remove(v[i].path@));
    } else {
        lemma_kept_remove(f, i);
        assert(w.drop_last() =~= f.remove(i));
        assert(w.last() == v.last());
        assert(v[i].path@ != v[v.len() - 1].path@);
        assert(kept_map(w) =~= kept_map(v).remove(v[i].path@));
    }
}

impl KeptFiles {
    /// What holds of the files: every path occurs once, and there are not too many.
    pub open spec fn wf(&self) -> bool {
        kept_once(self.items@) && self.items@.len() <= MAX_KEPT_FILES
    }

    pub fn new() -> (r: Self)
        ensures
            r.wf(),
            kept_map(r.items@) == Map::<Seq<char>, Seq<u8>>::empty(),
    {
        KeptFiles { items: Vec::new() }
    }

    fn find(&self, path: &str) -> (r: Option<usize>)
        requires
            self.wf(),
        ensures
            match r {
                Some(i) => i < self.items@.len() && self.items@[i as int].path@ == path@
                    && kept_map(self.items@).contains_key(path@) && kept_map(self.items@)[path@]
                    == self.items@[i as int].data@,
                None => !kept_map(self.items@).contains_key(path@) && forall|k: int|
                    0 <= k < self.items@.len() ==> (#[trigger] self.items@[k]).path@ != path@,
            },
    {
        let mut i: usize = 0;
        while i < self.items.len()
            invariant
                self.wf(),
                i <= self.items@.len(),
                forall|k: int| 0 <= k < i ==> (#[trigger] self.items@[k]).path@ != path@,
            decreases self.items@.len() - i,
        {
            if str_eq(self.items[i].path.as_str(), path) {
                proof {
                    lemma_kept_has(self.items@, i as int);
                }
                return Some(i);
            }
            i = i + 1;
        }
        proof {
            lemma_kept_lacks(self.items@, path@);
        }
        None
    }

    /// Bytes of a file that is kept, if it has bytes from the offset on. Nothing comes back where
    /// the file has to be fetched.
    pub fn read_cached(&self, path: &str, offset: u64, len: usize) -> (r: Option<Vec<u8>>)
        requires
            self.wf(),
        ensures
            match r {
                Some(d) => kept_map(self.items@).contains_key(path@) && offset < kept_map(
                    self.items@,
                )[path@].len() && d@ == sliced(
                    kept_map(self.items@)[path@],
                    offset as int,
                    len as int,
                ),
                None => !kept_map(self.items@).contains_key(path@) || offset >= kept_map(
                    self.items@,
                )[path@].len(),
            },
    {
        match self.find(path) {
            Some(i) => {
                if offset < self.items[i].data.len() as u64 {
                    Some(read_at(&self.items[i].data, offset, len))
                } else {
                    None
                }
            },
            None => None,
        }
    }

    /// Keeps the contents of a file that was fetched. Where there are too many, all others go.
    pub fn store(&mut self, path: String, data: Vec<u8>)
        requires
            old(self).wf(),
        ensures
            final(self).wf(),
            kept_map(final(self).items@) == (if old(self).items@.len() >= MAX_KEPT_FILES {
                Map::<Seq<char>, Seq<u8>>::empty()
            } else {
                kept_map(old(self).items@)
            }).insert(path@, data@),
    {
        if self.items.len() >= MAX_KEPT_FILES {
            self.items = Vec::new();
        }
        let ghost base = kept_map(self.items@);
        match self.find(path.as_str()) {
            Some(i) => {
                proof {
                    lemma_kept_remove(self.items@, i as int);
                    let w = self.items@.remove(i as int);
                    let v = self.items@;
                    assert forall|k: int| 0 <= k < w.len() implies (#[trigger] w[k]).path@ != path@ by {
                        let k0 = if k < i { k } else { k + 1 };
                        assert(w[k] == v[k0]);
                        if k0 < i {
                            assert(v[k0].path@ != v[i as int].path@);
                        } else {
                            assert(v[i as int].path@ != v[k0].path@);
                        }
                    }
                }
                self.items.remove(i);
            },
            None => {},
        }
        let ghost before = self.items@;
        self.items.push(KeptFile { path, data });
        proof {
            assert(self.items@.drop_last() =~= before);
            assert(kept_map(self.items@) =~= base.insert(path@, data@));
        }
    }
}

/// An open entry.
#[derive(Debug, Clone)]
pub struct LanShareHandle {
    pub path: String,
    pub is_dir: bool,
    pub size: u64,
    pub mtime: u64,
}

/// A volume for reading only.
#[derive(Debug)]
pub struct LanShareFs {
    pub files: KeptFiles,
    /// The number that the next entry is given.
    pub next_index: u64,
}

/// What comes of a read.
#[derive(Debug)]
pub enum ReadStep {
    /// The bytes are here.
    Bytes(Vec<u8>),
    /// The file has to be fetched.
    Fetch,
    Fail(NtStatus),
}

impl LanShareFs {
    /// Are the files that are kept in order?
    pub open spec fn wf(&self) -> bool {
        self.files.wf()
    }

    /// A volume of which nothing is known yet.
    pub fn new() -> (r: Self)
        ensures
            r.wf(),
            kept_map(r.files.items@) == Map::<Seq<char>, Seq<u8>>::empty(),
            r.next_index == 1,
    {
        LanShareFs { files: KeptFiles::new(), next_index: 1 }
    }

    /// The next number of an entry.
    pub fn next_index_number(&mut self) -> (r: u64)
        ensures
            r == old(self).next_index,
            *final(self) == (LanShareFs { next_index: next_use(old(self).next_index), ..*old(self) }),
    {
        let n: u64 = self.next_index;
        self.next_index = if n == u64::MAX { 0 } else { n + 1 };
        n
    }

    /// Opens an entry, which must exist.
    pub fn open(&mut self, path: String, stat: Option<StatResp>) -> (r: Result<
        (LanShareHandle, FileInfo),
        NtStatus,
    >)
        requires
            known_entry(path@, stat) matches Some(k) ==> can_tell(k.size, k.secs),
        ensures
            match known_entry(path@, stat) {
                None => *final(self) == *old(self) && r == Err::<(LanShareHandle, FileInfo), NtStatus>(
                    NtStatus::NameNotFound,
                ),
                Some(k) => {
                    &&& *final(self) == (LanShareFs {
                        next_index: next_use(old(self).next_index),
                        ..*old(self)
                    })
                    &&& r is Ok
                    &&& (r->Ok_0).0.path@ == path@
                    &&& (r->Ok_0).0.is_dir == k.is_dir
                    &&& (r->Ok_0).0.size == k.size
                    &&& (r->Ok_0).0.mtime == filetime(k.secs as int)
                    &&& (r->Ok_0).1 == readonly_info(
                        k.is_dir,
                        k.size,
                        filetime(k.secs as int) as u64,
                        old(self).next_index,
                    )
                },
            },
    {
        let s = open_entry(path.as_str(), stat)?;
        proof {
            crate::volume::lemma_zero_seconds();
        }
        let mtime: u64 = parse_mtime(s.mtime.as_str());
        let index: u64 = self.next_index_number();
        let info = file_info_of(s.is_dir, s.size, mtime, index);
        Ok((LanShareHandle { path, is_dir: s.is_dir, size: s.size, mtime }, info))
    }

    /// What Windows is told of an open entry.
    pub fn get_file_info(&mut self, h: &LanShareHandle) -> (r: FileInfo)
        requires
            h.size <= 0xFFFF_FFFF_FFFF_FE00,
        ensures
            *final(self) == (LanShareFs { next_index: next_use(old(self).next_index), ..*old(self) }),
            r == readonly_info(h.is_dir, h.size, h.mtime, old(self).next_index),
    {
        let index: u64 = self.next_index_number();
        file_info_of(h.is_dir, h.size, h.mtime, index)
    }

    /// What comes of a read: a directory cannot be read, behind the end there is nothing, and a
    /// file that is kept need not be fetched.
    pub fn read(&self, h: &LanShareHandle, offset: u64, len: usize) -> (r: ReadStep)
        requires
            self.wf(),
        ensures
            if h.is_dir {
                r == ReadStep::Fail(NtStatus::AccessDenied)
            } else if offset >= h.size {
                r == ReadStep::Fail(NtStatus::EndOfFile)
            } else {
                let kept = kept_map(self.files.items@);
                if kept.contains_key(h.path@) && offset < kept[h.path@].len() {
                    r matches ReadStep::Bytes(d) && d@ == sliced(
                        kept[h.path@],
                        offset as int,
                        len as int,
                    )
                } else {
                    r is Fetch
                }
            },
    {
        if h.is_dir {
            return ReadStep::Fail(NtStatus::AccessDenied);
        }
        if offset >= h.size {
            return ReadStep::Fail(NtStatus::EndOfFile);
        }
        match self.files.read_cached(h.path.as_str(), offset, len) {
            Some(d) => ReadStep::Bytes(d),
            None => ReadStep::Fetch,
        }
    }

    /// Reads from a file that was fetched, and keeps it.
    pub fn read_fetched(&mut self, path: String, data: Vec<u8>, offset: u64, len: usize) -> (r: Vec<
        u8,
    >)
        requires
            old(self).wf(),
        ensures
            final(self).wf(),
            final(self).next_index == old(self).next_index,
            r@ == sliced(data@, offset as int, len as int),
            kept_map(final(self).files.items@) == (if old(self).files.items@.len()
                >= MAX_KEPT_FILES {
                Map::<Seq<char>, Seq<u8>>::empty()
            } else {
                kept_map(old(self).files.items@)
            }).insert(path@, data@),
    {
        let out = read_at(&data, offset, len);
        self.files.store(path, data);
        out
    }

    /// The next entry of a listing, and the plan behind it.
    pub fn next_record(&mut self, plan: &mut DirPlan, entries: &Vec<DirEntry>, now: u64) -> (r: Option<
        DirRecord,
    >)
        requires
            !old(plan).dot && !old(plan).dotdot && old(plan).start < entries@.len() ==> can_tell(
                entries@[old(plan).start as int].size,
                mtime_seconds(entries@[old(plan).start as int].mtime@),
            ),
        ensures
            if old(plan).dot {
                &&& r matches Some(e) && e.name@ == utf16_units("."@) && e.info == dot_info(now)
                &&& *final(plan) == (DirPlan { dot: false, ..*old(plan) })
                &&& *final(self) == *old(self)
            } else if old(plan).dotdot {
                &&& r matches Some(e) && e.name@ == utf16_units(".."@) && e.info == dot_info(now)
                &&& *final(plan) == (DirPlan { dotdot: false, ..*old(plan) })
                &&& *final(self) == *old(self)
            } else if old(plan).start < entries@.len() {
                let e = entries@[old(plan).start as int];
                &&& r matches Some(d) && d.name@ == utf16_units(e.name@) && d.info == readonly_info(
                    e.is_dir,
                    e.size,
                    filetime(mtime_seconds(e.mtime@) as int) as u64,
                    old(self).next_index,
                )
                &&& *final(plan) == (DirPlan { start: (old(plan).start + 1) as usize, ..*old(plan) })
                &&& *final(self) == (LanShareFs {
                    next_index: next_use(old(self).next_index),
                    ..*old(self)
                })
            } else {
                r is None && *final(plan) == *old(plan) && *final(self) == *old(self)
            },
    {
        if plan.dot {
            plan.dot = false;
            return Some(DirRecord { name: encode_utf16("."), info: file_info_of(true, 0, now, 0) });
        }
        if plan.dotdot {
            plan.dotdot = false;
            return Some(DirRecord { name: encode_utf16(".."), info: file_info_of(true, 0, now, 0) });
        }
        if plan.start >= entries.len() {
            return None;
        }
        let e = &entries[plan.start];
        let time: u64 = parse_mtime(e.mtime.as_str());
        let index: u64 = self.next_index_number();
        plan.start = plan.start + 1;
        Some(
            DirRecord {
                name: encode_utf16(e.name.as_str()),
                info: file_info_of(e.is_dir, e.size, time, index),
            },
        )
    }
}

/// On a volume for reading, files are marked as such and directories are not; everything else is told
/// as it is known.
pub proof fn law_files_are_marked_readonly(is_dir: bool, size: u64, time: u64, index: u64)
    ensures
        ({
            let f = readonly_info(is_dir, size, time, index);
            &&& is_dir ==> f.file_attributes == 0x10
            &&& !is_dir ==> f.file_attributes == 0x81
            &&& f.file_size == size && f.time == time && f.index_number == index
        }),
{
}

/// The files that are kept are found under their paths, the last one that was kept under a path
/// being the one that counts.
pub proof fn law_kept_under_their_paths(v: Seq<KeptFile>, f: KeptFile, other: Seq<char>)
    requires
        other != f.path@,
    ensures
        kept_map(v.push(f)).contains_key(f.path@),
        kept_map(v.push(f))[f.path@] == f.data@,
        kept_map(v.push(f)).contains_key(other) <==> kept_map(v).contains_key(other),
        kept_map(v).contains_key(other) ==> kept_map(v.push(f))[other] == kept_map(v)[other],
{
    assert(v.push(f).drop_last() =~= v);
}

} // verus!
