//! The mounted file system on Windows: its caches, its open files, and what each operation does.
use vstd::prelude::*;
use crate::clock::{filetime, unix_to_filetime, MAX_FILETIME_SECS};
use crate::content::{read_at, resize, resized, sliced, write_at, written};
use crate::fuse::MAX_WRITE_BUF_SIZE;
use crate::lsp_client::{granted, LspShareClient, MountOp};
use crate::mime::{behind_last, last_of};
use crate::text::{
    chars_of, number_in, parse_number, replace_char, replaced, str_eq, string_of, strip_trailing,
    text_of, trim_end_of,
};
use crate::utf16::{decode_utf16, utf16_text};
use crate::wsp_client::{DirEntry, StatResp};

verus! {

/// The option of a new entry that makes it a directory.
pub const FILE_DIRECTORY_FILE: u32 = 1;

/// The access right to write.
pub const FILE_WRITE_DATA: u32 = 2;

/// The access right to append.
pub const FILE_APPEND_DATA: u32 = 4;

/// The flag with which a closed file is deleted.
pub const FSP_CLEANUP_DELETE: u32 = 1;

/// How long the listing of a directory is kept, in seconds.
pub const DIR_CACHE_TTL_SECS: u64 = 5;

/// The most bytes that are kept of all files together, 64 MB.
pub const FILE_CACHE_MAX_BYTES: usize = 67108864;

/// The largest file that is kept, 16 MB.
pub const FILE_CACHE_MAX_FILE: usize = 16777216;

pub const FILE_ATTRIBUTE_DIRECTORY: u32 = 0x10;

pub const FILE_ATTRIBUTE_NORMAL: u32 = 0x80;

/// Why an operation fails.
#[derive(Debug, Clone, Copy, PartialEq, Eq, Structural)]
pub enum NtStatus {
    AccessDenied,
    EndOfFile,
    NameNotFound,
    PathNotFound,
    DirectoryNotEmpty,
}

/// The remote path of a name that Windows gives: UTF-16 with backslashes.
pub fn to_wsp_path(file_name: &[u16]) -> (r: String)
    ensures
        r@ == replaced(utf16_text(file_name@), '\\', '/'),
{
    let s = decode_utf16(file_name);
    replace_char(s.as_str(), '\\', '/')
}

/// The seconds in a time text; none are zero.
pub open spec fn mtime_seconds(mtime: Seq<char>) -> nat {
    match number_in(mtime, u64::MAX as nat) {
        Some(n) => n,
        None => 0,
    }
}

/// A time text as Windows counts.
pub fn parse_mtime(mtime: &str) -> (r: u64)
    requires
        mtime_seconds(mtime@) <= MAX_FILETIME_SECS,
    ensures
        r == filetime(mtime_seconds(mtime@) as int),
{
    let secs: u64 = match parse_number(mtime, 0xFFFF_FFFF_FFFF_FFFF) {
        Some(n) => n,
        None => 0,
    };
    unix_to_filetime(secs)
}

/// The space that a size takes on a disk with sectors of 512 bytes.
pub open spec fn allocated(size: int) -> int {
    (size + 511) / 512 * 512
}

/// The space that a size takes on a disk.
pub fn allocation_size(size: u64) -> (r: u64)
    requires
        size <= 0xFFFF_FFFF_FFFF_FE00,
    ensures
        r == allocated(size as int),
        size <= r < size + 512,
{
    (size + 511) / 512 * 512
}

/// What Windows is told of an entry; the four times are one.
#[derive(Debug, Clone, Copy, PartialEq, Eq, Structural)]
pub struct FileInfo {
    pub file_attributes: u32,
    pub allocation_size: u64,
    pub file_size: u64,
    pub time: u64,
    pub index_number: u64,
}

/// What Windows is told of an entry.
pub open spec fn info_of(is_dir: bool, size: u64, time: u64, index: u64) -> FileInfo {
    FileInfo {
        file_attributes: if is_dir {
            FILE_ATTRIBUTE_DIRECTORY
        } else {
            FILE_ATTRIBUTE_NORMAL
        },
        allocation_size: if is_dir {
            0
        } else {
            allocated(size as int) as u64
        },
        file_size: size,
        time,
        index_number: index,
    }
}

/// What Windows is told of an entry, by its size and its time.
pub fn file_info(is_dir: bool, size: u64, time: u64, index: u64) -> (r: FileInfo)
    requires
        size <= 0xFFFF_FFFF_FFFF_FE00,
    ensures
        r == info_of(is_dir, size, time, index),
{
    FileInfo {
        file_attributes: if is_dir { FILE_ATTRIBUTE_DIRECTORY } else { FILE_ATTRIBUTE_NORMAL },
        allocation_size: if is_dir { 0 } else { allocation_size(size) },
        file_size: size,
        time,
        index_number: index,
    }
}

/// What Windows is told of an entry that the server described.
pub fn stat_to_fileinfo(stat: &StatResp, index: u64) -> (r: FileInfo)
    requires
        stat.size <= 0xFFFF_FFFF_FFFF_FE00,
        mtime_seconds(stat.mtime@) <= MAX_FILETIME_SECS,
    ensures
        r == info_of(
            stat.is_dir,
            stat.size,
            filetime(mtime_seconds(stat.mtime@) as int) as u64,
            index,
        ),
{
    file_info(stat.is_dir, stat.size, parse_mtime(stat.mtime.as_str()), index)
}

/// The directory that a path lies in, slashes at its end aside; that of the root is the root.
pub open spec fn parent_in(path: Seq<char>) -> Seq<char> {
    let p = trim_end_of(path, '/');
    let i = last_of(p, '/');
    if i <= 0 {
        "/"@
    } else {
        p.take(i)
    }
}

/// The directory that a path lies in.
pub fn parent_dir(path: &str) -> (r: String)
    ensures
        r@ == parent_in(path@),
{
    let p = strip_trailing(path, '/');
    let v = chars_of(p.as_str());
    let i: usize = behind_last(&v, '/');
    if i <= 1 {
        return "/".to_owned();
    }
    proof {
        assert(v@.subrange(0, i - 1) =~= v@.take(i - 1));
    }
    string_of(v.as_slice(), 0, i - 1)
}

/// The listing of a directory, and when it was made.
#[derive(Debug)]
pub struct DirCacheEntry {
    pub path: String,
    pub entries: Vec<DirEntry>,
    pub cached_at: u64,
}

/// The listings that are kept.
#[derive(Debug)]
pub struct DirCache {
    pub items: Vec<DirCacheEntry>,
}

pub struct DirItemView {
    pub path: Seq<char>,
    pub entries: Seq<DirEntry>,
    pub cached_at: u64,
}

impl View for DirCacheEntry {
    type V = DirItemView;

    open spec fn view(&self) -> DirItemView {
        DirItemView { path: self.path@, entries: self.entries@, cached_at: self.cached_at }
    }
}

/// The views of the listings.
pub open spec fn dir_views(v: Seq<DirCacheEntry>) -> Seq<DirItemView> {
    v.map_values(|e: DirCacheEntry| e@)
}

/// Is a listing made at one time still good at another?
pub open spec fn fresh(cached_at: u64, now: u64) -> bool {
    cached_at <= now && now - cached_at < DIR_CACHE_TTL_SECS
}

fn is_fresh(cached_at: u64, now: u64) -> (r: bool)
    ensures
        r == fresh(cached_at, now),
{
    cached_at <= now && now - cached_at < DIR_CACHE_TTL_SECS
}

/// The listings of other directories than `path`; of those, with a time, only the ones that are
/// still good then.
pub open spec fn kept_dirs(v: Seq<DirItemView>, path: Seq<char>, now: Option<u64>) -> Seq<
    DirItemView,
>
    decreases v.len(),
{
    if v.len() == 0 {
        v
    } else if v.last().path != path && (now is Some ==> fresh(v.last().cached_at, now->0)) {
        kept_dirs(v.drop_last(), path, now).push(v.last())
    } else {
        kept_dirs(v.drop_last(), path, now)
    }
}

/// Is there one listing of a directory at most?
pub open spec fn dirs_once(v: Seq<DirItemView>) -> bool {
    forall|i: int, j: int| 0 <= i < j < v.len() ==> (#[trigger] v[i]).path != (#[trigger] v[j]).path
}

impl DirCache {
    pub fn new() -> (r: Self)
        ensures
            dir_views(r.items@) == Seq::<DirItemView>::empty(),
            dirs_once(dir_views(r.items@)),
    {
        let r = DirCache { items: Vec::new() };
        proof {
            assert(dir_views(r.items@) =~= Seq::<DirItemView>::empty());
        }
        r
    }

    /// The place of a listing of the directory that is still good, if there is one.
    pub fn list_dir_cached(&self, path: &str, now: u64) -> (r: Option<usize>)
        ensures
            match r {
                Some(i) => i < self.items@.len() && self.items@[i as int].path@ == path@ && fresh(
                    self.items@[i as int].cached_at,
                    now,
                ),
                None => forall|k: int|
                    0 <= k < self.items@.len() && (#[trigger] self.items@[k]).path@ == path@
                        ==> !fresh(self.items@[k].cached_at, now),
            },
    {
        let mut i: usize = 0;
        while i < self.items.len()
            invariant
                i <= self.items@.len(),
                forall|k: int|
                    0 <= k < i && (#[trigger] self.items@[k]).path@ == path@ ==> !fresh(
                        self.items@[k].cached_at,
                        now,
                    ),
            decreases self.items@.len() - i,
        {
            if str_eq(self.items[i].path.as_str(), path) && is_fresh(self.items[i].cached_at, now) {
                return Some(i);
            }
            i = i + 1;
        }
        None
    }

    fn retain(&mut self, path: &str, now: Option<u64>)
        ensures
            dir_views(final(self).items@) == kept_dirs(dir_views(old(self).items@), path@, now),
    {
        let ghost all = dir_views(self.items@);
        let ghost mut done: int = 0;
        let mut i: usize = 0;
        proof {
            assert(all.take(0) =~= Seq::<DirItemView>::empty());
            assert(dir_views(self.items@) =~= kept_dirs(all.take(0), path@, now) + all.skip(0));
        }
        while i < self.items.len()
            invariant
                0 <= done <= all.len(),
                i == kept_dirs(all.take(done), path@, now).len(),
                i + all.len() - done == self.items@.len(),
                dir_views(self.items@) == kept_dirs(all.take(done), path@, now) + all.skip(done),
            decreases all.len() - done,
        {
            let ghost kept = kept_dirs(all.take(done), path@, now);
            proof {
                assert(all.take(done + 1).drop_last() =~= all.take(done));
                assert(dir_views(self.items@)[i as int] == self.items@[i as int]@);
                assert((kept + all.skip(done))[i as int] == all[done]);
                assert(all.take(done + 1).last() == all[done]);
            }
            let good = match now {
                Some(t) => is_fresh(self.items[i].cached_at, t),
                None => true,
            };
            if good && !str_eq(self.items[i].path.as_str(), path) {
                proof {
                    assert(kept.push(all[done]) + all.skip(done + 1) =~= kept + all.skip(done));
                }
                i = i + 1;
            } else {
                let ghost before = self.items@;
                self.items.remove(i);
                proof {
                    assert(dir_views(self.items@) =~= dir_views(before).remove(i as int));
                    assert((kept + all.skip(done)).remove(i as int) =~= kept + all.skip(done + 1));
                }
            }
            proof {
                done = done + 1;
            }
        }
        proof {
            assert(all.take(done) =~= all);
            assert(all.skip(done) =~= Seq::<DirItemView>::empty());
            assert(dir_views(self.items@) =~= kept_dirs(all, path@, now));
        }
    }

    /// Keeps a listing that was just made, in place of an older one. Those that are no longer good
    /// go.
    pub fn store(&mut self, path: String, entries: Vec<DirEntry>, now: u64)
        ensures
            dir_views(final(self).items@) == kept_dirs(
                dir_views(old(self).items@),
                path@,
                Some(now),
            ).push(DirItemView { path: path@, entries: entries@, cached_at: now }),
    {
        self.retain(path.as_str(), Some(now));
        let ghost before = dir_views(self.items@);
        self.items.push(DirCacheEntry { path, entries, cached_at: now });
        proof {
            assert(dir_views(self.items@) =~= before.push(
                DirItemView { path: path@, entries: entries@, cached_at: now },
            ));
        }
    }

    /// Forgets the listing of a directory.
    pub fn invalidate_dir(&mut self, path: &str)
        ensures
            dir_views(final(self).items@) == kept_dirs(dir_views(old(self).items@), path@, None),
    {
        self.retain(path, None);
    }

    /// Forgets the listing of the directory that a path lies in.
    pub fn invalidate_dir_parent(&mut self, path: &str)
        ensures
            dir_views(final(self).items@) == kept_dirs(
                dir_views(old(self).items@),
                parent_in(path@),
                None,
            ),
    {
        let parent = parent_dir(path);
        self.retain(parent.as_str(), None);
    }
}

/// A listing that is left is one of those before, and not that of `path`.
proof fn lemma_kept_dirs(v: Seq<DirItemView>, path: Seq<char>, now: Option<u64>, i: int)
    requires
        0 <= i < kept_dirs(v, path, now).len(),
    ensures
        v.contains(kept_dirs(v, path, now)[i]),
        kept_dirs(v, path, now)[i].path != path,
        now is Some ==> fresh(kept_dirs(v, path, now)[i].cached_at, now->0),
    decreases v.len(),
{
    let front = v.drop_last();
    let kf = kept_dirs(front, path, now);
    if i < kf.len() {
        lemma_kept_dirs(front, path, now, i);
        let k = choose|k: int| 0 <= k < front.len() && front[k] == kf[i];
        assert(v[k] == kf[i]);
    } else {
        assert(v[v.len() - 1] == v.last());
    }
}

/// Whatever is kept, forgotten or replaced, there is one listing of a directory at most.
pub proof fn law_one_listing_of_a_directory(
    v: Seq<DirItemView>,
    path: Seq<char>,
    now: Option<u64>,
    item: DirItemView,
)
    requires
        dirs_once(v),
        item.path == path,
    ensures
        dirs_once(kept_dirs(v, path, now)),
        dirs_once(kept_dirs(v, path, now).push(item)),
    decreases v.len(),
{
    let k = kept_dirs(v, path, now);
    if v.len() > 0 {
        let front = v.drop_last();
        assert forall|i: int, j: int| 0 <= i < j < front.len() implies (#[trigger] front[i]).path
            != (#[trigger] front[j]).path by {
            assert(v[i].path != v[j].path);
        }
        law_one_listing_of_a_directory(front, path, now, item);
        let kf = kept_dirs(front, path, now);
        assert forall|i: int, j: int| 0 <= i < j < k.len() implies (#[trigger] k[i]).path != (
        #[trigger] k[j]).path by {
            if j < kf.len() {
                assert(kf[i].path != kf[j].path);
            } else {
                lemma_kept_dirs(front, path, now, i);
                let n = choose|n: int| 0 <= n < front.len() && front[n] == kf[i];
                assert(v[n].path != v[v.len() - 1].path);
            }
        }
    }
    let w = k.push(item);
    assert forall|i: int, j: int| 0 <= i < j < w.len() implies (#[trigger] w[i]).path != (
    #[trigger] w[j]).path by {
        if j < k.len() {
            assert(k[i].path != k[j].path);
        } else {
            lemma_kept_dirs(v, path, now, i);
        }
    }
}

/// After a listing was forgotten, none of that directory is left; and no listing that is kept is
/// older than the limit.
pub proof fn law_forgotten_is_gone(v: Seq<DirItemView>, path: Seq<char>, now: Option<u64>, i: int)
    requires
        0 <= i < kept_dirs(v, path, now).len(),
    ensures
        kept_dirs(v, path, now)[i].path != path,
        now is Some ==> fresh(kept_dirs(v, path, now)[i].cached_at, now->0),
{
    lemma_kept_dirs(v, path, now, i);
}

/// The contents of a file, and when they were last used.
#[derive(Debug)]
pub struct FileCacheEntry {
    pub path: String,
    pub data: Vec<u8>,
    pub last_access: u64,
}

pub struct FileItemView {
    pub path: Seq<char>,
    pub data: Seq<u8>,
    pub last_access: u64,
}

impl View for FileCacheEntry {
    type V = FileItemView;

    open spec fn view(&self) -> FileItemView {
        FileItemView { path: self.path@, data: self.data@, last_access: self.last_access }
    }
}

/// The files that are kept, and a count of the uses.
#[derive(Debug)]
pub struct FileCache {
    pub items: Vec<FileCacheEntry>,
    pub seq: u64,
}

pub open spec fn file_item_views(v: Seq<FileCacheEntry>) -> Seq<FileItemView> {
    v.map_values(|e: FileCacheEntry| e@)
}

/// The bytes of all files together.
pub open spec fn total_bytes(v: Seq<FileItemView>) -> nat
    decreases v.len(),
{
    if v.len() == 0 {
        0
    } else {
        total_bytes(v.drop_last()) + v.last().data.len()
    }
}

/// The place of the file that was not used for the longest time; of several, the first.
pub open spec fn oldest(v: Seq<FileItemView>) -> int
    decreases v.len(),
{
    if v.len() <= 1 {
        0
    } else {
        let k = oldest(v.drop_last());
        if v.last().last_access < v[k].last_access {
            v.len() - 1
        } else {
            k
        }
    }
}

proof fn lemma_oldest(v: Seq<FileItemView>)
    requires
        v.len() > 0,
    ensures
        0 <= oldest(v) < v.len(),
        forall|i: int| 0 <= i < v.len() ==> v[oldest(v)].last_access <= (#[trigger] v[i]).last_access,
    decreases v.len(),
{
    if v.len() > 1 {
        let f = v.drop_last();
        lemma_oldest(f);
        assert forall|i: int| 0 <= i < v.len() implies v[oldest(v)].last_access <= (
        #[trigger] v[i]).last_access by {
            if i < f.len() {
                assert(f[i] == v[i]);
                assert(f[oldest(f)] == v[oldest(f)]);
            }
        }
    }
}

/// The files that are left when room is made for `need` more bytes: the oldest go first, until
/// there is room or nothing is left.
pub open spec fn evicted(v: Seq<FileItemView>, need: nat) -> Seq<FileItemView>
    decreases v.len(),
{
    if v.len() == 0 || total_bytes(v) + need <= FILE_CACHE_MAX_BYTES || !(0 <= oldest(v)
        < v.len()) {
        v
    } else {
        evicted(v.remove(oldest(v)), need)
    }
}

/// The files other than `path`.
pub open spec fn other_files(v: Seq<FileItemView>, path: Seq<char>) -> Seq<FileItemView>
    decreases v.len(),
{
    if v.len() == 0 {
        v
    } else if v.last().path != path {
        other_files(v.drop_last(), path).push(v.last())
    } else {
        other_files(v.drop_last(), path)
    }
}

proof fn lemma_total_remove(v: Seq<FileItemView>, i: int)
    requires
        0 <= i < v.len(),
    ensures
        total_bytes(v.remove(i)) + v[i].data.len() == total_bytes(v),
    decreases v.len(),
{
    if i == v.len() - 1 {
        assert(v.remove(i) =~= v.drop_last());
    } else {
        lemma_total_remove(v.drop_last(), i);
        assert(v.remove(i).drop_last() =~= v.drop_last().remove(i));
        assert(v.remove(i).last() == v.last());
    }
}

proof fn lemma_total_others(v: Seq<FileItemView>, path: Seq<char>)
    ensures
        total_bytes(other_files(v, path)) <= total_bytes(v),
    decreases v.len(),
{
    if v.len() > 0 {
        lemma_total_others(v.drop_last(), path);
        if v.last().path != path {
            let o = other_files(v.drop_last(), path);
            assert(o.push(v.last()).drop_last() =~= o);
        }
    }
}

proof fn lemma_evicted(v: Seq<FileItemView>, need: nat)
    ensures
        evicted(v, need).len() == 0 || total_bytes(evicted(v, need)) + need
            <= FILE_CACHE_MAX_BYTES,
        total_bytes(evicted(v, need)) <= total_bytes(v),
    decreases v.len(),
{
    if v.len() == 0 || total_bytes(v) + need <= FILE_CACHE_MAX_BYTES {
    } else {
        lemma_oldest(v);
        lemma_total_remove(v, oldest(v));
        lemma_evicted(v.remove(oldest(v)), need);
    }
}

/// The files after one more was kept. One that is too large is not.
pub open spec fn stored_files(
    v: Seq<FileItemView>,
    path: Seq<char>,
    data: Seq<u8>,
    seq: u64,
) -> Seq<FileItemView> {
    if data.len() <= FILE_CACHE_MAX_FILE {
        other_files(evicted(v, data.len()), path).push(FileItemView { path, data, last_access: seq })
    } else {
        v
    }
}

/// The cache never holds more than its limit.
pub proof fn law_cache_stays_small(
    v: Seq<FileItemView>,
    path: Seq<char>,
    data: Seq<u8>,
    seq: u64,
)
    requires
        total_bytes(v) <= FILE_CACHE_MAX_BYTES,
    ensures
        total_bytes(stored_files(v, path, data, seq)) <= FILE_CACHE_MAX_BYTES,
{
    if data.len() <= FILE_CACHE_MAX_FILE {
        lemma_evicted(v, data.len());
        let e = evicted(v, data.len());
        let o = other_files(e, path);
        lemma_total_others(e, path);
        let item = FileItemView { path, data, last_access: seq };
        assert(o.push(item).drop_last() =~= o);
        if e.len() == 0 {
            assert(o =~= Seq::<FileItemView>::empty());
        }
    }
}

/// The next number of use, which goes round after the last.
pub open spec fn next_use(seq: u64) -> u64 {
    if seq == u64::MAX {
        0
    } else {
        (seq + 1) as u64
    }
}

impl FileCache {
    /// What holds of the cache: it is within its limit.
    pub open spec fn wf(&self) -> bool {
        total_bytes(file_item_views(self.items@)) <= FILE_CACHE_MAX_BYTES
    }

    pub fn new() -> (r: Self)
        ensures
            r.wf(),
            file_item_views(r.items@) == Seq::<FileItemView>::empty(),
            r.seq == 0,
    {
        let r = FileCache { items: Vec::new(), seq: 0 };
        proof {
            assert(file_item_views(r.items@) =~= Seq::<FileItemView>::empty());
        }
        r
    }

    fn next_cache_seq(&mut self) -> (r: u64)
        ensures
            r == old(self).seq,
            final(self).seq == next_use(old(self).seq),
            final(self).items == old(self).items,
    {
        let n: u64 = self.seq;
        self.seq = if n == 0xFFFF_FFFF_FFFF_FFFF { 0 } else { n + 1 };
        n
    }

    /// The place of a file, if it is kept.
    fn find(&self, path: &str) -> (r: Option<usize>)
        ensures
            match r {
                Some(i) => i < self.items@.len() && i == place_in(
                    file_item_views(self.items@),
                    path@,
                ),
                None => place_in(file_item_views(self.items@), path@) == -1,
            },
    {
        let ghost v = file_item_views(self.items@);
        let mut i: usize = 0;
        proof {
            assert(v.take(0) =~= Seq::<FileItemView>::empty());
        }
        while i < self.items.len()
            invariant
                v == file_item_views(self.items@),
                i <= self.items@.len(),
                place_in(v.take(i as int), path@) == -1,
            decreases self.items@.len() - i,
        {
            proof {
                assert(v.take(i + 1).drop_last() =~= v.take(i as int));
                assert(v.take(i + 1).last() == self.items@[i as int]@);
            }
            if str_eq(self.items[i].path.as_str(), path) {
                proof {
                    lemma_place_take(v, path@, i + 1);
                }
                return Some(i);
            }
            i = i + 1;
        }
        proof {
            assert(v.take(i as int) =~= v);
        }
        None
    }

    /// Bytes of a file that is kept, if it has bytes from the offset on; the file counts as used now
    /// even if it has none. Nothing comes back where the file has to be fetched.
    pub fn read_cached(&mut self, path: &str, offset: u64, len: usize) -> (r: Option<Vec<u8>>)
        requires
            old(self).wf(),
        ensures
            final(self).wf(),
            ({
                let v = file_item_views(old(self).items@);
                let i = place_in(v, path@);
                if i < 0 {
                    r is None && file_item_views(final(self).items@) == v && final(self).seq == old(
                        self).seq
                } else {
                    &&& 0 <= i < v.len()
                    &&& file_item_views(final(self).items@) == v.update(
                        i,
                        FileItemView { last_access: old(self).seq, ..v[i] },
                    )
                    &&& final(self).seq == next_use(old(self).seq)
                    &&& match r {
                        Some(d) => offset < v[i].data.len() && d@ == sliced(
                            v[i].data,
                            offset as int,
                            len as int,
                        ),
                        None => offset >= v[i].data.len(),
                    }
                }
            }),
    {
        match self.find(path) {
            Some(i) => {
                let seq: u64 = self.next_cache_seq();
                let ghost before = self.items@;
                let e = self.items.remove(i);
                let n: usize = e.data.len();
                let r = if offset < n as u64 {
                    Some(read_at(&e.data, offset, len))
                } else {
                    None
                };
                let updated = FileCacheEntry { path: e.path, data: e.data, last_access: seq };
                self.items.insert(i, updated);
                proof {
                    let v = file_item_views(before);
                    let w = file_item_views(self.items@);
                    let item = FileItemView { last_access: seq, ..v[i as int] };
                    assert(w =~= v.update(i as int, item));
                    lemma_total_update(v, i as int, item);
                }
                r
            },
            None => None,
        }
    }

    /// Keeps a file that was fetched, and gives back the bytes that were asked for; none behind its
    /// end.
    pub fn read_fetched(&mut self, path: String, data: Vec<u8>, offset: u64, len: usize) -> (r: Vec<
        u8,
    >)
        requires
            old(self).wf(),
        ensures
            final(self).wf(),
            r@ == sliced(data@, offset as int, len as int),
            file_item_views(final(self).items@) == stored_files(
                file_item_views(old(self).items@),
                path@,
                data@,
                old(self).seq,
            ),
            final(self).seq == if data@.len() <= FILE_CACHE_MAX_FILE {
                next_use(old(self).seq)
            } else {
                old(self).seq
            },
    {
        let r = read_at(&data, offset, len);
        self.store(path, data);
        r
    }

    fn total(&self) -> (r: usize)
        requires
            self.wf(),
        ensures
            r == total_bytes(file_item_views(self.items@)),
    {
        let ghost v = file_item_views(self.items@);
        let mut sum: usize = 0;
        let mut i: usize = 0;
        proof {
            assert(v.take(0) =~= Seq::<FileItemView>::empty());
        }
        while i < self.items.len()
            invariant
                v == file_item_views(self.items@),
                total_bytes(v) <= FILE_CACHE_MAX_BYTES,
                i <= self.items@.len(),
                sum == total_bytes(v.take(i as int)),
            decreases self.items@.len() - i,
        {
            proof {
                assert(v.take(i + 1).drop_last() =~= v.take(i as int));
                lemma_total_take(v, i + 1);
            }
            sum = sum + self.items[i].data.len();
            i = i + 1;
        }
        proof {
            assert(v.take(i as int) =~= v);
        }
        sum
    }

    fn find_oldest(&self) -> (r: usize)
        requires
            self.items@.len() > 0,
        ensures
            r == oldest(file_item_views(self.items@)),
            r < self.items@.len(),
    {
        let ghost v = file_item_views(self.items@);
        let mut best: usize = 0;
        let mut i: usize = 1;
        while i < self.items.len()
            invariant
                v == file_item_views(self.items@),
                1 <= i <= self.items@.len(),
                best < i,
                best == oldest(v.take(i as int)),
            decreases self.items@.len() - i,
        {
            proof {
                assert(v.take(i + 1).drop_last() =~= v.take(i as int));
                assert(v.take(i + 1).last() == self.items@[i as int]@);
                assert(v.take(i + 1)[best as int] == self.items@[best as int]@);
            }
            if self.items[i].last_access < self.items[best].last_access {
                best = i;
            }
            i = i + 1;
        }
        proof {
            assert(v.take(i as int) =~= v);
        }
        best
    }

    fn make_room(&mut self, need: usize)
        requires
            old(self).wf(),
            need <= FILE_CACHE_MAX_FILE,
        ensures
            final(self).wf(),
            final(self).seq == old(self).seq,
            file_item_views(final(self).items@) == evicted(
                file_item_views(old(self).items@),
                need as nat,
            ),
    {
        let ghost all = file_item_views(self.items@);
        let mut total: usize = self.total();
        while total + need > FILE_CACHE_MAX_BYTES && self.items.len() > 0
            invariant
                need <= FILE_CACHE_MAX_FILE,
                self.seq == old(self).seq,
                total == total_bytes(file_item_views(self.items@)),
                total <= FILE_CACHE_MAX_BYTES,
                evicted(file_item_views(self.items@), need as nat) == evicted(all, need as nat),
            decreases self.items@.len(),
        {
            let k: usize = self.find_oldest();
            let ghost v = file_item_views(self.items@);
            let e = self.items.remove(k);
            proof {
                lemma_oldest(v);
                lemma_total_remove(v, k as int);
                assert(file_item_views(self.items@) =~= v.remove(k as int));
            }
            total = total - e.data.len();
        }
    }

    /// Forgets a file.
    pub fn invalidate_file(&mut self, path: &str)
        ensures
            file_item_views(final(self).items@) == other_files(
                file_item_views(old(self).items@),
                path@,
            ),
            final(self).seq == old(self).seq,
            old(self).wf() ==> final(self).wf(),
    {
        let ghost all = file_item_views(self.items@);
        let ghost mut done: int = 0;
        let mut i: usize = 0;
        proof {
            assert(all.take(0) =~= Seq::<FileItemView>::empty());
            assert(file_item_views(self.items@) =~= other_files(all.take(0), path@) + all.skip(0));
        }
        while i < self.items.len()
            invariant
                self.seq == old(self).seq,
                0 <= done <= all.len(),
                i == other_files(all.take(done), path@).len(),
                i + all.len() - done == self.items@.len(),
                file_item_views(self.items@) == other_files(all.take(done), path@) + all.skip(done),
            decreases all.len() - done,
        {
            let ghost kept = other_files(all.take(done), path@);
            proof {
                assert(all.take(done + 1).drop_last() =~= all.take(done));
                assert(file_item_views(self.items@)[i as int] == self.items@[i as int]@);
                assert((kept + all.skip(done))[i as int] == all[done]);
                assert(all.take(done + 1).last() == all[done]);
            }
            if !str_eq(self.items[i].path.as_str(), path) {
                proof {
                    assert(kept.push(all[done]) + all.skip(done + 1) =~= kept + all.skip(done));
                }
                i = i + 1;
            } else {
                let ghost before = self.items@;
                self.items.remove(i);
                proof {
                    assert(file_item_views(self.items@) =~= file_item_views(before).remove(
                        i as int,
                    ));
                    assert((kept + all.skip(done)).remove(i as int) =~= kept + all.skip(done + 1));
                }
            }
            proof {
                done = done + 1;
            }
        }
        proof {
            assert(all.take(done) =~= all);
            assert(all.skip(done) =~= Seq::<FileItemView>::empty());
            assert(file_item_views(self.items@) =~= other_files(all, path@));
            lemma_total_others(all, path@);
        }
    }

    /// Keeps the contents of a file that was fetched. Files that were not used for the longest time
    /// make room for it; one that is too large is not kept at all.
    pub fn store(&mut self, path: String, data: Vec<u8>)
        requires
            old(self).wf(),
        ensures
            final(self).wf(),
            file_item_views(final(self).items@) == stored_files(
                file_item_views(old(self).items@),
                path@,
                data@,
                old(self).seq,
            ),
            final(self).seq == if data@.len() <= FILE_CACHE_MAX_FILE {
                next_use(old(self).seq)
            } else {
                old(self).seq
            },
    {
        proof {
            law_cache_stays_small(file_item_views(self.items@), path@, data@, self.seq);
        }
        if data.len() <= FILE_CACHE_MAX_FILE {
            self.make_room(data.len());
            self.invalidate_file(path.as_str());
            let seq: u64 = self.next_cache_seq();
            let ghost before = file_item_views(self.items@);
            self.items.push(FileCacheEntry { path, data, last_access: seq });
            proof {
                assert(file_item_views(self.items@) =~= before.push(
                    FileItemView { path: path@, data: data@, last_access: seq },
                ));
            }
        }
    }
}

/// The place of the first file of a path; -1 where there is none.
pub open spec fn place_in(v: Seq<FileItemView>, path: Seq<char>) -> int
    decreases v.len(),
{
    if v.len() == 0 {
        -1
    } else {
        let k = place_in(v.drop_last(), path);
        if k >= 0 {
            k
        } else if v.last().path == path {
            v.len() - 1
        } else {
            -1
        }
    }
}

proof fn lemma_place_take(v: Seq<FileItemView>, path: Seq<char>, n: int)
    requires
        0 <= n <= v.len(),
        place_in(v.take(n), path) >= 0,
    ensures
        place_in(v, path) == place_in(v.take(n), path),
    decreases v.len() - n,
{
    if n < v.len() {
        assert(v.take(n + 1).drop_last() =~= v.take(n));
        lemma_place_take(v, path, n + 1);
    } else {
        assert(v.take(n) =~= v);
    }
}

proof fn lemma_place_others(v: Seq<FileItemView>, path: Seq<char>)
    ensures
        place_in(other_files(v, path), path) == -1,
    decreases v.len(),
{
    if v.len() > 0 {
        lemma_place_others(v.drop_last(), path);
        if v.last().path != path {
            let o = other_files(v.drop_last(), path);
            assert(o.push(v.last()).drop_last() =~= o);
        }
    }
}

/// A file that was just kept is found again, with its contents.
pub proof fn law_kept_is_found(v: Seq<FileItemView>, path: Seq<char>, data: Seq<u8>, seq: u64)
    requires
        data.len() <= FILE_CACHE_MAX_FILE,
    ensures
        place_in(stored_files(v, path, data, seq), path) >= 0,
        place_in(stored_files(v, path, data, seq), path) < stored_files(v, path, data, seq).len(),
        stored_files(v, path, data, seq)[place_in(
            stored_files(v, path, data, seq),
            path,
        )].data == data,
{
    let o = other_files(evicted(v, data.len()), path);
    lemma_place_others(evicted(v, data.len()), path);
    let item = FileItemView { path, data, last_access: seq };
    assert(o.push(item).drop_last() =~= o);
}

proof fn lemma_total_take(v: Seq<FileItemView>, k: int)
    requires
        0 <= k <= v.len(),
    ensures
        total_bytes(v.take(k)) <= total_bytes(v),
    decreases v.len() - k,
{
    if k < v.len() {
        assert(v.take(k + 1).drop_last() =~= v.take(k));
        lemma_total_take(v, k + 1);
    } else {
        assert(v.take(k) =~= v);
    }
}

proof fn lemma_total_update(v: Seq<FileItemView>, i: int, item: FileItemView)
    requires
        0 <= i < v.len(),
        item.data.len() == v[i].data.len(),
    ensures
        total_bytes(v.update(i, item)) == total_bytes(v),
    decreases v.len(),
{
    if i < v.len() - 1 {
        lemma_total_update(v.drop_last(), i, item);
        assert(v.update(i, item).drop_last() =~= v.drop_last().update(i, item));
        assert(v.update(i, item).last() == v.last());
    } else {
        assert(v.update(i, item).drop_last() =~= v.drop_last());
    }
}

/// The contents of a file that is open for writing, and whether they have been changed.
#[derive(Debug)]
pub struct WriteBuf {
    pub data: Vec<u8>,
    pub dirty: bool,
}

/// An open file or directory. It can be written if and only if it has contents to be written.
#[derive(Debug)]
pub struct LanShareHandle {
    pub path: String,
    pub is_dir: bool,
    pub size: u64,
    pub mtime: u64,
    pub write_buf: Option<WriteBuf>,
    pub delete_on_close: bool,
    pub holds_lock: bool,
}

/// The contents to be written, and whether they have been changed.
pub open spec fn buffer_of(h: LanShareHandle) -> Option<(Seq<u8>, bool)> {
    match h.write_buf {
        Some(b) => Some((b.data@, b.dirty)),
        None => None,
    }
}

/// Are two handles the same but for the contents to be written?
pub open spec fn same_but_contents(a: LanShareHandle, b: LanShareHandle) -> bool {
    &&& a.path == b.path
    &&& a.is_dir == b.is_dir
    &&& a.size == b.size
    &&& a.mtime == b.mtime
    &&& a.delete_on_close == b.delete_on_close
    &&& a.holds_lock == b.holds_lock
}

/// Does an access right ask for writing?
pub open spec fn asks_write(access: u32) -> bool {
    access & 6 != 0
}

/// Is a file opened for writing? Only with the permission and the access right, and only if it is
/// not too large.
pub fn opens_for_writing(can_write: bool, is_dir: bool, access: u32, size: u64) -> (r: bool)
    ensures
        r == (can_write && !is_dir && asks_write(access) && size <= MAX_WRITE_BUF_SIZE),
{
    can_write && !is_dir && (access & 6) != 0 && size <= MAX_WRITE_BUF_SIZE
}

/// Is the path that of the root directory, which is there without asking the server?
pub fn is_root(path: &str) -> (r: bool)
    ensures
        r == (path@ == "/"@ || path@.len() == 0),
{
    proof {
        reveal_strlit("");
        assert(path@.len() == 0 ==> path@ =~= ""@);
    }
    str_eq(path, "/") || str_eq(path, "")
}

/// What is to be created: a directory or a file.
#[derive(Debug, Clone, Copy, PartialEq, Eq, Structural)]
pub enum NewEntry {
    Directory,
    File,
}

/// What is created, if the server has granted the right for it: a directory needs `mkdir`, a file
/// `write`.
pub fn create(options: u32, rights: &LspShareClient) -> (r: Result<NewEntry, NtStatus>)
    ensures
        r == if options & 1 != 0 {
            if granted(rights.permission@, "mkdir"@) {
                Ok::<NewEntry, NtStatus>(NewEntry::Directory)
            } else {
                Err::<NewEntry, NtStatus>(NtStatus::AccessDenied)
            }
        } else if granted(rights.permission@, "write"@) {
            Ok::<NewEntry, NtStatus>(NewEntry::File)
        } else {
            Err::<NewEntry, NtStatus>(NtStatus::AccessDenied)
        },
{
    if options & 1 != 0 {
        if rights.may(MountOp::MakeDir) {
            Ok(NewEntry::Directory)
        } else {
            Err(NtStatus::AccessDenied)
        }
    } else if rights.may(MountOp::Create) {
        Ok(NewEntry::File)
    } else {
        Err(NtStatus::AccessDenied)
    }
}

/// May an entry be renamed? Only if the server has granted the right for it.
pub fn check_rename(rights: &LspShareClient) -> (r: Result<(), NtStatus>)
    ensures
        r == if granted(rights.permission@, "rename"@) {
            Ok::<(), NtStatus>(())
        } else {
            Err::<(), NtStatus>(NtStatus::AccessDenied)
        },
{
    if rights.may(MountOp::Rename) {
        Ok(())
    } else {
        Err(NtStatus::AccessDenied)
    }
}

/// What comes of a read.
#[derive(Debug)]
pub enum ReadPlan {
    /// The bytes are here.
    Bytes(Vec<u8>),
    /// The bytes are to be taken from the server's copy.
    Remote,
    Fail(NtStatus),
}

/// What comes of a write: how much was written.
pub open spec fn write_offset(buf: Seq<u8>, offset: u64, to_eof: bool) -> int {
    if to_eof {
        buf.len() as int
    } else {
        offset as int
    }
}

/// The part of the bytes that is written: with `constrained` only as much as fits into the file as
/// it is.
pub open spec fn write_part(buf: Seq<u8>, off: int, data: Seq<u8>, constrained: bool) -> Seq<u8> {
    if !constrained {
        data
    } else if off >= buf.len() {
        Seq::<u8>::empty()
    } else if data.len() <= buf.len() - off {
        data
    } else {
        data.take(buf.len() - off)
    }
}

impl LanShareHandle {
    /// The size of the file: that of the contents to be written, if there are any.
    pub fn current_size(&self) -> (r: u64)
        ensures
            r == match buffer_of(*self) {
                Some(b) => b.0.len(),
                None => self.size as nat,
            },
    {
        match &self.write_buf {
            Some(b) => b.data.len() as u64,
            None => self.size,
        }
    }

    /// Empties the contents to be written, if the server has granted the right to write.
    pub fn overwrite(&mut self, rights: &LspShareClient) -> (r: Result<(), NtStatus>)
        ensures
            same_but_contents(*final(self), *old(self)),
            if granted(rights.permission@, "write"@) {
                r is Ok && buffer_of(*final(self)) == match buffer_of(*old(self)) {
                    Some(_) => Some((Seq::<u8>::empty(), true)),
                    None => None,
                }
            } else {
                r == Err::<(), NtStatus>(NtStatus::AccessDenied) && *final(self) == *old(self)
            },
    {
        if !rights.may(MountOp::Overwrite) {
            return Err(NtStatus::AccessDenied);
        }
        if self.write_buf.is_some() {
            self.write_buf = Some(WriteBuf { data: Vec::new(), dirty: true });
        }
        Ok(())
    }

    /// What comes of a read of up to `len` bytes from an offset on: a directory cannot be read, and
    /// behind the end there is nothing. Contents to be written are read before they are stored.
    pub fn read(&self, offset: u64, len: usize) -> (r: ReadPlan)
        ensures
            if self.is_dir {
                r == ReadPlan::Fail(NtStatus::AccessDenied)
            } else {
                match buffer_of(*self) {
                    Some(b) => if offset >= b.0.len() {
                        r == ReadPlan::Fail(NtStatus::EndOfFile)
                    } else {
                        r matches ReadPlan::Bytes(d) && d@ == sliced(
                            b.0,
                            offset as int,
                            len as int,
                        )
                    },
                    None => if offset >= self.size {
                        r == ReadPlan::Fail(NtStatus::EndOfFile)
                    } else {
                        r is Remote
                    },
                }
            },
    {
        if self.is_dir {
            return ReadPlan::Fail(NtStatus::AccessDenied);
        }
        match &self.write_buf {
            Some(b) => {
                if offset >= b.data.len() as u64 {
                    return ReadPlan::Fail(NtStatus::EndOfFile);
                }
                ReadPlan::Bytes(read_at(&b.data, offset, len))
            },
            None => {
                if offset >= self.size {
                    ReadPlan::Fail(NtStatus::EndOfFile)
                } else {
                    ReadPlan::Remote
                }
            },
        }
    }

    /// Writes bytes at an offset, or at the end; how many were written. With `constrained` the file
    /// does not grow.
    pub fn write(&mut self, data: &[u8], offset: u64, to_eof: bool, constrained: bool) -> (r: Result<
        usize,
        NtStatus,
    >)
        requires
            buffer_of(*old(self)) matches Some(b) ==> write_offset(b.0, offset, to_eof)
                + data@.len() <= usize::MAX,
        ensures
            same_but_contents(*final(self), *old(self)),
            match buffer_of(*old(self)) {
                None => r == Err::<usize, NtStatus>(NtStatus::AccessDenied) && *final(self) == *old(
                    self),
                Some(b) => {
                    let off = write_offset(b.0, offset, to_eof);
                    let part = write_part(b.0, off, data@, constrained);
                    if constrained && off >= b.0.len() {
                        r == Ok::<usize, NtStatus>(0) && buffer_of(*final(self)) == Some(b)
                    } else {
                        r == Ok::<usize, NtStatus>(part.len() as usize) && buffer_of(*final(self))
                            == Some((written(b.0, off, part), true))
                    }
                },
            },
    {
        match self.write_buf.take() {
            None => Err(NtStatus::AccessDenied),
            Some(b) => {
                let mut buf = b.data;
                let n: usize = buf.len();
                let len: usize = data.len();
                if constrained && !to_eof && offset >= n as u64 || constrained && to_eof {
                    self.write_buf = Some(WriteBuf { data: buf, dirty: b.dirty });
                    return Ok(0);
                }
                let off: usize = if to_eof { n } else { offset as usize };
                let take: usize = if constrained && len > n - off { n - off } else { len };
                let part = crate::bytes::byte_range(data, 0, take);
                proof {
                    assert(part@ =~= write_part(
                        old(self).write_buf->0.data@,
                        off as int,
                        data@,
                        constrained,
                    ));
                }
                write_at(&mut buf, off, part.as_slice());
                self.write_buf = Some(WriteBuf { data: buf, dirty: true });
                Ok(take)
            },
        }
    }

    /// Cuts or fills the contents to a size. A change of the space that is set aside does nothing
    /// to them.
    pub fn set_file_size(&mut self, new_size: usize, allocation_only: bool) -> (r: Result<
        (),
        NtStatus,
    >)
        ensures
            same_but_contents(*final(self), *old(self)),
            match buffer_of(*old(self)) {
                None => r == Err::<(), NtStatus>(NtStatus::AccessDenied) && *final(self) == *old(
                    self),
                Some(b) => r is Ok && buffer_of(*final(self)) == if allocation_only {
                    Some(b)
                } else {
                    Some((resized(b.0, new_size as int), true))
                },
            },
    {
        match self.write_buf.take() {
            None => Err(NtStatus::AccessDenied),
            Some(b) => {
                if allocation_only {
                    self.write_buf = Some(b);
                } else {
                    let mut buf = b.data;
                    resize(&mut buf, new_size);
                    self.write_buf = Some(WriteBuf { data: buf, dirty: true });
                }
                Ok(())
            },
        }
    }

    /// Marks the entry to be deleted when it is closed, or takes the mark back. A directory that is
    /// not empty cannot be deleted; `entries` is what it holds, as far as that can be found out. The
    /// right to delete is needed either way.
    pub fn set_delete(&mut self, rights: &LspShareClient, delete: bool, entries: Option<usize>) -> (r:
        Result<(), NtStatus>)
        ensures
            r == if !granted(rights.permission@, "delete"@) {
                Err::<(), NtStatus>(NtStatus::AccessDenied)
            } else if delete && old(self).is_dir && entries is None {
                Err::<(), NtStatus>(NtStatus::AccessDenied)
            } else if delete && old(self).is_dir && entries->0 > 0 {
                Err::<(), NtStatus>(NtStatus::DirectoryNotEmpty)
            } else {
                Ok::<(), NtStatus>(())
            },
            *final(self) == (LanShareHandle {
                delete_on_close: if r is Ok {
                    delete
                } else {
                    old(self).delete_on_close
                },
                ..*old(self)
            }),
    {
        if !rights.may(MountOp::Remove) {
            return Err(NtStatus::AccessDenied);
        }
        if !delete {
            self.delete_on_close = false;
            return Ok(());
        }
        if self.is_dir {
            match entries {
                None => {
                    return Err(NtStatus::AccessDenied);
                },
                Some(n) => {
                    if n > 0 {
                        return Err(NtStatus::DirectoryNotEmpty);
                    }
                },
            }
        }
        self.delete_on_close = true;
        Ok(())
    }

    /// Is the entry deleted when it is closed with these flags?
    pub fn deletes_on_cleanup(&self, flags: u32) -> (r: bool)
        ensures
            r == (flags & 1 != 0 || self.delete_on_close),
    {
        flags & 1 != 0 || self.delete_on_close
    }

    /// Do the contents have to be stored?
    pub fn needs_upload(&self) -> (r: bool)
        ensures
            r == (buffer_of(*self) matches Some(b) && b.1),
    {
        match &self.write_buf {
            Some(b) => b.dirty,
            None => false,
        }
    }

    /// Takes note that the contents have been stored.
    pub fn uploaded(&mut self)
        ensures
            buffer_of(*final(self)) == match buffer_of(*old(self)) {
                Some(b) => Some((b.0, false)),
                None => None,
            },
            same_but_contents(*final(self), *old(self)),
    {
        match self.write_buf.take() {
            Some(b) => {
                self.write_buf = Some(WriteBuf { data: b.data, dirty: false });
            },
            None => {},
        }
    }
}

/// What of a directory is listed: whether `.` and `..` are, and from which entry on.
#[derive(Debug, Clone, Copy, PartialEq, Eq, Structural)]
pub struct DirPlan {
    pub dot: bool,
    pub dotdot: bool,
    pub start: usize,
}

/// The place behind the first entry of a name; 0 where there is none.
pub open spec fn behind_name(names: Seq<Seq<char>>, name: Seq<char>) -> int
    decreases names.len(),
{
    if names.len() == 0 {
        0
    } else if behind_name(names.drop_last(), name) > 0 {
        behind_name(names.drop_last(), name)
    } else if names.last() == name {
        names.len() as int
    } else {
        0
    }
}

/// The names of entries.
pub open spec fn names_of(v: Seq<DirEntry>) -> Seq<Seq<char>> {
    v.map_values(|e: DirEntry| e.name@)
}

/// What is listed behind a marker, the name at which the last listing stopped: without one all, and
/// behind `.` all but that.
pub open spec fn plan_behind(names: Seq<Seq<char>>, marker: Option<Seq<char>>) -> DirPlan {
    match marker {
        None => DirPlan { dot: true, dotdot: true, start: 0 },
        Some(m) => if m == "."@ {
            DirPlan { dot: false, dotdot: true, start: 0 }
        } else if m == ".."@ {
            DirPlan { dot: false, dotdot: false, start: 0 }
        } else {
            DirPlan { dot: false, dotdot: false, start: behind_name(names, m) as usize }
        },
    }
}

/// What of a directory is listed behind a marker.
pub fn read_directory(is_dir: bool, entries: &Vec<DirEntry>, marker: &Option<String>) -> (r: Result<
    DirPlan,
    NtStatus,
>)
    ensures
        r == if is_dir {
            Ok::<DirPlan, NtStatus>(plan_behind(names_of(entries@), text_of(*marker)))
        } else {
            Err::<DirPlan, NtStatus>(NtStatus::AccessDenied)
        },
        r matches Ok(p) ==> p.start <= entries@.len(),
{
    if !is_dir {
        return Err(NtStatus::AccessDenied);
    }
    match marker {
        None => Ok(DirPlan { dot: true, dotdot: true, start: 0 }),
        Some(m) => {
            if str_eq(m.as_str(), ".") {
                return Ok(DirPlan { dot: false, dotdot: true, start: 0 });
            }
            if str_eq(m.as_str(), "..") {
                return Ok(DirPlan { dot: false, dotdot: false, start: 0 });
            }
            let ghost names = names_of(entries@);
            let mut found: usize = 0;
            let mut i: usize = 0;
            proof {
                assert(names.take(0) =~= Seq::<Seq<char>>::empty());
            }
            while i < entries.len()
                invariant
                    names == names_of(entries@),
                    i <= entries@.len(),
                    found <= i,
                    found == behind_name(names.take(i as int), m@),
                decreases entries@.len() - i,
            {
                proof {
                    assert(names.take(i + 1).drop_last() =~= names.take(i as int));
                    assert(names.take(i + 1).last() == entries@[i as int].name@);
                }
                if found == 0 && str_eq(entries[i].name.as_str(), m.as_str()) {
                    found = i + 1;
                }
                i = i + 1;
            }
            proof {
                assert(names.take(i as int) =~= names);
            }
            Ok(DirPlan { dot: false, dotdot: false, start: found })
        },
    }
}

/// What was written is read back, before it is stored as well as after.
pub proof fn law_buffer_read_after_write(b: Seq<u8>, offset: u64, data: Seq<u8>)
    requires
        data.len() > 0,
    ensures
        sliced(
            written(b, write_offset(b, offset, false), write_part(b, offset as int, data, false)),
            offset as int,
            data.len() as int,
        ) == data,
{
    crate::content::law_read_after_write(b, offset as int, data);
}

/// A constrained write never makes the file longer.
pub proof fn law_constrained_write_keeps_length(b: Seq<u8>, off: int, data: Seq<u8>)
    requires
        0 <= off < b.len(),
    ensures
        written(b, off, write_part(b, off, data, true)).len() == b.len(),
{
}

/// What is known of an entry that is opened: the root directory is there without asking, anything
/// else must exist on the server.
pub fn open_entry(path: &str, stat: Option<StatResp>) -> (r: Result<StatResp, NtStatus>)
    ensures
        if path@ == "/"@ || path@.len() == 0 {
            r matches Ok(s) && s.is_dir && s.exists && s.size == 0 && s.mtime@ == "0"@
                && s.name@.len() == 0
        } else {
            match stat {
                Some(s) => if s.exists {
                    r == Ok::<StatResp, NtStatus>(s)
                } else {
                    r == Err::<StatResp, NtStatus>(NtStatus::NameNotFound)
                },
                None => r == Err::<StatResp, NtStatus>(NtStatus::NameNotFound),
            }
        },
{
    if is_root(path) {
        return Ok(
            StatResp {
                name: String::new(),
                is_dir: true,
                size: 0,
                mtime: "0".to_owned(),
                exists: true,
            },
        );
    }
    match stat {
        Some(s) => {
            if s.exists {
                Ok(s)
            } else {
                Err(NtStatus::NameNotFound)
            }
        },
        None => Err(NtStatus::NameNotFound),
    }
}

/// What is done when a handle is closed.
#[derive(Debug, Clone, Copy, PartialEq, Eq, Structural)]
pub struct CleanupPlan {
    /// The entry is deleted, and nothing else is done.
    pub delete: bool,
    /// The contents are stored.
    pub upload: bool,
    /// The server's lock is given up.
    pub unlock: bool,
}

impl LanShareHandle {
    /// What is done when the handle is closed: an entry that is to be deleted is not stored.
    pub fn cleanup(&self, flags: u32) -> (r: CleanupPlan)
        ensures
            r.delete == (flags & 1 != 0 || self.delete_on_close),
            r.upload == (!r.delete && (buffer_of(*self) matches Some(b) && b.1)),
            r.unlock == (!r.delete && self.holds_lock),
    {
        let delete = self.deletes_on_cleanup(flags);
        CleanupPlan {
            delete,
            upload: !delete && self.needs_upload(),
            unlock: !delete && self.holds_lock,
        }
    }
}

/// A listing is good for five seconds after it was made, and no longer.
pub proof fn law_listings_stay_good(cached_at: u64, now: u64)
    requires
        cached_at <= now,
    ensures
        fresh(cached_at, now) <==> now - cached_at < 5,
{
}

/// A listing that is still good, and of another directory, is kept, as it is.
pub proof fn law_good_listings_are_kept(
    v: Seq<DirItemView>,
    path: Seq<char>,
    now: Option<u64>,
    i: int,
)
    requires
        0 <= i < v.len(),
        v[i].path != path,
        now is Some ==> fresh(v[i].cached_at, now->0),
    ensures
        kept_dirs(v, path, now).contains(v[i]),
    decreases v.len(),
{
    let front = kept_dirs(v.drop_last(), path, now);
    let all = kept_dirs(v, path, now);
    if i == v.len() - 1 {
        assert(all[all.len() - 1] == v[i]);
    } else {
        law_good_listings_are_kept(v.drop_last(), path, now, i);
        let k = choose|k: int| 0 <= k < front.len() && front[k] == v[i];
        assert(all[k] == v[i]);
    }
}

/// Nothing is given up while there is room: files go only if they and the new one together take more
/// than 64 MB, and the one that was not used for the longest time goes first.
pub proof fn law_files_go_only_for_room(v: Seq<FileItemView>, need: nat, i: int)
    ensures
        total_bytes(v) + need <= 64 * 1024 * 1024 ==> evicted(v, need) == v,
        0 <= i < v.len() ==> 0 <= oldest(v) < v.len() && v[oldest(v)].last_access
            <= v[i].last_access,
        v.len() > 0 && total_bytes(v) + need > 64 * 1024 * 1024 ==> evicted(v, need) == evicted(
            v.remove(oldest(v)),
            need,
        ),
{
    if v.len() > 0 {
        lemma_oldest(v);
        if 0 <= i < v.len() {
            lemma_oldest_least(v, i);
        }
    }
}

proof fn lemma_oldest_least(v: Seq<FileItemView>, i: int)
    requires
        0 <= i < v.len(),
    ensures
        0 <= oldest(v) < v.len(),
        v[oldest(v)].last_access <= v[i].last_access,
    decreases v.len(),
{
    if v.len() > 1 {
        let f = v.drop_last();
        lemma_oldest_least(f, if i < f.len() {
            i
        } else {
            0
        });
        assert(f[oldest(f)] == v[oldest(f)]);
        if i < f.len() {
            assert(f[i] == v[i]);
        }
    }
}

/// A file of up to 16 MB is kept after it was fetched, and a larger one is not; other files that are
/// kept stay as they are while there is room.
pub proof fn law_which_files_are_kept(
    v: Seq<FileItemView>,
    path: Seq<char>,
    data: Seq<u8>,
    seq: u64,
    i: int,
)
    ensures
        data.len() > 16 * 1024 * 1024 ==> stored_files(v, path, data, seq) == v,
        data.len() <= 16 * 1024 * 1024 ==> stored_files(v, path, data, seq).last() == (FileItemView {
            path,
            data,
            last_access: seq,
        }),
        data.len() <= 16 * 1024 * 1024 && total_bytes(v) + data.len() <= 64 * 1024 * 1024 && 0 <= i
            < v.len() && v[i].path != path ==> stored_files(v, path, data, seq).contains(v[i]),
{
    if data.len() <= 16 * 1024 * 1024 && total_bytes(v) + data.len() <= 64 * 1024 * 1024 && 0 <= i
        < v.len() && v[i].path != path {
        lemma_other_kept(v, path, i);
        let o = other_files(v, path);
        let k = choose|k: int| 0 <= k < o.len() && o[k] == v[i];
        assert(stored_files(v, path, data, seq)[k] == v[i]);
    }
}

proof fn lemma_other_kept(v: Seq<FileItemView>, path: Seq<char>, i: int)
    requires
        0 <= i < v.len(),
        v[i].path != path,
    ensures
        other_files(v, path).contains(v[i]),
    decreases v.len(),
{
    let front = other_files(v.drop_last(), path);
    let all = other_files(v, path);
    if i == v.len() - 1 {
        assert(all[all.len() - 1] == v[i]);
    } else {
        lemma_other_kept(v.drop_last(), path, i);
        let k = choose|k: int| 0 <= k < front.len() && front[k] == v[i];
        assert(all[k] == v[i]);
    }
}

/// What Windows is told of an entry is what is known of it; a file takes whole sectors of 512 bytes,
/// as few as hold it.
pub proof fn law_info_tells_what_is_known(is_dir: bool, size: u64, time: u64, index: u64)
    requires
        size <= 0xFFFF_FFFF_FFFF_FE00,
    ensures
        ({
            let f = info_of(is_dir, size, time, index);
            &&& f.file_size == size && f.time == time && f.index_number == index
            &&& f.file_attributes == if is_dir {
                0x10u32
            } else {
                0x80u32
            }
            &&& is_dir ==> f.allocation_size == 0
            &&& !is_dir ==> size <= f.allocation_size < size + 512 && f.allocation_size % 512 == 0
        }),
{
}

/// A time text is read as the seconds that it names.
pub proof fn law_times_are_read(n: u64)
    ensures
        mtime_seconds(crate::text::digits(n as nat)) == n,
{
    crate::text::law_number_round_trip(n as nat, u64::MAX as nat);
}

/// Bytes are written where they are asked to go: at the offset, or behind the end of the file. Without
/// constraint all of them are; with it, those that lie within the file as it is.
pub proof fn law_where_bytes_are_written(b: Seq<u8>, offset: u64, data: Seq<u8>, i: int)
    ensures
        write_offset(b, offset, true) == b.len(),
        write_offset(b, offset, false) == offset,
        write_part(b, offset as int, data, false) == data,
        written(b, write_offset(b, offset, true), write_part(b, b.len() as int, data, false)) == b
            + data,
        offset < b.len() && 0 <= i < data.len() && offset + i < b.len() ==> written(
            b,
            offset as int,
            write_part(b, offset as int, data, true),
        )[offset + i] == data[i],
{
    assert(written(b, b.len() as int, data) =~= b + data);
}

/// A file is opened for writing if the access right to write, or that to append, is asked for.
pub proof fn law_access_rights(access: u32)
    ensures
        asks_write(access) <==> access & 2 != 0 || access & 4 != 0,
{
    assert((access & 6 != 0) == (access & 2 != 0 || access & 4 != 0)) by (bit_vector);
}

/// A listing begins with `.` and `..`, and goes on behind what was handed out last.
pub proof fn law_listing_starts(names: Seq<Seq<char>>)
    ensures
        plan_behind(names, None) == (DirPlan { dot: true, dotdot: true, start: 0 }),
        plan_behind(names, Some("."@)) == (DirPlan { dot: false, dotdot: true, start: 0 }),
        plan_behind(names, Some(".."@)) == (DirPlan { dot: false, dotdot: false, start: 0 }),
{
    reveal_strlit(".");
    reveal_strlit("..");
    assert("."@.len() == 1 && ".."@.len() == 2);
}

/// The directory of an entry is the path before its name.
pub proof fn law_directory_of_an_entry(dir: Seq<char>, name: Seq<char>)
    requires
        dir.len() > 0,
        name.len() > 0,
        !name.contains('/'),
    ensures
        parent_in(dir.push('/') + name) == dir,
        parent_in(seq!['/'] + name) == "/"@,
{
    let p = dir.push('/') + name;
    let q = seq!['/'] + name;
    assert(name.contains(name.last()));
    assert(p.last() == name.last() && q.last() == name.last());
    crate::mime::lemma_last_of(p, '/');
    crate::mime::lemma_last_of(q, '/');
    assert(p[dir.len() as int] == '/');
    assert(q[0] == '/');
    let i = last_of(p, '/');
    let j = last_of(q, '/');
    if i > dir.len() {
        assert(name[i - dir.len() - 1] == '/');
        assert(name.contains('/'));
    }
    if j > 0 {
        assert(name[j - 1] == '/');
        assert(name.contains('/'));
    }
    assert(p.take(i) =~= dir);
}

} // verus!
