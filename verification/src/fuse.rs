//! The mounted file system on Unix: inode numbers, open files, and what each operation does.
use std::collections::HashMap;
use vstd::prelude::*;
use crate::content::{read_at, resize, resized, sliced, write_at, written};
use crate::mime::{behind_last, last_of};
use crate::text::{chars_of, number_in, parse_number, str_eq, string_of, text_of};
use crate::wsp_client::{DirEntry, StatResp};

verus! {

/// The largest file that is held in memory for writing, 512 MB.
pub const MAX_WRITE_BUF_SIZE: u64 = 536870912;

/// The inode of the root directory.
pub const FUSE_ROOT_ID: u64 = 1;

/// Why an operation fails.
#[derive(Debug, Clone, Copy, PartialEq, Eq, Structural)]
pub enum Errno {
    NoEntry,
    Io,
    BadFile,
    Access,
    NoSpace,
}

/// A path and its inode.
#[derive(Debug)]
pub struct InodeEntry {
    pub path: String,
    pub ino: u64,
}

/// Inodes and the remote paths that they stand for.
#[derive(Debug)]
pub struct InodeTable {
    pub paths: HashMap<u64, String>,
    pub inodes: Vec<InodeEntry>,
    pub next_ino: u64,
}

/// The table as two maps: from inodes to paths, and from paths to inodes.
pub struct TableView {
    pub paths: Map<u64, Seq<char>>,
    pub inodes: Map<Seq<char>, u64>,
    pub next_ino: u64,
}

/// The map from paths to inodes that a list of entries holds.
pub open spec fn index_of(v: Seq<InodeEntry>) -> Map<Seq<char>, u64>
    decreases v.len(),
{
    if v.len() == 0 {
        Map::<Seq<char>, u64>::empty()
    } else {
        index_of(v.drop_last()).insert(v.last().path@, v.last().ino)
    }
}

/// Does every path occur once?
pub open spec fn paths_once(v: Seq<InodeEntry>) -> bool {
    forall|i: int, j: int|
        0 <= i < j < v.len() ==> (#[trigger] v[i]).path@ != (#[trigger] v[j]).path@
}

impl View for InodeTable {
    type V = TableView;

    open spec fn view(&self) -> TableView {
        TableView {
            paths: self.paths@.map_values(|s: String| s@),
            inodes: index_of(self.inodes@),
            next_ino: self.next_ino,
        }
    }
}

/// What holds of the two maps: an inode found for a path stands for that path, and all inodes are
/// below the next one.
pub open spec fn table_ok(t: TableView) -> bool {
    &&& forall|p: Seq<char>| #[trigger]
        t.inodes.contains_key(p) ==> t.paths.contains_key(t.inodes[p]) && t.paths[t.inodes[p]] == p
    &&& forall|i: u64| #[trigger] t.paths.contains_key(i) ==> i < t.next_ino
}

/// The table after a path has been looked up, with a new inode if it had none.
pub open spec fn with_path(t: TableView, p: Seq<char>) -> TableView {
    if t.inodes.contains_key(p) {
        t
    } else {
        TableView {
            paths: t.paths.insert(t.next_ino, p),
            inodes: t.inodes.insert(p, t.next_ino),
            next_ino: (t.next_ino + 1) as u64,
        }
    }
}

/// The table after a path was removed, with its inode.
pub open spec fn without_path(t: TableView, p: Seq<char>) -> TableView {
    if t.inodes.contains_key(p) {
        TableView {
            paths: t.paths.remove(t.inodes[p]),
            inodes: t.inodes.remove(p),
            next_ino: t.next_ino,
        }
    } else {
        t
    }
}

/// The table after a path was renamed: its inode stands for the new path.
pub open spec fn with_renamed(t: TableView, p: Seq<char>, q: Seq<char>) -> TableView {
    if t.inodes.contains_key(p) {
        TableView {
            paths: t.paths.insert(t.inodes[p], q),
            inodes: t.inodes.remove(p).insert(q, t.inodes[p]),
            next_ino: t.next_ino,
        }
    } else {
        t
    }
}

proof fn lemma_index_has(v: Seq<InodeEntry>, i: int)
    requires
        paths_once(v),
        0 <= i < v.len(),
    ensures
        index_of(v).contains_key(v[i].path@),
        index_of(v)[v[i].path@] == v[i].ino,
    decreases v.len(),
{
    if i < v.len() - 1 {
        assert(paths_once(v.drop_last())) by {
            assert forall|a: int, b: int| 0 <= a < b < v.drop_last().len() implies (
            #[trigger] v.drop_last()[a]).path@ != (#[trigger] v.drop_last()[b]).path@ by {
                assert(v[a].path@ != v[b].path@);
            }
        }
        lemma_index_has(v.drop_last(), i);
        assert(v.drop_last()[i] == v[i]);
        assert(v[i].path@ != v[v.len() - 1].path@);
    }
}

proof fn lemma_index_lacks(v: Seq<InodeEntry>, p: Seq<char>)
    requires
        forall|i: int| 0 <= i < v.len() ==> (#[trigger] v[i]).path@ != p,
    ensures
        !index_of(v).contains_key(p),
    decreases v.len(),
{
    if v.len() > 0 {
        assert forall|i: int| 0 <= i < v.drop_last().len() implies (#[trigger] v.drop_last()[i]).path@
            != p by {
            assert(v[i].path@ != p);
        }
        lemma_index_lacks(v.drop_last(), p);
        assert(v[v.len() - 1].path@ != p);
    }
}

proof fn lemma_index_remove(v: Seq<InodeEntry>, i: int)
    requires
        paths_once(v),
        0 <= i < v.len(),
    ensures
        paths_once(v.remove(i)),
        index_of(v.remove(i)) == index_of(v).remove(v[i].path@),
    decreases v.len(),
{
    let w = v.remove(i);
    assert forall|a: int, b: int| 0 <= a < b < w.len() implies (#[trigger] w[a]).path@ != (
    #[trigger] w[b]).path@ by {
        let a0 = if a < i { a } else { a + 1 };
        let b0 = if b < i { b } else { b + 1 };
        assert(v[a0].path@ != v[b0].path@);
    }
    let front = v.drop_last();
    assert(paths_once(front)) by {
        assert forall|a: int, b: int| 0 <= a < b < front.len() implies (#[trigger] front[a]).path@
            != (#[trigger] front[b]).path@ by {
            assert(v[a].path@ != v[b].path@);
        }
    }
    if i == v.len() - 1 {
        assert(w =~= front);
        assert forall|k: int| 0 <= k < front.len() implies (#[trigger] front[k]).path@ != v[i].path@ by {
            assert(v[k].path@ != v[i].path@);
        }
        lemma_index_lacks(front, v[i].path@);
        assert(index_of(w) =~= index_of(v).remove(v[i].path@));
    } else {
        lemma_index_remove(front, i);
        assert(w.drop_last() =~= front.remove(i));
        assert(w.last() == v.last());
        assert(v[i].path@ != v[v.len() - 1].path@);
        assert(index_of(w) =~= index_of(v).remove(v[i].path@));
    }
}

proof fn lemma_index_push(v: Seq<InodeEntry>, e: InodeEntry)
    requires
        paths_once(v),
        forall|i: int| 0 <= i < v.len() ==> (#[trigger] v[i]).path@ != e.path@,
    ensures
        paths_once(v.push(e)),
        index_of(v.push(e)) == index_of(v).insert(e.path@, e.ino),
{
    assert(v.push(e).drop_last() =~= v);
}

impl InodeTable {
    /// What holds of the table.
    pub open spec fn wf(&self) -> bool {
        paths_once(self.inodes@) && table_ok(self@)
    }

    /// The table that knows the root directory alone.
    pub fn new() -> (r: Self)
        ensures
            r.wf(),
            r@ == (TableView {
                paths: map![FUSE_ROOT_ID => "/"@],
                inodes: map!["/"@ => FUSE_ROOT_ID],
                next_ino: 2,
            }),
    {
        broadcast use vstd::std_specs::hash::group_hash_axioms;

        let mut paths: HashMap<u64, String> = HashMap::new();
        paths.insert(FUSE_ROOT_ID, "/".to_owned());
        let mut inodes: Vec<InodeEntry> = Vec::new();
        inodes.push(InodeEntry { path: "/".to_owned(), ino: FUSE_ROOT_ID });
        let r = InodeTable { paths, inodes, next_ino: 2 };
        proof {
            assert(r@.paths =~= map![FUSE_ROOT_ID => "/"@]);
            reveal_with_fuel(index_of, 2);
            assert(r.inodes@.drop_last() =~= Seq::<InodeEntry>::empty());
            assert(r@.inodes =~= map!["/"@ => FUSE_ROOT_ID]);
        }
        r
    }

    /// The path that an inode stands for.
    pub fn path_of(&self, ino: u64) -> (r: Option<String>)
        ensures
            text_of(r) == if self@.paths.contains_key(ino) {
                Some(self@.paths[ino])
            } else {
                None
            },
    {
        broadcast use vstd::std_specs::hash::group_hash_axioms;

        match self.paths.get(&ino) {
            Some(s) => Some(s.clone()),
            None => None,
        }
    }

    fn find(&self, path: &str) -> (r: Option<usize>)
        requires
            self.wf(),
        ensures
            match r {
                Some(i) => i < self.inodes@.len() && self.inodes@[i as int].path@ == path@
                    && self@.inodes.contains_key(path@) && self@.inodes[path@]
                    == self.inodes@[i as int].ino,
                None => !self@.inodes.contains_key(path@) && forall|k: int|
                    0 <= k < self.inodes@.len() ==> (#[trigger] self.inodes@[k]).path@ != path@,
            },
    {
        let mut i: usize = 0;
        while i < self.inodes.len()
            invariant
                self.wf(),
                i <= self.inodes@.len(),
                forall|k: int| 0 <= k < i ==> (#[trigger] self.inodes@[k]).path@ != path@,
            decreases self.inodes@.len() - i,
        {
            if str_eq(self.inodes[i].path.as_str(), path) {
                proof {
                    lemma_index_has(self.inodes@, i as int);
                }
                return Some(i);
            }
            i = i + 1;
        }
        proof {
            lemma_index_lacks(self.inodes@, path@);
        }
        None
    }

    /// The inode of a path; a new one if it had none.
    pub fn get_or_alloc(&mut self, path: &str) -> (r: u64)
        requires
            old(self).wf(),
            old(self).next_ino < u64::MAX,
        ensures
            final(self).wf(),
            final(self)@ == with_path(old(self)@, path@),
            final(self)@.inodes.contains_key(path@),
            r == final(self)@.inodes[path@],
    {
        broadcast use vstd::std_specs::hash::group_hash_axioms;

        match self.find(path) {
            Some(i) => self.inodes[i].ino,
            None => {
                let ino: u64 = self.next_ino;
                self.next_ino = ino + 1;
                self.paths.insert(ino, path.to_owned());
                let entry = InodeEntry { path: path.to_owned(), ino };
                proof {
                    lemma_index_push(self.inodes@, entry);
                }
                self.inodes.push(entry);
                proof {
                    assert(self@.paths =~= old(self)@.paths.insert(ino, path@));
                }
                ino
            },
        }
    }

    /// Forgets a path and its inode.
    pub fn remove_path(&mut self, path: &str)
        requires
            old(self).wf(),
        ensures
            final(self).wf(),
            final(self)@ == without_path(old(self)@, path@),
    {
        broadcast use vstd::std_specs::hash::group_hash_axioms;

        match self.find(path) {
            Some(i) => {
                proof {
                    lemma_index_remove(self.inodes@, i as int);
                }
                let entry = self.inodes.remove(i);
                self.paths.remove(&entry.ino);
                proof {
                    assert(self@.paths =~= old(self)@.paths.remove(entry.ino));
                    let t = self@;
                    assert forall|p: Seq<char>| #[trigger] t.inodes.contains_key(p) implies
                        t.paths.contains_key(t.inodes[p]) && t.paths[t.inodes[p]] == p by {
                        assert(old(self)@.inodes.contains_key(p));
                    }
                }
            },
            None => {},
        }
    }

    /// Lets the inode of a path stand for another path.
    pub fn rename_path(&mut self, from: &str, to: &str)
        requires
            old(self).wf(),
        ensures
            final(self).wf(),
            final(self)@ == with_renamed(old(self)@, from@, to@),
    {
        broadcast use vstd::std_specs::hash::group_hash_axioms;

        match self.find(from) {
            Some(i) => {
                proof {
                    lemma_index_remove(self.inodes@, i as int);
                }
                let entry = self.inodes.remove(i);
                let ghost mid = self.inodes@;
                let ghost old_index = old(self)@.inodes;
                let mut k: usize = 0;
                let mut at: Option<usize> = None;
                while k < self.inodes.len()
                    invariant
                        k <= self.inodes@.len(),
                        self.inodes@ == mid,
                        self.paths@ == old(self).paths@,
                        self.next_ino == old(self).next_ino,
                        match at {
                            Some(j) => j < k && mid[j as int].path@ == to@,
                            None => forall|m: int| 0 <= m < k ==> (#[trigger] mid[m]).path@ != to@,
                        },
                    decreases self.inodes@.len() - k,
                {
                    if str_eq(self.inodes[k].path.as_str(), to) {
                        at = Some(k);
                    }
                    k = k + 1;
                }
                let renamed = InodeEntry { path: to.to_owned(), ino: entry.ino };
                match at {
                    Some(j) => {
                        proof {
                            lemma_index_remove(mid, j as int);
                            let rest = mid.remove(j as int);
                            assert forall|m: int| 0 <= m < rest.len() implies (
                            #[trigger] rest[m]).path@ != to@ by {
                                let m0 = if m < j { m } else { m + 1 };
                                assert(mid[m0] == rest[m]);
                                if m0 < j {
                                    assert(mid[m0].path@ != mid[j as int].path@);
                                } else {
                                    assert(mid[j as int].path@ != mid[m0].path@);
                                }
                            }
                            lemma_index_push(rest, renamed);
                            assert(index_of(rest).insert(to@, entry.ino) =~= index_of(mid).insert(
                                to@,
                                entry.ino,
                            ));
                        }
                        self.inodes.remove(j);
                    },
                    None => {
                        proof {
                            lemma_index_push(mid, renamed);
                        }
                    },
                }
                self.inodes.push(renamed);
                self.paths.insert(entry.ino, to.to_owned());
                proof {
                    assert(self@.paths =~= old(self)@.paths.insert(entry.ino, to@));
                    assert(self@.inodes =~= old_index.remove(from@).insert(to@, entry.ino));
                    let t = self@;
                    assert forall|p: Seq<char>| #[trigger] t.inodes.contains_key(p) implies
                        t.paths.contains_key(t.inodes[p]) && t.paths[t.inodes[p]] == p by {
                        if p != to@ {
                            assert(old_index.contains_key(p));
                        }
                    }
                    assert forall|x: u64| #[trigger] t.paths.contains_key(x) implies x < t.next_ino by {
                        assert(old(self)@.paths.contains_key(x) || x == entry.ino);
                        assert(old(self)@.paths.contains_key(entry.ino));
                    }
                }
            },
            None => {},
        }
    }
}

/// A path keeps its inode: looking it up again gives the same one and changes nothing, and no other
/// path that is looked up takes it away.
pub proof fn law_inode_is_stable(t: TableView, p: Seq<char>, q: Seq<char>)
    ensures
        with_path(t, p).inodes.contains_key(p),
        with_path(with_path(t, p), p) == with_path(t, p),
        t.inodes.contains_key(p) ==> with_path(t, q).inodes.contains_key(p) && with_path(
            t,
            q,
        ).inodes[p] == t.inodes[p],
{
}

/// Different paths have different inodes.
pub proof fn law_inodes_differ(t: TableView, p: Seq<char>, q: Seq<char>)
    requires
        table_ok(t),
        t.inodes.contains_key(p),
        t.inodes.contains_key(q),
        p != q,
    ensures
        t.inodes[p] != t.inodes[q],
{
}

/// A rename keeps the inode: the number of the old path stands for the new path, and the old path
/// is forgotten.
pub proof fn law_rename_keeps_inode(t: TableView, p: Seq<char>, q: Seq<char>)
    requires
        t.inodes.contains_key(p),
    ensures
        with_renamed(t, p, q).inodes[q] == t.inodes[p],
        with_renamed(t, p, q).paths[t.inodes[p]] == q,
        p != q ==> !with_renamed(t, p, q).inodes.contains_key(p),
{
}

/// The path of an entry in a directory.
pub open spec fn child_of(parent: Seq<char>, name: Seq<char>) -> Seq<char> {
    if parent == "/"@ {
        "/"@ + name
    } else {
        parent + "/"@ + name
    }
}

/// The path of an entry in a directory.
pub fn child_path(parent: &str, name: &str) -> (r: String)
    ensures
        r@ == child_of(parent@, name@),
{
    let mut out: String = String::new();
    if !str_eq(parent, "/") {
        out.append(parent);
    }
    out.append("/");
    out.append(name);
    proof {
        assert(out@ =~= child_of(parent@, name@));
    }
    out
}

/// The directory that a path lies in; that of the root is the root.
pub open spec fn parent_of(path: Seq<char>) -> Seq<char> {
    let i = last_of(path, '/');
    if i <= 0 {
        "/"@
    } else {
        path.take(i)
    }
}

/// The directory that a path lies in.
pub fn parent_path(path: &str) -> (r: String)
    ensures
        r@ == parent_of(path@),
{
    let v = chars_of(path);
    let i: usize = behind_last(&v, '/');
    if i <= 1 {
        return "/".to_owned();
    }
    proof {
        assert(v@.subrange(0, i - 1) =~= v@.take(i - 1));
    }
    string_of(v.as_slice(), 0, i - 1)
}

/// The parent of an entry of a directory is the directory.
pub proof fn law_parent_of_child(parent: Seq<char>, name: Seq<char>)
    requires
        parent == "/"@ || (parent.len() > 0 && parent != "/"@),
        !name.contains('/'),
    ensures
        parent_of(child_of(parent, name)) == parent,
{
    reveal_strlit("/");
    let c = child_of(parent, name);
    let base = if parent == "/"@ {
        Seq::<char>::empty()
    } else {
        parent
    };
    assert(c =~= base.push('/') + name);
    lemma_last_slash(base, name);
    if parent != "/"@ {
        assert(c.take(base.len() as int) =~= parent);
    }
}

proof fn lemma_last_slash(base: Seq<char>, name: Seq<char>)
    requires
        !name.contains('/'),
    ensures
        last_of(base.push('/') + name, '/') == base.len(),
    decreases name.len(),
{
    let c = base.push('/') + name;
    if name.len() == 0 {
        assert(c =~= base.push('/'));
    } else {
        assert(name.contains(name.last()));
        let front = name.drop_last();
        if front.contains('/') {
            let k = choose|k: int| 0 <= k < front.len() && front[k] == '/';
            assert(name[k] == '/');
        }
        assert(c.drop_last() =~= base.push('/') + front);
        lemma_last_slash(base, front);
    }
}

/// The attributes of an entry. The time is in seconds since 1970.
#[derive(Debug, Clone, Copy, PartialEq, Eq, Structural)]
pub struct Attr {
    pub ino: u64,
    pub size: u64,
    pub blocks: u64,
    pub mtime: u64,
    pub is_dir: bool,
    pub perm: u16,
    pub nlink: u32,
    pub blksize: u32,
}

/// The seconds in a time text; none are zero.
pub open spec fn seconds_in(mtime: Seq<char>) -> u64 {
    match number_in(mtime, u64::MAX as nat) {
        Some(n) => n as u64,
        None => 0,
    }
}

/// The seconds in a time text.
pub fn parse_mtime(mtime: &str) -> (r: u64)
    ensures
        r == seconds_in(mtime@),
{
    match parse_number(mtime, 0xFFFF_FFFF_FFFF_FFFF) {
        Some(n) => n,
        None => 0,
    }
}

/// The number of blocks of 512 bytes that a size takes.
pub open spec fn blocks_of(size: u64) -> u64 {
    (size / 512 + if size % 512 == 0 {
        0int
    } else {
        1
    }) as u64
}

/// The attributes of an entry.
pub open spec fn attr_of(ino: u64, is_dir: bool, size: u64, mtime: u64) -> Attr {
    Attr {
        ino,
        size,
        blocks: blocks_of(size),
        mtime,
        is_dir,
        perm: if is_dir {
            0o755
        } else {
            0o644
        },
        nlink: if is_dir {
            2
        } else {
            1
        },
        blksize: 4096,
    }
}

/// The attributes of an entry.
pub fn make_attr(ino: u64, is_dir: bool, size: u64, mtime: &str) -> (r: Attr)
    ensures
        r == attr_of(ino, is_dir, size, seconds_in(mtime@)),
{
    Attr {
        ino,
        size,
        blocks: size / 512 + if size % 512 == 0 { 0 } else { 1 },
        mtime: parse_mtime(mtime),
        is_dir,
        perm: if is_dir { 0o755 } else { 0o644 },
        nlink: if is_dir { 2 } else { 1 },
        blksize: 4096,
    }
}

/// The attributes of an entry that was just changed; its time is not known.
pub fn new_attr(ino: u64, is_dir: bool, size: u64) -> (r: Attr)
    ensures
        r == attr_of(ino, is_dir, size, 0),
{
    proof {
        reveal_strlit("0");
        assert("0"@ =~= seq!['0']);
        assert("0"@.drop_last() =~= Seq::<char>::empty());
        reveal_with_fuel(crate::text::digits_value, 2);
        assert(crate::text::digits_value("0"@) == 0);
    }
    make_attr(ino, is_dir, size, "0")
}

/// The attributes of an entry that the server was asked about: it may not exist, or the server may
/// not have answered.
pub fn lookup(ino: u64, stat: &Result<StatResp, String>) -> (r: Result<Attr, Errno>)
    ensures
        r == match stat {
            Ok(s) => if s.exists {
                Ok::<Attr, Errno>(attr_of(ino, s.is_dir, s.size, seconds_in(s.mtime@)))
            } else {
                Err::<Attr, Errno>(Errno::NoEntry)
            },
            Err(_) => Err::<Attr, Errno>(Errno::Io),
        },
{
    match stat {
        Ok(s) => {
            if s.exists {
                Ok(make_attr(ino, s.is_dir, s.size, s.mtime.as_str()))
            } else {
                Err(Errno::NoEntry)
            }
        },
        Err(_) => Err(Errno::Io),
    }
}

/// The attributes of the root directory, which exists even while the server does not answer.
pub fn root_attr(ino: u64, stat: &Result<StatResp, String>) -> (r: Attr)
    ensures
        r == match stat {
            Ok(s) => attr_of(ino, true, s.size, seconds_in(s.mtime@)),
            Err(_) => attr_of(ino, true, 0, 0),
        },
{
    match stat {
        Ok(s) => make_attr(ino, true, s.size, s.mtime.as_str()),
        Err(_) => new_attr(ino, true, 0),
    }
}

/// An entry as it is listed.
#[derive(Debug)]
pub struct DirItem {
    pub ino: u64,
    pub is_dir: bool,
    pub name: String,
}

/// The table after the entries of a directory have been looked up, one after the other.
pub open spec fn with_children(t: TableView, path: Seq<char>, names: Seq<Seq<char>>) -> TableView
    decreases names.len(),
{
    if names.len() == 0 {
        t
    } else {
        with_path(with_children(t, path, names.drop_last()), child_of(path, names.last()))
    }
}

/// The table after a directory has been listed: first its parent is looked up, then its entries.
pub open spec fn with_listed(t: TableView, path: Seq<char>, names: Seq<Seq<char>>) -> TableView {
    with_children(
        if path == "/"@ {
            t
        } else {
            with_path(t, parent_of(path))
        },
        path,
        names,
    )
}

/// The names of entries.
pub open spec fn entry_names(v: Seq<DirEntry>) -> Seq<Seq<char>> {
    v.map_values(|e: DirEntry| e.name@)
}

/// Does every path of the first table have the same inode in the second?
pub open spec fn extends(t: TableView, u: TableView) -> bool {
    forall|p: Seq<char>| #[trigger]
        t.inodes.contains_key(p) ==> u.inodes.contains_key(p) && u.inodes[p] == t.inodes[p]
}

/// The entries of a directory as they are listed: itself, its parent, and what it holds, each with
/// its inode.
pub fn readdir(table: &mut InodeTable, ino: u64, path: &str, entries: &Vec<DirEntry>) -> (r: Vec<
    DirItem,
>)
    requires
        old(table).wf(),
        old(table).next_ino + entries@.len() + 1 <= u64::MAX,
    ensures
        final(table).wf(),
        final(table)@ == with_listed(old(table)@, path@, entry_names(entries@)),
        extends(old(table)@, final(table)@),
        r@.len() == entries@.len() + 2,
        r@[0].ino == ino && r@[0].is_dir && r@[0].name@ == "."@,
        r@[1].is_dir && r@[1].name@ == ".."@,
        path@ == "/"@ ==> r@[1].ino == FUSE_ROOT_ID,
        path@ != "/"@ ==> final(table)@.inodes.contains_key(parent_of(path@)) && r@[1].ino
            == final(table)@.inodes[parent_of(path@)],
        forall|k: int|
            0 <= k < entries@.len() ==> {
                let e = #[trigger] entries@[k];
                let item = r@[k + 2];
                &&& item.name@ == e.name@
                &&& item.is_dir == e.is_dir
                &&& final(table)@.inodes.contains_key(child_of(path@, e.name@))
                &&& item.ino == final(table)@.inodes[child_of(path@, e.name@)]
            },
{
    let n: usize = entries.len();
    let parent_ino: u64 = if str_eq(path, "/") {
        FUSE_ROOT_ID
    } else {
        table.get_or_alloc(parent_path(path).as_str())
    };
    let ghost base = table@;
    let ghost names = entry_names(entries@);
    proof {
        assert(names.take(0) =~= Seq::<Seq<char>>::empty());
    }
    let mut all: Vec<DirItem> = Vec::new();
    all.push(DirItem { ino, is_dir: true, name: ".".to_owned() });
    all.push(DirItem { ino: parent_ino, is_dir: true, name: "..".to_owned() });
    let mut i: usize = 0;
    while i < n
        invariant
            n == entries@.len(),
            i <= n,
            table.wf(),
            table.next_ino + (n - i) <= u64::MAX,
            names == entry_names(entries@),
            table@ == with_children(base, path@, names.take(i as int)),
            extends(old(table)@, table@),
            all@.len() == i + 2,
            all@[0].ino == ino && all@[0].is_dir && all@[0].name@ == "."@,
            all@[1].ino == parent_ino && all@[1].is_dir && all@[1].name@ == ".."@,
            path@ == "/"@ ==> parent_ino == FUSE_ROOT_ID,
            path@ != "/"@ ==> table@.inodes.contains_key(parent_of(path@)) && parent_ino
                == table@.inodes[parent_of(path@)],
            forall|k: int|
                0 <= k < i ==> {
                    let e = #[trigger] entries@[k];
                    let item = all@[k + 2];
                    &&& item.name@ == e.name@
                    &&& item.is_dir == e.is_dir
                    &&& table@.inodes.contains_key(child_of(path@, e.name@))
                    &&& item.ino == table@.inodes[child_of(path@, e.name@)]
                },
        decreases n - i,
    {
        let child = child_path(path, entries[i].name.as_str());
        proof {
            assert(names.take(i + 1).drop_last() =~= names.take(i as int));
            assert(names.take(i + 1).last() == entries@[i as int].name@);
        }
        let child_ino: u64 = table.get_or_alloc(child.as_str());
        all.push(
            DirItem { ino: child_ino, is_dir: entries[i].is_dir, name: entries[i].name.clone() },
        );
        i = i + 1;
    }
    proof {
        assert(names.take(n as int) =~= names);
    }
    all
}

/// An open file: its contents for writing or for reading, whether they have been changed, and
/// whether the server holds a lock for it.
#[derive(Debug)]
pub struct OpenFile {
    pub path: String,
    pub write_buf: Option<Vec<u8>>,
    pub read_cache: Option<Vec<u8>>,
    pub dirty: bool,
    pub holds_lock: bool,
}

pub struct OpenView {
    pub path: Seq<char>,
    pub write_buf: Option<Seq<u8>>,
    pub read_cache: Option<Seq<u8>>,
    pub dirty: bool,
    pub holds_lock: bool,
}

/// The view of contents that may be absent.
pub open spec fn contents_of(o: Option<Vec<u8>>) -> Option<Seq<u8>> {
    match o {
        Some(b) => Some(b@),
        None => None,
    }
}

impl View for OpenFile {
    type V = OpenView;

    open spec fn view(&self) -> OpenView {
        OpenView {
            path: self.path@,
            write_buf: contents_of(self.write_buf),
            read_cache: contents_of(self.read_cache),
            dirty: self.dirty,
            holds_lock: self.holds_lock,
        }
    }
}

/// How a file is opened.
#[derive(Debug, Clone, Copy, PartialEq, Eq, Structural)]
pub enum OpenPlan {
    /// The contents are fetched for reading.
    Read,
    /// The contents are fetched for writing, and the server is asked for a lock.
    Write,
}

/// Do the flags ask for writing?
pub open spec fn wants_write(flags: i32) -> bool {
    flags & 3 == 1 || flags & 3 == 2
}

/// How a file is opened: for writing only with the permission, and only if it exists; one that is
/// too large is opened for reading even so.
pub open spec fn open_plan(
    known: bool,
    flags: i32,
    can_write: bool,
    exists_size: Option<u64>,
) -> Result<OpenPlan, Errno> {
    if !known {
        Err(Errno::NoEntry)
    } else if !wants_write(flags) {
        Ok(OpenPlan::Read)
    } else if !can_write {
        Err(Errno::Access)
    } else {
        match exists_size {
            None => Err(Errno::NoEntry),
            Some(n) => if n > MAX_WRITE_BUF_SIZE {
                Ok(OpenPlan::Read)
            } else {
                Ok(OpenPlan::Write)
            },
        }
    }
}

/// The size of an entry that exists.
pub open spec fn existing_size(stat: Option<StatResp>) -> Option<u64> {
    match stat {
        Some(s) => if s.exists {
            Some(s.size)
        } else {
            None
        },
        None => None,
    }
}

/// How a file is opened. `known` says that its inode stands for a path, and `stat` is what the
/// server says of it, if it says anything.
pub fn open(known: bool, flags: i32, can_write: bool, stat: &Option<StatResp>) -> (r: Result<
    OpenPlan,
    Errno,
>)
    ensures
        r == open_plan(known, flags, can_write, existing_size(*stat)),
{
    if !known {
        return Err(Errno::NoEntry);
    }
    let mode: i32 = flags & 3;
    if !(mode == 1 || mode == 2) {
        return Ok(OpenPlan::Read);
    }
    if !can_write {
        return Err(Errno::Access);
    }
    match stat {
        Some(s) => {
            if s.exists {
                if s.size > MAX_WRITE_BUF_SIZE {
                    Ok(OpenPlan::Read)
                } else {
                    Ok(OpenPlan::Write)
                }
            } else {
                Err(Errno::NoEntry)
            }
        },
        None => Err(Errno::NoEntry),
    }
}

/// The contents that a read sees: those for writing before those for reading.
pub open spec fn seen(f: OpenView) -> Option<Seq<u8>> {
    if f.write_buf is Some {
        f.write_buf
    } else {
        f.read_cache
    }
}

impl OpenFile {
    /// A file that was opened with its contents.
    pub fn opened(plan: OpenPlan, path: String, data: Vec<u8>, holds_lock: bool) -> (r: Self)
        ensures
            r@ == match plan {
                OpenPlan::Read => OpenView {
                    path: path@,
                    write_buf: None,
                    read_cache: Some(data@),
                    dirty: false,
                    holds_lock: false,
                },
                OpenPlan::Write => OpenView {
                    path: path@,
                    write_buf: Some(data@),
                    read_cache: None,
                    dirty: false,
                    holds_lock,
                },
            },
    {
        match plan {
            OpenPlan::Read => OpenFile {
                path,
                write_buf: None,
                read_cache: Some(data),
                dirty: false,
                holds_lock: false,
            },
            OpenPlan::Write => OpenFile {
                path,
                write_buf: Some(data),
                read_cache: None,
                dirty: false,
                holds_lock,
            },
        }
    }

    /// A file that was created. It is empty, and has to be stored even so.
    pub fn created(path: String, holds_lock: bool) -> (r: Self)
        ensures
            r@ == (OpenView {
                path: path@,
                write_buf: Some(Seq::<u8>::empty()),
                read_cache: None,
                dirty: true,
                holds_lock,
            }),
    {
        OpenFile { path, write_buf: Some(Vec::new()), read_cache: None, dirty: true, holds_lock }
    }

    /// Up to `size` bytes from an offset on.
    pub fn read(&self, offset: i64, size: u32) -> (r: Result<Vec<u8>, Errno>)
        requires
            offset >= 0,
        ensures
            match r {
                Ok(d) => seen(self@) is Some && d@ == sliced(
                    seen(self@)->0,
                    offset as int,
                    size as int,
                ),
                Err(e) => seen(self@) is None && e == Errno::BadFile,
            },
    {
        let len: usize = size as usize;
        match &self.write_buf {
            Some(b) => Ok(read_at(b, offset as u64, len)),
            None => match &self.read_cache {
                Some(b) => Ok(read_at(b, offset as u64, len)),
                None => Err(Errno::BadFile),
            },
        }
    }

    /// Writes bytes at an offset. A file that is open for reading cannot be written, and none may
    /// grow beyond the limit.
    pub fn write(&mut self, offset: i64, data: &[u8]) -> (r: Result<usize, Errno>)
        requires
            offset >= 0,
        ensures
            match old(self)@.write_buf {
                None => r == Err::<usize, Errno>(Errno::Access) && final(self)@ == old(self)@,
                Some(b) => if offset + data@.len() > MAX_WRITE_BUF_SIZE {
                    r == Err::<usize, Errno>(Errno::NoSpace) && final(self)@ == old(self)@
                } else {
                    r == Ok::<usize, Errno>(data@.len() as usize) && final(self)@ == (OpenView {
                        write_buf: Some(written(b, offset as int, data@)),
                        dirty: true,
                        ..old(self)@
                    })
                },
            },
            match file_after_write(old(self)@, offset as int, data@) {
                Ok(f) => r == Ok::<usize, Errno>(data@.len() as usize) && final(self)@ == f,
                Err(e) => r == Err::<usize, Errno>(e) && final(self)@ == old(self)@,
            },
    {
        let n: usize = data.len();
        match self.write_buf.take() {
            None => Err(Errno::Access),
            Some(mut buf) => {
                if offset as u64 > MAX_WRITE_BUF_SIZE || n as u64 > MAX_WRITE_BUF_SIZE
                    - offset as u64 {
                    self.write_buf = Some(buf);
                    return Err(Errno::NoSpace);
                }
                write_at(&mut buf, offset as usize, data);
                self.write_buf = Some(buf);
                self.dirty = true;
                Ok(n)
            },
        }
    }

    /// What is to be stored of the file: its path and its contents, if they have been changed. They
    /// count as changed until it is known that they were stored.
    pub fn writeback(&self) -> (r: Option<(String, Vec<u8>)>)
        ensures
            match r {
                Some(p) => to_store(self@) == Some((p.0@, p.1@)),
                None => to_store(self@) is None,
            },
    {
        if !self.dirty {
            return None;
        }
        let copy = match &self.write_buf {
            Some(b) => read_at(b, 0, b.len()),
            None => {
                return None;
            },
        };
        proof {
            let b = self.write_buf->0@;
            assert(copy@ =~= b);
        }
        Some((self.path.clone(), copy))
    }
}

/// May the size of a file be changed to this? Only with the permission, and not beyond the limit.
pub fn check_truncate(can_write: bool, new_size: u64) -> (r: Result<(), Errno>)
    ensures
        r == if !can_write {
            Err::<(), Errno>(Errno::Access)
        } else if new_size > MAX_WRITE_BUF_SIZE {
            Err::<(), Errno>(Errno::NoSpace)
        } else {
            Ok::<(), Errno>(())
        },
{
    if !can_write {
        return Err(Errno::Access);
    }
    if new_size > MAX_WRITE_BUF_SIZE {
        return Err(Errno::NoSpace);
    }
    Ok(())
}

/// The contents with another size.
pub fn truncate(data: Vec<u8>, new_size: u64) -> (r: Vec<u8>)
    requires
        new_size <= MAX_WRITE_BUF_SIZE,
    ensures
        r@ == resized(data@, new_size as int),
{
    let mut out = data;
    resize(&mut out, new_size as usize);
    out
}

/// What was written is read back, before it is stored as well as after.
pub proof fn law_written_is_read(f: OpenView, b: Seq<u8>, offset: int, data: Seq<u8>)
    requires
        f.write_buf == Some(b),
        0 <= offset,
    ensures
        seen((OpenView { write_buf: Some(written(b, offset, data)), dirty: true, ..f })) is Some,
        sliced(
            seen((OpenView { write_buf: Some(written(b, offset, data)), dirty: true, ..f }))->0,
            offset,
            data.len() as int,
        ) == data,
{
    crate::content::law_read_after_write(b, offset, data);
}

/// An open file after bytes were written to it, or why they cannot be.
pub open spec fn file_after_write(f: OpenView, offset: int, data: Seq<u8>) -> Result<OpenView, Errno> {
    match f.write_buf {
        None => Err(Errno::Access),
        Some(b) => if offset + data.len() > MAX_WRITE_BUF_SIZE {
            Err(Errno::NoSpace)
        } else {
            Ok(OpenView { write_buf: Some(written(b, offset, data)), dirty: true, ..f })
        },
    }
}

/// What is to be stored of an open file: its path and its contents, if they have been changed.
pub open spec fn to_store(f: OpenView) -> Option<(Seq<char>, Seq<u8>)> {
    if f.dirty && f.write_buf is Some {
        Some((f.path, f.write_buf->0))
    } else {
        None
    }
}

/// An open file after storing it was tried.
pub open spec fn after_upload(f: OpenView, stored: bool) -> OpenView {
    OpenView { dirty: f.dirty && !stored, ..f }
}

/// Nothing that was written is lost: contents that could not be stored are to be stored again, as
/// they are, and only ones that were stored are done with.
pub proof fn law_unstored_is_stored_again(f: OpenView)
    ensures
        to_store(after_upload(f, false)) == to_store(f),
        to_store(after_upload(f, true)) is None,
        seen(after_upload(f, true)) == seen(f),
{
}

/// The open files by their handles.
#[derive(Debug)]
pub struct OpenFiles {
    pub files: HashMap<u64, OpenFile>,
    pub next_fh: u64,
}

impl OpenFiles {
    /// What holds of the open files: their handles are below the next one.
    pub open spec fn wf(&self) -> bool {
        forall|k: u64| #[trigger] self.files@.contains_key(k) ==> k < self.next_fh
    }

    pub fn new() -> (r: Self)
        ensures
            r.wf(),
            r.files@ == Map::<u64, OpenFile>::empty(),
            r.next_fh == 1,
    {
        broadcast use vstd::std_specs::hash::group_hash_axioms;

        OpenFiles { files: HashMap::new(), next_fh: 1 }
    }

    /// Takes in an open file, and gives it a handle that no other file has.
    pub fn alloc_fh(&mut self, file: OpenFile) -> (r: u64)
        requires
            old(self).wf(),
            old(self).next_fh < u64::MAX,
        ensures
            final(self).wf(),
            r == old(self).next_fh,
            !old(self).files@.contains_key(r),
            final(self).files@ == old(self).files@.insert(r, file),
            final(self).next_fh == old(self).next_fh + 1,
    {
        broadcast use vstd::std_specs::hash::group_hash_axioms;

        let fh: u64 = self.next_fh;
        self.next_fh = fh + 1;
        self.files.insert(fh, file);
        fh
    }

    /// Reads from the file of a handle.
    pub fn read(&self, fh: u64, offset: i64, size: u32) -> (r: Result<Vec<u8>, Errno>)
        requires
            offset >= 0,
        ensures
            match r {
                Ok(d) => self.files@.contains_key(fh) && seen(self.files@[fh]@) is Some && d@
                    == sliced(seen(self.files@[fh]@)->0, offset as int, size as int),
                Err(e) => e == Errno::BadFile && (!self.files@.contains_key(fh) || seen(
                    self.files@[fh]@,
                ) is None),
            },
    {
        broadcast use vstd::std_specs::hash::group_hash_axioms;

        match self.files.get(&fh) {
            Some(f) => f.read(offset, size),
            None => Err(Errno::BadFile),
        }
    }

    /// Writes to the file of a handle. No other file changes.
    pub fn write(&mut self, fh: u64, offset: i64, data: &[u8]) -> (r: Result<usize, Errno>)
        requires
            old(self).wf(),
            offset >= 0,
        ensures
            final(self).wf(),
            final(self).next_fh == old(self).next_fh,
            final(self).files@.dom() == old(self).files@.dom(),
            forall|k: u64|
                k != fh && #[trigger] old(self).files@.contains_key(k) ==> final(self).files@[k]
                    == old(self).files@[k],
            if !old(self).files@.contains_key(fh) {
                r == Err::<usize, Errno>(Errno::BadFile)
            } else {
                match old(self).files@[fh]@.write_buf {
                    None => r == Err::<usize, Errno>(Errno::Access) && final(self).files@[fh]@
                        == old(self).files@[fh]@,
                    Some(b) => if offset + data@.len() > MAX_WRITE_BUF_SIZE {
                        r == Err::<usize, Errno>(Errno::NoSpace) && final(self).files@[fh]@
                            == old(self).files@[fh]@
                    } else {
                        r == Ok::<usize, Errno>(data@.len() as usize) && final(self).files@[fh]@
                            == (OpenView {
                            write_buf: Some(written(b, offset as int, data@)),
                            dirty: true,
                            ..old(self).files@[fh]@
                        })
                    },
                }
            },
    {
        broadcast use vstd::std_specs::hash::group_hash_axioms;

        match self.files.remove(&fh) {
            Some(f) => {
                let mut file = f;
                let r = file.write(offset, data);
                self.files.insert(fh, file);
                proof {
                    assert(self.files@.dom() =~= old(self).files@.dom());
                }
                r
            },
            None => {
                proof {
                    assert(self.files@ =~= old(self).files@);
                }
                Err(Errno::BadFile)
            },
        }
    }

    /// What is to be stored of the file of a handle: its path and its contents, if they have been
    /// changed.
    pub fn writeback(&self, fh: u64) -> (r: Option<(String, Vec<u8>)>)
        ensures
            match r {
                Some(p) => self.files@.contains_key(fh) && to_store(self.files@[fh]@) == Some(
                    (p.0@, p.1@),
                ),
                None => !self.files@.contains_key(fh) || to_store(self.files@[fh]@) is None,
            },
    {
        broadcast use vstd::std_specs::hash::group_hash_axioms;

        match self.files.get(&fh) {
            Some(f) => f.writeback(),
            None => None,
        }
    }

    /// Takes note of how storing the file of a handle went. Only contents that were stored no longer
    /// count as changed; others are stored again the next time.
    pub fn uploaded(&mut self, fh: u64, stored: bool)
        requires
            old(self).wf(),
        ensures
            final(self).wf(),
            final(self).next_fh == old(self).next_fh,
            final(self).files@.dom() == old(self).files@.dom(),
            forall|k: u64|
                k != fh && #[trigger] old(self).files@.contains_key(k) ==> final(self).files@[k]
                    == old(self).files@[k],
            old(self).files@.contains_key(fh) ==> final(self).files@[fh]@ == after_upload(
                old(self).files@[fh]@,
                stored,
            ),
    {
        broadcast use vstd::std_specs::hash::group_hash_axioms;

        match self.files.remove(&fh) {
            Some(f) => {
                let mut file = f;
                if stored {
                    file.dirty = false;
                }
                self.files.insert(fh, file);
                proof {
                    assert(self.files@.dom() =~= old(self).files@.dom());
                }
            },
            None => {
                proof {
                    assert(self.files@ =~= old(self).files@);
                }
            },
        }
    }

    /// Closes a handle. If the server holds a lock for the file, its path comes back, so that the
    /// lock can be given up.
    pub fn release(&mut self, fh: u64) -> (r: Option<String>)
        requires
            old(self).wf(),
        ensures
            final(self).wf(),
            final(self).files@ == old(self).files@.remove(fh),
            final(self).next_fh == old(self).next_fh,
            text_of(r) == if old(self).files@.contains_key(fh) && old(self).files@[fh].holds_lock {
                Some(old(self).files@[fh]@.path)
            } else {
                None
            },
    {
        broadcast use vstd::std_specs::hash::group_hash_axioms;

        match self.files.remove(&fh) {
            Some(f) => {
                if f.holds_lock {
                    Some(f.path)
                } else {
                    None
                }
            },
            None => {
                proof {
                    assert(self.files@ =~= old(self).files@.remove(fh));
                }
                None
            },
        }
    }
}

/// May an entry be created, deleted or renamed? Only with the permission, and only in a directory
/// that is known.
pub fn check_change(allowed: bool, dirs_known: bool) -> (r: Result<(), Errno>)
    ensures
        r == if !allowed {
            Err::<(), Errno>(Errno::Access)
        } else if !dirs_known {
            Err::<(), Errno>(Errno::NoEntry)
        } else {
            Ok::<(), Errno>(())
        },
{
    if !allowed {
        return Err(Errno::Access);
    }
    if !dirs_known {
        return Err(Errno::NoEntry);
    }
    Ok(())
}

/// The access mode decides how a file is opened: 0 for reading, 1 for writing, 2 for both. Whoever
/// may write and asks to write, in either mode, can write a file that exists and is not larger than
/// 512 MB; a larger one can still be read; one that does not exist, or of which the inode is not
/// known, is not opened for writing; and without the permission nothing is.
pub proof fn law_open_modes(flags: i32, can_write: bool, stat: Option<StatResp>)
    ensures
        open_plan(false, flags, can_write, existing_size(stat)) == Err::<OpenPlan, Errno>(
            Errno::NoEntry,
        ),
        flags & 3 != 1 && flags & 3 != 2 ==> open_plan(
            true,
            flags,
            can_write,
            existing_size(stat),
        ) == Ok::<OpenPlan, Errno>(OpenPlan::Read),
        flags & 3 == 1 || flags & 3 == 2 ==> {
            let plan = open_plan(true, flags, can_write, existing_size(stat));
            &&& !can_write ==> plan == Err::<OpenPlan, Errno>(Errno::Access)
            &&& can_write && (stat is None || !stat->0.exists) ==> plan == Err::<OpenPlan, Errno>(
                Errno::NoEntry,
            )
            &&& can_write && stat is Some && stat->0.exists && stat->0.size <= 512 * 1024 * 1024
                ==> plan == Ok::<OpenPlan, Errno>(OpenPlan::Write)
            &&& can_write && stat is Some && stat->0.exists && stat->0.size > 512 * 1024 * 1024
                ==> plan == Ok::<OpenPlan, Errno>(OpenPlan::Read)
        },
{
}

/// What is told of an entry is what is known of it: its size, its kind, its time and its inode; it
/// takes as many blocks of 512 bytes as hold its size, and no more. Directories can be entered,
/// files cannot be executed, and both can be changed by their owner alone.
pub proof fn law_attributes_tell_what_is_known(ino: u64, is_dir: bool, size: u64, mtime: u64)
    ensures
        ({
            let a = attr_of(ino, is_dir, size, mtime);
            &&& a.ino == ino && a.is_dir == is_dir && a.size == size && a.mtime == mtime
            &&& a.blocks * 512 >= size && (a.blocks - 1) * 512 < size
            &&& is_dir ==> a.perm == 0o755 && a.nlink == 2
            &&& !is_dir ==> a.perm == 0o644 && a.nlink == 1
        }),
{
}

/// The path of an entry is that of its directory, a slash and its name; the root needs no slash of
/// its own. Entries of different names have different paths.
pub proof fn law_paths_of_entries(parent: Seq<char>, a: Seq<char>, b: Seq<char>)
    ensures
        child_of("/"@, a) == seq!['/'] + a,
        parent != "/"@ ==> child_of(parent, a) == parent + seq!['/'] + a,
        child_of(parent, a) == child_of(parent, b) ==> a == b,
{
    reveal_strlit("/");
    assert("/"@ =~= seq!['/']);
    let p = if parent == "/"@ {
        "/"@
    } else {
        parent + "/"@
    };
    assert(child_of(parent, a).skip(p.len() as int) =~= a);
    assert(child_of(parent, b).skip(p.len() as int) =~= b);
}

/// A path that is looked up for the first time gets a number that no path has had, and nothing else
/// changes; one that is removed gives up its own alone.
pub proof fn law_lookups_change_one_path(t: TableView, p: Seq<char>, q: Seq<char>)
    requires
        table_ok(t),
        t.next_ino < u64::MAX,
        q != p,
    ensures
        with_path(t, p).inodes.contains_key(q) <==> t.inodes.contains_key(q),
        with_path(t, p).inodes[q] == t.inodes[q],
        !t.inodes.contains_key(p) ==> !t.paths.contains_key(with_path(t, p).inodes[p]),
        table_ok(with_path(t, p)),
        without_path(t, p).inodes.contains_key(q) <==> t.inodes.contains_key(q),
        without_path(t, p).inodes[q] == t.inodes[q],
        !t.inodes.contains_key(p) ==> without_path(t, p) == t && with_renamed(t, p, q) == t,
{
}

/// After a directory has been listed, each of its entries has an inode that leads back to it, and
/// every path that had one before has kept it.
pub proof fn law_listed_entries_are_known(
    t: TableView,
    path: Seq<char>,
    names: Seq<Seq<char>>,
    k: int,
)
    requires
        table_ok(t),
        t.next_ino + names.len() + 1 <= u64::MAX,
        0 <= k < names.len(),
    ensures
        ({
            let u = with_listed(t, path, names);
            let p = child_of(path, names[k]);
            &&& u.inodes.contains_key(p)
            &&& u.paths.contains_key(u.inodes[p])
            &&& u.paths[u.inodes[p]] == p
            &&& extends(t, u)
        }),
{
    let base = if path == "/"@ {
        t
    } else {
        with_path(t, parent_of(path))
    };
    lemma_children(base, path, names, k);
    assert(extends(t, base));
    assert forall|p: Seq<char>| #[trigger] t.inodes.contains_key(p) implies with_listed(
        t,
        path,
        names,
    ).inodes.contains_key(p) && with_listed(t, path, names).inodes[p] == t.inodes[p] by {
        assert(base.inodes.contains_key(p));
    }
}

proof fn lemma_children(t: TableView, path: Seq<char>, names: Seq<Seq<char>>, k: int)
    requires
        table_ok(t),
        t.next_ino + names.len() <= u64::MAX,
    ensures
        table_ok(with_children(t, path, names)),
        with_children(t, path, names).next_ino <= t.next_ino + names.len(),
        extends(t, with_children(t, path, names)),
        0 <= k < names.len() ==> with_children(t, path, names).inodes.contains_key(
            child_of(path, names[k]),
        ),
    decreases names.len(),
{
    if names.len() > 0 {
        lemma_children(t, path, names.drop_last(), k);
        if k == names.len() - 1 {
            assert(names[k] == names.last());
        }
    }
}

/// A read sees what is to be written before what was fetched, and what is to be stored is what a
/// read sees.
pub proof fn law_what_is_seen_is_stored(f: OpenView)
    ensures
        f.write_buf is Some ==> seen(f) == f.write_buf,
        f.write_buf is None ==> seen(f) == f.read_cache,
        to_store(f) matches Some(p) ==> p.0 == f.path && seen(f) == Some(p.1),
        f.dirty && f.write_buf is Some ==> to_store(f) is Some,
        !f.dirty ==> to_store(f) is None,
{
}

/// A time text is read as the seconds that it names.
pub proof fn law_seconds_are_read(n: u64)
    ensures
        seconds_in(crate::text::digits(n as nat)) == n,
{
    crate::text::law_number_round_trip(n as nat, u64::MAX as nat);
}

} // verus!
