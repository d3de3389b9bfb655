//! The order in which directory entries are shown: directories first, then by name, upper and
//! lower case alike.
use vstd::prelude::*;
use crate::text::{
    chars_of, lemma_lex_irreflexive, lemma_lex_total, lemma_lex_transitive, less, lex_lt,
    lowercase, str_eq, to_lowercase,
};
use crate::wsp::DirEntryMsg;

verus! {

/// What an entry is ordered by.
pub struct SortKey {
    pub is_dir: bool,
    pub name: Vec<char>,
}

pub struct KeyView {
    pub is_dir: bool,
    pub name: Seq<char>,
}

impl View for SortKey {
    type V = KeyView;

    open spec fn view(&self) -> KeyView {
        KeyView { is_dir: self.is_dir, name: self.name@ }
    }
}

/// Does the first key come before the second?
pub open spec fn key_lt(a: KeyView, b: KeyView) -> bool {
    if a.is_dir != b.is_dir {
        a.is_dir
    } else {
        lex_lt(a.name, b.name)
    }
}

/// Does entry `i` come before entry `j`? Of equal keys the one that stood first comes first.
pub open spec fn before(keys: Seq<KeyView>, i: int, j: int) -> bool {
    key_lt(keys[i], keys[j]) || (keys[i] == keys[j] && i < j)
}

/// Is `order` the list of all places, each once, in the order of the keys?
pub open spec fn in_order(keys: Seq<KeyView>, order: Seq<usize>) -> bool {
    &&& order.len() == keys.len()
    &&& forall|i: int| 0 <= i < order.len() ==> (#[trigger] order[i]) < keys.len()
    &&& forall|i: int, j: int|
        0 <= i < j < order.len() ==> before(
            keys,
            #[trigger] order[i] as int,
            #[trigger] order[j] as int,
        )
    &&& forall|x: usize| x < keys.len() ==> #[trigger] order.contains(x)
}

proof fn lemma_key_order(a: KeyView, b: KeyView, c: KeyView)
    ensures
        !key_lt(a, a),
        a == b || key_lt(a, b) || key_lt(b, a),
        key_lt(a, b) && key_lt(b, c) ==> key_lt(a, c),
{
    lemma_lex_irreflexive(a.name);
    lemma_lex_total(a.name, b.name);
    if key_lt(a, b) && key_lt(b, c) && a.is_dir == b.is_dir && b.is_dir == c.is_dir {
        lemma_lex_transitive(a.name, b.name, c.name);
    }
}

/// There is only one such order: two lists of all places in the order of the keys are equal.
pub proof fn law_order_is_unique(keys: Seq<KeyView>, p: Seq<usize>, q: Seq<usize>, n: int)
    requires
        in_order(keys, p),
        in_order(keys, q),
        0 <= n <= keys.len(),
    ensures
        p.take(n) == q.take(n),
        n == keys.len() ==> p == q,
    decreases n,
{
    if n > 0 {
        let k = n - 1;
        law_order_is_unique(keys, p, q, k);
        let x = p[k];
        let y = q[k];
        if x != y {
            assert(q.contains(x));
            assert(p.contains(y));
            let i = choose|i: int| 0 <= i < q.len() && q[i] == x;
            let j = choose|j: int| 0 <= j < p.len() && p[j] == y;
            if i < k {
                assert(p.take(k)[i] == q.take(k)[i]);
                assert(before(keys, p[i] as int, p[k] as int));
                lemma_key_order(keys[x as int], keys[x as int], keys[x as int]);
            }
            if j < k {
                assert(p.take(k)[j] == q.take(k)[j]);
                assert(before(keys, q[j] as int, q[k] as int));
                lemma_key_order(keys[y as int], keys[y as int], keys[y as int]);
            }
            assert(before(keys, q[k] as int, q[i] as int));
            assert(before(keys, p[k] as int, p[j] as int));
            lemma_key_order(keys[x as int], keys[y as int], keys[x as int]);
        }
        assert(p.take(n) =~= q.take(n));
    } else {
        assert(p.take(0) =~= q.take(0));
    }
    if n == keys.len() {
        assert(p.take(n) =~= p);
        assert(q.take(n) =~= q);
    }
}

/// Does the first key come before the second?
fn key_less(a: &SortKey, b: &SortKey) -> (r: bool)
    ensures
        r == key_lt(a@, b@),
{
    if a.is_dir != b.is_dir {
        a.is_dir
    } else {
        less(&a.name, &b.name)
    }
}

/// The views of the keys.
pub open spec fn key_views(keys: Seq<SortKey>) -> Seq<KeyView> {
    keys.map_values(|k: SortKey| k@)
}

/// The places of the entries in the order of their keys.
pub fn sort_order(keys: &Vec<SortKey>) -> (r: Vec<usize>)
    ensures
        in_order(key_views(keys@), r@),
{
    let ghost kv = key_views(keys@);
    let n: usize = keys.len();
    let mut order: Vec<usize> = Vec::new();
    let mut i: usize = 0;
    while i < n
        invariant
            n == keys@.len(),
            kv == key_views(keys@),
            i <= n,
            order@.len() == i,
            forall|a: int| 0 <= a < order@.len() ==> (#[trigger] order@[a]) < i,
            forall|a: int, b: int|
                0 <= a < b < order@.len() ==> before(
                    kv,
                    #[trigger] order@[a] as int,
                    #[trigger] order@[b] as int,
                ),
            forall|x: usize| x < i ==> #[trigger] order@.contains(x),
        decreases n - i,
    {
        let mut p: usize = i;
        while p > 0 && key_less(&keys[i], &keys[order[p - 1]])
            invariant
                n == keys@.len(),
                kv == key_views(keys@),
                i < n,
                p <= i,
                order@.len() == i,
                forall|a: int| 0 <= a < order@.len() ==> (#[trigger] order@[a]) < i,
                forall|a: int|
                    p <= a < order@.len() ==> key_lt(kv[i as int], kv[#[trigger] order@[a] as int]),
            decreases p,
        {
            p = p - 1;
        }
        let ghost old_order = order@;
        order.insert(p, i);
        proof {
            assert(order@ =~= old_order.insert(p as int, i));
            assert forall|a: int| 0 <= a < p implies before(
                kv,
                #[trigger] old_order[a] as int,
                i as int,
            ) by {
                let last = old_order[p - 1] as int;
                lemma_key_order(kv[i as int], kv[last], kv[i as int]);
                if a < p - 1 {
                    assert(before(kv, old_order[a] as int, old_order[p - 1] as int));
                    lemma_key_order(kv[old_order[a] as int], kv[last], kv[i as int]);
                }
            }
            assert forall|a: int, b: int| 0 <= a < b < order@.len() implies before(
                kv,
                #[trigger] order@[a] as int,
                #[trigger] order@[b] as int,
            ) by {
                let a0 = if a < p { a } else { a - 1 };
                let b0 = if b < p { b } else { b - 1 };
                if a == p {
                    assert(order@[b] == old_order[b0]);
                } else if b == p {
                    assert(order@[a] == old_order[a0]);
                } else {
                    assert(order@[a] == old_order[a0]);
                    assert(order@[b] == old_order[b0]);
                }
            }
            assert forall|x: usize| x < i + 1 implies #[trigger] order@.contains(x) by {
                if x == i {
                    assert(order@[p as int] == i);
                } else {
                    assert(old_order.contains(x));
                    let k = choose|k: int| 0 <= k < old_order.len() && old_order[k] == x;
                    let k1 = if k < p { k } else { k + 1 };
                    assert(order@[k1] == x);
                }
            }
        }
        i = i + 1;
    }
    order
}

/// An entry as a mathematical value.
pub struct EntryView {
    pub name: Seq<char>,
    pub is_dir: bool,
    pub size: u64,
    pub mtime: Seq<char>,
}

impl View for DirEntryMsg {
    type V = EntryView;

    open spec fn view(&self) -> EntryView {
        EntryView {
            name: self.name@,
            is_dir: self.is_dir,
            size: self.size,
            mtime: self.mtime@,
        }
    }
}

/// The views of the entries.
pub open spec fn entry_views(v: Seq<DirEntryMsg>) -> Seq<EntryView> {
    v.map_values(|e: DirEntryMsg| e@)
}

/// What an entry is ordered by.
pub open spec fn entry_key(e: EntryView) -> KeyView {
    KeyView { is_dir: e.is_dir, name: lowercase(e.name) }
}

pub open spec fn entry_keys(v: Seq<EntryView>) -> Seq<KeyView> {
    v.map_values(|e: EntryView| entry_key(e))
}

/// Is `r` the list `v` put in order?
pub open spec fn is_listing(v: Seq<EntryView>, r: Seq<EntryView>) -> bool {
    exists|order: Seq<usize>|
        {
            &&& #[trigger] in_order(entry_keys(v), order)
            &&& r == order.map_values(|i: usize| v[i as int])
        }
}

/// The entries without the trash directory.
pub open spec fn without_trash(v: Seq<EntryView>) -> Seq<EntryView>
    decreases v.len(),
{
    if v.len() == 0 {
        v
    } else if v.last().name == ".trash"@ {
        without_trash(v.drop_last())
    } else {
        without_trash(v.drop_last()).push(v.last())
    }
}

impl DirEntryMsg {
    /// An equal entry.
    pub fn duplicate(&self) -> (r: DirEntryMsg)
        ensures
            r@ == self@,
    {
        DirEntryMsg {
            name: self.name.clone(),
            is_dir: self.is_dir,
            size: self.size,
            mtime: self.mtime.clone(),
        }
    }
}

/// Puts entries in order.
pub fn sort_entries(v: &Vec<DirEntryMsg>) -> (r: Vec<DirEntryMsg>)
    ensures
        is_listing(entry_views(v@), entry_views(r@)),
{
    let ghost ev = entry_views(v@);
    let mut keys: Vec<SortKey> = Vec::new();
    let mut i: usize = 0;
    while i < v.len()
        invariant
            i <= v@.len(),
            ev == entry_views(v@),
            key_views(keys@) == entry_keys(ev).take(i as int),
        decreases v@.len() - i,
    {
        let low = to_lowercase(v[i].name.as_str());
        let ghost before = key_views(keys@);
        keys.push(SortKey { is_dir: v[i].is_dir, name: chars_of(low.as_str()) });
        proof {
            assert(key_views(keys@) =~= before.push(entry_key(ev[i as int])));
            assert(entry_keys(ev).take(i + 1) =~= entry_keys(ev).take(i as int).push(
                entry_key(ev[i as int]),
            ));
        }
        i = i + 1;
    }
    proof {
        assert(entry_keys(ev).take(v@.len() as int) =~= entry_keys(ev));
    }
    let order = sort_order(&keys);
    let mut out: Vec<DirEntryMsg> = Vec::new();
    let mut j: usize = 0;
    while j < order.len()
        invariant
            j <= order@.len(),
            order@.len() == v@.len(),
            ev == entry_views(v@),
            in_order(entry_keys(ev), order@),
            entry_views(out@) == order@.take(j as int).map_values(|i: usize| ev[i as int]),
        decreases order@.len() - j,
    {
        let ghost before = entry_views(out@);
        out.push(v[order[j]].duplicate());
        proof {
            assert(entry_views(out@) =~= before.push(ev[order@[j as int] as int]));
            assert(order@.take(j + 1).map_values(|i: usize| ev[i as int]) =~= order@.take(
                j as int,
            ).map_values(|i: usize| ev[i as int]).push(ev[order@[j as int] as int]));
        }
        j = j + 1;
    }
    proof {
        assert(order@.take(order@.len() as int) =~= order@);
    }
    out
}

/// The entries of a directory as they are sent to a client: without the trash, in order.
pub fn list_dir_entries(v: &Vec<DirEntryMsg>) -> (r: Vec<DirEntryMsg>)
    ensures
        is_listing(without_trash(entry_views(v@)), entry_views(r@)),
{
    let ghost ev = entry_views(v@);
    let mut kept: Vec<DirEntryMsg> = Vec::new();
    let mut i: usize = 0;
    proof {
        assert(ev.take(0) =~= Seq::<EntryView>::empty());
        assert(entry_views(kept@) =~= without_trash(ev.take(0)));
    }
    while i < v.len()
        invariant
            i <= v@.len(),
            ev == entry_views(v@),
            entry_views(kept@) == without_trash(ev.take(i as int)),
        decreases v@.len() - i,
    {
        proof {
            assert(ev.take(i + 1).drop_last() =~= ev.take(i as int));
            assert(ev.take(i + 1).last() == v@[i as int]@);
        }
        if !str_eq(v[i].name.as_str(), ".trash") {
            let ghost before = entry_views(kept@);
            kept.push(v[i].duplicate());
            proof {
                assert(entry_views(kept@) =~= before.push(v@[i as int]@));
            }
        }
        i = i + 1;
    }
    proof {
        assert(ev.take(v@.len() as int) =~= ev);
    }
    sort_entries(&kept)
}

/// In a listing directories come before files.
pub proof fn law_directories_come_first(v: Seq<EntryView>, r: Seq<EntryView>, i: int, j: int)
    requires
        is_listing(v, r),
        0 <= i < j < r.len(),
        r[j].is_dir,
    ensures
        r[i].is_dir,
{
    let order = choose|order: Seq<usize>|
        {
            &&& #[trigger] in_order(entry_keys(v), order)
            &&& r == order.map_values(|i: usize| v[i as int])
        };
    assert(before(entry_keys(v), order[i] as int, order[j] as int));
}

/// The trash is never listed.
pub proof fn law_trash_is_not_listed(v: Seq<EntryView>, r: Seq<EntryView>, i: int)
    requires
        is_listing(without_trash(v), r),
        0 <= i < r.len(),
    ensures
        r[i].name != ".trash"@,
{
    let w = without_trash(v);
    let order = choose|order: Seq<usize>|
        {
            &&& #[trigger] in_order(entry_keys(w), order)
            &&& r == order.map_values(|i: usize| w[i as int])
        };
    assert(order[i] < entry_keys(w).len());
    lemma_without_trash(v, order[i] as int);
}

proof fn lemma_without_trash(v: Seq<EntryView>, k: int)
    requires
        0 <= k < without_trash(v).len(),
    ensures
        without_trash(v)[k].name != ".trash"@,
    decreases v.len(),
{
    let f = without_trash(v.drop_last());
    if k < f.len() {
        lemma_without_trash(v.drop_last(), k);
    }
}

/// A listing holds every entry but the trash, each as often as the directory does, in the order of
/// their names in small letters: of two entries of one kind, the one whose name comes first stands
/// first.
pub proof fn law_listing_is_sorted(v: Seq<EntryView>, r: Seq<EntryView>, i: int, j: int)
    requires
        is_listing(v, r),
        0 <= i < j < r.len(),
    ensures
        r.len() == v.len(),
        r[i].is_dir == r[j].is_dir ==> !lex_lt(lowercase(r[j].name), lowercase(r[i].name)),
{
    let order = choose|order: Seq<usize>|
        {
            &&& #[trigger] in_order(entry_keys(v), order)
            &&& r == order.map_values(|i: usize| v[i as int])
        };
    let keys = entry_keys(v);
    assert(order[i] < keys.len() && order[j] < keys.len());
    assert(before(keys, order[i] as int, order[j] as int));
    let a = lowercase(r[i].name);
    let b = lowercase(r[j].name);
    crate::text::lemma_lex_irreflexive(a);
    if lex_lt(a, b) && lex_lt(b, a) {
        crate::text::lemma_lex_transitive(a, b, a);
    }
}

/// Every entry of the directory but the trash is listed.
pub proof fn law_nothing_is_left_out(v: Seq<EntryView>, r: Seq<EntryView>, i: int)
    requires
        is_listing(without_trash(v), r),
        v.len() <= usize::MAX,
        0 <= i < v.len(),
        v[i].name != ".trash"@,
    ensures
        r.contains(v[i]),
{
    let w = without_trash(v);
    lemma_kept(v, i);
    let k = choose|k: int| 0 <= k < w.len() && w[k] == v[i];
    let order = choose|order: Seq<usize>|
        {
            &&& #[trigger] in_order(entry_keys(w), order)
            &&& r == order.map_values(|i: usize| w[i as int])
        };
    assert(order.contains(k as usize));
    let n = choose|n: int| 0 <= n < order.len() && order[n] == k as usize;
    assert(r[n] == w[k]);
}

proof fn lemma_kept(v: Seq<EntryView>, i: int)
    requires
        0 <= i < v.len(),
        v[i].name != ".trash"@,
    ensures
        without_trash(v).contains(v[i]),
        without_trash(v).len() <= v.len(),
    decreases v.len(),
{
    let f = v.drop_last();
    let w = without_trash(v);
    lemma_kept_len(v);
    if i == v.len() - 1 {
        assert(w.last() == v[i]);
        assert(w[w.len() - 1] == v[i]);
    } else {
        lemma_kept(f, i);
        let k = choose|k: int| 0 <= k < without_trash(f).len() && without_trash(f)[k] == f[i];
        assert(w[k] == v[i]);
    }
}

proof fn lemma_kept_len(v: Seq<EntryView>)
    ensures
        without_trash(v).len() <= v.len(),
    decreases v.len(),
{
    if v.len() > 0 {
        lemma_kept_len(v.drop_last());
    }
}

} // verus!
