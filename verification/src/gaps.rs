//! The bytes of a file that have not arrived yet.
use vstd::prelude::*;
use vstd::set_lib::{lemma_int_range, lemma_set_disjoint_lens, set_int_range};

verus! {

/// The bytes from one offset up to another.
#[derive(Debug, Clone, Copy, PartialEq, Eq, Structural)]
pub struct Gap {
    pub from: u64,
    pub to: u64,
}

/// The size of a file, and the offsets of its bytes that have not arrived, as ranges in order.
#[derive(Debug)]
pub struct Gaps {
    size: u64,
    ranges: Vec<Gap>,
}

/// The offsets in several ranges.
pub open spec fn offsets(v: Seq<Gap>) -> Set<int> {
    Set::new(
        |i: int| exists|k: int| 0 <= k < v.len() && (#[trigger] v[k]).from <= i && i < v[k].to,
    )
}

/// Are the ranges in order, apart from each other, and none of them empty?
pub open spec fn in_order(v: Seq<Gap>) -> bool {
    &&& forall|k: int| 0 <= k < v.len() ==> (#[trigger] v[k]).from < v[k].to
    &&& forall|j: int, k: int|
        0 <= j < k < v.len() ==> (#[trigger] v[j]).to <= (#[trigger] v[k]).from
}

proof fn lemma_push(v: Seq<Gap>, g: Gap)
    ensures
        offsets(v.push(g)) == offsets(v) + set_int_range(g.from as int, g.to as int),
{
    let w = v.push(g);
    assert forall|i: int| offsets(w).contains(i) <==> (offsets(v) + set_int_range(
        g.from as int,
        g.to as int,
    )).contains(i) by {
        if offsets(w).contains(i) {
            let k = choose|k: int| 0 <= k < w.len() && (#[trigger] w[k]).from <= i && i < w[k].to;
            if k < v.len() {
                assert(v[k] == w[k]);
            }
        }
        if offsets(v).contains(i) {
            let k = choose|k: int| 0 <= k < v.len() && (#[trigger] v[k]).from <= i && i < v[k].to;
            assert(w[k] == v[k]);
        }
        if g.from <= i < g.to {
            assert(w[v.len() as int] == g);
        }
    }
    assert(offsets(w) =~= offsets(v) + set_int_range(g.from as int, g.to as int));
}

/// Ranges that are apart hold as many offsets as they are long, all together.
proof fn lemma_count(v: Seq<Gap>, n: int)
    requires
        in_order(v),
        0 <= n <= v.len(),
    ensures
        offsets(v.take(n)).finite(),
        n > 0 ==> offsets(v.take(n)).len() == offsets(v.take(n - 1)).len() + (v[n - 1].to
            - v[n - 1].from),
        n > 0 ==> offsets(v.take(n)).len() <= v[n - 1].to,
        n == 0 ==> offsets(v.take(n)).len() == 0,
    decreases n,
{
    if n == 0 {
        assert(offsets(v.take(0)) =~= Set::<int>::empty());
    } else {
        lemma_count(v, n - 1);
        let g = v[n - 1];
        assert(v.take(n) =~= v.take(n - 1).push(g));
        lemma_push(v.take(n - 1), g);
        lemma_int_range(g.from as int, g.to as int);
        let a = offsets(v.take(n - 1));
        let b = set_int_range(g.from as int, g.to as int);
        assert(a.disjoint(b)) by {
            assert forall|i: int| a.contains(i) implies !b.contains(i) by {
                let w = v.take(n - 1);
                let k = choose|k: int|
                    0 <= k < w.len() && (#[trigger] w[k]).from <= i && i < w[k].to;
                assert(v[k].to <= v[n - 1].from);
            }
        }
        lemma_set_disjoint_lens(a, b);
        if n > 1 {
            assert(v[n - 2].to <= v[n - 1].from);
        }
    }
}

impl View for Gaps {
    type V = Set<int>;

    closed spec fn view(&self) -> Set<int> {
        offsets(self.ranges@)
    }
}

impl Gaps {
    #[verifier::type_invariant]
    spec fn wf(&self) -> bool {
        in_order(self.ranges@) && forall|k: int|
            0 <= k < self.ranges@.len() ==> (#[trigger] self.ranges@[k]).to <= self.size
    }

    /// The size of the file.
    pub closed spec fn total(&self) -> u64 {
        self.size
    }

    /// A file of which the bytes before an offset are there, and none from it on.
    pub fn new(from: u64, to: u64) -> (r: Self)
        ensures
            r.total() == to,
            r@ == set_int_range(from as int, to as int),
    {
        let mut ranges: Vec<Gap> = Vec::new();
        proof {
            assert(offsets(ranges@) =~= Set::<int>::empty());
            lemma_push(ranges@, Gap { from, to });
        }
        if from < to {
            ranges.push(Gap { from, to });
            proof {
                assert(offsets(ranges@) =~= set_int_range(from as int, to as int));
            }
        } else {
            proof {
                assert(offsets(ranges@) =~= set_int_range(from as int, to as int));
            }
        }
        Gaps { size: to, ranges }
    }

    /// What is missing after the bytes from one offset up to another have arrived.
    pub fn filled(&self, from: u64, to: u64) -> (r: Self)
        ensures
            r.total() == self.total(),
            r@ == self@.difference(set_int_range(from as int, to as int)),
    {
        proof {
            use_type_invariant(self);
        }
        let mut out: Vec<Gap> = Vec::new();
        let mut i: usize = 0;
        let ghost v = self.ranges@;
        let ghost cut = set_int_range(from as int, to as int);
        proof {
            assert(offsets(v.take(0)) =~= Set::<int>::empty());
            assert(offsets(out@) =~= offsets(v.take(0)).difference(cut));
        }
        while i < self.ranges.len()
            invariant
                v == self.ranges@,
                cut == set_int_range(from as int, to as int),
                in_order(v),
                i <= v.len(),
                in_order(out@),
                forall|k: int| 0 <= k < v.len() ==> (#[trigger] v[k]).to <= self.size,
                forall|k: int|
                    0 <= k < out@.len() ==> i > 0 && (#[trigger] out@[k]).to <= v[i - 1].to,
                offsets(out@) == offsets(v.take(i as int)).difference(cut),
            decreases v.len() - i,
        {
            let g = self.ranges[i];
            let ghost before = out@;
            proof {
                assert(v.take(i + 1) =~= v.take(i as int).push(g));
                lemma_push(v.take(i as int), g);
                if i > 0 {
                    assert(v[i - 1].to <= v[i as int].from);
                }
            }
            let left: u64 = if g.to < from || from >= to { g.to } else { from };
            if g.from < left {
                proof {
                    lemma_push(out@, Gap { from: g.from, to: left });
                }
                out.push(Gap { from: g.from, to: left });
            }
            let right: u64 = if g.from > to { g.from } else { to };
            if from < to && right < g.to {
                proof {
                    lemma_push(out@, Gap { from: right, to: g.to });
                }
                out.push(Gap { from: right, to: g.to });
            }
            proof {
                assert(offsets(out@) =~= offsets(v.take(i + 1)).difference(cut));
            }
            i = i + 1;
        }
        proof {
            assert(v.take(v.len() as int) =~= v);
        }
        Gaps { size: self.size, ranges: out }
    }

    /// The size of the file.
    pub fn size(&self) -> (r: u64)
        ensures
            r == self.total(),
    {
        self.size
    }

    /// How many bytes have arrived. All have if and only if none is missing.
    pub fn received(&self) -> (r: u64)
        ensures
            self@.finite(),
            r == self.total() - self@.len(),
            forall|i: int| #[trigger] self@.contains(i) ==> 0 <= i < self.total(),
    {
        proof {
            use_type_invariant(self);
        }
        let mut n: u64 = 0;
        let mut i: usize = 0;
        let ghost v = self.ranges@;
        proof {
            lemma_count(v, 0);
        }
        while i < self.ranges.len()
            invariant
                v == self.ranges@,
                in_order(v),
                i <= v.len(),
                n == offsets(v.take(i as int)).len(),
            decreases v.len() - i,
        {
            let g = self.ranges[i];
            proof {
                lemma_count(v, i + 1);
            }
            n = n + (g.to - g.from);
            i = i + 1;
        }
        proof {
            lemma_count(v, v.len() as int);
            assert(v.take(v.len() as int) =~= v);
            if v.len() > 0 {
                assert(v[v.len() - 1].to <= self.size);
            }
        }
        self.size - n
    }
}

} // verus!
