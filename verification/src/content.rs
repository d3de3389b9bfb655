//! The contents of a file in memory: reading, writing and cutting at any place.
use vstd::prelude::*;
use crate::bytes::byte_range;

verus! {

/// The contents after `data` was written at `off`; what lies between the old end and `off` is
/// filled with zeros.
pub open spec fn written(buf: Seq<u8>, off: int, data: Seq<u8>) -> Seq<u8> {
    Seq::new(
        if off + data.len() > buf.len() {
            (off + data.len()) as nat
        } else {
            buf.len()
        },
        |i: int|
            if off <= i < off + data.len() {
                data[i - off]
            } else if i < buf.len() {
                buf[i]
            } else {
                0u8
            },
    )
}

/// The contents cut to a length, or filled up to it with zeros.
pub open spec fn resized(buf: Seq<u8>, n: int) -> Seq<u8> {
    Seq::new(
        n as nat,
        |i: int|
            if i < buf.len() {
                buf[i]
            } else {
                0u8
            },
    )
}

/// Up to `len` bytes from `off` on; fewer at the end, none behind it.
pub open spec fn sliced(buf: Seq<u8>, off: int, len: int) -> Seq<u8> {
    if off >= buf.len() {
        Seq::<u8>::empty()
    } else if off + len > buf.len() {
        buf.skip(off)
    } else {
        buf.subrange(off, off + len)
    }
}

/// Up to `len` bytes from `off` on.
pub fn read_at(buf: &Vec<u8>, off: u64, len: usize) -> (r: Vec<u8>)
    ensures
        r@ == sliced(buf@, off as int, len as int),
{
    let n: usize = buf.len();
    if off >= n as u64 {
        return Vec::new();
    }
    let start: usize = off as usize;
    let end: usize = if len > n - start { n } else { start + len };
    proof {
        assert(buf@.subrange(start as int, n as int) =~= buf@.skip(start as int));
    }
    byte_range(buf.as_slice(), start, end)
}

/// Cuts the contents to a length, or fills them up to it with zeros.
pub fn resize(buf: &mut Vec<u8>, n: usize)
    ensures
        final(buf)@ == resized(old(buf)@, n as int),
{
    let ghost before = buf@;
    if n < buf.len() {
        buf.truncate(n);
    } else {
        while buf.len() < n
            invariant
                before.len() <= buf@.len() <= n,
                buf@ == resized(before, buf@.len() as int),
            decreases n - buf@.len(),
        {
            buf.push(0);
            proof {
                assert(buf@ =~= resized(before, buf@.len() as int));
            }
        }
    }
    proof {
        assert(buf@ =~= resized(before, n as int));
    }
}

/// Writes `data` at `off`.
pub fn write_at(buf: &mut Vec<u8>, off: usize, data: &[u8])
    requires
        off + data@.len() <= usize::MAX,
    ensures
        final(buf)@ == written(old(buf)@, off as int, data@),
{
    let ghost before = buf@;
    let end: usize = off + data.len();
    if end > buf.len() {
        resize(buf, end);
    }
    let ghost wide = buf@;
    let mut i: usize = 0;
    while i < data.len()
        invariant
            end == off + data@.len(),
            i <= data@.len(),
            end <= buf@.len(),
            buf@.len() == wide.len(),
            forall|k: int| off <= k < off + i ==> buf@[k] == data@[k - off],
            forall|k: int| 0 <= k < buf@.len() && !(off <= k < off + i) ==> buf@[k] == wide[k],
        decreases data@.len() - i,
    {
        buf.set(off + i, data[i]);
        i = i + 1;
    }
    proof {
        let w = written(before, off as int, data@);
        assert(buf@.len() == w.len());
        assert forall|k: int| 0 <= k < buf@.len() implies buf@[k] == w[k] by {
            if !(off <= k < off + data@.len()) {
                assert(buf@[k] == wide[k]);
            }
        }
        assert(buf@ =~= w);
    }
}

/// Reading what was just written gives it back.
pub proof fn law_read_after_write(buf: Seq<u8>, off: int, data: Seq<u8>)
    requires
        0 <= off,
    ensures
        sliced(written(buf, off, data), off, data.len() as int) == data,
{
    assert(sliced(written(buf, off, data), off, data.len() as int) =~= data);
}

/// A write changes nothing outside its range.
pub proof fn law_write_is_local(buf: Seq<u8>, off: int, data: Seq<u8>, i: int)
    requires
        0 <= i < buf.len(),
        !(off <= i < off + data.len()),
    ensures
        i < written(buf, off, data).len(),
        written(buf, off, data)[i] == buf[i],
{
}

/// Cutting and filling keep what stays, and fill with zeros.
pub proof fn law_resize(buf: Seq<u8>, n: int, i: int)
    requires
        0 <= i < n,
    ensures
        resized(buf, n).len() == n,
        resized(buf, n)[i] == if i < buf.len() {
            buf[i]
        } else {
            0
        },
{
}

/// A read gives the bytes from the offset on, each at its place: as many as were asked for, or all
/// up to the end of the file.
pub proof fn law_read_gives_the_bytes(buf: Seq<u8>, off: int, len: int)
    requires
        0 <= off,
        0 <= len,
    ensures
        off + len <= buf.len() ==> sliced(buf, off, len).len() == len,
        off <= buf.len() < off + len ==> sliced(buf, off, len).len() == buf.len() - off,
        off >= buf.len() ==> sliced(buf, off, len).len() == 0,
        forall|i: int|
            0 <= i < sliced(buf, off, len).len() ==> #[trigger] sliced(buf, off, len)[i] == buf[off
                + i],
{
}

/// A write makes a file longer only as far as its bytes reach, and never shorter; what lies between
/// the old end and the bytes is filled with zeros.
pub proof fn law_write_grows_as_needed(buf: Seq<u8>, off: int, data: Seq<u8>)
    requires
        0 <= off,
        data.len() > 0,
    ensures
        off + data.len() <= buf.len() ==> written(buf, off, data).len() == buf.len(),
        off + data.len() > buf.len() ==> written(buf, off, data).len() == off + data.len(),
        forall|i: int|
            buf.len() <= i < off ==> #[trigger] written(buf, off, data)[i] == 0,
        forall|i: int|
            0 <= i < data.len() ==> #[trigger] data[i] == written(buf, off, data)[off + i],
{
}

/// Reading a file piece by piece gives the whole file.
pub proof fn law_pieces_of_a_read_join(buf: Seq<u8>, off: int, a: int, b: int)
    requires
        0 <= off,
        0 <= a,
        0 <= b,
        off + a <= buf.len(),
    ensures
        sliced(buf, off, a) + sliced(buf, off + a, b) == sliced(buf, off, a + b),
{
    assert(sliced(buf, off, a) + sliced(buf, off + a, b) =~= sliced(buf, off, a + b));
}

} // verus!
