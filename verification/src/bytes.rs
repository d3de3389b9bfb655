//! Integers as bytes, most significant byte first.
use vstd::arithmetic::div_mod::{
    lemma_div_denominator, lemma_fundamental_div_mod, lemma_fundamental_div_mod_converse,
};
use vstd::prelude::*;

verus! {

/// The four bytes of a 32-bit number.
pub open spec fn be32(n: u32) -> Seq<u8> {
    seq![
        (n as int / 0x1000000) as u8,
        (n as int / 0x10000 % 0x100) as u8,
        (n as int / 0x100 % 0x100) as u8,
        (n as int % 0x100) as u8,
    ]
}

/// The 32-bit number that four bytes stand for.
pub open spec fn from_be32(s: Seq<u8>) -> int {
    s[0] * 0x1000000 + s[1] * 0x10000 + s[2] * 0x100 + s[3]
}

/// The eight bytes of a 64-bit number.
pub open spec fn be64(n: u64) -> Seq<u8> {
    be32((n as int / 0x1_0000_0000) as u32) + be32((n as int % 0x1_0000_0000) as u32)
}

/// The 64-bit number that eight bytes stand for.
pub open spec fn from_be64(s: Seq<u8>) -> int {
    from_be32(s.take(4)) * 0x1_0000_0000 + from_be32(s.skip(4))
}

/// A 32-bit number is what its bytes stand for.
pub proof fn law_be32(n: u32)
    ensures
        from_be32(be32(n)) == n,
{
    let x = n as int;
    lemma_div_denominator(x, 0x100, 0x100);
    lemma_div_denominator(x, 0x10000, 0x100);
    lemma_fundamental_div_mod(x, 0x100);
    lemma_fundamental_div_mod(x / 0x100, 0x100);
    lemma_fundamental_div_mod(x / 0x10000, 0x100);
}

/// Four bytes are those of the number that they stand for.
pub proof fn law_from_be32(s: Seq<u8>)
    requires
        s.len() == 4,
    ensures
        0 <= from_be32(s) <= u32::MAX,
        be32(from_be32(s) as u32) == s,
{
    let x = from_be32(s);
    let top = s[0] * 0x100 + s[1];
    lemma_fundamental_div_mod_converse(x, 0x1000000, s[0] as int, s[1] * 0x10000 + s[2] * 0x100 + s[3]);
    lemma_fundamental_div_mod_converse(x, 0x10000, top, s[2] * 0x100 + s[3]);
    lemma_fundamental_div_mod_converse(top, 0x100, s[0] as int, s[1] as int);
    lemma_fundamental_div_mod_converse(x, 0x100, top * 0x100 + s[2], s[3] as int);
    lemma_fundamental_div_mod_converse(top * 0x100 + s[2], 0x100, top, s[2] as int);
    assert(be32(x as u32) =~= s);
}

/// A 64-bit number is what its bytes stand for.
pub proof fn law_be64(n: u64)
    ensures
        from_be64(be64(n)) == n,
{
    let hi = (n as int / 0x1_0000_0000) as u32;
    let lo = (n as int % 0x1_0000_0000) as u32;
    law_be32(hi);
    law_be32(lo);
    lemma_fundamental_div_mod(n as int, 0x1_0000_0000);
    assert(be64(n).take(4) =~= be32(hi));
    assert(be64(n).skip(4) =~= be32(lo));
}

/// Eight bytes are those of the number that they stand for.
pub proof fn law_from_be64(s: Seq<u8>)
    requires
        s.len() == 8,
    ensures
        0 <= from_be64(s) <= u64::MAX,
        be64(from_be64(s) as u64) == s,
{
    let hi = from_be32(s.take(4));
    let lo = from_be32(s.skip(4));
    law_from_be32(s.take(4));
    law_from_be32(s.skip(4));
    lemma_fundamental_div_mod_converse(from_be64(s), 0x1_0000_0000, hi, lo);
    assert(s =~= s.take(4) + s.skip(4));
}

/// Appends the four bytes of a number.
pub fn push_be32(out: &mut Vec<u8>, n: u32)
    ensures
        final(out)@ == old(out)@ + be32(n),
{
    out.push((n / 0x1000000) as u8);
    out.push((n / 0x10000 % 0x100) as u8);
    out.push((n / 0x100 % 0x100) as u8);
    out.push((n % 0x100) as u8);
    proof {
        assert(out@ =~= old(out)@ + be32(n));
    }
}

/// Appends the eight bytes of a number.
pub fn push_be64(out: &mut Vec<u8>, n: u64)
    ensures
        final(out)@ == old(out)@ + be64(n),
{
    push_be32(out, (n / 0x1_0000_0000) as u32);
    push_be32(out, (n % 0x1_0000_0000) as u32);
    proof {
        assert(out@ =~= old(out)@ + be64(n));
    }
}

/// The number whose four bytes stand at `at`.
pub fn read_be32(data: &[u8], at: usize) -> (r: u32)
    requires
        at + 4 <= data@.len(),
    ensures
        r == from_be32(data@.subrange(at as int, at + 4)),
{
    let a: u32 = data[at] as u32;
    let b: u32 = data[at + 1] as u32;
    let c: u32 = data[at + 2] as u32;
    let d: u32 = data[at + 3] as u32;
    a * 0x1000000 + b * 0x10000 + c * 0x100 + d
}

/// The number whose eight bytes stand at `at`.
pub fn read_be64(data: &[u8], at: usize) -> (r: u64)
    requires
        at + 8 <= data@.len(),
    ensures
        r == from_be64(data@.subrange(at as int, at + 8)),
{
    let n: usize = data.len();
    let hi: u32 = read_be32(data, at);
    let lo: u32 = read_be32(data, at + 4);
    proof {
        let s = data@.subrange(at as int, at + 8);
        assert(s.take(4) =~= data@.subrange(at as int, at + 4));
        assert(s.skip(4) =~= data@.subrange(at + 4, at + 8));
    }
    assert(at + 8 <= n);
    (hi as u64) * 0x1_0000_0000 + lo as u64
}

/// Appends the bytes of `data` from `lo` up to `hi`.
pub fn push_range(out: &mut Vec<u8>, data: &[u8], lo: usize, hi: usize)
    requires
        lo <= hi <= data@.len(),
    ensures
        final(out)@ == old(out)@ + data@.subrange(lo as int, hi as int),
{
    let ghost before = out@;
    let mut i: usize = lo;
    while i < hi
        invariant
            lo <= i <= hi <= data@.len(),
            out@ == before + data@.subrange(lo as int, i as int),
        decreases hi - i,
    {
        out.push(data[i]);
        proof {
            assert(out@ =~= before + data@.subrange(lo as int, i + 1));
        }
        i = i + 1;
    }
}

/// The bytes of `data` from `lo` up to `hi`.
pub fn byte_range(data: &[u8], lo: usize, hi: usize) -> (r: Vec<u8>)
    requires
        lo <= hi <= data@.len(),
    ensures
        r@ == data@.subrange(lo as int, hi as int),
{
    let mut out: Vec<u8> = Vec::new();
    push_range(&mut out, data, lo, hi);
    proof {
        assert(out@ =~= data@.subrange(lo as int, hi as int));
    }
    out
}

/// The most significant byte comes first: the value of the bytes is read digit by digit in base 256.
pub proof fn law_big_endian(n: u32, m: u64)
    ensures
        be32(n).len() == 4,
        be32(n)[0] * 16777216 + be32(n)[1] * 65536 + be32(n)[2] * 256 + be32(n)[3] == n,
        be64(m).len() == 8,
        be64(m)[0] * 72057594037927936 + be64(m)[1] * 281474976710656 + be64(m)[2] * 1099511627776
            + be64(m)[3] * 4294967296 + be64(m)[4] * 16777216 + be64(m)[5] * 65536 + be64(m)[6]
            * 256 + be64(m)[7] == m,
{
    law_be32(n);
    law_be64(m);
    let s = be64(m);
    assert(s.take(4)[0] == s[0] && s.take(4)[1] == s[1] && s.take(4)[2] == s[2] && s.take(4)[3]
        == s[3]);
    assert(s.skip(4)[0] == s[4] && s.skip(4)[1] == s[5] && s.skip(4)[2] == s[6] && s.skip(4)[3]
        == s[7]);
}

} // verus!
