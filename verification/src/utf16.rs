//! UTF-16, the form in which Windows keeps text.
use vstd::prelude::*;
use vstd::utf8::{char_is_scalar, char_u32_cast};
use crate::text::chars_of;

verus! {

/// The character that stands for what cannot be read.
pub const REPLACEMENT: char = '\u{FFFD}';

/// Is the unit the first half of a pair?
pub open spec fn is_high(u: u16) -> bool {
    0xD800 <= u <= 0xDBFF
}

/// Is the unit the second half of a pair?
pub open spec fn is_low(u: u16) -> bool {
    0xDC00 <= u <= 0xDFFF
}

/// The character that a pair stands for.
pub open spec fn pair_char(hi: u16, lo: u16) -> char {
    (0x10000 + (hi - 0xD800) * 0x400 + (lo - 0xDC00)) as u32 as char
}

/// The text of UTF-16 units. A half of a pair that stands alone is read as the replacement
/// character.
pub open spec fn utf16_text(s: Seq<u16>) -> Seq<char>
    decreases s.len(),
{
    if s.len() == 0 {
        Seq::<char>::empty()
    } else if is_high(s[0]) && s.len() > 1 && is_low(s[1]) {
        seq![pair_char(s[0], s[1])] + utf16_text(s.skip(2))
    } else if is_high(s[0]) || is_low(s[0]) {
        seq![REPLACEMENT] + utf16_text(s.skip(1))
    } else {
        seq![s[0] as u32 as char] + utf16_text(s.skip(1))
    }
}

/// The units of a character.
pub open spec fn units_of(c: char) -> Seq<u16> {
    let n = c as u32;
    if n < 0x10000 {
        seq![n as u16]
    } else {
        seq![(0xD800 + (n - 0x10000) / 0x400) as u16, (0xDC00 + (n - 0x10000) % 0x400) as u16]
    }
}

/// The units of a text.
pub open spec fn utf16_units(s: Seq<char>) -> Seq<u16>
    decreases s.len(),
{
    if s.len() == 0 {
        Seq::<u16>::empty()
    } else {
        units_of(s[0]) + utf16_units(s.skip(1))
    }
}

/// `char::from_u32` gives the character of a code, unless the code is too large or that of a half of
/// a pair.
pub assume_specification[ char::from_u32 ](n: u32) -> (r: Option<char>)
    ensures
        match r {
            Some(c) => c as u32 == n,
            None => n > 0x10FFFF || 0xD800 <= n <= 0xDFFF,
        },
;

fn char_of(n: u32) -> (r: char)
    requires
        n <= 0x10FFFF,
        !(0xD800 <= n <= 0xDFFF),
    ensures
        r == n as char,
{
    match char::from_u32(n) {
        Some(c) => {
            proof {
                char_u32_cast(c, n);
            }
            c
        },
        None => REPLACEMENT,
    }
}

/// The text of UTF-16 units.
pub fn decode_utf16(s: &[u16]) -> (r: String)
    ensures
        r@ == utf16_text(s@),
{
    let mut out: String = String::new();
    let mut i: usize = 0;
    proof {
        assert(s@.skip(0) =~= s@);
        assert(out@ + utf16_text(s@.skip(0)) =~= utf16_text(s@));
    }
    while i < s.len()
        invariant
            i <= s@.len(),
            out@ + utf16_text(s@.skip(i as int)) == utf16_text(s@),
        decreases s@.len() - i,
    {
        let ghost before = out@;
        let ghost rest = s@.skip(i as int);
        let u: u16 = s[i];
        proof {
            assert(rest[0] == u);
            assert(rest.skip(1) =~= s@.skip(i + 1));
        }
        if 0xD800 <= u && u <= 0xDBFF && s.len() - i > 1 && 0xDC00 <= s[i + 1] && s[i + 1]
            <= 0xDFFF {
            let v: u16 = s[i + 1];
            let c: char = char_of(0x10000 + (u as u32 - 0xD800) * 0x400 + (v as u32 - 0xDC00));
            out.push(c);
            proof {
                assert(rest[1] == v);
                assert(rest.skip(2) =~= s@.skip(i + 2));
                assert(c == pair_char(u, v));
                assert(out@ + utf16_text(s@.skip(i + 2)) =~= before + (seq![c] + utf16_text(
                    s@.skip(i + 2),
                )));
            }
            i = i + 2;
        } else {
            let c: char = if 0xD800 <= u && u <= 0xDFFF { REPLACEMENT } else { char_of(u as u32) };
            out.push(c);
            proof {
                assert(out@ + utf16_text(s@.skip(i + 1)) =~= before + (seq![c] + utf16_text(
                    s@.skip(i + 1),
                )));
            }
            i = i + 1;
        }
    }
    proof {
        assert(s@.skip(i as int) =~= Seq::<u16>::empty());
        assert(out@ + Seq::<char>::empty() =~= out@);
    }
    out
}

/// The units of a text.
pub fn encode_utf16(s: &str) -> (r: Vec<u16>)
    ensures
        r@ == utf16_units(s@),
{
    let v = chars_of(s);
    let mut out: Vec<u16> = Vec::new();
    let mut i: usize = 0;
    proof {
        assert(v@.skip(0) =~= v@);
        assert(out@ + utf16_units(v@.skip(0)) =~= utf16_units(v@));
    }
    while i < v.len()
        invariant
            i <= v@.len(),
            out@ + utf16_units(v@.skip(i as int)) == utf16_units(v@),
        decreases v@.len() - i,
    {
        let ghost before = out@;
        let c: char = v[i];
        let n: u32 = c as u32;
        if n < 0x10000 {
            out.push(n as u16);
        } else {
            out.push((0xD800 + (n - 0x10000) / 0x400) as u16);
            out.push((0xDC00 + (n - 0x10000) % 0x400) as u16);
        }
        proof {
            assert(v@.skip(i as int)[0] == c);
            assert(v@.skip(i as int).skip(1) =~= v@.skip(i + 1));
            assert(out@ =~= before + units_of(c));
            assert(out@ + utf16_units(v@.skip(i + 1)) =~= before + (units_of(c) + utf16_units(
                v@.skip(i + 1),
            )));
        }
        i = i + 1;
    }
    proof {
        assert(v@.skip(i as int) =~= Seq::<char>::empty());
        assert(out@ + Seq::<u16>::empty() =~= out@);
    }
    out
}

/// Reading back the units of a text gives the text.
pub proof fn law_utf16_round_trip(s: Seq<char>)
    ensures
        utf16_text(utf16_units(s)) == s,
    decreases s.len(),
{
    if s.len() > 0 {
        let rest = s.skip(1);
        law_utf16_round_trip(rest);
        let u = units_of(s[0]);
        let t = utf16_units(s);
        let n = s[0] as u32;
        char_is_scalar(s[0]);
        char_u32_cast(s[0], n);
        assert(t.skip(u.len() as int) =~= utf16_units(rest));
        if n < 0x10000 {
            assert(t[0] == n as u16);
            assert(utf16_text(t) =~= seq![s[0]] + rest);
        } else {
            let d = n - 0x10000;
            assert(d == d / 0x400 * 0x400 + d % 0x400);
            assert(t[0] == u[0] && t[1] == u[1]);
            assert(pair_char(t[0], t[1]) == s[0]);
            assert(utf16_text(t) =~= seq![s[0]] + rest);
        }
        assert(seq![s[0]] + rest =~= s);
    }
}

/// Half of a pair that stands alone is read as the replacement character, and what follows it is read
/// as if it were not there.
pub proof fn law_lone_halves(u: u16, rest: Seq<u16>)
    requires
        0xD800 <= u <= 0xDFFF,
        rest.len() == 0 || !(0xDC00 <= rest[0] <= 0xDFFF),
    ensures
        utf16_text(seq![u] + rest) == seq!['\u{FFFD}'] + utf16_text(rest),
{
    let s = seq![u] + rest;
    assert(s.skip(1) =~= rest);
    assert(s[0] == u);
    if rest.len() > 0 {
        assert(s[1] == rest[0]);
    }
}

} // verus!
