//! Texts between quotation marks, as JSON writes them.
use vstd::prelude::*;
use vstd::utf8::{char_is_scalar, char_u32_cast};
use crate::text::chars_of;

verus! {

/// Is the character one that cannot stand between quotation marks?
pub open spec fn is_control(c: char) -> bool {
    (c as u32) < 0x20
}

/// The letter that stands for a control character behind a backslash, where it has one.
pub open spec fn short_form(c: char) -> Option<char> {
    if c as u32 == 8 {
        Some('b')
    } else if c as u32 == 9 {
        Some('t')
    } else if c as u32 == 10 {
        Some('n')
    } else if c as u32 == 12 {
        Some('f')
    } else if c as u32 == 13 {
        Some('r')
    } else {
        None
    }
}

/// The control character that a letter behind a backslash stands for.
pub open spec fn long_form(c: char) -> Option<char> {
    if c == 'b' {
        Some(8u32 as char)
    } else if c == 't' {
        Some(9u32 as char)
    } else if c == 'n' {
        Some(10u32 as char)
    } else if c == 'f' {
        Some(12u32 as char)
    } else if c == 'r' {
        Some(13u32 as char)
    } else {
        None
    }
}

/// A hexadecimal digit, small letters from ten on.
pub open spec fn hex_of(d: int) -> char {
    if d < 10 {
        (48 + d) as char
    } else {
        (87 + d) as char
    }
}

/// The value of a hexadecimal digit, if it is one.
pub open spec fn hex_value(c: char) -> Option<int> {
    if '0' <= c <= '9' {
        Some(c as u32 - 48)
    } else if 'a' <= c <= 'f' {
        Some(c as u32 - 87)
    } else {
        None
    }
}

/// A character as it stands between quotation marks.
pub open spec fn escaped_char(c: char) -> Seq<char> {
    if c == '"' {
        seq!['\\', '"']
    } else if c == '\\' {
        seq!['\\', '\\']
    } else if short_form(c) is Some {
        seq!['\\', short_form(c)->0]
    } else if is_control(c) {
        seq!['\\', 'u', '0', '0', hex_of(c as u32 as int / 16), hex_of(c as u32 as int % 16)]
    } else {
        seq![c]
    }
}

/// A text as it stands between quotation marks.
pub open spec fn escaped(s: Seq<char>) -> Seq<char>
    decreases s.len(),
{
    if s.len() == 0 {
        s
    } else {
        escaped_char(s[0]) + escaped(s.skip(1))
    }
}

/// A text between quotation marks.
pub open spec fn quoted(s: Seq<char>) -> Seq<char> {
    seq!['"'] + escaped(s) + seq!['"']
}

/// The first character that a reader finds between quotation marks, and how many characters it is
/// written with; nothing where none can be read.
pub open spec fn first_read(t: Seq<char>) -> Option<(char, int)> {
    if t.len() == 0 || t[0] == '"' || is_control(t[0]) {
        None
    } else if t[0] != '\\' {
        Some((t[0], 1))
    } else if t.len() >= 2 && (t[1] == '"' || t[1] == '\\') {
        Some((t[1], 2))
    } else if t.len() >= 2 && long_form(t[1]) is Some {
        Some((long_form(t[1])->0, 2))
    } else if t.len() >= 6 && t[1] == 'u' && t[2] == '0' && t[3] == '0' && hex_value(t[4]) is Some
        && hex_value(t[5]) is Some {
        Some(((hex_value(t[4])->0 * 16 + hex_value(t[5])->0) as u32 as char, 6))
    } else {
        None
    }
}

/// What a reader finds between quotation marks; nothing where the text breaks the rules.
pub open spec fn read_back(t: Seq<char>) -> Option<Seq<char>>
    decreases t.len(),
{
    if t.len() == 0 {
        Some(Seq::<char>::empty())
    } else {
        match first_read(t) {
            None => None,
            Some(p) => match read_back(t.skip(p.1)) {
                None => None,
                Some(rest) => Some(seq![p.0] + rest),
            },
        }
    }
}

/// A text that was escaped is read back as it was, whatever it holds: it cannot end the quotation,
/// nor be taken for anything else.
pub proof fn law_escaped_is_read_back(s: Seq<char>)
    ensures
        read_back(escaped(s)) == Some(s),
    decreases s.len(),
{
    if s.len() > 0 {
        let c = s[0];
        let rest = escaped(s.skip(1));
        law_escaped_is_read_back(s.skip(1));
        let t = escaped(s);
        lemma_first_read(c, rest);
        assert(t.skip(escaped_char(c).len() as int) =~= rest);
        assert(seq![c] + s.skip(1) =~= s);
    }
}

proof fn lemma_first_read(c: char, rest: Seq<char>)
    ensures
        first_read(escaped_char(c) + rest) == Some((c, escaped_char(c).len() as int)),
{
    let t = escaped_char(c) + rest;
    if c != '"' && c != '\\' && short_form(c) is Some {
        let n = c as u32;
        char_is_scalar(c);
        char_u32_cast(c, n);
        assert(n as char == c);
        assert(t[0] == '\\' && t[1] == short_form(c)->0);
    } else if c != '"' && c != '\\' && is_control(c) {
        let n = c as u32;
        let hi = n as int / 16;
        let lo = n as int % 16;
        assert(0 <= hi < 8 && 0 <= lo < 16);
        lemma_hex(hi);
        lemma_hex(lo);
        assert(hi * 16 + lo == n);
        char_is_scalar(c);
        char_u32_cast(c, n);
        assert(n as char == c);
        assert(t[0] == '\\' && t[1] == 'u' && t[4] == hex_of(hi) && t[5] == hex_of(lo));
    } else {
        assert(t[0] == escaped_char(c)[0]);
    }
}

proof fn lemma_hex(d: int)
    requires
        0 <= d < 16,
    ensures
        hex_value(hex_of(d)) == Some(d),
{
    assert(d == 0 || d == 1 || d == 2 || d == 3 || d == 4 || d == 5 || d == 6 || d == 7 || d == 8
        || d == 9 || d == 10 || d == 11 || d == 12 || d == 13 || d == 14 || d == 15);
}

proof fn lemma_escaped_push(s: Seq<char>, c: char)
    ensures
        escaped(s.push(c)) == escaped(s) + escaped_char(c),
    decreases s.len(),
{
    if s.len() == 0 {
        reveal_with_fuel(escaped, 2);
        assert(s.push(c).skip(1) =~= Seq::<char>::empty());
        assert(escaped(s.push(c)) =~= escaped_char(c));
        assert(escaped(s) + escaped_char(c) =~= escaped_char(c));
    } else {
        lemma_escaped_push(s.skip(1), c);
        assert(s.push(c).skip(1) =~= s.skip(1).push(c));
        assert(escaped(s.push(c)) =~= escaped(s) + escaped_char(c));
    }
}

fn push_escaped_char(out: &mut String, c: char)
    ensures
        final(out)@ == old(out)@ + escaped_char(c),
{
    let n: u32 = c as u32;
    if c == '"' || c == '\\' {
        out.push('\\');
        out.push(c);
    } else if n == 8 || n == 9 || n == 10 || n == 12 || n == 13 {
        out.push('\\');
        out.push(
            if n == 8 {
                'b'
            } else if n == 9 {
                't'
            } else if n == 10 {
                'n'
            } else if n == 12 {
                'f'
            } else {
                'r'
            },
        );
    } else if n < 0x20 {
        let hi: u8 = (n / 16) as u8;
        let lo: u8 = (n % 16) as u8;
        out.push('\\');
        out.push('u');
        out.push('0');
        out.push('0');
        out.push((if hi < 10 { 48 + hi } else { 87 + hi }) as char);
        out.push((if lo < 10 { 48 + lo } else { 87 + lo }) as char);
    } else {
        out.push(c);
    }
    proof {
        assert(out@ =~= old(out)@ + escaped_char(c));
    }
}

/// Appends a text as it stands between quotation marks.
fn push_escaped(out: &mut String, s: &str)
    ensures
        final(out)@ == old(out)@ + escaped(s@),
{
    let v = chars_of(s);
    let ghost start = out@;
    let mut i: usize = 0;
    proof {
        assert(v@.take(0) =~= Seq::<char>::empty());
        assert(out@ =~= start + escaped(v@.take(0)));
    }
    while i < v.len()
        invariant
            v@ == s@,
            i <= v@.len(),
            out@ == start + escaped(v@.take(i as int)),
        decreases v@.len() - i,
    {
        push_escaped_char(out, v[i]);
        proof {
            lemma_escaped_push(v@.take(i as int), v@[i as int]);
            assert(v@.take(i + 1) =~= v@.take(i as int).push(v@[i as int]));
            assert(out@ =~= start + escaped(v@.take(i + 1)));
        }
        i = i + 1;
    }
    proof {
        assert(v@.take(v@.len() as int) =~= s@);
    }
}

/// Appends a text between quotation marks.
pub fn push_quoted(out: &mut String, s: &str)
    ensures
        final(out)@ == old(out)@ + quoted(s@),
{
    let ghost start = out@;
    out.push('"');
    push_escaped(out, s);
    out.push('"');
    proof {
        assert(out@ =~= start + quoted(s@));
    }
}

} // verus!
