//! Strings as sequences of characters: splitting, trimming, decimal numbers, order.
use vstd::prelude::*;

verus! {

/// `String::push` appends one character at the end of the string.
pub assume_specification[ String::push ](s: &mut String, c: char)
    ensures
        final(s)@ == old(s)@.push(c),
;

/// The name of what `str::to_lowercase` returns.
pub uninterp spec fn lowercase(s: Seq<char>) -> Seq<char>;

/// Calls `str::to_lowercase`, the Unicode lower case of a string. The result is a function of the
/// characters of the string alone; which function is left to the Unicode tables.
#[verifier::external_body]
pub(crate) fn to_lowercase(s: &str) -> (r: String)
    ensures
        r@ == lowercase(s@),
{
    s.to_lowercase()
}

/// The characters with the Unicode property `White_Space`.
pub open spec fn is_white(c: char) -> bool {
    let n = c as u32;
    ||| 9 <= n <= 13
    ||| n == 0x20
    ||| n == 0x85
    ||| n == 0xA0
    ||| n == 0x1680
    ||| 0x2000 <= n <= 0x200A
    ||| n == 0x2028
    ||| n == 0x2029
    ||| n == 0x202F
    ||| n == 0x205F
    ||| n == 0x3000
}

/// `s` without its leading white space.
pub open spec fn trim_start(s: Seq<char>) -> Seq<char>
    decreases s.len(),
{
    if s.len() > 0 && is_white(s[0]) {
        trim_start(s.skip(1))
    } else {
        s
    }
}

/// `s` without its trailing white space.
pub open spec fn trim_end(s: Seq<char>) -> Seq<char>
    decreases s.len(),
{
    if s.len() > 0 && is_white(s.last()) {
        trim_end(s.drop_last())
    } else {
        s
    }
}

/// `s` without the white space at both ends.
pub open spec fn trimmed(s: Seq<char>) -> Seq<char> {
    trim_end(trim_start(s))
}

/// `s` without the leading characters that equal `c`.
pub open spec fn trim_start_of(s: Seq<char>, c: char) -> Seq<char>
    decreases s.len(),
{
    if s.len() > 0 && s[0] == c {
        trim_start_of(s.skip(1), c)
    } else {
        s
    }
}

/// `s` without the trailing characters that equal `c`.
pub open spec fn trim_end_of(s: Seq<char>, c: char) -> Seq<char>
    decreases s.len(),
{
    if s.len() > 0 && s.last() == c {
        trim_end_of(s.drop_last(), c)
    } else {
        s
    }
}

/// The pieces of `s` between the occurrences of `c`; there is always at least one.
pub open spec fn split_on(s: Seq<char>, c: char) -> Seq<Seq<char>>
    decreases s.len(),
{
    if s.len() == 0 {
        seq![Seq::<char>::empty()]
    } else {
        let before = split_on(s.drop_last(), c);
        if s.last() == c {
            before.push(Seq::<char>::empty())
        } else {
            before.drop_last().push(before.last().push(s.last()))
        }
    }
}

/// The parts one after the other, with `c` between neighbours.
pub open spec fn joined(parts: Seq<Seq<char>>, c: char) -> Seq<char>
    decreases parts.len(),
{
    if parts.len() == 0 {
        Seq::<char>::empty()
    } else if parts.len() == 1 {
        parts[0]
    } else {
        joined(parts.drop_last(), c).push(c) + parts.last()
    }
}

/// Does the comma-separated list hold the item, white space around it aside?
pub open spec fn list_holds(list: Seq<char>, item: Seq<char>) -> bool {
    exists|i: int|
        0 <= i < split_on(list, ',').len() && trimmed(#[trigger] split_on(list, ',')[i]) == item
}

/// `s` with every `a` replaced by `b`.
pub open spec fn replaced(s: Seq<char>, a: char, b: char) -> Seq<char> {
    s.map_values(|c: char| if c == a { b } else { c })
}

/// The text up to the first `c`, and the text behind it.
pub open spec fn cut_at(s: Seq<char>, c: char) -> Option<(Seq<char>, Seq<char>)> {
    if s.contains(c) {
        let i = first_of(s, c);
        Some((s.take(i), s.skip(i + 1)))
    } else {
        None
    }
}

/// The place of the first `c`, or the length of `s` where there is none.
pub open spec fn first_of(s: Seq<char>, c: char) -> int
    decreases s.len(),
{
    if s.len() == 0 || s[0] == c {
        0
    } else {
        1 + first_of(s.skip(1), c)
    }
}

/// One decimal digit as a character.
pub open spec fn digit(d: nat) -> char {
    (48 + d % 10) as char
}

/// The decimal digits of a number, without leading zeros.
pub open spec fn digits(n: nat) -> Seq<char>
    decreases n,
{
    if n < 10 {
        seq![digit(n)]
    } else {
        digits(n / 10).push(digit(n % 10))
    }
}

/// The decimal digits of a number, filled up with zeros to a width.
pub open spec fn padded(n: nat, width: nat) -> Seq<char> {
    let d = digits(n);
    if d.len() >= width {
        d
    } else {
        Seq::new((width - d.len()) as nat, |i: int| '0') + d
    }
}

/// Is the character a decimal digit?
pub open spec fn is_digit(c: char) -> bool {
    '0' <= c <= '9'
}

/// Are all the characters decimal digits?
pub open spec fn all_digits(s: Seq<char>) -> bool {
    forall|k: int| 0 <= k < s.len() ==> is_digit(#[trigger] s[k])
}

/// The number that a sequence of digits stands for.
pub open spec fn digits_value(s: Seq<char>) -> nat
    decreases s.len(),
{
    if s.len() == 0 {
        0
    } else {
        digits_value(s.drop_last()) * 10 + (s.last() as nat - 48) as nat
    }
}

/// The number that a text stands for: an optional plus sign and one or more digits, no larger
/// than `max`.
pub open spec fn number_in(s: Seq<char>, max: nat) -> Option<nat> {
    let d = if s.len() > 0 && s[0] == '+' {
        s.skip(1)
    } else {
        s
    };
    if d.len() > 0 && all_digits(d) && digits_value(d) <= max {
        Some(digits_value(d))
    } else {
        None
    }
}

/// Does `a` stand before `b` in the order of character codes?
pub open spec fn lex_lt(a: Seq<char>, b: Seq<char>) -> bool
    decreases a.len(),
{
    if b.len() == 0 {
        false
    } else if a.len() == 0 {
        true
    } else if a[0] != b[0] {
        a[0] < b[0]
    } else {
        lex_lt(a.skip(1), b.skip(1))
    }
}

/// The views of the strings in a list.
pub open spec fn texts(v: Seq<String>) -> Seq<Seq<char>> {
    v.map_values(|s: String| s@)
}

/// The view of a string that may be absent.
pub open spec fn text_of(o: Option<String>) -> Option<Seq<char>> {
    match o {
        Some(s) => Some(s@),
        None => None,
    }
}

/// The characters of a string, in order.
pub fn chars_of(s: &str) -> (r: Vec<char>)
    ensures
        r@ == s@,
{
    let mut out: Vec<char> = Vec::new();
    for c in it: s.chars()
        invariant
            out@ == it.seq().take(it.index()),
    {
        out.push(c);
    }
    out
}

/// The string made of the characters from `lo` up to `hi`.
pub fn string_of(v: &[char], lo: usize, hi: usize) -> (r: String)
    requires
        lo <= hi <= v@.len(),
    ensures
        r@ == v@.subrange(lo as int, hi as int),
{
    let mut out: String = String::new();
    let mut i: usize = lo;
    while i < hi
        invariant
            lo <= i <= hi <= v@.len(),
            out@ == v@.subrange(lo as int, i as int),
        decreases hi - i,
    {
        out.push(v[i]);
        proof {
            assert(v@.subrange(lo as int, i + 1) =~= v@.subrange(lo as int, i as int).push(v@[i as int]));
        }
        i = i + 1;
    }
    out
}

/// Are the two strings equal, character by character?
pub fn str_eq(a: &str, b: &str) -> (r: bool)
    ensures
        r == (a@ == b@),
{
    a.to_owned() == b.to_owned()
}

/// A copy of an optional string.
pub fn clone_text(o: &Option<String>) -> (r: Option<String>)
    ensures
        text_of(r) == text_of(*o),
{
    match o {
        Some(s) => Some(s.clone()),
        None => None,
    }
}

/// Appends the decimal digits of `n`.
pub fn push_number(out: &mut String, n: u64)
    ensures
        final(out)@ == old(out)@ + digits(n as nat),
    decreases n,
{
    if n >= 10 {
        push_number(out, n / 10);
    }
    let d: u8 = 48 + (n % 10) as u8;
    out.push(d as char);
    proof {
        if n >= 10 {
            assert(out@ =~= old(out)@ + digits(n as nat));
        } else {
            assert(out@ =~= old(out)@ + seq![digit(n as nat)]);
        }
    }
}

/// The decimal digits of `n`.
pub fn number(n: u64) -> (r: String)
    ensures
        r@ == digits(n as nat),
{
    let mut out: String = String::new();
    push_number(&mut out, n);
    proof {
        assert(Seq::<char>::empty() + digits(n as nat) =~= digits(n as nat));
    }
    out
}

/// Appends the decimal digits of `n`, filled up with zeros to a width.
pub fn push_padded(out: &mut String, n: u64, width: usize)
    ensures
        final(out)@ == old(out)@ + padded(n as nat, width as nat),
{
    let d = number(n);
    let len: usize = chars_of(d.as_str()).len();
    let ghost before = out@;
    if len < width {
        let mut i: usize = len;
        while i < width
            invariant
                len <= i <= width,
                out@ == before + Seq::new((i - len) as nat, |k: int| '0'),
            decreases width - i,
        {
            out.push('0');
            proof {
                assert(Seq::new((i + 1 - len) as nat, |k: int| '0') =~= Seq::new((i - len) as nat, |k: int| '0').push('0'));
                assert(out@ =~= before + Seq::new((i + 1 - len) as nat, |k: int| '0'));
            }
            i = i + 1;
        }
    }
    out.append(d.as_str());
    proof {
        assert(out@ =~= before + padded(n as nat, width as nat));
    }
}

/// `s` without the white space at both ends.
pub fn trim(s: &str) -> (r: String)
    ensures
        r@ == trimmed(s@),
{
    let v = chars_of(s);
    let n: usize = v.len();
    let mut lo: usize = 0;
    proof {
        assert(v@.skip(0) =~= v@);
    }
    while lo < n && white(v[lo])
        invariant
            n == v@.len(),
            lo <= n,
            trim_start(v@.skip(lo as int)) == trim_start(v@),
        decreases n - lo,
    {
        proof {
            assert(v@.skip(lo as int).skip(1) =~= v@.skip(lo + 1));
        }
        lo = lo + 1;
    }
    let mut hi: usize = n;
    let ghost core = v@.skip(lo as int);
    proof {
        assert(trim_start(v@) == core);
        assert(v@.subrange(lo as int, n as int) =~= core);
    }
    while hi > lo && white(v[hi - 1])
        invariant
            n == v@.len(),
            lo <= hi <= n,
            trim_end(v@.subrange(lo as int, hi as int)) == trim_end(core),
        decreases hi - lo,
    {
        proof {
            assert(v@.subrange(lo as int, hi as int).drop_last() =~= v@.subrange(lo as int, hi - 1));
        }
        hi = hi - 1;
    }
    string_of(v.as_slice(), lo, hi)
}

/// Is the character white space?
pub fn white(c: char) -> (r: bool)
    ensures
        r == is_white(c),
{
    let n: u32 = c as u32;
    (9 <= n && n <= 13) || n == 0x20 || n == 0x85 || n == 0xA0 || n == 0x1680 || (0x2000 <= n && n
        <= 0x200A) || n == 0x2028 || n == 0x2029 || n == 0x202F || n == 0x205F || n == 0x3000
}

/// `s` without the leading characters that equal `c`.
pub fn strip_leading(s: &str, c: char) -> (r: String)
    ensures
        r@ == trim_start_of(s@, c),
{
    let v = chars_of(s);
    let n: usize = v.len();
    let mut lo: usize = 0;
    proof {
        assert(v@.skip(0) =~= v@);
    }
    while lo < n && v[lo] == c
        invariant
            n == v@.len(),
            lo <= n,
            trim_start_of(v@.skip(lo as int), c) == trim_start_of(v@, c),
        decreases n - lo,
    {
        proof {
            assert(v@.skip(lo as int).skip(1) =~= v@.skip(lo + 1));
        }
        lo = lo + 1;
    }
    proof {
        assert(v@.subrange(lo as int, n as int) =~= v@.skip(lo as int));
    }
    string_of(v.as_slice(), lo, n)
}

/// `s` without the trailing characters that equal `c`.
pub fn strip_trailing(s: &str, c: char) -> (r: String)
    ensures
        r@ == trim_end_of(s@, c),
{
    let v = chars_of(s);
    let mut hi: usize = v.len();
    proof {
        assert(v@.take(hi as int) =~= v@);
    }
    while hi > 0 && v[hi - 1] == c
        invariant
            hi <= v@.len(),
            trim_end_of(v@.take(hi as int), c) == trim_end_of(v@, c),
        decreases hi,
    {
        proof {
            assert(v@.take(hi as int).drop_last() =~= v@.take(hi - 1));
        }
        hi = hi - 1;
    }
    proof {
        assert(v@.subrange(0, hi as int) =~= v@.take(hi as int));
    }
    string_of(v.as_slice(), 0, hi)
}

/// The pieces of `s` between the occurrences of `c`.
pub fn split(s: &str, c: char) -> (r: Vec<String>)
    ensures
        texts(r@) == split_on(s@, c),
{
    let v = chars_of(s);
    let n: usize = v.len();
    let mut out: Vec<String> = Vec::new();
    let mut current: String = String::new();
    let mut i: usize = 0;
    proof {
        assert(texts(out@).push(current@) =~= seq![Seq::<char>::empty()]);
    }
    while i < n
        invariant
            n == v@.len(),
            i <= n,
            split_on(v@.take(i as int), c) == texts(out@).push(current@),
        decreases n - i,
    {
        proof {
            assert(v@.take(i + 1).drop_last() =~= v@.take(i as int));
            assert(texts(out@).push(current@).drop_last() =~= texts(out@));
        }
        let ghost pieces = texts(out@);
        let ghost piece = current@;
        let ch: char = v[i];
        if ch == c {
            out.push(current);
            current = String::new();
            proof {
                assert(texts(out@) =~= pieces.push(piece));
            }
        } else {
            current.push(ch);
        }
        i = i + 1;
    }
    let ghost pieces = texts(out@);
    let ghost piece = current@;
    out.push(current);
    proof {
        assert(texts(out@) =~= pieces.push(piece));
        assert(v@.take(n as int) =~= s@);
    }
    out
}

/// Does the comma-separated list hold the item, white space around it aside?
pub fn list_has(list: &str, item: &str) -> (r: bool)
    ensures
        r == list_holds(list@, item@),
{
    let pieces = split(list, ',');
    let mut i: usize = 0;
    while i < pieces.len()
        invariant
            texts(pieces@) == split_on(list@, ','),
            i <= pieces@.len(),
            forall|k: int| 0 <= k < i ==> trimmed(#[trigger] split_on(list@, ',')[k]) != item@,
        decreases pieces@.len() - i,
    {
        let piece = trim(pieces[i].as_str());
        proof {
            assert(texts(pieces@)[i as int] == pieces@[i as int]@);
        }
        if str_eq(piece.as_str(), item) {
            return true;
        }
        i = i + 1;
    }
    false
}

/// `s` with every `a` replaced by `b`.
pub fn replace_char(s: &str, a: char, b: char) -> (r: String)
    ensures
        r@ == replaced(s@, a, b),
{
    let v = chars_of(s);
    let n: usize = v.len();
    let mut out: String = String::new();
    let mut i: usize = 0;
    while i < n
        invariant
            n == v@.len(),
            i <= n,
            out@ == replaced(v@.take(i as int), a, b),
        decreases n - i,
    {
        let ch: char = v[i];
        out.push(if ch == a { b } else { ch });
        proof {
            assert(out@ =~= replaced(v@.take(i + 1), a, b));
        }
        i = i + 1;
    }
    proof {
        assert(v@.take(n as int) =~= s@);
    }
    out
}

/// Does the character occur in the string?
pub fn has_char(s: &str, c: char) -> (r: bool)
    ensures
        r == s@.contains(c),
{
    let v = chars_of(s);
    let mut i: usize = 0;
    while i < v.len()
        invariant
            v@ == s@,
            i <= v@.len(),
            forall|k: int| 0 <= k < i ==> v@[k] != c,
        decreases v@.len() - i,
    {
        if v[i] == c {
            proof {
                assert(s@[i as int] == c);
            }
            return true;
        }
        i = i + 1;
    }
    false
}

/// What `first_of` is: no `c` stands before it, and it is the place of a `c` where there is one.
pub proof fn lemma_first_of(s: Seq<char>, c: char)
    ensures
        0 <= first_of(s, c) <= s.len(),
        forall|k: int| 0 <= k < first_of(s, c) ==> s[k] != c,
        first_of(s, c) < s.len() ==> s[first_of(s, c)] == c,
        s.contains(c) <==> first_of(s, c) < s.len(),
    decreases s.len(),
{
    if s.len() > 0 && s[0] != c {
        let t = s.skip(1);
        lemma_first_of(t, c);
        assert forall|k: int| 0 <= k < first_of(s, c) implies s[k] != c by {
            if k > 0 {
                assert(t[k - 1] == s[k]);
            }
        }
        if s.contains(c) {
            let j = choose|j: int| 0 <= j < s.len() && s[j] == c;
            assert(t[j - 1] == c);
        }
        if t.contains(c) {
            let j = choose|j: int| 0 <= j < t.len() && t[j] == c;
            assert(s[j + 1] == c);
        }
    } else if s.len() > 0 {
        assert(s.contains(s[0]));
    }
}

/// The text up to the first `c`, and the text behind it.
pub fn cut(s: &str, c: char) -> (r: Option<(String, String)>)
    ensures
        match r {
            Some(p) => cut_at(s@, c) == Some((p.0@, p.1@)),
            None => cut_at(s@, c) is None,
        },
{
    let v = chars_of(s);
    let n: usize = v.len();
    let mut i: usize = 0;
    while i < n
        invariant
            n == v@.len(),
            v@ == s@,
            i <= n,
            forall|k: int| 0 <= k < i ==> v@[k] != c,
        decreases n - i,
    {
        if v[i] == c {
            proof {
                lemma_first_of(s@, c);
                assert(first_of(s@, c) == i);
                assert(v@.subrange(0, i as int) =~= s@.take(i as int));
                assert(v@.subrange(i + 1, n as int) =~= s@.skip(i + 1));
            }
            return Some((string_of(v.as_slice(), 0, i), string_of(v.as_slice(), i + 1, n)));
        }
        i = i + 1;
    }
    proof {
        lemma_first_of(s@, c);
    }
    None
}

/// Does `s` begin with `prefix`?
pub fn begins_with(s: &str, prefix: &str) -> (r: bool)
    ensures
        r == prefix@.is_prefix_of(s@),
{
    let v = chars_of(s);
    let p = chars_of(prefix);
    if p.len() > v.len() {
        return false;
    }
    let mut i: usize = 0;
    while i < p.len()
        invariant
            v@ == s@,
            p@ == prefix@,
            i <= p@.len() <= v@.len(),
            forall|k: int| 0 <= k < i ==> v@[k] == p@[k],
        decreases p@.len() - i,
    {
        if v[i] != p[i] {
            proof {
                assert(v@.subrange(0, p@.len() as int)[i as int] != p@[i as int]);
            }
            return false;
        }
        i = i + 1;
    }
    proof {
        assert(v@.subrange(0, p@.len() as int) =~= p@);
    }
    true
}

/// Does `s` end with `suffix`?
pub fn finishes_with(s: &str, suffix: &str) -> (r: bool)
    ensures
        r == suffix@.is_suffix_of(s@),
{
    let v = chars_of(s);
    let p = chars_of(suffix);
    if p.len() > v.len() {
        return false;
    }
    let n: usize = v.len();
    let base: usize = n - p.len();
    let mut i: usize = 0;
    while i < p.len()
        invariant
            v@ == s@,
            p@ == suffix@,
            i <= p@.len() <= v@.len(),
            n == v@.len(),
            base == n - p@.len(),
            forall|k: int| 0 <= k < i ==> v@[base + k] == p@[k],
        decreases p@.len() - i,
    {
        if v[base + i] != p[i] {
            proof {
                assert(v@.subrange(base as int, v@.len() as int)[i as int] != p@[i as int]);
            }
            return false;
        }
        i = i + 1;
    }
    proof {
        assert(v@.subrange(base as int, v@.len() as int) =~= p@);
    }
    true
}

/// `s` without its first `n` characters.
pub fn drop_chars(s: &str, n: usize) -> (r: String)
    requires
        n <= s@.len(),
    ensures
        r@ == s@.skip(n as int),
{
    let v = chars_of(s);
    proof {
        assert(v@.subrange(n as int, v@.len() as int) =~= s@.skip(n as int));
    }
    string_of(v.as_slice(), n, v.len())
}

/// The parts one after the other, with `c` between neighbours.
pub fn join(parts: &Vec<String>, c: char) -> (r: String)
    ensures
        r@ == joined(texts(parts@), c),
{
    let mut out: String = String::new();
    let mut i: usize = 0;
    while i < parts.len()
        invariant
            i <= parts@.len(),
            out@ == joined(texts(parts@).take(i as int), c),
        decreases parts@.len() - i,
    {
        proof {
            assert(texts(parts@).take(i + 1).drop_last() =~= texts(parts@).take(i as int));
        }
        let ghost before = out@;
        if i > 0 {
            out.push(c);
        }
        out.append(parts[i].as_str());
        proof {
            assert(texts(parts@).take(i + 1).last() == parts@[i as int]@);
            if i == 0 {
                assert(out@ =~= parts@[0]@);
            } else {
                assert(out@ =~= before.push(c) + parts@[i as int]@);
            }
        }
        i = i + 1;
    }
    proof {
        assert(texts(parts@).take(parts@.len() as int) =~= texts(parts@));
    }
    out
}

/// Does `a` stand before `b` in the order of character codes?
pub fn less(a: &Vec<char>, b: &Vec<char>) -> (r: bool)
    ensures
        r == lex_lt(a@, b@),
{
    let mut i: usize = 0;
    proof {
        assert(a@.skip(0) =~= a@);
        assert(b@.skip(0) =~= b@);
    }
    while i < a.len() && i < b.len()
        invariant
            i <= a@.len(),
            i <= b@.len(),
            lex_lt(a@, b@) == lex_lt(a@.skip(i as int), b@.skip(i as int)),
        decreases a@.len() - i,
    {
        let x: char = a[i];
        let y: char = b[i];
        if x != y {
            return x < y;
        }
        proof {
            assert(a@.skip(i as int).skip(1) =~= a@.skip(i + 1));
            assert(b@.skip(i as int).skip(1) =~= b@.skip(i + 1));
        }
        i = i + 1;
    }
    i < b.len()
}

/// Nothing stands before itself in the order of character codes.
pub proof fn lemma_lex_irreflexive(a: Seq<char>)
    ensures
        !lex_lt(a, a),
    decreases a.len(),
{
    if a.len() > 0 {
        lemma_lex_irreflexive(a.skip(1));
    }
}

/// Of two different texts one stands before the other.
pub proof fn lemma_lex_total(a: Seq<char>, b: Seq<char>)
    ensures
        a == b || lex_lt(a, b) || lex_lt(b, a),
    decreases a.len(),
{
    if a.len() > 0 && b.len() > 0 && a[0] == b[0] {
        lemma_lex_total(a.skip(1), b.skip(1));
        if a.skip(1) == b.skip(1) {
            assert(a =~= seq![a[0]] + a.skip(1));
            assert(b =~= seq![b[0]] + b.skip(1));
        }
    } else if a.len() == 0 && b.len() == 0 {
        assert(a =~= b);
    }
}

/// The order of character codes is transitive.
pub proof fn lemma_lex_transitive(a: Seq<char>, b: Seq<char>, c: Seq<char>)
    requires
        lex_lt(a, b),
        lex_lt(b, c),
    ensures
        lex_lt(a, c),
    decreases a.len(),
{
    if a.len() > 0 && b.len() > 0 && c.len() > 0 && a[0] == b[0] && b[0] == c[0] {
        lemma_lex_transitive(a.skip(1), b.skip(1), c.skip(1));
    }
}

/// A longer row of digits stands for a number at least as large.
pub proof fn lemma_digits_value_grows(s: Seq<char>, k: int)
    requires
        0 <= k <= s.len(),
    ensures
        digits_value(s.take(k)) <= digits_value(s),
    decreases s.len() - k,
{
    if k < s.len() {
        assert(s.take(k + 1).drop_last() =~= s.take(k));
        lemma_digits_value_grows(s, k + 1);
    } else {
        assert(s.take(k) =~= s);
    }
}

/// The number that a text stands for, no larger than `max`.
pub fn parse_number(s: &str, max: u64) -> (r: Option<u64>)
    ensures
        match r {
            Some(n) => number_in(s@, max as nat) == Some(n as nat),
            None => number_in(s@, max as nat) is None,
        },
{
    let v = chars_of(s);
    let n: usize = v.len();
    let start: usize = if n > 0 && v[0] == '+' { 1 } else { 0 };
    let ghost d = s@.skip(start as int);
    proof {
        if start == 0 {
            assert(d =~= s@);
        }
    }
    if start >= n {
        return None;
    }
    let mut acc: u64 = 0;
    let mut i: usize = start;
    proof {
        assert(d.take(0) =~= Seq::<char>::empty());
    }
    while i < n
        invariant
            v@ == s@,
            n == v@.len(),
            start <= i <= n,
            start < n,
            d == s@.skip(start as int),
            d == if s@.len() > 0 && s@[0] == '+' { s@.skip(1) } else { s@ },
            forall|k: int| 0 <= k < i - start ==> is_digit(#[trigger] d[k]),
            acc == digits_value(d.take(i - start)),
            acc <= max,
        decreases n - i,
    {
        let ch: char = v[i];
        proof {
            assert(d[i - start] == ch);
            assert(d.take(i - start + 1).drop_last() =~= d.take(i - start));
        }
        if !('0' <= ch && ch <= '9') {
            proof {
                assert(!is_digit(d[i - start]));
            }
            return None;
        }
        let k: u64 = (ch as u32 - 48) as u64;
        if k > max || acc > max / 10 || acc * 10 > max - k {
            proof {
                lemma_digits_value_grows(d, i - start + 1);
                assert(digits_value(d.take(i - start + 1)) == acc * 10 + k);
            }
            return None;
        }
        acc = acc * 10 + k;
        i = i + 1;
    }
    proof {
        assert(d.take(n - start) =~= d);
    }
    Some(acc)
}

/// The digits of a number are digits, at least one, and stand for that number.
pub proof fn lemma_digits(n: nat)
    ensures
        digits(n).len() > 0,
        all_digits(digits(n)),
        digits_value(digits(n)) == n,
    decreases n,
{
    if n < 10 {
        assert(digits(n).drop_last() =~= Seq::<char>::empty());
        assert(digits_value(Seq::<char>::empty()) == 0);
    } else {
        lemma_digits(n / 10);
        assert(digits(n).drop_last() =~= digits(n / 10));
    }
}

/// Reading a number back from its decimal digits gives that number.
pub proof fn law_number_round_trip(n: nat, max: nat)
    requires
        n <= max,
    ensures
        number_in(digits(n), max) == Some(n),
{
    lemma_digits(n);
    assert(is_digit(digits(n)[0]));
}

/// Splitting a text and joining the pieces with the same separator gives the text back.
pub proof fn law_split_join(s: Seq<char>, c: char)
    ensures
        split_on(s, c).len() > 0,
        joined(split_on(s, c), c) == s,
    decreases s.len(),
{
    if s.len() == 0 {
    } else {
        let before = split_on(s.drop_last(), c);
        law_split_join(s.drop_last(), c);
        let all = split_on(s, c);
        if s.last() == c {
            assert(all.drop_last() =~= before);
            assert(joined(all, c) =~= s.drop_last().push(c) + Seq::<char>::empty());
            assert(joined(all, c) =~= s);
        } else {
            assert(all.drop_last() =~= before.drop_last());
            assert(joined(all, c) =~= joined(before, c).push(s.last()));
            assert(joined(all, c) =~= s);
        }
    }
}

/// No piece of a split text holds the separator.
pub proof fn law_split_pieces(s: Seq<char>, c: char)
    ensures
        split_on(s, c).len() > 0,
        forall|i: int| 0 <= i < split_on(s, c).len() ==> !(#[trigger] split_on(s, c)[i]).contains(c),
    decreases s.len(),
{
    if s.len() > 0 {
        law_split_pieces(s.drop_last(), c);
        let before = split_on(s.drop_last(), c);
        let all = split_on(s, c);
        assert forall|i: int| 0 <= i < all.len() implies !(#[trigger] all[i]).contains(c) by {
            if i < before.len() - 1 {
                assert(all[i] == before[i]);
            } else if s.last() == c {
                if i == before.len() - 1 {
                    assert(all[i] == before[i]);
                }
            } else {
                assert(!before.last().contains(c));
                let piece = before.last().push(s.last());
                assert(all[i] == piece);
                if piece.contains(c) {
                    let k = choose|k: int| 0 <= k < piece.len() && piece[k] == c;
                    assert(before.last()[k] == c);
                }
            }
        }
    }
}

/// A text without the separator is its own only piece.
pub proof fn lemma_split_single(s: Seq<char>, c: char)
    requires
        !s.contains(c),
    ensures
        split_on(s, c) == seq![s],
    decreases s.len(),
{
    if s.len() > 0 {
        let t = s.drop_last();
        if t.contains(c) {
            let k = choose|k: int| 0 <= k < t.len() && t[k] == c;
            assert(s[k] == c);
        }
        lemma_split_single(t, c);
        assert(s[s.len() - 1] != c);
        assert(split_on(s, c) =~= seq![t.push(s.last())]);
        assert(t.push(s.last()) =~= s);
    } else {
        assert(s =~= Seq::<char>::empty());
    }
}

/// Splitting behind a separator adds one piece.
pub proof fn lemma_split_append(s: Seq<char>, t: Seq<char>, c: char)
    requires
        !t.contains(c),
    ensures
        split_on(s.push(c) + t, c) == split_on(s, c).push(t),
    decreases t.len(),
{
    let whole = s.push(c) + t;
    if t.len() == 0 {
        assert(whole.drop_last() =~= s);
        assert(t =~= Seq::<char>::empty());
    } else {
        let u = t.drop_last();
        if u.contains(c) {
            let k = choose|k: int| 0 <= k < u.len() && u[k] == c;
            assert(t[k] == c);
        }
        lemma_split_append(s, u, c);
        assert(whole.drop_last() =~= s.push(c) + u);
        assert(t[t.len() - 1] != c);
        assert(split_on(whole, c) =~= split_on(s, c).push(u.push(t.last())));
        assert(u.push(t.last()) =~= t);
    }
}

/// Joining parts that do not hold the separator, and splitting the text again, gives the parts.
pub proof fn law_join_split(parts: Seq<Seq<char>>, c: char)
    requires
        parts.len() > 0,
        forall|i: int| 0 <= i < parts.len() ==> !(#[trigger] parts[i]).contains(c),
    ensures
        split_on(joined(parts, c), c) == parts,
    decreases parts.len(),
{
    if parts.len() == 1 {
        lemma_split_single(parts[0], c);
        assert(parts =~= seq![parts[0]]);
    } else {
        let front = parts.drop_last();
        assert forall|i: int| 0 <= i < front.len() implies !(#[trigger] front[i]).contains(c) by {
            assert(front[i] == parts[i]);
        }
        law_join_split(front, c);
        lemma_split_append(joined(front, c), parts.last(), c);
        assert(parts =~= front.push(parts.last()));
    }
}

/// A number in decimal digits, with a minus sign where it is below zero.
pub open spec fn signed(n: int) -> Seq<char> {
    if n < 0 {
        seq!['-'] + digits((-n) as nat)
    } else {
        digits(n as nat)
    }
}

/// Appends a number in decimal digits.
pub fn push_signed(out: &mut String, n: i64)
    ensures
        final(out)@ == old(out)@ + signed(n as int),
{
    if n < 0 {
        out.push('-');
        push_number(out, (-(n as i128)) as u64);
        proof {
            assert(out@ =~= old(out)@ + signed(n as int));
        }
    } else {
        push_number(out, n as u64);
    }
}

/// The number that a text stands for: a sign, which may be absent, and one or more digits, within
/// the range of 64 bits.
pub open spec fn signed_in(s: Seq<char>) -> Option<int> {
    if s.len() > 0 && s[0] == '-' {
        let d = s.skip(1);
        if d.len() > 0 && all_digits(d) && digits_value(d) <= 0x8000_0000_0000_0000 {
            Some(-(digits_value(d) as int))
        } else {
            None
        }
    } else {
        match number_in(s, 0x7FFF_FFFF_FFFF_FFFF) {
            Some(n) => Some(n as int),
            None => None,
        }
    }
}

/// The number that a text stands for.
pub fn parse_signed(s: &str) -> (r: Option<i64>)
    ensures
        match r {
            Some(n) => signed_in(s@) == Some(n as int),
            None => signed_in(s@) is None,
        },
{
    let v = chars_of(s);
    if v.len() > 0 && v[0] == '-' {
        let rest = drop_chars(s, 1);
        if v.len() > 1 && v[1] == '+' {
            proof {
                assert(!is_digit(s@.skip(1)[0]));
            }
            return None;
        }
        match parse_number(rest.as_str(), 0x8000_0000_0000_0000) {
            Some(n) => Some((-(n as i128)) as i64),
            None => None,
        }
    } else {
        match parse_number(s, 0x7FFF_FFFF_FFFF_FFFF) {
            Some(n) => Some(n as i64),
            None => None,
        }
    }
}

/// `s` with `t` in place of every `c`.
pub open spec fn substituted(s: Seq<char>, c: char, t: Seq<char>) -> Seq<char>
    decreases s.len(),
{
    if s.len() == 0 {
        s
    } else if s.last() == c {
        substituted(s.drop_last(), c, t) + t
    } else {
        substituted(s.drop_last(), c, t).push(s.last())
    }
}

/// `s` with `t` in place of every `c`.
pub fn substitute(s: &str, c: char, t: &str) -> (r: String)
    ensures
        r@ == substituted(s@, c, t@),
{
    let v = chars_of(s);
    let mut out: String = String::new();
    let mut i: usize = 0;
    proof {
        assert(v@.take(0) =~= Seq::<char>::empty());
    }
    while i < v.len()
        invariant
            v@ == s@,
            i <= v@.len(),
            out@ == substituted(v@.take(i as int), c, t@),
        decreases v@.len() - i,
    {
        proof {
            assert(v@.take(i + 1).drop_last() =~= v@.take(i as int));
        }
        if v[i] == c {
            out.append(t);
        } else {
            out.push(v[i]);
        }
        i = i + 1;
    }
    proof {
        assert(v@.take(v@.len() as int) =~= s@);
    }
    out
}

/// `s` with `to` in place of every `from`, from the left on, so that the places do not overlap.
pub open spec fn rewritten(s: Seq<char>, from: Seq<char>, to: Seq<char>) -> Seq<char>
    decreases s.len(),
{
    if s.len() == 0 || from.len() == 0 {
        s
    } else if from.is_prefix_of(s) {
        to + rewritten(s.skip(from.len() as int), from, to)
    } else {
        seq![s[0]] + rewritten(s.skip(1), from, to)
    }
}

fn occurs_at(v: &Vec<char>, at: usize, f: &Vec<char>) -> (r: bool)
    requires
        at <= v@.len(),
    ensures
        r == f@.is_prefix_of(v@.skip(at as int)),
{
    let ghost rest = v@.skip(at as int);
    let n: usize = v.len();
    if f.len() > n - at {
        return false;
    }
    let mut i: usize = 0;
    while i < f.len()
        invariant
            n == v@.len(),
            at <= n,
            rest == v@.skip(at as int),
            f@.len() <= rest.len(),
            i <= f@.len(),
            forall|k: int| 0 <= k < i ==> rest[k] == f@[k],
        decreases f@.len() - i,
    {
        if v[at + i] != f[i] {
            proof {
                assert(rest[i as int] != f@[i as int]);
                assert(rest.subrange(0, f@.len() as int)[i as int] != f@[i as int]);
            }
            return false;
        }
        i = i + 1;
    }
    proof {
        assert(rest.subrange(0, f@.len() as int) =~= f@);
    }
    true
}

/// `s` with `to` in place of every `from`, which is not empty.
pub fn rewrite(s: &str, from: &str, to: &str) -> (r: String)
    requires
        from@.len() > 0,
    ensures
        r@ == rewritten(s@, from@, to@),
{
    let v = chars_of(s);
    let f = chars_of(from);
    let mut out: String = String::new();
    let mut i: usize = 0;
    proof {
        assert(v@.skip(0) =~= v@);
        assert(out@ + rewritten(v@.skip(0), f@, to@) =~= rewritten(v@, f@, to@));
    }
    while i < v.len()
        invariant
            f@ == from@,
            f@.len() > 0,
            i <= v@.len(),
            out@ + rewritten(v@.skip(i as int), f@, to@) == rewritten(v@, f@, to@),
        decreases v@.len() - i,
    {
        let ghost rest = v@.skip(i as int);
        let ghost before = out@;
        if occurs_at(&v, i, &f) {
            out.append(to);
            proof {
                assert(rest.skip(f@.len() as int) =~= v@.skip(i + f@.len()));
                assert(out@ + rewritten(v@.skip(i + f@.len()), f@, to@) =~= before + (to@
                    + rewritten(v@.skip(i + f@.len()), f@, to@)));
            }
            i = i + f.len();
        } else {
            out.push(v[i]);
            proof {
                assert(rest.skip(1) =~= v@.skip(i + 1));
                assert(out@ + rewritten(v@.skip(i + 1), f@, to@) =~= before + (seq![v@[i as int]]
                    + rewritten(v@.skip(i + 1), f@, to@)));
            }
            i = i + 1;
        }
    }
    proof {
        assert(v@.skip(i as int) =~= Seq::<char>::empty());
        assert(out@ + Seq::<char>::empty() =~= out@);
    }
    out
}

/// Does a text hold another?
pub open spec fn holds_part(s: Seq<char>, part: Seq<char>) -> bool {
    exists|i: int|
        0 <= i && i + part.len() <= s.len() && #[trigger] s.subrange(i, i + part.len()) == part
}

/// A text holds what stands in the middle of it.
pub proof fn lemma_holds_middle(a: Seq<char>, part: Seq<char>, b: Seq<char>)
    ensures
        holds_part(a + part + b, part),
{
    let s = a + part + b;
    let i = a.len() as int;
    assert(s.subrange(i, i + part.len()) =~= part);
}

/// What a text holds, it still holds between others.
pub proof fn lemma_holds_within(a: Seq<char>, s: Seq<char>, b: Seq<char>, part: Seq<char>)
    requires
        holds_part(s, part),
    ensures
        holds_part(a + s + b, part),
{
    let i = choose|i: int|
        0 <= i && i + part.len() <= s.len() && #[trigger] s.subrange(i, i + part.len()) == part;
    let w = a + s + b;
    let k = a.len() + i;
    assert(w.subrange(k, k + part.len()) =~= s.subrange(i, i + part.len()));
}

/// Trimming takes away white space at both ends, all of it, and nothing else.
pub proof fn law_trimming(s: Seq<char>)
    ensures
        trimmed(s).len() > 0 ==> !is_white(trimmed(s)[0]) && !is_white(trimmed(s).last()),
        exists|a: Seq<char>, b: Seq<char>|
            {
                &&& s == #[trigger] (a + trimmed(s) + b)
                &&& forall|i: int| 0 <= i < a.len() ==> is_white(#[trigger] a[i])
                &&& forall|i: int| 0 <= i < b.len() ==> is_white(#[trigger] b[i])
            },
{
    let t = trim_start(s);
    lemma_trim_start(s);
    lemma_trim_end(t);
    let a = s.take(s.len() - t.len());
    let b = t.skip(trimmed(s).len() as int);
    assert(s =~= a + trimmed(s) + b);
}

proof fn lemma_trim_start(s: Seq<char>)
    ensures
        trim_start(s).len() <= s.len(),
        trim_start(s) == s.skip(s.len() - trim_start(s).len()),
        trim_start(s).len() > 0 ==> !is_white(trim_start(s)[0]),
        forall|i: int| 0 <= i < s.len() - trim_start(s).len() ==> is_white(#[trigger] s[i]),
    decreases s.len(),
{
    if s.len() > 0 && is_white(s[0]) {
        let r = s.skip(1);
        lemma_trim_start(r);
        assert(trim_start(s) =~= s.skip(s.len() - trim_start(s).len()));
        assert forall|i: int| 0 <= i < s.len() - trim_start(s).len() implies is_white(
            #[trigger] s[i],
        ) by {
            if i > 0 {
                assert(r[i - 1] == s[i]);
            }
        }
    } else {
        assert(s.skip(0) =~= s);
    }
}

proof fn lemma_trim_end(s: Seq<char>)
    ensures
        trim_end(s).len() <= s.len(),
        trim_end(s) == s.take(trim_end(s).len() as int),
        trim_end(s).len() > 0 ==> !is_white(trim_end(s).last()),
        trim_end(s).len() > 0 ==> trim_end(s)[0] == s[0],
        forall|i: int| trim_end(s).len() <= i < s.len() ==> is_white(#[trigger] s[i]),
    decreases s.len(),
{
    if s.len() > 0 && is_white(s.last()) {
        let r = s.drop_last();
        lemma_trim_end(r);
        assert(trim_end(s) =~= s.take(trim_end(s).len() as int));
        assert forall|i: int| trim_end(s).len() <= i < s.len() implies is_white(#[trigger] s[i]) by {
            if i < s.len() - 1 {
                assert(r[i] == s[i]);
            }
        }
    } else {
        assert(s.take(s.len() as int) =~= s);
    }
}

/// A text is cut at the first of the characters: what comes before it does not hold it, and both
/// parts with the character between them are the text.
pub proof fn law_cutting(s: Seq<char>, c: char)
    ensures
        cut_at(s, c) is None <==> !s.contains(c),
        cut_at(s, c) matches Some(p) ==> !p.0.contains(c) && s == p.0.push(c) + p.1,
{
    lemma_first_of(s, c);
    if s.contains(c) {
        let i = first_of(s, c);
        assert(s =~= s.take(i).push(c) + s.skip(i + 1));
        if s.take(i).contains(c) {
            let k = choose|k: int| 0 <= k < s.take(i).len() && s.take(i)[k] == c;
            assert(s[k] == c);
        }
    }
}

/// Numbers that are written are read back, negative ones too.
pub proof fn law_signed_round_trip(n: int)
    requires
        -0x8000_0000_0000_0000 <= n <= 0x7FFF_FFFF_FFFF_FFFF,
    ensures
        signed_in(signed(n)) == Some(n),
{
    if n < 0 {
        lemma_digits((-n) as nat);
        assert(signed(n).skip(1) =~= digits((-n) as nat));
    } else {
        lemma_digits(n as nat);
        law_number_round_trip(n as nat, 0x7FFF_FFFF_FFFF_FFFF);
        assert(is_digit(digits(n as nat)[0]));
    }
}

/// Texts are ordered by their first difference, and a text comes before what begins with it.
pub proof fn law_order_of_texts(p: Seq<char>, x: char, y: char, a: Seq<char>, b: Seq<char>)
    ensures
        x < y ==> lex_lt(p.push(x) + a, p.push(y) + b),
        lex_lt(p, p.push(x) + a),
        !lex_lt(p.push(x) + a, p),
    decreases p.len(),
{
    if p.len() == 0 {
        assert((p.push(x) + a)[0] == x);
        assert((p.push(y) + b)[0] == y);
    } else {
        law_order_of_texts(p.skip(1), x, y, a, b);
        assert((p.push(x) + a).skip(1) =~= p.skip(1).push(x) + a);
        assert((p.push(y) + b).skip(1) =~= p.skip(1).push(y) + b);
    }
}

/// Every place where a text to be replaced stands is replaced, and a text that does not hold it is
/// not changed.
pub proof fn law_rewriting(s: Seq<char>, from: Seq<char>, to: Seq<char>)
    requires
        from.len() > 0,
    ensures
        rewritten(from + s, from, to) == to + rewritten(s, from, to),
        !holds_part(s, from) ==> rewritten(s, from, to) == s,
    decreases s.len(),
{
    let t = from + s;
    assert(t.subrange(0, from.len() as int) =~= from);
    assert(t.skip(from.len() as int) =~= s);
    if s.len() > 0 && !holds_part(s, from) {
        if from.is_prefix_of(s) {
            let i = 0int;
            assert(s.subrange(i, i + from.len()) == from);
        }
        let r = s.skip(1);
        if holds_part(r, from) {
            let i = choose|i: int|
                0 <= i && i + from.len() <= r.len() && #[trigger] r.subrange(i, i + from.len())
                    == from;
            assert(s.subrange(i + 1, i + 1 + from.len()) =~= r.subrange(i, i + from.len()));
        }
        law_rewriting(r, from, to);
        assert(seq![s[0]] + r =~= s);
    }
}

/// Each of the texts that are joined stands in the whole.
pub proof fn law_joined_holds_each(parts: Seq<Seq<char>>, c: char, i: int)
    requires
        0 <= i < parts.len(),
    ensures
        holds_part(joined(parts, c), parts[i]),
    decreases parts.len(),
{
    if parts.len() == 1 {
        lemma_holds_middle(Seq::<char>::empty(), parts[0], Seq::<char>::empty());
        assert(Seq::<char>::empty() + parts[0] + Seq::<char>::empty() =~= parts[0]);
    } else {
        let front = joined(parts.drop_last(), c);
        let whole = joined(parts, c);
        if i == parts.len() - 1 {
            lemma_holds_middle(front.push(c), parts.last(), Seq::<char>::empty());
            assert(front.push(c) + parts.last() + Seq::<char>::empty() =~= whole);
        } else {
            law_joined_holds_each(parts.drop_last(), c, i);
            lemma_holds_within(Seq::<char>::empty(), front, seq![c] + parts.last(), parts[i]);
            assert(Seq::<char>::empty() + front + (seq![c] + parts.last()) =~= whole);
        }
    }
}

/// A number that is filled with zeros has at least the width that is asked for, and is still the same
/// number; one that is wide enough stands as it is.
pub proof fn law_padding(n: nat, width: nat)
    ensures
        padded(n, width).len() >= width,
        digits(n).is_suffix_of(padded(n, width)),
        digits(n).len() >= width ==> padded(n, width) == digits(n),
        digits(n).len() < width ==> padded(n, width).len() == width && padded(n, width)[0] == '0',
{
    let d = digits(n);
    let p = padded(n, width);
    assert(p.subrange(p.len() - d.len(), p.len() as int) =~= d);
}

/// Only digits are a number, with one plus sign before them at most; nothing else is, nor what is
/// larger than the limit.
pub proof fn law_what_is_a_number(s: Seq<char>, max: nat)
    ensures
        number_in(Seq::<char>::empty(), max) is None,
        number_in(s, max) matches Some(n) ==> n <= max && s.len() > 0 && forall|i: int|
            1 <= i < s.len() ==> '0' <= #[trigger] s[i] <= '9',
        number_in(s, max) is Some ==> '0' <= s[0] <= '9' || (s[0] == '+' && s.len() > 1),
        s.len() > 0 && all_digits(s) ==> number_in(seq!['+'] + s, max) == number_in(s, max),
{
    let d = if s.len() > 0 && s[0] == '+' {
        s.skip(1)
    } else {
        s
    };
    if number_in(s, max) is Some {
        assert(is_digit(d[0]));
        assert forall|i: int| 1 <= i < s.len() implies '0' <= #[trigger] s[i] <= '9' by {
            if s[0] == '+' {
                assert(is_digit(d[i - 1]));
            } else {
                assert(is_digit(d[i]));
            }
        }
    }
    if s.len() > 0 && all_digits(s) {
        assert((seq!['+'] + s).skip(1) =~= s);
        assert(is_digit(s[0]));
    }
}

/// Replacing a character changes every one of it and nothing else.
pub proof fn law_replacing(s: Seq<char>, a: char, b: char, i: int)
    requires
        0 <= i < s.len(),
    ensures
        replaced(s, a, b).len() == s.len(),
        s[i] == a ==> replaced(s, a, b)[i] == b,
        s[i] != a ==> replaced(s, a, b)[i] == s[i],
{
}

/// Taking a character away at one end takes all of it that stands there, and nothing else.
pub proof fn law_stripping(s: Seq<char>, c: char)
    ensures
        trim_start_of(seq![c] + s, c) == trim_start_of(s, c),
        s.len() > 0 && s[0] != c ==> trim_start_of(s, c) == s,
        trim_end_of(s.push(c), c) == trim_end_of(s, c),
        s.len() > 0 && s.last() != c ==> trim_end_of(s, c) == s,
        trim_start_of(Seq::<char>::empty(), c).len() == 0,
        trim_end_of(Seq::<char>::empty(), c).len() == 0,
{
    assert((seq![c] + s).skip(1) =~= s);
    assert(s.push(c).drop_last() =~= s);
}

/// Putting a text in place of a character does so for every one of it, and leaves the others.
pub proof fn law_substituting(s: Seq<char>, c: char, t: Seq<char>, x: char)
    ensures
        substituted(Seq::<char>::empty(), c, t).len() == 0,
        substituted(s.push(c), c, t) == substituted(s, c, t) + t,
        x != c ==> substituted(s.push(x), c, t) == substituted(s, c, t).push(x),
{
    assert(s.push(c).drop_last() =~= s);
    assert(s.push(x).drop_last() =~= s);
}

} // verus!
