//! Percent coding, Base64 and UTF-8.
use vstd::prelude::*;
use vstd::utf8::{
    decode_utf8, decode_utf8_encode_utf8, encode_utf8, encode_utf8_decode_utf8,
    encode_utf8_valid_utf8, pop_first_scalar, valid_first_scalar, valid_utf8,
};

verus! {

/// Is the byte a letter or a digit of ASCII?
pub open spec fn is_alphanumeric(b: u8) -> bool {
    48 <= b <= 57 || 65 <= b <= 90 || 97 <= b <= 122
}

/// A hexadecimal digit, capital letters from ten on, as a byte.
pub open spec fn hex_of(d: int) -> u8 {
    if d < 10 {
        (48 + d) as u8
    } else {
        (55 + d) as u8
    }
}

/// The value of a hexadecimal digit, in capital or small letters.
pub open spec fn hex_value(b: u8) -> Option<int> {
    if 48 <= b <= 57 {
        Some(b - 48)
    } else if 65 <= b <= 70 {
        Some(b - 55)
    } else if 97 <= b <= 102 {
        Some(b - 87)
    } else {
        None
    }
}

/// Bytes in percent coding: letters and digits stand for themselves, any other byte is written as
/// a percent sign and two hexadecimal digits.
pub open spec fn percent_coded(s: Seq<u8>) -> Seq<u8>
    decreases s.len(),
{
    if s.len() == 0 {
        s
    } else if is_alphanumeric(s[0]) {
        seq![s[0]] + percent_coded(s.skip(1))
    } else {
        seq![37u8, hex_of(s[0] as int / 16), hex_of(s[0] as int % 16)] + percent_coded(s.skip(1))
    }
}

/// The bytes that a text in percent coding stands for. A percent sign without two hexadecimal
/// digits behind it stands for itself.
pub open spec fn percent_bytes(s: Seq<u8>) -> Seq<u8>
    decreases s.len(),
{
    if s.len() == 0 {
        s
    } else if s[0] == 37 && s.len() >= 3 && hex_value(s[1]) is Some && hex_value(s[2]) is Some {
        seq![(hex_value(s[1])->0 * 16 + hex_value(s[2])->0) as u8] + percent_bytes(s.skip(3))
    } else {
        seq![s[0]] + percent_bytes(s.skip(1))
    }
}

/// A text in percent coding.
pub open spec fn percent_text(s: Seq<char>) -> Seq<char> {
    decode_utf8(percent_coded(encode_utf8(s)))
}

/// Calls `percent_encoding::utf8_percent_encode` with the set `NON_ALPHANUMERIC`, which codes every
/// byte of the UTF-8 form of the text that is not a letter or a digit of ASCII.
#[verifier::external_body]
pub(crate) fn percent_encode(s: &str) -> (r: String)
    ensures
        r@ == percent_text(s@),
{
    percent_encoding::utf8_percent_encode(s, percent_encoding::NON_ALPHANUMERIC).to_string()
}

/// Calls `percent_encoding::percent_decode_str` and collects the bytes that it yields.
#[verifier::external_body]
pub(crate) fn percent_decode(s: &str) -> (r: Vec<u8>)
    ensures
        r@ == percent_bytes(encode_utf8(s@)),
{
    percent_encoding::percent_decode_str(s).collect()
}

/// The name of what `String::from_utf8_lossy` returns: the text of the bytes, with a replacement
/// character in place of what is not UTF-8.
pub uninterp spec fn lossy_text(bytes: Seq<u8>) -> Seq<char>;

/// Calls `String::from_utf8_lossy`. On UTF-8 it is the text itself; how many replacement characters
/// stand for other bytes is left to it.
#[verifier::external_body]
pub(crate) fn utf8_lossy(bytes: &[u8]) -> (r: String)
    ensures
        r@ == lossy_text(bytes@),
        valid_utf8(bytes@) ==> r@ == decode_utf8(bytes@),
{
    String::from_utf8_lossy(bytes).into_owned()
}

/// Calls `String::from_utf8`, which gives the text of the bytes if they are UTF-8.
#[verifier::external_body]
pub(crate) fn utf8_strict(bytes: Vec<u8>) -> (r: Option<String>)
    ensures
        match r {
            Some(s) => valid_utf8(bytes@) && s@ == decode_utf8(bytes@),
            None => !valid_utf8(bytes@),
        },
{
    String::from_utf8(bytes).ok()
}

/// The name of the bytes that Base64 text stands for; nothing where it is not Base64.
pub uninterp spec fn base64_bytes(text: Seq<char>) -> Option<Seq<u8>>;

/// Calls the decoder of `base64::engine::general_purpose::STANDARD`, whose result is a function of
/// the text.
#[verifier::external_body]
pub(crate) fn base64_decode(text: &str) -> (r: Option<Vec<u8>>)
    ensures
        match r {
            Some(b) => base64_bytes(text@) == Some(b@),
            None => base64_bytes(text@) is None,
        },
{
    base64::Engine::decode(&base64::engine::general_purpose::STANDARD, text).ok()
}

/// The name of the Base64 text of bytes.
pub uninterp spec fn base64_text(bytes: Seq<u8>) -> Seq<char>;

/// Calls the encoder of `base64::engine::general_purpose::STANDARD`, whose result is a function of
/// the bytes; its decoder gives the bytes back.
#[verifier::external_body]
pub(crate) fn base64_encode(bytes: &[u8]) -> (r: String)
    ensures
        r@ == base64_text(bytes@),
        base64_bytes(r@) == Some(bytes@),
{
    base64::Engine::encode(&base64::engine::general_purpose::STANDARD, bytes)
}

/// What a path in a URL stands for.
pub open spec fn decoded_path(raw: Seq<char>) -> Seq<char> {
    lossy_text(percent_bytes(encode_utf8(raw)))
}

/// What a path in a URL stands for.
pub fn decode_path(raw: &str) -> (r: String)
    ensures
        r@ == decoded_path(raw@),
        valid_utf8(percent_bytes(encode_utf8(raw@))) ==> r@ == decode_utf8(
            percent_bytes(encode_utf8(raw@)),
        ),
{
    let bytes = percent_decode(raw);
    utf8_lossy(bytes.as_slice())
}

/// Decoding what was percent coded gives the bytes back.
pub proof fn law_percent_round_trip(s: Seq<u8>)
    ensures
        percent_bytes(percent_coded(s)) == s,
    decreases s.len(),
{
    if s.len() > 0 {
        let rest = s.skip(1);
        law_percent_round_trip(rest);
        let c = percent_coded(s);
        if is_alphanumeric(s[0]) {
            assert(c.skip(1) =~= percent_coded(rest));
        } else {
            assert(c.skip(3) =~= percent_coded(rest));
            assert(hex_value(c[1]) == Some(s[0] as int / 16));
            assert(hex_value(c[2]) == Some(s[0] as int % 16));
        }
        assert(percent_bytes(c) =~= seq![s[0]] + rest);
        assert(seq![s[0]] + rest =~= s);
    }
}

/// Percent coding leaves nothing but letters, digits and percent signs.
pub proof fn law_percent_coded_is_plain(s: Seq<u8>, i: int)
    requires
        0 <= i < percent_coded(s).len(),
    ensures
        is_alphanumeric(percent_coded(s)[i]) || percent_coded(s)[i] == 37,
    decreases s.len(),
{
    let rest = s.skip(1);
    if is_alphanumeric(s[0]) {
        if i > 0 {
            law_percent_coded_is_plain(rest, i - 1);
        }
    } else if i >= 3 {
        law_percent_coded_is_plain(rest, i - 3);
    }
}

/// Bytes below 128 are UTF-8.
proof fn lemma_ascii_is_utf8(s: Seq<u8>)
    requires
        forall|i: int| 0 <= i < s.len() ==> (#[trigger] s[i]) < 128,
    ensures
        valid_utf8(s),
    decreases s.len(),
{
    if s.len() > 0 {
        let b = s[0];
        assert(b < 128 ==> b & 0x80 == 0 && (b & 0x7F) as u32 <= 0x7F) by (bit_vector);
        assert(valid_first_scalar(s));
        assert(pop_first_scalar(s) =~= s.skip(1));
        lemma_ascii_is_utf8(s.skip(1));
    }
}

/// A text that was percent coded for a URL is read back as the same text.
pub proof fn law_percent_text_round_trip(s: Seq<char>)
    ensures
        percent_bytes(encode_utf8(percent_text(s))) == encode_utf8(s),
        decode_utf8(percent_bytes(encode_utf8(percent_text(s)))) == s,
        valid_utf8(percent_bytes(encode_utf8(percent_text(s)))),
{
    let b = encode_utf8(s);
    let c = percent_coded(b);
    assert forall|i: int| 0 <= i < c.len() implies (#[trigger] c[i]) < 128 by {
        law_percent_coded_is_plain(b, i);
    }
    lemma_ascii_is_utf8(c);
    decode_utf8_encode_utf8(c);
    law_percent_round_trip(b);
    encode_utf8_decode_utf8(s);
    encode_utf8_valid_utf8(s);
}

/// In percent coding a letter or a digit stands for itself, and any other byte is a percent sign and
/// two digits; `%41` and `%4a` are read whatever the case of their digits.
pub proof fn law_percent_coding(b: u8, hi: u8, lo: u8, rest: Seq<u8>)
    ensures
        48 <= b <= 57 || 65 <= b <= 90 || 97 <= b <= 122 ==> percent_coded(seq![b] + rest) == seq![b]
            + percent_coded(rest),
        !(48 <= b <= 57 || 65 <= b <= 90 || 97 <= b <= 122) ==> percent_coded(seq![b] + rest).len()
            == 3 + percent_coded(rest).len() && percent_coded(seq![b] + rest)[0] == 37,
        b != 37 ==> percent_bytes(seq![b] + rest) == seq![b] + percent_bytes(rest),
        48 <= hi <= 57 && 48 <= lo <= 57 ==> percent_bytes(seq![37u8, hi, lo] + rest) == seq![
            ((hi - 48) * 16 + (lo - 48)) as u8,
        ] + percent_bytes(rest),
        48 <= hi <= 57 && 97 <= lo <= 102 ==> percent_bytes(seq![37u8, hi, lo] + rest) == seq![
            ((hi - 48) * 16 + (lo - 87)) as u8,
        ] + percent_bytes(rest),
{
    assert((seq![b] + rest).skip(1) =~= rest);
    assert((seq![37u8, hi, lo] + rest).skip(3) =~= rest);
}

/// A path that is UTF-8 in percent coding is read as the text that it stands for.
pub proof fn law_decoded_path(s: Seq<char>)
    ensures
        decoded_path(percent_text(s)) == lossy_text(encode_utf8(s)),
{
    law_percent_text_round_trip(s);
}

} // verus!
