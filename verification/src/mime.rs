//! Media types by the extension of a file name.
use vstd::prelude::*;
use crate::text::{begins_with, chars_of, str_eq, string_of};

verus! {

/// The place of the last `c`, or -1 where there is none.
pub open spec fn last_of(s: Seq<char>, c: char) -> int
    decreases s.len(),
{
    if s.len() == 0 {
        -1
    } else if s.last() == c {
        s.len() - 1
    } else {
        last_of(s.drop_last(), c)
    }
}

/// The extension of a file name: what follows the last dot. A name without a dot has none, nor one
/// whose only dot is at its start, nor `..`.
pub open spec fn extension_of(name: Seq<char>) -> Option<Seq<char>> {
    let i = last_of(name, '.');
    if i <= 0 || name == ".."@ {
        None
    } else {
        Some(name.skip(i + 1))
    }
}

/// The file name without its extension and the dot before it.
pub open spec fn stem_of(name: Seq<char>) -> Seq<char> {
    if extension_of(name) is Some {
        name.take(last_of(name, '.'))
    } else {
        name
    }
}

/// A character, a capital of the Latin alphabet made small.
pub open spec fn ascii_lower(c: char) -> char {
    if 'A' <= c <= 'Z' {
        (c as u32 + 32) as char
    } else {
        c
    }
}

/// The text with the capitals of the Latin alphabet made small.
pub open spec fn ascii_lowered(s: Seq<char>) -> Seq<char> {
    s.map_values(|c: char| ascii_lower(c))
}

/// The last place of a character: what it is.
pub proof fn lemma_last_of(s: Seq<char>, c: char)
    ensures
        -1 <= last_of(s, c) < s.len(),
        last_of(s, c) >= 0 ==> s[last_of(s, c)] == c,
        forall|k: int| last_of(s, c) < k < s.len() ==> s[k] != c,
    decreases s.len(),
{
    if s.len() > 0 && s.last() != c {
        lemma_last_of(s.drop_last(), c);
        assert forall|k: int| last_of(s, c) < k < s.len() implies s[k] != c by {
            if k < s.len() - 1 {
                assert(s.drop_last()[k] == s[k]);
            }
        }
        if last_of(s, c) >= 0 {
            assert(s.drop_last()[last_of(s, c)] == s[last_of(s, c)]);
        }
    }
}

/// The place behind the last `c`, or 0 where there is none.
pub fn behind_last(v: &Vec<char>, c: char) -> (r: usize)
    ensures
        r == last_of(v@, c) + 1,
        r <= v@.len(),
{
    let mut i: usize = v.len();
    proof {
        assert(v@.take(i as int) =~= v@);
    }
    while i > 0 && v[i - 1] != c
        invariant
            i <= v@.len(),
            last_of(v@, c) == last_of(v@.take(i as int), c),
        decreases i,
    {
        proof {
            assert(v@.take(i as int).drop_last() =~= v@.take(i - 1));
        }
        i = i - 1;
    }
    i
}

/// The file name split at its last dot: the stem, and the extension if there is one.
pub fn split_name(name: &str) -> (r: (String, Option<String>))
    ensures
        r.0@ == stem_of(name@),
        crate::text::text_of(r.1) == extension_of(name@),
{
    let v = chars_of(name);
    let i: usize = behind_last(&v, '.');
    if i <= 1 || str_eq(name, "..") {
        return (name.to_owned(), None);
    }
    proof {
        assert(v@.subrange(i as int, v@.len() as int) =~= v@.skip(i as int));
        assert(v@.subrange(0, i - 1) =~= v@.take(i - 1));
    }
    (string_of(v.as_slice(), 0, i - 1), Some(string_of(v.as_slice(), i, v.len())))
}

/// The text with the capitals of the Latin alphabet made small.
pub fn to_ascii_lower(s: &str) -> (r: String)
    ensures
        r@ == ascii_lowered(s@),
{
    let v = chars_of(s);
    let mut out: String = String::new();
    let mut i: usize = 0;
    while i < v.len()
        invariant
            v@ == s@,
            i <= v@.len(),
            out@ == ascii_lowered(v@.take(i as int)),
        decreases v@.len() - i,
    {
        let c: char = v[i];
        if 'A' <= c && c <= 'Z' {
            out.push(((c as u32) as u8 + 32) as char);
        } else {
            out.push(c);
        }
        proof {
            assert(out@ =~= ascii_lowered(v@.take(i + 1)));
        }
        i = i + 1;
    }
    proof {
        assert(v@.take(v@.len() as int) =~= s@);
    }
    out
}

/// The media type that the file interface gives an extension in small letters.
pub open spec fn media_type(ext: Seq<char>) -> Seq<char> {
    if ext == "txt"@ || ext == "log"@ || ext == "md"@ || ext == "csv"@ || ext == "json"@ || ext == "xml"@ || ext == "yml"@ || ext == "yaml"@ || ext == "ini"@ || ext == "conf"@ || ext == "cfg"@ || ext == "toml"@ || ext == "properties"@ {
        "text/plain; charset=utf-8"@
    } else if ext == "html"@ || ext == "htm"@ {
        "text/html; charset=utf-8"@
    } else if ext == "css"@ {
        "text/css; charset=utf-8"@
    } else if ext == "js"@ || ext == "mjs"@ {
        "text/javascript; charset=utf-8"@
    } else if ext == "ts"@ {
        "text/typescript; charset=utf-8"@
    } else if ext == "rs"@ || ext == "py"@ || ext == "java"@ || ext == "c"@ || ext == "h"@ || ext == "cpp"@ || ext == "hpp"@ || ext == "cs"@ || ext == "go"@ || ext == "rb"@ || ext == "php"@ || ext == "sh"@ || ext == "bat"@ || ext == "ps1"@ || ext == "sql"@ || ext == "r"@ || ext == "swift"@ || ext == "kt"@ || ext == "scala"@ || ext == "lua"@ || ext == "pl"@ {
        "text/plain; charset=utf-8"@
    } else if ext == "png"@ {
        "image/png"@
    } else if ext == "jpg"@ || ext == "jpeg"@ {
        "image/jpeg"@
    } else if ext == "gif"@ {
        "image/gif"@
    } else if ext == "webp"@ {
        "image/webp"@
    } else if ext == "svg"@ {
        "image/svg+xml"@
    } else if ext == "bmp"@ {
        "image/bmp"@
    } else if ext == "ico"@ {
        "image/x-icon"@
    } else if ext == "avif"@ {
        "image/avif"@
    } else if ext == "mp4"@ {
        "video/mp4"@
    } else if ext == "webm"@ {
        "video/webm"@
    } else if ext == "ogg"@ {
        "video/ogg"@
    } else if ext == "mov"@ {
        "video/quicktime"@
    } else if ext == "mkv"@ {
        "video/x-matroska"@
    } else if ext == "avi"@ {
        "video/x-msvideo"@
    } else if ext == "mp3"@ {
        "audio/mpeg"@
    } else if ext == "wav"@ {
        "audio/wav"@
    } else if ext == "flac"@ {
        "audio/flac"@
    } else if ext == "aac"@ {
        "audio/aac"@
    } else if ext == "m4a"@ {
        "audio/mp4"@
    } else if ext == "pdf"@ {
        "application/pdf"@
    } else if ext == "zip"@ {
        "application/zip"@
    } else if ext == "gz"@ || ext == "tgz"@ {
        "application/gzip"@
    } else if ext == "tar"@ {
        "application/x-tar"@
    } else if ext == "7z"@ {
        "application/x-7z-compressed"@
    } else if ext == "rar"@ {
        "application/vnd.rar"@
    } else {
        "application/octet-stream"@
    }
}

fn media(ext: &str) -> (r: &'static str)
    ensures
        r@ == media_type(ext@),
{
    if str_eq(ext, "txt") || str_eq(ext, "log") || str_eq(ext, "md") || str_eq(ext, "csv") || str_eq(ext, "json") || str_eq(ext, "xml") || str_eq(ext, "yml") || str_eq(ext, "yaml") || str_eq(ext, "ini") || str_eq(ext, "conf") || str_eq(ext, "cfg") || str_eq(ext, "toml") || str_eq(ext, "properties") {
        "text/plain; charset=utf-8"
    } else if str_eq(ext, "html") || str_eq(ext, "htm") {
        "text/html; charset=utf-8"
    } else if str_eq(ext, "css") {
        "text/css; charset=utf-8"
    } else if str_eq(ext, "js") || str_eq(ext, "mjs") {
        "text/javascript; charset=utf-8"
    } else if str_eq(ext, "ts") {
        "text/typescript; charset=utf-8"
    } else if str_eq(ext, "rs") || str_eq(ext, "py") || str_eq(ext, "java") || str_eq(ext, "c") || str_eq(ext, "h") || str_eq(ext, "cpp") || str_eq(ext, "hpp") || str_eq(ext, "cs") || str_eq(ext, "go") || str_eq(ext, "rb") || str_eq(ext, "php") || str_eq(ext, "sh") || str_eq(ext, "bat") || str_eq(ext, "ps1") || str_eq(ext, "sql") || str_eq(ext, "r") || str_eq(ext, "swift") || str_eq(ext, "kt") || str_eq(ext, "scala") || str_eq(ext, "lua") || str_eq(ext, "pl") {
        "text/plain; charset=utf-8"
    } else if str_eq(ext, "png") {
        "image/png"
    } else if str_eq(ext, "jpg") || str_eq(ext, "jpeg") {
        "image/jpeg"
    } else if str_eq(ext, "gif") {
        "image/gif"
    } else if str_eq(ext, "webp") {
        "image/webp"
    } else if str_eq(ext, "svg") {
        "image/svg+xml"
    } else if str_eq(ext, "bmp") {
        "image/bmp"
    } else if str_eq(ext, "ico") {
        "image/x-icon"
    } else if str_eq(ext, "avif") {
        "image/avif"
    } else if str_eq(ext, "mp4") {
        "video/mp4"
    } else if str_eq(ext, "webm") {
        "video/webm"
    } else if str_eq(ext, "ogg") {
        "video/ogg"
    } else if str_eq(ext, "mov") {
        "video/quicktime"
    } else if str_eq(ext, "mkv") {
        "video/x-matroska"
    } else if str_eq(ext, "avi") {
        "video/x-msvideo"
    } else if str_eq(ext, "mp3") {
        "audio/mpeg"
    } else if str_eq(ext, "wav") {
        "audio/wav"
    } else if str_eq(ext, "flac") {
        "audio/flac"
    } else if str_eq(ext, "aac") {
        "audio/aac"
    } else if str_eq(ext, "m4a") {
        "audio/mp4"
    } else if str_eq(ext, "pdf") {
        "application/pdf"
    } else if str_eq(ext, "zip") {
        "application/zip"
    } else if str_eq(ext, "gz") || str_eq(ext, "tgz") {
        "application/gzip"
    } else if str_eq(ext, "tar") {
        "application/x-tar"
    } else if str_eq(ext, "7z") {
        "application/x-7z-compressed"
    } else if str_eq(ext, "rar") {
        "application/vnd.rar"
    } else {
        "application/octet-stream"
    }
}

/// The extension in small letters, empty where there is none.
pub open spec fn small_extension(name: Seq<char>) -> Seq<char> {
    match extension_of(name) {
        Some(e) => ascii_lowered(e),
        None => Seq::<char>::empty(),
    }
}

/// The media type of a file, by its name; upper and lower case of the extension are alike.
pub fn mime_type(name: &str) -> (r: &'static str)
    ensures
        r@ == media_type(small_extension(name@)),
{
    let (_, ext) = split_name(name);
    let small = match ext {
        Some(e) => to_ascii_lower(e.as_str()),
        None => String::new(),
    };
    proof {
        assert(small@ =~= small_extension(name@));
    }
    media(small.as_str())
}

/// Can the file be shown as text?
pub fn is_text_preview(name: &str) -> (r: bool)
    ensures
        r == "text/"@.is_prefix_of(media_type(small_extension(name@))),
{
    begins_with(mime_type(name), "text/")
}

/// The media type that the WebDAV interface gives an extension.
pub open spec fn dav_media_type(ext: Seq<char>) -> Seq<char> {
    if ext == "html"@ || ext == "htm"@ {
        "text/html"@
    } else if ext == "txt"@ || ext == "md"@ || ext == "log"@ {
        "text/plain"@
    } else if ext == "json"@ {
        "application/json"@
    } else if ext == "xml"@ {
        "application/xml"@
    } else if ext == "css"@ {
        "text/css"@
    } else if ext == "js"@ {
        "application/javascript"@
    } else if ext == "png"@ {
        "image/png"@
    } else if ext == "jpg"@ || ext == "jpeg"@ {
        "image/jpeg"@
    } else if ext == "gif"@ {
        "image/gif"@
    } else if ext == "svg"@ {
        "image/svg+xml"@
    } else if ext == "pdf"@ {
        "application/pdf"@
    } else if ext == "zip"@ {
        "application/zip"@
    } else if ext == "mp4"@ {
        "video/mp4"@
    } else if ext == "mp3"@ {
        "audio/mpeg"@
    } else {
        "application/octet-stream"@
    }
}

fn dav_media(ext: &str) -> (r: &'static str)
    ensures
        r@ == dav_media_type(ext@),
{
    if str_eq(ext, "html") || str_eq(ext, "htm") {
        "text/html"
    } else if str_eq(ext, "txt") || str_eq(ext, "md") || str_eq(ext, "log") {
        "text/plain"
    } else if str_eq(ext, "json") {
        "application/json"
    } else if str_eq(ext, "xml") {
        "application/xml"
    } else if str_eq(ext, "css") {
        "text/css"
    } else if str_eq(ext, "js") {
        "application/javascript"
    } else if str_eq(ext, "png") {
        "image/png"
    } else if str_eq(ext, "jpg") || str_eq(ext, "jpeg") {
        "image/jpeg"
    } else if str_eq(ext, "gif") {
        "image/gif"
    } else if str_eq(ext, "svg") {
        "image/svg+xml"
    } else if str_eq(ext, "pdf") {
        "application/pdf"
    } else if str_eq(ext, "zip") {
        "application/zip"
    } else if str_eq(ext, "mp4") {
        "video/mp4"
    } else if str_eq(ext, "mp3") {
        "audio/mpeg"
    } else {
        "application/octet-stream"
    }
}

/// The media type of a file on the WebDAV interface, by its name; capitals count as other letters.
pub fn guess_mime(name: &str) -> (r: String)
    ensures
        r@ == match extension_of(name@) {
            Some(e) => dav_media_type(e),
            None => "application/octet-stream"@,
        },
{
    let (_, ext) = split_name(name);
    match ext {
        Some(e) => dav_media(e.as_str()).to_owned(),
        None => "application/octet-stream".to_owned(),
    }
}

/// A name is its stem, a dot and its extension; the extension holds no dot and the stem is not
/// empty. A name without an extension is its own stem.
pub proof fn law_stem_and_extension(name: Seq<char>)
    ensures
        extension_of(name) matches Some(e) ==> stem_of(name).len() > 0 && !e.contains('.') && name
            == stem_of(name).push('.') + e,
        extension_of(name) is None ==> stem_of(name) == name,
        extension_of(name) is None <==> name == ".."@ || forall|i: int|
            0 < i < name.len() ==> #[trigger] name[i] != '.',
{
    lemma_last_of(name, '.');
    let i = last_of(name, '.');
    if let Some(e) = extension_of(name) {
        assert(name =~= name.take(i).push('.') + e);
        if e.contains('.') {
            let k = choose|k: int| 0 <= k < e.len() && e[k] == '.';
            assert(name[i + 1 + k] == '.');
        }
        assert(name[i] == '.');
    } else if name != ".."@ {
        assert(i <= 0);
    }
}

/// Capital letters in an extension do not matter.
pub proof fn law_extensions_ignore_case(s: Seq<char>, i: int)
    requires
        0 <= i < s.len(),
    ensures
        ascii_lowered(s).len() == s.len(),
        'A' <= s[i] <= 'Z' ==> ascii_lowered(s)[i] as u32 == s[i] as u32 + 32,
        !('A' <= s[i] <= 'Z') ==> ascii_lowered(s)[i] == s[i],
        ascii_lowered(ascii_lowered(s)) == ascii_lowered(s),
{
    assert(ascii_lowered(ascii_lowered(s)) =~= ascii_lowered(s));
}

/// The media types of the WebDAV interface: each kind of file has its own, and what is not known has
/// that of plain bytes.
pub proof fn law_dav_media_types(ext: Seq<char>)
    ensures
        ext == "html"@ || ext == "htm"@ ==> dav_media_type(ext) == "text/html"@,
        ext == "txt"@ || ext == "md"@ || ext == "log"@ ==> dav_media_type(ext) == "text/plain"@,
        ext == "json"@ ==> dav_media_type(ext) == "application/json"@,
        ext == "xml"@ ==> dav_media_type(ext) == "application/xml"@,
        ext == "css"@ ==> dav_media_type(ext) == "text/css"@,
        ext == "js"@ ==> dav_media_type(ext) == "application/javascript"@,
        ext == "png"@ ==> dav_media_type(ext) == "image/png"@,
        ext == "jpg"@ || ext == "jpeg"@ ==> dav_media_type(ext) == "image/jpeg"@,
        ext == "gif"@ ==> dav_media_type(ext) == "image/gif"@,
        ext == "svg"@ ==> dav_media_type(ext) == "image/svg+xml"@,
        ext == "pdf"@ ==> dav_media_type(ext) == "application/pdf"@,
        ext == "zip"@ ==> dav_media_type(ext) == "application/zip"@,
        ext == "mp4"@ ==> dav_media_type(ext) == "video/mp4"@,
        ext == "mp3"@ ==> dav_media_type(ext) == "audio/mpeg"@,
        ext != "html"@ && ext != "htm"@ && ext != "txt"@ && ext != "md"@ && ext != "log"@ && ext != "json"@ && ext != "xml"@ && ext != "css"@ && ext != "js"@ && ext != "png"@ && ext != "jpg"@ && ext != "jpeg"@ && ext != "gif"@ && ext != "svg"@ && ext != "pdf"@ && ext != "zip"@ && ext != "mp4"@ && ext != "mp3"@ ==> dav_media_type(ext) == "application/octet-stream"@,
{
    reveal_strlit("html");
    reveal_strlit("htm");
    reveal_strlit("txt");
    reveal_strlit("md");
    reveal_strlit("log");
    reveal_strlit("json");
    reveal_strlit("xml");
    reveal_strlit("css");
    reveal_strlit("js");
    reveal_strlit("png");
    reveal_strlit("jpg");
    reveal_strlit("jpeg");
    reveal_strlit("gif");
    reveal_strlit("svg");
    reveal_strlit("pdf");
    reveal_strlit("zip");
    reveal_strlit("mp4");
    reveal_strlit("mp3");
    assert("html"@.len() == 4 && "html"@[0] == 'h' && "html"@[1] == 't' && "html"@[2] == 'm' && "html"@[3] == 'l');
    assert("htm"@.len() == 3 && "htm"@[0] == 'h' && "htm"@[1] == 't' && "htm"@[2] == 'm');
    assert("txt"@.len() == 3 && "txt"@[0] == 't' && "txt"@[1] == 'x' && "txt"@[2] == 't');
    assert("md"@.len() == 2 && "md"@[0] == 'm' && "md"@[1] == 'd');
    assert("log"@.len() == 3 && "log"@[0] == 'l' && "log"@[1] == 'o' && "log"@[2] == 'g');
    assert("json"@.len() == 4 && "json"@[0] == 'j' && "json"@[1] == 's' && "json"@[2] == 'o' && "json"@[3] == 'n');
    assert("xml"@.len() == 3 && "xml"@[0] == 'x' && "xml"@[1] == 'm' && "xml"@[2] == 'l');
    assert("css"@.len() == 3 && "css"@[0] == 'c' && "css"@[1] == 's' && "css"@[2] == 's');
    assert("js"@.len() == 2 && "js"@[0] == 'j' && "js"@[1] == 's');
    assert("png"@.len() == 3 && "png"@[0] == 'p' && "png"@[1] == 'n' && "png"@[2] == 'g');
    assert("jpg"@.len() == 3 && "jpg"@[0] == 'j' && "jpg"@[1] == 'p' && "jpg"@[2] == 'g');
    assert("jpeg"@.len() == 4 && "jpeg"@[0] == 'j' && "jpeg"@[1] == 'p' && "jpeg"@[2] == 'e' && "jpeg"@[3] == 'g');
    assert("gif"@.len() == 3 && "gif"@[0] == 'g' && "gif"@[1] == 'i' && "gif"@[2] == 'f');
    assert("svg"@.len() == 3 && "svg"@[0] == 's' && "svg"@[1] == 'v' && "svg"@[2] == 'g');
    assert("pdf"@.len() == 3 && "pdf"@[0] == 'p' && "pdf"@[1] == 'd' && "pdf"@[2] == 'f');
    assert("zip"@.len() == 3 && "zip"@[0] == 'z' && "zip"@[1] == 'i' && "zip"@[2] == 'p');
    assert("mp4"@.len() == 3 && "mp4"@[0] == 'm' && "mp4"@[1] == 'p' && "mp4"@[2] == '4');
    assert("mp3"@.len() == 3 && "mp3"@[0] == 'm' && "mp3"@[1] == 'p' && "mp3"@[2] == '3');
}

/// The media types of the web interface: texts and sources are shown as text, images, videos and sounds
/// as what they are, and what is not known has the type of plain bytes.
pub proof fn law_media_types(ext: Seq<char>)
    ensures
        ext == "txt"@ || ext == "log"@ || ext == "md"@ || ext == "csv"@ || ext == "json"@ || ext == "xml"@ || ext == "yml"@ || ext == "yaml"@ || ext == "ini"@ || ext == "conf"@ || ext == "cfg"@ || ext == "toml"@ || ext == "properties"@ ==> media_type(ext) == "text/plain; charset=utf-8"@,
        ext == "html"@ || ext == "htm"@ ==> media_type(ext) == "text/html; charset=utf-8"@,
        ext == "css"@ ==> media_type(ext) == "text/css; charset=utf-8"@,
        ext == "js"@ || ext == "mjs"@ ==> media_type(ext) == "text/javascript; charset=utf-8"@,
        ext == "ts"@ ==> media_type(ext) == "text/typescript; charset=utf-8"@,
        ext == "rs"@ || ext == "py"@ || ext == "java"@ || ext == "c"@ || ext == "h"@ || ext == "cpp"@ || ext == "hpp"@ || ext == "cs"@ || ext == "go"@ || ext == "rb"@ || ext == "php"@ || ext == "sh"@ || ext == "bat"@ || ext == "ps1"@ || ext == "sql"@ || ext == "r"@ || ext == "swift"@ || ext == "kt"@ || ext == "scala"@ || ext == "lua"@ || ext == "pl"@ ==> media_type(ext) == "text/plain; charset=utf-8"@,
        ext == "png"@ ==> media_type(ext) == "image/png"@,
        ext == "jpg"@ || ext == "jpeg"@ ==> media_type(ext) == "image/jpeg"@,
        ext == "gif"@ ==> media_type(ext) == "image/gif"@,
        ext == "webp"@ ==> media_type(ext) == "image/webp"@,
        ext == "svg"@ ==> media_type(ext) == "image/svg+xml"@,
        ext == "bmp"@ ==> media_type(ext) == "image/bmp"@,
        ext == "ico"@ ==> media_type(ext) == "image/x-icon"@,
        ext == "avif"@ ==> media_type(ext) == "image/avif"@,
        ext == "mp4"@ ==> media_type(ext) == "video/mp4"@,
        ext == "webm"@ ==> media_type(ext) == "video/webm"@,
        ext == "ogg"@ ==> media_type(ext) == "video/ogg"@,
        ext == "mov"@ ==> media_type(ext) == "video/quicktime"@,
        ext == "mkv"@ ==> media_type(ext) == "video/x-matroska"@,
        ext == "avi"@ ==> media_type(ext) == "video/x-msvideo"@,
        ext == "mp3"@ ==> media_type(ext) == "audio/mpeg"@,
        ext == "wav"@ ==> media_type(ext) == "audio/wav"@,
        ext == "flac"@ ==> media_type(ext) == "audio/flac"@,
        ext == "aac"@ ==> media_type(ext) == "audio/aac"@,
        ext == "m4a"@ ==> media_type(ext) == "audio/mp4"@,
        ext == "pdf"@ ==> media_type(ext) == "application/pdf"@,
        ext == "zip"@ ==> media_type(ext) == "application/zip"@,
        ext == "gz"@ || ext == "tgz"@ ==> media_type(ext) == "application/gzip"@,
        ext == "tar"@ ==> media_type(ext) == "application/x-tar"@,
        ext == "7z"@ ==> media_type(ext) == "application/x-7z-compressed"@,
        ext == "rar"@ ==> media_type(ext) == "application/vnd.rar"@,
        ext != "txt"@ && ext != "log"@ && ext != "md"@ && ext != "csv"@ && ext != "json"@ && ext != "xml"@ && ext != "yml"@ && ext != "yaml"@ && ext != "ini"@ && ext != "conf"@ && ext != "cfg"@ && ext != "toml"@ && ext != "properties"@ && ext != "html"@ && ext != "htm"@ && ext != "css"@ && ext != "js"@ && ext != "mjs"@ && ext != "ts"@ && ext != "rs"@ && ext != "py"@ && ext != "java"@ && ext != "c"@ && ext != "h"@ && ext != "cpp"@ && ext != "hpp"@ && ext != "cs"@ && ext != "go"@ && ext != "rb"@ && ext != "php"@ && ext != "sh"@ && ext != "bat"@ && ext != "ps1"@ && ext != "sql"@ && ext != "r"@ && ext != "swift"@ && ext != "kt"@ && ext != "scala"@ && ext != "lua"@ && ext != "pl"@ && ext != "png"@ && ext != "jpg"@ && ext != "jpeg"@ && ext != "gif"@ && ext != "webp"@ && ext != "svg"@ && ext != "bmp"@ && ext != "ico"@ && ext != "avif"@ && ext != "mp4"@ && ext != "webm"@ && ext != "ogg"@ && ext != "mov"@ && ext != "mkv"@ && ext != "avi"@ && ext != "mp3"@ && ext != "wav"@ && ext != "flac"@ && ext != "aac"@ && ext != "m4a"@ && ext != "pdf"@ && ext != "zip"@ && ext != "gz"@ && ext != "tgz"@ && ext != "tar"@ && ext != "7z"@ && ext != "rar"@ ==> media_type(ext) == "application/octet-stream"@,
{
    reveal_strlit("txt");
    reveal_strlit("log");
    reveal_strlit("md");
    reveal_strlit("csv");
    reveal_strlit("json");
    reveal_strlit("xml");
    reveal_strlit("yml");
    reveal_strlit("yaml");
    reveal_strlit("ini");
    reveal_strlit("conf");
    reveal_strlit("cfg");
    reveal_strlit("toml");
    reveal_strlit("properties");
    reveal_strlit("html");
    reveal_strlit("htm");
    reveal_strlit("css");
    reveal_strlit("js");
    reveal_strlit("mjs");
    reveal_strlit("ts");
    reveal_strlit("rs");
    reveal_strlit("py");
    reveal_strlit("java");
    reveal_strlit("c");
    reveal_strlit("h");
    reveal_strlit("cpp");
    reveal_strlit("hpp");
    reveal_strlit("cs");
    reveal_strlit("go");
    reveal_strlit("rb");
    reveal_strlit("php");
    reveal_strlit("sh");
    reveal_strlit("bat");
    reveal_strlit("ps1");
    reveal_strlit("sql");
    reveal_strlit("r");
    reveal_strlit("swift");
    reveal_strlit("kt");
    reveal_strlit("scala");
    reveal_strlit("lua");
    reveal_strlit("pl");
    reveal_strlit("png");
    reveal_strlit("jpg");
    reveal_strlit("jpeg");
    reveal_strlit("gif");
    reveal_strlit("webp");
    reveal_strlit("svg");
    reveal_strlit("bmp");
    reveal_strlit("ico");
    reveal_strlit("avif");
    reveal_strlit("mp4");
    reveal_strlit("webm");
    reveal_strlit("ogg");
    reveal_strlit("mov");
    reveal_strlit("mkv");
    reveal_strlit("avi");
    reveal_strlit("mp3");
    reveal_strlit("wav");
    reveal_strlit("flac");
    reveal_strlit("aac");
    reveal_strlit("m4a");
    reveal_strlit("pdf");
    reveal_strlit("zip");
    reveal_strlit("gz");
    reveal_strlit("tgz");
    reveal_strlit("tar");
    reveal_strlit("7z");
    reveal_strlit("rar");
    assert("txt"@.len() == 3 && "txt"@[0] == 't' && "txt"@[1] == 'x' && "txt"@[2] == 't');
    assert("log"@.len() == 3 && "log"@[0] == 'l' && "log"@[1] == 'o' && "log"@[2] == 'g');
    assert("md"@.len() == 2 && "md"@[0] == 'm' && "md"@[1] == 'd');
    assert("csv"@.len() == 3 && "csv"@[0] == 'c' && "csv"@[1] == 's' && "csv"@[2] == 'v');
    assert("json"@.len() == 4 && "json"@[0] == 'j' && "json"@[1] == 's' && "json"@[2] == 'o' && "json"@[3] == 'n');
    assert("xml"@.len() == 3 && "xml"@[0] == 'x' && "xml"@[1] == 'm' && "xml"@[2] == 'l');
    assert("yml"@.len() == 3 && "yml"@[0] == 'y' && "yml"@[1] == 'm' && "yml"@[2] == 'l');
    assert("yaml"@.len() == 4 && "yaml"@[0] == 'y' && "yaml"@[1] == 'a' && "yaml"@[2] == 'm' && "yaml"@[3] == 'l');
    assert("ini"@.len() == 3 && "ini"@[0] == 'i' && "ini"@[1] == 'n' && "ini"@[2] == 'i');
    assert("conf"@.len() == 4 && "conf"@[0] == 'c' && "conf"@[1] == 'o' && "conf"@[2] == 'n' && "conf"@[3] == 'f');
    assert("cfg"@.len() == 3 && "cfg"@[0] == 'c' && "cfg"@[1] == 'f' && "cfg"@[2] == 'g');
    assert("toml"@.len() == 4 && "toml"@[0] == 't' && "toml"@[1] == 'o' && "toml"@[2] == 'm' && "toml"@[3] == 'l');
    assert("properties"@.len() == 10 && "properties"@[0] == 'p' && "properties"@[1] == 'r' && "properties"@[2] == 'o' && "properties"@[3] == 'p' && "properties"@[4] == 'e' && "properties"@[5] == 'r' && "properties"@[6] == 't' && "properties"@[7] == 'i' && "properties"@[8] == 'e' && "properties"@[9] == 's');
    assert("html"@.len() == 4 && "html"@[0] == 'h' && "html"@[1] == 't' && "html"@[2] == 'm' && "html"@[3] == 'l');
    assert("htm"@.len() == 3 && "htm"@[0] == 'h' && "htm"@[1] == 't' && "htm"@[2] == 'm');
    assert("css"@.len() == 3 && "css"@[0] == 'c' && "css"@[1] == 's' && "css"@[2] == 's');
    assert("js"@.len() == 2 && "js"@[0] == 'j' && "js"@[1] == 's');
    assert("mjs"@.len() == 3 && "mjs"@[0] == 'm' && "mjs"@[1] == 'j' && "mjs"@[2] == 's');
    assert("ts"@.len() == 2 && "ts"@[0] == 't' && "ts"@[1] == 's');
    assert("rs"@.len() == 2 && "rs"@[0] == 'r' && "rs"@[1] == 's');
    assert("py"@.len() == 2 && "py"@[0] == 'p' && "py"@[1] == 'y');
    assert("java"@.len() == 4 && "java"@[0] == 'j' && "java"@[1] == 'a' && "java"@[2] == 'v' && "java"@[3] == 'a');
    assert("c"@.len() == 1 && "c"@[0] == 'c');
    assert("h"@.len() == 1 && "h"@[0] == 'h');
    assert("cpp"@.len() == 3 && "cpp"@[0] == 'c' && "cpp"@[1] == 'p' && "cpp"@[2] == 'p');
    assert("hpp"@.len() == 3 && "hpp"@[0] == 'h' && "hpp"@[1] == 'p' && "hpp"@[2] == 'p');
    assert("cs"@.len() == 2 && "cs"@[0] == 'c' && "cs"@[1] == 's');
    assert("go"@.len() == 2 && "go"@[0] == 'g' && "go"@[1] == 'o');
    assert("rb"@.len() == 2 && "rb"@[0] == 'r' && "rb"@[1] == 'b');
    assert("php"@.len() == 3 && "php"@[0] == 'p' && "php"@[1] == 'h' && "php"@[2] == 'p');
    assert("sh"@.len() == 2 && "sh"@[0] == 's' && "sh"@[1] == 'h');
    assert("bat"@.len() == 3 && "bat"@[0] == 'b' && "bat"@[1] == 'a' && "bat"@[2] == 't');
    assert("ps1"@.len() == 3 && "ps1"@[0] == 'p' && "ps1"@[1] == 's' && "ps1"@[2] == '1');
    assert("sql"@.len() == 3 && "sql"@[0] == 's' && "sql"@[1] == 'q' && "sql"@[2] == 'l');
    assert("r"@.len() == 1 && "r"@[0] == 'r');
    assert("swift"@.len() == 5 && "swift"@[0] == 's' && "swift"@[1] == 'w' && "swift"@[2] == 'i' && "swift"@[3] == 'f' && "swift"@[4] == 't');
    assert("kt"@.len() == 2 && "kt"@[0] == 'k' && "kt"@[1] == 't');
    assert("scala"@.len() == 5 && "scala"@[0] == 's' && "scala"@[1] == 'c' && "scala"@[2] == 'a' && "scala"@[3] == 'l' && "scala"@[4] == 'a');
    assert("lua"@.len() == 3 && "lua"@[0] == 'l' && "lua"@[1] == 'u' && "lua"@[2] == 'a');
    assert("pl"@.len() == 2 && "pl"@[0] == 'p' && "pl"@[1] == 'l');
    assert("png"@.len() == 3 && "png"@[0] == 'p' && "png"@[1] == 'n' && "png"@[2] == 'g');
    assert("jpg"@.len() == 3 && "jpg"@[0] == 'j' && "jpg"@[1] == 'p' && "jpg"@[2] == 'g');
    assert("jpeg"@.len() == 4 && "jpeg"@[0] == 'j' && "jpeg"@[1] == 'p' && "jpeg"@[2] == 'e' && "jpeg"@[3] == 'g');
    assert("gif"@.len() == 3 && "gif"@[0] == 'g' && "gif"@[1] == 'i' && "gif"@[2] == 'f');
    assert("webp"@.len() == 4 && "webp"@[0] == 'w' && "webp"@[1] == 'e' && "webp"@[2] == 'b' && "webp"@[3] == 'p');
    assert("svg"@.len() == 3 && "svg"@[0] == 's' && "svg"@[1] == 'v' && "svg"@[2] == 'g');
    assert("bmp"@.len() == 3 && "bmp"@[0] == 'b' && "bmp"@[1] == 'm' && "bmp"@[2] == 'p');
    assert("ico"@.len() == 3 && "ico"@[0] == 'i' && "ico"@[1] == 'c' && "ico"@[2] == 'o');
    assert("avif"@.len() == 4 && "avif"@[0] == 'a' && "avif"@[1] == 'v' && "avif"@[2] == 'i' && "avif"@[3] == 'f');
    assert("mp4"@.len() == 3 && "mp4"@[0] == 'm' && "mp4"@[1] == 'p' && "mp4"@[2] == '4');
    assert("webm"@.len() == 4 && "webm"@[0] == 'w' && "webm"@[1] == 'e' && "webm"@[2] == 'b' && "webm"@[3] == 'm');
    assert("ogg"@.len() == 3 && "ogg"@[0] == 'o' && "ogg"@[1] == 'g' && "ogg"@[2] == 'g');
    assert("mov"@.len() == 3 && "mov"@[0] == 'm' && "mov"@[1] == 'o' && "mov"@[2] == 'v');
    assert("mkv"@.len() == 3 && "mkv"@[0] == 'm' && "mkv"@[1] == 'k' && "mkv"@[2] == 'v');
    assert("avi"@.len() == 3 && "avi"@[0] == 'a' && "avi"@[1] == 'v' && "avi"@[2] == 'i');
    assert("mp3"@.len() == 3 && "mp3"@[0] == 'm' && "mp3"@[1] == 'p' && "mp3"@[2] == '3');
    assert("wav"@.len() == 3 && "wav"@[0] == 'w' && "wav"@[1] == 'a' && "wav"@[2] == 'v');
    assert("flac"@.len() == 4 && "flac"@[0] == 'f' && "flac"@[1] == 'l' && "flac"@[2] == 'a' && "flac"@[3] == 'c');
    assert("aac"@.len() == 3 && "aac"@[0] == 'a' && "aac"@[1] == 'a' && "aac"@[2] == 'c');
    assert("m4a"@.len() == 3 && "m4a"@[0] == 'm' && "m4a"@[1] == '4' && "m4a"@[2] == 'a');
    assert("pdf"@.len() == 3 && "pdf"@[0] == 'p' && "pdf"@[1] == 'd' && "pdf"@[2] == 'f');
    assert("zip"@.len() == 3 && "zip"@[0] == 'z' && "zip"@[1] == 'i' && "zip"@[2] == 'p');
    assert("gz"@.len() == 2 && "gz"@[0] == 'g' && "gz"@[1] == 'z');
    assert("tgz"@.len() == 3 && "tgz"@[0] == 't' && "tgz"@[1] == 'g' && "tgz"@[2] == 'z');
    assert("tar"@.len() == 3 && "tar"@[0] == 't' && "tar"@[1] == 'a' && "tar"@[2] == 'r');
    assert("7z"@.len() == 2 && "7z"@[0] == '7' && "7z"@[1] == 'z');
    assert("rar"@.len() == 3 && "rar"@[0] == 'r' && "rar"@[1] == 'a' && "rar"@[2] == 'r');
}

} // verus!
