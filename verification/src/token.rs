//! Names and tokens that nobody can guess.
use vstd::prelude::*;
use crate::files::{id_char, valid_upload_id};
use crate::text::push_number;
use crate::webdav::handle_lock;

verus! {

/// Is the character a hexadecimal digit, small letters from ten on?
pub open spec fn is_hex(c: char) -> bool {
    '0' <= c <= '9' || 'a' <= c <= 'f'
}

/// Is the text 32 hexadecimal digits?
pub open spec fn simple_form(s: Seq<char>) -> bool {
    s.len() == 32 && forall|i: int| 0 <= i < 32 ==> is_hex(#[trigger] s[i])
}

/// Is the text 32 hexadecimal digits in five groups, with hyphens between them?
pub open spec fn grouped_form(s: Seq<char>) -> bool {
    s.len() == 36 && forall|i: int|
        0 <= i < 36 ==> if i == 8 || i == 13 || i == 18 || i == 23 {
            #[trigger] s[i] == '-'
        } else {
            is_hex(s[i])
        }
}

/// Calls `uuid::Uuid::new_v4` and writes the random identifier in its simple form. Nothing is said
/// of which identifier it is: that is left to chance.
#[verifier::external_body]
pub(crate) fn random_simple() -> (r: String)
    ensures
        simple_form(r@),
{
    uuid::Uuid::new_v4().simple().to_string()
}

/// Calls `uuid::Uuid::new_v4` and writes the random identifier in its grouped form. Nothing is said
/// of which identifier it is: that is left to chance.
#[verifier::external_body]
pub(crate) fn random_grouped() -> (r: String)
    ensures
        grouped_form(r@),
{
    uuid::Uuid::new_v4().to_string()
}

/// A token for a new session.
pub fn session_token() -> (r: String)
    ensures
        grouped_form(r@),
{
    random_grouped()
}

/// A token for a new share link.
pub fn share_token() -> (r: String)
    ensures
        simple_form(r@),
{
    random_simple()
}

/// A lock of its own for a request: the answer, and the value of the header that names it.
pub fn new_lock() -> (r: (String, String))
    ensures
        exists|t: Seq<char>| #[trigger]
            grouped_form(t) && r.1@ == "<opaquelocktoken:"@ + t + ">"@ && r.0@
                == crate::webdav::lock_document(t),
{
    let token = random_grouped();
    let r = handle_lock(token.as_str());
    proof {
        assert(grouped_form(token@));
    }
    r
}

/// The name of a file while it is being received. It begins with a dot, so it is not shown.
pub open spec fn upload_name(id: Seq<char>) -> Seq<char> {
    ".upload_"@ + id
}

/// The name of a file while it is being received.
pub fn temporary_upload(id: &str) -> (r: String)
    ensures
        r@ == upload_name(id@),
{
    let mut out: String = ".upload_".to_owned();
    out.append(id);
    out
}

/// A name for a file that is being received.
pub fn new_temporary_upload() -> (r: String)
    ensures
        exists|t: Seq<char>| #[trigger] simple_form(t) && r@ == upload_name(t),
{
    let id = random_simple();
    temporary_upload(id.as_str())
}

/// The name of a packed directory while it is sent to an account, or to a visitor of a link.
pub fn packed_file(id: &str, process: Option<u32>) -> (r: String)
    ensures
        r@ == match process {
            Some(p) => "lanshare_"@ + id@ + "_"@ + crate::text::digits(p as nat) + ".zip"@,
            None => "lanshare_share_"@ + id@ + ".zip"@,
        },
{
    match process {
        Some(p) => {
            let mut out: String = "lanshare_".to_owned();
            out.append(id);
            out.append("_");
            push_number(&mut out, p as u64);
            out.append(".zip");
            out
        },
        None => {
            let mut out: String = "lanshare_share_".to_owned();
            out.append(id);
            out.append(".zip");
            out
        },
    }
}

/// A name for a packed directory.
pub fn new_packed_file(process: Option<u32>) -> (r: String)
    ensures
        exists|t: Seq<char>| #[trigger]
            simple_form(t) && r@ == match process {
                Some(p) => "lanshare_"@ + t + "_"@ + crate::text::digits(p as nat) + ".zip"@,
                None => "lanshare_share_"@ + t + ".zip"@,
            },
{
    let id = random_simple();
    packed_file(id.as_str(), process)
}

/// A token of a link can stand in a path, in a URL and in a JSON text as it is: it holds letters
/// and digits only.
pub proof fn law_share_tokens_are_plain(t: Seq<char>)
    requires
        simple_form(t),
    ensures
        valid_upload_id(t),
        !t.contains('/') && !t.contains('"') && !t.contains('\\') && !t.contains('.'),
{
    assert forall|i: int| 0 <= i < t.len() implies id_char(#[trigger] t[i]) by {
        assert(is_hex(t[i]));
    }
    assert forall|c: char| t.contains(c) implies is_hex(c) by {
        let k = choose|k: int| 0 <= k < t.len() && t[k] == c;
        assert(is_hex(t[k]));
    }
}

/// A file that is being received is hidden from listings.
pub proof fn law_temporary_uploads_are_hidden(id: Seq<char>)
    ensures
        crate::files::hidden(upload_name(id)),
{
    reveal_strlit(".upload_");
}

} // verus!
