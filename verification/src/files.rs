//! The file interface of the web server: what each request may do, and what it is answered.
use vstd::prelude::*;
use crate::db::{pin_account, share_user, user_of, User};
use crate::encoding::{percent_encode, percent_text};
use crate::http::{barrier, err_json, error_view, permit, HttpReply, HttpView};
use crate::listing::{in_order, key_views, sort_order, KeyView, SortKey};
use crate::mime::{
    behind_last, extension_of, is_text_preview, last_of, lemma_last_of, media_type,
    small_extension, split_name, stem_of,
};
use crate::paths::{path_of, starts_within, within};
use crate::quote::{push_quoted, quoted};
use crate::wsp_client::concatenated;
use crate::text::{
    begins_with, chars_of, digits, digits_value, has_char, is_digit,
    lemma_digits, lowercase, number, number_in, padded, parse_number, push_number, push_padded,
    replace_char, replaced, str_eq, string_of, text_of, texts, to_lowercase,
};

verus! {

/// The directory that deleted entries go to.
pub const TRASH_DIR: &'static str = ".lanshare-trash";

/// The directory in which uploads in pieces are collected.
pub const UPLOAD_TMP_DIR: &'static str = ".lanshare-uploads";

/// The largest file that can be uploaded at once, 200 MB.
pub const MAX_SINGLE_UPLOAD: u64 = 209715200;

/// The largest file that can be uploaded in pieces, 2 GB.
pub const MAX_CHUNKED_UPLOAD: u64 = 2147483648;

/// The largest text that is shown in the browser, 1 MB.
pub const MAX_TEXT_PREVIEW: u64 = 1048576;

/// A path, and a token for where no header can be sent.
#[derive(Debug, Clone)]
pub struct PathQuery {
    pub path: String,
    pub token: Option<String>,
}

/// The path of a query that names none.
pub fn default_path() -> (r: String)
    ensures
        r@ == "/"@,
{
    "/".to_owned()
}

#[derive(Debug, Clone)]
pub struct MkdirReq {
    pub path: String,
}

#[derive(Debug, Clone)]
pub struct RenameReq {
    pub path: String,
    pub new_name: String,
}

/// An entry of a directory; the time is in seconds since 1970.
#[derive(Debug, Clone)]
pub struct FileEntry {
    pub name: String,
    pub is_dir: bool,
    pub size: u64,
    pub mtime: i64,
}

pub struct FileView {
    pub name: Seq<char>,
    pub is_dir: bool,
    pub size: u64,
    pub mtime: i64,
}

impl View for FileEntry {
    type V = FileView;

    open spec fn view(&self) -> FileView {
        FileView { name: self.name@, is_dir: self.is_dir, size: self.size, mtime: self.mtime }
    }
}

/// Who makes a request: the account of the header, if there is one, else that of the token in the
/// query. In simple mode the PIN is a token.
pub fn auth(
    header_user: Option<User>,
    simple_mode: bool,
    pin: &str,
    query_token: &Option<String>,
    session: Option<User>,
) -> (r: Option<User>)
    ensures
        user_of(r) == if header_user is Some {
            user_of(header_user)
        } else {
            match text_of(*query_token) {
                Some(t) => if simple_mode && t == pin@ {
                    Some(pin_account())
                } else {
                    user_of(session)
                },
                None => None,
            }
        },
{
    if header_user.is_some() {
        return header_user;
    }
    match query_token {
        Some(t) => {
            if simple_mode && str_eq(t.as_str(), pin) {
                return Some(share_user());
            }
            session
        },
        None => None,
    }
}

/// The views of the entries.
pub open spec fn file_views(v: Seq<FileEntry>) -> Seq<FileView> {
    v.map_values(|e: FileEntry| e@)
}

/// What a file is ordered by.
pub open spec fn file_key(e: FileView) -> KeyView {
    KeyView { is_dir: e.is_dir, name: lowercase(e.name) }
}

pub open spec fn file_keys(v: Seq<FileView>) -> Seq<KeyView> {
    v.map_values(|e: FileView| file_key(e))
}

/// Is the name hidden? Names that begin with a dot are.
pub open spec fn hidden(name: Seq<char>) -> bool {
    name.len() > 0 && name[0] == '.'
}

/// The entries whose names are not hidden.
pub open spec fn shown(v: Seq<FileView>) -> Seq<FileView>
    decreases v.len(),
{
    if v.len() == 0 {
        v
    } else if hidden(v.last().name) {
        shown(v.drop_last())
    } else {
        shown(v.drop_last()).push(v.last())
    }
}

/// Is `r` the list `v` put in order?
pub open spec fn is_file_listing(v: Seq<FileView>, r: Seq<FileView>) -> bool {
    exists|order: Seq<usize>|
        {
            &&& #[trigger] in_order(file_keys(v), order)
            &&& r == order.map_values(|i: usize| v[i as int])
        }
}

impl FileEntry {
    /// An equal entry.
    pub fn duplicate(&self) -> (r: FileEntry)
        ensures
            r@ == self@,
    {
        FileEntry {
            name: self.name.clone(),
            is_dir: self.is_dir,
            size: self.size,
            mtime: self.mtime,
        }
    }
}

/// Is the name hidden?
pub fn is_hidden(name: &str) -> (r: bool)
    ensures
        r == hidden(name@),
{
    let v = chars_of(name);
    v.len() > 0 && v[0] == '.'
}

/// The entries of a directory as they are shown: without the hidden ones, directories first, then
/// by name.
pub fn shown_files(v: &Vec<FileEntry>) -> (r: Vec<FileEntry>)
    ensures
        is_file_listing(shown(file_views(v@)), file_views(r@)),
{
    let ghost all = file_views(v@);
    let mut kept: Vec<FileEntry> = Vec::new();
    let mut keys: Vec<SortKey> = Vec::new();
    let mut i: usize = 0;
    proof {
        assert(all.take(0) =~= Seq::<FileView>::empty());
        assert(file_views(kept@) =~= shown(all.take(0)));
        assert(key_views(keys@) =~= file_keys(file_views(kept@)));
    }
    while i < v.len()
        invariant
            i <= v@.len(),
            all == file_views(v@),
            file_views(kept@) == shown(all.take(i as int)),
            key_views(keys@) == file_keys(file_views(kept@)),
        decreases v@.len() - i,
    {
        proof {
            assert(all.take(i + 1).drop_last() =~= all.take(i as int));
            assert(all.take(i + 1).last() == v@[i as int]@);
        }
        if !is_hidden(v[i].name.as_str()) {
            let low = to_lowercase(v[i].name.as_str());
            let ghost before = file_views(kept@);
            let ghost before_keys = key_views(keys@);
            keys.push(SortKey { is_dir: v[i].is_dir, name: chars_of(low.as_str()) });
            kept.push(v[i].duplicate());
            proof {
                assert(file_views(kept@) =~= before.push(v@[i as int]@));
                assert(key_views(keys@) =~= before_keys.push(file_key(v@[i as int]@)));
                assert(key_views(keys@) =~= file_keys(file_views(kept@)));
            }
        }
        i = i + 1;
    }
    proof {
        assert(all.take(v@.len() as int) =~= all);
    }
    let ghost ev = file_views(kept@);
    let order = sort_order(&keys);
    let mut out: Vec<FileEntry> = Vec::new();
    let mut j: usize = 0;
    while j < order.len()
        invariant
            j <= order@.len(),
            order@.len() == kept@.len(),
            ev == file_views(kept@),
            in_order(file_keys(ev), order@),
            file_views(out@) == order@.take(j as int).map_values(|i: usize| ev[i as int]),
        decreases order@.len() - j,
    {
        let ghost before = file_views(out@);
        out.push(kept[order[j]].duplicate());
        proof {
            assert(file_views(out@) =~= before.push(ev[order@[j as int] as int]));
            assert(order@.take(j + 1).map_values(|i: usize| ev[i as int]) =~= order@.take(
                j as int,
            ).map_values(|i: usize| ev[i as int]).push(ev[order@[j as int] as int]));
        }
        j = j + 1;
    }
    proof {
        assert(order@.take(order@.len() as int) =~= order@);
    }
    out
}

/// What stands in the way of a request for a path: the sandbox refuses it, or there is not what
/// the request is about.
pub open spec fn path_barrier(
    path: Option<Seq<Seq<char>>>,
    fits: bool,
    status: u16,
    msg: Seq<char>,
) -> Option<HttpView> {
    if path is None {
        Some(error_view(403, "路径非法"@))
    } else if !fits {
        Some(error_view(status, msg))
    } else {
        None
    }
}

/// The first of two obstacles.
pub open spec fn first_of_two(a: Option<HttpView>, b: Option<HttpView>) -> Option<HttpView> {
    if a is Some {
        a
    } else {
        b
    }
}

/// The obstacle that a result reports.
pub open spec fn obstacle<T>(r: Result<T, HttpReply>) -> Option<HttpView> {
    match r {
        Ok(_) => None,
        Err(e) => Some(e@),
    }
}

fn path_check(path: &Option<Vec<String>>, fits: bool, status: u16, msg: &str) -> (r: Result<
    (),
    HttpReply,
>)
    ensures
        obstacle(r) == path_barrier(path_of(*path), fits, status, msg@),
{
    if path.is_none() {
        return Err(err_json(403, "路径非法"));
    }
    if !fits {
        return Err(err_json(status, msg));
    }
    Ok(())
}

/// May a directory be listed? `path` is what the sandbox lets through.
pub fn list_files(user: Option<User>, path: &Option<Vec<String>>, is_dir: bool) -> (r: Result<
    User,
    HttpReply,
>)
    ensures
        obstacle(r) == first_of_two(
            barrier(user, "read"@, "无读取权限"@),
            path_barrier(path_of(*path), is_dir, 400, "不是目录"@),
        ),
        r matches Ok(u) ==> user == Some(u),
{
    let u = permit(user, "read", "无读取权限")?;
    path_check(path, is_dir, 400, "不是目录")?;
    Ok(u)
}

/// May a file be downloaded?
pub fn download_file(user: Option<User>, path: &Option<Vec<String>>, is_file: bool) -> (r: Result<
    (),
    HttpReply,
>)
    ensures
        obstacle(r) == first_of_two(
            barrier(user, "read"@, "无读取权限"@),
            path_barrier(path_of(*path), is_file, 400, "不是文件"@),
        ),
{
    permit(user, "read", "无读取权限")?;
    path_check(path, is_file, 400, "不是文件")
}

/// Is the file a text that is too large to be shown? A size that cannot be found out is none.
pub open spec fn too_large_to_show(name: Seq<char>, size: Option<u64>) -> bool {
    "text/"@.is_prefix_of(media_type(small_extension(name))) && size is Some && size->0
        > MAX_TEXT_PREVIEW
}

/// May a file be shown in the browser?
pub fn preview_file(
    user: Option<User>,
    path: &Option<Vec<String>>,
    is_file: bool,
    name: &str,
    size: Option<u64>,
) -> (r: Result<(), HttpReply>)
    ensures
        obstacle(r) == first_of_two(
            first_of_two(
                barrier(user, "read"@, "无读取权限"@),
                path_barrier(path_of(*path), is_file, 400, "不是文件"@),
            ),
            if too_large_to_show(name@, size) {
                Some(error_view(415, "文件过大，请下载查看"@))
            } else {
                None
            },
        ),
{
    permit(user, "read", "无读取权限")?;
    path_check(path, is_file, 400, "不是文件")?;
    if is_text_preview(name) {
        if let Some(n) = size {
            if n > MAX_TEXT_PREVIEW {
                return Err(err_json(415, "文件过大，请下载查看"));
            }
        }
    }
    Ok(())
}

/// The header that names a file, for saving or for showing.
pub fn disposition(attachment: bool, filename: &str) -> (r: String)
    ensures
        r@ == (if attachment {
            "attachment"@
        } else {
            "inline"@
        }) + "; filename*=UTF-8''"@ + percent_text(filename@),
{
    let mut out: String = if attachment {
        "attachment".to_owned()
    } else {
        "inline".to_owned()
    };
    out.append("; filename*=UTF-8''");
    out.append(percent_encode(filename).as_str());
    out
}

/// The fields of an upload, as far as they have come in.
#[derive(Debug)]
pub struct UploadForm {
    pub path: Option<String>,
    pub filename: Option<String>,
    pub upload_id: Option<String>,
    pub chunk_index: Option<u32>,
    pub total_chunks: Option<u32>,
    pub data: Option<Vec<u8>>,
}

pub struct FormView {
    pub path: Option<Seq<char>>,
    pub filename: Option<Seq<char>>,
    pub upload_id: Option<Seq<char>>,
    pub chunk_index: Option<u32>,
    pub total_chunks: Option<u32>,
    pub data: Option<Seq<u8>>,
}

impl View for UploadForm {
    type V = FormView;

    open spec fn view(&self) -> FormView {
        FormView {
            path: text_of(self.path),
            filename: text_of(self.filename),
            upload_id: text_of(self.upload_id),
            chunk_index: self.chunk_index,
            total_chunks: self.total_chunks,
            data: match self.data {
                Some(d) => Some(d@),
                None => None,
            },
        }
    }
}

/// The number in a field, if there is one.
pub open spec fn field_number(value: Seq<char>) -> Option<u32> {
    match number_in(value, u32::MAX as nat) {
        Some(n) => Some(n as u32),
        None => None,
    }
}

/// The form after a text field has come in.
pub open spec fn with_text(f: FormView, name: Seq<char>, value: Seq<char>) -> FormView {
    if name == "path"@ {
        FormView { path: Some(value), ..f }
    } else if name == "filename"@ {
        FormView { filename: Some(value), ..f }
    } else if name == "upload_id"@ {
        FormView { upload_id: Some(value), ..f }
    } else if name == "chunk_index"@ {
        FormView { chunk_index: field_number(value), ..f }
    } else if name == "total_chunks"@ {
        FormView { total_chunks: field_number(value), ..f }
    } else {
        f
    }
}

fn parse_field(value: &str) -> (r: Option<u32>)
    ensures
        r == field_number(value@),
{
    match parse_number(value, 0xFFFF_FFFF) {
        Some(n) => Some(n as u32),
        None => None,
    }
}

impl UploadForm {
    pub fn new() -> (r: Self)
        ensures
            r@ == (FormView {
                path: None,
                filename: None,
                upload_id: None,
                chunk_index: None,
                total_chunks: None,
                data: None,
            }),
    {
        UploadForm {
            path: None,
            filename: None,
            upload_id: None,
            chunk_index: None,
            total_chunks: None,
            data: None,
        }
    }

    /// Takes a text field. A later field of the same name replaces an earlier one, and unknown
    /// names are passed over.
    pub fn text_field(&mut self, name: &str, value: String)
        ensures
            final(self)@ == with_text(old(self)@, name@, value@),
    {
        if str_eq(name, "path") {
            self.path = Some(value);
        } else if str_eq(name, "filename") {
            self.filename = Some(value);
        } else if str_eq(name, "upload_id") {
            self.upload_id = Some(value);
        } else if str_eq(name, "chunk_index") {
            self.chunk_index = parse_field(value.as_str());
        } else if str_eq(name, "total_chunks") {
            self.total_chunks = parse_field(value.as_str());
        }
    }

    /// Takes the file. Its own name counts only if no name has come in before. One that is too
    /// large is refused, unless an upload in pieces has been announced before.
    pub fn file_field(&mut self, file_name: Option<String>, data: Vec<u8>) -> (r: Result<
        (),
        HttpReply,
    >)
        ensures
            obstacle(r) == if old(self)@.upload_id is None && data@.len() > MAX_SINGLE_UPLOAD {
                Some(error_view(413, "文件过大，请使用分片上传"@))
            } else {
                None
            },
            final(self)@ == (FormView {
                filename: if old(self)@.filename is Some {
                    old(self)@.filename
                } else {
                    text_of(file_name)
                },
                data: if r is Ok {
                    Some(data@)
                } else {
                    old(self)@.data
                },
                ..old(self)@
            }),
    {
        if self.filename.is_none() {
            self.filename = file_name;
        }
        if self.upload_id.is_none() && data.len() as u64 > MAX_SINGLE_UPLOAD {
            return Err(err_json(413, "文件过大，请使用分片上传"));
        }
        self.data = Some(data);
        Ok(())
    }

    /// The directory that the upload goes to.
    pub fn directory(&self) -> (r: Result<String, HttpReply>)
        ensures
            match r {
                Ok(d) => self@.path == Some(d@),
                Err(e) => self@.path is None && e@ == error_view(400, "缺少 path 参数"@),
            },
    {
        match &self.path {
            Some(d) => Ok(d.clone()),
            None => Err(err_json(400, "缺少 path 参数")),
        }
    }
}

/// May somebody upload? Only with the permission to write.
pub fn begin_upload(user: Option<User>) -> (r: Result<User, HttpReply>)
    ensures
        match r {
            Ok(u) => barrier(user, "write"@, "无写入权限"@) is None && user == Some(u),
            Err(e) => barrier(user, "write"@, "无写入权限"@) == Some(e@),
        },
{
    permit(user, "write", "无写入权限")
}

/// Can the upload go to the directory?
pub fn upload_directory(path: &Option<Vec<String>>, is_dir: bool) -> (r: Result<(), HttpReply>)
    ensures
        obstacle(r) == path_barrier(path_of(*path), is_dir, 400, "目标目录不存在"@),
{
    path_check(path, is_dir, 400, "目标目录不存在")
}

/// What an upload comes to.
#[derive(Debug)]
pub enum UploadPlan {
    /// One piece of a file.
    Piece(UploadPiece),
    /// A whole file.
    Whole(String, Vec<u8>),
}

#[derive(Debug)]
pub struct UploadPiece {
    pub upload_id: String,
    pub filename: String,
    pub index: u32,
    pub total: u32,
    pub data: Vec<u8>,
}

pub enum PlanView {
    Piece {
        upload_id: Seq<char>,
        filename: Seq<char>,
        index: u32,
        total: u32,
        data: Seq<u8>,
    },
    Whole { filename: Seq<char>, data: Seq<u8> },
}

impl View for UploadPlan {
    type V = PlanView;

    open spec fn view(&self) -> PlanView {
        match *self {
            UploadPlan::Piece(p) => PlanView::Piece {
                upload_id: p.upload_id@,
                filename: p.filename@,
                index: p.index,
                total: p.total,
                data: p.data@,
            },
            UploadPlan::Whole(n, d) => PlanView::Whole { filename: n@, data: d@ },
        }
    }
}

/// Is the character a letter or digit of ASCII, or a hyphen?
pub open spec fn id_char(c: char) -> bool {
    'a' <= c <= 'z' || 'A' <= c <= 'Z' || '0' <= c <= '9' || c == '-'
}

/// Is the text fit to name the directory of an upload: at most 64 letters, digits and hyphens?
pub open spec fn valid_upload_id(id: Seq<char>) -> bool {
    id.len() <= 64 && forall|i: int| 0 <= i < id.len() ==> id_char(#[trigger] id[i])
}

/// Is the text fit to name the directory of an upload?
pub fn is_upload_id(id: &str) -> (r: bool)
    ensures
        r == valid_upload_id(id@),
{
    let v = chars_of(id);
    let mut i: usize = 0;
    while i < v.len()
        invariant
            v@ == id@,
            i <= v@.len(),
            forall|k: int| 0 <= k < i ==> id_char(#[trigger] id@[k]),
        decreases v@.len() - i,
    {
        let c: char = v[i];
        if !(('a' <= c && c <= 'z') || ('A' <= c && c <= 'Z') || ('0' <= c && c <= '9') || c
            == '-') {
            proof {
                assert(!id_char(id@[i as int]));
            }
            return false;
        }
        i = i + 1;
    }
    v.len() <= 64
}

/// What an upload comes to, or why it comes to nothing. With an upload id it is a piece of a file,
/// and needs its name, its number, the number of all pieces, and the bytes.
pub open spec fn planned(f: FormView) -> Result<PlanView, HttpView> {
    match f.upload_id {
        Some(id) => if f.filename is None || f.chunk_index is None || f.total_chunks is None
            || f.data is None {
            Err(error_view(400, "分片上传缺少必要参数"@))
        } else if f.total_chunks->0 == 0 || f.chunk_index->0 >= f.total_chunks->0 {
            Err(error_view(400, "分片参数无效"@))
        } else if !valid_upload_id(id) {
            Err(error_view(400, "upload_id 非法"@))
        } else {
            Ok(
                PlanView::Piece {
                    upload_id: id,
                    filename: f.filename->0,
                    index: f.chunk_index->0,
                    total: f.total_chunks->0,
                    data: f.data->0,
                },
            )
        },
        None => if f.filename is None || f.data is None {
            Err(error_view(400, "缺少文件或文件名"@))
        } else {
            Ok(PlanView::Whole { filename: f.filename->0, data: f.data->0 })
        },
    }
}

/// What an upload comes to, or why it comes to nothing.
pub fn upload_file(form: UploadForm) -> (r: Result<UploadPlan, HttpReply>)
    ensures
        match r {
            Ok(p) => planned(form@) == Ok::<PlanView, HttpView>(p@),
            Err(e) => planned(form@) == Err::<PlanView, HttpView>(e@),
        },
{
    match form.upload_id {
        Some(upload_id) => {
            let (filename, index, total, data) = match (
                form.filename,
                form.chunk_index,
                form.total_chunks,
                form.data,
            ) {
                (Some(n), Some(i), Some(t), Some(d)) => (n, i, t, d),
                _ => {
                    return Err(err_json(400, "分片上传缺少必要参数"));
                },
            };
            if total == 0 || index >= total {
                return Err(err_json(400, "分片参数无效"));
            }
            if !is_upload_id(upload_id.as_str()) {
                return Err(err_json(400, "upload_id 非法"));
            }
            Ok(UploadPlan::Piece(UploadPiece { upload_id, filename, index, total, data }))
        },
        None => match (form.filename, form.data) {
            (Some(n), Some(d)) => Ok(UploadPlan::Whole(n, d)),
            _ => Err(err_json(400, "缺少文件或文件名")),
        },
    }
}

/// The file name of a piece: its number, at least six digits.
pub open spec fn piece_name(index: nat) -> Seq<char> {
    "part_"@ + padded(index, 6)
}

/// The file name of a piece.
pub fn part_name(index: u32) -> (r: String)
    ensures
        r@ == piece_name(index as nat),
{
    let mut out: String = "part_".to_owned();
    push_padded(&mut out, index as u64, 6);
    out
}

/// Zeros in front do not change a number.
proof fn lemma_leading_zeros(k: nat, d: Seq<char>)
    ensures
        digits_value(Seq::new(k, |i: int| '0') + d) == digits_value(d),
    decreases k + d.len(),
{
    let z = Seq::new(k, |i: int| '0');
    if d.len() > 0 {
        lemma_leading_zeros(k, d.drop_last());
        assert((z + d).drop_last() =~= z + d.drop_last());
    } else if k > 0 {
        lemma_leading_zeros((k - 1) as nat, d);
        assert((z + d).drop_last() =~= Seq::new((k - 1) as nat, |i: int| '0') + d);
    } else {
        assert(z + d =~= d);
    }
}

/// Different pieces have different file names, so none replaces another.
pub proof fn law_piece_names_differ(i: nat, j: nat)
    requires
        piece_name(i) == piece_name(j),
    ensures
        i == j,
{
    let p = "part_"@;
    assert(piece_name(i).skip(p.len() as int) =~= padded(i, 6));
    assert(piece_name(j).skip(p.len() as int) =~= padded(j, 6));
    lemma_digits(i);
    lemma_digits(j);
    lemma_leading_zeros((6 - digits(i).len()) as nat, digits(i));
    lemma_leading_zeros((6 - digits(j).len()) as nat, digits(j));
}

/// The number of the names that are those of pieces.
pub open spec fn pieces_among(names: Seq<Seq<char>>) -> nat
    decreases names.len(),
{
    if names.len() == 0 {
        0
    } else {
        pieces_among(names.drop_last()) + if "part_"@.is_prefix_of(names.last()) {
            1nat
        } else {
            0nat
        }
    }
}

/// How many pieces of an upload have arrived, by the names in its directory.
pub fn count_parts(names: &Vec<String>) -> (r: usize)
    ensures
        r == pieces_among(texts(names@)),
        r <= names@.len(),
{
    let mut n: usize = 0;
    let mut i: usize = 0;
    while i < names.len()
        invariant
            i <= names@.len(),
            n <= i,
            n == pieces_among(texts(names@).take(i as int)),
        decreases names@.len() - i,
    {
        proof {
            assert(texts(names@).take(i + 1).drop_last() =~= texts(names@).take(i as int));
            assert(texts(names@).take(i + 1).last() == names@[i as int]@);
        }
        if begins_with(names[i].as_str(), "part_") {
            n = n + 1;
        }
        i = i + 1;
    }
    proof {
        assert(texts(names@).take(names@.len() as int) =~= texts(names@));
    }
    n
}

/// What comes of a piece that was stored.
#[derive(Debug)]
pub enum PieceStep {
    /// More pieces are to come; the reply says how many are there.
    Partial(HttpReply),
    /// All are there: the files of these names hold the whole, one behind the other.
    Merge(Vec<String>),
}

/// The file names of all pieces, in the order of their numbers.
pub open spec fn piece_names(total: nat) -> Seq<Seq<char>> {
    Seq::new(total, |i: int| piece_name(i as nat))
}

/// The reply to a piece after which more are to come.
pub open spec fn partial_view(received: nat, total: nat) -> HttpView {
    HttpView {
        status: 200,
        body: "{\"received\":"@ + digits(received) + ",\"status\":\"partial\",\"total\":"@ + digits(
            total,
        ) + "}"@,
    }
}

/// What comes of a piece that was stored, by the names in the directory of its upload.
pub fn after_piece(names: &Vec<String>, total: u32) -> (r: PieceStep)
    ensures
        match r {
            PieceStep::Partial(reply) => pieces_among(texts(names@)) < total && reply@
                == partial_view(pieces_among(texts(names@)), total as nat),
            PieceStep::Merge(parts) => pieces_among(texts(names@)) >= total && texts(parts@)
                == piece_names(total as nat),
        },
{
    let received: usize = count_parts(names);
    if (received as u64) < total as u64 {
        let mut body: String = "{\"received\":".to_owned();
        push_number(&mut body, received as u64);
        body.append(",\"status\":\"partial\",\"total\":");
        push_number(&mut body, total as u64);
        body.append("}");
        return PieceStep::Partial(HttpReply { status: 200, body });
    }
    let mut parts: Vec<String> = Vec::new();
    let mut i: u32 = 0;
    proof {
        assert(texts(parts@) =~= piece_names(total as nat).take(0));
    }
    while i < total
        invariant
            i <= total,
            texts(parts@) == piece_names(total as nat).take(i as int),
        decreases total - i,
    {
        let ghost before = texts(parts@);
        parts.push(part_name(i));
        proof {
            assert(texts(parts@) =~= before.push(piece_name(i as nat)));
            assert(piece_names(total as nat).take(i + 1) =~= before.push(piece_name(i as nat)));
        }
        i = i + 1;
    }
    proof {
        assert(piece_names(total as nat).take(total as int) =~= piece_names(total as nat));
    }
    PieceStep::Merge(parts)
}

/// The reply to an upload after which the file is there, under its name and with its size.
pub fn complete_reply(name: &str, size: u64) -> (r: HttpReply)
    ensures
        r@ == (HttpView {
            status: 200,
            body: "{\"name\":"@ + quoted(name@) + ",\"size\":"@ + digits(size as nat)
                + ",\"status\":\"complete\"}"@,
        }),
{
    let mut body: String = "{\"name\":".to_owned();
    push_quoted(&mut body, name);
    body.append(",\"size\":");
    push_number(&mut body, size);
    body.append(",\"status\":\"complete\"}");
    HttpReply { status: 200, body }
}

/// The directory of an upload after the first `k` pieces of an order have been stored in it: the
/// contents of its files by their names.
pub open spec fn dir_after(
    start: Map<Seq<char>, Seq<u8>>,
    order: Seq<nat>,
    data: Seq<Seq<u8>>,
    k: int,
) -> Map<Seq<char>, Seq<u8>>
    decreases k,
{
    if k <= 0 {
        start
    } else {
        dir_after(start, order, data, k - 1).insert(
            piece_name(order[k - 1]),
            data[order[k - 1] as int],
        )
    }
}

/// What the files of several names hold, one behind the other.
pub open spec fn merged(dir: Map<Seq<char>, Seq<u8>>, names: Seq<Seq<char>>) -> Seq<u8> {
    concatenated(names.map_values(|n: Seq<char>| dir[n]))
}

/// Is the order one in which each of `n` pieces is sent once?
pub open spec fn sends_each_once(order: Seq<nat>, n: nat) -> bool {
    &&& order.len() == n
    &&& order.no_duplicates()
    &&& forall|i: int| 0 <= i < order.len() ==> #[trigger] order[i] < n
}

/// The pieces of an upload may come in any order. As long as one is missing, each call says how many
/// are there, and the last call is the one that completes the upload; then the pieces, merged in
/// the order of their numbers, are the whole file. Other files in the directory do not count.
/// `names` is what the directory holds after `k` pieces.
pub proof fn law_pieces_come_in_any_order(
    start: Map<Seq<char>, Seq<u8>>,
    order: Seq<nat>,
    data: Seq<Seq<u8>>,
    k: int,
    names: Seq<Seq<char>>,
)
    requires
        sends_each_once(order, data.len()),
        0 <= k <= order.len(),
        forall|n: Seq<char>| #[trigger] start.contains_key(n) ==> !"part_"@.is_prefix_of(n),
        names.no_duplicates(),
        forall|n: Seq<char>| #[trigger]
            names.contains(n) <==> dir_after(start, order, data, k).contains_key(n),
    ensures
        pieces_among(names) == k,
        pieces_among(names) >= data.len() <==> k == data.len(),
        k == data.len() ==> merged(dir_after(start, order, data, k), piece_names(data.len()))
            == concatenated(data),
{
    let dir = dir_after(start, order, data, k);
    lemma_count_is_set(names);
    lemma_sent_set(order, k);
    assert forall|n: Seq<char>| piece_set(names).contains(n) <==> sent_set(order, k).contains(n) by {
        lemma_dir_keys(start, order, data, k, n);
        if sent_set(order, k).contains(n) {
            let i = choose|i: int| 0 <= i < k && n == piece_name(#[trigger] order[i]);
            let p = "part_"@;
            assert(n.subrange(0, p.len() as int) =~= p);
        }
    }
    assert(piece_set(names) =~= sent_set(order, k));
    if k == data.len() {
        let all = piece_names(data.len()).map_values(|n: Seq<char>| dir[n]);
        assert forall|i: int| 0 <= i < data.len() implies #[trigger] all[i] == data[i] by {
            lemma_each_sent(order, data.len(), i as nat);
            let j = choose|j: int| 0 <= j < order.len() && #[trigger] order[j] == i;
            lemma_dir_holds(start, order, data, k, j);
        }
        assert(all =~= data);
    }
}

/// The names of pieces among names.
pub open spec fn piece_set(names: Seq<Seq<char>>) -> Set<Seq<char>> {
    Set::new(|n: Seq<char>| names.contains(n) && "part_"@.is_prefix_of(n))
}

/// The names of the first `k` pieces of an order.
pub open spec fn sent_set(order: Seq<nat>, k: int) -> Set<Seq<char>> {
    Set::new(|n: Seq<char>| exists|i: int| 0 <= i < k && n == piece_name(#[trigger] order[i]))
}

proof fn lemma_count_is_set(names: Seq<Seq<char>>)
    requires
        names.no_duplicates(),
    ensures
        piece_set(names).finite(),
        pieces_among(names) == piece_set(names).len(),
    decreases names.len(),
{
    if names.len() == 0 {
        assert(piece_set(names) =~= Set::<Seq<char>>::empty());
    } else {
        let front = names.drop_last();
        let x = names.last();
        assert(front.no_duplicates());
        lemma_count_is_set(front);
        assert(!front.contains(x)) by {
            if front.contains(x) {
                let j = choose|j: int| 0 <= j < front.len() && front[j] == x;
                assert(names[j] == names[names.len() - 1]);
            }
        }
        assert forall|n: Seq<char>| names.contains(n) <==> front.contains(n) || n == x by {
            if names.contains(n) {
                let j = choose|j: int| 0 <= j < names.len() && names[j] == n;
                if j < front.len() {
                    assert(front[j] == n);
                }
            }
            if front.contains(n) {
                let j = choose|j: int| 0 <= j < front.len() && front[j] == n;
                assert(names[j] == n);
            }
            assert(names[names.len() - 1] == x);
        }
        if "part_"@.is_prefix_of(x) {
            assert(piece_set(names) =~= piece_set(front).insert(x));
        } else {
            assert(piece_set(names) =~= piece_set(front));
        }
    }
}

proof fn lemma_sent_set(order: Seq<nat>, k: int)
    requires
        order.no_duplicates(),
        0 <= k <= order.len(),
    ensures
        sent_set(order, k).finite(),
        sent_set(order, k).len() == k,
    decreases k,
{
    if k == 0 {
        assert(sent_set(order, 0) =~= Set::<Seq<char>>::empty());
    } else {
        lemma_sent_set(order, k - 1);
        let x = piece_name(order[k - 1]);
        let before = sent_set(order, k - 1);
        assert(!before.contains(x)) by {
            if before.contains(x) {
                let i = choose|i: int| 0 <= i < k - 1 && x == piece_name(#[trigger] order[i]);
                law_piece_names_differ(order[i], order[k - 1]);
            }
        }
        assert forall|n: Seq<char>|
            sent_set(order, k).contains(n) <==> before.insert(x).contains(n) by {
            if sent_set(order, k).contains(n) {
                let i = choose|i: int| 0 <= i < k && n == piece_name(#[trigger] order[i]);
                if i < k - 1 {
                    assert(before.contains(n));
                }
            }
            if before.contains(n) {
                let i = choose|i: int| 0 <= i < k - 1 && n == piece_name(#[trigger] order[i]);
                assert(n == piece_name(order[i]));
            }
        }
        assert(sent_set(order, k) =~= before.insert(x));
    }
}

proof fn lemma_dir_keys(
    start: Map<Seq<char>, Seq<u8>>,
    order: Seq<nat>,
    data: Seq<Seq<u8>>,
    k: int,
    n: Seq<char>,
)
    requires
        0 <= k <= order.len(),
    ensures
        dir_after(start, order, data, k).contains_key(n) <==> start.contains_key(n) || sent_set(
            order,
            k,
        ).contains(n),
    decreases k,
{
    if k > 0 {
        lemma_dir_keys(start, order, data, k - 1, n);
        if sent_set(order, k).contains(n) {
            let i = choose|i: int| 0 <= i < k && n == piece_name(#[trigger] order[i]);
            if i < k - 1 {
                assert(sent_set(order, k - 1).contains(n));
            }
        }
        if sent_set(order, k - 1).contains(n) {
            let i = choose|i: int| 0 <= i < k - 1 && n == piece_name(#[trigger] order[i]);
            assert(sent_set(order, k).contains(n));
        }
        if n == piece_name(order[k - 1]) {
            assert(sent_set(order, k).contains(n));
        }
    }
}

proof fn lemma_dir_holds(
    start: Map<Seq<char>, Seq<u8>>,
    order: Seq<nat>,
    data: Seq<Seq<u8>>,
    k: int,
    j: int,
)
    requires
        order.no_duplicates(),
        0 <= j < k <= order.len(),
    ensures
        dir_after(start, order, data, k)[piece_name(order[j])] == data[order[j] as int],
    decreases k,
{
    if j < k - 1 {
        lemma_dir_holds(start, order, data, k - 1, j);
        if piece_name(order[j]) == piece_name(order[k - 1]) {
            law_piece_names_differ(order[j], order[k - 1]);
        }
    }
}

/// Each of the pieces is sent.
proof fn lemma_each_sent(order: Seq<nat>, n: nat, i: nat)
    requires
        sends_each_once(order, n),
        i < n,
    ensures
        exists|j: int| 0 <= j < order.len() && #[trigger] order[j] == i,
{
    let sent = order.to_set();
    let all = Set::new(|x: nat| x < n);
    order.unique_seq_to_set();
    lemma_below(n);
    assert(sent.subset_of(all)) by {
        assert forall|x: nat| sent.contains(x) implies all.contains(x) by {
            let j = choose|j: int| 0 <= j < order.len() && order[j] == x;
            assert(order[j] < n);
        }
    }
    vstd::set_lib::lemma_subset_equality(sent, all);
    assert(all.contains(i));
    assert(sent.contains(i));
    assert(order.contains(i));
}

proof fn lemma_below(n: nat)
    ensures
        Set::new(|x: nat| x < n).finite(),
        Set::new(|x: nat| x < n).len() == n,
    decreases n,
{
    let all = Set::new(|x: nat| x < n);
    if n == 0 {
        assert(all =~= Set::<nat>::empty());
    } else {
        lemma_below((n - 1) as nat);
        assert(all =~= Set::new(|x: nat| x < n - 1).insert((n - 1) as nat));
    }
}

/// The size of all pieces together is the size of the whole.
pub proof fn law_merged_size(sizes: Seq<Option<u64>>, data: Seq<Seq<u8>>)
    requires
        sizes.len() == data.len(),
        forall|i: int| 0 <= i < data.len() ==> #[trigger] data[i].len() <= u64::MAX && sizes[i]
            == Some(data[i].len() as u64),
    ensures
        total_of(sizes) == concatenated(data).len(),
    decreases data.len(),
{
    if data.len() > 0 {
        let front = data.drop_last();
        assert forall|i: int| 0 <= i < front.len() implies #[trigger] front[i].len() <= u64::MAX
            && sizes.drop_last()[i] == Some(front[i].len() as u64) by {
            assert(front[i] == data[i]);
        }
        law_merged_size(sizes.drop_last(), front);
        assert(data[data.len() - 1] == data.last());
    }
}

/// The size of all pieces together.
pub open spec fn total_of(sizes: Seq<Option<u64>>) -> int
    decreases sizes.len(),
{
    if sizes.len() == 0 {
        0
    } else {
        total_of(sizes.drop_last()) + match sizes.last() {
            Some(n) => n as int,
            None => 0,
        }
    }
}

/// The size of all pieces together, if none is missing and they are not too large. `sizes` holds
/// the size of each piece, in order, or nothing where it cannot be found.
pub fn merged_size(sizes: &Vec<Option<u64>>) -> (r: Result<u64, HttpReply>)
    ensures
        match r {
            Ok(n) => n == total_of(sizes@) && n <= MAX_CHUNKED_UPLOAD && !sizes@.contains(None),
            Err(e) => if sizes@.contains(None) {
                e@ == error_view(400, "分片缺失"@)
            } else {
                total_of(sizes@) > MAX_CHUNKED_UPLOAD && e@ == error_view(
                    413,
                    "文件超过 2GB 上限"@,
                )
            },
        },
{
    let mut total: u64 = 0;
    let mut over: bool = false;
    let mut i: usize = 0;
    while i < sizes.len()
        invariant
            i <= sizes@.len(),
            total <= MAX_CHUNKED_UPLOAD,
            !over ==> total == total_of(sizes@.take(i as int)),
            over ==> total_of(sizes@.take(i as int)) > MAX_CHUNKED_UPLOAD,
            forall|k: int| 0 <= k < i ==> #[trigger] sizes@[k] is Some,
        decreases sizes@.len() - i,
    {
        proof {
            assert(sizes@.take(i + 1).drop_last() =~= sizes@.take(i as int));
        }
        match sizes[i] {
            Some(n) => {
                if over || n > MAX_CHUNKED_UPLOAD - total {
                    over = true;
                } else {
                    total = total + n;
                }
            },
            None => {
                proof {
                    assert(sizes@[i as int] == None::<u64>);
                }
                return Err(err_json(400, "分片缺失"));
            },
        }
        i = i + 1;
    }
    proof {
        assert(sizes@.take(sizes@.len() as int) =~= sizes@);
        if sizes@.contains(None) {
            let k = choose|k: int| 0 <= k < sizes@.len() && sizes@[k] == None::<u64>;
            assert(sizes@[k] is Some);
        }
    }
    if over {
        return Err(err_json(413, "文件超过 2GB 上限"));
    }
    Ok(total)
}

/// The last step of a client's file name; both slashes separate.
pub open spec fn bare_name(filename: Seq<char>) -> Seq<char> {
    let s = replaced(filename, '\\', '/');
    s.skip(last_of(s, '/') + 1)
}

/// The name that is tried `i`-th: first the name itself, then with a number behind its stem.
pub open spec fn numbered(name: Seq<char>, i: nat) -> Seq<char> {
    if i == 0 {
        name
    } else {
        stem_of(name) + " ("@ + digits(i) + ")"@ + match extension_of(name) {
            Some(e) => "."@ + e,
            None => Seq::<char>::empty(),
        }
    }
}

/// The first name from the `i`-th on that is not taken.
pub open spec fn first_free(name: Seq<char>, taken: Seq<Seq<char>>, i: nat) -> Option<Seq<char>>
    decreases 1000 - i,
{
    if i >= 1000 {
        None
    } else if !taken.contains(numbered(name, i)) {
        Some(numbered(name, i))
    } else {
        first_free(name, taken, i + 1)
    }
}

/// The name under which a file is stored: hidden names and empty ones are refused, and one that is
/// taken gets a number.
pub open spec fn stored_name(filename: Seq<char>, taken: Seq<Seq<char>>) -> Option<Seq<char>> {
    let name = bare_name(filename);
    if name.len() == 0 || name[0] == '.' {
        None
    } else {
        first_free(name, taken, 0)
    }
}

fn numbered_name(stem: &str, ext: &Option<String>, i: u64) -> (r: String)
    ensures
        r@ == stem@ + " ("@ + digits(i as nat) + ")"@ + match text_of(*ext) {
            Some(e) => "."@ + e,
            None => Seq::<char>::empty(),
        },
{
    let mut out: String = stem.to_owned();
    out.append(" (");
    push_number(&mut out, i);
    out.append(")");
    let ghost before = out@;
    match ext {
        Some(e) => {
            out.append(".");
            out.append(e.as_str());
            proof {
                assert(out@ =~= before + ("."@ + e@));
            }
        },
        None => {
            proof {
                assert(out@ =~= before + Seq::<char>::empty());
            }
        },
    }
    out
}

/// Is the name among those taken?
fn is_taken(taken: &Vec<String>, name: &str) -> (r: bool)
    ensures
        r == texts(taken@).contains(name@),
{
    let mut i: usize = 0;
    while i < taken.len()
        invariant
            i <= taken@.len(),
            forall|k: int| 0 <= k < i ==> #[trigger] texts(taken@)[k] != name@,
        decreases taken@.len() - i,
    {
        proof {
            assert(texts(taken@)[i as int] == taken@[i as int]@);
        }
        if str_eq(taken[i].as_str(), name) {
            return true;
        }
        i = i + 1;
    }
    false
}

/// The name under which a file is stored in a directory whose names are `taken`.
pub fn unique_path(filename: &str, taken: &Vec<String>) -> (r: Option<String>)
    ensures
        text_of(r) == stored_name(filename@, texts(taken@)),
{
    let plain = replace_char(filename, '\\', '/');
    let v = chars_of(plain.as_str());
    let start: usize = behind_last(&v, '/');
    let name = string_of(v.as_slice(), start, v.len());
    proof {
        assert(v@.subrange(start as int, v@.len() as int) =~= v@.skip(start as int));
        assert(name@ == bare_name(filename@));
    }
    let c = chars_of(name.as_str());
    if c.len() == 0 || c[0] == '.' {
        return None;
    }
    if !is_taken(taken, name.as_str()) {
        return Some(name);
    }
    let (stem, ext) = split_name(name.as_str());
    let mut i: u64 = 1;
    proof {
        reveal_with_fuel(first_free, 2);
    }
    while i < 1000
        invariant
            1 <= i <= 1000,
            name@ == bare_name(filename@),
            stem@ == stem_of(name@),
            text_of(ext) == extension_of(name@),
            first_free(name@, texts(taken@), 0) == first_free(name@, texts(taken@), i as nat),
            name@.len() > 0 && name@[0] != '.',
        decreases 1000 - i,
    {
        let candidate = numbered_name(stem.as_str(), &ext, i);
        if !is_taken(taken, candidate.as_str()) {
            return Some(candidate);
        }
        i = i + 1;
    }
    None
}

/// A character of a concatenation is a character of one of its parts.
proof fn lemma_contains_add(a: Seq<char>, b: Seq<char>, c: char)
    ensures
        (a + b).contains(c) ==> a.contains(c) || b.contains(c),
{
    if (a + b).contains(c) {
        let k = choose|k: int| 0 <= k < (a + b).len() && (a + b)[k] == c;
        if k < a.len() {
            assert(a[k] == c);
        } else {
            assert(b[k - a.len()] == c);
        }
    }
}

proof fn lemma_numbered(name: Seq<char>, i: nat)
    requires
        name.len() > 0,
        name[0] != '.',
        !name.contains('/'),
    ensures
        numbered(name, i).len() > 0,
        numbered(name, i)[0] != '.',
        !numbered(name, i).contains('/'),
{
    if i > 0 {
        let stem = stem_of(name);
        lemma_last_of(name, '.');
        let e = match extension_of(name) {
            Some(e) => "."@ + e,
            None => Seq::<char>::empty(),
        };
        reveal_strlit(" (");
        reveal_strlit(")");
        reveal_strlit(".");
        lemma_digits(i);
        assert(stem.len() > 0 && stem[0] == name[0]);
        if stem.contains('/') {
            let k = choose|k: int| 0 <= k < stem.len() && stem[k] == '/';
            assert(name[k] == '/');
        }
        if digits(i).contains('/') {
            let k = choose|k: int| 0 <= k < digits(i).len() && digits(i)[k] == '/';
            assert(is_digit(digits(i)[k]));
        }
        if extension_of(name) is Some {
            let x = extension_of(name)->0;
            if x.contains('/') {
                let k = choose|k: int| 0 <= k < x.len() && x[k] == '/';
                assert(name[last_of(name, '.') + 1 + k] == '/');
            }
            lemma_contains_add("."@, x, '/');
        }
        lemma_contains_add(stem, " ("@, '/');
        lemma_contains_add(stem + " ("@, digits(i), '/');
        lemma_contains_add(stem + " ("@ + digits(i), ")"@, '/');
        lemma_contains_add(stem + " ("@ + digits(i) + ")"@, e, '/');
        assert(!" ("@.contains('/'));
        assert(!")"@.contains('/'));
        assert(!"."@.contains('/'));
    }
}

proof fn lemma_first_free(name: Seq<char>, taken: Seq<Seq<char>>, i: nat)
    requires
        name.len() > 0,
        name[0] != '.',
        !name.contains('/'),
    ensures
        first_free(name, taken, i) matches Some(n) ==> !taken.contains(n) && n.len() > 0 && n[0]
            != '.' && !n.contains('/'),
    decreases 1000 - i,
{
    if i < 1000 {
        lemma_numbered(name, i);
        lemma_first_free(name, taken, i + 1);
    }
}

/// An upload replaces no file, is not hidden, and stays in its directory: the name under which it
/// is stored is not taken, does not begin with a dot, and holds no separator.
pub proof fn law_stored_name_is_free(filename: Seq<char>, taken: Seq<Seq<char>>)
    ensures
        stored_name(filename, taken) matches Some(n) ==> !taken.contains(n) && n.len() > 0 && n[0]
            != '.' && !n.contains('/'),
{
    let s = replaced(filename, '\\', '/');
    let name = bare_name(filename);
    lemma_last_of(s, '/');
    if name.contains('/') {
        let k = choose|k: int| 0 <= k < name.len() && name[k] == '/';
        assert(s[last_of(s, '/') + 1 + k] == '/');
    }
    if name.len() > 0 && name[0] != '.' {
        lemma_first_free(name, taken, 0);
    }
}

/// May a directory be created?
pub fn mkdir(user: Option<User>, path: &Option<Vec<String>>, exists_already: bool) -> (r: Result<
    (),
    HttpReply,
>)
    ensures
        obstacle(r) == first_of_two(
            barrier(user, "mkdir"@, "无创建目录权限"@),
            path_barrier(path_of(*path), !exists_already, 409, "目录已存在"@),
        ),
{
    permit(user, "mkdir", "无创建目录权限")?;
    path_check(path, !exists_already, 409, "目录已存在")
}

/// Is the text fit for a new name: not empty, without separators, and neither `.` nor `..`?
pub open spec fn valid_new_name(s: Seq<char>) -> bool {
    s.len() > 0 && !s.contains('/') && !s.contains('\\') && s != "."@ && s != ".."@
}

/// Is the text fit for a new name?
pub fn is_new_name(s: &str) -> (r: bool)
    ensures
        r == valid_new_name(s@),
{
    proof {
        reveal_strlit("");
        assert(s@.len() == 0 ==> s@ =~= ""@);
    }
    !str_eq(s, "") && !has_char(s, '/') && !has_char(s, '\\') && !str_eq(s, ".") && !str_eq(s, "..")
}

/// What the file system says about an entry to be renamed: whether it exists, the canonical shared
/// directory, the canonical directory of the new name, and whether the new name is taken.
#[derive(Debug, Clone)]
pub struct RenameProbe {
    pub source_exists: bool,
    pub base: Option<Vec<String>>,
    pub target_dir: Option<Vec<String>>,
    pub target_exists: bool,
}

/// Why an entry may not be renamed. Under its new name it must still lie in the shared directory, at
/// whatever depth.
pub open spec fn rename_barrier(
    new_name: Seq<char>,
    path: Option<Seq<Seq<char>>>,
    probe: RenameProbe,
) -> Option<HttpView> {
    if !valid_new_name(new_name) {
        Some(error_view(400, "新名称非法"@))
    } else if path is None {
        Some(error_view(403, "路径非法"@))
    } else if !probe.source_exists {
        Some(error_view(404, "文件不存在"@))
    } else if path_of(probe.base) is None || path_of(probe.target_dir) is None || !within(
        path_of(probe.base)->0,
        path_of(probe.target_dir)->0,
    ) {
        Some(error_view(403, "路径非法"@))
    } else if probe.target_exists {
        Some(error_view(409, "目标名称已存在"@))
    } else {
        None
    }
}

fn same_path(a: &Vec<String>, b: &Vec<String>) -> (r: bool)
    ensures
        r == (texts(a@) == texts(b@)),
{
    if a.len() != b.len() {
        proof {
            assert(texts(a@).len() != texts(b@).len());
        }
        return false;
    }
    let r = starts_within(a, b);
    proof {
        assert(texts(b@).subrange(0, texts(a@).len() as int) =~= texts(b@));
        if texts(a@) == texts(b@) {
            assert(texts(a@).is_prefix_of(texts(b@)));
        }
    }
    r
}

/// May an entry be renamed?
pub fn rename_file(
    user: Option<User>,
    new_name: &str,
    path: &Option<Vec<String>>,
    probe: &RenameProbe,
) -> (r: Result<(), HttpReply>)
    ensures
        obstacle(r) == first_of_two(
            barrier(user, "rename"@, "无重命名权限"@),
            rename_barrier(new_name@, path_of(*path), *probe),
        ),
{
    permit(user, "rename", "无重命名权限")?;
    if !is_new_name(new_name) {
        return Err(err_json(400, "新名称非法"));
    }
    if path.is_none() {
        return Err(err_json(403, "路径非法"));
    }
    if !probe.source_exists {
        return Err(err_json(404, "文件不存在"));
    }
    let inside = match (&probe.base, &probe.target_dir) {
        (Some(b), Some(d)) => starts_within(b, d),
        _ => false,
    };
    if !inside {
        return Err(err_json(403, "路径非法"));
    }
    if probe.target_exists {
        return Err(err_json(409, "目标名称已存在"));
    }
    Ok(())
}

/// Why an entry may not be deleted. The shared directory itself may not.
pub open spec fn delete_barrier(
    path: Option<Seq<Seq<char>>>,
    there: bool,
    home: Option<Seq<Seq<char>>>,
    target: Option<Seq<Seq<char>>>,
) -> Option<HttpView> {
    if path is None {
        Some(error_view(403, "路径非法"@))
    } else if !there {
        Some(error_view(404, "文件不存在"@))
    } else if home is Some && target is Some && home == target {
        Some(error_view(403, "不能删除共享根目录"@))
    } else {
        None
    }
}

/// May an entry be deleted? `home` and `target` are the canonical paths of the shared directory
/// and of the entry, as far as they can be found out.
pub fn delete_file(
    user: Option<User>,
    path: &Option<Vec<String>>,
    there: bool,
    home: &Option<Vec<String>>,
    target: &Option<Vec<String>>,
) -> (r: Result<(), HttpReply>)
    ensures
        obstacle(r) == first_of_two(
            barrier(user, "delete"@, "无删除权限"@),
            delete_barrier(path_of(*path), there, path_of(*home), path_of(*target)),
        ),
{
    permit(user, "delete", "无删除权限")?;
    if path.is_none() {
        return Err(err_json(403, "路径非法"));
    }
    if !there {
        return Err(err_json(404, "文件不存在"));
    }
    match (home, target) {
        (Some(h), Some(t)) => {
            if same_path(h, t) {
                return Err(err_json(403, "不能删除共享根目录"));
            }
        },
        _ => {},
    }
    Ok(())
}

/// The name that an entry gets in the trash: the time and its own name.
pub fn trash_name(seconds: u64, name: &Option<String>) -> (r: String)
    ensures
        r@ == digits(seconds as nat) + "_"@ + match text_of(*name) {
            Some(n) => n,
            None => "deleted"@,
        },
{
    let mut out = number(seconds);
    out.append("_");
    match name {
        Some(n) => out.append(n.as_str()),
        None => out.append("deleted"),
    }
    out
}

proof fn lemma_shown(v: Seq<FileView>, k: int)
    requires
        0 <= k < shown(v).len(),
    ensures
        !hidden(shown(v)[k].name),
    decreases v.len(),
{
    let f = shown(v.drop_last());
    if k < f.len() {
        lemma_shown(v.drop_last(), k);
    }
}

/// Hidden files are never shown, and so neither are the trash and uploads in progress; directories
/// come before files.
pub proof fn law_hidden_files_are_not_shown(v: Seq<FileView>, r: Seq<FileView>, i: int, j: int)
    requires
        is_file_listing(shown(v), r),
        0 <= i < j < r.len(),
    ensures
        !hidden(r[i].name) && !hidden(r[j].name),
        r[j].is_dir ==> r[i].is_dir,
        hidden(TRASH_DIR@),
        hidden(UPLOAD_TMP_DIR@),
{
    let w = shown(v);
    let order = choose|order: Seq<usize>|
        {
            &&& #[trigger] in_order(file_keys(w), order)
            &&& r == order.map_values(|i: usize| w[i as int])
        };
    assert(order[i] < file_keys(w).len());
    assert(order[j] < file_keys(w).len());
    lemma_shown(v, order[i] as int);
    lemma_shown(v, order[j] as int);
    assert(crate::listing::before(file_keys(w), order[i] as int, order[j] as int));
    reveal_strlit(".lanshare-trash");
    reveal_strlit(".lanshare-uploads");
}

/// An upload that is accepted carries what its form came with: a piece has the bytes of the file
/// field, and the id, the name, the number and the count of the form; a whole file has its bytes
/// and its name.
pub proof fn law_upload_carries_its_form(form: UploadForm, plan: UploadPlan)
    requires
        planned(form@) == Ok::<PlanView, HttpView>(plan@),
    ensures
        form.data is Some && form.filename is Some,
        match plan {
            UploadPlan::Piece(p) => {
                &&& p.data@ == form.data->0@
                &&& p.filename@ == form.filename->0@
                &&& form.upload_id is Some && p.upload_id@ == form.upload_id->0@
                &&& form.chunk_index == Some(p.index)
                &&& form.total_chunks == Some(p.total)
                &&& p.index < p.total
            },
            UploadPlan::Whole(name, data) => {
                &&& data@ == form.data->0@
                &&& name@ == form.filename->0@
                &&& form.upload_id is None
            },
        },
{
}

/// Which forms are accepted: with an upload id, one that holds at most 64 letters, digits and
/// hyphens, and a file, a name, and a number below the count of the pieces; without one, a file and
/// a name. Every other form is answered with 400.
pub proof fn law_forms_that_are_accepted(f: FormView)
    ensures
        planned(f) is Ok <==> f.filename is Some && f.data is Some && match f.upload_id {
            None => true,
            Some(id) => {
                &&& f.chunk_index is Some && f.total_chunks is Some && f.chunk_index->0
                    < f.total_chunks->0
                &&& id.len() <= 64
                &&& forall|i: int|
                    0 <= i < id.len() ==> 'a' <= #[trigger] id[i] <= 'z' || 'A' <= id[i] <= 'Z'
                        || '0' <= id[i] <= '9' || id[i] == '-'
            },
        },
        planned(f) is Ok ==> (planned(f)->Ok_0 is Piece <==> f.upload_id is Some),
        planned(f) is Err ==> planned(f)->Err_0.status == 400,
{
    if let Some(id) = f.upload_id {
        if forall|i: int|
            0 <= i < id.len() ==> 'a' <= #[trigger] id[i] <= 'z' || 'A' <= id[i] <= 'Z' || '0'
                <= id[i] <= '9' || id[i] == '-' {
            assert forall|i: int| 0 <= i < id.len() implies id_char(#[trigger] id[i]) by {}
        }
        if forall|i: int| 0 <= i < id.len() ==> id_char(#[trigger] id[i]) {
            assert forall|i: int| 0 <= i < id.len() implies 'a' <= #[trigger] id[i] <= 'z' || 'A'
                <= id[i] <= 'Z' || '0' <= id[i] <= '9' || id[i] == '-' by {
                assert(id_char(id[i]));
            }
        }
    }
}

/// The directory of an upload after the pieces of the first `k` accepted forms have been stored in
/// it, each under the name of its number.
pub open spec fn dir_after_forms(
    start: Map<Seq<char>, Seq<u8>>,
    forms: Seq<FormView>,
    k: int,
) -> Map<Seq<char>, Seq<u8>>
    decreases k,
{
    if k <= 0 {
        start
    } else {
        match planned(forms[k - 1]) {
            Ok(PlanView::Piece { index, data, .. }) => dir_after_forms(start, forms, k - 1).insert(
                piece_name(index as nat),
                data,
            ),
            _ => dir_after_forms(start, forms, k - 1),
        }
    }
}

/// A file that is uploaded in pieces arrives as it was sent: if its pieces come in forms, each once
/// and in any order, and all forms are accepted, the pieces that are stored, merged by their
/// numbers, are the bytes that the forms came with; and before the last one has come, nothing is
/// merged. `file` is the file in pieces, and `names` what the directory holds after `k` forms.
pub proof fn law_forms_give_the_file(
    start: Map<Seq<char>, Seq<u8>>,
    forms: Seq<FormView>,
    file: Seq<Seq<u8>>,
    k: int,
    names: Seq<Seq<char>>,
)
    requires
        forms.len() == file.len(),
        0 <= k <= forms.len(),
        forall|i: int|
            0 <= i < forms.len() ==> {
                let f = #[trigger] forms[i];
                &&& planned(f) is Ok
                &&& f.upload_id is Some
                &&& f.chunk_index is Some && f.chunk_index->0 < file.len()
                &&& f.data == Some(file[f.chunk_index->0 as int])
            },
        forall|i: int, j: int|
            0 <= i < j < forms.len() ==> (#[trigger] forms[i]).chunk_index != (
            #[trigger] forms[j]).chunk_index,
        forall|n: Seq<char>| #[trigger] start.contains_key(n) ==> !"part_"@.is_prefix_of(n),
        names.no_duplicates(),
        forall|n: Seq<char>| #[trigger]
            names.contains(n) <==> dir_after_forms(start, forms, k).contains_key(n),
    ensures
        pieces_among(names) == k,
        pieces_among(names) >= file.len() <==> k == file.len(),
        k == file.len() ==> merged(dir_after_forms(start, forms, k), piece_names(file.len()))
            == concatenated(file),
{
    let order = Seq::new(forms.len(), |i: int| forms[i].chunk_index->0 as nat);
    assert forall|i: int, j: int| 0 <= i < order.len() && 0 <= j < order.len() && i != j implies
        order[i] != order[j] by {
        assert(forms[i].chunk_index is Some && forms[j].chunk_index is Some);
        if i < j {
            assert(forms[i].chunk_index != forms[j].chunk_index);
        } else {
            assert(forms[j].chunk_index != forms[i].chunk_index);
        }
    }
    assert forall|i: int| 0 <= i < order.len() implies #[trigger] order[i] < file.len() by {
        assert(forms[i].chunk_index is Some);
    }
    lemma_forms_dir(start, forms, file, order, k);
    law_pieces_come_in_any_order(start, order, file, k, names);
}

proof fn lemma_forms_dir(
    start: Map<Seq<char>, Seq<u8>>,
    forms: Seq<FormView>,
    file: Seq<Seq<u8>>,
    order: Seq<nat>,
    k: int,
)
    requires
        0 <= k <= forms.len(),
        order == Seq::new(forms.len(), |i: int| forms[i].chunk_index->0 as nat),
        forall|i: int|
            0 <= i < forms.len() ==> {
                let f = #[trigger] forms[i];
                &&& planned(f) is Ok
                &&& f.upload_id is Some
                &&& f.chunk_index is Some && f.chunk_index->0 < file.len()
                &&& f.data == Some(file[f.chunk_index->0 as int])
            },
    ensures
        dir_after_forms(start, forms, k) == dir_after(start, order, file, k),
    decreases k,
{
    if k > 0 {
        lemma_forms_dir(start, forms, file, order, k - 1);
        let f = forms[k - 1];
        assert(planned(f) is Ok);
    }
}

/// A field of a form sets what it names and nothing else; a later one of the same name replaces an
/// earlier one, and a field of an unknown name changes nothing.
pub proof fn law_fields_set_what_they_name(f: FormView, name: Seq<char>, value: Seq<char>)
    ensures
        ({
            let g = with_text(f, name, value);
            &&& g.data == f.data
            &&& g.path == if name == "path"@ {
                Some(value)
            } else {
                f.path
            }
            &&& g.filename == if name == "filename"@ {
                Some(value)
            } else {
                f.filename
            }
            &&& g.upload_id == if name == "upload_id"@ {
                Some(value)
            } else {
                f.upload_id
            }
            &&& name != "chunk_index"@ ==> g.chunk_index == f.chunk_index
            &&& name != "total_chunks"@ ==> g.total_chunks == f.total_chunks
        }),
        forall|n: u32| with_text(f, "chunk_index"@, #[trigger] digits(n as nat)).chunk_index == Some(n),
        forall|n: u32|
            with_text(f, "total_chunks"@, #[trigger] digits(n as nat)).total_chunks == Some(n),
{
    reveal_strlit("path");
    reveal_strlit("filename");
    reveal_strlit("upload_id");
    reveal_strlit("chunk_index");
    reveal_strlit("total_chunks");
    assert("path"@.len() == 4 && "filename"@.len() == 8 && "upload_id"@.len() == 9
        && "chunk_index"@.len() == 11 && "total_chunks"@.len() == 12);
    assert forall|n: u32| with_text(
        f,
        "chunk_index"@,
        #[trigger] digits(n as nat),
    ).chunk_index == Some(n) by {
        crate::text::law_number_round_trip(n as nat, u32::MAX as nat);
    }
    assert forall|n: u32| with_text(
        f,
        "total_chunks"@,
        #[trigger] digits(n as nat),
    ).total_chunks == Some(n) by {
        crate::text::law_number_round_trip(n as nat, u32::MAX as nat);
    }
}

/// A request for a path goes through if and only if the path stays inside and what is there fits;
/// the permission comes first, and the first obstacle is the one that is told.
pub proof fn law_first_obstacle_counts(
    a: Option<HttpView>,
    path: Option<Seq<Seq<char>>>,
    fits: bool,
    status: u16,
    msg: Seq<char>,
)
    ensures
        path_barrier(path, fits, status, msg) is None <==> path is Some && fits,
        path is None ==> path_barrier(path, fits, status, msg)->0.status == 403,
        path is Some && !fits ==> path_barrier(path, fits, status, msg)->0.status == status,
        a is Some ==> first_of_two(a, path_barrier(path, fits, status, msg)) == a,
        a is None ==> first_of_two(a, path_barrier(path, fits, status, msg)) == path_barrier(
            path,
            fits,
            status,
            msg,
        ),
{
}

/// A request either goes through or is told its obstacle.
pub proof fn law_obstacles_are_told<T>(r: Result<T, HttpReply>)
    ensures
        obstacle(r) is None <==> r is Ok,
        r matches Err(e) ==> obstacle(r) is Some && obstacle(r)->0.status == e.status
            && obstacle(r)->0.body == e.body@,
{
}

/// An entry that exists may be renamed within the shared directory, at any depth, to any name that is
/// not taken, holds no slash of either kind, and is no step; and only then.
pub proof fn law_what_may_be_renamed(
    new_name: Seq<char>,
    path: Option<Seq<Seq<char>>>,
    probe: RenameProbe,
)
    ensures
        rename_barrier(new_name, path, probe) is None <==> {
            &&& path is Some && probe.source_exists && !probe.target_exists
            &&& new_name.len() > 0 && new_name != "."@ && new_name != ".."@
            &&& forall|i: int|
                0 <= i < new_name.len() ==> #[trigger] new_name[i] != '/' && new_name[i] != '\\'
            &&& probe.base is Some && probe.target_dir is Some
            &&& texts(probe.base->0@).len() <= texts(probe.target_dir->0@).len()
            &&& texts(probe.target_dir->0@).take(texts(probe.base->0@).len() as int) == texts(
                probe.base->0@,
            )
        },
        rename_barrier(new_name, path, probe) is Some && path is Some && probe.source_exists
            && probe.target_exists ==> {
            let s = rename_barrier(new_name, path, probe)->0.status;
            s == 400 || s == 403 || s == 409
        },
{
    if probe.base is Some && probe.target_dir is Some {
        let b = texts(probe.base->0@);
        let d = texts(probe.target_dir->0@);
        if b.len() <= d.len() {
            assert(d.take(b.len() as int) =~= d.subrange(0, b.len() as int));
        }
    }
    if new_name.contains('/') {
        let k = choose|k: int| 0 <= k < new_name.len() && new_name[k] == '/';
        assert(new_name[k] == '/');
    }
    if new_name.contains('\\') {
        let k = choose|k: int| 0 <= k < new_name.len() && new_name[k] == '\\';
        assert(new_name[k] == '\\');
    }
}

/// An entry may be deleted if it is there and is not the shared directory itself, and only then.
pub proof fn law_what_may_be_deleted(
    path: Option<Seq<Seq<char>>>,
    there: bool,
    home: Seq<Seq<char>>,
    target: Seq<Seq<char>>,
)
    ensures
        delete_barrier(path, there, Some(home), Some(target)) is None <==> path is Some && there
            && home != target,
        path is Some && !there ==> delete_barrier(path, there, Some(home), Some(target))->0.status
            == 404,
        path is None || (there && home == target) ==> delete_barrier(
            path,
            there,
            Some(home),
            Some(target),
        )->0.status == 403,
{
}

/// Only texts can be too large to be shown, and only above 1 MB.
pub proof fn law_what_is_too_large_to_show(name: Seq<char>, size: u64)
    ensures
        !too_large_to_show(name, None),
        size <= 1024 * 1024 ==> !too_large_to_show(name, Some(size)),
        !"text/"@.is_prefix_of(media_type(small_extension(name))) ==> !too_large_to_show(
            name,
            Some(size),
        ),
        size > 1024 * 1024 && "text/"@.is_prefix_of(media_type(small_extension(name)))
            ==> too_large_to_show(name, Some(size)),
{
}

/// A file is stored under the last step of the name that the client gave it, if that is free; if it
/// is taken, a number is put behind its stem, and the extension stays. Only hidden names and empty
/// ones are refused, and a name of which a thousand forms are taken.
pub proof fn law_names_are_kept(filename: Seq<char>, taken: Seq<Seq<char>>)
    ensures
        ({
            let b = bare_name(filename);
            let r = stored_name(filename, taken);
            &&& b.is_suffix_of(filename)
            &&& !b.contains('/') && !b.contains('\\')
            &&& b.len() < filename.len() ==> {
                let c = filename[filename.len() - b.len() - 1];
                c == '/' || c == '\\'
            }
            &&& b.len() == 0 || b[0] == '.' ==> r is None
            &&& b.len() > 0 && b[0] != '.' && !taken.contains(b) ==> r == Some(b)
            &&& r is Some && r != Some(b) ==> stem_of(b).is_prefix_of(r->0) && (
            extension_of(b) matches Some(e) ==> e.is_suffix_of(r->0))
            &&& b.len() > 0 && b[0] != '.' && r is None ==> forall|i: nat|
                1 <= i < 1000 ==> taken.contains(#[trigger] numbered(b, i))
        }),
{
    let s = replaced(filename, '\\', '/');
    let b = bare_name(filename);
    lemma_last_of(s, '/');
    let n = last_of(s, '/') + 1;
    assert(b =~= s.skip(n));
    assert forall|i: int| 0 <= i < b.len() implies b[i] == filename[n + i] && b[i] != '/' && b[i]
        != '\\' by {
        assert(s[n + i] != '/');
        assert(b[i] == s[n + i]);
    }
    assert(filename.subrange(filename.len() - b.len(), filename.len() as int) =~= b);
    if b.contains('/') {
        let k = choose|k: int| 0 <= k < b.len() && b[k] == '/';
        assert(b[k] != '/');
    }
    if b.contains('\\') {
        let k = choose|k: int| 0 <= k < b.len() && b[k] == '\\';
        assert(b[k] != '\\');
    }
    if b.len() > 0 && b[0] != '.' {
        lemma_first_free_form(b, taken, 0);
    }
}

proof fn lemma_first_free_form(name: Seq<char>, taken: Seq<Seq<char>>, i: nat)
    requires
        i <= 1000,
    ensures
        first_free(name, taken, i) matches Some(n) ==> exists|k: nat|
            i <= k < 1000 && n == #[trigger] numbered(name, k),
        first_free(name, taken, i) matches Some(n) ==> n == name || (stem_of(name).is_prefix_of(n)
            && (extension_of(name) matches Some(e) ==> e.is_suffix_of(n))),
        first_free(name, taken, i) is None ==> forall|k: nat|
            i <= k < 1000 ==> taken.contains(#[trigger] numbered(name, k)),
    decreases 1000 - i,
{
    if i < 1000 {
        if !taken.contains(numbered(name, i)) {
            if i > 0 {
                let n = numbered(name, i);
                let st = stem_of(name);
                assert(n.subrange(0, st.len() as int) =~= st);
                if let Some(e) = extension_of(name) {
                    assert(n.subrange(n.len() - e.len(), n.len() as int) =~= e);
                }
            }
        } else {
            lemma_first_free_form(name, taken, i + 1);
            if first_free(name, taken, i) is None {
                assert forall|k: nat| i <= k < 1000 implies taken.contains(
                    #[trigger] numbered(name, k),
                ) by {
                    if k > i {
                        assert(i + 1 <= k);
                    }
                }
            }
        }
    }
}

/// The files that are shown are those whose names do not begin with a dot, all of them, sorted by
/// their names in small letters.
pub proof fn law_files_shown_are_sorted(v: Seq<FileView>, r: Seq<FileView>, i: int, j: int)
    requires
        is_file_listing(shown(v), r),
        v.len() <= usize::MAX,
    ensures
        0 <= i < v.len() && (v[i].name.len() == 0 || v[i].name[0] != '.') ==> r.contains(v[i]),
        0 <= i < j < r.len() && r[i].is_dir == r[j].is_dir ==> !crate::text::lex_lt(
            lowercase(r[j].name),
            lowercase(r[i].name),
        ),
{
    let w = shown(v);
    let order = choose|order: Seq<usize>|
        {
            &&& #[trigger] in_order(file_keys(w), order)
            &&& r == order.map_values(|i: usize| w[i as int])
        };
    if 0 <= i < v.len() && !hidden(v[i].name) {
        lemma_shown_has(v, i);
        let k = choose|k: int| 0 <= k < w.len() && w[k] == v[i];
        assert(order.contains(k as usize));
        let n = choose|n: int| 0 <= n < order.len() && order[n] == k as usize;
        assert(r[n] == w[k]);
    }
    if 0 <= i < j < r.len() {
        let keys = file_keys(w);
        assert(order[i] < keys.len() && order[j] < keys.len());
        assert(crate::listing::before(keys, order[i] as int, order[j] as int));
        let a = lowercase(r[i].name);
        let b = lowercase(r[j].name);
        crate::text::lemma_lex_irreflexive(a);
        if crate::text::lex_lt(a, b) && crate::text::lex_lt(b, a) {
            crate::text::lemma_lex_transitive(a, b, a);
        }
    }
}

proof fn lemma_shown_has(v: Seq<FileView>, i: int)
    requires
        0 <= i < v.len(),
        !hidden(v[i].name),
    ensures
        shown(v).contains(v[i]),
        shown(v).len() <= v.len(),
    decreases v.len(),
{
    let f = v.drop_last();
    lemma_shown_len(v);
    if i == v.len() - 1 {
        assert(shown(v)[shown(v).len() - 1] == v[i]);
    } else {
        lemma_shown_has(f, i);
        let k = choose|k: int| 0 <= k < shown(f).len() && shown(f)[k] == f[i];
        assert(shown(v)[k] == v[i]);
    }
}

proof fn lemma_shown_len(v: Seq<FileView>)
    ensures
        shown(v).len() <= v.len(),
    decreases v.len(),
{
    if v.len() > 0 {
        lemma_shown_len(v.drop_last());
    }
}

} // verus!
