//! The mount client for Dokan: its records, its answers, and its command line.
#![allow(non_camel_case_types)]
use vstd::prelude::*;
use crate::clock::filetime;
use crate::mime::{behind_last, last_of};
use crate::text::{
    chars_of, number_in, parse_number, parse_signed, replace_char, replaced, signed_in, str_eq,
    string_of,
};
use crate::utf16::{decode_utf16, encode_utf16, utf16_text, utf16_units};
use crate::wsp_client::{DirEntry, StatResp};

verus! {

pub const DOKAN_VERSION: u16 = 740;

pub const DOKAN_OPTION_KEEP_ALIVE: u32 = 8;

pub const DOKAN_OPTION_REMOVABLE: u32 = 32;

pub const FILE_ATTRIBUTE_DIRECTORY: u32 = 0x10;

pub const FILE_ATTRIBUTE_NORMAL: u32 = 0x80;

pub const FILE_CASE_SENSITIVE_SEARCH: u32 = 1;

pub const FILE_UNICODE_ON_DISK: u32 = 4;

pub const CREATE_NEW: u32 = 1;

pub const CREATE_ALWAYS: u32 = 2;

pub const OPEN_EXISTING: u32 = 3;

pub const OPEN_ALWAYS: u32 = 4;

pub const ERROR_FILE_NOT_FOUND: i32 = 2;

pub const ERROR_PATH_NOT_FOUND: i32 = 3;

pub const ERROR_ACCESS_DENIED: i32 = 5;

pub const ERROR_WRITE_FAULT: i32 = 29;

pub const ERROR_READ_FAULT: i32 = 30;

pub const ERROR_CALL_NOT_IMPLEMENTED: i32 = 120;

/// The free bytes that the volume reports, 10 GB.
pub const FREE_BYTES: u64 = 10737418240;

/// The size that the volume reports, 100 GB.
pub const TOTAL_BYTES: u64 = 107374182400;

/// How the volume is mounted. The mount point is UTF-16 with a zero at its end.
#[derive(Debug, Clone)]
pub struct DOKAN_OPTIONS {
    pub version: u16,
    pub thread_count: u16,
    pub options: u32,
    pub global_context: u64,
    pub mount_point: Vec<u16>,
}

/// What is known of an open entry.
#[derive(Debug, Clone)]
pub struct DOKAN_FILE_INFO {
    pub context: u64,
    pub dokan_context: u64,
    pub process_id: u32,
    pub is_directory: u8,
    pub delete_on_close: u8,
    pub paging_io: u8,
    pub synchronous_io: u8,
    pub nocache: u8,
    pub write_to_end_of_file: u8,
}

/// A moment in two halves.
#[derive(Debug, Clone, Copy, PartialEq, Eq, Structural)]
pub struct FILETIME {
    pub dw_low_date_time: u32,
    pub dw_high_date_time: u32,
}

/// The properties of an entry.
#[derive(Debug, Clone, Copy, PartialEq, Eq, Structural)]
pub struct BY_HANDLE_FILE_INFORMATION {
    pub dw_file_attributes: u32,
    pub ft_creation_time: FILETIME,
    pub ft_last_access_time: FILETIME,
    pub ft_last_write_time: FILETIME,
    pub dw_volume_serial_number: u32,
    pub n_file_size_high: u32,
    pub n_file_size_low: u32,
    pub n_number_of_links: u32,
    pub n_file_index_high: u32,
    pub n_file_index_low: u32,
}

/// An entry as it is listed. The name is UTF-16 with a zero at its end.
#[derive(Debug, Clone)]
pub struct WIN32_FIND_DATAW {
    pub dw_file_attributes: u32,
    pub ft_creation_time: FILETIME,
    pub ft_last_access_time: FILETIME,
    pub ft_last_write_time: FILETIME,
    pub n_file_size_high: u32,
    pub n_file_size_low: u32,
    pub dw_reserved0: u32,
    pub dw_reserved1: u32,
    pub c_file_name: Vec<u16>,
}

/// The number that two halves stand for.
pub open spec fn halves(low: u32, high: u32) -> int {
    high * 0x1_0000_0000 + low
}

fn low_half(n: u64) -> (r: u32)
    ensures
        r == n as int % 0x1_0000_0000,
{
    (n % 0x1_0000_0000) as u32
}

fn high_half(n: u64) -> (r: u32)
    ensures
        r == n as int / 0x1_0000_0000,
{
    (n / 0x1_0000_0000) as u32
}

/// The units of UTF-16 up to the first zero.
pub open spec fn until_zero(w: Seq<u16>) -> Seq<u16>
    decreases w.len(),
{
    if w.len() == 0 || w[0] == 0 {
        Seq::<u16>::empty()
    } else {
        seq![w[0]] + until_zero(w.skip(1))
    }
}

/// A text in UTF-16 with a zero at its end.
pub fn to_wide(s: &str) -> (r: Vec<u16>)
    ensures
        r@ == utf16_units(s@).push(0),
{
    let mut v = encode_utf16(s);
    v.push(0);
    v
}

/// The text of UTF-16 up to the first zero.
pub fn from_wide(w: &[u16]) -> (r: String)
    ensures
        r@ == utf16_text(until_zero(w@)),
{
    let mut part: Vec<u16> = Vec::new();
    let mut i: usize = 0;
    proof {
        assert(w@.skip(0) =~= w@);
        assert(part@ + until_zero(w@.skip(0)) =~= until_zero(w@));
    }
    while i < w.len() && w[i] != 0
        invariant
            i <= w@.len(),
            part@ + until_zero(w@.skip(i as int)) == until_zero(w@),
        decreases w@.len() - i,
    {
        let ghost before = part@;
        part.push(w[i]);
        proof {
            assert(w@.skip(i as int).skip(1) =~= w@.skip(i + 1));
            assert(part@ + until_zero(w@.skip(i + 1)) =~= before + (seq![w@[i as int]] + until_zero(
                w@.skip(i + 1),
            )));
        }
        i = i + 1;
    }
    proof {
        assert(until_zero(w@.skip(i as int)) =~= Seq::<u16>::empty());
        assert(part@ + Seq::<u16>::empty() =~= part@);
    }
    decode_utf16(part.as_slice())
}

/// The remote path of a name that Dokan gives.
pub fn path_to_unix(w: &[u16]) -> (r: String)
    ensures
        r@ == replaced(utf16_text(until_zero(w@)), '\\', '/'),
{
    let s = from_wide(w);
    replace_char(s.as_str(), '\\', '/')
}

/// The time of an entry: that of its text, if it is a number of seconds above zero.
pub open spec fn entry_time(mtime: Seq<char>) -> int {
    match signed_in(mtime) {
        Some(n) => if n > 0 {
            filetime(n)
        } else {
            0
        },
        None => 0,
    }
}

fn time_of(mtime: &str) -> (r: FILETIME)
    requires
        entry_time(mtime@) <= i64::MAX,
    ensures
        halves(r.dw_low_date_time, r.dw_high_date_time) == entry_time(mtime@),
{
    let mut wt: u64 = 0;
    if let Some(n) = parse_signed(mtime) {
        if n > 0 {
            wt = n as u64 * 10_000_000 + crate::clock::FILETIME_EPOCH;
        }
    }
    FILETIME { dw_low_date_time: low_half(wt), dw_high_date_time: high_half(wt) }
}

/// The properties of an entry that the server described.
pub fn mount_get_file_information(stat: &StatResp) -> (r: BY_HANDLE_FILE_INFORMATION)
    requires
        entry_time(stat.mtime@) <= i64::MAX,
    ensures
        r.dw_file_attributes == if stat.is_dir {
            FILE_ATTRIBUTE_DIRECTORY
        } else {
            FILE_ATTRIBUTE_NORMAL
        },
        halves(r.n_file_size_low, r.n_file_size_high) == stat.size,
        halves(r.ft_last_write_time.dw_low_date_time, r.ft_last_write_time.dw_high_date_time)
            == entry_time(stat.mtime@),
        r.ft_last_access_time == r.ft_last_write_time,
        r.ft_creation_time == r.ft_last_write_time,
        r.dw_volume_serial_number == 0 && r.n_number_of_links == 0 && r.n_file_index_high == 0
            && r.n_file_index_low == 0,
{
    let time = time_of(stat.mtime.as_str());
    BY_HANDLE_FILE_INFORMATION {
        dw_file_attributes: if stat.is_dir {
            FILE_ATTRIBUTE_DIRECTORY
        } else {
            FILE_ATTRIBUTE_NORMAL
        },
        ft_creation_time: time,
        ft_last_access_time: time,
        ft_last_write_time: time,
        dw_volume_serial_number: 0,
        n_file_size_high: high_half(stat.size),
        n_file_size_low: low_half(stat.size),
        n_number_of_links: 0,
        n_file_index_high: 0,
        n_file_index_low: 0,
    }
}

/// The name of an entry, cut to 259 units, with a zero at its end.
pub open spec fn short_name(name: Seq<char>) -> Seq<u16> {
    let u = utf16_units(name);
    if u.len() <= 259 {
        u.push(0)
    } else {
        u.take(259).push(0)
    }
}

/// An entry as it is listed.
pub fn mount_find_files(entry: &DirEntry) -> (r: WIN32_FIND_DATAW)
    requires
        entry_time(entry.mtime@) <= i64::MAX,
    ensures
        r.dw_file_attributes == if entry.is_dir {
            FILE_ATTRIBUTE_DIRECTORY
        } else {
            FILE_ATTRIBUTE_NORMAL
        },
        halves(r.n_file_size_low, r.n_file_size_high) == entry.size,
        halves(r.ft_last_write_time.dw_low_date_time, r.ft_last_write_time.dw_high_date_time)
            == entry_time(entry.mtime@),
        r.ft_last_access_time == r.ft_last_write_time,
        r.ft_creation_time == r.ft_last_write_time,
        r.dw_reserved0 == 0 && r.dw_reserved1 == 0,
        r.c_file_name@ == short_name(entry.name@),
        r.c_file_name@.len() <= 260,
{
    let mut name = encode_utf16(entry.name.as_str());
    if name.len() > 259 {
        name.truncate(259);
        proof {
            assert(name@ =~= utf16_units(entry.name@).take(259));
        }
    }
    name.push(0);
    let time = time_of(entry.mtime.as_str());
    WIN32_FIND_DATAW {
        dw_file_attributes: if entry.is_dir {
            FILE_ATTRIBUTE_DIRECTORY
        } else {
            FILE_ATTRIBUTE_NORMAL
        },
        ft_creation_time: time,
        ft_last_access_time: time,
        ft_last_write_time: time,
        n_file_size_high: high_half(entry.size),
        n_file_size_low: low_half(entry.size),
        dw_reserved0: 0,
        dw_reserved1: 0,
        c_file_name: name,
    }
}

/// What comes of opening a path.
#[derive(Debug, Clone, Copy, PartialEq, Eq, Structural)]
pub enum CreatePlan {
    /// It is there, and a directory or not.
    Existing(bool),
    /// It is not there, and is to be created as an empty file.
    Create,
    /// It is not there, and not to be created.
    Missing,
}

/// What comes of opening a path. `found` says what the server has there, if it has anything.
pub fn mount_create_file(found: Option<bool>, disposition: u32) -> (r: CreatePlan)
    ensures
        r == match found {
            Some(is_dir) => CreatePlan::Existing(is_dir),
            None => if disposition == CREATE_NEW || disposition == CREATE_ALWAYS {
                CreatePlan::Create
            } else {
                CreatePlan::Missing
            },
        },
{
    match found {
        Some(is_dir) => CreatePlan::Existing(is_dir),
        None => {
            if disposition == CREATE_NEW || disposition == CREATE_ALWAYS {
                CreatePlan::Create
            } else {
                CreatePlan::Missing
            }
        },
    }
}

/// The answer to opening a directory: the root is there without asking, anything else must be a
/// directory on the server.
pub fn mount_open_directory(path: &str, found: Option<bool>) -> (r: i32)
    ensures
        r == if path@.len() == 0 || path@ == "/"@ || found == Some(true) {
            0i32
        } else {
            (-3i32)
        },
{
    proof {
        reveal_strlit("");
        assert(path@.len() == 0 ==> path@ =~= ""@);
    }
    if str_eq(path, "") || str_eq(path, "/") {
        return 0;
    }
    match found {
        Some(true) => 0,
        _ => -ERROR_PATH_NOT_FOUND,
    }
}

/// Bytes for a buffer of a given size.
pub fn mount_read_file(data: &[u8], size: u32) -> (r: Vec<u8>)
    ensures
        r@ == if data@.len() <= size {
            data@
        } else {
            data@.take(size as int)
        },
{
    let n: usize = if data.len() as u64 <= size as u64 { data.len() } else { size as usize };
    let r = crate::bytes::byte_range(data, 0, n);
    proof {
        assert(r@ =~= if data@.len() <= size {
            data@
        } else {
            data@.take(size as int)
        });
    }
    r
}

/// The host and the port in the address of a server: what stands before and behind the last colon.
/// Without a colon, or where the port is no number, the port is 8080.
pub open spec fn server_parts(server: Seq<char>) -> (Seq<char>, int) {
    let i = last_of(server, ':');
    if i < 0 {
        (server, 8080)
    } else {
        (
            server.take(i),
            match number_in(server.skip(i + 1), 65535) {
                Some(n) => n as int,
                None => 8080,
            },
        )
    }
}

/// The host and the port in the address of a server.
pub fn parse_server(server: &str) -> (r: (String, u16))
    ensures
        (r.0@, r.1 as int) == server_parts(server@),
{
    let v = chars_of(server);
    let i: usize = behind_last(&v, ':');
    if i == 0 {
        return (server.to_owned(), 8080);
    }
    proof {
        assert(v@.subrange(0, i - 1) =~= v@.take(i - 1));
        assert(v@.subrange(i as int, v@.len() as int) =~= v@.skip(i as int));
    }
    let host = string_of(v.as_slice(), 0, i - 1);
    let port = string_of(v.as_slice(), i, v.len());
    match parse_number(port.as_str(), 65535) {
        Some(n) => (host, n as u16),
        None => (host, 8080),
    }
}

/// The letter of the drive: the first character of the argument, `L` where it is empty.
pub fn drive_letter(arg: &str) -> (r: char)
    ensures
        r == if arg@.len() > 0 {
            arg@[0]
        } else {
            'L'
        },
{
    let v = chars_of(arg);
    if v.len() > 0 {
        v[0]
    } else {
        'L'
    }
}

/// Is the letter free? `mask` has a bit for each letter in use, the lowest for `A`.
pub open spec fn letter_free(mask: u32, i: u32) -> bool {
    mask & (1u32 << i) == 0
}

/// The last letter that is free, as a drive; `L:` where none is.
pub open spec fn free_drive(mask: u32, i: nat) -> Seq<char>
    decreases i,
{
    if i == 0 {
        "L:"@
    } else if letter_free(mask, (i - 1) as u32) {
        seq![(64 + i) as u8 as char, ':']
    } else {
        free_drive(mask, (i - 1) as nat)
    }
}

/// The last letter that is free, from `Z` down.
pub fn find_free_drive(mask: u32) -> (r: String)
    ensures
        r@ == free_drive(mask, 26),
{
    let mut i: u32 = 26;
    while i > 0
        invariant
            i <= 26,
            free_drive(mask, 26) == free_drive(mask, i as nat),
        decreases i,
    {
        let k: u32 = i - 1;
        if mask & (1u32 << k) == 0 {
            let mut out: String = String::new();
            out.push((65 + k as u8) as char);
            out.push(':');
            proof {
                assert(out@ =~= free_drive(mask, i as nat));
            }
            return out;
        }
        i = k;
    }
    "L:".to_owned()
}

/// The drive of a mount point: a free one for `*` and for nothing, a letter with a colon behind it,
/// anything else as it is.
pub open spec fn drive_of(mount: Seq<char>, mask: u32) -> Seq<char> {
    if mount == "*"@ || mount.len() == 0 {
        free_drive(mask, 26)
    } else if mount.len() == 1 && ('a' <= mount[0] <= 'z' || 'A' <= mount[0] <= 'Z') {
        mount.push(':')
    } else {
        mount
    }
}

/// The drive of a mount point.
pub fn choose_drive(mount: &str, mask: u32) -> (r: String)
    ensures
        r@ == drive_of(mount@, mask),
{
    let v = chars_of(mount);
    if str_eq(mount, "*") || v.len() == 0 {
        return find_free_drive(mask);
    }
    let mut out: String = mount.to_owned();
    if v.len() == 1 {
        let c: char = v[0];
        if ('a' <= c && c <= 'z') || ('A' <= c && c <= 'Z') {
            out.push(':');
        }
    }
    out
}

/// How the program ends after the driver returned: with an error for a drive that is in use, one
/// for another failure, or fine.
#[derive(Debug, Clone, Copy, PartialEq, Eq, Structural)]
pub enum ExitKind {
    DriveInUse,
    Failed,
    Clean,
}

/// How the program ends after the driver returned.
pub fn exit_kind(status: i32) -> (r: ExitKind)
    ensures
        r == if status == -5 {
            ExitKind::DriveInUse
        } else if status != 0 && status != -4 {
            ExitKind::Failed
        } else {
            ExitKind::Clean
        },
{
    if status == -5 {
        ExitKind::DriveInUse
    } else if status != 0 && status != -4 {
        ExitKind::Failed
    } else {
        ExitKind::Clean
    }
}

proof fn lemma_until_zero(w: Seq<u16>)
    requires
        forall|i: int| 0 <= i < w.len() ==> (#[trigger] w[i]) != 0,
    ensures
        until_zero(w.push(0)) == w,
    decreases w.len(),
{
    if w.len() > 0 {
        let t = w.skip(1);
        assert forall|i: int| 0 <= i < t.len() implies (#[trigger] t[i]) != 0 by {
            assert(w[i + 1] != 0);
        }
        lemma_until_zero(t);
        assert(w.push(0).skip(1) =~= t.push(0));
        assert(seq![w[0]] + t =~= w);
    } else {
        assert(until_zero(w.push(0)) =~= w);
    }
}

proof fn lemma_units_not_zero(s: Seq<char>)
    requires
        !s.contains('\0'),
    ensures
        forall|i: int| 0 <= i < utf16_units(s).len() ==> (#[trigger] utf16_units(s)[i]) != 0,
    decreases s.len(),
{
    if s.len() > 0 {
        let t = s.skip(1);
        if t.contains('\0') {
            let k = choose|k: int| 0 <= k < t.len() && t[k] == '\0';
            assert(s[k + 1] == '\0');
        }
        lemma_units_not_zero(t);
        let u = crate::utf16::units_of(s[0]);
        assert(s.contains(s[0]));
        vstd::utf8::char_is_scalar(s[0]);
        vstd::utf8::char_u32_cast(s[0], s[0] as u32);
        vstd::utf8::char_u32_cast('\0', '\0' as u32);
        assert('\0' as u32 == 0);
        assert(s[0] as u32 != 0);
        let all = utf16_units(s);
        assert forall|i: int| 0 <= i < all.len() implies (#[trigger] all[i]) != 0 by {
            if i >= u.len() {
                assert(all[i] == utf16_units(t)[i - u.len()]);
            } else {
                assert(all[i] == u[i]);
            }
        }
    }
}

/// A text without zeros is read back from its wide form.
pub proof fn law_wide_round_trip(s: Seq<char>)
    requires
        !s.contains('\0'),
    ensures
        utf16_text(until_zero(utf16_units(s).push(0))) == s,
{
    lemma_units_not_zero(s);
    lemma_until_zero(utf16_units(s));
    crate::utf16::law_utf16_round_trip(s);
}

/// A name for a buffer of a given size: cut so that a zero fits behind it.
pub fn mount_get_volume_information(name: &str, size: u32) -> (r: Vec<u16>)
    requires
        size > 0,
    ensures
        r@ == (if utf16_units(name@).len() <= size - 1 {
            utf16_units(name@)
        } else {
            utf16_units(name@).take(size - 1)
        }).push(0),
        r@.len() <= size,
{
    let mut units = encode_utf16(name);
    let limit: u32 = size - 1;
    if units.len() as u64 > limit as u64 {
        units.truncate(limit as usize);
        proof {
            assert(units@ =~= utf16_units(name@).take(size - 1));
        }
    }
    units.push(0);
    units
}

/// Two halves of a number make up the number.
pub proof fn law_halves(n: u64)
    ensures
        halves((n % 0x1_0000_0000) as u32, (n / 0x1_0000_0000) as u32) == n,
{
}

/// A wide text ends before its first zero: what stands before it is the text, and what follows does
/// not matter.
pub proof fn law_wide_texts_end_at_zero(w: Seq<u16>, rest: Seq<u16>)
    requires
        forall|i: int| 0 <= i < w.len() ==> #[trigger] w[i] != 0,
    ensures
        until_zero(w.push(0) + rest) == w,
        until_zero(w) == w,
    decreases w.len(),
{
    if w.len() > 0 {
        let r = w.skip(1);
        assert forall|i: int| 0 <= i < r.len() implies #[trigger] r[i] != 0 by {
            assert(w[i + 1] != 0);
        }
        law_wide_texts_end_at_zero(r, rest);
        assert((w.push(0) + rest).skip(1) =~= r.push(0) + rest);
        assert((w.push(0) + rest)[0] == w[0]);
        assert(seq![w[0]] + r =~= w);
    } else {
        assert((w.push(0) + rest)[0] == 0);
    }
}

/// The time of an entry is the moment that its seconds name, as Windows counts.
pub proof fn law_times_of_entries(n: int)
    requires
        0 < n <= 0x7FFF_FFFF_FFFF_FFFF,
    ensures
        entry_time(crate::text::signed(n)) == (n + 11644473600) * 10000000,
{
    crate::text::law_signed_round_trip(n);
}

/// A name of an entry is written as a whole, if there is room for it, with a zero behind it; a longer
/// one is cut.
pub proof fn law_names_of_entries(name: Seq<char>)
    ensures
        utf16_units(name).len() <= 259 ==> short_name(name) == utf16_units(name).push(0),
        short_name(name).len() <= 260,
        short_name(name).last() == 0,
        short_name(name).drop_last().is_prefix_of(utf16_units(name)),
{
    let u = utf16_units(name);
    let r = short_name(name).drop_last();
    assert(u.subrange(0, r.len() as int) =~= r);
}

/// A server is reached at the host before the last colon and the port behind it; without a port, or
/// with one that is none, at 8080.
pub proof fn law_host_and_port(host: Seq<char>, port: u16)
    ensures
        server_parts(host.push(':') + crate::text::digits(port as nat)) == (host, port as int),
        !host.contains(':') ==> server_parts(host) == (host, 8080int),
{
    let d = crate::text::digits(port as nat);
    let s = host.push(':') + d;
    crate::text::law_number_round_trip(port as nat, 65535);
    crate::text::lemma_digits(port as nat);
    crate::mime::lemma_last_of(s, ':');
    let i = last_of(s, ':');
    assert(s[host.len() as int] == ':');
    if i > host.len() {
        assert(crate::text::is_digit(d[i - host.len() - 1]));
        assert(s[i] == d[i - host.len() - 1]);
    }
    assert(s.take(i) =~= host);
    assert(s.skip(i + 1) =~= d);
    crate::mime::lemma_last_of(host, ':');
    if !host.contains(':') && last_of(host, ':') >= 0 {
        assert(host.contains(host[last_of(host, ':')]));
    }
}

/// A drive that is chosen without being named is free, and the last free one of the alphabet; only
/// where none is free it is L.
pub proof fn law_free_drive(mask: u32, i: nat, k: nat)
    requires
        i <= 26,
        1 <= k <= i,
        letter_free(mask, (k - 1) as u32),
    ensures
        ({
            let d = free_drive(mask, i);
            &&& d.len() == 2 && d[1] == ':'
            &&& exists|n: nat|
                k <= n <= i && #[trigger] letter_free(mask, (n - 1) as u32) && d[0] as u32 == 64
                    + n
        }),
    decreases i,
{
    if letter_free(mask, (i - 1) as u32) {
        assert(free_drive(mask, i)[0] as u32 == 64 + i);
    } else {
        law_free_drive(mask, (i - 1) as nat, k);
    }
}

/// A drive that is named is the drive; a single letter needs no colon.
pub proof fn law_named_drives(mount: Seq<char>, mask: u32)
    requires
        mount.len() > 0,
        mount != "*"@,
    ensures
        mount.len() > 1 ==> drive_of(mount, mask) == mount,
        mount.len() == 1 && ('a' <= mount[0] <= 'z' || 'A' <= mount[0] <= 'Z') ==> drive_of(
            mount,
            mask,
        ) == mount.push(':'),
        drive_of("*"@, mask) == free_drive(mask, 26),
        drive_of(Seq::<char>::empty(), mask) == free_drive(mask, 26),
{
}

} // verus!
