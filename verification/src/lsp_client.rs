//! What a mount client knows of its connection to a server: its permissions and its health.
use vstd::prelude::*;
use crate::mime::{behind_last, last_of};
use crate::wsp_client::StatResp;
use crate::text::{
    chars_of, joined, list_has, list_holds, str_eq, string_of, strip_trailing, trim_end_of, trimmed,
};

verus! {

/// How a client shows who it is: by a PIN, or by an account.
#[derive(Debug, Clone)]
pub enum LspAuth {
    Pin(String),
    Account { username: String, password: String },
}

/// A client's view of its connection. `permission` is what the server granted, comma-separated;
/// `readwrite` stands for everything.
#[derive(Debug, Clone)]
pub struct LspShareClient {
    pub server_addr: String,
    pub auth: LspAuth,
    pub permission: String,
    /// Did the last operation get through?
    pub healthy: bool,
}

/// Does the grant hold a permission?
pub open spec fn granted(permission: Seq<char>, perm: Seq<char>) -> bool {
    permission == "readwrite"@ || list_holds(permission, perm)
}

/// Does the grant hold any permission to change something?
pub open spec fn grants_change(permission: Seq<char>) -> bool {
    granted(permission, "write"@) || granted(permission, "delete"@) || granted(
        permission,
        "rename"@,
    ) || granted(permission, "mkdir"@)
}

/// How an operation ended.
#[derive(Debug, Clone, Copy, PartialEq, Eq, Structural)]
pub enum Ending {
    Fine,
    /// The connection is closed.
    Closed,
    /// No answer in time.
    Timeout,
    /// Too many repetitions.
    RetransmitLimit,
    /// The machine could not send or receive.
    Io,
    /// The server refused.
    Refused,
}

/// Is it the connection that failed, so that a new one may help?
pub open spec fn transient(e: Ending) -> bool {
    e == Ending::Closed || e == Ending::Timeout || e == Ending::RetransmitLimit || e == Ending::Io
}

/// Is it the connection that failed?
pub fn is_transient(e: Ending) -> (r: bool)
    ensures
        r == transient(e),
{
    match e {
        Ending::Closed => true,
        Ending::Timeout => true,
        Ending::RetransmitLimit => true,
        Ending::Io => true,
        Ending::Fine => false,
        Ending::Refused => false,
    }
}

/// What follows the first attempt at an operation.
#[derive(Debug, Clone, Copy, PartialEq, Eq, Structural)]
pub enum Retry {
    /// The outcome stands.
    Settled,
    /// Connect again, and try once more.
    Reconnect,
}

impl LspShareClient {
    /// Did the last operation get through?
    pub fn is_healthy(&self) -> (r: bool)
        ensures
            r == self.healthy,
    {
        self.healthy
    }

    /// May the client change anything? If not, the volume is mounted for reading only.
    pub fn is_writable(&self) -> (r: bool)
        ensures
            r == grants_change(self.permission@),
    {
        self.can("write") || self.can("delete") || self.can("rename") || self.can("mkdir")
    }

    /// Has the client the permission?
    pub fn can(&self, perm: &str) -> (r: bool)
        ensures
            r == granted(self.permission@, perm@),
    {
        if str_eq(self.permission.as_str(), "readwrite") {
            return true;
        }
        list_has(self.permission.as_str(), perm)
    }

    /// Takes note of how the first attempt at an operation ended. Only a failed connection makes
    /// the client unhealthy, and only it is worth another attempt; a refusal changes nothing.
    pub fn after_first(&mut self, e: Ending) -> (r: Retry)
        ensures
            *final(self) == (LspShareClient {
                healthy: if e == Ending::Fine {
                    true
                } else if transient(e) {
                    false
                } else {
                    old(self).healthy
                },
                ..*old(self)
            }),
            r == if transient(e) {
                Retry::Reconnect
            } else {
                Retry::Settled
            },
    {
        match e {
            Ending::Fine => {
                self.healthy = true;
                Retry::Settled
            },
            Ending::Refused => Retry::Settled,
            _ => {
                self.healthy = false;
                Retry::Reconnect
            },
        }
    }

    /// Takes note of how the second attempt ended. Whatever it was, there is no third.
    pub fn after_second(&mut self, e: Ending)
        ensures
            *final(self) == (LspShareClient {
                healthy: if e == Ending::Fine {
                    true
                } else {
                    old(self).healthy
                },
                ..*old(self)
            }),
    {
        match e {
            Ending::Fine => {
                self.healthy = true;
            },
            _ => {},
        }
    }
}

/// The operations of a mount that need a right.
#[derive(Debug, Clone, Copy, PartialEq, Eq, Structural)]
pub enum MountOp {
    /// Open for writing.
    Write,
    /// Make a file.
    Create,
    /// Change the size of a file.
    Truncate,
    /// Empty a file.
    Overwrite,
    /// Remove a file or a directory.
    Remove,
    /// Make a directory.
    MakeDir,
    /// Move or rename.
    Rename,
}

/// The right that an operation needs.
pub open spec fn right_for(op: MountOp) -> Seq<char> {
    match op {
        MountOp::Write | MountOp::Create | MountOp::Truncate | MountOp::Overwrite => "write"@,
        MountOp::Remove => "delete"@,
        MountOp::MakeDir => "mkdir"@,
        MountOp::Rename => "rename"@,
    }
}

impl LspShareClient {
    /// Has the server granted the right for an operation?
    pub fn may(&self, op: MountOp) -> (r: bool)
        ensures
            r == granted(self.permission@, right_for(op)),
    {
        match op {
            MountOp::Write | MountOp::Create | MountOp::Truncate | MountOp::Overwrite => self.can(
                "write",
            ),
            MountOp::Remove => self.can("delete"),
            MountOp::MakeDir => self.can("mkdir"),
            MountOp::Rename => self.can("rename"),
        }
    }

    /// Takes note of how a forced reconnect went. One that went well makes the client healthy,
    /// whatever it was; one that failed changes nothing, and the error says why.
    pub fn force_reconnect(&mut self, result: Result<(), String>) -> (r: Result<(), String>)
        ensures
            *final(self) == (LspShareClient {
                healthy: result is Ok || old(self).healthy,
                ..*old(self)
            }),
            match result {
                Ok(_) => r is Ok,
                Err(e) => r matches Err(m) && m@ == "LSP3 重连失败: "@ + e@,
            },
    {
        match result {
            Ok(_) => {
                self.healthy = true;
                Ok(())
            },
            Err(e) => {
                let mut text: String = "LSP3 重连失败: ".to_owned();
                text.append(e.as_str());
                Err(text)
            },
        }
    }
}

/// How long to wait before the next look at the connection, in seconds.
pub fn probe_interval(healthy: bool) -> (r: u64)
    ensures
        r == if healthy {
            5u64
        } else {
            2u64
        },
{
    if healthy {
        5
    } else {
        2
    }
}

/// What is worth telling the user after a look at the connection.
#[derive(Debug, Clone, Copy, PartialEq, Eq, Structural)]
pub enum HealthNews {
    Nothing,
    Restored,
    Lost,
}

/// What is worth telling the user: that the connection came back, or went.
pub fn health_news(was_healthy: bool, healthy: bool) -> (r: HealthNews)
    ensures
        r == if healthy == was_healthy {
            HealthNews::Nothing
        } else if healthy {
            HealthNews::Restored
        } else {
            HealthNews::Lost
        },
{
    if healthy && !was_healthy {
        HealthNews::Restored
    } else if !healthy && was_healthy {
        HealthNews::Lost
    } else {
        HealthNews::Nothing
    }
}

/// The last step of a path, slashes at its end aside.
pub open spec fn last_step(path: Seq<char>) -> Seq<char> {
    let p = trim_end_of(path, '/');
    p.skip(last_of(p, '/') + 1)
}

/// The last step of a path, as the name of a file.
pub fn basename(path: &str) -> (r: String)
    ensures
        r@ == last_step(path@),
{
    let p = strip_trailing(path, '/');
    let v = chars_of(p.as_str());
    let i: usize = behind_last(&v, '/');
    proof {
        assert(v@.subrange(i as int, v@.len() as int) =~= v@.skip(i as int));
    }
    string_of(v.as_slice(), i, v.len())
}

/// A volume is writable exactly if it may do at least one of the four things that change it.
pub proof fn law_writable(permission: Seq<char>)
    ensures
        grants_change(permission) <==> (permission == "readwrite"@ || list_holds(
            permission,
            "write"@,
        ) || list_holds(permission, "delete"@) || list_holds(permission, "rename"@)
            || list_holds(permission, "mkdir"@)),
{
}

/// The options of a mount on Unix.
#[derive(Debug, Clone, Copy, PartialEq, Eq, Structural)]
pub enum MountFlag {
    /// The file system is called `lanshare`.
    Name,
    AutoUnmount,
    NoDev,
    NoSuid,
    ReadOnly,
}

/// The options of a mount: one that may change nothing is mounted for reading only.
pub fn mount_flags(writable: bool) -> (r: Vec<MountFlag>)
    ensures
        r@ == if writable {
            seq![MountFlag::Name, MountFlag::AutoUnmount, MountFlag::NoDev, MountFlag::NoSuid]
        } else {
            seq![
                MountFlag::Name,
                MountFlag::AutoUnmount,
                MountFlag::NoDev,
                MountFlag::NoSuid,
                MountFlag::ReadOnly,
            ]
        },
{
    let mut v: Vec<MountFlag> = Vec::new();
    v.push(MountFlag::Name);
    v.push(MountFlag::AutoUnmount);
    v.push(MountFlag::NoDev);
    v.push(MountFlag::NoSuid);
    if !writable {
        v.push(MountFlag::ReadOnly);
    }
    proof {
        assert(v@ =~= if writable {
            seq![MountFlag::Name, MountFlag::AutoUnmount, MountFlag::NoDev, MountFlag::NoSuid]
        } else {
            seq![
                MountFlag::Name,
                MountFlag::AutoUnmount,
                MountFlag::NoDev,
                MountFlag::NoSuid,
                MountFlag::ReadOnly,
            ]
        });
    }
    v
}

/// What the watch over a connection remembers: the address of this machine, and whether the
/// connection was healthy.
#[derive(Debug, Clone)]
pub struct Watch {
    pub last_ip: String,
    pub was_healthy: bool,
}

impl Watch {
    /// Takes note of the address of this machine. Where it has changed, the client connects anew,
    /// and the connection is not looked at this time.
    pub fn see_address(&mut self, ip: &str) -> (r: bool)
        ensures
            r == (ip@ != old(self).last_ip@),
            final(self).last_ip@ == ip@,
            final(self).was_healthy == old(self).was_healthy,
    {
        if str_eq(self.last_ip.as_str(), ip) {
            return false;
        }
        self.last_ip = ip.to_owned();
        true
    }

    /// Takes note of the state of the connection, and of what is worth telling.
    pub fn see_health(&mut self, healthy: bool) -> (r: HealthNews)
        ensures
            r == if healthy == old(self).was_healthy {
                HealthNews::Nothing
            } else if healthy {
                HealthNews::Restored
            } else {
                HealthNews::Lost
            },
            final(self).was_healthy == healthy,
            final(self).last_ip@ == old(self).last_ip@,
    {
        let r = health_news(self.was_healthy, healthy);
        self.was_healthy = healthy;
        r
    }
}

/// What is told of a path that the server does not have: its name, and that it does not exist.
pub fn stat_missing(path: &str) -> (r: StatResp)
    ensures
        r.name@ == last_step(path@),
        !r.is_dir,
        r.size == 0,
        r.mtime@ == "0"@,
        !r.exists,
{
    StatResp {
        name: basename(path),
        is_dir: false,
        size: 0,
        mtime: "0".to_owned(),
        exists: false,
    }
}

/// The rights that the server grants are those that its list names; `readwrite` stands for all.
pub proof fn law_rights_that_are_granted(words: Seq<Seq<char>>, perm: Seq<char>)
    requires
        words.len() > 0,
        forall|i: int| 0 <= i < words.len() ==> !(#[trigger] words[i]).contains(','),
        joined(words, ',') != "readwrite"@,
    ensures
        granted("readwrite"@, perm),
        granted(joined(words, ','), perm) <==> exists|i: int|
            0 <= i < words.len() && trimmed(#[trigger] words[i]) == perm,
{
    crate::db::law_permissions_are_independent(words, perm);
}

/// Each operation needs the right that it names: what changes the contents of files needs `write`,
/// what takes entries away `delete`, and so on.
pub proof fn law_operations_need_their_right(op: MountOp)
    ensures
        right_for(op) == "delete"@ <==> op == MountOp::Remove,
        right_for(op) == "mkdir"@ <==> op == MountOp::MakeDir,
        right_for(op) == "rename"@ <==> op == MountOp::Rename,
        right_for(op) == "write"@ <==> op == MountOp::Write || op == MountOp::Create || op
            == MountOp::Truncate || op == MountOp::Overwrite,
{
    reveal_strlit("write");
    reveal_strlit("delete");
    reveal_strlit("mkdir");
    reveal_strlit("rename");
    assert("write"@.len() == 5 && "mkdir"@.len() == 5 && "delete"@.len() == 6 && "rename"@.len()
        == 6);
    assert("write"@[0] == 'w' && "mkdir"@[0] == 'm' && "delete"@[0] == 'd' && "rename"@[0] == 'r');
}

/// Only a failure of the connection is worth another attempt: neither success nor a refusal is.
pub proof fn law_what_is_worth_another_attempt(e: Ending)
    ensures
        transient(e) <==> e != Ending::Fine && e != Ending::Refused,
{
}

/// The name in a path is what follows its last slash.
pub proof fn law_name_in_a_path(dir: Seq<char>, name: Seq<char>)
    requires
        name.len() > 0,
        !name.contains('/'),
    ensures
        last_step(dir.push('/') + name) == name,
{
    let p = dir.push('/') + name;
    assert(name.contains(name.last()));
    assert(p.last() == name.last());
    assert(trim_end_of(p, '/') == p);
    crate::mime::lemma_last_of(p, '/');
    let i = last_of(p, '/');
    assert(p[dir.len() as int] == '/');
    if i > dir.len() {
        assert(name[i - dir.len() - 1] == '/');
        assert(name.contains('/'));
    }
    assert(p.skip(i + 1) =~= name);
}

} // verus!
