//! Starting the server: its name, which services run, and what is told of them.
use vstd::prelude::*;
use crate::text::{digits, holds_part, lemma_holds_middle, push_number, text_of};

verus! {

/// The name of the server: the one that was given, else that of the computer, as either of the two
/// environment variables holds it, else a fixed one.
pub fn device_name(
    given: &Option<String>,
    computer: &Option<String>,
    host: &Option<String>,
) -> (r: String)
    ensures
        r@ == match text_of(*given) {
            Some(n) => n,
            None => match text_of(*computer) {
                Some(n) => n,
                None => match text_of(*host) {
                    Some(n) => n,
                    None => "LSP-Server"@,
                },
            },
        },
{
    match given {
        Some(n) => n.clone(),
        None => match computer {
            Some(n) => n.clone(),
            None => match host {
                Some(n) => n.clone(),
                None => "LSP-Server".to_owned(),
            },
        },
    }
}

/// The name in the configuration, if it is not empty.
pub fn configured_name(name: &str) -> (r: Option<String>)
    ensures
        text_of(r) == if name@.len() == 0 {
            None
        } else {
            Some(name@)
        },
{
    proof {
        reveal_strlit("");
        assert(name@.len() == 0 ==> name@ =~= ""@);
    }
    if crate::text::str_eq(name, "") {
        None
    } else {
        Some(name.to_owned())
    }
}

/// The services that run besides the protocol for clients. A web port of 0 switches the web server
/// off, and with it the answers to searching clients, the browser and the icon.
#[derive(Debug, Clone)]
pub struct ServicePlan {
    pub web: bool,
    pub discovery: bool,
    /// The page to be opened in the browser.
    pub browser: Option<String>,
    /// The page that the icon leads to.
    pub tray: Option<String>,
}

/// The address of the page on this machine.
pub open spec fn local_page(port: nat) -> Seq<char> {
    "http://127.0.0.1:"@ + digits(port)
}

fn local_url(port: u16) -> (r: String)
    ensures
        r@ == local_page(port as nat),
{
    let mut out: String = "http://127.0.0.1:".to_owned();
    push_number(&mut out, port as u64);
    out
}

/// The services that run.
pub fn plan_services(web_port: u16, auto_browser: bool, with_tray: bool) -> (r: ServicePlan)
    ensures
        r.web == (web_port > 0),
        r.discovery == (web_port > 0),
        text_of(r.browser) == if web_port > 0 && auto_browser {
            Some(local_page(web_port as nat))
        } else {
            None
        },
        text_of(r.tray) == if web_port > 0 && with_tray {
            Some(local_page(web_port as nat))
        } else {
            None
        },
{
    let on = web_port > 0;
    ServicePlan {
        web: on,
        discovery: on,
        browser: if on && auto_browser {
            Some(local_url(web_port))
        } else {
            None
        },
        tray: if on && with_tray {
            Some(local_url(web_port))
        } else {
            None
        },
    }
}

/// A command that connects a network drive, up to the user.
pub open spec fn drive_command(ip: Seq<char>, port: nat) -> Seq<char> {
    "net use Z: \\\\"@ + ip + "@"@ + digits(port) + "\\DavWWWRoot /user:"@
}

fn push_drive_command(out: &mut String, ip: &str, port: u16)
    ensures
        final(out)@ == old(out)@ + drive_command(ip@, port as nat),
{
    let ghost start = out@;
    out.append("net use Z: \\\\");
    out.append(ip);
    out.append("@");
    push_number(out, port as u64);
    out.append("\\DavWWWRoot /user:");
    proof {
        assert(out@ =~= start + drive_command(ip@, port as nat));
    }
}

/// The commands that connect a network drive: with an account, and in simple mode with the PIN too.
pub fn drive_commands(simple_mode: bool, ip: &str, port: u16, pin: &str) -> (r: (
    String,
    Option<String>,
))
    ensures
        r.0@ == drive_command(ip@, port as nat) + "用户名 密码"@,
        text_of(r.1) == if simple_mode {
            Some(drive_command(ip@, port as nat) + "share "@ + pin@)
        } else {
            None
        },
{
    let mut account: String = String::new();
    push_drive_command(&mut account, ip, port);
    account.append("用户名 密码");
    proof {
        assert(account@ =~= drive_command(ip@, port as nat) + "用户名 密码"@);
    }
    if simple_mode {
        let mut by_pin: String = String::new();
        push_drive_command(&mut by_pin, ip, port);
        by_pin.append("share ");
        by_pin.append(pin);
        proof {
            assert(by_pin@ =~= drive_command(ip@, port as nat) + "share "@ + pin@);
        }
        (account, Some(by_pin))
    } else {
        (account, None)
    }
}

/// What is told of a port that is in use.
pub fn port_in_use(tcp: bool, port: u16, reason: &str) -> (r: String)
    ensures
        r@ == (if tcp {
            "TCP 端口 "@
        } else {
            "UDP 端口 "@
        }) + digits(port as nat) + (if tcp {
            " 已被占用，无法启动服务。"@
        } else {
            " 已被占用，无法启动 LSP 服务。"@
        })
            + "\n请关闭占用该端口的程序，或在 lanshare.toml 中更换端口。\n\n详细错误: "@
            + reason@,
{
    let mut out: String = if tcp {
        "TCP 端口 ".to_owned()
    } else {
        "UDP 端口 ".to_owned()
    };
    push_number(&mut out, port as u64);
    out.append(
        if tcp {
            " 已被占用，无法启动服务。"
        } else {
            " 已被占用，无法启动 LSP 服务。"
        },
    );
    out.append(
        "\n请关闭占用该端口的程序，或在 lanshare.toml 中更换端口。\n\n详细错误: ",
    );
    out.append(reason);
    out
}

/// Where the shared directory lies: an absolute path as it is, a relative one below the directory
/// of the program, if that is known.
#[derive(Debug, Clone, Copy, PartialEq, Eq, Structural)]
pub enum DirBase {
    AsGiven,
    BelowProgram,
}

/// Where the shared directory lies.
pub fn resolve_shared_dir(absolute: bool, program_known: bool) -> (r: DirBase)
    ensures
        r == if !absolute && program_known {
            DirBase::BelowProgram
        } else {
            DirBase::AsGiven
        },
{
    if absolute {
        DirBase::AsGiven
    } else if program_known {
        DirBase::BelowProgram
    } else {
        DirBase::AsGiven
    }
}

/// The page of this machine is reached on the machine itself, at its port.
pub proof fn law_page_of_this_machine(port: nat)
    ensures
        "http://127.0.0.1:"@.is_prefix_of(local_page(port)),
        digits(port).is_suffix_of(local_page(port)),
        local_page(port).len() == "http://127.0.0.1:"@.len() + digits(port).len(),
{
    let p = "http://127.0.0.1:"@;
    let u = local_page(port);
    let d = digits(port);
    assert(u.subrange(0, p.len() as int) =~= p);
    assert(u.subrange(u.len() - d.len(), u.len() as int) =~= d);
}

/// The command that connects a drive names the address and the port of the server.
pub proof fn law_drive_command_names_the_server(ip: Seq<char>, port: nat)
    ensures
        holds_part(drive_command(ip, port), ip + "@"@ + digits(port)),
{
    let a = "net use Z: \\\\"@;
    let b = "\\DavWWWRoot /user:"@;
    let part = ip + "@"@ + digits(port);
    lemma_holds_middle(a, part, b);
    assert(a + part + b =~= drive_command(ip, port));
}

} // verus!
