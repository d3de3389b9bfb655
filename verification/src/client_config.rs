//! The configuration of a mount client: from the command line, from its file, or from the user.
use vstd::prelude::*;
use vstd::utf8::{decode_utf8, valid_utf8};
use crate::encoding::{
    base64_bytes, base64_decode, base64_encode, base64_text, lossy_text, utf8_lossy,
};
use crate::lsp_client::LspAuth;
use crate::text::{
    begins_with, cut, cut_at, digits, drop_chars, number_in, parse_number, push_number,
    str_eq, text_of,
};

verus! {

/// A server that was found by a client.
#[derive(Debug, Clone)]
pub struct DiscoveredServer {
    pub name: String,
    pub ip: String,
    pub web_port: u16,
    pub lsp_port: u16,
    pub version: String,
    /// PIN if true, accounts if false.
    pub simple_mode: bool,
}

/// An address and a port.
pub open spec fn address(ip: Seq<char>, port: nat) -> Seq<char> {
    ip + ":"@ + digits(port)
}

/// An address and a port.
pub fn join_port(ip: &str, port: u16) -> (r: String)
    ensures
        r@ == address(ip@, port as nat),
{
    let mut out: String = ip.to_owned();
    out.append(":");
    push_number(&mut out, port as u64);
    out
}

impl DiscoveredServer {
    /// The address of the server.
    pub fn addr(&self) -> (r: String)
        ensures
            r@ == address(self.ip@, self.web_port as nat),
    {
        join_port(self.ip.as_str(), self.web_port)
    }
}

/// The addresses of servers.
pub open spec fn addresses(v: Seq<DiscoveredServer>) -> Seq<Seq<char>> {
    v.map_values(|s: DiscoveredServer| address(s.ip@, s.web_port as nat))
}

/// Takes in a server that answered, under the address that the answer came from, unless a server
/// with that address is known.
pub fn add_server(known: &mut Vec<DiscoveredServer>, info: DiscoveredServer, ip: String)
    ensures
        addresses(final(known)@) == if addresses(old(known)@).contains(
            address(ip@, info.web_port as nat),
        ) {
            addresses(old(known)@)
        } else {
            addresses(old(known)@).push(address(ip@, info.web_port as nat))
        },
        final(known)@ == old(known)@ || (final(known)@.len() == old(known)@.len() + 1 && final(known)@.drop_last() == old(known)@ && final(known)@.last() == (DiscoveredServer { ip, ..info })),
{
    let addr = join_port(ip.as_str(), info.web_port);
    let ghost a = addresses(known@);
    let mut i: usize = 0;
    while i < known.len()
        invariant
            i <= known@.len(),
            known@ == old(known)@,
            a == addresses(known@),
            addr@ == address(ip@, info.web_port as nat),
            forall|k: int| 0 <= k < i ==> #[trigger] a[k] != addr@,
        decreases known@.len() - i,
    {
        let other = known[i].addr();
        proof {
            assert(a[i as int] == other@);
        }
        if str_eq(other.as_str(), addr.as_str()) {
            return;
        }
        i = i + 1;
    }
    known.push(
        DiscoveredServer {
            name: info.name,
            ip,
            web_port: info.web_port,
            lsp_port: info.lsp_port,
            version: info.version,
            simple_mode: info.simple_mode,
        },
    );
    proof {
        assert(known@.drop_last() =~= old(known)@);
        assert(addresses(known@) =~= a.push(addr@));
    }
}

/// However often servers answer, no address is listed twice.
pub proof fn law_no_server_twice(a: Seq<Seq<char>>, x: Seq<char>)
    requires
        a.no_duplicates(),
    ensures
        (if a.contains(x) {
            a
        } else {
            a.push(x)
        }).no_duplicates(),
{
}

/// The configuration file of a client.
#[derive(Debug, Clone)]
pub struct ClientConfig {
    pub server: String,
    pub lsp_port: u16,
    pub pin: Option<String>,
    pub username: Option<String>,
    pub password: Option<String>,
    pub token: Option<String>,
    pub mount: String,
    pub label: String,
}

pub fn default_server() -> (r: String)
    ensures
        r@ == "127.0.0.1:8080"@,
{
    "127.0.0.1:8080".to_owned()
}

pub fn default_lsp_port() -> (r: u16)
    ensures
        r == 9820,
{
    9820
}

pub fn default_label() -> (r: String)
    ensures
        r@ == "LanShare"@,
{
    "LanShare".to_owned()
}

/// Where a client mounts if nothing else is said: on Windows at any free drive, elsewhere in the
/// home directory, or in `/tmp` for a user without one.
pub fn default_mount(windows: bool, home: &Option<String>) -> (r: String)
    ensures
        r@ == if windows {
            "*"@
        } else {
            (match text_of(*home) {
                Some(h) => h,
                None => "/tmp"@,
            }) + "/LanShare"@
        },
{
    if windows {
        return "*".to_owned();
    }
    let mut out = match home {
        Some(h) => h.clone(),
        None => "/tmp".to_owned(),
    };
    out.append("/LanShare");
    out
}

/// A secret as it is written to the file where the system offers no protection: as it is. The file
/// itself is readable for its owner alone.
pub fn protect_secret(plain: &str) -> (r: String)
    ensures
        r@ == plain@,
{
    plain.to_owned()
}

/// A secret as it is read from the file where the system offers no protection.
pub fn unprotect_secret(value: &str) -> (r: String)
    ensures
        r@ == value@,
{
    value.to_owned()
}

/// The bytes in a sealed secret: `enc:` and Base64.
pub open spec fn sealed_in(value: Seq<char>) -> Option<Seq<u8>> {
    if "enc:"@.is_prefix_of(value) {
        base64_bytes(value.skip("enc:"@.len() as int))
    } else {
        None
    }
}

/// A secret as it is written to the file where the system seals it: `enc:` and the sealed bytes in
/// Base64. Where the system could not seal it, it is written as it is.
pub fn seal_secret(plain: &str, sealed: Option<Vec<u8>>) -> (r: String)
    ensures
        match sealed {
            Some(b) => r@ == "enc:"@ + base64_text(b@) && sealed_in(r@) == Some(b@),
            None => r@ == plain@,
        },
{
    match sealed {
        Some(b) => {
            let mut out: String = "enc:".to_owned();
            let text = base64_encode(b.as_slice());
            out.append(text.as_str());
            proof {
                let p = "enc:"@;
                assert(out@.subrange(0, p.len() as int) =~= p);
                assert(out@.skip(p.len() as int) =~= text@);
            }
            out
        },
        None => plain.to_owned(),
    }
}

/// The sealed bytes in a secret that was read from the file, if it is sealed.
pub fn sealed_bytes(value: &str) -> (r: Option<Vec<u8>>)
    ensures
        match r {
            Some(b) => sealed_in(value@) == Some(b@),
            None => sealed_in(value@) is None,
        },
{
    if begins_with(value, "enc:") {
        proof {
            reveal_strlit("enc:");
            assert("enc:"@.len() == 4);
            assert(value@.len() >= 4);
        }
        let b64 = drop_chars(value, 4);
        base64_decode(b64.as_str())
    } else {
        None
    }
}

/// A secret after the system unsealed it; as it was read, where it could not be unsealed.
pub fn open_secret(value: &str, unsealed: Option<Vec<u8>>) -> (r: String)
    ensures
        r@ == match unsealed {
            Some(b) => lossy_text(b@),
            None => value@,
        },
        unsealed matches Some(b) ==> (valid_utf8(b@) ==> r@ == decode_utf8(b@)),
{
    match unsealed {
        Some(b) => utf8_lossy(b.as_slice()),
        None => value.to_owned(),
    }
}

/// The options of the command line.
#[derive(Debug, Clone)]
pub struct Args {
    pub server: Option<String>,
    pub lsp_port: Option<u16>,
    pub pin: Option<String>,
    pub username: Option<String>,
    pub password: Option<String>,
    pub token: Option<String>,
    pub mount: Option<String>,
    pub label: Option<String>,
    pub no_interactive: bool,
    pub foreground: bool,
}

/// What a client works with.
#[derive(Debug, Clone)]
pub struct ResolvedConfig {
    pub server: String,
    pub lsp_port: u16,
    pub pin: Option<String>,
    pub username: Option<String>,
    pub password: Option<String>,
    pub token: Option<String>,
    pub mount: String,
    pub label: String,
}

pub struct ConfigView {
    pub server: Seq<char>,
    pub lsp_port: u16,
    pub pin: Option<Seq<char>>,
    pub username: Option<Seq<char>>,
    pub password: Option<Seq<char>>,
    pub token: Option<Seq<char>>,
    pub mount: Seq<char>,
    pub label: Seq<char>,
}

impl View for ResolvedConfig {
    type V = ConfigView;

    open spec fn view(&self) -> ConfigView {
        ConfigView {
            server: self.server@,
            lsp_port: self.lsp_port,
            pin: text_of(self.pin),
            username: text_of(self.username),
            password: text_of(self.password),
            token: text_of(self.token),
            mount: self.mount@,
            label: self.label@,
        }
    }
}

/// A text, or another where there is none.
pub open spec fn text_or(o: Option<String>, other: Seq<char>) -> Seq<char> {
    match o {
        Some(s) => s@,
        None => other,
    }
}

/// The part of an address before its first colon.
pub open spec fn host_of(server: Seq<char>) -> Seq<char> {
    match cut_at(server, ':') {
        Some(p) => p.0,
        None => server,
    }
}

/// The configuration that the command line gives, if it says who the user is.
pub open spec fn from_args(args: Args, mount: Seq<char>) -> Option<ConfigView> {
    if args.pin is Some || args.username is Some || args.token is Some {
        Some(
            ConfigView {
                server: text_or(args.server, "127.0.0.1:8080"@),
                lsp_port: if args.lsp_port is Some {
                    args.lsp_port->0
                } else {
                    9820
                },
                pin: text_of(args.pin),
                username: text_of(args.username),
                password: text_of(args.password),
                token: text_of(args.token),
                mount: text_or(args.mount, mount),
                label: text_or(args.label, "LanShare"@),
            },
        )
    } else {
        None
    }
}

/// The configuration that the file gives, if it says who the user is. What the command line says
/// of the server, the port, the mount point and the label counts before the file.
pub open spec fn from_file(args: Args, cfg: Option<ClientConfig>, mount: Seq<char>) -> Option<
    ConfigView,
> {
    match cfg {
        Some(c) => if c.pin is Some || c.username is Some || c.token is Some {
            Some(
                ConfigView {
                    server: text_or(args.server, c.server@),
                    lsp_port: if args.lsp_port is Some {
                        args.lsp_port->0
                    } else {
                        c.lsp_port
                    },
                    pin: text_of(c.pin),
                    username: text_of(c.username),
                    password: text_of(c.password),
                    token: text_of(c.token),
                    mount: text_or(
                        args.mount,
                        if c.mount@.len() == 0 {
                            mount
                        } else {
                            c.mount@
                        },
                    ),
                    label: text_or(args.label, c.label@),
                },
            )
        } else {
            None
        },
        None => None,
    }
}

impl ResolvedConfig {
    /// The address for the connection: the host of the server, and the port for clients.
    pub fn lsp_addr(&self) -> (r: String)
        ensures
            r@ == address(host_of(self.server@), self.lsp_port as nat),
    {
        match cut(self.server.as_str(), ':') {
            Some(p) => join_port(p.0.as_str(), self.lsp_port),
            None => join_port(self.server.as_str(), self.lsp_port),
        }
    }

    /// Does the configuration say who the user is: by a PIN, by a name and a password, or by a
    /// token?
    pub fn has_auth(&self) -> (r: bool)
        ensures
            r == (self@.pin is Some || (self@.username is Some && self@.password is Some)
                || self@.token is Some),
    {
        self.pin.is_some() || (self.username.is_some() && self.password.is_some())
            || self.token.is_some()
    }

    /// The configuration from the command line or, if that does not say who the user is, from the
    /// file. Where neither does, the user has to be asked (nothing comes back), unless that is
    /// ruled out. `mount` is where to mount if nothing else is said.
    pub fn resolve(args: Args, cfg: Option<ClientConfig>, mount: String) -> (r: Result<
        Option<Self>,
        String,
    >)
        ensures
            match r {
                Ok(Some(c)) => Some(c@) == if from_args(args, mount@) is Some {
                    from_args(args, mount@)
                } else {
                    from_file(args, cfg, mount@)
                },
                Ok(None) => from_args(args, mount@) is None && from_file(args, cfg, mount@) is None
                    && !args.no_interactive,
                Err(e) => from_args(args, mount@) is None && from_file(args, cfg, mount@) is None
                    && args.no_interactive && e@ == "没有配置且 --no-interactive 已设置"@,
            },
    {
        if args.pin.is_some() || args.username.is_some() || args.token.is_some() {
            return Ok(
                Some(
                    ResolvedConfig {
                        server: match args.server {
                            Some(s) => s,
                            None => default_server(),
                        },
                        lsp_port: match args.lsp_port {
                            Some(p) => p,
                            None => default_lsp_port(),
                        },
                        pin: args.pin,
                        username: args.username,
                        password: args.password,
                        token: args.token,
                        mount: match args.mount {
                            Some(m) => m,
                            None => mount,
                        },
                        label: match args.label {
                            Some(l) => l,
                            None => default_label(),
                        },
                    },
                ),
            );
        }
        if let Some(c) = cfg {
            if c.pin.is_some() || c.username.is_some() || c.token.is_some() {
                proof {
                    reveal_strlit("");
                    assert(c.mount@.len() == 0 ==> c.mount@ =~= ""@);
                }
                return Ok(
                    Some(
                        ResolvedConfig {
                            server: match args.server {
                                Some(s) => s,
                                None => c.server,
                            },
                            lsp_port: match args.lsp_port {
                                Some(p) => p,
                                None => c.lsp_port,
                            },
                            pin: c.pin,
                            username: c.username,
                            password: c.password,
                            token: c.token,
                            mount: match args.mount {
                                Some(m) => m,
                                None => if str_eq(c.mount.as_str(), "") {
                                    mount
                                } else {
                                    c.mount
                                },
                            },
                            label: match args.label {
                                Some(l) => l,
                                None => c.label,
                            },
                        },
                    ),
                );
            }
        }
        if args.no_interactive {
            return Err("没有配置且 --no-interactive 已设置".to_owned());
        }
        Ok(None)
    }

    /// The configuration that the user gave, if they did not give up.
    pub fn resolve_answer(answer: Option<Self>) -> (r: Result<Self, String>)
        ensures
            match r {
                Ok(c) => answer == Some(c),
                Err(e) => answer is None && e@ == "用户取消了操作"@,
            },
    {
        match answer {
            Some(c) => Ok(c),
            None => Err("用户取消了操作".to_owned()),
        }
    }

    /// How the client shows who it is: by the PIN if there is one, else by name and password. A
    /// token alone is not enough for this kind of connection.
    pub fn lsp_auth(&self) -> (r: Option<LspAuth>)
        ensures
            match r {
                Some(LspAuth::Pin(p)) => self@.pin == Some(p@),
                Some(LspAuth::Account { username, password }) => self@.pin is None && self@.username
                    == Some(username@) && self@.password == Some(password@),
                None => self@.pin is None && (self@.username is None || self@.password is None),
            },
    {
        match &self.pin {
            Some(p) => Some(LspAuth::Pin(p.clone())),
            None => match (&self.username, &self.password) {
                (Some(u), Some(p)) => Some(
                    LspAuth::Account { username: u.clone(), password: p.clone() },
                ),
                _ => None,
            },
        }
    }
}

/// A line of the file that stands there only if it has a value.
pub open spec fn optional_line(name: Seq<char>, value: Option<Seq<char>>) -> Seq<char> {
    match value {
        Some(v) => name + " = \""@ + v + "\"\n"@,
        None => Seq::<char>::empty(),
    }
}

/// The lines of the file before the mount point.
pub open spec fn config_head(c: ConfigView) -> Seq<char> {
    "# LanShare 客户端配置（自动生成，可手动编辑）\n\nserver = \""@ + c.server
        + "\"\nlsp_port = "@ + digits(c.lsp_port as nat) + "\n"@ + optional_line("pin"@, c.pin)
        + optional_line("username"@, c.username) + optional_line("password"@, c.password)
        + optional_line("token"@, c.token)
}

/// The text of the configuration file. Values stand there as they are.
pub open spec fn config_file(c: ConfigView) -> Seq<char> {
    config_head(c) + "mount = \""@ + c.mount + "\"\nlabel = \""@ + c.label + "\"\n"@
}

fn push_line(out: &mut String, name: &str, value: &Option<String>)
    ensures
        final(out)@ == old(out)@ + optional_line(name@, text_of(*value)),
{
    let ghost start = out@;
    match value {
        Some(v) => {
            out.append(name);
            out.append(" = \"");
            out.append(v.as_str());
            out.append("\"\n");
        },
        None => {},
    }
    proof {
        assert(out@ =~= start + optional_line(name@, text_of(*value)));
    }
}

/// The bytes that the system made of the secrets of a client, as far as it sealed them.
#[derive(Debug)]
pub struct SealedSecrets {
    pub pin: Option<Vec<u8>>,
    pub password: Option<Vec<u8>>,
    pub token: Option<Vec<u8>>,
}

/// A secret as it stands in the file: sealed, where the system sealed it.
pub open spec fn secret_text(plain: Option<Seq<char>>, sealed: Option<Vec<u8>>) -> Option<Seq<char>> {
    match plain {
        Some(p) => Some(
            match sealed {
                Some(b) => "enc:"@ + base64_text(b@),
                None => p,
            },
        ),
        None => None,
    }
}

/// The settings with the secrets as they stand in the file.
pub open spec fn sealed_view(c: ConfigView, sealed: SealedSecrets) -> ConfigView {
    ConfigView {
        pin: secret_text(c.pin, sealed.pin),
        password: secret_text(c.password, sealed.password),
        token: secret_text(c.token, sealed.token),
        ..c
    }
}

fn seal_option(plain: &Option<String>, sealed: Option<Vec<u8>>) -> (r: Option<String>)
    ensures
        text_of(r) == secret_text(text_of(*plain), sealed),
{
    match plain {
        Some(p) => Some(seal_secret(p.as_str(), sealed)),
        None => None,
    }
}

/// The text of the configuration file of a client, where the system offers no protection.
pub fn save_client_config(cfg: &ResolvedConfig) -> (r: String)
    ensures
        r@ == config_file(cfg@),
{
    let none = SealedSecrets { pin: None, password: None, token: None };
    proof {
        assert(sealed_view(cfg@, none) == cfg@);
    }
    save_sealed_config(cfg, none)
}

/// The text of the configuration file of a client whose secrets the system has sealed.
pub fn save_sealed_config(cfg: &ResolvedConfig, sealed: SealedSecrets) -> (r: String)
    ensures
        r@ == config_file(sealed_view(cfg@, sealed)),
{
    let ghost c = sealed_view(cfg@, sealed);
    let mut out: String =
        "# LanShare 客户端配置（自动生成，可手动编辑）\n\nserver = \"".to_owned();
    out.append(cfg.server.as_str());
    out.append("\"\nlsp_port = ");
    push_number(&mut out, cfg.lsp_port as u64);
    out.append("\n");
    push_line(&mut out, "pin", &seal_option(&cfg.pin, sealed.pin));
    push_line(&mut out, "username", &cfg.username);
    push_line(&mut out, "password", &seal_option(&cfg.password, sealed.password));
    push_line(&mut out, "token", &seal_option(&cfg.token, sealed.token));
    proof {
        assert(out@ =~= config_head(c));
    }
    out.append("mount = \"");
    out.append(cfg.mount.as_str());
    out.append("\"\nlabel = \"");
    out.append(cfg.label.as_str());
    out.append("\"\n");
    proof {
        assert(out@ =~= config_file(c));
    }
    out
}

/// The place that the user chose among `n`, if the answer is a number from 1 to `n`.
pub fn choose_server(input: &str, n: usize) -> (r: Option<usize>)
    ensures
        match number_in(input@, n as nat) {
            Some(k) => if k >= 1 {
                r == Some((k - 1) as usize)
            } else {
                r is None
            },
            None => r is None,
        },
        r matches Some(i) ==> i < n,
{
    match parse_number(input, n as u64) {
        Some(k) => {
            if k >= 1 {
                Some((k - 1) as usize)
            } else {
                None
            }
        },
        None => None,
    }
}

/// The two ways in which a user shows who they are.
#[derive(Debug, Clone, Copy, PartialEq, Eq, Structural)]
pub enum AuthMode {
    Pin,
    Account,
}

/// The way in which a user shows who they are: that of the server if it is known, else the one that
/// the user chose. Where neither is, the user has to be asked again.
pub fn auth_mode(known_mode: Option<bool>, input: &str) -> (r: Option<AuthMode>)
    ensures
        r == match known_mode {
            Some(true) => Some(AuthMode::Pin),
            Some(false) => Some(AuthMode::Account),
            None => if input@ == "1"@ {
                Some(AuthMode::Pin)
            } else if input@ == "2"@ {
                Some(AuthMode::Account)
            } else {
                None
            },
        },
{
    match known_mode {
        Some(true) => Some(AuthMode::Pin),
        Some(false) => Some(AuthMode::Account),
        None => {
            if str_eq(input, "1") {
                Some(AuthMode::Pin)
            } else if str_eq(input, "2") {
                Some(AuthMode::Account)
            } else {
                None
            }
        },
    }
}

/// What a user answered.
#[derive(Debug, Clone)]
pub struct Answers {
    pub pin: String,
    pub username: String,
    pub password: String,
    pub mount: String,
    pub label: String,
}

/// Is something missing from the answers?
pub open spec fn missing_answer(mode: AuthMode, a: Answers) -> Option<Seq<char>> {
    match mode {
        AuthMode::Pin => if a.pin@.len() == 0 {
            Some("PIN 不能为空"@)
        } else {
            None
        },
        AuthMode::Account => if a.username@.len() == 0 {
            Some("用户名不能为空"@)
        } else if a.password@.len() == 0 {
            Some("密码不能为空"@)
        } else {
            None
        },
    }
}

fn is_empty(s: &str) -> (r: bool)
    ensures
        r == (s@.len() == 0),
{
    proof {
        reveal_strlit("");
        assert(s@.len() == 0 ==> s@ =~= ""@);
    }
    str_eq(s, "")
}

/// The configuration that a user's answers give, or what is missing. An empty mount point stands for
/// the usual one, `usual_mount`, and an empty label for `LanShare`.
pub fn interactive_auth(
    server: String,
    lsp_port: u16,
    mode: AuthMode,
    a: Answers,
    usual_mount: String,
) -> (r: Result<ResolvedConfig, String>)
    ensures
        match r {
            Ok(c) => missing_answer(mode, a) is None && c@ == (ConfigView {
                server: server@,
                lsp_port,
                pin: if mode == AuthMode::Pin {
                    Some(a.pin@)
                } else {
                    None
                },
                username: if mode == AuthMode::Account {
                    Some(a.username@)
                } else {
                    None
                },
                password: if mode == AuthMode::Account {
                    Some(a.password@)
                } else {
                    None
                },
                token: None,
                mount: if a.mount@.len() == 0 {
                    usual_mount@
                } else {
                    a.mount@
                },
                label: if a.label@.len() == 0 {
                    "LanShare"@
                } else {
                    a.label@
                },
            }),
            Err(e) => missing_answer(mode, a) == Some(e@),
        },
{
    let label = if is_empty(a.label.as_str()) {
        "LanShare".to_owned()
    } else {
        a.label
    };
    let mount = if is_empty(a.mount.as_str()) {
        usual_mount
    } else {
        a.mount
    };
    match mode {
        AuthMode::Pin => {
            if is_empty(a.pin.as_str()) {
                return Err("PIN 不能为空".to_owned());
            }
            Ok(
                ResolvedConfig {
                    server,
                    lsp_port,
                    pin: Some(a.pin),
                    username: None,
                    password: None,
                    token: None,
                    mount,
                    label,
                },
            )
        },
        AuthMode::Account => {
            if is_empty(a.username.as_str()) {
                return Err("用户名不能为空".to_owned());
            }
            if is_empty(a.password.as_str()) {
                return Err("密码不能为空".to_owned());
            }
            Ok(
                ResolvedConfig {
                    server,
                    lsp_port,
                    pin: None,
                    username: Some(a.username),
                    password: Some(a.password),
                    token: None,
                    mount,
                    label,
                },
            )
        },
    }
}

/// Is the configuration to be saved? It is unless the user says no.
pub fn wants_save(answer: &str) -> (r: bool)
    ensures
        r == !(answer@ == "n"@ || answer@ == "N"@),
{
    !(str_eq(answer, "n") || str_eq(answer, "N"))
}

/// What the command line says of the user counts before the file, whatever the file says.
pub proof fn law_command_line_first(args: Args, cfg: Option<ClientConfig>, mount: Seq<char>)
    requires
        args.pin is Some || args.username is Some || args.token is Some,
    ensures
        from_args(args, mount) is Some,
        from_args(args, mount)->0.pin == text_of(args.pin),
        from_args(args, mount)->0.username == text_of(args.username),
        from_args(args, mount)->0.token == text_of(args.token),
{
}

/// What the command line leaves open comes from the file, and what both leave open has its usual
/// value; who the user is comes from one of them as a whole, and without a PIN, a name or a token
/// from neither.
pub proof fn law_where_settings_come_from(args: Args, c: ClientConfig, mount: Seq<char>)
    ensures
        args.pin is None && args.username is None && args.token is None ==> from_args(
            args,
            mount,
        ) is None,
        c.pin is None && c.username is None && c.token is None ==> from_file(
            args,
            Some(c),
            mount,
        ) is None,
        from_file(args, None, mount) is None,
        from_args(args, mount) matches Some(r) ==> {
            &&& r.password == text_of(args.password)
            &&& args.server matches Some(s) ==> r.server == s@
            &&& args.server is None ==> r.server == "127.0.0.1:8080"@
            &&& args.lsp_port matches Some(p) ==> r.lsp_port == p
            &&& args.lsp_port is None ==> r.lsp_port == 9820
            &&& args.mount matches Some(m) ==> r.mount == m@
            &&& args.mount is None ==> r.mount == mount
            &&& args.label matches Some(l) ==> r.label == l@
        },
        from_file(args, Some(c), mount) matches Some(r) ==> {
            &&& r.pin == text_of(c.pin) && r.username == text_of(c.username) && r.password
                == text_of(c.password) && r.token == text_of(c.token)
            &&& args.server matches Some(s) ==> r.server == s@
            &&& args.server is None ==> r.server == c.server@
            &&& args.lsp_port matches Some(p) ==> r.lsp_port == p
            &&& args.lsp_port is None ==> r.lsp_port == c.lsp_port
            &&& args.mount matches Some(m) ==> r.mount == m@
            &&& args.mount is None && c.mount@.len() > 0 ==> r.mount == c.mount@
            &&& args.mount is None && c.mount@.len() == 0 ==> r.mount == mount
            &&& args.label matches Some(l) ==> r.label == l@
            &&& args.label is None ==> r.label == c.label@
        },
{
}

/// The host of an address is what stands before its first colon.
pub proof fn law_host_of_an_address(host: Seq<char>, port: Seq<char>)
    requires
        !host.contains(':'),
    ensures
        host_of(host.push(':') + port) == host,
        host_of(host) == host,
{
    let s = host.push(':') + port;
    assert(s[host.len() as int] == ':');
    assert(s.contains(':'));
    crate::text::lemma_first_of(s, ':');
    let i = crate::text::first_of(s, ':');
    if i < host.len() {
        assert(host[i] == ':');
        assert(host.contains(':'));
    }
    if i > host.len() {
        assert(s[host.len() as int] != ':');
    }
    assert(s.take(i) =~= host);
}

/// Answers are complete with a PIN, or with a name and a password, as the server asks for.
pub proof fn law_complete_answers(a: Answers)
    ensures
        missing_answer(AuthMode::Pin, a) is None <==> a.pin@.len() > 0,
        missing_answer(AuthMode::Account, a) is None <==> a.username@.len() > 0 && a.password@.len()
            > 0,
{
}

/// A secret that the system sealed stands in the file sealed, and the sealed bytes are read back from
/// it; other settings are written as they are.
pub proof fn law_sealed_secrets(c: ConfigView, sealed: SealedSecrets, plain: Seq<char>, b: Vec<u8>)
    requires
        base64_bytes(base64_text(b@)) == Some(b@),
    ensures
        sealed_in(secret_text(Some(plain), Some(b))->0) == Some(b@),
        secret_text(Some(plain), None) == Some(plain),
        secret_text(None, Some(b)) is None,
        ({
            let d = sealed_view(c, sealed);
            &&& d.server == c.server && d.lsp_port == c.lsp_port && d.username == c.username
                && d.mount == c.mount && d.label == c.label
            &&& d.pin == secret_text(c.pin, sealed.pin)
            &&& d.password == secret_text(c.password, sealed.password)
            &&& d.token == secret_text(c.token, sealed.token)
        }),
{
    let p = "enc:"@;
    let v = p + base64_text(b@);
    assert(v.subrange(0, p.len() as int) =~= p);
    assert(v.skip(p.len() as int) =~= base64_text(b@));
}

} // verus!
