use lanshare::client_config::{
    add_server, auth_mode, choose_server, default_label, default_lsp_port, default_mount,
    default_server, interactive_auth, open_secret, protect_secret, save_client_config, save_sealed_config, SealedSecrets,
    seal_secret, sealed_bytes, unprotect_secret, wants_save, Answers, Args, AuthMode,
    ClientConfig, DiscoveredServer, ResolvedConfig,
};
use lanshare::config::Config;
use lanshare::discovery::{
    discover_magic, discovered, is_discover_request, list_servers, ServerInfo, DISCOVERY_PORT,
};
use lanshare::icon::{generate_icon_bytes, is_arrow_pixel};
use lanshare::lsp_client::{
    MountOp,
    basename, health_news, is_transient, mount_flags, probe_interval, stat_missing, Ending, HealthNews, LspAuth,
    LspShareClient, MountFlag, Retry, Watch,
};
use lanshare::startup::{
    configured_name, device_name, drive_commands, plan_services, port_in_use, resolve_shared_dir,
    DirBase,
};
use lanshare::tray::{tooltip, tooltip_units, tray_action, TrayAction};

fn s(x: &str) -> Option<String> {
    Some(x.to_string())
}

fn server(ip: &str, port: u16) -> DiscoveredServer {
    DiscoveredServer {
        name: "n".into(),
        ip: ip.into(),
        web_port: port,
        lsp_port: 9820,
        version: "3".into(),
        simple_mode: true,
    }
}

fn args() -> Args {
    Args {
        server: None,
        lsp_port: None,
        pin: None,
        username: None,
        password: None,
        token: None,
        mount: None,
        label: None,
        no_interactive: false,
        foreground: false,
    }
}

fn file() -> ClientConfig {
    ClientConfig {
        server: "h:1".into(),
        lsp_port: 5,
        pin: s("9"),
        username: None,
        password: None,
        token: None,
        mount: String::new(),
        label: "L".into(),
    }
}

#[test]
fn servers_are_listed_once() {
    assert_eq!(server("10.0.0.1", 80).addr(), "10.0.0.1:80");
    let mut known = Vec::new();
    add_server(&mut known, server("x", 80), "10.0.0.1".into());
    add_server(&mut known, server("y", 80), "10.0.0.1".into());
    add_server(&mut known, server("x", 81), "10.0.0.1".into());
    let addrs: Vec<String> = known.iter().map(|k| k.addr()).collect();
    assert_eq!(addrs, vec!["10.0.0.1:80", "10.0.0.1:81"]);
}

#[test]
fn command_line_comes_first() {
    let a = Args { pin: s("1"), ..args() };
    let c = ResolvedConfig::resolve(a, Some(file()), "/m".into()).unwrap().unwrap();
    assert_eq!(
        (c.server.as_str(), c.lsp_port, c.pin.clone(), c.mount.as_str(), c.label.as_str()),
        ("127.0.0.1:8080", 9820, s("1"), "/m", "LanShare")
    );
    assert_eq!(c.lsp_addr(), "127.0.0.1:9820");
    assert!(c.has_auth());
    let a = Args { server: s("z:2"), ..args() };
    let c = ResolvedConfig::resolve(a, Some(file()), "/m".into()).unwrap().unwrap();
    assert_eq!((c.server.as_str(), c.lsp_port, c.mount.as_str()), ("z:2", 5, "/m"));
    let c = ResolvedConfig::resolve(args(), Some(ClientConfig { mount: "/x".into(), ..file() }), "/m".into());
    assert_eq!(c.unwrap().unwrap().mount, "/x");
    let empty = ClientConfig { pin: None, ..file() };
    assert!(ResolvedConfig::resolve(args(), Some(empty.clone()), "/m".into()).unwrap().is_none());
    let a = Args { no_interactive: true, ..args() };
    assert_eq!(
        ResolvedConfig::resolve(a, Some(empty), "/m".into()).unwrap_err(),
        "没有配置且 --no-interactive 已设置"
    );
    assert_eq!(ResolvedConfig::resolve_answer(None).unwrap_err(), "用户取消了操作");
}

#[test]
fn defaults() {
    assert_eq!(default_server(), "127.0.0.1:8080");
    assert_eq!(default_lsp_port(), 9820);
    assert_eq!(default_label(), "LanShare");
    assert_eq!(default_mount(true, &None), "*");
    assert_eq!(default_mount(false, &s("/home/a")), "/home/a/LanShare");
    assert_eq!(default_mount(false, &None), "/tmp/LanShare");
    let c = Config::default();
    assert_eq!((c.shared_dir.as_str(), c.lsp_port, c.webdav_port), ("./shared", 9820, 8080));
    assert_eq!((c.pin.as_str(), c.device_name.as_str(), c.auto_browser), ("123456", "", true));
    assert_eq!(DISCOVERY_PORT, 9999);
}

#[test]
fn who_the_client_is() {
    let base = ResolvedConfig {
        server: "h".into(),
        lsp_port: 1,
        pin: None,
        username: s("u"),
        password: s("p"),
        token: None,
        mount: "m".into(),
        label: "l".into(),
    };
    assert_eq!(base.lsp_addr(), "h:1");
    assert!(matches!(base.lsp_auth(), Some(LspAuth::Account { username, password }) if username == "u" && password == "p"));
    let pin = ResolvedConfig { pin: s("7"), ..base.clone() };
    assert!(matches!(pin.lsp_auth(), Some(LspAuth::Pin(p)) if p == "7"));
    let half = ResolvedConfig { password: None, ..base.clone() };
    assert!(half.lsp_auth().is_none() && !half.has_auth());
    let token = ResolvedConfig { token: s("t"), ..half };
    assert!(token.lsp_auth().is_none() && token.has_auth());
    assert_eq!(
        save_client_config(&pin),
        "# LanShare 客户端配置（自动生成，可手动编辑）\n\nserver = \"h\"\nlsp_port = 1\npin = \"7\"\nusername = \"u\"\npassword = \"p\"\nmount = \"m\"\nlabel = \"l\"\n"
    );
}

#[test]
fn secrets_are_written_sealed() {
    let cfg = ResolvedConfig {
        server: "h".into(),
        lsp_port: 1,
        pin: s("7"),
        username: s("a b"),
        password: s("p"),
        token: None,
        mount: "Z:".into(),
        label: "l".into(),
    };
    let sealed = SealedSecrets { pin: Some(vec![1, 2, 255]), password: None, token: Some(vec![1]) };
    assert_eq!(
        save_sealed_config(&cfg, sealed),
        "# LanShare 客户端配置（自动生成，可手动编辑）\n\nserver = \"h\"\nlsp_port = 1\npin = \"enc:AQL/\"\nusername = \"a b\"\npassword = \"p\"\nmount = \"Z:\"\nlabel = \"l\"\n"
    );
}

#[test]
fn secrets() {
    assert_eq!(unprotect_secret(&protect_secret("p")), "p");
    let sealed = seal_secret("p", Some(vec![1, 2, 255]));
    assert_eq!(sealed, "enc:AQL/");
    assert_eq!(sealed_bytes(&sealed), Some(vec![1, 2, 255]));
    assert_eq!(seal_secret("p", None), "p");
    assert_eq!(sealed_bytes("p"), None);
    assert_eq!(sealed_bytes("enc:?"), None);
    assert_eq!(open_secret("enc:AQL/", Some(b"secret".to_vec())), "secret");
    assert_eq!(open_secret("v", None), "v");
}

#[test]
fn questions_to_the_user() {
    assert_eq!(choose_server("2", 3), Some(1));
    assert_eq!(choose_server("0", 3), None);
    assert_eq!(choose_server("4", 3), None);
    assert_eq!(choose_server("x", 3), None);
    assert_eq!(auth_mode(Some(true), ""), Some(AuthMode::Pin));
    assert_eq!(auth_mode(Some(false), "1"), Some(AuthMode::Account));
    assert_eq!(auth_mode(None, "2"), Some(AuthMode::Account));
    assert_eq!(auth_mode(None, "3"), None);
    let a = |pin: &str, user: &str, pass: &str, label: &str| Answers {
        pin: pin.into(),
        username: user.into(),
        password: pass.into(),
        mount: "m".into(),
        label: label.into(),
    };
    let ask = |mode: AuthMode, x: Answers| interactive_auth("h:1".into(), 5, mode, x, "usual".into());
    assert_eq!(ask(AuthMode::Pin, a("", "", "", "")).unwrap_err(), "PIN 不能为空");
    assert_eq!(ask(AuthMode::Account, a("", "", "p", "")).unwrap_err(), "用户名不能为空");
    assert_eq!(ask(AuthMode::Account, a("", "u", "", "")).unwrap_err(), "密码不能为空");
    let c = ask(AuthMode::Pin, a("7", "u", "", "")).unwrap();
    assert_eq!((c.pin, c.username, c.label.as_str()), (s("7"), None, "LanShare"));
    let c = ask(AuthMode::Account, a("7", "u", "p", "X")).unwrap();
    assert_eq!((c.pin, c.username, c.password, c.label.as_str()), (None, s("u"), s("p"), "X"));
    assert_eq!(c.mount, "m");
    let empty = Answers { mount: String::new(), ..a("7", "", "", "") };
    assert_eq!(ask(AuthMode::Pin, empty).unwrap().mount, "usual");
    assert!(wants_save("") && wants_save("y") && !wants_save("n") && !wants_save("N"));
}

#[test]
fn discovery_packets() {
    let m = discover_magic();
    assert_eq!(m, b"LANSHARE_DISCOVER".to_vec());
    assert!(is_discover_request(&m));
    assert!(is_discover_request(b"LANSHARE_DISCOVER\n"));
    assert!(!is_discover_request(b"LANSHARE_DISCOVE"));
    assert!(!is_discover_request(b"lanshare_discover"));
    let info = ServerInfo {
        name: "box".into(),
        ip: "0.0.0.0".into(),
        web_port: 80,
        lsp_port: 9820,
        version: "3".into(),
        simple_mode: true,
    };
    let d = discovered(info, "10.0.0.9".into());
    assert_eq!(d.url, "http://10.0.0.9:80");
    assert_eq!(
        list_servers(&vec![d]),
        "{\"servers\":[{\"name\":\"box\",\"ip\":\"10.0.0.9\",\"web_port\":80,\"lsp_port\":9820,\"version\":\"3\",\"url\":\"http://10.0.0.9:80\"}]}"
    );
}

#[test]
fn connection_of_a_client() {
    let mut c = LspShareClient {
        server_addr: "h:1".into(),
        auth: LspAuth::Pin("1".into()),
        permission: "read, mkdir".into(),
        healthy: true,
    };
    assert!(c.can("mkdir") && !c.can("write") && c.is_writable());
    c.permission = "read".into();
    assert!(!c.is_writable());
    c.permission = "readwrite".into();
    assert!(c.is_writable() && c.can("delete"));
    assert_eq!(c.after_first(Ending::Refused), Retry::Settled);
    assert!(c.is_healthy());
    assert_eq!(c.after_first(Ending::Timeout), Retry::Reconnect);
    assert!(!c.is_healthy());
    c.after_second(Ending::Io);
    assert!(!c.is_healthy());
    c.after_second(Ending::Fine);
    assert!(c.is_healthy());
    c.after_first(Ending::Closed);
    assert_eq!(c.force_reconnect(Err("x".into())), Err("LSP3 重连失败: x".to_string()));
    assert!(!c.is_healthy());
    assert_eq!(c.force_reconnect(Ok(())), Ok(()));
    assert!(c.is_healthy());
    let rights = [
        (MountOp::Write, "write"),
        (MountOp::Create, "write"),
        (MountOp::Truncate, "write"),
        (MountOp::Overwrite, "write"),
        (MountOp::Remove, "delete"),
        (MountOp::MakeDir, "mkdir"),
        (MountOp::Rename, "rename"),
    ];
    for (op, right) in rights {
        for granted in ["write", "delete", "mkdir", "rename"] {
            c.permission = granted.into();
            assert_eq!(c.may(op), granted == right, "{:?} {}", op, granted);
        }
    }
    assert!(is_transient(Ending::Closed) && is_transient(Ending::RetransmitLimit));
    assert!(!is_transient(Ending::Fine));
    assert_eq!((probe_interval(true), probe_interval(false)), (5, 2));
    assert_eq!(health_news(false, true), HealthNews::Restored);
    assert_eq!(basename("/a/b//"), "b");
    assert_eq!(basename("/"), "");
    let missing = stat_missing("/a/b");
    assert_eq!((missing.name.as_str(), missing.exists, missing.mtime.as_str()), ("b", false, "0"));
    assert_eq!(mount_flags(true).len(), 4);
    assert_eq!(mount_flags(false)[4], MountFlag::ReadOnly);
    let mut w = Watch { last_ip: "a".into(), was_healthy: true };
    assert!(!w.see_address("a") && w.see_address("b") && !w.see_address("b"));
    assert_eq!(w.see_health(false), HealthNews::Lost);
    assert_eq!(w.see_health(false), HealthNews::Nothing);
}

#[test]
fn icon_bytes() {
    let v = generate_icon_bytes();
    assert_eq!(v.len(), 1150);
    assert_eq!(&v[..6], &[0, 0, 1, 0, 1, 0]);
    assert_eq!(u32::from_le_bytes([v[14], v[15], v[16], v[17]]), 1128);
    assert_eq!(u32::from_le_bytes([v[18], v[19], v[20], v[21]]), 22);
    assert_eq!(u32::from_le_bytes([v[22], v[23], v[24], v[25]]), 40);
    let px = |x: usize, y: usize| v[62 + ((15 - y) * 16 + x) * 4..][..4].to_vec();
    assert_eq!(px(0, 0), vec![0, 0, 0, 0]);
    assert_eq!(px(15, 15), vec![0, 0, 0, 0]);
    assert_eq!(px(1, 0), vec![0xE9, 0x7D, 0x2B, 0xFF]);
    assert_eq!(px(7, 3), vec![0xFF; 4]);
    assert_eq!(px(6, 3), vec![0xE9, 0x7D, 0x2B, 0xFF]);
    assert!(is_arrow_pixel(3, 7) && !is_arrow_pixel(2, 7) && is_arrow_pixel(9, 12) && !is_arrow_pixel(9, 13));
    assert!(v[1086..].iter().all(|b| *b == 0));
}

#[test]
fn starting_the_server() {
    assert_eq!(device_name(&s("a"), &s("b"), &s("c")), "a");
    assert_eq!(device_name(&None, &s("b"), &s("c")), "b");
    assert_eq!(device_name(&None, &None, &s("c")), "c");
    assert_eq!(device_name(&None, &None, &None), "LSP-Server");
    assert_eq!(configured_name(""), None);
    assert_eq!(configured_name("x"), s("x"));
    let p = plan_services(8080, true, false);
    assert!(p.web && p.discovery);
    assert_eq!((p.browser, p.tray), (s("http://127.0.0.1:8080"), None));
    let p = plan_services(0, true, true);
    assert!(!p.web && !p.discovery && p.browser.is_none() && p.tray.is_none());
    let (account, pin) = drive_commands(true, "10.0.0.1", 80, "9");
    assert_eq!(account, "net use Z: \\\\10.0.0.1@80\\DavWWWRoot /user:用户名 密码");
    assert_eq!(pin, s("net use Z: \\\\10.0.0.1@80\\DavWWWRoot /user:share 9"));
    assert!(drive_commands(false, "x", 1, "9").1.is_none());
    assert_eq!(
        port_in_use(false, 7, "E"),
        "UDP 端口 7 已被占用，无法启动 LSP 服务。\n请关闭占用该端口的程序，或在 lanshare.toml 中更换端口。\n\n详细错误: E"
    );
    assert!(port_in_use(true, 7, "E").starts_with("TCP 端口 7 已被占用，无法启动服务。\n"));
    assert_eq!(resolve_shared_dir(false, true), DirBase::BelowProgram);
    assert_eq!(resolve_shared_dir(true, true), DirBase::AsGiven);
    assert_eq!(resolve_shared_dir(false, false), DirBase::AsGiven);
}

#[test]
fn tray_messages() {
    assert_eq!(tooltip(true, "L:"), "LanShare - 已连接 (L:)");
    assert_eq!(tooltip(false, "L:"), "LanShare - 已断开 (L:)");
    let short: Vec<u16> = "LanShare - 已连接 (L:)".encode_utf16().collect();
    assert_eq!(tooltip_units(true, "L:"), short);
    let long = "x".repeat(200);
    let all: Vec<u16> = tooltip(true, &long).encode_utf16().collect();
    assert_eq!(tooltip_units(true, &long), all[..127].to_vec());
    assert_eq!(tray_action(0x8001, 0, 0x1_0203), TrayAction::OpenDrive);
    assert_eq!(tray_action(0x8001, 0, 0x0205), TrayAction::ShowMenu);
    assert_eq!(tray_action(0x0113, 0, 0), TrayAction::Refresh);
    assert_eq!(tray_action(0x0111, 40003, 0), TrayAction::Reconnect);
    assert_eq!(tray_action(0x0111, 40002, 0), TrayAction::Exit);
    assert_eq!(tray_action(0x0111, 1, 0), TrayAction::Default);
}
