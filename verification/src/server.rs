//! The page of the web server.
use vstd::prelude::*;
use crate::text::{digits, holds_part, number, push_signed, rewrite, rewritten, signed};

verus! {

/// What the web server knows of itself.
#[derive(Debug, Clone)]
pub struct AppState {
    pub shared_dir: String,
    pub pin: String,
    pub device_name: String,
    pub local_ip: String,
    pub lsp_port: u16,
    pub web_port: u16,
    pub start_ts: i64,
    pub config_path: Option<String>,
}

/// What the WebDAV server knows of itself. `canonical_dir` is the canonical path of the shared
/// directory.
#[derive(Debug, Clone)]
pub struct WebDavState {
    pub shared_dir: String,
    pub canonical_dir: Vec<String>,
    pub pin: String,
    pub device_name: String,
    pub local_ip: String,
    pub lsp_port: u16,
    pub webdav_port: u16,
    pub start_ts: i64,
    pub config_path: Option<String>,
}

/// A page with its place holders filled in, one after the other.
pub open spec fn filled(
    page: Seq<char>,
    device_name: Seq<char>,
    local_ip: Seq<char>,
    port_mark: Seq<char>,
    port: nat,
    lsp_port: nat,
    shared_dir: Seq<char>,
    start_ts: int,
) -> Seq<char> {
    let a = rewritten(page, "{{DEVICE_NAME}}"@, device_name);
    let b = rewritten(a, "{{LOCAL_IP}}"@, local_ip);
    let c = rewritten(b, port_mark, digits(port));
    let d = rewritten(c, "{{LSP_PORT}}"@, digits(lsp_port));
    let e = rewritten(d, "{{SHARED_DIR}}"@, shared_dir);
    rewritten(e, "{{START_TS}}"@, signed(start_ts))
}

fn fill(
    page: &str,
    device_name: &str,
    local_ip: &str,
    port_mark: &str,
    port: u16,
    lsp_port: u16,
    shared_dir: &str,
    start_ts: i64,
) -> (r: String)
    requires
        port_mark@.len() > 0,
    ensures
        r@ == filled(
            page@,
            device_name@,
            local_ip@,
            port_mark@,
            port as nat,
            lsp_port as nat,
            shared_dir@,
            start_ts as int,
        ),
{
    proof {
        reveal_strlit("{{DEVICE_NAME}}");
        reveal_strlit("{{LOCAL_IP}}");
        reveal_strlit("{{LSP_PORT}}");
        reveal_strlit("{{SHARED_DIR}}");
        reveal_strlit("{{START_TS}}");
    }
    let a = rewrite(page, "{{DEVICE_NAME}}", device_name);
    let b = rewrite(a.as_str(), "{{LOCAL_IP}}", local_ip);
    let c = rewrite(b.as_str(), port_mark, number(port as u64).as_str());
    let d = rewrite(c.as_str(), "{{LSP_PORT}}", number(lsp_port as u64).as_str());
    let e = rewrite(d.as_str(), "{{SHARED_DIR}}", shared_dir);
    let mut ts: String = String::new();
    push_signed(&mut ts, start_ts);
    proof {
        assert(ts@ =~= signed(start_ts as int));
    }
    rewrite(e.as_str(), "{{START_TS}}", ts.as_str())
}

/// The page of the web server.
pub fn render_ui(page: &str, state: &AppState) -> (r: String)
    ensures
        r@ == filled(
            page@,
            state.device_name@,
            state.local_ip@,
            "{{WEB_PORT}}"@,
            state.web_port as nat,
            state.lsp_port as nat,
            state.shared_dir@,
            state.start_ts as int,
        ),
{
    proof {
        reveal_strlit("{{WEB_PORT}}");
    }
    fill(
        page,
        state.device_name.as_str(),
        state.local_ip.as_str(),
        "{{WEB_PORT}}",
        state.web_port,
        state.lsp_port,
        state.shared_dir.as_str(),
        state.start_ts,
    )
}

/// The page of the WebDAV server.
pub fn render_dav_ui(page: &str, state: &WebDavState) -> (r: String)
    ensures
        r@ == filled(
            page@,
            state.device_name@,
            state.local_ip@,
            "{{WEBDAV_PORT}}"@,
            state.webdav_port as nat,
            state.lsp_port as nat,
            state.shared_dir@,
            state.start_ts as int,
        ),
{
    proof {
        reveal_strlit("{{WEBDAV_PORT}}");
    }
    fill(
        page,
        state.device_name.as_str(),
        state.local_ip.as_str(),
        "{{WEBDAV_PORT}}",
        state.webdav_port,
        state.lsp_port,
        state.shared_dir.as_str(),
        state.start_ts,
    )
}

/// A mark of the page stands at one place: no other begins as it does.
proof fn lemma_other_mark(s: Seq<char>, part: Seq<char>)
    requires
        part.len() >= 4,
        s.len() >= 4,
        part[0] == '{' && part[1] == '{',
        forall|k: int| 2 <= k < s.len() ==> #[trigger] s[k] != '{',
        part[2] != s[2] || part[3] != s[3],
    ensures
        !holds_part(s, part),
{
    if holds_part(s, part) {
        let i = choose|i: int|
            0 <= i && i + part.len() <= s.len() && #[trigger] s.subrange(i, i + part.len()) == part;
        let t = s.subrange(i, i + part.len());
        assert(t[0] == s[i] && t[1] == s[i + 1] && t[2] == s[i + 2] && t[3] == s[i + 3]);
        assert(i + 1 < 2);
    }
}

/// A number holds no mark.
proof fn lemma_no_mark(s: Seq<char>, part: Seq<char>)
    requires
        crate::text::all_digits(s),
        part.len() > 0,
        part[0] == '{',
    ensures
        !holds_part(s, part),
{
    if holds_part(s, part) {
        let i = choose|i: int|
            0 <= i && i + part.len() <= s.len() && #[trigger] s.subrange(i, i + part.len()) == part;
        assert(s.subrange(i, i + part.len())[0] == s[i]);
        assert(crate::text::is_digit(s[i]));
    }
}

/// Does a text hold none of the marks of the page?
pub open spec fn without_marks(s: Seq<char>, port_mark: Seq<char>) -> bool {
    &&& !holds_part(s, "{{DEVICE_NAME}}"@)
    &&& !holds_part(s, "{{LOCAL_IP}}"@)
    &&& !holds_part(s, port_mark)
    &&& !holds_part(s, "{{LSP_PORT}}"@)
    &&& !holds_part(s, "{{SHARED_DIR}}"@)
    &&& !holds_part(s, "{{START_TS}}"@)
}

proof fn lemma_marks()
    ensures
        forall|k: int| 2 <= k < "{{DEVICE_NAME}}"@.len() ==> #[trigger] "{{DEVICE_NAME}}"@[k] != '{',
        forall|k: int| 2 <= k < "{{LOCAL_IP}}"@.len() ==> #[trigger] "{{LOCAL_IP}}"@[k] != '{',
        forall|k: int| 2 <= k < "{{LSP_PORT}}"@.len() ==> #[trigger] "{{LSP_PORT}}"@[k] != '{',
        forall|k: int| 2 <= k < "{{SHARED_DIR}}"@.len() ==> #[trigger] "{{SHARED_DIR}}"@[k] != '{',
        forall|k: int| 2 <= k < "{{START_TS}}"@.len() ==> #[trigger] "{{START_TS}}"@[k] != '{',
        ({
            let a = "{{DEVICE_NAME}}"@;
            let b = "{{LOCAL_IP}}"@;
            let c = "{{LSP_PORT}}"@;
            let d = "{{SHARED_DIR}}"@;
            let e = "{{START_TS}}"@;
            &&& a.len() >= 4 && a[0] == '{' && a[1] == '{' && a[2] == 'D'
            &&& b.len() >= 4 && b[0] == '{' && b[1] == '{' && b[2] == 'L' && b[3] == 'O'
            &&& c.len() >= 4 && c[0] == '{' && c[1] == '{' && c[2] == 'L' && c[3] == 'S'
            &&& d.len() >= 4 && d[0] == '{' && d[1] == '{' && d[2] == 'S' && d[3] == 'H'
            &&& e.len() >= 4 && e[0] == '{' && e[1] == '{' && e[2] == 'S' && e[3] == 'T'
        }),
{
    reveal_strlit("{{DEVICE_NAME}}");
    reveal_strlit("{{LOCAL_IP}}");
    reveal_strlit("{{LSP_PORT}}");
    reveal_strlit("{{SHARED_DIR}}");
    reveal_strlit("{{START_TS}}");
}

proof fn lemma_mark_alone(mark: Seq<char>, value: Seq<char>)
    requires
        mark.len() > 0,
    ensures
        rewritten(mark, mark, value) == value,
{
    let none = Seq::<char>::empty();
    crate::text::law_rewriting(none, mark, value);
    assert(mark + none =~= mark);
    assert(value + none =~= value);
}

/// The page shows each value at its mark, and what holds no mark stays as it is.
pub proof fn law_page_shows_each_value(
    page: Seq<char>,
    device_name: Seq<char>,
    local_ip: Seq<char>,
    port_mark: Seq<char>,
    port: nat,
    lsp_port: nat,
    shared_dir: Seq<char>,
    start_ts: int,
)
    requires
        port_mark.len() >= 4,
        port_mark[0] == '{' && port_mark[1] == '{' && port_mark[2] == 'W',
        without_marks(device_name, port_mark),
        without_marks(local_ip, port_mark),
        without_marks(shared_dir, port_mark),
    ensures
        without_marks(page, port_mark) ==> filled(
            page,
            device_name,
            local_ip,
            port_mark,
            port,
            lsp_port,
            shared_dir,
            start_ts,
        ) == page,
        filled(
            "{{DEVICE_NAME}}"@,
            device_name,
            local_ip,
            port_mark,
            port,
            lsp_port,
            shared_dir,
            start_ts,
        ) == device_name,
        filled(
            "{{LOCAL_IP}}"@,
            device_name,
            local_ip,
            port_mark,
            port,
            lsp_port,
            shared_dir,
            start_ts,
        ) == local_ip,
        filled(
            "{{LSP_PORT}}"@,
            device_name,
            local_ip,
            port_mark,
            port,
            lsp_port,
            shared_dir,
            start_ts,
        ) == digits(lsp_port),
        filled(
            "{{SHARED_DIR}}"@,
            device_name,
            local_ip,
            port_mark,
            port,
            lsp_port,
            shared_dir,
            start_ts,
        ) == shared_dir,
        filled(
            "{{START_TS}}"@,
            device_name,
            local_ip,
            port_mark,
            port,
            lsp_port,
            shared_dir,
            start_ts,
        ) == signed(start_ts),
{
    lemma_marks();
    let a = "{{DEVICE_NAME}}"@;
    let b = "{{LOCAL_IP}}"@;
    let d = "{{LSP_PORT}}"@;
    let e = "{{SHARED_DIR}}"@;
    let f = "{{START_TS}}"@;
    let vd = digits(lsp_port);
    let vf = signed(start_ts);
    if without_marks(page, port_mark) {
        lemma_unchanged(page, device_name, local_ip, port_mark, port, vd, shared_dir, vf);
    }
    crate::text::lemma_digits(lsp_port);
    lemma_no_mark(vd, a);
    lemma_no_mark(vd, b);
    lemma_no_mark(vd, port_mark);
    lemma_no_mark(vd, d);
    lemma_no_mark(vd, e);
    lemma_no_mark(vd, f);
    lemma_mark_alone(a, device_name);
    lemma_mark_alone(b, local_ip);
    lemma_mark_alone(d, vd);
    lemma_mark_alone(e, shared_dir);
    lemma_mark_alone(f, vf);
    lemma_unchanged(device_name, device_name, local_ip, port_mark, port, vd, shared_dir, vf);
    lemma_unchanged(local_ip, device_name, local_ip, port_mark, port, vd, shared_dir, vf);
    lemma_unchanged(vd, device_name, local_ip, port_mark, port, vd, shared_dir, vf);
    lemma_unchanged(shared_dir, device_name, local_ip, port_mark, port, vd, shared_dir, vf);
    lemma_other_mark(b, a);
    lemma_other_mark(d, a);
    lemma_other_mark(d, b);
    lemma_other_mark(d, port_mark);
    lemma_other_mark(e, a);
    lemma_other_mark(e, b);
    lemma_other_mark(e, port_mark);
    lemma_other_mark(e, d);
    lemma_other_mark(f, a);
    lemma_other_mark(f, b);
    lemma_other_mark(f, port_mark);
    lemma_other_mark(f, d);
    lemma_other_mark(f, e);
    crate::text::law_rewriting(b, a, device_name);
    crate::text::law_rewriting(d, a, device_name);
    crate::text::law_rewriting(d, b, local_ip);
    crate::text::law_rewriting(d, port_mark, digits(port));
    crate::text::law_rewriting(e, a, device_name);
    crate::text::law_rewriting(e, b, local_ip);
    crate::text::law_rewriting(e, port_mark, digits(port));
    crate::text::law_rewriting(e, d, vd);
    crate::text::law_rewriting(f, a, device_name);
    crate::text::law_rewriting(f, b, local_ip);
    crate::text::law_rewriting(f, port_mark, digits(port));
    crate::text::law_rewriting(f, d, vd);
    crate::text::law_rewriting(f, e, shared_dir);
}

proof fn lemma_unchanged(
    s: Seq<char>,
    device_name: Seq<char>,
    local_ip: Seq<char>,
    port_mark: Seq<char>,
    port: nat,
    lsp_port: Seq<char>,
    shared_dir: Seq<char>,
    start_ts: Seq<char>,
)
    requires
        port_mark.len() > 0,
        without_marks(s, port_mark),
    ensures
        rewritten(s, "{{DEVICE_NAME}}"@, device_name) == s,
        rewritten(s, "{{LOCAL_IP}}"@, local_ip) == s,
        rewritten(s, port_mark, digits(port)) == s,
        rewritten(s, "{{LSP_PORT}}"@, lsp_port) == s,
        rewritten(s, "{{SHARED_DIR}}"@, shared_dir) == s,
        rewritten(s, "{{START_TS}}"@, start_ts) == s,
{
    lemma_marks();
    crate::text::law_rewriting(s, "{{DEVICE_NAME}}"@, device_name);
    crate::text::law_rewriting(s, "{{LOCAL_IP}}"@, local_ip);
    crate::text::law_rewriting(s, port_mark, digits(port));
    crate::text::law_rewriting(s, "{{LSP_PORT}}"@, lsp_port);
    crate::text::law_rewriting(s, "{{SHARED_DIR}}"@, shared_dir);
    crate::text::law_rewriting(s, "{{START_TS}}"@, start_ts);
}

} // verus!
