//! Finding servers on the local network: a client broadcasts a magic word, and every server
//! answers with what it is.
use vstd::prelude::*;
use crate::text::{digits, holds_part, lemma_holds_middle, lemma_holds_within, push_number};

verus! {

/// The port on which servers listen for the magic word.
pub const DISCOVERY_PORT: u16 = 9999;

/// What a server says of itself.
#[derive(Debug, Clone)]
pub struct ServerInfo {
    pub name: String,
    pub ip: String,
    pub web_port: u16,
    pub lsp_port: u16,
    pub version: String,
    /// PIN if true, accounts if false.
    pub simple_mode: bool,
}

/// A server that was found, and the address of its page.
#[derive(Debug, Clone)]
pub struct DiscoveredServer {
    pub name: String,
    pub ip: String,
    pub web_port: u16,
    pub lsp_port: u16,
    pub version: String,
    pub url: String,
}

/// The magic word, `LANSHARE_DISCOVER` in ASCII.
pub open spec fn magic() -> Seq<u8> {
    seq![
        0x4Cu8, 0x41, 0x4E, 0x53, 0x48, 0x41, 0x52, 0x45, 0x5F, 0x44, 0x49, 0x53, 0x43, 0x4F, 0x56,
        0x45, 0x52,
    ]
}

/// The magic word.
pub fn discover_magic() -> (r: Vec<u8>)
    ensures
        r@ == magic(),
{
    let r: Vec<u8> = vec![
        0x4C, 0x41, 0x4E, 0x53, 0x48, 0x41, 0x52, 0x45, 0x5F, 0x44, 0x49, 0x53, 0x43, 0x4F, 0x56,
        0x45, 0x52,
    ];
    proof {
        assert(r@ =~= magic());
    }
    r
}

/// Does a packet ask for servers? It does if it begins with the magic word.
pub fn is_discover_request(packet: &[u8]) -> (r: bool)
    ensures
        r == magic().is_prefix_of(packet@),
{
    let word = discover_magic();
    if packet.len() < word.len() {
        return false;
    }
    let mut i: usize = 0;
    while i < word.len()
        invariant
            word@ == magic(),
            i <= word@.len() <= packet@.len(),
            forall|k: int| 0 <= k < i ==> packet@[k] == word@[k],
        decreases word@.len() - i,
    {
        if packet[i] != word[i] {
            proof {
                assert(packet@.subrange(0, magic().len() as int)[i as int] != magic()[i as int]);
            }
            return false;
        }
        i = i + 1;
    }
    proof {
        assert(packet@.subrange(0, magic().len() as int) =~= magic());
    }
    true
}

/// The address of a server's page.
pub open spec fn page_url(ip: Seq<char>, port: nat) -> Seq<char> {
    "http://"@ + ip + ":"@ + digits(port)
}

/// A server that answered. Its address is where the answer came from, not what the answer says.
pub fn discovered(info: ServerInfo, ip: String) -> (r: DiscoveredServer)
    ensures
        r.name@ == info.name@,
        r.ip@ == ip@,
        r.web_port == info.web_port,
        r.lsp_port == info.lsp_port,
        r.version@ == info.version@,
        r.url@ == page_url(ip@, info.web_port as nat),
{
    let mut url: String = "http://".to_owned();
    url.append(ip.as_str());
    url.append(":");
    push_number(&mut url, info.web_port as u64);
    DiscoveredServer {
        name: info.name,
        ip,
        web_port: info.web_port,
        lsp_port: info.lsp_port,
        version: info.version,
        url,
    }
}

/// A server as JSON. The texts stand there as they are.
pub open spec fn server_json(s: DiscoveredServer) -> Seq<char> {
    "{\"name\":\""@ + s.name@ + "\",\"ip\":\""@ + s.ip@ + "\",\"web_port\":"@ + digits(
        s.web_port as nat,
    ) + ",\"lsp_port\":"@ + digits(s.lsp_port as nat) + ",\"version\":\""@ + s.version@
        + "\",\"url\":\""@ + s.url@ + "\"}"@
}

fn push_server(out: &mut String, s: &DiscoveredServer)
    ensures
        final(out)@ == old(out)@ + server_json(*s),
{
    let ghost start = out@;
    out.append("{\"name\":\"");
    out.append(s.name.as_str());
    out.append("\",\"ip\":\"");
    out.append(s.ip.as_str());
    out.append("\",\"web_port\":");
    push_number(out, s.web_port as u64);
    out.append(",\"lsp_port\":");
    push_number(out, s.lsp_port as u64);
    out.append(",\"version\":\"");
    out.append(s.version.as_str());
    out.append("\",\"url\":\"");
    out.append(s.url.as_str());
    out.append("\"}");
    proof {
        assert(out@ =~= start + server_json(*s));
    }
}

/// The servers as JSON, with commas between them.
pub open spec fn servers_json(v: Seq<DiscoveredServer>) -> Seq<char>
    decreases v.len(),
{
    if v.len() == 0 {
        Seq::<char>::empty()
    } else if v.len() == 1 {
        server_json(v[0])
    } else {
        servers_json(v.drop_last()) + ","@ + server_json(v.last())
    }
}

/// The list of the servers that were found.
pub fn list_servers(v: &Vec<DiscoveredServer>) -> (r: String)
    ensures
        r@ == "{\"servers\":["@ + servers_json(v@) + "]}"@,
{
    let mut out: String = "{\"servers\":[".to_owned();
    let mut i: usize = 0;
    proof {
        assert(v@.take(0) =~= Seq::<DiscoveredServer>::empty());
        assert(out@ =~= "{\"servers\":["@ + servers_json(v@.take(0)));
    }
    while i < v.len()
        invariant
            i <= v@.len(),
            out@ == "{\"servers\":["@ + servers_json(v@.take(i as int)),
        decreases v@.len() - i,
    {
        if i > 0 {
            out.append(",");
        }
        push_server(&mut out, &v[i]);
        proof {
            assert(v@.take(i + 1).drop_last() =~= v@.take(i as int));
            assert(v@.take(i + 1).last() == v@[i as int]);
            assert(out@ =~= "{\"servers\":["@ + servers_json(v@.take(i + 1)));
        }
        i = i + 1;
    }
    proof {
        assert(v@.take(v@.len() as int) =~= v@);
    }
    out.append("]}");
    out
}

/// The word of a search is "LANSHARE_DISCOVER".
pub proof fn law_word_of_a_search(i: int)
    requires
        0 <= i < 17,
    ensures
        magic().len() == 17,
        "LANSHARE_DISCOVER"@.len() == 17,
        magic()[i] as u32 == "LANSHARE_DISCOVER"@[i] as u32,
{
    reveal_strlit("LANSHARE_DISCOVER");
}

/// The list of servers tells of each its name, its address, its ports and its page.
pub proof fn law_servers_are_listed(v: Seq<DiscoveredServer>, k: int)
    requires
        0 <= k < v.len(),
    ensures
        holds_part(servers_json(v), server_json(v[k])),
        holds_part(server_json(v[k]), v[k].name@),
        holds_part(server_json(v[k]), v[k].url@),
        holds_part(server_json(v[k]), "\"ip\":\""@ + v[k].ip@),
        holds_part(server_json(v[k]), ",\"lsp_port\":"@ + digits(v[k].lsp_port as nat)),
    decreases v.len(),
{
    let none = Seq::<char>::empty();
    lemma_server_parts(v[k]);
    if v.len() == 1 {
        lemma_holds_middle(none, server_json(v[0]), none);
        assert(none + server_json(v[0]) + none =~= server_json(v[0]));
    } else {
        let front = servers_json(v.drop_last());
        let last = server_json(v.last());
        if k == v.len() - 1 {
            lemma_holds_middle(front + ","@, last, none);
            assert(front + ","@ + last + none =~= servers_json(v));
        } else {
            law_servers_are_listed(v.drop_last(), k);
            lemma_holds_within(none, front, ","@ + last, server_json(v[k]));
            assert(none + front + (","@ + last) =~= servers_json(v));
        }
    }
}

proof fn lemma_ip_tag()
    ensures
        ({
            let b = "\",\"ip\":\""@;
            b.len() >= 2 && b == b.take(2) + "\"ip\":\""@
        }),
{
    reveal_strlit("\",\"ip\":\"");
    reveal_strlit("\"ip\":\"");
    let b = "\",\"ip\":\""@;
    assert(b =~= b.take(2) + "\"ip\":\""@);
}

proof fn lemma_server_parts(s: DiscoveredServer)
    ensures
        holds_part(server_json(s), s.name@),
        holds_part(server_json(s), s.url@),
        holds_part(server_json(s), "\"ip\":\""@ + s.ip@),
        holds_part(server_json(s), ",\"lsp_port\":"@ + digits(s.lsp_port as nat)),
{
    let x = server_json(s);
    let a = "{\"name\":\""@;
    let b = "\",\"ip\":\""@;
    let c = "\",\"web_port\":"@;
    let w = digits(s.web_port as nat);
    let d = ",\"lsp_port\":"@;
    let l = digits(s.lsp_port as nat);
    let e = ",\"version\":\""@;
    let f = "\",\"url\":\""@;
    let g = "\"}"@;
    lemma_ip_tag();
    lemma_holds_middle(a, s.name@, b + s.ip@ + c + w + d + l + e + s.version@ + f + s.url@ + g);
    assert(a + s.name@ + (b + s.ip@ + c + w + d + l + e + s.version@ + f + s.url@ + g) =~= x);
    lemma_holds_middle(a + s.name@ + b + s.ip@ + c + w + d + l + e + s.version@ + f, s.url@, g);
    let ip = "\"ip\":\""@ + s.ip@;
    lemma_holds_middle(
        a + s.name@ + b.take(2),
        ip,
        c + w + d + l + e + s.version@ + f + s.url@ + g,
    );
    assert(a + s.name@ + b.take(2) + ip + (c + w + d + l + e + s.version@ + f + s.url@ + g) =~= x);
    lemma_holds_middle(
        a + s.name@ + b + s.ip@ + c + w,
        d + l,
        e + s.version@ + f + s.url@ + g,
    );
    assert(a + s.name@ + b + s.ip@ + c + w + (d + l) + (e + s.version@ + f + s.url@ + g) =~= x);
}

/// The page of a server is reached at its address and its port.
pub proof fn law_page_of_a_server(ip: Seq<char>, port: nat)
    ensures
        "http://"@.is_prefix_of(page_url(ip, port)),
        holds_part(page_url(ip, port), ip),
        digits(port).is_suffix_of(page_url(ip, port)),
{
    let p = "http://"@;
    let u = page_url(ip, port);
    let d = digits(port);
    assert(u.subrange(0, p.len() as int) =~= p);
    lemma_holds_middle(p, ip, ":"@ + d);
    assert(p + ip + (":"@ + d) =~= u);
    assert(u.subrange(u.len() - d.len(), u.len() as int) =~= d);
}

} // verus!
