//! Turns the table of listening sockets into the list of dev servers that a
//! phone might want to open.
use vstd::prelude::*;
use vstd::std_specs::iter::IteratorSpec;

use crate::net::{IpAddress, Ipv4Addr};
use crate::qr::{svg_for, svg_header, url_qr_image};
use crate::text::{
    chars_of, decimal_text, lemma_decimal_text, has_prefix, lower_text, lowercase_ascii, push_decimal, push_str,
    same_text, starts_with, string_from_chars, strip_suffix, without_suffix,
};

verus! {

/// One listening socket, as the socket table reports it.
#[derive(Debug, Clone)]
pub struct RawSocket {
    pub ip: IpAddress,
    pub port: u16,
    pub pid: u32,
    pub name: String,
}

/// One dev server, as the popup shows it.
#[derive(Debug, Clone)]
pub struct ServerEntry {
    pub port: u16,
    pub bind_addr: String,
    pub process_name: String,
    pub pid: u32,
    pub reachable_from_lan: bool,
    /// Plumbing a developer rarely cares about; shown only with "Show all".
    pub hidden: bool,
    pub url: String,
    /// Empty unless the server is reachable from the LAN (a localhost QR is
    /// useless on a phone).
    pub qr_svg: String,
}

/// What one scan found, or why it failed.
#[derive(Debug, Clone)]
pub struct Snapshot {
    pub lan_ip: Option<String>,
    pub servers: Vec<ServerEntry>,
    pub scanned_at: u64,
    pub error: Option<String>,
}

impl Default for Snapshot {
    fn default() -> (r: Snapshot)
        ensures
            r.lan_ip is None,
            r.servers@.len() == 0,
            r.scanned_at == 0,
            r.error is None,
    {
        Snapshot { lan_ip: None, servers: Vec::new(), scanned_at: 0, error: None }
    }
}

/// Ports that are always OS plumbing, even if a dev runtime somehow owns them.
pub open spec fn noise_ports() -> Seq<u16> {
    seq![135, 139, 445, 5040, 5353, 5354, 5357, 7680]
}

/// OS services that sit on well-known dev ports, such as macOS AirPlay
/// Receiver on 5000 and 7000.
pub open spec fn os_processes() -> Seq<Seq<char>> {
    seq!["controlcenter"@, "airplayxpchelper"@, "rapportd"@, "sharingd"@]
}

/// Processes that run web and app servers during development. Anything these
/// own is shown.
pub open spec fn dev_runtimes() -> Seq<Seq<char>> {
    seq![
        "node"@, "bun"@, "deno"@, "python"@, "python3"@, "pythonw"@, "py"@, "uvicorn"@,
        "gunicorn"@, "php"@, "php-cgi"@, "ruby"@, "java"@, "javaw"@, "dotnet"@, "iisexpress"@,
        "go"@, "air"@, "hugo"@, "caddy"@, "nginx"@, "httpd"@, "flutter"@, "dart"@,
        "dartaotruntime"@, "expo"@, "wslrelay"@, "com.docker.backend"@, "docker-proxy"@,
        "vpnkit"@, "trunk"@, "zola"@, "jekyll"@, "live-server"@, "http-server"@,
    ]
}

/// Ports that dev tools default to, so a custom-named binary on one of them
/// still shows.
pub open spec fn dev_ports() -> Seq<u16> {
    seq![
        1234, 1313, 3000, 3001, 3002, 3003, 4000, 4173, 4200, 4321, 4400, 5000, 5001, 5173, 5174,
        5175, 5500, 6006, 7000, 7070, 8000, 8001, 8008, 8010, 8080, 8081, 8088, 8100, 8443, 8787,
        8888, 9000, 9090, 19000, 19006,
    ]
}

fn noise_port_list() -> (r: Vec<u16>)
    ensures
        r@ == noise_ports(),
{
    let r = vec![135, 139, 445, 5040, 5353, 5354, 5357, 7680];
    assert(r@ =~= noise_ports());
    r
}

fn dev_port_list() -> (r: Vec<u16>)
    ensures
        r@ == dev_ports(),
{
    let r = vec![
        1234, 1313, 3000, 3001, 3002, 3003, 4000, 4173, 4200, 4321, 4400, 5000, 5001, 5173, 5174,
        5175, 5500, 6006, 7000, 7070, 8000, 8001, 8008, 8010, 8080, 8081, 8088, 8100, 8443, 8787,
        8888, 9000, 9090, 19000, 19006,
    ];
    assert(r@ =~= dev_ports());
    r
}

fn os_process_list() -> (r: Vec<&'static str>)
    ensures
        r@.len() == os_processes().len(),
        forall|k: int| 0 <= k < r@.len() ==> #[trigger] r@[k]@ == os_processes()[k],
{
    vec!["controlcenter", "airplayxpchelper", "rapportd", "sharingd"]
}

fn dev_runtime_list() -> (r: Vec<&'static str>)
    ensures
        r@.len() == dev_runtimes().len(),
        forall|k: int| 0 <= k < r@.len() ==> #[trigger] r@[k]@ == dev_runtimes()[k],
{
    vec![
        "node", "bun", "deno", "python", "python3", "pythonw", "py", "uvicorn", "gunicorn", "php",
        "php-cgi", "ruby", "java", "javaw", "dotnet", "iisexpress", "go", "air", "hugo", "caddy",
        "nginx", "httpd", "flutter", "dart", "dartaotruntime", "expo", "wslrelay",
        "com.docker.backend", "docker-proxy", "vpnkit", "trunk", "zola", "jekyll", "live-server",
        "http-server",
    ]
}

fn has_port(list: &Vec<u16>, port: u16) -> (r: bool)
    ensures
        r == list@.contains(port),
{
    let n = list.len();
    for i in 0..n
        invariant
            n == list@.len(),
            forall|j: int| 0 <= j < i ==> list@[j] != port,
    {
        if list[i] == port {
            assert(list@[i as int] == port);
            return true;
        }
    }
    false
}

/// Whether `text` is one of the names of `list`.
fn names_contain(list: &Vec<&'static str>, text: &[char]) -> (r: bool)
    ensures
        r == exists|k: int| 0 <= k < list@.len() && #[trigger] list@[k]@ == text@,
{
    let n = list.len();
    for k in 0..n
        invariant
            n == list@.len(),
            forall|j: int| 0 <= j < k ==> #[trigger] list@[j]@ != text@,
    {
        let name = chars_of(list[k]);
        if same_text(name.as_slice(), text) {
            return true;
        }
    }
    false
}

/// One row of the socket table: a socket, whether its protocol is TCP, and
/// whether it is in the listening state.
#[derive(Debug, Clone)]
pub struct TableRow {
    pub socket: RawSocket,
    pub tcp: bool,
    pub listening: bool,
}

/// The sockets of the rows that are TCP and listening, in order.
pub open spec fn listening_tcp(rows: Seq<TableRow>) -> Seq<RawSocket>
    decreases rows.len(),
{
    if rows.len() == 0 {
        seq![]
    } else {
        let rest = listening_tcp(rows.drop_first());
        if rows[0].tcp && rows[0].listening {
            seq![rows[0].socket] + rest
        } else {
            rest
        }
    }
}

/// The listening TCP sockets of the socket table, in the table's order.
pub fn listening_tcp_sockets(rows: Vec<TableRow>) -> (r: Vec<RawSocket>)
    ensures
        r@ == listening_tcp(rows@),
{
    let ghost all = rows@;
    let mut rows = rows;
    let mut out: Vec<RawSocket> = Vec::new();
    while rows.len() > 0
        invariant
            out@ + listening_tcp(rows@) == listening_tcp(all),
        decreases rows@.len(),
    {
        let ghost before = rows@;
        let row = rows.remove(0);
        assert(rows@ =~= before.drop_first());
        if row.tcp && row.listening {
            out.push(row.socket);
            assert(out@ + listening_tcp(rows@) =~= out@.drop_last() + listening_tcp(before));
        } else {
            assert(out@ + listening_tcp(rows@) =~= out@ + listening_tcp(before));
        }
    }
    assert(out@ =~= out@ + listening_tcp(rows@));
    out
}

/// The process name lower-cased in ASCII, without a trailing `.exe`.
pub open spec fn spec_base_name(name: Seq<char>) -> Seq<char> {
    strip_suffix(lower_text(name), ".exe"@)
}

/// Shown by default only if a dev runtime owns it or it sits on a well-known
/// dev port; never on a noise port, below 1024, or when an OS service owns it.
pub open spec fn spec_is_noise(port: u16, name: Seq<char>) -> bool {
    let base = spec_base_name(name);
    let dev_runtime = dev_runtimes().contains(base) || starts_with(base, "python"@);
    ||| noise_ports().contains(port)
    ||| port < 1024
    ||| os_processes().contains(base)
    ||| !(dev_runtime || dev_ports().contains(port))
}

/// The process name without a trailing `.exe`, or `unknown` when nothing is left.
pub open spec fn spec_display_name(name: Seq<char>) -> Seq<char> {
    let trimmed = strip_suffix(name, ".exe"@);
    if trimmed.len() == 0 {
        "unknown"@
    } else {
        trimmed
    }
}

/// A socket is reachable from the LAN when it listens on every interface, or
/// on the LAN address itself. `::` on a dual-stack socket (Node's default for
/// "all interfaces") accepts IPv4 too.
pub open spec fn spec_is_reachable(ip: IpAddress, lan_ip: Option<Ipv4Addr>) -> bool {
    match ip {
        IpAddress::V4(v4) => v4.spec_is_unspecified() || Some(v4) == lan_ip,
        IpAddress::V6(v6) => v6.spec_is_unspecified() || (v6.spec_to_ipv4_mapped() matches Some(
            m,
        ) && Some(m) == lan_ip),
    }
}

fn base_chars(name: &str) -> (r: Vec<char>)
    ensures
        r@ == spec_base_name(name@),
{
    let chars = chars_of(name);
    let lower = lowercase_ascii(chars.as_slice());
    let exe = chars_of(".exe");
    without_suffix(lower.as_slice(), exe.as_slice())
}

/// The process name lower-cased in ASCII, without a trailing `.exe`.
pub fn base_name(name: &str) -> (r: String)
    ensures
        r@ == spec_base_name(name@),
{
    let base = base_chars(name);
    string_from_chars(base.as_slice())
}

/// Whether a server is plumbing that is hidden unless "Show all" is ticked.
pub fn is_noise(port: u16, name: &str) -> (r: bool)
    ensures
        r == spec_is_noise(port, name@),
{
    let base = base_chars(name);
    let runtimes = dev_runtime_list();
    let python = chars_of("python");
    let in_runtimes = names_contain(&runtimes, base.as_slice());
    proof {
        if in_runtimes {
            let k = choose|k: int| 0 <= k < runtimes@.len() && #[trigger] runtimes@[k]@ == base@;
            assert(dev_runtimes()[k] == base@);
        }
        if dev_runtimes().contains(base@) {
            let k = choose|k: int| 0 <= k < dev_runtimes().len() && dev_runtimes()[k] == base@;
            assert(runtimes@[k]@ == base@);
        }
    }
    let dev_runtime = in_runtimes || has_prefix(base.as_slice(), python.as_slice());
    let os = os_process_list();
    let in_os = names_contain(&os, base.as_slice());
    proof {
        if in_os {
            let k = choose|k: int| 0 <= k < os@.len() && #[trigger] os@[k]@ == base@;
            assert(os_processes()[k] == base@);
        }
        if os_processes().contains(base@) {
            let k = choose|k: int| 0 <= k < os_processes().len() && os_processes()[k] == base@;
            assert(os@[k]@ == base@);
        }
    }
    let noise = noise_port_list();
    let dev = dev_port_list();
    has_port(&noise, port) || port < 1024 || in_os || !(dev_runtime || has_port(&dev, port))
}

fn display_chars(name: &str) -> (r: Vec<char>)
    ensures
        r@ == spec_display_name(name@),
{
    let chars = chars_of(name);
    let exe = chars_of(".exe");
    let trimmed = without_suffix(chars.as_slice(), exe.as_slice());
    if trimmed.len() == 0 {
        chars_of("unknown")
    } else {
        trimmed
    }
}

/// The process name as the popup shows it.
pub fn display_name(name: &str) -> (r: String)
    ensures
        r@ == spec_display_name(name@),
{
    let shown = display_chars(name);
    string_from_chars(shown.as_slice())
}

/// Whether a phone on the LAN can reach a socket bound to `ip`.
pub fn is_reachable(ip: &IpAddress, lan_ip: Option<Ipv4Addr>) -> (r: bool)
    ensures
        r == spec_is_reachable(*ip, lan_ip),
{
    match ip {
        IpAddress::V4(v4) => v4.is_unspecified() || match lan_ip {
            Some(l) => l == *v4,
            None => false,
        },
        IpAddress::V6(v6) => v6.is_unspecified() || match (v6.to_ipv4_mapped(), lan_ip) {
            (Some(m), Some(l)) => m == l,
            _ => false,
        },
    }
}

/// Among sockets on one port: reachable ones first, then IPv4, then the ones
/// whose process has a name.
pub open spec fn socket_rank(s: RawSocket, lan_ip: Option<Ipv4Addr>) -> int {
    (if spec_is_reachable(s.ip, lan_ip) {
        4int
    } else {
        0int
    }) + (if s.ip is V4 {
        2int
    } else {
        0int
    }) + (if s.name@.len() > 0 {
        1int
    } else {
        0int
    })
}

/// `j` is the socket that stands for `port`: the last of the best ranked
/// sockets on that port.
pub open spec fn is_best_socket(
    sockets: Seq<RawSocket>,
    lan_ip: Option<Ipv4Addr>,
    port: u16,
    j: int,
) -> bool {
    &&& 0 <= j < sockets.len()
    &&& sockets[j].port == port
    &&& forall|k: int|
        0 <= k < sockets.len() && #[trigger] sockets[k].port == port ==> socket_rank(
            sockets[k],
            lan_ip,
        ) <= socket_rank(sockets[j], lan_ip)
    &&& forall|k: int|
        j < k < sockets.len() && #[trigger] sockets[k].port == port ==> socket_rank(
            sockets[k],
            lan_ip,
        ) < socket_rank(sockets[j], lan_ip)
}

/// The URL of a server: over the LAN address when it is reachable, else over
/// `localhost`.
pub open spec fn spec_url(reachable: bool, lan_ip: Option<Ipv4Addr>, port: u16) -> Seq<char> {
    match lan_ip {
        Some(ip) if reachable => "http://"@ + ip.spec_text() + seq![':'] + decimal_text(
            port as nat,
        ),
        _ => "http://localhost:"@ + decimal_text(port as nat),
    }
}

/// The QR image of a URL, or nothing when it does not fit in a QR code.
pub open spec fn qr_text(url: Seq<char>) -> Seq<char> {
    match url_qr_image(url) {
        Some(image) => image,
        None => Seq::empty(),
    }
}

/// `e` is the entry that the popup shows for the socket `s`.
pub open spec fn entry_from(e: ServerEntry, s: RawSocket, lan_ip: Option<Ipv4Addr>) -> bool {
    let reachable = lan_ip is Some && spec_is_reachable(s.ip, lan_ip);
    &&& e.port == s.port
    &&& e.bind_addr@ == s.ip.spec_text()
    &&& e.process_name@ == spec_display_name(s.name@)
    &&& e.pid == s.pid
    &&& e.reachable_from_lan == reachable
    &&& e.hidden == spec_is_noise(s.port, s.name@)
    &&& e.url@ == spec_url(reachable, lan_ip, s.port)
    &&& e.qr_svg@ == if reachable {
        qr_text(e.url@)
    } else {
        Seq::empty()
    }
    &&& e.qr_svg@.len() > 0 ==> starts_with(e.qr_svg@, svg_header())
    &&& reachable ==> starts_with(e.qr_svg@, svg_header())
}

/// `e` is the entry for its port: made from the socket that stands for it.
pub open spec fn describes(e: ServerEntry, sockets: Seq<RawSocket>, lan_ip: Option<Ipv4Addr>) -> bool {
    exists|j: int| is_best_socket(sockets, lan_ip, e.port, j) && entry_from(e, sockets[j], lan_ip)
}

/// Entries are listed by this key: shown before hidden, reachable before
/// localhost-only, then by port.
pub open spec fn order_key(e: ServerEntry) -> int {
    (if e.hidden {
        131072int
    } else {
        0int
    }) + (if !e.reachable_from_lan {
        65536int
    } else {
        0int
    }) + e.port
}

/// Some socket listens on `port`.
pub open spec fn has_port_socket(sockets: Seq<RawSocket>, port: u16) -> bool {
    exists|k: int| 0 <= k < sockets.len() && #[trigger] sockets[k].port == port
}

/// Some entry is for `port`.
pub open spec fn has_port_entry(entries: Seq<ServerEntry>, port: u16) -> bool {
    exists|i: int| 0 <= i < entries.len() && #[trigger] entries[i].port == port
}

fn socket_rank_of(s: &RawSocket, lan_ip: Option<Ipv4Addr>) -> (r: u8)
    ensures
        r == socket_rank(*s, lan_ip),
{
    let a: u8 = if is_reachable(&s.ip, lan_ip) {
        4
    } else {
        0
    };
    let b: u8 = if s.ip.is_ipv4() {
        2
    } else {
        0
    };
    let c: u8 = if !s.name.as_str().is_empty() {
        1
    } else {
        0
    };
    a + b + c
}

/// A LAN URL is ASCII of at most 28 characters, so it takes at most 28 bytes.
proof fn lemma_lan_url_fits(ip: Ipv4Addr, port: u16)
    ensures
        vstd::utf8::encode_utf8(spec_url(true, Some(ip), port)).len() <= 28,
{
    reveal_strlit("http://");
    lemma_decimal_text(ip.0 as nat);
    lemma_decimal_text(ip.1 as nat);
    lemma_decimal_text(ip.2 as nat);
    lemma_decimal_text(ip.3 as nat);
    lemma_decimal_text(port as nat);
    let url = spec_url(true, Some(ip), port);
    let d0 = decimal_text(ip.0 as nat);
    let d1 = decimal_text(ip.1 as nat);
    let d2 = decimal_text(ip.2 as nat);
    let d3 = decimal_text(ip.3 as nat);
    let dp = decimal_text(port as nat);
    let head = "http://"@;
    assert(head =~= seq!['h', 't', 't', 'p', ':', '/', '/']);
    assert(url =~= head + d0 + seq!['.'] + d1 + seq!['.'] + d2 + seq!['.'] + d3 + seq![':'] + dp);
    assert(url.len() <= 28);
    assert(vstd::utf8::is_ascii_chars(url)) by {
        assert forall|i: int| 0 <= i < url.len() implies '\0' <= #[trigger] url[i] <= '\u{7f}' by {
            let o1 = head.len() as int;
            let o2 = o1 + d0.len();
            let o3 = o2 + 1;
            let o4 = o3 + d1.len();
            let o5 = o4 + 1;
            let o6 = o5 + d2.len();
            let o7 = o6 + 1;
            let o8 = o7 + d3.len();
            let o9 = o8 + 1;
            if i < o1 {
                assert(url[i] == head[i]);
            } else if i < o2 {
                assert(url[i] == d0[i - o1]);
            } else if i < o3 {
            } else if i < o4 {
                assert(url[i] == d1[i - o3]);
            } else if i < o5 {
            } else if i < o6 {
                assert(url[i] == d2[i - o5]);
            } else if i < o7 {
            } else if i < o8 {
                assert(url[i] == d3[i - o7]);
            } else if i < o9 {
            } else {
                assert(url[i] == dp[i - o9]);
            }
        }
    }
    vstd::utf8::is_ascii_chars_encode_utf8(url);
}

/// `j` is the socket that stands for `port` among the first `n` sockets.
pub open spec fn is_best_upto(
    sockets: Seq<RawSocket>,
    lan_ip: Option<Ipv4Addr>,
    port: u16,
    j: int,
    n: int,
) -> bool {
    &&& 0 <= j < n <= sockets.len()
    &&& sockets[j].port == port
    &&& forall|k: int|
        0 <= k < n && #[trigger] sockets[k].port == port ==> socket_rank(sockets[k], lan_ip)
            <= socket_rank(sockets[j], lan_ip)
    &&& forall|k: int|
        j < k < n && #[trigger] sockets[k].port == port ==> socket_rank(sockets[k], lan_ip)
            < socket_rank(sockets[j], lan_ip)
}

/// Some socket among the first `n` listens on `port`.
pub open spec fn has_port_before(sockets: Seq<RawSocket>, port: u16, n: int) -> bool {
    exists|k: int| 0 <= k < n && #[trigger] sockets[k].port == port
}

/// For each port, the socket that stands for it, grouped by port in an
/// ordered map.
fn best_by_port(sockets: &[RawSocket], lan_ip: Option<Ipv4Addr>) -> (m:
    std::collections::BTreeMap<u16, usize>)
    ensures
        forall|p: u16| #[trigger] m@.contains_key(p) <==> has_port_socket(sockets@, p),
        forall|p: u16| #[trigger] m@.contains_key(p) ==> is_best_socket(sockets@, lan_ip, p, m@[p] as int),
{
    let mut m: std::collections::BTreeMap<u16, usize> = std::collections::BTreeMap::new();
    let n = sockets.len();
    for i in 0..n
        invariant
            n == sockets@.len(),
            forall|p: u16| #[trigger] m@.contains_key(p) <==> has_port_before(sockets@, p, i as int),
            forall|p: u16|
                #[trigger] m@.contains_key(p) ==> is_best_upto(sockets@, lan_ip, p, m@[p] as int, i as int),
    {
        let port = sockets[i].port;
        let rank = socket_rank_of(&sockets[i], lan_ip);
        let ghost prev = m@;
        let replace = match m.get(&port) {
            Some(j) => {
                let j = *j;
                rank >= socket_rank_of(&sockets[j], lan_ip)
            },
            None => true,
        };
        if replace {
            m.insert(port, i);
        }
        proof {
            assert forall|p: u16| #[trigger] m@.contains_key(p) <==> has_port_before(sockets@, p, i + 1) by {
                if has_port_before(sockets@, p, i + 1) && p != port {
                    let k = choose|k: int| 0 <= k < i + 1 && #[trigger] sockets@[k].port == p;
                    assert(has_port_before(sockets@, p, i as int));
                }
                if p == port {
                    assert(sockets@[i as int].port == p);
                }
                if has_port_before(sockets@, p, i as int) {
                    let k = choose|k: int| 0 <= k < i && #[trigger] sockets@[k].port == p;
                    assert(sockets@[k].port == p);
                }
            }
            assert forall|p: u16| #[trigger] m@.contains_key(p) implies is_best_upto(sockets@, lan_ip, p, m@[p] as int, i + 1) by {
                if p != port {
                    assert(m@[p] == prev[p]);
                    assert(is_best_upto(sockets@, lan_ip, p, prev[p] as int, i as int));
                } else if !prev.contains_key(p) {
                    assert forall|k: int| 0 <= k < i implies #[trigger] sockets@[k].port != p by {
                        if sockets@[k].port == p {
                            assert(has_port_before(sockets@, p, i as int));
                        }
                    }
                }
            }
        }
    }
    proof {
        assert forall|p: u16| #[trigger] m@.contains_key(p) <==> has_port_socket(sockets@, p) by {
            if has_port_socket(sockets@, p) {
                let k = choose|k: int| 0 <= k < sockets@.len() && #[trigger] sockets@[k].port == p;
                assert(has_port_before(sockets@, p, n as int));
            }
            if has_port_before(sockets@, p, n as int) {
                let k = choose|k: int| 0 <= k < n && #[trigger] sockets@[k].port == p;
                assert(sockets@[k].port == p);
            }
        }
        assert forall|p: u16| #[trigger] m@.contains_key(p) implies is_best_socket(sockets@, lan_ip, p, m@[p] as int) by {
            assert(is_best_upto(sockets@, lan_ip, p, m@[p] as int, n as int));
        }
    }
    m
}

/// The entry that the popup shows for the socket `s`.
fn entry_for(s: &RawSocket, lan_ip: Option<Ipv4Addr>) -> (e: ServerEntry)
    ensures
        entry_from(e, *s, lan_ip),
{
    let reachable = lan_ip.is_some() && is_reachable(&s.ip, lan_ip);
    let mut url_chars: Vec<char> = Vec::new();
    match lan_ip {
        Some(ip) if reachable => {
            push_str(&mut url_chars, "http://");
            ip.push_text(&mut url_chars);
            url_chars.push(':');
            push_decimal(&mut url_chars, s.port as u64);
        },
        _ => {
            push_str(&mut url_chars, "http://localhost:");
            push_decimal(&mut url_chars, s.port as u64);
        },
    }
    assert(url_chars@ =~= spec_url(reachable, lan_ip, s.port));
    proof {
        if reachable {
            lemma_lan_url_fits(lan_ip->0, s.port);
        }
    }
    let url = string_from_chars(url_chars.as_slice());
    let mut bind: Vec<char> = Vec::new();
    s.ip.push_text(&mut bind);
    assert(bind@ =~= s.ip.spec_text());
    let qr_svg = if reachable {
        svg_for(url.as_str())
    } else {
        String::new()
    };
    ServerEntry {
        port: s.port,
        bind_addr: string_from_chars(bind.as_slice()),
        process_name: display_name(s.name.as_str()),
        pid: s.pid,
        reachable_from_lan: reachable,
        hidden: is_noise(s.port, s.name.as_str()),
        url,
        qr_svg,
    }
}

/// Entries strictly ordered by their keys.
pub open spec fn ordered(entries: Seq<ServerEntry>) -> bool {
    forall|a: int, b: int|
        0 <= a < b < entries.len() ==> order_key(#[trigger] entries[a]) < order_key(
            #[trigger] entries[b],
        )
}

/// `entries` is the server list of the sockets: every entry is the one for
/// its port, there is one for every port that some socket listens on, and
/// they are strictly ordered by key (so no port has two).
pub open spec fn lists_servers(
    entries: Seq<ServerEntry>,
    sockets: Seq<RawSocket>,
    lan_ip: Option<Ipv4Addr>,
) -> bool {
    &&& forall|i: int| 0 <= i < entries.len() ==> describes(#[trigger] entries[i], sockets, lan_ip)
    &&& forall|p: u16| has_port_socket(sockets, p) <==> has_port_entry(entries, p)
    &&& ordered(entries)
}

/// The listing key of the entry that the socket `s` gives.
pub open spec fn socket_order_key(s: RawSocket, lan_ip: Option<Ipv4Addr>) -> int {
    (if spec_is_noise(s.port, s.name@) {
        131072int
    } else {
        0int
    }) + (if !(lan_ip is Some && spec_is_reachable(s.ip, lan_ip)) {
        65536int
    } else {
        0int
    }) + s.port
}

fn socket_order_key_of(s: &RawSocket, lan_ip: Option<Ipv4Addr>) -> (r: u32)
    ensures
        r == socket_order_key(*s, lan_ip),
{
    let h: u32 = if is_noise(s.port, s.name.as_str()) {
        131072
    } else {
        0
    };
    let u: u32 = if !(lan_ip.is_some() && is_reachable(&s.ip, lan_ip)) {
        65536
    } else {
        0
    };
    h + u + s.port as u32
}

/// `e` is listed under the key and made from the socket of the pair `kv`,
/// which stands for its port.
pub open spec fn entry_at(
    e: ServerEntry,
    kv: (&u32, &usize),
    sockets: Seq<RawSocket>,
    lan_ip: Option<Ipv4Addr>,
) -> bool {
    let j = *kv.1 as int;
    &&& 0 <= j < sockets.len()
    &&& entry_from(e, sockets[j], lan_ip)
    &&& is_best_socket(sockets, lan_ip, e.port, j)
    &&& order_key(e) == *kv.0
}

/// Keys that an ordered map hands out in increasing order grow strictly.
proof fn lemma_increasing_keys(keys: Seq<u32>)
    requires
        vstd::std_specs::btree::increasing_seq(keys),
    ensures
        forall|a: int, b: int| 0 <= a < b < keys.len() ==> keys[a] < keys[b],
{
    assert forall|a: int, b: int| 0 <= a < b < keys.len() implies keys[a] < keys[b] by {
        assert(vstd::std_specs::cmp::OrdSpec::cmp_spec(&keys[a], &keys[b]) is Less);
    }
}

/// Sockets with equal listing keys listen on the same port.
proof fn lemma_socket_key_port(a: RawSocket, b: RawSocket, lan_ip: Option<Ipv4Addr>)
    requires
        socket_order_key(a, lan_ip) == socket_order_key(b, lan_ip),
    ensures
        a.port == b.port,
{
}

/// The dev servers behind the sockets: one entry per port (IPv4 and IPv6
/// sockets of one server collapse together), made from the best socket on
/// that port, and listed shown before hidden, reachable before
/// localhost-only, then by port.
pub fn build(sockets: &[RawSocket], lan_ip: Option<Ipv4Addr>) -> (r: Vec<ServerEntry>)
    ensures
        forall|i: int| 0 <= i < r@.len() ==> describes(#[trigger] r@[i], sockets@, lan_ip),
        forall|p: u16| has_port_socket(sockets@, p) <==> has_port_entry(r@, p),
        ordered(r@),
        lists_servers(r@, sockets@, lan_ip),
{
    let n = sockets.len();
    let best = best_by_port(sockets, lan_ip);
    // The best socket of each port, keyed by where its entry is listed.
    let mut by_key: std::collections::BTreeMap<u32, usize> = std::collections::BTreeMap::new();
    for i in 0..n
        invariant
            n == sockets@.len(),
            forall|p: u16| #[trigger] best@.contains_key(p) <==> has_port_socket(sockets@, p),
            forall|p: u16|
                #[trigger] best@.contains_key(p) ==> is_best_socket(sockets@, lan_ip, p, best@[p] as int),
            forall|k: u32|
                #[trigger] by_key@.contains_key(k) ==> {
                    let j = by_key@[k] as int;
                    &&& 0 <= j < n
                    &&& best@.contains_key(sockets@[j].port)
                    &&& best@[sockets@[j].port] == j
                    &&& socket_order_key(sockets@[j], lan_ip) == k
                },
            forall|p: u16|
                #[trigger] best@.contains_key(p) && best@[p] < i ==> by_key@.contains_key(
                    socket_order_key(sockets@[best@[p] as int], lan_ip) as u32,
                ),
    {
        let port = sockets[i].port;
        assert(has_port_socket(sockets@, port)) by {
            assert(sockets@[i as int].port == port);
        }
        let j = match best.get(&port) {
            Some(j) => *j,
            None => n,
        };
        if j == i {
            let key = socket_order_key_of(&sockets[i], lan_ip);
            let ghost prev = by_key@;
            proof {
                if prev.contains_key(key) {
                    let jk = prev[key] as int;
                    lemma_socket_key_port(sockets@[jk], sockets@[i as int], lan_ip);
                }
            }
            by_key.insert(key, i);
            proof {
                assert forall|p: u16|
                    #[trigger] best@.contains_key(p) && best@[p] < i + 1 implies by_key@.contains_key(
                    socket_order_key(sockets@[best@[p] as int], lan_ip) as u32,
                ) by {
                    if best@[p] < i {
                        assert(prev.contains_key(
                            socket_order_key(sockets@[best@[p] as int], lan_ip) as u32,
                        ));
                    }
                }
            }
        } else {
            proof {
                assert forall|p: u16|
                    #[trigger] best@.contains_key(p) && best@[p] < i + 1 implies by_key@.contains_key(
                    socket_order_key(sockets@[best@[p] as int], lan_ip) as u32,
                ) by {
                    if best@[p] == i {
                        assert(sockets@[i as int].port == p);
                    }
                }
            }
        }
    }
    let mut out: Vec<ServerEntry> = Vec::new();
    let ghost sq = vstd::std_specs::btree::spec_btree_map_iter(&by_key).remaining();
    for kv in it: by_key.iter()
        invariant
            n == sockets@.len(),
            it.seq() == sq,
            forall|k: u32|
                #[trigger] by_key@.contains_key(k) ==> {
                    let j = by_key@[k] as int;
                    &&& 0 <= j < n
                    &&& best@.contains_key(sockets@[j].port)
                    &&& best@[sockets@[j].port] == j
                    &&& socket_order_key(sockets@[j], lan_ip) == k
                },
            forall|p: u16|
                #[trigger] best@.contains_key(p) ==> is_best_socket(sockets@, lan_ip, p, best@[p] as int),
            forall|p: u16| #[trigger] best@.contains_key(p) <==> has_port_socket(sockets@, p),
            forall|p: u16|
                #[trigger] best@.contains_key(p) ==> by_key@.contains_key(
                    socket_order_key(sockets@[best@[p] as int], lan_ip) as u32,
                ),
            out@.len() == it.index(),
            forall|u: int| 0 <= u < out@.len() ==> #[trigger] entry_at(out@[u], sq[u], sockets@, lan_ip),
    {
        let ghost before = out@;
        let ghost t = before.len() as int;
        assert(kv == it.seq()[t]);
        let (k, j) = kv;
        let j = *j;
        assert(by_key@.contains_key(*k) && by_key@[*k] == j);
        let e = entry_for(&sockets[j], lan_ip);
        out.push(e);
        assert(out@[t] == e);
        assert forall|u: int| 0 <= u < out@.len() implies #[trigger] entry_at(out@[u], sq[u], sockets@, lan_ip) by {
            if u < t {
                assert(out@[u] == before[u]);
            }
        }
    }
    proof {
        assert forall|a: int, b: int| 0 <= a < b < out@.len() implies order_key(
            #[trigger] out@[a],
        ) < order_key(#[trigger] out@[b]) by {
            assert(entry_at(out@[a], sq[a], sockets@, lan_ip));
            assert(entry_at(out@[b], sq[b], sockets@, lan_ip));
            let keys = sq.map_values(|kv: (&u32, &usize)| *kv.0);
            assert(keys[a] == *sq[a].0 && keys[b] == *sq[b].0);
            lemma_increasing_keys(keys);
        }
        assert forall|p: u16| has_port_socket(sockets@, p) implies has_port_entry(out@, p) by {
            assert(best@.contains_key(p));
            let jb = best@[p] as int;
            let k = socket_order_key(sockets@[jb], lan_ip) as u32;
            assert(by_key@.contains_key(k));
            assert(sq.contains((&k, &by_key@[k])));
            let u = choose|u: int| 0 <= u < sq.len() && sq[u] == (&k, &by_key@[k]);
            assert(entry_at(out@[u], sq[u], sockets@, lan_ip));
            let j = by_key@[k] as int;
            lemma_socket_key_port(sockets@[j], sockets@[jb], lan_ip);
            assert(out@[u].port == p);
        }
        assert forall|p: u16| has_port_entry(out@, p) implies has_port_socket(sockets@, p) by {
            let u = choose|u: int| 0 <= u < out@.len() && #[trigger] out@[u].port == p;
            assert(entry_at(out@[u], sq[u], sockets@, lan_ip));
            let j = *sq[u].1 as int;
            assert(sockets@[j].port == p);
        }
        assert forall|u: int| 0 <= u < out@.len() implies describes(#[trigger] out@[u], sockets@, lan_ip) by {
            assert(entry_at(out@[u], sq[u], sockets@, lan_ip));
        }
    }
    out
}

/// What identifies a socket in a scan: port, process id, and the address as
/// a family tag and two 64-bit halves.
pub type ScanKey = (u16, u32, u8, u64, u64);

/// The high half of the first eight octets.
pub open spec fn upper_half(o: Seq<u8>) -> u64 {
    ((o[0] as u64) << 56u64) | ((o[1] as u64) << 48u64) | ((o[2] as u64) << 40u64) | ((
    o[3] as u64) << 32u64) | ((o[4] as u64) << 24u64) | ((o[5] as u64) << 16u64) | ((
    o[6] as u64) << 8u64) | (o[7] as u64)
}

/// The key of a socket.
pub open spec fn socket_key(s: RawSocket) -> ScanKey {
    match s.ip {
        IpAddress::V4(a) => (s.port, s.pid, 4u8, 0u64, a.spec_bits() as u64),
        IpAddress::V6(a) => (
            s.port,
            s.pid,
            6u8,
            upper_half(a.octets@),
            upper_half(a.octets@.subrange(8, 16)),
        ),
    }
}

/// The keys of all sockets.
pub open spec fn key_set(sockets: Seq<RawSocket>) -> Set<ScanKey> {
    Set::new(|k: ScanKey| exists|i: int| 0 <= i < sockets.len() && socket_key(#[trigger] sockets[i]) == k)
}

/// The number that the standard library's default hasher gives an ordered
/// set of keys and the LAN address.
pub uninterp spec fn scan_hash(keys: Set<ScanKey>, lan: Option<u32>) -> u64;

/// The LAN address as a number, when there is one.
pub open spec fn lan_bits(lan_ip: Option<Ipv4Addr>) -> Option<u32> {
    match lan_ip {
        Some(ip) => Some(ip.spec_bits() as u32),
        None => None,
    }
}

/// The fingerprint of a scan.
pub open spec fn spec_fingerprint(sockets: Seq<RawSocket>, lan_ip: Option<Ipv4Addr>) -> u64 {
    scan_hash(key_set(sockets), lan_bits(lan_ip))
}

/// `BuildHasher::hash_one` with `BuildHasherDefault<DefaultHasher>` on the
/// set and the LAN address: the standard library's default hasher has fixed
/// keys, and a `BTreeSet` is hashed in its key order, so the number depends on
/// the set's elements and the address alone. Which number it is is left to
/// the name `scan_hash`.
#[verifier::external_body]
fn hash_scan(keys: &std::collections::BTreeSet<ScanKey>, lan: Option<u32>) -> (r: u64)
    ensures
        r == scan_hash(keys@, lan),
{
    std::hash::BuildHasher::hash_one(
        &std::hash::BuildHasherDefault::<std::collections::hash_map::DefaultHasher>::default(),
        (keys, lan),
    )
}

fn key_of(s: &RawSocket) -> (r: ScanKey)
    ensures
        r == socket_key(*s),
{
    match &s.ip {
        IpAddress::V4(a) => (s.port, s.pid, 4u8, 0u64, a.to_bits() as u64),
        IpAddress::V6(a) => {
            let o = &a.octets;
            let hi = ((o[0] as u64) << 56u64) | ((o[1] as u64) << 48u64) | ((o[2] as u64) << 40u64)
                | ((o[3] as u64) << 32u64) | ((o[4] as u64) << 24u64) | ((o[5] as u64) << 16u64) | ((
            o[6] as u64) << 8u64) | (o[7] as u64);
            let lo = ((o[8] as u64) << 56u64) | ((o[9] as u64) << 48u64) | ((o[10] as u64)
                << 40u64) | ((o[11] as u64) << 32u64) | ((o[12] as u64) << 24u64) | ((o[13] as u64)
                << 16u64) | ((o[14] as u64) << 8u64) | (o[15] as u64);
            assert(a.octets@.subrange(8, 16)[0] == o[8]);
            assert(a.octets@.subrange(8, 16)[1] == o[9]);
            assert(a.octets@.subrange(8, 16)[2] == o[10]);
            assert(a.octets@.subrange(8, 16)[3] == o[11]);
            assert(a.octets@.subrange(8, 16)[4] == o[12]);
            assert(a.octets@.subrange(8, 16)[5] == o[13]);
            assert(a.octets@.subrange(8, 16)[6] == o[14]);
            assert(a.octets@.subrange(8, 16)[7] == o[15]);
            (s.port, s.pid, 6u8, hi, lo)
        },
    }
}

/// Cheap identity of a scan, used to publish only when something actually
/// changed: the hash of the ordered set of the sockets' keys and of the LAN
/// address.
pub fn fingerprint(sockets: &[RawSocket], lan_ip: Option<Ipv4Addr>) -> (r: u64)
    ensures
        r == spec_fingerprint(sockets@, lan_ip),
{
    let mut keys: std::collections::BTreeSet<ScanKey> = std::collections::BTreeSet::new();
    let n = sockets.len();
    for i in 0..n
        invariant
            n == sockets@.len(),
            keys@ == key_set(sockets@.take(i as int)),
    {
        let k = key_of(&sockets[i]);
        keys.insert(k);
        proof {
            assert forall|x: ScanKey| keys@.contains(x) <==> key_set(sockets@.take(i + 1)).contains(x) by {
                if key_set(sockets@.take(i as int)).contains(x) {
                    let t = choose|t: int| 0 <= t < i && socket_key(#[trigger] sockets@.take(i as int)[t]) == x;
                    assert(sockets@.take(i + 1)[t] == sockets@.take(i as int)[t]);
                }
                if x == k {
                    assert(sockets@.take(i + 1)[i as int] == sockets@[i as int]);
                }
                if key_set(sockets@.take(i + 1)).contains(x) {
                    let t = choose|t: int| 0 <= t < i + 1 && socket_key(#[trigger] sockets@.take(i + 1)[t]) == x;
                    if t < i {
                        assert(sockets@.take(i as int)[t] == sockets@.take(i + 1)[t]);
                    }
                }
            }
            assert(keys@ =~= key_set(sockets@.take(i + 1)));
        }
    }
    assert(sockets@.take(n as int) =~= sockets@);
    let lan = match lan_ip {
        Some(ip) => Some(ip.to_bits()),
        None => None,
    };
    hash_scan(&keys, lan)
}

/// Some socket listens on `port` at `ip` in process `pid`.
pub open spec fn listens(sockets: Seq<RawSocket>, port: u16, ip: IpAddress, pid: u32) -> bool {
    exists|i: int|
        0 <= i < sockets.len() && #[trigger] sockets[i].port == port && sockets[i].ip == ip
            && sockets[i].pid == pid
}

/// Law: the fingerprint ignores the order of the sockets, their process
/// names, and repeats. Two scans that hold the same (port, address, pid)
/// listeners on the same LAN address have the same fingerprint.
pub proof fn law_fingerprint_ignores_order(
    a: Seq<RawSocket>,
    b: Seq<RawSocket>,
    lan_ip: Option<Ipv4Addr>,
)
    requires
        forall|port: u16, ip: IpAddress, pid: u32| listens(a, port, ip, pid) <==> listens(b, port, ip, pid),
    ensures
        spec_fingerprint(a, lan_ip) == spec_fingerprint(b, lan_ip),
{
    assert forall|k: ScanKey| key_set(a).contains(k) implies key_set(b).contains(k) by {
        let i = choose|i: int| 0 <= i < a.len() && socket_key(#[trigger] a[i]) == k;
        assert(listens(a, a[i].port, a[i].ip, a[i].pid));
        let j = choose|j: int| 0 <= j < b.len() && #[trigger] b[j].port == a[i].port && b[j].ip == a[i].ip && b[j].pid == a[i].pid;
        assert(socket_key(b[j]) == k);
    }
    assert forall|k: ScanKey| key_set(b).contains(k) implies key_set(a).contains(k) by {
        let i = choose|i: int| 0 <= i < b.len() && socket_key(#[trigger] b[i]) == k;
        assert(listens(b, b[i].port, b[i].ip, b[i].pid));
        let j = choose|j: int| 0 <= j < a.len() && #[trigger] a[j].port == b[i].port && a[j].ip == b[i].ip && a[j].pid == b[i].pid;
        assert(socket_key(a[j]) == k);
    }
    assert(key_set(a) =~= key_set(b));
}

#[verifier::external_type_specification]
#[verifier::external_body]
pub struct ExSystemTime(std::time::SystemTime);

/// `std::time::SystemTime::now`: the clock. Nothing is stated of the time it reads.
#[verifier::external_body]
fn clock_now() -> std::time::SystemTime {
    std::time::SystemTime::now()
}

/// `SystemTime::duration_since(UNIX_EPOCH)`, its `Duration` converted to whole
/// seconds with `as_secs`: `None` for the error that a clock set before 1970
/// gives. Nothing is stated of the number or of when it is `None`, since both
/// depend on the clock reading.
#[verifier::external_body]
fn whole_seconds_since_epoch(t: &std::time::SystemTime) -> Option<u64> {
    match t.duration_since(std::time::UNIX_EPOCH) {
        Ok(d) => Some(d.as_secs()),
        Err(_) => None,
    }
}

/// The seconds since the epoch that a clock reading gave, or 0 when the clock
/// is set before 1970.
pub fn seconds_or_zero(since: Option<u64>) -> (r: u64)
    ensures
        r == match since {
            Some(s) => s,
            None => 0,
        },
{
    match since {
        Some(s) => s,
        None => 0,
    }
}

/// Seconds since the Unix epoch by the system clock; 0 when the clock is set
/// before 1970 (`seconds_or_zero` of what the clock gave). The number comes
/// from the clock, so nothing more is stated of it.
pub fn now_secs() -> u64 {
    seconds_or_zero(whole_seconds_since_epoch(&clock_now()))
}

/// Law: without a LAN address nothing is reachable; every entry has a
/// `localhost` URL and no QR code.
pub proof fn law_no_network_nothing_reachable(entries: Seq<ServerEntry>, sockets: Seq<RawSocket>)
    requires
        lists_servers(entries, sockets, None),
    ensures
        forall|i: int|
            0 <= i < entries.len() ==> {
                &&& !(#[trigger] entries[i]).reachable_from_lan
                &&& entries[i].url@ == "http://localhost:"@ + decimal_text(entries[i].port as nat)
                &&& entries[i].qr_svg@ == Seq::<char>::empty()
            },
{
    assert forall|i: int| 0 <= i < entries.len() implies {
        &&& !(#[trigger] entries[i]).reachable_from_lan
        &&& entries[i].url@ == "http://localhost:"@ + decimal_text(entries[i].port as nat)
        &&& entries[i].qr_svg@ == Seq::<char>::empty()
    } by {
        assert(describes(entries[i], sockets, None));
    }
}

/// Law: a server bound only to a local address gets a `localhost` URL and no
/// QR code; a reachable one gets the LAN URL and its QR image, an SVG image
/// that is always there.
pub proof fn law_qr_only_when_reachable(e: ServerEntry, sockets: Seq<RawSocket>, lan_ip: Option<Ipv4Addr>)
    requires
        describes(e, sockets, lan_ip),
    ensures
        !e.reachable_from_lan ==> e.qr_svg@ == Seq::<char>::empty() && e.url@ == "http://localhost:"@
            + decimal_text(e.port as nat),
        e.reachable_from_lan ==> lan_ip is Some && e.url@ == "http://"@ + lan_ip->0.spec_text()
            + seq![':'] + decimal_text(e.port as nat) && e.qr_svg@ == qr_text(e.url@)
            && starts_with(e.qr_svg@, svg_header()),
{
}

/// Law: when one socket on a port is reachable from the LAN, the entry for
/// that port is reachable (dual-stack sockets collapse to the reachable one).
pub proof fn law_reachable_socket_wins(
    e: ServerEntry,
    sockets: Seq<RawSocket>,
    lan: Ipv4Addr,
    k: int,
)
    requires
        describes(e, sockets, Some(lan)),
        0 <= k < sockets.len(),
        sockets[k].port == e.port,
        spec_is_reachable(sockets[k].ip, Some(lan)),
    ensures
        e.reachable_from_lan,
{
    let j = choose|j: int| is_best_socket(sockets, Some(lan), e.port, j) && entry_from(e, sockets[j], Some(lan));
    assert(socket_rank(sockets[k], Some(lan)) <= socket_rank(sockets[j], Some(lan)));
}

/// Only one socket stands for a port.
proof fn lemma_best_socket_unique(sockets: Seq<RawSocket>, lan_ip: Option<Ipv4Addr>, port: u16, j1: int, j2: int)
    requires
        is_best_socket(sockets, lan_ip, port, j1),
        is_best_socket(sockets, lan_ip, port, j2),
    ensures
        j1 == j2,
{
    if j1 < j2 {
        assert(socket_rank(sockets[j2], lan_ip) < socket_rank(sockets[j1], lan_ip));
        assert(socket_rank(sockets[j1], lan_ip) <= socket_rank(sockets[j2], lan_ip));
    }
    if j2 < j1 {
        assert(socket_rank(sockets[j1], lan_ip) < socket_rank(sockets[j2], lan_ip));
        assert(socket_rank(sockets[j2], lan_ip) <= socket_rank(sockets[j1], lan_ip));
    }
}

/// Law: a server list has one entry per port.
pub proof fn law_one_entry_per_port(entries: Seq<ServerEntry>, sockets: Seq<RawSocket>, lan_ip: Option<Ipv4Addr>)
    requires
        lists_servers(entries, sockets, lan_ip),
    ensures
        forall|a: int, b: int|
            0 <= a < b < entries.len() ==> (#[trigger] entries[a]).port != (#[trigger] entries[b]).port,
{
    assert forall|a: int, b: int| 0 <= a < b < entries.len() implies (#[trigger] entries[a]).port != (#[trigger] entries[b]).port by {
        if entries[a].port == entries[b].port {
            assert(describes(entries[a], sockets, lan_ip));
            assert(describes(entries[b], sockets, lan_ip));
            let ja = choose|j: int| is_best_socket(sockets, lan_ip, entries[a].port, j) && entry_from(entries[a], sockets[j], lan_ip);
            let jb = choose|j: int| is_best_socket(sockets, lan_ip, entries[b].port, j) && entry_from(entries[b], sockets[j], lan_ip);
            lemma_best_socket_unique(sockets, lan_ip, entries[a].port, ja, jb);
            assert(order_key(entries[a]) < order_key(entries[b]));
        }
    }
}

/// Law: hidden entries sort last, and among the shown (or among the hidden)
/// ones, reachable entries sort before localhost-only ones, then by port.
pub proof fn law_listing_order(entries: Seq<ServerEntry>, a: int, b: int)
    requires
        ordered(entries),
        0 <= a < b < entries.len(),
    ensures
        entries[a].hidden ==> entries[b].hidden,
        entries[a].hidden == entries[b].hidden && !entries[a].reachable_from_lan
            ==> !entries[b].reachable_from_lan,
        entries[a].hidden == entries[b].hidden && entries[a].reachable_from_lan
            == entries[b].reachable_from_lan ==> entries[a].port < entries[b].port,
{
    assert(order_key(entries[a]) < order_key(entries[b]));
}

/// Law: ports below 1024 and the OS plumbing ports are always hidden.
pub proof fn law_system_ports_hidden(port: u16, name: Seq<char>)
    requires
        port < 1024 || noise_ports().contains(port),
    ensures
        spec_is_noise(port, name),
{
}

/// Law: a dev runtime (by name, ignoring ASCII case and a trailing `.exe`)
/// on a port from 1024 up that is not OS plumbing is shown, whatever the port;
/// so is any process on a well-known dev port, unless it is an OS service.
pub proof fn law_dev_servers_shown(port: u16, name: Seq<char>)
    requires
        port >= 1024,
        !noise_ports().contains(port),
        !os_processes().contains(spec_base_name(name)),
        dev_runtimes().contains(spec_base_name(name)) || dev_ports().contains(port),
    ensures
        !spec_is_noise(port, name),
{
}

/// Law: an IPv4 socket is reachable from the LAN exactly when it is bound to
/// 0.0.0.0 or to the LAN address itself. When every socket on an entry's port
/// is an IPv4 socket bound to some other address, the entry is not reachable,
/// gets the `localhost` URL and no QR code; when one of them is bound to
/// 0.0.0.0 or to the LAN address, the entry is reachable and gets the LAN URL.
pub proof fn law_ipv4_reachable_on_any_or_lan(e: ServerEntry, sockets: Seq<RawSocket>, lan: Ipv4Addr)
    requires
        describes(e, sockets, Some(lan)),
    ensures
        (forall|k: int|
            0 <= k < sockets.len() && #[trigger] sockets[k].port == e.port ==> (sockets[k].ip matches IpAddress::V4(
                a,
            ) && a != Ipv4Addr(0, 0, 0, 0) && a != lan)) ==> {
            &&& !e.reachable_from_lan
            &&& e.url@ == "http://localhost:"@ + decimal_text(e.port as nat)
            &&& e.qr_svg@ == Seq::<char>::empty()
        },
        (exists|k: int|
            0 <= k < sockets.len() && #[trigger] sockets[k].port == e.port && (sockets[k].ip matches IpAddress::V4(
                a,
            ) && (a == Ipv4Addr(0, 0, 0, 0) || a == lan))) ==> {
            &&& e.reachable_from_lan
            &&& e.url@ == "http://"@ + lan.spec_text() + seq![':'] + decimal_text(e.port as nat)
        },
{
    let j = choose|j: int| is_best_socket(sockets, Some(lan), e.port, j) && entry_from(e, sockets[j], Some(lan));
    assert(sockets[j].port == e.port);
    if exists|k: int|
        0 <= k < sockets.len() && #[trigger] sockets[k].port == e.port && (sockets[k].ip matches IpAddress::V4(
            a,
        ) && (a == Ipv4Addr(0, 0, 0, 0) || a == lan)) {
        let k = choose|k: int|
            0 <= k < sockets.len() && #[trigger] sockets[k].port == e.port && (sockets[k].ip matches IpAddress::V4(
                a,
            ) && (a == Ipv4Addr(0, 0, 0, 0) || a == lan));
        assert(spec_is_reachable(sockets[k].ip, Some(lan)));
        law_reachable_socket_wins(e, sockets, lan, k);
    }
}

/// Law: an entry is reachable from the LAN exactly when some socket on its
/// port listens on every interface (`0.0.0.0`, or `::` which on a dual-stack
/// socket accepts IPv4 too) or on the LAN address itself (as `a.b.c.d` or as
/// `::ffff:a.b.c.d`); a socket bound to any other address (a WSL or Docker
/// bridge, a VPN, loopback) never makes it reachable.
pub proof fn law_reachable_exactly_on_any_or_lan(e: ServerEntry, sockets: Seq<RawSocket>, lan: Ipv4Addr)
    requires
        describes(e, sockets, Some(lan)),
    ensures
        e.reachable_from_lan <==> exists|k: int|
            0 <= k < sockets.len() && #[trigger] sockets[k].port == e.port && match sockets[k].ip {
                IpAddress::V4(a) => a == Ipv4Addr(0, 0, 0, 0) || a == lan,
                IpAddress::V6(v) => (forall|t: int| 0 <= t < 16 ==> v.octets@[t] == 0u8) || ((forall|
                    t: int,
                | 0 <= t < 10 ==> v.octets@[t] == 0u8) && v.octets@[10] == 255u8 && v.octets@[11]
                    == 255u8 && Ipv4Addr(v.octets@[12], v.octets@[13], v.octets@[14], v.octets@[15])
                    == lan),
            },
{
    let j = choose|j: int| is_best_socket(sockets, Some(lan), e.port, j) && entry_from(e, sockets[j], Some(lan));
    assert(sockets[j].port == e.port);
    if e.reachable_from_lan {
        assert(spec_is_reachable(sockets[j].ip, Some(lan)));
    }
    if exists|k: int|
        0 <= k < sockets.len() && #[trigger] sockets[k].port == e.port && match sockets[k].ip {
            IpAddress::V4(a) => a == Ipv4Addr(0, 0, 0, 0) || a == lan,
            IpAddress::V6(v) => (forall|t: int| 0 <= t < 16 ==> v.octets@[t] == 0u8) || ((forall|
                t: int,
            | 0 <= t < 10 ==> v.octets@[t] == 0u8) && v.octets@[10] == 255u8 && v.octets@[11]
                == 255u8 && Ipv4Addr(v.octets@[12], v.octets@[13], v.octets@[14], v.octets@[15])
                == lan),
        } {
        let k = choose|k: int|
            0 <= k < sockets.len() && #[trigger] sockets[k].port == e.port && match sockets[k].ip {
                IpAddress::V4(a) => a == Ipv4Addr(0, 0, 0, 0) || a == lan,
                IpAddress::V6(v) => (forall|t: int| 0 <= t < 16 ==> v.octets@[t] == 0u8) || ((forall|
                    t: int,
                | 0 <= t < 10 ==> v.octets@[t] == 0u8) && v.octets@[10] == 255u8 && v.octets@[11]
                    == 255u8 && Ipv4Addr(v.octets@[12], v.octets@[13], v.octets@[14], v.octets@[15])
                    == lan),
            };
        assert(spec_is_reachable(sockets[k].ip, Some(lan)));
        law_reachable_socket_wins(e, sockets, lan, k);
    }
}

/// Eight octets that give the same half are the same octets.
proof fn lemma_upper_half_injective(o: Seq<u8>, q: Seq<u8>)
    requires
        o.len() >= 8,
        q.len() >= 8,
        upper_half(o) == upper_half(q),
    ensures
        forall|i: int| 0 <= i < 8 ==> o[i] == q[i],
{
    let (a0, a1, a2, a3, a4, a5, a6, a7) = (o[0], o[1], o[2], o[3], o[4], o[5], o[6], o[7]);
    let (b0, b1, b2, b3, b4, b5, b6, b7) = (q[0], q[1], q[2], q[3], q[4], q[5], q[6], q[7]);
    assert(a0 == b0 && a1 == b1 && a2 == b2 && a3 == b3 && a4 == b4 && a5 == b5 && a6 == b6 && a7 == b7)
        by (bit_vector)
        requires
            ((a0 as u64) << 56u64) | ((a1 as u64) << 48u64) | ((a2 as u64) << 40u64) | ((a3 as u64)
                << 32u64) | ((a4 as u64) << 24u64) | ((a5 as u64) << 16u64) | ((a6 as u64) << 8u64)
                | (a7 as u64) == ((b0 as u64) << 56u64) | ((b1 as u64) << 48u64) | ((b2 as u64)
                << 40u64) | ((b3 as u64) << 32u64) | ((b4 as u64) << 24u64) | ((b5 as u64) << 16u64)
                | ((b6 as u64) << 8u64) | (b7 as u64),
    ;
    assert forall|i: int| 0 <= i < 8 implies o[i] == q[i] by {
        if i == 0 {} else if i == 1 {} else if i == 2 {} else if i == 3 {} else if i == 4 {} else if i == 5 {} else if i == 6 {} else {}
    }
}

/// Two IPv4 addresses with the same 32-bit number are the same address.
proof fn lemma_ipv4_bits_injective(a: Ipv4Addr, b: Ipv4Addr)
    requires
        a.spec_bits() == b.spec_bits(),
    ensures
        a == b,
{
    let (a0, a1, a2, a3, b0, b1, b2, b3) = (a.0, a.1, a.2, a.3, b.0, b.1, b.2, b.3);
    assert(a0 == b0 && a1 == b1 && a2 == b2 && a3 == b3) by (nonlinear_arith)
        requires
            a0 * 16777216 + a1 * 65536 + a2 * 256 + a3 == b0 * 16777216 + b1 * 65536 + b2 * 256 + b3,
            a0 <= 255 && a1 <= 255 && a2 <= 255 && a3 <= 255,
            b0 <= 255 && b1 <= 255 && b2 <= 255 && b3 <= 255,
    ;
}

/// Law: the fingerprint is taken of everything that tells two scans apart.
/// The LAN value hashed is the whole address, so two different LAN addresses
/// (or an address and none) are never hashed alike; and two sockets give the
/// same key exactly when they listen on the same port, in the same process,
/// at the same address.
pub proof fn law_fingerprint_inputs_are_exact(
    a: Option<Ipv4Addr>,
    b: Option<Ipv4Addr>,
    x: RawSocket,
    y: RawSocket,
)
    ensures
        lan_bits(a) == lan_bits(b) <==> a == b,
        socket_key(x) == socket_key(y) <==> {
            &&& x.port == y.port
            &&& x.pid == y.pid
            &&& match (x.ip, y.ip) {
                (IpAddress::V4(p), IpAddress::V4(q)) => p == q,
                (IpAddress::V6(p), IpAddress::V6(q)) => p.octets@ == q.octets@,
                _ => false,
            }
        },
{
    if lan_bits(a) == lan_bits(b) {
        if a is Some && b is Some {
            lemma_ipv4_bits_injective(a->0, b->0);
        }
    }
    if socket_key(x) == socket_key(y) {
        match (x.ip, y.ip) {
            (IpAddress::V4(p), IpAddress::V4(q)) => {
                lemma_ipv4_bits_injective(p, q);
            },
            (IpAddress::V6(p), IpAddress::V6(q)) => {
                lemma_upper_half_injective(p.octets@, q.octets@);
                lemma_upper_half_injective(p.octets@.subrange(8, 16), q.octets@.subrange(8, 16));
                assert forall|i: int| 0 <= i < 16 implies p.octets@[i] == q.octets@[i] by {
                    if i >= 8 {
                        assert(p.octets@.subrange(8, 16)[i - 8] == q.octets@.subrange(8, 16)[i - 8]);
                    }
                }
                assert(p.octets@ =~= q.octets@);
            },
            _ => {},
        }
    }
    match (x.ip, y.ip) {
        (IpAddress::V6(p), IpAddress::V6(q)) => {
            if p.octets@ == q.octets@ {
                assert(p.octets@.subrange(8, 16) == q.octets@.subrange(8, 16));
            }
        },
        _ => {},
    }
}

/// Law: the socket table is cut down to its listening TCP rows and nothing
/// else: what is kept is, in order, the sockets of exactly those rows that are
/// TCP and listening. So no UDP row and no TCP row in another state is kept,
/// and every listening TCP row is.
pub proof fn law_only_listening_tcp_rows_kept(rows: Seq<TableRow>)
    ensures
        listening_tcp(rows) == rows.filter(|r: TableRow| r.tcp && r.listening).map_values(
            |r: TableRow| r.socket,
        ),
        forall|k: int|
            0 <= k < listening_tcp(rows).len() ==> exists|i: int|
                0 <= i < rows.len() && (#[trigger] rows[i]).tcp && rows[i].listening && rows[i].socket
                    == #[trigger] listening_tcp(rows)[k],
        forall|i: int|
            0 <= i < rows.len() && (#[trigger] rows[i]).tcp && rows[i].listening ==> listening_tcp(
                rows,
            ).contains(rows[i].socket),
    decreases rows.len(),
{
    let pred = |r: TableRow| r.tcp && r.listening;
    let f = |r: TableRow| r.socket;
    if rows.len() == 0 {
        reveal(Seq::filter);
        assert(rows.filter(pred).map_values(f) =~= Seq::<RawSocket>::empty());
    } else {
        let rest = rows.drop_first();
        law_only_listening_tcp_rows_kept(rest);
        assert(rows =~= seq![rows[0]] + rest);
        Seq::filter_distributes_over_add(seq![rows[0]], rest, pred);
        reveal_with_fuel(Seq::filter, 2);
        assert(seq![rows[0]].drop_last() =~= Seq::<TableRow>::empty());
        let head = seq![rows[0]].filter(pred);
        if pred(rows[0]) {
            assert(head =~= seq![rows[0]]);
            assert(listening_tcp(rows) =~= (head + rest.filter(pred)).map_values(f));
        } else {
            assert(head =~= Seq::<TableRow>::empty());
            assert(listening_tcp(rows) =~= (head + rest.filter(pred)).map_values(f));
        }
        assert forall|k: int| 0 <= k < listening_tcp(rows).len() implies exists|i: int|
            0 <= i < rows.len() && (#[trigger] rows[i]).tcp && rows[i].listening && rows[i].socket
                == #[trigger] listening_tcp(rows)[k] by {
            if pred(rows[0]) && k == 0 {
                assert(rows[0].tcp && rows[0].listening);
            } else {
                let k2 = if pred(rows[0]) { k - 1 } else { k };
                assert(listening_tcp(rows)[k] == listening_tcp(rest)[k2]);
                let i2 = choose|i: int|
                    0 <= i < rest.len() && (#[trigger] rest[i]).tcp && rest[i].listening && rest[i].socket
                        == listening_tcp(rest)[k2];
                assert(rows[i2 + 1] == rest[i2]);
            }
        }
        assert forall|i: int| 0 <= i < rows.len() && (#[trigger] rows[i]).tcp && rows[i].listening implies listening_tcp(
            rows,
        ).contains(rows[i].socket) by {
            if i == 0 {
                assert(listening_tcp(rows)[0] == rows[0].socket);
            } else {
                assert(rest[i - 1] == rows[i]);
                let k = choose|k: int| 0 <= k < listening_tcp(rest).len() && listening_tcp(rest)[k] == rows[i].socket;
                if pred(rows[0]) {
                    assert(listening_tcp(rows)[k + 1] == rows[i].socket);
                } else {
                    assert(listening_tcp(rows)[k] == rows[i].socket);
                }
            }
        }
    }
}

} // verus!
