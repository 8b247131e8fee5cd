use localhost_linker::net::{IpAddress, Ipv4Addr, Ipv6Addr};
use localhost_linker::scanner::{base_name, build, display_name, fingerprint, is_noise, is_reachable, listening_tcp_sockets, seconds_or_zero, RawSocket, TableRow};

const LAN: Ipv4Addr = Ipv4Addr(192, 168, 1, 5);

fn v4(text: &str) -> Ipv4Addr {
    let parts: Vec<u8> = text.split('.').map(|p| p.parse().unwrap()).collect();
    Ipv4Addr::new(parts[0], parts[1], parts[2], parts[3])
}

fn groups(text: &str) -> Vec<u16> {
    if text.is_empty() {
        Vec::new()
    } else {
        text.split(':').map(|g| u16::from_str_radix(g, 16).unwrap()).collect()
    }
}

fn v6(text: &str) -> Ipv6Addr {
    let segs: Vec<u16> = match text.split_once("::") {
        Some((head, tail)) => {
            let head = groups(head);
            let tail = groups(tail);
            let mut all = head.clone();
            all.resize(8 - tail.len(), 0);
            all.extend(tail);
            all
        }
        None => groups(text),
    };
    Ipv6Addr::new(segs[0], segs[1], segs[2], segs[3], segs[4], segs[5], segs[6], segs[7])
}

fn ip(text: &str) -> IpAddress {
    if text.contains(':') {
        IpAddress::V6(v6(text))
    } else {
        IpAddress::V4(v4(text))
    }
}

fn sock(ip_text: &str, port: u16, name: &str) -> RawSocket {
    RawSocket { ip: ip(ip_text), port, pid: 100 + port as u32, name: name.into() }
}

#[test]
fn wildcard_bind_is_reachable_with_lan_url_and_qr() {
    let out = build(&[sock("0.0.0.0", 3000, "node.exe")], Some(LAN));
    assert_eq!(out.len(), 1);
    assert!(out[0].reachable_from_lan);
    assert_eq!(out[0].url, "http://192.168.1.5:3000");
    assert_eq!(out[0].process_name, "node");
    assert!(out[0].qr_svg.contains("<svg"));
}

#[test]
fn loopback_bind_is_localhost_only_without_qr() {
    let out = build(&[sock("::1", 5173, "node.exe")], Some(LAN));
    assert!(!out[0].reachable_from_lan);
    assert_eq!(out[0].url, "http://localhost:5173");
    assert!(out[0].qr_svg.is_empty());
}

#[test]
fn dual_stack_sockets_collapse_and_prefer_reachable() {
    let out = build(&[sock("127.0.0.1", 8080, "python"), sock("::", 8080, "python")], Some(LAN));
    assert_eq!(out.len(), 1);
    assert!(out[0].reachable_from_lan);
    assert_eq!(out[0].bind_addr, "::");
}

#[test]
fn bound_to_lan_ip_is_reachable() {
    let out = build(&[sock("192.168.1.5", 4200, "ng")], Some(LAN));
    assert!(out[0].reachable_from_lan);
}

#[test]
fn no_network_means_nothing_is_reachable() {
    let out = build(&[sock("0.0.0.0", 3000, "node")], None);
    assert!(!out[0].reachable_from_lan);
    assert_eq!(out[0].url, "http://localhost:3000");
}

#[test]
fn system_plumbing_is_hidden_and_sorted_last() {
    let out = build(
        &[sock("0.0.0.0", 135, "svchost.exe"), sock("0.0.0.0", 49664, "lsass.exe"), sock("::1", 5173, "node"), sock("127.0.0.1", 9180, "lghub_updater.exe"), sock("0.0.0.0", 2179, "vmms.exe"), sock("127.0.0.1", 41234, "node.exe")],
        Some(LAN),
    );
    let shown: Vec<u16> = out.iter().filter(|e| !e.hidden).map(|e| e.port).collect();
    assert_eq!(shown, vec![5173, 41234], "node on any port shows; background apps hide");
    assert!(out[2..].iter().all(|e| e.hidden), "hidden entries sort last");
}

#[test]
fn macos_airplay_receiver_on_dev_ports_is_hidden() {
    let out = build(&[sock("0.0.0.0", 5000, "ControlCenter"), sock("::", 7000, "ControlCenter"), sock("0.0.0.0", 8080, "java")], Some(LAN));
    let shown: Vec<u16> = out.iter().filter(|e| !e.hidden).map(|e| e.port).collect();
    assert_eq!(shown, vec![8080]);
}

#[test]
fn reachable_sorts_before_localhost_only() {
    let out = build(&[sock("::1", 3000, "node"), sock("0.0.0.0", 8000, "python")], Some(LAN));
    assert_eq!(out.iter().map(|e| e.port).collect::<Vec<_>>(), vec![8000, 3000]);
}

#[test]
fn fingerprint_ignores_order_but_sees_changes() {
    let a = sock("0.0.0.0", 3000, "node");
    let b = sock("::1", 5173, "node");
    let f1 = fingerprint(&[a.clone(), b.clone()], Some(LAN));
    assert_eq!(f1, fingerprint(&[b.clone(), a.clone()], Some(LAN)));
    assert_ne!(f1, fingerprint(&[a.clone()], Some(LAN)));
    assert_ne!(f1, fingerprint(&[a, b], None));
}

#[test]
fn fingerprint_ignores_repeats_and_names() {
    let a = sock("0.0.0.0", 3000, "node");
    let mut renamed = a.clone();
    renamed.name = "other".to_string();
    assert_eq!(fingerprint(&[a.clone()], Some(LAN)), fingerprint(&[a.clone(), renamed], Some(LAN)));
    assert_ne!(fingerprint(&[sock("0.0.0.0", 3000, "node")], None), fingerprint(&[sock("::", 3000, "node")], None));
}

#[test]
fn last_of_equally_good_sockets_stands_for_the_port() {
    let mut first = sock("0.0.0.0", 3000, "node");
    first.pid = 1;
    let mut second = sock("0.0.0.0", 3000, "node");
    second.pid = 2;
    let out = build(&[first, second], Some(LAN));
    assert_eq!(out.len(), 1);
    assert_eq!(out[0].pid, 2);
}

#[test]
fn ipv4_preferred_over_ipv6_then_named() {
    let out = build(&[sock("127.0.0.1", 3000, "node"), sock("::1", 3000, "node")], Some(LAN));
    assert_eq!(out[0].bind_addr, "127.0.0.1");
    let out = build(&[sock("127.0.0.1", 3001, "node"), sock("127.0.0.1", 3001, "")], Some(LAN));
    assert_eq!(out[0].process_name, "node");
}

#[test]
fn mapped_ipv6_on_lan_address_is_reachable() {
    let out = build(&[sock("::ffff:c0a8:105", 3000, "node")], Some(LAN));
    assert!(out[0].reachable_from_lan);
    assert_eq!(out[0].bind_addr, "::ffff:192.168.1.5");
}

#[test]
fn unnamed_process_shows_as_unknown() {
    assert_eq!(display_name(""), "unknown");
    assert_eq!(display_name(".exe"), "unknown");
    assert_eq!(display_name("Node.EXE"), "Node.EXE");
    assert_eq!(display_name("node.exe"), "node");
}

#[test]
fn base_name_lowercases_and_strips_exe() {
    assert_eq!(base_name("Node.EXE"), "node");
    assert_eq!(base_name("Python3.exe"), "python3");
    assert_eq!(base_name("ControlCenter"), "controlcenter");
}

#[test]
fn noise_rules() {
    assert!(is_noise(135, "node"));
    assert!(is_noise(80, "nginx"));
    assert!(!is_noise(3000, "whatever"));
    assert!(!is_noise(41234, "python3.11"));
    assert!(is_noise(5000, "ControlCenter"));
    assert!(is_noise(9180, "lghub_updater.exe"));
}

#[test]
fn reachability_rules() {
    assert!(is_reachable(&ip("0.0.0.0"), None));
    assert!(is_reachable(&ip("::"), None));
    assert!(!is_reachable(&ip("192.168.1.5"), None));
    assert!(is_reachable(&ip("192.168.1.5"), Some(LAN)));
    assert!(!is_reachable(&ip("::1"), Some(LAN)));
    assert!(!is_reachable(&ip("127.0.0.1"), Some(LAN)));
}

#[test]
fn ipv6_text_compresses_the_first_longest_zero_run() {
    let text = |t: &str| {
        let mut out = Vec::new();
        ip(t).push_text(&mut out);
        out.into_iter().collect::<String>()
    };
    assert_eq!(text("::"), "::");
    assert_eq!(text("::1"), "::1");
    assert_eq!(text("fe80::1"), "fe80::1");
    assert_eq!(text("1:0:0:2:0:0:0:3"), "1:0:0:2::3");
    assert_eq!(text("1:0:0:2:3:0:0:4"), "1::2:3:0:0:4");
    assert_eq!(text("1:2:3:4:5:6:0:8"), "1:2:3:4:5:6:0:8");
    assert_eq!(text("2001:db8:0:0:0:0:abcd:ef"), "2001:db8::abcd:ef");
    assert_eq!(text("10.0.255.7"), "10.0.255.7");
}

#[test]
fn only_listening_tcp_rows_are_kept_in_order() {
    let rows = vec![
        TableRow { socket: sock("0.0.0.0", 3000, "node"), tcp: true, listening: true },
        TableRow { socket: sock("0.0.0.0", 53, "dns"), tcp: false, listening: true },
        TableRow { socket: sock("10.0.0.2", 4000, "node"), tcp: true, listening: false },
        TableRow { socket: sock("::", 8080, "java"), tcp: true, listening: true },
    ];
    let kept: Vec<u16> = listening_tcp_sockets(rows).iter().map(|s| s.port).collect();
    assert_eq!(kept, vec![3000, 8080]);
}

#[test]
fn clock_before_epoch_gives_zero() {
    assert_eq!(seconds_or_zero(None), 0);
    assert_eq!(seconds_or_zero(Some(1_700_000_000)), 1_700_000_000);
}

#[test]
fn reachable_entries_always_have_a_qr_code() {
    let out = build(&[sock("0.0.0.0", 65535, "node")], Some(Ipv4Addr(255, 255, 255, 255)));
    assert!(out[0].reachable_from_lan);
    assert_eq!(out[0].url, "http://255.255.255.255:65535");
    assert!(out[0].qr_svg.starts_with("<?xml version=\"1.0\" standalone=\"yes\"?><svg"));
}
