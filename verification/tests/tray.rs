use localhost_linker::scanner::{RawSocket, ServerEntry, Snapshot};
use localhost_linker::net::{IpAddress, Ipv4Addr};
use localhost_linker::tray::{error_snapshot, menu_action, scan_snapshot, tooltip_for, tray_click, MenuAction, Poller, ScanOutcome, TrayClick};

fn entry(port: u16, hidden: bool, reachable: bool) -> ServerEntry {
    ServerEntry {
        port,
        bind_addr: "0.0.0.0".to_string(),
        process_name: "node".to_string(),
        pid: 1,
        reachable_from_lan: reachable,
        hidden,
        url: String::new(),
        qr_svg: String::new(),
    }
}

#[test]
fn tooltip_counts_shown_servers() {
    let snap = Snapshot {
        lan_ip: Some("192.168.1.5".to_string()),
        servers: vec![entry(3000, false, true), entry(5173, false, false), entry(135, true, true)],
        scanned_at: 0,
        error: None,
    };
    assert_eq!(tooltip_for(&snap), "Localhost Linker · 2 servers (1 on LAN) · 192.168.1.5");
}

#[test]
fn tooltip_singular_and_empty() {
    let one = Snapshot { lan_ip: None, servers: vec![entry(3000, false, false)], scanned_at: 0, error: None };
    assert_eq!(tooltip_for(&one), "Localhost Linker · 1 server (0 on LAN) · no network");
    let none = Snapshot::default();
    assert_eq!(tooltip_for(&none), "Localhost Linker · no dev servers · no network");
}

#[test]
fn poller_publishes_only_changes() {
    let mut p = Poller::new();
    assert!(p.observe(&ScanOutcome::Sockets { fingerprint: 7 }));
    assert!(!p.observe(&ScanOutcome::Sockets { fingerprint: 7 }));
    assert!(p.observe(&ScanOutcome::Sockets { fingerprint: 8 }));
    assert!(p.observe(&ScanOutcome::Failed { error: "denied".to_string() }));
    assert!(!p.observe(&ScanOutcome::Failed { error: "denied".to_string() }));
    assert!(p.observe(&ScanOutcome::Failed { error: "other".to_string() }));
    assert!(p.observe(&ScanOutcome::Sockets { fingerprint: 8 }), "a scan after an error is always published");
}

#[test]
fn tray_click_rules() {
    assert_eq!(tray_click(true, None), TrayClick::Hide);
    assert_eq!(tray_click(true, Some(0)), TrayClick::Hide);
    assert_eq!(tray_click(false, Some(100_000_000)), TrayClick::Ignore);
    assert_eq!(tray_click(false, Some(250_000_000)), TrayClick::Show);
    assert_eq!(tray_click(false, None), TrayClick::Show);
}

#[test]
fn menu_ids() {
    assert_eq!(menu_action("open"), MenuAction::ShowServers);
    assert_eq!(menu_action("autostart"), MenuAction::ToggleAutostart);
    assert_eq!(menu_action("quit"), MenuAction::Quit);
    assert_eq!(menu_action("Quit"), MenuAction::Nothing);
}

#[test]
fn snapshots_of_scans_and_errors() {
    let socks = [RawSocket { ip: IpAddress::V4(Ipv4Addr::new(0, 0, 0, 0)), port: 3000, pid: 9, name: "node".to_string() }];
    let snap = scan_snapshot(&socks, Some(Ipv4Addr::new(10, 0, 0, 4)), 42);
    assert_eq!(snap.lan_ip.as_deref(), Some("10.0.0.4"));
    assert_eq!(snap.servers.len(), 1);
    assert_eq!(snap.servers[0].url, "http://10.0.0.4:3000");
    assert_eq!(snap.scanned_at, 42);
    assert!(snap.error.is_none());
    let failed = error_snapshot("no table".to_string(), None, 43);
    assert!(failed.lan_ip.is_none());
    assert!(failed.servers.is_empty());
    assert_eq!(failed.error.as_deref(), Some("no table"));
}

#[test]
fn error_then_same_scan_is_published_again() {
    let mut p = Poller::new();
    assert!(p.observe(&ScanOutcome::Sockets { fingerprint: 1 }));
    assert!(p.observe(&ScanOutcome::Failed { error: "x".to_string() }));
    assert!(p.observe(&ScanOutcome::Sockets { fingerprint: 1 }));
    assert!(!p.observe(&ScanOutcome::Sockets { fingerprint: 1 }));
    assert!(p.observe(&ScanOutcome::Failed { error: "x".to_string() }), "an error after a published scan is published");
}
