use localhost_linker::ip::{is_usable, is_virtual, pick_lan_ipv4, rank};
use localhost_linker::net::Ipv4Addr;

fn addr(text: &str) -> Ipv4Addr {
    let parts: Vec<u8> = text.split('.').map(|p| p.parse().unwrap()).collect();
    assert_eq!(parts.len(), 4);
    Ipv4Addr::new(parts[0], parts[1], parts[2], parts[3])
}

fn nic(name: &str, ip: &str) -> (String, Ipv4Addr) {
    (name.to_string(), addr(ip))
}

#[test]
fn routed_breaks_ties_between_two_home_nics() {
    let ifs = [nic("Wi-Fi", "192.168.1.5"), nic("Ethernet", "192.168.1.9")];
    assert_eq!(pick_lan_ipv4(Some(addr("192.168.1.9")), &ifs), Some(addr("192.168.1.9")));
}

#[test]
fn ignores_vpn_that_owns_the_default_route() {
    let ifs = [nic("NordLynx", "10.5.0.2"), nic("vEthernet (WSL (Hyper-V firewall))", "172.22.48.1"), nic("Ethernet", "192.168.0.105")];
    assert_eq!(pick_lan_ipv4(Some(addr("10.5.0.2")), &ifs), Some(addr("192.168.0.105")));
}

#[test]
fn skips_linux_and_macos_virtual_bridges() {
    let ifs = [nic("virbr0", "192.168.122.1"), nic("vmnet8", "192.168.56.1"), nic("docker0", "172.17.0.1"), nic("wlp2s0", "192.168.1.20")];
    assert_eq!(pick_lan_ipv4(Some(addr("10.8.0.2")), &ifs), Some(addr("192.168.1.20")));
    let mac = [nic("utun4", "10.5.0.2"), nic("en0", "192.168.4.31")];
    assert_eq!(pick_lan_ipv4(Some(addr("10.5.0.2")), &mac), Some(addr("192.168.4.31")));
}

#[test]
fn office_10_network_is_used_when_no_home_range_exists() {
    let ifs = [nic("Ethernet", "10.20.30.40"), nic("vEthernet (Default Switch)", "172.22.240.1")];
    assert_eq!(pick_lan_ipv4(Some(addr("10.20.30.40")), &ifs), Some(addr("10.20.30.40")));
}

#[test]
fn skips_hyperv_172_when_wifi_exists() {
    let ifs = [nic("vEthernet (Default Switch)", "172.20.0.1"), nic("Wi-Fi", "192.168.1.5")];
    assert_eq!(pick_lan_ipv4(Some(addr("172.20.0.1")), &ifs), Some(addr("192.168.1.5")));
}

#[test]
fn keeps_172_office_network_when_it_is_all_there_is() {
    let ifs = [nic("Ethernet", "172.18.4.20")];
    assert_eq!(pick_lan_ipv4(Some(addr("172.18.4.20")), &ifs), Some(addr("172.18.4.20")));
}

#[test]
fn rejects_link_local_and_loopback() {
    let ifs = [nic("Loopback Pseudo-Interface 1", "127.0.0.1"), nic("Ethernet", "169.254.3.3")];
    assert_eq!(pick_lan_ipv4(Some(addr("169.254.3.3")), &ifs), None);
}

#[test]
fn falls_back_to_interfaces_when_offline() {
    let ifs = [nic("Wi-Fi", "192.168.0.12")];
    assert_eq!(pick_lan_ipv4(None, &ifs), Some(addr("192.168.0.12")));
}

#[test]
fn routed_address_unknown_to_interfaces_only_breaks_ties() {
    let ifs = [nic("Ethernet", "10.1.2.3")];
    assert_eq!(pick_lan_ipv4(Some(addr("192.168.7.7")), &ifs), Some(addr("10.1.2.3")));
    let office = [nic("Ethernet", "172.18.4.20")];
    assert_eq!(pick_lan_ipv4(Some(addr("10.8.0.2")), &office), Some(addr("172.18.4.20")));
    assert_eq!(pick_lan_ipv4(Some(addr("192.168.7.7")), &[]), None);
}

#[test]
fn routed_address_of_a_virtual_nic_is_not_added_back() {
    let ifs = [nic("docker0", "192.168.9.1"), nic("Ethernet", "10.1.2.3")];
    assert_eq!(pick_lan_ipv4(Some(addr("192.168.9.1")), &ifs), Some(addr("10.1.2.3")));
}

#[test]
fn first_of_equal_rank_wins_without_route() {
    let ifs = [nic("Wi-Fi", "192.168.1.5"), nic("Ethernet", "192.168.1.9")];
    assert_eq!(pick_lan_ipv4(None, &ifs), Some(addr("192.168.1.5")));
}

#[test]
fn nothing_to_choose_from() {
    assert_eq!(pick_lan_ipv4(None, &[]), None);
    assert_eq!(pick_lan_ipv4(Some(addr("0.0.0.0")), &[]), None);
}

#[test]
fn virtual_names_ignore_ascii_case() {
    assert!(is_virtual("vEthernet (WSL)"));
    assert!(is_virtual("NordLynx"));
    assert!(is_virtual("TAILSCALE"));
    assert!(!is_virtual("Wi-Fi"));
    assert!(!is_virtual("en0"));
    assert!(!is_virtual(""));
}

#[test]
fn rank_orders_private_ranges() {
    assert_eq!(rank(&addr("192.168.0.1")), 0);
    assert_eq!(rank(&addr("10.0.0.1")), 1);
    assert_eq!(rank(&addr("172.16.0.1")), 2);
    assert_eq!(rank(&addr("172.31.255.1")), 2);
    assert_eq!(rank(&addr("172.32.0.1")), 3);
    assert_eq!(rank(&addr("8.8.8.8")), 3);
}

#[test]
fn usable_excludes_special_addresses() {
    assert!(!is_usable(&addr("127.0.0.1")));
    assert!(!is_usable(&addr("169.254.1.1")));
    assert!(!is_usable(&addr("0.0.0.0")));
    assert!(is_usable(&addr("192.168.1.1")));
}
