//! Choosing the LAN IPv4 address that a phone on the same network would use
//! to reach this machine.
use vstd::prelude::*;

use crate::net::Ipv4Addr;
use crate::text::{chars_of, contains_text, lower_text, lowercase_ascii, occurs_in};

verus! {

/// Pieces of interface names that belong to virtual or VPN adapters that a
/// phone on the same Wi-Fi can never reach: Windows friendly names such as
/// "vEthernet (WSL)" and macOS/Linux device names such as "virbr0".
pub open spec fn virtual_hints() -> Seq<Seq<char>> {
    seq![
        "veth"@, "wsl"@, "hyper-v"@, "virtualbox"@, "vboxnet"@, "vmware"@, "vmnet"@, "docker"@,
        "br-"@, "virbr"@, "lxcbr"@, "lxdbr"@, "podman"@, "cni"@, "flannel"@, "loopback"@,
        "bluetooth"@, "awdl"@, "llw"@, "anpi"@, "tailscale"@, "zerotier"@, "wireguard"@, "wg0"@,
        "nordlynx"@, "nordvpn"@, "openvpn"@, "tap-"@, "proton"@, "mullvad"@, "expressvpn"@,
        "surfshark"@, "cloudflare"@, "warp"@, "vpn"@, "tunnel"@, "utun"@, "tun0"@,
    ]
}

fn virtual_hint_list() -> (r: Vec<&'static str>)
    ensures
        r@.len() == virtual_hints().len(),
        forall|k: int| 0 <= k < r@.len() ==> #[trigger] r@[k]@ == virtual_hints()[k],
{
    let r = vec![
        "veth", "wsl", "hyper-v", "virtualbox", "vboxnet", "vmware", "vmnet", "docker",
        "br-", "virbr", "lxcbr", "lxdbr", "podman", "cni", "flannel", "loopback",
        "bluetooth", "awdl", "llw", "anpi", "tailscale", "zerotier", "wireguard", "wg0",
        "nordlynx", "nordvpn", "openvpn", "tap-", "proton", "mullvad", "expressvpn",
        "surfshark", "cloudflare", "warp", "vpn", "tunnel", "utun", "tun0",
    ];
    r
}

/// The interface name, lower-cased in ASCII, holds one of the virtual hints.
pub open spec fn spec_is_virtual(name: Seq<char>) -> bool {
    exists|k: int|
        0 <= k < virtual_hints().len() && occurs_in(lower_text(name), #[trigger] virtual_hints()[k])
}

/// Not loopback, not link-local and not unspecified.
pub open spec fn spec_is_usable(ip: Ipv4Addr) -> bool {
    !ip.spec_is_loopback() && !ip.spec_is_link_local() && !ip.spec_is_unspecified()
}

/// Lower is more likely to be the network a phone is on: 192.168/16 is 0,
/// 10/8 is 1, 172.16/12 is 2, anything else 3.
pub open spec fn spec_rank(ip: Ipv4Addr) -> int {
    if ip.0 == 192 && ip.1 == 168 {
        0
    } else if ip.0 == 10 {
        1
    } else if ip.0 == 172 && 16 <= ip.1 <= 31 {
        2
    } else {
        3
    }
}

/// The usable addresses of the interfaces that do not look virtual, in order.
pub open spec fn physical_addresses(interfaces: Seq<(String, Ipv4Addr)>) -> Seq<Ipv4Addr>
    decreases interfaces.len(),
{
    if interfaces.len() == 0 {
        seq![]
    } else {
        let rest = physical_addresses(interfaces.drop_last());
        let (name, ip) = interfaces.last();
        if !spec_is_virtual(name@) && spec_is_usable(ip) {
            rest.push(ip)
        } else {
            rest
        }
    }
}

/// The order of preference: by rank, and within a rank the routed address
/// first. The routed address only orders addresses of equal rank; it is never
/// a candidate of its own.
pub open spec fn preference(ip: Ipv4Addr, routed: Option<Ipv4Addr>) -> int {
    2 * spec_rank(ip) + if routed == Some(ip) {
        0int
    } else {
        1int
    }
}

/// `k` is the first index of `c` whose preference is the least.
pub open spec fn is_first_best(c: Seq<Ipv4Addr>, routed: Option<Ipv4Addr>, k: int) -> bool {
    &&& 0 <= k < c.len()
    &&& forall|j: int| 0 <= j < c.len() ==> preference(c[k], routed) <= preference(#[trigger] c[j], routed)
    &&& forall|j: int| 0 <= j < k ==> preference(#[trigger] c[j], routed) > preference(c[k], routed)
}

/// The chosen address: none when no interface has a physical address, else
/// the first physical address of least preference.
pub open spec fn chosen_address(routed: Option<Ipv4Addr>, interfaces: Seq<(String, Ipv4Addr)>) -> Option<
    Ipv4Addr,
> {
    let c = physical_addresses(interfaces);
    if c.len() == 0 {
        None
    } else {
        Some(c[choose|k: int| is_first_best(c, routed, k)])
    }
}

/// Whether an interface name looks like a virtual or VPN adapter.
pub fn is_virtual(name: &str) -> (r: bool)
    ensures
        r == spec_is_virtual(name@),
{
    let chars = chars_of(name);
    let lower = lowercase_ascii(chars.as_slice());
    let hints = virtual_hint_list();
    let n = hints.len();
    for k in 0..n
        invariant
            n == hints@.len(),
            hints@.len() == virtual_hints().len(),
            forall|j: int| 0 <= j < hints@.len() ==> #[trigger] hints@[j]@ == virtual_hints()[j],
            lower@ == lower_text(name@),
            forall|j: int| 0 <= j < k ==> !occurs_in(lower@, #[trigger] virtual_hints()[j]),
    {
        let hint = chars_of(hints[k]);
        if contains_text(lower.as_slice(), hint.as_slice()) {
            assert(occurs_in(lower_text(name@), virtual_hints()[k as int]));
            return true;
        }
    }
    false
}

/// Whether a phone could use the address at all.
pub fn is_usable(ip: &Ipv4Addr) -> (r: bool)
    ensures
        r == spec_is_usable(*ip),
{
    !ip.is_loopback() && !ip.is_link_local() && !ip.is_unspecified()
}

/// Lower is more likely to be the network a phone is on. Home routers hand
/// out 192.168/16; offices use 10/8; VPNs (NordLynx 10.5.0.2) and Hyper-V/WSL
/// (172.16/12) crowd the rest.
pub fn rank(ip: &Ipv4Addr) -> (r: u8)
    ensures
        r == spec_rank(*ip),
{
    if ip.0 == 192 && ip.1 == 168 {
        0
    } else if ip.0 == 10 {
        1
    } else if ip.0 == 172 && 16 <= ip.1 && ip.1 <= 31 {
        2
    } else {
        3
    }
}

fn preference_of(ip: &Ipv4Addr, routed: Option<Ipv4Addr>) -> (r: u8)
    ensures
        r == preference(*ip, routed),
{
    let tie = match routed {
        Some(x) => if x == *ip {
            0
        } else {
            1
        },
        None => 1,
    };
    2 * rank(ip) + tie
}

proof fn lemma_first_best_unique(c: Seq<Ipv4Addr>, routed: Option<Ipv4Addr>, k1: int, k2: int)
    requires
        is_first_best(c, routed, k1),
        is_first_best(c, routed, k2),
    ensures
        k1 == k2,
{
    if k1 < k2 {
        assert(preference(c[k1], routed) > preference(c[k2], routed));
    }
    if k2 < k1 {
        assert(preference(c[k2], routed) > preference(c[k1], routed));
    }
}

/// Picks the best physical-looking address; the OS-routed address only breaks
/// ties, because a VPN usually owns the default route while the phone is on
/// the physical LAN.
pub fn pick_lan_ipv4(routed: Option<Ipv4Addr>, interfaces: &[(String, Ipv4Addr)]) -> (r: Option<
    Ipv4Addr,
>)
    ensures
        r == chosen_address(routed, interfaces@),
{
    let mut cands: Vec<Ipv4Addr> = Vec::new();
    let n = interfaces.len();
    for i in 0..n
        invariant
            n == interfaces@.len(),
            cands@ == physical_addresses(interfaces@.take(i as int)),
    {
        let name = interfaces[i].0.as_str();
        let ip = interfaces[i].1;
        if !is_virtual(name) && is_usable(&ip) {
            cands.push(ip);
        }
        assert(interfaces@.take(i + 1).drop_last() =~= interfaces@.take(i as int));
    }
    assert(interfaces@.take(n as int) =~= interfaces@);
    let len = cands.len();
    if len == 0 {
        return None;
    }
    let mut best: usize = 0;
    let mut best_pref = preference_of(&cands[0], routed);
    for j in 1..len
        invariant
            len == cands@.len(),
            best < j <= len,
            best_pref == preference(cands@[best as int], routed),
            forall|t: int| 0 <= t < j ==> best_pref <= preference(#[trigger] cands@[t], routed),
            forall|t: int| 0 <= t < best ==> preference(#[trigger] cands@[t], routed) > best_pref,
    {
        let p = preference_of(&cands[j], routed);
        if p < best_pref {
            best = j;
            best_pref = p;
        }
    }
    proof {
        let c = cands@;
        assert(is_first_best(c, routed, best as int));
        let k = choose|k: int| is_first_best(c, routed, k);
        lemma_first_best_unique(c, routed, k, best as int);
    }
    Some(cands[best])
}

/// Each physical address is usable and belongs to an interface that does not look virtual.
proof fn lemma_physical_addresses(interfaces: Seq<(String, Ipv4Addr)>)
    ensures
        forall|k: int|
            0 <= k < physical_addresses(interfaces).len() ==> {
                let ip = #[trigger] physical_addresses(interfaces)[k];
                &&& spec_is_usable(ip)
                &&& exists|i: int|
                    0 <= i < interfaces.len() && #[trigger] interfaces[i].1 == ip && !spec_is_virtual(
                        interfaces[i].0@,
                    )
            },
    decreases interfaces.len(),
{
    if interfaces.len() > 0 {
        let init = interfaces.drop_last();
        lemma_physical_addresses(init);
        assert forall|k: int| 0 <= k < physical_addresses(interfaces).len() implies {
            let ip = #[trigger] physical_addresses(interfaces)[k];
            &&& spec_is_usable(ip)
            &&& exists|i: int|
                0 <= i < interfaces.len() && #[trigger] interfaces[i].1 == ip && !spec_is_virtual(
                    interfaces[i].0@,
                )
        } by {
            let ip = physical_addresses(interfaces)[k];
            if k < physical_addresses(init).len() {
                assert(physical_addresses(init)[k] == ip);
                let i = choose|i: int|
                    0 <= i < init.len() && #[trigger] init[i].1 == ip && !spec_is_virtual(init[i].0@);
                assert(interfaces[i] == init[i]);
            } else {
                let last = interfaces.len() - 1;
                assert(interfaces[last].1 == ip);
            }
        }
    }
}

/// Law: the chosen address is never loopback, link-local or unspecified.
pub proof fn law_choice_is_usable(routed: Option<Ipv4Addr>, interfaces: Seq<(String, Ipv4Addr)>)
    ensures
        chosen_address(routed, interfaces) matches Some(ip) ==> spec_is_usable(ip),
{
    lemma_physical_addresses(interfaces);
    let c = physical_addresses(interfaces);
    if c.len() > 0 {
        let k = choose|k: int| is_first_best(c, routed, k);
        lemma_first_best_exists(c, routed);
        let phys = physical_addresses(interfaces);
        if k < phys.len() {
            assert(c[k] == phys[k]);
        }
    }
}

/// Law: the chosen address belongs to an interface that does not look
/// virtual; the routed address is never chosen on its own account.
pub proof fn law_choice_is_physical(
    routed: Option<Ipv4Addr>,
    interfaces: Seq<(String, Ipv4Addr)>,
)
    ensures
        chosen_address(routed, interfaces) matches Some(ip) ==> exists|i: int|
            0 <= i < interfaces.len() && #[trigger] interfaces[i].1 == ip && !spec_is_virtual(
                interfaces[i].0@,
            ),
{
    lemma_physical_addresses(interfaces);
    let c = physical_addresses(interfaces);
    if c.len() > 0 {
        let k = choose|k: int| is_first_best(c, routed, k);
        lemma_first_best_exists(c, routed);
        let phys = physical_addresses(interfaces);
        if k < phys.len() {
            assert(c[k] == phys[k]);
        }
    }
}

/// Law: no physical address has a lower rank than the chosen address, so
/// 192.168/16 wins over 10/8, which wins over 172.16/12, which wins over the rest.
pub proof fn law_choice_has_lowest_rank(routed: Option<Ipv4Addr>, interfaces: Seq<(String, Ipv4Addr)>)
    ensures
        chosen_address(routed, interfaces) matches Some(ip) ==> forall|j: int|
            0 <= j < physical_addresses(interfaces).len() ==> spec_rank(ip) <= spec_rank(
                #[trigger] physical_addresses(interfaces)[j],
            ),
{
    let c = physical_addresses(interfaces);
    if c.len() > 0 {
        lemma_first_best_exists(c, routed);
        let k = choose|k: int| is_first_best(c, routed, k);
        assert forall|j: int| 0 <= j < c.len() implies spec_rank(c[k]) <= spec_rank(#[trigger] c[j]) by {
            assert(preference(c[k], routed) <= preference(c[j], routed));
        }
    }
}

/// Law: the routed address only breaks ties. When it is a physical address
/// and no physical address has a lower rank, it is the one chosen.
pub proof fn law_routed_breaks_ties(r: Ipv4Addr, interfaces: Seq<(String, Ipv4Addr)>)
    requires
        physical_addresses(interfaces).contains(r),
        forall|j: int|
            0 <= j < physical_addresses(interfaces).len() ==> spec_rank(r) <= spec_rank(
                #[trigger] physical_addresses(interfaces)[j],
            ),
    ensures
        chosen_address(Some(r), interfaces) == Some(r),
{
    let routed = Some(r);
    let c = physical_addresses(interfaces);
    lemma_first_best_exists(c, routed);
    let k = choose|k: int| is_first_best(c, routed, k);
    let w = choose|w: int| 0 <= w < c.len() && c[w] == r;
    assert(preference(c[k], routed) <= preference(c[w], routed));
    if c[k] != r {
        assert(spec_rank(r) <= spec_rank(c[k]));
        assert(false);
    }
}

/// A non-empty candidate list has a first best index.
proof fn lemma_first_best_exists(c: Seq<Ipv4Addr>, routed: Option<Ipv4Addr>)
    requires
        c.len() > 0,
    ensures
        exists|k: int| is_first_best(c, routed, k),
{
    let k = first_best_upto(c, routed, c.len() as int);
    lemma_first_best_upto(c, routed, c.len() as int);
    assert(is_first_best(c, routed, k));
}

/// The first index of least preference among the first `n`.
spec fn first_best_upto(c: Seq<Ipv4Addr>, routed: Option<Ipv4Addr>, n: int) -> int
    decreases n,
{
    if n <= 1 {
        0
    } else {
        let b = first_best_upto(c, routed, n - 1);
        if preference(c[n - 1], routed) < preference(c[b], routed) {
            n - 1
        } else {
            b
        }
    }
}

proof fn lemma_first_best_upto(c: Seq<Ipv4Addr>, routed: Option<Ipv4Addr>, n: int)
    requires
        1 <= n <= c.len(),
    ensures
        0 <= first_best_upto(c, routed, n) < n,
        forall|j: int|
            0 <= j < n ==> preference(c[first_best_upto(c, routed, n)], routed) <= preference(
                #[trigger] c[j],
                routed,
            ),
        forall|j: int|
            0 <= j < first_best_upto(c, routed, n) ==> preference(#[trigger] c[j], routed)
                > preference(c[first_best_upto(c, routed, n)], routed),
    decreases n,
{
    if n > 1 {
        lemma_first_best_upto(c, routed, n - 1);
    }
}

/// The lower-cased interface name holds none of the pieces of a virtual or
/// VPN adapter's name, each written out here.
pub open spec fn free_of_adapter_names(lower: Seq<char>) -> bool {
    &&& !occurs_in(lower, "veth"@)
    &&& !occurs_in(lower, "wsl"@)
    &&& !occurs_in(lower, "hyper-v"@)
    &&& !occurs_in(lower, "virtualbox"@)
    &&& !occurs_in(lower, "vboxnet"@)
    &&& !occurs_in(lower, "vmware"@)
    &&& !occurs_in(lower, "vmnet"@)
    &&& !occurs_in(lower, "docker"@)
    &&& !occurs_in(lower, "br-"@)
    &&& !occurs_in(lower, "virbr"@)
    &&& !occurs_in(lower, "lxcbr"@)
    &&& !occurs_in(lower, "lxdbr"@)
    &&& !occurs_in(lower, "podman"@)
    &&& !occurs_in(lower, "cni"@)
    &&& !occurs_in(lower, "flannel"@)
    &&& !occurs_in(lower, "loopback"@)
    &&& !occurs_in(lower, "bluetooth"@)
    &&& !occurs_in(lower, "awdl"@)
    &&& !occurs_in(lower, "llw"@)
    &&& !occurs_in(lower, "anpi"@)
    &&& !occurs_in(lower, "tailscale"@)
    &&& !occurs_in(lower, "zerotier"@)
    &&& !occurs_in(lower, "wireguard"@)
    &&& !occurs_in(lower, "wg0"@)
    &&& !occurs_in(lower, "nordlynx"@)
    &&& !occurs_in(lower, "nordvpn"@)
    &&& !occurs_in(lower, "openvpn"@)
    &&& !occurs_in(lower, "tap-"@)
    &&& !occurs_in(lower, "proton"@)
    &&& !occurs_in(lower, "mullvad"@)
    &&& !occurs_in(lower, "expressvpn"@)
    &&& !occurs_in(lower, "surfshark"@)
    &&& !occurs_in(lower, "cloudflare"@)
    &&& !occurs_in(lower, "warp"@)
    &&& !occurs_in(lower, "vpn"@)
    &&& !occurs_in(lower, "tunnel"@)
    &&& !occurs_in(lower, "utun"@)
    &&& !occurs_in(lower, "tun0"@)
}

/// A name looks virtual exactly when it holds one of the adapter pieces.
proof fn lemma_virtual_spelled_out(name: Seq<char>)
    ensures
        spec_is_virtual(name) <==> !free_of_adapter_names(lower_text(name)),
{
    let lower = lower_text(name);
    assert(virtual_hints().len() == 38);
    assert(spec_is_virtual(name) <==> !free_of_adapter_names(lower)) by {
        assert(virtual_hints()[0] == "veth"@);
        assert(virtual_hints()[1] == "wsl"@);
        assert(virtual_hints()[2] == "hyper-v"@);
        assert(virtual_hints()[3] == "virtualbox"@);
        assert(virtual_hints()[4] == "vboxnet"@);
        assert(virtual_hints()[5] == "vmware"@);
        assert(virtual_hints()[6] == "vmnet"@);
        assert(virtual_hints()[7] == "docker"@);
        assert(virtual_hints()[8] == "br-"@);
        assert(virtual_hints()[9] == "virbr"@);
        assert(virtual_hints()[10] == "lxcbr"@);
        assert(virtual_hints()[11] == "lxdbr"@);
        assert(virtual_hints()[12] == "podman"@);
        assert(virtual_hints()[13] == "cni"@);
        assert(virtual_hints()[14] == "flannel"@);
        assert(virtual_hints()[15] == "loopback"@);
        assert(virtual_hints()[16] == "bluetooth"@);
        assert(virtual_hints()[17] == "awdl"@);
        assert(virtual_hints()[18] == "llw"@);
        assert(virtual_hints()[19] == "anpi"@);
        assert(virtual_hints()[20] == "tailscale"@);
        assert(virtual_hints()[21] == "zerotier"@);
        assert(virtual_hints()[22] == "wireguard"@);
        assert(virtual_hints()[23] == "wg0"@);
        assert(virtual_hints()[24] == "nordlynx"@);
        assert(virtual_hints()[25] == "nordvpn"@);
        assert(virtual_hints()[26] == "openvpn"@);
        assert(virtual_hints()[27] == "tap-"@);
        assert(virtual_hints()[28] == "proton"@);
        assert(virtual_hints()[29] == "mullvad"@);
        assert(virtual_hints()[30] == "expressvpn"@);
        assert(virtual_hints()[31] == "surfshark"@);
        assert(virtual_hints()[32] == "cloudflare"@);
        assert(virtual_hints()[33] == "warp"@);
        assert(virtual_hints()[34] == "vpn"@);
        assert(virtual_hints()[35] == "tunnel"@);
        assert(virtual_hints()[36] == "utun"@);
        assert(virtual_hints()[37] == "tun0"@);
        if spec_is_virtual(name) {
            let k = choose|k: int|
                0 <= k < virtual_hints().len() && occurs_in(lower, #[trigger] virtual_hints()[k]);
            assert(0 <= k < 38);
        }
        if !free_of_adapter_names(lower) {
            assert(exists|k: int| 0 <= k < virtual_hints().len() && occurs_in(lower, #[trigger] virtual_hints()[k]));
        }
    }
}

/// Law: an interface whose name holds, in any ASCII case, a piece of a virtual
/// or VPN adapter's name ("virtualbox", "vEthernet", "WSL", "docker",
/// "tailscale", ... each written out in `free_of_adapter_names`) is never
/// the one chosen: the chosen address always belongs to an interface whose
/// name holds none of them.
pub proof fn law_virtual_adapters_never_chosen(routed: Option<Ipv4Addr>, interfaces: Seq<(String, Ipv4Addr)>)
    ensures
        chosen_address(routed, interfaces) matches Some(ip) ==> exists|i: int|
            0 <= i < interfaces.len() && #[trigger] interfaces[i].1 == ip && free_of_adapter_names(
                lower_text(interfaces[i].0@),
            ),
{
    law_choice_is_physical(routed, interfaces);
    if chosen_address(routed, interfaces) is Some {
        let ip = chosen_address(routed, interfaces)->0;
        let i = choose|i: int|
            0 <= i < interfaces.len() && #[trigger] interfaces[i].1 == ip && !spec_is_virtual(
                interfaces[i].0@,
            );
        lemma_virtual_spelled_out(interfaces[i].0@);
    }
}

/// Some usable address of an interface that does not look virtual makes a
/// candidate.
proof fn lemma_physical_address_exists(interfaces: Seq<(String, Ipv4Addr)>, i: int)
    requires
        0 <= i < interfaces.len(),
        !spec_is_virtual(interfaces[i].0@),
        spec_is_usable(interfaces[i].1),
    ensures
        physical_addresses(interfaces).len() > 0,
    decreases interfaces.len(),
{
    let init = interfaces.drop_last();
    if i < interfaces.len() - 1 {
        assert(init[i] == interfaces[i]);
        lemma_physical_address_exists(init, i);
    }
}

/// Law: an address is chosen whenever some interface whose name holds none of
/// the pieces of a virtual or VPN adapter's name has a usable address; so a
/// plain "Wi-Fi" or "Ethernet" adapter is never passed over as virtual.
pub proof fn law_physical_adapter_gives_a_choice(
    routed: Option<Ipv4Addr>,
    interfaces: Seq<(String, Ipv4Addr)>,
    i: int,
)
    requires
        0 <= i < interfaces.len(),
        free_of_adapter_names(lower_text(interfaces[i].0@)),
        !interfaces[i].1.spec_is_loopback() && !interfaces[i].1.spec_is_link_local()
            && !interfaces[i].1.spec_is_unspecified(),
    ensures
        chosen_address(routed, interfaces) is Some,
{
    lemma_virtual_spelled_out(interfaces[i].0@);
    lemma_physical_address_exists(interfaces, i);
}

} // verus!
