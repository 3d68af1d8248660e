//! Pure computation of the packet-capture front end: capture options and
//! statistics, protocol classification, device-selection predicates, and
//! the console geometry. All I/O around these lives outside the library.

use vstd::prelude::*;

verus! {

/// How a capture run is configured.
pub struct CaptureOptions {
    pub interface: Option<String>,
    pub filter: Option<String>,
    pub promiscuous: bool,
    pub output_file: Option<String>,
    pub packet_limit: Option<u32>,
    pub verbose: bool,
}

/// Running totals of a capture.
pub struct CaptureStats {
    pub packet_count: u32,
    pub protocol_stats: std::collections::HashMap<String, u32>,
}

impl CaptureStats {
    /// Fresh totals: nothing seen yet.
    pub fn new() -> (r: CaptureStats)
        ensures
            r.packet_count == 0,
    {
        CaptureStats { packet_count: 0, protocol_stats: std::collections::HashMap::new() }
    }
}

/// One more packet seen.
pub fn count_packet(stats: &mut CaptureStats)
    requires
        old(stats).packet_count < u32::MAX,
    ensures
        final(stats).packet_count == old(stats).packet_count + 1,
        final(stats).protocol_stats == old(stats).protocol_stats,
{
    stats.packet_count = stats.packet_count + 1;
}

/// Tally one parsed packet under its protocol label; a tally already at
/// the `u32` cap stays there.
pub fn record_protocol(stats: &mut CaptureStats, name: String)
    ensures
        final(stats).packet_count == old(stats).packet_count,
{
    let prev: u32 = match stats.protocol_stats.get(&name) {
        Some(c) => *c,
        None => 0,
    };
    let next: u32 = if prev < u32::MAX {
        prev + 1
    } else {
        prev
    };
    stats.protocol_stats.insert(name, next);
}

/// Whether a set packet limit has been reached.
pub open spec fn limit_reached(limit: Option<u32>, count: u32) -> bool {
    match limit {
        Some(l) => count >= l,
        None => false,
    }
}

pub fn reached_limit(limit: &Option<u32>, count: u32) -> (r: bool)
    ensures
        r == limit_reached(*limit, count),
{
    match limit {
        Some(l) => count >= *l,
        None => false,
    }
}

/// Whether a brief status line is due: only outside verbose mode, and only
/// on every tenth packet.
pub fn brief_status_due(verbose: bool, count: u32) -> (r: bool)
    ensures
        r == (!verbose && count % 10 == 0),
{
    !verbose && count % 10 == 0
}

/// The network-layer protocol of a parsed packet.
#[derive(Clone, Copy, PartialEq, Eq, Structural)]
pub enum NetProtocol {
    Ipv4,
    Ipv6,
    Arp,
    Absent,
}

/// The transport-layer protocol of a parsed packet.
#[derive(Clone, Copy, PartialEq, Eq, Structural)]
pub enum TransportProtocol {
    Tcp,
    Udp,
    Icmpv4,
    Icmpv6,
    Absent,
}

/// The protocol label of a parsed packet, from its network layer, its
/// transport layer, and whether a link layer and a VLAN tag are present.
pub open spec fn protocol_label_spec(
    net: NetProtocol,
    transport: TransportProtocol,
    has_link: bool,
    has_vlan: bool,
) -> Seq<char> {
    match net {
        NetProtocol::Ipv4 => match transport {
            TransportProtocol::Tcp => "TCP"@,
            TransportProtocol::Udp => "UDP"@,
            TransportProtocol::Icmpv4 => "ICMPv4"@,
            TransportProtocol::Icmpv6 => "ICMPv6"@,
            TransportProtocol::Absent => "IPv4"@,
        },
        NetProtocol::Ipv6 => match transport {
            TransportProtocol::Tcp => "TCP/IPv6"@,
            TransportProtocol::Udp => "UDP/IPv6"@,
            TransportProtocol::Absent => "IPv6"@,
            TransportProtocol::Icmpv4 => "IPv6 (Other Transport)"@,
            TransportProtocol::Icmpv6 => "IPv6 (Other Transport)"@,
        },
        NetProtocol::Arp => "ARP"@,
        NetProtocol::Absent => if has_link {
            if has_vlan {
                "VLAN"@
            } else {
                "Ethernet"@
            }
        } else {
            "Unknown"@
        },
    }
}

pub fn protocol_label(
    net: NetProtocol,
    transport: TransportProtocol,
    has_link: bool,
    has_vlan: bool,
) -> (r: String)
    ensures
        r@ == protocol_label_spec(net, transport, has_link, has_vlan),
{
    match net {
        NetProtocol::Ipv4 => match transport {
            TransportProtocol::Tcp => "TCP".to_owned(),
            TransportProtocol::Udp => "UDP".to_owned(),
            TransportProtocol::Icmpv4 => "ICMPv4".to_owned(),
            TransportProtocol::Icmpv6 => "ICMPv6".to_owned(),
            TransportProtocol::Absent => "IPv4".to_owned(),
        },
        NetProtocol::Ipv6 => match transport {
            TransportProtocol::Tcp => "TCP/IPv6".to_owned(),
            TransportProtocol::Udp => "UDP/IPv6".to_owned(),
            TransportProtocol::Absent => "IPv6".to_owned(),
            TransportProtocol::Icmpv4 => "IPv6 (Other Transport)".to_owned(),
            TransportProtocol::Icmpv6 => "IPv6 (Other Transport)".to_owned(),
        },
        NetProtocol::Arp => "ARP".to_owned(),
        NetProtocol::Absent => if has_link {
            if has_vlan {
                "VLAN".to_owned()
            } else {
                "Ethernet".to_owned()
            }
        } else {
            "Unknown".to_owned()
        },
    }
}

/// Whether `pat` occurs contiguously in `s`.
pub open spec fn is_substring_of(pat: Seq<u8>, s: Seq<u8>) -> bool {
    exists|i: int| 0 <= i <= s.len() - pat.len() && (#[trigger] s.subrange(i, i + pat.len())) == pat
}

/// ASCII lower-casing of one byte.
pub open spec fn ascii_lower(c: u8) -> u8 {
    if 65 <= c <= 90 {
        (c + 32) as u8
    } else {
        c
    }
}

/// ASCII lower-casing of a byte sequence.
pub open spec fn lower_seq(s: Seq<u8>) -> Seq<u8> {
    s.map_values(|c: u8| ascii_lower(c))
}

pub fn to_ascii_lower(s: &Vec<u8>) -> (r: Vec<u8>)
    ensures
        r@ == lower_seq(s@),
{
    let mut r: Vec<u8> = Vec::new();
    let mut i: usize = 0;
    while i < s.len()
        invariant
            i <= s@.len(),
            r@.len() == i,
            forall|k: int| 0 <= k < i ==> (#[trigger] r@[k]) == ascii_lower(s@[k]),
        decreases s@.len() - i,
    {
        let c = s[i];
        let l = if 65 <= c && c <= 90 {
            c + 32
        } else {
            c
        };
        r.push(l);
        i = i + 1;
    }
    proof {
        assert(r@ =~= lower_seq(s@));
    }
    r
}

fn match_at(hay: &Vec<u8>, pat: &Vec<u8>, at: usize) -> (r: bool)
    requires
        at + pat@.len() <= hay@.len(),
    ensures
        r == (hay@.subrange(at as int, at + pat@.len()) == pat@),
{
    let hl = hay.len();
    let mut j: usize = 0;
    while j < pat.len()
        invariant
            at + pat@.len() <= hay@.len(),
            hay@.len() == hl,
            j <= pat@.len(),
            forall|k: int| 0 <= k < j ==> (#[trigger] hay@[at + k]) == pat@[k],
        decreases pat@.len() - j,
    {
        if hay[at + j] != pat[j] {
            proof {
                assert(hay@.subrange(at as int, at + pat@.len())[j as int] != pat@[j as int]);
            }
            return false;
        }
        j = j + 1;
    }
    proof {
        assert forall|k: int| 0 <= k < pat@.len() implies hay@.subrange(
            at as int,
            at + pat@.len(),
        )[k] == pat@[k] by {
            assert(hay@[at + k] == pat@[k]);
        }
        assert(hay@.subrange(at as int, at + pat@.len()) =~= pat@);
    }
    true
}

/// Substring search, byte for byte.
pub fn contains_bytes(hay: &Vec<u8>, pat: &Vec<u8>) -> (r: bool)
    ensures
        r == is_substring_of(pat@, hay@),
{
    if pat.len() > hay.len() {
        return false;
    }
    if pat.len() == 0 {
        proof {
            assert(hay@.subrange(0, 0 + pat@.len() as int) =~= pat@);
            assert(is_substring_of(pat@, hay@));
        }
        return true;
    }
    let hl = hay.len();
    let bound = hay.len() - pat.len();
    let mut i: usize = 0;
    while i <= bound
        invariant
            1 <= pat@.len() <= hay@.len(),
            hay@.len() == hl,
            bound == hay@.len() - pat@.len(),
            i <= bound + 1,
            forall|k: int| 0 <= k < i ==> (#[trigger] hay@.subrange(k, k + pat@.len())) != pat@,
        decreases bound + 1 - i,
    {
        if match_at(hay, pat, i) {
            // the loop index is the witness occurrence
            proof {
                assert(0 <= i <= hay@.len() - pat@.len());
            }
            return true;
        }
        i = i + 1;
    }
    false
}

/// "wireless" as bytes.
pub open spec fn wireless_pat() -> Seq<u8> {
    seq![119u8, 105u8, 114u8, 101u8, 108u8, 101u8, 115u8, 115u8]
}

/// "wi-fi" as bytes.
pub open spec fn wifi_pat() -> Seq<u8> {
    seq![119u8, 105u8, 45u8, 102u8, 105u8]
}

/// "802.11" as bytes.
pub open spec fn dot11_pat() -> Seq<u8> {
    seq![56u8, 48u8, 50u8, 46u8, 49u8, 49u8]
}

/// "NativeWiFi" as bytes.
pub open spec fn native_wifi_pat() -> Seq<u8> {
    seq![78u8, 97u8, 116u8, 105u8, 118u8, 101u8, 87u8, 105u8, 70u8, 105u8]
}

/// "Wireless" as bytes.
pub open spec fn wireless_name_pat() -> Seq<u8> {
    seq![87u8, 105u8, 114u8, 101u8, 108u8, 101u8, 115u8, 115u8]
}

/// "Loopback" as bytes.
pub open spec fn loopback_pat() -> Seq<u8> {
    seq![76u8, 111u8, 111u8, 112u8, 98u8, 97u8, 99u8, 107u8]
}

/// "Miniport" as bytes.
pub open spec fn miniport_pat() -> Seq<u8> {
    seq![77u8, 105u8, 110u8, 105u8, 112u8, 111u8, 114u8, 116u8]
}

/// "Virtual" as bytes.
pub open spec fn virtual_pat() -> Seq<u8> {
    seq![86u8, 105u8, 114u8, 116u8, 117u8, 97u8, 108u8]
}

/// Whether a device looks like a Wi-Fi adapter: its description, ASCII
/// lower-cased, mentions "wireless", "wi-fi" or "802.11", or its raw name
/// mentions "NativeWiFi" or "Wireless".
pub fn is_wifi_device(name: &Vec<u8>, desc: &Vec<u8>) -> (r: bool)
    ensures
        r == (is_substring_of(wireless_pat(), lower_seq(desc@)) || is_substring_of(
            wifi_pat(),
            lower_seq(desc@),
        ) || is_substring_of(dot11_pat(), lower_seq(desc@)) || is_substring_of(
            native_wifi_pat(),
            name@,
        ) || is_substring_of(wireless_name_pat(), name@)),
{
    let d = to_ascii_lower(desc);
    let p1 = vec![119u8, 105u8, 114u8, 101u8, 108u8, 101u8, 115u8, 115u8];
    let p2 = vec![119u8, 105u8, 45u8, 102u8, 105u8];
    let p3 = vec![56u8, 48u8, 50u8, 46u8, 49u8, 49u8];
    let p4 = vec![78u8, 97u8, 116u8, 105u8, 118u8, 101u8, 87u8, 105u8, 70u8, 105u8];
    let p5 = vec![87u8, 105u8, 114u8, 101u8, 108u8, 101u8, 115u8, 115u8];
    proof {
        assert(p1@ =~= wireless_pat());
        assert(p2@ =~= wifi_pat());
        assert(p3@ =~= dot11_pat());
        assert(p4@ =~= native_wifi_pat());
        assert(p5@ =~= wireless_name_pat());
    }
    contains_bytes(&d, &p1) || contains_bytes(&d, &p2) || contains_bytes(&d, &p3)
        || contains_bytes(name, &p4) || contains_bytes(name, &p5)
}

/// Whether a device is an acceptable fallback: not a loopback, not a
/// miniport, not virtual.
pub fn is_fallback_device(name: &Vec<u8>, desc: &Vec<u8>) -> (r: bool)
    ensures
        r == (!is_substring_of(loopback_pat(), name@) && !is_substring_of(miniport_pat(), desc@)
            && !is_substring_of(virtual_pat(), desc@)),
{
    let p1 = vec![76u8, 111u8, 111u8, 112u8, 98u8, 97u8, 99u8, 107u8];
    let p2 = vec![77u8, 105u8, 110u8, 105u8, 112u8, 111u8, 114u8, 116u8];
    let p3 = vec![86u8, 105u8, 114u8, 116u8, 117u8, 97u8, 108u8];
    proof {
        assert(p1@ =~= loopback_pat());
        assert(p2@ =~= miniport_pat());
        assert(p3@ =~= virtual_pat());
    }
    !contains_bytes(name, &p1) && !contains_bytes(desc, &p2) && !contains_bytes(desc, &p3)
}

/// The console geometry the front end asks the platform for.
pub struct ConsoleGeometry {
    pub buffer_x: i16,
    pub buffer_y: i16,
    pub left: i16,
    pub top: i16,
    pub right: i16,
    pub bottom: i16,
}

/// The screen-buffer size and window rectangle for a console of the given
/// width and height: a buffer of the full width and 1000 lines, and a
/// window from the origin to (width - 1, height - 1).
pub fn set_console_size(width: u16, height: u16) -> (r: ConsoleGeometry)
    requires
        1 <= width <= 32767,
        1 <= height <= 32767,
    ensures
        r.buffer_x == width,
        r.buffer_y == 1000,
        r.left == 0,
        r.top == 0,
        r.right == width - 1,
        r.bottom == height - 1,
{
    ConsoleGeometry {
        buffer_x: width as i16,
        buffer_y: 1000,
        left: 0,
        top: 0,
        right: (width - 1) as i16,
        bottom: (height - 1) as i16,
    }
}

} // verus!
