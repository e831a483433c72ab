//! LAN discovery: device announcements, which announcements to accept, and
//! the broadcast destinations to announce on.
//!
//! Sockets, running the `ip addr` command and IP-address parsing stay with
//! the application, which hands the addresses to this module as octets.

use vstd::prelude::*;
use crate::text::{
    chars_vec, is_white_space_char, push_decimal, split_lines, string_of_chars, trim_start, words,
    words_of,
};

verus! {

/// The UDP port of discovery announcements.
pub const DISCOVERY_PORT: u16 = 45454;

/// A device announcement.
#[derive(Clone, Debug, PartialEq, Eq)]
pub struct DeviceAnnouncement {
    pub msg_type: String,
    pub device_name: String,
    pub device_id: String,
    pub platform: String,
    pub ws_port: u16,
}

/// This device's announcement.
pub fn device_announcement(device_name: String, device_id: String, platform: String, ws_port: u16) -> (r:
    DeviceAnnouncement)
    ensures
        r.msg_type@ == "device_announcement"@,
        r.device_name == device_name,
        r.device_id == device_id,
        r.platform == platform,
        r.ws_port == ws_port,
{
    DeviceAnnouncement {
        msg_type: String::from_str("device_announcement"),
        device_name,
        device_id,
        platform,
        ws_port,
    }
}

/// Whether a received announcement names another device plausibly.
pub open spec fn acceptable(a: DeviceAnnouncement, local_device_id: Seq<char>) -> bool {
    &&& a.msg_type@ == "device_announcement"@
    &&& a.device_id@.len() > 0
    &&& vstd::utf8::encode_utf8(a.device_id@).len() <= 128
    &&& a.device_id@ != local_device_id
}

/// Accepts an announcement of the right type with a non-empty device ID of
/// at most 128 bytes that is not this device's own.
pub fn accept_announcement(a: &DeviceAnnouncement, local_device_id: &String) -> (r: bool)
    ensures
        r == acceptable(*a, local_device_id@),
{
    let kind = String::from_str("device_announcement");
    a.msg_type == kind && !a.device_id.as_str().is_empty() && a.device_id.as_str().as_bytes().len()
        <= 128 && !(a.device_id == *local_device_id)
}

/// The status line reported when announcing starts.
pub open spec fn announcing_message(destinations: nat) -> Seq<char> {
    "LAN discovery announcing on UDP 45454 to "@ + crate::text::dec_digits(destinations)
        + " broadcast/multicast destinations."@
}

/// The status line reported when announcing starts.
pub fn announcer_status_message(destinations: usize) -> (r: String)
    ensures
        r@ == announcing_message(destinations as nat),
{
    let mut m = String::from_str("LAN discovery announcing on UDP 45454 to ");
    push_decimal(&mut m, destinations as u64);
    m.append(" broadcast/multicast destinations.");
    m
}

// ---------------------------------------------------------------------------
// Broadcast destinations. An address is its octets: four for IPv4, sixteen
// for IPv6; every destination uses the discovery port.
// ---------------------------------------------------------------------------

/// The address order of socket addresses on one port: IPv4 before IPv6,
/// then octet by octet.
pub open spec fn addr_lt(a: Seq<u8>, b: Seq<u8>) -> bool {
    a.len() < b.len() || (a.len() == b.len() && exists|k: int|
        0 <= k < a.len() && a.subrange(0, k) == b.subrange(0, k) && a[k] < b[k])
}

pub open spec fn strictly_sorted(s: Seq<Seq<u8>>) -> bool {
    forall|i: int, j: int| 0 <= i < j < s.len() ==> addr_lt(#[trigger] s[i], #[trigger] s[j])
}

pub open spec fn is_loopback(ip: Seq<u8>) -> bool {
    if ip.len() == 4 {
        ip[0] == 127
    } else {
        ip.len() == 16 && (forall|i: int| 0 <= i < 15 ==> ip[i] == 0) && ip[15] == 1
    }
}

pub open spec fn is_unspecified(ip: Seq<u8>) -> bool {
    forall|i: int| 0 <= i < ip.len() ==> ip[i] == 0
}

/// The subnet broadcast addresses derived from this device's IPv4 address:
/// its /24 and /16 broadcasts, and the iOS hotspot broadcast inside
/// 172.20.10.0/28.
pub open spec fn derived_broadcasts(local_ip: Option<Seq<u8>>) -> Seq<Seq<u8>> {
    match local_ip {
        Some(ip) => if ip.len() == 4 && !is_loopback(ip) && !is_unspecified(ip) {
            let base = seq![seq![ip[0], ip[1], ip[2], 255u8], seq![ip[0], ip[1], 255u8, 255u8]];
            if ip[0] == 172 && ip[1] == 20 && ip[2] == 10 {
                base.push(seq![172u8, 20u8, 10u8, 15u8])
            } else {
                base
            }
        } else {
            seq![]
        },
        None => seq![],
    }
}

/// Every destination before ordering: the global broadcast address, the
/// discovery multicast group, the interface broadcasts that are neither
/// loopback nor unspecified, and the derived subnet broadcasts of the local
/// address (the address set by the user interface, else the routed one).
pub open spec fn all_destinations(
    interface_broadcasts: Seq<Seq<u8>>,
    dynamic_ip: Option<Seq<u8>>,
    routed_ip: Option<Seq<u8>>,
) -> Seq<Seq<u8>> {
    let fixed = seq![seq![255u8, 255u8, 255u8, 255u8], seq![239u8, 255u8, 45u8, 54u8]];
    let local = match dynamic_ip {
        Some(ip) => Some(ip),
        None => routed_ip,
    };
    fixed + interface_broadcasts.filter(|ip: Seq<u8>| !is_loopback(ip) && !is_unspecified(ip))
        + derived_broadcasts(local)
}

proof fn lemma_lt_irreflexive(a: Seq<u8>)
    ensures
        !addr_lt(a, a),
{
}

proof fn lemma_lt_transitive(a: Seq<u8>, b: Seq<u8>, c: Seq<u8>)
    requires
        addr_lt(a, b),
        addr_lt(b, c),
    ensures
        addr_lt(a, c),
{
    if a.len() == b.len() && b.len() == c.len() {
        let k1 = choose|k: int| 0 <= k < a.len() && a.subrange(0, k) == b.subrange(0, k) && a[k] < b[k];
        let k2 = choose|k: int| 0 <= k < b.len() && b.subrange(0, k) == c.subrange(0, k) && b[k] < c[k];
        let k = if k1 < k2 { k1 } else { k2 };
        assert(a.subrange(0, k) =~= c.subrange(0, k)) by {
            assert forall|i: int| 0 <= i < k implies a.subrange(0, k)[i] == c.subrange(0, k)[i] by {
                assert(a.subrange(0, k1)[i] == b.subrange(0, k1)[i]);
                assert(b.subrange(0, k2)[i] == c.subrange(0, k2)[i]);
            }
        }
        if k1 < k2 {
            assert(b.subrange(0, k2)[k1] == c.subrange(0, k2)[k1]);
        } else if k2 < k1 {
            assert(a.subrange(0, k1)[k2] == b.subrange(0, k1)[k2]);
        }
        assert(a[k] < c[k]);
    }
}

proof fn lemma_lt_total(a: Seq<u8>, b: Seq<u8>)
    requires
        a != b,
    ensures
        addr_lt(a, b) || addr_lt(b, a),
{
    if a.len() == b.len() {
        if forall|i: int| 0 <= i < a.len() ==> a[i] == b[i] {
            assert(a =~= b);
        }
        let d = choose|i: int| 0 <= i < a.len() && a[i] != b[i];
        lemma_first_difference(a, b, d);
        let k = choose|k: int|
            0 <= k <= d && k < a.len() && a[k] != b[k] && forall|i: int| 0 <= i < k ==> a[i] == b[i];
        assert(a.subrange(0, k) =~= b.subrange(0, k));
        if a[k] < b[k] {
            assert(addr_lt(a, b));
        } else {
            assert(b.subrange(0, k) =~= a.subrange(0, k));
            assert(addr_lt(b, a));
        }
    }
}

proof fn lemma_first_difference(a: Seq<u8>, b: Seq<u8>, d: int)
    requires
        0 <= d < a.len(),
        a.len() == b.len(),
        a[d] != b[d],
    ensures
        exists|k: int|
            0 <= k <= d && k < a.len() && a[k] != b[k] && forall|i: int| 0 <= i < k ==> a[i] == b[i],
    decreases d,
{
    if exists|i: int| 0 <= i < d && a[i] != b[i] {
        let i = choose|i: int| 0 <= i < d && a[i] != b[i];
        lemma_first_difference(a, b, i);
    } else {
        assert(forall|i: int| 0 <= i < d ==> a[i] == b[i]);
    }
}

/// Compares two addresses in address order.
fn addr_less(a: &Vec<u8>, b: &Vec<u8>) -> (r: bool)
    ensures
        r == addr_lt(a@, b@),
{
    if a.len() != b.len() {
        return a.len() < b.len();
    }
    let mut i: usize = 0;
    while i < a.len()
        invariant
            a@.len() == b@.len(),
            i <= a.len(),
            a@.subrange(0, i as int) == b@.subrange(0, i as int),
        decreases a.len() - i,
    {
        if a[i] != b[i] {
            if a[i] < b[i] {
                return true;
            } else {
                proof {
                    if addr_lt(a@, b@) {
                        let k = choose|k: int| 0 <= k < a@.len() && a@.subrange(0, k) == b@.subrange(0, k) && a@[k] < b@[k];
                        if k < i {
                            assert(a@.subrange(0, i as int)[k] == b@.subrange(0, i as int)[k]);
                        } else if k > i {
                            assert(a@.subrange(0, k)[i as int] == b@.subrange(0, k)[i as int]);
                        }
                    }
                }
                return false;
            }
        }
        assert(a@.subrange(0, i + 1) =~= b@.subrange(0, i + 1)) by {
            assert forall|j: int| 0 <= j < i + 1 implies #[trigger] a@.subrange(0, i + 1)[j] == b@.subrange(0, i + 1)[j] by {
                if j < i {
                    assert(a@.subrange(0, i as int)[j] == b@.subrange(0, i as int)[j]);
                }
            }
        }
        i = i + 1;
    }
    proof {
        assert(a@ =~= b@) by {
            assert(a@.subrange(0, i as int) =~= a@);
            assert(b@.subrange(0, i as int) =~= b@);
        }
        lemma_lt_irreflexive(a@);
    }
    false
}

fn bytes_equal(a: &Vec<u8>, b: &Vec<u8>) -> (r: bool)
    ensures
        r == (a@ == b@),
{
    if a.len() != b.len() {
        return false;
    }
    let mut i: usize = 0;
    while i < a.len()
        invariant
            a@.len() == b@.len(),
            i <= a.len(),
            forall|j: int| 0 <= j < i ==> a@[j] == b@[j],
        decreases a.len() - i,
    {
        if a[i] != b[i] {
            return false;
        }
        i = i + 1;
    }
    assert(a@ =~= b@);
    true
}

pub open spec fn opt_octets(o: Option<Vec<u8>>) -> Option<Seq<u8>> {
    match o {
        Some(ip) => Some(ip@),
        None => None,
    }
}

pub open spec fn addr_views(v: Seq<Vec<u8>>) -> Seq<Seq<u8>> {
    v.map_values(|x: Vec<u8>| x@)
}

/// Inserts `x` into a strictly sorted list unless it is already there.
fn insert_sorted(v: &mut Vec<Vec<u8>>, x: Vec<u8>)
    requires
        strictly_sorted(addr_views(old(v)@)),
    ensures
        strictly_sorted(addr_views(final(v)@)),
        addr_views(final(v)@).to_set() == addr_views(old(v)@).to_set().insert(x@),
{
    let ghost s = addr_views(v@);
    let mut p: usize = 0;
    while p < v.len()
        invariant
            p <= v.len(),
            s == addr_views(v@),
            strictly_sorted(s),
            forall|j: int| 0 <= j < p ==> addr_lt(#[trigger] s[j], x@),
        ensures
            p <= v.len(),
            s == addr_views(v@),
            forall|j: int| 0 <= j < p ==> addr_lt(#[trigger] s[j], x@),
            p < v.len() ==> !addr_lt(s[p as int], x@),
        decreases v.len() - p,
    {
        if !addr_less(&v[p], &x) {
            break;
        }
        p = p + 1;
    }
    if p < v.len() && bytes_equal(&v[p], &x) {
        proof {
            assert(s[p as int] == x@);
            assert(s.to_set().insert(x@) =~= s.to_set());
        }
        return;
    }
    proof {
        if p < s.len() {
            lemma_lt_total(s[p as int], x@);
            assert(addr_lt(x@, s[p as int]));
            assert forall|j: int| p <= j < s.len() implies addr_lt(x@, #[trigger] s[j]) by {
                if j > p {
                    lemma_lt_transitive(x@, s[p as int], s[j]);
                }
            }
        }
    }
    v.insert(p, x);
    proof {
        let t = addr_views(v@);
        assert(t =~= s.insert(p as int, x@));
        assert forall|i: int, j: int| 0 <= i < j < t.len() implies addr_lt(#[trigger] t[i], #[trigger] t[j]) by {
            if j < p {
                assert(t[i] == s[i] && t[j] == s[j]);
            } else if j == p {
                assert(t[i] == s[i]);
            } else if i < p {
                assert(t[i] == s[i] && t[j] == s[j - 1]);
                lemma_lt_transitive(s[i], x@, s[j - 1]);
            } else if i == p {
                assert(t[j] == s[j - 1]);
            } else {
                assert(t[i] == s[i - 1] && t[j] == s[j - 1]);
            }
        }
        assert forall|y: Seq<u8>| t.to_set().contains(y) <==> s.to_set().insert(x@).contains(y) by {
            if t.contains(y) {
                let k = choose|k: int| 0 <= k < t.len() && t[k] == y;
                if k < p {
                    assert(s[k] == y);
                } else if k > p {
                    assert(s[k - 1] == y);
                }
            }
            if s.contains(y) {
                let k = choose|k: int| 0 <= k < s.len() && s[k] == y;
                if k < p {
                    assert(t[k] == y);
                } else {
                    assert(t[k + 1] == y);
                }
            }
            if y == x@ {
                assert(t[p as int] == y);
            }
        }
        assert(t.to_set() =~= s.to_set().insert(x@));
    }
}

fn ipv4(a: u8, b: u8, c: u8, d: u8) -> (r: Vec<u8>)
    ensures
        r@ == seq![a, b, c, d],
{
    let mut v: Vec<u8> = Vec::new();
    v.push(a);
    v.push(b);
    v.push(c);
    v.push(d);
    assert(v@ =~= seq![a, b, c, d]);
    v
}

fn is_loopback_exec(ip: &Vec<u8>) -> (r: bool)
    ensures
        r == is_loopback(ip@),
{
    if ip.len() == 4 {
        ip[0] == 127
    } else if ip.len() == 16 {
        let mut i: usize = 0;
        while i < 15
            invariant
                ip@.len() == 16,
                i <= 15,
                forall|j: int| 0 <= j < i ==> ip@[j] == 0,
            decreases 15 - i,
        {
            if ip[i] != 0 {
                return false;
            }
            i = i + 1;
        }
        ip[15] == 1
    } else {
        false
    }
}

fn is_unspecified_exec(ip: &Vec<u8>) -> (r: bool)
    ensures
        r == is_unspecified(ip@),
{
    let mut i: usize = 0;
    while i < ip.len()
        invariant
            i <= ip.len(),
            forall|j: int| 0 <= j < i ==> ip@[j] == 0,
        decreases ip.len() - i,
    {
        if ip[i] != 0 {
            return false;
        }
        i = i + 1;
    }
    true
}

/// The broadcast destinations to announce on, in address order without
/// repeats. `interface_broadcasts` are the broadcast addresses the
/// operating system lists, `dynamic_ip` the address the user interface set,
/// and `routed_ip` the address the routing table picks (consulted only
/// without `dynamic_ip`).
pub fn get_broadcast_addresses(
    interface_broadcasts: Vec<Vec<u8>>,
    dynamic_ip: Option<Vec<u8>>,
    routed_ip: Option<Vec<u8>>,
) -> (r: Vec<Vec<u8>>)
    ensures
        strictly_sorted(addr_views(r@)),
        addr_views(r@).to_set() == all_destinations(
            addr_views(interface_broadcasts@),
            opt_octets(dynamic_ip),
            opt_octets(routed_ip),
        ).to_set(),
{
    let ghost want = all_destinations(
        addr_views(interface_broadcasts@),
        opt_octets(dynamic_ip),
        opt_octets(routed_ip),
    );
    let ghost fixed = seq![seq![255u8, 255u8, 255u8, 255u8], seq![239u8, 255u8, 45u8, 54u8]];
    let ghost ifaces = addr_views(interface_broadcasts@).filter(
        |ip: Seq<u8>| !is_loopback(ip) && !is_unspecified(ip),
    );
    let mut out: Vec<Vec<u8>> = Vec::new();
    proof {
        assert(addr_views(out@).to_set() =~= Set::<Seq<u8>>::empty());
    }
    insert_sorted(&mut out, ipv4(255, 255, 255, 255));
    insert_sorted(&mut out, ipv4(239, 255, 45, 54));
    proof {
        assert(addr_views(out@).to_set() =~= fixed.to_set()) by {
            assert forall|y: Seq<u8>| fixed.to_set().contains(y) <==> (y == fixed[0] || y == fixed[1]) by {
                if fixed.contains(y) {
                    let k = choose|k: int| 0 <= k < fixed.len() && fixed[k] == y;
                }
                if y == fixed[1] {
                    assert(fixed[1] == y);
                }
            }
        }
    }
    let ghost n = interface_broadcasts@.len();
    let mut i: usize = 0;
    while i < interface_broadcasts.len()
        invariant
            i <= interface_broadcasts.len(),
            strictly_sorted(addr_views(out@)),
            addr_views(out@).to_set() == fixed.to_set() + addr_views(interface_broadcasts@).subrange(
                0,
                i as int,
            ).filter(|ip: Seq<u8>| !is_loopback(ip) && !is_unspecified(ip)).to_set(),
        decreases interface_broadcasts.len() - i,
    {
        let ip = &interface_broadcasts[i];
        let ghost f = |ip: Seq<u8>| !is_loopback(ip) && !is_unspecified(ip);
        proof {
            crate::keyed::lemma_filter_step(addr_views(interface_broadcasts@), i as int, f);
            assert(addr_views(interface_broadcasts@).subrange(0, i + 1) =~= addr_views(
                interface_broadcasts@,
            ).subrange(0, i as int).push(ip@));
        }
        if !is_loopback_exec(ip) && !is_unspecified_exec(ip) {
            let ghost prev = addr_views(interface_broadcasts@).subrange(0, i as int).filter(f);
            insert_sorted(&mut out, ip.clone());
            proof {
                prev.lemma_push_to_set_commute(ip@);
                assert(addr_views(out@).to_set() =~= fixed.to_set() + prev.push(ip@).to_set());
            }
        }
        i = i + 1;
    }
    assert(addr_views(interface_broadcasts@).subrange(0, i as int) =~= addr_views(interface_broadcasts@));
    let ghost after_ifaces = addr_views(out@).to_set();
    let local = match dynamic_ip {
        Some(ip) => Some(ip),
        None => routed_ip,
    };
    let ghost local_view = opt_octets(local);
    match local {
        Some(ip) => {
            if ip.len() == 4 && !is_loopback_exec(&ip) && !is_unspecified_exec(&ip) {
                insert_sorted(&mut out, ipv4(ip[0], ip[1], ip[2], 255));
                insert_sorted(&mut out, ipv4(ip[0], ip[1], 255, 255));
                if ip[0] == 172 && ip[1] == 20 && ip[2] == 10 {
                    insert_sorted(&mut out, ipv4(172, 20, 10, 15));
                }
            }
        },
        None => {},
    }
    proof {
        let d = derived_broadcasts(local_view);
        assert(addr_views(out@).to_set() =~= after_ifaces + d.to_set()) by {
            assert forall|y: Seq<u8>| d.to_set().contains(y) <==> (exists|k: int| 0 <= k < d.len() && d[k] == y) by {}
            if d.len() == 3 {
                assert(d.to_set() =~= set![d[0], d[1], d[2]]) by {
                    assert forall|y: Seq<u8>| d.contains(y) <==> (y == d[0] || y == d[1] || y == d[2]) by {
                        if y == d[0] { assert(d[0] == y); }
                        if y == d[1] { assert(d[1] == y); }
                        if y == d[2] { assert(d[2] == y); }
                    }
                }
            } else if d.len() == 2 {
                assert(d.to_set() =~= set![d[0], d[1]]) by {
                    assert forall|y: Seq<u8>| d.contains(y) <==> (y == d[0] || y == d[1]) by {
                        if y == d[0] { assert(d[0] == y); }
                        if y == d[1] { assert(d[1] == y); }
                    }
                }
            } else {
                assert(d.to_set() =~= Set::<Seq<u8>>::empty());
            }
        }
        assert(want =~= fixed + ifaces + d);
        crate::keyed::lemma_concat_to_set(fixed + ifaces, d);
        crate::keyed::lemma_concat_to_set(fixed, ifaces);
        assert(addr_views(out@).to_set() =~= want.to_set());
    }
    out
}

// ---------------------------------------------------------------------------
// Interface broadcasts listed by `ip addr`.
// ---------------------------------------------------------------------------

/// The broadcast address an `ip addr` line lists: on a line that starts,
/// after white space, with `inet `, the fourth word when the third is `brd`.
pub open spec fn broadcast_field(line: Seq<char>) -> Option<Seq<char>> {
    let t = trim_start(line);
    let w = words(line);
    if t.len() >= 5 && t.subrange(0, 5) == seq!['i', 'n', 'e', 't', ' '] && w.len() > 3 && w[2]
        == seq!['b', 'r', 'd'] {
        Some(w[3])
    } else {
        None
    }
}

/// The broadcast addresses listed on `lines`, in order.
pub open spec fn broadcast_fields(lines: Seq<Seq<char>>) -> Seq<Seq<char>>
    decreases lines.len(),
{
    if lines.len() == 0 {
        seq![]
    } else {
        broadcast_fields(lines.drop_last()) + match broadcast_field(lines.last()) {
            Some(f) => seq![f],
            None => seq![],
        }
    }
}

fn broadcast_field_of(line: &Vec<char>) -> (r: Option<Vec<char>>)
    ensures
        r matches Some(f) ==> broadcast_field(line@) == Some(f@),
        r is None ==> broadcast_field(line@) is None,
{
    let mut k: usize = 0;
    assert(line@.subrange(0, line@.len() as int) =~= line@);
    while k < line.len() && is_white_space_char(line[k])
        invariant
            k <= line.len(),
            trim_start(line@) == trim_start(line@.subrange(k as int, line@.len() as int)),
        decreases line.len() - k,
    {
        assert(line@.subrange(k as int, line@.len() as int).drop_first() =~= line@.subrange(
            k + 1,
            line@.len() as int,
        ));
        k = k + 1;
    }
    let ghost t = line@.subrange(k as int, line@.len() as int);
    assert(trim_start(line@) == t);
    if !(line.len() - k >= 5 && line[k] == 'i' && line[k + 1] == 'n' && line[k + 2] == 'e'
        && line[k + 3] == 't' && line[k + 4] == ' ') {
        proof {
            if t.len() >= 5 && t.subrange(0, 5) == seq!['i', 'n', 'e', 't', ' '] {
                assert(t.subrange(0, 5)[0] == line@[k as int]);
                assert(t.subrange(0, 5)[1] == line@[k + 1]);
                assert(t.subrange(0, 5)[2] == line@[k + 2]);
                assert(t.subrange(0, 5)[3] == line@[k + 3]);
                assert(t.subrange(0, 5)[4] == line@[k + 4]);
            }
        }
        return None;
    }
    assert(t.subrange(0, 5) =~= seq!['i', 'n', 'e', 't', ' ']);
    let w = words_of(line);
    proof {
        assert(w@.len() == words(line@).len());
    }
    if w.len() > 3 && w[2].len() == 3 && w[2][0] == 'b' && w[2][1] == 'r' && w[2][2] == 'd' {
        assert(w@[2]@ =~= seq!['b', 'r', 'd']);
        assert(words(line@)[2] == w@[2]@);
        let f = w[3].clone();
        assert(words(line@)[3] == w@[3]@);
        Some(f)
    } else {
        proof {
            if w@.len() > 3 && words(line@)[2] == seq!['b', 'r', 'd'] {
                assert(words(line@)[2] == w@[2]@);
                assert(w@[2]@.len() == 3);
                assert(w@[2]@[0] == 'b');
            }
        }
        None
    }
}

/// The broadcast addresses that the output of `ip addr` lists, in order:
/// from each line that starts, after white space, with `inet ` and whose
/// third word is `brd`, the fourth word.
pub fn local_broadcasts_from_ip_output(output: &str) -> (r: Vec<String>)
    ensures
        r@.map_values(|x: String| x@) == broadcast_fields(split_lines(output@)),
{
    let chars = chars_vec(output);
    let mut out: Vec<String> = Vec::new();
    let mut line: Vec<char> = Vec::new();
    let ghost mut done: Seq<Seq<char>> = seq![];
    let mut i: usize = 0;
    while i < chars.len()
        invariant
            i <= chars.len(),
            chars@ == output@,
            split_lines(chars@.subrange(0, i as int)) == done.push(line@),
            out@.map_values(|x: String| x@) == broadcast_fields(done),
        decreases chars.len() - i,
    {
        let c = chars[i];
        let ghost next = chars@.subrange(0, i + 1);
        assert(next.drop_last() =~= chars@.subrange(0, i as int));
        if c == '\n' {
            let ghost before = out@.map_values(|x: String| x@);
            match broadcast_field_of(&line) {
                Some(f) => {
                    out.push(string_of_chars(&f));
                    assert(out@.map_values(|x: String| x@) =~= before.push(f@));
                },
                None => {},
            }
            proof {
                assert(done.push(line@).drop_last() =~= done);
                done = done.push(line@);
            }
            line = Vec::new();
            assert(split_lines(next) == done.push(line@));
        } else {
            let ghost before = line@;
            line.push(c);
            proof {
                assert(done.push(before).drop_last() =~= done);
                assert(split_lines(next) =~= done.push(line@));
            }
        }
        i = i + 1;
    }
    assert(chars@.subrange(0, i as int) =~= output@);
    let ghost before = out@.map_values(|x: String| x@);
    assert(done.push(line@).drop_last() =~= done);
    match broadcast_field_of(&line) {
        Some(f) => {
            out.push(string_of_chars(&f));
            assert(out@.map_values(|x: String| x@) =~= before.push(f@));
        },
        None => {},
    }
    out
}

} // verus!
