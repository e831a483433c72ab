//! Which trusted peers to (re)connect to.

use vstd::prelude::*;
use crate::connection_registry::{get_unconnected_peers, disconnected_pred, Peer, PeerRegistry};
use crate::trust_store::{get_all_trusted_devices, is_device_trusted, TrustStore, TrustedDevice};

verus! {

/// A connection the application should open.
#[derive(Clone, Debug, PartialEq, Eq)]
pub struct ConnectTarget {
    pub peer_id: String,
    pub ip: String,
    pub port: u16,
}

pub open spec fn target_view(t: ConnectTarget) -> (Seq<char>, Seq<char>, u16) {
    (t.peer_id@, t.ip@, t.port)
}

/// Discovered, disconnected peers that are trusted and listening.
pub open spec fn discovered_targets(unconnected: Seq<Peer>, trusted: Set<Seq<char>>) -> Seq<
    (Seq<char>, Seq<char>, u16),
>
    decreases unconnected.len(),
{
    if unconnected.len() == 0 {
        seq![]
    } else {
        let rest = discovered_targets(unconnected.drop_last(), trusted);
        let p = unconnected.last();
        if p.ws_port > 0 && trusted.contains(p.device_id@) {
            rest.push((p.device_id@, p.ip_address@, p.ws_port))
        } else {
            rest
        }
    }
}

/// Trusted devices without an active connection whose last address is
/// known.
pub open spec fn stored_targets(devices: Seq<TrustedDevice>, active: Set<Seq<char>>) -> Seq<
    (Seq<char>, Seq<char>, u16),
>
    decreases devices.len(),
{
    if devices.len() == 0 {
        seq![]
    } else {
        let rest = stored_targets(devices.drop_last(), active);
        let d = devices.last();
        if !active.contains(d.device_id@) && d.last_ip is Some && d.last_port is Some
            && d.last_port->0 > 0 {
            rest.push((d.device_id@, d.last_ip->0@, d.last_port->0))
        } else {
            rest
        }
    }
}

fn contains_string(v: &Vec<String>, s: &String) -> (r: bool)
    ensures
        r == v@.map_values(|x: String| x@).contains(s@),
{
    let mut i: usize = 0;
    while i < v.len()
        invariant
            i <= v.len(),
            forall|j: int| 0 <= j < i ==> v@[j]@ != s@,
        decreases v.len() - i,
    {
        if v[i] == *s {
            assert(v@.map_values(|x: String| x@)[i as int] == s@);
            return true;
        }
        i = i + 1;
    }
    false
}

/// The connections to open: first every discovered, disconnected peer that
/// is trusted and listening, then every trusted device that has no active
/// connection and a known last address with a listening port.
pub fn trigger_reconnect(registry: &PeerRegistry, store: &TrustStore, active_ids: &Vec<String>) -> (r:
    Vec<ConnectTarget>)
    requires
        registry.wf(),
        store.wf(),
    ensures
        r@.map_values(|t: ConnectTarget| target_view(t)) == discovered_targets(
            registry.records().filter(disconnected_pred()),
            store@.dom(),
        ) + stored_targets(store.records(), active_ids@.map_values(|x: String| x@).to_set()),
{
    let unconnected = get_unconnected_peers(registry);
    let mut out: Vec<ConnectTarget> = Vec::new();
    let mut i: usize = 0;
    while i < unconnected.len()
        invariant
            store.wf(),
            i <= unconnected.len(),
            out@.map_values(|t: ConnectTarget| target_view(t)) == discovered_targets(
                unconnected@.subrange(0, i as int),
                store@.dom(),
            ),
        decreases unconnected.len() - i,
    {
        let ghost prev = out@.map_values(|t: ConnectTarget| target_view(t));
        let p = &unconnected[i];
        proof {
            assert(unconnected@.subrange(0, i + 1).drop_last() =~= unconnected@.subrange(0, i as int));
        }
        if p.ws_port > 0 && is_device_trusted(store, p.device_id.as_str()) {
            out.push(ConnectTarget { peer_id: p.device_id.clone(), ip: p.ip_address.clone(), port: p.ws_port });
            assert(out@.map_values(|t: ConnectTarget| target_view(t)) =~= prev.push(
                (p.device_id@, p.ip_address@, p.ws_port),
            ));
        }
        i = i + 1;
    }
    assert(unconnected@.subrange(0, i as int) =~= unconnected@);
    let ghost first = out@.map_values(|t: ConnectTarget| target_view(t));
    let ghost active = active_ids@.map_values(|x: String| x@).to_set();
    let devices = get_all_trusted_devices(store);
    let mut j: usize = 0;
    while j < devices.len()
        invariant
            j <= devices.len(),
            active == active_ids@.map_values(|x: String| x@).to_set(),
            out@.map_values(|t: ConnectTarget| target_view(t)) == first + stored_targets(
                devices@.subrange(0, j as int),
                active,
            ),
        decreases devices.len() - j,
    {
        let ghost prev = out@.map_values(|t: ConnectTarget| target_view(t));
        let d = &devices[j];
        proof {
            assert(devices@.subrange(0, j + 1).drop_last() =~= devices@.subrange(0, j as int));
        }
        let is_active = contains_string(active_ids, &d.device_id);
        if !is_active {
            match (&d.last_ip, d.last_port) {
                (Some(ip), Some(port)) => {
                    if port > 0 {
                        out.push(ConnectTarget { peer_id: d.device_id.clone(), ip: ip.clone(), port });
                        assert(out@.map_values(|t: ConnectTarget| target_view(t)) =~= prev.push(
                            (d.device_id@, ip@, port),
                        ));
                    }
                },
                _ => {},
            }
        }
        j = j + 1;
    }
    assert(devices@.subrange(0, j as int) =~= devices@);
    out
}


/// Whether `t` is the stored address of device `d` and worth a connection:
/// the device has no active connection, and its last address and a
/// listening port (above zero) are both known.
pub open spec fn stored_target_of(d: TrustedDevice, active: Set<Seq<char>>, t: (Seq<char>, Seq<char>, u16)) -> bool {
    &&& !active.contains(d.device_id@)
    &&& t.0 == d.device_id@
    &&& d.last_ip is Some
    &&& d.last_ip->0@ == t.1
    &&& d.last_port == Some(t.2)
    &&& t.2 > 0
}

proof fn lemma_stored_target_source(devices: Seq<TrustedDevice>, active: Set<Seq<char>>, k: int) -> (i: int)
    requires
        0 <= k < stored_targets(devices, active).len(),
    ensures
        0 <= i < devices.len(),
        stored_target_of(devices[i], active, stored_targets(devices, active)[k]),
    decreases devices.len(),
{
    let rest = devices.drop_last();
    let r = stored_targets(rest, active);
    if k < r.len() {
        let i = lemma_stored_target_source(rest, active, k);
        assert(devices[i] == rest[i]);
        i
    } else {
        (devices.len() - 1) as int
    }
}

proof fn lemma_stored_target_present(devices: Seq<TrustedDevice>, active: Set<Seq<char>>, i: int)
    requires
        0 <= i < devices.len(),
        !active.contains(devices[i].device_id@),
        devices[i].last_ip is Some,
        devices[i].last_port is Some,
        devices[i].last_port->0 > 0,
    ensures
        stored_targets(devices, active).contains(
            (devices[i].device_id@, devices[i].last_ip->0@, devices[i].last_port->0),
        ),
    decreases devices.len(),
{
    let rest = devices.drop_last();
    let r = stored_targets(rest, active);
    let t = stored_targets(devices, active);
    let x = (devices[i].device_id@, devices[i].last_ip->0@, devices[i].last_port->0);
    if i < rest.len() {
        assert(devices[i] == rest[i]);
        lemma_stored_target_present(rest, active, i);
        let k = choose|k: int| 0 <= k < r.len() && r[k] == x;
        assert(t[k] == x);
    } else {
        assert(t[t.len() - 1] == x);
    }
}

/// Whether some device of `devices` is the stored source of target `t`.
pub open spec fn has_stored_source(devices: Seq<TrustedDevice>, active: Set<Seq<char>>, t: (Seq<char>, Seq<char>, u16)) -> bool {
    exists|i: int| 0 <= i < devices.len() && #[trigger] stored_target_of(devices[i], active, t)
}

/// Reconnection from the trust store: every target taken from the store is
/// the known last address and listening port of an inactive stored device,
/// and every inactive stored device whose address and listening port are
/// both known gives a target. A device without a stored port gives none.
pub proof fn law_stored_targets_listen(devices: Seq<TrustedDevice>, active: Set<Seq<char>>)
    ensures
        forall|k: int|
            0 <= k < stored_targets(devices, active).len() ==> #[trigger] has_stored_source(
                devices,
                active,
                stored_targets(devices, active)[k],
            ),
        forall|i: int|
            0 <= i < devices.len() && !active.contains(#[trigger] devices[i].device_id@)
                && devices[i].last_ip is Some && devices[i].last_port is Some
                && devices[i].last_port->0 > 0 ==> stored_targets(devices, active).contains(
                (devices[i].device_id@, devices[i].last_ip->0@, devices[i].last_port->0),
            ),
{
    assert forall|k: int|
        0 <= k < stored_targets(devices, active).len() implies #[trigger] has_stored_source(
            devices,
            active,
            stored_targets(devices, active)[k],
        ) by {
        let i = lemma_stored_target_source(devices, active, k);
        assert(stored_target_of(devices[i], active, stored_targets(devices, active)[k]));
    }
    assert forall|i: int|
        0 <= i < devices.len() && !active.contains(#[trigger] devices[i].device_id@)
            && devices[i].last_ip is Some && devices[i].last_port is Some
            && devices[i].last_port->0 > 0 implies stored_targets(devices, active).contains(
            (devices[i].device_id@, devices[i].last_ip->0@, devices[i].last_port->0),
        ) by {
        lemma_stored_target_present(devices, active, i);
    }
}

/// A trusted device stored without a listening port (as an approved pairing
/// requester is) is never a reconnection target taken from the store,
/// whichever connections are active.
pub proof fn law_portless_device_not_reconnected(store: TrustStore, active: Set<Seq<char>>, id: Seq<char>)
    requires
        store.wf(),
        store@.contains_key(id),
        store@[id].last_port is None,
    ensures
        forall|k: int|
            0 <= k < stored_targets(store.records(), active).len() ==> (#[trigger] stored_targets(
                store.records(),
                active,
            )[k]).0 != id,
{
    let devices = store.records();
    law_stored_targets_listen(devices, active);
    store.lemma_records_view();
    assert forall|k: int| 0 <= k < stored_targets(devices, active).len() implies (
    #[trigger] stored_targets(devices, active)[k]).0 != id by {
        let t = stored_targets(devices, active)[k];
        assert(has_stored_source(devices, active, t));
        let i = choose|i: int| 0 <= i < devices.len() && #[trigger] stored_target_of(devices[i], active, t);
        assert(store@.contains_key(devices[i].device_id@));
        assert(store@[devices[i].device_id@] == devices[i]);
    }
}

} // verus!
