//! The registry of peers found by LAN discovery and their connection status.

use vstd::prelude::*;
use crate::keyed::{
    find_key, has_key, key_index, key_of, keyed_map, keys_unique, lemma_keyed_index,
    lemma_keyed_push, lemma_keyed_update, KeyedRecord,
};
use crate::sync_engine::read_clock;

verus! {

/// A discovered peer.
#[derive(Clone, Debug, PartialEq, Eq)]
pub struct Peer {
    pub device_id: String,
    pub device_name: String,
    pub ip_address: String,
    pub ws_port: u16,
    pub last_seen: u64,
    /// "Connected", "Disconnected" or "Connecting".
    pub connection_status: String,
}

impl KeyedRecord for Peer {
    open spec fn spec_key(&self) -> Seq<char> {
        self.device_id@
    }

    fn record_key(&self) -> (k: &String) {
        &self.device_id
    }
}

/// A copy of a peer record.
pub fn clone_peer(p: &Peer) -> (r: Peer)
    ensures
        r == *p,
{
    Peer {
        device_id: p.device_id.clone(),
        device_name: p.device_name.clone(),
        ip_address: p.ip_address.clone(),
        ws_port: p.ws_port,
        last_seen: p.last_seen,
        connection_status: p.connection_status.clone(),
    }
}

/// Whether a peer counts as not connected.
pub open spec fn is_disconnected(p: Peer) -> bool {
    p.connection_status@ == "Disconnected"@
}

/// The device IDs of a list of peers.
pub open spec fn peer_ids(s: Seq<Peer>) -> Seq<Seq<char>> {
    s.map_values(|p: Peer| p.device_id@)
}

/// The texts of a list of strings.
pub open spec fn texts(s: Seq<String>) -> Seq<Seq<char>> {
    s.map_values(|x: String| x@)
}

/// `is_disconnected` as a predicate.
pub open spec fn disconnected_pred() -> spec_fn(Peer) -> bool {
    |p: Peer| is_disconnected(p)
}

/// `is_expired` at `now` as a predicate.
pub open spec fn expired_pred(now: u64, timeout: u64) -> spec_fn(Peer) -> bool {
    |p: Peer| is_expired(p, now, timeout)
}

/// The negation of `expired_pred`.
pub open spec fn live_pred(now: u64, timeout: u64) -> spec_fn(Peer) -> bool {
    |p: Peer| !is_expired(p, now, timeout)
}

/// Whether a peer was last seen more than `timeout` seconds before `now`.
pub open spec fn is_expired(p: Peer, now: u64, timeout: u64) -> bool {
    now - p.last_seen > timeout
}

/// The record of a peer after an announcement at time `now`: a known peer
/// keeps its status and takes each non-empty field of the announcement; an
/// unknown peer starts disconnected.
pub open spec fn announced_peer(
    previous: Option<Peer>,
    device_id: Seq<char>,
    device_name: Seq<char>,
    ip_address: Seq<char>,
    ws_port: u16,
    now: u64,
    fresh: Peer,
) -> bool {
    match previous {
        Some(p) => {
            &&& fresh.device_id == p.device_id
            &&& fresh.last_seen == now
            &&& fresh.connection_status == p.connection_status
            &&& fresh.ip_address@ == (if ip_address.len() > 0 { ip_address } else { p.ip_address@ })
            &&& fresh.ws_port == (if ws_port > 0 { ws_port } else { p.ws_port })
            &&& fresh.device_name@ == (if device_name.len() > 0 {
                device_name
            } else {
                p.device_name@
            })
        },
        None => {
            &&& fresh.device_id@ == device_id
            &&& fresh.device_name@ == device_name
            &&& fresh.ip_address@ == ip_address
            &&& fresh.ws_port == ws_port
            &&& fresh.last_seen == now
            &&& fresh.connection_status@ == "Disconnected"@
        },
    }
}

/// The discovered peers, one record per device ID.
pub struct PeerRegistry {
    peers: Vec<Peer>,
    clock: Ghost<u64>,
}

impl View for PeerRegistry {
    type V = Map<Seq<char>, Peer>;

    /// The registry as a map from device ID to record.
    closed spec fn view(&self) -> Map<Seq<char>, Peer> {
        keyed_map(self.peers@, key_of::<Peer>())
    }
}

impl PeerRegistry {
    pub closed spec fn wf(&self) -> bool {
        keys_unique(self.peers@, key_of::<Peer>())
    }

    /// The records in their stored order.
    pub closed spec fn records(&self) -> Seq<Peer> {
        self.peers@
    }

    /// The clock reading, in milliseconds since the Unix epoch, taken by the
    /// latest operation on this registry that read the clock.
    pub closed spec fn clock_reading(&self) -> u64 {
        self.clock@
    }

    pub fn new() -> (r: PeerRegistry)
        ensures
            r.wf(),
            r@ == Map::<Seq<char>, Peer>::empty(),
            r.records() == Seq::<Peer>::empty(),
    {
        let r = PeerRegistry { peers: Vec::new(), clock: Ghost(0) };
        assert(r@ =~= Map::<Seq<char>, Peer>::empty());
        r
    }

    /// The stored records are exactly the map's values.
    pub proof fn lemma_records_view(&self)
        requires
            self.wf(),
        ensures
            forall|i: int|
                0 <= i < self.records().len() ==> #[trigger] self@.contains_key(
                    self.records()[i].device_id@,
                ) && self@[self.records()[i].device_id@] == self.records()[i],
            forall|k: Seq<char>|
                #[trigger] self@.contains_key(k) ==> exists|i: int|
                    0 <= i < self.records().len() && self.records()[i].device_id@ == k,
    {
        assert forall|i: int| 0 <= i < self.records().len() implies #[trigger] self@.contains_key(
            self.records()[i].device_id@,
        ) && self@[self.records()[i].device_id@] == self.records()[i] by {
            lemma_keyed_index(self.peers@, key_of::<Peer>(), i);
        }
        assert forall|k: Seq<char>| #[trigger] self@.contains_key(k) implies exists|i: int|
            0 <= i < self.records().len() && self.records()[i].device_id@ == k by {
            let i = key_index(self.peers@, key_of::<Peer>(), k);
            assert(key_of::<Peer>()(self.peers@[i]) == k);
            assert(self.peers@[i].device_id@ == k);
            assert(self.records()[i].device_id@ == k);
        }
    }
}

/// Records an announcement from `device_id` received at time `now`.
pub fn add_or_update_peer_at(
    registry: &mut PeerRegistry,
    device_id: String,
    device_name: String,
    ip_address: String,
    ws_port: u16,
    now: u64,
)
    requires
        old(registry).wf(),
    ensures
        final(registry).wf(),
        final(registry)@.contains_key(device_id@),
        final(registry)@ == old(registry)@.insert(device_id@, final(registry)@[device_id@]),
        announced_peer(
            if old(registry)@.contains_key(device_id@) {
                Some(old(registry)@[device_id@])
            } else {
                None
            },
            device_id@,
            device_name@,
            ip_address@,
            ws_port,
            now,
            final(registry)@[device_id@],
        ),
        final(registry).clock_reading() == old(registry).clock_reading(),
{
    let ghost s = registry.peers@;
    match find_key(&registry.peers, &device_id) {
        Some(i) => {
            proof {
                lemma_keyed_index(s, key_of::<Peer>(), i as int);
            }
            let old_peer = &registry.peers[i];
            let updated = Peer {
                device_id: old_peer.device_id.clone(),
                device_name: if !device_name.as_str().is_empty() {
                    device_name
                } else {
                    old_peer.device_name.clone()
                },
                ip_address: if !ip_address.as_str().is_empty() {
                    ip_address
                } else {
                    old_peer.ip_address.clone()
                },
                ws_port: if ws_port > 0 {
                    ws_port
                } else {
                    old_peer.ws_port
                },
                last_seen: now,
                connection_status: old_peer.connection_status.clone(),
            };
            let _ = registry.peers.remove(i);
            registry.peers.insert(i, updated);
            proof {
                assert(registry.peers@ =~= s.update(i as int, updated));
                lemma_keyed_update(s, key_of::<Peer>(), i as int, updated);
            }
        },
        None => {
            let ghost id = device_id@;
            let peer = Peer {
                device_id,
                device_name,
                ip_address,
                ws_port,
                last_seen: now,
                connection_status: String::from_str("Disconnected"),
            };
            registry.peers.push(peer);
            proof {
                lemma_keyed_push(s, key_of::<Peer>(), peer);
            }
        },
    }
}

/// Records an announcement from `device_id` at the current time (seconds
/// since the Unix epoch).
pub fn add_or_update_peer(
    registry: &mut PeerRegistry,
    device_id: String,
    device_name: String,
    ip_address: String,
    ws_port: u16,
)
    requires
        old(registry).wf(),
    ensures
        final(registry).wf(),
        final(registry)@.contains_key(device_id@),
        final(registry)@ == old(registry)@.insert(device_id@, final(registry)@[device_id@]),
        announced_peer(
            if old(registry)@.contains_key(device_id@) {
                Some(old(registry)@[device_id@])
            } else {
                None
            },
            device_id@,
            device_name@,
            ip_address@,
            ws_port,
            final(registry)@[device_id@].last_seen,
            final(registry)@[device_id@],
        ),
        final(registry)@[device_id@].last_seen == final(registry).clock_reading() / 1000,
{
    let millis = read_clock(&mut registry.clock);
    let now = millis / 1000;
    add_or_update_peer_at(registry, device_id, device_name, ip_address, ws_port, now);
}

/// The record of `device_id`, if discovered.
pub fn find_peer<'a>(registry: &'a PeerRegistry, device_id: &str) -> (r: Option<&'a Peer>)
    requires
        registry.wf(),
    ensures
        r matches Some(p) ==> registry@.contains_key(device_id@) && *p == registry@[device_id@],
        r is None ==> !registry@.contains_key(device_id@),
{
    let id = device_id.to_owned();
    match find_key(&registry.peers, &id) {
        Some(i) => {
            proof {
                lemma_keyed_index(registry.peers@, key_of::<Peer>(), i as int);
            }
            Some(&registry.peers[i])
        },
        None => None,
    }
}

/// Sets the connection status of `device_id`, if it is known.
pub fn update_connection_status(registry: &mut PeerRegistry, device_id: &str, status: &str)
    requires
        old(registry).wf(),
    ensures
        final(registry).wf(),
        !old(registry)@.contains_key(device_id@) ==> final(registry)@ == old(registry)@
            && final(registry).records() == old(registry).records(),
        old(registry)@.contains_key(device_id@) ==> {
            &&& final(registry)@ == old(registry)@.insert(
                device_id@,
                final(registry)@[device_id@],
            )
            &&& final(registry)@[device_id@].connection_status@ == status@
            &&& final(registry)@[device_id@] == (Peer {
                connection_status: final(registry)@[device_id@].connection_status,
                ..old(registry)@[device_id@]
            })
        },
        final(registry).clock_reading() == old(registry).clock_reading(),
{
    let id = device_id.to_owned();
    let ghost s = registry.peers@;
    match find_key(&registry.peers, &id) {
        Some(i) => {
            proof {
                lemma_keyed_index(s, key_of::<Peer>(), i as int);
            }
            let mut peer = registry.peers.remove(i);
            peer.connection_status = String::from_str(status);
            registry.peers.insert(i, peer);
            proof {
                assert(registry.peers@ =~= s.update(i as int, peer));
                lemma_keyed_update(s, key_of::<Peer>(), i as int, peer);
                lemma_keyed_index(registry.peers@, key_of::<Peer>(), i as int);
            }
        },
        None => {},
    }
}

/// A list of peers with unique device IDs lists each ID once.
proof fn lemma_ids_no_duplicates(s: Seq<Peer>)
    requires
        keys_unique(s, key_of::<Peer>()),
    ensures
        peer_ids(s).no_duplicates(),
{
    crate::keyed::lemma_unique_keys_no_duplicates(s, key_of::<Peer>());
    assert(peer_ids(s) =~= s.map_values(key_of::<Peer>()));
}

/// Every discovered peer, in stored order.
pub fn get_peers(registry: &PeerRegistry) -> (r: Vec<Peer>)
    requires
        registry.wf(),
    ensures
        r@ == registry.records(),
        peer_ids(r@).no_duplicates(),
{
    proof {
        lemma_ids_no_duplicates(registry.peers@);
    }
    let mut out: Vec<Peer> = Vec::new();
    let mut i: usize = 0;
    while i < registry.peers.len()
        invariant
            i <= registry.peers.len(),
            out@ == registry.peers@.subrange(0, i as int),
        decreases registry.peers.len() - i,
    {
        out.push(clone_peer(&registry.peers[i]));
        i = i + 1;
        assert(out@ =~= registry.peers@.subrange(0, i as int));
    }
    assert(out@ =~= registry.peers@);
    out
}

/// The discovered peers whose status is "Disconnected", in stored order.
pub fn get_unconnected_peers(registry: &PeerRegistry) -> (r: Vec<Peer>)
    ensures
        r@ == registry.records().filter(disconnected_pred()),
{
    let disconnected = String::from_str("Disconnected");
    let mut out: Vec<Peer> = Vec::new();
    let mut i: usize = 0;
    while i < registry.peers.len()
        invariant
            i <= registry.peers.len(),
            disconnected@ == "Disconnected"@,
            out@ == registry.peers@.subrange(0, i as int).filter(disconnected_pred()),
        decreases registry.peers.len() - i,
    {
        let ghost next = registry.peers@.subrange(0, i + 1);
        let ghost prev = out@;
        proof {
            assert(next.drop_last() =~= registry.peers@.subrange(0, i as int));
            assert(next.last() == registry.peers@[i as int]);
        }
        if registry.peers[i].connection_status == disconnected {
            out.push(clone_peer(&registry.peers[i]));
            proof {
                crate::keyed::lemma_filter_step(registry.peers@, i as int, disconnected_pred());
            }
        } else {
            proof {
                crate::keyed::lemma_filter_step(registry.peers@, i as int, disconnected_pred());
            }
        }
        i = i + 1;
    }
    assert(registry.peers@.subrange(0, i as int) =~= registry.peers@);
    out
}

/// Removes the peers last seen more than `timeout_seconds` before `now`
/// and returns their device IDs in stored order.
pub fn prune_inactive_peers_at(registry: &mut PeerRegistry, now: u64, timeout_seconds: u64) -> (r:
    Vec<String>)
    requires
        old(registry).wf(),
        forall|i: int|
            0 <= i < old(registry).records().len() ==> #[trigger] old(registry).records()[i].last_seen
                <= now,
    ensures
        final(registry).wf(),
        final(registry).records() == old(registry).records().filter(live_pred(now, timeout_seconds)),
        texts(r@) == peer_ids(old(registry).records().filter(expired_pred(now, timeout_seconds))),
        texts(r@).no_duplicates(),
        final(registry).clock_reading() == old(registry).clock_reading(),
{
    let ghost s = registry.peers@;
    let mut kept: Vec<Peer> = Vec::new();
    let mut removed: Vec<String> = Vec::new();
    let mut rest: Vec<Peer> = Vec::new();
    std::mem::swap(&mut rest, &mut registry.peers);
    let mut i: usize = 0;
    let n = rest.len();
    assert forall|j: int| 0 <= j < s.len() implies #[trigger] s[j].last_seen <= now by {
        assert(old(registry).records()[j] == s[j]);
    }
    while i < n
        invariant
            n == s.len(),
            i <= n,
            rest@ == s.subrange(i as int, n as int),
            forall|j: int| 0 <= j < s.len() ==> #[trigger] s[j].last_seen <= now,
            kept@ == s.subrange(0, i as int).filter(live_pred(now, timeout_seconds)),
            texts(removed@) == peer_ids(s.subrange(0, i as int).filter(expired_pred(now, timeout_seconds))),
        decreases n - i,
    {
        let ghost next = s.subrange(0, i + 1);
        let ghost prev_kept = kept@;
        let ghost prev_removed = texts(removed@);
        proof {
            assert(next.drop_last() =~= s.subrange(0, i as int));
            assert(next.last() == s[i as int]);
        }
        let peer = rest.remove(0);
        assert(peer == s[i as int]);
        if now - peer.last_seen > timeout_seconds {
            let id = peer.device_id;
            removed.push(id);
            proof {
                crate::keyed::lemma_filter_step(s, i as int, expired_pred(now, timeout_seconds));
                crate::keyed::lemma_filter_step(s, i as int, live_pred(now, timeout_seconds));
                assert(texts(removed@) =~= prev_removed.push(s[i as int].device_id@));
                assert(next.filter(expired_pred(now, timeout_seconds)) == s.subrange(0, i as int).filter(expired_pred(now, timeout_seconds)).push(s[i as int]));
                assert(peer_ids(next.filter(expired_pred(now, timeout_seconds))) =~= peer_ids(s.subrange(
                    0,
                    i as int,
                ).filter(expired_pred(now, timeout_seconds))).push(s[i as int].device_id@));
                assert(next.filter(live_pred(now, timeout_seconds)) == prev_kept);
            }
        } else {
            kept.push(peer);
            proof {
                crate::keyed::lemma_filter_step(s, i as int, expired_pred(now, timeout_seconds));
                crate::keyed::lemma_filter_step(s, i as int, live_pred(now, timeout_seconds));
                assert(next.filter(live_pred(now, timeout_seconds)) == prev_kept.push(s[i as int]));
                assert(next.filter(expired_pred(now, timeout_seconds)) == s.subrange(0, i as int).filter(expired_pred(now, timeout_seconds)));
                assert(texts(removed@) =~= prev_removed);
            }
        }
        i = i + 1;
        assert(rest@ =~= s.subrange(i as int, n as int));
    }
    assert(s.subrange(0, n as int) =~= s);
    registry.peers = kept;
    proof {
        lemma_filter_keeps_unique(s, live_pred(now, timeout_seconds));
        lemma_filter_keeps_unique(s, expired_pred(now, timeout_seconds));
        lemma_ids_no_duplicates(s.filter(expired_pred(now, timeout_seconds)));
    }
    removed
}

/// Filtering a list with unique keys keeps the keys unique.
proof fn lemma_filter_keeps_unique(s: Seq<Peer>, f: spec_fn(Peer) -> bool)
    requires
        keys_unique(s, key_of::<Peer>()),
    ensures
        keys_unique(s.filter(f), key_of::<Peer>()),
    decreases s.len(),
{
    reveal(Seq::filter);
    if s.len() > 0 {
        let t = s.drop_last();
        assert forall|a: int, b: int|
            0 <= a < t.len() && 0 <= b < t.len() && a != b implies #[trigger] key_of::<Peer>()(t[a])
            != #[trigger] key_of::<Peer>()(t[b]) by {
            assert(t[a] == s[a] && t[b] == s[b]);
        }
        lemma_filter_keeps_unique(t, f);
        if f(s.last()) {
            let u = t.filter(f);
            assert forall|a: int| 0 <= a < u.len() implies #[trigger] key_of::<Peer>()(u[a])
                != key_of::<Peer>()(s.last()) by {
                crate::keyed::lemma_filter_elements(t, f);
                assert(t.contains(u[a]));
                let k = choose|k: int| 0 <= k < t.len() && t[k] == u[a];
                assert(s[k] == u[a]);
                assert(key_of::<Peer>()(s[k]) != key_of::<Peer>()(s[s.len() - 1]));
            }
            let v = u.push(s.last());
            assert forall|a: int, b: int|
                0 <= a < v.len() && 0 <= b < v.len() && a != b implies #[trigger] key_of::<Peer>()(
                v[a],
            ) != #[trigger] key_of::<Peer>()(v[b]) by {
                if a < u.len() && b < u.len() {
                } else if a < u.len() {
                    assert(key_of::<Peer>()(u[a]) != key_of::<Peer>()(s.last()));
                } else {
                    assert(key_of::<Peer>()(u[b]) != key_of::<Peer>()(s.last()));
                }
            }
        }
    }
}

/// The outcome of pruning at time `now`: no record is newer than `now`,
/// the expired records are gone and their IDs are reported in order.
pub open spec fn pruned_at(
    before: Seq<Peer>,
    after: Seq<Peer>,
    removed: Seq<String>,
    now: u64,
    timeout: u64,
) -> bool {
    &&& forall|i: int| 0 <= i < before.len() ==> #[trigger] before[i].last_seen <= now
    &&& after == before.filter(live_pred(now, timeout))
    &&& texts(removed) == peer_ids(before.filter(expired_pred(now, timeout)))
}

/// The time a sweep at clock time `now` (seconds) prunes as of: `now`, or
/// the latest last-seen time of `records` when that is later.
pub open spec fn raised(records: Seq<Peer>, now: u64) -> u64
    decreases records.len(),
{
    if records.len() == 0 {
        now
    } else {
        let t = raised(records.drop_last(), now);
        if records.last().last_seen > t { records.last().last_seen } else { t }
    }
}

/// Removes the peers not seen for more than `timeout_seconds` and returns
/// their device IDs in stored order, as of the current time in seconds.
/// When the clock reads earlier than some peer's last announcement, the
/// latest announcement time stands for the current time.
pub fn prune_inactive_peers(registry: &mut PeerRegistry, timeout_seconds: u64) -> (r: Vec<String>)
    requires
        old(registry).wf(),
    ensures
        final(registry).wf(),
        exists|now: u64|
            #[trigger] pruned_at(old(registry).records(), final(registry).records(), r@, now, timeout_seconds),
        pruned_at(
            old(registry).records(),
            final(registry).records(),
            r@,
            raised(old(registry).records(), (final(registry).clock_reading() / 1000) as u64),
            timeout_seconds,
        ),
        texts(r@).no_duplicates(),
{
    let millis = read_clock(&mut registry.clock);
    let mut now = millis / 1000;
    let mut i: usize = 0;
    while i < registry.peers.len()
        invariant
            i <= registry.peers.len(),
            registry.wf(),
            registry.records() == old(registry).records(),
            registry.clock_reading() == millis,
            now == raised(registry.peers@.subrange(0, i as int), millis / 1000),
            forall|j: int| 0 <= j < i ==> #[trigger] registry.peers@[j].last_seen <= now,
        decreases registry.peers.len() - i,
    {
        assert(registry.peers@.subrange(0, i + 1).drop_last() =~= registry.peers@.subrange(0, i as int));
        if registry.peers[i].last_seen > now {
            now = registry.peers[i].last_seen;
        }
        i = i + 1;
    }
    assert(registry.peers@.subrange(0, i as int) =~= registry.peers@);
    let ghost before = registry.records();
    let r = prune_inactive_peers_at(registry, now, timeout_seconds);
    assert(pruned_at(before, registry.records(), r@, now, timeout_seconds));
    r
}

/// After pruning, none of the reported device IDs is still registered.
pub proof fn lemma_pruned_ids_absent(
    before: PeerRegistry,
    after: PeerRegistry,
    removed: Seq<String>,
    now: u64,
    timeout: u64,
)
    requires
        before.wf(),
        pruned_at(before.records(), after.records(), removed, now, timeout),
    ensures
        forall|k: int| 0 <= k < removed.len() ==> !after@.contains_key(#[trigger] removed[k]@),
{
    let b = before.peers@;
    let gone = b.filter(expired_pred(now, timeout));
    let kept = b.filter(live_pred(now, timeout));
    crate::keyed::lemma_filter_elements(b, expired_pred(now, timeout));
    crate::keyed::lemma_filter_elements(b, live_pred(now, timeout));
    assert forall|k: int| 0 <= k < removed.len() implies !after@.contains_key(#[trigger] removed[k]@) by {
        assert(texts(removed)[k] == removed[k]@);
        assert(texts(removed).len() == removed.len());
        assert(peer_ids(gone).len() == gone.len());
        let p = gone[k];
        assert(peer_ids(gone)[k] == p.device_id@);
        assert(removed[k]@ == p.device_id@);
        b.lemma_filter_pred(expired_pred(now, timeout), k);
        assert(b.contains(p));
        let a = choose|a: int| 0 <= a < b.len() && b[a] == p;
        if after@.contains_key(removed[k]@) {
            let i = key_index(after.peers@, key_of::<Peer>(), removed[k]@);
            assert(key_of::<Peer>()(after.peers@[i]) == removed[k]@);
            let q = kept[i];
            assert(after.peers@[i] == q);
            b.lemma_filter_pred(live_pred(now, timeout), i);
            assert(b.contains(q));
            let c = choose|c: int| 0 <= c < b.len() && b[c] == q;
            assert(key_of::<Peer>()(b[a]) == key_of::<Peer>()(b[c]));
            assert(a == c);
        }
    }
}


proof fn lemma_pruned_one(before: Seq<Peer>, after: Seq<Peer>, removed: Seq<String>, now: u64, timeout: u64, i: int)
    requires
        pruned_at(before, after, removed, now, timeout),
        keys_unique(before, key_of::<Peer>()),
        0 <= i < before.len(),
    ensures
        after.contains(before[i]) <==> now - before[i].last_seen <= timeout,
        texts(removed).contains(before[i].device_id@) <==> now - before[i].last_seen > timeout,
{
    let live = live_pred(now, timeout);
    let gone = expired_pred(now, timeout);
    let p = before[i];
    if now - p.last_seen <= timeout {
        before.lemma_filter_contains(live, i);
    } else {
        before.lemma_filter_contains(gone, i);
        let g = before.filter(gone);
        let k = choose|k: int| 0 <= k < g.len() && g[k] == p;
        assert(peer_ids(g)[k] == p.device_id@);
        assert(texts(removed)[k] == p.device_id@);
    }
    if after.contains(p) {
        let k = choose|k: int| 0 <= k < after.len() && after[k] == p;
        before.lemma_filter_pred(live, k);
    }
    if texts(removed).contains(p.device_id@) {
        let g = before.filter(gone);
        let k = choose|k: int| 0 <= k < texts(removed).len() && texts(removed)[k] == p.device_id@;
        assert(peer_ids(g)[k] == p.device_id@);
        let q = g[k];
        before.lemma_filter_pred(gone, k);
        before.lemma_filter_contains_rev(gone, q);
        let j = choose|j: int| 0 <= j < before.len() && before[j] == q;
        assert(key_of::<Peer>()(before[j]) == key_of::<Peer>()(before[i]));
        assert(j == i);
    }
}

/// A sweep removes exactly the silent peers: a peer stays registered iff it
/// was seen at most `timeout` seconds before the sweep's time, and its ID is
/// reported iff it was seen longer ago than that.
pub proof fn law_pruned_iff_silent(before: Seq<Peer>, after: Seq<Peer>, removed: Seq<String>, now: u64, timeout: u64)
    requires
        pruned_at(before, after, removed, now, timeout),
        keys_unique(before, key_of::<Peer>()),
    ensures
        forall|i: int|
            0 <= i < before.len() ==> (after.contains(#[trigger] before[i]) <==> now - before[i].last_seen
                <= timeout),
        forall|i: int|
            0 <= i < before.len() ==> (texts(removed).contains(#[trigger] before[i].device_id@) <==> now
                - before[i].last_seen > timeout),
{
    assert forall|i: int| 0 <= i < before.len() implies (after.contains(#[trigger] before[i]) <==> now
        - before[i].last_seen <= timeout) by {
        lemma_pruned_one(before, after, removed, now, timeout, i);
    }
    assert forall|i: int| 0 <= i < before.len() implies (texts(removed).contains(
        #[trigger] before[i].device_id@,
    ) <==> now - before[i].last_seen > timeout) by {
        lemma_pruned_one(before, after, removed, now, timeout, i);
    }
}

/// The time a sweep prunes as of is the clock time itself whenever the
/// clock reads at or after every announcement, and is never earlier than
/// the clock time or than any announcement.
pub proof fn law_sweep_time_is_clock_time(records: Seq<Peer>, now: u64)
    ensures
        raised(records, now) >= now,
        forall|i: int| 0 <= i < records.len() ==> #[trigger] records[i].last_seen <= raised(records, now),
        (forall|i: int| 0 <= i < records.len() ==> #[trigger] records[i].last_seen <= now) ==> raised(
            records,
            now,
        ) == now,
    decreases records.len(),
{
    if records.len() > 0 {
        let rest = records.drop_last();
        law_sweep_time_is_clock_time(rest, now);
        assert forall|i: int| 0 <= i < records.len() implies #[trigger] records[i].last_seen <= raised(records, now) by {
            if i < rest.len() {
                assert(records[i] == rest[i]);
            }
        }
        if forall|i: int| 0 <= i < records.len() ==> #[trigger] records[i].last_seen <= now {
            assert forall|i: int| 0 <= i < rest.len() implies #[trigger] rest[i].last_seen <= now by {
                assert(records[i] == rest[i]);
            }
            assert(records[records.len() - 1].last_seen <= now);
        }
    }
}

/// An announcement and a later sweep: a peer announced at clock reading
/// `announced_ms` (milliseconds) is removed by a sweep at clock reading
/// `sweep_ms`, when that is at or after every announcement, iff more than
/// `timeout` whole seconds passed between the two readings.
pub proof fn law_announced_peer_swept_iff_silent(
    before: Seq<Peer>,
    after: Seq<Peer>,
    removed: Seq<String>,
    i: int,
    announced_ms: u64,
    sweep_ms: u64,
    timeout: u64,
)
    requires
        keys_unique(before, key_of::<Peer>()),
        0 <= i < before.len(),
        before[i].last_seen == announced_ms / 1000,
        forall|j: int| 0 <= j < before.len() ==> #[trigger] before[j].last_seen <= sweep_ms / 1000,
        pruned_at(before, after, removed, raised(before, (sweep_ms / 1000) as u64), timeout),
    ensures
        after.contains(before[i]) <==> sweep_ms / 1000 - announced_ms / 1000 <= timeout,
        texts(removed).contains(before[i].device_id@) <==> sweep_ms / 1000 - announced_ms / 1000
            > timeout,
{
    law_sweep_time_is_clock_time(before, (sweep_ms / 1000) as u64);
    lemma_pruned_one(before, after, removed, raised(before, (sweep_ms / 1000) as u64), timeout, i);
}

} // verus!
