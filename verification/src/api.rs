//! The operations the user interface calls.
//!
//! Each takes the part of the application state it works on; the
//! application owns that state and performs the network and clipboard I/O
//! that these functions ask for.

use vstd::prelude::*;
use vstd::string::StringSliceAdditionalSpecFns;
use vstd::string::StrSliceExecFns;
use crate::clipboard_state::{lww, update_clipboard_state, ClipboardState};
use crate::connection_registry::{find_peer, get_peers, Peer, PeerRegistry};
use crate::crypto::{
    ed25519_public_key, fingerprint, fingerprint_text, register_identity_keys, sha256_digest,
    x25519_public_key, IdentityKeys,
};
use crate::encoding::{base64_encode, base64_encoding};
use crate::lifecycle::{ForegroundAction, Lifecycle, PEER_PORT};
use crate::pairing::{compute_fingerprint, respond_to_pairing, PendingPairings};
use crate::sync_engine::{
    content_hash, emit_event, error_reported, remember, EventSink, SyncEngine, SyncEngineView, SyncEvent,
};
use crate::text::parse_u16;
use crate::trust_store::{get_all_trusted_devices, remove_trusted_device, TrustStore, TrustedDevice};

verus! {

/// The largest clipboard text, in UTF-8 bytes, that is sent to peers.
pub const MAX_CLIPBOARD_BYTES: usize = 512 * 1024;

/// A paired device as the user interface lists it.
#[derive(Clone, Debug, PartialEq, Eq)]
pub struct TrustedPeer {
    pub device_id: String,
    pub device_name: String,
    pub fingerprint: String,
    pub paired_at: u64,
}

/// Attaches the user interface's event stream.
pub fn init_app(sink: &mut EventSink)
    ensures
        final(sink).attached,
        final(sink).events@ == Seq::<SyncEvent>::empty(),
{
    sink.attached = true;
    sink.events = Vec::new();
}

/// Registers the identity keys from secure storage. Returns the Base64
/// Ed25519 public key, the Base64 X25519 public key and the identity
/// fingerprint, or nothing (and registers nothing) when a key is not 32
/// bytes long.
pub fn register_keys(keys: &mut IdentityKeys, signing_key_bytes: Vec<u8>, dh_key_bytes: Vec<u8>) -> (r:
    Vec<String>)
    ensures
        (signing_key_bytes@.len() != 32 || dh_key_bytes@.len() != 32) ==> r@.len() == 0 && *final(keys)
            == *old(keys),
        (signing_key_bytes@.len() == 32 && dh_key_bytes@.len() == 32) ==> {
            &&& r@.len() == 3
            &&& final(keys).signing_seed matches Some(s) && s@ == signing_key_bytes@
            &&& final(keys).dh_secret matches Some(d) && d@ == dh_key_bytes@
            &&& r@[0]@ == base64_encoding(ed25519_public_key(signing_key_bytes@))
            &&& r@[1]@ == base64_encoding(x25519_public_key(dh_key_bytes@))
            &&& r@[2]@ == fingerprint_text(sha256_digest(ed25519_public_key(signing_key_bytes@)))
        },
{
    if signing_key_bytes.len() != 32 || dh_key_bytes.len() != 32 {
        return Vec::new();
    }
    let mut sig_arr = [0u8; 32];
    let mut dh_arr = [0u8; 32];
    let mut i: usize = 0;
    while i < 32
        invariant
            i <= 32,
            signing_key_bytes@.len() == 32,
            dh_key_bytes@.len() == 32,
            forall|j: int| 0 <= j < i ==> sig_arr@[j] == signing_key_bytes@[j],
            forall|j: int| 0 <= j < i ==> dh_arr@[j] == dh_key_bytes@[j],
        decreases 32 - i,
    {
        sig_arr[i] = signing_key_bytes[i];
        dh_arr[i] = dh_key_bytes[i];
        i = i + 1;
    }
    assert(sig_arr@ =~= signing_key_bytes@);
    assert(dh_arr@ =~= dh_key_bytes@);
    let (pub_sig, pub_dh) = register_identity_keys(keys, sig_arr, dh_arr);
    let fp = fingerprint(pub_sig.as_slice());
    let mut out: Vec<String> = Vec::new();
    out.push(base64_encode(pub_sig.as_slice()));
    out.push(base64_encode(pub_dh.as_slice()));
    out.push(fp);
    out
}

/// The app came to the foreground.
pub fn handle_app_foreground(lifecycle: &mut Lifecycle, is_android: bool) -> (r: ForegroundAction)
    ensures
        final(lifecycle).is_active,
        final(lifecycle).is_client_only == old(lifecycle).is_client_only,
        (!(r is AlreadyActive), final(lifecycle).is_active) == crate::lifecycle::foreground_step(
            old(lifecycle).is_active,
        ),
        !old(lifecycle).is_active ==> (r matches ForegroundAction::Restart { platform, ws_port }
            && platform@ == crate::lifecycle::restart_platform(
            old(lifecycle).is_client_only,
            is_android,
        ) && ws_port == (if old(lifecycle).is_client_only { 0 } else { PEER_PORT })),
{
    crate::lifecycle::handle_app_foreground(lifecycle, is_android)
}

/// The app went to the background; returns whether tasks and connections
/// must be stopped.
pub fn handle_app_background(lifecycle: &mut Lifecycle) -> (r: bool)
    ensures
        !final(lifecycle).is_active,
        final(lifecycle).is_client_only == old(lifecycle).is_client_only,
        r == old(lifecycle).is_active,
{
    crate::lifecycle::handle_app_background(lifecycle)
}

/// What became of a clipboard value the user asked to send.
#[derive(Clone, Debug, PartialEq, Eq)]
pub enum LocalUpdate {
    /// Too large: an error was reported and nothing sent.
    TooLarge,
    /// The value was already synchronized: nothing to send.
    Unchanged,
    /// Broadcast `content` to the peers under `packet_id`.
    Broadcast { packet_id: String, content: String },
}

/// Handles a clipboard value read on this device: rejects text over the
/// size limit with an error event, suppresses content that was just
/// synchronized, and otherwise records it as the current clipboard state and
/// asks for a broadcast.
pub fn send_local_clipboard_update(
    engine: &mut SyncEngine,
    clipboard: &mut ClipboardState,
    sink: &mut EventSink,
    content: String,
) -> (r: LocalUpdate)
    requires
        old(engine).wf(),
    ensures
        final(engine).wf(),
        final(sink).attached == old(sink).attached,
        vstd::utf8::encode_utf8(content@).len() > MAX_CLIPBOARD_BYTES ==> {
            &&& r is TooLarge
            &&& final(engine).view() == old(engine).view()
            &&& *final(clipboard) == *old(clipboard)
            &&& error_reported(
                old(sink).events@,
                final(sink).events@,
                old(sink).attached,
                "Clipboard content exceeds the 512 KiB safety limit"@,
            )
        },
        vstd::utf8::encode_utf8(content@).len() <= MAX_CLIPBOARD_BYTES ==> {
            &&& final(sink).events@ == old(sink).events@
            &&& content_hash(content@) == old(engine).view().last_synced_hash ==> {
                &&& r is Unchanged
                &&& final(engine).view() == old(engine).view()
                &&& *final(clipboard) == *old(clipboard)
            }
            &&& content_hash(content@) != old(engine).view().last_synced_hash ==> {
                &&& r matches LocalUpdate::Broadcast { packet_id, content: sent }
                &&& sent == content
                &&& final(engine).view() == remember(
                    SyncEngineView { last_synced_hash: content_hash(content@), ..old(engine).view() },
                    packet_id@,
                )
                &&& exists|ts: i64|
                    ts >= 0 && *final(clipboard) == #[trigger] lww(
                        *old(clipboard),
                        ClipboardState { content: content, timestamp: ts, packet_id: packet_id },
                    )
                &&& *final(clipboard) == lww(
                    *old(clipboard),
                    ClipboardState {
                        content: content,
                        timestamp: crate::sync_engine::local_stamp(final(engine).clock_reading()),
                        packet_id: packet_id,
                    },
                )
            }
        },
{
    if content.as_str().as_bytes().len() > MAX_CLIPBOARD_BYTES {
        emit_event(
            sink,
            SyncEvent::Error {
                message: String::from_str("Clipboard content exceeds the 512 KiB safety limit"),
            },
        );
        proof {
            if old(sink).attached {
                assert(sink.events@.drop_last() =~= old(sink).events@);
            }
        }
        return LocalUpdate::TooLarge;
    }
    let (is_new, packet_id, timestamp) = engine.process_local_change(content.as_str());
    if is_new {
        update_clipboard_state(clipboard, content.clone(), timestamp, packet_id.clone());
        LocalUpdate::Broadcast { packet_id, content }
    } else {
        LocalUpdate::Unchanged
    }
}

/// This device's ID.
pub fn get_device_id(engine: &SyncEngine) -> (r: String)
    ensures
        r@ == engine.view().device_id,
{
    engine.id().clone()
}

/// The peers found by discovery.
pub fn get_discovered_peers(registry: &PeerRegistry) -> (r: Vec<Peer>)
    requires
        registry.wf(),
    ensures
        r@ == registry.records(),
        crate::connection_registry::peer_ids(r@).no_duplicates(),
{
    get_peers(registry)
}

/// How the user interface lists a trusted device.
pub open spec fn listed(d: TrustedDevice, t: TrustedPeer) -> bool {
    &&& t.device_id == d.device_id
    &&& t.device_name == d.device_name
    &&& t.fingerprint@ == fingerprint_text(sha256_digest(d.public_signing_key@))
    &&& t.paired_at == d.paired_at
}

/// The paired devices with their identity fingerprints, in stored order.
pub fn get_trusted_peers(store: &TrustStore) -> (r: Vec<TrustedPeer>)
    requires
        store.wf(),
    ensures
        r@.len() == store.records().len(),
        forall|i: int| 0 <= i < r@.len() ==> #[trigger] listed(store.records()[i], r@[i]),
        r@.map_values(|t: TrustedPeer| t.device_id@).no_duplicates(),
{
    let devices = get_all_trusted_devices(store);
    let mut out: Vec<TrustedPeer> = Vec::new();
    let mut i: usize = 0;
    while i < devices.len()
        invariant
            i <= devices.len(),
            devices@ == store.records(),
            out@.len() == i,
            forall|j: int| 0 <= j < i ==> #[trigger] listed(devices@[j], out@[j]),
        decreases devices.len() - i,
    {
        let d = &devices[i];
        out.push(
            TrustedPeer {
                device_id: d.device_id.clone(),
                device_name: d.device_name.clone(),
                fingerprint: compute_fingerprint(d.public_signing_key.as_slice()),
                paired_at: d.paired_at,
            },
        );
        i = i + 1;
    }
    proof {
        let ids = out@.map_values(|t: TrustedPeer| t.device_id@);
        assert forall|a: int, b: int| 0 <= a < ids.len() && 0 <= b < ids.len() && a != b implies ids[a]
            != ids[b] by {
            assert(listed(devices@[a], out@[a]));
            assert(listed(devices@[b], out@[b]));
            assert(crate::trust_store::device_ids(devices@)[a] != crate::trust_store::device_ids(devices@)[b]);
        }
    }
    out
}

/// The error reported when the selected peer does not accept connections.
pub open spec fn listen_only_text() -> Seq<char> {
    "iOS/iPadOS devices cannot accept incoming connections. Please initiate pairing from the iOS/iPadOS device instead."@
}

/// Where to connect for pairing with a discovered peer, if anywhere.
///
/// An unknown peer gives `None`. A peer that does not listen (port 0,
/// iOS/iPadOS) gives `None` and an error event telling the user to pair
/// from that device.
pub fn initiate_pairing(registry: &PeerRegistry, sink: &mut EventSink, peer_id: &str) -> (r: Option<
    (String, u16),
>)
    requires
        registry.wf(),
    ensures
        final(sink).attached == old(sink).attached,
        !registry@.contains_key(peer_id@) ==> r is None && final(sink).events@ == old(sink).events@,
        registry@.contains_key(peer_id@) && registry@[peer_id@].ws_port > 0 ==> (r matches Some(t)
            && t.0@ == registry@[peer_id@].ip_address@ && t.1 == registry@[peer_id@].ws_port
            && final(sink).events@ == old(sink).events@),
        registry@.contains_key(peer_id@) && registry@[peer_id@].ws_port == 0 ==> r is None
            && error_reported(old(sink).events@, final(sink).events@, old(sink).attached, listen_only_text()),
{
    match find_peer(registry, peer_id) {
        None => None,
        Some(peer) => {
            if peer.ws_port > 0 {
                Some((peer.ip_address.clone(), peer.ws_port))
            } else {
                emit_event(
                    sink,
                    SyncEvent::Error {
                        message: String::from_str(
                            "iOS/iPadOS devices cannot accept incoming connections. Please initiate pairing from the iOS/iPadOS device instead.",
                        ),
                    },
                );
                proof {
                    if old(sink).attached {
                        assert(sink.events@.drop_last() =~= old(sink).events@);
                    }
                }
                None
            }
        },
    }
}

/// Delivers the user's fingerprint verdict on `peer_id`.
pub fn approve_pairing(pending: &mut PendingPairings, peer_id: String, approve: bool)
    requires
        old(pending).wf(),
    ensures
        final(pending).wf(),
        final(pending).pending() == old(pending).pending().remove(peer_id@),
        old(pending).pending().contains(peer_id@) ==> final(pending).delivered() == old(
            pending,
        ).delivered().push((peer_id@, approve)),
        !old(pending).pending().contains(peer_id@) ==> final(pending).delivered() == old(
            pending,
        ).delivered(),
{
    let _ = respond_to_pairing(pending, peer_id, approve);
}

/// Forgets a paired device; the application also closes its connection.
pub fn unpair_device(store: &mut TrustStore, peer_id: &str)
    requires
        old(store).wf(),
    ensures
        final(store).wf(),
        final(store)@ == old(store)@.remove(peer_id@),
{
    remove_trusted_device(store, peer_id);
}

/// The host and port that a typed-in address names: text before the first
/// `:` and the port after it, or the whole text and the peer port when
/// there is no `:` or the port does not parse.
pub open spec fn manual_address(text: Seq<char>) -> (Seq<char>, u16) {
    if text.contains(':') {
        let pos = choose|i: int| 0 <= i < text.len() && text[i] == ':' && forall|j: int| 0 <= j < i ==> text[j] != ':';
        let port = match crate::text::parse_u16_spec(text.subrange(pos + 1, text.len() as int)) {
            Some(p) => p,
            None => PEER_PORT,
        };
        (text.subrange(0, pos), port)
    } else {
        (text, PEER_PORT)
    }
}

/// Splits a typed-in pairing address into host and port.
pub fn initiate_pairing_to_ip(ip_or_addr: &str) -> (r: (String, u16))
    ensures
        (r.0@, r.1) == manual_address(ip_or_addr@),
{
    let chars = crate::text::chars_vec(ip_or_addr);
    let len = chars.len();
    let mut i: usize = 0;
    while i < len
        invariant
            i <= len,
            len == ip_or_addr@.len(),
            chars@ == ip_or_addr@,
            forall|j: int| 0 <= j < i ==> ip_or_addr@[j] != ':',
        decreases len - i,
    {
        if chars[i] == ':' {
            let host = ip_or_addr.substring_char(0, i);
            let rest = ip_or_addr.substring_char(i + 1, len);
            let port = match parse_u16(rest) {
                Some(p) => p,
                None => PEER_PORT,
            };
            proof {
                let t = ip_or_addr@;
                assert(t.contains(':')) by {
                    assert(t[i as int] == ':');
                }
                let pos = choose|k: int| 0 <= k < t.len() && t[k] == ':' && forall|j: int| 0 <= j < k ==> t[j] != ':';
                if pos < i {
                    assert(t[pos] != ':');
                }
                if pos > i {
                    assert(t[i as int] != ':');
                }
                assert(pos == i);
            }
            return (String::from_str(host), port);
        }
        i = i + 1;
    }
    (String::from_str(ip_or_addr), PEER_PORT)
}

/// Records the LAN address that the user interface learned for this device.
pub fn update_local_ip(dynamic_local_ip: &mut Option<String>, ip: String)
    ensures
        *final(dynamic_local_ip) == Some(ip),
{
    *dynamic_local_ip = Some(ip);
}

} // verus!
