use airboard::api::{
    approve_pairing, get_device_id, get_discovered_peers, get_trusted_peers, handle_app_background,
    handle_app_foreground, init_app, initiate_pairing, initiate_pairing_to_ip, register_keys,
    send_local_clipboard_update, unpair_device, update_local_ip, LocalUpdate, MAX_CLIPBOARD_BYTES,
};
use airboard::clipboard::{
    clipboard_task_for, ClipboardTask, android_received_clip, desktop_monitor_step, observed_text, sync_started_message,
    Observed,
};
use airboard::clipboard_state::{get_clipboard_state, update_clipboard_state, ClipboardState};
use airboard::connection_registry::{add_or_update_peer_at, PeerRegistry};
use airboard::crypto::{fingerprint, IdentityKeys};
use base64::Engine;
use airboard::lifecycle::{set_client_only, ForegroundAction, Lifecycle, PEER_PORT};
use airboard::pairing::PendingPairings;
use airboard::protocol::ClipboardUpdate;
use airboard::sync_engine::{EventSink, SyncEngine, SyncEvent};
use airboard::text::{parse_u16, push_decimal, push_hex_byte};
use airboard::trust_store::{add_trusted_device, TrustStore, TrustedDevice};

fn b64_encode(bytes: &[u8]) -> String {
    base64::engine::general_purpose::STANDARD.encode(bytes)
}

fn b64_decode(text: &str) -> Option<Vec<u8>> {
    base64::engine::general_purpose::STANDARD.decode(text).ok()
}

fn attached_sink() -> EventSink {
    let mut sink = EventSink::new();
    init_app(&mut sink);
    sink
}

#[test]
fn init_app_attaches_an_empty_stream() {
    let sink = attached_sink();
    assert!(sink.attached);
    assert!(sink.events.is_empty());
}

#[test]
fn register_keys_returns_public_keys_and_fingerprint() {
    let mut keys = IdentityKeys::new();
    let out = register_keys(&mut keys, vec![1u8; 32], vec![2u8; 32]);
    assert_eq!(out.len(), 3);
    let public_signing = b64_decode(&out[0]).unwrap();
    assert_eq!(public_signing.len(), 32);
    assert_eq!(b64_decode(&out[1]).unwrap().len(), 32);
    assert_eq!(out[2], fingerprint(&public_signing));
    assert_eq!(keys.signing_seed, Some([1u8; 32]));
    assert_eq!(keys.dh_secret, Some([2u8; 32]));
}

#[test]
fn register_keys_refuses_wrong_lengths() {
    let mut keys = IdentityKeys::new();
    assert!(register_keys(&mut keys, vec![1u8; 31], vec![2u8; 32]).is_empty());
    assert!(register_keys(&mut keys, vec![1u8; 32], vec![2u8; 33]).is_empty());
    assert_eq!(keys.signing_seed, None);
    assert_eq!(keys.dh_secret, None);
}

#[test]
fn foreground_and_background_transitions() {
    let mut lc = Lifecycle::new();
    assert_eq!(handle_app_foreground(&mut lc, false), ForegroundAction::AlreadyActive);
    assert!(handle_app_background(&mut lc));
    assert!(!handle_app_background(&mut lc));
    assert_eq!(
        handle_app_foreground(&mut lc, false),
        ForegroundAction::Restart { platform: "linux".into(), ws_port: PEER_PORT }
    );
    handle_app_background(&mut lc);
    assert_eq!(
        handle_app_foreground(&mut lc, true),
        ForegroundAction::Restart { platform: "android".into(), ws_port: 45455 }
    );
    set_client_only(&mut lc, true);
    handle_app_background(&mut lc);
    assert_eq!(
        handle_app_foreground(&mut lc, true),
        ForegroundAction::Restart { platform: "ios".into(), ws_port: 0 }
    );
    assert!(lc.is_active);
    assert!(lc.is_client_only);
}

#[test]
fn local_clipboard_updates_are_limited_deduplicated_and_recorded() {
    let mut engine = SyncEngine::new("me".into());
    let mut clipboard = ClipboardState::new();
    let mut sink = attached_sink();

    let too_big = "x".repeat(MAX_CLIPBOARD_BYTES + 1);
    assert_eq!(
        send_local_clipboard_update(&mut engine, &mut clipboard, &mut sink, too_big),
        LocalUpdate::TooLarge
    );
    assert_eq!(
        sink.events,
        vec![SyncEvent::Error {
            message: "Clipboard content exceeds the 512 KiB safety limit".into()
        }]
    );

    match send_local_clipboard_update(&mut engine, &mut clipboard, &mut sink, "hello".into()) {
        LocalUpdate::Broadcast { packet_id, content } => {
            assert_eq!(content, "hello");
            assert_eq!(clipboard.content, "hello");
            assert_eq!(clipboard.packet_id, packet_id);
            assert!(clipboard.timestamp > 0);
        }
        other => panic!("expected a broadcast, got {other:?}"),
    }
    assert_eq!(
        send_local_clipboard_update(&mut engine, &mut clipboard, &mut sink, "hello".into()),
        LocalUpdate::Unchanged
    );
    let exact = "y".repeat(MAX_CLIPBOARD_BYTES);
    assert!(matches!(
        send_local_clipboard_update(&mut engine, &mut clipboard, &mut sink, exact),
        LocalUpdate::Broadcast { .. }
    ));
    assert_eq!(sink.events.len(), 1);
}

#[test]
fn clipboard_state_is_last_writer_wins() {
    let mut state = ClipboardState::new();
    update_clipboard_state(&mut state, "a".into(), 10, "p1".into());
    update_clipboard_state(&mut state, "b".into(), 5, "p2".into());
    assert_eq!(state.content, "a");
    update_clipboard_state(&mut state, "c".into(), 10, "p3".into());
    assert_eq!(state.content, "a");
    update_clipboard_state(&mut state, "d".into(), 11, "p4".into());
    assert_eq!(get_clipboard_state(&state), ClipboardState {
        content: "d".into(),
        timestamp: 11,
        packet_id: "p4".into()
    });
}

#[test]
fn clipboard_updates_commute_and_repeat_harmlessly() {
    let mut one = ClipboardState::new();
    update_clipboard_state(&mut one, "a".into(), 3, "pa".into());
    update_clipboard_state(&mut one, "b".into(), 7, "pb".into());
    let mut two = ClipboardState::new();
    update_clipboard_state(&mut two, "b".into(), 7, "pb".into());
    update_clipboard_state(&mut two, "a".into(), 3, "pa".into());
    assert_eq!(one, two);
    update_clipboard_state(&mut two, "b".into(), 7, "pb".into());
    assert_eq!(one, two);
}

#[test]
fn device_id_and_discovered_peers() {
    let engine = SyncEngine::new("device-42".into());
    assert_eq!(get_device_id(&engine), "device-42");
    let mut registry = PeerRegistry::new();
    add_or_update_peer_at(&mut registry, "p".into(), "P".into(), "1.2.3.4".into(), 45455, 9);
    let peers = get_discovered_peers(&registry);
    assert_eq!(peers.len(), 1);
    assert_eq!(peers[0].device_id, "p");
}

#[test]
fn trusted_peers_are_listed_with_fingerprints_and_unpaired() {
    let mut store = TrustStore::new();
    add_trusted_device(
        &mut store,
        TrustedDevice {
            device_id: "phone".into(),
            device_name: "Phone".into(),
            public_signing_key: [3u8; 32],
            public_dh_key: [4u8; 32],
            paired_at: 77,
            last_ip: None,
            last_port: None,
        },
    );
    let listed = get_trusted_peers(&store);
    assert_eq!(listed.len(), 1);
    assert_eq!(listed[0].device_id, "phone");
    assert_eq!(listed[0].device_name, "Phone");
    assert_eq!(listed[0].fingerprint, fingerprint(&[3u8; 32]));
    assert_eq!(listed[0].paired_at, 77);
    unpair_device(&mut store, "phone");
    assert!(get_trusted_peers(&store).is_empty());
}

#[test]
fn initiate_pairing_looks_up_the_peer_address() {
    let mut registry = PeerRegistry::new();
    add_or_update_peer_at(&mut registry, "desk".into(), "Desk".into(), "10.0.0.8".into(), 45455, 1);
    add_or_update_peer_at(&mut registry, "ipad".into(), "iPad".into(), "10.0.0.9".into(), 0, 1);
    let mut sink = attached_sink();
    assert_eq!(
        initiate_pairing(&registry, &mut sink, "desk"),
        Some(("10.0.0.8".to_string(), 45455))
    );
    assert_eq!(initiate_pairing(&registry, &mut sink, "nobody"), None);
    assert!(sink.events.is_empty());
    assert_eq!(initiate_pairing(&registry, &mut sink, "ipad"), None);
    assert_eq!(
        sink.events,
        vec![SyncEvent::Error {
            message: "iOS/iPadOS devices cannot accept incoming connections. Please initiate pairing from the iOS/iPadOS device instead.".into()
        }]
    );
}

#[test]
fn typed_in_addresses_split_into_host_and_port() {
    assert_eq!(initiate_pairing_to_ip("192.168.1.5:8080"), ("192.168.1.5".to_string(), 8080));
    assert_eq!(initiate_pairing_to_ip("192.168.1.5"), ("192.168.1.5".to_string(), 45455));
    assert_eq!(initiate_pairing_to_ip("192.168.1.5:abc"), ("192.168.1.5".to_string(), 45455));
    assert_eq!(initiate_pairing_to_ip("192.168.1.5:70000"), ("192.168.1.5".to_string(), 45455));
    assert_eq!(initiate_pairing_to_ip("host:"), ("host".to_string(), 45455));
    assert_eq!(initiate_pairing_to_ip("a:1:2"), ("a".to_string(), 45455));
    assert_eq!(initiate_pairing_to_ip(":+9"), ("".to_string(), 9));
}

#[test]
fn approving_without_a_pending_prompt_changes_nothing() {
    let mut pending = PendingPairings::new();
    approve_pairing(&mut pending, "ghost".into(), true);
    let (tx, mut rx) = tokio::sync::oneshot::channel::<bool>();
    airboard::pairing::register_pending_pairing(&mut pending, "peer".into(), tx);
    approve_pairing(&mut pending, "peer".into(), false);
    assert_eq!(rx.try_recv(), Ok(false));
}

#[test]
fn local_ip_is_recorded() {
    let mut ip = None;
    update_local_ip(&mut ip, "192.168.0.3".into());
    assert_eq!(ip, Some("192.168.0.3".to_string()));
}

#[test]
fn parse_u16_follows_std() {
    for text in ["0", "65535", "65536", "+7", "-1", "", "+", "12a", "007", " 1", "99999999999"] {
        assert_eq!(parse_u16(text), text.parse::<u16>().ok(), "{text:?}");
    }
}

#[test]
fn decimal_and_hex_rendering() {
    let mut s = String::from("n=");
    push_decimal(&mut s, 0);
    push_decimal(&mut s, 18446744073709551615);
    assert_eq!(s, "n=018446744073709551615");
    let mut h = String::new();
    push_hex_byte(&mut h, 0x0f);
    push_hex_byte(&mut h, 0xa0);
    assert_eq!(h, "0FA0");
}

#[test]
fn registered_public_keys_are_standard_base64() {
    let mut keys = IdentityKeys::new();
    let out = register_keys(&mut keys, vec![8u8; 32], vec![9u8; 32]);
    let mut probe = IdentityKeys::new();
    let (public_signing, public_dh) =
        airboard::crypto::register_identity_keys(&mut probe, [8u8; 32], [9u8; 32]);
    assert_eq!(out[0], b64_encode(&public_signing));
    assert_eq!(out[1], b64_encode(&public_dh));
    assert_eq!(out[0].len(), 44);
    assert!(out[0].ends_with('='));
}

#[test]
fn clipboard_update_message_is_stamped() {
    let u = ClipboardUpdate::new("dev".into(), "text".into());
    assert_eq!(u.msg_type, "clipboard_update");
    assert_eq!(u.device_id, "dev");
    assert_eq!(u.content, "text");
    assert!(u.timestamp > 1_600_000_000);
}

#[test]
fn only_non_empty_text_is_observed() {
    assert_eq!(observed_text(Observed::Text { content: "abc".into() }), Some("abc".to_string()));
    assert_eq!(observed_text(Observed::Text { content: String::new() }), None);
    assert_eq!(observed_text(Observed::NotText), None);
    // A data URL is ordinary text.
    assert_eq!(
        observed_text(Observed::Text { content: "data:image/png;base64,AAAA".into() }),
        Some("data:image/png;base64,AAAA".to_string())
    );
}

#[test]
fn desktop_monitor_reports_each_new_value_once() {
    let mut engine = SyncEngine::new("me".into());
    let mut clipboard = ClipboardState::new();
    let mut sink = attached_sink();
    let mut last = String::new();

    let first = desktop_monitor_step(
        &mut engine,
        &mut clipboard,
        &mut sink,
        &mut last,
        Observed::Text { content: "copy".into() },
    )
    .unwrap();
    assert_eq!(first.content, "copy");
    assert_eq!(last, "copy");
    assert_eq!(clipboard.content, "copy");
    assert_eq!(
        sink.events,
        vec![SyncEvent::ClipboardUpdated { content: "copy".into(), is_local: true }]
    );

    assert!(desktop_monitor_step(
        &mut engine,
        &mut clipboard,
        &mut sink,
        &mut last,
        Observed::Text { content: "copy".into() },
    )
    .is_none());
    assert!(desktop_monitor_step(&mut engine, &mut clipboard, &mut sink, &mut last, Observed::NotText)
        .is_none());
    assert!(desktop_monitor_step(
        &mut engine,
        &mut clipboard,
        &mut sink,
        &mut last,
        Observed::Text { content: String::new() },
    )
    .is_none());
    assert_eq!(clipboard.content, "copy");
    assert_eq!(sink.events.len(), 1);
}

#[test]
fn android_clips_must_be_small_nonempty_utf8() {
    let mut engine = SyncEngine::new("me".into());
    let mut clipboard = ClipboardState::new();
    let mut sink = attached_sink();
    assert!(android_received_clip(&mut engine, &mut clipboard, &mut sink, Vec::new()).is_none());
    assert!(android_received_clip(&mut engine, &mut clipboard, &mut sink, vec![0xff, 0xfe]).is_none());
    assert!(android_received_clip(
        &mut engine,
        &mut clipboard,
        &mut sink,
        vec![b'a'; MAX_CLIPBOARD_BYTES + 1]
    )
    .is_none());
    let b = android_received_clip(&mut engine, &mut clipboard, &mut sink, "héllo".as_bytes().to_vec())
        .unwrap();
    assert_eq!(b.content, "héllo");
    assert_eq!(clipboard.content, "héllo");
    assert!(android_received_clip(&mut engine, &mut clipboard, &mut sink, b"h\xc3\xa9llo".to_vec())
        .is_none());
    assert!(sink.events.is_empty());
}

#[test]
fn sync_start_messages() {
    assert_eq!(
        sync_started_message(true, 0),
        "AirBoard networking started in iPadOS/iOS client mode. Pair from this device using the other device's LAN IP."
    );
    assert_eq!(
        sync_started_message(false, 45455),
        "AirBoard is listening for trusted peers on TCP 45455 and discovery on UDP 45454."
    );
}

#[test]
fn platforms_choose_their_clipboard_task() {
    assert_eq!(clipboard_task_for("linux"), ClipboardTask::DesktopMonitor);
    assert_eq!(clipboard_task_for("windows"), ClipboardTask::DesktopMonitor);
    assert_eq!(clipboard_task_for("macos"), ClipboardTask::DesktopMonitor);
    assert_eq!(clipboard_task_for("android"), ClipboardTask::AndroidReceiver);
    assert_eq!(clipboard_task_for("ios"), ClipboardTask::NoTask);
    assert_eq!(clipboard_task_for("Linux"), ClipboardTask::NoTask);
}
