use airboard::connection_registry::{
    add_or_update_peer, add_or_update_peer_at, find_peer, get_peers, get_unconnected_peers,
    prune_inactive_peers, prune_inactive_peers_at, update_connection_status, PeerRegistry,
};
use airboard::heartbeat::{prune_timed_out_peers, HEARTBEAT_TIMEOUT_SECS};
use airboard::reconnect::{trigger_reconnect, ConnectTarget};
use airboard::sync_engine::{EventSink, SyncEvent};
use airboard::trust_store::{
    add_trusted_device, get_all_trusted_devices, get_trusted_device, is_device_trusted,
    remove_trusted_device, TrustStore, TrustedDevice,
};

fn device(id: &str, ip: Option<&str>, port: Option<u16>) -> TrustedDevice {
    TrustedDevice {
        device_id: id.to_string(),
        device_name: format!("{id} name"),
        public_signing_key: [1u8; 32],
        public_dh_key: [2u8; 32],
        paired_at: 10,
        last_ip: ip.map(|s| s.to_string()),
        last_port: port,
    }
}

#[test]
fn a_new_peer_starts_disconnected() {
    let mut registry = PeerRegistry::new();
    add_or_update_peer_at(&mut registry, "a".into(), "Laptop".into(), "10.0.0.1".into(), 45455, 100);
    let peer = find_peer(&registry, "a").unwrap();
    assert_eq!(peer.device_name, "Laptop");
    assert_eq!(peer.ip_address, "10.0.0.1");
    assert_eq!(peer.ws_port, 45455);
    assert_eq!(peer.last_seen, 100);
    assert_eq!(peer.connection_status, "Disconnected");
    assert!(find_peer(&registry, "b").is_none());
}

#[test]
fn a_repeated_announcement_updates_only_given_fields() {
    let mut registry = PeerRegistry::new();
    add_or_update_peer_at(&mut registry, "a".into(), "Laptop".into(), "10.0.0.1".into(), 45455, 100);
    update_connection_status(&mut registry, "a", "Connected");
    add_or_update_peer_at(&mut registry, "a".into(), String::new(), String::new(), 0, 150);
    let peer = find_peer(&registry, "a").unwrap();
    assert_eq!(peer.device_name, "Laptop");
    assert_eq!(peer.ip_address, "10.0.0.1");
    assert_eq!(peer.ws_port, 45455);
    assert_eq!(peer.last_seen, 150);
    assert_eq!(peer.connection_status, "Connected");

    add_or_update_peer_at(&mut registry, "a".into(), "Desk".into(), "10.0.0.7".into(), 9000, 160);
    let peer = find_peer(&registry, "a").unwrap();
    assert_eq!(peer.device_name, "Desk");
    assert_eq!(peer.ip_address, "10.0.0.7");
    assert_eq!(peer.ws_port, 9000);
    assert_eq!(get_peers(&registry).len(), 1);
}

#[test]
fn add_or_update_peer_uses_the_clock() {
    let mut registry = PeerRegistry::new();
    add_or_update_peer(&mut registry, "a".into(), "Laptop".into(), "10.0.0.1".into(), 1);
    let seen = find_peer(&registry, "a").unwrap().last_seen;
    assert!(seen > 1_600_000_000);
    assert!(prune_inactive_peers(&mut registry, 30).is_empty());
    assert_eq!(get_peers(&registry).len(), 1);
}

#[test]
fn status_of_an_unknown_peer_is_ignored() {
    let mut registry = PeerRegistry::new();
    add_or_update_peer_at(&mut registry, "a".into(), "A".into(), "ip".into(), 1, 1);
    update_connection_status(&mut registry, "zzz", "Connected");
    assert_eq!(get_peers(&registry).len(), 1);
    assert_eq!(find_peer(&registry, "a").unwrap().connection_status, "Disconnected");
}

#[test]
fn unconnected_peers_are_those_marked_disconnected() {
    let mut registry = PeerRegistry::new();
    for id in ["a", "b", "c"] {
        add_or_update_peer_at(&mut registry, id.into(), id.into(), "ip".into(), 1, 1);
    }
    update_connection_status(&mut registry, "b", "Connected");
    update_connection_status(&mut registry, "c", "Connecting");
    let ids: Vec<String> = get_unconnected_peers(&registry).into_iter().map(|p| p.device_id).collect();
    assert_eq!(ids, vec!["a".to_string()]);
}

#[test]
fn pruning_removes_peers_silent_longer_than_the_timeout() {
    let mut registry = PeerRegistry::new();
    add_or_update_peer_at(&mut registry, "old".into(), "Old".into(), "ip".into(), 1, 100);
    add_or_update_peer_at(&mut registry, "edge".into(), "Edge".into(), "ip".into(), 1, 170);
    add_or_update_peer_at(&mut registry, "new".into(), "New".into(), "ip".into(), 1, 190);
    let pruned = prune_inactive_peers_at(&mut registry, 200, 30);
    assert_eq!(pruned, vec!["old".to_string()]);
    let left: Vec<String> = get_peers(&registry).into_iter().map(|p| p.device_id).collect();
    assert_eq!(left, vec!["edge".to_string(), "new".to_string()]);
}

#[test]
fn heartbeat_sweep_reports_each_timed_out_peer() {
    assert_eq!(HEARTBEAT_TIMEOUT_SECS, 30);
    let mut registry = PeerRegistry::new();
    // Seen at the Unix epoch: long silent by any clock.
    add_or_update_peer_at(&mut registry, "gone".into(), "Gone".into(), "ip".into(), 1, 0);
    add_or_update_peer(&mut registry, "here".into(), "Here".into(), "ip".into(), 1);
    let mut sink = EventSink::new();
    sink.attached = true;
    let pruned = prune_timed_out_peers(&mut registry, &mut sink);
    assert_eq!(pruned, vec!["gone".to_string()]);
    assert_eq!(
        sink.events,
        vec![SyncEvent::ConnectionStatus {
            connected: false,
            message: "Peer timed out: gone".to_string()
        }]
    );
    assert!(find_peer(&registry, "gone").is_none());
    assert!(find_peer(&registry, "here").is_some());
}

#[test]
fn trust_store_reads_back_what_was_added() {
    let mut store = TrustStore::new();
    assert!(!is_device_trusted(&store, "a"));
    add_trusted_device(&mut store, device("a", None, None));
    assert!(is_device_trusted(&store, "a"));
    assert_eq!(get_trusted_device(&store, "a"), Some(device("a", None, None)));

    let mut renamed = device("a", Some("10.0.0.3"), Some(45455));
    renamed.device_name = "Renamed".to_string();
    add_trusted_device(&mut store, renamed.clone());
    assert_eq!(get_all_trusted_devices(&store), vec![renamed]);

    add_trusted_device(&mut store, device("b", None, None));
    remove_trusted_device(&mut store, "a");
    assert!(!is_device_trusted(&store, "a"));
    assert!(is_device_trusted(&store, "b"));
    remove_trusted_device(&mut store, "missing");
    assert_eq!(get_all_trusted_devices(&store).len(), 1);
}

#[test]
fn trust_store_from_records_keeps_the_order() {
    let store = TrustStore::from_records(vec![device("x", None, None), device("y", None, None)]);
    let ids: Vec<String> = get_all_trusted_devices(&store).into_iter().map(|d| d.device_id).collect();
    assert_eq!(ids, vec!["x".to_string(), "y".to_string()]);
    assert_eq!(store.records_vec().len(), 2);
}

#[test]
fn reconnect_targets_trusted_discovered_and_remembered_devices() {
    let mut registry = PeerRegistry::new();
    add_or_update_peer_at(&mut registry, "t1".into(), "T1".into(), "10.0.0.1".into(), 45455, 1);
    add_or_update_peer_at(&mut registry, "u".into(), "U".into(), "10.0.0.2".into(), 45455, 1);
    add_or_update_peer_at(&mut registry, "ios".into(), "iPad".into(), "10.0.0.3".into(), 0, 1);
    add_or_update_peer_at(&mut registry, "t2".into(), "T2".into(), "10.0.0.4".into(), 45455, 1);
    update_connection_status(&mut registry, "t2", "Connected");

    let mut store = TrustStore::new();
    add_trusted_device(&mut store, device("t1", Some("10.9.9.1"), Some(45455)));
    add_trusted_device(&mut store, device("ios", None, None));
    add_trusted_device(&mut store, device("t2", Some("10.9.9.2"), Some(45455)));
    add_trusted_device(&mut store, device("away", Some("10.9.9.3"), Some(7000)));
    add_trusted_device(&mut store, device("noport", Some("10.9.9.4"), Some(0)));

    let active = vec!["t2".to_string()];
    let targets = trigger_reconnect(&registry, &store, &active);
    assert_eq!(
        targets,
        vec![
            ConnectTarget { peer_id: "t1".into(), ip: "10.0.0.1".into(), port: 45455 },
            ConnectTarget { peer_id: "t1".into(), ip: "10.9.9.1".into(), port: 45455 },
            ConnectTarget { peer_id: "away".into(), ip: "10.9.9.3".into(), port: 7000 },
        ]
    );
}

#[test]
fn a_clock_behind_the_latest_announcement_prunes_as_of_that_announcement() {
    let mut registry = PeerRegistry::new();
    let future = 4_000_000_000_000u64;
    add_or_update_peer_at(&mut registry, "stale".into(), "S".into(), "ip".into(), 1, future - 31);
    add_or_update_peer_at(&mut registry, "edge".into(), "E".into(), "ip".into(), 1, future - 30);
    add_or_update_peer_at(&mut registry, "latest".into(), "L".into(), "ip".into(), 1, future);
    assert_eq!(prune_inactive_peers(&mut registry, 30), vec!["stale".to_string()]);
    let left: Vec<String> = get_peers(&registry).into_iter().map(|p| p.device_id).collect();
    assert_eq!(left, vec!["edge".to_string(), "latest".to_string()]);
}
