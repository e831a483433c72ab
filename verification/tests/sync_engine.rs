use airboard::sync_engine::{
    emit_event, set_my_device_id, DeviceIdCell, EventSink, SyncEngine, SyncEvent,
};

#[test]
fn suppresses_duplicate_local_content_and_packet_ids() {
    let mut engine = SyncEngine::new("test-device".to_string());
    assert!(engine.process_local_change("first").0);
    assert!(!engine.process_local_change("first").0);
    assert!(engine.process_local_change("second").0);

    assert!(engine.process_incoming_packet("packet-1"));
    assert!(!engine.process_incoming_packet("packet-1"));
}

#[test]
fn local_change_reports_packet_and_timestamp() {
    let mut engine = SyncEngine::new("d".to_string());
    let (is_new, packet_id, timestamp) = engine.process_local_change("hello");
    assert!(is_new);
    assert_eq!(packet_id.len(), 36);
    assert!(timestamp > 0);
    // The local packet ID is remembered, so its echo is not applied.
    assert!(!engine.process_incoming_packet(&packet_id));
    let (again, id2, ts2) = engine.process_local_change("hello");
    assert!(!again);
    assert_eq!(id2, "");
    assert_eq!(ts2, 0);
}

#[test]
fn packet_cache_forgets_oldest_beyond_capacity() {
    let mut engine = SyncEngine::new("d".to_string());
    for i in 0..4097 {
        assert!(engine.process_incoming_packet(&format!("p{i}")));
    }
    // p0 was evicted, p1 is still remembered.
    assert!(!engine.process_incoming_packet("p1"));
    assert!(engine.process_incoming_packet("p0"));
}

#[test]
fn accepted_packet_is_rejected_for_the_next_4095_packets() {
    let mut engine = SyncEngine::new("d".to_string());
    assert!(engine.process_incoming_packet("target"));
    for i in 0..4095 {
        assert!(engine.process_incoming_packet(&format!("other{i}")));
    }
    assert!(!engine.process_incoming_packet("target"));
    assert!(engine.process_incoming_packet("one-more"));
    assert!(engine.process_incoming_packet("target"));
}

#[test]
fn record_local_change_with_given_id() {
    let mut engine = SyncEngine::new("d".to_string());
    let r = engine.record_local_change("h1".to_string(), "id-1".to_string(), 42);
    assert_eq!(r, (true, "id-1".to_string(), 42));
    let r = engine.record_local_change("h1".to_string(), "id-2".to_string(), 43);
    assert_eq!(r, (false, String::new(), 0));
    assert!(!engine.process_incoming_packet("id-1"));
    assert!(engine.process_incoming_packet("id-2"));
}

#[test]
fn device_id_is_set_once() {
    let mut cell = DeviceIdCell::new();
    set_my_device_id(&mut cell, "first".to_string());
    set_my_device_id(&mut cell, "second".to_string());
    assert_eq!(cell.value.as_deref(), Some("first"));
}

#[test]
fn events_reach_only_an_attached_sink() {
    let mut sink = EventSink::new();
    emit_event(&mut sink, SyncEvent::Error { message: "lost".to_string() });
    assert!(sink.events.is_empty());
    airboard::api::init_app(&mut sink);
    emit_event(&mut sink, SyncEvent::Error { message: "kept".to_string() });
    assert_eq!(sink.events.len(), 1);
    assert!(matches!(&sink.events[0], SyncEvent::Error { message } if message == "kept"));
}
