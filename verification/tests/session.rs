use airboard::session::{
    accept_received_sequence, clear_all_sessions, get_session_key, next_send_sequence,
    register_session_key, remove_session, Sessions,
};

#[test]
fn replay_window_rejects_duplicates_and_accepts_bounded_reordering() {
    let mut sessions = Sessions::new();
    let peer = format!("test-peer-{}", uuid::Uuid::new_v4());
    register_session_key(&mut sessions, peer.clone(), [3u8; 32]);

    assert!(accept_received_sequence(&mut sessions, &peer, 2));
    assert!(accept_received_sequence(&mut sessions, &peer, 1));
    assert!(!accept_received_sequence(&mut sessions, &peer, 2));
    assert!(accept_received_sequence(&mut sessions, &peer, 2_000));
    assert!(!accept_received_sequence(&mut sessions, &peer, 1));

    remove_session(&mut sessions, &peer);
}

#[test]
fn send_sequences_are_monotonic() {
    let mut sessions = Sessions::new();
    let peer = format!("test-peer-{}", uuid::Uuid::new_v4());
    register_session_key(&mut sessions, peer.clone(), [4u8; 32]);
    assert_eq!(next_send_sequence(&mut sessions, &peer), Some(1));
    assert_eq!(next_send_sequence(&mut sessions, &peer), Some(2));
    remove_session(&mut sessions, &peer);
}

#[test]
fn unknown_sessions_accept_and_allocate_nothing() {
    let mut sessions = Sessions::new();
    assert!(!accept_received_sequence(&mut sessions, "nobody", 1));
    assert_eq!(next_send_sequence(&mut sessions, "nobody"), None);
    assert_eq!(get_session_key(&sessions, "nobody"), None);
}

#[test]
fn sequence_zero_and_window_edges() {
    let mut sessions = Sessions::new();
    register_session_key(&mut sessions, "p".to_string(), [1u8; 32]);
    assert!(!accept_received_sequence(&mut sessions, "p", 0));
    assert!(accept_received_sequence(&mut sessions, "p", 1025));
    // 1025 - 1024 = 1: sequence 1 is at the floor and rejected, 2 is inside.
    assert!(!accept_received_sequence(&mut sessions, "p", 1));
    assert!(accept_received_sequence(&mut sessions, "p", 2));
    assert!(!accept_received_sequence(&mut sessions, "p", 2));
    assert!(accept_received_sequence(&mut sessions, "p", 1024));
}

#[test]
fn replayed_sequence_stays_rejected_after_the_window_moves() {
    let mut sessions = Sessions::new();
    register_session_key(&mut sessions, "p".to_string(), [1u8; 32]);
    assert!(accept_received_sequence(&mut sessions, "p", 10));
    for s in 11..3000u64 {
        assert!(accept_received_sequence(&mut sessions, "p", s));
        assert!(!accept_received_sequence(&mut sessions, "p", 10));
    }
}

#[test]
fn registering_again_resets_the_session() {
    let mut sessions = Sessions::new();
    register_session_key(&mut sessions, "p".to_string(), [1u8; 32]);
    assert_eq!(next_send_sequence(&mut sessions, "p"), Some(1));
    assert!(accept_received_sequence(&mut sessions, "p", 5));
    register_session_key(&mut sessions, "p".to_string(), [2u8; 32]);
    assert_eq!(get_session_key(&sessions, "p"), Some([2u8; 32]));
    assert_eq!(next_send_sequence(&mut sessions, "p"), Some(1));
    assert!(accept_received_sequence(&mut sessions, "p", 5));
}

#[test]
fn removing_and_clearing_sessions() {
    let mut sessions = Sessions::new();
    register_session_key(&mut sessions, "a".to_string(), [1u8; 32]);
    register_session_key(&mut sessions, "b".to_string(), [2u8; 32]);
    remove_session(&mut sessions, "a");
    assert_eq!(get_session_key(&sessions, "a"), None);
    assert_eq!(get_session_key(&sessions, "b"), Some([2u8; 32]));
    clear_all_sessions(&mut sessions);
    assert_eq!(get_session_key(&sessions, "b"), None);
}
