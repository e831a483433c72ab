use airboard::crypto::{fingerprint, register_identity_keys, IdentityKeys};
use base64::Engine;
use airboard::pairing::{
    build_pairing_request, build_pairing_response, complete_incoming_pairing_at,
    complete_outgoing_pairing_at, compute_fingerprint, encode_parts, pairing_request_transcript,
    pairing_response_transcript, pairing_start_message, pairing_url_text, PairingError,
    PairingField, PairingMessage, PendingPairings, respond_to_pairing, register_pending_pairing,
    remove_pending_pairing, verify_pairing_request, verify_pairing_response,
};
use airboard::trust_store::{get_trusted_device, is_device_trusted, TrustStore};

fn b64_encode(bytes: &[u8]) -> String {
    base64::engine::general_purpose::STANDARD.encode(bytes)
}

fn b64_decode(text: &str) -> Option<Vec<u8>> {
    base64::engine::general_purpose::STANDARD.decode(text).ok()
}

fn identity(seed: u8) -> IdentityKeys {
    let mut keys = IdentityKeys::new();
    register_identity_keys(&mut keys, [seed; 32], [seed.wrapping_add(100); 32]);
    keys
}

fn request_from(keys: &IdentityKeys, nonce: &[u8; 32]) -> PairingMessage {
    build_pairing_request(keys, nonce, "requester-id", "Requester Laptop").unwrap()
}

fn with_request_field(m: &PairingMessage, field: &str, value: String) -> PairingMessage {
    match m.clone() {
        PairingMessage::PairingRequest {
            protocol_version,
            device_id,
            device_name,
            public_signing_key,
            public_dh_key,
            pairing_nonce,
            signature,
        } => PairingMessage::PairingRequest {
            protocol_version,
            device_name: if field == "device_name" { value.clone() } else { device_name },
            device_id,
            public_signing_key: if field == "public_signing_key" { value.clone() } else { public_signing_key },
            public_dh_key: if field == "public_dh_key" { value.clone() } else { public_dh_key },
            pairing_nonce: if field == "pairing_nonce" { value.clone() } else { pairing_nonce },
            signature: if field == "signature" { value } else { signature },
        },
        other => other,
    }
}

#[test]
fn encode_parts_prefixes_each_part_with_its_length() {
    let out = encode_parts(b"dom", &[b"ab", b""]);
    let mut expected = b"dom".to_vec();
    expected.extend_from_slice(&2u64.to_be_bytes());
    expected.extend_from_slice(b"ab");
    expected.extend_from_slice(&0u64.to_be_bytes());
    assert_eq!(out, expected);
    assert_eq!(encode_parts(b"", &[]), Vec::<u8>::new());
}

#[test]
fn transcripts_use_their_domains_and_field_order() {
    let t = pairing_request_transcript("id", "name", &[1, 2], &[3], &[4]);
    let mut expected = b"airboard/pairing-request/v2".to_vec();
    for part in [&b"id"[..], b"name", &[1, 2], &[3], &[4]] {
        expected.extend_from_slice(&(part.len() as u64).to_be_bytes());
        expected.extend_from_slice(part);
    }
    assert_eq!(t, expected);

    let r = pairing_response_transcript(&[9], &[8], "req", "resp", "Resp", &[7], &[6]);
    let mut expected = b"airboard/pairing-response/v2".to_vec();
    for part in [&[9u8][..], &[8], b"req", b"resp", b"Resp", &[7], &[6]] {
        expected.extend_from_slice(&(part.len() as u64).to_be_bytes());
        expected.extend_from_slice(part);
    }
    assert_eq!(r, expected);
}

#[test]
fn moving_bytes_between_fields_changes_the_transcript() {
    let a = pairing_request_transcript("ab", "c", &[], &[], &[]);
    let b = pairing_request_transcript("a", "bc", &[], &[], &[]);
    assert_ne!(a, b);
}

#[test]
fn compute_fingerprint_matches_identity_fingerprint() {
    let key = [5u8; 32];
    assert_eq!(compute_fingerprint(&key), fingerprint(&key));
    assert_eq!(compute_fingerprint(&key).len(), 32 * 3 - 1);
}

#[test]
fn a_built_request_is_accepted_and_yields_the_sender_identity() {
    let keys = identity(1);
    let nonce = [42u8; 32];
    let request = request_from(&keys, &nonce);
    let verified = verify_pairing_request(&request).unwrap();
    let mut probe = IdentityKeys::new();
    let (public_signing, public_dh) = register_identity_keys(&mut probe, [1; 32], [101; 32]);
    assert_eq!(verified.device_id, "requester-id");
    assert_eq!(verified.device_name, "Requester Laptop");
    assert_eq!(verified.public_signing_key.to_vec(), public_signing);
    assert_eq!(verified.public_dh_key.to_vec(), public_dh);
    assert_eq!(verified.nonce, nonce);
    assert_eq!(verified.fingerprint, fingerprint(&public_signing));
}

#[test]
fn request_without_keys_is_refused() {
    let keys = IdentityKeys::new();
    assert_eq!(
        build_pairing_request(&keys, &[0u8; 32], "id", "name").unwrap_err(),
        PairingError::KeysNotRegistered
    );
    assert_eq!(
        PairingError::KeysNotRegistered.message(),
        "Identity keys are not registered"
    );
}

#[test]
fn tampered_requests_are_rejected() {
    let keys = identity(2);
    let request = request_from(&keys, &[1u8; 32]);

    let renamed = with_request_field(&request, "device_name", "Impostor".to_string());
    assert_eq!(
        verify_pairing_request(&renamed).unwrap_err(),
        PairingError::RequestSignatureInvalid
    );
    assert_eq!(
        PairingError::RequestSignatureInvalid.message(),
        "Pairing request signature verification failed"
    );

    let other_nonce = with_request_field(&request, "pairing_nonce", b64_encode(&[2u8; 32]));
    assert_eq!(
        verify_pairing_request(&other_nonce).unwrap_err(),
        PairingError::RequestSignatureInvalid
    );
}

#[test]
fn malformed_request_fields_are_reported() {
    let keys = identity(3);
    let request = request_from(&keys, &[1u8; 32]);

    let bad_base64 = with_request_field(&request, "public_signing_key", "not base64!".to_string());
    let err = verify_pairing_request(&bad_base64).unwrap_err();
    assert_eq!(err, PairingError::InvalidEncoding { field: PairingField::SigningKey });
    assert_eq!(err.message(), "Invalid signing key");

    let short = with_request_field(&request, "public_dh_key", b64_encode(&[1u8; 31]));
    let err = verify_pairing_request(&short).unwrap_err();
    assert_eq!(
        err,
        PairingError::InvalidLength { field: PairingField::DhKey, expected: 32, received: 31 }
    );
    assert_eq!(err.message(), "Invalid DH key length: expected 32, received 31");

    let long_sig = with_request_field(&request, "signature", b64_encode(&[0u8; 65]));
    assert_eq!(
        verify_pairing_request(&long_sig).unwrap_err().message(),
        "Invalid pairing signature length: expected 64, received 65"
    );

    let short_nonce = with_request_field(&request, "pairing_nonce", b64_encode(&[]));
    assert_eq!(
        verify_pairing_request(&short_nonce).unwrap_err().message(),
        "Invalid pairing nonce length: expected 32, received 0"
    );
}

#[test]
fn request_with_another_version_or_a_response_is_rejected() {
    let keys = identity(4);
    let request = request_from(&keys, &[1u8; 32]);
    let old_version = match request.clone() {
        PairingMessage::PairingRequest {
            device_id,
            device_name,
            public_signing_key,
            public_dh_key,
            pairing_nonce,
            signature,
            ..
        } => PairingMessage::PairingRequest {
            protocol_version: 1,
            device_id,
            device_name,
            public_signing_key,
            public_dh_key,
            pairing_nonce,
            signature,
        },
        other => other,
    };
    assert_eq!(
        verify_pairing_request(&old_version).unwrap_err(),
        PairingError::IncompatibleProtocol
    );
    assert_eq!(
        PairingError::IncompatibleProtocol.message(),
        "Incompatible pairing protocol"
    );

    let verified = verify_pairing_request(&request).unwrap();
    let response =
        build_pairing_response(&identity(5), true, &verified, &[3u8; 32], "responder-id", "Phone")
            .unwrap();
    assert_eq!(
        verify_pairing_request(&response).unwrap_err(),
        PairingError::ExpectedRequest
    );
    assert_eq!(PairingError::ExpectedRequest.message(), "Expected pairing request");
}

#[test]
fn an_approving_response_completes_the_exchange() {
    let requester = identity(6);
    let responder = identity(7);
    let nonce = [9u8; 32];
    let request = request_from(&requester, &nonce);
    let verified_request = verify_pairing_request(&request).unwrap();
    let response = build_pairing_response(
        &responder,
        true,
        &verified_request,
        &[8u8; 32],
        "responder-id",
        "Phone",
    )
    .unwrap();

    let accepted = verify_pairing_response(&response, "responder-id", &nonce, "requester-id").unwrap();
    let mut probe = IdentityKeys::new();
    let (public_signing, public_dh) = register_identity_keys(&mut probe, [7; 32], [107; 32]);
    assert_eq!(accepted.device_id, "responder-id");
    assert_eq!(accepted.device_name, "Phone");
    assert_eq!(accepted.public_signing_key.to_vec(), public_signing);
    assert_eq!(accepted.public_dh_key.to_vec(), public_dh);
    assert_eq!(accepted.fingerprint, fingerprint(&public_signing));

    // Pairing by typed-in address accepts whichever device answers.
    assert!(verify_pairing_response(&response, "manual_connection", &nonce, "requester-id").is_ok());
}

#[test]
fn responses_that_do_not_fit_the_request_are_rejected() {
    let requester = identity(10);
    let responder = identity(11);
    let nonce = [1u8; 32];
    let verified_request = verify_pairing_request(&request_from(&requester, &nonce)).unwrap();
    let approving =
        build_pairing_response(&responder, true, &verified_request, &[2u8; 32], "phone", "Phone")
            .unwrap();
    let denying =
        build_pairing_response(&responder, false, &verified_request, &[2u8; 32], "phone", "Phone")
            .unwrap();

    let err = verify_pairing_response(&denying, "phone", &nonce, "requester-id").unwrap_err();
    assert_eq!(err, PairingError::DeniedOrIncompatible);
    assert_eq!(
        err.message(),
        "Pairing was denied or the peer uses an incompatible protocol"
    );

    let err = verify_pairing_response(&approving, "tablet", &nonce, "requester-id").unwrap_err();
    assert_eq!(err, PairingError::IdentityMismatch);
    assert_eq!(
        err.message(),
        "Pairing response identity did not match the selected device"
    );

    let err = verify_pairing_response(&approving, "phone", &[5u8; 32], "requester-id").unwrap_err();
    assert_eq!(err, PairingError::NonceMismatch);
    assert_eq!(err.message(), "Pairing response did not match this request");

    // The responder signed for another requester ID.
    let err = verify_pairing_response(&approving, "phone", &nonce, "someone-else").unwrap_err();
    assert_eq!(err, PairingError::ResponseSignatureInvalid);
    assert_eq!(
        err.message(),
        "Pairing response signature verification failed"
    );

    let request = request_from(&requester, &nonce);
    let err = verify_pairing_response(&request, "phone", &nonce, "requester-id").unwrap_err();
    assert_eq!(err, PairingError::UnexpectedMessage);
    assert_eq!(err.message(), "Peer returned an unexpected pairing message");
}

#[test]
fn malformed_response_fields_are_reported() {
    let requester = identity(12);
    let responder = identity(13);
    let nonce = [1u8; 32];
    let verified_request = verify_pairing_request(&request_from(&requester, &nonce)).unwrap();
    let response =
        build_pairing_response(&responder, true, &verified_request, &[2u8; 32], "phone", "Phone")
            .unwrap();
    let broken = match response {
        PairingMessage::PairingResponse {
            protocol_version,
            status,
            device_id,
            device_name,
            public_signing_key,
            public_dh_key,
            request_nonce,
            signature,
            ..
        } => PairingMessage::PairingResponse {
            protocol_version,
            status,
            device_id,
            device_name,
            public_signing_key,
            public_dh_key,
            request_nonce,
            response_nonce: "%%%".to_string(),
            signature,
        },
        other => other,
    };
    let err = verify_pairing_response(&broken, "phone", &nonce, "requester-id").unwrap_err();
    assert_eq!(err, PairingError::InvalidEncoding { field: PairingField::ResponseNonce });
    assert_eq!(err.message(), "Invalid response nonce");
}

#[test]
fn response_fields_carry_the_encoded_values() {
    let requester = identity(14);
    let responder = identity(15);
    let nonce = [6u8; 32];
    let verified_request = verify_pairing_request(&request_from(&requester, &nonce)).unwrap();
    let response =
        build_pairing_response(&responder, false, &verified_request, &[7u8; 32], "phone", "Phone")
            .unwrap();
    match response {
        PairingMessage::PairingResponse {
            protocol_version,
            status,
            device_id,
            request_nonce,
            response_nonce,
            signature,
            ..
        } => {
            assert_eq!(protocol_version, 2);
            assert_eq!(status, "denied");
            assert_eq!(device_id, "phone");
            assert_eq!(b64_decode(&request_nonce).unwrap(), nonce.to_vec());
            assert_eq!(b64_decode(&response_nonce).unwrap(), vec![7u8; 32]);
            assert_eq!(b64_decode(&signature).unwrap().len(), 64);
        }
        _ => panic!("expected a response"),
    }
}

#[test]
fn completing_an_outgoing_pairing_trusts_only_an_approved_responder() {
    let requester = identity(16);
    let responder = identity(17);
    let nonce = [3u8; 32];
    let verified_request = verify_pairing_request(&request_from(&requester, &nonce)).unwrap();
    let response =
        build_pairing_response(&responder, true, &verified_request, &[4u8; 32], "phone", "Phone")
            .unwrap();
    let accepted = verify_pairing_response(&response, "phone", &nonce, "requester-id").unwrap();

    let mut store = TrustStore::new();
    let refused = complete_outgoing_pairing_at(
        &mut store,
        &accepted,
        false,
        100,
        "10.0.0.2".to_string(),
        45455,
    );
    assert_eq!(refused, Err("Responder fingerprint was not approved".to_string()));
    assert!(!is_device_trusted(&store, "phone"));

    let done = complete_outgoing_pairing_at(
        &mut store,
        &accepted,
        true,
        100,
        "10.0.0.2".to_string(),
        45455,
    );
    assert_eq!(done, Ok("Mutually verified pairing completed with Phone".to_string()));
    let device = get_trusted_device(&store, "phone").unwrap();
    assert_eq!(device.device_name, "Phone");
    assert_eq!(device.public_signing_key, accepted.public_signing_key);
    assert_eq!(device.public_dh_key, accepted.public_dh_key);
    assert_eq!(device.paired_at, 100);
    assert_eq!(device.last_ip, Some("10.0.0.2".to_string()));
    assert_eq!(device.last_port, Some(45455));
}

#[test]
fn completing_an_incoming_pairing_trusts_only_an_approved_requester() {
    let requester = identity(18);
    let verified_request = verify_pairing_request(&request_from(&requester, &[1u8; 32])).unwrap();
    let mut store = TrustStore::new();
    complete_incoming_pairing_at(&mut store, &verified_request, false, 5, "10.0.0.9".to_string());
    assert!(!is_device_trusted(&store, "requester-id"));
    complete_incoming_pairing_at(&mut store, &verified_request, true, 5, "10.0.0.9".to_string());
    let device = get_trusted_device(&store, "requester-id").unwrap();
    assert_eq!(device.device_name, "Requester Laptop");
    assert_eq!(device.last_ip, Some("10.0.0.9".to_string()));
    assert_eq!(device.last_port, None);
    assert_eq!(device.paired_at, 5);
}

#[test]
fn pairing_status_texts() {
    assert_eq!(pairing_url_text("192.168.1.4", 45455), "ws://192.168.1.4:45455");
    assert_eq!(
        pairing_start_message("10.0.0.1", 80),
        "Initiating mutually verified pairing with ws://10.0.0.1:80..."
    );
}

#[test]
fn pending_verdicts_are_delivered_once() {
    let mut pending = PendingPairings::new();
    let (tx, mut rx) = tokio::sync::oneshot::channel::<bool>();
    register_pending_pairing(&mut pending, "peer".to_string(), tx);
    assert!(respond_to_pairing(&mut pending, "peer".to_string(), true));
    assert_eq!(rx.try_recv(), Ok(true));
    assert!(!respond_to_pairing(&mut pending, "peer".to_string(), true));
}

#[test]
fn a_second_prompt_for_the_same_peer_refuses_the_first() {
    let mut pending = PendingPairings::new();
    let (first_tx, mut first_rx) = tokio::sync::oneshot::channel::<bool>();
    let (second_tx, mut second_rx) = tokio::sync::oneshot::channel::<bool>();
    register_pending_pairing(&mut pending, "peer".to_string(), first_tx);
    register_pending_pairing(&mut pending, "peer".to_string(), second_tx);
    assert_eq!(first_rx.try_recv(), Ok(false));
    assert!(respond_to_pairing(&mut pending, "peer".to_string(), true));
    assert_eq!(second_rx.try_recv(), Ok(true));
}

#[test]
fn removing_a_pending_prompt_drops_its_sender() {
    let mut pending = PendingPairings::new();
    let (tx, mut rx) = tokio::sync::oneshot::channel::<bool>();
    register_pending_pairing(&mut pending, "peer".to_string(), tx);
    remove_pending_pairing(&mut pending, "peer");
    assert!(rx.try_recv().is_err());
    assert!(!respond_to_pairing(&mut pending, "peer".to_string(), false));
}
