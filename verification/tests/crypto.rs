use airboard::crypto::{
    chacha_decrypt, chacha_encrypt, compute_hash, compute_shared_secret, decode_fixed,
    derive_session_key, fingerprint, get_my_public_keys, handshake_aad, register_identity_keys,
    sign_message, verify_message_signature, IdentityKeys,
};

#[test]
fn authenticated_encryption_rejects_tampering_and_wrong_context() {
    let key = [7u8; 32];
    let plaintext = b"private clipboard text";
    let aad = handshake_aad("device-a", "device-b", 1);
    let (ciphertext, nonce) = chacha_encrypt(&key, plaintext, &aad).unwrap();

    assert_eq!(
        chacha_decrypt(&key, &ciphertext, &nonce, &aad).unwrap(),
        plaintext
    );

    let wrong_aad = handshake_aad("device-a", "device-c", 1);
    assert!(chacha_decrypt(&key, &ciphertext, &nonce, &wrong_aad).is_err());

    let mut tampered = ciphertext;
    tampered[0] ^= 1;
    assert!(chacha_decrypt(&key, &tampered, &nonce, &aad).is_err());
}

#[test]
fn session_derivation_is_transcript_bound() {
    let secret = [9u8; 32];
    let first = derive_session_key(&secret, b"transcript-a").unwrap();
    let second = derive_session_key(&secret, b"transcript-b").unwrap();
    assert_ne!(first, second);
    assert_eq!(first, derive_session_key(&secret, b"transcript-a").unwrap());
}

#[test]
fn fixed_length_decoder_rejects_malformed_input() {
    assert_eq!(
        decode_fixed::<4>(vec![1, 2, 3, 4], "test").unwrap(),
        [1, 2, 3, 4]
    );
    assert!(decode_fixed::<4>(vec![1, 2, 3], "test").is_err());
}

#[test]
fn fixed_length_decoder_reports_lengths() {
    assert_eq!(
        decode_fixed::<32>(vec![0u8; 31], "signing key").unwrap_err(),
        "Invalid signing key length: expected 32, received 31"
    );
    assert_eq!(
        decode_fixed::<2>(Vec::new(), "nonce").unwrap_err(),
        "Invalid nonce length: expected 2, received 0"
    );
}

#[test]
fn handshake_aad_has_the_documented_layout() {
    assert_eq!(
        handshake_aad("device-a", "device-b", 1234567890123),
        b"airboard|v2|device-a|device-b|1234567890123".to_vec()
    );
    assert_eq!(handshake_aad("", "", 0), b"airboard|v2|||0".to_vec());
}

#[test]
fn aad_distinguishes_sender_recipient_and_sequence() {
    let base = handshake_aad("a", "b", 7);
    assert_ne!(base, handshake_aad("a", "c", 7));
    assert_ne!(base, handshake_aad("c", "b", 7));
    assert_ne!(base, handshake_aad("a", "b", 70));
    // The binding needs device IDs without '|': these two collide.
    assert_eq!(handshake_aad("a|b", "c", 1), handshake_aad("a", "b|c", 1));
}

#[test]
fn decryption_inverts_encryption_for_empty_and_long_messages() {
    let key = [1u8; 32];
    for message in [Vec::new(), vec![0xabu8; 5000]] {
        let (ct, nonce) = chacha_encrypt(&key, &message, b"ctx").unwrap();
        assert_eq!(ct.len(), message.len() + 16);
        assert_eq!(chacha_decrypt(&key, &ct, &nonce, b"ctx").unwrap(), message);
        assert_eq!(
            chacha_decrypt(&[2u8; 32], &ct, &nonce, b"ctx").unwrap_err(),
            "Decryption error: Error"
        );
    }
}

#[test]
fn fingerprint_is_colon_separated_sha256() {
    // SHA-256 of the empty input.
    assert_eq!(
        fingerprint(&[]),
        "E3:B0:C4:42:98:FC:1C:14:9A:FB:F4:C8:99:6F:B9:24:27:AE:41:E4:64:9B:93:4C:A4:95:99:1B:78:52:B8:55"
    );
    assert_eq!(
        compute_hash("abc"),
        "BA7816BF8F01CFEA414140DE5DAE2223B00361A396177A9CB410FF61F20015AD"
    );
}

#[test]
fn identity_keys_sign_and_verify() {
    let mut keys = IdentityKeys::new();
    assert_eq!(
        sign_message(&keys, b"hello").unwrap_err(),
        "Signing key not registered"
    );
    assert_eq!(
        compute_shared_secret(&keys, &[9u8; 32]).unwrap_err(),
        "DH key not registered"
    );
    assert!(get_my_public_keys(&keys).is_none());

    let (pub_sig, pub_dh) = register_identity_keys(&mut keys, [1u8; 32], [2u8; 32]);
    assert_eq!(pub_sig.len(), 32);
    assert_eq!(pub_dh.len(), 32);
    assert_eq!(get_my_public_keys(&keys), Some((pub_sig.clone(), pub_dh.clone())));

    let signature = sign_message(&keys, b"hello").unwrap();
    let pk: [u8; 32] = pub_sig.clone().try_into().unwrap();
    assert!(verify_message_signature(&pk, b"hello", &signature));
    assert!(!verify_message_signature(&pk, b"hellO", &signature));
    // Ed25519 signing is deterministic.
    assert_eq!(sign_message(&keys, b"hello").unwrap(), signature);
}

#[test]
fn shared_secret_agrees_between_two_identities() {
    let mut alice = IdentityKeys::new();
    let mut bob = IdentityKeys::new();
    let (_, alice_dh) = register_identity_keys(&mut alice, [3u8; 32], [4u8; 32]);
    let (_, bob_dh) = register_identity_keys(&mut bob, [5u8; 32], [6u8; 32]);
    let a: [u8; 32] = bob_dh.try_into().unwrap();
    let b: [u8; 32] = alice_dh.try_into().unwrap();
    let s1 = compute_shared_secret(&alice, &a).unwrap();
    let s2 = compute_shared_secret(&bob, &b).unwrap();
    assert_eq!(s1, s2);
    assert_ne!(s1, [0u8; 32]);
}
