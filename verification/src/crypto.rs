//! Identity keys, signatures, key agreement, session-key derivation and
//! authenticated encryption, over the outside cryptography crates.

use vstd::prelude::*;
use vstd::string::StringSliceAdditionalSpecFns;
use vstd::string::StrSliceExecFns;
use crate::text::{dec_digits, hex_byte, push_decimal, push_hex_byte, string_push};
use ed25519_dalek::{Signer, Verifier};
use sha2::Digest;
use chacha20poly1305::aead::Aead;
use chacha20poly1305::KeyInit;
use rand::RngCore;

verus! {

/// The protocol version that this library speaks.
pub const PROTOCOL_VERSION: u16 = 2;

// ---------------------------------------------------------------------------
// Names for what the outside cryptography computes.
// ---------------------------------------------------------------------------

/// The SHA-256 digest of `data` (sha2).
pub uninterp spec fn sha256_digest(data: Seq<u8>) -> Seq<u8>;

/// The Ed25519 public key of a 32-byte secret seed (ed25519-dalek).
pub uninterp spec fn ed25519_public_key(seed: Seq<u8>) -> Seq<u8>;

/// The Ed25519 signature of `message` under the secret seed (ed25519-dalek).
pub uninterp spec fn ed25519_signature(seed: Seq<u8>, message: Seq<u8>) -> Seq<u8>;

/// Whether `signature` is a valid Ed25519 signature of `message` under the
/// encoded public key (ed25519-dalek).
pub uninterp spec fn ed25519_verifies(public_key: Seq<u8>, message: Seq<u8>, signature: Seq<u8>) -> bool;

/// The X25519 public key of a 32-byte secret (x25519-dalek).
pub uninterp spec fn x25519_public_key(secret: Seq<u8>) -> Seq<u8>;

/// The raw X25519 shared secret of a secret and a peer public key
/// (x25519-dalek).
pub uninterp spec fn x25519_shared_secret(secret: Seq<u8>, their_public: Seq<u8>) -> Seq<u8>;

/// The 32-byte HKDF-SHA-256 output key material (hkdf).
pub uninterp spec fn hkdf_sha256_okm(salt: Seq<u8>, ikm: Seq<u8>, info: Seq<u8>) -> Seq<u8>;

/// The ChaCha20-Poly1305 ciphertext with appended tag (chacha20poly1305).
pub uninterp spec fn chacha20poly1305_seal(key: Seq<u8>, nonce: Seq<u8>, aad: Seq<u8>, plaintext: Seq<u8>) -> Seq<u8>;

/// The ChaCha20-Poly1305 plaintext of a ciphertext with appended tag, or
/// `None` when authentication fails (chacha20poly1305).
pub uninterp spec fn chacha20poly1305_open(key: Seq<u8>, nonce: Seq<u8>, aad: Seq<u8>, ciphertext: Seq<u8>) -> Option<Seq<u8>>;

// ---------------------------------------------------------------------------
// Calls into the outside crates.
// ---------------------------------------------------------------------------

/// `sha2::Sha256::digest`: the result is the named SHA-256 digest of the
/// input.
#[verifier::external_body]
pub(crate) fn sha256(data: &[u8]) -> (r: [u8; 32])
    ensures
        r@ == sha256_digest(data@),
{
    sha2::Sha256::digest(data).into()
}

/// `ed25519_dalek::SigningKey::verifying_key` of the key built from the seed:
/// the result is the named public key of the seed.
#[verifier::external_body]
fn ed25519_public(seed: &[u8; 32]) -> (r: [u8; 32])
    ensures
        r@ == ed25519_public_key(seed@),
{
    ed25519_dalek::SigningKey::from_bytes(seed).verifying_key().to_bytes()
}

/// `ed25519_dalek::SigningKey::sign`: the result is the named signature,
/// and, as the crate documents, it verifies under the public key of the
/// same seed.
#[verifier::external_body]
fn ed25519_sign(seed: &[u8; 32], message: &[u8]) -> (r: [u8; 64])
    ensures
        r@ == ed25519_signature(seed@, message@),
        ed25519_verifies(ed25519_public_key(seed@), message@, r@),
{
    ed25519_dalek::SigningKey::from_bytes(seed).sign(message).to_bytes()
}

/// `ed25519_dalek::VerifyingKey::from_bytes` followed by `verify`: the result
/// is the named verification outcome (false also when the key bytes do not
/// decode to a curve point).
#[verifier::external_body]
fn ed25519_verify(public_key: &[u8; 32], message: &[u8], signature: &[u8; 64]) -> (r: bool)
    ensures
        r == ed25519_verifies(public_key@, message@, signature@),
{
    match ed25519_dalek::VerifyingKey::from_bytes(public_key) {
        Ok(key) => key.verify(message, &ed25519_dalek::Signature::from_bytes(signature)).is_ok(),
        Err(_) => false,
    }
}

/// `x25519_dalek::PublicKey::from(&StaticSecret)`: the named public key.
#[verifier::external_body]
fn x25519_public(secret: &[u8; 32]) -> (r: [u8; 32])
    ensures
        r@ == x25519_public_key(secret@),
{
    x25519_dalek::PublicKey::from(&x25519_dalek::StaticSecret::from(*secret)).to_bytes()
}

/// `x25519_dalek::StaticSecret::diffie_hellman`: the named shared secret.
#[verifier::external_body]
fn x25519_diffie_hellman(secret: &[u8; 32], their_public: &[u8; 32]) -> (r: [u8; 32])
    ensures
        r@ == x25519_shared_secret(secret@, their_public@),
{
    let theirs = x25519_dalek::PublicKey::from(*their_public);
    x25519_dalek::StaticSecret::from(*secret).diffie_hellman(&theirs).to_bytes()
}

/// `hkdf::Hkdf::<Sha256>::new(Some(salt), ikm).expand(info, okm)` into 32
/// bytes. The crate fails only for outputs longer than 255 hash blocks, so
/// this call always succeeds, with the named output key material.
#[verifier::external_body]
fn hkdf_sha256_32(salt: &[u8; 32], ikm: &[u8; 32], info: &[u8]) -> (r: Option<[u8; 32]>)
    ensures
        r is Some,
        r->0@ == hkdf_sha256_okm(salt@, ikm@, info@),
{
    let mut okm = [0u8; 32];
    match hkdf::Hkdf::<sha2::Sha256>::new(Some(salt), ikm).expand(info, &mut okm) {
        Ok(()) => Some(okm),
        Err(_) => None,
    }
}

/// `ChaCha20Poly1305::encrypt`. The crate refuses a message of `u32::MAX`
/// or more 64-byte blocks and otherwise returns the named ciphertext, which
/// decrypts under the same key, nonce and associated data to the message.
#[verifier::external_body]
fn chacha_seal(key: &[u8; 32], nonce: &[u8; 12], aad: &[u8], plaintext: &[u8]) -> (r: Option<Vec<u8>>)
    ensures
        r is Some <==> plaintext@.len() / 64 < 0xffff_ffff,
        r is Some ==> r->0@ == chacha20poly1305_seal(key@, nonce@, aad@, plaintext@),
        r is Some ==> chacha20poly1305_open(key@, nonce@, aad@, r->0@) == Some(plaintext@),
{
    let cipher = chacha20poly1305::ChaCha20Poly1305::new(key.into());
    cipher.encrypt(nonce.into(), chacha20poly1305::aead::Payload { msg: plaintext, aad }).ok()
}

/// `ChaCha20Poly1305::decrypt`: the named plaintext, `None` when the tag
/// does not authenticate the ciphertext and associated data.
#[verifier::external_body]
fn chacha_open(key: &[u8; 32], nonce: &[u8; 12], aad: &[u8], ciphertext: &[u8]) -> (r: Option<Vec<u8>>)
    ensures
        r is Some ==> chacha20poly1305_open(key@, nonce@, aad@, ciphertext@) == Some(r->0@),
        r is None ==> chacha20poly1305_open(key@, nonce@, aad@, ciphertext@) is None,
{
    let cipher = chacha20poly1305::ChaCha20Poly1305::new(key.into());
    cipher.decrypt(nonce.into(), chacha20poly1305::aead::Payload { msg: ciphertext, aad }).ok()
}

/// `rand::thread_rng().fill_bytes`: fresh random bytes; nothing is stated
/// of their value.
#[verifier::external_body]
pub(crate) fn random_bytes<const N: usize>() -> (r: [u8; N])
{
    let mut bytes = [0u8; N];
    rand::thread_rng().fill_bytes(&mut bytes);
    bytes
}

// ---------------------------------------------------------------------------
// Identity keys.
// ---------------------------------------------------------------------------

/// The device's registered identity secrets.
pub struct IdentityKeys {
    pub signing_seed: Option<[u8; 32]>,
    pub dh_secret: Option<[u8; 32]>,
}

impl IdentityKeys {
    pub fn new() -> (r: IdentityKeys)
        ensures
            r.signing_seed is None,
            r.dh_secret is None,
    {
        IdentityKeys { signing_seed: None, dh_secret: None }
    }
}

/// Registers the identity secrets and returns the Ed25519 and X25519
/// public keys.
pub fn register_identity_keys(
    keys: &mut IdentityKeys,
    signing_key_bytes: [u8; 32],
    dh_key_bytes: [u8; 32],
) -> (r: (Vec<u8>, Vec<u8>))
    ensures
        final(keys).signing_seed == Some(signing_key_bytes),
        final(keys).dh_secret == Some(dh_key_bytes),
        r.0@ == ed25519_public_key(signing_key_bytes@),
        r.1@ == x25519_public_key(dh_key_bytes@),
        r.0@.len() == 32,
        r.1@.len() == 32,
{
    let pub_signing = ed25519_public(&signing_key_bytes);
    let pub_dh = x25519_public(&dh_key_bytes);
    keys.signing_seed = Some(signing_key_bytes);
    keys.dh_secret = Some(dh_key_bytes);
    (vstd::slice::slice_to_vec(pub_signing.as_slice()), vstd::slice::slice_to_vec(pub_dh.as_slice()))
}

/// The public halves of the registered identity keys, when both are set.
pub fn get_my_public_keys(keys: &IdentityKeys) -> (r: Option<(Vec<u8>, Vec<u8>)>)
    ensures
        r is Some <==> keys.signing_seed is Some && keys.dh_secret is Some,
        r matches Some(p) ==> p.0@ == ed25519_public_key(keys.signing_seed->0@) && p.1@
            == x25519_public_key(keys.dh_secret->0@) && p.0@.len() == 32 && p.1@.len() == 32,
{
    match (&keys.signing_seed, &keys.dh_secret) {
        (Some(sig), Some(dh)) => {
            let pub_signing = ed25519_public(sig);
            let pub_dh = x25519_public(dh);
            Some((vstd::slice::slice_to_vec(pub_signing.as_slice()), vstd::slice::slice_to_vec(pub_dh.as_slice())))
        },
        _ => None,
    }
}

/// Signs `message` with the registered signing key.
pub fn sign_message(keys: &IdentityKeys, message: &[u8]) -> (r: Result<[u8; 64], String>)
    ensures
        keys.signing_seed is None ==> (r matches Err(e) && e@ == "Signing key not registered"@),
        keys.signing_seed matches Some(seed) ==> (r matches Ok(s) && s@ == ed25519_signature(
            seed@,
            message@,
        ) && ed25519_verifies(ed25519_public_key(seed@), message@, s@)),
{
    match &keys.signing_seed {
        Some(seed) => Ok(ed25519_sign(seed, message)),
        None => Err(String::from_str("Signing key not registered")),
    }
}

/// Whether `signature_bytes` is a valid signature of `message` under the
/// encoded public key.
pub fn verify_message_signature(
    pub_key_bytes: &[u8; 32],
    message: &[u8],
    signature_bytes: &[u8; 64],
) -> (r: bool)
    ensures
        r == ed25519_verifies(pub_key_bytes@, message@, signature_bytes@),
{
    ed25519_verify(pub_key_bytes, message, signature_bytes)
}

/// SHA-256 of the X25519 shared secret of the registered DH key and
/// `their_public_dh_bytes`.
pub fn compute_shared_secret(keys: &IdentityKeys, their_public_dh_bytes: &[u8; 32]) -> (r: Result<
    [u8; 32],
    String,
>)
    ensures
        keys.dh_secret is None ==> (r matches Err(e) && e@ == "DH key not registered"@),
        keys.dh_secret matches Some(secret) ==> (r matches Ok(k) && k@ == sha256_digest(
            x25519_shared_secret(secret@, their_public_dh_bytes@),
        )),
{
    match &keys.dh_secret {
        Some(secret) => {
            let shared = x25519_diffie_hellman(secret, their_public_dh_bytes);
            Ok(sha256(&shared))
        },
        None => Err(String::from_str("DH key not registered")),
    }
}

/// The HKDF `info` string of session keys.
pub open spec fn session_key_info() -> Seq<u8> {
    "airboard/session/v2".spec_bytes()
}

/// Derives the session key: HKDF-SHA-256 with the SHA-256 of the transcript
/// as salt and the shared secret as input key material.
pub fn derive_session_key(shared_secret: &[u8; 32], transcript: &[u8]) -> (r: Result<[u8; 32], String>)
    ensures
        r matches Ok(k) && k@ == hkdf_sha256_okm(
            sha256_digest(transcript@),
            shared_secret@,
            session_key_info(),
        ),
{
    let transcript_hash = sha256(transcript);
    let info = "airboard/session/v2".as_bytes();
    match hkdf_sha256_32(&transcript_hash, shared_secret, info) {
        Some(k) => Ok(k),
        None => Err(String::from_str("Session key derivation failed")),
    }
}

/// Encrypts `plaintext` under `key` with a fresh random nonce, binding
/// `associated_data`; returns the ciphertext with its tag and the nonce.
pub fn chacha_encrypt(key: &[u8; 32], plaintext: &[u8], associated_data: &[u8]) -> (r: Result<
    (Vec<u8>, [u8; 12]),
    String,
>)
    ensures
        r is Ok <==> plaintext@.len() / 64 < 0xffff_ffff,
        r matches Ok(p) ==> p.0@ == chacha20poly1305_seal(
            key@,
            p.1@,
            associated_data@,
            plaintext@,
        ),
        r matches Ok(p) ==> chacha20poly1305_open(key@, p.1@, associated_data@, p.0@) == Some(
            plaintext@,
        ),
        r matches Err(e) ==> e@ == "Encryption error: Error"@,
{
    let nonce: [u8; 12] = random_bytes::<12>();
    match chacha_seal(key, &nonce, associated_data, plaintext) {
        Some(ciphertext) => Ok((ciphertext, nonce)),
        None => Err(String::from_str("Encryption error: Error")),
    }
}

/// Decrypts and authenticates `ciphertext` under `key`, `nonce` and
/// `associated_data`.
pub fn chacha_decrypt(
    key: &[u8; 32],
    ciphertext: &[u8],
    nonce: &[u8; 12],
    associated_data: &[u8],
) -> (r: Result<Vec<u8>, String>)
    ensures
        r matches Ok(p) ==> chacha20poly1305_open(key@, nonce@, associated_data@, ciphertext@)
            == Some(p@),
        r is Err <==> chacha20poly1305_open(key@, nonce@, associated_data@, ciphertext@) is None,
        r matches Err(e) ==> e@ == "Decryption error: Error"@,
{
    match chacha_open(key, nonce, associated_data, ciphertext) {
        Some(plaintext) => Ok(plaintext),
        None => Err(String::from_str("Decryption error: Error")),
    }
}

/// What `decode_fixed` reports for a field of the wrong length.
pub open spec fn fixed_length_error(label: Seq<char>, expected: nat, received: nat) -> Seq<char> {
    "Invalid "@ + label + " length: expected "@ + dec_digits(expected) + ", received "@
        + dec_digits(received)
}

/// Converts `bytes` into an array of exactly `N` bytes, or reports the
/// length mismatch.
pub fn decode_fixed<const N: usize>(bytes: Vec<u8>, label: &str) -> (r: Result<[u8; N], String>)
    ensures
        bytes@.len() == N ==> (r matches Ok(a) && a@ == bytes@),
        bytes@.len() != N ==> (r matches Err(e) && e@ == fixed_length_error(
            label@,
            N as nat,
            bytes@.len(),
        )),
{
    if bytes.len() != N {
        let mut msg = String::from_str("Invalid ");
        msg.append(label);
        msg.append(" length: expected ");
        push_decimal(&mut msg, N as u64);
        msg.append(", received ");
        push_decimal(&mut msg, bytes.len() as u64);
        return Err(msg);
    }
    let mut out: [u8; N] = vstd::array::array_fill_for_copy_types::<u8, N>(0u8);
    let mut i: usize = 0;
    while i < N
        invariant
            i <= N,
            bytes@.len() == N,
            out@.len() == N,
            forall|j: int| 0 <= j < i ==> out@[j] == bytes@[j],
        decreases N - i,
    {
        out[i] = bytes[i];
        i = i + 1;
    }
    assert(out@ =~= bytes@);
    Ok(out)
}

/// The colon-separated upper-case hexadecimal rendering of a digest.
pub open spec fn fingerprint_text(digest: Seq<u8>) -> Seq<char>
    decreases digest.len(),
{
    if digest.len() == 0 {
        seq![]
    } else if digest.len() == 1 {
        hex_byte(digest[0])
    } else {
        fingerprint_text(digest.drop_last()) + seq![':'] + hex_byte(digest.last())
    }
}

/// The identity fingerprint of a public signing key: its SHA-256 digest in
/// colon-separated upper-case hexadecimal.
pub fn fingerprint(public_signing_key: &[u8]) -> (r: String)
    ensures
        r@ == fingerprint_text(sha256_digest(public_signing_key@)),
{
    let digest = sha256(public_signing_key);
    let mut out = String::new();
    let mut i: usize = 0;
    while i < 32
        invariant
            i <= 32,
            digest@.len() == 32,
            out@ == fingerprint_text(digest@.subrange(0, i as int)),
        decreases 32 - i,
    {
        let ghost prev = digest@.subrange(0, i as int);
        let ghost next = digest@.subrange(0, i + 1);
        assert(next.drop_last() =~= prev);
        if i > 0 {
            string_push(&mut out, ':');
        }
        push_hex_byte(&mut out, digest[i]);
        proof {
            if i == 0 {
                assert(out@ =~= fingerprint_text(next));
            } else {
                assert(out@ =~= fingerprint_text(next));
            }
        }
        i = i + 1;
    }
    assert(digest@.subrange(0, 32) =~= digest@);
    out
}

/// Upper-case hexadecimal of a digest, without separators.
pub open spec fn hex_text(digest: Seq<u8>) -> Seq<char>
    decreases digest.len(),
{
    if digest.len() == 0 {
        seq![]
    } else {
        hex_text(digest.drop_last()) + hex_byte(digest.last())
    }
}

/// The content hash that the sync engine compares clipboard text by: the
/// hexadecimal SHA-256 digest of its UTF-8 bytes.
pub fn compute_hash(content: &str) -> (r: String)
    ensures
        r@ == hex_text(sha256_digest(content.spec_bytes())),
        r@.len() == 64,
{
    let digest = sha256(content.as_bytes());
    let mut out = String::new();
    let mut i: usize = 0;
    while i < 32
        invariant
            i <= 32,
            digest@.len() == 32,
            out@ == hex_text(digest@.subrange(0, i as int)),
        decreases 32 - i,
    {
        let ghost next = digest@.subrange(0, i + 1);
        assert(next.drop_last() =~= digest@.subrange(0, i as int));
        push_hex_byte(&mut out, digest[i]);
        i = i + 1;
    }
    assert(digest@.subrange(0, 32) =~= digest@);
    proof {
        lemma_hex_text_len(digest@);
    }
    out
}

proof fn lemma_hex_text_len(digest: Seq<u8>)
    ensures
        hex_text(digest).len() == 2 * digest.len(),
    decreases digest.len(),
{
    if digest.len() > 0 {
        lemma_hex_text_len(digest.drop_last());
    }
}

/// The text whose UTF-8 bytes are the associated data of an envelope.
pub open spec fn aad_text(sender: Seq<char>, recipient: Seq<char>, sequence: u64) -> Seq<char> {
    "airboard|v"@ + dec_digits(PROTOCOL_VERSION as nat) + "|"@ + sender + "|"@ + recipient + "|"@
        + dec_digits(sequence as nat)
}

/// The associated data that binds an encrypted envelope to the protocol
/// version, sender, recipient and sequence number:
/// `airboard|v2|sender|recipient|sequence` in UTF-8.
pub fn handshake_aad(sender: &str, recipient: &str, sequence: u64) -> (r: Vec<u8>)
    ensures
        r@ == vstd::utf8::encode_utf8(aad_text(sender@, recipient@, sequence)),
{
    let mut text = String::from_str("airboard|v");
    push_decimal(&mut text, PROTOCOL_VERSION as u64);
    text.append("|");
    text.append(sender);
    text.append("|");
    text.append(recipient);
    text.append("|");
    push_decimal(&mut text, sequence);
    assert(text@ =~= aad_text(sender@, recipient@, sequence));
    text.as_str().as_bytes_vec()
}

/// Splitting at the first separator: a prefix free of `|` is determined by
/// the text it starts.
proof fn lemma_split_at_bar(a1: Seq<char>, x1: Seq<char>, a2: Seq<char>, x2: Seq<char>)
    requires
        !a1.contains('|'),
        !a2.contains('|'),
        a1 + seq!['|'] + x1 == a2 + seq!['|'] + x2,
    ensures
        a1 == a2,
        x1 == x2,
{
    let l = a1 + seq!['|'] + x1;
    let rr = a2 + seq!['|'] + x2;
    if a1.len() < a2.len() {
        assert(l[a1.len() as int] == '|');
        assert(rr[a1.len() as int] == a2[a1.len() as int]);
        assert(a2.contains(a2[a1.len() as int]));
    } else if a2.len() < a1.len() {
        assert(rr[a2.len() as int] == '|');
        assert(l[a2.len() as int] == a1[a2.len() as int]);
        assert(a1.contains(a1[a2.len() as int]));
    }
    assert(a1 =~= l.subrange(0, a1.len() as int));
    assert(a2 =~= rr.subrange(0, a2.len() as int));
    assert(x1 =~= l.subrange(a1.len() as int + 1, l.len() as int));
    assert(x2 =~= rr.subrange(a2.len() as int + 1, rr.len() as int));
}

/// The associated data binds the envelope: as long as device IDs contain no
/// `|`, two envelopes with equal associated data have the same sender,
/// recipient and sequence number.
pub proof fn law_aad_binds_envelope(
    s1: Seq<char>,
    r1: Seq<char>,
    q1: u64,
    s2: Seq<char>,
    r2: Seq<char>,
    q2: u64,
)
    requires
        !s1.contains('|'),
        !r1.contains('|'),
        !s2.contains('|'),
        !r2.contains('|'),
        vstd::utf8::encode_utf8(aad_text(s1, r1, q1)) == vstd::utf8::encode_utf8(
            aad_text(s2, r2, q2),
        ),
    ensures
        s1 == s2,
        r1 == r2,
        q1 == q2,
{
    vstd::utf8::encode_utf8_decode_utf8(aad_text(s1, r1, q1));
    vstd::utf8::encode_utf8_decode_utf8(aad_text(s2, r2, q2));
    let t1 = aad_text(s1, r1, q1);
    let t2 = aad_text(s2, r2, q2);
    assert(t1 == t2);
    reveal_strlit("|");
    let p = "airboard|v"@ + dec_digits(PROTOCOL_VERSION as nat) + "|"@;
    let rest1 = s1 + seq!['|'] + (r1 + seq!['|'] + dec_digits(q1 as nat));
    let rest2 = s2 + seq!['|'] + (r2 + seq!['|'] + dec_digits(q2 as nat));
    assert(t1 =~= p + rest1);
    assert(t2 =~= p + rest2);
    assert(rest1 =~= t1.subrange(p.len() as int, t1.len() as int));
    assert(rest2 =~= t2.subrange(p.len() as int, t2.len() as int));
    lemma_split_at_bar(s1, r1 + seq!['|'] + dec_digits(q1 as nat), s2, r2 + seq!['|'] + dec_digits(q2 as nat));
    lemma_split_at_bar(r1, dec_digits(q1 as nat), r2, dec_digits(q2 as nat));
    crate::text::lemma_dec_digits_injective(q1 as nat, q2 as nat);
}

} // verus!
