//! Mutual pairing: signed, length-delimited pairing transcripts, the pairing
//! messages, and the checks each side applies to the other's message.
//!
//! Waiting for the user's fingerprint approval and the WebSocket exchange
//! stay with the application, which calls the functions here between them.

use vstd::prelude::*;
use vstd::string::StringSliceAdditionalSpecFns;
use crate::crypto::{
    decode_fixed, ed25519_public_key, ed25519_signature, ed25519_verifies, fingerprint,
    fingerprint_text, get_my_public_keys, random_bytes, sha256_digest, sign_message, verify_message_signature,
    x25519_public_key, IdentityKeys, PROTOCOL_VERSION,
};
use crate::encoding::{base64_decode, base64_decoding, base64_encode, base64_encoding};
use crate::text::{dec_digits, push_decimal};
use crate::trust_store::{add_trusted_device, TrustStore, TrustedDevice};
use crate::keyed::{find_key, has_key, key_of, keyed_map, keys_unique, lemma_keyed_push, lemma_keyed_remove, KeyedRecord};

verus! {

/// The eight big-endian bytes of `n`.
pub open spec fn be64(n: u64) -> Seq<u8> {
    seq![
        (n >> 56u64) as u8,
        (n >> 48u64) as u8,
        (n >> 40u64) as u8,
        (n >> 32u64) as u8,
        (n >> 24u64) as u8,
        (n >> 16u64) as u8,
        (n >> 8u64) as u8,
        n as u8,
    ]
}

/// Each part preceded by its length as eight big-endian bytes.
pub open spec fn frame_parts(parts: Seq<Seq<u8>>) -> Seq<u8>
    decreases parts.len(),
{
    if parts.len() == 0 {
        seq![]
    } else {
        be64(parts[0].len() as u64) + parts[0] + frame_parts(parts.drop_first())
    }
}

/// A domain-separated, length-delimited encoding of `parts`.
pub open spec fn encoded_parts(domain: Seq<u8>, parts: Seq<Seq<u8>>) -> Seq<u8> {
    domain + frame_parts(parts)
}

pub open spec fn parts_fit(parts: Seq<Seq<u8>>) -> bool {
    forall|i: int| 0 <= i < parts.len() ==> #[trigger] parts[i].len() <= u64::MAX
}

proof fn lemma_be64_injective(a: u64, b: u64)
    requires
        be64(a) == be64(b),
    ensures
        a == b,
{
    assert(be64(a)[0] == be64(b)[0]);
    assert(be64(a)[1] == be64(b)[1]);
    assert(be64(a)[2] == be64(b)[2]);
    assert(be64(a)[3] == be64(b)[3]);
    assert(be64(a)[4] == be64(b)[4]);
    assert(be64(a)[5] == be64(b)[5]);
    assert(be64(a)[6] == be64(b)[6]);
    assert(be64(a)[7] == be64(b)[7]);
    assert(((a >> 56u64) as u8 == (b >> 56u64) as u8 && (a >> 48u64) as u8 == (b >> 48u64) as u8
        && (a >> 40u64) as u8 == (b >> 40u64) as u8 && (a >> 32u64) as u8 == (b >> 32u64) as u8
        && (a >> 24u64) as u8 == (b >> 24u64) as u8 && (a >> 16u64) as u8 == (b >> 16u64) as u8
        && (a >> 8u64) as u8 == (b >> 8u64) as u8 && a as u8 == b as u8) ==> a == b)
        by (bit_vector);
}

proof fn lemma_frame_push(parts: Seq<Seq<u8>>, x: Seq<u8>)
    ensures
        frame_parts(parts.push(x)) == frame_parts(parts) + be64(x.len() as u64) + x,
    decreases parts.len(),
{
    if parts.len() == 0 {
        assert(parts.push(x).drop_first() =~= Seq::<Seq<u8>>::empty());
        assert(frame_parts(Seq::<Seq<u8>>::empty()) == Seq::<u8>::empty());
        assert(parts.push(x)[0] == x);
        assert(frame_parts(parts.push(x)) =~= be64(x.len() as u64) + x);
    } else {
        assert(parts.push(x).drop_first() =~= parts.drop_first().push(x));
        lemma_frame_push(parts.drop_first(), x);
        assert(frame_parts(parts.push(x)) =~= frame_parts(parts) + be64(x.len() as u64) + x);
    }
}

/// The framing is unambiguous: equal framings come from equal part lists.
proof fn lemma_frame_injective(p1: Seq<Seq<u8>>, p2: Seq<Seq<u8>>)
    requires
        parts_fit(p1),
        parts_fit(p2),
        frame_parts(p1) == frame_parts(p2),
    ensures
        p1 == p2,
    decreases p1.len(),
{
    if p1.len() == 0 || p2.len() == 0 {
        if p1.len() != 0 {
            assert(frame_parts(p1).len() >= 8);
        }
        if p2.len() != 0 {
            assert(frame_parts(p2).len() >= 8);
        }
        assert(p1 =~= p2);
    } else {
        let f1 = frame_parts(p1);
        let f2 = frame_parts(p2);
        let l1 = p1[0].len() as u64;
        let l2 = p2[0].len() as u64;
        assert(be64(l1) =~= f1.subrange(0, 8));
        assert(be64(l2) =~= f2.subrange(0, 8));
        lemma_be64_injective(l1, l2);
        assert(p1[0].len() == p2[0].len());
        let n = p1[0].len() as int;
        assert(p1[0] =~= f1.subrange(8, 8 + n));
        assert(p2[0] =~= f2.subrange(8, 8 + n));
        assert(frame_parts(p1.drop_first()) =~= f1.subrange(8 + n, f1.len() as int));
        assert(frame_parts(p2.drop_first()) =~= f2.subrange(8 + n, f2.len() as int));
        assert(parts_fit(p1.drop_first()));
        assert(parts_fit(p2.drop_first()));
        lemma_frame_injective(p1.drop_first(), p2.drop_first());
        assert(p1 =~= seq![p1[0]] + p1.drop_first());
        assert(p2 =~= seq![p2[0]] + p2.drop_first());
    }
}

/// The total length of the length-delimited parts.
pub open spec fn framed_len(parts: Seq<Seq<u8>>) -> nat
    decreases parts.len(),
{
    if parts.len() == 0 {
        0
    } else {
        8 + parts[0].len() + framed_len(parts.drop_first())
    }
}

/// An encoding is as long as its domain plus, for each part, eight length
/// bytes and the part.
pub proof fn law_encoded_length(domain: Seq<u8>, parts: Seq<Seq<u8>>)
    ensures
        encoded_parts(domain, parts).len() == domain.len() + framed_len(parts),
{
    lemma_frame_len(parts);
}

proof fn lemma_frame_len(parts: Seq<Seq<u8>>)
    ensures
        frame_parts(parts).len() == framed_len(parts),
    decreases parts.len(),
{
    if parts.len() > 0 {
        lemma_frame_len(parts.drop_first());
    }
}

/// Transcripts are unambiguous: under one domain, two part lists with the
/// same encoding are the same list, so a signature over a transcript binds
/// every field and its boundaries.
pub proof fn law_transcript_injective(domain: Seq<u8>, p1: Seq<Seq<u8>>, p2: Seq<Seq<u8>>)
    requires
        parts_fit(p1),
        parts_fit(p2),
        encoded_parts(domain, p1) == encoded_parts(domain, p2),
    ensures
        p1 == p2,
{
    let e1 = encoded_parts(domain, p1);
    let e2 = encoded_parts(domain, p2);
    assert(frame_parts(p1) =~= e1.subrange(domain.len() as int, e1.len() as int));
    assert(frame_parts(p2) =~= e2.subrange(domain.len() as int, e2.len() as int));
    lemma_frame_injective(p1, p2);
}

fn push_be64(out: &mut Vec<u8>, n: u64)
    ensures
        final(out)@ == old(out)@ + be64(n),
{
    out.push((n >> 56u64) as u8);
    out.push((n >> 48u64) as u8);
    out.push((n >> 40u64) as u8);
    out.push((n >> 32u64) as u8);
    out.push((n >> 24u64) as u8);
    out.push((n >> 16u64) as u8);
    out.push((n >> 8u64) as u8);
    out.push(n as u8);
    assert(out@ =~= old(out)@ + be64(n));
}

/// The views of a list of byte slices.
pub open spec fn slice_views(parts: Seq<&[u8]>) -> Seq<Seq<u8>> {
    parts.map_values(|p: &[u8]| p@)
}

/// `domain` followed by each part, each preceded by its length as a
/// big-endian `u64`.
pub fn encode_parts(domain: &[u8], parts: &[&[u8]]) -> (r: Vec<u8>)
    ensures
        r@ == encoded_parts(domain@, slice_views(parts@)),
        parts_fit(slice_views(parts@)),
{
    let mut output: Vec<u8> = vstd::slice::slice_to_vec(domain);
    let mut i: usize = 0;
    while i < parts.len()
        invariant
            i <= parts@.len(),
            output@ == encoded_parts(domain@, slice_views(parts@.subrange(0, i as int))),
            forall|k: int| 0 <= k < i ==> #[trigger] slice_views(parts@)[k].len() <= u64::MAX,
        decreases parts.len() - i,
    {
        let part: &[u8] = parts[i];
        let part_len: usize = part.len();
        assert(slice_views(parts@)[i as int].len() == part_len);
        let ghost prev = slice_views(parts@.subrange(0, i as int));
        push_be64(&mut output, part.len() as u64);
        output.extend_from_slice(part);
        proof {
            assert(slice_views(parts@.subrange(0, i + 1)) =~= prev.push(part@));
            lemma_frame_push(prev, part@);
            assert(output@ =~= encoded_parts(domain@, prev.push(part@)));
        }
        i = i + 1;
    }
    assert(parts@.subrange(0, parts@.len() as int) =~= parts@);
    output
}


/// Domain of pairing-request transcripts.
pub open spec fn request_domain() -> Seq<u8> {
    "airboard/pairing-request/v2".spec_bytes()
}

/// Domain of pairing-response transcripts.
pub open spec fn response_domain() -> Seq<u8> {
    "airboard/pairing-response/v2".spec_bytes()
}

/// The transcript that a pairing request's signature covers.
pub open spec fn request_transcript(
    device_id: Seq<char>,
    device_name: Seq<char>,
    public_signing_key: Seq<u8>,
    public_dh_key: Seq<u8>,
    nonce: Seq<u8>,
) -> Seq<u8> {
    encoded_parts(
        request_domain(),
        seq![
            vstd::utf8::encode_utf8(device_id),
            vstd::utf8::encode_utf8(device_name),
            public_signing_key,
            public_dh_key,
            nonce,
        ],
    )
}

/// The transcript that a pairing response's signature covers.
pub open spec fn response_transcript(
    request_nonce: Seq<u8>,
    response_nonce: Seq<u8>,
    requester_id: Seq<char>,
    responder_id: Seq<char>,
    responder_name: Seq<char>,
    responder_signing_key: Seq<u8>,
    responder_dh_key: Seq<u8>,
) -> Seq<u8> {
    encoded_parts(
        response_domain(),
        seq![
            request_nonce,
            response_nonce,
            vstd::utf8::encode_utf8(requester_id),
            vstd::utf8::encode_utf8(responder_id),
            vstd::utf8::encode_utf8(responder_name),
            responder_signing_key,
            responder_dh_key,
        ],
    )
}

/// Byte 19 of each domain: `q` of "request" and `s` of "response".
proof fn lemma_domains_differ_at_19()
    ensures
        request_domain().len() > 19,
        response_domain().len() > 19,
        request_domain()[19] == 113u8,
        response_domain()[19] == 115u8,
{
    reveal_strlit("airboard/pairing-request/v2");
    reveal_strlit("airboard/pairing-response/v2");
    let rq = "airboard/pairing-request/v2"@;
    let rs = "airboard/pairing-response/v2"@;
    assert(vstd::utf8::is_ascii_chars(rq));
    assert(vstd::utf8::is_ascii_chars(rs));
    vstd::utf8::is_ascii_chars_encode_utf8(rq);
    vstd::utf8::is_ascii_chars_encode_utf8(rs);
    assert(rq[19] == 'q');
    assert(rs[19] == 's');
}

/// Domain separation: no pairing-request transcript is ever a
/// pairing-response transcript, so a signature over one cannot be replayed
/// as the other.
pub proof fn law_request_response_transcripts_differ(
    device_id: Seq<char>,
    device_name: Seq<char>,
    public_signing_key: Seq<u8>,
    public_dh_key: Seq<u8>,
    nonce: Seq<u8>,
    request_nonce: Seq<u8>,
    response_nonce: Seq<u8>,
    requester_id: Seq<char>,
    responder_id: Seq<char>,
    responder_name: Seq<char>,
    responder_signing_key: Seq<u8>,
    responder_dh_key: Seq<u8>,
)
    ensures
        request_transcript(device_id, device_name, public_signing_key, public_dh_key, nonce)
            != response_transcript(
            request_nonce,
            response_nonce,
            requester_id,
            responder_id,
            responder_name,
            responder_signing_key,
            responder_dh_key,
        ),
{
    lemma_domains_differ_at_19();
    let a = request_transcript(device_id, device_name, public_signing_key, public_dh_key, nonce);
    let b = response_transcript(
        request_nonce,
        response_nonce,
        requester_id,
        responder_id,
        responder_name,
        responder_signing_key,
        responder_dh_key,
    );
    assert(a[19] == request_domain()[19]);
    assert(b[19] == response_domain()[19]);
}

/// The signed transcript of a pairing request.
pub fn pairing_request_transcript(
    device_id: &str,
    device_name: &str,
    public_signing_key: &[u8],
    public_dh_key: &[u8],
    nonce: &[u8],
) -> (r: Vec<u8>)
    ensures
        r@ == request_transcript(
            device_id@,
            device_name@,
            public_signing_key@,
            public_dh_key@,
            nonce@,
        ),
{
    let parts: Vec<&[u8]> = vec![
        device_id.as_bytes(),
        device_name.as_bytes(),
        public_signing_key,
        public_dh_key,
        nonce,
    ];
    let r = encode_parts("airboard/pairing-request/v2".as_bytes(), parts.as_slice());
    assert(slice_views(parts@) =~= seq![
        vstd::utf8::encode_utf8(device_id@),
        vstd::utf8::encode_utf8(device_name@),
        public_signing_key@,
        public_dh_key@,
        nonce@,
    ]);
    r
}

/// The signed transcript of a pairing response.
pub fn pairing_response_transcript(
    request_nonce: &[u8],
    response_nonce: &[u8],
    requester_id: &str,
    responder_id: &str,
    responder_name: &str,
    responder_signing_key: &[u8],
    responder_dh_key: &[u8],
) -> (r: Vec<u8>)
    ensures
        r@ == response_transcript(
            request_nonce@,
            response_nonce@,
            requester_id@,
            responder_id@,
            responder_name@,
            responder_signing_key@,
            responder_dh_key@,
        ),
{
    let parts: Vec<&[u8]> = vec![
        request_nonce,
        response_nonce,
        requester_id.as_bytes(),
        responder_id.as_bytes(),
        responder_name.as_bytes(),
        responder_signing_key,
        responder_dh_key,
    ];
    let r = encode_parts("airboard/pairing-response/v2".as_bytes(), parts.as_slice());
    assert(slice_views(parts@) =~= seq![
        request_nonce@,
        response_nonce@,
        vstd::utf8::encode_utf8(requester_id@),
        vstd::utf8::encode_utf8(responder_id@),
        vstd::utf8::encode_utf8(responder_name@),
        responder_signing_key@,
        responder_dh_key@,
    ]);
    r
}

/// The identity fingerprint shown for a peer's public signing key.
pub fn compute_fingerprint(pub_signing_key_bytes: &[u8]) -> (r: String)
    ensures
        r@ == fingerprint_text(sha256_digest(pub_signing_key_bytes@)),
{
    fingerprint(pub_signing_key_bytes)
}

/// A pairing message as it travels on the wire (Base64 fields).
#[derive(Clone, Debug, PartialEq, Eq)]
pub enum PairingMessage {
    PairingRequest {
        protocol_version: u16,
        device_id: String,
        device_name: String,
        public_signing_key: String,
        public_dh_key: String,
        pairing_nonce: String,
        signature: String,
    },
    PairingResponse {
        protocol_version: u16,
        status: String,
        device_id: String,
        device_name: String,
        public_signing_key: String,
        public_dh_key: String,
        request_nonce: String,
        response_nonce: String,
        signature: String,
    },
}

/// A Base64 field of a pairing message.
#[derive(PartialEq, Eq, Structural, Clone, Copy, Debug)]
pub enum PairingField {
    SigningKey,
    DhKey,
    PairingNonce,
    Signature,
    RequestNonce,
    ResponseNonce,
}

/// Why a pairing step failed.
#[derive(PartialEq, Eq, Structural, Clone, Copy, Debug)]
pub enum PairingError {
    /// The peer sent a response where a request was expected.
    ExpectedRequest,
    /// The peer sent a request where a response was expected.
    UnexpectedMessage,
    /// The request carries another protocol version.
    IncompatibleProtocol,
    /// The response is not an approval, or carries another protocol version.
    DeniedOrIncompatible,
    /// The responder is not the device that was selected.
    IdentityMismatch,
    /// The response echoes another request nonce.
    NonceMismatch,
    /// A field is not valid Base64.
    InvalidEncoding { field: PairingField },
    /// A field decodes to the wrong number of bytes.
    InvalidLength { field: PairingField, expected: usize, received: usize },
    /// The request signature does not verify.
    RequestSignatureInvalid,
    /// The response signature does not verify.
    ResponseSignatureInvalid,
    /// This device has no registered identity keys.
    KeysNotRegistered,
}

/// The label that length errors name a field by.
pub open spec fn field_label(f: PairingField) -> Seq<char> {
    match f {
        PairingField::SigningKey => "signing key"@,
        PairingField::DhKey => "DH key"@,
        PairingField::PairingNonce => "pairing nonce"@,
        PairingField::Signature => "pairing signature"@,
        PairingField::RequestNonce => "request nonce"@,
        PairingField::ResponseNonce => "response nonce"@,
    }
}

fn field_label_exec(f: PairingField) -> (r: &'static str)
    ensures
        r@ == field_label(f),
{
    match f {
        PairingField::SigningKey => "signing key",
        PairingField::DhKey => "DH key",
        PairingField::PairingNonce => "pairing nonce",
        PairingField::Signature => "pairing signature",
        PairingField::RequestNonce => "request nonce",
        PairingField::ResponseNonce => "response nonce",
    }
}

/// The text reported for a pairing error.
pub open spec fn error_text(e: PairingError) -> Seq<char> {
    match e {
        PairingError::ExpectedRequest => "Expected pairing request"@,
        PairingError::UnexpectedMessage => "Peer returned an unexpected pairing message"@,
        PairingError::IncompatibleProtocol => "Incompatible pairing protocol"@,
        PairingError::DeniedOrIncompatible => "Pairing was denied or the peer uses an incompatible protocol"@,
        PairingError::IdentityMismatch => "Pairing response identity did not match the selected device"@,
        PairingError::NonceMismatch => "Pairing response did not match this request"@,
        PairingError::InvalidEncoding { field } => "Invalid "@ + field_label(field),
        PairingError::InvalidLength { field, expected, received } => "Invalid "@ + field_label(field)
            + " length: expected "@ + dec_digits(expected as nat) + ", received "@ + dec_digits(
            received as nat,
        ),
        PairingError::RequestSignatureInvalid => "Pairing request signature verification failed"@,
        PairingError::ResponseSignatureInvalid => "Pairing response signature verification failed"@,
        PairingError::KeysNotRegistered => "Identity keys are not registered"@,
    }
}

impl PairingError {
    /// The text the application reports for this error.
    pub fn message(&self) -> (r: String)
        ensures
            r@ == error_text(*self),
    {
        match self {
            PairingError::ExpectedRequest => String::from_str("Expected pairing request"),
            PairingError::UnexpectedMessage => String::from_str(
                "Peer returned an unexpected pairing message",
            ),
            PairingError::IncompatibleProtocol => String::from_str("Incompatible pairing protocol"),
            PairingError::DeniedOrIncompatible => String::from_str(
                "Pairing was denied or the peer uses an incompatible protocol",
            ),
            PairingError::IdentityMismatch => String::from_str(
                "Pairing response identity did not match the selected device",
            ),
            PairingError::NonceMismatch => String::from_str(
                "Pairing response did not match this request",
            ),
            PairingError::InvalidEncoding { field } => {
                let mut m = String::from_str("Invalid ");
                m.append(field_label_exec(*field));
                m
            },
            PairingError::InvalidLength { field, expected, received } => {
                let mut m = String::from_str("Invalid ");
                m.append(field_label_exec(*field));
                m.append(" length: expected ");
                push_decimal(&mut m, *expected as u64);
                m.append(", received ");
                push_decimal(&mut m, *received as u64);
                m
            },
            PairingError::RequestSignatureInvalid => String::from_str(
                "Pairing request signature verification failed",
            ),
            PairingError::ResponseSignatureInvalid => String::from_str(
                "Pairing response signature verification failed",
            ),
            PairingError::KeysNotRegistered => String::from_str("Identity keys are not registered"),
        }
    }
}

/// Decoding one fixed-length Base64 field.
pub open spec fn field_check(text: Seq<char>, n: nat, field: PairingField) -> Result<
    Seq<u8>,
    PairingError,
> {
    match base64_decoding(text) {
        None => Err(PairingError::InvalidEncoding { field }),
        Some(b) => if b.len() == n {
            Ok(b)
        } else {
            Err(
                PairingError::InvalidLength {
                    field,
                    expected: n as usize,
                    received: b.len() as usize,
                },
            )
        },
    }
}

fn decode_field<const N: usize>(text: &String, field: PairingField) -> (r: Result<
    [u8; N],
    PairingError,
>)
    ensures
        r matches Ok(a) ==> field_check(text@, N as nat, field) == Ok::<Seq<u8>, PairingError>(a@),
        r matches Err(e) ==> field_check(text@, N as nat, field) == Err::<Seq<u8>, PairingError>(e),
{
    match base64_decode(text.as_str()) {
        None => Err(PairingError::InvalidEncoding { field }),
        Some(bytes) => {
            let received = bytes.len();
            match decode_fixed::<N>(bytes, field_label_exec(field)) {
                Ok(a) => Ok(a),
                Err(_) => Err(PairingError::InvalidLength { field, expected: N, received }),
            }
        },
    }
}

fn bytes32_eq(a: &[u8; 32], b: &[u8; 32]) -> (r: bool)
    ensures
        r == (a@ == b@),
{
    let mut i: usize = 0;
    while i < 32
        invariant
            i <= 32,
            a@.len() == 32,
            b@.len() == 32,
            forall|j: int| 0 <= j < i ==> a@[j] == b@[j],
        decreases 32 - i,
    {
        if a[i] != b[i] {
            return false;
        }
        i = i + 1;
    }
    assert(a@ =~= b@);
    true
}

/// The checked content of a pairing request.
#[derive(Clone, Debug, PartialEq, Eq)]
pub struct VerifiedRequest {
    pub device_id: String,
    pub device_name: String,
    pub public_signing_key: [u8; 32],
    pub public_dh_key: [u8; 32],
    pub nonce: [u8; 32],
    pub fingerprint: String,
}

/// The checked content of a pairing response.
#[derive(Clone, Debug, PartialEq, Eq)]
pub struct VerifiedResponse {
    pub device_id: String,
    pub device_name: String,
    pub public_signing_key: [u8; 32],
    pub public_dh_key: [u8; 32],
    pub fingerprint: String,
}

/// What the receiver concludes of a pairing message: the requester's
/// signing key, DH key and nonce, or the first check that fails.
pub open spec fn request_check(m: PairingMessage) -> Result<(Seq<u8>, Seq<u8>, Seq<u8>), PairingError> {
    match m {
        PairingMessage::PairingResponse { .. } => Err(PairingError::ExpectedRequest),
        PairingMessage::PairingRequest {
            protocol_version,
            device_id,
            device_name,
            public_signing_key,
            public_dh_key,
            pairing_nonce,
            signature,
        } => if protocol_version != PROTOCOL_VERSION {
            Err(PairingError::IncompatibleProtocol)
        } else {
            match field_check(public_signing_key@, 32, PairingField::SigningKey) {
                Err(e) => Err(e),
                Ok(sk) => match field_check(public_dh_key@, 32, PairingField::DhKey) {
                    Err(e) => Err(e),
                    Ok(dh) => match field_check(pairing_nonce@, 32, PairingField::PairingNonce) {
                        Err(e) => Err(e),
                        Ok(nonce) => match field_check(signature@, 64, PairingField::Signature) {
                            Err(e) => Err(e),
                            Ok(sig) => if ed25519_verifies(
                                sk,
                                request_transcript(device_id@, device_name@, sk, dh, nonce),
                                sig,
                            ) {
                                Ok((sk, dh, nonce))
                            } else {
                                Err(PairingError::RequestSignatureInvalid)
                            },
                        },
                    },
                },
            }
        },
    }
}

/// Checks a received pairing request: version, field encodings and lengths,
/// and the signature over the request transcript with the advertised key.
pub fn verify_pairing_request(request: &PairingMessage) -> (r: Result<VerifiedRequest, PairingError>)
    ensures
        r matches Err(e) ==> request_check(*request) == Err::<(Seq<u8>, Seq<u8>, Seq<u8>), PairingError>(e),
        r matches Ok(v) ==> {
            &&& request_check(*request) == Ok::<(Seq<u8>, Seq<u8>, Seq<u8>), PairingError>(
                (v.public_signing_key@, v.public_dh_key@, v.nonce@),
            )
            &&& request matches PairingMessage::PairingRequest { device_id, device_name, .. }
            &&& v.device_id == device_id
            &&& v.device_name == device_name
            &&& v.fingerprint@ == fingerprint_text(sha256_digest(v.public_signing_key@))
        },
{
    match request {
        PairingMessage::PairingResponse { .. } => Err(PairingError::ExpectedRequest),
        PairingMessage::PairingRequest {
            protocol_version,
            device_id,
            device_name,
            public_signing_key,
            public_dh_key,
            pairing_nonce,
            signature,
        } => {
            if *protocol_version != PROTOCOL_VERSION {
                return Err(PairingError::IncompatibleProtocol);
            }
            let sk = decode_field::<32>(public_signing_key, PairingField::SigningKey)?;
            let dh = decode_field::<32>(public_dh_key, PairingField::DhKey)?;
            let nonce = decode_field::<32>(pairing_nonce, PairingField::PairingNonce)?;
            let sig = decode_field::<64>(signature, PairingField::Signature)?;
            let transcript = pairing_request_transcript(
                device_id.as_str(),
                device_name.as_str(),
                sk.as_slice(),
                dh.as_slice(),
                nonce.as_slice(),
            );
            if !verify_message_signature(&sk, transcript.as_slice(), &sig) {
                return Err(PairingError::RequestSignatureInvalid);
            }
            let fp = fingerprint(sk.as_slice());
            Ok(
                VerifiedRequest {
                    device_id: device_id.clone(),
                    device_name: device_name.clone(),
                    public_signing_key: sk,
                    public_dh_key: dh,
                    nonce,
                    fingerprint: fp,
                },
            )
        },
    }
}

/// A pairing request whose fields decode to the given keys, nonce and
/// signature.
pub open spec fn request_carries(
    m: PairingMessage,
    pk: Seq<u8>,
    dh: Seq<u8>,
    nonce: Seq<u8>,
    sig: Seq<u8>,
) -> bool {
    &&& m matches PairingMessage::PairingRequest {
        protocol_version,
        public_signing_key,
        public_dh_key,
        pairing_nonce,
        signature,
        ..
    }
    &&& protocol_version == PROTOCOL_VERSION
    &&& base64_decoding(public_signing_key@) == Some(pk)
    &&& base64_decoding(public_dh_key@) == Some(dh)
    &&& base64_decoding(pairing_nonce@) == Some(nonce)
    &&& base64_decoding(signature@) == Some(sig)
    &&& pk.len() == 32
    &&& dh.len() == 32
    &&& nonce.len() == 32
    &&& sig.len() == 64
}

/// What `build_pairing_request` produces for this device's identity.
pub open spec fn built_request(
    m: PairingMessage,
    seed: Seq<u8>,
    dh_secret: Seq<u8>,
    nonce: Seq<u8>,
    device_id: Seq<char>,
    device_name: Seq<char>,
) -> bool {
    let pk = ed25519_public_key(seed);
    let dh = x25519_public_key(dh_secret);
    let sig = ed25519_signature(seed, request_transcript(device_id, device_name, pk, dh, nonce));
    &&& request_carries(m, pk, dh, nonce, sig)
    &&& m matches PairingMessage::PairingRequest {
        device_id: id,
        device_name: name,
        public_signing_key,
        public_dh_key,
        pairing_nonce,
        signature,
        ..
    }
    &&& id@ == device_id
    &&& name@ == device_name
    &&& public_signing_key@ == base64_encoding(pk)
    &&& public_dh_key@ == base64_encoding(dh)
    &&& pairing_nonce@ == base64_encoding(nonce)
    &&& signature@ == base64_encoding(sig)
    &&& ed25519_verifies(pk, request_transcript(device_id, device_name, pk, dh, nonce), sig)
}

/// Builds and signs this device's pairing request with `request_nonce`.
pub fn build_pairing_request(
    keys: &IdentityKeys,
    request_nonce: &[u8; 32],
    local_device_id: &str,
    local_device_name: &str,
) -> (r: Result<PairingMessage, PairingError>)
    ensures
        (keys.signing_seed is None || keys.dh_secret is None) ==> r == Err::<
            PairingMessage,
            PairingError,
        >(PairingError::KeysNotRegistered),
        (keys.signing_seed is Some && keys.dh_secret is Some) ==> (r matches Ok(m) && built_request(
            m,
            keys.signing_seed->0@,
            keys.dh_secret->0@,
            request_nonce@,
            local_device_id@,
            local_device_name@,
        )),
{
    let (public_signing_key, public_dh_key) = match get_my_public_keys(keys) {
        Some(p) => p,
        None => return Err(PairingError::KeysNotRegistered),
    };
    let transcript = pairing_request_transcript(
        local_device_id,
        local_device_name,
        public_signing_key.as_slice(),
        public_dh_key.as_slice(),
        request_nonce.as_slice(),
    );
    let signature = match sign_message(keys, transcript.as_slice()) {
        Ok(s) => s,
        Err(_) => return Err(PairingError::KeysNotRegistered),
    };
    let psk = base64_encode(public_signing_key.as_slice());
    let pdh = base64_encode(public_dh_key.as_slice());
    let pn = base64_encode(request_nonce.as_slice());
    let ps = base64_encode(signature.as_slice());
    proof {
        let seed = keys.signing_seed->0@;
        let pk = ed25519_public_key(seed);
        assert(public_signing_key@.len() == 32) by {
            assert(pk == public_signing_key@);
        }
    }
    Ok(
        PairingMessage::PairingRequest {
            protocol_version: PROTOCOL_VERSION,
            device_id: String::from_str(local_device_id),
            device_name: String::from_str(local_device_name),
            public_signing_key: psk,
            public_dh_key: pdh,
            pairing_nonce: pn,
            signature: ps,
        },
    )
}

/// A correctly built pairing request passes the receiver's check, which
/// recovers the sender's keys and nonce.
pub proof fn law_built_request_accepted(
    m: PairingMessage,
    seed: Seq<u8>,
    dh_secret: Seq<u8>,
    nonce: Seq<u8>,
    device_id: Seq<char>,
    device_name: Seq<char>,
)
    requires
        built_request(m, seed, dh_secret, nonce, device_id, device_name),
    ensures
        request_check(m) == Ok::<(Seq<u8>, Seq<u8>, Seq<u8>), PairingError>(
            (ed25519_public_key(seed), x25519_public_key(dh_secret), nonce),
        ),
{
}

/// The device ID that marks a pairing started from a typed-in address.
pub open spec fn manual_connection_id() -> Seq<char> {
    "manual_connection"@
}

/// What the requester concludes of the reply to its request: the
/// responder's signing and DH keys, or the first check that fails.
pub open spec fn response_check(
    m: PairingMessage,
    expected_peer_id: Seq<char>,
    request_nonce: Seq<u8>,
    local_device_id: Seq<char>,
) -> Result<(Seq<u8>, Seq<u8>), PairingError> {
    match m {
        PairingMessage::PairingRequest { .. } => Err(PairingError::UnexpectedMessage),
        PairingMessage::PairingResponse {
            protocol_version,
            status,
            device_id,
            device_name,
            public_signing_key,
            public_dh_key,
            request_nonce: echoed,
            response_nonce,
            signature,
        } => if protocol_version != PROTOCOL_VERSION || status@ != "approved"@ {
            Err(PairingError::DeniedOrIncompatible)
        } else if expected_peer_id != manual_connection_id() && device_id@ != expected_peer_id {
            Err(PairingError::IdentityMismatch)
        } else {
            match field_check(echoed@, 32, PairingField::RequestNonce) {
                Err(e) => Err(e),
                Ok(en) => if en != request_nonce {
                    Err(PairingError::NonceMismatch)
                } else {
                    match field_check(response_nonce@, 32, PairingField::ResponseNonce) {
                        Err(e) => Err(e),
                        Ok(rn) => match field_check(public_signing_key@, 32, PairingField::SigningKey) {
                            Err(e) => Err(e),
                            Ok(sk) => match field_check(public_dh_key@, 32, PairingField::DhKey) {
                                Err(e) => Err(e),
                                Ok(dh) => match field_check(signature@, 64, PairingField::Signature) {
                                    Err(e) => Err(e),
                                    Ok(sig) => if ed25519_verifies(
                                        sk,
                                        response_transcript(
                                            request_nonce,
                                            rn,
                                            local_device_id,
                                            device_id@,
                                            device_name@,
                                            sk,
                                            dh,
                                        ),
                                        sig,
                                    ) {
                                        Ok((sk, dh))
                                    } else {
                                        Err(PairingError::ResponseSignatureInvalid)
                                    },
                                },
                            },
                        },
                    }
                },
            }
        },
    }
}

/// Checks the reply to this device's pairing request: approval and
/// version, the responder's identity when a discovered device was selected,
/// the echoed nonce, field encodings and lengths, and the signature over the
/// response transcript.
pub fn verify_pairing_response(
    response: &PairingMessage,
    expected_peer_id: &str,
    request_nonce: &[u8; 32],
    local_device_id: &str,
) -> (r: Result<VerifiedResponse, PairingError>)
    ensures
        r matches Err(e) ==> response_check(*response, expected_peer_id@, request_nonce@, local_device_id@)
            == Err::<(Seq<u8>, Seq<u8>), PairingError>(e),
        r matches Ok(v) ==> {
            &&& response_check(*response, expected_peer_id@, request_nonce@, local_device_id@)
                == Ok::<(Seq<u8>, Seq<u8>), PairingError>((v.public_signing_key@, v.public_dh_key@))
            &&& response matches PairingMessage::PairingResponse { device_id, device_name, .. }
            &&& v.device_id == device_id
            &&& v.device_name == device_name
            &&& v.fingerprint@ == fingerprint_text(sha256_digest(v.public_signing_key@))
        },
{
    match response {
        PairingMessage::PairingRequest { .. } => Err(PairingError::UnexpectedMessage),
        PairingMessage::PairingResponse {
            protocol_version,
            status,
            device_id,
            device_name,
            public_signing_key,
            public_dh_key,
            request_nonce: echoed,
            response_nonce,
            signature,
        } => {
            let approved = String::from_str("approved");
            if *protocol_version != PROTOCOL_VERSION || !(*status == approved) {
                return Err(PairingError::DeniedOrIncompatible);
            }
            let expected = String::from_str(expected_peer_id);
            let manual = String::from_str("manual_connection");
            if !(expected == manual) && !(*device_id == expected) {
                return Err(PairingError::IdentityMismatch);
            }
            let echoed_nonce = decode_field::<32>(echoed, PairingField::RequestNonce)?;
            if !bytes32_eq(&echoed_nonce, request_nonce) {
                return Err(PairingError::NonceMismatch);
            }
            let rn = decode_field::<32>(response_nonce, PairingField::ResponseNonce)?;
            let sk = decode_field::<32>(public_signing_key, PairingField::SigningKey)?;
            let dh = decode_field::<32>(public_dh_key, PairingField::DhKey)?;
            let sig = decode_field::<64>(signature, PairingField::Signature)?;
            let transcript = pairing_response_transcript(
                request_nonce.as_slice(),
                rn.as_slice(),
                local_device_id,
                device_id.as_str(),
                device_name.as_str(),
                sk.as_slice(),
                dh.as_slice(),
            );
            if !verify_message_signature(&sk, transcript.as_slice(), &sig) {
                return Err(PairingError::ResponseSignatureInvalid);
            }
            let fp = fingerprint(sk.as_slice());
            Ok(
                VerifiedResponse {
                    device_id: device_id.clone(),
                    device_name: device_name.clone(),
                    public_signing_key: sk,
                    public_dh_key: dh,
                    fingerprint: fp,
                },
            )
        },
    }
}

/// What `build_pairing_response` produces for this device's identity.
pub open spec fn built_response(
    m: PairingMessage,
    seed: Seq<u8>,
    dh_secret: Seq<u8>,
    approved: bool,
    request_nonce: Seq<u8>,
    response_nonce: Seq<u8>,
    requester_id: Seq<char>,
    responder_id: Seq<char>,
    responder_name: Seq<char>,
) -> bool {
    let pk = ed25519_public_key(seed);
    let dh = x25519_public_key(dh_secret);
    let t = response_transcript(
        request_nonce,
        response_nonce,
        requester_id,
        responder_id,
        responder_name,
        pk,
        dh,
    );
    let sig = ed25519_signature(seed, t);
    &&& m matches PairingMessage::PairingResponse {
        protocol_version,
        status,
        device_id,
        device_name,
        public_signing_key,
        public_dh_key,
        request_nonce: echoed,
        response_nonce: rn,
        signature,
    }
    &&& protocol_version == PROTOCOL_VERSION
    &&& status@ == (if approved { "approved"@ } else { "denied"@ })
    &&& device_id@ == responder_id
    &&& device_name@ == responder_name
    &&& public_signing_key@ == base64_encoding(pk)
    &&& public_dh_key@ == base64_encoding(dh)
    &&& echoed@ == base64_encoding(request_nonce)
    &&& rn@ == base64_encoding(response_nonce)
    &&& signature@ == base64_encoding(sig)
    &&& base64_decoding(public_signing_key@) == Some(pk)
    &&& base64_decoding(public_dh_key@) == Some(dh)
    &&& base64_decoding(echoed@) == Some(request_nonce)
    &&& base64_decoding(rn@) == Some(response_nonce)
    &&& base64_decoding(signature@) == Some(sig)
    &&& pk.len() == 32
    &&& dh.len() == 32
    &&& sig.len() == 64
    &&& ed25519_verifies(pk, t, sig)
}

/// Builds and signs this device's answer to a verified pairing request.
pub fn build_pairing_response(
    keys: &IdentityKeys,
    approved: bool,
    request: &VerifiedRequest,
    response_nonce: &[u8; 32],
    local_device_id: &str,
    local_device_name: &str,
) -> (r: Result<PairingMessage, PairingError>)
    ensures
        (keys.signing_seed is None || keys.dh_secret is None) ==> r == Err::<
            PairingMessage,
            PairingError,
        >(PairingError::KeysNotRegistered),
        (keys.signing_seed is Some && keys.dh_secret is Some) ==> (r matches Ok(m) && built_response(
            m,
            keys.signing_seed->0@,
            keys.dh_secret->0@,
            approved,
            request.nonce@,
            response_nonce@,
            request.device_id@,
            local_device_id@,
            local_device_name@,
        )),
{
    let (public_signing_key, public_dh_key) = match get_my_public_keys(keys) {
        Some(p) => p,
        None => return Err(PairingError::KeysNotRegistered),
    };
    let transcript = pairing_response_transcript(
        request.nonce.as_slice(),
        response_nonce.as_slice(),
        request.device_id.as_str(),
        local_device_id,
        local_device_name,
        public_signing_key.as_slice(),
        public_dh_key.as_slice(),
    );
    let signature = match sign_message(keys, transcript.as_slice()) {
        Ok(s) => s,
        Err(_) => return Err(PairingError::KeysNotRegistered),
    };
    let status = if approved {
        String::from_str("approved")
    } else {
        String::from_str("denied")
    };
    Ok(
        PairingMessage::PairingResponse {
            protocol_version: PROTOCOL_VERSION,
            status,
            device_id: String::from_str(local_device_id),
            device_name: String::from_str(local_device_name),
            public_signing_key: base64_encode(public_signing_key.as_slice()),
            public_dh_key: base64_encode(public_dh_key.as_slice()),
            request_nonce: base64_encode(request.nonce.as_slice()),
            response_nonce: base64_encode(response_nonce.as_slice()),
            signature: base64_encode(signature.as_slice()),
        },
    )
}

/// An approving response built for a request passes the requester's
/// check, when the requester selected that responder (or paired by
/// address), and yields the responder's keys.
pub proof fn law_built_response_accepted(
    m: PairingMessage,
    seed: Seq<u8>,
    dh_secret: Seq<u8>,
    request_nonce: Seq<u8>,
    response_nonce: Seq<u8>,
    requester_id: Seq<char>,
    responder_id: Seq<char>,
    responder_name: Seq<char>,
    expected_peer_id: Seq<char>,
)
    requires
        built_response(
            m,
            seed,
            dh_secret,
            true,
            request_nonce,
            response_nonce,
            requester_id,
            responder_id,
            responder_name,
        ),
        request_nonce.len() == 32,
        response_nonce.len() == 32,
        expected_peer_id == manual_connection_id() || expected_peer_id == responder_id,
    ensures
        response_check(m, expected_peer_id, request_nonce, requester_id) == Ok::<
            (Seq<u8>, Seq<u8>),
            PairingError,
        >((ed25519_public_key(seed), x25519_public_key(dh_secret))),
{
}

/// A denying response is never accepted.
pub proof fn law_denied_response_rejected(
    m: PairingMessage,
    seed: Seq<u8>,
    dh_secret: Seq<u8>,
    request_nonce: Seq<u8>,
    response_nonce: Seq<u8>,
    requester_id: Seq<char>,
    responder_id: Seq<char>,
    responder_name: Seq<char>,
    expected_peer_id: Seq<char>,
)
    requires
        built_response(
            m,
            seed,
            dh_secret,
            false,
            request_nonce,
            response_nonce,
            requester_id,
            responder_id,
            responder_name,
        ),
    ensures
        response_check(m, expected_peer_id, request_nonce, requester_id) == Err::<
            (Seq<u8>, Seq<u8>),
            PairingError,
        >(PairingError::DeniedOrIncompatible),
{
    reveal_strlit("approved");
    reveal_strlit("denied");
    assert("denied"@.len() != "approved"@.len());
}

/// The trust record of a requester this device approved; the requester's
/// listening port is not known.
pub fn trusted_device_from_request(request: &VerifiedRequest, paired_at: u64, ip: String) -> (r:
    TrustedDevice)
    ensures
        r.device_id == request.device_id,
        r.device_name == request.device_name,
        r.public_signing_key == request.public_signing_key,
        r.public_dh_key == request.public_dh_key,
        r.paired_at == paired_at,
        r.last_ip == Some(ip),
        r.last_port is None,
{
    TrustedDevice {
        device_id: request.device_id.clone(),
        device_name: request.device_name.clone(),
        public_signing_key: request.public_signing_key,
        public_dh_key: request.public_dh_key,
        paired_at,
        last_ip: Some(ip),
        last_port: None,
    }
}

/// The trust record of a responder this device approved, reachable at the
/// address the pairing connection used.
pub fn trusted_device_from_response(
    response: &VerifiedResponse,
    paired_at: u64,
    ip: String,
    port: u16,
) -> (r: TrustedDevice)
    ensures
        r.device_id == response.device_id,
        r.device_name == response.device_name,
        r.public_signing_key == response.public_signing_key,
        r.public_dh_key == response.public_dh_key,
        r.paired_at == paired_at,
        r.last_ip == Some(ip),
        r.last_port == Some(port),
{
    TrustedDevice {
        device_id: response.device_id.clone(),
        device_name: response.device_name.clone(),
        public_signing_key: response.public_signing_key,
        public_dh_key: response.public_dh_key,
        paired_at,
        last_ip: Some(ip),
        last_port: Some(port),
    }
}

/// A fresh pairing nonce from the thread-local random generator; nothing is
/// stated of its value.
pub fn random_nonce() -> (r: [u8; 32]) {
    random_bytes::<32>()
}

/// The trust record of an approved requester.
pub open spec fn request_record(request: VerifiedRequest, paired_at: u64, ip: String) -> TrustedDevice {
    TrustedDevice {
        device_id: request.device_id,
        device_name: request.device_name,
        public_signing_key: request.public_signing_key,
        public_dh_key: request.public_dh_key,
        paired_at,
        last_ip: Some(ip),
        last_port: None,
    }
}

/// The trust record of an approved responder.
pub open spec fn response_record(response: VerifiedResponse, paired_at: u64, ip: String, port: u16) -> TrustedDevice {
    TrustedDevice {
        device_id: response.device_id,
        device_name: response.device_name,
        public_signing_key: response.public_signing_key,
        public_dh_key: response.public_dh_key,
        paired_at,
        last_ip: Some(ip),
        last_port: Some(port),
    }
}

/// The WebSocket address a pairing connects to.
pub open spec fn pairing_url(ip: Seq<char>, port: u16) -> Seq<char> {
    "ws://"@ + ip + ":"@ + dec_digits(port as nat)
}

/// The status reported when a pairing to `ip:port` starts.
pub open spec fn pairing_start_text(ip: Seq<char>, port: u16) -> Seq<char> {
    "Initiating mutually verified pairing with "@ + pairing_url(ip, port) + "..."@
}

/// The status reported when a pairing this device started completes.
pub open spec fn pairing_completed_text(name: Seq<char>) -> Seq<char> {
    "Mutually verified pairing completed with "@ + name
}

/// The error reported when the user does not approve the responder.
pub open spec fn not_approved_text() -> Seq<char> {
    "Responder fingerprint was not approved"@
}

/// The address a pairing connects to: `ws://ip:port`.
pub fn pairing_url_text(ip: &str, port: u16) -> (r: String)
    ensures
        r@ == pairing_url(ip@, port),
{
    let mut url = String::from_str("ws://");
    url.append(ip);
    url.append(":");
    push_decimal(&mut url, port as u64);
    url
}

/// The status reported when a pairing to `ip:port` starts.
pub fn pairing_start_message(ip: &str, port: u16) -> (r: String)
    ensures
        r@ == pairing_start_text(ip@, port),
{
    let mut m = String::from_str("Initiating mutually verified pairing with ");
    let url = pairing_url_text(ip, port);
    m.append(url.as_str());
    m.append("...");
    m
}

/// The pairing time recorded at clock reading `millis` (milliseconds since
/// the Unix epoch): whole seconds since the epoch.
pub open spec fn paired_at_of(millis: u64) -> u64 {
    (millis / 1000) as u64
}

/// The last step of a pairing this device started, once the response has
/// been verified and the user has answered: when the user approved the
/// responder's fingerprint, the responder is trusted at the address the
/// pairing used and the completion status is returned; otherwise the store
/// is unchanged and the refusal is returned as the error.
pub fn complete_outgoing_pairing_at(
    store: &mut TrustStore,
    response: &VerifiedResponse,
    approved: bool,
    paired_at: u64,
    ip: String,
    port: u16,
) -> (r: Result<String, String>)
    requires
        old(store).wf(),
    ensures
        final(store).wf(),
        approved ==> final(store)@ == old(store)@.insert(
            response.device_id@,
            response_record(*response, paired_at, ip, port),
        ),
        approved ==> (r matches Ok(m) && m@ == pairing_completed_text(response.device_name@)),
        !approved ==> final(store)@ == old(store)@,
        !approved ==> (r matches Err(m) && m@ == not_approved_text()),
        final(store).clock_reading() == old(store).clock_reading(),
{
    if !approved {
        return Err(String::from_str("Responder fingerprint was not approved"));
    }
    let device = trusted_device_from_response(response, paired_at, ip, port);
    add_trusted_device(store, device);
    let mut m = String::from_str("Mutually verified pairing completed with ");
    m.append(response.device_name.as_str());
    Ok(m)
}

/// `complete_outgoing_pairing_at`, stamped with the current time: the
/// record is paired at the clock reading (kept as the store's clock
/// reading) in whole seconds.
pub fn complete_outgoing_pairing(
    store: &mut TrustStore,
    response: &VerifiedResponse,
    approved: bool,
    ip: String,
    port: u16,
) -> (r: Result<String, String>)
    requires
        old(store).wf(),
    ensures
        final(store).wf(),
        approved ==> final(store)@ == old(store)@.insert(
            response.device_id@,
            response_record(*response, paired_at_of(final(store).clock_reading()), ip, port),
        ),
        approved ==> exists|t: u64|
            final(store)@ == old(store)@.insert(
                response.device_id@,
                #[trigger] response_record(*response, t, ip, port),
            ),
        approved ==> (r matches Ok(m) && m@ == pairing_completed_text(response.device_name@)),
        !approved ==> final(store)@ == old(store)@,
        !approved ==> (r matches Err(m) && m@ == not_approved_text()),
{
    let millis = store.read_clock();
    let now = millis / 1000;
    complete_outgoing_pairing_at(store, response, approved, now, ip, port)
}

/// The last step of answering a pairing request, after the response has
/// been sent: an approved requester is trusted at the address it connected
/// from; a refused one leaves the store unchanged.
pub fn complete_incoming_pairing_at(
    store: &mut TrustStore,
    request: &VerifiedRequest,
    approved: bool,
    paired_at: u64,
    ip: String,
)
    requires
        old(store).wf(),
    ensures
        final(store).wf(),
        approved ==> final(store)@ == old(store)@.insert(
            request.device_id@,
            request_record(*request, paired_at, ip),
        ),
        !approved ==> final(store)@ == old(store)@,
        final(store).clock_reading() == old(store).clock_reading(),
{
    if approved {
        let device = trusted_device_from_request(request, paired_at, ip);
        add_trusted_device(store, device);
    }
}

/// `complete_incoming_pairing_at`, stamped with the current time: the
/// record is paired at the clock reading (kept as the store's clock
/// reading) in whole seconds.
pub fn complete_incoming_pairing(store: &mut TrustStore, request: &VerifiedRequest, approved: bool, ip: String)
    requires
        old(store).wf(),
    ensures
        final(store).wf(),
        approved ==> final(store)@ == old(store)@.insert(
            request.device_id@,
            request_record(*request, paired_at_of(final(store).clock_reading()), ip),
        ),
        approved ==> exists|t: u64|
            final(store)@ == old(store)@.insert(request.device_id@, #[trigger] request_record(*request, t, ip)),
        !approved ==> final(store)@ == old(store)@,
{
    let millis = store.read_clock();
    let now = millis / 1000;
    complete_incoming_pairing_at(store, request, approved, now, ip);
}

/// A completed pairing records its time as the clock reading in whole
/// seconds since the Unix epoch: the stored pairing time `p` of the peer
/// satisfies `p * 1000 <= reading < (p + 1) * 1000`, for a responder
/// (stored with the port the pairing used) and for a requester alike.
pub proof fn law_paired_at_is_clock_seconds(
    before: Map<Seq<char>, TrustedDevice>,
    after: TrustStore,
    response: VerifiedResponse,
    request: VerifiedRequest,
    ip: String,
    port: u16,
)
    ensures
        after@ == before.insert(
            response.device_id@,
            response_record(response, paired_at_of(after.clock_reading()), ip, port),
        ) ==> {
            &&& after@.contains_key(response.device_id@)
            &&& after@[response.device_id@].paired_at * 1000 <= after.clock_reading()
            &&& after.clock_reading() < after@[response.device_id@].paired_at * 1000 + 1000
            &&& after@[response.device_id@].last_ip == Some(ip)
            &&& after@[response.device_id@].last_port == Some(port)
        },
        after@ == before.insert(
            request.device_id@,
            request_record(request, paired_at_of(after.clock_reading()), ip),
        ) ==> {
            &&& after@.contains_key(request.device_id@)
            &&& after@[request.device_id@].paired_at * 1000 <= after.clock_reading()
            &&& after.clock_reading() < after@[request.device_id@].paired_at * 1000 + 1000
            &&& after@[request.device_id@].last_ip == Some(ip)
            &&& after@[request.device_id@].last_port is None
        },
{
    let m = after.clock_reading();
    assert((m / 1000) * 1000 <= m < (m / 1000) * 1000 + 1000) by (nonlinear_arith);
}

#[verifier::external_type_specification]
#[verifier::external_body]
#[verifier::reject_recursive_types(T)]
pub struct ExOneshotSender<T>(tokio::sync::oneshot::Sender<T>);

/// `tokio::sync::oneshot::Sender::send`: hands `approve` to the waiting
/// pairing flow and reports the verdict it handed over; a receiver that is
/// gone is ignored (whether it was still there is not stated).
#[verifier::external_body]
fn send_verdict(tx: tokio::sync::oneshot::Sender<bool>, approve: bool) -> (sent: bool)
    ensures
        sent == approve,
{
    let _ = tx.send(approve);
    approve
}

impl KeyedRecord for (String, tokio::sync::oneshot::Sender<bool>) {
    open spec fn spec_key(&self) -> Seq<char> {
        self.0@
    }

    fn record_key(&self) -> (k: &String) {
        &self.0
    }
}

/// Pairing flows waiting for the user's fingerprint verdict, one per peer,
/// and the verdicts handed to waiting flows so far, in order.
pub struct PendingPairings {
    waiting: Vec<(String, tokio::sync::oneshot::Sender<bool>)>,
    delivered: Ghost<Seq<(Seq<char>, bool)>>,
}

impl PendingPairings {
    pub closed spec fn wf(&self) -> bool {
        keys_unique(self.waiting@, key_of::<(String, tokio::sync::oneshot::Sender<bool>)>())
    }

    /// The peers with a pending verdict.
    pub closed spec fn pending(&self) -> Set<Seq<char>> {
        keyed_map(self.waiting@, key_of::<(String, tokio::sync::oneshot::Sender<bool>)>()).dom()
    }

    /// The verdicts handed to waiting flows, as (peer, verdict), in order.
    pub closed spec fn delivered(&self) -> Seq<(Seq<char>, bool)> {
        self.delivered@
    }

    pub fn new() -> (r: PendingPairings)
        ensures
            r.wf(),
            r.pending() == Set::<Seq<char>>::empty(),
            r.delivered() == Seq::<(Seq<char>, bool)>::empty(),
    {
        let r = PendingPairings { waiting: Vec::new(), delivered: Ghost(Seq::empty()) };
        assert(r.pending() =~= Set::<Seq<char>>::empty());
        r
    }
}

/// Removes the waiting flow of `peer_id`, if any.
fn take_pending(pending: &mut PendingPairings, peer_id: &String) -> (r: Option<
    tokio::sync::oneshot::Sender<bool>,
>)
    requires
        old(pending).wf(),
    ensures
        final(pending).wf(),
        final(pending).pending() == old(pending).pending().remove(peer_id@),
        final(pending).delivered() == old(pending).delivered(),
        r is Some <==> old(pending).pending().contains(peer_id@),
{
    let ghost s = pending.waiting@;
    match find_key(&pending.waiting, peer_id) {
        Some(i) => {
            let entry = pending.waiting.remove(i);
            proof {
                lemma_keyed_remove(s, key_of::<(String, tokio::sync::oneshot::Sender<bool>)>(), i as int);
                crate::keyed::lemma_keyed_index(s, key_of::<(String, tokio::sync::oneshot::Sender<bool>)>(), i as int);
                assert(pending.pending() =~= old(pending).pending().remove(peer_id@));
            }
            Some(entry.1)
        },
        None => {
            assert(pending.pending() =~= old(pending).pending().remove(peer_id@));
            None
        },
    }
}

/// Registers a flow waiting for the verdict on `peer_id`; a flow already
/// waiting for the same peer is answered with a refusal.
pub fn register_pending_pairing(
    pending: &mut PendingPairings,
    peer_id: String,
    tx: tokio::sync::oneshot::Sender<bool>,
)
    requires
        old(pending).wf(),
    ensures
        final(pending).wf(),
        final(pending).pending() == old(pending).pending().insert(peer_id@),
        old(pending).pending().contains(peer_id@) ==> final(pending).delivered() == old(
            pending,
        ).delivered().push((peer_id@, false)),
        !old(pending).pending().contains(peer_id@) ==> final(pending).delivered() == old(
            pending,
        ).delivered(),
{
    match take_pending(pending, &peer_id) {
        Some(previous) => {
            let sent = send_verdict(previous, false);
            proof {
                pending.delivered@ = pending.delivered@.push((peer_id@, sent));
            }
        },
        None => {},
    }
    let ghost s = pending.waiting@;
    assert(!pending.pending().contains(peer_id@));
    assert(!has_key(s, key_of::<(String, tokio::sync::oneshot::Sender<bool>)>(), peer_id@));
    let entry = (peer_id, tx);
    pending.waiting.push(entry);
    proof {
        lemma_keyed_push(s, key_of::<(String, tokio::sync::oneshot::Sender<bool>)>(), entry);
        assert(pending.pending() =~= old(pending).pending().insert(entry.0@));
    }
}

/// Drops the waiting flow of `peer_id` (after its verdict or timeout).
pub fn remove_pending_pairing(pending: &mut PendingPairings, peer_id: &str)
    requires
        old(pending).wf(),
    ensures
        final(pending).wf(),
        final(pending).pending() == old(pending).pending().remove(peer_id@),
        final(pending).delivered() == old(pending).delivered(),
{
    let id = peer_id.to_owned();
    let _ = take_pending(pending, &id);
}

/// Delivers the user's verdict on `device_id` to its waiting pairing flow.
/// Returns whether such a flow was waiting.
pub fn respond_to_pairing(pending: &mut PendingPairings, device_id: String, approve: bool) -> (r:
    bool)
    requires
        old(pending).wf(),
    ensures
        final(pending).wf(),
        r == old(pending).pending().contains(device_id@),
        final(pending).pending() == old(pending).pending().remove(device_id@),
        r ==> final(pending).delivered() == old(pending).delivered().push((device_id@, approve)),
        !r ==> final(pending).delivered() == old(pending).delivered(),
{
    match take_pending(pending, &device_id) {
        Some(tx) => {
            let sent = send_verdict(tx, approve);
            proof {
                pending.delivered@ = pending.delivered@.push((device_id@, sent));
            }
            true
        },
        None => false,
    }
}

} // verus!
