//! The signed-message envelope: a canonical signing input over payload,
//! associated data, timestamp and key identifier, signed with Ed25519.
use vstd::prelude::*;
use vstd::utf8::encode_utf8;
use ed25519_dalek::{Signature, Signer, SigningKey, VerifyingKey};

verus! {

#[verifier::external_type_specification]
#[verifier::external_body]
pub struct ExSignatureError(ed25519_dalek::SignatureError);

/// The Ed25519 signature that the secret key `secret` makes of `msg`.
pub uninterp spec fn ed25519_signature(secret: Seq<u8>, msg: Seq<u8>) -> Seq<u8>;

/// Whether `public` is a valid Ed25519 public key under which `sig` strictly
/// verifies as a signature of `msg`.
pub uninterp spec fn ed25519_accepts(public: Seq<u8>, msg: Seq<u8>, sig: Seq<u8>) -> bool;

/// Relies on `SigningKey::from_bytes` and `Signer::sign` of ed25519-dalek:
/// signing is deterministic, and a signature is 64 bytes.
#[verifier::external_body]
fn ed25519_sign(secret: &[u8; 32], msg: &[u8]) -> (r: Vec<u8>)
    ensures
        r@ == ed25519_signature(secret@, msg@),
        r@.len() == 64,
{
    SigningKey::from_bytes(secret).sign(msg).to_vec()
}

/// Relies on `VerifyingKey::verify_strict` of ed25519-dalek, on the key that
/// `VerifyingKey::from_bytes` reads and the signature `Signature::from_bytes` reads.
#[verifier::external_body]
fn ed25519_verify_strict(public: &[u8; 32], msg: &[u8], sig: &[u8; 64]) -> (r: Result<(), ed25519_dalek::SignatureError>)
    ensures
        (r is Ok) == ed25519_accepts(public@, msg@, sig@),
{
    VerifyingKey::from_bytes(public)?.verify_strict(msg, &Signature::from_bytes(sig))
}

/// Relies on `Signature::from_slice` of ed25519: it takes exactly the slices of
/// 64 bytes, and `to_bytes` gives those bytes back.
#[verifier::external_body]
fn signature_from_slice(b: &[u8]) -> (r: Result<[u8; 64], ed25519_dalek::SignatureError>)
    ensures
        match r {
            Ok(s) => s@ == b@,
            Err(_) => b@.len() != 64,
        },
{
    Signature::from_slice(b).map(|s| s.to_bytes())
}

/// Relies on chrono's `From<SystemTime>` for `DateTime<Utc>` and on
/// `DateTime::timestamp`: the system clock as whole seconds since the Unix
/// epoch, negative for a clock set before it; nothing is known of its value.
#[verifier::external_body]
fn now_timestamp() -> i64 {
    chrono::DateTime::<chrono::Utc>::from(std::time::SystemTime::now()).timestamp()
}

/// The eight big-endian bytes of a timestamp.
pub open spec fn be_bytes(d: i64) -> Seq<u8> {
    let u = d as u64;
    seq![
        (u >> 56u64) as u8,
        (u >> 48u64) as u8,
        (u >> 40u64) as u8,
        (u >> 32u64) as u8,
        (u >> 24u64) as u8,
        (u >> 16u64) as u8,
        (u >> 8u64) as u8,
        u as u8,
    ]
}

/// The canonical signing input: payload, associated data, big-endian
/// timestamp and the UTF-8 key identifier, concatenated with no separators.
pub open spec fn signing_input(payload: Seq<u8>, ad: Seq<u8>, datetime: i64, key_id: Seq<char>) -> Seq<u8> {
    payload + ad + be_bytes(datetime) + encode_utf8(key_id)
}

/// Why an envelope failed to verify.
#[derive(PartialEq, Eq, Structural, Debug, Clone, Copy)]
pub enum VerificationError {
    /// The signature field is not an Ed25519 signature (not 64 bytes).
    MalformedSignature,
    /// The signature does not verify over the envelope's contents.
    BadSignature,
}

/// An Ed25519 public key, as its 32 encoded bytes.
pub struct PublicKey {
    pub_key: [u8; 32],
}

impl PublicKey {
    /// The encoded key.
    pub closed spec fn bytes(&self) -> Seq<u8> {
        self.pub_key@
    }

    /// A public key from its 32 encoded bytes.
    pub fn new(pub_key: [u8; 32]) -> (r: Self)
        ensures
            r.bytes() == pub_key@,
    {
        PublicKey { pub_key }
    }
}

/// A signing key with the identifier that its envelopes carry.
pub struct Key {
    secret: [u8; 32],
    id: String,
}

impl Key {
    /// The 32-byte Ed25519 secret.
    pub closed spec fn secret(&self) -> Seq<u8> {
        self.secret@
    }

    /// The key identifier.
    pub closed spec fn id(&self) -> Seq<char> {
        self.id@
    }

    /// A key from its 32-byte Ed25519 secret and its identifier.
    pub fn new(secret: [u8; 32], id: String) -> (r: Self)
        ensures
            r.secret() == secret@,
            r.id() == id@,
    {
        Key { secret, id }
    }

    /// Signs `payload` with associated data `ad`, stamped with `datetime`.
    pub fn sign_at(&self, payload: Vec<u8>, ad: Vec<u8>, datetime: i64) -> (r: SignedMsg)
        ensures
            signed_by(r, self.secret(), self.id(), payload@, ad@, datetime),
    {
        let mut buffer: Vec<u8> = Vec::new();
        append_bytes(&mut buffer, payload.as_slice());
        append_bytes(&mut buffer, ad.as_slice());
        let stamp = timestamp_bytes(datetime);
        append_bytes(&mut buffer, stamp.as_slice());
        append_bytes(&mut buffer, self.id.as_str().as_bytes());
        let signature = ed25519_sign(&self.secret, buffer.as_slice());
        SignedMsg { payload, ad, key_id: self.id.clone(), datetime, signature }
    }

    /// Signs `payload` with associated data `ad`, stamped with the current time.
    pub fn sign_with_ad(&self, payload: Vec<u8>, ad: Vec<u8>) -> (r: SignedMsg)
        ensures
            signed_by(r, self.secret(), self.id(), payload@, ad@, r.datetime),
    {
        let datetime = now_timestamp();
        self.sign_at(payload, ad, datetime)
    }

    /// Signs `data` with no associated data, stamped with the current time.
    pub fn sign(&self, data: Vec<u8>) -> (r: SignedMsg)
        ensures
            signed_by(r, self.secret(), self.id(), data@, Seq::empty(), r.datetime),
    {
        let ad = Vec::new();
        self.sign_with_ad(data, ad)
    }
}

/// `m` carries `payload`, `ad`, `key_id` and `datetime`, with the signature
/// that `secret` makes of their canonical signing input.
pub open spec fn signed_by(
    m: SignedMsg,
    secret: Seq<u8>,
    key_id: Seq<char>,
    payload: Seq<u8>,
    ad: Seq<u8>,
    datetime: i64,
) -> bool {
    &&& m.payload@ == payload
    &&& m.ad@ == ad
    &&& m.key_id@ == key_id
    &&& m.datetime == datetime
    &&& m.signature@ == ed25519_signature(secret, signing_input(payload, ad, datetime, key_id))
    &&& m.signature@.len() == 64
}

/// An authenticated envelope.
pub struct SignedMsg {
    pub payload: Vec<u8>,
    pub ad: Vec<u8>,
    pub key_id: String,
    pub datetime: i64,
    pub signature: Vec<u8>,
}

/// What verifying `m` under the public key `public` gives: the payload, or
/// why it was rejected.
pub open spec fn verify_outcome(m: SignedMsg, public: Seq<u8>) -> Result<Seq<u8>, VerificationError> {
    if m.signature@.len() != 64 {
        Err(VerificationError::MalformedSignature)
    } else if !ed25519_accepts(public, signing_input(m.payload@, m.ad@, m.datetime, m.key_id@), m.signature@) {
        Err(VerificationError::BadSignature)
    } else {
        Ok(m.payload@)
    }
}

impl SignedMsg {
    /// Checks the signature over the envelope's own fields and, when it holds,
    /// hands out the payload.
    pub fn verify(&self, key: &PublicKey) -> (r: Result<&[u8], VerificationError>)
        ensures
            match r {
                Ok(p) => verify_outcome(*self, key.bytes()) == Ok::<Seq<u8>, VerificationError>(p@),
                Err(e) => verify_outcome(*self, key.bytes()) == Err::<Seq<u8>, VerificationError>(e),
            },
    {
        let mut buffer: Vec<u8> = Vec::new();
        append_bytes(&mut buffer, self.payload.as_slice());
        append_bytes(&mut buffer, self.ad.as_slice());
        let stamp = timestamp_bytes(self.datetime);
        append_bytes(&mut buffer, stamp.as_slice());
        append_bytes(&mut buffer, self.key_id.as_str().as_bytes());
        let signature = match signature_from_slice(self.signature.as_slice()) {
            Ok(s) => s,
            Err(_) => {
                return Err(VerificationError::MalformedSignature);
            },
        };
        match ed25519_verify_strict(&key.pub_key, buffer.as_slice(), &signature) {
            Ok(()) => Ok(self.payload.as_slice()),
            Err(_) => Err(VerificationError::BadSignature),
        }
    }

    /// The identifier of the key that signed the envelope.
    pub fn get_key_id(&self) -> (r: &str)
        ensures
            r@ == self.key_id@,
    {
        self.key_id.as_str()
    }
}

/// Appends `src` to `buf`.
fn append_bytes(buf: &mut Vec<u8>, src: &[u8])
    ensures
        final(buf)@ == old(buf)@ + src@,
{
    let mut i: usize = 0;
    while i < src.len()
        invariant
            i <= src@.len(),
            buf@ == old(buf)@ + src@.subrange(0, i as int),
        decreases src@.len() - i,
    {
        buf.push(src[i]);
        i = i + 1;
        proof {
            assert(src@.subrange(0, i as int) =~= src@.subrange(0, i - 1) + seq![src@[i - 1]]);
        }
    }
    proof {
        assert(src@.subrange(0, src@.len() as int) =~= src@);
    }
}

/// The big-endian bytes of a timestamp.
fn timestamp_bytes(d: i64) -> (r: Vec<u8>)
    ensures
        r@ == be_bytes(d),
{
    let u = d as u64;
    let mut r: Vec<u8> = Vec::new();
    r.push((u >> 56u64) as u8);
    r.push((u >> 48u64) as u8);
    r.push((u >> 40u64) as u8);
    r.push((u >> 32u64) as u8);
    r.push((u >> 24u64) as u8);
    r.push((u >> 16u64) as u8);
    r.push((u >> 8u64) as u8);
    r.push(u as u8);
    proof {
        assert(r@ =~= be_bytes(d));
    }
    r
}

/// An envelope signed over `payload`, `ad`, `key_id` and `datetime` verifies
/// to its payload exactly when Ed25519 accepts the signature that was made over
/// the same canonical input; it is never rejected as malformed.
pub proof fn sign_then_verify(
    m: SignedMsg,
    secret: Seq<u8>,
    key_id: Seq<char>,
    payload: Seq<u8>,
    ad: Seq<u8>,
    datetime: i64,
    public: Seq<u8>,
)
    requires
        signed_by(m, secret, key_id, payload, ad, datetime),
    ensures
        verify_outcome(m, public) == if ed25519_accepts(
            public,
            signing_input(payload, ad, datetime, key_id),
            ed25519_signature(secret, signing_input(payload, ad, datetime, key_id)),
        ) {
            Ok::<Seq<u8>, VerificationError>(payload)
        } else {
            Err::<Seq<u8>, VerificationError>(VerificationError::BadSignature)
        },
{
}

/// The bytes that a data-plane envelope carries as associated data: its label.
pub struct AdditionalData {
    pub label: crate::Label,
}

impl AdditionalData {
    /// Associated data holding `label`.
    pub fn new(label: crate::Label) -> (r: Self)
        ensures
            r.label == label,
    {
        AdditionalData { label }
    }
}

/// The key identifier and time of a signature, as carried beside a payload.
pub struct AD {
    pub key_id: String,
    pub datetime: i64,
}

/// An announcement that `topic` carries `label`.
pub struct LabeledInfo {
    pub topic: String,
    pub label: crate::Label,
}

impl LabeledInfo {
    /// The announcement that `topic` carries `label`.
    pub fn new(topic: &str, label: crate::Label) -> (r: Self)
        ensures
            r.topic@ == topic@,
            r.label == label,
    {
        LabeledInfo { topic: topic.to_owned(), label }
    }
}

} // verus!
