//! Signed evidence bundles.
//!
//! - The artifact is a **self-contained JSON envelope**: the exact bundle
//!   JSON string, an Ed25519 signature over those verbatim bytes, and the
//!   public key, all in one file, verifiable from any language with no
//!   canonicalisation step.
//! - Signing keys are raw 32-byte Ed25519 seeds.
//! - Bundle identity: `{kind}--{subject}--{timestamp}` plus a SHA-256
//!   short hash.
//!
//! Serialising the bundle itself to JSON, reading key files and drawing
//! fresh keys happen at the edge.
use crate::error::{Error, Result};
use crate::sql::fingerprint::{hex, push_utf8, spec_hex, utf8};
use crate::text::decimal_chars;
use crate::text::decimal;
use base64::Engine;
use ed25519_dalek::Signer;
use ed25519_dalek::Verifier;
use sha2::Digest;
use vstd::prelude::*;
use vstd::string::StringExecFns;
use vstd::string::StringSliceAdditionalSpecFns;

verus! {

/// The SHA-256 digest of `bytes`.
pub uninterp spec fn sha256(bytes: Seq<u8>) -> Seq<u8>;

/// `sha2::Sha256::digest`; the digest is named `sha256`.
#[verifier::external_body]
fn sha256_digest(bytes: &[u8]) -> (r: [u8; 32])
    ensures
        r@ == sha256(bytes@),
{
    sha2::Sha256::digest(bytes).into()
}

/// URL-safe base64 without padding, as `base64`'s `URL_SAFE_NO_PAD` engine
/// encodes `bytes`.
pub uninterp spec fn base64url(bytes: Seq<u8>) -> Seq<char>;

/// What that engine decodes from `text`: the bytes, or the error's message.
pub uninterp spec fn base64url_decoded(text: Seq<char>) -> std::result::Result<Seq<u8>, Seq<char>>;

/// `text` decodes to exactly `bytes`.
pub open spec fn decodes_to(text: Seq<char>, bytes: Seq<u8>) -> bool {
    base64url_decoded(text) == Ok::<Seq<u8>, Seq<char>>(bytes)
}

/// `URL_SAFE_NO_PAD.encode`; the text is named `base64url`, and decoding it
/// gives the bytes back.
#[verifier::external_body]
fn b64_encode(bytes: &[u8]) -> (r: String)
    ensures
        r@ == base64url(bytes@),
        decodes_to(r@, bytes@),
{
    base64::engine::general_purpose::URL_SAFE_NO_PAD.encode(bytes)
}

/// `URL_SAFE_NO_PAD.decode`, the error by its `Display` text; the outcome is
/// named `base64url_decoded`.
#[verifier::external_body]
fn b64_decode(text: &str) -> (r: std::result::Result<Vec<u8>, String>)
    ensures
        match base64url_decoded(text@) {
            Ok(b) => r matches Ok(v) && v@ == b,
            Err(m) => r matches Err(e) && e@ == m,
        },
{
    base64::engine::general_purpose::URL_SAFE_NO_PAD.decode(text).map_err(|e| e.to_string())
}

/// The Ed25519 public key of a 32-byte seed.
pub uninterp spec fn ed25519_public(seed: Seq<u8>) -> Seq<u8>;

/// The Ed25519 signature a seed makes over a message (deterministic).
pub uninterp spec fn ed25519_signature(seed: Seq<u8>, msg: Seq<u8>) -> Seq<u8>;

/// Why 32 bytes are no Ed25519 public key (the error's `Display` text);
/// `None` when they are one.
pub uninterp spec fn ed25519_key_error(pk: Seq<u8>) -> Option<Seq<char>>;

/// A signature verifies over a message under a public key.
pub uninterp spec fn ed25519_verifies(pk: Seq<u8>, msg: Seq<u8>, sig: Seq<u8>) -> bool;

/// `SigningKey::from_bytes(seed).verifying_key()`: named `ed25519_public`;
/// a key derived from a seed is always a valid public key.
#[verifier::external_body]
fn public_key_of(seed: &[u8; 32]) -> (r: [u8; 32])
    ensures
        r@ == ed25519_public(seed@),
        ed25519_key_error(r@) is None,
{
    ed25519_dalek::SigningKey::from_bytes(seed).verifying_key().to_bytes()
}

/// `Signer::sign` of `SigningKey::from_bytes(seed)`: named
/// `ed25519_signature`; a signature made with a key verifies under its
/// public key.
#[verifier::external_body]
fn sign_bytes(seed: &[u8; 32], msg: &[u8]) -> (r: [u8; 64])
    ensures
        r@ == ed25519_signature(seed@, msg@),
        ed25519_verifies(ed25519_public(seed@), msg@, r@),
{
    ed25519_dalek::SigningKey::from_bytes(seed).sign(msg).to_bytes()
}

/// `VerifyingKey::from_bytes`, its error by `Display` text; the outcome is
/// named `ed25519_key_error`.
#[verifier::external_body]
fn key_error(pk: &[u8; 32]) -> (r: Option<String>)
    ensures
        match ed25519_key_error(pk@) {
            None => r is None,
            Some(m) => r matches Some(e) && e@ == m,
        },
{
    ed25519_dalek::VerifyingKey::from_bytes(pk).err().map(|e| e.to_string())
}

/// `Verifier::verify` under a valid public key; the outcome is named
/// `ed25519_verifies`.
#[verifier::external_body]
fn verifies(pk: &[u8; 32], msg: &[u8], sig: &[u8; 64]) -> (r: bool)
    requires
        ed25519_key_error(pk@) is None,
    ensures
        r == ed25519_verifies(pk@, msg@, sig@),
{
    let signature = ed25519_dalek::Signature::from_bytes(sig);
    ed25519_dalek::VerifyingKey::from_bytes(pk).map(|vk| vk.verify(msg, &signature).is_ok()).unwrap_or(false)
}

/// The detached-signature envelope (the single file written to disk).
#[derive(Debug, Clone)]
pub struct SignedEvidence {
    /// The exact JSON string that was signed. Verify against these bytes.
    pub bundle_json: String,
    /// URL-safe base64 (no padding) of the 64-byte Ed25519 signature.
    pub signature_b64: String,
    /// URL-safe base64 (no padding) of the 32-byte public key.
    pub public_key_b64: String,
}

/// `{kind}--{subject}--{timestamp}`.
pub fn new_bundle_id(kind: &str, subject: &str, timestamp: &str) -> (r: String)
    ensures
        r@ == kind@ + "--"@ + subject@ + "--"@ + timestamp@,
{
    let mut s = String::from_str(kind);
    s.append("--");
    s.append(subject);
    s.append("--");
    s.append(timestamp);
    s
}

/// Lower-case hex of the SHA-256 of `bytes`.
pub fn sha256_hex(bytes: &[u8]) -> (r: String)
    ensures
        r@ == spec_hex(sha256(bytes@)),
{
    let d = sha256_digest(bytes);
    hex(&d)
}

/// Short content hash for file naming: hex of the first 6 bytes of the
/// SHA-256 of the bundle JSON followed by the signature text.
pub fn short_hash(signed: &SignedEvidence) -> (r: String)
    ensures
        r@ == spec_hex(sha256(utf8(signed.bundle_json@) + utf8(signed.signature_b64@)).take(6)),
{
    let mut input: Vec<u8> = Vec::new();
    push_utf8(&mut input, signed.bundle_json.as_str());
    push_utf8(&mut input, signed.signature_b64.as_str());
    let d = sha256_digest(input.as_slice());
    let mut head: Vec<u8> = Vec::new();
    let mut i: usize = 0;
    while i < 6
        invariant
            i <= 6,
            head@ == d@.take(i as int),
        decreases 6 - i,
    {
        head.push(d[i]);
        assert(head@ =~= d@.take(i + 1));
        i = i + 1;
    }
    hex(head.as_slice())
}

/// What checking an envelope gives: `Ok` when the signature verifies over
/// the bundle's bytes under the carried public key, else the message of the
/// first check that failed.
pub open spec fn signature_check(json: Seq<char>, sig_b64: Seq<char>, pk_b64: Seq<char>) -> std::result::Result<
    (),
    Seq<char>,
> {
    match base64url_decoded(pk_b64) {
        Err(e) => Err("invalid public-key base64: "@ + e),
        Ok(pk) => if pk.len() != 32 {
            Err("public key must be 32 bytes"@)
        } else {
            match ed25519_key_error(pk) {
                Some(e) => Err("invalid public key: "@ + e),
                None => match base64url_decoded(sig_b64) {
                    Err(e) => Err("invalid signature base64: "@ + e),
                    Ok(sig) => if sig.len() != 64 {
                        Err("signature must be 64 bytes"@)
                    } else if !ed25519_verifies(pk, utf8(json), sig) {
                        Err("signature verification failed"@)
                    } else {
                        Ok(())
                    },
                },
            }
        },
    }
}

/// Sign the bundle's JSON text with a seed. What is signed checks out.
pub fn sign(bundle_json: String, seed: &[u8; 32]) -> (r: SignedEvidence)
    ensures
        r.bundle_json@ == bundle_json@,
        r.signature_b64@ == base64url(ed25519_signature(seed@, utf8(bundle_json@))),
        r.public_key_b64@ == base64url(ed25519_public(seed@)),
        signature_check(r.bundle_json@, r.signature_b64@, r.public_key_b64@) is Ok,
{
    let mut msg: Vec<u8> = Vec::new();
    push_utf8(&mut msg, bundle_json.as_str());
    assert(msg@ =~= utf8(bundle_json@));
    let sig = sign_bytes(seed, msg.as_slice());
    let pk = public_key_of(seed);
    let signature_b64 = b64_encode(&sig);
    let public_key_b64 = b64_encode(&pk);
    proof {
        assert(pk@.len() == 32);
        assert(sig@.len() == 64);
    }
    SignedEvidence { bundle_json, signature_b64, public_key_b64 }
}

fn to_array32(v: &Vec<u8>) -> (r: [u8; 32])
    requires
        v@.len() == 32,
    ensures
        r@ == v@,
{
    let mut a = [0u8; 32];
    let mut i: usize = 0;
    while i < 32
        invariant
            i <= 32,
            v@.len() == 32,
            forall|j: int| 0 <= j < i ==> a@[j] == v@[j],
        decreases 32 - i,
    {
        a[i] = v[i];
        i = i + 1;
    }
    assert(a@ =~= v@);
    a
}

fn to_array64(v: &Vec<u8>) -> (r: [u8; 64])
    requires
        v@.len() == 64,
    ensures
        r@ == v@,
{
    let mut a = [0u8; 64];
    let mut i: usize = 0;
    while i < 64
        invariant
            i <= 64,
            v@.len() == 64,
            forall|j: int| 0 <= j < i ==> a@[j] == v@[j],
        decreases 64 - i,
    {
        a[i] = v[i];
        i = i + 1;
    }
    assert(a@ =~= v@);
    a
}

fn evidence_error(prefix: &str, detail: &str) -> (r: Error)
    ensures
        r matches Error::Evidence(m) && m@ == prefix@ + detail@,
{
    let mut m = String::from_str(prefix);
    m.append(detail);
    Error::Evidence(m)
}

/// Check an envelope's signature. Any tampering with `bundle_json`, even
/// whitespace, fails.
pub fn check_signature(signed: &SignedEvidence) -> (r: Result<()>)
    ensures
        match signature_check(signed.bundle_json@, signed.signature_b64@, signed.public_key_b64@) {
            Ok(()) => r is Ok,
            Err(m) => r matches Err(Error::Evidence(e)) && e@ == m,
        },
{
    let pk = match b64_decode(signed.public_key_b64.as_str()) {
        Ok(b) => b,
        Err(e) => {
            return Err(evidence_error("invalid public-key base64: ", e.as_str()));
        },
    };
    if pk.len() != 32 {
        return Err(Error::Evidence(String::from_str("public key must be 32 bytes")));
    }
    let pk = to_array32(&pk);
    match key_error(&pk) {
        Some(e) => {
            return Err(evidence_error("invalid public key: ", e.as_str()));
        },
        None => {},
    }
    let sig = match b64_decode(signed.signature_b64.as_str()) {
        Ok(b) => b,
        Err(e) => {
            return Err(evidence_error("invalid signature base64: ", e.as_str()));
        },
    };
    if sig.len() != 64 {
        return Err(Error::Evidence(String::from_str("signature must be 64 bytes")));
    }
    let sig = to_array64(&sig);
    let mut msg: Vec<u8> = Vec::new();
    push_utf8(&mut msg, signed.bundle_json.as_str());
    assert(msg@ =~= utf8(signed.bundle_json@));
    if !verifies(&pk, msg.as_slice(), &sig) {
        return Err(Error::Evidence(String::from_str("signature verification failed")));
    }
    Ok(())
}

/// A key file's bytes as an Ed25519 seed: exactly 32 of them.
pub fn seed_from_bytes(bytes: &[u8], shown_path: &str) -> (r: Result<[u8; 32]>)
    ensures
        bytes@.len() == 32 ==> (r matches Ok(s) && s@ == bytes@),
        bytes@.len() != 32 ==> (r matches Err(Error::Evidence(m)) && m@ == "signing key at "@
            + shown_path@ + " must be exactly 32 bytes (got "@ + decimal(bytes@.len()) + ")"@),
{
    if bytes.len() != 32 {
        let mut m = String::from_str("signing key at ");
        m.append(shown_path);
        m.append(" must be exactly 32 bytes (got ");
        let n = crate::text::from_chars(decimal_chars(bytes.len() as u64).as_slice());
        m.append(n.as_str());
        m.append(")");
        return Err(Error::Evidence(m));
    }
    let mut v: Vec<u8> = Vec::new();
    let mut i: usize = 0;
    while i < 32
        invariant
            i <= 32,
            bytes@.len() == 32,
            v@ == bytes@.take(i as int),
        decreases 32 - i,
    {
        v.push(bytes[i]);
        assert(v@ =~= bytes@.take(i + 1));
        i = i + 1;
    }
    assert(bytes@.take(32) =~= bytes@);
    Ok(to_array32(&v))
}

} // verus!
