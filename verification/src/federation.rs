//! Federation between trusted peer vaults: peer records and HMAC-SHA256
//! request signing with a replay window.
//!
//! The signed message is `"{timestamp}\n{body}"`; the signature travels as
//! standard base64.

use vstd::prelude::*;
use crate::clock::{now_unix_millis, now_unix_seconds};
use crate::crypto::{
    b64_encode, b64_standard_decode, b64_standard_encode, hmac_sha256, hmac_sha256_tag,
    hmac_sha256_verify,
};
use crate::ids::new_uuid_v7;
use crate::text::{char_pred, chars_of, decimal_chars, decimal_text, drop_back, string_from_chars};

verus! {

/// HTTP header carrying the HMAC-SHA256 signature (base64).
pub const SIGNATURE_HEADER: &'static str = "x-mindvault-signature";

/// HTTP header carrying the Unix timestamp used in the signature.
pub const TIMESTAMP_HEADER: &'static str = "x-mindvault-timestamp";

/// HTTP header carrying the sender's vault ID (for peer lookup).
pub const VAULT_ID_HEADER: &'static str = "x-mindvault-vault-id";

/// Maximum acceptable clock skew between peers (5 minutes).
pub const MAX_CLOCK_SKEW_SECS: i64 = 300;

/// Decimal text of a signed integer, `-` first when negative.
pub open spec fn signed_decimal_text(i: int) -> Seq<char> {
    if i < 0 {
        seq!['-'] + decimal_text((-i) as nat)
    } else {
        decimal_text(i as nat)
    }
}

/// ASCII bytes of ASCII text.
pub open spec fn ascii_bytes(s: Seq<char>) -> Seq<u8> {
    s.map_values(|c: char| c as u8)
}

/// The message a federation request signature covers: `"{timestamp}\n{body}"`.
pub open spec fn signing_message(timestamp: i64, body: Seq<u8>) -> Seq<u8> {
    ascii_bytes(signed_decimal_text(timestamp as int)) + seq![10u8] + body
}

/// The base64 signature of a request body at a timestamp.
pub open spec fn request_signature(secret: Seq<u8>, timestamp: i64, body: Seq<u8>) -> Seq<char> {
    b64_encode(hmac_sha256_tag(secret, signing_message(timestamp, body)), false, true)
}

/// Whether a request timestamp lies within the replay window around `now`.
pub open spec fn within_skew(now: int, timestamp: int) -> bool {
    -300 <= now - timestamp <= 300
}

/// The bytes of `signing_message`.
pub fn signing_message_bytes(timestamp: i64, body: &[u8]) -> (m: Vec<u8>)
    ensures
        m@ == signing_message(timestamp, body@),
{
    let mut text: Vec<char> = Vec::new();
    let magnitude: u64;
    if timestamp < 0 {
        text.push('-');
        magnitude = (0i128 - timestamp as i128) as u64;
    } else {
        magnitude = timestamp as u64;
    }
    let digits = decimal_chars(magnitude);
    let mut k: usize = 0;
    while k < digits.len()
        invariant
            k <= digits@.len(),
            digits@ == decimal_text(magnitude as nat),
            text@ == (if timestamp < 0 { seq!['-'] } else { Seq::empty() }) + digits@.take(k as int),
        decreases digits.len() - k,
    {
        proof {
            assert(digits@.take(k + 1) =~= digits@.take(k as int).push(digits@[k as int]));
        }
        text.push(digits[k]);
        k += 1;
    }
    proof {
        assert(digits@.take(digits@.len() as int) =~= digits@);
        assert(text@ =~= signed_decimal_text(timestamp as int));
    }
    let mut m: Vec<u8> = Vec::new();
    let mut i: usize = 0;
    while i < text.len()
        invariant
            i <= text@.len(),
            text@ == signed_decimal_text(timestamp as int),
            m@ == ascii_bytes(text@.take(i as int)),
        decreases text.len() - i,
    {
        proof {
            assert(ascii_bytes(text@.take(i + 1)) =~= ascii_bytes(text@.take(i as int)).push(text@[i as int] as u8));
        }
        m.push(text[i] as u8);
        i += 1;
    }
    proof { assert(text@.take(text@.len() as int) =~= text@); }
    m.push(10u8);
    let mut j: usize = 0;
    while j < body.len()
        invariant
            j <= body@.len(),
            m@ == ascii_bytes(signed_decimal_text(timestamp as int)) + seq![10u8] + body@.take(j as int),
        decreases body.len() - j,
    {
        proof {
            assert(body@.take(j + 1) =~= body@.take(j as int).push(body@[j as int]));
        }
        m.push(body[j]);
        j += 1;
    }
    proof {
        assert(body@.take(body@.len() as int) =~= body@);
    }
    m
}

/// Signs a federation request body with HMAC-SHA256 over
/// `"{timestamp}\n{body}"`; returns the signature as standard base64.
pub fn sign_federation_request(secret: &[u8], timestamp: i64, body: &[u8]) -> (sig: String)
    ensures
        sig@ == request_signature(secret@, timestamp, body@),
{
    let message = signing_message_bytes(timestamp, body);
    let tag = hmac_sha256(secret, message.as_slice());
    b64_standard_encode(tag.as_slice())
}

/// Errors from federation request authentication.
pub enum FederationAuthError {
    /// Timestamp outside the ±5-minute window.
    TimestampExpired,
    /// Signature is malformed or does not match.
    InvalidSignature,
    /// No peer found for the given vault ID.
    UnknownPeer,
    /// Peer has no shared secret configured.
    NoSecret,
}

impl FederationAuthError {
    /// The human-readable message for this error.
    pub fn message(&self) -> (m: String)
        ensures
            m@ == match self {
                FederationAuthError::TimestampExpired => "request timestamp outside acceptable window"@,
                FederationAuthError::InvalidSignature => "HMAC signature verification failed"@,
                FederationAuthError::UnknownPeer => "unknown vault ID — peer not registered"@,
                FederationAuthError::NoSecret => "peer has no shared secret configured"@,
            },
    {
        match self {
            FederationAuthError::TimestampExpired => "request timestamp outside acceptable window".to_string(),
            FederationAuthError::InvalidSignature => "HMAC signature verification failed".to_string(),
            FederationAuthError::UnknownPeer => "unknown vault ID — peer not registered".to_string(),
            FederationAuthError::NoSecret => "peer has no shared secret configured".to_string(),
        }
    }
}

/// What verifying a request yields at time `now`: an expired timestamp first,
/// then the signature, which must be the base64 of the exact HMAC tag.
pub open spec fn verification_outcome(
    secret: Seq<u8>,
    timestamp: i64,
    body: Seq<u8>,
    signature: Seq<char>,
    now: i64,
) -> Result<(), FederationAuthError> {
    if !within_skew(now as int, timestamp as int) {
        Err(FederationAuthError::TimestampExpired)
    } else if signature == request_signature(secret, timestamp, body) {
        Ok(())
    } else {
        Err(FederationAuthError::InvalidSignature)
    }
}

/// Verifies a federation request signature as of `now` (Unix seconds).
///
/// `Ok(())` when the timestamp is within ±300 s of `now` and the signature is
/// the base64 HMAC-SHA256 of `"{timestamp}\n{body}"` under `secret`.
pub fn verify_federation_request_at(
    secret: &[u8],
    timestamp: i64,
    body: &[u8],
    signature: &str,
    now: i64,
) -> (r: Result<(), FederationAuthError>)
    ensures
        r == verification_outcome(secret@, timestamp, body@, signature@, now),
{
    let skew = now as i128 - timestamp as i128;
    if skew > 300 || skew < -300 {
        return Err(FederationAuthError::TimestampExpired);
    }
    let decoded = b64_standard_decode(signature);
    let sig_bytes = match decoded {
        Ok(b) => b,
        Err(_) => {
            proof {
                let t = hmac_sha256_tag(secret@, signing_message(timestamp, body@));
                if signature@ == b64_encode(t, false, true) {
                    assert(decoded is Ok);
                }
            }
            return Err(FederationAuthError::InvalidSignature);
        },
    };
    let message = signing_message_bytes(timestamp, body);
    proof {
        let t = hmac_sha256_tag(secret@, signing_message(timestamp, body@));
        if signature@ == b64_encode(t, false, true) {
            assert(sig_bytes@ == t);
        }
    }
    if hmac_sha256_verify(secret, message.as_slice(), sig_bytes.as_slice()) {
        Ok(())
    } else {
        Err(FederationAuthError::InvalidSignature)
    }
}

/// Verifies a federation request signature against the current clock.
pub fn verify_federation_request(secret: &[u8], timestamp: i64, body: &[u8], signature: &str) -> (r:
    Result<(), FederationAuthError>)
    ensures
        r is Ok ==> signature@ == request_signature(secret@, timestamp, body@),
        (r matches Err(e) && e is InvalidSignature) ==> signature@ != request_signature(
            secret@,
            timestamp,
            body@,
        ),
        r matches Err(e) ==> (e is InvalidSignature || e is TimestampExpired),
{
    let now = now_unix_seconds();
    verify_federation_request_at(secret, timestamp, body, signature, now)
}

/// Signing then verifying within the replay window succeeds.
pub proof fn lemma_sign_then_verify(secret: Seq<u8>, timestamp: i64, body: Seq<u8>, now: i64)
    requires
        within_skew(now as int, timestamp as int),
    ensures
        verification_outcome(secret, timestamp, body, request_signature(secret, timestamp, body), now)
            == Ok::<(), FederationAuthError>(()),
{
}

/// A trusted federation peer. Times are Unix milliseconds.
pub struct FederationPeer {
    pub id: u128,
    pub vault_id: String,
    pub display_name: String,
    pub endpoint: String,
    pub public_key: Option<String>,
    pub allowed_namespaces: Vec<String>,
    pub max_results: usize,
    pub enabled: bool,
    pub last_seen: Option<i64>,
    pub created_at: i64,
    /// HMAC-SHA256 shared secret for request signing (never serialized).
    pub shared_secret: Option<String>,
}

impl FederationPeer {
    /// A new enabled peer with no key, no namespaces, at most 50 results, and
    /// no shared secret.
    pub fn new(vault_id: &str, display_name: &str, endpoint: &str) -> (p: Self)
        ensures
            p.vault_id@ == vault_id@,
            p.display_name@ == display_name@,
            p.endpoint@ == endpoint@,
            p.public_key is None,
            p.allowed_namespaces@.len() == 0,
            p.max_results == 50,
            p.enabled,
            p.last_seen is None,
            p.shared_secret is None,
    {
        FederationPeer {
            id: new_uuid_v7(),
            vault_id: vault_id.to_string(),
            display_name: display_name.to_string(),
            endpoint: endpoint.to_string(),
            public_key: None,
            allowed_namespaces: Vec::new(),
            max_results: 50,
            enabled: true,
            last_seen: None,
            created_at: now_unix_millis(),
            shared_secret: None,
        }
    }

    /// Base URL for this peer's REST API: the endpoint without trailing `/`.
    pub fn api_base(&self) -> (b: String)
        ensures
            b@ == drop_back(self.endpoint@, char_pred('/')),
    {
        let cs = chars_of(self.endpoint.as_str());
        let mut j = cs.len();
        while j > 0 && cs[j - 1] == '/'
            invariant
                j <= cs@.len(),
                cs@ == self.endpoint@,
                forall|k: int| j <= k < cs@.len() ==> #[trigger] cs@[k] == '/',
            decreases j,
        {
            j -= 1;
        }
        proof {
            let p = char_pred('/');
            assert forall|k: int| j <= k < cs@.len() implies p(#[trigger] cs@[k]) by {}
            crate::text::lemma_drop_back_at(cs@, p, j as int);
        }
        let v = crate::text::slice_vec(cs.as_slice(), 0, j);
        string_from_chars(v.as_slice())
    }
}

/// The signed message of a request is its timestamp in decimal (with a
/// leading `-` when negative), the newline byte 10, and then the body byte
/// for byte: nothing else is signed, and the body starts right after the
/// first newline. The signature is the padded standard base64 of the
/// HMAC-SHA256 tag of that message under the shared secret.
pub proof fn lemma_signing_message_layout(secret: Seq<u8>, timestamp: i64, body: Seq<u8>)
    ensures
        ({
            let digits = ascii_bytes(signed_decimal_text(timestamp as int));
            let m = signing_message(timestamp, body);
            &&& m == digits + seq![10u8] + body
            &&& m.len() == digits.len() + 1 + body.len()
            &&& m.take(digits.len() as int) == digits
            &&& m[digits.len() as int] == 10u8
            &&& m.skip(digits.len() + 1int) == body
            &&& request_signature(secret, timestamp, body) == b64_encode(hmac_sha256_tag(secret, digits + seq![10u8] + body), false, true)
        }),
{
    let digits = ascii_bytes(signed_decimal_text(timestamp as int));
    let m = signing_message(timestamp, body);
    assert(m.take(digits.len() as int) =~= digits);
    assert(m.skip(digits.len() + 1int) =~= body);
}

/// How a request is judged at `now`: a timestamp more than 300 seconds
/// before or after `now` is expired, whatever the signature; within that
/// window the request is accepted exactly when its signature is the padded
/// standard base64 HMAC-SHA256 tag, under the secret, of the decimal
/// timestamp, a newline and the body, and rejected as an invalid signature
/// otherwise.
pub proof fn lemma_verification_rules(secret: Seq<u8>, timestamp: i64, body: Seq<u8>, signature: Seq<char>, now: i64)
    ensures
        (now - timestamp > 300 || timestamp - now > 300)
            ==> verification_outcome(secret, timestamp, body, signature, now) == Err::<(), FederationAuthError>(FederationAuthError::TimestampExpired),
        -300 <= now - timestamp <= 300 ==> (
            verification_outcome(secret, timestamp, body, signature, now) == Ok::<(), FederationAuthError>(())
                <==> signature == b64_encode(
                    hmac_sha256_tag(secret, ascii_bytes(signed_decimal_text(timestamp as int)) + seq![10u8] + body), false, true)),
        -300 <= now - timestamp <= 300 && verification_outcome(secret, timestamp, body, signature, now) is Err
            ==> verification_outcome(secret, timestamp, body, signature, now) == Err::<(), FederationAuthError>(FederationAuthError::InvalidSignature),
{
}

} // verus!
