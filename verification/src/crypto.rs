//! Digests, MACs, base64 and randomness, through the `sha2`, `hmac`, `base64`
//! and `rand` crates.

use vstd::prelude::*;

use base64::Engine as _;
use hmac::Mac as _;
use rand::RngCore as _;
use sha2::Digest as _;

verus! {

/// SHA-256 of `data` (32 bytes), as computed by the `sha2` crate.
pub uninterp spec fn sha256_digest(data: Seq<u8>) -> Seq<u8>;

/// HMAC-SHA256 tag of `msg` under `key` (32 bytes), as computed by the `hmac`
/// crate over `sha2::Sha256`.
pub uninterp spec fn hmac_sha256_tag(key: Seq<u8>, msg: Seq<u8>) -> Seq<u8>;

/// One character of a base64 alphabet: RFC 4648 standard (`+`, `/`) or
/// URL-safe (`-`, `_`).
pub open spec fn b64_char(v: nat, url_safe: bool) -> char {
    if v < 26 {
        ((v + 65) as u32) as char
    } else if v < 52 {
        ((v - 26 + 97) as u32) as char
    } else if v < 62 {
        ((v - 52 + 48) as u32) as char
    } else if v == 62 {
        if url_safe { '-' } else { '+' }
    } else {
        if url_safe { '_' } else { '/' }
    }
}

/// Base64 encoding of `b`, with `=` padding when `pad` holds.
pub open spec fn b64_encode(b: Seq<u8>, url_safe: bool, pad: bool) -> Seq<char>
    decreases b.len(),
{
    if b.len() >= 3 {
        let n = b[0] as nat * 65536 + b[1] as nat * 256 + b[2] as nat;
        seq![
            b64_char(n / 262144, url_safe),
            b64_char((n / 4096) % 64, url_safe),
            b64_char((n / 64) % 64, url_safe),
            b64_char(n % 64, url_safe),
        ] + b64_encode(b.subrange(3, b.len() as int), url_safe, pad)
    } else if b.len() == 2 {
        let n = b[0] as nat * 65536 + b[1] as nat * 256;
        seq![
            b64_char(n / 262144, url_safe),
            b64_char((n / 4096) % 64, url_safe),
            b64_char((n / 64) % 64, url_safe),
        ] + if pad { seq!['='] } else { Seq::empty() }
    } else if b.len() == 1 {
        let n = b[0] as nat * 65536;
        seq![b64_char(n / 262144, url_safe), b64_char((n / 4096) % 64, url_safe)] + if pad {
            seq!['=', '=']
        } else {
            Seq::empty()
        }
    } else {
        Seq::empty()
    }
}

/// `Sha256::digest(data)`.
#[verifier::external_body]
pub(crate) fn sha256_bytes(data: &[u8]) -> (d: Vec<u8>)
    ensures
        d@ == sha256_digest(data@),
        d@.len() == 32,
{
    sha2::Sha256::digest(data).to_vec()
}

/// HMAC-SHA256 of `msg` under `key` (`Hmac::<Sha256>::new_from_slice`, then
/// `update` and `finalize`). HMAC accepts keys of any length.
#[verifier::external_body]
pub(crate) fn hmac_sha256(key: &[u8], msg: &[u8]) -> (tag: Vec<u8>)
    ensures
        tag@ == hmac_sha256_tag(key@, msg@),
        tag@.len() == 32,
{
    let mut mac = hmac::Hmac::<sha2::Sha256>::new_from_slice(key).expect("HMAC accepts any key length");
    mac.update(msg);
    mac.finalize().into_bytes().to_vec()
}

/// `Mac::verify_slice`: accepts exactly the tag HMAC-SHA256 computes for
/// `msg` under `key` (any other tag, of any length, is refused).
#[verifier::external_body]
pub(crate) fn hmac_sha256_verify(key: &[u8], msg: &[u8], tag: &[u8]) -> (ok: bool)
    ensures
        ok == (tag@ == hmac_sha256_tag(key@, msg@)),
{
    let mut mac = hmac::Hmac::<sha2::Sha256>::new_from_slice(key).expect("HMAC accepts any key length");
    mac.update(msg);
    mac.verify_slice(tag).is_ok()
}

/// `base64::engine::general_purpose::STANDARD.encode(bytes)`.
#[verifier::external_body]
pub(crate) fn b64_standard_encode(bytes: &[u8]) -> (s: String)
    ensures
        s@ == b64_encode(bytes@, false, true),
{
    base64::engine::general_purpose::STANDARD.encode(bytes)
}

/// `base64::engine::general_purpose::URL_SAFE_NO_PAD.encode(bytes)`.
#[verifier::external_body]
pub(crate) fn b64_url_nopad_encode(bytes: &[u8]) -> (s: String)
    ensures
        s@ == b64_encode(bytes@, true, false),
{
    base64::engine::general_purpose::URL_SAFE_NO_PAD.encode(bytes)
}

/// `STANDARD.decode(text)`: the STANDARD engine requires canonical padding and
/// rejects trailing bits, so it decodes exactly the texts its encoder
/// produces, back to the bytes they encode (decoding inverts encoding). On
/// failure the crate's error is handed back as its display text, of which
/// nothing is stated.
#[verifier::external_body]
pub(crate) fn b64_standard_decode(text: &str) -> (decoded: Result<Vec<u8>, String>)
    ensures
        decoded is Ok ==> b64_encode(decoded->Ok_0@, false, true) == text@,
        forall|b: Seq<u8>| #[trigger] b64_encode(b, false, true) == text@ ==> decoded is Ok && decoded->Ok_0@ == b,
{
    match base64::engine::general_purpose::STANDARD.decode(text) {
        Ok(bytes) => Ok(bytes),
        Err(err) => Err(err.to_string()),
    }
}

/// 32 bytes from `rand::thread_rng().fill_bytes`. Nothing is stated of their
/// values.
#[verifier::external_body]
pub(crate) fn random_bytes_32() -> (b: Vec<u8>)
    ensures
        b@.len() == 32,
{
    let mut bytes = [0u8; 32];
    rand::thread_rng().fill_bytes(&mut bytes);
    bytes.to_vec()
}

/// The base64 alphabets: `A`-`Z` for 0 to 25, `a`-`z` for 26 to 51, `0`-`9`
/// for 52 to 61, then `+` and `/` (standard) or `-` and `_` (URL-safe); no
/// two of the 64 values share a character.
pub proof fn lemma_b64_alphabet(v: nat, w: nat, url_safe: bool)
    ensures
        v < 26 ==> b64_char(v, url_safe) as u32 == 65 + v,
        26 <= v < 52 ==> b64_char(v, url_safe) as u32 == 97 + (v - 26),
        52 <= v < 62 ==> b64_char(v, url_safe) as u32 == 48 + (v - 52),
        b64_char(62, url_safe) == if url_safe { '-' } else { '+' },
        b64_char(63, url_safe) == if url_safe { '_' } else { '/' },
        v < 64 && w < 64 && v != w ==> b64_char(v, url_safe) != b64_char(w, url_safe),
{
    if v < 62 {
        let c = b64_char(v, url_safe);
        if v < 26 { assert(c as u32 == 65 + v); } else if v < 52 { assert(c as u32 == 97 + (v - 26)); } else { assert(c as u32 == 48 + (v - 52)); }
    }
    if w < 62 {
        let c = b64_char(w, url_safe);
        if w < 26 { assert(c as u32 == 65 + w); } else if w < 52 { assert(c as u32 == 97 + (w - 26)); } else { assert(c as u32 == 48 + (w - 52)); }
    }
}

/// The length of a base64 encoding: four characters for every three bytes
/// and for a last group of one or two; without padding, two characters for
/// a last byte and three for a last two bytes. Encoding bytes whose count is
/// a multiple of three and then more bytes gives the two encodings one after
/// the other.
pub proof fn lemma_b64_length(b: Seq<u8>, c: Seq<u8>, url_safe: bool, pad: bool)
    ensures
        pad ==> b64_encode(b, url_safe, pad).len() == 4 * ((b.len() + 2) / 3),
        !pad ==> b64_encode(b, url_safe, pad).len() == (4 * b.len() + 2) / 3,
        b.len() % 3 == 0 ==> b64_encode(b + c, url_safe, pad) == b64_encode(b, url_safe, pad) + b64_encode(c, url_safe, pad),
    decreases b.len(),
{
    if b.len() >= 3 {
        lemma_b64_length(b.subrange(3, b.len() as int), c, url_safe, pad);
        if b.len() % 3 == 0 {
            let bc = b + c;
            assert(bc.subrange(3, bc.len() as int) =~= b.subrange(3, b.len() as int) + c);
            assert(bc[0] == b[0] && bc[1] == b[1] && bc[2] == b[2]);
        }
    } else if b.len() == 0 {
        assert(b + c =~= c);
    }
}

} // verus!
