//! Authenticated HTTP outbox publisher: configuration and the mapping of an
//! HTTP exchange to a delivery result.
//!
//! Status codes are the `u16` of an HTTP status (`100..=999`); response
//! headers are the name/value pairs of the response, names lowercase as the
//! `http` crate stores them.

use vstd::prelude::*;
use vstd::utf8::{decode_utf8, valid_utf8};
use crate::crypto::{sha256_bytes, sha256_digest};
use crate::error::{EngineError, ErrorView};
use crate::outbox_dispatch::{OutboxDeliveryResult, OutboxDeliveryResultView};
use crate::settings::{flag_enabled, parse_flag, parse_u64_opt};
use crate::text::{
    all_ascii, bound_bytes, bound_bytes_vec, bounded_summary,
    chars_eq_str, chars_of, decimal_chars, decimal_text, hex_encode, hex_lower,
    is_ws, lemma_bound_bytes_fits, lemma_trim_empty, parse_unsigned, string_from_chars, trim,
    trim_vec, trimmed_summary, utf8_len,
};

verus! {

/// Default request timeout, in seconds.
pub const DEFAULT_TIMEOUT_SECS: u64 = 30;

/// Backoff before a transient failure is retried, in milliseconds.
pub const DEFAULT_RETRY_BACKOFF_MS: i64 = 30_000;

/// Upper bound, in UTF-8 bytes, on a delivery reference.
pub const DELIVERY_REFERENCE_MAX: usize = 2048;

/// `StatusCode`'s `Display`: the code, a space, and its canonical reason
/// phrase (or `<unknown status code>`), as the `http` crate writes it.
pub uninterp spec fn status_display_text(code: u16) -> Seq<char>;

/// `String::from_utf8_lossy(bytes)`: the text of `bytes` with each invalid
/// UTF-8 sequence replaced by U+FFFD.
pub uninterp spec fn utf8_lossy(bytes: Seq<u8>) -> Seq<char>;

/// What `Url::parse` yields for an input: the URL's serialization, or `None`
/// when the input is not a valid absolute URL.
pub uninterp spec fn url_parse(input: Seq<char>) -> Option<Seq<char>>;

#[verifier::external_type_specification]
#[verifier::external_body]
pub struct ExReqwestClient(reqwest::Client);

/// `reqwest::StatusCode::from_u16(code)` written with `Display`. The code and
/// every reason phrase of the `http` crate are ASCII.
#[verifier::external_body]
pub(crate) fn status_display(code: u16) -> (s: String)
    requires
        100 <= code <= 999,
    ensures
        s@ == status_display_text(code),
        all_ascii(s@),
{
    match reqwest::StatusCode::from_u16(code) {
        Ok(status) => status.to_string(),
        Err(_) => String::new(),
    }
}

/// `String::from_utf8_lossy(bytes)`. Valid UTF-8 is decoded unchanged.
#[verifier::external_body]
pub(crate) fn lossy_text(bytes: &[u8]) -> (s: String)
    ensures
        s@ == utf8_lossy(bytes@),
        valid_utf8(bytes@) ==> s@ == decode_utf8(bytes@),
{
    String::from_utf8_lossy(bytes).into_owned()
}

/// `url::Url::parse(input)`, as the parsed URL's serialization.
#[verifier::external_body]
pub(crate) fn parse_url(input: &str) -> (r: Option<String>)
    ensures
        r is Some == url_parse(input@) is Some,
        r is Some ==> r->0@ == url_parse(input@)->0,
{
    match url::Url::parse(input) {
        Ok(url) => Some(url.as_str().to_string()),
        Err(_) => None,
    }
}

/// The timeout, in seconds, that every request of a `reqwest` client is
/// held to, as `ClientBuilder::timeout` set it when the client was built.
pub uninterp spec fn client_timeout_secs(c: reqwest::Client) -> u64;

/// `reqwest::Client::builder().timeout(..).build()`, with its error written
/// as text. A client it builds holds requests to `timeout_secs` seconds.
/// Whether building succeeds is not stated, nor the error text: both
/// depend on the platform's TLS and resolver setup.
#[verifier::external_body]
pub(crate) fn build_http_client(timeout_secs: u64) -> (r: Result<reqwest::Client, String>)
    ensures
        r matches Ok(c) ==> client_timeout_secs(c) == timeout_secs,
{
    match reqwest::Client::builder().timeout(std::time::Duration::from_secs(timeout_secs)).build() {
        Ok(client) => Ok(client),
        Err(error) => Err(format!("{error}")),
    }
}

/// One response header: lowercase name and raw value bytes.
pub struct HeaderEntry {
    pub name: String,
    pub value: Vec<u8>,
}

pub open spec fn header_view(h: HeaderEntry) -> (Seq<char>, Seq<u8>) {
    (h.name@, h.value@)
}

/// The first value recorded under `name` (what `HeaderMap::get` returns).
pub open spec fn header_lookup(headers: Seq<(Seq<char>, Seq<u8>)>, name: Seq<char>) -> Option<Seq<u8>>
    decreases headers.len(),
{
    if headers.len() == 0 {
        None
    } else if headers[0].0 == name {
        Some(headers[0].1)
    } else {
        header_lookup(headers.drop_first(), name)
    }
}

/// Visible ASCII or tab: the bytes `HeaderValue::to_str` accepts.
pub open spec fn is_visible_ascii(b: u8) -> bool {
    32 <= b < 127 || b == 9
}

/// `HeaderValue::to_str`: the value as text when every byte is visible ASCII.
pub open spec fn header_text(v: Seq<u8>) -> Option<Seq<char>> {
    if forall|i: int| 0 <= i < v.len() ==> is_visible_ascii(#[trigger] v[i]) {
        Some(v.map_values(|b: u8| b as char))
    } else {
        None
    }
}

/// The trimmed, non-empty text of header `name`, if the response carries one.
pub open spec fn header_reference(headers: Seq<(Seq<char>, Seq<u8>)>, name: Seq<char>) -> Option<Seq<char>> {
    match header_lookup(headers, name) {
        Some(v) => match header_text(v) {
            Some(t) => if trim(t).len() > 0 { Some(trim(t)) } else { None },
            None => None,
        },
        None => None,
    }
}

/// The reference a successful delivery is recorded under: the first of
/// `x-request-id`, `x-correlation-id`, `location`, `content-location` that
/// holds text, as `http:{status}:{text}`; otherwise `http:{code}:{endpoint}`.
/// Either is cut to at most 2048 bytes, at a character boundary.
pub open spec fn delivery_reference_text(code: u16, headers: Seq<(Seq<char>, Seq<u8>)>, endpoint: Seq<char>) -> Seq<char> {
    let from_header = |t: Seq<char>| bound_bytes("http:"@ + status_display_text(code) + ":"@ + t, 2048);
    if header_reference(headers, "x-request-id"@) is Some {
        from_header(header_reference(headers, "x-request-id"@)->0)
    } else if header_reference(headers, "x-correlation-id"@) is Some {
        from_header(header_reference(headers, "x-correlation-id"@)->0)
    } else if header_reference(headers, "location"@) is Some {
        from_header(header_reference(headers, "location"@)->0)
    } else if header_reference(headers, "content-location"@) is Some {
        from_header(header_reference(headers, "content-location"@)->0)
    } else {
        bound_bytes("http:"@ + decimal_text(code as nat) + ":"@ + endpoint, 2048)
    }
}

/// The error summary of a failed response whose body reads as `body_text`.
pub open spec fn error_summary_text(code: u16, body_text: Seq<char>) -> Seq<char> {
    let t = trim(body_text);
    if t.len() == 0 {
        "HTTP "@ + decimal_text(code as nat) + " from destination"@
    } else {
        "HTTP "@ + decimal_text(code as nat) + ": "@ + t
    }
}

/// Statuses worth retrying: 408, 429, 502, 503, 504.
pub open spec fn is_transient(code: u16) -> bool {
    code == 408 || code == 429 || code == 502 || code == 503 || code == 504
}

/// Whether a status code reports success (`200..=299`).
pub open spec fn is_success(code: u16) -> bool {
    200 <= code <= 299
}

/// What one HTTP exchange maps to at time `now`: `Published` on success,
/// with the delivery reference and the SHA-256 of the body in hex;
/// otherwise `RetryScheduled` 30 s later for a transient status and
/// `DeadLettered` for any other, coded `http_{code}` with the bounded error
/// summary.
pub open spec fn http_outcome(
    code: u16,
    headers: Seq<(Seq<char>, Seq<u8>)>,
    body: Seq<u8>,
    endpoint: Seq<char>,
    now: int,
) -> OutboxDeliveryResultView {
    if is_success(code) {
        OutboxDeliveryResultView::Published {
            delivery_reference: delivery_reference_text(code, headers, endpoint),
            response_digest: Some(hex_lower(sha256_digest(body))),
        }
    } else {
        let summary = bounded_summary(error_summary_text(code, utf8_lossy(body)), 4096, "destination request failed"@);
        if is_transient(code) {
            OutboxDeliveryResultView::RetryScheduled {
                retry_at: now + 30_000,
                error_code: "http_"@ + decimal_text(code as nat),
                error_summary: summary,
            }
        } else {
            OutboxDeliveryResultView::DeadLettered {
                error_code: "http_"@ + decimal_text(code as nat),
                error_summary: summary,
            }
        }
    }
}

/// Whether a status is worth retrying: 408, 429, 502, 503 or 504.
pub fn is_transient_status(status: u16) -> (b: bool)
    ensures
        b == is_transient(status),
{
    status == 408 || status == 429 || status == 502 || status == 503 || status == 504
}

/// `value` cut to at most 2048 bytes, at a character boundary.
pub fn bound_reference(value: &str) -> (out: String)
    ensures
        out@ == bound_bytes(value@, 2048),
        utf8_len(out@) <= 2048,
{
    proof { lemma_bound_bytes_fits(value@, 2048); }
    let cs = chars_of(value);
    let cut = bound_bytes_vec(cs.as_slice(), DELIVERY_REFERENCE_MAX);
    string_from_chars(cut.as_slice())
}

/// Summary of a failed destination request: the trimmed text cut to at most
/// 4096 bytes at a character boundary, or `"destination request failed"` when the text is blank.
pub fn truncate_summary(value: &str) -> (out: String)
    ensures
        out@ == bounded_summary(value@, 4096, "destination request failed"@),
        utf8_len(out@) <= 4096 || out@ == "destination request failed"@,
{
    proof { lemma_bound_bytes_fits(trim(value@), 4096); }
    trimmed_summary(value, 4096, "destination request failed")
}

/// Lowercase hex SHA-256 of `data`.
pub fn sha256_hex(data: &[u8]) -> (out: String)
    ensures
        out@ == hex_lower(sha256_digest(data@)),
{
    let digest = sha256_bytes(data);
    hex_encode(digest.as_slice())
}

/// `HTTP {code}: {body}` for a failed response, or `HTTP {code} from
/// destination` when the body has no text.
pub fn response_error_summary(status: u16, body: &[u8]) -> (out: String)
    ensures
        out@ == error_summary_text(status, utf8_lossy(body@)),
{
    let text = lossy_text(body);
    let cs = chars_of(text.as_str());
    let t = trim_vec(cs.as_slice());
    let mut out = chars_of("HTTP ");
    let digits = decimal_chars(status as u64);
    append_chars(&mut out, digits.as_slice());
    if t.len() == 0 {
        let tail = chars_of(" from destination");
        append_chars(&mut out, tail.as_slice());
    } else {
        let sep = chars_of(": ");
        append_chars(&mut out, sep.as_slice());
        append_chars(&mut out, t.as_slice());
    }
    string_from_chars(out.as_slice())
}

/// Appends `tail` to `v`.
pub fn append_chars(v: &mut Vec<char>, tail: &[char])
    ensures
        final(v)@ == old(v)@ + tail@,
{
    let ghost start = v@;
    let mut i: usize = 0;
    while i < tail.len()
        invariant
            i <= tail@.len(),
            v@ == start + tail@.take(i as int),
        decreases tail.len() - i,
    {
        proof { assert(start + tail@.take(i + 1) =~= (start + tail@.take(i as int)).push(tail@[i as int])); }
        v.push(tail[i]);
        i += 1;
    }
    proof { assert(tail@.take(tail@.len() as int) =~= tail@); }
}

/// The text of a header value when every byte is visible ASCII.
pub fn header_value_text(v: &[u8]) -> (r: Option<Vec<char>>)
    ensures
        r is Some == header_text(v@) is Some,
        r is Some ==> r->0@ == header_text(v@)->0,
        r is Some ==> all_ascii(r->0@),
{
    let mut out: Vec<char> = Vec::new();
    let mut i: usize = 0;
    while i < v.len()
        invariant
            i <= v@.len(),
            forall|k: int| 0 <= k < i ==> is_visible_ascii(#[trigger] v@[k]),
            out@ == v@.take(i as int).map_values(|b: u8| b as char),
        decreases v.len() - i,
    {
        let b = v[i];
        if !((b >= 32 && b < 127) || b == 9) {
            return None;
        }
        proof {
            assert(v@.take(i + 1).map_values(|b: u8| b as char) =~= v@.take(i as int).map_values(|b: u8| b as char).push(b as char));
        }
        out.push(b as char);
        i += 1;
    }
    proof {
        assert(v@.take(v@.len() as int) =~= v@);
        assert forall|k: int| 0 <= k < out@.len() implies (#[trigger] out@[k] as u32) < 0x80 by {
            assert(out@[k] == v@[k] as char);
        }
    }
    Some(out)
}

/// The trimmed, non-empty ASCII text of header `name`, if present.
pub fn header_reference_of(headers: &[HeaderEntry], name: &str) -> (r: Option<Vec<char>>)
    ensures
        r is Some == header_reference(headers@.map_values(|h: HeaderEntry| header_view(h)), name@) is Some,
        r is Some ==> r->0@ == header_reference(headers@.map_values(|h: HeaderEntry| header_view(h)), name@)->0,
        r is Some ==> all_ascii(r->0@),
{
    let ghost hs = headers@.map_values(|h: HeaderEntry| header_view(h));
    let target = chars_of(name);
    proof { assert(hs.skip(0) =~= hs); }
    let mut i: usize = 0;
    while i < headers.len()
        invariant
            i <= headers@.len(),
            hs == headers@.map_values(|h: HeaderEntry| header_view(h)),
            target@ == name@,
            header_lookup(hs, name@) == header_lookup(hs.skip(i as int), name@),
        decreases headers.len() - i,
    {
        let entry = &headers[i];
        let entry_name = chars_of(entry.name.as_str());
        proof {
            let rest = hs.skip(i as int);
            assert(rest[0] == header_view(headers@[i as int]));
            assert(rest.drop_first() =~= hs.skip(i + 1));
        }
        if crate::text::chars_eq(entry_name.as_slice(), target.as_slice()) {
            let text = header_value_text(entry.value.as_slice());
            match text {
                Some(t) => {
                    let tr = trim_vec(t.as_slice());
                    if tr.len() > 0 {
                        proof {
                            crate::text::lemma_trim_preserves_ascii(t@);
                        }
                        return Some(tr);
                    }
                    return None;
                },
                None => { return None; },
            }
        }
        i += 1;
    }
    proof { assert(hs.skip(headers@.len() as int) =~= Seq::<(Seq<char>, Seq<u8>)>::empty()); }
    None
}

/// The reference a successful delivery is recorded under.
pub fn delivery_reference(status: u16, headers: &[HeaderEntry], endpoint: &str) -> (out: String)
    requires
        100 <= status <= 999,
    ensures
        out@ == delivery_reference_text(status, headers@.map_values(|h: HeaderEntry| header_view(h)), endpoint@),
{
    let ghost hs = headers@.map_values(|h: HeaderEntry| header_view(h));
    let mut found = header_reference_of(headers, "x-request-id");
    if found.is_none() {
        found = header_reference_of(headers, "x-correlation-id");
    }
    if found.is_none() {
        found = header_reference_of(headers, "location");
    }
    if found.is_none() {
        found = header_reference_of(headers, "content-location");
    }
    match found {
        Some(t) => {
            let status_text = status_display(status);
            let mut text = chars_of("http:");
            let st = chars_of(status_text.as_str());
            append_chars(&mut text, st.as_slice());
            let colon = chars_of(":");
            append_chars(&mut text, colon.as_slice());
            append_chars(&mut text, t.as_slice());
            let cut = bound_bytes_vec(text.as_slice(), DELIVERY_REFERENCE_MAX);
            string_from_chars(cut.as_slice())
        },
        None => {
            let mut text = chars_of("http:");
            let digits = decimal_chars(status as u64);
            append_chars(&mut text, digits.as_slice());
            let colon = chars_of(":");
            append_chars(&mut text, colon.as_slice());
            let ep = chars_of(endpoint);
            append_chars(&mut text, ep.as_slice());
            let cut = bound_bytes_vec(text.as_slice(), DELIVERY_REFERENCE_MAX);
            string_from_chars(cut.as_slice())
        },
    }
}


/// Configuration for one HTTP outbox destination. `endpoint` is the
/// destination URL's serialization; the timeout is in seconds.
pub struct HttpOutboxPublisherConfig {
    pub endpoint: String,
    pub bearer_token: Option<String>,
    pub timeout_secs: u64,
}

/// The environment a publisher configuration is read from.
pub struct HttpPublisherEnv<'a> {
    pub enabled: Option<&'a str>,
    pub destination_url: Option<&'a str>,
    pub bearer_token: Option<&'a str>,
    pub timeout_secs: Option<&'a str>,
}

impl HttpOutboxPublisherConfig {
    /// A configuration for `endpoint` with no token and a 30 s timeout.
    pub fn new(endpoint: String) -> (c: Self)
        ensures
            c.endpoint@ == endpoint@,
            c.bearer_token is None,
            c.timeout_secs == 30,
    {
        HttpOutboxPublisherConfig { endpoint, bearer_token: None, timeout_secs: DEFAULT_TIMEOUT_SECS }
    }

    /// The same configuration, authenticating with `token`.
    pub fn with_bearer_token(self, token: String) -> (c: Self)
        ensures
            c.endpoint@ == self.endpoint@,
            c.bearer_token is Some && c.bearer_token->0@ == token@,
            c.timeout_secs == self.timeout_secs,
    {
        HttpOutboxPublisherConfig { endpoint: self.endpoint, bearer_token: Some(token), timeout_secs: self.timeout_secs }
    }

    /// The same configuration with a timeout of `timeout_secs` seconds.
    pub fn with_timeout(self, timeout_secs: u64) -> (c: Self)
        ensures
            c.endpoint@ == self.endpoint@,
            c.bearer_token == self.bearer_token,
            c.timeout_secs == timeout_secs,
    {
        HttpOutboxPublisherConfig { endpoint: self.endpoint, bearer_token: self.bearer_token, timeout_secs }
    }

    /// The configuration the environment asks for, if any.
    ///
    /// `None` unless the publisher is enabled by flag, command admission is
    /// active, and the destination URL (trimmed) is non-empty and parses. A
    /// non-blank token (trimmed) authenticates requests; a timeout that parses
    /// as `u64` sets the timeout, at least 1 s.
    pub fn from_env_if_admission_active(admission_active: bool, env: &HttpPublisherEnv) -> (r: Option<Self>)
        ensures
            r is Some <==> ({
                &&& env.enabled matches Some(v) && flag_enabled(v@)
                &&& admission_active
                &&& env.destination_url matches Some(d) && trim(d@).len() > 0
                    && url_parse(trim(d@)) is Some
            }),
            r matches Some(c) ==> ({
                &&& c.endpoint@ == url_parse(trim(env.destination_url->0@))->0
                &&& c.bearer_token is Some <==> (env.bearer_token matches Some(t) && trim(t@).len() > 0)
                &&& c.bearer_token is Some ==> c.bearer_token->0@ == trim(env.bearer_token->0@)
                &&& c.timeout_secs == match env.timeout_secs {
                    Some(t) => match parse_unsigned(t@, u64::MAX as nat) {
                        Some(n) => if n < 1 { 1 } else { n },
                        None => 30,
                    },
                    None => 30,
                }
            }),
    {
        let enabled = match env.enabled {
            Some(v) => parse_flag(v),
            None => false,
        };
        if !enabled || !admission_active {
            return None;
        }
        let destination = match env.destination_url {
            Some(d) => {
                let cs = chars_of(d);
                trim_vec(cs.as_slice())
            },
            None => { return None; },
        };
        if destination.len() == 0 {
            return None;
        }
        let destination = string_from_chars(destination.as_slice());
        let endpoint = match parse_url(destination.as_str()) {
            Some(u) => u,
            None => { return None; },
        };
        let mut config = Self::new(endpoint);
        if let Some(token) = env.bearer_token {
            let cs = chars_of(token);
            let t = trim_vec(cs.as_slice());
            if t.len() > 0 {
                config = config.with_bearer_token(string_from_chars(t.as_slice()));
            }
        }
        if let Some(n) = parse_u64_opt(env.timeout_secs) {
            config = config.with_timeout(if n < 1 { 1 } else { n });
        }
        Some(config)
    }
}

/// Live HTTP publisher for outbox events: a client plus its configuration.
pub struct HttpOutboxPublisher {
    pub client: reqwest::Client,
    pub config: HttpOutboxPublisherConfig,
}

impl HttpOutboxPublisher {
    /// A publisher whose client times out after the configured timeout; an
    /// `Internal` error, `http outbox client: ` and the builder's error, when
    /// the client cannot be built.
    pub fn new(config: HttpOutboxPublisherConfig) -> (r: Result<Self, EngineError>)
        ensures
            r matches Ok(p) ==> p.config == config && client_timeout_secs(p.client) == config.timeout_secs,
            r matches Err(e) ==> e@ matches ErrorView::Internal(m) && "http outbox client: "@.is_prefix_of(m),
    {
        match build_http_client(config.timeout_secs) {
            Ok(client) => Ok(HttpOutboxPublisher { client, config }),
            Err(error) => {
                let m = crate::text::concat_str("http outbox client: ", error.as_str());
                proof {
                    reveal_strlit("http outbox client: ");
                    assert("http outbox client: "@.is_prefix_of(m@));
                }
                Err(EngineError::Internal(m))
            },
        }
    }

    /// The delivery result of one HTTP exchange observed at `now`.
    pub fn map_http_response(&self, status: u16, headers: &[HeaderEntry], body: &[u8], now: i64) -> (r: OutboxDeliveryResult)
        requires
            100 <= status <= 999,
            now <= i64::MAX - 30_000,
        ensures
            r@ == http_outcome(status, headers@.map_values(|h: HeaderEntry| header_view(h)), body@, self.config.endpoint@, now as int),
    {
        if 200 <= status && status <= 299 {
            return OutboxDeliveryResult::Published {
                delivery_reference: delivery_reference(status, headers, self.config.endpoint.as_str()),
                response_digest: Some(sha256_hex(body)),
            };
        }
        let mut code = chars_of("http_");
        let digits = decimal_chars(status as u64);
        append_chars(&mut code, digits.as_slice());
        let error_code = string_from_chars(code.as_slice());
        let summary_text = response_error_summary(status, body);
        let error_summary = truncate_summary(summary_text.as_str());
        if is_transient_status(status) {
            OutboxDeliveryResult::RetryScheduled { retry_at: now + DEFAULT_RETRY_BACKOFF_MS, error_code, error_summary }
        } else {
            OutboxDeliveryResult::DeadLettered { error_code, error_summary }
        }
    }

    /// The delivery result of a request that failed in transport at `now`:
    /// retried 30 s later, coded `http_transport_error`.
    pub fn map_transport_error(&self, error: &str, now: i64) -> (r: OutboxDeliveryResult)
        requires
            now <= i64::MAX - 30_000,
        ensures
            r@ == (OutboxDeliveryResultView::RetryScheduled {
                retry_at: now + 30_000,
                error_code: "http_transport_error"@,
                error_summary: bounded_summary(error@, 4096, "destination request failed"@),
            }),
    {
        OutboxDeliveryResult::RetryScheduled {
            retry_at: now + DEFAULT_RETRY_BACKOFF_MS,
            error_code: "http_transport_error".to_string(),
            error_summary: truncate_summary(error),
        }
    }
}

/// How a response is classified: a 2xx status is published; a failed
/// status of 408, 429, 502, 503 or 504 is retried 30 000 ms after `now`;
/// every other failed status (400, 401, 404, 500, ...) is dead-lettered; a
/// failure is coded `http_` and its status in decimal either way.
pub proof fn lemma_response_classes(
    code: u16,
    headers: Seq<(Seq<char>, Seq<u8>)>,
    body: Seq<u8>,
    endpoint: Seq<char>,
    now: int,
)
    ensures
        (200 <= code <= 299) <==> http_outcome(code, headers, body, endpoint, now) is Published,
        !(200 <= code <= 299) ==> (
            (http_outcome(code, headers, body, endpoint, now) is RetryScheduled)
                <==> (code == 408 || code == 429 || code == 502 || code == 503 || code == 504)),
        !(200 <= code <= 299) && !(code == 408 || code == 429 || code == 502 || code == 503 || code == 504)
            ==> http_outcome(code, headers, body, endpoint, now) is DeadLettered,
        http_outcome(code, headers, body, endpoint, now) matches OutboxDeliveryResultView::RetryScheduled { retry_at, error_code, .. }
            ==> retry_at == now + 30_000 && error_code == "http_"@ + decimal_text(code as nat),
        http_outcome(code, headers, body, endpoint, now) matches OutboxDeliveryResultView::DeadLettered { error_code, .. }
            ==> error_code == "http_"@ + decimal_text(code as nat),
{
}

/// A failed response's error summary names the status after `HTTP `, then
/// the body without surrounding whitespace after `: `, or ` from
/// destination` when the body is blank.
pub proof fn lemma_error_summary_shape(code: u16, body_text: Seq<char>)
    ensures
        (forall|i: int| 0 <= i < body_text.len() ==> is_ws(#[trigger] body_text[i]))
            ==> error_summary_text(code, body_text) == seq!['H', 'T', 'T', 'P', ' '] + decimal_text(code as nat)
                + seq![' ', 'f', 'r', 'o', 'm', ' ', 'd', 'e', 's', 't', 'i', 'n', 'a', 't', 'i', 'o', 'n'],
        (exists|i: int| 0 <= i < body_text.len() && !is_ws(#[trigger] body_text[i]))
            ==> error_summary_text(code, body_text) == seq!['H', 'T', 'T', 'P', ' '] + decimal_text(code as nat)
                + seq![':', ' '] + trim(body_text),
{
    lemma_trim_empty(body_text);
    reveal_strlit("HTTP ");
    reveal_strlit(" from destination");
    reveal_strlit(": ");
    assert("HTTP "@ =~= seq!['H', 'T', 'T', 'P', ' ']);
    assert(" from destination"@ =~= seq![' ', 'f', 'r', 'o', 'm', ' ', 'd', 'e', 's', 't', 'i', 'n', 'a', 't', 'i', 'o', 'n']);
    assert(": "@ =~= seq![':', ' ']);
}

/// Which reference a successful delivery is recorded under: the text of
/// `x-request-id` when the response carries it, else of `x-correlation-id`,
/// else of `location`, else of `content-location`, written after the status
/// as `http:{status}:{text}`; with none of them, `http:{code}:{endpoint}`;
/// either way at most 2048 bytes.
pub proof fn lemma_delivery_reference_precedence(code: u16, headers: Seq<(Seq<char>, Seq<u8>)>, endpoint: Seq<char>)
    ensures
        ({
            let req = header_reference(headers, "x-request-id"@);
            let cor = header_reference(headers, "x-correlation-id"@);
            let loc = header_reference(headers, "location"@);
            let cl = header_reference(headers, "content-location"@);
            let r = delivery_reference_text(code, headers, endpoint);
            let with = |t: Seq<char>| bound_bytes("http:"@ + status_display_text(code) + ":"@ + t, 2048);
            &&& req is Some ==> r == with(req->0)
            &&& req is None && cor is Some ==> r == with(cor->0)
            &&& req is None && cor is None && loc is Some ==> r == with(loc->0)
            &&& req is None && cor is None && loc is None && cl is Some ==> r == with(cl->0)
            &&& req is None && cor is None && loc is None && cl is None ==> r == bound_bytes("http:"@ + decimal_text(code as nat) + ":"@ + endpoint, 2048)
            &&& utf8_len(r) <= 2048
        }),
{
    lemma_bound_bytes_fits("http:"@ + decimal_text(code as nat) + ":"@ + endpoint, 2048);
    let t = delivery_reference_text(code, headers, endpoint);
    if header_reference(headers, "x-request-id"@) is Some {
        lemma_bound_bytes_fits("http:"@ + status_display_text(code) + ":"@ + header_reference(headers, "x-request-id"@)->0, 2048);
    } else if header_reference(headers, "x-correlation-id"@) is Some {
        lemma_bound_bytes_fits("http:"@ + status_display_text(code) + ":"@ + header_reference(headers, "x-correlation-id"@)->0, 2048);
    } else if header_reference(headers, "location"@) is Some {
        lemma_bound_bytes_fits("http:"@ + status_display_text(code) + ":"@ + header_reference(headers, "location"@)->0, 2048);
    } else if header_reference(headers, "content-location"@) is Some {
        lemma_bound_bytes_fits("http:"@ + status_display_text(code) + ":"@ + header_reference(headers, "content-location"@)->0, 2048);
    }
}

/// The value of a header is that of its first occurrence among the
/// response's headers; none when it does not occur.
pub proof fn lemma_header_lookup_first(headers: Seq<(Seq<char>, Seq<u8>)>, name: Seq<char>)
    ensures
        header_lookup(headers, name) is None <==> forall|i: int| 0 <= i < headers.len() ==> (#[trigger] headers[i]).0 != name,
        header_lookup(headers, name) matches Some(v) ==> exists|i: int| 0 <= i < headers.len() && (#[trigger] headers[i]).0 == name
            && headers[i].1 == v && forall|k: int| 0 <= k < i ==> (#[trigger] headers[k]).0 != name,
    decreases headers.len(),
{
    if headers.len() > 0 && headers[0].0 != name {
        let rest = headers.drop_first();
        lemma_header_lookup_first(rest, name);
        assert forall|i: int| 0 <= i < rest.len() implies #[trigger] rest[i] == headers[i + 1] by {}
        if header_lookup(rest, name) is Some {
            let v = header_lookup(rest, name)->0;
            let j = choose|i: int| 0 <= i < rest.len() && (#[trigger] rest[i]).0 == name && rest[i].1 == v
                && forall|k: int| 0 <= k < i ==> (#[trigger] rest[k]).0 != name;
            assert(headers[j + 1] == rest[j]);
            assert forall|k: int| 0 <= k < j + 1 implies (#[trigger] headers[k]).0 != name by {
                if k > 0 {
                    assert(rest[k - 1] == headers[k]);
                }
            }
        } else {
            assert forall|k: int| 0 <= k < headers.len() implies (#[trigger] headers[k]).0 != name by {
                if k > 0 {
                    assert(rest[k - 1] == headers[k]);
                }
            }
        }
    } else if headers.len() > 0 {
        assert(headers[0].0 == name);
    }
}

} // verus!
