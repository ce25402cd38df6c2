//! Consumer inbox runtime: domain handlers, runtime knobs, and the per-claim
//! decisions of one consume tick.

use vstd::prelude::*;
use crate::error::EngineError;
use crate::ids::{uuid_string, uuid_text};
use crate::outbox_dispatch::effective_completion_time;
use crate::settings::{
    clamped_override, flag_enabled, interval_override, opt_str_view, parse_flag, parse_u64_opt,
    parse_usize_opt,
};
use crate::text::{
    bounded_summary, concat_str, lemma_bound_bytes_fits, trim, trimmed_summary,
    utf8_len,
};

verus! {

/// Upper bound, in UTF-8 bytes, on an error summary recorded for a claim.
pub const MAX_ERROR_SUMMARY_BYTES: usize = 4096;

/// Backoff applied when a domain handler fails outright, in milliseconds.
pub const HANDLER_FAILURE_BACKOFF_MS: i64 = 30_000;

/// Outcome of one domain application attempt.
pub enum ConsumerApplicationResult {
    Applied { application_reference: String, effect_digest: Option<String> },
    RetryScheduled { retry_at: i64, error_code: String, error_summary: String },
}

pub enum ConsumerApplicationResultView {
    Applied { application_reference: Seq<char>, effect_digest: Option<Seq<char>> },
    RetryScheduled { retry_at: int, error_code: Seq<char>, error_summary: Seq<char> },
}

impl View for ConsumerApplicationResult {
    type V = ConsumerApplicationResultView;

    open spec fn view(&self) -> ConsumerApplicationResultView {
        match self {
            ConsumerApplicationResult::Applied { application_reference, effect_digest } =>
                ConsumerApplicationResultView::Applied {
                application_reference: application_reference@,
                effect_digest: match effect_digest {
                    Some(d) => Some(d@),
                    None => None,
                },
            },
            ConsumerApplicationResult::RetryScheduled { retry_at, error_code, error_summary } =>
                ConsumerApplicationResultView::RetryScheduled {
                retry_at: *retry_at as int,
                error_code: error_code@,
                error_summary: error_summary@,
            },
        }
    }
}

/// An inbox event claimed under an exclusive lease. Times are Unix
/// milliseconds.
pub struct ConsumerInboxClaim {
    pub inbox_sequence: u64,
    pub event_id: u128,
    pub lease_id: u128,
    pub attempt: u32,
    pub claimed_at: i64,
    pub lease_expires_at: i64,
}

/// The completion written for a claim: exactly one per attempt.
pub struct ConsumerApplicationCompletion {
    pub inbox_sequence: u64,
    pub event_id: u128,
    pub lease_id: u128,
    pub attempt: u32,
    pub completed_at: i64,
    pub result: ConsumerApplicationResult,
}

/// Applies locally with a deterministic application reference.
pub struct LocalProjectionHandler;

impl LocalProjectionHandler {
    /// Reports the claim applied under `local-projection:{event id}`.
    pub fn apply(&self, claim: &ConsumerInboxClaim) -> (res: Result<ConsumerApplicationResult, EngineError>)
        ensures
            res matches Ok(r) && r@ == (ConsumerApplicationResultView::Applied {
                application_reference: "local-projection:"@ + uuid_text(claim.event_id),
                effect_digest: None,
            }),
    {
        let id = uuid_string(claim.event_id);
        let reference = concat_str("local-projection:", id.as_str());
        Ok(ConsumerApplicationResult::Applied { application_reference: reference, effect_digest: None })
    }
}

/// Handler that always reports a durable local application.
pub struct NoopDomainHandler;

impl NoopDomainHandler {
    /// Reports the claim applied under `noop-application`.
    pub fn apply(&self, claim: &ConsumerInboxClaim) -> (res: Result<ConsumerApplicationResult, EngineError>)
        ensures
            res matches Ok(r) && r@ == (ConsumerApplicationResultView::Applied {
                application_reference: "noop-application"@,
                effect_digest: None,
            }),
    {
        Ok(ConsumerApplicationResult::Applied {
            application_reference: "noop-application".to_string(),
            effect_digest: None,
        })
    }
}

/// Summary recorded when a domain handler fails: the trimmed error text cut to
/// at most 4096 bytes at a character boundary, or `"handler failed"` when the text is blank.
pub fn truncate_error_summary(value: &str) -> (out: String)
    ensures
        out@ == bounded_summary(value@, 4096, "handler failed"@),
        utf8_len(out@) <= 4096 || out@ == "handler failed"@,
        trim(value@).len() == 0 ==> out@ == "handler failed"@,
        trim(value@).len() > 0 ==> out@.len() > 0 && utf8_len(out@) <= 4096 && out@ == trim(value@).take(out@.len() as int),
        trim(value@).len() > 0 && utf8_len(trim(value@)) <= 4096 ==> out@ == trim(value@),
{
    proof {
        lemma_bound_bytes_fits(trim(value@), 4096);
        if trim(value@).len() > 0 {
            crate::text::lemma_bounded_summary_prefix(value@, 4096, "handler failed"@);
        }
    }
    trimmed_summary(value, MAX_ERROR_SUMMARY_BYTES, "handler failed")
}

/// Completes one claim from what its handler returned.
///
/// A handler error becomes `RetryScheduled` 30 s after `failed_at`, coded
/// `handler_error`, so exactly one receipt is written and the lease released.
pub fn complete_claim(
    claim: &ConsumerInboxClaim,
    applied: Result<ConsumerApplicationResult, String>,
    failed_at: i64,
    observed_at: i64,
) -> (c: ConsumerApplicationCompletion)
    requires
        claim.claimed_at < i64::MAX,
        applied is Err ==> failed_at <= i64::MAX - 30_000,
    ensures
        c.inbox_sequence == claim.inbox_sequence,
        c.event_id == claim.event_id,
        c.lease_id == claim.lease_id,
        c.attempt == claim.attempt,
        c.completed_at == effective_completion_time(
            claim.claimed_at as int,
            claim.lease_expires_at as int,
            observed_at as int,
        ),
        applied matches Ok(r) ==> c.result@ == r@,
        applied matches Err(e) ==> c.result@ == (ConsumerApplicationResultView::RetryScheduled {
            retry_at: failed_at + 30_000,
            error_code: "handler_error"@,
            error_summary: bounded_summary(e@, 4096, "handler failed"@),
        }),
{
    let result = match applied {
        Ok(r) => r,
        Err(e) => ConsumerApplicationResult::RetryScheduled {
            retry_at: failed_at + HANDLER_FAILURE_BACKOFF_MS,
            error_code: "handler_error".to_string(),
            error_summary: truncate_error_summary(e.as_str()),
        },
    };
    let completed_at = if observed_at >= claim.lease_expires_at {
        claim.claimed_at + 1
    } else {
        observed_at
    };
    ConsumerApplicationCompletion {
        inbox_sequence: claim.inbox_sequence,
        event_id: claim.event_id,
        lease_id: claim.lease_id,
        attempt: claim.attempt,
        completed_at,
        result,
    }
}

/// Summary of one consumer tick.
pub struct InboxConsumerTick {
    pub claimed: usize,
    pub completed: usize,
    pub receipts: Vec<u128>,
}

/// Runtime knobs for one consumer loop.
pub struct InboxConsumerConfig {
    pub enabled: bool,
    pub interval_secs: u64,
    pub lease_secs: u64,
    pub batch_limit: usize,
    pub consumer: String,
    pub processor: String,
}

impl InboxConsumerConfig {
    /// Enabled, every 5 s, 30 s leases, 32 claims per tick, the local consumer
    /// and processor.
    pub fn local_defaults() -> (c: Self)
        ensures
            c.enabled,
            c.interval_secs == 5,
            c.lease_secs == 30,
            c.batch_limit == 32,
            c.consumer@ == "mindvault://consumers/local"@,
            c.processor@ == "mindvault://processors/local"@,
    {
        InboxConsumerConfig {
            enabled: true,
            interval_secs: 5,
            lease_secs: 30,
            batch_limit: 32,
            consumer: "mindvault://consumers/local".to_string(),
            processor: "mindvault://processors/local".to_string(),
        }
    }

    /// The defaults overridden by environment values: the consumer runs only
    /// when `enabled` is a true flag; the interval is at least 1 s; the lease is
    /// clamped to `[1, 3600]` s; the batch limit to `[1, 1000]`. Values that do
    /// not parse leave the default.
    pub fn from_env_values(
        enabled: Option<&str>,
        interval: Option<&str>,
        lease: Option<&str>,
        batch: Option<&str>,
    ) -> (c: Self)
        ensures
            c.enabled == (enabled matches Some(v) && flag_enabled(v@)),
            c.interval_secs == interval_override(5, opt_str_view(interval)),
            c.lease_secs == clamped_override(30, opt_str_view(lease), u64::MAX as nat, 1, 3600),
            c.batch_limit == clamped_override(32, opt_str_view(batch), usize::MAX as nat, 1, 1000),
            c.consumer@ == "mindvault://consumers/local"@,
            c.processor@ == "mindvault://processors/local"@,
    {
        let mut config = Self::local_defaults();
        config.enabled = match enabled {
            Some(v) => parse_flag(v),
            None => false,
        };
        if let Some(n) = parse_u64_opt(interval) {
            config.interval_secs = if n < 1 { 1 } else { n };
        }
        if let Some(n) = parse_u64_opt(lease) {
            config.lease_secs = if n < 1 { 1 } else if n > 3600 { 3600 } else { n };
        }
        if let Some(n) = parse_usize_opt(batch) {
            config.batch_limit = if n < 1 { 1 } else if n > 1000 { 1000 } else { n };
        }
        config
    }

    /// The lease length in milliseconds.
    pub fn lease_duration(&self) -> (ms: i64)
        requires
            self.lease_secs <= i64::MAX / 1000,
        ensures
            ms == self.lease_secs * 1000,
    {
        (self.lease_secs as i64) * 1000
    }
}

} // verus!
