//! Outbox dispatcher: the local publisher, runtime knobs, and the per-claim
//! decisions of one dispatch tick (what result and completion time a claim
//! is completed with).

use vstd::prelude::*;
use crate::error::EngineError;
use crate::ids::{uuid_string, uuid_text};
use crate::settings::{
    clamped_override, flag_enabled, interval_override, opt_str_view, parse_flag, parse_u64_opt,
    parse_usize_opt,
};
use crate::text::{
    bounded_summary, concat_str, lemma_bound_bytes_fits, trim, trimmed_summary,
    utf8_len,
};

verus! {

/// Backoff applied when a publisher fails outright, in milliseconds.
pub const PUBLISHER_FAILURE_BACKOFF_MS: i64 = 30_000;

/// Outcome of one publication attempt.
pub enum OutboxDeliveryResult {
    Published { delivery_reference: String, response_digest: Option<String> },
    RetryScheduled { retry_at: i64, error_code: String, error_summary: String },
    DeadLettered { error_code: String, error_summary: String },
}

pub enum OutboxDeliveryResultView {
    Published { delivery_reference: Seq<char>, response_digest: Option<Seq<char>> },
    RetryScheduled { retry_at: int, error_code: Seq<char>, error_summary: Seq<char> },
    DeadLettered { error_code: Seq<char>, error_summary: Seq<char> },
}

impl View for OutboxDeliveryResult {
    type V = OutboxDeliveryResultView;

    open spec fn view(&self) -> OutboxDeliveryResultView {
        match self {
            OutboxDeliveryResult::Published { delivery_reference, response_digest } =>
                OutboxDeliveryResultView::Published {
                delivery_reference: delivery_reference@,
                response_digest: crate::obsidian::opt_string_view(response_digest),
            },
            OutboxDeliveryResult::RetryScheduled { retry_at, error_code, error_summary } =>
                OutboxDeliveryResultView::RetryScheduled {
                retry_at: *retry_at as int,
                error_code: error_code@,
                error_summary: error_summary@,
            },
            OutboxDeliveryResult::DeadLettered { error_code, error_summary } =>
                OutboxDeliveryResultView::DeadLettered {
                error_code: error_code@,
                error_summary: error_summary@,
            },
        }
    }
}

/// A claimed outbox event under an exclusive lease. Times are Unix
/// milliseconds.
pub struct OutboxDeliveryClaim {
    pub event_id: u128,
    pub lease_id: u128,
    pub attempt: u32,
    pub claimed_at: i64,
    pub lease_expires_at: i64,
}

/// The completion written for a claim: exactly one per attempt.
pub struct OutboxDeliveryCompletion {
    pub event_id: u128,
    pub lease_id: u128,
    pub attempt: u32,
    pub completed_at: i64,
    pub result: OutboxDeliveryResult,
}

/// Destination that acknowledges locally, with no network I/O.
pub struct LocalAckPublisher;

impl LocalAckPublisher {
    /// Acknowledges the claim as published under `local-ack:{event id}`.
    pub fn publish(&self, claim: &OutboxDeliveryClaim) -> (res: Result<OutboxDeliveryResult, EngineError>)
        ensures
            res matches Ok(r) && r@ == (OutboxDeliveryResultView::Published {
                delivery_reference: "local-ack:"@ + uuid_text(claim.event_id),
                response_digest: None,
            }),
    {
        let id = uuid_string(claim.event_id);
        let reference = concat_str("local-ack:", id.as_str());
        Ok(OutboxDeliveryResult::Published { delivery_reference: reference, response_digest: None })
    }
}

/// Summary recorded when a publisher fails: the trimmed error text cut to at
/// most 4096 bytes at a character boundary, or `"publisher failed"` when the text is blank.
pub fn truncate_error_summary(value: &str) -> (out: String)
    ensures
        out@ == bounded_summary(value@, 4096, "publisher failed"@),
        utf8_len(out@) <= 4096 || out@ == "publisher failed"@,
        trim(value@).len() == 0 ==> out@ == "publisher failed"@,
        trim(value@).len() > 0 ==> out@.len() > 0 && utf8_len(out@) <= 4096 && out@ == trim(value@).take(out@.len() as int),
        trim(value@).len() > 0 && utf8_len(trim(value@)) <= 4096 ==> out@ == trim(value@),
{
    proof {
        lemma_bound_bytes_fits(trim(value@), 4096);
        if trim(value@).len() > 0 {
            crate::text::lemma_bounded_summary_prefix(value@, 4096, "publisher failed"@);
        }
    }
    trimmed_summary(value, 4096, "publisher failed")
}

/// The time a completion is recorded at: the observed time while the lease
/// still holds, else one millisecond after the claim (a completion after
/// lease expiry would be rejected by storage).
pub open spec fn effective_completion_time(claimed_at: int, lease_expires_at: int, observed: int) -> int {
    if observed >= lease_expires_at {
        claimed_at + 1
    } else {
        observed
    }
}

/// Completes one claim from what its publisher returned.
///
/// A publisher error becomes `RetryScheduled` 30 s after `failed_at`, coded
/// `publisher_error`, so that exactly one receipt is still written and the
/// lease is released.
pub fn complete_claim(
    claim: &OutboxDeliveryClaim,
    published: Result<OutboxDeliveryResult, String>,
    failed_at: i64,
    observed_at: i64,
) -> (c: OutboxDeliveryCompletion)
    requires
        claim.claimed_at < i64::MAX,
        published is Err ==> failed_at <= i64::MAX - 30_000,
    ensures
        c.event_id == claim.event_id,
        c.lease_id == claim.lease_id,
        c.attempt == claim.attempt,
        c.completed_at == effective_completion_time(
            claim.claimed_at as int,
            claim.lease_expires_at as int,
            observed_at as int,
        ),
        published matches Ok(r) ==> c.result@ == r@,
        published matches Err(e) ==> c.result@ == (OutboxDeliveryResultView::RetryScheduled {
            retry_at: failed_at + 30_000,
            error_code: "publisher_error"@,
            error_summary: bounded_summary(e@, 4096, "publisher failed"@),
        }),
{
    let result = match published {
        Ok(r) => r,
        Err(e) => OutboxDeliveryResult::RetryScheduled {
            retry_at: failed_at + PUBLISHER_FAILURE_BACKOFF_MS,
            error_code: "publisher_error".to_string(),
            error_summary: truncate_error_summary(e.as_str()),
        },
    };
    let completed_at = if observed_at >= claim.lease_expires_at {
        claim.claimed_at + 1
    } else {
        observed_at
    };
    OutboxDeliveryCompletion {
        event_id: claim.event_id,
        lease_id: claim.lease_id,
        attempt: claim.attempt,
        completed_at,
        result,
    }
}

/// Summary of one dispatch tick.
pub struct OutboxDispatchTick {
    pub claimed: usize,
    pub completed: usize,
    pub receipts: Vec<u128>,
}

/// Runtime knobs for one dispatcher loop.
pub struct OutboxDispatcherConfig {
    pub enabled: bool,
    pub interval_secs: u64,
    pub lease_secs: u64,
    pub batch_limit: usize,
    pub executor: String,
    pub destination: String,
}

impl OutboxDispatcherConfig {
    /// Enabled, every 5 s, 30 s leases, 32 claims per tick, local executor and
    /// local-ack destination.
    pub fn local_defaults() -> (c: Self)
        ensures
            c.enabled,
            c.interval_secs == 5,
            c.lease_secs == 30,
            c.batch_limit == 32,
            c.executor@ == "mindvault://dispatchers/local"@,
            c.destination@ == "mindvault://destinations/local-ack"@,
    {
        OutboxDispatcherConfig {
            enabled: true,
            interval_secs: 5,
            lease_secs: 30,
            batch_limit: 32,
            executor: "mindvault://dispatchers/local".to_string(),
            destination: "mindvault://destinations/local-ack".to_string(),
        }
    }

    /// The defaults overridden by environment values: the dispatcher runs only
    /// when `enabled` is a true flag; the interval is at least 1 s; the lease is
    /// clamped to `[1, 3600]` s (storage rejects longer leases); the batch limit
    /// to `[1, 1000]`. Values that do not parse leave the default.
    pub fn from_env_values(
        enabled: Option<&str>,
        interval: Option<&str>,
        lease: Option<&str>,
        batch: Option<&str>,
    ) -> (c: Self)
        ensures
            c.enabled == (enabled matches Some(v) && flag_enabled(v@)),
            c.interval_secs == interval_override(5, opt_str_view(interval)),
            c.lease_secs == clamped_override(30, opt_str_view(lease), u64::MAX as nat, 1, 3600),
            c.batch_limit == clamped_override(32, opt_str_view(batch), usize::MAX as nat, 1, 1000),
            c.executor@ == "mindvault://dispatchers/local"@,
            c.destination@ == "mindvault://destinations/local-ack"@,
    {
        let mut config = Self::local_defaults();
        config.enabled = match enabled {
            Some(v) => parse_flag(v),
            None => false,
        };
        if let Some(n) = parse_u64_opt(interval) {
            config.interval_secs = if n < 1 { 1 } else { n };
        }
        if let Some(n) = parse_u64_opt(lease) {
            config.lease_secs = if n < 1 { 1 } else if n > 3600 { 3600 } else { n };
        }
        if let Some(n) = parse_usize_opt(batch) {
            config.batch_limit = if n < 1 { 1 } else if n > 1000 { 1000 } else { n };
        }
        config
    }

    /// The lease length in milliseconds.
    pub fn lease_duration(&self) -> (ms: i64)
        requires
            self.lease_secs <= i64::MAX / 1000,
        ensures
            ms == self.lease_secs * 1000,
    {
        (self.lease_secs as i64) * 1000
    }
}

/// When a completion is recorded: at the observed time while the lease has
/// not yet expired, and otherwise one millisecond after the claim, never
/// later than the lease allows.
pub proof fn lemma_completion_time(claimed_at: int, lease_expires_at: int, observed: int)
    ensures
        observed < lease_expires_at ==> effective_completion_time(claimed_at, lease_expires_at, observed) == observed,
        observed >= lease_expires_at ==> effective_completion_time(claimed_at, lease_expires_at, observed) == claimed_at + 1,
        claimed_at + 1 < lease_expires_at ==> effective_completion_time(claimed_at, lease_expires_at, observed) < lease_expires_at,
{
}

} // verus!
