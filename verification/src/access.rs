//! Access control: bearer tokens and their stored hashes, when a key or
//! share is usable, the policy decision for a consumer's access to a
//! secret, and the audit reason recorded for a refused command.

use vstd::prelude::*;
use vstd::string::StringSliceAdditionalSpecFns;
use crate::crypto::{b64_encode, b64_url_nopad_encode, random_bytes_32, sha256_bytes, sha256_digest};
use crate::error::EngineError;
use crate::obsidian::strings_view;
use crate::text::{chars_eq_str, chars_of, concat_str};

verus! {

/// The bytes of `s`.
fn text_bytes(s: &str) -> (b: Vec<u8>)
    ensures
        b@ == s.spec_bytes(),
{
    let bytes = s.as_bytes();
    let mut out: Vec<u8> = Vec::new();
    let mut i: usize = 0;
    while i < bytes.len()
        invariant
            i <= bytes@.len(),
            bytes@ == s.spec_bytes(),
            out@ == bytes@.take(i as int),
        decreases bytes.len() - i,
    {
        proof { assert(bytes@.take(i + 1) =~= bytes@.take(i as int).push(bytes@[i as int])); }
        out.push(bytes[i]);
        i += 1;
    }
    proof { assert(bytes@.take(bytes@.len() as int) =~= bytes@); }
    out
}

/// The stored form of a bearer token: SHA-256 of its bytes, URL-safe base64
/// without padding.
pub open spec fn token_hash_of(token: &str) -> Seq<char> {
    b64_encode(sha256_digest(token.spec_bytes()), true, false)
}

/// A fresh bearer token: `prefix` and 32 random bytes in URL-safe base64
/// without padding.
pub fn new_token(prefix: &str) -> (t: String)
    ensures
        exists|bytes: Seq<u8>| bytes.len() == 32 && t@ == prefix@ + b64_encode(bytes, true, false),
{
    let bytes = random_bytes_32();
    let encoded = b64_url_nopad_encode(bytes.as_slice());
    concat_str(prefix, encoded.as_str())
}

/// A fresh access-key token (`mvk_…`).
pub fn generate_access_token() -> (t: String)
    ensures
        exists|bytes: Seq<u8>| bytes.len() == 32 && t@ == "mvk_"@ + b64_encode(bytes, true, false),
{
    new_token("mvk_")
}

/// A fresh public-share token (`mvs_…`).
pub fn generate_share_token() -> (t: String)
    ensures
        exists|bytes: Seq<u8>| bytes.len() == 32 && t@ == "mvs_"@ + b64_encode(bytes, true, false),
{
    new_token("mvs_")
}

/// A fresh consumer token (`mvc_…`).
pub fn generate_consumer_token() -> (t: String)
    ensures
        exists|bytes: Seq<u8>| bytes.len() == 32 && t@ == "mvc_"@ + b64_encode(bytes, true, false),
{
    new_token("mvc_")
}

/// The stored form of a bearer token.
pub fn hash_token(token: &str) -> (h: String)
    ensures
        h@ == token_hash_of(token),
{
    let bytes = text_bytes(token);
    let digest = sha256_bytes(bytes.as_slice());
    b64_url_nopad_encode(digest.as_slice())
}

/// The stored form of an access-key token.
pub fn hash_access_token(token: &str) -> (h: String)
    ensures
        h@ == token_hash_of(token),
{
    hash_token(token)
}

/// The stored form of a public-share token.
pub fn hash_share_token(token: &str) -> (h: String)
    ensures
        h@ == token_hash_of(token),
{
    hash_token(token)
}

/// Whether instant `a` is before instant `b` (seconds, then nanoseconds).
pub open spec fn instant_before(a: (i64, u32), b: (i64, u32)) -> bool {
    a.0 < b.0 || (a.0 == b.0 && a.1 < b.1)
}

/// Whether an access key can be used at `now`: it is not revoked and has
/// not expired (a key expiring at `now` still works).
pub open spec fn key_usable(revoked: bool, expires_at: Option<(i64, u32)>, now: (i64, u32)) -> bool {
    !revoked && match expires_at {
        Some(e) => !instant_before(e, now),
        None => true,
    }
}

/// Whether an access key can be used at `now`.
pub fn access_key_usable(revoked: bool, expires_at: Option<(i64, u32)>, now: (i64, u32)) -> (b: bool)
    ensures
        b == key_usable(revoked, expires_at, now),
{
    if revoked {
        return false;
    }
    match expires_at {
        Some(e) => !(e.0 < now.0 || (e.0 == now.0 && e.1 < now.1)),
        None => true,
    }
}

/// The refusal of a consumer name that is taken.
pub fn consumer_name_taken(name: &str) -> (e: EngineError)
    ensures
        e@ == crate::error::ErrorView::InvalidInput("consumer with name '"@ + name@ + "' already exists"@),
{
    let a = concat_str("consumer with name '", name);
    EngineError::InvalidInput(concat_str(a.as_str(), "' already exists"))
}

/// The stored access policy of a consumer for a secret, as the decision
/// reads it.
pub struct PolicyTerms {
    pub allowed: bool,
    /// Whether the policy has expired at the time of the check.
    pub expired: bool,
    pub require_approval: bool,
    pub max_ttl_seconds: Option<u64>,
    pub scopes: Vec<String>,
}

/// Whether and how a consumer may read a secret.
pub enum PolicyDecision {
    Allow { ttl_seconds: Option<u64>, scopes: Vec<String> },
    RequiresApproval { ttl_seconds: u64, scopes: Vec<String> },
    Deny { reason: String },
}

/// The specification view of a decision.
pub enum DecisionView {
    Allow { ttl_seconds: Option<u64>, scopes: Seq<Seq<char>> },
    RequiresApproval { ttl_seconds: u64, scopes: Seq<Seq<char>> },
    Deny { reason: Seq<char> },
}

impl View for PolicyDecision {
    type V = DecisionView;

    open spec fn view(&self) -> DecisionView {
        match self {
            PolicyDecision::Allow { ttl_seconds, scopes } => DecisionView::Allow { ttl_seconds: *ttl_seconds, scopes: strings_view(scopes@) },
            PolicyDecision::RequiresApproval { ttl_seconds, scopes } => DecisionView::RequiresApproval { ttl_seconds: *ttl_seconds, scopes: strings_view(scopes@) },
            PolicyDecision::Deny { reason } => DecisionView::Deny { reason: reason@ },
        }
    }
}

/// The decision: deny without a policy, when the policy denies, or when it
/// expired; ask for approval (for the policy's TTL, 300 seconds by default)
/// when it says so; else allow with its TTL and scopes.
pub open spec fn policy_decision_of(secret_key: Seq<char>, consumer: Seq<char>, p: Option<PolicyTerms>) -> DecisionView {
    match p {
        None => DecisionView::Deny {
            reason: "no policy found for consumer '"@ + consumer + "' on secret '"@ + secret_key + "'"@,
        },
        Some(p) => if !p.allowed {
            DecisionView::Deny { reason: "policy explicitly denies access"@ }
        } else if p.expired {
            DecisionView::Deny { reason: "policy has expired"@ }
        } else if p.require_approval {
            DecisionView::RequiresApproval {
                ttl_seconds: match p.max_ttl_seconds { Some(t) => t, None => 300 },
                scopes: strings_view(p.scopes@),
            }
        } else {
            DecisionView::Allow { ttl_seconds: p.max_ttl_seconds, scopes: strings_view(p.scopes@) }
        },
    }
}

pub fn clone_strings(v: &Vec<String>) -> (out: Vec<String>)
    ensures
        strings_view(out@) == strings_view(v@),
{
    let mut out: Vec<String> = Vec::new();
    let mut i: usize = 0;
    while i < v.len()
        invariant
            i <= v@.len(),
            strings_view(out@) == strings_view(v@).take(i as int),
        decreases v.len() - i,
    {
        let s = v[i].clone();
        proof {
            assert(strings_view(out@.push(s)) =~= strings_view(out@).push(s@));
            assert(strings_view(v@).take(i + 1) =~= strings_view(v@).take(i as int).push(v@[i as int]@));
        }
        out.push(s);
        i += 1;
    }
    proof { assert(strings_view(v@).take(v@.len() as int) =~= strings_view(v@)); }
    out
}

/// Decides whether `consumer` may read `secret_key` under its stored policy
/// (`None` when it has none): access is denied by default.
pub fn check_policy(secret_key: &str, consumer: &str, policy: &Option<PolicyTerms>) -> (d: PolicyDecision)
    ensures
        d@ == policy_decision_of(secret_key@, consumer@, *policy),
{
    match policy {
        None => {
            let a = concat_str("no policy found for consumer '", consumer);
            let a = concat_str(a.as_str(), "' on secret '");
            let a = concat_str(a.as_str(), secret_key);
            PolicyDecision::Deny { reason: concat_str(a.as_str(), "'") }
        },
        Some(p) => {
            if !p.allowed {
                return PolicyDecision::Deny { reason: "policy explicitly denies access".to_string() };
            }
            if p.expired {
                return PolicyDecision::Deny { reason: "policy has expired".to_string() };
            }
            if p.require_approval {
                let ttl = match p.max_ttl_seconds {
                    Some(t) => t,
                    None => 300,
                };
                return PolicyDecision::RequiresApproval { ttl_seconds: ttl, scopes: clone_strings(&p.scopes) };
            }
            PolicyDecision::Allow { ttl_seconds: p.max_ttl_seconds, scopes: clone_strings(&p.scopes) }
        },
    }
}

/// Why a command was refused, as recorded for audit.
#[derive(PartialEq, Eq, Structural, Clone, Copy, Debug)]
pub enum AdmissionDenialReason {
    NoEffectiveGrant,
    GrantKindMismatch,
    TargetNotGranted,
    CapabilityNotGranted,
    SensitivityCeilingExceeded,
    RetentionCeilingExceeded,
    GrantNotEffective,
    DelegationChainIneffective,
    ResolverUnavailable,
}

/// What a refusal ranking reads of an authority grant: its kind, targets and
/// capabilities (as codes), its ceilings (as ranks), and whether it is in
/// effect at the request's time.
pub struct GrantTerms {
    pub kind: u8,
    pub targets: Vec<String>,
    pub capabilities: Vec<u8>,
    pub sensitivity_ceiling: u8,
    pub retention_ceiling: u8,
    pub effective: bool,
}

/// What a refusal ranking reads of a command: the grant kind it needs, its
/// resource, its operation, and its sensitivity and retention ranks.
pub struct CommandTerms {
    pub kind: u8,
    pub resource: String,
    pub operation: u8,
    pub sensitivity: u8,
    pub retention: u8,
}

/// How far a grant got before refusing the command, and why it stopped:
/// kind, target, capability, sensitivity, retention, time of effect, in
/// that order; a grant that meets them all failed on its delegation chain.
pub open spec fn grant_refusal(g: GrantTerms, c: CommandTerms) -> (AdmissionDenialReason, u8) {
    if g.kind != c.kind {
        (AdmissionDenialReason::GrantKindMismatch, 1)
    } else if !strings_view(g.targets@).contains(c.resource@) {
        (AdmissionDenialReason::TargetNotGranted, 2)
    } else if !g.capabilities@.contains(c.operation) {
        (AdmissionDenialReason::CapabilityNotGranted, 3)
    } else if c.sensitivity > g.sensitivity_ceiling {
        (AdmissionDenialReason::SensitivityCeilingExceeded, 4)
    } else if c.retention > g.retention_ceiling {
        (AdmissionDenialReason::RetentionCeilingExceeded, 5)
    } else if !g.effective {
        (AdmissionDenialReason::GrantNotEffective, 6)
    } else {
        (AdmissionDenialReason::DelegationChainIneffective, 7)
    }
}

/// Ranks one grant's refusal of a command.
pub fn rank_grant_refusal(grant: &GrantTerms, command: &CommandTerms) -> (r: (AdmissionDenialReason, u8))
    ensures
        r == grant_refusal(*grant, *command),
{
    if grant.kind != command.kind {
        return (AdmissionDenialReason::GrantKindMismatch, 1);
    }
    let res = chars_of(command.resource.as_str());
    let mut found = false;
    let mut i: usize = 0;
    while i < grant.targets.len()
        invariant
            i <= grant.targets@.len(),
            res@ == command.resource@,
            found == exists|k: int| 0 <= k < i && strings_view(grant.targets@)[k] == command.resource@,
        decreases grant.targets.len() - i,
    {
        proof { assert(strings_view(grant.targets@)[i as int] == grant.targets@[i as int]@); }
        if chars_eq_str(res.as_slice(), grant.targets[i].as_str()) {
            found = true;
        }
        i += 1;
    }
    if !found {
        return (AdmissionDenialReason::TargetNotGranted, 2);
    }
    let mut cap = false;
    let mut j: usize = 0;
    while j < grant.capabilities.len()
        invariant
            j <= grant.capabilities@.len(),
            cap == exists|k: int| 0 <= k < j && grant.capabilities@[k] == command.operation,
        decreases grant.capabilities.len() - j,
    {
        if grant.capabilities[j] == command.operation {
            cap = true;
        }
        j += 1;
    }
    if !cap {
        return (AdmissionDenialReason::CapabilityNotGranted, 3);
    }
    if command.sensitivity > grant.sensitivity_ceiling {
        return (AdmissionDenialReason::SensitivityCeilingExceeded, 4);
    }
    if command.retention > grant.retention_ceiling {
        return (AdmissionDenialReason::RetentionCeilingExceeded, 5);
    }
    if !grant.effective {
        return (AdmissionDenialReason::GrantNotEffective, 6);
    }
    (AdmissionDenialReason::DelegationChainIneffective, 7)
}

/// The closest refusal among `grants`: the reason of the first grant with
/// the highest rank (`NoEffectiveGrant` while none ranks above zero).
pub open spec fn closest_refusal(grants: Seq<GrantTerms>, c: CommandTerms) -> (AdmissionDenialReason, u8)
    decreases grants.len(),
{
    if grants.len() == 0 {
        (AdmissionDenialReason::NoEffectiveGrant, 0)
    } else {
        let best = closest_refusal(grants.drop_last(), c);
        let r = grant_refusal(grants.last(), c);
        if r.1 > best.1 { r } else { best }
    }
}

/// The closest refusal ranks at least as high as every grant's refusal.
pub proof fn lemma_closest_refusal_is_maximal(grants: Seq<GrantTerms>, c: CommandTerms)
    ensures
        forall|i: int| 0 <= i < grants.len() ==> grant_refusal(#[trigger] grants[i], c).1 <= closest_refusal(grants, c).1,
    decreases grants.len(),
{
    if grants.len() > 0 {
        lemma_closest_refusal_is_maximal(grants.drop_last(), c);
        assert forall|i: int| 0 <= i < grants.len() implies grant_refusal(#[trigger] grants[i], c).1 <= closest_refusal(grants, c).1 by {
            if i < grants.len() - 1 {
                assert(grants.drop_last()[i] == grants[i]);
            }
        }
    }
}

/// The recorded reason for a refused command, from the grants held by its
/// actor (`None` when they could not be listed).
pub open spec fn denial_reason_of(grants: Option<Seq<GrantTerms>>, c: CommandTerms) -> AdmissionDenialReason {
    match grants {
        None => AdmissionDenialReason::ResolverUnavailable,
        Some(g) => closest_refusal(g, c).0,
    }
}

/// Narrows a refusal to the reason of the grant that came closest.
pub fn classify_admission_denial(grants: &Option<Vec<GrantTerms>>, command: &CommandTerms) -> (r: AdmissionDenialReason)
    ensures
        r == denial_reason_of(match grants {
            Some(g) => Some(g@),
            None => None,
        }, *command),
{
    let gs = match grants {
        None => return AdmissionDenialReason::ResolverUnavailable,
        Some(g) => g,
    };
    let mut best = AdmissionDenialReason::NoEffectiveGrant;
    let mut best_rank: u8 = 0;
    let mut i: usize = 0;
    proof { assert(gs@.take(0) =~= Seq::<GrantTerms>::empty()); }
    while i < gs.len()
        invariant
            i <= gs@.len(),
            (best, best_rank) == closest_refusal(gs@.take(i as int), *command),
        decreases gs.len() - i,
    {
        proof {
            assert(gs@.take(i + 1).drop_last() =~= gs@.take(i as int));
            assert(gs@.take(i + 1).last() == gs@[i as int]);
        }
        let (reason, rank) = rank_grant_refusal(&gs[i], command);
        if rank > best_rank {
            best = reason;
            best_rank = rank;
        }
        i += 1;
    }
    proof { assert(gs@.take(gs@.len() as int) =~= gs@); }
    best
}

/// The permission tier of a template.
#[derive(PartialEq, Eq, Structural, Clone, Copy, Debug)]
pub enum PermissionTier {
    Admin,
    Action,
}

/// A permission template to create when the vault starts.
pub struct TemplateSeed {
    pub name: String,
    pub description: String,
    pub tier: PermissionTier,
    pub scope_namespace: Option<String>,
}

/// The built-in templates a vault lacks: `Owner` (full access) and
/// `Assistant` (scoped to the `assistant` namespace), each only when no
/// template of that name exists.
pub fn default_permission_templates(owner_exists: bool, assistant_exists: bool) -> (out: Vec<TemplateSeed>)
    ensures
        out@.len() == (if owner_exists { 0int } else { 1int }) + (if assistant_exists { 0int } else { 1int }),
        !owner_exists ==> out@[0].name@ == "Owner"@ && out@[0].description@ == "Full access template"@
            && out@[0].tier == PermissionTier::Admin && out@[0].scope_namespace is None,
        !assistant_exists ==> ({
            let a = out@[out@.len() - 1];
            a.name@ == "Assistant"@ && a.description@ == "Scoped assistant template"@
                && a.tier == PermissionTier::Action && (a.scope_namespace matches Some(n) && n@ == "assistant"@)
        }),
{
    let mut out: Vec<TemplateSeed> = Vec::new();
    if !owner_exists {
        out.push(TemplateSeed {
            name: "Owner".to_string(),
            description: "Full access template".to_string(),
            tier: PermissionTier::Admin,
            scope_namespace: None,
        });
    }
    if !assistant_exists {
        out.push(TemplateSeed {
            name: "Assistant".to_string(),
            description: "Scoped assistant template".to_string(),
            tier: PermissionTier::Action,
            scope_namespace: Some("assistant".to_string()),
        });
    }
    out
}

/// What a policy decides: no policy, a denying policy and an expired one
/// deny; an allowing, unexpired policy never denies and hands on exactly
/// its scopes, asking for approval (for its TTL, else 300 seconds) when it
/// requires approval and otherwise allowing for its TTL.
pub proof fn lemma_policy_decisions(secret_key: Seq<char>, consumer: Seq<char>, p: PolicyTerms)
    ensures
        policy_decision_of(secret_key, consumer, None) is Deny,
        !p.allowed || p.expired ==> policy_decision_of(secret_key, consumer, Some(p)) is Deny,
        p.allowed && !p.expired && !p.require_approval ==> policy_decision_of(secret_key, consumer, Some(p))
            == (DecisionView::Allow { ttl_seconds: p.max_ttl_seconds, scopes: p.scopes@.map_values(|s: String| s@) }),
        p.allowed && !p.expired && p.require_approval ==> policy_decision_of(secret_key, consumer, Some(p))
            == (DecisionView::RequiresApproval {
                ttl_seconds: if p.max_ttl_seconds is Some { p.max_ttl_seconds->0 } else { 300 },
                scopes: p.scopes@.map_values(|s: String| s@),
            }),
        p.allowed && !p.expired ==> forall|i: int| 0 <= i < p.scopes@.len() ==> match policy_decision_of(secret_key, consumer, Some(p)) {
            DecisionView::Allow { scopes, .. } => scopes.len() == p.scopes@.len() && scopes[i] == (#[trigger] p.scopes@[i])@,
            DecisionView::RequiresApproval { scopes, .. } => scopes.len() == p.scopes@.len() && scopes[i] == p.scopes@[i]@,
            DecisionView::Deny { .. } => false,
        },
{
    assert(strings_view(p.scopes@) =~= p.scopes@.map_values(|s: String| s@));
}

/// A key can be used exactly when it is not revoked and, if it expires,
/// its expiry is not before now: usable up to and including the instant of
/// expiry, unusable from the next nanosecond on.
pub proof fn lemma_key_usable(revoked: bool, expires_at: Option<(i64, u32)>, now: (i64, u32))
    ensures
        revoked ==> !key_usable(revoked, expires_at, now),
        !revoked && expires_at is None ==> key_usable(revoked, expires_at, now),
        !revoked && expires_at is Some ==> (key_usable(revoked, expires_at, now)
            <==> ((expires_at->0).0 > now.0 || ((expires_at->0).0 == now.0 && (expires_at->0).1 >= now.1))),
{
}

/// Why a grant refuses a command, checked in this order: another grant
/// kind; a resource outside its targets; an operation outside its
/// capabilities; a sensitivity, then a retention, above its ceiling; a grant
/// not in effect; and for a grant that passes all of these, its delegation
/// chain. The reason reported over several grants is the one of the grant
/// that got furthest; without any grant there is no effective grant, and
/// without a resolver the resolver is unavailable.
pub proof fn lemma_refusal_order(g: GrantTerms, c: CommandTerms, grants: Seq<GrantTerms>)
    ensures
        g.kind != c.kind ==> grant_refusal(g, c).0 == AdmissionDenialReason::GrantKindMismatch,
        g.kind == c.kind && (forall|i: int| 0 <= i < g.targets@.len() ==> (#[trigger] g.targets@[i])@ != c.resource@)
            ==> grant_refusal(g, c).0 == AdmissionDenialReason::TargetNotGranted,
        g.kind == c.kind && (exists|i: int| 0 <= i < g.targets@.len() && (#[trigger] g.targets@[i])@ == c.resource@)
            && (forall|i: int| 0 <= i < g.capabilities@.len() ==> #[trigger] g.capabilities@[i] != c.operation)
            ==> grant_refusal(g, c).0 == AdmissionDenialReason::CapabilityNotGranted,
        g.kind == c.kind && (exists|i: int| 0 <= i < g.targets@.len() && (#[trigger] g.targets@[i])@ == c.resource@)
            && (exists|i: int| 0 <= i < g.capabilities@.len() && #[trigger] g.capabilities@[i] == c.operation) ==> {
            &&& c.sensitivity > g.sensitivity_ceiling ==> grant_refusal(g, c).0 == AdmissionDenialReason::SensitivityCeilingExceeded
            &&& c.sensitivity <= g.sensitivity_ceiling && c.retention > g.retention_ceiling
                ==> grant_refusal(g, c).0 == AdmissionDenialReason::RetentionCeilingExceeded
            &&& c.sensitivity <= g.sensitivity_ceiling && c.retention <= g.retention_ceiling && !g.effective
                ==> grant_refusal(g, c).0 == AdmissionDenialReason::GrantNotEffective
            &&& c.sensitivity <= g.sensitivity_ceiling && c.retention <= g.retention_ceiling && g.effective
                ==> grant_refusal(g, c).0 == AdmissionDenialReason::DelegationChainIneffective
        },
        denial_reason_of(None, c) == AdmissionDenialReason::ResolverUnavailable,
        denial_reason_of(Some(Seq::<GrantTerms>::empty()), c) == AdmissionDenialReason::NoEffectiveGrant,
        grants.len() > 0 ==> exists|i: int| 0 <= i < grants.len() && denial_reason_of(Some(grants), c) == (#[trigger] grant_refusal(grants[i], c)).0
            && forall|k: int| 0 <= k < grants.len() ==> #[trigger] grant_refusal(grants[k], c).1 <= grant_refusal(grants[i], c).1,
{
    if forall|i: int| 0 <= i < g.targets@.len() ==> (#[trigger] g.targets@[i])@ != c.resource@ {
        if strings_view(g.targets@).contains(c.resource@) {
            let j = choose|j: int| 0 <= j < strings_view(g.targets@).len() && strings_view(g.targets@)[j] == c.resource@;
            assert(g.targets@[j]@ == c.resource@);
        }
    }
    if exists|i: int| 0 <= i < g.targets@.len() && (#[trigger] g.targets@[i])@ == c.resource@ {
        let j = choose|j: int| 0 <= j < g.targets@.len() && (#[trigger] g.targets@[j])@ == c.resource@;
        assert(strings_view(g.targets@)[j] == c.resource@);
    }
    if exists|i: int| 0 <= i < g.capabilities@.len() && #[trigger] g.capabilities@[i] == c.operation {
        let j = choose|j: int| 0 <= j < g.capabilities@.len() && #[trigger] g.capabilities@[j] == c.operation;
        assert(g.capabilities@.contains(c.operation));
    }
    if grants.len() > 0 {
        lemma_closest_refusal_is_one_of(grants, c);
        lemma_closest_refusal_is_maximal(grants, c);
    }
}

proof fn lemma_closest_refusal_is_one_of(grants: Seq<GrantTerms>, c: CommandTerms)
    requires
        grants.len() > 0,
    ensures
        exists|i: int| 0 <= i < grants.len() && closest_refusal(grants, c) == #[trigger] grant_refusal(grants[i], c),
    decreases grants.len(),
{
    let init = grants.drop_last();
    let r = grant_refusal(grants.last(), c);
    assert(grants[grants.len() - 1] == grants.last());
    if init.len() > 0 {
        lemma_closest_refusal_is_one_of(init, c);
        let best = closest_refusal(init, c);
        if !(r.1 > best.1) {
            let i = choose|i: int| 0 <= i < init.len() && closest_refusal(init, c) == #[trigger] grant_refusal(init[i], c);
            assert(grants[i] == init[i]);
        }
    } else {
        assert(closest_refusal(init, c).1 == 0);
        assert(r.1 >= 1);
    }
}

} // verus!
