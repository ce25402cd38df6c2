//! Governed identities and authority grants: which principal a command acts
//! as, who may delegate a grant, the identity material of a delegated grant,
//! and the terms of a lifecycle transition.

use vstd::prelude::*;
use crate::error::{text_result, unit_result, EngineError, ErrorView};
use crate::text::{chars_eq, chars_eq_str, chars_of, concat_str};

verus! {

/// The lifecycle status of an authority grant.
#[derive(PartialEq, Eq, Structural, Clone, Copy, Debug)]
pub enum GrantStatus {
    Active,
    Suspended,
    Revoked,
}

/// The subject binding a command acts for: `local-system` when none is named.
pub fn command_subject<'a>(subject: Option<&'a str>) -> (s: &'a str)
    ensures
        s@ == (match subject {
            Some(x) => x@,
            None => "local-system"@,
        }),
{
    match subject {
        Some(x) => x,
        None => "local-system",
    }
}

/// Whether the legacy identity fallback is switched on: the setting is
/// exactly `1`.
pub fn legacy_fallback_enabled(setting: Option<&str>) -> (b: bool)
    ensures
        b == (setting matches Some(v) && v@ == "1"@),
{
    match setting {
        Some(v) => {
            let cv = chars_of(v);
            chars_eq_str(cv.as_slice(), "1")
        },
        None => false,
    }
}

/// How a command subject resolves to a principal: through the identity
/// registry when the subject is registered there, else through the derived
/// principal when the legacy fallback is on, else not at all.
pub open spec fn identity_resolution(
    registered: Option<Seq<char>>,
    legacy_fallback: bool,
    derived: Seq<char>,
    subject: Seq<char>,
) -> Result<Seq<char>, ErrorView> {
    match registered {
        Some(p) => Ok(p),
        None => if legacy_fallback {
            Ok(derived)
        } else {
            Err(ErrorView::InvalidInput("unknown identity subject binding: "@ + subject))
        },
    }
}

/// Resolves a command subject, given the principal the registry holds for it
/// (if any) and the principal derived from the subject itself.
pub fn resolve_identity(
    registered: Option<String>,
    legacy_fallback: bool,
    derived: String,
    subject: &str,
) -> (r: Result<String, EngineError>)
    ensures
        text_result(r) == identity_resolution(
            match registered {
                Some(p) => Some(p@),
                None => None,
            },
            legacy_fallback,
            derived@,
            subject@,
        ),
{
    match registered {
        Some(p) => Ok(p),
        None => if legacy_fallback {
            Ok(derived)
        } else {
            Err(EngineError::InvalidInput(concat_str("unknown identity subject binding: ", subject)))
        },
    }
}

/// The principal the vault attributes its own governance acts to: the
/// registered local owner, else the principal derived for that subject.
pub fn owner_principal(registered: Option<String>, derived: String) -> (p: String)
    ensures
        p@ == (match registered {
            Some(r) => r@,
            None => derived@,
        }),
{
    match registered {
        Some(r) => r,
        None => derived,
    }
}

/// Only the grantee of the parent grant may delegate its authority.
pub open spec fn delegator_check(parent_grantee: Seq<char>, grantor: Seq<char>) -> Result<(), ErrorView> {
    if parent_grantee == grantor {
        Ok(())
    } else {
        Err(ErrorView::AccessDenied("only the parent grant grantee may delegate its authority"@))
    }
}

/// Checks that `grantor` is the parent grant's grantee.
pub fn check_delegator(parent_grantee: &str, grantor: &str) -> (r: Result<(), EngineError>)
    ensures
        unit_result(r) == delegator_check(parent_grantee@, grantor@),
{
    let a = chars_of(parent_grantee);
    let b = chars_of(grantor);
    if chars_eq(a.as_slice(), b.as_slice()) {
        Ok(())
    } else {
        Err(EngineError::AccessDenied("only the parent grant grantee may delegate its authority".to_string()))
    }
}

/// The material a delegated grant's id is derived from:
/// `authority-grant-delegation:{parent id}:{idempotency key}`.
pub open spec fn delegation_material(parent_grant_id: Seq<char>, idempotency_key: Seq<char>) -> Seq<char> {
    "authority-grant-delegation:"@ + parent_grant_id + ":"@ + idempotency_key
}

/// Builds the identity material of a delegated grant.
pub fn delegation_identity_material(parent_grant_id: &str, idempotency_key: &str) -> (s: String)
    ensures
        s@ == delegation_material(parent_grant_id@, idempotency_key@),
{
    let a = concat_str("authority-grant-delegation:", parent_grant_id);
    let b = concat_str(a.as_str(), ":");
    concat_str(b.as_str(), idempotency_key)
}

/// What a lifecycle transition changes on a grant: the revision, the status
/// and the status reason (the grant's terms stay as issued).
pub struct GrantTransitionTerms {
    pub revision: u64,
    pub status: GrantStatus,
    pub status_reason: Option<String>,
}

/// The terms of moving a grant at `current_revision` to `to_status`: the
/// next revision, the new status, and the reason unless the grant becomes
/// active again. A revision that cannot be advanced is refused.
pub fn transition_terms(current_revision: u64, to_status: GrantStatus, reason: String) -> (r: Result<
    GrantTransitionTerms,
    EngineError,
>)
    ensures
        current_revision == u64::MAX <==> r is Err,
        r matches Err(e) ==> e@ == ErrorView::InvalidInput("authority-grant revision overflow"@),
        r matches Ok(t) ==> {
            &&& t.revision == current_revision + 1
            &&& t.status == to_status
            &&& (to_status == GrantStatus::Active ==> t.status_reason is None)
            &&& (to_status != GrantStatus::Active ==> (t.status_reason matches Some(m) && m@ == reason@))
        },
{
    match current_revision.checked_add(1) {
        None => Err(EngineError::InvalidInput("authority-grant revision overflow".to_string())),
        Some(revision) => {
            let status_reason = match to_status {
                GrantStatus::Active => None,
                _ => Some(reason),
            };
            Ok(GrantTransitionTerms { revision, status: to_status, status_reason })
        },
    }
}

/// Only the grantee of a parent grant may delegate it: delegation is
/// refused, access denied, for anyone else.
pub proof fn lemma_only_grantee_delegates(parent_grantee: Seq<char>, grantor: Seq<char>)
    ensures
        delegator_check(parent_grantee, grantor) is Ok <==> parent_grantee == grantor,
        parent_grantee != grantor ==> delegator_check(parent_grantee, grantor) matches Err(ErrorView::AccessDenied(_)),
{
}

/// An identity resolves to its registered principal when there is one;
/// otherwise to the derived one only under the legacy fallback; otherwise
/// it is refused as invalid input.
pub proof fn lemma_identity_resolution(registered: Option<Seq<char>>, legacy_fallback: bool, derived: Seq<char>, subject: Seq<char>)
    ensures
        registered matches Some(p) ==> identity_resolution(registered, legacy_fallback, derived, subject) == Ok::<Seq<char>, ErrorView>(p),
        registered is None && legacy_fallback ==> identity_resolution(registered, legacy_fallback, derived, subject) == Ok::<Seq<char>, ErrorView>(derived),
        registered is None && !legacy_fallback ==> identity_resolution(registered, legacy_fallback, derived, subject) matches Err(ErrorView::InvalidInput(_)),
{
}

} // verus!
