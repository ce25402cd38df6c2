//! Moving a work order between vaults: the limits of an export, and the
//! checks a restore makes before it writes anything.

use vstd::prelude::*;
use crate::crypto::{b64_encode, b64_standard_decode, sha256_digest};
use crate::error::{unit_result, EngineError, ErrorView};
use crate::outbox_http_publisher::sha256_hex;
use crate::text::{chars_eq, chars_of, concat_str, hex_lower};

verus! {

/// How many run attempts one export carries at most (an export of a work
/// order with this many or more is refused).
pub const WORK_ORDER_EXPORT_RUN_LIMIT: usize = 1000;

/// An export would be silently partial when the run listing reached the
/// limit: that is refused.
pub open spec fn export_run_check(work_order_id: Seq<char>, runs: nat) -> Result<(), ErrorView> {
    if runs >= 1000 {
        Err(ErrorView::Storage(
            "work order "@ + work_order_id
                + " has at least 1000 run attempts, which exceeds what one export can carry; refusing to emit a partial history"@,
        ))
    } else {
        Ok(())
    }
}

/// Checks the number of runs listed for an export.
pub fn check_export_run_count(work_order_id: &str, runs: usize) -> (r: Result<(), EngineError>)
    ensures
        unit_result(r) == export_run_check(work_order_id@, runs as nat),
{
    if runs >= WORK_ORDER_EXPORT_RUN_LIMIT {
        let a = concat_str("work order ", work_order_id);
        Err(EngineError::Storage(concat_str(
            a.as_str(),
            " has at least 1000 run attempts, which exceeds what one export can carry; refusing to emit a partial history",
        )))
    } else {
        Ok(())
    }
}

/// The error for an artifact whose content is missing from the store.
pub fn missing_artifact_content(artifact_id: &str) -> (e: EngineError)
    ensures
        e@ == ErrorView::Storage(
            "artifact "@ + artifact_id@ + " is recorded but its content is missing; refusing to export an unrestorable digest"@,
        ),
{
    let a = concat_str("artifact ", artifact_id);
    EngineError::Storage(concat_str(a.as_str(), " is recorded but its content is missing; refusing to export an unrestorable digest"))
}

/// Restores one exported artifact's content: it must be the standard base64
/// of bytes whose lowercase hex SHA-256 is the recorded digest. The bytes
/// are returned; a text that is not base64 or a digest that does not match
/// is refused.
pub fn restore_artifact_content(artifact_id: &str, content_base64: &str, recorded_digest: &str) -> (r: Result<Vec<u8>, EngineError>)
    ensures
        r matches Ok(bytes) ==> b64_encode(bytes@, false, true) == content_base64@ && hex_lower(sha256_digest(bytes@)) == recorded_digest@,
        (exists|b: Seq<u8>| #[trigger] b64_encode(b, false, true) == content_base64@ && hex_lower(sha256_digest(b)) == recorded_digest@) ==> r is Ok,
        r matches Err(e) ==> (e@ matches ErrorView::InvalidInput(m) && (
            m.len() >= ("artifact "@ + artifact_id@ + " content is not valid base64: "@).len()
                && m.take(("artifact "@ + artifact_id@ + " content is not valid base64: "@).len() as int) == "artifact "@ + artifact_id@ + " content is not valid base64: "@
            || m == "artifact "@ + artifact_id@ + " content does not match its recorded digest"@)),
{
    let decoded = b64_standard_decode(content_base64);
    let content = match decoded {
        Ok(c) => c,
        Err(err) => {
            let a = concat_str("artifact ", artifact_id);
            let b = concat_str(a.as_str(), " content is not valid base64: ");
            let msg = concat_str(b.as_str(), err.as_str());
            proof {
                let p = "artifact "@ + artifact_id@ + " content is not valid base64: "@;
                assert(msg@.take(p.len() as int) =~= p);
            }
            return Err(EngineError::InvalidInput(msg));
        },
    };
    let digest = sha256_hex(content.as_slice());
    let d = chars_of(digest.as_str());
    let recorded = chars_of(recorded_digest);
    if !chars_eq(d.as_slice(), recorded.as_slice()) {
        let a = concat_str("artifact ", artifact_id);
        return Err(EngineError::InvalidInput(concat_str(a.as_str(), " content does not match its recorded digest")));
    }
    Ok(content)
}

/// A restore never merges: a work order that already exists here is refused.
pub open spec fn restore_absent_check(work_order_id: Seq<char>, exists: bool) -> Result<(), ErrorView> {
    if exists {
        Err(ErrorView::Conflict(
            "work order "@ + work_order_id + " already exists in this vault; restore does not merge divergent histories"@,
        ))
    } else {
        Ok(())
    }
}

/// Checks that the work order being restored is not already present.
pub fn check_restore_absent(work_order_id: &str, exists: bool) -> (r: Result<(), EngineError>)
    ensures
        unit_result(r) == restore_absent_check(work_order_id@, exists),
{
    if exists {
        let a = concat_str("work order ", work_order_id);
        Err(EngineError::Conflict(concat_str(a.as_str(), " already exists in this vault; restore does not merge divergent histories")))
    } else {
        Ok(())
    }
}

/// An export carries a work order's whole history or refuses: it is
/// refused, as a storage error, exactly when the work order has 1000 run
/// attempts or more. A restore never merges: it is refused, as a conflict,
/// exactly when the work order already exists.
pub proof fn lemma_transfer_limits(work_order_id: Seq<char>, runs: nat, exists: bool)
    ensures
        export_run_check(work_order_id, runs) is Ok <==> runs < 1000,
        runs >= 1000 ==> export_run_check(work_order_id, runs) matches Err(ErrorView::Storage(_)),
        restore_absent_check(work_order_id, exists) is Ok <==> !exists,
        exists ==> restore_absent_check(work_order_id, exists) matches Err(ErrorView::Conflict(_)),
{
}

} // verus!
