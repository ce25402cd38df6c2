//! Mounting a knowledge workspace and guarding writes to its canonical
//! documents: what a mount request must satisfy, when a root is already
//! mounted, the expected-hash preflight of a write, and revision bumps.

use vstd::prelude::*;
use vstd::string::StringSliceAdditionalSpecFns;
use crate::error::{unit_result, EngineError, ErrorView};
use crate::text::{chars_eq_str, chars_of, concat_str, is_ws, lemma_trim_empty, trim, trim_vec};
use crate::workspace_projection::WorkspaceProjectionOutcome;

verus! {

/// The checks on a mount request: not in sealed mode, a namespace that is
/// not blank, and a display name that is not blank and has at most 120
/// bytes.
pub open spec fn mount_check(sealed: bool, namespace: Seq<char>, display_name: Seq<char>, display_name_bytes: nat) -> Result<(), ErrorView> {
    if sealed {
        Err(ErrorView::InvalidInput("mounted workspaces in sealed mode require the encrypted descriptor bridge"@))
    } else if trim(namespace).len() == 0 {
        Err(ErrorView::InvalidInput("workspace namespace must not be empty"@))
    } else if trim(display_name).len() == 0 || display_name_bytes > 120 {
        Err(ErrorView::InvalidInput("workspace display name must contain 1 to 120 bytes"@))
    } else {
        Ok(())
    }
}

/// Checks a mount request.
pub fn check_mount_request(sealed: bool, namespace: &str, display_name: &str) -> (r: Result<(), EngineError>)
    ensures
        unit_result(r) == mount_check(sealed, namespace@, display_name@, (display_name.spec_bytes().len() as usize) as nat),
{
    if sealed {
        return Err(EngineError::InvalidInput("mounted workspaces in sealed mode require the encrypted descriptor bridge".to_string()));
    }
    let n = chars_of(namespace);
    if trim_vec(n.as_slice()).len() == 0 {
        return Err(EngineError::InvalidInput("workspace namespace must not be empty".to_string()));
    }
    let d = chars_of(display_name);
    if trim_vec(d.as_slice()).len() == 0 || display_name.len() > 120 {
        return Err(EngineError::InvalidInput("workspace display name must contain 1 to 120 bytes".to_string()));
    }
    Ok(())
}

/// The first workspace among `existing` (id and root, when its descriptor
/// decodes) mounted at `root`.
pub open spec fn mounted_at(existing: Seq<(u128, Option<Seq<char>>)>, root: Seq<char>) -> Option<u128>
    decreases existing.len(),
{
    if existing.len() == 0 {
        None
    } else {
        match mounted_at(existing.drop_last(), root) {
            Some(id) => Some(id),
            None => if existing.last().1 == Some(root) { Some(existing.last().0) } else { None },
        }
    }
}

/// The view of known workspace roots.
pub open spec fn roots_view(existing: Seq<(u128, Option<String>)>) -> Seq<(u128, Option<Seq<char>>)> {
    existing.map_values(|e: (u128, Option<String>)| (e.0, crate::obsidian::opt_string_view(&e.1)))
}

/// The workspace already mounted at `root`, if any.
pub fn find_mounted_root(existing: &Vec<(u128, Option<String>)>, root: &str) -> (r: Option<u128>)
    ensures
        r == mounted_at(roots_view(existing@), root@),
{
    let ghost ev = roots_view(existing@);
    let r = chars_of(root);
    let mut found: Option<u128> = None;
    let mut i: usize = 0;
    proof { assert(ev.take(0) =~= Seq::<(u128, Option<Seq<char>>)>::empty()); }
    while i < existing.len()
        invariant
            i <= existing@.len(),
            ev == roots_view(existing@),
            r@ == root@,
            found == mounted_at(ev.take(i as int), root@),
        decreases existing.len() - i,
    {
        proof {
            let t = ev.take(i + 1);
            assert(t.drop_last() =~= ev.take(i as int));
            assert(t.last() == (existing@[i as int].0, crate::obsidian::opt_string_view(&existing@[i as int].1)));
        }
        if found.is_none() {
            match &existing[i].1 {
                Some(p) => {
                    if chars_eq_str(r.as_slice(), p.as_str()) {
                        found = Some(existing[i].0);
                    }
                },
                None => {},
            }
        }
        i += 1;
    }
    proof { assert(ev.take(existing@.len() as int) =~= ev); }
    found
}

/// The projection outcome reported when projecting right after a scan
/// failed: every document the scan added or changed counts as failed.
pub fn failed_projection_outcome(inserted: usize, updated: usize) -> (o: WorkspaceProjectionOutcome)
    ensures
        o.failed_documents == if inserted + updated <= usize::MAX { inserted + updated } else { usize::MAX as int },
        o.attempted_documents == 0 && o.projected_documents == 0,
        o.removed_documents == 0 && o.unchanged_documents == 0,
{
    let mut o = WorkspaceProjectionOutcome::new();
    o.failed_documents = inserted.saturating_add(updated);
    o
}

/// The next revision of a manifest record; refused at the largest revision.
pub fn next_revision(revision: u64, what: &str) -> (r: Result<u64, EngineError>)
    ensures
        revision < u64::MAX ==> r == Ok::<u64, EngineError>((revision + 1) as u64),
        revision == u64::MAX ==> (r matches Err(e) && e@ == ErrorView::InvalidInput(what@ + " revision overflow"@)),
{
    match revision.checked_add(1) {
        Some(n) => Ok(n),
        None => Err(EngineError::InvalidInput(concat_str(what, " revision overflow"))),
    }
}

/// The expected-hash preflight of a guarded write: the write may go ahead
/// only when the caller expects the content hash the canonical bytes have.
pub open spec fn write_guard_check(expected: Seq<char>, observed: Seq<char>) -> Result<(), ErrorView> {
    if expected == observed {
        Ok(())
    } else {
        Err(ErrorView::CanonicalSourceConflict(
            "expected content hash "@ + expected + " does not match observed canonical              hash "@ + observed,
        ))
    }
}

/// Checks a guarded write's expected content hash against the observed one.
pub fn check_write_guard(expected: &str, observed: &str) -> (r: Result<(), EngineError>)
    ensures
        unit_result(r) == write_guard_check(expected@, observed@),
{
    let e = chars_of(expected);
    if chars_eq_str(e.as_slice(), observed) {
        Ok(())
    } else {
        let a = concat_str("expected content hash ", expected);
        let a = concat_str(a.as_str(), " does not match observed canonical              hash ");
        Err(EngineError::CanonicalSourceConflict(concat_str(a.as_str(), observed)))
    }
}

/// A mount is accepted exactly when the vault is not sealed, the namespace
/// holds a non-whitespace character, and the display name holds one and
/// is at most 120 bytes long.
pub proof fn lemma_mount_accepted(sealed: bool, namespace: Seq<char>, display_name: Seq<char>, display_name_bytes: nat)
    ensures
        mount_check(sealed, namespace, display_name, display_name_bytes) is Ok <==> (!sealed
            && (exists|i: int| 0 <= i < namespace.len() && !is_ws(#[trigger] namespace[i]))
            && (exists|i: int| 0 <= i < display_name.len() && !is_ws(#[trigger] display_name[i]))
            && display_name_bytes <= 120),
        mount_check(sealed, namespace, display_name, display_name_bytes) matches Err(e) ==> e is InvalidInput,
{
    lemma_trim_empty(namespace);
    lemma_trim_empty(display_name);
}

/// The workspace a root is mounted at: the first entry with that root;
/// none when no entry has it.
pub proof fn lemma_mounted_at_first(existing: Seq<(u128, Option<Seq<char>>)>, root: Seq<char>)
    ensures
        mounted_at(existing, root) is None <==> forall|i: int| 0 <= i < existing.len() ==> (#[trigger] existing[i]).1 != Some(root),
        mounted_at(existing, root) matches Some(id) ==> exists|i: int| 0 <= i < existing.len() && (#[trigger] existing[i]).1 == Some(root)
            && existing[i].0 == id && forall|k: int| 0 <= k < i ==> (#[trigger] existing[k]).1 != Some(root),
    decreases existing.len(),
{
    if existing.len() > 0 {
        let init = existing.drop_last();
        lemma_mounted_at_first(init, root);
        assert forall|i: int| 0 <= i < init.len() implies #[trigger] init[i] == existing[i] by {}
        assert(existing[existing.len() - 1] == existing.last());
        if mounted_at(init, root) is Some {
            let j = choose|i: int| 0 <= i < init.len() && (#[trigger] init[i]).1 == Some(root)
                && init[i].0 == mounted_at(init, root)->0 && forall|k: int| 0 <= k < i ==> (#[trigger] init[k]).1 != Some(root);
            assert(existing[j] == init[j]);
            assert forall|k: int| 0 <= k < j implies (#[trigger] existing[k]).1 != Some(root) by {
                assert(init[k] == existing[k]);
            }
        } else {
            assert forall|k: int| 0 <= k < existing.len() - 1 implies (#[trigger] existing[k]).1 != Some(root) by {
                assert(init[k] == existing[k]);
            }
        }
    }
}

/// A write goes ahead exactly when the hash the writer expected is the hash
/// observed now; otherwise it conflicts with the canonical source.
pub proof fn lemma_write_guard(expected: Seq<char>, observed: Seq<char>)
    ensures
        write_guard_check(expected, observed) is Ok <==> expected == observed,
        expected != observed ==> write_guard_check(expected, observed) matches Err(ErrorView::CanonicalSourceConflict(_)),
{
}

} // verus!
