//! Executing an accepted proposal: which proposals can be executed, what
//! they must carry, and the tags a node ends up with.

use vstd::prelude::*;
use crate::error::{EngineError, ErrorView};
use crate::node::{has_tag, has_tag_exec};
use crate::obsidian::strings_view;
use crate::text::{chars_eq_str, chars_of, concat_str, is_ws, lemma_trim_empty, string_from_chars, trim, trim_vec};

verus! {

/// The action a proposal asks for.
#[derive(PartialEq, Eq, Structural, Clone, Copy, Debug)]
pub enum ProposalKind {
    CreateNode,
    UpdateNode,
    SuggestTag,
    DeleteNode,
    /// Any action that is not executed here.
    Other,
}

/// Refuses actions that are not executed here.
pub fn check_executable(kind: ProposalKind) -> (r: Result<(), EngineError>)
    ensures
        kind == ProposalKind::Other <==> r is Err,
        r matches Err(e) ==> e@ == ErrorView::InvalidInput("proposal action not supported for execution"@),
{
    if kind == ProposalKind::Other {
        Err(EngineError::InvalidInput("proposal action not supported for execution".to_string()))
    } else {
        Ok(())
    }
}

/// The node an update, tag suggestion or deletion targets.
pub fn require_target(target: Option<u128>) -> (r: Result<u128, EngineError>)
    ensures
        target matches Some(t) ==> r == Ok::<u128, EngineError>(t),
        target is None ==> (r matches Err(e) && e@ == ErrorView::InvalidInput("proposal missing target_node_id"@)),
{
    match target {
        Some(t) => Ok(t),
        None => Err(EngineError::InvalidInput("proposal missing target_node_id".to_string())),
    }
}

/// The content of a node to create.
pub fn require_content(content: Option<String>) -> (r: Result<String, EngineError>)
    ensures
        content matches Some(c) ==> (r matches Ok(x) && x@ == c@),
        content is None ==> (r matches Err(e) && e@ == ErrorView::InvalidInput("proposal payload missing content"@)),
{
    match content {
        Some(c) => Ok(c),
        None => Err(EngineError::InvalidInput("proposal payload missing content".to_string())),
    }
}

/// The kind name of a node to create: the payload's, else `fact`.
pub fn create_kind_name(kind: Option<String>) -> (out: String)
    ensures
        out@ == match kind {
            Some(k) => k@,
            None => "fact"@,
        },
{
    match kind {
        Some(k) => k,
        None => "fact".to_string(),
    }
}

/// The tags of an updated node: for a tag suggestion, the current tags plus
/// the suggested tag (trimmed) unless it is blank or already there in any
/// ASCII case; for an update, the payload's tags when it has them, else the
/// current ones.
pub open spec fn merged_tags_of(current: Seq<String>, suggest: bool, suggested: Option<Seq<char>>, payload: Option<Seq<String>>) -> Option<Seq<Seq<char>>> {
    if suggest {
        match suggested {
            None => None,
            Some(t) => {
                let tt = trim(t);
                if tt.len() > 0 && !has_tag(current, tt) {
                    Some(strings_view(current).push(tt))
                } else {
                    Some(strings_view(current))
                }
            },
        }
    } else {
        match payload {
            Some(p) => Some(strings_view(p)),
            None => Some(strings_view(current)),
        }
    }
}

/// The tags of an updated node; a tag suggestion without a tag is refused.
pub fn merged_tags(current: Vec<String>, suggest: bool, suggested: Option<&str>, payload: Option<Vec<String>>) -> (r: Result<Vec<String>, EngineError>)
    ensures
        match r {
            Ok(t) => merged_tags_of(current@, suggest, match suggested {
                Some(s) => Some(s@),
                None => None,
            }, match payload {
                Some(p) => Some(p@),
                None => None,
            }) == Some(strings_view(t@)),
            Err(e) => suggest && suggested is None && e@ == ErrorView::InvalidInput("proposal payload missing tag"@),
        },
{
    if suggest {
        match suggested {
            None => Err(EngineError::InvalidInput("proposal payload missing tag".to_string())),
            Some(t) => {
                let c = chars_of(t);
                let tt = trim_vec(c.as_slice());
                let ts = string_from_chars(tt.as_slice());
                if tt.len() > 0 && !has_tag_exec(&current, ts.as_str()) {
                    let mut out = current;
                    let ghost before = out@;
                    out.push(ts);
                    proof { assert(strings_view(out@) =~= strings_view(before).push(tt@)); }
                    Ok(out)
                } else {
                    Ok(current)
                }
            },
        }
    } else {
        match payload {
            Some(p) => Ok(p),
            None => Ok(current),
        }
    }
}


/// The undo record kept before a proposal executes: which action it undoes
/// (`create_node`, `update_node` or `delete_node`); other actions keep none.
pub open spec fn undo_action_of(kind: ProposalKind) -> Option<Seq<char>> {
    match kind {
        ProposalKind::CreateNode => Some("create_node"@),
        ProposalKind::UpdateNode | ProposalKind::SuggestTag => Some("update_node"@),
        ProposalKind::DeleteNode => Some("delete_node"@),
        ProposalKind::Other => None,
    }
}

/// The action name an undo snapshot records for `kind`.
pub fn undo_action_name(kind: ProposalKind) -> (r: Option<&'static str>)
    ensures
        match r {
            Some(a) => undo_action_of(kind) == Some(a@),
            None => undo_action_of(kind) is None,
        },
{
    match kind {
        ProposalKind::CreateNode => Some("create_node"),
        ProposalKind::UpdateNode | ProposalKind::SuggestTag => Some("update_node"),
        ProposalKind::DeleteNode => Some("delete_node"),
        ProposalKind::Other => None,
    }
}

/// How an undo reverses the original action.
#[derive(PartialEq, Eq, Structural, Clone, Copy, Debug)]
pub enum UndoStep {
    /// Delete the node the proposal created.
    DeleteCreated,
    /// Write back the node as it was before the update.
    RestorePrevious,
    /// Store the deleted node again.
    Recreate,
}

/// What undoing a proposal does, given whether its snapshot was found, has
/// been used, has expired, and the action it records (`unknown` when it
/// records none).
pub open spec fn undo_plan(found: bool, used: bool, expired: bool, action: Option<Seq<char>>) -> Result<UndoStep, ErrorView> {
    let a = match action {
        Some(a) => a,
        None => "unknown"@,
    };
    if !found {
        Err(ErrorView::InvalidInput("no undo snapshot for this proposal"@))
    } else if used {
        Err(ErrorView::InvalidInput("undo already applied for this proposal"@))
    } else if expired {
        Err(ErrorView::InvalidInput("undo window has expired"@))
    } else if a == "create_node"@ {
        Ok(UndoStep::DeleteCreated)
    } else if a == "update_node"@ {
        Ok(UndoStep::RestorePrevious)
    } else if a == "delete_node"@ {
        Ok(UndoStep::Recreate)
    } else {
        Err(ErrorView::InvalidInput("cannot undo action type: "@ + a))
    }
}

/// Decides how to undo a proposal.
pub fn plan_undo(found: bool, used: bool, expired: bool, action: Option<&str>) -> (r: Result<UndoStep, EngineError>)
    ensures
        match r {
            Ok(step) => undo_plan(found, used, expired, match action { Some(a) => Some(a@), None => None }) == Ok::<UndoStep, ErrorView>(step),
            Err(e) => undo_plan(found, used, expired, match action { Some(a) => Some(a@), None => None }) == Err::<UndoStep, ErrorView>(e@),
        },
{
    if !found {
        return Err(EngineError::InvalidInput("no undo snapshot for this proposal".to_string()));
    }
    if used {
        return Err(EngineError::InvalidInput("undo already applied for this proposal".to_string()));
    }
    if expired {
        return Err(EngineError::InvalidInput("undo window has expired".to_string()));
    }
    let a: &str = match action {
        Some(a) => a,
        None => "unknown",
    };
    let ca = chars_of(a);
    if chars_eq_str(ca.as_slice(), "create_node") {
        Ok(UndoStep::DeleteCreated)
    } else if chars_eq_str(ca.as_slice(), "update_node") {
        Ok(UndoStep::RestorePrevious)
    } else if chars_eq_str(ca.as_slice(), "delete_node") {
        Ok(UndoStep::Recreate)
    } else {
        Err(EngineError::InvalidInput(concat_str("cannot undo action type: ", a)))
    }
}

/// How an undo is decided: refused without a snapshot, after an undo
/// already applied, or once the window expired (checked in that order);
/// otherwise a created node is deleted, an updated one restored, a deleted
/// one stored again, and any other action refused.
pub proof fn lemma_undo_steps(found: bool, used: bool, expired: bool, action: Option<Seq<char>>)
    ensures
        !found ==> undo_plan(found, used, expired, action) is Err,
        used ==> undo_plan(found, used, expired, action) is Err,
        expired ==> undo_plan(found, used, expired, action) is Err,
        found && !used && !expired && action == Some(seq!['c', 'r', 'e', 'a', 't', 'e', '_', 'n', 'o', 'd', 'e'])
            ==> undo_plan(found, used, expired, action) == Ok::<UndoStep, ErrorView>(UndoStep::DeleteCreated),
        found && !used && !expired && action == Some(seq!['u', 'p', 'd', 'a', 't', 'e', '_', 'n', 'o', 'd', 'e'])
            ==> undo_plan(found, used, expired, action) == Ok::<UndoStep, ErrorView>(UndoStep::RestorePrevious),
        found && !used && !expired && action == Some(seq!['d', 'e', 'l', 'e', 't', 'e', '_', 'n', 'o', 'd', 'e'])
            ==> undo_plan(found, used, expired, action) == Ok::<UndoStep, ErrorView>(UndoStep::Recreate),
        found && !used && !expired && action is None ==> undo_plan(found, used, expired, action) is Err,
{
    reveal_strlit("create_node");
    reveal_strlit("update_node");
    reveal_strlit("delete_node");
    reveal_strlit("unknown");
    assert("create_node"@ =~= seq!['c', 'r', 'e', 'a', 't', 'e', '_', 'n', 'o', 'd', 'e']);
    assert("update_node"@ =~= seq!['u', 'p', 'd', 'a', 't', 'e', '_', 'n', 'o', 'd', 'e']);
    assert("delete_node"@ =~= seq!['d', 'e', 'l', 'e', 't', 'e', '_', 'n', 'o', 'd', 'e']);
    assert("unknown"@ != "create_node"@ && "unknown"@ != "update_node"@ && "unknown"@ != "delete_node"@) by {
        assert("unknown"@.len() != "create_node"@.len());
    }
}

/// A suggested tag is added once: when it holds a non-whitespace character
/// and the node has no tag equal to it (ignoring ASCII case), the node's
/// tags gain it, trimmed, at the end; otherwise they stay as they were.
pub proof fn lemma_suggested_tag_added_once(current: Seq<String>, tag: Seq<char>)
    ensures
        ({
            let t = trim(tag);
            &&& ((exists|i: int| 0 <= i < tag.len() && !is_ws(#[trigger] tag[i])) && !has_tag(current, t))
                ==> merged_tags_of(current, true, Some(tag), None) == Some(strings_view(current).push(t))
            &&& has_tag(current, t) ==> merged_tags_of(current, true, Some(tag), None) == Some(strings_view(current))
            &&& (forall|i: int| 0 <= i < tag.len() ==> is_ws(#[trigger] tag[i]))
                ==> merged_tags_of(current, true, Some(tag), None) == Some(strings_view(current))
        }),
        merged_tags_of(current, true, None, None) is None,
{
    lemma_trim_empty(tag);
}

} // verus!
