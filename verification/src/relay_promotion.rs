//! Promoting a relay message into the vault as knowledge, retracting such a
//! promotion, and keeping the owner's own relay contact in step with the
//! owner profile.

use vstd::prelude::*;
use crate::error::{unit_result, EngineError, ErrorView};
use crate::ids::{parse_uuid, uuid_parse};
use crate::obsidian::strings_view;
use crate::text::{chars_eq, chars_of, concat_str, is_ws, lemma_trim_empty, string_from_chars, trim, trim_vec};

verus! {

/// The error for a relay message that does not exist.
pub fn relay_message_not_found(message_id: &str) -> (e: EngineError)
    ensures
        e@ == ErrorView::NotFound("relay message "@ + message_id@),
{
    EngineError::NotFound(concat_str("relay message ", message_id))
}

/// What promoting a relay message does.
#[derive(PartialEq, Eq, Structural, Clone, Copy, Debug)]
pub enum PromotionStep {
    /// The message was promoted before and its node still exists: that node
    /// is the result.
    ReturnExisting(u128),
    /// Store the message as a new conversation node.
    Promote,
}

/// The promotion of a message that failed (or was blocked) is refused; one
/// already promoted gives back its node; otherwise the extractor, the actor
/// and the evidence must each be non-blank.
pub open spec fn promotion_plan(
    failed: bool,
    existing_node: Option<u128>,
    extractor: Seq<char>,
    actor: Seq<char>,
    evidence: Seq<char>,
) -> Result<PromotionStep, ErrorView> {
    if failed {
        Err(ErrorView::InvalidInput("blocked or failed relay messages cannot be promoted"@))
    } else if existing_node is Some {
        Ok(PromotionStep::ReturnExisting(existing_node->0))
    } else if trim(extractor).len() == 0 || trim(actor).len() == 0 || trim(evidence).len() == 0 {
        Err(ErrorView::InvalidInput("promotion requires extractor, actor, and evidence"@))
    } else {
        Ok(PromotionStep::Promote)
    }
}

/// Decides a promotion request; `existing_node` is the node the message is
/// bound to, when that node still exists.
pub fn plan_promotion(
    failed: bool,
    existing_node: Option<u128>,
    extractor: &str,
    actor: &str,
    evidence: &str,
) -> (r: Result<PromotionStep, EngineError>)
    ensures
        match r {
            Ok(step) => promotion_plan(failed, existing_node, extractor@, actor@, evidence@) == Ok::<PromotionStep, ErrorView>(step),
            Err(e) => promotion_plan(failed, existing_node, extractor@, actor@, evidence@) == Err::<PromotionStep, ErrorView>(e@),
        },
{
    if failed {
        return Err(EngineError::InvalidInput("blocked or failed relay messages cannot be promoted".to_string()));
    }
    if let Some(id) = existing_node {
        return Ok(PromotionStep::ReturnExisting(id));
    }
    let ex = chars_of(extractor);
    let ac = chars_of(actor);
    let ev = chars_of(evidence);
    if trim_vec(ex.as_slice()).len() == 0 || trim_vec(ac.as_slice()).len() == 0 || trim_vec(ev.as_slice()).len() == 0 {
        return Err(EngineError::InvalidInput("promotion requires extractor, actor, and evidence".to_string()));
    }
    Ok(PromotionStep::Promote)
}

/// The tags of a promoted message's node: `relay`, `promoted` and
/// `channel:{channel id}`.
pub fn promotion_tags(channel_id: &str) -> (tags: Vec<String>)
    ensures
        strings_view(tags@) == seq!["relay"@, "promoted"@, "channel:"@ + channel_id@],
{
    let mut tags: Vec<String> = Vec::new();
    tags.push("relay".to_string());
    tags.push("promoted".to_string());
    tags.push(concat_str("channel:", channel_id));
    proof { assert(strings_view(tags@) =~= seq!["relay"@, "promoted"@, "channel:"@ + channel_id@]); }
    tags
}

/// The source of a promoted message's node: `relay:{message id}`.
pub fn promotion_source(message_id: &str) -> (s: String)
    ensures
        s@ == "relay:"@ + message_id@,
{
    concat_str("relay:", message_id)
}

/// A retraction removes only the promoted node: the source message keeps
/// its content and status, and is no longer bound to a node.
pub open spec fn retraction_check(original_content: Seq<char>, retained_content: Seq<char>, same_status: bool, still_bound: bool) -> Result<(), ErrorView> {
    if retained_content != original_content {
        Err(ErrorView::Storage("retraction must not rewrite source communication content"@))
    } else if !same_status {
        Err(ErrorView::Storage("retraction must not rewrite source communication status"@))
    } else if still_bound {
        Err(ErrorView::Storage("retraction left vault_node_id bound"@))
    } else {
        Ok(())
    }
}

/// Checks the message as read back after a retraction against the message
/// as it was before.
pub fn check_retraction(original_content: &str, retained_content: &str, same_status: bool, still_bound: bool) -> (r: Result<(), EngineError>)
    ensures
        unit_result(r) == retraction_check(original_content@, retained_content@, same_status, still_bound),
{
    let a = chars_of(original_content);
    let b = chars_of(retained_content);
    if !chars_eq(a.as_slice(), b.as_slice()) {
        return Err(EngineError::Storage("retraction must not rewrite source communication content".to_string()));
    }
    if !same_status {
        return Err(EngineError::Storage("retraction must not rewrite source communication status".to_string()));
    }
    if still_bound {
        return Err(EngineError::Storage("retraction left vault_node_id bound".to_string()));
    }
    Ok(())
}

/// A relay message as the store keeps it: its content, its status, and
/// the vault node it was promoted to, if any.
pub struct RelayMessageRecord {
    pub content: String,
    pub status: String,
    pub vault_node_id: Option<u128>,
}

/// The view of a message record: content, status and bound node.
pub open spec fn record_view(m: RelayMessageRecord) -> (Seq<char>, Seq<char>, Option<u128>) {
    (m.content@, m.status@, m.vault_node_id)
}

/// A message after its promotion to `node`: bound to it, otherwise as it was.
pub open spec fn promoted_record(m: (Seq<char>, Seq<char>, Option<u128>), node: u128) -> (Seq<char>, Seq<char>, Option<u128>) {
    (m.0, m.1, Some(node))
}

/// A message after a retraction: unbound, otherwise as it was.
pub open spec fn retracted_record(m: (Seq<char>, Seq<char>, Option<u128>)) -> (Seq<char>, Seq<char>, Option<u128>) {
    (m.0, m.1, None)
}

/// Binds a promoted message to the node it became.
pub fn bind_promoted(m: RelayMessageRecord, node: u128) -> (r: RelayMessageRecord)
    ensures
        record_view(r) == promoted_record(record_view(m), node),
{
    RelayMessageRecord { content: m.content, status: m.status, vault_node_id: Some(node) }
}

/// The node a retraction deletes: the one the message is bound to.
pub fn retraction_target(m: &RelayMessageRecord) -> (r: Option<u128>)
    ensures
        r == m.vault_node_id,
{
    m.vault_node_id
}

/// Unbinds a message whose promotion is retracted.
pub fn unbind_retracted(m: RelayMessageRecord) -> (r: RelayMessageRecord)
    ensures
        record_view(r) == retracted_record(record_view(m)),
{
    RelayMessageRecord { content: m.content, status: m.status, vault_node_id: None }
}

/// A retraction undoes a promotion: it deletes exactly the promoted node,
/// and leaves the message with its content and status and bound to no node,
/// which the retraction's own check accepts.
pub proof fn lemma_retraction_undoes_promotion(m: (Seq<char>, Seq<char>, Option<u128>), node: u128)
    ensures
        promoted_record(m, node).2 == Some(node),
        retracted_record(promoted_record(m, node)).0 == m.0,
        retracted_record(promoted_record(m, node)).1 == m.1,
        retracted_record(promoted_record(m, node)).2 is None,
        retraction_check(promoted_record(m, node).0, retracted_record(promoted_record(m, node)).0, true,
            retracted_record(promoted_record(m, node)).2 is Some) == Ok::<(), ErrorView>(()),
{
}

/// Promotion is idempotent per message: once a promotion has bound the
/// message to its new node, and while that node exists, promoting the
/// message again (its status unchanged, so its `failed` flag too) gives
/// that node back and stores nothing new, whatever extractor, actor and
/// evidence the second request names.
pub proof fn lemma_second_promotion_returns_bound_node(
    m: (Seq<char>, Seq<char>, Option<u128>),
    failed: bool,
    node: u128,
    extractor: Seq<char>,
    actor: Seq<char>,
    evidence: Seq<char>,
    extractor2: Seq<char>,
    actor2: Seq<char>,
    evidence2: Seq<char>,
)
    requires
        promotion_plan(failed, m.2, extractor, actor, evidence) == Ok::<PromotionStep, ErrorView>(PromotionStep::Promote),
    ensures
        promoted_record(m, node).1 == m.1,
        promotion_plan(failed, promoted_record(m, node).2, extractor2, actor2, evidence2)
            == Ok::<PromotionStep, ErrorView>(PromotionStep::ReturnExisting(node)),
{
}

/// The non-blank text of an optional profile field, trimmed.
pub open spec fn nonblank(value: Option<Seq<char>>) -> Option<Seq<char>> {
    match value {
        Some(v) => if trim(v).len() == 0 { None } else { Some(trim(v)) },
        None => None,
    }
}

fn nonblank_exec(value: Option<&str>) -> (r: Option<String>)
    ensures
        match r {
            Some(s) => nonblank(match value { Some(v) => Some(v@), None => None }) == Some(s@),
            None => nonblank(match value { Some(v) => Some(v@), None => None }) is None,
        },
{
    match value {
        Some(v) => {
            let cv = chars_of(v);
            let t = trim_vec(cv.as_slice());
            if t.len() == 0 {
                None
            } else {
                Some(string_from_chars(t.as_slice()))
            }
        },
        None => None,
    }
}

/// The owner's relay contact as the profile describes it: the display name
/// (`MindVault Owner` when blank), the vault address (`mailto:` and the
/// e-mail, when one is given) and the signature key (when one is given).
pub struct OwnerContactFields {
    pub display_name: String,
    pub vault_address: Option<String>,
    pub signature_key: Option<String>,
}

/// The display name the owner's contact carries.
pub open spec fn owner_display_name(display_name: Seq<char>) -> Seq<char> {
    if trim(display_name).len() == 0 { "MindVault Owner"@ } else { trim(display_name) }
}

/// Derives the owner contact's fields from the profile.
pub fn owner_contact_fields(display_name: &str, email: Option<&str>, signature_key: Option<&str>) -> (f: OwnerContactFields)
    ensures
        f.display_name@ == owner_display_name(display_name@),
        match f.vault_address {
            Some(a) => nonblank(match email { Some(e) => Some(e@), None => None }) matches Some(e) && a@ == "mailto:"@ + e,
            None => nonblank(match email { Some(e) => Some(e@), None => None }) is None,
        },
        match f.signature_key {
            Some(k) => nonblank(match signature_key { Some(k) => Some(k@), None => None }) == Some(k@),
            None => nonblank(match signature_key { Some(k) => Some(k@), None => None }) is None,
        },
{
    let dn = chars_of(display_name);
    let t = trim_vec(dn.as_slice());
    let name = if t.len() == 0 { "MindVault Owner".to_string() } else { string_from_chars(t.as_slice()) };
    let address = match nonblank_exec(email) {
        Some(e) => Some(concat_str("mailto:", e.as_str())),
        None => None,
    };
    let key = nonblank_exec(signature_key);
    OwnerContactFields { display_name: name, vault_address: address, signature_key: key }
}

/// What keeping the owner's contact in step does first.
#[derive(PartialEq, Eq, Structural, Clone, Copy, Debug)]
pub enum OwnerContactStep {
    /// Leave contacts and profile as they are.
    Unchanged,
    /// Read the contact the profile points at (by its id).
    LookUp(u128),
    /// Create a fully trusted contact and record its id in the profile.
    CreateTrusted,
}

/// The relay contact the profile points at: its `relay_contact_id`
/// metadata value read as a UUID, when it is one.
pub fn owner_contact_id(metadata_value: Option<&str>) -> (r: Option<u128>)
    ensures
        r == (match metadata_value {
            Some(v) => uuid_parse(v@),
            None => None,
        }),
{
    match metadata_value {
        Some(v) => parse_uuid(v),
        None => None,
    }
}

/// The first step: read the contact the profile names, if it names one;
/// else create one when the profile carries a signature key, and do
/// nothing without one.
pub fn owner_contact_first_step(contact_id: Option<u128>, has_key: bool) -> (r: OwnerContactStep)
    ensures
        contact_id matches Some(id) ==> r == OwnerContactStep::LookUp(id),
        contact_id is None && has_key ==> r == OwnerContactStep::CreateTrusted,
        contact_id is None && !has_key ==> r == OwnerContactStep::Unchanged,
{
    match contact_id {
        Some(id) => OwnerContactStep::LookUp(id),
        None => if has_key { OwnerContactStep::CreateTrusted } else { OwnerContactStep::Unchanged },
    }
}

/// After the look-up: a found contact is
/// updated; otherwise a contact is created when there is a signature key,
/// and nothing happens without one.
#[derive(PartialEq, Eq, Structural, Clone, Copy, Debug)]
pub enum OwnerContactWrite {
    UpdateExisting,
    CreateTrusted,
    Nothing,
}

/// Decides the write that follows the look-up.
pub fn owner_contact_write(found: bool, has_key: bool) -> (w: OwnerContactWrite)
    ensures
        found ==> w == OwnerContactWrite::UpdateExisting,
        !found && has_key ==> w == OwnerContactWrite::CreateTrusted,
        !found && !has_key ==> w == OwnerContactWrite::Nothing,
{
    if found {
        OwnerContactWrite::UpdateExisting
    } else if has_key {
        OwnerContactWrite::CreateTrusted
    } else {
        OwnerContactWrite::Nothing
    }
}

/// The notes of the owner's contact: kept when it has some, else `owner`.
pub fn owner_contact_notes(existing: Option<String>) -> (n: Option<String>)
    ensures
        match existing {
            Some(e) => n == Some(e),
            None => (n matches Some(x) && x@ == "owner"@),
        },
{
    match existing {
        Some(e) => Some(e),
        None => Some("owner".to_string()),
    }
}

/// When a message is promoted: never when it failed or was blocked; a
/// message already bound to an existing node gives that node back; any
/// other is promoted exactly when the extractor, the actor and the evidence
/// each hold a non-whitespace character, and refused as invalid input
/// otherwise.
pub proof fn lemma_promotion_rules(
    failed: bool,
    existing_node: Option<u128>,
    extractor: Seq<char>,
    actor: Seq<char>,
    evidence: Seq<char>,
)
    ensures
        failed ==> promotion_plan(failed, existing_node, extractor, actor, evidence) matches Err(ErrorView::InvalidInput(_)),
        !failed && existing_node is Some ==> promotion_plan(failed, existing_node, extractor, actor, evidence)
            == Ok::<PromotionStep, ErrorView>(PromotionStep::ReturnExisting(existing_node->0)),
        !failed && existing_node is None ==> (promotion_plan(failed, existing_node, extractor, actor, evidence)
            == Ok::<PromotionStep, ErrorView>(PromotionStep::Promote) <==> (
                (exists|i: int| 0 <= i < extractor.len() && !is_ws(#[trigger] extractor[i]))
                && (exists|i: int| 0 <= i < actor.len() && !is_ws(#[trigger] actor[i]))
                && (exists|i: int| 0 <= i < evidence.len() && !is_ws(#[trigger] evidence[i])))),
        !failed && existing_node is None && promotion_plan(failed, existing_node, extractor, actor, evidence) is Err
            ==> promotion_plan(failed, existing_node, extractor, actor, evidence) matches Err(ErrorView::InvalidInput(_)),
{
    lemma_trim_empty(extractor);
    lemma_trim_empty(actor);
    lemma_trim_empty(evidence);
}

/// A retraction is accepted exactly when the source message kept its
/// content and its status and is bound to no node any more; any other
/// outcome is a storage error.
pub proof fn lemma_retraction_accepted(original_content: Seq<char>, retained_content: Seq<char>, same_status: bool, still_bound: bool)
    ensures
        retraction_check(original_content, retained_content, same_status, still_bound) is Ok
            <==> (retained_content == original_content && same_status && !still_bound),
        retraction_check(original_content, retained_content, same_status, still_bound) matches Err(e) ==> e is Storage,
{
}

/// A profile field counts only when it holds a non-whitespace character,
/// and then trimmed; the owner's display name falls back to `MindVault
/// Owner`.
pub proof fn lemma_profile_fields(value: Seq<char>)
    ensures
        (exists|i: int| 0 <= i < value.len() && !is_ws(#[trigger] value[i])) ==> nonblank(Some(value)) == Some(trim(value))
            && owner_display_name(value) == trim(value),
        (forall|i: int| 0 <= i < value.len() ==> is_ws(#[trigger] value[i])) ==> nonblank(Some(value)) is None
            && owner_display_name(value) == "MindVault Owner"@,
        nonblank(None) is None,
{
    lemma_trim_empty(value);
}

} // verus!
