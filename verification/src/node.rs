//! What the engine's rules read of a knowledge node or relationship: its
//! kind, its tags and the metadata entries the rules look at.

use vstd::prelude::*;
use crate::error::EngineError;
use crate::text::{ascii_lower_char, chars_of, eq_ignore_ascii_case, eq_ignore_ascii_case_vec, chars_eq_str, lemma_eq_ignore_ascii_case};

verus! {

/// The kind of a knowledge node.
#[derive(PartialEq, Eq, Structural, Clone, Copy, Debug)]
pub enum NodeKind {
    Fact,
    Task,
    Event,
    Project,
    Decision,
    Procedure,
    Template,
    Conversation,
}

/// A metadata value, as far as the rules distinguish it.
pub enum MetaValue {
    Bool(bool),
    Text(String),
    /// A JSON object with its `schema` member, when that member is a string.
    Object(Option<String>),
    /// Any other JSON value.
    Other,
}

/// The specification view of a metadata value.
pub enum MetaView {
    Bool(bool),
    Text(Seq<char>),
    Object(Option<Seq<char>>),
    Other,
}

impl View for MetaValue {
    type V = MetaView;

    open spec fn view(&self) -> MetaView {
        match self {
            MetaValue::Bool(b) => MetaView::Bool(*b),
            MetaValue::Text(s) => MetaView::Text(s@),
            MetaValue::Object(s) => MetaView::Object(match s {
                Some(t) => Some(t@),
                None => None,
            }),
            MetaValue::Other => MetaView::Other,
        }
    }
}

/// A node as the rules read it.
pub struct NodeTraits {
    pub kind: NodeKind,
    pub tags: Vec<String>,
    /// Metadata entries in insertion order; a later entry overrides an
    /// earlier one with the same key.
    pub metadata: Vec<(String, MetaValue)>,
}

/// The metadata entries as plain values.
pub open spec fn meta_view(m: Seq<(String, MetaValue)>) -> Seq<(Seq<char>, MetaView)> {
    m.map_values(|e: (String, MetaValue)| (e.0@, e.1@))
}

/// The value of `key`: that of the last entry with that key.
pub open spec fn meta_get(m: Seq<(Seq<char>, MetaView)>, key: Seq<char>) -> Option<MetaView>
    decreases m.len(),
{
    if m.len() == 0 {
        None
    } else if m.last().0 == key {
        Some(m.last().1)
    } else {
        meta_get(m.drop_last(), key)
    }
}

/// Whether `key` holds the boolean `true` (absent or non-boolean is false).
pub open spec fn meta_flag(m: Seq<(Seq<char>, MetaView)>, key: Seq<char>) -> bool {
    meta_get(m, key) == Some(MetaView::Bool(true))
}

/// Whether some tag equals `word`, ignoring ASCII case.
pub open spec fn has_tag(tags: Seq<String>, word: Seq<char>) -> bool {
    exists|i: int| 0 <= i < tags.len() && eq_ignore_ascii_case(#[trigger] tags[i]@, word)
}

/// The value of `key` among `metadata`.
pub fn meta_get_exec<'a>(metadata: &'a Vec<(String, MetaValue)>, key: &str) -> (r: Option<&'a MetaValue>)
    ensures
        r is Some == meta_get(meta_view(metadata@), key@) is Some,
        r is Some ==> meta_get(meta_view(metadata@), key@) == Some(r->0@),
{
    let ghost m = meta_view(metadata@);
    let k = chars_of(key);
    let mut i = metadata.len();
    proof { assert(m.take(i as int) =~= m); }
    while i > 0
        invariant
            i <= metadata@.len(),
            m == meta_view(metadata@),
            k@ == key@,
            meta_get(m, key@) == meta_get(m.take(i as int), key@),
        decreases i,
    {
        proof {
            assert(m.take(i as int).drop_last() =~= m.take(i - 1));
            assert(m.take(i as int).last() == (metadata@[i - 1].0@, metadata@[i - 1].1@));
        }
        if chars_eq_str(k.as_slice(), metadata[i - 1].0.as_str()) {
            return Some(&metadata[i - 1].1);
        }
        i -= 1;
    }
    None
}

/// Whether `key` holds the boolean `true`.
pub fn meta_flag_exec(metadata: &Vec<(String, MetaValue)>, key: &str) -> (b: bool)
    ensures
        b == meta_flag(meta_view(metadata@), key@),
{
    match meta_get_exec(metadata, key) {
        Some(MetaValue::Bool(v)) => *v,
        _ => false,
    }
}

/// Whether some tag equals `word`, ignoring ASCII case.
pub fn has_tag_exec(tags: &Vec<String>, word: &str) -> (b: bool)
    ensures
        b == has_tag(tags@, word@),
{
    let w = chars_of(word);
    let mut i: usize = 0;
    while i < tags.len()
        invariant
            i <= tags@.len(),
            w@ == word@,
            forall|j: int| 0 <= j < i ==> !eq_ignore_ascii_case(#[trigger] tags@[j]@, word@),
        decreases tags.len() - i,
    {
        let t = chars_of(tags[i].as_str());
        if eq_ignore_ascii_case_vec(t.as_slice(), w.as_slice()) {
            return true;
        }
        i += 1;
    }
    false
}

/// The tag that marks daily notes.
pub const DAILY_NOTE_TAG: &'static str = "daily-note";

/// The metadata key of a node's workspace projection record.
pub const WORKSPACE_PROJECTION_METADATA_KEY: &'static str = "mindvault.workspace_projection";

/// The schema that marks a workspace projection record.
pub const WORKSPACE_PROJECTION_SCHEMA: &'static str = "mindvault.workspace-projection/v1";

/// A daily note: tagged `daily-note` (any ASCII case) or flagged
/// `daily_note: true`.
pub open spec fn daily_note(n: NodeTraits) -> bool {
    has_tag(n.tags@, "daily-note"@) || meta_flag(meta_view(n.metadata@), "daily_note"@)
}

/// A template: of kind `Template`, flagged `template: true`, or tagged
/// `template`.
pub open spec fn template_node(n: NodeTraits) -> bool {
    n.kind == NodeKind::Template || meta_flag(meta_view(n.metadata@), "template"@)
        || has_tag(n.tags@, "template"@)
}

/// The tags that make a node a candidate for linking to the daily note.
pub open spec fn daily_link_tags() -> Seq<Seq<char>> {
    seq!["task"@, "tasks"@, "todo"@, "to-do"@, "event"@, "events"@, "meeting"@, "reminder"@]
}

/// A node to link to the daily note: a task, an event, or tagged with one
/// of `daily_link_tags`.
pub open spec fn daily_link_candidate(n: NodeTraits) -> bool {
    n.kind == NodeKind::Task || n.kind == NodeKind::Event
        || exists|k: int| 0 <= k < daily_link_tags().len() && has_tag(n.tags@, #[trigger] daily_link_tags()[k])
}

/// A projection of a canonical workspace document: its projection record is
/// an object whose `schema` is `mindvault.workspace-projection/v1`.
pub open spec fn workspace_projection_node(n: NodeTraits) -> bool {
    meta_get(meta_view(n.metadata@), "mindvault.workspace_projection"@)
        == Some(MetaView::Object(Some("mindvault.workspace-projection/v1"@)))
}

/// Whether `node` is a daily note.
pub fn is_daily_note(node: &NodeTraits) -> (b: bool)
    ensures
        b == daily_note(*node),
{
    has_tag_exec(&node.tags, DAILY_NOTE_TAG) || meta_flag_exec(&node.metadata, "daily_note")
}

/// Whether `node` is a template.
pub fn is_template_node(node: &NodeTraits) -> (b: bool)
    ensures
        b == template_node(*node),
{
    node.kind == NodeKind::Template || meta_flag_exec(&node.metadata, "template")
        || has_tag_exec(&node.tags, "template")
}

/// Whether `node` should be linked to the daily note.
pub fn is_daily_link_candidate(node: &NodeTraits) -> (b: bool)
    ensures
        b == daily_link_candidate(*node),
{
    if node.kind == NodeKind::Task || node.kind == NodeKind::Event {
        return true;
    }
    let words = ["task", "tasks", "todo", "to-do", "event", "events", "meeting", "reminder"];
    proof {
        reveal_strlit("task");
        reveal_strlit("tasks");
        reveal_strlit("todo");
        reveal_strlit("to-do");
        reveal_strlit("event");
        reveal_strlit("events");
        reveal_strlit("meeting");
        reveal_strlit("reminder");
        assert(words@.map_values(|w: &str| w@) =~= daily_link_tags());
    }
    let mut k: usize = 0;
    while k < 8
        invariant
            k <= 8,
            words@.len() == 8,
            words@.map_values(|w: &str| w@) == daily_link_tags(),
            forall|q: int| 0 <= q < k ==> !has_tag(node.tags@, #[trigger] daily_link_tags()[q]),
        decreases 8 - k,
    {
        proof { assert(words@.map_values(|w: &str| w@)[k as int] == words@[k as int]@); }
        if has_tag_exec(&node.tags, words[k]) {
            return true;
        }
        k += 1;
    }
    false
}

/// Whether a relationship's metadata marks it as an automatic backlink.
pub fn is_auto_backlink_relationship(metadata: &Vec<(String, MetaValue)>) -> (b: bool)
    ensures
        b == meta_flag(meta_view(metadata@), "auto_backlink"@),
{
    meta_flag_exec(metadata, "auto_backlink")
}

/// Whether `node` is the projection of a canonical workspace document.
pub fn is_workspace_projection_node(node: &NodeTraits) -> (b: bool)
    ensures
        b == workspace_projection_node(*node),
{
    match meta_get_exec(&node.metadata, WORKSPACE_PROJECTION_METADATA_KEY) {
        Some(MetaValue::Object(Some(schema))) => {
            let s = chars_of(schema.as_str());
            chars_eq_str(s.as_slice(), WORKSPACE_PROJECTION_SCHEMA)
        },
        _ => false,
    }
}

/// Refuses a node that carries a workspace projection record: that record
/// is reserved for projections of canonical documents.
pub fn reject_reserved_workspace_projection_marker(node: &NodeTraits) -> (r: Result<(), EngineError>)
    ensures
        r is Ok <==> meta_get(meta_view(node.metadata@), "mindvault.workspace_projection"@) is None,
        r matches Err(EngineError::InvalidInput(m)) ==> m@ == "workspace projection metadata is reserved for canonical Markdown documents"@,
        r is Err ==> r->Err_0 is InvalidInput,
{
    if meta_get_exec(&node.metadata, WORKSPACE_PROJECTION_METADATA_KEY).is_some() {
        return Err(EngineError::InvalidInput(
            "workspace projection metadata is reserved for canonical Markdown documents".to_string(),
        ));
    }
    Ok(())
}

/// Refuses to mutate a node that projects a canonical workspace document.
pub fn reject_workspace_projection_mutation(node: &NodeTraits) -> (r: Result<(), EngineError>)
    ensures
        r is Ok <==> !workspace_projection_node(*node),
        r matches Err(EngineError::CanonicalSourceConflict(m)) ==> m@ == "this node is a read-only projection; mutate its canonical document through the workspace API"@,
        r is Err ==> r->Err_0 is CanonicalSourceConflict,
{
    if is_workspace_projection_node(node) {
        return Err(EngineError::CanonicalSourceConflict(
            "this node is a read-only projection; mutate its canonical document through the workspace API".to_string(),
        ));
    }
    Ok(())
}

/// The value of a metadata key is that of its last entry; a key without
/// an entry has none.
pub proof fn lemma_meta_get_last(m: Seq<(Seq<char>, MetaView)>, key: Seq<char>)
    ensures
        meta_get(m, key) is None <==> forall|i: int| 0 <= i < m.len() ==> (#[trigger] m[i]).0 != key,
        meta_get(m, key) matches Some(v) ==> exists|i: int| 0 <= i < m.len() && (#[trigger] m[i]).0 == key && m[i].1 == v
            && forall|k: int| i < k < m.len() ==> (#[trigger] m[k]).0 != key,
    decreases m.len(),
{
    if m.len() > 0 {
        let init = m.drop_last();
        lemma_meta_get_last(init, key);
        assert forall|i: int| 0 <= i < init.len() implies #[trigger] init[i] == m[i] by {}
        assert(m[m.len() - 1] == m.last());
        if m.last().0 != key {
            if meta_get(init, key) is Some {
                let v = meta_get(init, key)->0;
                let j = choose|i: int| 0 <= i < init.len() && (#[trigger] init[i]).0 == key && init[i].1 == v
                    && forall|k: int| i < k < init.len() ==> (#[trigger] init[k]).0 != key;
                assert(m[j] == init[j]);
                assert forall|k: int| j < k < m.len() implies (#[trigger] m[k]).0 != key by {
                    if k < m.len() - 1 {
                        assert(init[k] == m[k]);
                    }
                }
            } else {
                assert forall|k: int| 0 <= k < m.len() implies (#[trigger] m[k]).0 != key by {
                    if k < m.len() - 1 {
                        assert(init[k] == m[k]);
                    }
                }
            }
        }
    }
}

/// A tag is held when some tag of the node is the word in any ASCII case.
pub proof fn lemma_has_tag_any_case(tags: Seq<String>, word: Seq<char>)
    ensures
        has_tag(tags, word) <==> exists|i: int| 0 <= i < tags.len() && (#[trigger] tags[i])@.len() == word.len()
            && forall|k: int| 0 <= k < word.len() ==> #[trigger] ascii_lower_char(tags[i]@[k]) == ascii_lower_char(word[k]),
{
    assert forall|i: int| 0 <= i < tags.len() implies (eq_ignore_ascii_case(#[trigger] tags[i]@, word) <==> (tags[i]@.len() == word.len()
        && forall|k: int| 0 <= k < word.len() ==> #[trigger] ascii_lower_char(tags[i]@[k]) == ascii_lower_char(word[k]))) by {
        lemma_eq_ignore_ascii_case(tags[i]@, word);
    }
}

} // verus!
