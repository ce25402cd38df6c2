//! Projecting the canonical Markdown documents of a knowledge workspace into
//! nodes: what each document becomes, which documents a run touches, and
//! the counts a run reports.

use vstd::prelude::*;
use vstd::string::StringSliceAdditionalSpecFns;
use crate::error::{text_result, EngineError, ErrorView};
use crate::node::{is_workspace_projection_node, workspace_projection_node, NodeKind, NodeTraits};
use crate::obsidian::{
    determine_kind, extract_frontmatter_tags, frontmatter_tags, note_kind, parse_frontmatter,
    parsed_frontmatter, strings_view, FmValue, Frontmatter, FrontmatterValue,
};
use crate::text::{
    chars_of, concat_str, is_ws, lemma_trim_empty, last_index_of, last_index_of_vec, lemma_last_index_of_bounds, lines,
    lines_vec, slice_vec, starts_with, starts_with_vec, string_from_chars, strip_suffix_rep,
    strip_suffix_rep_vec, trim, trim_vec,
};

verus! {

/// The first `# ` heading among `ls` whose text, trimmed, is not empty.
pub open spec fn first_heading(ls: Seq<Seq<char>>) -> Option<Seq<char>>
    decreases ls.len(),
{
    if ls.len() == 0 {
        None
    } else if starts_with(ls[0], "# "@) && trim(ls[0].skip(2)).len() > 0 {
        Some(trim(ls[0].skip(2)))
    } else {
        first_heading(ls.drop_first())
    }
}

/// The part of `path` after its last `/` (all of it without one).
pub open spec fn last_segment(path: Seq<char>) -> Seq<char> {
    match last_index_of(path, '/') {
        Some(i) => path.skip(i + 1),
        None => path,
    }
}

/// The title of a projected document: its frontmatter's text `title`,
/// trimmed, when not empty; else its first non-empty `# ` heading, trimmed;
/// else its file name without `.markdown` and `.md` endings.
pub open spec fn title_of(properties: Map<Seq<char>, FmValue>, content: Seq<char>, relative_path: Seq<char>) -> Seq<char> {
    if properties.contains_key("title"@) && properties["title"@] is Text && trim(properties["title"@]->Text_0).len() > 0 {
        trim(properties["title"@]->Text_0)
    } else {
        match first_heading(lines(content)) {
            Some(h) => h,
            None => strip_suffix_rep(strip_suffix_rep(last_segment(relative_path), ".markdown"@), ".md"@),
        }
    }
}

/// The title of a projected document.
pub fn projection_title(properties: &Frontmatter, content: &str, relative_path: &str) -> (out: String)
    ensures
        out@ == title_of(properties@, content@, relative_path@),
{
    match properties.get("title") {
        Some(FrontmatterValue::Text(t)) => {
            let tc = chars_of(t.as_str());
            let tt = trim_vec(tc.as_slice());
            if tt.len() > 0 {
                return string_from_chars(tt.as_slice());
            }
        },
        _ => {},
    }
    assert(!(properties@.contains_key("title"@) && properties@["title"@] is Text && trim(properties@["title"@]->Text_0).len() > 0));
    let cs = chars_of(content);
    let ls = lines_vec(cs.as_slice());
    let ghost lv = ls@.map_values(|l: Vec<char>| l@);
    let marker = chars_of("# ");
    proof {
        reveal_strlit("# ");
        assert(lv.skip(0) =~= lv);
    }
    let mut i: usize = 0;
    while i < ls.len()
        invariant
            i <= ls@.len(),
            lv == ls@.map_values(|l: Vec<char>| l@),
            lv == lines(content@),
            marker@ == "# "@,
            first_heading(lines(content@)) == first_heading(lv.skip(i as int)),
            !(properties@.contains_key("title"@) && properties@["title"@] is Text && trim(properties@["title"@]->Text_0).len() > 0),
        decreases ls.len() - i,
    {
        proof {
            reveal_strlit("# ");
            let r = lv.skip(i as int);
            assert(r[0] == ls@[i as int]@);
            assert(r.drop_first() =~= lv.skip(i + 1));
        }
        if starts_with_vec(ls[i].as_slice(), marker.as_slice()) {
            let n = ls[i].len();
            let rest = slice_vec(ls[i].as_slice(), 2, n);
            let h = trim_vec(rest.as_slice());
            proof { assert(rest@ =~= ls@[i as int]@.skip(2)); }
            if h.len() > 0 {
                assert(first_heading(lv.skip(i as int)) == Some(h@));
                return string_from_chars(h.as_slice());
            }
        }
        i += 1;
    }
    proof { assert(lv.skip(ls@.len() as int) =~= Seq::<Seq<char>>::empty()); }
    let pc = chars_of(relative_path);
    let seg = match last_index_of_vec(pc.as_slice(), '/') {
        Some(k) => {
            let n = pc.len();
            let v = slice_vec(pc.as_slice(), k + 1, n);
            proof { assert(v@ =~= pc@.skip(k + 1)); }
            v
        },
        None => pc,
    };
    let md1 = chars_of(".markdown");
    let a = strip_suffix_rep_vec(seg.as_slice(), md1.as_slice());
    let md2 = chars_of(".md");
    let b = strip_suffix_rep_vec(a.as_slice(), md2.as_slice());
    string_from_chars(b.as_slice())
}

/// The `application/x-www-form-urlencoded` form of one byte: ASCII letters,
/// digits and `*-._` unchanged, a space as `+`, anything else as `%` and two
/// uppercase hexadecimal digits.
pub open spec fn urlencoded_byte(b: u8) -> Seq<char> {
    if b == 42 || b == 45 || b == 46 || (48 <= b <= 57) || (65 <= b <= 90) || b == 95 || (97 <= b <= 122) {
        seq![b as char]
    } else if b == 32 {
        seq!['+']
    } else {
        seq!['%', upper_hex((b / 16) as nat), upper_hex((b % 16) as nat)]
    }
}

/// An uppercase hexadecimal digit.
pub open spec fn upper_hex(d: nat) -> char {
    if d < 10 { ((d + 48) as u32) as char } else { ((d - 10 + 65) as u32) as char }
}

/// The form-urlencoded text of `bytes`.
pub open spec fn form_urlencoded(bytes: Seq<u8>) -> Seq<char>
    decreases bytes.len(),
{
    if bytes.len() == 0 {
        Seq::empty()
    } else {
        urlencoded_byte(bytes[0]) + form_urlencoded(bytes.drop_first())
    }
}

/// Form-urlencodes the UTF-8 bytes of `s` with `url::form_urlencoded::
/// byte_serialize`, whose source maps each byte as `urlencoded_byte` says.
#[verifier::external_body]
fn form_urlencode(s: &str) -> (out: String)
    ensures
        out@ == form_urlencoded(s.spec_bytes()),
{
    url::form_urlencoded::byte_serialize(s.as_bytes()).collect::<String>()
}

/// The source of a projected node:
/// `mindvault-workspace://<workspace id>/<form-urlencoded relative path>`.
pub fn projection_source(workspace_id: &str, relative_path: &str) -> (out: String)
    ensures
        out@ == "mindvault-workspace://"@ + workspace_id@ + "/"@ + form_urlencoded(relative_path.spec_bytes()),
{
    let encoded = form_urlencode(relative_path);
    let a = concat_str("mindvault-workspace://", workspace_id);
    let a = concat_str(a.as_str(), "/");
    concat_str(a.as_str(), encoded.as_str())
}

/// The parent folder of a relative path: the text before its last `/`.
pub open spec fn parent_path_of(relative_path: Seq<char>) -> Option<Seq<char>> {
    match last_index_of(relative_path, '/') {
        Some(i) => Some(relative_path.take(i)),
        None => None,
    }
}

/// The parent folder of a relative path, if it has one.
pub fn parent_path(relative_path: &str) -> (out: Option<String>)
    ensures
        crate::obsidian::opt_string_view(&out) == parent_path_of(relative_path@),
{
    let pc = chars_of(relative_path);
    match last_index_of_vec(pc.as_slice(), '/') {
        Some(k) => {
            let v = slice_vec(pc.as_slice(), 0, k);
            proof { assert(v@ =~= pc@.take(k as int)); }
            Some(string_from_chars(v.as_slice()))
        },
        None => None,
    }
}

/// The version of a projected node: the document's revision, or `u32::MAX`
/// when it does not fit.
pub fn projection_version(revision: i64) -> (v: u32)
    ensures
        v == (if 0 <= revision <= u32::MAX { revision as int } else { u32::MAX as int }),
{
    if 0 <= revision && revision <= 4294967295 {
        revision as u32
    } else {
        u32::MAX
    }
}

/// The node fields of a projected document.
pub struct ProjectionFields {
    pub kind: NodeKind,
    pub title: String,
    pub tags: Vec<String>,
    pub source: String,
    pub parent_path: Option<String>,
    /// The document's frontmatter.
    pub properties: Frontmatter,
}

/// The outcome of checking a document for projection: refused unless the
/// observation is active, the manifest entry decoded, its content hash is the
/// observed one, the content is UTF-8 and has a hash; else the hash.
pub open spec fn projection_check(
    observed_active: bool,
    manifest_hash: Result<Option<Seq<char>>, ErrorView>,
    observed_hash: Option<Seq<char>>,
    has_content: bool,
) -> Result<Seq<char>, ErrorView> {
    if !observed_active {
        Err(ErrorView::InvalidInput("only active UTF-8 documents can be projected"@))
    } else {
        match manifest_hash {
            Err(e) => Err(e),
            Ok(h) => if h != observed_hash {
                Err(ErrorView::CanonicalSourceConflict("canonical content changed after manifest reconciliation"@))
            } else if !has_content {
                Err(ErrorView::InvalidInput("active workspace document has no UTF-8 content"@))
            } else {
                match observed_hash {
                    Some(x) => Ok(x),
                    None => Err(ErrorView::Internal("active workspace document has no content hash"@)),
                }
            },
        }
    }
}

/// Checks what projecting a document needs: an active observation, the
/// content hash the manifest last recorded (or the error met decoding the
/// manifest entry) equal to the observed one, UTF-8 content, and a content
/// hash. Returns the content hash.
pub fn projection_preconditions(
    observed_active: bool,
    manifest_hash: Result<Option<String>, EngineError>,
    observed_hash: Option<String>,
    has_content: bool,
) -> (r: Result<String, EngineError>)
    ensures
        text_result(r) == projection_check(
            observed_active,
            match manifest_hash {
                Ok(h) => Ok(crate::obsidian::opt_string_view(&h)),
                Err(e) => Err(e@),
            },
            crate::obsidian::opt_string_view(&observed_hash),
            has_content,
        ),
{
    if !observed_active {
        return Err(EngineError::InvalidInput("only active UTF-8 documents can be projected".to_string()));
    }
    let h = match manifest_hash {
        Ok(h) => h,
        Err(e) => return Err(e),
    };
    let same = match (&h, &observed_hash) {
        (Some(a), Some(b)) => {
            let ca = chars_of(a.as_str());
            crate::text::chars_eq_str(ca.as_slice(), b.as_str())
        },
        (None, None) => true,
        _ => false,
    };
    if !same {
        return Err(EngineError::CanonicalSourceConflict("canonical content changed after manifest reconciliation".to_string()));
    }
    if !has_content {
        return Err(EngineError::InvalidInput("active workspace document has no UTF-8 content".to_string()));
    }
    match observed_hash {
        Some(x) => Ok(x),
        None => Err(EngineError::Internal("active workspace document has no content hash".to_string())),
    }
}

/// What a document becomes as a node: kind, title and tags from its
/// frontmatter and content, its source and parent folder.
pub fn projection_fields(workspace_id: &str, relative_path: &str, content: &str) -> (f: ProjectionFields)
    ensures
        f.properties@ == parsed_frontmatter(content@).0,
        f.kind == note_kind(parsed_frontmatter(content@).0),
        f.title@ == title_of(parsed_frontmatter(content@).0, content@, relative_path@),
        strings_view(f.tags@) == frontmatter_tags(parsed_frontmatter(content@).0),
        f.source@ == "mindvault-workspace://"@ + workspace_id@ + "/"@ + form_urlencoded(relative_path.spec_bytes()),
        crate::obsidian::opt_string_view(&f.parent_path) == parent_path_of(relative_path@),
{
    let (properties, _) = parse_frontmatter(content);
    let title = projection_title(&properties, content, relative_path);
    let tags = extract_frontmatter_tags(&properties);
    let kind = determine_kind(&properties);
    let source = projection_source(workspace_id, relative_path);
    let parent = parent_path(relative_path);
    ProjectionFields { kind, title, tags, source, parent_path: parent, properties }
}

/// What a projection run does with one manifest document.
#[derive(PartialEq, Eq, Structural, Clone, Copy, Debug)]
pub enum DocumentPlan {
    /// The document is no longer active: remove its projection.
    RemoveInactive,
    /// The projection is ready and the run is not forced.
    Unchanged,
    /// Project the document.
    Project,
}

/// The plan for a document.
pub open spec fn document_plan(active: bool, force: bool, ready: bool) -> DocumentPlan {
    if !active {
        DocumentPlan::RemoveInactive
    } else if !force && ready {
        DocumentPlan::Unchanged
    } else {
        DocumentPlan::Project
    }
}

/// Decides what a run does with a document that is `active` or not, in a
/// `force`d run or not, whose projection is `ready` or not.
pub fn plan_document(active: bool, force: bool, ready: bool) -> (p: DocumentPlan)
    ensures
        p == document_plan(active, force, ready),
{
    if !active {
        DocumentPlan::RemoveInactive
    } else if !force && ready {
        DocumentPlan::Unchanged
    } else {
        DocumentPlan::Project
    }
}

/// Whether a run refreshes the links of every active document: when forced,
/// or when some active document has no projected node yet. `documents`
/// holds, per document, whether it is active and whether it has a
/// projected node.
pub fn needs_full_link_refresh(force: bool, documents: &Vec<(bool, bool)>) -> (b: bool)
    ensures
        b == (force || exists|i: int| 0 <= i < documents@.len() && (#[trigger] documents@[i]).0 && !documents@[i].1),
{
    if force {
        return true;
    }
    let mut i: usize = 0;
    while i < documents.len()
        invariant
            i <= documents@.len(),
            forall|j: int| 0 <= j < i ==> !((#[trigger] documents@[j]).0 && !documents@[j].1),
        decreases documents.len() - i,
    {
        if documents[i].0 && !documents[i].1 {
            return true;
        }
        i += 1;
    }
    false
}

/// Counts of one projection run.
pub struct WorkspaceProjectionOutcome {
    pub attempted_documents: usize,
    pub projected_documents: usize,
    pub removed_documents: usize,
    pub unchanged_documents: usize,
    pub failed_documents: usize,
}

/// `n + 1`, or `n` at `usize::MAX`.
pub open spec fn bump(n: usize) -> usize {
    if n < usize::MAX { (n + 1) as usize } else { n }
}

impl WorkspaceProjectionOutcome {
    /// All counts zero.
    pub fn new() -> (o: Self)
        ensures
            o.attempted_documents == 0 && o.projected_documents == 0 && o.removed_documents == 0,
            o.unchanged_documents == 0 && o.failed_documents == 0,
    {
        WorkspaceProjectionOutcome {
            attempted_documents: 0,
            projected_documents: 0,
            removed_documents: 0,
            unchanged_documents: 0,
            failed_documents: 0,
        }
    }

    /// An inactive document: its projection was removed, or it had none.
    pub fn record_inactive(&mut self, had_projection: bool, removed: bool)
        ensures
            final(self).removed_documents == if had_projection && removed { bump(old(self).removed_documents) } else { old(self).removed_documents },
            final(self).unchanged_documents == if !had_projection { bump(old(self).unchanged_documents) } else { old(self).unchanged_documents },
            final(self).attempted_documents == old(self).attempted_documents,
            final(self).projected_documents == old(self).projected_documents,
            final(self).failed_documents == old(self).failed_documents,
    {
        if had_projection {
            if removed {
                self.removed_documents = self.removed_documents.saturating_add(1);
            }
        } else {
            self.unchanged_documents = self.unchanged_documents.saturating_add(1);
        }
    }

    /// A document left as it is.
    pub fn record_unchanged(&mut self)
        ensures
            final(self).unchanged_documents == bump(old(self).unchanged_documents),
            final(self).attempted_documents == old(self).attempted_documents,
            final(self).projected_documents == old(self).projected_documents,
            final(self).removed_documents == old(self).removed_documents,
            final(self).failed_documents == old(self).failed_documents,
    {
        self.unchanged_documents = self.unchanged_documents.saturating_add(1);
    }

    /// A document the run tries to project.
    pub fn record_attempt(&mut self)
        ensures
            final(self).attempted_documents == bump(old(self).attempted_documents),
            final(self).projected_documents == old(self).projected_documents,
            final(self).removed_documents == old(self).removed_documents,
            final(self).unchanged_documents == old(self).unchanged_documents,
            final(self).failed_documents == old(self).failed_documents,
    {
        self.attempted_documents = self.attempted_documents.saturating_add(1);
    }

    /// A document whose projection failed.
    pub fn record_failure(&mut self)
        ensures
            final(self).failed_documents == bump(old(self).failed_documents),
            final(self).attempted_documents == old(self).attempted_documents,
            final(self).projected_documents == old(self).projected_documents,
            final(self).removed_documents == old(self).removed_documents,
            final(self).unchanged_documents == old(self).unchanged_documents,
    {
        self.failed_documents = self.failed_documents.saturating_add(1);
    }

    /// A document whose projection is now ready.
    pub fn record_projected(&mut self)
        ensures
            final(self).projected_documents == bump(old(self).projected_documents),
            final(self).attempted_documents == old(self).attempted_documents,
            final(self).removed_documents == old(self).removed_documents,
            final(self).unchanged_documents == old(self).unchanged_documents,
            final(self).failed_documents == old(self).failed_documents,
    {
        self.projected_documents = self.projected_documents.saturating_add(1);
    }

    /// A document counted unchanged whose links then failed to refresh: it
    /// is counted attempted and failed instead.
    pub fn record_link_failure_of_unchanged(&mut self)
        ensures
            final(self).attempted_documents == bump(old(self).attempted_documents),
            final(self).failed_documents == bump(old(self).failed_documents),
            final(self).unchanged_documents == if old(self).unchanged_documents > 0 { old(self).unchanged_documents - 1 } else { 0 },
            final(self).projected_documents == old(self).projected_documents,
            final(self).removed_documents == old(self).removed_documents,
    {
        self.attempted_documents = self.attempted_documents.saturating_add(1);
        self.failed_documents = self.failed_documents.saturating_add(1);
        self.unchanged_documents = self.unchanged_documents.saturating_sub(1);
    }
}

/// How recovering one event's projections ended.
#[derive(PartialEq, Eq, Structural, Clone, Copy, Debug)]
pub enum RecoveryOutcome {
    /// The event's subject names no node.
    NoNodeId,
    /// The node the event names is gone.
    NodeMissing,
    /// The node's projections were rebuilt.
    Projected,
    /// Rebuilding the node's projections failed.
    Failed,
}

/// Counts of one projection recovery run.
pub struct ProjectionReconcileTick {
    pub examined: usize,
    pub projected: usize,
    pub errors: usize,
}

/// How many of `outcomes` are `Projected`.
pub open spec fn count_projected(outcomes: Seq<RecoveryOutcome>) -> nat
    decreases outcomes.len(),
{
    if outcomes.len() == 0 {
        0
    } else {
        count_projected(outcomes.drop_last()) + if outcomes.last() == RecoveryOutcome::Projected { 1nat } else { 0nat }
    }
}

proof fn lemma_count_projected_le(outcomes: Seq<RecoveryOutcome>)
    ensures
        count_projected(outcomes) <= outcomes.len(),
    decreases outcomes.len(),
{
    if outcomes.len() > 0 {
        lemma_count_projected_le(outcomes.drop_last());
    }
}

/// The counts of a recovery run over events that ended as `outcomes`: every
/// examined event is counted projected or as an error.
pub fn reconcile_tick(outcomes: &Vec<RecoveryOutcome>) -> (t: ProjectionReconcileTick)
    ensures
        t.examined == outcomes@.len(),
        t.projected == count_projected(outcomes@),
        t.errors == outcomes@.len() - count_projected(outcomes@),
        t.projected + t.errors == t.examined,
{
    let mut projected: usize = 0;
    let mut errors: usize = 0;
    let mut i: usize = 0;
    while i < outcomes.len()
        invariant
            i <= outcomes@.len(),
            projected == count_projected(outcomes@.take(i as int)),
            projected + errors == i,
        decreases outcomes.len() - i,
    {
        proof {
            assert(outcomes@.take(i + 1).drop_last() =~= outcomes@.take(i as int));
            assert(outcomes@.take(i + 1).last() == outcomes@[i as int]);
        }
        if outcomes[i] == RecoveryOutcome::Projected {
            projected += 1;
        } else {
            errors += 1;
        }
        i += 1;
    }
    proof { assert(outcomes@.take(outcomes@.len() as int) =~= outcomes@); }
    ProjectionReconcileTick { examined: outcomes.len(), projected, errors }
}

/// The checks before a projection is written to the node store: the node
/// carries a projection record, and a stored node with its id (if any) is a
/// projection too. `Ok(true)` updates the stored node, `Ok(false)` inserts.
pub open spec fn upsert_check(node: NodeTraits, existing: Option<NodeTraits>, node_id: Seq<char>) -> Result<bool, ErrorView> {
    if !workspace_projection_node(node) {
        Err(ErrorView::InvalidInput("workspace projection metadata is missing or invalid"@))
    } else {
        match existing {
            Some(e) => if !workspace_projection_node(e) {
                Err(ErrorView::CanonicalSourceConflict("node "@ + node_id + " already exists and is not a disposable workspace projection"@))
            } else {
                Ok(true)
            },
            None => Ok(false),
        }
    }
}

/// Checks a projection before it is written to the node store.
pub fn check_projection_upsert(node: &NodeTraits, existing: Option<&NodeTraits>, node_id: &str) -> (r: Result<bool, EngineError>)
    ensures
        match r {
            Ok(b) => upsert_check(*node, match existing {
                Some(e) => Some(*e),
                None => None,
            }, node_id@) == Ok::<bool, ErrorView>(b),
            Err(e) => upsert_check(*node, match existing {
                Some(x) => Some(*x),
                None => None,
            }, node_id@) == Err::<bool, ErrorView>(e@),
        },
{
    if !is_workspace_projection_node(node) {
        return Err(EngineError::InvalidInput("workspace projection metadata is missing or invalid".to_string()));
    }
    match existing {
        Some(e) => {
            if !is_workspace_projection_node(e) {
                let a = concat_str("node ", node_id);
                return Err(EngineError::CanonicalSourceConflict(concat_str(a.as_str(), " already exists and is not a disposable workspace projection")));
            }
            Ok(true)
        },
        None => Ok(false),
    }
}

/// What a projection run does with a document: removes the projection of
/// one no longer active; leaves a ready projection unchanged unless the run
/// is forced; projects every other active document.
pub proof fn lemma_document_plans(active: bool, force: bool, ready: bool)
    ensures
        !active ==> document_plan(active, force, ready) == DocumentPlan::RemoveInactive,
        active && ready && !force ==> document_plan(active, force, ready) == DocumentPlan::Unchanged,
        active && (force || !ready) ==> document_plan(active, force, ready) == DocumentPlan::Project,
{
}

/// A document is projected only when it is active, its manifest hash was
/// read and equals the hash observed now, and it has content; the hash used
/// is then that observed hash. An inactive document or one without content
/// is invalid input, and a changed hash is a conflict with the canonical
/// source.
pub proof fn lemma_projection_preconditions(
    observed_active: bool,
    manifest_hash: Result<Option<Seq<char>>, ErrorView>,
    observed_hash: Option<Seq<char>>,
    has_content: bool,
)
    ensures
        projection_check(observed_active, manifest_hash, observed_hash, has_content) is Ok <==>
            (observed_active && has_content && observed_hash is Some && manifest_hash == Ok::<Option<Seq<char>>, ErrorView>(observed_hash)),
        projection_check(observed_active, manifest_hash, observed_hash, has_content) matches Ok(h) ==> observed_hash == Some(h),
        !observed_active ==> projection_check(observed_active, manifest_hash, observed_hash, has_content) matches Err(ErrorView::InvalidInput(_)),
        (observed_active && manifest_hash is Ok && manifest_hash->Ok_0 != observed_hash)
            ==> projection_check(observed_active, manifest_hash, observed_hash, has_content) matches Err(ErrorView::CanonicalSourceConflict(_)),
        (observed_active && manifest_hash is Err) ==> projection_check(observed_active, manifest_hash, observed_hash, has_content) == Err::<Seq<char>, ErrorView>(manifest_hash->Err_0),
{
}

/// How text is form-encoded: the encoding of two byte strings one after
/// the other is their encodings one after the other; ASCII letters, digits
/// and `*`, `-`, `.`, `_` stand for themselves, a space becomes `+`, and
/// every other byte becomes `%` and two uppercase hex digits whose value is
/// the byte.
pub proof fn lemma_form_encoding(a: Seq<u8>, b: Seq<u8>, x: u8)
    ensures
        form_urlencoded(a + b) == form_urlencoded(a) + form_urlencoded(b),
        form_urlencoded(seq![x]) == urlencoded_byte(x),
        ((48 <= x <= 57) || (65 <= x <= 90) || (97 <= x <= 122) || x == 42 || x == 45 || x == 46 || x == 95)
            ==> urlencoded_byte(x).len() == 1 && urlencoded_byte(x)[0] as u32 == x as u32,
        x == 32 ==> urlencoded_byte(x) == seq!['+'],
        !((48 <= x <= 57) || (65 <= x <= 90) || (97 <= x <= 122) || x == 42 || x == 45 || x == 46 || x == 95 || x == 32) ==> ({
            let e = urlencoded_byte(x);
            let hi = e[1] as u32;
            let lo = e[2] as u32;
            let dv = |c: u32| if 48 <= c <= 57 { c - 48 } else { c - 55 };
            &&& e.len() == 3 && e[0] == '%'
            &&& (48 <= hi <= 57 || 65 <= hi <= 70) && (48 <= lo <= 57 || 65 <= lo <= 70)
            &&& dv(hi) * 16 + dv(lo) == x as int
        }),
    decreases a.len(),
{
    if a.len() > 0 {
        lemma_form_encoding(a.drop_first(), b, x);
        assert((a + b).drop_first() =~= a.drop_first() + b);
        assert((a + b)[0] == a[0]);
    } else {
        assert(a + b =~= b);
    }
    let one = seq![x];
    assert(one.drop_first() =~= Seq::<u8>::empty());
    assert(one[0] == x);
    assert(form_urlencoded(one.drop_first()) == Seq::<char>::empty());
    assert(form_urlencoded(one) == urlencoded_byte(one[0]) + form_urlencoded(one.drop_first()));
    assert(urlencoded_byte(x) + Seq::<char>::empty() =~= urlencoded_byte(x));
}

/// Whether a line is a level-one heading with text: `# ` and then some
/// non-whitespace character.
pub open spec fn heading_line(l: Seq<char>) -> bool {
    l.len() >= 2 && l[0] == '#' && l[1] == ' ' && exists|i: int| 2 <= i < l.len() && !is_ws(#[trigger] l[i])
}

/// The first heading of a document is the text, trimmed, of its first
/// line that is a level-one heading with text; there is none when no line
/// is.
pub proof fn lemma_first_heading(ls: Seq<Seq<char>>)
    ensures
        first_heading(ls) is None <==> forall|i: int| 0 <= i < ls.len() ==> !heading_line(#[trigger] ls[i]),
        first_heading(ls) matches Some(h) ==> exists|i: int| 0 <= i < ls.len() && heading_line(#[trigger] ls[i])
            && h == trim(ls[i].skip(2)) && forall|k: int| 0 <= k < i ==> !heading_line(#[trigger] ls[k]),
    decreases ls.len(),
{
    if ls.len() > 0 {
        let l = ls[0];
        reveal_strlit("# ");
        lemma_trim_empty(l.skip(2));
        assert(starts_with(l, "# "@) <==> (l.len() >= 2 && l[0] == '#' && l[1] == ' ')) by {
            if l.len() >= 2 {
                assert(l.take(2) =~= seq![l[0], l[1]]);
            }
            assert("# "@ =~= seq!['#', ' ']);
        }
        if l.len() >= 2 {
            assert((exists|i: int| 2 <= i < l.len() && !is_ws(#[trigger] l[i]))
                <==> (exists|j: int| 0 <= j < l.skip(2).len() && !is_ws(#[trigger] l.skip(2)[j]))) by {
                if exists|i: int| 2 <= i < l.len() && !is_ws(#[trigger] l[i]) {
                    let i = choose|i: int| 2 <= i < l.len() && !is_ws(#[trigger] l[i]);
                    assert(l.skip(2)[i - 2] == l[i]);
                }
                if exists|j: int| 0 <= j < l.skip(2).len() && !is_ws(#[trigger] l.skip(2)[j]) {
                    let j = choose|j: int| 0 <= j < l.skip(2).len() && !is_ws(#[trigger] l.skip(2)[j]);
                    assert(l[j + 2] == l.skip(2)[j]);
                }
            }
        }
        if !heading_line(l) {
            let rest = ls.drop_first();
            lemma_first_heading(rest);
            assert forall|i: int| 0 <= i < rest.len() implies #[trigger] rest[i] == ls[i + 1] by {}
            if first_heading(rest) is Some {
                let h = first_heading(rest)->0;
                let j = choose|i: int| 0 <= i < rest.len() && heading_line(#[trigger] rest[i])
                    && h == trim(rest[i].skip(2)) && forall|k: int| 0 <= k < i ==> !heading_line(#[trigger] rest[k]);
                assert(ls[j + 1] == rest[j]);
                assert forall|k: int| 0 <= k < j + 1 implies !heading_line(#[trigger] ls[k]) by {
                    if k > 0 {
                        assert(rest[k - 1] == ls[k]);
                    }
                }
            } else {
                assert forall|k: int| 0 <= k < ls.len() implies !heading_line(#[trigger] ls[k]) by {
                    if k > 0 {
                        assert(rest[k - 1] == ls[k]);
                    }
                }
            }
        }
    }
}

/// A projected document's title: its `title` property, trimmed, when that
/// is text with a non-whitespace character; otherwise its first heading;
/// otherwise its file name without `.md` and `.markdown` endings.
pub proof fn lemma_projection_title_sources(properties: Map<Seq<char>, FmValue>, content: Seq<char>, relative_path: Seq<char>)
    ensures
        ({
            let has_title = properties.contains_key("title"@) && properties["title"@] is Text
                && exists|i: int| 0 <= i < (properties["title"@]->Text_0).len() && !is_ws(#[trigger] (properties["title"@]->Text_0)[i]);
            &&& has_title ==> title_of(properties, content, relative_path) == trim(properties["title"@]->Text_0)
            &&& !has_title && first_heading(lines(content)) is Some ==> title_of(properties, content, relative_path) == first_heading(lines(content))->0
            &&& !has_title && first_heading(lines(content)) is None ==> title_of(properties, content, relative_path)
                == strip_suffix_rep(strip_suffix_rep(last_segment(relative_path), ".markdown"@), ".md"@)
        }),
{
    if properties.contains_key("title"@) && properties["title"@] is Text {
        lemma_trim_empty(properties["title"@]->Text_0);
    }
}

} // verus!
