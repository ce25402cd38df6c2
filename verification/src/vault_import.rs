//! Importing an Obsidian vault: what one note becomes, whether a scanned note
//! is created, skipped or updated, the links resolved between notes, and the
//! import's counts.

use vstd::prelude::*;
use crate::node::NodeKind;
use crate::obsidian::{
    determine_kind, extract_frontmatter_tags, folder_tags, folder_tags_spec, frontmatter_tags, note_kind,
    parse_frontmatter, parsed_frontmatter, strings_view, FmValue, Frontmatter, FrontmatterValue, file_name_stem, path_segments, plain_relative_path,
};
use crate::text::{
    chars_eq, chars_of, concat_str, decimal_string, decimal_text, lemma_seq_lt_total,
    lemma_seq_lt_trans, seq_lt, seq_lt_vec, string_from_chars, to_lowercase_string,
    unicode_lowercase,
};
use crate::wikilinks::{extract_wikilinks, wikilinks};

verus! {

/// Whether every member of `v` is less than the next ones (so no value
/// occurs twice).
pub open spec fn strictly_sorted(v: Seq<Seq<char>>) -> bool {
    forall|i: int, j: int| 0 <= i < j < v.len() ==> seq_lt(#[trigger] v[i], #[trigger] v[j])
}

/// The members of `items`, sorted, each once (`sort` then `dedup`).
pub fn sorted_distinct(items: &Vec<String>) -> (out: Vec<String>)
    ensures
        strictly_sorted(strings_view(out@)),
        forall|x: Seq<char>| strings_view(out@).contains(x) <==> strings_view(items@).contains(x),
{
    let ghost iv = strings_view(items@);
    let mut acc: Vec<Vec<char>> = Vec::new();
    let mut i: usize = 0;
    while i < items.len()
        invariant
            i <= items@.len(),
            iv == strings_view(items@),
            strictly_sorted(acc@.map_values(|c: Vec<char>| c@)),
            forall|x: Seq<char>| acc@.map_values(|c: Vec<char>| c@).contains(x) <==> iv.take(i as int).contains(x),
        decreases items.len() - i,
    {
        let c = chars_of(items[i].as_str());
        let ghost av = acc@.map_values(|c: Vec<char>| c@);
        let mut p: usize = 0;
        while p < acc.len() && seq_lt_vec(acc[p].as_slice(), c.as_slice())
            invariant
                p <= acc@.len(),
                av == acc@.map_values(|c: Vec<char>| c@),
                forall|q: int| 0 <= q < p ==> seq_lt(#[trigger] av[q], c@),
            decreases acc.len() - p,
        {
            proof { assert(av[p as int] == acc@[p as int]@); }
            p += 1;
        }
        proof {
            assert(iv.take(i + 1) =~= iv.take(i as int).push(c@));
        }
        let present = p < acc.len() && chars_eq(acc[p].as_slice(), c.as_slice());
        let ghost t0 = iv.take(i as int);
        let ghost t1 = iv.take(i + 1);
        if present {
            proof {
                assert(av[p as int] == c@);
                assert forall|x: Seq<char>| av.contains(x) <==> t1.contains(x) by {
                    if x == c@ {
                        assert(av[p as int] == x);
                        assert(t1[i as int] == x);
                    }
                    if t1.contains(x) && x != c@ {
                        let k = choose|k: int| 0 <= k < t1.len() && t1[k] == x;
                        assert(t0[k] == x);
                    }
                    if t0.contains(x) {
                        let k = choose|k: int| 0 <= k < t0.len() && t0[k] == x;
                        assert(t1[k] == x);
                    }
                }
            }
        } else {
            proof {
                if p < av.len() {
                    lemma_seq_lt_total(av[p as int], c@);
                    assert(av[p as int] == acc@[p as int]@);
                }
            }
            acc.insert(p, c);
            proof {
                let nv = acc@.map_values(|c: Vec<char>| c@);
                assert(nv =~= av.insert(p as int, c@));
                assert forall|a: int, b: int| 0 <= a < b < nv.len() implies seq_lt(#[trigger] nv[a], #[trigger] nv[b]) by {
                    if b < p {
                        assert(nv[a] == av[a] && nv[b] == av[b]);
                    } else if b == p {
                        assert(nv[a] == av[a]);
                    } else if a == p {
                        assert(nv[b] == av[b - 1]);
                        if b - 1 > p {
                            assert(seq_lt(av[p as int], av[b - 1]));
                            lemma_seq_lt_trans(c@, av[p as int], av[b - 1]);
                        }
                    } else if a < p {
                        assert(nv[a] == av[a] && nv[b] == av[b - 1]);
                        if a < b - 1 {
                            assert(seq_lt(av[a], av[b - 1]));
                        } else {
                            assert(false);
                        }
                    } else {
                        assert(nv[a] == av[a - 1] && nv[b] == av[b - 1]);
                    }
                }
                assert(t1 =~= t0.push(c@));
                assert forall|x: Seq<char>| nv.contains(x) implies t1.contains(x) by {
                    let k = choose|k: int| 0 <= k < nv.len() && nv[k] == x;
                    if k == p {
                        assert(t1[i as int] == x);
                    } else {
                        if k < p {
                            assert(av[k] == x);
                        } else {
                            assert(av[k - 1] == x);
                        }
                        assert(av.contains(x));
                        assert(t0.contains(x));
                        let m = choose|m: int| 0 <= m < t0.len() && t0[m] == x;
                        assert(t1[m] == x);
                    }
                }
                assert forall|x: Seq<char>| t1.contains(x) implies nv.contains(x) by {
                    let k = choose|k: int| 0 <= k < t1.len() && t1[k] == x;
                    if k == i {
                        assert(nv[p as int] == x);
                    } else {
                        assert(t0[k] == x);
                        assert(t0.contains(x));
                        assert(av.contains(x));
                        let m = choose|m: int| 0 <= m < av.len() && av[m] == x;
                        if m < p {
                            assert(nv[m] == x);
                        } else {
                            assert(nv[m + 1] == x);
                        }
                    }
                }
            }
        }
        i += 1;
    }
    proof { assert(iv.take(items@.len() as int) =~= iv); }
    let mut out: Vec<String> = Vec::new();
    let mut j: usize = 0;
    let ghost av = acc@.map_values(|c: Vec<char>| c@);
    while j < acc.len()
        invariant
            j <= acc@.len(),
            av == acc@.map_values(|c: Vec<char>| c@),
            strings_view(out@) == av.take(j as int),
        decreases acc.len() - j,
    {
        let s = string_from_chars(acc[j].as_slice());
        proof {
            assert(strings_view(out@.push(s)) =~= strings_view(out@).push(s@));
            assert(av.take(j + 1) =~= av.take(j as int).push(av[j as int]));
        }
        out.push(s);
        j += 1;
    }
    proof { assert(av.take(acc@.len() as int) =~= av); }
    out
}

/// A note of the vault, ready to be stored.
pub struct ImportedNote {
    pub kind: NodeKind,
    pub title: String,
    /// The note's body, without its frontmatter.
    pub content: String,
    /// `obsidian://` and the note's path within the vault.
    pub source: String,
    pub namespace: String,
    pub tags: Vec<String>,
    /// The import's own entries and the frontmatter entries not read above.
    pub metadata: Frontmatter,
    pub wikilinks: Vec<String>,
    pub relative_path: String,
}

/// Frontmatter keys that the import reads itself and does not copy into a
/// note's metadata.
pub open spec fn reserved_key(k: Seq<char>) -> bool {
    k == "title"@ || k == "tags"@ || k == "aliases"@ || k == "date"@ || k == "type"@
}

/// The title of a note: its frontmatter's text `title`, else its file stem,
/// else `untitled`.
pub open spec fn note_title(fm: Map<Seq<char>, FmValue>, stem: Option<Seq<char>>) -> Seq<char> {
    if fm.contains_key("title"@) && fm["title"@] is Text {
        fm["title"@]->Text_0
    } else {
        match stem {
            Some(s) => s,
            None => "untitled"@,
        }
    }
}

/// The metadata of an imported note: the file's modification time and path,
/// the frontmatter's `aliases`, then every frontmatter entry whose key the
/// import does not read itself.
pub open spec fn note_metadata(fm: Map<Seq<char>, FmValue>, relative_path: Seq<char>, mtime: Seq<char>) -> Map<Seq<char>, FmValue> {
    let base = map!["import_mtime"@ => FmValue::Text(mtime), "import_source_path"@ => FmValue::Text(relative_path)];
    let with_aliases = if fm.contains_key("aliases"@) { base.insert("aliases"@, fm["aliases"@]) } else { base };
    with_aliases.union_prefer_right(fm.restrict(Set::new(|k: Seq<char>| !reserved_key(k))))
}

fn clone_value(v: &FrontmatterValue) -> (out: FrontmatterValue)
    ensures
        out@ == v@,
{
    match v {
        FrontmatterValue::Text(s) => FrontmatterValue::Text(s.clone()),
        FrontmatterValue::Bool(b) => FrontmatterValue::Bool(*b),
        FrontmatterValue::Number(s) => FrontmatterValue::Number(s.clone()),
        FrontmatterValue::Null => FrontmatterValue::Null,
        FrontmatterValue::List(items) => {
            let mut out: Vec<String> = Vec::new();
            let mut i: usize = 0;
            while i < items.len()
                invariant
                    i <= items@.len(),
                    strings_view(out@) == strings_view(items@).take(i as int),
                decreases items.len() - i,
            {
                let s = items[i].clone();
                proof {
                    assert(strings_view(out@.push(s)) =~= strings_view(out@).push(s@));
                    assert(strings_view(items@).take(i + 1) =~= strings_view(items@).take(i as int).push(items@[i as int]@));
                }
                out.push(s);
                i += 1;
            }
            proof { assert(strings_view(items@).take(items@.len() as int) =~= strings_view(items@)); }
            FrontmatterValue::List(out)
        },
    }
}

fn is_reserved_key(k: &str) -> (b: bool)
    ensures
        b == reserved_key(k@),
{
    let c = chars_of(k);
    crate::text::chars_eq_str(c.as_slice(), "title") || crate::text::chars_eq_str(c.as_slice(), "tags")
        || crate::text::chars_eq_str(c.as_slice(), "aliases") || crate::text::chars_eq_str(c.as_slice(), "date")
        || crate::text::chars_eq_str(c.as_slice(), "type")
}

/// The metadata of a note whose frontmatter is `fm`.
pub fn build_note_metadata(fm: &Frontmatter, relative_path: &str, mtime: &str) -> (out: Frontmatter)
    ensures
        out@ == note_metadata(fm@, relative_path@, mtime@),
{
    let mut md = Frontmatter::new();
    md.insert("import_mtime".to_string(), FrontmatterValue::Text(mtime.to_string()));
    md.insert("import_source_path".to_string(), FrontmatterValue::Text(relative_path.to_string()));
    match fm.get("aliases") {
        Some(v) => {
            let c = clone_value(v);
            md.insert("aliases".to_string(), c);
        },
        None => {},
    }
    let ghost base = md@;
    let ghost entries = fm.entries@.map_values(|e: (String, FrontmatterValue)| crate::obsidian::entry_view(e));
    let mut i: usize = 0;
    proof {
        assert(entries.take(0) =~= Seq::<(Seq<char>, FmValue)>::empty());
        assert(crate::obsidian::insertions_map(entries.take(0)).restrict(Set::new(|k: Seq<char>| !reserved_key(k))) =~= Map::empty());
        assert(base.union_prefer_right(Map::<Seq<char>, FmValue>::empty()) =~= base);
    }
    while i < fm.entries.len()
        invariant
            i <= fm.entries@.len(),
            entries == fm.entries@.map_values(|e: (String, FrontmatterValue)| crate::obsidian::entry_view(e)),
            md@ == base.union_prefer_right(
                crate::obsidian::insertions_map(entries.take(i as int)).restrict(Set::new(|k: Seq<char>| !reserved_key(k))),
            ),
        decreases fm.entries.len() - i,
    {
        let ghost before = md@;
        let ghost prev = crate::obsidian::insertions_map(entries.take(i as int));
        proof {
            assert(entries.take(i + 1).drop_last() =~= entries.take(i as int));
            assert(entries.take(i + 1).last() == (fm.entries@[i as int].0@, fm.entries@[i as int].1@));
        }
        if !is_reserved_key(fm.entries[i].0.as_str()) {
            let v = clone_value(&fm.entries[i].1);
            md.insert(fm.entries[i].0.clone(), v);
        }
        proof {
            let f = Set::new(|k: Seq<char>| !reserved_key(k));
            let next = crate::obsidian::insertions_map(entries.take(i + 1));
            assert(base.union_prefer_right(next.restrict(f)) =~= md@);
        }
        i += 1;
    }
    proof {
        assert(entries.take(fm.entries@.len() as int) =~= entries);
    }
    md
}

/// What a note of the vault becomes: its kind, title, body, source, tags
/// (frontmatter tags, folder tags and `obsidian`, sorted, each once),
/// metadata and wikilinks.
pub fn build_imported_note(relative_path: &str, raw_content: &str, namespace: &str, mtime: &str) -> (out: ImportedNote)
    ensures
        out.kind == note_kind(parsed_frontmatter(raw_content@).0),
        out.content@ == parsed_frontmatter(raw_content@).1,
        out.source@ == "obsidian://"@ + relative_path@,
        out.namespace@ == namespace@,
        out.metadata@ == note_metadata(parsed_frontmatter(raw_content@).0, relative_path@, mtime@),
        strings_view(out.wikilinks@) == wikilinks(parsed_frontmatter(raw_content@).1),
        out.relative_path@ == relative_path@,
        strictly_sorted(strings_view(out.tags@)),
        exists|parent: Option<Seq<Seq<char>>>| #![trigger folder_tags_spec(parent)] forall|t: Seq<char>| #[trigger] strings_view(out.tags@).contains(t) <==> (
            frontmatter_tags(parsed_frontmatter(raw_content@).0) + folder_tags_spec(parent) + seq!["obsidian"@]).contains(t),
        exists|stem: Option<Seq<char>>| out.title@ == note_title(parsed_frontmatter(raw_content@).0, stem),
        plain_relative_path(relative_path@) ==> out.title@ == note_title(
            parsed_frontmatter(raw_content@).0,
            Some(file_name_stem(path_segments(relative_path@).last())),
        ),
        plain_relative_path(relative_path@) ==> forall|t: Seq<char>| #[trigger] strings_view(out.tags@).contains(t) <==> (
            frontmatter_tags(parsed_frontmatter(raw_content@).0) + folder_tags_spec(Some(path_segments(relative_path@).drop_last()))
                + seq!["obsidian"@]).contains(t),
{
    let (fm, body) = parse_frontmatter(raw_content);
    let kind = determine_kind(&fm);
    let stem = crate::obsidian::file_stem_text(relative_path);
    let ghost stem_view = crate::obsidian::opt_string_view(&stem);
    proof {
        reveal_strlit("untitled");
    }
    let title = match fm.get("title") {
        Some(FrontmatterValue::Text(t)) => t.clone(),
        _ => match stem {
            Some(s) => s,
            None => "untitled".to_string(),
        },
    };
    assert(title@ == note_title(fm@, stem_view));
    let mut tags = extract_frontmatter_tags(&fm);
    let ghost fm_tags = strings_view(tags@);
    let folder = folder_tags(relative_path);
    let ghost fv = strings_view(folder@);
    let mut k: usize = 0;
    proof { assert(fm_tags + fv.take(0) =~= fm_tags); }
    while k < folder.len()
        invariant
            k <= folder@.len(),
            fv == strings_view(folder@),
            strings_view(tags@) == fm_tags + fv.take(k as int),
        decreases folder.len() - k,
    {
        let t = folder[k].clone();
        proof {
            assert(strings_view(tags@.push(t)) =~= strings_view(tags@).push(t@));
            assert(fm_tags + fv.take(k + 1) =~= (fm_tags + fv.take(k as int)).push(fv[k as int]));
        }
        tags.push(t);
        k += 1;
    }
    let o = "obsidian".to_string();
    proof {
        reveal_strlit("obsidian");
        assert(fv.take(folder@.len() as int) =~= fv);
        assert(strings_view(tags@.push(o)) =~= strings_view(tags@).push(o@));
        assert(fm_tags + fv + seq!["obsidian"@] =~= (fm_tags + fv).push("obsidian"@));
    }
    tags.push(o);
    let tags = sorted_distinct(&tags);
    let links = extract_wikilinks(body.as_str());
    let metadata = build_note_metadata(&fm, relative_path, mtime);
    let source = concat_str("obsidian://", relative_path);
    ImportedNote {
        kind,
        title,
        content: body,
        source,
        namespace: namespace.to_string(),
        tags,
        metadata,
        wikilinks: links,
        relative_path: relative_path.to_string(),
    }
}

/// What the import does with a scanned note.
#[derive(PartialEq, Eq, Structural, Clone, Copy, Debug)]
pub enum ImportAction {
    /// No node has the note's source yet.
    Create,
    /// The stored node was imported from the same file version.
    Skip,
    /// The stored node was imported from another file version.
    Update,
}

/// The action for a note: `existing_mtime` is `None` when no node has the
/// note's source, else the stored node's import time (empty when it has
/// none); `new_mtime` is the note's.
pub open spec fn import_action_for(existing_mtime: Option<Seq<char>>, new_mtime: Seq<char>) -> ImportAction {
    match existing_mtime {
        None => ImportAction::Create,
        Some(m) => if m == new_mtime { ImportAction::Skip } else { ImportAction::Update },
    }
}

/// Decides whether a scanned note is created, skipped or updated.
pub fn import_action(existing_mtime: Option<&str>, new_mtime: &str) -> (a: ImportAction)
    ensures
        a == import_action_for(match existing_mtime {
            Some(m) => Some(m@),
            None => None,
        }, new_mtime@),
{
    match existing_mtime {
        None => ImportAction::Create,
        Some(m) => {
            let a = chars_of(m);
            let b = chars_of(new_mtime);
            if chars_eq(a.as_slice(), b.as_slice()) { ImportAction::Skip } else { ImportAction::Update }
        },
    }
}

/// `a + b`, or `usize::MAX` where that is smaller.
pub open spec fn saturated_sum(a: nat, b: nat) -> nat {
    if a + b > usize::MAX { usize::MAX as nat } else { a + b }
}

/// The number of wikilinks of `notes`, all together.
pub open spec fn link_count(notes: Seq<ImportedNote>) -> nat
    decreases notes.len(),
{
    if notes.len() == 0 {
        0
    } else {
        link_count(notes.drop_last()) + notes.last().wikilinks@.len()
    }
}

/// The relationships a dry run reports: one per wikilink of the parsed
/// notes, saturating at `usize::MAX`.
pub fn dry_run_relationships(notes: &Vec<ImportedNote>) -> (n: usize)
    ensures
        n == saturated_sum(link_count(notes@), 0),
{
    let mut total: usize = 0;
    let mut i: usize = 0;
    proof { assert(notes@.take(0) =~= Seq::<ImportedNote>::empty()); }
    while i < notes.len()
        invariant
            i <= notes@.len(),
            total == saturated_sum(link_count(notes@.take(i as int)), 0),
        decreases notes.len() - i,
    {
        proof {
            let t = notes@.take(i + 1);
            assert(t.drop_last() =~= notes@.take(i as int));
            assert(t.last() == notes@[i as int]);
        }
        total = total.saturating_add(notes[i].wikilinks.len());
        i += 1;
    }
    proof { assert(notes@.take(notes@.len() as int) =~= notes@); }
    total
}

/// Counts of an import.
pub struct ImportStats {
    pub files_scanned: usize,
    pub nodes_created: usize,
    pub nodes_updated: usize,
    pub nodes_skipped: usize,
    pub relationships_created: usize,
    pub errors: Vec<String>,
}

impl ImportStats {
    /// All counts zero, no errors.
    pub fn new() -> (s: Self)
        ensures
            s.files_scanned == 0 && s.nodes_created == 0 && s.nodes_updated == 0,
            s.nodes_skipped == 0 && s.relationships_created == 0 && s.errors@.len() == 0,
    {
        ImportStats {
            files_scanned: 0,
            nodes_created: 0,
            nodes_updated: 0,
            nodes_skipped: 0,
            relationships_created: 0,
            errors: Vec::new(),
        }
    }

    /// Counts one note under `action`, saturating at `usize::MAX`.
    pub fn record(&mut self, action: ImportAction)
        ensures
            final(self).files_scanned == old(self).files_scanned,
            final(self).relationships_created == old(self).relationships_created,
            final(self).errors@ == old(self).errors@,
            final(self).nodes_created == if action == ImportAction::Create && old(self).nodes_created < usize::MAX { old(self).nodes_created + 1 } else { old(self).nodes_created as int },
            final(self).nodes_skipped == if action == ImportAction::Skip && old(self).nodes_skipped < usize::MAX { old(self).nodes_skipped + 1 } else { old(self).nodes_skipped as int },
            final(self).nodes_updated == if action == ImportAction::Update && old(self).nodes_updated < usize::MAX { old(self).nodes_updated + 1 } else { old(self).nodes_updated as int },
    {
        match action {
            ImportAction::Create => self.nodes_created = self.nodes_created.saturating_add(1),
            ImportAction::Skip => self.nodes_skipped = self.nodes_skipped.saturating_add(1),
            ImportAction::Update => self.nodes_updated = self.nodes_updated.saturating_add(1),
        }
    }

    /// Counts one scanned file, saturating at `usize::MAX`.
    pub fn record_scanned(&mut self)
        ensures
            final(self).files_scanned == if old(self).files_scanned < usize::MAX { old(self).files_scanned + 1 } else { old(self).files_scanned as int },
            final(self).nodes_created == old(self).nodes_created,
            final(self).nodes_updated == old(self).nodes_updated,
            final(self).nodes_skipped == old(self).nodes_skipped,
            final(self).relationships_created == old(self).relationships_created,
            final(self).errors@ == old(self).errors@,
    {
        self.files_scanned = self.files_scanned.saturating_add(1);
    }

    /// Counts `n` more relationships, saturating at `usize::MAX`.
    pub fn record_relationships(&mut self, n: usize)
        ensures
            final(self).relationships_created == saturated_sum(old(self).relationships_created as nat, n as nat),
            final(self).files_scanned == old(self).files_scanned,
            final(self).nodes_created == old(self).nodes_created,
            final(self).nodes_updated == old(self).nodes_updated,
            final(self).nodes_skipped == old(self).nodes_skipped,
            final(self).errors@ == old(self).errors@,
    {
        self.relationships_created = self.relationships_created.saturating_add(n);
    }

    /// Records a failure, after those recorded before; the counts stay.
    pub fn record_error(&mut self, message: String)
        ensures
            final(self).errors@ == old(self).errors@.push(message),
            final(self).files_scanned == old(self).files_scanned,
            final(self).nodes_created == old(self).nodes_created,
            final(self).nodes_updated == old(self).nodes_updated,
            final(self).nodes_skipped == old(self).nodes_skipped,
            final(self).relationships_created == old(self).relationships_created,
    {
        self.errors.push(message);
    }

    /// The one-line summary:
    /// `scanned=…, created=…, updated=…, skipped=…, relationships=…, errors=…`.
    pub fn summary_line(&self) -> (out: String)
        ensures
            out@ == "scanned="@ + decimal_text(self.files_scanned as nat) + ", created="@
                + decimal_text(self.nodes_created as nat) + ", updated="@
                + decimal_text(self.nodes_updated as nat) + ", skipped="@
                + decimal_text(self.nodes_skipped as nat) + ", relationships="@
                + decimal_text(self.relationships_created as nat) + ", errors="@
                + decimal_text(self.errors@.len()),
    {
        let a = concat_str("scanned=", decimal_string(self.files_scanned as u64).as_str());
        let a = concat_str(a.as_str(), ", created=");
        let a = concat_str(a.as_str(), decimal_string(self.nodes_created as u64).as_str());
        let a = concat_str(a.as_str(), ", updated=");
        let a = concat_str(a.as_str(), decimal_string(self.nodes_updated as u64).as_str());
        let a = concat_str(a.as_str(), ", skipped=");
        let a = concat_str(a.as_str(), decimal_string(self.nodes_skipped as u64).as_str());
        let a = concat_str(a.as_str(), ", relationships=");
        let a = concat_str(a.as_str(), decimal_string(self.relationships_created as u64).as_str());
        let a = concat_str(a.as_str(), ", errors=");
        concat_str(a.as_str(), decimal_string(self.errors.len() as u64).as_str())
    }
}

/// The node that `key` names in `index`: the last entry with that key.
pub open spec fn index_lookup(index: Seq<(Seq<char>, u128)>, key: Seq<char>) -> Option<u128>
    decreases index.len(),
{
    if index.len() == 0 {
        None
    } else if index.last().0 == key {
        Some(index.last().1)
    } else {
        index_lookup(index.drop_last(), key)
    }
}

/// The lookup entries as plain values.
pub open spec fn index_view(index: Seq<(String, u128)>) -> Seq<(Seq<char>, u128)> {
    index.map_values(|e: (String, u128)| (e.0@, e.1))
}

/// The links a note with node `from` gets: for each of its link targets
/// whose lowercase names a note in `index` other than itself, that note and
/// the target, in order.
pub open spec fn resolved_links(from: u128, lowered: Seq<Seq<char>>, targets: Seq<Seq<char>>, index: Seq<(Seq<char>, u128)>) -> Seq<(u128, Seq<char>)>
    decreases lowered.len(),
{
    if lowered.len() == 0 {
        Seq::empty()
    } else {
        let rest = resolved_links(from, lowered.drop_last(), targets.drop_last(), index);
        match index_lookup(index, lowered.last()) {
            Some(to) => if to != from { rest.push((to, targets.last())) } else { rest },
            None => rest,
        }
    }
}

fn index_lookup_exec(index: &Vec<(String, u128)>, key: &[char]) -> (r: Option<u128>)
    ensures
        r == index_lookup(index_view(index@), key@),
{
    let ghost m = index_view(index@);
    let mut i = index.len();
    proof { assert(m.take(i as int) =~= m); }
    while i > 0
        invariant
            i <= index@.len(),
            m == index_view(index@),
            index_lookup(m, key@) == index_lookup(m.take(i as int), key@),
        decreases i,
    {
        proof {
            assert(m.take(i as int).drop_last() =~= m.take(i - 1));
            assert(m.take(i as int).last() == (index@[i - 1].0@, index@[i - 1].1));
        }
        let k = chars_of(index[i - 1].0.as_str());
        if chars_eq(k.as_slice(), key) {
            return Some(index[i - 1].1);
        }
        i -= 1;
    }
    None
}

/// Resolves the wikilinks of the note whose node is `from` against `index`
/// (note stem to node): the links to create, each as the target node and
/// the link text. Self-links and unknown targets are left out.
pub fn resolve_links(from: u128, links: &Vec<String>, index: &Vec<(String, u128)>) -> (out: Vec<(u128, String)>)
    ensures
        out@.map_values(|e: (u128, String)| (e.0, e.1@)) == resolved_links(
            from,
            strings_view(links@).map_values(|t: Seq<char>| unicode_lowercase(t)),
            strings_view(links@),
            index_view(index@),
        ),
{
    let ghost lv = strings_view(links@);
    let ghost low = lv.map_values(|t: Seq<char>| unicode_lowercase(t));
    let mut out: Vec<(u128, String)> = Vec::new();
    let mut i: usize = 0;
    proof {
        assert(lv.take(0) =~= Seq::<Seq<char>>::empty());
        assert(low.take(0) =~= Seq::<Seq<char>>::empty());
        assert(out@.map_values(|e: (u128, String)| (e.0, e.1@)) =~= Seq::<(u128, Seq<char>)>::empty());
    }
    while i < links.len()
        invariant
            i <= links@.len(),
            lv == strings_view(links@),
            low == lv.map_values(|t: Seq<char>| unicode_lowercase(t)),
            out@.map_values(|e: (u128, String)| (e.0, e.1@)) == resolved_links(from, low.take(i as int), lv.take(i as int), index_view(index@)),
        decreases links.len() - i,
    {
        proof {
            assert(low.take(i + 1).drop_last() =~= low.take(i as int));
            assert(lv.take(i + 1).drop_last() =~= lv.take(i as int));
            assert(low.take(i + 1).last() == unicode_lowercase(links@[i as int]@));
            assert(lv.take(i + 1).last() == links@[i as int]@);
        }
        let key = to_lowercase_string(links[i].as_str());
        let kc = chars_of(key.as_str());
        match index_lookup_exec(index, kc.as_slice()) {
            Some(to) => {
                if to != from {
                    let t = links[i].clone();
                    proof {
                        assert((out@.push((to, t))).map_values(|e: (u128, String)| (e.0, e.1@)) =~= out@.map_values(|e: (u128, String)| (e.0, e.1@)).push((to, t@)));
                    }
                    out.push((to, t));
                }
            },
            None => {},
        }
        i += 1;
    }
    proof {
        assert(low.take(links@.len() as int) =~= low);
        assert(lv.take(links@.len() as int) =~= lv);
    }
    out
}

/// Importing a note again from the same file version changes nothing: the
/// note is skipped; a note whose node is missing is created.
pub proof fn lemma_unchanged_note_is_skipped(mtime: Seq<char>)
    ensures
        import_action_for(Some(mtime), mtime) == ImportAction::Skip,
        import_action_for(None, mtime) == ImportAction::Create,
{
}

/// A note is created when nothing was imported from its path, skipped when
/// the stored import time is the note's modification time character for
/// character, and updated whenever the two differ in any way.
pub proof fn lemma_import_follows_modification_time(stored: Seq<char>, new_mtime: Seq<char>)
    ensures
        import_action_for(None, new_mtime) == ImportAction::Create,
        stored == new_mtime ==> import_action_for(Some(stored), new_mtime) == ImportAction::Skip,
        stored != new_mtime ==> import_action_for(Some(stored), new_mtime) == ImportAction::Update,
        (exists|i: int| 0 <= i < stored.len() && i < new_mtime.len() && stored[i] != new_mtime[i])
            ==> import_action_for(Some(stored), new_mtime) == ImportAction::Update,
{
    if exists|i: int| 0 <= i < stored.len() && i < new_mtime.len() && stored[i] != new_mtime[i] {
        let i = choose|i: int| 0 <= i < stored.len() && i < new_mtime.len() && stored[i] != new_mtime[i];
        assert(stored != new_mtime);
    }
}

/// A note's title is its frontmatter's text `title` when it has one, else
/// its file stem, else `untitled`.
pub proof fn lemma_note_title_sources(fm: Map<Seq<char>, FmValue>, stem: Option<Seq<char>>)
    ensures
        (fm.contains_key(seq!['t', 'i', 't', 'l', 'e']) && fm[seq!['t', 'i', 't', 'l', 'e']] is Text)
            ==> note_title(fm, stem) == fm[seq!['t', 'i', 't', 'l', 'e']]->Text_0,
        !(fm.contains_key(seq!['t', 'i', 't', 'l', 'e']) && fm[seq!['t', 'i', 't', 'l', 'e']] is Text) && stem is Some
            ==> note_title(fm, stem) == stem->0,
        !(fm.contains_key(seq!['t', 'i', 't', 'l', 'e']) && fm[seq!['t', 'i', 't', 'l', 'e']] is Text) && stem is None
            ==> note_title(fm, stem) == seq!['u', 'n', 't', 'i', 't', 'l', 'e', 'd'],
{
    reveal_strlit("title");
    reveal_strlit("untitled");
    assert("title"@ =~= seq!['t', 'i', 't', 'l', 'e']);
    assert("untitled"@ =~= seq!['u', 'n', 't', 'i', 't', 'l', 'e', 'd']);
}

/// A note's metadata records the file's modification time and path, keeps
/// its frontmatter `aliases`, and copies every other frontmatter entry
/// except `title`, `tags`, `date` and `type` (which the import reads
/// itself); a copied entry keeps its value.
pub proof fn lemma_note_metadata_entries(fm: Map<Seq<char>, FmValue>, relative_path: Seq<char>, mtime: Seq<char>, k: Seq<char>)
    ensures
        ({
            let m = note_metadata(fm, relative_path, mtime);
            &&& !fm.contains_key("import_mtime"@) ==> m.contains_key("import_mtime"@) && m["import_mtime"@] == FmValue::Text(mtime)
            &&& !fm.contains_key("import_source_path"@) ==> m.contains_key("import_source_path"@)
                    && m["import_source_path"@] == FmValue::Text(relative_path)
            &&& fm.contains_key("aliases"@) ==> m.contains_key("aliases"@) && m["aliases"@] == fm["aliases"@]
            &&& (k == "title"@ || k == "tags"@ || k == "date"@ || k == "type"@) ==> !m.contains_key(k)
            &&& (fm.contains_key(k) && k != "title"@ && k != "tags"@ && k != "date"@ && k != "type"@)
                    ==> m.contains_key(k) && m[k] == fm[k]
            &&& m.contains_key(k) ==> (fm.contains_key(k) || k == "import_mtime"@ || k == "import_source_path"@)
        }),
{
    reveal_strlit("import_mtime");
    reveal_strlit("import_source_path");
    reveal_strlit("aliases");
    reveal_strlit("title");
    reveal_strlit("tags");
    reveal_strlit("date");
    reveal_strlit("type");
    assert("import_mtime"@ != "import_source_path"@) by { assert("import_mtime"@.len() != "import_source_path"@.len()); }
    assert("import_mtime"@ != "aliases"@) by { assert("import_mtime"@.len() != "aliases"@.len()); }
    assert("import_source_path"@ != "aliases"@) by { assert("import_source_path"@.len() != "aliases"@.len()); }
    assert("import_mtime"@ != "title"@ && "import_mtime"@ != "tags"@ && "import_mtime"@ != "date"@ && "import_mtime"@ != "type"@) by {
        assert("import_mtime"@.len() == 12);
    }
    assert("import_source_path"@ != "title"@ && "import_source_path"@ != "tags"@ && "import_source_path"@ != "date"@ && "import_source_path"@ != "type"@) by {
        assert("import_source_path"@.len() == 18);
    }
    assert("aliases"@ != "title"@ && "aliases"@ != "tags"@ && "aliases"@ != "date"@ && "aliases"@ != "type"@) by {
        assert("aliases"@.len() == 7);
        assert("aliases"@[0] != "title"@[0] && "aliases"@[0] != "tags"@[0] && "aliases"@[0] != "date"@[0] && "aliases"@[0] != "type"@[0]);
    }
}

/// The node a key names in the stem index: that of the key's last entry;
/// none when no entry has the key.
pub proof fn lemma_index_lookup_last(index: Seq<(Seq<char>, u128)>, key: Seq<char>)
    ensures
        index_lookup(index, key) is None <==> forall|i: int| 0 <= i < index.len() ==> (#[trigger] index[i]).0 != key,
        index_lookup(index, key) matches Some(v) ==> exists|i: int| 0 <= i < index.len() && (#[trigger] index[i]).0 == key && index[i].1 == v
            && forall|k: int| i < k < index.len() ==> (#[trigger] index[k]).0 != key,
    decreases index.len(),
{
    if index.len() > 0 {
        let init = index.drop_last();
        lemma_index_lookup_last(init, key);
        assert forall|i: int| 0 <= i < init.len() implies #[trigger] init[i] == index[i] by {}
        assert(index[index.len() - 1] == index.last());
        if index.last().0 != key {
            if index_lookup(init, key) is Some {
                let v = index_lookup(init, key)->0;
                let j = choose|i: int| 0 <= i < init.len() && (#[trigger] init[i]).0 == key && init[i].1 == v
                    && forall|k: int| i < k < init.len() ==> (#[trigger] init[k]).0 != key;
                assert(index[j] == init[j]);
                assert forall|k: int| j < k < index.len() implies (#[trigger] index[k]).0 != key by {
                    if k < index.len() - 1 {
                        assert(init[k] == index[k]);
                    }
                }
            } else {
                assert forall|k: int| 0 <= k < index.len() implies (#[trigger] index[k]).0 != key by {
                    if k < index.len() - 1 {
                        assert(init[k] == index[k]);
                    }
                }
            }
        }
    }
}

/// Resolved links never point back at their own note, and each goes to the
/// node the index gives for one of the note's link targets, with that
/// target as its text; every target the index knows and that is not the
/// note itself is linked.
pub proof fn lemma_resolved_links(from: u128, lowered: Seq<Seq<char>>, targets: Seq<Seq<char>>, index: Seq<(Seq<char>, u128)>)
    requires
        lowered.len() == targets.len(),
    ensures
        forall|j: int| 0 <= j < resolved_links(from, lowered, targets, index).len() ==> {
            let l = #[trigger] resolved_links(from, lowered, targets, index)[j];
            &&& l.0 != from
            &&& exists|i: int| 0 <= i < lowered.len() && index_lookup(index, #[trigger] lowered[i]) == Some(l.0) && targets[i] == l.1
        },
        forall|i: int| 0 <= i < lowered.len() && (#[trigger] index_lookup(index, lowered[i])) is Some && index_lookup(index, lowered[i])->0 != from
            ==> resolved_links(from, lowered, targets, index).contains((index_lookup(index, lowered[i])->0, targets[i])),
    decreases lowered.len(),
{
    if lowered.len() > 0 {
        let li = lowered.drop_last();
        let ti = targets.drop_last();
        lemma_resolved_links(from, li, ti, index);
        let r = resolved_links(from, li, ti, index);
        let all = resolved_links(from, lowered, targets, index);
        let n = lowered.len() - 1;
        assert forall|i: int| 0 <= i < li.len() implies #[trigger] li[i] == lowered[i] && ti[i] == targets[i] by {}
        assert(lowered[n] == lowered.last() && targets[n] == targets.last());
        assert forall|j: int| 0 <= j < all.len() implies {
            let l = #[trigger] all[j];
            &&& l.0 != from
            &&& exists|i: int| 0 <= i < lowered.len() && index_lookup(index, #[trigger] lowered[i]) == Some(l.0) && targets[i] == l.1
        } by {
            if j < r.len() {
                assert(all[j] == r[j]);
                let l = r[j];
                let i = choose|i: int| 0 <= i < li.len() && index_lookup(index, #[trigger] li[i]) == Some(l.0) && ti[i] == l.1;
                assert(lowered[i] == li[i]);
            } else {
                assert(index_lookup(index, lowered[n]) == Some(all[j].0));
            }
        }
        assert forall|i: int| 0 <= i < lowered.len() && (#[trigger] index_lookup(index, lowered[i])) is Some && index_lookup(index, lowered[i])->0 != from
            implies all.contains((index_lookup(index, lowered[i])->0, targets[i])) by {
            let e = (index_lookup(index, lowered[i])->0, targets[i]);
            if i < n {
                assert(li[i] == lowered[i]);
                assert(index_lookup(index, li[i]) == index_lookup(index, lowered[i]));
                assert(r.contains(e));
                let q = choose|q: int| 0 <= q < r.len() && r[q] == e;
                assert(all[q] == e);
            } else {
                assert(all[r.len() as int] == e);
            }
        }
    }
}

/// Strictly sorted text never holds a value twice.
pub proof fn lemma_strictly_sorted_distinct(v: Seq<Seq<char>>)
    requires
        strictly_sorted(v),
    ensures
        v.no_duplicates(),
{
    assert forall|i: int, j: int| 0 <= i < v.len() && 0 <= j < v.len() && i != j implies v[i] != v[j] by {
        if i < j {
            assert(seq_lt(v[i], v[j]));
            lemma_seq_lt_total(v[i], v[j]);
        } else {
            assert(seq_lt(v[j], v[i]));
            lemma_seq_lt_total(v[j], v[i]);
        }
    }
}

} // verus!
