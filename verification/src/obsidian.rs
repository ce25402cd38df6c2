//! Obsidian vault import: frontmatter, wikilinks, tags and node kinds of
//! Markdown notes, and the plan that turns a vault into nodes and links.
//!
//! Frontmatter is the block between a leading `---` and the next `---`. It
//! holds `key: value` lines, inline lists `key: [a, b]`, and multi-line lists
//! (`key:` followed by `- item` lines). Values read as booleans, numbers
//! (text that `f64` parsing accepts, kept as written) or text.

use vstd::prelude::*;
use crate::text::{
    all_ascii, chars_eq_str, chars_of, ends_with, ends_with_vec, find_from, find_from_vec,
    is_float_literal, is_float_literal_vec, float_literal_finite, float_literal_finite_vec, lines, slice_vec, split_char, split_char_vec,
    split_once, split_once_vec, starts_with, starts_with_vec, string_from_chars,
    strip_prefix_rep, strip_prefix_rep_vec, trim, trim_matches, trim_matches_vec, trim_vec,
    to_lowercase_string, unicode_lowercase, last_index_of, lemma_last_index_of_absent, lemma_last_index_of_after,
};
use crate::node::NodeKind;

verus! {

/// A frontmatter value.
pub enum FrontmatterValue {
    Text(String),
    Bool(bool),
    /// A number, as written (it parses as a finite `f64`).
    Number(String),
    /// A literal that parses as an `f64` that is not finite (`nan`, `inf`,
    /// or one too large), which JSON holds as null.
    Null,
    List(Vec<String>),
}

pub enum FmValue {
    Text(Seq<char>),
    Bool(bool),
    Number(Seq<char>),
    Null,
    List(Seq<Seq<char>>),
}

pub open spec fn strings_view(v: Seq<String>) -> Seq<Seq<char>> {
    v.map_values(|s: String| s@)
}

impl View for FrontmatterValue {
    type V = FmValue;

    open spec fn view(&self) -> FmValue {
        match self {
            FrontmatterValue::Text(s) => FmValue::Text(s@),
            FrontmatterValue::Bool(b) => FmValue::Bool(*b),
            FrontmatterValue::Number(s) => FmValue::Number(s@),
            FrontmatterValue::Null => FmValue::Null,
            FrontmatterValue::List(v) => FmValue::List(strings_view(v@)),
        }
    }
}

/// Key/value pairs in insertion order; a later pair overrides an earlier one
/// with the same key.
pub struct Frontmatter {
    pub entries: Vec<(String, FrontmatterValue)>,
}

pub open spec fn entry_view(e: (String, FrontmatterValue)) -> (Seq<char>, FmValue) {
    (e.0@, e.1@)
}

/// The map that a sequence of insertions builds.
pub open spec fn insertions_map(e: Seq<(Seq<char>, FmValue)>) -> Map<Seq<char>, FmValue>
    decreases e.len(),
{
    if e.len() == 0 {
        Map::empty()
    } else {
        insertions_map(e.drop_last()).insert(e.last().0, e.last().1)
    }
}

impl View for Frontmatter {
    type V = Map<Seq<char>, FmValue>;

    open spec fn view(&self) -> Map<Seq<char>, FmValue> {
        insertions_map(self.entries@.map_values(|e: (String, FrontmatterValue)| entry_view(e)))
    }
}

impl Frontmatter {
    pub fn new() -> (f: Self)
        ensures
            f@ == Map::<Seq<char>, FmValue>::empty(),
    {
        let f = Frontmatter { entries: Vec::new() };
        proof {
            assert(f.entries@.map_values(|e: (String, FrontmatterValue)| entry_view(e)) =~= Seq::<(Seq<char>, FmValue)>::empty());
        }
        f
    }

    /// Sets `key` to `value`.
    pub fn insert(&mut self, key: String, value: FrontmatterValue)
        ensures
            final(self)@ == old(self)@.insert(key@, value@),
    {
        let ghost k = key@;
        let ghost v = value@;
        self.entries.push((key, value));
        proof {
            let m = self.entries@.map_values(|e: (String, FrontmatterValue)| entry_view(e));
            assert(m.drop_last() =~= old(self).entries@.map_values(|e: (String, FrontmatterValue)| entry_view(e)));
            assert(m.last() == (k, v));
        }
    }

    /// Whether no key is set.
    pub fn is_empty(&self) -> (b: bool)
        ensures
            b == (self@ =~= Map::<Seq<char>, FmValue>::empty()),
    {
        proof {
            let m = self.entries@.map_values(|e: (String, FrontmatterValue)| entry_view(e));
            if m.len() > 0 {
                assert(insertions_map(m).contains_key(m.last().0));
            } else {
                assert(m =~= Seq::<(Seq<char>, FmValue)>::empty());
            }
        }
        self.entries.len() == 0
    }

    /// The value of `key`, if set.
    pub fn get(&self, key: &str) -> (r: Option<&FrontmatterValue>)
        ensures
            r is Some == self@.contains_key(key@),
            r is Some ==> r->0@ == self@[key@],
    {
        let target = chars_of(key);
        let ghost m = self.entries@.map_values(|e: (String, FrontmatterValue)| entry_view(e));
        let mut i = self.entries.len();
        proof { assert(m.take(i as int) =~= m); }
        while i > 0
            invariant
                i <= self.entries@.len(),
                m == self.entries@.map_values(|e: (String, FrontmatterValue)| entry_view(e)),
                target@ == key@,
                forall|q: Seq<char>| #![auto] insertions_map(m).contains_key(q) == (insertions_map(m.take(i as int)).contains_key(q) || exists|j: int| i <= j < m.len() && m[j].0 == q),
                insertions_map(m).contains_key(key@) ==> (insertions_map(m.take(i as int)).contains_key(key@) && insertions_map(m).index(key@) == insertions_map(m.take(i as int)).index(key@)),
                forall|j: int| i <= j < m.len() ==> m[j].0 != key@,
            decreases i,
        {
            let k = chars_of(self.entries[i - 1].0.as_str());
            proof {
                assert(m.take(i as int).drop_last() =~= m.take(i - 1));
                assert(m.take(i as int).last() == m[i - 1]);
            }
            if crate::text::chars_eq(k.as_slice(), target.as_slice()) {
                return Some(&self.entries[i - 1].1);
            }
            i -= 1;
        }
        proof {
            assert(m.take(0) =~= Seq::<(Seq<char>, FmValue)>::empty());
        }
        None
    }
}

/// The state of the frontmatter reader between lines: the map so far, and
/// the multi-line list being collected, if any.
pub struct FmState {
    pub map: Map<Seq<char>, FmValue>,
    pub list_key: Option<Seq<char>>,
    pub items: Seq<Seq<char>>,
}

/// Closes an open multi-line list: it is stored when it has items and
/// dropped otherwise.
pub open spec fn flush(st: FmState) -> FmState {
    match st.list_key {
        Some(k) => if st.items.len() > 0 {
            FmState { map: st.map.insert(k, FmValue::List(st.items)), list_key: None, items: Seq::empty() }
        } else {
            FmState { map: st.map, list_key: None, items: st.items }
        },
        None => st,
    }
}

/// One inline list item, cleaned of whitespace and quotes.
pub open spec fn clean_item(s: Seq<char>) -> Seq<char> {
    trim_matches(trim_matches(trim(s), '"'), '\'')
}

/// The non-empty cleaned items among `parts`.
pub open spec fn clean_items(parts: Seq<Seq<char>>) -> Seq<Seq<char>>
    decreases parts.len(),
{
    if parts.len() == 0 {
        Seq::empty()
    } else {
        let c = clean_item(parts[0]);
        (if c.len() > 0 { seq![c] } else { Seq::empty() }) + clean_items(parts.drop_first())
    }
}

/// A scalar value: `true`/`True`/`TRUE`, `false`/`False`/`FALSE`, a number
/// (null when it is not a finite `f64`), or text.
pub open spec fn scalar_value(v: Seq<char>) -> FmValue {
    if v == "true"@ || v == "True"@ || v == "TRUE"@ {
        FmValue::Bool(true)
    } else if v == "false"@ || v == "False"@ || v == "FALSE"@ {
        FmValue::Bool(false)
    } else if is_float_literal(v) {
        if float_literal_finite(v) { FmValue::Number(v) } else { FmValue::Null }
    } else {
        FmValue::Text(v)
    }
}

/// Reads one frontmatter line.
pub open spec fn fm_step(st: FmState, line: Seq<char>) -> FmState {
    let t = trim(line);
    if starts_with(t, "- "@) && st.list_key is Some {
        let item = trim_matches(trim(strip_prefix_rep(t, "- "@)), '"');
        if item.len() > 0 {
            FmState { items: st.items.push(item), ..st }
        } else {
            st
        }
    } else {
        let f = flush(st);
        match split_once(line, ':') {
            None => f,
            Some((k, v)) => {
                let key = trim(k);
                let value = trim(v);
                if value.len() == 0 {
                    FmState { map: f.map, list_key: Some(key), items: Seq::empty() }
                } else if value[0] == '[' && value.last() == ']' {
                    FmState {
                        map: f.map.insert(key, FmValue::List(clean_items(split_char(value.subrange(1, value.len() - 1), ',')))),
                        ..f
                    }
                } else {
                    FmState {
                        map: f.map.insert(key, scalar_value(trim_matches(trim_matches(value, '"'), '\''))),
                        ..f
                    }
                }
            },
        }
    }
}

/// Reads the remaining lines, then closes any open list.
pub open spec fn fm_read(ls: Seq<Seq<char>>, st: FmState) -> Map<Seq<char>, FmValue>
    decreases ls.len(),
{
    if ls.len() == 0 {
        flush(st).map
    } else {
        fm_read(ls.drop_first(), fm_step(st, ls[0]))
    }
}

/// The frontmatter block and body of `content`: the text between a leading
/// `---` and the next `---`, and everything after that.
pub open spec fn frontmatter_parts(content: Seq<char>) -> Option<(Seq<char>, Seq<char>)> {
    if starts_with(content, "---"@) {
        match find_from(content, "---"@, 3) {
            Some(j) => Some((content.subrange(3, j), content.skip(j + 3))),
            None => None,
        }
    } else {
        None
    }
}

/// The frontmatter map and body of a note: without a frontmatter block, an
/// empty map and the content unchanged; otherwise the map read from the
/// trimmed block's lines and the trimmed rest.
pub open spec fn parsed_frontmatter(content: Seq<char>) -> (Map<Seq<char>, FmValue>, Seq<char>) {
    match frontmatter_parts(content) {
        None => (Map::empty(), content),
        Some((block, rest)) => (
            fm_read(lines(trim(block)), FmState { map: Map::empty(), list_key: None, items: Seq::empty() }),
            trim(rest),
        ),
    }
}

/// The executable reader state.
struct FmReader {
    fm: Frontmatter,
    list_key: Option<Vec<char>>,
    items: Vec<Vec<char>>,
}

spec fn chars_seq_view(v: Seq<Vec<char>>) -> Seq<Seq<char>> {
    v.map_values(|x: Vec<char>| x@)
}

spec fn reader_view(r: &FmReader) -> FmState {
    FmState {
        map: r.fm@,
        list_key: match r.list_key {
            Some(k) => Some(k@),
            None => None,
        },
        items: chars_seq_view(r.items@),
    }
}

fn strings_of(v: &Vec<Vec<char>>) -> (out: Vec<String>)
    ensures
        strings_view(out@) == chars_seq_view(v@),
{
    let mut out: Vec<String> = Vec::new();
    let mut i: usize = 0;
    while i < v.len()
        invariant
            i <= v@.len(),
            strings_view(out@) == chars_seq_view(v@.take(i as int)),
        decreases v.len() - i,
    {
        let s = string_from_chars(v[i].as_slice());
        proof {
            assert(strings_view(out@.push(s)) =~= strings_view(out@).push(s@));
            assert(chars_seq_view(v@.take(i + 1)) =~= chars_seq_view(v@.take(i as int)).push(v@[i as int]@));
        }
        out.push(s);
        i += 1;
    }
    proof { assert(v@.take(v@.len() as int) =~= v@); }
    out
}

fn flush_reader(r: &mut FmReader)
    ensures
        reader_view(final(r)) == flush(reader_view(old(r))),
{
    let key = r.list_key.take();
    match key {
        Some(k) => {
            if r.items.len() > 0 {
                let list = strings_of(&r.items);
                r.fm.insert(string_from_chars(k.as_slice()), FrontmatterValue::List(list));
                r.items = Vec::new();
                proof { assert(chars_seq_view(r.items@) =~= Seq::<Seq<char>>::empty()); }
            }
        },
        None => {},
    }
}

fn clean_item_vec(s: &[char]) -> (out: Vec<char>)
    ensures
        out@ == clean_item(s@),
{
    let a = trim_vec(s);
    let b = trim_matches_vec(a.as_slice(), '"');
    trim_matches_vec(b.as_slice(), '\'')
}

fn clean_items_vec(parts: &Vec<Vec<char>>) -> (out: Vec<String>)
    ensures
        strings_view(out@) == clean_items(chars_seq_view(parts@)),
{
    let ghost ps = chars_seq_view(parts@);
    let mut out: Vec<String> = Vec::new();
    let mut i: usize = 0;
    proof { assert(ps.skip(0) =~= ps); }
    while i < parts.len()
        invariant
            i <= parts@.len(),
            ps == chars_seq_view(parts@),
            clean_items(ps) == strings_view(out@) + clean_items(ps.skip(i as int)),
        decreases parts.len() - i,
    {
        let c = clean_item_vec(parts[i].as_slice());
        proof {
            let r = ps.skip(i as int);
            assert(r[0] == parts@[i as int]@);
            assert(r.drop_first() =~= ps.skip(i + 1));
        }
        if c.len() > 0 {
            let s = string_from_chars(c.as_slice());
            proof {
                assert(strings_view(out@.push(s)) =~= strings_view(out@).push(s@));
                assert(strings_view(out@) + (seq![c@] + clean_items(ps.skip(i + 1))) =~= strings_view(out@.push(s)) + clean_items(ps.skip(i + 1)));
            }
            out.push(s);
        } else {
            proof {
                assert(strings_view(out@) + (Seq::<Seq<char>>::empty() + clean_items(ps.skip(i + 1))) =~= strings_view(out@) + clean_items(ps.skip(i + 1)));
            }
        }
        i += 1;
    }
    proof {
        assert(ps.skip(parts@.len() as int) =~= Seq::<Seq<char>>::empty());
        assert(strings_view(out@) + Seq::<Seq<char>>::empty() =~= strings_view(out@));
    }
    out
}

fn scalar_value_exec(v: &[char]) -> (out: FrontmatterValue)
    ensures
        out@ == scalar_value(v@),
{
    if chars_eq_str(v, "true") || chars_eq_str(v, "True") || chars_eq_str(v, "TRUE") {
        FrontmatterValue::Bool(true)
    } else if chars_eq_str(v, "false") || chars_eq_str(v, "False") || chars_eq_str(v, "FALSE") {
        FrontmatterValue::Bool(false)
    } else if is_float_literal_vec(v) {
        if float_literal_finite_vec(v) {
            FrontmatterValue::Number(string_from_chars(v))
        } else {
            FrontmatterValue::Null
        }
    } else {
        FrontmatterValue::Text(string_from_chars(v))
    }
}

fn read_line(r: &mut FmReader, line: &[char])
    ensures
        reader_view(final(r)) == fm_step(reader_view(old(r)), line@),
{
    let t = trim_vec(line);
    let dash = chars_of("- ");
    if starts_with_vec(t.as_slice(), dash.as_slice()) && r.list_key.is_some() {
        let stripped = strip_prefix_rep_vec(t.as_slice(), dash.as_slice());
        let inner = trim_vec(stripped.as_slice());
        let item = trim_matches_vec(inner.as_slice(), '"');
        if item.len() > 0 {
            proof {
                assert(chars_seq_view(r.items@.push(item)) =~= chars_seq_view(r.items@).push(item@));
            }
            r.items.push(item);
        }
        return;
    }
    flush_reader(r);
    match split_once_vec(line, ':') {
        None => {},
        Some((k, v)) => {
            let key = trim_vec(k.as_slice());
            let value = trim_vec(v.as_slice());
            if value.len() == 0 {
                r.list_key = Some(key);
                r.items = Vec::new();
                proof { assert(chars_seq_view(r.items@) =~= Seq::<Seq<char>>::empty()); }
            } else if value[0] == '[' && value[value.len() - 1] == ']' {
                let n = value.len();
                let inner = slice_vec(value.as_slice(), 1, n - 1);
                let parts = split_char_vec(inner.as_slice(), ',');
                proof {
                    assert(chars_seq_view(parts@) =~= parts@.map_values(|l: Vec<char>| l@));
                }
                let items = clean_items_vec(&parts);
                r.fm.insert(string_from_chars(key.as_slice()), FrontmatterValue::List(items));
            } else {
                let a = trim_matches_vec(value.as_slice(), '"');
                let b = trim_matches_vec(a.as_slice(), '\'');
                let sv = scalar_value_exec(b.as_slice());
                r.fm.insert(string_from_chars(key.as_slice()), sv);
            }
        },
    }
}

/// Parses a note's frontmatter: the frontmatter map and the note body.
pub fn parse_frontmatter(content: &str) -> (r: (Frontmatter, String))
    ensures
        r.0@ == parsed_frontmatter(content@).0,
        r.1@ == parsed_frontmatter(content@).1,
{
    let cs = chars_of(content);
    let marker = chars_of("---");
    proof {
        reveal_strlit("---");
        assert(marker@.len() == 3);
    }
    if !starts_with_vec(cs.as_slice(), marker.as_slice()) {
        return (Frontmatter::new(), content.to_string());
    }
    let found = find_from_vec(cs.as_slice(), marker.as_slice(), 3);
    if found.is_none() {
        return (Frontmatter::new(), content.to_string());
    }
    let j = found.unwrap();
    let n = cs.len();
    let block = slice_vec(cs.as_slice(), 3, j);
    let rest = slice_vec(cs.as_slice(), j + 3, n);
    proof { assert(rest@ =~= cs@.skip(j + 3)); }
    let body = trim_vec(rest.as_slice());
    let fm_text = trim_vec(block.as_slice());
    let ls = crate::text::lines_vec(fm_text.as_slice());
    let ghost lsv = ls@.map_values(|l: Vec<char>| l@);
    let mut reader = FmReader { fm: Frontmatter::new(), list_key: None, items: Vec::new() };
    proof {
        assert(chars_seq_view(reader.items@) =~= Seq::<Seq<char>>::empty());
        assert(lsv.skip(0) =~= lsv);
    }
    let mut i: usize = 0;
    while i < ls.len()
        invariant
            i <= ls@.len(),
            lsv == ls@.map_values(|l: Vec<char>| l@),
            lsv == lines(trim(block@)),
            block@ == cs@.subrange(3, j as int),
            fm_read(lsv, FmState { map: Map::empty(), list_key: None, items: Seq::empty() })
                == fm_read(lsv.skip(i as int), reader_view(&reader)),
        decreases ls.len() - i,
    {
        proof {
            let r = lsv.skip(i as int);
            assert(r[0] == ls@[i as int]@);
            assert(r.drop_first() =~= lsv.skip(i + 1));
        }
        read_line(&mut reader, ls[i].as_slice());
        i += 1;
    }
    proof { assert(lsv.skip(ls@.len() as int) =~= Seq::<Seq<char>>::empty()); }
    flush_reader(&mut reader);
    (reader.fm, string_from_chars(body.as_slice()))
}


/// The node kind that a lowercased `type` value names, if any.
pub open spec fn kind_for_type_name(lower: Seq<char>) -> Option<NodeKind> {
    if lower == "todo"@ || lower == "task"@ {
        Some(NodeKind::Task)
    } else if lower == "event"@ {
        Some(NodeKind::Event)
    } else if lower == "project"@ {
        Some(NodeKind::Project)
    } else if lower == "decision"@ {
        Some(NodeKind::Decision)
    } else if lower == "procedure"@ {
        Some(NodeKind::Procedure)
    } else {
        None
    }
}

/// The kind of a note: the one its text `type` names (compared in
/// lowercase), else `Event` for a note with a `date`, else `Fact`.
pub open spec fn note_kind(fm: Map<Seq<char>, FmValue>) -> NodeKind {
    let by_type = if fm.contains_key("type"@) {
        match fm["type"@] {
            FmValue::Text(t) => kind_for_type_name(unicode_lowercase(t)),
            _ => None,
        }
    } else {
        None
    };
    match by_type {
        Some(k) => k,
        None => if fm.contains_key("date"@) { NodeKind::Event } else { NodeKind::Fact },
    }
}

/// The node kind that a lowercased `type` value names, if any.
pub fn kind_for_type(lower: &str) -> (r: Option<NodeKind>)
    ensures
        r == kind_for_type_name(lower@),
{
    let l = chars_of(lower);
    if chars_eq_str(l.as_slice(), "todo") || chars_eq_str(l.as_slice(), "task") {
        Some(NodeKind::Task)
    } else if chars_eq_str(l.as_slice(), "event") {
        Some(NodeKind::Event)
    } else if chars_eq_str(l.as_slice(), "project") {
        Some(NodeKind::Project)
    } else if chars_eq_str(l.as_slice(), "decision") {
        Some(NodeKind::Decision)
    } else if chars_eq_str(l.as_slice(), "procedure") {
        Some(NodeKind::Procedure)
    } else {
        None
    }
}

/// Determines a note's kind from its frontmatter.
pub fn determine_kind(frontmatter: &Frontmatter) -> (k: NodeKind)
    ensures
        k == note_kind(frontmatter@),
{
    let by_type = match frontmatter.get("type") {
        Some(FrontmatterValue::Text(t)) => {
            let lower = to_lowercase_string(t.as_str());
            kind_for_type(lower.as_str())
        },
        _ => None,
    };
    match by_type {
        Some(k) => k,
        None => if frontmatter.get("date").is_some() { NodeKind::Event } else { NodeKind::Fact },
    }
}

/// The trimmed, non-empty members of `parts`, in order.
pub open spec fn trimmed_nonempty(parts: Seq<Seq<char>>) -> Seq<Seq<char>>
    decreases parts.len(),
{
    if parts.len() == 0 {
        Seq::empty()
    } else {
        let rest = trimmed_nonempty(parts.drop_last());
        let t = trim(parts.last());
        if t.len() > 0 { rest.push(t) } else { rest }
    }
}

/// The tags a note's frontmatter gives: the members of a `tags` list, or the
/// comma-separated parts of a `tags` text, trimmed, empty ones dropped.
pub open spec fn frontmatter_tags(fm: Map<Seq<char>, FmValue>) -> Seq<Seq<char>> {
    if fm.contains_key("tags"@) {
        match fm["tags"@] {
            FmValue::List(items) => trimmed_nonempty(items),
            FmValue::Text(t) => trimmed_nonempty(split_char(t, ',')),
            _ => Seq::empty(),
        }
    } else {
        Seq::empty()
    }
}

fn trimmed_nonempty_vec(parts: &Vec<Vec<char>>) -> (out: Vec<String>)
    ensures
        strings_view(out@) == trimmed_nonempty(chars_seq_view(parts@)),
{
    let ghost ps = chars_seq_view(parts@);
    let mut out: Vec<String> = Vec::new();
    let mut i: usize = 0;
    proof {
        assert(ps.take(0) =~= Seq::<Seq<char>>::empty());
        assert(strings_view(out@) =~= Seq::<Seq<char>>::empty());
    }
    while i < parts.len()
        invariant
            i <= parts@.len(),
            ps == chars_seq_view(parts@),
            strings_view(out@) == trimmed_nonempty(ps.take(i as int)),
        decreases parts.len() - i,
    {
        proof {
            assert(ps.take(i + 1).drop_last() =~= ps.take(i as int));
            assert(ps.take(i + 1).last() == parts@[i as int]@);
        }
        let t = trim_vec(parts[i].as_slice());
        if t.len() > 0 {
            let s = string_from_chars(t.as_slice());
            proof { assert(strings_view(out@.push(s)) =~= strings_view(out@).push(s@)); }
            out.push(s);
        }
        i += 1;
    }
    proof { assert(ps.take(parts@.len() as int) =~= ps); }
    out
}

fn char_vecs_of(v: &Vec<String>) -> (out: Vec<Vec<char>>)
    ensures
        chars_seq_view(out@) == strings_view(v@),
{
    let mut out: Vec<Vec<char>> = Vec::new();
    let mut i: usize = 0;
    while i < v.len()
        invariant
            i <= v@.len(),
            chars_seq_view(out@) == strings_view(v@.take(i as int)),
        decreases v.len() - i,
    {
        let c = chars_of(v[i].as_str());
        proof {
            assert(chars_seq_view(out@.push(c)) =~= chars_seq_view(out@).push(c@));
            assert(strings_view(v@.take(i + 1)) =~= strings_view(v@.take(i as int)).push(v@[i as int]@));
        }
        out.push(c);
        i += 1;
    }
    proof { assert(v@.take(v@.len() as int) =~= v@); }
    out
}

/// Extracts the tags of a note's frontmatter.
pub fn extract_frontmatter_tags(frontmatter: &Frontmatter) -> (out: Vec<String>)
    ensures
        strings_view(out@) == frontmatter_tags(frontmatter@),
{
    match frontmatter.get("tags") {
        Some(FrontmatterValue::List(items)) => {
            let parts = char_vecs_of(items);
            trimmed_nonempty_vec(&parts)
        },
        Some(FrontmatterValue::Text(t)) => {
            let cs = chars_of(t.as_str());
            let parts = split_char_vec(cs.as_slice(), ',');
            proof { assert(chars_seq_view(parts@) =~= parts@.map_values(|l: Vec<char>| l@)); }
            trimmed_nonempty_vec(&parts)
        },
        _ => {
            let out: Vec<String> = Vec::new();
            proof { assert(strings_view(out@) =~= Seq::<Seq<char>>::empty()); }
            out
        },
    }
}

/// The folder paths above a note, from the outermost: each path component
/// joined to the ones before it with `/`.
pub open spec fn folder_paths(components: Seq<Seq<char>>) -> Seq<Seq<char>>
    decreases components.len(),
{
    if components.len() == 0 {
        Seq::empty()
    } else {
        let prev = folder_paths(components.drop_last());
        let acc = if prev.len() == 0 { Seq::<char>::empty() } else { prev.last() };
        let next = if acc.len() == 0 { components.last() } else { acc + "/"@ + components.last() };
        prev.push(next)
    }
}

/// The folder tags of a note whose parent directory has `parent`'s
/// components: `folder:` and each folder path; none without a parent.
pub open spec fn folder_tags_spec(parent: Option<Seq<Seq<char>>>) -> Seq<Seq<char>> {
    match parent {
        None => Seq::empty(),
        Some(cs) => folder_paths(cs).map_values(|p: Seq<char>| "folder:"@ + p),
    }
}

/// The `/`-separated segments of a path.
pub open spec fn path_segments(p: Seq<char>) -> Seq<Seq<char>> {
    split_char(p, '/')
}

/// A segment that every platform's path syntax reads as one plain name:
/// not empty, not `.` and not `..`.
pub open spec fn plain_segment(s: Seq<char>) -> bool {
    s.len() > 0 && s != "."@ && s != ".."@
}

/// A relative path of plain `/`-separated segments, with no `\` and no
/// `:` anywhere: every platform splits it at its `/`s and nowhere else.
pub open spec fn plain_relative_path(p: Seq<char>) -> bool {
    &&& forall|i: int| 0 <= i < p.len() ==> #[trigger] p[i] != '\\' && p[i] != ':'
    &&& forall|k: int| 0 <= k < path_segments(p).len() ==> plain_segment(#[trigger] path_segments(p)[k])
}

/// The stem of a file name, as `Path::file_stem` takes it: the name up to
/// its last `.`, or the whole name when it has no `.` or only a leading one.
pub open spec fn file_name_stem(name: Seq<char>) -> Seq<char> {
    match last_index_of(name, '.') {
        Some(i) => if i > 0 { name.take(i) } else { name },
        None => name,
    }
}

/// The components of the parent directory of `relative_path`, as
/// `std::path::Path::parent` and `Path::components` give them (each
/// component's text, lossily decoded); `None` when the path has no parent.
/// Stated: for a plain relative path, these are its segments but the last.
/// Other paths are read by the platform's own path syntax, of which nothing
/// is claimed.
#[verifier::external_body]
fn parent_components(relative_path: &str) -> (r: Option<Vec<String>>)
    ensures
        plain_relative_path(relative_path@) ==> r is Some && strings_view(r->0@) == path_segments(relative_path@).drop_last(),
{
    std::path::Path::new(relative_path).parent().map(
        |p| p.components().map(|c| c.as_os_str().to_string_lossy().to_string()).collect(),
    )
}

/// The stem of `relative_path`'s file name, as `std::path::Path::file_stem`
/// gives it, when there is one and it is valid UTF-8. Stated: for a plain
/// relative path, the stem of its last segment. Other paths are read by the
/// platform's own path syntax, of which nothing is claimed.
#[verifier::external_body]
pub(crate) fn file_stem_text(relative_path: &str) -> (r: Option<String>)
    ensures
        plain_relative_path(relative_path@) ==> r is Some && r->0@ == file_name_stem(path_segments(relative_path@).last()),
{
    std::path::Path::new(relative_path).file_stem().and_then(|s| s.to_str()).map(|s| s.to_string())
}

/// The text of an optional string.
pub open spec fn opt_string_view(o: &Option<String>) -> Option<Seq<char>> {
    match o {
        Some(v) => Some(v@),
        None => None,
    }
}

/// The texts of an optional list of strings.
pub open spec fn opt_strings_view(o: Option<Vec<String>>) -> Option<Seq<Seq<char>>> {
    match o {
        Some(v) => Some(strings_view(v@)),
        None => None,
    }
}

/// The folder tags for a parent directory with the given components.
pub fn folder_tags_from_parent(parent: Option<Vec<String>>) -> (out: Vec<String>)
    ensures
        strings_view(out@) == folder_tags_spec(opt_strings_view(parent)),
{
    let cs = match parent {
        None => {
            let out: Vec<String> = Vec::new();
            proof { assert(strings_view(out@) =~= Seq::<Seq<char>>::empty()); }
            return out;
        },
        Some(cs) => cs,
    };
    let ghost cv = strings_view(cs@);
    let prefix = chars_of("folder:");
    let slash = chars_of("/");
    let mut out: Vec<String> = Vec::new();
    let mut acc: Vec<char> = Vec::new();
    let mut i: usize = 0;
    proof {
        assert(cv.take(0) =~= Seq::<Seq<char>>::empty());
        assert(strings_view(out@) =~= Seq::<Seq<char>>::empty());
    }
    while i < cs.len()
        invariant
            i <= cs@.len(),
            cv == strings_view(cs@),
            prefix@ == "folder:"@,
            slash@ == "/"@,
            strings_view(out@) == folder_paths(cv.take(i as int)).map_values(|p: Seq<char>| "folder:"@ + p),
            acc@ == (if i == 0 { Seq::<char>::empty() } else { folder_paths(cv.take(i as int)).last() }),
            i > 0 ==> folder_paths(cv.take(i as int)).len() == i,
        decreases cs.len() - i,
    {
        let seg = chars_of(cs[i].as_str());
        let ghost prev = folder_paths(cv.take(i as int));
        proof {
            assert(cv.take(i + 1).drop_last() =~= cv.take(i as int));
            assert(cv.take(i + 1).last() == cs@[i as int]@);
            if i == 0 {
                assert(cv.take(0) =~= Seq::<Seq<char>>::empty());
            }
        }
        if acc.len() == 0 {
            acc = seg;
        } else {
            let mut next = acc.clone();
            let mut j: usize = 0;
            proof { assert(next@ == acc@); }
            next.push('/');
            while j < seg.len()
                invariant
                    j <= seg@.len(),
                    next@ == acc@ + seq!['/'] + seg@.take(j as int),
                decreases seg.len() - j,
            {
                proof { assert(acc@ + seq!['/'] + seg@.take(j + 1) =~= (acc@ + seq!['/'] + seg@.take(j as int)).push(seg@[j as int])); }
                next.push(seg[j]);
                j += 1;
            }
            proof {
                reveal_strlit("/");
                assert(seg@.take(seg@.len() as int) =~= seg@);
                assert(next@ =~= acc@ + "/"@ + seg@);
            }
            acc = next;
        }
        let mut tag = prefix.clone();
        let mut j: usize = 0;
        proof { assert(tag@ == prefix@); }
        while j < acc.len()
            invariant
                j <= acc@.len(),
                tag@ == prefix@ + acc@.take(j as int),
            decreases acc.len() - j,
        {
            proof { assert(prefix@ + acc@.take(j + 1) =~= (prefix@ + acc@.take(j as int)).push(acc@[j as int])); }
            tag.push(acc[j]);
            j += 1;
        }
        proof { assert(acc@.take(acc@.len() as int) =~= acc@); }
        let s = string_from_chars(tag.as_slice());
        proof {
            assert(strings_view(out@.push(s)) =~= strings_view(out@).push(s@));
            let f = |p: Seq<char>| "folder:"@ + p;
            assert(folder_paths(cv.take(i + 1)).map_values(f) =~= folder_paths(cv.take(i as int)).map_values(f).push(f(acc@)));
        }
        out.push(s);
        i += 1;
    }
    proof { assert(cv.take(cs@.len() as int) =~= cv); }
    out
}

/// The folder tags of a note at `relative_path` within its vault:
/// `projects/foo/note.md` gives `folder:projects` and `folder:projects/foo`.
pub fn folder_tags(relative_path: &str) -> (out: Vec<String>)
    ensures
        exists|parent: Option<Seq<Seq<char>>>| strings_view(out@) == folder_tags_spec(parent),
        plain_relative_path(relative_path@) ==> strings_view(out@) == folder_tags_spec(Some(path_segments(relative_path@).drop_last())),
{
    let parent = parent_components(relative_path);
    let ghost p = opt_strings_view(parent);
    let out = folder_tags_from_parent(parent);
    assert(strings_view(out@) == folder_tags_spec(p));
    out
}

/// The lookup key of a note: its file stem, lowercased (empty without a
/// stem).
pub fn note_stem(relative_path: &str) -> (out: String)
    ensures
        exists|stem: Seq<char>| out@ == unicode_lowercase(stem),
        plain_relative_path(relative_path@) ==> out@ == unicode_lowercase(file_name_stem(path_segments(relative_path@).last())),
{
    match file_stem_text(relative_path) {
        Some(s) => to_lowercase_string(s.as_str()),
        None => to_lowercase_string(""),
    }
}

/// A note that does not begin with `---` has no frontmatter: its map is
/// empty and its body is the whole content.
pub proof fn lemma_no_frontmatter(content: Seq<char>)
    ensures
        !(content.len() >= 3 && content[0] == '-' && content[1] == '-' && content[2] == '-')
            ==> parsed_frontmatter(content) == (Map::<Seq<char>, FmValue>::empty(), content),
{
    reveal_strlit("---");
    if starts_with(content, "---"@) {
        assert(content.take(3)[0] == content[0] && content.take(3)[1] == content[1] && content.take(3)[2] == content[2]);
    }
}

/// How a frontmatter scalar reads: `true`, `True` and `TRUE` are true;
/// `false`, `False` and `FALSE` are false; a number literal is a number (null
/// when it is not a finite `f64`); anything else is text, kept as written.
pub proof fn lemma_scalar_values(v: Seq<char>)
    ensures
        (v == seq!['t', 'r', 'u', 'e'] || v == seq!['T', 'r', 'u', 'e'] || v == seq!['T', 'R', 'U', 'E']) ==> scalar_value(v) == FmValue::Bool(true),
        (v == seq!['f', 'a', 'l', 's', 'e'] || v == seq!['F', 'a', 'l', 's', 'e'] || v == seq!['F', 'A', 'L', 'S', 'E']) ==> scalar_value(v) == FmValue::Bool(false),
        scalar_value(v) matches FmValue::Text(t) ==> t == v,
        scalar_value(v) matches FmValue::Number(t) ==> t == v && is_float_literal(v) && float_literal_finite(v),
        scalar_value(v) is Null ==> is_float_literal(v) && !float_literal_finite(v),
        scalar_value(v) matches FmValue::Bool(b) ==> (b ==> v.len() == 4) && (!b ==> v.len() == 5),
        !(scalar_value(v) is Bool) && !is_float_literal(v) ==> scalar_value(v) == FmValue::Text(v),
{
    reveal_strlit("true");
    reveal_strlit("True");
    reveal_strlit("TRUE");
    reveal_strlit("false");
    reveal_strlit("False");
    reveal_strlit("FALSE");
    assert("true"@ =~= seq!['t', 'r', 'u', 'e']);
    assert("True"@ =~= seq!['T', 'r', 'u', 'e']);
    assert("TRUE"@ =~= seq!['T', 'R', 'U', 'E']);
    assert("false"@ =~= seq!['f', 'a', 'l', 's', 'e']);
    assert("False"@ =~= seq!['F', 'a', 'l', 's', 'e']);
    assert("FALSE"@ =~= seq!['F', 'A', 'L', 'S', 'E']);
}

/// The kind of a note: a text `type` naming a task (`task` or `todo`), an
/// event, a project, a decision or a procedure gives that kind; otherwise a
/// note with a `date` is an event and any other note a fact.
pub proof fn lemma_note_kinds(fm: Map<Seq<char>, FmValue>)
    ensures
        ({
            let by_type = if fm.contains_key("type"@) && fm["type"@] is Text {
                kind_for_type_name(unicode_lowercase(fm["type"@]->Text_0))
            } else {
                None
            };
            &&& by_type is Some ==> note_kind(fm) == by_type->0
            &&& by_type is None && fm.contains_key("date"@) ==> note_kind(fm) == NodeKind::Event
            &&& by_type is None && !fm.contains_key("date"@) ==> note_kind(fm) == NodeKind::Fact
        }),
        kind_for_type_name(seq!['t', 'a', 's', 'k']) == Some(NodeKind::Task),
        kind_for_type_name(seq!['t', 'o', 'd', 'o']) == Some(NodeKind::Task),
        kind_for_type_name(seq!['e', 'v', 'e', 'n', 't']) == Some(NodeKind::Event),
        kind_for_type_name(seq!['p', 'r', 'o', 'j', 'e', 'c', 't']) == Some(NodeKind::Project),
        kind_for_type_name(seq!['d', 'e', 'c', 'i', 's', 'i', 'o', 'n']) == Some(NodeKind::Decision),
        kind_for_type_name(seq!['p', 'r', 'o', 'c', 'e', 'd', 'u', 'r', 'e']) == Some(NodeKind::Procedure),
        kind_for_type_name(seq!['n', 'o', 't', 'e']) is None,
{
    reveal_strlit("todo");
    reveal_strlit("task");
    reveal_strlit("event");
    reveal_strlit("project");
    reveal_strlit("decision");
    reveal_strlit("procedure");
    assert("task"@ =~= seq!['t', 'a', 's', 'k']);
    assert("todo"@ =~= seq!['t', 'o', 'd', 'o']);
    assert("event"@ =~= seq!['e', 'v', 'e', 'n', 't']);
    assert("project"@ =~= seq!['p', 'r', 'o', 'j', 'e', 'c', 't']);
    assert("decision"@ =~= seq!['d', 'e', 'c', 'i', 's', 'i', 'o', 'n']);
    assert("procedure"@ =~= seq!['p', 'r', 'o', 'c', 'e', 'd', 'u', 'r', 'e']);
    assert(seq!['n', 'o', 't', 'e'] != "todo"@) by { assert(seq!['n', 'o', 't', 'e'][0] != "todo"@[0]); }
    assert(seq!['n', 'o', 't', 'e'] != "task"@) by { assert(seq!['n', 'o', 't', 'e'][0] != "task"@[0]); }
    assert(seq!['t', 'o', 'd', 'o'] != "task"@) by { assert(seq!['t', 'o', 'd', 'o'][1] != "task"@[1]); }
}

/// Tags read from frontmatter are never empty and carry no surrounding
/// whitespace; each is a trimmed member of the `tags` list.
pub proof fn lemma_tags_trimmed(parts: Seq<Seq<char>>)
    ensures
        forall|j: int| 0 <= j < trimmed_nonempty(parts).len() ==> (#[trigger] trimmed_nonempty(parts)[j]).len() > 0
            && exists|i: int| 0 <= i < parts.len() && trimmed_nonempty(parts)[j] == trim(#[trigger] parts[i]),
        forall|i: int| 0 <= i < parts.len() && trim(#[trigger] parts[i]).len() > 0 ==> trimmed_nonempty(parts).contains(trim(parts[i])),
    decreases parts.len(),
{
    if parts.len() > 0 {
        let init = parts.drop_last();
        lemma_tags_trimmed(init);
        let r = trimmed_nonempty(init);
        let all = trimmed_nonempty(parts);
        assert forall|i: int| 0 <= i < init.len() implies #[trigger] init[i] == parts[i] by {}
        assert(parts[parts.len() - 1] == parts.last());
        assert forall|j: int| 0 <= j < all.len() implies (#[trigger] all[j]).len() > 0
            && exists|i: int| 0 <= i < parts.len() && all[j] == trim(#[trigger] parts[i]) by {
            if j < r.len() {
                assert(all[j] == r[j]);
                let i = choose|i: int| 0 <= i < init.len() && r[j] == trim(#[trigger] init[i]);
                assert(parts[i] == init[i]);
            } else {
                assert(all[j] == trim(parts[parts.len() - 1]));
            }
        }
        assert forall|i: int| 0 <= i < parts.len() && trim(#[trigger] parts[i]).len() > 0 implies all.contains(trim(parts[i])) by {
            if i < parts.len() - 1 {
                assert(init[i] == parts[i]);
                assert(r.contains(trim(init[i])));
                let q = choose|q: int| 0 <= q < r.len() && r[q] == trim(init[i]);
                if all != r {
                    assert(all[q] == r[q]);
                }
            } else {
                assert(all[r.len() as int] == trim(parts[i]));
            }
        }
    }
}

/// The stem of a file name `name.ext`, where `ext` holds no `.` and `name`
/// is not empty, is `name`; a name without a `.` is its own stem.
pub proof fn lemma_file_stem(name: Seq<char>, ext: Seq<char>)
    ensures
        name.len() > 0 && (forall|i: int| 0 <= i < ext.len() ==> #[trigger] ext[i] != '.')
            ==> file_name_stem(name + seq!['.'] + ext) == name,
        (forall|i: int| 0 <= i < name.len() ==> #[trigger] name[i] != '.') ==> file_name_stem(name) == name,
{
    if name.len() > 0 && (forall|i: int| 0 <= i < ext.len() ==> #[trigger] ext[i] != '.') {
        let s = name + seq!['.'] + ext;
        lemma_last_index_of_after(name, '.', ext);
        assert(s.take(name.len() as int) =~= name);
    }
    if forall|i: int| 0 <= i < name.len() ==> #[trigger] name[i] != '.' {
        lemma_last_index_of_absent(name, '.');
    }
}

/// The folder paths above a note whose folders all have names: one per
/// folder, from the outermost, each the folder names down to it joined
/// with `/`; its folder tags are these paths after `folder:`.
pub proof fn lemma_folder_paths_join(cs: Seq<Seq<char>>)
    requires
        forall|i: int| 0 <= i < cs.len() ==> (#[trigger] cs[i]).len() > 0,
    ensures
        folder_paths(cs).len() == cs.len(),
        forall|k: int| 0 <= k < cs.len() ==> #[trigger] folder_paths(cs)[k] == crate::work_orders::join_with(cs.take(k + 1), "/"@),
        forall|k: int| 0 <= k < cs.len() ==> (#[trigger] folder_paths(cs)[k]).len() > 0,
        forall|k: int| 0 <= k < cs.len() ==> #[trigger] folder_tags_spec(Some(cs))[k] == "folder:"@ + folder_paths(cs)[k],
    decreases cs.len(),
{
    if cs.len() > 0 {
        let init = cs.drop_last();
        assert forall|i: int| 0 <= i < init.len() implies (#[trigger] init[i]).len() > 0 by {
            assert(init[i] == cs[i]);
        }
        lemma_folder_paths_join(init);
        let prev = folder_paths(init);
        let n = cs.len() - 1;
        assert forall|k: int| 0 <= k < n implies #[trigger] cs.take(k + 1) == init.take(k + 1) by {
            assert(cs.take(k + 1) =~= init.take(k + 1));
        }
        assert(cs.take(n + 1) =~= cs);
        if n > 0 {
            assert(prev.last() == prev[n - 1]);
            assert(cs.drop_last() =~= init);
            assert(init.take(n) =~= init);
            assert(crate::work_orders::join_with(cs, "/"@) == crate::work_orders::join_with(init, "/"@) + "/"@ + cs.last());
        } else {
            assert(cs =~= seq![cs[0]]);
        }
        assert forall|k: int| 0 <= k < cs.len() implies #[trigger] folder_paths(cs)[k] == crate::work_orders::join_with(cs.take(k + 1), "/"@) by {
            if k < n {
                assert(folder_paths(cs)[k] == prev[k]);
            }
        }
    }
}

} // verus!
