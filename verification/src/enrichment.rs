//! Language-model enrichment of a node: the prompt sent for it, and how the
//! tags and title the model suggests are merged into the node.

use vstd::prelude::*;
use crate::obsidian::strings_view;
use crate::text::{
    char_utf8_width, chars_eq_str, chars_of, concat_str, lemma_utf8_len_append, lemma_utf8_len_single,
    utf8_len,
};

verus! {

/// The text before a node's content in the enrichment prompt.
pub open spec fn prompt_head() -> Seq<char> {
    "Analyze the following content and extract: \n1. Up to 5 relevant tags (e.g. #project-x, #research)\n2. A short title if missing\n3. Importance score (0.0 to 1.0)\n\nContent: "@
}

/// The text after a node's content in the enrichment prompt.
pub open spec fn prompt_tail() -> Seq<char> {
    "\n\nReturn JSON: {\"tags\": [], \"title\": \"\", \"importance\": 0.0}"@
}

/// The prompt that asks the model to enrich a node with this content.
pub fn enrichment_prompt(content: &str) -> (out: String)
    ensures
        out@ == prompt_head() + content@ + prompt_tail(),
{
    let a = concat_str(
        "Analyze the following content and extract: \n1. Up to 5 relevant tags (e.g. #project-x, #research)\n2. A short title if missing\n3. Importance score (0.0 to 1.0)\n\nContent: ",
        content,
    );
    concat_str(a.as_str(), "\n\nReturn JSON: {\"tags\": [], \"title\": \"\", \"importance\": 0.0}")
}

/// `tags` with each suggested tag appended unless already there (exact
/// match, counting the ones appended before it).
pub open spec fn merged_suggestions(tags: Seq<Seq<char>>, suggested: Seq<Seq<char>>) -> Seq<Seq<char>>
    decreases suggested.len(),
{
    if suggested.len() == 0 {
        tags
    } else {
        let before = merged_suggestions(tags, suggested.drop_last());
        if before.contains(suggested.last()) { before } else { before.push(suggested.last()) }
    }
}

fn contains_string(v: &Vec<String>, s: &str) -> (b: bool)
    ensures
        b == strings_view(v@).contains(s@),
{
    let c = chars_of(s);
    let mut i: usize = 0;
    while i < v.len()
        invariant
            i <= v@.len(),
            c@ == s@,
            forall|j: int| 0 <= j < i ==> strings_view(v@)[j] != s@,
        decreases v.len() - i,
    {
        if chars_eq_str(c.as_slice(), v[i].as_str()) {
            proof { assert(strings_view(v@)[i as int] == s@); }
            return true;
        }
        i += 1;
    }
    false
}

/// Merges the model's suggested tags into a node's tags.
pub fn merge_suggested_tags(tags: Vec<String>, suggested: &Vec<String>) -> (out: Vec<String>)
    ensures
        strings_view(out@) == merged_suggestions(strings_view(tags@), strings_view(suggested@)),
{
    let ghost t0 = strings_view(tags@);
    let ghost sv = strings_view(suggested@);
    let mut out = tags;
    let mut i: usize = 0;
    proof { assert(sv.take(0) =~= Seq::<Seq<char>>::empty()); }
    while i < suggested.len()
        invariant
            i <= suggested@.len(),
            sv == strings_view(suggested@),
            strings_view(out@) == merged_suggestions(t0, sv.take(i as int)),
        decreases suggested.len() - i,
    {
        proof {
            let t = sv.take(i + 1);
            assert(t.drop_last() =~= sv.take(i as int));
            assert(t.last() == suggested@[i as int]@);
        }
        if !contains_string(&out, suggested[i].as_str()) {
            let s = suggested[i].clone();
            proof { assert(strings_view(out@.push(s)) =~= strings_view(out@).push(s@)); }
            out.push(s);
        }
        i += 1;
    }
    proof { assert(sv.take(suggested@.len() as int) =~= sv); }
    out
}

/// The title after enrichment: the model's title replaces a missing title
/// or one shorter than 5 bytes (in UTF-8), when the model's title is not
/// empty.
pub open spec fn enriched_title_of(current: Option<Seq<char>>, suggested: Seq<char>) -> Option<Seq<char>> {
    let weak = match current {
        None => true,
        Some(t) => utf8_len(t) < 5,
    };
    if weak && suggested.len() > 0 { Some(suggested) } else { current }
}

/// Whether `s` takes fewer than `k` bytes in UTF-8.
fn utf8_shorter_than(s: &[char], k: usize) -> (b: bool)
    ensures
        b == (utf8_len(s@) < k),
{
    if k == 0 {
        return false;
    }
    let mut total: usize = 0;
    let mut i: usize = 0;
    proof { assert(s@.take(0) =~= Seq::<char>::empty()); }
    while i < s.len()
        invariant
            i <= s@.len(),
            total == utf8_len(s@.take(i as int)),
            total < k,
        decreases s.len() - i,
    {
        let w = char_utf8_width(s[i]);
        proof {
            assert(s@.take(i + 1) =~= s@.take(i as int) + seq![s@[i as int]]);
            lemma_utf8_len_append(s@.take(i as int), seq![s@[i as int]]);
            lemma_utf8_len_single(s@[i as int]);
        }
        if w >= k - total {
            proof {
                assert(s@ =~= s@.take(i + 1) + s@.skip(i + 1));
                lemma_utf8_len_append(s@.take(i + 1), s@.skip(i + 1));
            }
            return false;
        }
        total = total + w;
        i += 1;
    }
    proof { assert(s@.take(s@.len() as int) =~= s@); }
    true
}

/// The title after enrichment.
pub fn enriched_title(current: Option<String>, suggested: String) -> (out: Option<String>)
    ensures
        crate::obsidian::opt_string_view(&out) == enriched_title_of(crate::obsidian::opt_string_view(&current), suggested@),
{
    let weak = match &current {
        None => true,
        Some(t) => {
            let c = chars_of(t.as_str());
            utf8_shorter_than(c.as_slice(), 5)
        },
    };
    let sc = chars_of(suggested.as_str());
    if weak && sc.len() > 0 {
        Some(suggested)
    } else {
        current
    }
}

/// Merging suggested tags keeps the node's tags first and in order, and
/// adds exactly the suggested tags it lacks, each once: the merged tags are
/// the node's tags and the suggested ones, and a suggested tag appears in
/// the merge only once unless the node already held it more than once.
pub proof fn lemma_merged_tags(tags: Seq<Seq<char>>, suggested: Seq<Seq<char>>)
    ensures
        merged_suggestions(tags, suggested).len() >= tags.len(),
        merged_suggestions(tags, suggested).take(tags.len() as int) == tags,
        forall|x: Seq<char>| #[trigger] merged_suggestions(tags, suggested).contains(x) <==> (tags.contains(x) || suggested.contains(x)),
        forall|i: int, j: int| tags.len() <= i < j < merged_suggestions(tags, suggested).len()
            ==> merged_suggestions(tags, suggested)[i] != merged_suggestions(tags, suggested)[j],
        forall|i: int, j: int| 0 <= i < tags.len() <= j < merged_suggestions(tags, suggested).len()
            ==> merged_suggestions(tags, suggested)[i] != merged_suggestions(tags, suggested)[j],
    decreases suggested.len(),
{
    if suggested.len() > 0 {
        let init = suggested.drop_last();
        lemma_merged_tags(tags, init);
        let before = merged_suggestions(tags, init);
        let x = suggested.last();
        assert forall|y: Seq<char>| suggested.contains(y) <==> (init.contains(y) || y == x) by {
            if suggested.contains(y) {
                let k = choose|k: int| 0 <= k < suggested.len() && suggested[k] == y;
                if k < suggested.len() - 1 {
                    assert(init[k] == y);
                }
            }
            if init.contains(y) {
                let k = choose|k: int| 0 <= k < init.len() && init[k] == y;
                assert(suggested[k] == y);
            }
            if y == x {
                assert(suggested[suggested.len() - 1] == y);
            }
        }
        if !before.contains(x) {
            let after = before.push(x);
            assert(after.take(tags.len() as int) =~= before.take(tags.len() as int));
            assert forall|y: Seq<char>| #[trigger] after.contains(y) <==> (before.contains(y) || y == x) by {
                if after.contains(y) {
                    let k = choose|k: int| 0 <= k < after.len() && after[k] == y;
                    if k < before.len() {
                        assert(before[k] == y);
                    }
                }
                if before.contains(y) {
                    let k = choose|k: int| 0 <= k < before.len() && before[k] == y;
                    assert(after[k] == y);
                }
                if y == x {
                    assert(after[before.len() as int] == y);
                }
            }
            assert forall|i: int, j: int| 0 <= i < j < after.len() && j == before.len() implies after[i] != after[j] by {
                assert(after[i] == before[i]);
                if after[i] == after[j] {
                    assert(before.contains(x));
                }
            }
        }
    }
}

/// A suggested title replaces a missing title or one shorter than 5 bytes,
/// when a title was suggested at all; otherwise the node keeps its title.
pub proof fn lemma_enriched_title(current: Option<Seq<char>>, suggested: Seq<char>)
    ensures
        (current is None || utf8_len(current->0) < 5) && suggested.len() > 0 ==> enriched_title_of(current, suggested) == Some(suggested),
        (current is Some && utf8_len(current->0) >= 5) ==> enriched_title_of(current, suggested) == current,
        suggested.len() == 0 ==> enriched_title_of(current, suggested) == current,
{
}

} // verus!
