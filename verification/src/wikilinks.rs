//! Wikilinks of Markdown notes: `[[target]]`, `[[target|display text]]` and
//! `[[target#heading]]`, lowercased, each target once, in order of first
//! appearance.

use vstd::prelude::*;
use crate::obsidian::strings_view;
use crate::text::{
    all_ascii, ascii_lower, chars_eq, chars_of, find_from, first_occurrence, find_from_vec,
    lemma_ascii_lower_idempotent, lemma_index_of_absent, lemma_index_of_after, lemma_split_once_ascii,
    lemma_subrange_ascii, lemma_trim_preserves_ascii, lemma_trim_sub,
    slice_vec, split_once, split_once_vec, string_from_chars, to_lowercase_string, trim, trim_vec,
    unicode_lowercase,
};

verus! {

/// The link target written inside `[[` and `]]`: the part before `|`,
/// trimmed, without a `#heading` anchor when something precedes the `#`.
pub open spec fn link_target(inner: Seq<char>) -> Seq<char> {
    let t = match split_once(inner, '|') {
        Some((a, _)) => trim(a),
        None => trim(inner),
    };
    match split_once(t, '#') {
        Some((b, _)) => if b.len() > 0 { b } else { t },
        None => t,
    }
}

/// The non-empty link targets of `s` from index `i` on, in order: each `[[`
/// opens a link that the next `]]` closes; an unclosed `[[` ends the scan.
pub open spec fn wikilink_scan(s: Seq<char>, i: int) -> Seq<Seq<char>>
    decreases s.len() - i,
{
    if i < 0 || i + 1 >= s.len() {
        Seq::empty()
    } else if s[i] == '[' && s[i + 1] == '[' {
        match find_from(s, "]]"@, i + 2) {
            None => Seq::empty(),
            Some(k) => {
                proof {
                    reveal_strlit("]]");
                    assert(first_occurrence(s, "]]"@, i + 2, k));
                }
                let t = link_target(s.subrange(i + 2, k));
                if t.len() > 0 {
                    seq![t] + wikilink_scan(s, k + 2)
                } else {
                    wikilink_scan(s, k + 2)
                }
            },
        }
    } else {
        wikilink_scan(s, i + 1)
    }
}

/// `s` with each value kept at its first occurrence only.
pub open spec fn dedup_first(s: Seq<Seq<char>>) -> Seq<Seq<char>>
    decreases s.len(),
{
    if s.len() == 0 {
        Seq::empty()
    } else {
        let d = dedup_first(s.drop_last());
        if d.contains(s.last()) {
            d
        } else {
            d.push(s.last())
        }
    }
}

/// The wikilinks of `content`: its link targets, lowercased, each once.
pub open spec fn wikilinks(content: Seq<char>) -> Seq<Seq<char>> {
    dedup_first(wikilink_scan(content, 0).map_values(|t: Seq<char>| unicode_lowercase(t)))
}

/// What `dedup_first` keeps: no value twice, exactly the values of `s`.
pub proof fn lemma_dedup_first(s: Seq<Seq<char>>)
    ensures
        dedup_first(s).no_duplicates(),
        forall|x: Seq<char>| dedup_first(s).contains(x) <==> s.contains(x),
    decreases s.len(),
{
    if s.len() > 0 {
        lemma_dedup_first(s.drop_last());
        let d = dedup_first(s.drop_last());
        assert forall|x: Seq<char>| s.contains(x) <==> (s.drop_last().contains(x) || x == s.last()) by {
            if s.contains(x) {
                let j = choose|j: int| 0 <= j < s.len() && s[j] == x;
                if j < s.len() - 1 {
                    assert(s.drop_last()[j] == x);
                }
            }
            if s.drop_last().contains(x) {
                let j = choose|j: int| 0 <= j < s.drop_last().len() && s.drop_last()[j] == x;
                assert(s[j] == x);
            }
            if x == s.last() {
                assert(s[s.len() - 1] == x);
            }
        }
        if !d.contains(s.last()) {
            let e = d.push(s.last());
            assert forall|x: Seq<char>| e.contains(x) <==> (d.contains(x) || x == s.last()) by {
                if e.contains(x) {
                    let j = choose|j: int| 0 <= j < e.len() && e[j] == x;
                    if j < d.len() {
                        assert(d[j] == x);
                    }
                }
                if d.contains(x) {
                    let j = choose|j: int| 0 <= j < d.len() && d[j] == x;
                    assert(e[j] == x);
                }
                if x == s.last() {
                    assert(e[d.len() as int] == x);
                }
            }
            assert forall|a: int, b: int| 0 <= a < e.len() && 0 <= b < e.len() && a != b implies e[a] != e[b] by {
                if a < d.len() && b < d.len() {
                } else if a < d.len() {
                    assert(d.contains(e[a]));
                } else {
                    assert(d.contains(e[b]));
                }
            }
        }
    }
}

/// The link target inside ASCII text is ASCII.
proof fn lemma_link_target_ascii(inner: Seq<char>)
    requires
        all_ascii(inner),
    ensures
        all_ascii(link_target(inner)),
{
    lemma_split_once_ascii(inner, '|');
    let t = match split_once(inner, '|') {
        Some((a, _)) => trim(a),
        None => trim(inner),
    };
    match split_once(inner, '|') {
        Some((a, _)) => lemma_trim_preserves_ascii(a),
        None => lemma_trim_preserves_ascii(inner),
    }
    lemma_split_once_ascii(t, '#');
}

/// Every link target found in ASCII text is ASCII.
pub proof fn lemma_scan_ascii(s: Seq<char>, i: int)
    requires
        all_ascii(s),
    ensures
        forall|k: int| 0 <= k < wikilink_scan(s, i).len() ==> all_ascii(#[trigger] wikilink_scan(s, i)[k]),
    decreases s.len() - i,
{
    if i < 0 || i + 1 >= s.len() {
    } else if s[i] == '[' && s[i + 1] == '[' {
        match find_from(s, "]]"@, i + 2) {
            None => {},
            Some(k) => {
                reveal_strlit("]]");
                assert(first_occurrence(s, "]]"@, i + 2, k));
                lemma_subrange_ascii(s, i + 2, k);
                lemma_link_target_ascii(s.subrange(i + 2, k));
                lemma_scan_ascii(s, k + 2);
                let t = link_target(s.subrange(i + 2, k));
                let rest = wikilink_scan(s, k + 2);
                if t.len() > 0 {
                    assert(wikilink_scan(s, i) == seq![t] + rest);
                    assert forall|j: int| 0 <= j < (seq![t] + rest).len() implies all_ascii(#[trigger] (seq![t] + rest)[j]) by {
                        if j > 0 {
                            assert((seq![t] + rest)[j] == rest[j - 1]);
                        }
                    }
                } else {
                    assert(wikilink_scan(s, i) == rest);
                }
            },
        }
    } else {
        lemma_scan_ascii(s, i + 1);
        assert(wikilink_scan(s, i) == wikilink_scan(s, i + 1));
    }
}

/// The link target of one `[[...]]` body.
fn link_target_vec(inner: &[char]) -> (out: Vec<char>)
    ensures
        out@ == link_target(inner@),
{
    let t = match split_once_vec(inner, '|') {
        Some((a, _)) => trim_vec(a.as_slice()),
        None => trim_vec(inner),
    };
    match split_once_vec(t.as_slice(), '#') {
        Some((b, _)) => if b.len() > 0 { b } else { t },
        None => t,
    }
}

/// The link targets of `content`, in order, before lowercasing and
/// deduplication.
pub fn wikilink_targets(content: &str) -> (out: Vec<String>)
    ensures
        strings_view(out@) == wikilink_scan(content@, 0),
{
    let cs = chars_of(content);
    let close = chars_of("]]");
    let n = cs.len();
    let mut out: Vec<String> = Vec::new();
    proof {
        reveal_strlit("]]");
        assert(strings_view(out@) =~= Seq::<Seq<char>>::empty());
    }
    let mut i: usize = 0;
    while i < n && n - i > 1
        invariant
            i <= n,
            n == cs@.len(),
            cs@ == content@,
            close@ == "]]"@,
            wikilink_scan(cs@, 0) == strings_view(out@) + wikilink_scan(cs@, i as int),
        decreases n - i,
    {
        if cs[i] == '[' && cs[i + 1] == '[' {
            let found = find_from_vec(cs.as_slice(), close.as_slice(), i + 2);
            if found.is_none() {
                proof {
                    assert(strings_view(out@) + Seq::<Seq<char>>::empty() =~= strings_view(out@));
                }
                return out;
            }
            let k = found.unwrap();
            proof {
                reveal_strlit("]]");
            }
            let inner = slice_vec(cs.as_slice(), i + 2, k);
            let t = link_target_vec(inner.as_slice());
            if t.len() > 0 {
                let s = string_from_chars(t.as_slice());
                proof {
                    assert(strings_view(out@.push(s)) =~= strings_view(out@).push(s@));
                    assert(strings_view(out@) + (seq![t@] + wikilink_scan(cs@, k + 2)) =~= strings_view(out@.push(s)) + wikilink_scan(cs@, k + 2));
                }
                out.push(s);
            }
            i = k + 2;
        } else {
            i += 1;
        }
    }
    proof {
        assert(strings_view(out@) + Seq::<Seq<char>>::empty() =~= strings_view(out@));
    }
    out
}

/// `items` with each value kept at its first occurrence only.
pub fn dedup_keep_first(items: &Vec<String>) -> (out: Vec<String>)
    ensures
        strings_view(out@) == dedup_first(strings_view(items@)),
{
    let ghost sv = strings_view(items@);
    let mut out: Vec<String> = Vec::new();
    let mut seen: Vec<Vec<char>> = Vec::new();
    let mut i: usize = 0;
    proof {
        assert(sv.take(0) =~= Seq::<Seq<char>>::empty());
        assert(strings_view(out@) =~= Seq::<Seq<char>>::empty());
    }
    while i < items.len()
        invariant
            i <= items@.len(),
            sv == strings_view(items@),
            strings_view(out@) == dedup_first(sv.take(i as int)),
            seen@.len() == out@.len(),
            forall|j: int| 0 <= j < seen@.len() ==> #[trigger] seen@[j]@ == out@[j]@,
        decreases items.len() - i,
    {
        let c = chars_of(items[i].as_str());
        let mut found = false;
        let mut j: usize = 0;
        while j < seen.len()
            invariant
                j <= seen@.len(),
                seen@.len() == out@.len(),
                forall|q: int| 0 <= q < seen@.len() ==> #[trigger] seen@[q]@ == out@[q]@,
                found == exists|q: int| 0 <= q < j && #[trigger] out@[q]@ == c@,
            decreases seen.len() - j,
        {
            if chars_eq(seen[j].as_slice(), c.as_slice()) {
                found = true;
            }
            j += 1;
        }
        proof {
            let d = strings_view(out@);
            assert(sv.take(i + 1).drop_last() =~= sv.take(i as int));
            assert(sv.take(i + 1).last() == items@[i as int]@);
            if found {
                let q = choose|q: int| 0 <= q < seen@.len() && #[trigger] out@[q]@ == c@;
                assert(d[q] == c@);
                assert(d.contains(c@));
            } else {
                assert forall|q: int| 0 <= q < d.len() implies d[q] != c@ by {
                    assert(out@[q]@ == d[q]);
                }
                assert(!d.contains(c@));
            }
        }
        if !found {
            let s = string_from_chars(c.as_slice());
            proof {
                assert(strings_view(out@.push(s)) =~= strings_view(out@).push(s@));
            }
            out.push(s);
            seen.push(c);
            proof {
                assert forall|q: int| 0 <= q < seen@.len() implies #[trigger] seen@[q]@ == out@[q]@ by {
                    if q < seen@.len() - 1 {
                    }
                }
            }
        }
        i += 1;
    }
    proof { assert(sv.take(items@.len() as int) =~= sv); }
    out
}

/// Extracts the wikilinks of Markdown `content`: the targets of `[[target]]`
/// and `[[target|display text]]`, without `#heading` anchors, lowercased,
/// each target once in order of first appearance.
pub fn extract_wikilinks(content: &str) -> (out: Vec<String>)
    ensures
        strings_view(out@) == wikilinks(content@),
        strings_view(out@).no_duplicates(),
        all_ascii(content@) ==> forall|k: int| 0 <= k < out@.len() ==>
            ascii_lower(#[trigger] strings_view(out@)[k]) == strings_view(out@)[k],
{
    let targets = wikilink_targets(content);
    let mut lowered: Vec<String> = Vec::new();
    let mut i: usize = 0;
    let ghost tv = strings_view(targets@);
    proof {
        assert(strings_view(lowered@) =~= tv.take(0).map_values(|t: Seq<char>| unicode_lowercase(t)));
        if all_ascii(content@) {
            lemma_scan_ascii(content@, 0);
        }
    }
    while i < targets.len()
        invariant
            i <= targets@.len(),
            tv == strings_view(targets@),
            tv == wikilink_scan(content@, 0),
            strings_view(lowered@) == tv.take(i as int).map_values(|t: Seq<char>| unicode_lowercase(t)),
            all_ascii(content@) ==> forall|k: int| 0 <= k < tv.len() ==> all_ascii(#[trigger] tv[k]),
            all_ascii(content@) ==> forall|k: int| 0 <= k < lowered@.len() ==>
                ascii_lower(#[trigger] strings_view(lowered@)[k]) == strings_view(lowered@)[k],
        decreases targets.len() - i,
    {
        let l = to_lowercase_string(targets[i].as_str());
        proof {
            if all_ascii(content@) {
                assert(all_ascii(tv[i as int]));
                lemma_ascii_lower_idempotent(tv[i as int]);
                assert forall|k: int| 0 <= k < lowered@.len() + 1 implies
                    ascii_lower(#[trigger] strings_view(lowered@.push(l))[k]) == strings_view(lowered@.push(l))[k] by {
                    if k < lowered@.len() {
                        assert(strings_view(lowered@.push(l))[k] == strings_view(lowered@)[k]);
                    } else {
                        assert(strings_view(lowered@.push(l))[k] == l@);
                    }
                }
            }
            assert(strings_view(lowered@.push(l)) =~= strings_view(lowered@).push(l@));
            assert(tv.take(i + 1).map_values(|t: Seq<char>| unicode_lowercase(t)) =~= tv.take(i as int).map_values(|t: Seq<char>| unicode_lowercase(t)).push(unicode_lowercase(tv[i as int])));
        }
        lowered.push(l);
        i += 1;
    }
    proof { assert(tv.take(targets@.len() as int) =~= tv); }
    let out = dedup_keep_first(&lowered);
    proof {
        lemma_dedup_first(strings_view(lowered@));
        if all_ascii(content@) {
            let lv = strings_view(lowered@);
            assert forall|k: int| 0 <= k < out@.len() implies
                ascii_lower(#[trigger] strings_view(out@)[k]) == strings_view(out@)[k] by {
                let x = strings_view(out@)[k];
                assert(dedup_first(lv)[k] == x);
                assert(dedup_first(lv).contains(x));
                assert(lv.contains(x));
                let j = choose|j: int| 0 <= j < lv.len() && lv[j] == x;
                assert(ascii_lower(strings_view(lowered@)[j]) == strings_view(lowered@)[j]);
            }
        }
    }
    out
}

/// What a `[[...]]` body links to: without `|` or `#` in it, the body
/// without surrounding whitespace; the display text after the first `|`
/// never matters, so the body up to it links to the same target.
pub proof fn lemma_link_target_parts(inner: Seq<char>, a: Seq<char>, b: Seq<char>)
    ensures
        (forall|i: int| 0 <= i < inner.len() ==> #[trigger] inner[i] != '|' && inner[i] != '#') ==> link_target(inner) == trim(inner),
        (forall|i: int| 0 <= i < a.len() ==> #[trigger] a[i] != '|') ==> link_target(a + seq!['|'] + b) == link_target(a),
{
    if forall|i: int| 0 <= i < inner.len() ==> #[trigger] inner[i] != '|' && inner[i] != '#' {
        lemma_index_of_absent(inner, '|');
        let off = lemma_trim_sub(inner);
        let t = trim(inner);
        assert forall|i: int| 0 <= i < t.len() implies #[trigger] t[i] != '#' by {
            assert(t[i] == inner[off + i]);
        }
        lemma_index_of_absent(t, '#');
    }
    if forall|i: int| 0 <= i < a.len() ==> #[trigger] a[i] != '|' {
        lemma_index_of_after(a, '|', b);
        let s = a + seq!['|'] + b;
        assert(s.take(a.len() as int) =~= a);
        lemma_index_of_absent(a, '|');
    }
}

} // verus!
