//! Auto-approval rules for proposals: simple `*` patterns on the sender's
//! name, allowed action types and a confidence floor.

use vstd::prelude::*;
use crate::obsidian::strings_view;
use crate::text::{chars_eq, chars_eq_str, chars_of, ends_with, ends_with_vec, starts_with, starts_with_vec};

verus! {

/// Whether `value` matches `pattern`: `*` matches anything; `*x` matches
/// what ends with `x`; `x*` what starts with `x`; any other pattern only
/// itself.
pub open spec fn glob_matches(pattern: Seq<char>, value: Seq<char>) -> bool {
    if pattern == seq!['*'] {
        true
    } else if pattern.len() > 0 && pattern[0] == '*' {
        ends_with(value, pattern.drop_first())
    } else if pattern.len() > 0 && pattern.last() == '*' {
        starts_with(value, pattern.drop_last())
    } else {
        pattern == value
    }
}

/// Whether `value` matches the simple glob `pattern`.
pub fn glob_match_simple(pattern: &str, value: &str) -> (b: bool)
    ensures
        b == glob_matches(pattern@, value@),
{
    let p = chars_of(pattern);
    let v = chars_of(value);
    let n = p.len();
    if n == 1 && p[0] == '*' {
        proof { assert(p@ =~= seq!['*']); }
        return true;
    }
    proof {
        if p@ == seq!['*'] {
            assert(p@.len() == 1);
        }
    }
    if n > 0 && p[0] == '*' {
        let rest = crate::text::slice_vec(p.as_slice(), 1, n);
        proof { assert(rest@ =~= p@.drop_first()); }
        return ends_with_vec(v.as_slice(), rest.as_slice());
    }
    if n > 0 && p[n - 1] == '*' {
        let head = crate::text::slice_vec(p.as_slice(), 0, n - 1);
        proof { assert(head@ =~= p@.drop_last()); }
        return starts_with_vec(v.as_slice(), head.as_slice());
    }
    chars_eq(p.as_slice(), v.as_slice())
}

/// An auto-approval rule, with whether the proposal's confidence reaches the
/// rule's floor.
pub struct AutoApproveRule {
    pub enabled: bool,
    pub sender_pattern: Option<String>,
    /// Allowed action types; empty allows any.
    pub action_types: Vec<String>,
    pub confidence_ok: bool,
}

/// Whether a rule approves a proposal from `sender` for `action`.
pub open spec fn rule_approves(r: AutoApproveRule, sender: Seq<char>, action: Seq<char>) -> bool {
    &&& r.enabled
    &&& match r.sender_pattern {
        Some(p) => glob_matches(p@, sender),
        None => true,
    }
    &&& (r.action_types@.len() == 0 || strings_view(r.action_types@).contains(action))
    &&& r.confidence_ok
}

/// Whether some rule approves a proposal from `sender` for `action`.
pub fn auto_approved(rules: &Vec<AutoApproveRule>, sender: &str, action: &str) -> (b: bool)
    ensures
        b == exists|i: int| 0 <= i < rules@.len() && rule_approves(#[trigger] rules@[i], sender@, action@),
{
    let a = chars_of(action);
    let mut i: usize = 0;
    while i < rules.len()
        invariant
            i <= rules@.len(),
            a@ == action@,
            forall|j: int| 0 <= j < i ==> !rule_approves(#[trigger] rules@[j], sender@, action@),
        decreases rules.len() - i,
    {
        let r = &rules[i];
        let mut ok = r.enabled && r.confidence_ok;
        if ok {
            match &r.sender_pattern {
                Some(p) => {
                    if !glob_match_simple(p.as_str(), sender) {
                        ok = false;
                    }
                },
                None => {},
            }
        }
        if ok && r.action_types.len() > 0 {
            let mut found = false;
            let mut k: usize = 0;
            while k < r.action_types.len()
                invariant
                    k <= r.action_types@.len(),
                    a@ == action@,
                    found == exists|q: int| 0 <= q < k && strings_view(r.action_types@)[q] == action@,
                decreases r.action_types.len() - k,
            {
                proof { assert(strings_view(r.action_types@)[k as int] == r.action_types@[k as int]@); }
                if chars_eq_str(a.as_slice(), r.action_types[k].as_str()) {
                    found = true;
                }
                k += 1;
            }
            if !found {
                ok = false;
            }
        }
        if ok {
            return true;
        }
        i += 1;
    }
    false
}

/// How a sender pattern matches: `*` matches every sender; `*x` matches the
/// senders that end in `x`; `x*` (with no leading `*`) those that begin
/// with `x`; a pattern without a star only the sender written exactly so.
pub proof fn lemma_glob_forms(pattern: Seq<char>, value: Seq<char>)
    ensures
        glob_matches(seq!['*'], value),
        pattern.len() > 1 && pattern[0] == '*' ==> (glob_matches(pattern, value) <==>
            (pattern.len() - 1 <= value.len() && value.subrange(value.len() - (pattern.len() - 1), value.len() as int)
                == pattern.subrange(1, pattern.len() as int))),
        pattern.len() > 0 && pattern[0] != '*' && pattern[pattern.len() - 1] == '*' ==> (glob_matches(pattern, value) <==>
            (pattern.len() - 1 <= value.len() && value.subrange(0, pattern.len() - 1) == pattern.subrange(0, pattern.len() - 1))),
        (forall|i: int| 0 <= i < pattern.len() ==> #[trigger] pattern[i] != '*') ==> (glob_matches(pattern, value) <==> pattern == value),
{
    if pattern.len() > 1 && pattern[0] == '*' {
        assert(pattern != seq!['*']);
        assert(pattern.drop_first() =~= pattern.subrange(1, pattern.len() as int));
        if pattern.len() - 1 <= value.len() {
            assert(value.skip(value.len() - (pattern.len() - 1)) =~= value.subrange(value.len() - (pattern.len() - 1), value.len() as int));
        }
    }
    if pattern.len() > 0 && pattern[0] != '*' && pattern[pattern.len() - 1] == '*' {
        assert(pattern != seq!['*']);
        assert(pattern.drop_last() =~= pattern.subrange(0, pattern.len() - 1));
        if pattern.len() - 1 <= value.len() {
            assert(value.take(pattern.len() - 1) =~= value.subrange(0, pattern.len() - 1));
        }
    }
    if forall|i: int| 0 <= i < pattern.len() ==> #[trigger] pattern[i] != '*' {
        if pattern.len() > 0 {
            assert(pattern[0] != '*');
            assert(pattern[pattern.len() - 1] != '*');
        }
        if pattern == seq!['*'] {
            assert(pattern[0] == '*');
        }
    }
}

/// A rule approves a proposal only when it is enabled, its sender pattern
/// (if any) matches the sender, the action is among its action types (any
/// action when it lists none) and the confidence is high enough.
pub proof fn lemma_rule_approval(r: AutoApproveRule, sender: Seq<char>, action: Seq<char>)
    ensures
        !r.enabled ==> !rule_approves(r, sender, action),
        !r.confidence_ok ==> !rule_approves(r, sender, action),
        (r.sender_pattern matches Some(p) && !glob_matches(p@, sender)) ==> !rule_approves(r, sender, action),
        (r.action_types@.len() > 0 && forall|i: int| 0 <= i < r.action_types@.len() ==> (#[trigger] r.action_types@[i])@ != action)
            ==> !rule_approves(r, sender, action),
        (r.enabled && r.confidence_ok && r.sender_pattern is None && r.action_types@.len() == 0) ==> rule_approves(r, sender, action),
        (r.enabled && r.confidence_ok && r.sender_pattern is None && exists|i: int| 0 <= i < r.action_types@.len() && (#[trigger] r.action_types@[i])@ == action)
            ==> rule_approves(r, sender, action),
{
    if r.action_types@.len() > 0 && forall|i: int| 0 <= i < r.action_types@.len() ==> (#[trigger] r.action_types@[i])@ != action {
        if strings_view(r.action_types@).contains(action) {
            let j = choose|j: int| 0 <= j < strings_view(r.action_types@).len() && strings_view(r.action_types@)[j] == action;
            assert(r.action_types@[j]@ == action);
        }
    }
    if exists|i: int| 0 <= i < r.action_types@.len() && (#[trigger] r.action_types@[i])@ == action {
        let j = choose|j: int| 0 <= j < r.action_types@.len() && (#[trigger] r.action_types@[j])@ == action;
        assert(strings_view(r.action_types@)[j] == action);
    }
}

} // verus!
