//! Reading runtime knobs from textual overrides (environment values).

use vstd::prelude::*;
use crate::text::{ascii_lower, ascii_lower_vec, chars_eq_str, chars_of, parse_u64, parse_unsigned};

verus! {

/// Whether an environment flag turns a feature on: `1`, `true` or `yes`, in
/// any ASCII case.
pub open spec fn flag_enabled(v: Seq<char>) -> bool {
    let l = ascii_lower(v);
    l == "1"@ || l == "true"@ || l == "yes"@
}

pub fn parse_flag(v: &str) -> (b: bool)
    ensures
        b == flag_enabled(v@),
{
    let cs = chars_of(v);
    let l = ascii_lower_vec(cs.as_slice());
    chars_eq_str(l.as_slice(), "1") || chars_eq_str(l.as_slice(), "true") || chars_eq_str(
        l.as_slice(),
        "yes",
    )
}

pub open spec fn clamp(v: nat, lo: nat, hi: nat) -> nat {
    if v < lo {
        lo
    } else if v > hi {
        hi
    } else {
        v
    }
}

/// The interval an override yields: the parsed value, at least 1; `current`
/// when the text does not parse as a `u64`.
pub open spec fn interval_override(current: nat, v: Option<Seq<char>>) -> nat {
    match v {
        Some(t) => match parse_unsigned(t, u64::MAX as nat) {
            Some(n) => if n < 1 { 1 } else { n },
            None => current,
        },
        None => current,
    }
}

/// A clamped override: the parsed value clamped to `[lo, hi]`; `current` when
/// the text does not parse as an unsigned integer no larger than `max`.
pub open spec fn clamped_override(current: nat, v: Option<Seq<char>>, max: nat, lo: nat, hi: nat) -> nat {
    match v {
        Some(t) => match parse_unsigned(t, max) {
            Some(n) => clamp(n, lo, hi),
            None => current,
        },
        None => current,
    }
}

pub open spec fn opt_str_view(o: Option<&str>) -> Option<Seq<char>> {
    match o {
        Some(s) => Some(s@),
        None => None,
    }
}

/// `u64` from an optional override text: the parsed value, or `None`.
pub fn parse_u64_opt(v: Option<&str>) -> (r: Option<u64>)
    ensures
        v is None ==> r is None,
        v matches Some(t) ==> (match parse_unsigned(t@, u64::MAX as nat) {
            Some(n) => r == Some(n as u64),
            None => r is None,
        }),
{
    match v {
        Some(t) => {
            let cs = chars_of(t);
            parse_u64(cs.as_slice())
        },
        None => None,
    }
}

/// `usize` from an optional override text: the parsed value, or `None`.
pub fn parse_usize_opt(v: Option<&str>) -> (r: Option<usize>)
    ensures
        v is None ==> r is None,
        v matches Some(t) ==> (match parse_unsigned(t@, usize::MAX as nat) {
            Some(n) => r == Some(n as usize),
            None => r is None,
        }),
{
    match parse_u64_opt(v) {
        Some(n) => {
            if n as u128 <= usize::MAX as u128 {
                Some(n as usize)
            } else {
                None
            }
        },
        None => None,
    }
}

/// A flag is on exactly when its text is `1`, `true` or `yes`, in any ASCII
/// case; anything else (`0`, `false`, `no`, blank, other text) is off.
pub proof fn lemma_flag_values(v: Seq<char>)
    ensures
        flag_enabled(v) <==> (ascii_lower(v) == seq!['1'] || ascii_lower(v) == seq!['t', 'r', 'u', 'e']
            || ascii_lower(v) == seq!['y', 'e', 's']),
{
    reveal_strlit("1");
    reveal_strlit("true");
    reveal_strlit("yes");
    assert("1"@ =~= seq!['1']);
    assert("true"@ =~= seq!['t', 'r', 'u', 'e']);
    assert("yes"@ =~= seq!['y', 'e', 's']);
}

/// An override that parses as a number below `max` replaces the current
/// value, clamped to `[lo, hi]`; one that does not parse (or is absent)
/// leaves the current value. An interval override is at least 1 and
/// otherwise the number given.
pub proof fn lemma_overrides(current: nat, v: Option<Seq<char>>, max: nat, lo: nat, hi: nat)
    ensures
        v is None ==> clamped_override(current, v, max, lo, hi) == current && interval_override(current, v) == current,
        (v matches Some(t) && parse_unsigned(t, max) is None) ==> clamped_override(current, v, max, lo, hi) == current,
        (v matches Some(t) && parse_unsigned(t, u64::MAX as nat) is None) ==> interval_override(current, v) == current,
        (v matches Some(t) && parse_unsigned(t, max) is Some && lo <= hi) ==> ({
            let n = parse_unsigned(v->0, max)->0;
            let r = clamped_override(current, v, max, lo, hi);
            &&& lo <= r <= hi
            &&& lo <= n <= hi ==> r == n
            &&& n < lo ==> r == lo
            &&& n > hi ==> r == hi
        }),
        (v matches Some(t) && parse_unsigned(t, u64::MAX as nat) is Some) ==> ({
            let n = parse_unsigned(v->0, u64::MAX as nat)->0;
            &&& interval_override(current, v) >= 1
            &&& n >= 1 ==> interval_override(current, v) == n
        }),
{
}

} // verus!
