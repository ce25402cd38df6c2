//! Keeping a node's automatic links in step with its content: linking new
//! tasks and events into the daily note, and turning the references found
//! in a node's text into exactly one automatic reference per target.

use vstd::prelude::*;
use crate::node::{daily_link_candidate, daily_note, is_daily_link_candidate, is_daily_note, is_template_node, template_node, NodeTraits};
use crate::text::{chars_eq, chars_of};

verus! {

/// Whether a stored node is linked into its day's daily note: the feature is
/// on, and the node is a candidate that is neither a template nor a daily
/// note itself.
pub fn should_link_to_daily_note(enabled: bool, node: &NodeTraits) -> (b: bool)
    ensures
        b == (enabled && !template_node(*node) && !daily_note(*node) && daily_link_candidate(*node)),
{
    enabled && !is_template_node(node) && !is_daily_note(node) && is_daily_link_candidate(node)
}

/// The kind of a relationship, as far as daily-note linking tells kinds apart.
#[derive(PartialEq, Eq, Structural, Clone, Copy, Debug)]
pub enum LinkKind {
    Contains,
    References,
    PartOf,
    Other,
}

/// Whether the daily note already links to `node` (by containment,
/// reference or part-of), given its outgoing relationships.
pub fn daily_link_exists(relationships: &Vec<(u128, LinkKind)>, node: u128) -> (b: bool)
    ensures
        b == exists|i: int| 0 <= i < relationships@.len() && (#[trigger] relationships@[i]).0 == node && relationships@[i].1 != LinkKind::Other,
{
    let mut i: usize = 0;
    while i < relationships.len()
        invariant
            i <= relationships@.len(),
            forall|j: int| 0 <= j < i ==> !((#[trigger] relationships@[j]).0 == node && relationships@[j].1 != LinkKind::Other),
        decreases relationships.len() - i,
    {
        if relationships[i].0 == node && relationships[i].1 != LinkKind::Other {
            return true;
        }
        i += 1;
    }
    false
}

/// An outgoing relationship of the node, as the reference sync reads it.
pub struct ExistingLink {
    pub id: u128,
    pub target: u128,
    /// A `References` relationship marked as automatic.
    pub automatic: bool,
    /// Its recorded reference source (empty when it has none).
    pub source: String,
}

/// The changes that bring the automatic references in line with the text.
pub struct BacklinkPlan {
    /// Relationships to remove, by id.
    pub remove: Vec<u128>,
    /// Automatic references to add: target and source.
    pub add: Vec<(u128, String)>,
}

/// The specification view of an existing link.
pub open spec fn link_view(l: ExistingLink) -> (u128, u128, bool, Seq<char>) {
    (l.id, l.target, l.automatic, l.source@)
}

/// The view of desired targets.
pub open spec fn desired_view(d: Seq<(u128, String)>) -> Seq<(u128, Seq<char>)> {
    d.map_values(|e: (u128, String)| (e.0, e.1@))
}

/// Whether `t` is among the targets of `d`.
pub open spec fn has_target(d: Seq<(u128, Seq<char>)>, t: u128) -> bool {
    exists|i: int| 0 <= i < d.len() && (#[trigger] d[i]).0 == t
}

/// Each desired target once, with the source it first appears with.
pub open spec fn first_targets(d: Seq<(u128, Seq<char>)>) -> Seq<(u128, Seq<char>)>
    decreases d.len(),
{
    if d.len() == 0 {
        Seq::empty()
    } else {
        let rest = first_targets(d.drop_last());
        if has_target(rest, d.last().0) { rest } else { rest.push(d.last()) }
    }
}

/// The last automatic reference to `t` among `links`.
pub open spec fn last_automatic(links: Seq<(u128, u128, bool, Seq<char>)>, t: u128) -> Option<(u128, u128, bool, Seq<char>)>
    decreases links.len(),
{
    if links.len() == 0 {
        None
    } else if links.last().2 && links.last().1 == t {
        Some(links.last())
    } else {
        last_automatic(links.drop_last(), t)
    }
}

/// The references to add: every distinct desired target whose last
/// automatic reference is missing or has another source.
pub open spec fn planned_adds(targets: Seq<(u128, Seq<char>)>, links: Seq<(u128, u128, bool, Seq<char>)>) -> Seq<(u128, Seq<char>)>
    decreases targets.len(),
{
    if targets.len() == 0 {
        Seq::empty()
    } else {
        let rest = planned_adds(targets.drop_last(), links);
        let t = targets.last();
        match last_automatic(links, t.0) {
            Some(l) => if l.3 == t.1 { rest } else { rest.push(t) },
            None => rest.push(t),
        }
    }
}

/// The references replaced: for each distinct desired target, its last
/// automatic reference when that has another source.
pub open spec fn planned_replacements(targets: Seq<(u128, Seq<char>)>, links: Seq<(u128, u128, bool, Seq<char>)>) -> Seq<u128>
    decreases targets.len(),
{
    if targets.len() == 0 {
        Seq::empty()
    } else {
        let rest = planned_replacements(targets.drop_last(), links);
        let t = targets.last();
        match last_automatic(links, t.0) {
            Some(l) => if l.3 == t.1 { rest } else { rest.push(l.0) },
            None => rest,
        }
    }
}

/// The stale references: every automatic reference whose target is no
/// longer desired.
pub open spec fn planned_stale(links: Seq<(u128, u128, bool, Seq<char>)>, desired: Seq<(u128, Seq<char>)>) -> Seq<u128>
    decreases links.len(),
{
    if links.len() == 0 {
        Seq::empty()
    } else {
        let rest = planned_stale(links.drop_last(), desired);
        let l = links.last();
        if l.2 && !has_target(desired, l.1) { rest.push(l.0) } else { rest }
    }
}

fn contains_target(d: &Vec<(u128, String)>, t: u128) -> (b: bool)
    ensures
        b == has_target(desired_view(d@), t),
{
    let ghost dv = desired_view(d@);
    let mut i: usize = 0;
    while i < d.len()
        invariant
            i <= d@.len(),
            dv == desired_view(d@),
            forall|j: int| 0 <= j < i ==> (#[trigger] dv[j]).0 != t,
        decreases d.len() - i,
    {
        proof { assert(dv[i as int].0 == d@[i as int].0); }
        if d[i].0 == t {
            return true;
        }
        i += 1;
    }
    false
}

fn last_automatic_index(links: &Vec<ExistingLink>, t: u128) -> (r: Option<usize>)
    ensures
        match r {
            Some(k) => k < links@.len() && last_automatic(links@.map_values(|l: ExistingLink| link_view(l)), t) == Some(link_view(links@[k as int])),
            None => last_automatic(links@.map_values(|l: ExistingLink| link_view(l)), t) is None,
        },
{
    let ghost lv = links@.map_values(|l: ExistingLink| link_view(l));
    let mut i = links.len();
    proof { assert(lv.take(i as int) =~= lv); }
    while i > 0
        invariant
            i <= links@.len(),
            lv == links@.map_values(|l: ExistingLink| link_view(l)),
            last_automatic(lv, t) == last_automatic(lv.take(i as int), t),
        decreases i,
    {
        proof {
            assert(lv.take(i as int).drop_last() =~= lv.take(i - 1));
            assert(lv.take(i as int).last() == link_view(links@[i - 1]));
        }
        if links[i - 1].automatic && links[i - 1].target == t {
            return Some(i - 1);
        }
        i -= 1;
    }
    proof { assert(lv.take(0) =~= Seq::<(u128, u128, bool, Seq<char>)>::empty()); }
    None
}

/// Plans the sync of a node's automatic references: `desired` holds the
/// targets resolved from its text with their reference sources, `links` its
/// outgoing relationships. Each desired target keeps or gets one automatic
/// reference with its first source; references to targets no longer
/// desired go.
pub fn plan_backlink_sync(desired: &Vec<(u128, String)>, links: &Vec<ExistingLink>) -> (plan: BacklinkPlan)
    ensures
        desired_view(plan.add@) == planned_adds(first_targets(desired_view(desired@)), links@.map_values(|l: ExistingLink| link_view(l))),
        plan.remove@ == planned_replacements(first_targets(desired_view(desired@)), links@.map_values(|l: ExistingLink| link_view(l)))
            + planned_stale(links@.map_values(|l: ExistingLink| link_view(l)), desired_view(desired@)),
{
    let ghost dv = desired_view(desired@);
    let ghost lv = links@.map_values(|l: ExistingLink| link_view(l));
    // Each desired target once, with its first source.
    let mut firsts: Vec<(u128, String)> = Vec::new();
    let mut i: usize = 0;
    proof {
        assert(dv.take(0) =~= Seq::<(u128, Seq<char>)>::empty());
        assert(desired_view(firsts@) =~= Seq::<(u128, Seq<char>)>::empty());
    }
    while i < desired.len()
        invariant
            i <= desired@.len(),
            dv == desired_view(desired@),
            desired_view(firsts@) == first_targets(dv.take(i as int)),
        decreases desired.len() - i,
    {
        proof {
            let t = dv.take(i + 1);
            assert(t.drop_last() =~= dv.take(i as int));
            assert(t.last() == (desired@[i as int].0, desired@[i as int].1@));
        }
        if !contains_target(&firsts, desired[i].0) {
            let e = (desired[i].0, desired[i].1.clone());
            proof { assert(desired_view(firsts@.push(e)) =~= desired_view(firsts@).push((e.0, e.1@))); }
            firsts.push(e);
        }
        i += 1;
    }
    proof { assert(dv.take(desired@.len() as int) =~= dv); }
    let ghost fv = desired_view(firsts@);
    let mut add: Vec<(u128, String)> = Vec::new();
    let mut replaced: Vec<u128> = Vec::new();
    let mut k: usize = 0;
    proof {
        assert(fv.take(0) =~= Seq::<(u128, Seq<char>)>::empty());
        assert(desired_view(add@) =~= Seq::<(u128, Seq<char>)>::empty());
    }
    while k < firsts.len()
        invariant
            k <= firsts@.len(),
            fv == desired_view(firsts@),
            lv == links@.map_values(|l: ExistingLink| link_view(l)),
            desired_view(add@) == planned_adds(fv.take(k as int), lv),
            replaced@ == planned_replacements(fv.take(k as int), lv),
        decreases firsts.len() - k,
    {
        proof {
            let t = fv.take(k + 1);
            assert(t.drop_last() =~= fv.take(k as int));
            assert(t.last() == (firsts@[k as int].0, firsts@[k as int].1@));
        }
        let t = firsts[k].0;
        match last_automatic_index(links, t) {
            Some(j) => {
                let a = chars_of(links[j].source.as_str());
                let b = chars_of(firsts[k].1.as_str());
                if !chars_eq(a.as_slice(), b.as_slice()) {
                    replaced.push(links[j].id);
                    let e = (t, firsts[k].1.clone());
                    proof { assert(desired_view(add@.push(e)) =~= desired_view(add@).push((e.0, e.1@))); }
                    add.push(e);
                }
            },
            None => {
                let e = (t, firsts[k].1.clone());
                proof { assert(desired_view(add@.push(e)) =~= desired_view(add@).push((e.0, e.1@))); }
                add.push(e);
            },
        }
        k += 1;
    }
    proof { assert(fv.take(firsts@.len() as int) =~= fv); }
    let mut stale: Vec<u128> = Vec::new();
    let mut m: usize = 0;
    proof { assert(lv.take(0) =~= Seq::<(u128, u128, bool, Seq<char>)>::empty()); }
    while m < links.len()
        invariant
            m <= links@.len(),
            lv == links@.map_values(|l: ExistingLink| link_view(l)),
            dv == desired_view(desired@),
            stale@ == planned_stale(lv.take(m as int), dv),
        decreases links.len() - m,
    {
        proof {
            let t = lv.take(m + 1);
            assert(t.drop_last() =~= lv.take(m as int));
            assert(t.last() == link_view(links@[m as int]));
        }
        if links[m].automatic && !contains_target(desired, links[m].target) {
            stale.push(links[m].id);
        }
        m += 1;
    }
    proof { assert(lv.take(links@.len() as int) =~= lv); }
    let ghost r0 = replaced@;
    let mut remove = replaced;
    let mut q: usize = 0;
    while q < stale.len()
        invariant
            q <= stale@.len(),
            remove@ == r0 + stale@.take(q as int),
        decreases stale.len() - q,
    {
        proof { assert(r0 + stale@.take(q + 1) =~= (r0 + stale@.take(q as int)).push(stale@[q as int])); }
        remove.push(stale[q]);
        q += 1;
    }
    proof { assert(stale@.take(stale@.len() as int) =~= stale@); }
    BacklinkPlan { remove, add }
}

/// The automatic links removed as stale are exactly those whose target is
/// no longer among the desired links; links made by hand are never removed.
pub proof fn lemma_stale_links(links: Seq<(u128, u128, bool, Seq<char>)>, desired: Seq<(u128, Seq<char>)>)
    ensures
        forall|i: int| 0 <= i < links.len() && (#[trigger] links[i]).2 && !has_target(desired, links[i].1)
            ==> planned_stale(links, desired).contains(links[i].0),
        forall|x: u128| #[trigger] planned_stale(links, desired).contains(x) ==> exists|i: int| 0 <= i < links.len()
            && (#[trigger] links[i]).0 == x && links[i].2 && !has_target(desired, links[i].1),
    decreases links.len(),
{
    if links.len() > 0 {
        let init = links.drop_last();
        lemma_stale_links(init, desired);
        let r = planned_stale(init, desired);
        let all = planned_stale(links, desired);
        assert forall|i: int| 0 <= i < init.len() implies #[trigger] init[i] == links[i] by {}
        assert(links[links.len() - 1] == links.last());
        assert forall|x: u128| #[trigger] r.contains(x) implies all.contains(x) by {
            let k = choose|k: int| 0 <= k < r.len() && r[k] == x;
            if all != r {
                assert(all == r.push(links.last().0));
                assert(all[k] == x);
            }
        }
        assert forall|i: int| 0 <= i < links.len() && (#[trigger] links[i]).2 && !has_target(desired, links[i].1)
            implies all.contains(links[i].0) by {
            if i < links.len() - 1 {
                assert(init[i] == links[i]);
                assert(r.contains(init[i].0));
            } else {
                assert(all == r.push(links.last().0));
                assert(all[r.len() as int] == links[i].0);
            }
        }
        assert forall|x: u128| #[trigger] all.contains(x) implies exists|i: int| 0 <= i < links.len()
            && (#[trigger] links[i]).0 == x && links[i].2 && !has_target(desired, links[i].1) by {
            let k = choose|k: int| 0 <= k < all.len() && all[k] == x;
            if k < r.len() {
                assert(r[k] == x);
                assert(r.contains(x));
                let i = choose|i: int| 0 <= i < init.len() && (#[trigger] init[i]).0 == x && init[i].2 && !has_target(desired, init[i].1);
                assert(links[i] == init[i]);
            } else {
                assert(links[links.len() - 1].0 == x);
            }
        }
    }
}

} // verus!
