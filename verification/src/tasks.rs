//! Task intelligence: which tasks are due, in what order they are listed,
//! the reminder pass over them, and the tags of a recurring task's
//! instances.

use vstd::prelude::*;
use vstd::relations::{sorted_by, total_ordering};
use vstd::seq_lib::{lemma_sorted_unique, to_multiset_build, to_multiset_insert};
use crate::node::{has_tag, has_tag_exec};
use crate::obsidian::strings_view;

verus! {

/// A task as the due list reads it: its id, its due time (seconds and
/// nanoseconds since the Unix epoch; `None` without a readable one), and
/// whether it is completed.
#[derive(Clone, Copy, Debug)]
pub struct DueCandidate {
    pub id: u128,
    pub due: Option<(i64, u32)>,
    pub completed: bool,
}

/// The order of the due list: by due time, then by id.
pub open spec fn due_key_le(a: (i64, u32, u128), b: (i64, u32, u128)) -> bool {
    a.0 < b.0 || (a.0 == b.0 && (a.1 < b.1 || (a.1 == b.1 && a.2 <= b.2)))
}

/// Whether instant `a` is at or before instant `b`.
pub open spec fn at_or_before(a: (i64, u32), b: (i64, u32)) -> bool {
    a.0 < b.0 || (a.0 == b.0 && a.1 <= b.1)
}

/// The sort keys of the tasks due by `before` (completed ones only when
/// `include_completed`), in scan order.
pub open spec fn due_keys(tasks: Seq<DueCandidate>, before: (i64, u32), include_completed: bool) -> Seq<(i64, u32, u128)>
    decreases tasks.len(),
{
    if tasks.len() == 0 {
        Seq::empty()
    } else {
        let rest = due_keys(tasks.drop_last(), before, include_completed);
        let t = tasks.last();
        match t.due {
            Some(d) => if at_or_before(d, before) && (include_completed || !t.completed) {
                rest.push((d.0, d.1, t.id))
            } else {
                rest
            },
            None => rest,
        }
    }
}

/// How many tasks a due list holds at most: `limit`, kept within 1 and
/// 1000.
pub open spec fn due_cap(limit: usize) -> int {
    if limit < 1 { 1 } else if limit > 1000 { 1000 } else { limit as int }
}

/// The due list: the ids of the tasks due by `before`, earliest first (ties
/// by id), at most `due_cap(limit)` of them.
pub open spec fn due_list(tasks: Seq<DueCandidate>, before: (i64, u32), limit: usize, include_completed: bool) -> Seq<u128> {
    let sorted = due_keys(tasks, before, include_completed).sort_by(|a: (i64, u32, u128), b: (i64, u32, u128)| due_key_le(a, b));
    let shown = if sorted.len() > due_cap(limit) { sorted.take(due_cap(limit)) } else { sorted };
    shown.map_values(|k: (i64, u32, u128)| k.2)
}

proof fn lemma_due_order_total()
    ensures
        total_ordering(|a: (i64, u32, u128), b: (i64, u32, u128)| due_key_le(a, b)),
{
    let le = |a: (i64, u32, u128), b: (i64, u32, u128)| due_key_le(a, b);
    assert forall|a: (i64, u32, u128), b: (i64, u32, u128)| #[trigger] le(a, b) && #[trigger] le(b, a) implies a == b by {
    }
}

/// Lists the tasks due by `before`: the ids of the due tasks, earliest first
/// with ties broken by id, at most `limit` (kept within 1 and 1000) of them.
pub fn select_due_tasks(tasks: &Vec<DueCandidate>, before: (i64, u32), limit: usize, include_completed: bool) -> (out: Vec<u128>)
    ensures
        out@ == due_list(tasks@, before, limit, include_completed),
{
    let ghost le = |a: (i64, u32, u128), b: (i64, u32, u128)| due_key_le(a, b);
    let mut acc: Vec<(i64, u32, u128)> = Vec::new();
    let mut i: usize = 0;
    proof {
        assert(tasks@.take(0) =~= Seq::<DueCandidate>::empty());
        assert(acc@ =~= due_keys(tasks@.take(0), before, include_completed));
        lemma_due_order_total();
    }
    while i < tasks.len()
        invariant
            i <= tasks@.len(),
            le == (|a: (i64, u32, u128), b: (i64, u32, u128)| due_key_le(a, b)),
            sorted_by(acc@, le),
            acc@.to_multiset() == due_keys(tasks@.take(i as int), before, include_completed).to_multiset(),
        decreases tasks.len() - i,
    {
        let t = tasks[i];
        proof {
            assert(tasks@.take(i + 1).drop_last() =~= tasks@.take(i as int));
            assert(tasks@.take(i + 1).last() == t);
        }
        let selected = match t.due {
            Some(d) => (d.0 < before.0 || (d.0 == before.0 && d.1 <= before.1)) && (include_completed || !t.completed),
            None => false,
        };
        if selected {
            let d = t.due.unwrap();
            let key = (d.0, d.1, t.id);
            let mut p: usize = 0;
            while p < acc.len() && (acc[p].0 < key.0 || (acc[p].0 == key.0 && (acc[p].1 < key.1 || (acc[p].1 == key.1 && acc[p].2 <= key.2))))
                invariant
                    p <= acc@.len(),
                    forall|q: int| 0 <= q < p ==> due_key_le(#[trigger] acc@[q], key),
                decreases acc.len() - p,
            {
                p += 1;
            }
            let ghost before_acc = acc@;
            acc.insert(p, key);
            proof {
                to_multiset_insert(before_acc, p as int, key);
                to_multiset_build(due_keys(tasks@.take(i as int), before, include_completed), key);
                assert(acc@ =~= before_acc.insert(p as int, key));
                if p < before_acc.len() {
                    assert(!due_key_le(before_acc[p as int], key));
                }
                assert forall|a: int, b: int| 0 <= a < b < acc@.len() implies le(#[trigger] acc@[a], #[trigger] acc@[b]) by {
                    if b < p {
                        assert(le(before_acc[a], before_acc[b]));
                    } else if b == p {
                        assert(due_key_le(before_acc[a], key));
                    } else if a == p {
                        assert(le(before_acc[p as int], before_acc[b - 1]) || p == b - 1);
                    } else if a < p {
                        assert(le(before_acc[a], before_acc[b - 1]));
                    } else {
                        assert(le(before_acc[a - 1], before_acc[b - 1]));
                    }
                }
            }
        }
        i += 1;
    }
    proof {
        assert(tasks@.take(tasks@.len() as int) =~= tasks@);
        let keys = due_keys(tasks@, before, include_completed);
        keys.lemma_sort_by_ensures(le);
        lemma_sorted_unique(acc@, keys.sort_by(le), le);
    }
    let cap: usize = if limit < 1 { 1 } else if limit > 1000 { 1000 } else { limit };
    let mut out: Vec<u128> = Vec::new();
    let mut j: usize = 0;
    while j < acc.len() && j < cap
        invariant
            j <= acc@.len(),
            j <= cap,
            out@ == acc@.take(j as int).map_values(|k: (i64, u32, u128)| k.2),
        decreases acc.len() - j,
    {
        proof {
            assert(acc@.take(j + 1).map_values(|k: (i64, u32, u128)| k.2) =~= acc@.take(j as int).map_values(|k: (i64, u32, u128)| k.2).push(acc@[j as int].2));
        }
        out.push(acc[j].2);
        j += 1;
    }
    proof {
        if acc@.len() <= cap {
            assert(acc@.take(j as int) =~= acc@);
        }
    }
    out
}

/// Whether task `t` is due by `before` with its completion allowed.
pub open spec fn is_due(t: DueCandidate, before: (i64, u32), include_completed: bool) -> bool {
    t.due matches Some(d) && at_or_before(d, before) && (include_completed || !t.completed)
}

proof fn lemma_due_keys_come_from_due_tasks(tasks: Seq<DueCandidate>, before: (i64, u32), include_completed: bool)
    ensures
        forall|k: (i64, u32, u128)| #[trigger] due_keys(tasks, before, include_completed).contains(k) ==>
            exists|i: int| 0 <= i < tasks.len() && (#[trigger] tasks[i]).id == k.2 && is_due(tasks[i], before, include_completed),
    decreases tasks.len(),
{
    if tasks.len() > 0 {
        let rest = tasks.drop_last();
        lemma_due_keys_come_from_due_tasks(rest, before, include_completed);
        assert forall|k: (i64, u32, u128)| #[trigger] due_keys(tasks, before, include_completed).contains(k) implies
            exists|i: int| 0 <= i < tasks.len() && (#[trigger] tasks[i]).id == k.2 && is_due(tasks[i], before, include_completed) by {
            let r = due_keys(rest, before, include_completed);
            let all = due_keys(tasks, before, include_completed);
            let q = choose|q: int| 0 <= q < all.len() && all[q] == k;
            if q < r.len() {
                assert(r[q] == k);
                assert(r.contains(k));
                let i = choose|i: int| 0 <= i < rest.len() && (#[trigger] rest[i]).id == k.2 && is_due(rest[i], before, include_completed);
                assert(tasks[i] == rest[i]);
            } else {
                assert(tasks[tasks.len() - 1] == tasks.last());
            }
        }
    }
}

/// The due list holds at most `due_cap(limit)` tasks, each of them due by
/// `before` (and not completed unless completed tasks are included).
pub proof fn lemma_due_list_only_due_tasks(tasks: Seq<DueCandidate>, before: (i64, u32), limit: usize, include_completed: bool)
    ensures
        due_list(tasks, before, limit, include_completed).len() <= due_cap(limit),
        forall|j: int| #![trigger due_list(tasks, before, limit, include_completed)[j]] 0 <= j < due_list(tasks, before, limit, include_completed).len() ==>
            exists|i: int| 0 <= i < tasks.len() && (#[trigger] tasks[i]).id == due_list(tasks, before, limit, include_completed)[j]
                && is_due(tasks[i], before, include_completed),
{
    let le = |a: (i64, u32, u128), b: (i64, u32, u128)| due_key_le(a, b);
    let keys = due_keys(tasks, before, include_completed);
    lemma_due_order_total();
    keys.lemma_sort_by_ensures(le);
    lemma_due_keys_come_from_due_tasks(tasks, before, include_completed);
    let sorted = keys.sort_by(le);
    let shown = if sorted.len() > due_cap(limit) { sorted.take(due_cap(limit)) } else { sorted };
    assert forall|j: int| #![trigger due_list(tasks, before, limit, include_completed)[j]] 0 <= j < due_list(tasks, before, limit, include_completed).len() implies
        exists|i: int| 0 <= i < tasks.len() && (#[trigger] tasks[i]).id == due_list(tasks, before, limit, include_completed)[j]
            && is_due(tasks[i], before, include_completed) by {
        let k = shown[j];
        assert(sorted[j] == k);
        assert(sorted.contains(k));
        assert(keys.contains(k));
    }
}

proof fn lemma_due_tasks_have_keys(tasks: Seq<DueCandidate>, before: (i64, u32), include_completed: bool)
    ensures
        due_keys(tasks, before, include_completed).len() <= tasks.len(),
        forall|i: int| 0 <= i < tasks.len() && #[trigger] is_due(tasks[i], before, include_completed) ==>
            due_keys(tasks, before, include_completed).contains(((tasks[i].due->0).0, (tasks[i].due->0).1, tasks[i].id)),
    decreases tasks.len(),
{
    if tasks.len() > 0 {
        let rest = tasks.drop_last();
        lemma_due_tasks_have_keys(rest, before, include_completed);
        let r = due_keys(rest, before, include_completed);
        let all = due_keys(tasks, before, include_completed);
        assert forall|i: int| 0 <= i < tasks.len() && #[trigger] is_due(tasks[i], before, include_completed) implies
            all.contains(((tasks[i].due->0).0, (tasks[i].due->0).1, tasks[i].id)) by {
            let k = ((tasks[i].due->0).0, (tasks[i].due->0).1, tasks[i].id);
            if i < tasks.len() - 1 {
                assert(rest[i] == tasks[i]);
                assert(is_due(rest[i], before, include_completed));
                assert(r.contains(k));
                let q = choose|q: int| 0 <= q < r.len() && r[q] == k;
                if all != r {
                    assert(all == r.push(((tasks.last().due->0).0, (tasks.last().due->0).1, tasks.last().id)));
                    assert(all[q] == k);
                }
            } else {
                assert(tasks[i] == tasks.last());
                assert(all == r.push(k));
                assert(all[r.len() as int] == k);
            }
        }
    }
}

/// Which tasks are due: those with a due time at or before `before`
/// (earlier second, or the same second and no later nanosecond), completed
/// ones only when they are included. The list holds at least one and at
/// most 1000 of them, `limit` where it lies between; when no more tasks than
/// that are given, every due task is listed.
pub proof fn lemma_due_selection(tasks: Seq<DueCandidate>, before: (i64, u32), limit: usize, include_completed: bool, t: DueCandidate)
    ensures
        is_due(t, before, include_completed) <==> (t.due is Some
            && ((t.due->0).0 < before.0 || ((t.due->0).0 == before.0 && (t.due->0).1 <= before.1))
            && (include_completed || !t.completed)),
        due_cap(limit) == if limit == 0 { 1 } else if limit > 1000 { 1000 } else { limit as int },
        tasks.len() <= due_cap(limit) ==> forall|i: int| 0 <= i < tasks.len() && #[trigger] is_due(tasks[i], before, include_completed)
            ==> due_list(tasks, before, limit, include_completed).contains(tasks[i].id),
{
    let le = |a: (i64, u32, u128), b: (i64, u32, u128)| due_key_le(a, b);
    let keys = due_keys(tasks, before, include_completed);
    lemma_due_order_total();
    keys.lemma_sort_by_ensures(le);
    lemma_due_tasks_have_keys(tasks, before, include_completed);
    let sorted = keys.sort_by(le);
    if tasks.len() <= due_cap(limit) {
        keys.to_multiset_ensures();
        sorted.to_multiset_ensures();
        assert(sorted.len() == keys.len());
        assert forall|i: int| 0 <= i < tasks.len() && #[trigger] is_due(tasks[i], before, include_completed)
            implies due_list(tasks, before, limit, include_completed).contains(tasks[i].id) by {
            let k = ((tasks[i].due->0).0, (tasks[i].due->0).1, tasks[i].id);
            assert(keys.contains(k));
            keys.to_multiset_ensures();
            sorted.to_multiset_ensures();
            assert(keys.to_multiset().count(k) > 0);
            assert(sorted.contains(k));
            let q = choose|q: int| 0 <= q < sorted.len() && sorted[q] == k;
            let ids = due_list(tasks, before, limit, include_completed);
            assert(ids[q] == k.2);
        }
    }
}

/// Counts of one reminder pass.
pub struct TaskReminderDispatchStats {
    pub scanned_tasks: usize,
    pub due_tasks: usize,
    pub reminders_marked_sent: usize,
    pub errors: usize,
}

/// What the reminder pass does with a due task.
#[derive(PartialEq, Eq, Structural, Clone, Copy, Debug)]
pub enum ReminderAction {
    /// Its sent-at time does not parse: count an error.
    Unreadable,
    /// A reminder was already sent.
    AlreadySent,
    /// Mark the reminder sent.
    MarkSent,
}

/// The reminder action for a task whose sent-at time is absent (`Ok(false)`),
/// present (`Ok(true)`), or unreadable (`Err`).
pub fn reminder_action(sent: Result<bool, ()>) -> (a: ReminderAction)
    ensures
        a == match sent {
            Err(_) => ReminderAction::Unreadable,
            Ok(true) => ReminderAction::AlreadySent,
            Ok(false) => ReminderAction::MarkSent,
        },
{
    match sent {
        Err(_) => ReminderAction::Unreadable,
        Ok(true) => ReminderAction::AlreadySent,
        Ok(false) => ReminderAction::MarkSent,
    }
}

impl TaskReminderDispatchStats {
    /// A pass over `due` due tasks, nothing counted yet.
    pub fn new(due: usize) -> (s: Self)
        ensures
            s.scanned_tasks == due && s.due_tasks == due,
            s.reminders_marked_sent == 0 && s.errors == 0,
    {
        TaskReminderDispatchStats { scanned_tasks: due, due_tasks: due, reminders_marked_sent: 0, errors: 0 }
    }

    /// Counts one task: an unreadable sent-at time or a failed update is an
    /// error, a stored reminder is counted sent (`stored` is whether the
    /// update succeeded).
    pub fn record(&mut self, action: ReminderAction, stored: bool)
        ensures
            final(self).scanned_tasks == old(self).scanned_tasks,
            final(self).due_tasks == old(self).due_tasks,
            final(self).errors == if action == ReminderAction::Unreadable || (action == ReminderAction::MarkSent && !stored) {
                crate::workspace_projection::bump(old(self).errors)
            } else {
                old(self).errors
            },
            final(self).reminders_marked_sent == if action == ReminderAction::MarkSent && stored {
                crate::workspace_projection::bump(old(self).reminders_marked_sent)
            } else {
                old(self).reminders_marked_sent
            },
    {
        match action {
            ReminderAction::Unreadable => self.errors = self.errors.saturating_add(1),
            ReminderAction::AlreadySent => {},
            ReminderAction::MarkSent => {
                if stored {
                    self.reminders_marked_sent = self.reminders_marked_sent.saturating_add(1);
                } else {
                    self.errors = self.errors.saturating_add(1);
                }
            },
        }
    }
}

/// A due task's reminder state after the pass: one whose reminder was
/// unsent and whose update was stored is now sent; every other task is as
/// it was.
pub open spec fn reminder_state_after(sent: Result<bool, ()>, stored: bool) -> Result<bool, ()> {
    if sent == Ok::<bool, ()>(false) && stored { Ok(true) } else { sent }
}

/// How many of the due tasks a pass marks sent: those whose reminder was
/// unsent and whose update was stored.
pub open spec fn marked_count(sent: Seq<Result<bool, ()>>, stored: Seq<bool>) -> nat
    decreases sent.len(),
{
    if sent.len() == 0 {
        0
    } else {
        marked_count(sent.drop_last(), stored.take(sent.len() - 1))
            + if sent.last() == Ok::<bool, ()>(false) && stored[sent.len() - 1] { 1nat } else { 0nat }
    }
}

/// How many of the due tasks a pass counts as errors: unreadable sent-at
/// times and updates that were not stored.
pub open spec fn error_count(sent: Seq<Result<bool, ()>>, stored: Seq<bool>) -> nat
    decreases sent.len(),
{
    if sent.len() == 0 {
        0
    } else {
        error_count(sent.drop_last(), stored.take(sent.len() - 1))
            + if sent.last() is Err || (sent.last() == Ok::<bool, ()>(false) && !stored[sent.len() - 1]) { 1nat } else { 0nat }
    }
}

/// One reminder pass over due tasks: `sent[i]` is task i's reminder state
/// (absent `Ok(false)`, present `Ok(true)`, unreadable `Err`) and
/// `stored[i]` whether marking it sent was stored. Returns the states after
/// the pass and its counts.
pub fn reminder_pass(sent: &Vec<Result<bool, ()>>, stored: &Vec<bool>) -> (r: (Vec<Result<bool, ()>>, TaskReminderDispatchStats))
    requires
        stored@.len() == sent@.len(),
    ensures
        r.0@.len() == sent@.len(),
        forall|i: int| 0 <= i < sent@.len() ==> r.0@[i] == reminder_state_after(#[trigger] sent@[i], stored@[i]),
        r.1.scanned_tasks == sent@.len() && r.1.due_tasks == sent@.len(),
        r.1.reminders_marked_sent == marked_count(sent@, stored@),
        r.1.errors == error_count(sent@, stored@),
{
    let n = sent.len();
    let mut stats = TaskReminderDispatchStats::new(n);
    let mut after: Vec<Result<bool, ()>> = Vec::new();
    let mut i: usize = 0;
    while i < n
        invariant
            n == sent@.len() == stored@.len(),
            i <= n,
            after@.len() == i,
            forall|k: int| 0 <= k < i ==> after@[k] == reminder_state_after(#[trigger] sent@[k], stored@[k]),
            stats.scanned_tasks == n && stats.due_tasks == n,
            stats.reminders_marked_sent == marked_count(sent@.take(i as int), stored@.take(i as int)),
            stats.errors == error_count(sent@.take(i as int), stored@.take(i as int)),
            stats.reminders_marked_sent + stats.errors <= i,
        decreases n - i,
    {
        proof {
            assert(sent@.take(i + 1).drop_last() =~= sent@.take(i as int));
            assert(stored@.take(i + 1).take(i as int) =~= stored@.take(i as int));
            assert(sent@.take(i + 1).last() == sent@[i as int]);
            assert(stored@.take(i + 1)[i as int] == stored@[i as int]);
        }
        let s = sent[i];
        let action = reminder_action(s);
        let st = stored[i];
        stats.record(action, st);
        let next: Result<bool, ()> = match action {
            ReminderAction::MarkSent => if st { Ok(true) } else { s },
            _ => s,
        };
        after.push(next);
        i += 1;
    }
    proof {
        assert(sent@.take(n as int) =~= sent@);
        assert(stored@.take(n as int) =~= stored@);
    }
    (after, stats)
}

proof fn lemma_marked_count_after(sent: Seq<Result<bool, ()>>, stored1: Seq<bool>, stored2: Seq<bool>)
    requires
        stored1.len() == sent.len(),
        stored2.len() == sent.len(),
        forall|i: int| 0 <= i < sent.len() ==> #[trigger] stored1[i],
    ensures
        marked_count(Seq::new(sent.len(), |i: int| reminder_state_after(sent[i], stored1[i])), stored2) == 0,
    decreases sent.len(),
{
    let after = Seq::new(sent.len(), |i: int| reminder_state_after(sent[i], stored1[i]));
    if sent.len() > 0 {
        let m = (sent.len() - 1) as int;
        let s0 = sent.drop_last();
        let a0 = Seq::new(s0.len(), |i: int| reminder_state_after(s0[i], stored1.take(m)[i]));
        assert(after.drop_last() =~= a0);
        assert forall|i: int| 0 <= i < s0.len() implies #[trigger] stored1.take(m)[i] by {
            assert(stored1[i]);
        }
        lemma_marked_count_after(s0, stored1.take(m), stored2.take(m));
        assert(stored1[m]);
    }
}

/// A reminder is marked once: after a `reminder_pass` over reminder states
/// `sent` whose updates were all stored (`stored1`), a second pass over the
/// states the first one left (its first result) counts no reminder marked
/// sent (its `reminders_marked_sent` is `marked_count`), whatever the second
/// pass's stores do (`stored2`).
pub proof fn lemma_second_reminder_pass_marks_nothing(sent: Seq<Result<bool, ()>>, stored1: Seq<bool>, stored2: Seq<bool>)
    requires
        stored1.len() == sent.len(),
        stored2.len() == sent.len(),
        forall|i: int| 0 <= i < sent.len() ==> #[trigger] stored1[i],
    ensures
        marked_count(Seq::new(sent.len(), |i: int| reminder_state_after(sent[i], stored1[i])), stored2) == 0,
{
    lemma_marked_count_after(sent, stored1, stored2);
}

/// Counts of one recurrence roll-forward.
pub struct TaskRecurrenceRollforwardStats {
    pub scanned_tasks: usize,
    pub recurring_templates: usize,
    pub generated_instances: usize,
    pub updated_templates: usize,
    pub errors: usize,
}

/// What a task's recurrence rule reads as: absent, present but disabled,
/// enabled, or unreadable.
#[derive(PartialEq, Eq, Structural, Clone, Copy, Debug)]
pub enum RuleReading {
    Missing,
    Disabled,
    Enabled,
    Unreadable,
}

/// What a time kept in a task's metadata reads as (Unix milliseconds).
#[derive(PartialEq, Eq, Structural, Clone, Copy, Debug)]
pub enum TimeReading {
    Absent,
    At(i64),
    Unreadable,
}

/// What the roll-forward reads of one scanned task.
#[derive(Clone, Copy, Debug)]
pub struct TemplateFacts {
    /// Whether the task is itself a generated instance.
    pub is_instance: bool,
    pub rule: RuleReading,
    /// The task's own due time.
    pub due_at: TimeReading,
    /// When instances were last generated up to.
    pub last_generated: TimeReading,
    pub created_at: i64,
    /// How many instances were generated so far, when recorded.
    pub generated_count: Option<u64>,
}

/// Where the generation of a template's next instances starts from.
#[derive(PartialEq, Eq, Structural, Clone, Copy, Debug)]
pub enum GenerationStart {
    /// The recorded last generation time.
    Recorded(i64),
    /// The occurrence before the task's own due time (the rule computes it).
    BeforeDue(i64),
    /// The task's creation time.
    Created(i64),
}

/// What the roll-forward does with one scanned task.
#[derive(PartialEq, Eq, Structural, Clone, Copy, Debug)]
pub enum RollforwardStep {
    /// Not a recurring template: an instance, or a task without an enabled
    /// rule.
    Skip,
    /// Its rule is unreadable: an error.
    RuleError,
    /// A recurring template whose due or last-generation time is unreadable:
    /// counted, and an error.
    TimeError,
    /// A recurring template: generate its due instances from `start`, with
    /// `generated` instances generated so far.
    Generate { start: GenerationStart, generated: u64 },
}

/// The step for a task with these facts.
pub open spec fn rollforward_step_of(t: TemplateFacts) -> RollforwardStep {
    if t.is_instance {
        RollforwardStep::Skip
    } else if t.rule == RuleReading::Unreadable {
        RollforwardStep::RuleError
    } else if t.rule != RuleReading::Enabled {
        RollforwardStep::Skip
    } else if t.due_at == TimeReading::Unreadable || t.last_generated == TimeReading::Unreadable {
        RollforwardStep::TimeError
    } else {
        RollforwardStep::Generate {
            start: match t.last_generated {
                TimeReading::At(v) => GenerationStart::Recorded(v),
                _ => match t.due_at {
                    TimeReading::At(d) => GenerationStart::BeforeDue(d),
                    _ => GenerationStart::Created(t.created_at),
                },
            },
            generated: match t.generated_count {
                Some(c) => c,
                None => 0,
            },
        }
    }
}

/// Decides what the roll-forward does with a scanned task.
pub fn plan_rollforward(t: &TemplateFacts) -> (s: RollforwardStep)
    ensures
        s == rollforward_step_of(*t),
{
    if t.is_instance {
        return RollforwardStep::Skip;
    }
    match t.rule {
        RuleReading::Unreadable => { return RollforwardStep::RuleError; },
        RuleReading::Enabled => {},
        _ => { return RollforwardStep::Skip; },
    }
    let due_bad = match t.due_at {
        TimeReading::Unreadable => true,
        _ => false,
    };
    let last_bad = match t.last_generated {
        TimeReading::Unreadable => true,
        _ => false,
    };
    if due_bad || last_bad {
        return RollforwardStep::TimeError;
    }
    let start = match t.last_generated {
        TimeReading::At(v) => GenerationStart::Recorded(v),
        _ => match t.due_at {
            TimeReading::At(d) => GenerationStart::BeforeDue(d),
            _ => GenerationStart::Created(t.created_at),
        },
    };
    let generated = match t.generated_count {
        Some(c) => c,
        None => 0,
    };
    RollforwardStep::Generate { start, generated }
}

/// How many of a template's instances were stored, and the latest due time
/// among them (`start` when none was): `stored[i]` is the due time of the
/// i-th instance and whether storing it succeeded.
pub open spec fn stored_instances(stored: Seq<(i64, bool)>, start: i64) -> (nat, i64)
    decreases stored.len(),
{
    if stored.len() == 0 {
        (0, start)
    } else {
        let (n, latest) = stored_instances(stored.drop_last(), start);
        if stored.last().1 { (n + 1, stored.last().0) } else { (n, latest) }
    }
}

/// What a template records after its instances were stored: the new last
/// generation time and generated count, when at least one was stored.
pub open spec fn template_update_of(stored: Seq<(i64, bool)>, start: i64, generated: u64) -> Option<(i64, u64)> {
    let (n, latest) = stored_instances(stored, start);
    if n == 0 {
        None
    } else {
        Some((latest, if generated + n > u64::MAX { u64::MAX } else { (generated + n) as u64 }))
    }
}

/// Counts the stored instances of a template and computes what the template
/// records: the last stored instance's due time and the count so far plus
/// the stored ones (saturating); nothing when none was stored.
pub fn template_update(stored: &Vec<(i64, bool)>, start: i64, generated: u64) -> (r: (usize, Option<(i64, u64)>))
    ensures
        r.0 == stored_instances(stored@, start).0,
        r.1 == template_update_of(stored@, start, generated),
{
    let mut n: usize = 0;
    let mut latest = start;
    let mut i: usize = 0;
    while i < stored.len()
        invariant
            i <= stored@.len(),
            n <= i,
            (n as nat, latest) == stored_instances(stored@.take(i as int), start),
        decreases stored.len() - i,
    {
        proof {
            assert(stored@.take(i + 1).drop_last() =~= stored@.take(i as int));
            assert(stored@.take(i + 1).last() == stored@[i as int]);
        }
        if stored[i].1 {
            n += 1;
            latest = stored[i].0;
        }
        i += 1;
    }
    proof { assert(stored@.take(stored@.len() as int) =~= stored@); }
    if n == 0 {
        (0, None)
    } else {
        let total = generated.saturating_add(n as u64);
        (n, Some((latest, total)))
    }
}

impl TaskRecurrenceRollforwardStats {
    /// Nothing counted yet.
    pub fn new() -> (s: Self)
        ensures
            s.scanned_tasks == 0 && s.recurring_templates == 0 && s.generated_instances == 0,
            s.updated_templates == 0 && s.errors == 0,
    {
        TaskRecurrenceRollforwardStats { scanned_tasks: 0, recurring_templates: 0, generated_instances: 0, updated_templates: 0, errors: 0 }
    }

    /// Counts one scanned task by its step: every task is scanned, every
    /// recurring template counted, and an unreadable rule or time is an
    /// error.
    pub fn record_step(&mut self, step: RollforwardStep)
        ensures
            final(self).scanned_tasks == crate::workspace_projection::bump(old(self).scanned_tasks),
            final(self).recurring_templates == if step is TimeError || step is Generate {
                crate::workspace_projection::bump(old(self).recurring_templates)
            } else {
                old(self).recurring_templates
            },
            final(self).errors == if step is RuleError || step is TimeError {
                crate::workspace_projection::bump(old(self).errors)
            } else {
                old(self).errors
            },
            final(self).generated_instances == old(self).generated_instances,
            final(self).updated_templates == old(self).updated_templates,
    {
        self.scanned_tasks = self.scanned_tasks.saturating_add(1);
        match step {
            RollforwardStep::Skip => {},
            RollforwardStep::RuleError => { self.errors = self.errors.saturating_add(1); },
            RollforwardStep::TimeError => {
                self.recurring_templates = self.recurring_templates.saturating_add(1);
                self.errors = self.errors.saturating_add(1);
            },
            RollforwardStep::Generate { .. } => {
                self.recurring_templates = self.recurring_templates.saturating_add(1);
            },
        }
    }

    /// Counts a template's instances: `created` stored, `failed` failures
    /// (instances not stored, and links to the template not made).
    pub fn record_instances(&mut self, created: usize, failed: usize)
        ensures
            final(self).generated_instances == if old(self).generated_instances + created > usize::MAX { usize::MAX } else { (old(self).generated_instances + created) as usize },
            final(self).errors == if old(self).errors + failed > usize::MAX { usize::MAX } else { (old(self).errors + failed) as usize },
            final(self).scanned_tasks == old(self).scanned_tasks,
            final(self).recurring_templates == old(self).recurring_templates,
            final(self).updated_templates == old(self).updated_templates,
    {
        self.generated_instances = self.generated_instances.saturating_add(created);
        self.errors = self.errors.saturating_add(failed);
    }

    /// Counts the template's own update: updated when stored, else an error.
    pub fn record_template_update(&mut self, stored: bool)
        ensures
            final(self).updated_templates == if stored { crate::workspace_projection::bump(old(self).updated_templates) } else { old(self).updated_templates },
            final(self).errors == if stored { old(self).errors } else { crate::workspace_projection::bump(old(self).errors) },
            final(self).scanned_tasks == old(self).scanned_tasks,
            final(self).recurring_templates == old(self).recurring_templates,
            final(self).generated_instances == old(self).generated_instances,
    {
        if stored {
            self.updated_templates = self.updated_templates.saturating_add(1);
        } else {
            self.errors = self.errors.saturating_add(1);
        }
    }
}

/// Whether a paged scan goes on after a page of `page_len` nodes: it stops
/// after an empty or short page.
pub fn scan_continues(page_len: usize, page_size: usize) -> (b: bool)
    ensures
        b == (page_len > 0 && !(page_size > 0 && page_len < page_size)),
{
    page_len > 0 && !(page_size > 0 && page_len < page_size)
}

/// The tags of a recurring task's instance: the template's tags, with
/// `recurring-instance` added unless some tag already equals it in any ASCII
/// case.
pub fn recurring_instance_tags(tags: &Vec<String>) -> (out: Vec<String>)
    ensures
        strings_view(out@) == if has_tag(tags@, "recurring-instance"@) {
            strings_view(tags@)
        } else {
            strings_view(tags@).push("recurring-instance"@)
        },
{
    let mut out = crate::access::clone_strings(tags);
    if !has_tag_exec(tags, "recurring-instance") {
        let t = "recurring-instance".to_string();
        proof { assert(strings_view(out@.push(t)) =~= strings_view(out@).push(t@)); }
        out.push(t);
    }
    out
}

/// What the roll-forward does with a scanned task: a generated instance,
/// and a task whose rule is missing or disabled, is skipped; an unreadable
/// rule is an error; a template with an unreadable due or last-generation
/// time is a time error; any other template generates from its recorded
/// last generation, else from before its due time, else from its creation,
/// counting on from the recorded count (0 when none).
pub proof fn lemma_rollforward_steps(t: TemplateFacts)
    ensures
        t.is_instance ==> rollforward_step_of(t) == RollforwardStep::Skip,
        !t.is_instance && (t.rule == RuleReading::Missing || t.rule == RuleReading::Disabled) ==> rollforward_step_of(t) == RollforwardStep::Skip,
        !t.is_instance && t.rule == RuleReading::Unreadable ==> rollforward_step_of(t) == RollforwardStep::RuleError,
        !t.is_instance && t.rule == RuleReading::Enabled && (t.due_at == TimeReading::Unreadable || t.last_generated == TimeReading::Unreadable)
            ==> rollforward_step_of(t) == RollforwardStep::TimeError,
        rollforward_step_of(t) matches RollforwardStep::Generate { start, generated } ==> {
            &&& !t.is_instance && t.rule == RuleReading::Enabled
            &&& t.due_at != TimeReading::Unreadable && t.last_generated != TimeReading::Unreadable
            &&& generated == (if t.generated_count is Some { t.generated_count->0 } else { 0 })
            &&& (t.last_generated matches TimeReading::At(v) ==> start == GenerationStart::Recorded(v))
            &&& (t.last_generated == TimeReading::Absent && t.due_at is At ==> start == GenerationStart::BeforeDue(t.due_at->At_0))
            &&& (t.last_generated == TimeReading::Absent && t.due_at == TimeReading::Absent ==> start == GenerationStart::Created(t.created_at))
        },
        !t.is_instance && t.rule == RuleReading::Enabled && t.due_at != TimeReading::Unreadable && t.last_generated != TimeReading::Unreadable
            ==> rollforward_step_of(t) is Generate,
{
}

/// How many generated instances were stored (`stored[i].1`), and the due
/// time of the last stored one (`start` when none was).
pub open spec fn stored_count(stored: Seq<(i64, bool)>) -> nat
    decreases stored.len(),
{
    if stored.len() == 0 {
        0
    } else {
        stored_count(stored.drop_last()) + if stored.last().1 { 1nat } else { 0nat }
    }
}

/// What a template records after a roll-forward: nothing when no generated
/// instance was stored; otherwise the due time of the last stored instance
/// as its last generation, and its count raised by the number stored
/// (saturating at the largest count).
pub proof fn lemma_template_update_rules(stored: Seq<(i64, bool)>, start: i64, generated: u64)
    ensures
        stored_instances(stored, start).0 == stored_count(stored),
        (forall|i: int| 0 <= i < stored.len() ==> !(#[trigger] stored[i]).1) ==> template_update_of(stored, start, generated) is None,
        template_update_of(stored, start, generated) matches Some(u) ==> {
            &&& exists|i: int| 0 <= i < stored.len() && (#[trigger] stored[i]).1 && u.0 == stored[i].0
                && forall|k: int| i < k < stored.len() ==> !(#[trigger] stored[k]).1
            &&& u.1 == if generated + stored_count(stored) > u64::MAX { u64::MAX as int } else { generated + stored_count(stored) }
        },
        (exists|i: int| 0 <= i < stored.len() && (#[trigger] stored[i]).1) ==> template_update_of(stored, start, generated) is Some,
    decreases stored.len(),
{
    if stored.len() > 0 {
        let init = stored.drop_last();
        lemma_template_update_rules(init, start, generated);
        assert forall|i: int| 0 <= i < init.len() implies #[trigger] init[i] == stored[i] by {}
        assert(stored[stored.len() - 1] == stored.last());
        if !stored.last().1 {
            if stored_count(init) > 0 {
                let u = template_update_of(init, start, generated)->0;
                let j = choose|i: int| 0 <= i < init.len() && (#[trigger] init[i]).1 && u.0 == init[i].0
                    && forall|k: int| i < k < init.len() ==> !(#[trigger] init[k]).1;
                assert(stored[j] == init[j]);
                assert forall|k: int| j < k < stored.len() implies !(#[trigger] stored[k]).1 by {
                    if k < stored.len() - 1 {
                        assert(init[k] == stored[k]);
                    }
                }
            }
            if exists|i: int| 0 <= i < stored.len() && (#[trigger] stored[i]).1 {
                let i = choose|i: int| 0 <= i < stored.len() && (#[trigger] stored[i]).1;
                assert(init[i] == stored[i]);
            }
            assert forall|i: int| 0 <= i < init.len() && (forall|m: int| 0 <= m < stored.len() ==> !(#[trigger] stored[m]).1)
                implies !(#[trigger] init[i]).1 by {
                assert(stored[i] == init[i]);
            }
        } else {
            assert(stored[stored.len() - 1].1);
        }
        if stored_count(stored) == 0 && stored.last().1 {
            assert(false);
        }
        if forall|i: int| 0 <= i < stored.len() ==> !(#[trigger] stored[i]).1 {
            assert forall|i: int| 0 <= i < init.len() implies !(#[trigger] init[i]).1 by {
                assert(stored[i] == init[i]);
            }
        }
    }
}

} // verus!
