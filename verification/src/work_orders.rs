//! Governed agent work: why a work order is refused admission, whether a run
//! may proceed, how a run attempt starts, and the checks and gate outcomes
//! of the internal engine executor.

use vstd::prelude::*;
use crate::error::{unit_result, EngineError, ErrorView};
use crate::obsidian::strings_view;
use crate::text::{chars_eq_str, chars_of, concat_str, decimal_string, decimal_text};

verus! {

/// `parts` joined with `sep`.
pub open spec fn join_with(parts: Seq<Seq<char>>, sep: Seq<char>) -> Seq<char>
    decreases parts.len(),
{
    if parts.len() == 0 {
        Seq::empty()
    } else if parts.len() == 1 {
        parts[0]
    } else {
        join_with(parts.drop_last(), sep) + sep + parts.last()
    }
}

/// `parts` joined with `sep`.
pub fn join_strings(parts: &Vec<String>, sep: &str) -> (out: String)
    ensures
        out@ == join_with(strings_view(parts@), sep@),
{
    let ghost pv = strings_view(parts@);
    let mut out = String::new();
    let mut i: usize = 0;
    proof { assert(pv.take(0) =~= Seq::<Seq<char>>::empty()); }
    while i < parts.len()
        invariant
            i <= parts@.len(),
            pv == strings_view(parts@),
            out@ == join_with(pv.take(i as int), sep@),
        decreases parts.len() - i,
    {
        proof {
            let t = pv.take(i + 1);
            assert(t.drop_last() =~= pv.take(i as int));
            assert(t.last() == parts@[i as int]@);
        }
        if i == 0 {
            out = parts[i].clone();
        } else {
            let a = concat_str(out.as_str(), sep);
            out = concat_str(a.as_str(), parts[i].as_str());
        }
        i += 1;
    }
    proof { assert(pv.take(parts@.len() as int) =~= pv); }
    out
}

/// Why a work order was refused admission.
pub enum AdmissionRefusal {
    /// A contract declared write targets outside its Tool Grant (gate G0).
    WriteScopeOutsideGrant { node_purpose: String, targets: Vec<String> },
    /// A contract declared read targets outside its Context Grant.
    ReadScopeOutsideGrant { node_purpose: String, targets: Vec<String> },
    /// The dependency graph is cyclic across non-conflict edges.
    DependencyCycle { contracts: usize },
    /// The proposal is malformed.
    Invalid { reason: String },
}

/// The specification view of a refusal.
pub enum RefusalView {
    WriteScopeOutsideGrant { node_purpose: Seq<char>, targets: Seq<Seq<char>> },
    ReadScopeOutsideGrant { node_purpose: Seq<char>, targets: Seq<Seq<char>> },
    DependencyCycle { contracts: usize },
    Invalid { reason: Seq<char> },
}

impl View for AdmissionRefusal {
    type V = RefusalView;

    open spec fn view(&self) -> RefusalView {
        match self {
            AdmissionRefusal::WriteScopeOutsideGrant { node_purpose, targets } => RefusalView::WriteScopeOutsideGrant {
                node_purpose: node_purpose@,
                targets: strings_view(targets@),
            },
            AdmissionRefusal::ReadScopeOutsideGrant { node_purpose, targets } => RefusalView::ReadScopeOutsideGrant {
                node_purpose: node_purpose@,
                targets: strings_view(targets@),
            },
            AdmissionRefusal::DependencyCycle { contracts } => RefusalView::DependencyCycle { contracts: *contracts },
            AdmissionRefusal::Invalid { reason } => RefusalView::Invalid { reason: reason@ },
        }
    }
}

/// The message of a refusal.
pub open spec fn refusal_message(r: RefusalView) -> Seq<char> {
    match r {
        RefusalView::WriteScopeOutsideGrant { node_purpose, targets } =>
            "contract '"@ + node_purpose + "' declares write targets outside its Tool Grant: "@ + join_with(targets, ", "@),
        RefusalView::ReadScopeOutsideGrant { node_purpose, targets } =>
            "contract '"@ + node_purpose + "' declares read targets outside its Context Grant: "@ + join_with(targets, ", "@),
        RefusalView::DependencyCycle { contracts } =>
            "dependency graph is cyclic across "@ + decimal_text(contracts as nat) + " contracts"@,
        RefusalView::Invalid { reason } => "invalid work order: "@ + reason,
    }
}

impl AdmissionRefusal {
    /// The message that explains the refusal.
    pub fn message(&self) -> (out: String)
        ensures
            out@ == refusal_message(self@),
    {
        match self {
            AdmissionRefusal::WriteScopeOutsideGrant { node_purpose, targets } => {
                let a = concat_str("contract '", node_purpose.as_str());
                let a = concat_str(a.as_str(), "' declares write targets outside its Tool Grant: ");
                let j = join_strings(targets, ", ");
                concat_str(a.as_str(), j.as_str())
            },
            AdmissionRefusal::ReadScopeOutsideGrant { node_purpose, targets } => {
                let a = concat_str("contract '", node_purpose.as_str());
                let a = concat_str(a.as_str(), "' declares read targets outside its Context Grant: ");
                let j = join_strings(targets, ", ");
                concat_str(a.as_str(), j.as_str())
            },
            AdmissionRefusal::DependencyCycle { contracts } => {
                let a = concat_str("dependency graph is cyclic across ", decimal_string(*contracts as u64).as_str());
                concat_str(a.as_str(), " contracts")
            },
            AdmissionRefusal::Invalid { reason } => concat_str("invalid work order: ", reason.as_str()),
        }
    }
}

/// Refuses a proposal without contracts.
pub fn check_has_contracts(contracts: usize) -> (r: Option<AdmissionRefusal>)
    ensures
        r is Some <==> contracts == 0,
        r matches Some(x) ==> x@ == (RefusalView::Invalid { reason: "a work order must contain at least one node contract"@ }),
{
    if contracts == 0 {
        Some(AdmissionRefusal::Invalid { reason: "a work order must contain at least one node contract".to_string() })
    } else {
        None
    }
}

/// Checks one authored edge of a proposal with `contracts` contracts: both
/// ends must name contracts, and conflict edges may not be authored.
pub fn check_proposed_edge(contracts: usize, from: usize, to: usize, derived_only: bool) -> (r: Option<AdmissionRefusal>)
    ensures
        !(from < contracts && to < contracts) ==> (r matches Some(x) && x@ == (RefusalView::Invalid { reason: "edge references a contract outside the work order"@ })),
        from < contracts && to < contracts && derived_only ==> (r matches Some(x) && x@ == (RefusalView::Invalid { reason: "conflict edges are derived from write scope, not authored"@ })),
        from < contracts && to < contracts && !derived_only ==> r is None,
{
    if !(from < contracts && to < contracts) {
        return Some(AdmissionRefusal::Invalid { reason: "edge references a contract outside the work order".to_string() });
    }
    if derived_only {
        return Some(AdmissionRefusal::Invalid { reason: "conflict edges are derived from write scope, not authored".to_string() });
    }
    None
}

/// The targets among `checked` that no grant covers, in order.
pub open spec fn uncovered<G>(checked: Seq<(Seq<char>, Option<G>)>) -> Seq<Seq<char>>
    decreases checked.len(),
{
    if checked.len() == 0 {
        Seq::empty()
    } else {
        let rest = uncovered(checked.drop_last());
        if checked.last().1 is None { rest.push(checked.last().0) } else { rest }
    }
}

/// The first grant among `checked` that covers its target.
pub open spec fn first_grant(checked: Seq<(Seq<char>, Option<u128>)>) -> Option<u128>
    decreases checked.len(),
{
    if checked.len() == 0 {
        None
    } else {
        match first_grant(checked.drop_last()) {
            Some(g) => Some(g),
            None => checked.last().1,
        }
    }
}

/// The view of checked targets.
pub open spec fn checked_view<G>(v: Seq<(String, Option<G>)>) -> Seq<(Seq<char>, Option<G>)> {
    v.map_values(|e: (String, Option<G>)| (e.0@, e.1))
}

fn uncovered_targets<G>(checked: &Vec<(String, Option<G>)>) -> (out: Vec<String>)
    ensures
        strings_view(out@) == uncovered(checked_view(checked@)),
{
    let ghost cv = checked_view(checked@);
    let mut out: Vec<String> = Vec::new();
    let mut i: usize = 0;
    proof {
        assert(cv.take(0) =~= Seq::<(Seq<char>, Option<G>)>::empty());
        assert(strings_view(out@) =~= Seq::<Seq<char>>::empty());
    }
    while i < checked.len()
        invariant
            i <= checked@.len(),
            cv == checked_view(checked@),
            strings_view(out@) == uncovered(cv.take(i as int)),
        decreases checked.len() - i,
    {
        proof {
            let t = cv.take(i + 1);
            assert(t.drop_last() =~= cv.take(i as int));
            assert(t.last() == (checked@[i as int].0@, checked@[i as int].1));
        }
        if checked[i].1.is_none() {
            let s = checked[i].0.clone();
            proof { assert(strings_view(out@.push(s)) =~= strings_view(out@).push(s@)); }
            out.push(s);
        }
        i += 1;
    }
    proof { assert(cv.take(checked@.len() as int) =~= cv); }
    out
}

/// Checks a contract's read scope: `checked` holds each read target and
/// whether a Context Grant covers it. Refused when some target is
/// uncovered, naming all such targets.
pub fn check_read_scope(purpose: &str, checked: &Vec<(String, Option<()>)>) -> (r: Option<AdmissionRefusal>)
    ensures
        r is Some <==> uncovered(checked_view(checked@)).len() > 0,
        r matches Some(x) ==> x@ == (RefusalView::ReadScopeOutsideGrant { node_purpose: purpose@, targets: uncovered(checked_view(checked@)) }),
{
    let missing = uncovered_targets(checked);
    if missing.len() > 0 {
        Some(AdmissionRefusal::ReadScopeOutsideGrant { node_purpose: purpose.to_string(), targets: missing })
    } else {
        None
    }
}

/// Checks a contract's write scope: `checked` holds each write target and
/// the Tool Grant covering it, if any. Refused when some target is
/// uncovered, naming all such targets; else the first covering grant
/// authorizes the contract.
pub fn check_write_scope(purpose: &str, checked: &Vec<(String, Option<u128>)>) -> (r: Result<Option<u128>, AdmissionRefusal>)
    ensures
        r is Err <==> uncovered(checked_view(checked@)).len() > 0,
        r matches Err(x) ==> x@ == (RefusalView::WriteScopeOutsideGrant { node_purpose: purpose@, targets: uncovered(checked_view(checked@)) }),
        r matches Ok(g) ==> g == first_grant(checked_view(checked@)),
{
    let missing = uncovered_targets(checked);
    if missing.len() > 0 {
        return Err(AdmissionRefusal::WriteScopeOutsideGrant { node_purpose: purpose.to_string(), targets: missing });
    }
    let ghost cv = checked_view(checked@);
    let mut first: Option<u128> = None;
    let mut i: usize = 0;
    proof { assert(cv.take(0) =~= Seq::<(Seq<char>, Option<u128>)>::empty()); }
    while i < checked.len()
        invariant
            i <= checked@.len(),
            cv == checked_view(checked@),
            first == first_grant(cv.take(i as int)),
        decreases checked.len() - i,
    {
        proof {
            let t = cv.take(i + 1);
            assert(t.drop_last() =~= cv.take(i as int));
            assert(t.last() == (checked@[i as int].0@, checked@[i as int].1));
        }
        if first.is_none() {
            first = checked[i].1;
        }
        i += 1;
    }
    proof { assert(cv.take(checked@.len() as int) =~= cv); }
    Ok(first)
}

/// Whether a run may proceed.
#[derive(PartialEq, Eq, Structural, Clone, Copy, Debug)]
pub enum RunReadiness {
    Ready,
    /// Another run holds a write lease on this many of the run's targets.
    BlockedByConflict { targets: usize },
    /// A predecessor run has not satisfied every gate required of it.
    BlockedByVerification { predecessor: u128 },
    /// A predecessor contract has not completed.
    BlockedByPredecessor { predecessor: u128 },
    /// Owner approval is outstanding.
    BlockedByApproval,
}

impl RunReadiness {
    /// Whether the run may proceed.
    pub fn is_ready(&self) -> (b: bool)
        ensures
            b == (*self == RunReadiness::Ready),
    {
        match self {
            RunReadiness::Ready => true,
            _ => false,
        }
    }
}

/// A recorded run attempt, as readiness reads it.
#[derive(PartialEq, Eq, Structural, Clone, Copy, Debug)]
pub struct RunRecord {
    pub run_id: u128,
    pub node_id: u128,
    pub attempt_no: u32,
    pub completed: bool,
}

/// The latest attempt among `runs` of contract `node`: the one with the
/// highest attempt number, the last such one on a tie.
pub open spec fn latest_attempt(runs: Seq<RunRecord>, node: u128) -> Option<RunRecord>
    decreases runs.len(),
{
    if runs.len() == 0 {
        None
    } else {
        let best = latest_attempt(runs.drop_last(), node);
        let r = runs.last();
        if r.node_id != node {
            best
        } else {
            match best {
                Some(b) => if r.attempt_no >= b.attempt_no { Some(r) } else { Some(b) },
                None => Some(r),
            }
        }
    }
}

/// The latest attempt of contract `node` among `runs`.
pub fn latest_attempt_of(runs: &Vec<RunRecord>, node: u128) -> (r: Option<RunRecord>)
    ensures
        r == latest_attempt(runs@, node),
{
    let mut best: Option<RunRecord> = None;
    let mut i: usize = 0;
    proof { assert(runs@.take(0) =~= Seq::<RunRecord>::empty()); }
    while i < runs.len()
        invariant
            i <= runs@.len(),
            best == latest_attempt(runs@.take(i as int), node),
        decreases runs.len() - i,
    {
        proof {
            let t = runs@.take(i + 1);
            assert(t.drop_last() =~= runs@.take(i as int));
            assert(t.last() == runs@[i as int]);
        }
        let r = runs[i];
        if r.node_id == node {
            best = match best {
                Some(b) => if r.attempt_no >= b.attempt_no { Some(r) } else { Some(b) },
                None => Some(r),
            };
        }
        i += 1;
    }
    proof { assert(runs@.take(runs@.len() as int) =~= runs@); }
    best
}

/// Whether some run of contract `node` among `runs` has completed.
pub fn predecessor_completed(runs: &Vec<RunRecord>, node: u128) -> (b: bool)
    ensures
        b == exists|i: int| 0 <= i < runs@.len() && (#[trigger] runs@[i]).node_id == node && runs@[i].completed,
{
    let mut i: usize = 0;
    while i < runs.len()
        invariant
            i <= runs@.len(),
            forall|j: int| 0 <= j < i ==> !((#[trigger] runs@[j]).node_id == node && runs@[j].completed),
        decreases runs.len() - i,
    {
        if runs[i].node_id == node && runs[i].completed {
            return true;
        }
        i += 1;
    }
    false
}

/// The kind of an inbound dependency edge, as readiness reads it.
#[derive(PartialEq, Eq, Structural, Clone, Copy, Debug)]
pub enum EdgeClass {
    /// Mutual exclusion, checked through write leases.
    Conflict,
    /// The predecessor's latest run must have passed its required gates.
    Verification,
    /// The predecessor must have completed.
    Precedence,
}

/// What one inbound edge from contract `from` says about a run: `gates_met`
/// tells whether the predecessor's latest run has every required gate.
pub open spec fn edge_block(class: EdgeClass, from: u128, runs: Seq<RunRecord>, gates_met: bool) -> Option<RunReadiness> {
    match class {
        EdgeClass::Conflict => None,
        EdgeClass::Verification => match latest_attempt(runs, from) {
            None => Some(RunReadiness::BlockedByPredecessor { predecessor: from }),
            Some(p) => if gates_met { None } else { Some(RunReadiness::BlockedByVerification { predecessor: p.run_id }) },
        },
        EdgeClass::Precedence => if exists|i: int| 0 <= i < runs.len() && (#[trigger] runs[i]).node_id == from && runs[i].completed {
            None
        } else {
            Some(RunReadiness::BlockedByPredecessor { predecessor: from })
        },
    }
}

/// Judges one inbound edge of a run; `None` when it does not block.
pub fn judge_edge(class: EdgeClass, from: u128, runs: &Vec<RunRecord>, gates_met: bool) -> (r: Option<RunReadiness>)
    ensures
        r == edge_block(class, from, runs@, gates_met),
{
    match class {
        EdgeClass::Conflict => None,
        EdgeClass::Verification => match latest_attempt_of(runs, from) {
            None => Some(RunReadiness::BlockedByPredecessor { predecessor: from }),
            Some(p) => if gates_met { None } else { Some(RunReadiness::BlockedByVerification { predecessor: p.run_id }) },
        },
        EdgeClass::Precedence => if predecessor_completed(runs, from) {
            None
        } else {
            Some(RunReadiness::BlockedByPredecessor { predecessor: from })
        },
    }
}

/// Readiness once every inbound edge passed: blocked by the leases others
/// hold on `conflicting_targets` of the run's targets, else ready.
pub fn readiness_after_edges(conflicting_targets: usize) -> (r: RunReadiness)
    ensures
        r == (if conflicting_targets > 0 { RunReadiness::BlockedByConflict { targets: conflicting_targets } } else { RunReadiness::Ready }),
{
    if conflicting_targets > 0 {
        RunReadiness::BlockedByConflict { targets: conflicting_targets }
    } else {
        RunReadiness::Ready
    }
}

/// The highest attempt number of contract `node` among `runs` (0 without
/// one).
pub open spec fn max_attempt(runs: Seq<RunRecord>, node: u128) -> u32
    decreases runs.len(),
{
    if runs.len() == 0 {
        0
    } else {
        let m = max_attempt(runs.drop_last(), node);
        if runs.last().node_id == node && runs.last().attempt_no > m { runs.last().attempt_no } else { m }
    }
}

/// The next attempt of contract `node` that a work order may start: one
/// more than the highest recorded, when the contract allows that many.
/// Refused when the work order is terminal (`status` names its state) or the
/// attempts are spent.
pub open spec fn next_attempt(terminal: bool, status: Seq<char>, runs: Seq<RunRecord>, node: u128, max_attempts: u32) -> Result<u64, ErrorView> {
    if terminal {
        Err(ErrorView::Conflict("work order is "@ + status + " and cannot start new runs"@))
    } else if max_attempt(runs, node) + 1 > max_attempts {
        Err(ErrorView::Conflict("node contract allows "@ + decimal_text(max_attempts as nat) + " attempt(s); blind retry is not recovery"@))
    } else {
        Ok((max_attempt(runs, node) + 1) as u64)
    }
}

/// The attempt number of a new run of contract `node`.
pub fn next_run_attempt(terminal: bool, status: &str, runs: &Vec<RunRecord>, node: u128, max_attempts: u32) -> (r: Result<u64, EngineError>)
    ensures
        match r {
            Ok(n) => next_attempt(terminal, status@, runs@, node, max_attempts) == Ok::<u64, ErrorView>(n),
            Err(e) => next_attempt(terminal, status@, runs@, node, max_attempts) == Err::<u64, ErrorView>(e@),
        },
{
    if terminal {
        let a = concat_str("work order is ", status);
        return Err(EngineError::Conflict(concat_str(a.as_str(), " and cannot start new runs")));
    }
    let mut m: u32 = 0;
    let mut i: usize = 0;
    proof { assert(runs@.take(0) =~= Seq::<RunRecord>::empty()); }
    while i < runs.len()
        invariant
            i <= runs@.len(),
            m == max_attempt(runs@.take(i as int), node),
        decreases runs.len() - i,
    {
        proof {
            let t = runs@.take(i + 1);
            assert(t.drop_last() =~= runs@.take(i as int));
            assert(t.last() == runs@[i as int]);
        }
        if runs[i].node_id == node && runs[i].attempt_no > m {
            m = runs[i].attempt_no;
        }
        i += 1;
    }
    proof { assert(runs@.take(runs@.len() as int) =~= runs@); }
    let next: u64 = m as u64 + 1;
    if next > max_attempts as u64 {
        let a = concat_str("node contract allows ", decimal_string(max_attempts as u64).as_str());
        return Err(EngineError::Conflict(concat_str(a.as_str(), " attempt(s); blind retry is not recovery")));
    }
    Ok(next)
}

/// The autonomy gate's answer to starting a run.
#[derive(PartialEq, Eq, Structural, Clone, Copy, Debug)]
pub enum EffectOutcome {
    Admitted,
    /// The intent type is blocked by standing policy.
    Blocked,
    /// Deferred or queued for the owner.
    Deferred,
}

/// What follows a started run's autonomy answer.
#[derive(PartialEq, Eq, Structural, Clone, Copy, Debug)]
pub enum StartAction {
    /// Take the write leases and mark the run leased.
    Lease,
    /// Fail the run as unauthorized.
    FailUnauthorized,
    /// Park the run until the owner approves it, holding no lease.
    AwaitApproval,
}

/// What follows a started run's autonomy answer.
pub fn start_action(outcome: EffectOutcome) -> (a: StartAction)
    ensures
        a == match outcome {
            EffectOutcome::Admitted => StartAction::Lease,
            EffectOutcome::Blocked => StartAction::FailUnauthorized,
            EffectOutcome::Deferred => StartAction::AwaitApproval,
        },
{
    match outcome {
        EffectOutcome::Admitted => StartAction::Lease,
        EffectOutcome::Blocked => StartAction::FailUnauthorized,
        EffectOutcome::Deferred => StartAction::AwaitApproval,
    }
}

/// Refuses a run's approval by its own actor.
pub fn check_approver(actor: &str, approver: &str) -> (r: Result<(), EngineError>)
    ensures
        unit_result(r) == if actor@ == approver@ {
            Err(ErrorView::AccessDenied("a run cannot approve itself (SPACE-002 / ADR 012)"@))
        } else {
            Ok(())
        },
{
    let a = chars_of(actor);
    if chars_eq_str(a.as_slice(), approver) {
        Err(EngineError::AccessDenied("a run cannot approve itself (SPACE-002 / ADR 012)".to_string()))
    } else {
        Ok(())
    }
}

/// A run's status, as the executor reads it.
pub enum RunStatusClass {
    Ready,
    Leased,
    /// Any other status, by name.
    Other(String),
}

/// What the executor must do before running: re-lease a ready run, or run a
/// leased one.
#[derive(PartialEq, Eq, Structural, Clone, Copy, Debug)]
pub enum ExecutionStart {
    ReleaseAndRun,
    Run,
}

/// The checks before the internal engine executes a run: the work order is
/// not terminal, the contract is for the engine executor at low risk, and the
/// run is leased (or ready after approval). Names are those of the states,
/// kinds and tiers.
pub open spec fn execution_check(
    terminal: bool,
    status: Seq<char>,
    engine_executor: bool,
    executor: Seq<char>,
    low_risk: bool,
    tier: Seq<char>,
    run: RunStatusClass,
) -> Result<ExecutionStart, ErrorView> {
    if terminal {
        Err(ErrorView::Conflict("work order is "@ + status + " and cannot execute runs"@))
    } else if !engine_executor {
        Err(ErrorView::InvalidInput("execute_run supports ExecutorKind::Engine only; got "@ + executor))
    } else if !low_risk {
        Err(ErrorView::InvalidInput("internal engine auto-executor currently supports RiskTier::Low only; got "@ + tier))
    } else {
        match run {
            RunStatusClass::Ready => Ok(ExecutionStart::ReleaseAndRun),
            RunStatusClass::Leased => Ok(ExecutionStart::Run),
            RunStatusClass::Other(s) => Err(ErrorView::Conflict("run must be leased (or ready after approval) to execute; status is "@ + s@)),
        }
    }
}

/// Checks that the internal engine may execute a run.
pub fn check_execution(
    terminal: bool,
    status: &str,
    engine_executor: bool,
    executor: &str,
    low_risk: bool,
    tier: &str,
    run: RunStatusClass,
) -> (r: Result<ExecutionStart, EngineError>)
    ensures
        match r {
            Ok(s) => execution_check(terminal, status@, engine_executor, executor@, low_risk, tier@, run) == Ok::<ExecutionStart, ErrorView>(s),
            Err(e) => execution_check(terminal, status@, engine_executor, executor@, low_risk, tier@, run) == Err::<ExecutionStart, ErrorView>(e@),
        },
{
    if terminal {
        let a = concat_str("work order is ", status);
        return Err(EngineError::Conflict(concat_str(a.as_str(), " and cannot execute runs")));
    }
    if !engine_executor {
        return Err(EngineError::InvalidInput(concat_str("execute_run supports ExecutorKind::Engine only; got ", executor)));
    }
    if !low_risk {
        return Err(EngineError::InvalidInput(concat_str("internal engine auto-executor currently supports RiskTier::Low only; got ", tier)));
    }
    match run {
        RunStatusClass::Ready => Ok(ExecutionStart::ReleaseAndRun),
        RunStatusClass::Leased => Ok(ExecutionStart::Run),
        RunStatusClass::Other(s) => Err(EngineError::Conflict(concat_str("run must be leased (or ready after approval) to execute; status is ", s.as_str()))),
    }
}

/// The gates the internal executor evaluates itself.
#[derive(PartialEq, Eq, Structural, Clone, Copy, Debug)]
pub enum ExecutorGate {
    Scope,
    Schema,
    Artifacts,
    Ceilings,
}

/// A gate that a contract's risk tier requires.
pub enum RequiredGate {
    G0,
    G1,
    G2,
    G6,
    /// Any other gate, by name.
    Other(String),
}

/// Which evaluation a required gate gets: G0, G1, G2 and G6 are evaluated
/// by the executor; any other gate stops execution.
pub fn executor_gate(gate: RequiredGate) -> (r: Result<ExecutorGate, EngineError>)
    ensures
        gate is G0 ==> r == Ok::<ExecutorGate, EngineError>(ExecutorGate::Scope),
        gate is G1 ==> r == Ok::<ExecutorGate, EngineError>(ExecutorGate::Schema),
        gate is G2 ==> r == Ok::<ExecutorGate, EngineError>(ExecutorGate::Artifacts),
        gate is G6 ==> r == Ok::<ExecutorGate, EngineError>(ExecutorGate::Ceilings),
        gate matches RequiredGate::Other(n) ==> (r matches Err(e) && e@ == ErrorView::InvalidInput("internal engine executor does not auto-evaluate gate "@ + n@)),
{
    match gate {
        RequiredGate::G0 => Ok(ExecutorGate::Scope),
        RequiredGate::G1 => Ok(ExecutorGate::Schema),
        RequiredGate::G2 => Ok(ExecutorGate::Artifacts),
        RequiredGate::G6 => Ok(ExecutorGate::Ceilings),
        RequiredGate::Other(n) => Err(EngineError::InvalidInput(concat_str("internal engine executor does not auto-evaluate gate ", n.as_str()))),
    }
}

/// The error when a gate fails during execution.
pub fn gate_failure(gate: &str, detail: Option<&str>) -> (e: EngineError)
    ensures
        e@ == ErrorView::Conflict("gate "@ + gate@ + " failed during internal execution: "@ + match detail {
            Some(d) => d@,
            None => Seq::<char>::empty(),
        }),
{
    let a = concat_str("gate ", gate);
    let a = concat_str(a.as_str(), " failed during internal execution: ");
    match detail {
        Some(d) => EngineError::Conflict(concat_str(a.as_str(), d)),
        None => {
            proof { assert(a@ + Seq::<char>::empty() =~= a@); }
            EngineError::Conflict(a)
        },
    }
}

/// The error when execution leaves required gates outstanding.
pub fn outstanding_gates(gates: &Vec<String>) -> (e: EngineError)
    ensures
        e@ == ErrorView::Conflict("execution left outstanding gates: "@ + join_with(strings_view(gates@), ","@)),
{
    let j = join_strings(gates, ",");
    EngineError::Conflict(concat_str("execution left outstanding gates: ", j.as_str()))
}

/// A work order's run budget (or what remains of it).
#[derive(PartialEq, Eq, Structural, Clone, Copy, Debug)]
pub struct Budget {
    pub run_attempts: u32,
    pub model_tokens: u64,
    pub effect_actions: u32,
    pub wall_clock_secs: u64,
}

/// Gate G6: what remains stays within the declared budget in every measure.
pub open spec fn within_ceilings(remaining: Budget, budget: Budget) -> bool {
    remaining.run_attempts <= budget.run_attempts && remaining.model_tokens <= budget.model_tokens
        && remaining.effect_actions <= budget.effect_actions && remaining.wall_clock_secs <= budget.wall_clock_secs
}

/// Gate G6's outcome and detail.
pub fn ceilings_outcome(remaining: &Budget, budget: &Budget) -> (r: (bool, String))
    ensures
        r.0 == within_ceilings(*remaining, *budget),
        r.0 ==> r.1@ == "budget, sensitivity, and retention remain within ceilings"@,
        !r.0 ==> r.1@ == "remaining budget exceeds declared ceilings"@,
{
    if remaining.run_attempts <= budget.run_attempts && remaining.model_tokens <= budget.model_tokens
        && remaining.effect_actions <= budget.effect_actions && remaining.wall_clock_secs <= budget.wall_clock_secs
    {
        (true, "budget, sensitivity, and retention remain within ceilings".to_string())
    } else {
        (false, "remaining budget exceeds declared ceilings".to_string())
    }
}

/// Gate G1's outcome and detail for an artifact whose JSON parsed with the
/// given `executor` member (`Ok(None)` when it has no text `executor`), or
/// failed to parse with the given message.
pub fn schema_outcome(parsed: Result<Option<String>, String>) -> (r: (bool, String))
    ensures
        match parsed {
            Ok(Some(x)) => if x@ == "engine"@ {
                r.0 && r.1@ == "engine.result JSON validates against the internal executor schema"@
            } else {
                !r.0 && r.1@ == "artifact JSON is not an engine.result payload"@
            },
            Ok(None) => !r.0 && r.1@ == "artifact JSON is not an engine.result payload"@,
            Err(m) => !r.0 && r.1@ == "artifact is not valid JSON: "@ + m@,
        },
{
    match parsed {
        Ok(Some(x)) => {
            let c = chars_of(x.as_str());
            if chars_eq_str(c.as_slice(), "engine") {
                (true, "engine.result JSON validates against the internal executor schema".to_string())
            } else {
                (false, "artifact JSON is not an engine.result payload".to_string())
            }
        },
        Ok(None) => (false, "artifact JSON is not an engine.result payload".to_string()),
        Err(m) => (false, concat_str("artifact is not valid JSON: ", m.as_str())),
    }
}

/// How reading one recorded artifact back went.
pub enum ArtifactCheck {
    /// Its content was read and matches its digest.
    Verified,
    /// Its content is missing; the artifact's id.
    Missing(String),
    /// Reading failed; the artifact's id and the error.
    Failed(String, String),
}

/// The failure line of an artifact check (none for a verified one).
pub open spec fn check_failure(c: ArtifactCheck) -> Option<Seq<char>> {
    match c {
        ArtifactCheck::Verified => None,
        ArtifactCheck::Missing(id) => Some("artifact "@ + id@ + " is recorded but its content is missing"@),
        ArtifactCheck::Failed(id, e) => Some("artifact "@ + id@ + ": "@ + e@),
    }
}

/// The failure lines of `checks`, in order.
pub open spec fn check_failures(checks: Seq<ArtifactCheck>) -> Seq<Seq<char>>
    decreases checks.len(),
{
    if checks.len() == 0 {
        Seq::empty()
    } else {
        let rest = check_failures(checks.drop_last());
        match check_failure(checks.last()) {
            Some(f) => rest.push(f),
            None => rest,
        }
    }
}

/// Gate G2's outcome and detail: failed without artifacts; passed when every
/// artifact verified, naming how many; else failed with the failures joined
/// by `; `.
pub fn artifacts_outcome(checks: &Vec<ArtifactCheck>) -> (r: (bool, String))
    ensures
        checks@.len() == 0 ==> !r.0 && r.1@ == "the run recorded no artifacts to verify"@,
        checks@.len() > 0 && check_failures(checks@).len() == 0 ==> r.0 && r.1@ == decimal_text(checks@.len()) + " artifact(s) verified against content"@,
        checks@.len() > 0 && check_failures(checks@).len() > 0 ==> !r.0 && r.1@ == join_with(check_failures(checks@), "; "@),
{
    if checks.len() == 0 {
        return (false, "the run recorded no artifacts to verify".to_string());
    }
    let mut failures: Vec<String> = Vec::new();
    let mut i: usize = 0;
    proof {
        assert(checks@.take(0) =~= Seq::<ArtifactCheck>::empty());
        assert(strings_view(failures@) =~= Seq::<Seq<char>>::empty());
    }
    while i < checks.len()
        invariant
            i <= checks@.len(),
            strings_view(failures@) == check_failures(checks@.take(i as int)),
        decreases checks.len() - i,
    {
        proof {
            let t = checks@.take(i + 1);
            assert(t.drop_last() =~= checks@.take(i as int));
            assert(t.last() == checks@[i as int]);
        }
        match &checks[i] {
            ArtifactCheck::Verified => {},
            ArtifactCheck::Missing(id) => {
                let a = concat_str("artifact ", id.as_str());
                let s = concat_str(a.as_str(), " is recorded but its content is missing");
                proof { assert(strings_view(failures@.push(s)) =~= strings_view(failures@).push(s@)); }
                failures.push(s);
            },
            ArtifactCheck::Failed(id, e) => {
                let a = concat_str("artifact ", id.as_str());
                let a = concat_str(a.as_str(), ": ");
                let s = concat_str(a.as_str(), e.as_str());
                proof { assert(strings_view(failures@.push(s)) =~= strings_view(failures@).push(s@)); }
                failures.push(s);
            },
        }
        i += 1;
    }
    proof { assert(checks@.take(checks@.len() as int) =~= checks@); }
    if failures.len() == 0 {
        let n = decimal_string(checks.len() as u64);
        (true, concat_str(n.as_str(), " artifact(s) verified against content"))
    } else {
        (false, join_strings(&failures, "; "))
    }
}

/// The times and failure class of a run that a status transition rewrites.
pub struct RunLifecycle<F> {
    pub started_at: Option<i64>,
    pub ended_at: Option<i64>,
    pub failure_class: Option<F>,
}

/// Rewrites a run's lifecycle fields for a transition at `now`: a run that
/// starts running for the first time records its start; a run that reaches
/// a terminal status records its end; a failure class given with the
/// transition replaces the recorded one, and otherwise the recorded one
/// stays. A start, once recorded, is never moved.
pub fn transition_lifecycle<F>(current: RunLifecycle<F>, to_running: bool, to_terminal: bool, failure_class: Option<F>, now: i64) -> (r: RunLifecycle<F>)
    ensures
        r.failure_class == (match failure_class {
            Some(f) => Some(f),
            None => current.failure_class,
        }),
        r.started_at == (if to_running && current.started_at is None { Some(now) } else { current.started_at }),
        r.ended_at == (if to_terminal { Some(now) } else { current.ended_at }),
        current.started_at is Some ==> r.started_at == current.started_at,
{
    let failure = match failure_class {
        Some(f) => Some(f),
        None => current.failure_class,
    };
    let started = if to_running && current.started_at.is_none() { Some(now) } else { current.started_at };
    let ended = if to_terminal { Some(now) } else { current.ended_at };
    RunLifecycle { started_at: started, ended_at: ended, failure_class: failure }
}

/// Evidence cannot be added to a closed attempt.
pub open spec fn artifact_recordable(terminal: bool, status: Seq<char>) -> Result<(), ErrorView> {
    if terminal {
        Err(ErrorView::Conflict("run is "@ + status + " and cannot record further artifacts"@))
    } else {
        Ok(())
    }
}

/// Checks that a run in `status` (terminal or not) may still record an
/// artifact.
pub fn check_artifact_recordable(terminal: bool, status: &str) -> (r: Result<(), EngineError>)
    ensures
        unit_result(r) == artifact_recordable(terminal, status@),
{
    if terminal {
        let a = concat_str("run is ", status);
        Err(EngineError::Conflict(concat_str(a.as_str(), " and cannot record further artifacts")))
    } else {
        Ok(())
    }
}

/// Attempts advance one at a time and never beyond what the contract
/// allows: a started attempt is one more than the highest recorded, and at
/// most the contract's maximum.
pub proof fn lemma_attempts_advance_by_one(terminal: bool, status: Seq<char>, runs: Seq<RunRecord>, node: u128, max_attempts: u32)
    ensures
        next_attempt(terminal, status, runs, node, max_attempts) matches Ok(n)
            ==> n == max_attempt(runs, node) + 1 && n <= max_attempts && !terminal,
{
}

/// Successive starts of one contract number their attempts 1, 2, and so on:
/// once the run that a start admitted is recorded, the next start gives the
/// following number, and a start after the contract's last allowed attempt
/// is refused as a conflict.
pub proof fn lemma_recorded_attempt_advances(
    terminal: bool,
    status: Seq<char>,
    runs: Seq<RunRecord>,
    node: u128,
    max_attempts: u32,
    r: RunRecord,
)
    requires
        r.node_id == node,
        next_attempt(terminal, status, runs, node, max_attempts) == Ok::<u64, ErrorView>(r.attempt_no as u64),
    ensures
        max_attempt(runs.push(r), node) == r.attempt_no,
        r.attempt_no < max_attempts ==> next_attempt(terminal, status, runs.push(r), node, max_attempts)
            == Ok::<u64, ErrorView>((r.attempt_no + 1) as u64),
        r.attempt_no == max_attempts ==> next_attempt(terminal, status, runs.push(r), node, max_attempts)
            matches Err(ErrorView::Conflict(_)),
{
    assert(runs.push(r).drop_last() =~= runs);
}

/// When the engine executes a run: never for a terminal work order (a
/// conflict), nor for an executor other than the engine or a risk tier
/// other than low (invalid input); otherwise a ready run is re-leased and
/// run, a leased one is run, and a run in any other state is refused as a
/// conflict.
pub proof fn lemma_execution_rules(
    terminal: bool,
    status: Seq<char>,
    engine_executor: bool,
    executor: Seq<char>,
    low_risk: bool,
    tier: Seq<char>,
    run: RunStatusClass,
)
    ensures
        terminal ==> execution_check(terminal, status, engine_executor, executor, low_risk, tier, run) matches Err(ErrorView::Conflict(_)),
        !terminal && !engine_executor ==> execution_check(terminal, status, engine_executor, executor, low_risk, tier, run) matches Err(ErrorView::InvalidInput(_)),
        !terminal && engine_executor && !low_risk ==> execution_check(terminal, status, engine_executor, executor, low_risk, tier, run) matches Err(ErrorView::InvalidInput(_)),
        execution_check(terminal, status, engine_executor, executor, low_risk, tier, run) is Ok ==> !terminal && engine_executor && low_risk,
        !terminal && engine_executor && low_risk ==> ({
            &&& run == RunStatusClass::Ready ==> execution_check(terminal, status, engine_executor, executor, low_risk, tier, run) == Ok::<ExecutionStart, ErrorView>(ExecutionStart::ReleaseAndRun)
            &&& run == RunStatusClass::Leased ==> execution_check(terminal, status, engine_executor, executor, low_risk, tier, run) == Ok::<ExecutionStart, ErrorView>(ExecutionStart::Run)
            &&& run is Other ==> execution_check(terminal, status, engine_executor, executor, low_risk, tier, run) matches Err(ErrorView::Conflict(_))
        }),
{
}

/// The latest attempt of a contract is one of its runs, with an attempt
/// number no smaller than that of any other of its runs; there is none
/// exactly when the contract has no run.
pub proof fn lemma_latest_attempt_is_highest(runs: Seq<RunRecord>, node: u128)
    ensures
        latest_attempt(runs, node) is None <==> forall|i: int| 0 <= i < runs.len() ==> (#[trigger] runs[i]).node_id != node,
        latest_attempt(runs, node) matches Some(r) ==> (exists|i: int| 0 <= i < runs.len() && #[trigger] runs[i] == r) && r.node_id == node,
        latest_attempt(runs, node) matches Some(r) ==> forall|i: int| 0 <= i < runs.len() && (#[trigger] runs[i]).node_id == node ==> runs[i].attempt_no <= r.attempt_no,
    decreases runs.len(),
{
    if runs.len() > 0 {
        let init = runs.drop_last();
        lemma_latest_attempt_is_highest(init, node);
        assert forall|i: int| 0 <= i < init.len() implies #[trigger] init[i] == runs[i] by {}
        if latest_attempt(init, node) is Some {
            let b = latest_attempt(init, node)->0;
            let j = choose|j: int| 0 <= j < init.len() && #[trigger] init[j] == b;
            assert(runs[j] == b);
        }
        assert(runs[runs.len() - 1] == runs.last());
        if latest_attempt(runs, node) is Some {
            let r = latest_attempt(runs, node)->0;
            assert forall|i: int| 0 <= i < runs.len() && (#[trigger] runs[i]).node_id == node implies runs[i].attempt_no <= r.attempt_no by {
                if i < runs.len() - 1 {
                    assert(init[i] == runs[i]);
                }
            }
        }
        if latest_attempt(runs, node) is None {
            assert forall|i: int| 0 <= i < runs.len() implies (#[trigger] runs[i]).node_id != node by {
                if i < runs.len() - 1 {
                    assert(init[i] == runs[i]);
                }
            }
        }
    }
}

/// The highest attempt number recorded for a contract: no run of it has a
/// higher one, and unless it is 0 some run of it has exactly that number.
pub proof fn lemma_max_attempt_is_highest(runs: Seq<RunRecord>, node: u128)
    ensures
        forall|i: int| 0 <= i < runs.len() && (#[trigger] runs[i]).node_id == node ==> runs[i].attempt_no <= max_attempt(runs, node),
        max_attempt(runs, node) == 0 || exists|i: int| 0 <= i < runs.len() && (#[trigger] runs[i]).node_id == node && runs[i].attempt_no == max_attempt(runs, node),
    decreases runs.len(),
{
    if runs.len() > 0 {
        let init = runs.drop_last();
        lemma_max_attempt_is_highest(init, node);
        assert forall|i: int| 0 <= i < init.len() implies #[trigger] init[i] == runs[i] by {}
        if max_attempt(init, node) != 0 {
            let j = choose|j: int| 0 <= j < init.len() && (#[trigger] init[j]).node_id == node && init[j].attempt_no == max_attempt(init, node);
            assert(runs[j] == init[j]);
        }
        assert(runs[runs.len() - 1] == runs.last());
        assert forall|i: int| 0 <= i < runs.len() && (#[trigger] runs[i]).node_id == node implies runs[i].attempt_no <= max_attempt(runs, node) by {
            if i < runs.len() - 1 {
                assert(init[i] == runs[i]);
            }
        }
    }
}

/// How an edge from a predecessor contract holds a run back: a conflict
/// edge never does (leases handle it); a precedence edge does until some
/// run of the predecessor has completed; a verification edge does while the
/// predecessor has no run, and then while its latest run's gates are not
/// all met.
pub proof fn lemma_edge_rules(class: EdgeClass, from: u128, runs: Seq<RunRecord>, gates_met: bool)
    ensures
        class == EdgeClass::Conflict ==> edge_block(class, from, runs, gates_met) is None,
        class == EdgeClass::Precedence ==> (edge_block(class, from, runs, gates_met) is None
            <==> exists|i: int| 0 <= i < runs.len() && (#[trigger] runs[i]).node_id == from && runs[i].completed),
        class == EdgeClass::Precedence && edge_block(class, from, runs, gates_met) is Some
            ==> edge_block(class, from, runs, gates_met) == Some(RunReadiness::BlockedByPredecessor { predecessor: from }),
        class == EdgeClass::Verification && (forall|i: int| 0 <= i < runs.len() ==> (#[trigger] runs[i]).node_id != from)
            ==> edge_block(class, from, runs, gates_met) == Some(RunReadiness::BlockedByPredecessor { predecessor: from }),
        class == EdgeClass::Verification && (exists|i: int| 0 <= i < runs.len() && (#[trigger] runs[i]).node_id == from)
            ==> (edge_block(class, from, runs, gates_met) is None <==> gates_met),
{
    lemma_latest_attempt_is_highest(runs, from);
}

/// The targets a grant does not cover are exactly the checked targets
/// without a grant, in order; the grant used is the first one found.
pub proof fn lemma_uncovered_targets(checked: Seq<(Seq<char>, Option<u128>)>)
    ensures
        forall|i: int| 0 <= i < checked.len() && (#[trigger] checked[i]).1 is None ==> uncovered(checked).contains(checked[i].0),
        forall|t: Seq<char>| #[trigger] uncovered(checked).contains(t) ==> exists|i: int| 0 <= i < checked.len()
            && (#[trigger] checked[i]).0 == t && checked[i].1 is None,
        (forall|i: int| 0 <= i < checked.len() ==> (#[trigger] checked[i]).1 is Some) ==> uncovered(checked).len() == 0,
        first_grant(checked) is None <==> forall|i: int| 0 <= i < checked.len() ==> (#[trigger] checked[i]).1 is None,
        first_grant(checked) is Some ==> exists|i: int| 0 <= i < checked.len() && (#[trigger] checked[i]).1 == first_grant(checked)
            && forall|k: int| 0 <= k < i ==> (#[trigger] checked[k]).1 is None,
    decreases checked.len(),
{
    if checked.len() > 0 {
        let init = checked.drop_last();
        lemma_uncovered_targets(init);
        assert forall|i: int| 0 <= i < init.len() implies #[trigger] init[i] == checked[i] by {}
        let n = checked.len() - 1;
        assert(checked[n] == checked.last());
        let r = uncovered(init);
        let all = uncovered(checked);
        assert forall|t: Seq<char>| #[trigger] r.contains(t) implies all.contains(t) by {
            let q = choose|q: int| 0 <= q < r.len() && r[q] == t;
            if all != r {
                assert(all[q] == r[q]);
            }
        }
        assert forall|i: int| 0 <= i < checked.len() && (#[trigger] checked[i]).1 is None implies all.contains(checked[i].0) by {
            if i < n {
                assert(init[i] == checked[i]);
                assert(r.contains(init[i].0));
            } else {
                assert(all[r.len() as int] == checked[i].0);
            }
        }
        assert forall|t: Seq<char>| #[trigger] all.contains(t) implies exists|i: int| 0 <= i < checked.len()
            && (#[trigger] checked[i]).0 == t && checked[i].1 is None by {
            let q = choose|q: int| 0 <= q < all.len() && all[q] == t;
            if q < r.len() {
                assert(r[q] == t);
                assert(r.contains(t));
                let i = choose|i: int| 0 <= i < init.len() && (#[trigger] init[i]).0 == t && init[i].1 is None;
                assert(checked[i] == init[i]);
            } else {
                assert(checked[n].0 == t);
            }
        }
        if forall|i: int| 0 <= i < checked.len() ==> (#[trigger] checked[i]).1 is Some {
            assert forall|i: int| 0 <= i < init.len() implies (#[trigger] init[i]).1 is Some by {
                assert(checked[i] == init[i]);
            }
        }
        if first_grant(init) is Some {
            let i = choose|i: int| 0 <= i < init.len() && (#[trigger] init[i]).1 == first_grant(init)
                && forall|k: int| 0 <= k < i ==> (#[trigger] init[k]).1 is None;
            assert(checked[i] == init[i]);
            assert forall|k: int| 0 <= k < i implies (#[trigger] checked[k]).1 is None by {
                assert(init[k] == checked[k]);
            }
        } else {
            assert forall|k: int| 0 <= k < n implies (#[trigger] checked[k]).1 is None by {
                assert(init[k] == checked[k]);
            }
        }
    }
}

/// What remains of a budget is within it exactly when it is, measure by
/// measure: run attempts, model tokens, effect actions and wall-clock
/// seconds.
pub proof fn lemma_ceilings(remaining: Budget, budget: Budget)
    ensures
        within_ceilings(remaining, budget) <==> (remaining.run_attempts <= budget.run_attempts
            && remaining.model_tokens <= budget.model_tokens && remaining.effect_actions <= budget.effect_actions
            && remaining.wall_clock_secs <= budget.wall_clock_secs),
        remaining.run_attempts > budget.run_attempts ==> !within_ceilings(remaining, budget),
        remaining.model_tokens > budget.model_tokens ==> !within_ceilings(remaining, budget),
        remaining.effect_actions > budget.effect_actions ==> !within_ceilings(remaining, budget),
        remaining.wall_clock_secs > budget.wall_clock_secs ==> !within_ceilings(remaining, budget),
{
}

/// The artifact checks fail exactly where an artifact is missing or could
/// not be read, each once and in order: no failure when all verified.
pub proof fn lemma_check_failures(checks: Seq<ArtifactCheck>)
    ensures
        (forall|i: int| 0 <= i < checks.len() ==> #[trigger] checks[i] is Verified) ==> check_failures(checks).len() == 0,
        check_failures(checks).len() <= checks.len(),
        (exists|i: int| 0 <= i < checks.len() && !(#[trigger] checks[i] is Verified)) ==> check_failures(checks).len() > 0,
    decreases checks.len(),
{
    if checks.len() > 0 {
        let init = checks.drop_last();
        lemma_check_failures(init);
        assert forall|i: int| 0 <= i < init.len() implies #[trigger] init[i] == checks[i] by {}
        assert(checks[checks.len() - 1] == checks.last());
        if exists|i: int| 0 <= i < checks.len() && !(#[trigger] checks[i] is Verified) {
            let i = choose|i: int| 0 <= i < checks.len() && !(#[trigger] checks[i] is Verified);
            if i < checks.len() - 1 {
                assert(init[i] == checks[i]);
            }
        }
        if forall|i: int| 0 <= i < checks.len() ==> #[trigger] checks[i] is Verified {
            assert forall|i: int| 0 <= i < init.len() implies #[trigger] init[i] is Verified by {
                assert(init[i] == checks[i]);
            }
        }
    }
}

} // verus!
