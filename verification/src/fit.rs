//! The run control of a batch k-means fit: how many runs are started, when a
//! run stops iterating, which run's centroids are kept, and what the fit
//! reports at the end.
//!
//! The numeric work of each step (initialising centroids, assigning the
//! observations, moving the centroids) is done by the caller, which reports
//! the inertia and the centroid shift of each iteration as binary64 bit
//! patterns. The control answers every report with the next thing to do.

use vstd::prelude::*;
use crate::float_order::{float_lt, is_nan, lt, POSITIVE_INFINITY, lemma_lt_irreflexive, lemma_lt_transitive, lemma_lt_not_lt};

verus! {

/// Why a fit produced no model.
#[derive(Clone, Copy, Debug, PartialEq, Eq, Structural)]
pub enum KMeansError {
    /// No run improved on the initial infinite inertia.
    InertiaError,
    /// The run with the lowest inertia did not converge within the iteration
    /// limit; holds the number of runs that were asked for.
    NotConverged(usize),
}

/// Where a fit stands.
#[derive(Clone, Copy, Debug, PartialEq, Eq, Structural)]
pub enum Stage {
    /// A new run needs initial centroids.
    AwaitingRun,
    /// The current run needs one more assignment and update step.
    Iterating,
    /// All runs are done.
    Finished,
}

/// What the caller reports.
#[derive(Clone, Copy, Debug, PartialEq, Eq, Structural)]
pub enum FitEvent {
    /// The centroids of a new run have been initialised.
    RunInitialised,
    /// One assignment and update step was made: `inertia` is the sum of the
    /// squared distances of the observations to their closest centroid, and
    /// `shift` the squared distance between the old and the new centroids.
    IterationDone { inertia: u64, shift: u64 },
}

/// What the caller is to do next.
#[derive(Clone, Copy, Debug)]
pub enum FitNext {
    /// Initialise the centroids of a new run and report `RunInitialised`.
    InitRun,
    /// Make one assignment and update step and report `IterationDone`.
    Iterate,
    /// The fit is over, with this outcome.
    Finished(Result<(), KMeansError>),
}

/// The answer to a report.
#[derive(Clone, Copy, Debug)]
pub struct FitAction {
    /// The run that just ended has the lowest inertia so far: its current
    /// centroids become the best centroids.
    pub keep_centroids: bool,
    pub next: FitNext,
}

/// The state of a fit.
#[derive(Clone, Copy, Debug)]
pub struct FitState {
    pub n_runs: usize,
    pub max_n_iterations: u64,
    /// Bit pattern of the tolerance on the centroid shift.
    pub tolerance: u64,
    /// Runs that have ended.
    pub runs_done: usize,
    /// Steps made in the current run.
    pub n_iter: u64,
    /// Inertia of the current run (bit pattern).
    pub inertia: u64,
    /// The step at which the current run converged, if it did.
    pub converged_iter: Option<u64>,
    /// Lowest inertia of the ended runs, positive infinity at first.
    pub min_inertia: u64,
    /// Convergence step of the run that holds `min_inertia`.
    pub best_iter: Option<u64>,
    /// Whether some run has improved on the initial inertia.
    pub has_best: bool,
    pub stage: Stage,
}

/// The invariant of every state a fit goes through.
pub open spec fn fit_state_wf(s: FitState) -> bool {
    &&& s.runs_done <= s.n_runs
    &&& (s.stage == Stage::AwaitingRun ==> s.runs_done < s.n_runs)
    &&& (s.stage == Stage::Iterating ==> s.runs_done < s.n_runs && s.n_iter < s.max_n_iterations
        && s.converged_iter is None)
    &&& (s.stage == Stage::Finished ==> s.runs_done == s.n_runs)
    &&& (s.best_iter is Some ==> s.has_best)
}

/// The outcome reported once all runs are done: a model when the run with the
/// lowest inertia converged.
pub open spec fn fit_outcome(s: FitState) -> Result<(), KMeansError> {
    match s.best_iter {
        Some(_) => if s.has_best {
            Ok(())
        } else {
            Err(KMeansError::InertiaError)
        },
        None => Err(KMeansError::NotConverged(s.n_runs)),
    }
}

/// The first state of a fit and what to do first.
pub open spec fn fit_start(n_runs: usize, max_n_iterations: u64, tolerance: u64) -> (FitState, FitAction) {
    let s = FitState {
        n_runs,
        max_n_iterations,
        tolerance,
        runs_done: 0,
        n_iter: 0,
        inertia: POSITIVE_INFINITY,
        converged_iter: None,
        min_inertia: POSITIVE_INFINITY,
        best_iter: None,
        has_best: false,
        stage: Stage::AwaitingRun,
    };
    if n_runs == 0 {
        let f = FitState { stage: Stage::Finished, ..s };
        (f, FitAction { keep_centroids: false, next: FitNext::Finished(fit_outcome(f)) })
    } else {
        (s, FitAction { keep_centroids: false, next: FitNext::InitRun })
    }
}

/// The end of a run: its centroids are kept when its inertia is below the
/// lowest so far; then the next run starts, or the fit finishes.
pub open spec fn end_run(s: FitState) -> (FitState, FitAction) {
    let improved = float_lt(s.inertia, s.min_inertia);
    let kept = if improved {
        FitState { min_inertia: s.inertia, best_iter: s.converged_iter, has_best: true, ..s }
    } else {
        s
    };
    let done = FitState { runs_done: (kept.runs_done + 1) as usize, ..kept };
    if done.runs_done < done.n_runs {
        let t = FitState { stage: Stage::AwaitingRun, ..done };
        (t, FitAction { keep_centroids: improved, next: FitNext::InitRun })
    } else {
        let t = FitState { stage: Stage::Finished, ..done };
        (t, FitAction { keep_centroids: improved, next: FitNext::Finished(fit_outcome(t)) })
    }
}

/// What the state waits for, asked again when a report does not fit it.
pub open spec fn pending(s: FitState) -> FitNext {
    match s.stage {
        Stage::AwaitingRun => FitNext::InitRun,
        Stage::Iterating => FitNext::Iterate,
        Stage::Finished => FitNext::Finished(fit_outcome(s)),
    }
}

/// One transition of a fit. A new run starts from the lowest inertia so far
/// and iterates at most `max_n_iterations` times; it stops early at the first
/// step whose centroid shift is below the tolerance.
pub open spec fn fit_step(s: FitState, e: FitEvent) -> (FitState, FitAction) {
    match (s.stage, e) {
        (Stage::AwaitingRun, FitEvent::RunInitialised) => {
            let r = FitState { inertia: s.min_inertia, converged_iter: None, n_iter: 0, ..s };
            if s.max_n_iterations == 0 {
                end_run(r)
            } else {
                (FitState { stage: Stage::Iterating, ..r }, FitAction { keep_centroids: false, next: FitNext::Iterate })
            }
        },
        (Stage::Iterating, FitEvent::IterationDone { inertia, shift }) => {
            let r = FitState { inertia, n_iter: (s.n_iter + 1) as u64, ..s };
            if float_lt(shift, s.tolerance) {
                end_run(FitState { converged_iter: Some(s.n_iter), ..r })
            } else if s.n_iter + 1 == s.max_n_iterations {
                end_run(r)
            } else {
                (r, FitAction { keep_centroids: false, next: FitNext::Iterate })
            }
        },
        _ => (s, FitAction { keep_centroids: false, next: pending(s) }),
    }
}

fn outcome(s: &FitState) -> (r: Result<(), KMeansError>)
    ensures
        r == fit_outcome(*s),
{
    match s.best_iter {
        Some(_) => if s.has_best {
            Ok(())
        } else {
            Err(KMeansError::InertiaError)
        },
        None => Err(KMeansError::NotConverged(s.n_runs)),
    }
}

fn finish_run(s: FitState) -> (res: (FitState, FitAction))
    requires
        s.runs_done < s.n_runs,
    ensures
        res == end_run(s),
{
    let improved = lt(s.inertia, s.min_inertia);
    let kept = if improved {
        FitState { min_inertia: s.inertia, best_iter: s.converged_iter, has_best: true, ..s }
    } else {
        s
    };
    let done = FitState { runs_done: kept.runs_done + 1, ..kept };
    if done.runs_done < done.n_runs {
        let t = FitState { stage: Stage::AwaitingRun, ..done };
        (t, FitAction { keep_centroids: improved, next: FitNext::InitRun })
    } else {
        let t = FitState { stage: Stage::Finished, ..done };
        let o = outcome(&t);
        (t, FitAction { keep_centroids: improved, next: FitNext::Finished(o) })
    }
}

/// A fit in progress.
pub struct FitControl {
    state: FitState,
}

impl View for FitControl {
    type V = FitState;

    closed spec fn view(&self) -> FitState {
        self.state
    }
}

impl FitControl {
    #[verifier::type_invariant]
    spec fn inv(self) -> bool {
        fit_state_wf(self.state)
    }

    /// Starts a fit of `n_runs` runs of at most `max_n_iterations` steps each,
    /// a run converging when its centroid shift is below `tolerance` (a bit
    /// pattern).
    pub fn new(n_runs: usize, max_n_iterations: u64, tolerance: u64) -> (res: (FitControl, FitAction))
        ensures
            (res.0@, res.1) == fit_start(n_runs, max_n_iterations, tolerance),
    {
        let s = FitState {
            n_runs,
            max_n_iterations,
            tolerance,
            runs_done: 0,
            n_iter: 0,
            inertia: POSITIVE_INFINITY,
            converged_iter: None,
            min_inertia: POSITIVE_INFINITY,
            best_iter: None,
            has_best: false,
            stage: Stage::AwaitingRun,
        };
        if n_runs == 0 {
            let f = FitState { stage: Stage::Finished, ..s };
            let o = outcome(&f);
            (FitControl { state: f }, FitAction { keep_centroids: false, next: FitNext::Finished(o) })
        } else {
            (FitControl { state: s }, FitAction { keep_centroids: false, next: FitNext::InitRun })
        }
    }

    /// The current state.
    pub fn state(&self) -> (s: FitState)
        ensures
            s == self@,
            fit_state_wf(s),
    {
        proof {
            use_type_invariant(self);
        }
        self.state
    }

    /// Takes a report and answers with the next thing to do.
    pub fn step(&mut self, event: FitEvent) -> (action: FitAction)
        ensures
            (final(self)@, action) == fit_step(old(self)@, event),
    {
        proof {
            use_type_invariant(&*self);
        }
        let s = self.state;
        let (t, action) = match (s.stage, event) {
            (Stage::AwaitingRun, FitEvent::RunInitialised) => {
                let r = FitState { inertia: s.min_inertia, converged_iter: None, n_iter: 0, ..s };
                if s.max_n_iterations == 0 {
                    finish_run(r)
                } else {
                    (FitState { stage: Stage::Iterating, ..r }, FitAction { keep_centroids: false, next: FitNext::Iterate })
                }
            },
            (Stage::Iterating, FitEvent::IterationDone { inertia, shift }) => {
                let r = FitState { inertia, n_iter: s.n_iter + 1, ..s };
                if lt(shift, s.tolerance) {
                    finish_run(FitState { converged_iter: Some(s.n_iter), ..r })
                } else if s.n_iter + 1 == s.max_n_iterations {
                    finish_run(r)
                } else {
                    (r, FitAction { keep_centroids: false, next: FitNext::Iterate })
                }
            },
            _ => {
                let next = match s.stage {
                    Stage::AwaitingRun => FitNext::InitRun,
                    Stage::Iterating => FitNext::Iterate,
                    Stage::Finished => FitNext::Finished(outcome(&s)),
                };
                (s, FitAction { keep_centroids: false, next })
            },
        };
        proof {
            lemma_fit_step_wf(s, event);
        }
        self.state = t;
        action
    }
}

/// The first state satisfies the invariant.
pub proof fn lemma_fit_start_wf(n_runs: usize, max_n_iterations: u64, tolerance: u64)
    ensures
        fit_state_wf(fit_start(n_runs, max_n_iterations, tolerance).0),
{
}

/// Every transition keeps the invariant: runs never exceed `n_runs`, a run
/// never makes more than `max_n_iterations` steps, and a convergence step is
/// only ever recorded together with the run that holds the lowest inertia.
pub proof fn lemma_fit_step_wf(s: FitState, e: FitEvent)
    requires
        fit_state_wf(s),
    ensures
        fit_state_wf(fit_step(s, e).0),
{
}

/// Whether a report is the one the state waits for.
pub open spec fn accepts(s: FitState, e: FitEvent) -> bool {
    ||| (s.stage == Stage::AwaitingRun && e is RunInitialised)
    ||| (s.stage == Stage::Iterating && e is IterationDone)
}

/// How much work is left at most: every run still to end can take one
/// initialisation and `max_n_iterations` steps.
pub open spec fn work_left(s: FitState) -> int {
    (s.n_runs - s.runs_done) * (s.max_n_iterations + 2) - (if s.stage == Stage::Iterating {
        s.n_iter + 1
    } else {
        0
    })
}

/// A fit never reports `InertiaError`: the convergence step that decides
/// success is only recorded by a run that lowered the inertia.
pub proof fn lemma_no_inertia_error(s: FitState, e: FitEvent, n_runs: usize, max_n_iterations: u64, tolerance: u64)
    requires
        fit_state_wf(s),
    ensures
        !(fit_step(s, e).1.next matches FitNext::Finished(Err(KMeansError::InertiaError))),
        !(fit_start(n_runs, max_n_iterations, tolerance).1.next matches FitNext::Finished(Err(KMeansError::InertiaError))),
{
}

/// A fit that finishes yields a model exactly when the run with the lowest
/// inertia converged; otherwise it reports `NotConverged` with the number of
/// runs asked for.
pub proof fn lemma_outcome(s: FitState, e: FitEvent)
    requires
        fit_state_wf(s),
        fit_step(s, e).1.next is Finished,
    ensures
        fit_step(s, e).1.next == FitNext::Finished(fit_outcome(fit_step(s, e).0)),
        fit_outcome(fit_step(s, e).0) is Ok <==> fit_step(s, e).0.best_iter is Some,
        fit_step(s, e).0.best_iter is None ==> fit_outcome(fit_step(s, e).0) == Err::<(), KMeansError>(
            KMeansError::NotConverged(s.n_runs),
        ),
{
}

/// The lowest inertia never goes up, and the caller is told to keep its
/// centroids exactly when a run has brought it strictly down.
pub proof fn lemma_min_inertia_decreases(s: FitState, e: FitEvent)
    requires
        fit_state_wf(s),
    ensures
        fit_step(s, e).0.min_inertia == s.min_inertia || float_lt(fit_step(s, e).0.min_inertia, s.min_inertia),
        fit_step(s, e).1.keep_centroids <==> float_lt(fit_step(s, e).0.min_inertia, s.min_inertia),
{
    crate::float_order::lemma_lt_irreflexive(s.min_inertia);
}

/// Every report the state waits for brings the fit strictly closer to its end,
/// and the work left is never negative: a fit asks for at most `n_runs`
/// initialisations and `n_runs * max_n_iterations` steps, and then finishes.
/// Any other report changes nothing.
pub proof fn lemma_fit_progress(s: FitState, e: FitEvent)
    requires
        fit_state_wf(s),
    ensures
        work_left(s) >= 0,
        s.stage == Stage::Finished ==> work_left(s) == 0,
        accepts(s, e) ==> work_left(fit_step(s, e).0) < work_left(s),
        !accepts(s, e) ==> fit_step(s, e).0 == s,
{
    let n = s.n_runs - s.runs_done;
    let m = s.max_n_iterations + 2;
    assert(n * m >= 0) by (nonlinear_arith)
        requires
            n >= 0,
            m >= 0,
    ;
    if s.stage == Stage::Iterating {
        assert(n * m >= m) by (nonlinear_arith)
            requires
                n >= 1,
                m >= 0,
        ;
    }
    if s.stage == Stage::Finished {
        assert(n * m == 0) by (nonlinear_arith)
            requires
                n == 0,
        ;
    }
    if accepts(s, e) {
        assert(n * m == (n - 1) * m + m) by (nonlinear_arith);
    }
}

/// What is known of a run once it has ended.
#[derive(Clone, Copy, Debug)]
pub struct RunRecord {
    /// The inertia the run ended with (bit pattern).
    pub inertia: u64,
    /// The step at which it converged, if it did.
    pub converged_iter: Option<u64>,
    /// Whether its centroids were kept.
    pub kept: bool,
}

/// The run that a report ends, if it ends one.
pub open spec fn ended_run(s: FitState, e: FitEvent) -> Option<RunRecord> {
    let kept = fit_step(s, e).1.keep_centroids;
    match (s.stage, e) {
        (Stage::AwaitingRun, FitEvent::RunInitialised) => if s.max_n_iterations == 0 {
            Some(RunRecord { inertia: s.min_inertia, converged_iter: None, kept })
        } else {
            None
        },
        (Stage::Iterating, FitEvent::IterationDone { inertia, shift }) => if float_lt(shift, s.tolerance) {
            Some(RunRecord { inertia, converged_iter: Some(s.n_iter), kept })
        } else if s.n_iter + 1 == s.max_n_iterations {
            Some(RunRecord { inertia, converged_iter: None, kept })
        } else {
            None
        },
        _ => None,
    }
}

/// The state after a sequence of reports.
pub open spec fn fit_trace(s: FitState, events: Seq<FitEvent>) -> FitState
    decreases events.len(),
{
    if events.len() == 0 {
        s
    } else {
        fit_step(fit_trace(s, events.drop_last()), events.last()).0
    }
}

/// The runs ended by a sequence of reports, in order.
pub open spec fn run_records(s: FitState, events: Seq<FitEvent>) -> Seq<RunRecord>
    decreases events.len(),
{
    if events.len() == 0 {
        Seq::empty()
    } else {
        let prev = run_records(s, events.drop_last());
        match ended_run(fit_trace(s, events.drop_last()), events.last()) {
            Some(r) => prev.push(r),
            None => prev,
        }
    }
}

/// Index of the last run whose centroids were kept, -1 if none was.
pub open spec fn last_kept(runs: Seq<RunRecord>) -> int
    decreases runs.len(),
{
    if runs.len() == 0 {
        -1
    } else if runs.last().kept {
        runs.len() - 1
    } else {
        last_kept(runs.drop_last())
    }
}

/// The lowest inertia kept before run `j`: that of the last run kept among
/// the first `j`, positive infinity if none was.
pub open spec fn min_before(runs: Seq<RunRecord>, j: int) -> u64 {
    let k = last_kept(runs.take(j));
    if k >= 0 {
        runs[k].inertia
    } else {
        POSITIVE_INFINITY
    }
}

/// How a state relates to the runs that led to it.
pub open spec fn trace_inv(t: FitState, runs: Seq<RunRecord>) -> bool {
    &&& fit_state_wf(t)
    &&& runs.len() == t.runs_done
    &&& -1 <= last_kept(runs) < runs.len()
    &&& forall|j: int| 0 <= j < runs.len() ==> !float_lt(#[trigger] runs[j].inertia, t.min_inertia)
    &&& (t.has_best <==> last_kept(runs) >= 0)
    &&& (last_kept(runs) < 0 ==> t.best_iter is None && t.min_inertia == POSITIVE_INFINITY)
    &&& forall|j: int| 0 <= j < runs.len() ==> ((#[trigger] runs[j]).kept <==> float_lt(runs[j].inertia, min_before(runs, j)))
    &&& (last_kept(runs) >= 0 ==> {
        &&& runs[last_kept(runs)].inertia == t.min_inertia
        &&& t.best_iter == runs[last_kept(runs)].converged_iter
        &&& forall|i: int| 0 <= i < last_kept(runs) ==> is_nan(#[trigger] runs[i].inertia) || float_lt(t.min_inertia, runs[i].inertia)
    })
}

proof fn lemma_last_kept_push(runs: Seq<RunRecord>, r: RunRecord)
    ensures
        last_kept(runs.push(r)) == if r.kept { runs.len() as int } else { last_kept(runs) },
{
    assert(runs.push(r).drop_last() =~= runs);
}

proof fn lemma_last_kept_range(runs: Seq<RunRecord>)
    ensures
        -1 <= last_kept(runs) < runs.len(),
        last_kept(runs) >= 0 ==> runs[last_kept(runs)].kept,
    decreases runs.len(),
{
    if runs.len() > 0 {
        lemma_last_kept_range(runs.drop_last());
    }
}

proof fn lemma_trace_inv_step(t: FitState, runs: Seq<RunRecord>, e: FitEvent)
    requires
        trace_inv(t, runs),
    ensures
        trace_inv(
            fit_step(t, e).0,
            match ended_run(t, e) {
                Some(r) => runs.push(r),
                None => runs,
            },
        ),
{
    lemma_fit_step_wf(t, e);
    let u = fit_step(t, e).0;
    match ended_run(t, e) {
        Some(r) => {
            let runs2 = runs.push(r);
            lemma_last_kept_push(runs, r);
            let old_min = t.min_inertia;
            let x = r.inertia;
            let improved = float_lt(x, old_min);
            assert(r.kept == improved);
            lemma_last_kept_range(runs);
            assert(runs2.take(runs.len() as int) =~= runs);
            assert(min_before(runs2, runs.len() as int) == old_min);
            assert forall|j: int| 0 <= j < runs2.len() implies ((#[trigger] runs2[j]).kept <==> float_lt(runs2[j].inertia, min_before(runs2, j))) by {
                if j < runs.len() {
                    assert(runs2.take(j) =~= runs.take(j));
                    assert(runs2[j] == runs[j]);
                    lemma_last_kept_range(runs.take(j));
                    if last_kept(runs.take(j)) >= 0 {
                        assert(runs2[last_kept(runs.take(j))] == runs[last_kept(runs.take(j))]);
                    }
                }
            }
            if improved {
                assert(u.min_inertia == x);
                assert forall|j: int| 0 <= j < runs2.len() implies !float_lt(#[trigger] runs2[j].inertia, u.min_inertia) by {
                    if j < runs.len() {
                        if float_lt(runs[j].inertia, x) {
                            lemma_lt_transitive(runs[j].inertia, x, old_min);
                        }
                    } else {
                        lemma_lt_irreflexive(x);
                    }
                }
                assert forall|i: int| 0 <= i < last_kept(runs2) implies is_nan(#[trigger] runs2[i].inertia) || float_lt(u.min_inertia, runs2[i].inertia) by {
                    assert(runs2[i] == runs[i]);
                    if !is_nan(runs[i].inertia) {
                        lemma_lt_not_lt(x, old_min, runs[i].inertia);
                    }
                }
            } else {
                assert(u.min_inertia == old_min);
                assert forall|j: int| 0 <= j < runs2.len() implies !float_lt(#[trigger] runs2[j].inertia, u.min_inertia) by {
                    if j < runs.len() {
                        assert(runs2[j] == runs[j]);
                    }
                }
                if last_kept(runs) >= 0 {
                    assert(runs2[last_kept(runs)] == runs[last_kept(runs)]);
                    assert forall|i: int| 0 <= i < last_kept(runs2) implies is_nan(#[trigger] runs2[i].inertia) || float_lt(u.min_inertia, runs2[i].inertia) by {
                        assert(runs2[i] == runs[i]);
                    }
                }
            }
        },
        None => {},
    }
}

proof fn lemma_trace_inv(s: FitState, events: Seq<FitEvent>)
    requires
        trace_inv(s, Seq::empty()),
    ensures
        trace_inv(fit_trace(s, events), run_records(s, events)),
        fit_trace(s, events).n_runs == s.n_runs,
    decreases events.len(),
{
    if events.len() > 0 {
        lemma_trace_inv(s, events.drop_last());
        lemma_trace_inv_step(fit_trace(s, events.drop_last()), run_records(s, events.drop_last()), events.last());
    }
}

/// Over any sequence of reports from the start of a fit: every ended run is
/// recorded; no run ended with an inertia below the lowest one kept; the
/// centroids kept last belong to a run with exactly that inertia, and every
/// earlier run (NaN inertias aside) ended strictly above it, so among equal
/// inertias the earliest run is the one kept; the fit succeeds exactly when
/// that run converged, and otherwise reports `NotConverged`; `InertiaError`
/// never occurs; and a finished fit has ended all `n_runs` runs.
pub proof fn lemma_fit_runs(n_runs: usize, max_n_iterations: u64, tolerance: u64, events: Seq<FitEvent>)
    ensures
        ({
            let t = fit_trace(fit_start(n_runs, max_n_iterations, tolerance).0, events);
            let runs = run_records(fit_start(n_runs, max_n_iterations, tolerance).0, events);
            let k = last_kept(runs);
            &&& fit_state_wf(t)
            &&& runs.len() == t.runs_done
            &&& (t.stage == Stage::Finished ==> runs.len() == n_runs)
            &&& forall|j: int| 0 <= j < runs.len() ==> !float_lt(#[trigger] runs[j].inertia, t.min_inertia)
            &&& -1 <= k < runs.len()
            &&& (k >= 0 ==> runs[k].kept && runs[k].inertia == t.min_inertia)
            &&& (k >= 0 ==> forall|i: int| 0 <= i < k ==> is_nan(#[trigger] runs[i].inertia) || float_lt(t.min_inertia, runs[i].inertia))
            &&& forall|j: int| 0 <= j < runs.len() ==> ((#[trigger] runs[j]).kept <==> float_lt(runs[j].inertia, min_before(runs, j)))
            &&& (runs.len() > 0 ==> (runs[0].kept <==> float_lt(runs[0].inertia, POSITIVE_INFINITY)))
            &&& (k < 0 ==> t.min_inertia == POSITIVE_INFINITY)
            &&& (fit_outcome(t) is Ok <==> k >= 0 && runs[k].converged_iter is Some)
            &&& (fit_outcome(t) is Err ==> fit_outcome(t) == Err::<(), KMeansError>(KMeansError::NotConverged(n_runs)))
        }),
{
    let s = fit_start(n_runs, max_n_iterations, tolerance).0;
    assert(last_kept(Seq::<RunRecord>::empty()) == -1);
    lemma_trace_inv(s, events);
    let runs = run_records(s, events);
    lemma_last_kept_range(runs);
    if runs.len() > 0 {
        assert(runs.take(0) =~= Seq::<RunRecord>::empty());
        assert(min_before(runs, 0) == POSITIVE_INFINITY);
    }
}

/// A new fit keeps the settings it was given, has ended no run, and starts
/// from a lowest inertia of positive infinity with nothing kept; it asks for
/// the first run's centroids, or, with no run to make, fails at once.
pub proof fn lemma_fit_start(n_runs: usize, max_n_iterations: u64, tolerance: u64)
    ensures
        ({
            let (s, a) = fit_start(n_runs, max_n_iterations, tolerance);
            &&& s.n_runs == n_runs
            &&& s.max_n_iterations == max_n_iterations
            &&& s.tolerance == tolerance
            &&& s.runs_done == 0
            &&& s.min_inertia == POSITIVE_INFINITY
            &&& s.best_iter is None
            &&& !s.has_best
            &&& !a.keep_centroids
            &&& fit_state_wf(s)
            &&& (n_runs > 0 ==> a.next == FitNext::InitRun && s.stage == Stage::AwaitingRun)
            &&& (n_runs == 0 ==> s.stage == Stage::Finished && a.next == FitNext::Finished(
                Err::<(), KMeansError>(KMeansError::NotConverged(0)),
            ))
        }),
{
}

/// What one report does, in terms of the report and the state before it:
/// - the settings never change, and at most one run ends;
/// - the fit finishes only once all `n_runs` runs have ended; a run that ends
///   while runs remain is answered with `InitRun`;
/// - a step whose centroid shift is below the tolerance ends its run as
///   converged at that step; otherwise the run goes on, with `Iterate`, until
///   exactly `max_n_iterations` steps are made;
/// - the centroids are kept exactly when an ended run's inertia is strictly
///   below the lowest inertia so far, which then becomes that inertia, and the
///   run's convergence step becomes the one that decides success; otherwise
///   the lowest inertia and the kept run stay as they were.
pub proof fn lemma_fit_step(s: FitState, e: FitEvent)
    requires
        fit_state_wf(s),
    ensures
        ({
            let (t, a) = fit_step(s, e);
            &&& t.n_runs == s.n_runs
            &&& t.max_n_iterations == s.max_n_iterations
            &&& t.tolerance == s.tolerance
            &&& (t.runs_done == s.runs_done || t.runs_done == s.runs_done + 1)
            &&& (a.next is Finished ==> t.stage == Stage::Finished && t.runs_done == s.n_runs)
            &&& (a.next is InitRun ==> t.stage == Stage::AwaitingRun && t.runs_done < s.n_runs)
            &&& (a.next is Iterate ==> t.stage == Stage::Iterating)
            &&& (t.runs_done == s.runs_done + 1 && t.runs_done < s.n_runs ==> a.next == FitNext::InitRun)
            &&& (s.stage == Stage::AwaitingRun && e is RunInitialised ==> {
                &&& (s.max_n_iterations > 0 ==> t.runs_done == s.runs_done && a.next == FitNext::Iterate
                    && t.n_iter == 0)
                &&& (s.max_n_iterations == 0 ==> t.runs_done == s.runs_done + 1)
            })
            &&& (s.stage == Stage::Iterating ==> (e matches FitEvent::IterationDone { inertia, shift } ==> {
                &&& (float_lt(shift, s.tolerance) ==> t.runs_done == s.runs_done + 1)
                &&& (!float_lt(shift, s.tolerance) && s.n_iter + 1 < s.max_n_iterations ==> t.runs_done
                    == s.runs_done && a.next == FitNext::Iterate && t.n_iter == s.n_iter + 1)
                &&& (!float_lt(shift, s.tolerance) && s.n_iter + 1 == s.max_n_iterations ==> t.runs_done
                    == s.runs_done + 1)
                &&& (t.runs_done == s.runs_done + 1 ==> (a.keep_centroids <==> float_lt(inertia, s.min_inertia)))
                &&& (a.keep_centroids ==> t.min_inertia == inertia && t.has_best && t.best_iter == (if float_lt(
                    shift,
                    s.tolerance,
                ) {
                    Some(s.n_iter)
                } else {
                    None
                }))
            }))
            &&& (e is RunInitialised ==> !a.keep_centroids)
            &&& (!a.keep_centroids ==> t.min_inertia == s.min_inertia && t.best_iter == s.best_iter
                && t.has_best == s.has_best)
            &&& (t.runs_done == s.runs_done ==> !a.keep_centroids)
        }),
{
    lemma_lt_irreflexive(s.min_inertia);
}

} // verus!
