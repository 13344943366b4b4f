//! Control of the iterative solvers and estimators.
//!
//! The numerical work of a solver (products, norms, quotients) is done by
//! whoever drives it. What is decided here is what the driver does next: go
//! on, restart with regularization, or stop and return what it has. The driver
//! reports what it observed and is told the next action.
use crate::float::{FloatParts, RawFloat};
use vstd::prelude::*;

verus! {

/// The regularization weight used when conjugate gradient restarts: the
/// double nearest to `1e-10`, held exactly at 53 bits.
pub open spec fn tikhonov_lambda_parts() -> FloatParts {
    FloatParts { prec: 53, negative: false, exp: (-33i64), limbs: seq![0xdbe6_fece_bded_d800u64] }
}

/// The residual tolerance of conjugate gradient: the double nearest to
/// `1e-30`, held exactly at 53 bits.
pub open spec fn cg_epsilon_parts() -> FloatParts {
    FloatParts { prec: 53, negative: false, exp: (-99i64), limbs: seq![0xa242_5ff7_5e15_0000u64] }
}

/// The step size of the gradient solve inside the smallest-singular-value
/// estimate: the double nearest to `1e-3`, held exactly at 53 bits.
pub open spec fn inverse_step_parts() -> FloatParts {
    FloatParts { prec: 53, negative: false, exp: (-9i64), limbs: seq![0x8312_6e97_8d4f_e000u64] }
}

/// Iterations of the gradient solve inside the smallest-singular-value
/// estimate.
pub const INVERSE_SOLVE_ITERS: usize = 20;

pub fn tikhonov_lambda() -> (out: RawFloat)
    ensures
        out@ == tikhonov_lambda_parts(),
{
    RawFloat::from_limb(53, false, -33, 0xdbe6_fece_bded_d800)
}

pub fn cg_epsilon() -> (out: RawFloat)
    ensures
        out@ == cg_epsilon_parts(),
{
    RawFloat::from_limb(53, false, -99, 0xa242_5ff7_5e15_0000)
}

pub fn inverse_step() -> (out: RawFloat)
    ensures
        out@ == inverse_step_parts(),
{
    RawFloat::from_limb(53, false, -9, 0x8312_6e97_8d4f_e000)
}

/// What the conjugate-gradient controller waits for.
#[derive(Clone, Copy, Debug, PartialEq, Eq)]
pub enum CgPhase {
    /// The denominator of the step length, the product of the search
    /// direction with its image.
    AwaitDenominator,
    /// Whether the squared residual fell below the tolerance.
    AwaitResidual,
    /// Nothing: the solver has stopped.
    Done,
}

/// What the driver observed.
#[derive(Clone, Copy, Debug, PartialEq, Eq)]
pub enum CgEvent {
    Denominator { zero: bool },
    Residual { converged: bool },
}

/// What the driver does next.
#[derive(Clone, Copy, Debug, PartialEq, Eq)]
pub enum CgAction {
    /// Apply the operator to the search direction and report the denominator.
    ComputeDenominator,
    /// Take the step: update the iterate and the residual, then report
    /// whether the squared residual is below the tolerance.
    UpdateIterate,
    /// Form the next search direction, then apply the operator to it and
    /// report the denominator.
    UpdateDirection,
    /// Start over on the regularized normal equations, from the zero iterate,
    /// then report the denominator.
    RestartRegularized,
    /// Return the iterate as it is.
    Return,
}

/// State of one conjugate-gradient solve.
#[derive(Clone, Copy, Debug, PartialEq, Eq)]
pub struct CgControl {
    /// Iteration budget of a run, plain or regularized.
    pub max_iters: usize,
    /// Iterations of the current run that are still allowed, the one in
    /// progress included.
    pub remaining: usize,
    /// Whether the current run is the regularized one.
    pub regularized: bool,
    pub phase: CgPhase,
}

impl CgControl {
    /// A running solve has an iteration left, and never more than its budget.
    pub open spec fn inv(self) -> bool {
        &&& self.remaining <= self.max_iters
        &&& !(self.phase is Done) ==> self.remaining >= 1
    }

    /// The state a solve starts in.
    pub open spec fn initial(max_iters: usize) -> CgControl {
        CgControl {
            max_iters,
            remaining: max_iters,
            regularized: false,
            phase: if max_iters == 0 {
                CgPhase::Done
            } else {
                CgPhase::AwaitDenominator
            },
        }
    }

    /// The state a solve starts in when it is regularized from the outset.
    pub open spec fn initial_regularized(max_iters: usize) -> CgControl {
        CgControl { regularized: true, ..CgControl::initial(max_iters) }
    }

    /// The action that the state is waiting on.
    pub open spec fn pending(self) -> CgAction {
        match self.phase {
            CgPhase::AwaitDenominator => CgAction::ComputeDenominator,
            CgPhase::AwaitResidual => CgAction::UpdateIterate,
            CgPhase::Done => CgAction::Return,
        }
    }

    /// Whether the event answers what the state waits for.
    pub open spec fn expects(self, e: CgEvent) -> bool {
        match (self.phase, e) {
            (CgPhase::AwaitDenominator, CgEvent::Denominator { .. }) => true,
            (CgPhase::AwaitResidual, CgEvent::Residual { .. }) => true,
            _ => false,
        }
    }

    /// The transition. A zero denominator restarts a plain run as a
    /// regularized one and stops a regularized run. A converged residual
    /// stops; so does the end of the budget. An event that the state does not
    /// wait for changes nothing and has the pending action repeated.
    pub open spec fn step(self, e: CgEvent) -> (CgControl, CgAction) {
        match (self.phase, e) {
            (CgPhase::AwaitDenominator, CgEvent::Denominator { zero }) => {
                if !zero {
                    (CgControl { phase: CgPhase::AwaitResidual, ..self }, CgAction::UpdateIterate)
                } else if !self.regularized {
                    (
                        CgControl {
                            remaining: self.max_iters,
                            regularized: true,
                            phase: CgPhase::AwaitDenominator,
                            ..self
                        },
                        CgAction::RestartRegularized,
                    )
                } else {
                    (CgControl { phase: CgPhase::Done, ..self }, CgAction::Return)
                }
            },
            (CgPhase::AwaitResidual, CgEvent::Residual { converged }) => {
                if converged || self.remaining <= 1 {
                    (CgControl { phase: CgPhase::Done, ..self }, CgAction::Return)
                } else {
                    (
                        CgControl {
                            remaining: (self.remaining - 1) as usize,
                            phase: CgPhase::AwaitDenominator,
                            ..self
                        },
                        CgAction::UpdateDirection,
                    )
                }
            },
            _ => (self, self.pending()),
        }
    }

    /// An upper bound on the events that the solve can still take.
    pub open spec fn budget(self) -> int {
        if self.phase is Done {
            0
        } else {
            (if self.regularized {
                0
            } else {
                2 * self.max_iters + 1
            }) + 2 * self.remaining - (if self.phase is AwaitResidual {
                1int
            } else {
                0int
            })
        }
    }

    /// The state after a sequence of events.
    pub open spec fn run(self, events: Seq<CgEvent>) -> CgControl
        decreases events.len(),
    {
        if events.len() == 0 {
            self
        } else {
            self.step(events[0]).0.run(events.skip(1))
        }
    }

    /// Whether each event of the sequence answers what the solve waits for
    /// when the event arrives.
    pub open spec fn accepts(self, events: Seq<CgEvent>) -> bool
        decreases events.len(),
    {
        events.len() == 0 || (self.expects(events[0]) && self.step(events[0]).0.accepts(
            events.skip(1),
        ))
    }

    /// Number of restarts that a sequence of events causes.
    pub open spec fn restarts(self, events: Seq<CgEvent>) -> nat
        decreases events.len(),
    {
        if events.len() == 0 {
            0
        } else {
            (if self.step(events[0]).1 is RestartRegularized {
                1nat
            } else {
                0nat
            }) + self.step(events[0]).0.restarts(events.skip(1))
        }
    }

    /// Begins a solve with the given iteration budget.
    pub fn start(max_iters: usize) -> (out: (CgControl, CgAction))
        ensures
            out.0 == CgControl::initial(max_iters),
            out.1 == out.0.pending(),
            out.0.inv(),
    {
        if max_iters == 0 {
            (
                CgControl { max_iters, remaining: 0, regularized: false, phase: CgPhase::Done },
                CgAction::Return,
            )
        } else {
            (
                CgControl {
                    max_iters,
                    remaining: max_iters,
                    regularized: false,
                    phase: CgPhase::AwaitDenominator,
                },
                CgAction::ComputeDenominator,
            )
        }
    }

    /// Begins a solve that is regularized from the outset: a zero denominator
    /// stops it.
    pub fn start_regularized(max_iters: usize) -> (out: (CgControl, CgAction))
        ensures
            out.0 == CgControl::initial_regularized(max_iters),
            out.1 == out.0.pending(),
            out.0.inv(),
    {
        let (plain, action) = CgControl::start(max_iters);
        (
            CgControl {
                max_iters: plain.max_iters,
                remaining: plain.remaining,
                regularized: true,
                phase: plain.phase,
            },
            action,
        )
    }

    fn pending_action(&self) -> (out: CgAction)
        ensures
            out == self.pending(),
    {
        match self.phase {
            CgPhase::AwaitDenominator => CgAction::ComputeDenominator,
            CgPhase::AwaitResidual => CgAction::UpdateIterate,
            CgPhase::Done => CgAction::Return,
        }
    }

    /// Takes the denominator of the step length. It counts as zero exactly
    /// when it is a zero of either sign.
    pub fn on_denominator(&mut self, denom: &RawFloat) -> (action: CgAction)
        ensures
            (*final(self), action) == old(self).step(
                CgEvent::Denominator { zero: denom@.is_zero() },
            ),
    {
        match self.phase {
            CgPhase::AwaitDenominator => {
                if !denom.is_zero() {
                    self.phase = CgPhase::AwaitResidual;
                    CgAction::UpdateIterate
                } else if !self.regularized {
                    self.remaining = self.max_iters;
                    self.regularized = true;
                    CgAction::RestartRegularized
                } else {
                    self.phase = CgPhase::Done;
                    CgAction::Return
                }
            },
            _ => self.pending_action(),
        }
    }

    /// Takes the outcome of the residual test.
    pub fn on_residual(&mut self, converged: bool) -> (action: CgAction)
        ensures
            (*final(self), action) == old(self).step(CgEvent::Residual { converged }),
    {
        match self.phase {
            CgPhase::AwaitResidual => {
                if converged || self.remaining <= 1 {
                    self.phase = CgPhase::Done;
                    CgAction::Return
                } else {
                    self.remaining = self.remaining - 1;
                    self.phase = CgPhase::AwaitDenominator;
                    CgAction::UpdateDirection
                }
            },
            _ => self.pending_action(),
        }
    }

    /// Whether the solve has stopped.
    pub fn is_done(&self) -> (done: bool)
        ensures
            done == (self.phase is Done),
    {
        match self.phase {
            CgPhase::Done => true,
            _ => false,
        }
    }
}

/// Every expected event brings the solve nearer to its end.
pub proof fn lemma_cg_step_decreases(s: CgControl, e: CgEvent)
    requires
        s.inv(),
        s.expects(e),
    ensures
        s.step(e).0.inv(),
        0 <= s.step(e).0.budget() < s.budget(),
{
}

/// A step keeps the state valid and keeps its iteration budget, and a
/// regularized solve stays regularized.
pub proof fn lemma_cg_step_keeps(s: CgControl, e: CgEvent)
    requires
        s.inv(),
    ensures
        s.step(e).0.inv(),
        s.step(e).0.max_iters == s.max_iters,
        s.regularized ==> s.step(e).0.regularized,
        s.step(e).1 is RestartRegularized <==> (!s.regularized && s.phase is AwaitDenominator && e
            == (CgEvent::Denominator { zero: true })),
        s.step(e).1 is RestartRegularized ==> s.step(e).0.regularized,
{
}

/// The solve ends: a sequence of expected events is no longer than the
/// budget of the state that it starts from, which for a fresh solve is
/// `4 * max_iters + 1`.
pub proof fn lemma_cg_run_bounded(s: CgControl, events: Seq<CgEvent>)
    requires
        s.inv(),
        s.accepts(events),
    ensures
        events.len() <= s.budget(),
        s.budget() <= 4 * s.max_iters + 1,
    decreases events.len(),
{
    if events.len() > 0 {
        lemma_cg_step_decreases(s, events[0]);
        lemma_cg_run_bounded(s.step(events[0]).0, events.skip(1));
    }
}

/// Regularization is tried once: whatever the events, there is at most one
/// restart, and none once the solve is regularized.
pub proof fn lemma_cg_single_restart(s: CgControl, events: Seq<CgEvent>)
    requires
        s.inv(),
    ensures
        s.restarts(events) <= 1,
        s.regularized ==> s.restarts(events) == 0,
    decreases events.len(),
{
    if events.len() > 0 {
        lemma_cg_step_keeps(s, events[0]);
        lemma_cg_single_restart(s.step(events[0]).0, events.skip(1));
    }
}

/// Mathematical model of a running estimate.
pub struct EstimateState {
    /// Iterations still allowed.
    pub remaining: nat,
    /// The latest estimate.
    pub estimate: FloatParts,
    pub done: bool,
}

impl EstimateState {
    pub open spec fn initial(max_iters: nat, first: FloatParts) -> EstimateState {
        EstimateState { remaining: max_iters, estimate: first, done: max_iters == 0 }
    }

    /// One iteration brought `estimate`, and `converged` says whether it is
    /// within the tolerance of the one before. The new estimate is kept in
    /// either case; the iteration goes on only if it did not converge and the
    /// budget is not used up.
    pub open spec fn report(self, estimate: FloatParts, converged: bool) -> EstimateState {
        if self.done {
            self
        } else {
            EstimateState {
                remaining: if self.remaining >= 1 {
                    (self.remaining - 1) as nat
                } else {
                    0
                },
                estimate,
                done: converged || self.remaining <= 1,
            }
        }
    }

    /// The state after a sequence of reports.
    pub open spec fn run(self, reports: Seq<(FloatParts, bool)>) -> EstimateState
        decreases reports.len(),
    {
        if reports.len() == 0 {
            self
        } else {
            self.report(reports[0].0, reports[0].1).run(reports.skip(1))
        }
    }
}

/// What an estimator returns when its iterations report `reports` in turn:
/// the first estimate that converged, or else the estimate of the last
/// iteration that the budget allows, or else, with no iteration at all, the
/// value it started from.
pub open spec fn selected_estimate(
    first: FloatParts,
    reports: Seq<(FloatParts, bool)>,
    max_iters: nat,
) -> FloatParts
    decreases reports.len(),
{
    if max_iters == 0 || reports.len() == 0 {
        first
    } else if reports[0].1 {
        reports[0].0
    } else {
        selected_estimate(reports[0].0, reports.skip(1), (max_iters - 1) as nat)
    }
}

/// An estimator that has stopped keeps its estimate.
pub proof fn lemma_estimate_done_stays(s: EstimateState, reports: Seq<(FloatParts, bool)>)
    requires
        s.done,
    ensures
        s.run(reports) == s,
    decreases reports.len(),
{
    if reports.len() > 0 {
        lemma_estimate_done_stays(s, reports.skip(1));
    }
}

/// Running the estimator over a sequence of reports leaves it with the
/// selected estimate.
pub proof fn lemma_estimate_run(first: FloatParts, reports: Seq<(FloatParts, bool)>, max_iters: nat)
    ensures
        EstimateState::initial(max_iters, first).run(reports).estimate == selected_estimate(
            first,
            reports,
            max_iters,
        ),
    decreases reports.len(),
{
    let start = EstimateState::initial(max_iters, first);
    if max_iters == 0 {
        lemma_estimate_done_stays(start, reports);
    } else if reports.len() > 0 {
        let next = start.report(reports[0].0, reports[0].1);
        if reports[0].1 {
            lemma_estimate_done_stays(next, reports.skip(1));
        } else {
            assert(next == EstimateState::initial((max_iters - 1) as nat, reports[0].0));
            lemma_estimate_run(reports[0].0, reports.skip(1), (max_iters - 1) as nat);
        }
    }
}

/// Control of a power iteration: it holds the latest estimate and says
/// whether another iteration is due. Running out of iterations is no error;
/// the latest estimate is then the result.
#[derive(Debug)]
pub struct EstimateControl {
    pub remaining: usize,
    pub estimate: RawFloat,
    pub done: bool,
}

impl View for EstimateControl {
    type V = EstimateState;

    open spec fn view(&self) -> EstimateState {
        EstimateState {
            remaining: self.remaining as nat,
            estimate: self.estimate@,
            done: self.done,
        }
    }
}

impl EstimateControl {
    /// Begins an estimate that may take `max_iters` iterations and is `first`
    /// before any of them.
    pub fn start(max_iters: usize, first: RawFloat) -> (out: EstimateControl)
        ensures
            out@ == EstimateState::initial(max_iters as nat, first@),
    {
        EstimateControl { remaining: max_iters, estimate: first, done: max_iters == 0 }
    }

    /// Takes the estimate of one iteration. Returns whether another
    /// iteration is due.
    pub fn report(&mut self, estimate: RawFloat, converged: bool) -> (more: bool)
        ensures
            final(self)@ == old(self)@.report(estimate@, converged),
            more == !final(self)@.done,
    {
        if self.done {
            return false;
        }
        self.done = converged || self.remaining <= 1;
        self.remaining = if self.remaining >= 1 {
            self.remaining - 1
        } else {
            0
        };
        self.estimate = estimate;
        !self.done
    }

    /// The result: the latest estimate.
    pub fn into_estimate(self) -> (out: RawFloat)
        ensures
            out@ == self@.estimate,
    {
        self.estimate
    }
}

/// The precision that an automatic condition estimate starts at.
pub const PRECISION_FLOOR: u32 = 64;

/// What an automatic condition estimate does after a round at some precision.
#[derive(Clone, Copy, Debug, PartialEq, Eq)]
pub enum Escalation {
    /// The estimate is stable: take it.
    Accept,
    /// Estimate again at this precision, twice the last.
    Retry(u32),
    /// Twice the last precision is above the ceiling: take the last estimate.
    GiveUp,
}

/// The first round's precision: the floor, if the ceiling allows any round.
pub fn first_precision(max_bits: u32) -> (out: Option<u32>)
    ensures
        out == if PRECISION_FLOOR <= max_bits {
            Some(PRECISION_FLOOR)
        } else {
            None::<u32>
        },
{
    if PRECISION_FLOOR <= max_bits {
        Some(PRECISION_FLOOR)
    } else {
        None
    }
}

/// Decides what follows a round at `bits` bits: a stable estimate is
/// accepted; otherwise the precision doubles while it stays within
/// `max_bits`.
pub fn escalate(bits: u32, max_bits: u32, stable: bool) -> (out: Escalation)
    ensures
        out == if stable {
            Escalation::Accept
        } else if 2 * bits <= max_bits {
            Escalation::Retry((2 * bits) as u32)
        } else {
            Escalation::GiveUp
        },
{
    if stable {
        Escalation::Accept
    } else if bits <= max_bits / 2 {
        Escalation::Retry(2 * bits)
    } else {
        Escalation::GiveUp
    }
}

/// The precision that a solve needs so that `bits` bits of its result are
/// accurate, given the ceiling of the base-two logarithm of the condition
/// number: their sum. There is no answer when the sum is below zero or too
/// large for the machine.
pub fn required_precision_for_cond(bits: usize, log2_cond_ceil: i64) -> (out: Option<usize>)
    ensures
        out == if 0 <= bits + log2_cond_ceil <= usize::MAX {
            Some((bits + log2_cond_ceil) as usize)
        } else {
            None::<usize>
        },
{
    let sum: i128 = bits as i128 + log2_cond_ceil as i128;
    if 0 <= sum && sum <= usize::MAX as i128 {
        Some(sum as usize)
    } else {
        None
    }
}

} // verus!
