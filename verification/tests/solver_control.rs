use rugmat::float::RawFloat;
use rugmat::solver::{
    cg_epsilon, escalate, first_precision, inverse_step, required_precision_for_cond,
    tikhonov_lambda, CgAction, CgControl, CgPhase, Escalation, EstimateControl,
    INVERSE_SOLVE_ITERS, PRECISION_FLOOR,
};

/// The double that a 53-bit float holds.
fn to_f64(f: &RawFloat) -> f64 {
    assert_eq!(f.prec(), 53);
    let mantissa = (f.limbs()[0] >> 11) as f64;
    let value = mantissa * 2f64.powi((f.exp() - 53) as i32);
    if f.is_negative() {
        -value
    } else {
        value
    }
}

fn estimate(k: u64) -> RawFloat {
    RawFloat::from_parts(64, false, k as i64, vec![0x8000_0000_0000_0000]).unwrap()
}

#[test]
fn constants_are_the_nearest_doubles() {
    assert_eq!(to_f64(&tikhonov_lambda()), 1e-10);
    assert_eq!(to_f64(&cg_epsilon()), 1e-30);
    assert_eq!(to_f64(&inverse_step()), 1e-3);
    assert_eq!(INVERSE_SOLVE_ITERS, 20);
}

#[test]
fn cg_without_budget_returns_at_once() {
    let (ctl, action) = CgControl::start(0);
    assert_eq!(action, CgAction::Return);
    assert!(ctl.is_done());
}

#[test]
fn cg_runs_to_the_end_of_its_budget() {
    let (mut ctl, action) = CgControl::start(3);
    assert_eq!(action, CgAction::ComputeDenominator);
    let denom = RawFloat::one(64);
    assert_eq!(ctl.on_denominator(&denom), CgAction::UpdateIterate);
    assert_eq!(ctl.on_residual(false), CgAction::UpdateDirection);
    assert_eq!(ctl.on_denominator(&denom), CgAction::UpdateIterate);
    assert_eq!(ctl.on_residual(false), CgAction::UpdateDirection);
    assert_eq!(ctl.on_denominator(&denom), CgAction::UpdateIterate);
    assert_eq!(ctl.on_residual(false), CgAction::Return);
    assert!(ctl.is_done());
    assert!(!ctl.regularized);
}

#[test]
fn cg_stops_when_the_residual_converges() {
    let (mut ctl, _) = CgControl::start(100);
    assert_eq!(ctl.on_denominator(&RawFloat::one(64)), CgAction::UpdateIterate);
    assert_eq!(ctl.on_residual(true), CgAction::Return);
    assert!(ctl.is_done());
    assert_eq!(ctl.on_denominator(&RawFloat::one(64)), CgAction::Return);
    assert_eq!(ctl.on_residual(false), CgAction::Return);
}

#[test]
fn cg_restarts_once_on_a_zero_denominator() {
    let (mut ctl, _) = CgControl::start(2);
    assert_eq!(ctl.on_denominator(&RawFloat::one(64)), CgAction::UpdateIterate);
    assert_eq!(ctl.on_residual(false), CgAction::UpdateDirection);
    // Rank deficiency in the second iteration.
    assert_eq!(ctl.on_denominator(&RawFloat::zero(64)), CgAction::RestartRegularized);
    assert!(ctl.regularized);
    assert_eq!(ctl.remaining, 2);
    assert_eq!(ctl.phase, CgPhase::AwaitDenominator);
    // The regularized run has the whole budget again.
    assert_eq!(ctl.on_denominator(&RawFloat::one(64)), CgAction::UpdateIterate);
    assert_eq!(ctl.on_residual(false), CgAction::UpdateDirection);
    // A second zero denominator only stops.
    assert_eq!(ctl.on_denominator(&RawFloat::zero(64)), CgAction::Return);
    assert!(ctl.is_done());
}

#[test]
fn cg_takes_a_negative_zero_for_zero() {
    let (mut ctl, _) = CgControl::start(1);
    let minus_zero = RawFloat::from_parts(64, true, rugmat::float::EXP_ZERO, vec![0]).unwrap();
    assert_eq!(ctl.on_denominator(&minus_zero), CgAction::RestartRegularized);
}

#[test]
fn cg_repeats_its_request_on_an_unexpected_event() {
    let (mut ctl, _) = CgControl::start(2);
    let before = ctl;
    assert_eq!(ctl.on_residual(true), CgAction::ComputeDenominator);
    assert_eq!(ctl, before);
    assert_eq!(ctl.on_denominator(&RawFloat::one(64)), CgAction::UpdateIterate);
    let before = ctl;
    assert_eq!(ctl.on_denominator(&RawFloat::zero(64)), CgAction::UpdateIterate);
    assert_eq!(ctl, before);
}

#[test]
fn cg_always_ends_within_its_bound() {
    // Drive with every pattern of outcomes; count events until done.
    for max_iters in 0..5usize {
        for pattern in 0u32..(1 << 12) {
            let (mut ctl, _) = CgControl::start(max_iters);
            let mut events = 0usize;
            let mut restarts = 0usize;
            let mut bit = 0;
            while !ctl.is_done() {
                let flag = (pattern >> (bit % 12)) & 1 == 1;
                bit += 1;
                let action = match ctl.phase {
                    CgPhase::AwaitDenominator => {
                        let denom = if flag { RawFloat::zero(64) } else { RawFloat::one(64) };
                        ctl.on_denominator(&denom)
                    }
                    _ => ctl.on_residual(flag),
                };
                if action == CgAction::RestartRegularized {
                    restarts += 1;
                }
                events += 1;
                assert!(events <= 4 * max_iters + 1);
            }
            assert!(restarts <= 1);
        }
    }
}

#[test]
fn estimate_without_budget_is_the_first_value() {
    let mut ctl = EstimateControl::start(0, estimate(7));
    assert!(ctl.done);
    assert!(!ctl.report(estimate(8), true));
    assert!(ctl.into_estimate() == estimate(7));
}

#[test]
fn estimate_returns_the_first_converged_value() {
    let mut ctl = EstimateControl::start(10, estimate(0));
    assert!(ctl.report(estimate(1), false));
    assert!(ctl.report(estimate(2), false));
    assert!(!ctl.report(estimate(3), true));
    assert!(!ctl.report(estimate(4), true));
    assert!(ctl.into_estimate() == estimate(3));
}

#[test]
fn estimate_returns_the_last_value_when_the_budget_ends() {
    let mut ctl = EstimateControl::start(3, estimate(0));
    assert!(ctl.report(estimate(1), false));
    assert!(ctl.report(estimate(2), false));
    assert!(!ctl.report(estimate(3), false));
    assert!(!ctl.report(estimate(4), false));
    assert!(ctl.into_estimate() == estimate(3));
}

#[test]
fn precision_doubles_up_to_the_ceiling() {
    assert_eq!(PRECISION_FLOOR, 64);
    assert_eq!(first_precision(63), None);
    assert_eq!(first_precision(64), Some(64));
    assert_eq!(first_precision(1000), Some(64));
    assert_eq!(escalate(64, 1000, false), Escalation::Retry(128));
    assert_eq!(escalate(256, 1000, false), Escalation::Retry(512));
    assert_eq!(escalate(512, 1000, false), Escalation::GiveUp);
    assert_eq!(escalate(512, 1024, false), Escalation::Retry(1024));
    assert_eq!(escalate(512, 1023, false), Escalation::GiveUp);
    assert_eq!(escalate(64, 1000, true), Escalation::Accept);
    assert_eq!(escalate(1 << 31, u32::MAX, false), Escalation::GiveUp);
    assert_eq!(escalate(1 << 30, u32::MAX, false), Escalation::Retry(1 << 31));
}

#[test]
fn required_precision_adds_the_lost_bits() {
    assert_eq!(required_precision_for_cond(128, 20), Some(148));
    assert_eq!(required_precision_for_cond(64, 0), Some(64));
    assert_eq!(required_precision_for_cond(64, -10), Some(54));
    assert_eq!(required_precision_for_cond(64, -64), Some(0));
    assert_eq!(required_precision_for_cond(64, -65), None);
    assert_eq!(required_precision_for_cond(usize::MAX, 1), None);
    assert_eq!(required_precision_for_cond(usize::MAX, 0), Some(usize::MAX));
}

#[test]
fn cg_regularized_from_the_outset_never_restarts() {
    let (mut ctl, action) = CgControl::start_regularized(3);
    assert_eq!(action, CgAction::ComputeDenominator);
    assert!(ctl.regularized);
    assert_eq!(ctl.on_denominator(&RawFloat::one(64)), CgAction::UpdateIterate);
    assert_eq!(ctl.on_residual(false), CgAction::UpdateDirection);
    assert_eq!(ctl.on_denominator(&RawFloat::zero(64)), CgAction::Return);
    assert!(ctl.is_done());
    let (done, action) = CgControl::start_regularized(0);
    assert_eq!(action, CgAction::Return);
    assert!(done.is_done());
}
