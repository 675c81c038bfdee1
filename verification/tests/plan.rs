use oopsie_macros::cfg_gate::{cube_literals, Gate};
use oopsie_macros::inject::{Decision, FieldsToInject, InjectError, MangledName};
use oopsie_macros::plan::{plan_injection, InjectPlan, PlanError};

fn inject(backtrace: bool, spantrace: bool, traces: bool) -> FieldsToInject {
    FieldsToInject { backtrace, spantrace, timestamp: false, traces, location: false }
}

fn nothing() -> FieldsToInject {
    inject(false, false, false)
}

fn terms(g: &Gate, n: usize) -> Vec<Vec<(usize, bool)>> {
    match g {
        Gate::Cfg(cubes) => cubes.iter().map(|c| cube_literals(*c, n)).collect(),
        _ => panic!("expected a conditional gate"),
    }
}

#[test]
fn unconditional_item_gets_unconditional_gates() {
    let ds = vec![Ok(Decision::Inject(inject(false, false, true), true))];
    let (plan, code) = plan_injection(0, &ds).unwrap();
    assert!(matches!(plan.traces, Gate::On));
    assert!(plan.backtrace.is_off() && plan.spantrace.is_off() && plan.timestamp.is_off() && plan.location.is_off());
    assert!(matches!(code, Gate::On));
    assert!(plan.any());
}

#[test]
fn piece_wanted_in_some_assignments_is_gated_by_them() {
    // One base: the trace is already there when it is set.
    let ds = vec![
        Ok(Decision::Inject(inject(true, false, false), true)),
        Ok(Decision::Inject(nothing(), true)),
    ];
    let (plan, code) = plan_injection(1, &ds).unwrap();
    assert_eq!(terms(&plan.backtrace, 1), vec![vec![(0, false)]]);
    assert!(matches!(code, Gate::On));
}

#[test]
fn refusal_under_one_assignment_refuses_the_item() {
    let refusal = InjectError::MangledCollision(0, MangledName::Backtrace);
    let ds = vec![Ok(Decision::Inject(nothing(), false)), Err(refusal)];
    match plan_injection(1, &ds) {
        Err(PlanError::Refused(e, g)) => {
            assert_eq!(e, refusal);
            assert_eq!(terms(&g, 1), vec![vec![(0, true)]]);
        }
        _ => panic!("expected a refusal"),
    }
}

#[test]
fn refusal_everywhere_is_unconditional() {
    let ds = vec![Err(InjectError::TimestampConflict(2)), Err(InjectError::TimestampConflict(1))];
    match plan_injection(1, &ds) {
        Err(PlanError::Refused(e, g)) => {
            assert_eq!(e, InjectError::TimestampConflict(2));
            assert!(matches!(g, Gate::On));
        }
        _ => panic!("expected a refusal"),
    }
}

#[test]
fn nothing_parses_reports_the_first_parse_error() {
    let ds = vec![Ok(Decision::Deferred("first".to_string())), Ok(Decision::Deferred("second".to_string()))];
    match plan_injection(1, &ds) {
        Err(PlanError::Unparsed(m)) => assert_eq!(m, "first"),
        _ => panic!("expected the parse error"),
    }
}

#[test]
fn deferred_assignment_injects_nothing_there() {
    let ds = vec![Ok(Decision::Deferred("bad".to_string())), Ok(Decision::Inject(inject(false, true, false), true))];
    let (plan, code) = plan_injection(1, &ds).unwrap();
    assert_eq!(terms(&plan.spantrace, 1), vec![vec![(0, true)]]);
    assert_eq!(terms(&code, 1), vec![vec![(0, true)]]);
}

#[test]
fn merge_with_nothing_injected_has_no_piece() {
    let plan = InjectPlan::merge(1, &vec![None, Some(nothing())]);
    assert!(!plan.any());
}
