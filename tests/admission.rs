use operation_limits::admission::{admit_cost, admit_depth, Admission};
use operation_limits::cost::Cost;
use operation_limits::error::AnalysisError;

#[test]
fn depth_over_limit_is_rejected() {
    assert_eq!(admit_depth(&Ok(11), 10), Admission::Reject);
    assert_eq!(admit_depth(&Ok(10), 10), Admission::Admit);
}

#[test]
fn depth_without_operation_is_admitted() {
    assert_eq!(admit_depth(&Err(AnalysisError::MissingOperation), 10), Admission::Admit);
}

#[test]
fn depth_failure_fails() {
    assert_eq!(admit_depth(&Err(AnalysisError::FragmentCycle), 10), Admission::Fail);
    assert_eq!(admit_depth(&Err(AnalysisError::TooDeep), 10), Admission::Fail);
}

#[test]
fn cost_over_limit_is_rejected() {
    assert_eq!(admit_cost(&Ok(Cost::new(21)), &Cost::new(20)), Admission::Reject);
    assert_eq!(admit_cost(&Ok(Cost::new(20)), &Cost::new(20)), Admission::Admit);
}

#[test]
fn cost_failure_fails() {
    assert_eq!(admit_cost(&Err(AnalysisError::MissingOperation), &Cost::new(20)), Admission::Fail);
    assert_eq!(admit_cost(&Err(AnalysisError::Overflow), &Cost::new(20)), Admission::Fail);
}
