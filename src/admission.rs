use vstd::prelude::*;

use crate::cost::Cost;
use crate::error::AnalysisError;

verus! {

/// What a gateway does with a request once it has been analysed.
#[derive(Debug, Clone, Copy, PartialEq, Eq, Structural)]
pub enum Admission {
    /// Let the request through.
    Admit,
    /// Refuse it as the client's fault: it goes over the configured limit.
    Reject,
    /// Refuse it as the server's fault: the analysis could not be made.
    Fail,
}

/// The verdict on a depth analysis under the limit `limit`: a depth above
/// it is rejected; a request whose operation cannot be selected is let
/// through, as nothing can be said of it; any other failure fails.
pub open spec fn depth_admission(result: Result<usize, AnalysisError>, limit: usize) -> Admission {
    match result {
        Ok(depth) => if depth > limit {
            Admission::Reject
        } else {
            Admission::Admit
        },
        Err(AnalysisError::MissingOperation) => Admission::Admit,
        Err(_) => Admission::Fail,
    }
}

/// The verdict on a cost analysis under the limit `max_cost`: a cost above
/// it is rejected, and any failure fails.
pub open spec fn cost_admission(result: Result<Cost, AnalysisError>, max_cost: Cost) -> Admission {
    match result {
        Ok(cost) => if cost.0 > max_cost.0 {
            Admission::Reject
        } else {
            Admission::Admit
        },
        Err(_) => Admission::Fail,
    }
}

/// Decides a request from the result of its depth analysis.
pub fn admit_depth(result: &Result<usize, AnalysisError>, limit: usize) -> (r: Admission)
    ensures
        r == depth_admission(*result, limit),
{
    match result {
        Ok(depth) => {
            if *depth > limit {
                Admission::Reject
            } else {
                Admission::Admit
            }
        },
        Err(AnalysisError::MissingOperation) => Admission::Admit,
        Err(_) => Admission::Fail,
    }
}

/// Decides a request from the result of its cost analysis.
pub fn admit_cost(result: &Result<Cost, AnalysisError>, max_cost: &Cost) -> (r: Admission)
    ensures
        r == cost_admission(*result, *max_cost),
{
    match result {
        Ok(cost) => {
            if cost.exceeds(max_cost) {
                Admission::Reject
            } else {
                Admission::Admit
            }
        },
        Err(_) => Admission::Fail,
    }
}

} // verus!
