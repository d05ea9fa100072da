//! Static depth and cost analysis of GraphQL operations, used to admit or
//! reject a request before it is executed.

pub mod admission;
pub mod compiler;
pub mod cost;
pub mod cost_map;
pub mod depth;
pub mod document;
pub mod error;
pub mod growth;
pub mod invariance;
pub mod operation_cost;
pub mod screen;
