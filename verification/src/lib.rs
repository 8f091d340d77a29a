use vstd::prelude::*;

pub mod analysis;
pub mod analyzer;
pub mod callgraph;
pub mod churn;
pub mod cochange;
pub mod classifier;
pub mod decls;
pub mod decode;
pub mod digest;
pub mod files;
pub mod findings;
pub mod fleet;
pub mod gochecks;
pub mod gotest;
pub mod grpc;
pub mod http;
pub mod json;
pub mod lease;
pub mod names;
pub mod nearby;
pub mod paths;
pub mod poll;
pub mod render;
pub mod repo_facts;
pub mod retry;
pub mod risk;
pub mod roster;
pub mod salience;
pub mod shellcheck;
pub mod signatures;
pub mod style;
pub mod summaries;
pub mod text;

verus! {

} // verus!
