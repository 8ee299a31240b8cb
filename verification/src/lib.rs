//! Verified core logic of the yard data-pipeline deployment tool.
use vstd::prelude::*;

pub mod text;
pub mod arn;
pub mod json;
pub mod diff;
pub mod topo;
pub mod airflow;
pub mod dag;
pub mod connections;
pub mod codegen;
pub mod render;
pub mod transform;
pub mod script;
pub mod triggers;
pub mod dagfile;
pub mod cli;
pub mod plan;
pub mod dagplan;
pub mod targets;
pub mod apply;
pub mod collect;
pub mod version;
pub mod report;
pub mod flow;
pub mod yaml;

verus! {

} // verus!
