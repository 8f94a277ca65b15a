//! Queries Bazel for the crate specs that the rust-analyzer aspect writes, and
//! consolidates them into one spec per crate.
pub mod consolidate;
pub mod crate_spec;
pub mod error;
pub mod fields;
pub mod laws;
pub mod output;
pub mod pipeline;
pub mod query;
pub mod text;

pub use consolidate::consolidate_crate_specs;
pub use crate_spec::{CrateSpec, CrateSpecSource};
pub use error::AqueryError;
pub use output::{
    decode_stdout, parse_aquery_output, undecodable_output, Action, AqueryOutput, JsonKind, Target,
};
pub use pipeline::crate_specs_of_output;
pub use query::{aquery_arguments, target_pattern};
