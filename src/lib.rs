//! Core logic of a source-based package builder: recipe loading and variable
//! substitution, the per-recipe directory layout, source classification,
//! download and extraction decisions, build command environments, and the
//! scheduler that moves recipes through the pipeline stages.
use vstd::prelude::*;

pub mod archive;
pub mod builder;
pub mod config;
pub mod network;
pub mod package;
pub mod path;
pub mod progress;
pub mod text;
pub mod util;

verus! {

} // verus!
