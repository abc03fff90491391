//! Orchestration and artifact caching for a staged, offline simulation
//! pipeline: which source a region reads, how a table of per-area case counts
//! becomes initial conditions, where each stage keeps its artifact, and in
//! which order a stage's steps run.

pub mod area;
pub mod artifact;
pub mod conditions;
pub mod count;
pub mod dispatch;
pub mod failure;
pub mod region;
pub mod resolver;
pub mod rng;
pub mod table;
