//! Finds the declared dependencies of a Cargo manifest (and of its workspace
//! members) that have fallen behind the newest versions in the registry.
//!
//! - `version`: the version model, its order, and writing it back out.
//! - `requirement`: requirement strings split into operator and version.
//! - `outdated`: whether a requirement is outdated against a latest version.
//! - `manifest`: dependency records read out of a parsed manifest.
//! - `lookup`: which names to query, what an answer means, and the join.
//! - `report`: the rows, widths and summary of the results table.
//! - `cli`: the options of a run.
//! - `types`: dependency records and the registry's answer.
//! - `text`: character-level helpers the others are built on.
pub mod cli;
pub mod lookup;
pub mod manifest;
pub mod outdated;
pub mod report;
pub mod requirement;
pub mod text;
pub mod types;
pub mod version;
