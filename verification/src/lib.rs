//! A profile collector: CPU sampling profiles in pprof format are decoded,
//! turned into flame graphs and served as JSON.
//!
//! - `profile` holds a decoded profile, `codec` reads and writes it as bytes.
//! - `callgraph` aggregates the samples of a profile into a call graph,
//!   `flamegraph` makes the tree of the flame graph from it, `shape` proves
//!   what holds of every such tree, and `json` writes the tree as text.
//! - `service` is the collector that keeps flame graphs under identifiers,
//!   `daemon` and `tasks` are the workloads that produce profiles, and
//!   `storage` names the files of a profile.
//! - `string_map` and `text` are the helpers that the others share.

pub mod callgraph;
pub mod codec;
pub mod daemon;
pub mod flamegraph;
pub mod json;
pub mod profile;
pub mod service;
pub mod shape;
pub mod storage;
pub mod string_map;
pub mod tasks;
pub mod text;
