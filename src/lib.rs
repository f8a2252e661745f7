//! Deterministic compile/verify engine: canonical JSON, domain-separated
//! hashing, Merkle commitments, the intermediate graph and schema emission,
//! the compile and verify orchestrators, and the built-in input producers.

// foundations
pub mod error;
pub mod strs;
pub mod version;
pub mod config;
pub mod ident;
pub mod sorting;
pub mod text;

// hashing, canonical encoding and commitments
pub mod hashing;
pub mod json;
pub mod canonical;
pub mod merkle;
pub mod store;

// artifacts, graph, orchestration
pub mod model;
pub mod ir;
pub mod pipeline;
pub mod compile;
pub mod verify;

// inputs and plugins
pub mod detect;
pub mod walk;
pub mod repo;
pub mod github;
pub mod dataset;
pub mod workflow;
pub mod plugins;
pub mod builtin;
pub mod linkgraph;
pub mod shorthand;
