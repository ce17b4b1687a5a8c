//! Verified core of the Tynx training toolkit: trainability analysis of imported
//! ONNX graphs, parameter bookkeeping, capture-graph structure, shape argument
//! normalisation and benchmark protocol policy.

pub mod backward_support;
pub mod error;
pub mod graph;
pub mod text;
pub mod trainability;
pub mod shape;
pub mod parameter;
pub mod store;
pub mod protocol;
pub mod capture;
pub mod optimizer;
pub mod imported;
pub mod autograd;
pub mod browser;
pub mod binding;
pub mod tape;
pub mod collect;
pub mod sampling;
pub mod combine;
pub mod data;
