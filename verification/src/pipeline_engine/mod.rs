//! A deployment DAG engine: pipelines of nodes joined by edges, run one revision at a time per
//! resource, with automatic unwinding of failed deployments.
pub mod node;
pub mod model;
pub mod scope;
pub mod engine;
pub mod laws;
