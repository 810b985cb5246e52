//! Verified core of the typesofants deployment tooling.
mod text;
pub mod arch;
pub mod errors;
pub mod headers;
pub mod units;
pub mod events;
pub mod json;
pub mod deployment_event;
pub mod dag;
pub mod pipeline_def;
pub mod pipeline_view;
pub mod progress;
pub mod project_view;
pub mod service_api;
pub mod deployment_api;
pub mod printing;
pub mod tweets;
pub mod artifacts;
pub mod releasing;
pub mod env_vars;
pub mod resource_key;
pub mod pipeline_engine;
