//! Package index and wheel materialization core: artifact names, package names,
//! index results, cache policy and the decisions of the metadata ladder and the
//! wheel builder, each with a verified contract.

mod text;
pub mod name;
pub mod wheel_name;
pub mod artifact;
pub mod version;
pub mod version_artifacts;
pub mod artifact_cache;
pub mod http_cache;
pub mod direct_url;
pub mod index;
pub mod resolve;
pub mod wheel_builder;
pub mod ladder;
pub mod metadata;
