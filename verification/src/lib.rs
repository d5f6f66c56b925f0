#![verifier::loop_isolation(false)]

//! A verified core for an npm-style package manager: version-range
//! selection, breadth-first dependency resolution over registry
//! documents, store/symlink path layout, and manifest merging.
//!
//! Network and filesystem access live outside this crate; the logic
//! here works on plain data handed in by the caller.

pub mod assoc;
pub mod npm;
pub mod semver_bridge;
pub mod version_range_resolver;
pub mod fs_layout;
pub mod dependency_resolver;
pub mod package_fetcher;
pub mod http;
pub mod package_manifest;
pub mod install_package;
