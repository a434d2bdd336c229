//! Package manager logic: registry configuration, listings, overrides,
//! patches, output formatting.

pub mod advisories;
pub mod bin;
pub mod audit;
pub mod cache;
pub mod commands;
pub mod config;
pub mod create;
pub mod github;
pub mod install;
pub mod linker;
pub mod listing;
pub mod outdated;
pub mod output;
pub mod overrides;
pub mod pack;
pub mod patch;
pub mod registry;
pub mod reverse_deps;
pub mod scripts;
pub mod semver;
pub mod shell;
pub mod tarball;
pub mod types;
pub mod why;
