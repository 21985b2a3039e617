//! Dependencies: registries, resolved versions, lockfiles and manifest changes.
pub mod location;
pub mod registry;
pub mod changes;
pub mod lockfile;
pub mod install;
pub mod report;
