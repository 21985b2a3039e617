//! Myco's package manager and runtime logic: manifests, package names and
//! versions, dependency resolution, the capability registry, and the
//! inspector's HTTP/WebSocket protocol handling.
use vstd::prelude::*;

pub mod attrs;
pub mod capabilities;
pub mod codec;
pub mod deps;
pub mod errors;
pub mod event_loop;
pub mod grants;
pub mod inspector;
pub mod integrity;
pub mod loader;
pub mod manifest_edit;
pub mod logger;
pub mod lexical;
pub mod myco_local;
pub mod modules;
pub mod myco_toml;
pub mod name_table;
pub mod numbers;
pub mod pack;
pub mod package_name;
pub mod package_version;
pub mod path;
pub mod publish;
pub mod registry_edit;
pub mod runner;
pub mod stack_trace;
pub mod text;
pub mod text_map;
pub mod toml_doc;
pub mod workspace;

verus! {
} // verus!
