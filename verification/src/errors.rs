//! Errors reported by the library.
use vstd::prelude::*;

use crate::deps::lockfile::LockFileDiff;

verus! {

/// The failures that the library's own logic reports.
#[derive(Debug)]
pub enum MycoError {
    /// A package name that is not of the form `@namespace(.namespace)*/name`.
    InvalidPackageName { name: String },
    /// A version string that is not `[v]major.minor.patch[-prerelease]`.
    InvalidVersionString(String),
    /// A package that no registry offers.
    PackageNotFound { package: String },
    /// A failure of the library's own bookkeeping, or a refused token.
    Internal { message: String },
    /// A path was given with a token that grants one exact URL.
    PathNotAllowedForSpecificUrlTokens,
    /// A path given with a URL-prefix token contains `..`.
    PathTraversal,
    /// A path given with a URL-prefix token contains `://`.
    FullUrlInPath,
    /// A URL-prefix token was used without a path.
    PathRequiredForPrefix,
    /// The token does not grant URL access.
    InvalidTokenForUrlAccess,
    /// Text that is not a valid URL.
    InvalidUrl { url: String },
    /// The manifest names no registries.
    NoRegistries,
    /// Dependencies could not be resolved.
    DependencyResolution { message: String },
    /// The manifest has no `[package]` table.
    NoPackageDefinition,
    /// The manifest names no registry of that name.
    RegistryNotFound { name: String },
    /// Publishing goes to path registries only.
    UrlRegistryNotSupported,
    /// A registry index whose tables do not have the expected shape.
    InvalidRegistryFormat { message: String },
    /// A registry index that is no TOML document; the parser's message.
    RegistryParse { message: String },
    /// The registry already lists this version of the package.
    VersionExists { version: String },
    /// The lockfile on disk does not pin what the manifest resolves to.
    LockfileMismatch { diff: LockFileDiff },
    /// There is no lockfile to check against.
    LockfileLoad,
    /// The event loop cannot run.
    EventLoop { message: String },
    /// The script left an error that no handler took.
    UnhandledError { message: String },
    /// A module that names no file, or a directory without an index file.
    ModuleNotFound { specifier: String, resolved_path: String },
    /// A downloaded archive does not have the integrity its pin records.
    IntegrityMismatch { package: String, expected: String, actual: String },
}

} // verus!
