//! Installing pinned packages: which lockfile to install from, where each
//! archive is read from, and whether a downloaded archive is the pinned one.
use vstd::prelude::*;

use crate::deps::location::{Location, LocationModel};
use crate::deps::lockfile::{changed_pins, diffs_view, pins_view, unmatched_pins, LockFile};
use crate::deps::registry::ResolvedVersion;
use crate::errors::MycoError;
use crate::integrity::{calculate_integrity, integrity_text};
use crate::package_name::package_name_text;
use crate::text::same_text;

verus! {

/// The lockfile that packages are installed from.
#[derive(Debug, PartialEq, Eq)]
pub enum InstallFrom {
    /// The lockfile just resolved from the manifest.
    Resolved,
    /// The lockfile already on disk, which pins the same packages.
    Existing,
}

/// Picks the lockfile to install from. With `save` the resolved one is taken
/// (and saved by the caller). Without it, the lockfile on disk (`None` where
/// it could not be loaded) must pin exactly what was resolved.
pub fn choose_lockfile(resolved: &LockFile, existing: Option<&LockFile>, save: bool) -> (r: Result<
    InstallFrom,
    MycoError,
>)
    ensures
        save ==> (r matches Ok(InstallFrom::Resolved)),
        !save ==> match existing {
            None => r matches Err(MycoError::LockfileLoad),
            Some(e) => if pins_view(e.package@) == pins_view(resolved.package@) {
                r matches Ok(InstallFrom::Existing)
            } else {
                r matches Err(MycoError::LockfileMismatch { diff }) && diffs_view(diff.diffs@)
                    == changed_pins(pins_view(e.package@), pins_view(resolved.package@))
                    && pins_view(diff.new@) == unmatched_pins(
                    pins_view(resolved.package@),
                    pins_view(e.package@),
                ) && pins_view(diff.removed@) == unmatched_pins(
                    pins_view(e.package@),
                    pins_view(resolved.package@),
                )
            },
        },
{
    if save {
        return Ok(InstallFrom::Resolved);
    }
    match existing {
        None => Err(MycoError::LockfileLoad),
        Some(e) => {
            if crate::deps::lockfile::same_pins(&e.package, &resolved.package) {
                Ok(InstallFrom::Existing)
            } else {
                Err(MycoError::LockfileMismatch { diff: e.diff(resolved) })
            }
        },
    }
}

/// The scheme and the path of a URL, if the text parses as one.
pub uninterp spec fn url_scheme_and_path(url: Seq<char>) -> Option<(Seq<char>, Seq<char>)>;

/// Calls `url::Url::parse`, then `Url::scheme` and `Url::path`. Trusted: the
/// outcome depends on the text alone, which the name `url_scheme_and_path`
/// records.
#[verifier::external_body]
fn scheme_and_path(url: &str) -> (r: Option<(String, String)>)
    ensures
        match r {
            Some((s, p)) => url_scheme_and_path(url@) == Some((s@, p@)),
            None => url_scheme_and_path(url@) is None,
        },
{
    url::Url::parse(url).ok().map(|u| (u.scheme().to_string(), u.path().to_string()))
}

/// The path of a `file:` URL, if the text parses as a URL with that scheme.
pub open spec fn file_url_path(url: Seq<char>) -> Option<Seq<char>> {
    match url_scheme_and_path(url) {
        Some((scheme, path)) => if scheme == "file"@ {
            Some(path)
        } else {
            None
        },
        None => None,
    }
}

/// Where an archive's bytes come from.
#[derive(Debug)]
pub enum ArchiveSource {
    /// Read the file at `path`; a failure is reported against `shown`.
    ReadFile { path: String, shown: String },
    /// Fetch `url` over the network.
    Download { url: String },
}

/// Where the archive of a pinned package is read: a path as it is, a `file:`
/// URL by its path, any other URL from the network.
pub fn archive_source(pack_url: &Location) -> (r: ArchiveSource)
    ensures
        match pack_url@ {
            LocationModel::Path(p) => r matches ArchiveSource::ReadFile { path, shown } && path@ == p
                && shown@ == p,
            LocationModel::Url(u) => match file_url_path(u) {
                Some(fp) => r matches ArchiveSource::ReadFile { path, shown } && path@ == fp && shown@
                    == u,
                None => r matches ArchiveSource::Download { url } && url@ == u,
            },
        },
{
    match pack_url {
        Location::Path { path } => ArchiveSource::ReadFile { path: path.clone(), shown: path.clone() },
        Location::Url(u) => {
            proof {
                reveal_strlit("file");
            }
            match scheme_and_path(u.as_str()) {
                Some((scheme, fp)) => if same_text(scheme.as_str(), "file") {
                    ArchiveSource::ReadFile { path: fp, shown: u.clone() }
                } else {
                    ArchiveSource::Download { url: u.clone() }
                },
                None => ArchiveSource::Download { url: u.clone() },
            }
        },
    }
}

/// Checks a downloaded archive against the integrity its pin records.
pub fn check_archive(pin: &ResolvedVersion, bytes: &[u8]) -> (r: Result<(), MycoError>)
    ensures
        (r is Ok) == (integrity_text(bytes@) == pin.integrity@),
        r is Err ==> (r matches Err(MycoError::IntegrityMismatch { package, expected, actual })
            && package@ == package_name_text(pin.name.namespaces_view(), pin.name.name@) && expected@
            == pin.integrity@ && actual@ == integrity_text(bytes@)),
{
    let actual = calculate_integrity(bytes);
    if same_text(actual.as_str(), pin.integrity.as_str()) {
        Ok(())
    } else {
        Err(
            MycoError::IntegrityMismatch {
                package: pin.name.to_string(),
                expected: pin.integrity.clone(),
                actual,
            },
        )
    }
}

} // verus!
