//! Version bumps when packing a package.
use vstd::prelude::*;

use crate::myco_toml::MycoToml;
use crate::package_version::{law_next_versions_increase, version_order, PackageVersion, VersionModel};
use crate::text::Order3;

verus! {

/// The name a package is packed under when the manifest has no `[package]`.
pub open spec fn unnamed_project() -> Seq<char> {
    "<unnamed project>"@
}

/// The version after a bump: the major bump wins over the minor, the minor
/// over the patch; without a flag the version stays.
pub open spec fn bumped(v: VersionModel, major: bool, minor: bool, patch: bool) -> VersionModel {
    if major {
        VersionModel { major: v.major + 1, minor: 0, patch: 0, prerelease: None }
    } else if minor {
        VersionModel { major: v.major, minor: v.minor + 1, patch: 0, prerelease: None }
    } else if patch {
        VersionModel { major: v.major, minor: v.minor, patch: v.patch + 1, prerelease: None }
    } else {
        v
    }
}

/// What a bump does: any bump gives a version that sorts after the old one and
/// has no prerelease; a major bump raises the major number and resets minor
/// and patch; a minor bump keeps the major number, raises the minor and resets
/// the patch; a patch bump keeps major and minor and raises the patch by one;
/// with no flag the version stays.
pub proof fn law_bump_raises_one_part(v: VersionModel, major: bool, minor: bool, patch: bool)
    ensures
        ({
            let b = bumped(v, major, minor, patch);
            &&& (major || minor || patch) ==> version_order(v, b) == Order3::Less && b.prerelease is None
            &&& major ==> b.major == v.major + 1 && b.minor == 0 && b.patch == 0
            &&& !major && minor ==> b.major == v.major && b.minor == v.minor + 1 && b.patch == 0
            &&& !major && !minor && patch ==> b.major == v.major && b.minor == v.minor && b.patch == v.patch + 1
            &&& !major && !minor && !patch ==> b == v
        }),
{
    law_next_versions_increase(v);
}

/// The version a manifest's package has (0.0.0 without a `[package]`).
pub open spec fn current_version(t: MycoToml) -> VersionModel {
    match t.package {
        Some(p) => p.version@,
        None => VersionModel { major: 0, minor: 0, patch: 0, prerelease: None },
    }
}

/// Bumps the package version as the flags ask and records it in the manifest;
/// returns the package's name and its new version. A bumped number must not
/// already be at its maximum.
pub fn bump_version(myco_toml: &mut MycoToml, major: bool, minor: bool, patch: bool) -> (r: (String, PackageVersion))
    requires
        major ==> current_version(*old(myco_toml)).major < 65535,
        !major && minor ==> current_version(*old(myco_toml)).minor < 65535,
        !major && !minor && patch ==> current_version(*old(myco_toml)).patch < 65535,
    ensures
        r.0@ == match old(myco_toml).package {
            Some(p) => p.name@,
            None => unnamed_project(),
        },
        r.1@ == bumped(current_version(*old(myco_toml)), major, minor, patch),
        !major && !minor && patch ==> r.1.major == current_version(*old(myco_toml)).major && r.1.minor
            == current_version(*old(myco_toml)).minor && r.1.patch == current_version(*old(myco_toml)).patch + 1,
        !major && minor ==> r.1.major == current_version(*old(myco_toml)).major && r.1.minor
            == current_version(*old(myco_toml)).minor + 1 && r.1.patch == 0,
        major ==> r.1.major == current_version(*old(myco_toml)).major + 1 && r.1.minor == 0 && r.1.patch == 0,
        (major || minor || patch) ==> version_order(current_version(*old(myco_toml)), r.1@) == Order3::Less,
        final(myco_toml).package is Some <==> old(myco_toml).package is Some,
        final(myco_toml).package matches Some(p) ==> p.version@ == r.1@ && p.name@ == old(myco_toml).package->Some_0.name@,
        final(myco_toml).run == old(myco_toml).run,
        final(myco_toml).deps == old(myco_toml).deps,
{
    let name = match &myco_toml.package {
        Some(p) => p.name.clone(),
        None => "<unnamed project>".to_owned(),
    };
    let current = match &myco_toml.package {
        Some(p) => p.version.duplicate(),
        None => PackageVersion { major: 0, minor: 0, patch: 0, prerelease: None },
    };
    let ghost cur = current@;
    let version = if major {
        current.next_major()
    } else if minor {
        current.next_minor()
    } else if patch {
        current.next_patch()
    } else {
        current
    };
    match &mut myco_toml.package {
        Some(p) => {
            p.version = version.duplicate();
        },
        None => {},
    }
    proof {
        law_bump_raises_one_part(cur, major, minor, patch);
    }
    (name, version)
}

} // verus!
