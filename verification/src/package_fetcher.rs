//! Selector entry point matching the fetcher's interface, and the
//! fetch error type. The fetching itself (HTTP, tarballs) lives with
//! the caller; what is verified here is the version choice.

use vstd::prelude::*;

use crate::npm::{NpmPackageVersion, NpmResolvedPackage, VersionRangeSpecifier};
use crate::semver_bridge::{range_ok, range_probe_safe, version_precedes};
use crate::version_range_resolver::{entry_matches, resolve_version_from_version_range,
    spec_selected_index};

verus! {

/// Get a package and a version identifier, and return the matching
/// version. It will return None if the version is not found. A
/// parsing range selects the highest-precedence match.
pub fn resolve_version_from_version_identifier<'a>(
    package: &'a NpmResolvedPackage,
    version_range: &VersionRangeSpecifier,
) -> (r: Option<&'a NpmPackageVersion>)
    ensures
        match spec_selected_index(package@, version_range@) {
            Some(i) => r is Some && r->0@ == package@.versions[i].1,
            None => r is None,
        },
        range_probe_safe(version_range@) && range_ok(version_range@) && spec_selected_index(
            package@,
            version_range@,
        ) is Some ==> ({
            let i = spec_selected_index(package@, version_range@)->0;
            entry_matches(package@, version_range@, i) && forall|j: int|
                0 <= j < package@.versions.len() && entry_matches(
                    package@,
                    version_range@,
                    j,
                ) ==> package@.versions[j].0 == package@.versions[i].0 || !version_precedes(
                    package@.versions[i].0,
                    package@.versions[j].0,
                )
        }),
{
    resolve_version_from_version_range(package, version_range)
}

/// Failure of a package fetch: the requested package could not be
/// installed.
#[derive(Debug)]
pub struct FetchError;

impl FetchError {
    pub fn new() -> (r: Self)
        ensures
            r == FetchError,
    {
        Self
    }
}

} // verus!
