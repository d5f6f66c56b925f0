//! The version-range selector: given a package document and a range
//! specifier, pick the concrete version the specifier denotes.
//!
//! A specifier that parses as a semver range selects the
//! highest-precedence matching entry of the document's version table,
//! whatever order the document lists its versions in; ties between
//! equal version strings keep the earliest entry. Any other specifier
//! - including the rare comparator-with-wildcard shapes the vendored
//! range parser cannot be asked about (see the semver bridge) - is
//! treated as a distribution tag.

use vstd::prelude::*;

use crate::assoc::lemma_find_from_properties;
use crate::npm::{NpmPackageVersion, NpmPackageVersionView, NpmResolvedPackage,
    NpmResolvedPackageView, VersionRangeSpecifier};
use crate::semver_bridge::{range_allows, range_matches, range_ok, range_parses,
    range_probe_safe, range_probe_safe_check, version_lt, version_ok, version_precedes};

verus! {

/// Whether version entry `i` of `doc` satisfies the (parsed) range `r`.
pub open spec fn entry_matches(doc: NpmResolvedPackageView, r: Seq<char>, i: int) -> bool {
    version_ok(doc.versions[i].0) && range_allows(r, doc.versions[i].0)
}

/// The highest-precedence matching entry among the first `n` version
/// entries: a later match replaces the best so far only when it
/// strictly precedes it from below, so equal versions keep the
/// earliest entry.
pub open spec fn spec_best_match(
    doc: NpmResolvedPackageView,
    range: Seq<char>,
    n: int,
) -> Option<int>
    decreases n,
{
    if n <= 0 {
        None
    } else {
        let prev = spec_best_match(doc, range, n - 1);
        if !entry_matches(doc, range, n - 1) {
            prev
        } else {
            match prev {
                None => Some(n - 1),
                Some(b) => if version_precedes(doc.versions[b].0, doc.versions[n - 1].0) {
                    Some(n - 1)
                } else {
                    Some(b)
                },
            }
        }
    }
}

/// The index of the version that a range specifier selects, if any:
/// for a (safely probeable) parsing range, the highest-precedence
/// matching entry; otherwise the entry the equally-named distribution
/// tag points at.
pub open spec fn spec_selected_index(doc: NpmResolvedPackageView, range: Seq<char>) -> Option<
    int,
> {
    if range_probe_safe(range) && range_ok(range) {
        spec_best_match(doc, range, doc.versions.len() as int)
    } else {
        match doc.tag_index(range) {
            Some(t) => doc.version_index(doc.dist_tags[t].1),
            None => None,
        }
    }
}

/// The position in the version table that a range specifier selects,
/// if any. For a parsing range the chosen entry matches and no
/// matching entry of the document has higher semver precedence
/// (selector monotonicity), in whatever order the document lists its
/// versions.
pub fn resolve_version_index(
    package: &NpmResolvedPackage,
    version_range: &VersionRangeSpecifier,
) -> (r: Option<usize>)
    ensures
        match spec_selected_index(package@, version_range@) {
            Some(i) => r is Some && r->0 == i && 0 <= i < package@.versions.len(),
            None => r is None,
        },
        range_probe_safe(version_range@) && range_ok(version_range@) ==> match r {
            Some(i) => entry_matches(package@, version_range@, i as int) && forall|j: int|
                0 <= j < package@.versions.len() && entry_matches(
                    package@,
                    version_range@,
                    j,
                ) ==> package@.versions[j].0 == package@.versions[i as int].0
                    || !version_precedes(package@.versions[i as int].0, package@.versions[j].0),
            None => forall|j: int|
                0 <= j < package@.versions.len() ==> !entry_matches(
                    package@,
                    version_range@,
                    j,
                ),
        },
{
    let ghost doc = package@;
    let ghost rv = version_range@;
    if range_probe_safe_check(version_range.as_str()) && range_parses(version_range.as_str()) {
        let mut best: Option<usize> = None;
        let mut i: usize = 0;
        while i < package.versions.len()
            invariant
                i <= package.versions@.len(),
                range_probe_safe(rv) && range_ok(rv),
                match spec_best_match(doc, rv, i as int) {
                    Some(b) => best is Some && best->0 == b && 0 <= b < i && entry_matches(
                        doc,
                        rv,
                        b,
                    ),
                    None => best is None,
                },
                forall|j: int|
                    0 <= j < i && entry_matches(doc, rv, j) ==> best is Some
                        && (doc.versions[j].0 == doc.versions[best->0 as int].0
                        || !version_precedes(
                        doc.versions[best->0 as int].0,
                        doc.versions[j].0,
                    )),
            decreases package.versions@.len() - i,
        {
            let ghost prev = spec_best_match(doc, rv, i as int);
            let hit = range_matches(version_range.as_str(), package.versions[i].0.as_str());
            assert(doc.versions[i as int]
                == (package.versions@[i as int].0@, package.versions@[i as int].1@));
            assert(hit == entry_matches(doc, rv, i as int));
            if hit {
                match best {
                    None => {
                        best = Some(i);
                    },
                    Some(b) => {
                        let replaces = version_lt(
                            package.versions[b].0.as_str(),
                            package.versions[i].0.as_str(),
                        );
                        assert(doc.versions[b as int]
                            == (package.versions@[b as int].0@, package.versions@[b as int].1@));
                        if replaces {
                            assert forall|j: int|
                                0 <= j < i && entry_matches(doc, rv, j) implies
                                doc.versions[j].0 == doc.versions[i as int].0
                                || !version_precedes(
                                doc.versions[i as int].0,
                                doc.versions[j].0,
                            ) by {
                                if doc.versions[j].0 == doc.versions[b as int].0 {
                                    assert(!version_precedes(doc.versions[i as int].0,
                                        doc.versions[b as int].0));
                                } else {
                                    assert(!version_precedes(doc.versions[b as int].0,
                                        doc.versions[j].0));
                                }
                            }
                            best = Some(i);
                        }
                    },
                }
            }
            proof {
                assert(spec_best_match(doc, rv, i as int + 1) == (
                if !entry_matches(doc, rv, i as int) {
                    prev
                } else {
                    match prev {
                        None => Some(i as int),
                        Some(b) => if version_precedes(
                            doc.versions[b].0,
                            doc.versions[i as int].0,
                        ) {
                            Some(i as int)
                        } else {
                            Some(b)
                        },
                    }
                }));
            }
            i = i + 1;
        }
        proof {
            assert(spec_selected_index(doc, rv) == spec_best_match(
                doc,
                rv,
                package.versions@.len() as int,
            ));
        }
        best
    } else {
        let target = match package.tag_target(&version_range.0) {
            Some(t) => t,
            None => {
                return None;
            },
        };
        let ghost q = |e: (Seq<char>, NpmPackageVersionView)| e.0 == target@;
        proof {
            lemma_find_from_properties(doc.versions, 0, q);
        }
        let mut i: usize = 0;
        while i < package.versions.len()
            invariant
                i <= package.versions@.len(),
                forall|k: int| 0 <= k < i ==> !q(#[trigger] doc.versions[k]),
            decreases package.versions@.len() - i,
        {
            let hit = package.versions[i].0.0.eq(&target.0);
            assert(doc.versions[i as int]
                == (package.versions@[i as int].0@, package.versions@[i as int].1@));
            if hit {
                return Some(i);
            }
            i = i + 1;
        }
        None
    }
}

/// Get a package and a version range, and return the matching version.
/// It will return None if no published version matches. For a parsing
/// range the selection is the highest-precedence match (selector
/// monotonicity), as the second and third clauses state.
pub fn resolve_version_from_version_range<'a>(
    package: &'a NpmResolvedPackage,
    version_range: &VersionRangeSpecifier,
) -> (r: Option<&'a NpmPackageVersion>)
    ensures
        match spec_selected_index(package@, version_range@) {
            Some(i) => r is Some && r->0@ == package@.versions[i].1,
            None => r is None,
        },
        range_probe_safe(version_range@) && range_ok(version_range@) && spec_selected_index(
            package@,
            version_range@,
        ) is Some ==> ({
            let i = spec_selected_index(package@, version_range@)->0;
            entry_matches(package@, version_range@, i) && forall|j: int|
                0 <= j < package@.versions.len() && entry_matches(
                    package@,
                    version_range@,
                    j,
                ) ==> package@.versions[j].0 == package@.versions[i].0 || !version_precedes(
                    package@.versions[i].0,
                    package@.versions[j].0,
                )
        }),
        range_probe_safe(version_range@) && range_ok(version_range@) && spec_selected_index(
            package@,
            version_range@,
        ) is None ==> forall|j: int|
            0 <= j < package@.versions.len() ==> !entry_matches(package@, version_range@, j),
{
    match resolve_version_index(package, version_range) {
        Some(i) => {
            assert(package@.versions[i as int]
                == (package.versions@[i as int].0@, package.versions@[i as int].1@));
            Some(&package.versions[i].1)
        },
        None => None,
    }
}

} // verus!
