use fast_package_manager::npm::{
    NpmPackageVersion, NpmResolvedPackage, NpmVersionDist, NpmVersionDistSignature, UrlString,
    Version, VersionRangeSpecifier,
};
use fast_package_manager::package_fetcher::resolve_version_from_version_identifier;
use fast_package_manager::version_range_resolver::resolve_version_from_version_range;

fn is_even_version(
    ver: &str,
    tarball: &str,
    shasum: &str,
    integrity: &str,
    sig: &str,
) -> NpmPackageVersion {
    NpmPackageVersion {
        name: String::from("is-even"),
        version: Version::new(String::from(ver)),
        dependencies: Some(vec![(
            String::from("is-odd"),
            VersionRangeSpecifier::new(String::from("^0.1.2")),
        )]),
        dist: NpmVersionDist {
            shasum: String::from(shasum),
            tarball: UrlString::new(String::from(tarball)),
            integrity: Some(String::from(integrity)),
            file_count: None,
            unpacked_size: None,
            npm_signatures: None,
            signatures: Some(vec![NpmVersionDistSignature {
                keyid: String::from("SHA256:jl3bwswu80PjjokCgh0o2w5c2U4LhQAE57gj9cz1kzA"),
                sig: String::from(sig),
            }]),
        },
        engines: Some(vec![(
            String::from("node"),
            VersionRangeSpecifier::new(String::from(">=0.10.0")),
        )]),
    }
}

fn v0_1_2() -> NpmPackageVersion {
    is_even_version(
        "0.1.2",
        "https://registry.npmjs.org/is-even/-/is-even-0.1.2.tgz",
        "e0432a7379f2d20b6ebbc2cb11e69beaaf31cd63",
        "sha512-Ft/TASRTCMIR20eeGtXIx7W+TfAbw/LkG7D3Pw5rncxaF1LCei/WVgO2qxsJiOROZb7JABl6Z8N2pEHjNONt9A==",
        "MEUCIGBqTtBRc6/6dqmI2lc+kmJRw4bB5kGHp5dM0fQH3V5pAiEA18DczU8X1bgDIkckzUOYpzWgZZJeQnpbgdPp9WtLnwY=",
    )
}

fn v1_0_0() -> NpmPackageVersion {
    is_even_version(
        "1.0.0",
        "https://registry.npmjs.org/is-even/-/is-even-1.0.0.tgz",
        "76b5055fbad8d294a86b6a949015e1c97b717c06",
        "sha512-LEhnkAdJqic4Dbqn58A0y52IXoHWlsueqQkKfMfdEnIYG8A1sm/GHidKkS6yvXlMoRrkM34csHnXQtOqcb+Jzg==",
        "MEQCIGdFCa72n+vIbeujikn3ExFVcAX2rnuKWBBFWQlQIH1gAiBn5HXb7zzOTEFwAnHX8zrI8+2gPyDaxgy5gAMFq7fzhA==",
    )
}

fn v1_0_1() -> NpmPackageVersion {
    is_even_version(
        "1.0.1",
        "https://registry.npmjs.org/is-even/-/is-even-1.0.1.tgz",
        "76b5055fbad8d294a86b6a949015e1c97b717c06",
        "sha512-LEhnkAdJqic4Dbqn58A0y52IXoHWlsueqQkKfMfdEnIYG8A1sm/GHidKkS6yvXlMoRrkM34csHnXQtOqcb+Jzg==",
        "MEQCIGdFCa72n+vIbeujikn3ExFVcAX2rnuKWBBFWQlQIH1gAiBn5HXb7zzOTEFwAnHX8zrI8+2gPyDaxgy5gAMFq7fzhA==",
    )
}

fn is_even_package() -> NpmResolvedPackage {
    NpmResolvedPackage {
        name: String::from("is-even"),
        dist_tags: vec![(String::from("latest"), Version::new(String::from("1.0.0")))],
        versions: vec![
            (Version::new(String::from("0.1.2")), v0_1_2()),
            (Version::new(String::from("1.0.0")), v1_0_0()),
        ],
        modified: String::from("2022-06-19T02:40:54.045Z"),
    }
}

#[test]
fn package_fetcher_resolves_latest() {
    let package = is_even_package();

    let resolved = resolve_version_from_version_identifier(
        &package,
        &VersionRangeSpecifier::new(String::from("latest")),
    );

    assert_eq!(
        resolved,
        package.version_record(&Version::new("1.0.0".to_string()))
    );
}

#[test]
fn package_fetcher_resolves_semver() {
    let package = is_even_package();

    let resolved = resolve_version_from_version_identifier(
        &package,
        &VersionRangeSpecifier::new(String::from("^0.1.2")),
    );

    assert_eq!(
        resolved,
        package.version_record(&Version::new("0.1.2".to_string()))
    );
}

#[test]
fn resolves_semver_returns_last_matching() {
    let mut package = is_even_package();
    package
        .versions
        .push((Version::new(String::from("1.0.1")), v1_0_1()));

    let resolved = resolve_version_from_version_identifier(
        &package,
        &VersionRangeSpecifier::new(String::from("^1.0.0")),
    );

    assert_eq!(
        resolved,
        package.version_record(&Version::new("1.0.1".to_string()))
    );
}

#[test]
fn resolve_version_returns_none_with_semver() {
    let package = is_even_package();

    let resolved = resolve_version_from_version_identifier(
        &package,
        &VersionRangeSpecifier::new(String::from("^2.0.0")),
    );

    assert_eq!(resolved, None);
}

#[test]
fn resolve_version_returns_none_with_latest() {
    let mut package = is_even_package();
    package.dist_tags = vec![(String::from("newest"), Version::new(String::from("1.0.0")))];

    let resolved = resolve_version_from_version_identifier(
        &package,
        &VersionRangeSpecifier::new(String::from("latest")),
    );

    assert_eq!(resolved, None);
}

#[test]
fn version_range_resolver_resolves_latest() {
    let package = is_even_package();

    let resolved = resolve_version_from_version_range(
        &package,
        &VersionRangeSpecifier::new(String::from("latest")),
    );

    assert_eq!(
        resolved,
        package.version_record(&Version::new("1.0.0".to_string()))
    );
}

#[test]
fn version_range_resolver_resolves_semver() {
    let package = is_even_package();

    let resolved = resolve_version_from_version_range(
        &package,
        &VersionRangeSpecifier::new(String::from("^0.1.2")),
    );

    assert_eq!(
        resolved,
        package.version_record(&Version::new("0.1.2".to_string()))
    );
}

fn bare_version(name: &str, ver: &str) -> NpmPackageVersion {
    NpmPackageVersion {
        name: String::from(name),
        version: Version::new(String::from(ver)),
        dependencies: None,
        dist: NpmVersionDist {
            shasum: String::from("0000000000000000000000000000000000000000"),
            tarball: UrlString::new(format!(
                "https://registry.npmjs.org/{}/-/{}-{}.tgz",
                name, name, ver
            )),
            integrity: None,
            file_count: None,
            unpacked_size: None,
            npm_signatures: None,
            signatures: None,
        },
        engines: None,
    }
}

fn bare_package(name: &str, versions: &[&str], tags: &[(&str, &str)]) -> NpmResolvedPackage {
    NpmResolvedPackage {
        name: String::from(name),
        dist_tags: tags
            .iter()
            .map(|(t, v)| (String::from(*t), Version::new(String::from(*v))))
            .collect(),
        versions: versions
            .iter()
            .map(|v| (Version::new(String::from(*v)), bare_version(name, v)))
            .collect(),
        modified: String::from("2022-06-19T02:40:54.045Z"),
    }
}

#[test]
fn range_selects_highest_matching() {
    let package = bare_package(
        "foo",
        &["1.0.0", "1.1.0", "1.1.1", "2.0.0"],
        &[("latest", "2.0.0")],
    );

    let resolved = resolve_version_from_version_range(
        &package,
        &VersionRangeSpecifier::new(String::from("^1")),
    );

    assert_eq!(
        resolved,
        package.version_record(&Version::new("1.1.1".to_string()))
    );
}

#[test]
fn tag_without_published_version_gives_none() {
    let package = bare_package("foo", &["1.0.0"], &[("latest", "9.9.9")]);

    let resolved = resolve_version_from_version_range(
        &package,
        &VersionRangeSpecifier::new(String::from("latest")),
    );

    assert_eq!(resolved, None);
}

#[test]
fn unparsable_version_entries_are_skipped() {
    let package = bare_package("foo", &["1.0.0", "not-a-version"], &[]);

    let resolved = resolve_version_from_version_range(
        &package,
        &VersionRangeSpecifier::new(String::from("^1.0.0")),
    );

    assert_eq!(
        resolved,
        package.version_record(&Version::new("1.0.0".to_string()))
    );
}

#[test]
fn selects_highest_even_when_document_unsorted() {
    // a backported release published after the newer line
    let package = bare_package("foo", &["1.1.1", "2.0.0", "1.0.2"], &[]);

    let resolved = resolve_version_from_version_range(
        &package,
        &VersionRangeSpecifier::new(String::from("^1")),
    );

    assert_eq!(
        resolved,
        package.version_record(&Version::new("1.1.1".to_string()))
    );
}

#[test]
fn wildcard_comparator_ranges_fall_through_to_tags() {
    // the vendored range parser cannot be asked about these shapes;
    // the selector treats them as (absent) distribution tags
    let package = bare_package("foo", &["1.0.0"], &[("latest", "1.0.0")]);

    for raw in ["=*", "= x", "=X", "~*", "~x", "~> *", "=v *"] {
        let resolved = resolve_version_from_version_range(
            &package,
            &VersionRangeSpecifier::new(String::from(raw)),
        );
        assert_eq!(resolved, None);
    }
}

#[test]
fn wildcard_after_comparator_tail_still_parses() {
    // `>=*` is safe for the parser (the `>=` arms cover wildcards),
    // so it still goes down the range path and matches everything
    let package = bare_package("foo", &["1.0.0"], &[("latest", "1.0.0")]);

    let resolved = resolve_version_from_version_range(
        &package,
        &VersionRangeSpecifier::new(String::from(">=*")),
    );

    assert_eq!(
        resolved,
        package.version_record(&Version::new("1.0.0".to_string()))
    );
}
