use fast_package_manager::http::{install_fetch_header, npm_registry_url, package_document_url};
use fast_package_manager::npm::{Version, VersionRangeSpecifier};
use fast_package_manager::package_manifest::{caret_range_for, update_manifest_deps};

fn deps(entries: &[(&str, &str)]) -> Vec<(String, VersionRangeSpecifier)> {
    entries
        .iter()
        .map(|(n, r)| (String::from(*n), VersionRangeSpecifier::new(String::from(*r))))
        .collect()
}

#[test]
fn inserts_new_roots_at_the_end() {
    let mut table = deps(&[("react", "^18.0.0")]);
    update_manifest_deps(&mut table, &deps(&[("is-number", "^7.0.0")]));
    assert_eq!(table, deps(&[("react", "^18.0.0"), ("is-number", "^7.0.0")]));
}

#[test]
fn overwrites_existing_entry_in_place() {
    let mut table = deps(&[("react", "^17.0.0"), ("lodash", "^4.0.0")]);
    update_manifest_deps(&mut table, &deps(&[("react", "^18.2.0")]));
    assert_eq!(table, deps(&[("react", "^18.2.0"), ("lodash", "^4.0.0")]));
}

#[test]
fn merges_batches_first_to_last() {
    let mut table = deps(&[]);
    update_manifest_deps(&mut table, &deps(&[("a", "^1"), ("b", "^2"), ("a", "^3")]));
    assert_eq!(table, deps(&[("a", "^3"), ("b", "^2")]));
}

#[test]
fn caret_range_uses_concrete_version() {
    let range = caret_range_for(&Version::new(String::from("7.0.0")));
    assert_eq!(range, VersionRangeSpecifier::new(String::from("^7.0.0")));
}

#[test]
fn document_url_appends_name_to_base() {
    assert_eq!(
        package_document_url(npm_registry_url(), "is-number"),
        String::from("https://registry.npmjs.org/is-number")
    );
}

#[test]
fn install_header_prefers_install_documents() {
    assert_eq!(
        install_fetch_header(),
        "application/vnd.npm.install-v1+json; q=1.0, application/json; q=0.8, */*"
    );
}
