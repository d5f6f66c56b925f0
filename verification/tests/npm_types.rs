use fast_package_manager::npm::{Version, VersionRangeSpecifier};

#[test]
fn version_eq() {
    assert_eq!(
        Version::new(String::from("1.0.0")),
        Version::new(String::from("1.0.0"))
    )
}

#[test]
fn version_range_eq() {
    assert_eq!(
        VersionRangeSpecifier::new(String::from(">1.0.0")),
        VersionRangeSpecifier::new(String::from(">1.0.0"))
    )
}

#[test]
fn version_range_ref_eq() {
    let range = VersionRangeSpecifier::new(String::from(">1.0.0"));
    let range_ref = &range;

    assert_eq!(
        *range_ref,
        VersionRangeSpecifier::new(String::from(">1.0.0"))
    )
}
