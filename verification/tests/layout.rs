use fast_package_manager::fs_layout::{
    dep_symlink_link, dep_symlink_target, get_dep_symlink_path, hardlink_descends_into,
    is_scoped, join_components, local_store_package_dir, name_components, store_package_dir,
    strip_package_prefix, top_symlink_link, top_symlink_target,
};
use fast_package_manager::npm::Version;

fn strings(parts: &[&str]) -> Vec<String> {
    parts.iter().map(|p| String::from(*p)).collect()
}

#[test]
fn splits_plain_and_scoped_names() {
    assert_eq!(name_components(&String::from("react")), strings(&["react"]));
    assert_eq!(
        name_components(&String::from("@babel/core")),
        strings(&["@babel", "core"])
    );
    assert!(!is_scoped(&String::from("react")));
    assert!(is_scoped(&String::from("@babel/core")));
}

#[test]
fn store_paths_have_content_address_shape() {
    let v = Version::new(String::from("7.0.0"));
    assert_eq!(
        store_package_dir(&String::from("is-number"), &v),
        strings(&[".fpm", "is-number@7.0.0", "node_modules", "is-number"])
    );
    assert_eq!(
        local_store_package_dir(&String::from("is-number"), &v),
        strings(&[
            "node_modules",
            ".fpm",
            "is-number@7.0.0",
            "node_modules",
            "is-number"
        ])
    );
}

#[test]
fn scoped_store_path_nests_the_scope() {
    let v = Version::new(String::from("1.2.3"));
    assert_eq!(
        local_store_package_dir(&String::from("@babel/core"), &v),
        strings(&[
            "node_modules",
            ".fpm",
            "@babel",
            "core@1.2.3",
            "node_modules",
            "@babel",
            "core"
        ])
    );
}

#[test]
fn dep_symlink_path_for_plain_dep() {
    let path = get_dep_symlink_path(
        &String::from("is-odd"),
        &Version::new(String::from("0.1.2")),
    );
    assert_eq!(path, String::from("../../is-odd@0.1.2/node_modules/is-odd"));
}

#[test]
fn dep_symlink_path_for_scoped_dep_climbs_once_more() {
    let path = get_dep_symlink_path(
        &String::from("@scope/pkg"),
        &Version::new(String::from("2.0.0")),
    );
    assert_eq!(
        path,
        String::from("../../../@scope/pkg@2.0.0/node_modules/@scope/pkg")
    );
}

#[test]
fn scoped_dep_symlink_resolves_into_local_store() {
    // resolve the relative target by hand, as the filesystem would,
    // starting from the directory that contains the link
    let parent = String::from("app");
    let pv = Version::new(String::from("1.0.0"));
    let dep = String::from("@scope/pkg");
    let dv = Version::new(String::from("2.0.0"));

    let link = dep_symlink_link(&parent, &pv, &dep);
    let target = dep_symlink_target(&parent, &dep, &dv);

    let mut at: Vec<String> = link[..link.len() - 1].to_vec();
    for part in target {
        if part == ".." {
            at.pop();
        } else if part != "." {
            at.push(part);
        }
    }
    assert_eq!(at, local_store_package_dir(&dep, &dv));
}

#[test]
fn top_symlink_for_scoped_root_climbs_out_of_scope_dir() {
    let name = String::from("@scope/pkg");
    let v = Version::new(String::from("2.0.0"));
    assert_eq!(
        top_symlink_link(&name),
        strings(&["node_modules", "@scope", "pkg"])
    );
    assert_eq!(
        top_symlink_target(&name, &v),
        strings(&["..", ".fpm", "@scope", "pkg@2.0.0", "node_modules", "@scope", "pkg"])
    );
}

#[test]
fn joins_components_with_slashes() {
    assert_eq!(
        join_components(&strings(&["node_modules", ".fpm", "a@1.0.0"])),
        String::from("node_modules/.fpm/a@1.0.0")
    );
    assert_eq!(join_components(&strings(&[])), String::new());
}

#[test]
fn strips_registry_tarball_prefix() {
    assert_eq!(
        strip_package_prefix("package/lib/index.js"),
        Some(String::from("lib/index.js"))
    );
    assert_eq!(strip_package_prefix("lib/index.js"), None);
    assert_eq!(strip_package_prefix("pack"), None);
}

#[test]
fn hardlink_walk_skips_nested_deps_dir() {
    assert!(hardlink_descends_into(&String::from("src")));
    assert!(!hardlink_descends_into(&String::from("node_modules")));
}
