use fast_package_manager::dependency_resolver::{
    construct_dependency_tree, construct_dependency_vec, resolve_deps, DependencyResolver, Error,
    Registry, ResolvedDependencies,
};
use fast_package_manager::install_package::plan_install;
use fast_package_manager::npm::{
    NpmPackageVersion, NpmResolvedPackage, NpmVersionDist, UrlString, Version,
    VersionRangeSpecifier,
};

fn version_with_deps(name: &str, ver: &str, deps: &[(&str, &str)]) -> NpmPackageVersion {
    NpmPackageVersion {
        name: String::from(name),
        version: Version::new(String::from(ver)),
        dependencies: if deps.is_empty() {
            None
        } else {
            Some(
                deps.iter()
                    .map(|(n, r)| {
                        (String::from(*n), VersionRangeSpecifier::new(String::from(*r)))
                    })
                    .collect(),
            )
        },
        dist: NpmVersionDist {
            shasum: String::from("0000000000000000000000000000000000000000"),
            tarball: UrlString::new(format!(
                "https://registry.npmjs.org/{}/-/{}-{}.tgz",
                name, name, ver
            )),
            integrity: None,
            file_count: None,
            unpacked_size: None,
            npm_signatures: None,
            signatures: None,
        },
        engines: None,
    }
}

fn package(
    name: &str,
    versions: &[(&str, &[(&str, &str)])],
    tags: &[(&str, &str)],
) -> NpmResolvedPackage {
    NpmResolvedPackage {
        name: String::from(name),
        dist_tags: tags
            .iter()
            .map(|(t, v)| (String::from(*t), Version::new(String::from(*v))))
            .collect(),
        versions: versions
            .iter()
            .map(|(v, deps)| {
                (
                    Version::new(String::from(*v)),
                    version_with_deps(name, v, deps),
                )
            })
            .collect(),
        modified: String::from("2022-06-19T02:40:54.045Z"),
    }
}

fn roots(reqs: &[(&str, &str)]) -> Vec<(String, VersionRangeSpecifier)> {
    reqs.iter()
        .map(|(n, r)| (String::from(*n), VersionRangeSpecifier::new(String::from(*r))))
        .collect()
}

fn node_named<'a>(nodes: &'a [ResolvedDependencies], name: &str) -> &'a ResolvedDependencies {
    nodes
        .iter()
        .find(|n| n.name == name)
        .expect("missing resolved node")
}

#[test]
fn single_root_no_deps() {
    let registry = Registry {
        packages: vec![(
            String::from("is-number"),
            package("is-number", &[("7.0.0", &[])], &[("latest", "7.0.0")]),
        )],
    };

    let resolved = resolve_deps(&roots(&[("is-number", "latest")]), &registry).unwrap();

    assert_eq!(resolved.len(), 1);
    assert_eq!(resolved[0].name, String::from("is-number"));
    assert_eq!(resolved[0].version, Version::new(String::from("7.0.0")));
    assert!(resolved[0].is_root);
    assert!(resolved[0].dependencies.is_empty());

    let plan = plan_install(&resolved);
    assert_eq!(
        plan.top_symlinks,
        vec![(
            vec![String::from("node_modules"), String::from("is-number")],
            vec![
                String::from("."),
                String::from(".fpm"),
                String::from("is-number@7.0.0"),
                String::from("node_modules"),
                String::from("is-number"),
            ],
        )]
    );
}

fn chain_registry() -> Registry {
    Registry {
        packages: vec![
            (
                String::from("a"),
                package("a", &[("1.0.0", &[("b", "^1")])], &[("latest", "1.0.0")]),
            ),
            (String::from("b"), package("b", &[("1.2.0", &[("c", "^2")])], &[])),
            (String::from("c"), package("c", &[("2.0.0", &[])], &[])),
        ],
    }
}

#[test]
fn transitive_chain() {
    let registry = chain_registry();

    let resolved = resolve_deps(&roots(&[("a", "latest")]), &registry).unwrap();

    assert_eq!(resolved.len(), 3);
    let a = node_named(&resolved, "a");
    let b = node_named(&resolved, "b");
    let c = node_named(&resolved, "c");
    assert_eq!(
        a.dependencies,
        vec![(String::from("b"), Version::new(String::from("1.2.0")))]
    );
    assert_eq!(
        b.dependencies,
        vec![(String::from("c"), Version::new(String::from("2.0.0")))]
    );
    assert!(c.dependencies.is_empty());
    assert!(a.is_root);
    assert!(!b.is_root);
    assert!(!c.is_root);

    let plan = plan_install(&resolved);
    assert!(plan.dep_symlinks.contains(&(
        vec![
            String::from("node_modules"),
            String::from(".fpm"),
            String::from("a@1.0.0"),
            String::from("node_modules"),
            String::from("b"),
        ],
        vec![
            String::from(".."),
            String::from(".."),
            String::from("b@1.2.0"),
            String::from("node_modules"),
            String::from("b"),
        ],
    )));
}

#[test]
fn shared_transitive_dep_is_resolved_once() {
    let registry = Registry {
        packages: vec![
            (
                String::from("x"),
                package("x", &[("1.0.0", &[("shared", "^1")])], &[("latest", "1.0.0")]),
            ),
            (
                String::from("y"),
                package("y", &[("1.0.0", &[("shared", "^1")])], &[("latest", "1.0.0")]),
            ),
            (
                String::from("shared"),
                package("shared", &[("1.4.2", &[])], &[]),
            ),
        ],
    };

    let resolved =
        resolve_deps(&roots(&[("x", "latest"), ("y", "latest")]), &registry).unwrap();

    assert_eq!(resolved.len(), 3);
    let shared_nodes: Vec<_> = resolved.iter().filter(|n| n.name == "shared").collect();
    assert_eq!(shared_nodes.len(), 1);
    assert_eq!(
        node_named(&resolved, "x").dependencies,
        vec![(String::from("shared"), Version::new(String::from("1.4.2")))]
    );
    assert_eq!(
        node_named(&resolved, "y").dependencies,
        vec![(String::from("shared"), Version::new(String::from("1.4.2")))]
    );
}

#[test]
fn shared_dep_document_is_fetched_once() {
    let registry = Registry {
        packages: vec![
            (
                String::from("x"),
                package("x", &[("1.0.0", &[("shared", "^1")])], &[("latest", "1.0.0")]),
            ),
            (
                String::from("y"),
                package("y", &[("1.0.0", &[("shared", "^1")])], &[("latest", "1.0.0")]),
            ),
            (
                String::from("shared"),
                package("shared", &[("1.4.2", &[])], &[]),
            ),
        ],
    };

    let mut resolver = DependencyResolver::new(&roots(&[("x", "latest"), ("y", "latest")]));
    let mut fetches: usize = 0;
    while !resolver.is_done() {
        let needed = resolver.needed_doc().map(|n| n.clone());
        if let Some(name) = needed {
            let doc = registry.lookup(&name).expect("unknown package").duplicate();
            resolver.add_document(name, doc);
            fetches += 1;
        }
        resolver.step().expect("resolution failed");
    }
    let resolved = construct_dependency_vec(&resolver);

    // one document fetch per distinct package name, despite two edges
    // to `shared`
    assert_eq!(fetches, 3);
    assert!(resolver.has_document(&String::from("shared")));
    assert_eq!(resolved.len(), 3);
}

#[test]
fn two_ranges_select_same_version() {
    let registry = Registry {
        packages: vec![
            (
                String::from("p"),
                package("p", &[("1.0.0", &[("q", "^1.0.0")])], &[("latest", "1.0.0")]),
            ),
            (
                String::from("r"),
                package("r", &[("1.0.0", &[("q", "~1.2")])], &[("latest", "1.0.0")]),
            ),
            (String::from("q"), package("q", &[("1.2.3", &[])], &[])),
        ],
    };

    let resolved =
        resolve_deps(&roots(&[("p", "latest"), ("r", "latest")]), &registry).unwrap();

    assert_eq!(resolved.len(), 3);
    let q_nodes: Vec<_> = resolved.iter().filter(|n| n.name == "q").collect();
    assert_eq!(q_nodes.len(), 1);
    assert_eq!(q_nodes[0].version, Version::new(String::from("1.2.3")));
    assert_eq!(
        node_named(&resolved, "p").dependencies,
        vec![(String::from("q"), Version::new(String::from("1.2.3")))]
    );
    assert_eq!(
        node_named(&resolved, "r").dependencies,
        vec![(String::from("q"), Version::new(String::from("1.2.3")))]
    );
}

#[test]
fn unsatisfiable_range_fails_resolve() {
    let registry = Registry {
        packages: vec![(
            String::from("foo"),
            package("foo", &[("1.0.0", &[])], &[("latest", "1.0.0")]),
        )],
    };

    let result = resolve_deps(&roots(&[("foo", "^2.0.0")]), &registry);

    assert_eq!(
        result,
        Err(Error::VersionDoesNotExist(
            String::from("foo"),
            VersionRangeSpecifier::new(String::from("^2.0.0")),
        ))
    );
}

#[test]
fn tag_fallthrough_fails_resolve() {
    let registry = Registry {
        packages: vec![(
            String::from("bar"),
            package("bar", &[("1.0.0", &[])], &[("stable", "1.0.0")]),
        )],
    };

    let result = resolve_deps(&roots(&[("bar", "latest")]), &registry);

    assert_eq!(
        result,
        Err(Error::VersionDoesNotExist(
            String::from("bar"),
            VersionRangeSpecifier::new(String::from("latest")),
        ))
    );
}

#[test]
fn missing_document_fails_resolve() {
    let registry = Registry { packages: vec![] };

    let result = resolve_deps(&roots(&[("ghost", "latest")]), &registry);

    assert_eq!(result, Err(Error::DependencyResolveError));
}

#[test]
fn second_resolve_yields_identical_nodes_and_plan() {
    let registry = chain_registry();
    let reqs = roots(&[("a", "latest")]);

    let first = resolve_deps(&reqs, &registry).unwrap();
    let second = resolve_deps(&reqs, &registry).unwrap();

    assert_eq!(first, second);

    let plan1 = plan_install(&first);
    let plan2 = plan_install(&second);
    assert_eq!(plan1.downloads, plan2.downloads);
    assert_eq!(plan1.hardlinks, plan2.hardlinks);
    assert_eq!(plan1.dep_symlinks, plan2.dep_symlinks);
    assert_eq!(plan1.top_symlinks, plan2.top_symlinks);
    assert_eq!(plan1.manifest_additions, plan2.manifest_additions);
}

fn tree_table(
    entries: &[(&str, &str, &str, &[(&str, &str)])],
) -> Vec<(String, VersionRangeSpecifier, NpmPackageVersion)> {
    entries
        .iter()
        .map(|(name, range, ver, deps)| {
            (
                String::from(*name),
                VersionRangeSpecifier::new(String::from(*range)),
                version_with_deps(name, ver, deps),
            )
        })
        .collect()
}

#[test]
fn builds_dependency_tree_for_chain() {
    let table = tree_table(&[
        ("a", "latest", "1.0.0", &[("b", "^1")]),
        ("b", "^1", "1.2.0", &[("c", "^2")]),
        ("c", "^2", "2.0.0", &[]),
    ]);

    let tree = construct_dependency_tree(
        &String::from("a"),
        &VersionRangeSpecifier::new(String::from("latest")),
        &table,
        16,
    )
    .unwrap();

    assert_eq!(tree.name, String::from("a"));
    assert_eq!(tree.version.version, Version::new(String::from("1.0.0")));
    assert_eq!(tree.dependencies.len(), 1);
    assert_eq!(tree.dependencies[0].name, String::from("b"));
    assert_eq!(tree.dependencies[0].dependencies.len(), 1);
    assert_eq!(tree.dependencies[0].dependencies[0].name, String::from("c"));
    assert!(tree.dependencies[0].dependencies[0].dependencies.is_empty());
}

#[test]
fn tree_of_missing_entry_fails() {
    let table = tree_table(&[("a", "latest", "1.0.0", &[("b", "^1")])]);

    let result = construct_dependency_tree(
        &String::from("a"),
        &VersionRangeSpecifier::new(String::from("latest")),
        &table,
        16,
    );

    assert_eq!(
        result,
        Err(Error::VersionDoesNotExist(
            String::from("b"),
            VersionRangeSpecifier::new(String::from("^1")),
        ))
    );
}

#[test]
fn cyclic_tree_runs_out_of_fuel() {
    let table = tree_table(&[
        ("a", "^1", "1.0.0", &[("b", "^1")]),
        ("b", "^1", "1.0.0", &[("a", "^1")]),
    ]);

    let result = construct_dependency_tree(
        &String::from("a"),
        &VersionRangeSpecifier::new(String::from("^1")),
        &table,
        8,
    );

    assert_eq!(result, Err(Error::DependencyResolveError));
}

#[test]
fn empty_roots_resolve_to_nothing() {
    let registry = chain_registry();

    let resolved = resolve_deps(&roots(&[]), &registry).unwrap();

    assert!(resolved.is_empty());
    let plan = plan_install(&resolved);
    assert!(plan.downloads.is_empty());
    assert!(plan.manifest_additions.is_empty());
}

#[test]
fn duplicate_roots_are_resolved_once() {
    let registry = chain_registry();

    let resolved =
        resolve_deps(&roots(&[("a", "latest"), ("a", "latest")]), &registry).unwrap();

    assert_eq!(resolved.len(), 3);
    assert_eq!(resolved.iter().filter(|n| n.name == "a").count(), 1);
}

#[test]
fn wave_protocol_fetches_each_name_once() {
    let registry = chain_registry();

    let mut resolver = DependencyResolver::new(&roots(&[("a", "latest")]));
    let mut fetched: Vec<String> = Vec::new();
    while !resolver.is_done() {
        let wave = resolver.pending_fetches();
        for name in wave {
            let doc = registry.lookup(&name).expect("unknown package").duplicate();
            resolver.add_document(name.clone(), doc);
            fetched.push(name);
        }
        while !resolver.is_done() && resolver.needed_doc().is_none() {
            resolver.step().expect("resolution failed");
        }
    }

    fetched.sort();
    assert_eq!(
        fetched,
        vec![String::from("a"), String::from("b"), String::from("c")]
    );
}

#[test]
fn wildcard_comparator_dep_range_fails_as_version_not_found() {
    // a dependency range the vendored parser cannot be asked about is
    // treated as a tag name; with no such tag the resolve fails,
    // naming the pair - and nothing panics along the way
    let registry = Registry {
        packages: vec![
            (
                String::from("a"),
                package("a", &[("1.0.0", &[("b", "=*")])], &[("latest", "1.0.0")]),
            ),
            (String::from("b"), package("b", &[("1.0.0", &[])], &[])),
        ],
    };

    let result = resolve_deps(&roots(&[("a", "latest")]), &registry);

    assert_eq!(
        result,
        Err(Error::VersionDoesNotExist(
            String::from("b"),
            VersionRangeSpecifier::new(String::from("=*")),
        ))
    );
}
