//! The installer's decision core. Given the resolved node list it
//! computes the complete install plan: what to download into the
//! store, which directories to hardlink, which symlinks to create,
//! and what to merge into the manifest. The driver executes the
//! plan's phases in field order (downloads, hardlinks, dependency
//! symlinks, top-level symlinks, manifest), performing the I/O.

use vstd::prelude::*;

use crate::dependency_resolver::{rd_view, spec_resolve, ErrorView, ReqPair,
    ResolvedDependencies, ResolvedDependenciesView};
use crate::npm::NpmResolvedPackageView;
use crate::fs_layout::{dep_symlink_link, dep_symlink_target, local_store_package_dir,
    parts_view, spec_dep_symlink_link, spec_dep_symlink_target, spec_local_store_package_dir,
    spec_store_package_dir, spec_top_symlink_link, spec_top_symlink_target, store_package_dir,
    top_symlink_link, top_symlink_target};
use crate::npm::{UrlString, Version, VersionRangeSpecifier, view_dep_list};
use crate::package_manifest::caret_range_for;

verus! {

/// A pair of paths, as components: where a link is created and what
/// it points at (or a source and a destination).
pub type LinkPair = (Vec<String>, Vec<String>);

/// View of a list of path pairs.
pub open spec fn link_pairs_view(s: Seq<LinkPair>) -> Seq<(Seq<Seq<char>>, Seq<Seq<char>>)> {
    s.map_values(|p: LinkPair| (parts_view(p.0@), parts_view(p.1@)))
}

/// Everything the installer will do, in phase order.
pub struct InstallPlan {
    /// One download per resolved node: extract the tarball at the URL
    /// into the global store directory of `(name, version)`.
    pub downloads: Vec<(String, Version, UrlString)>,
    /// One hardlink pass per node: mirror the store directory into
    /// the project-local store directory.
    pub hardlinks: Vec<LinkPair>,
    /// One symlink per resolved dependency edge.
    pub dep_symlinks: Vec<LinkPair>,
    /// One symlink per root, at the project's dependency directory.
    pub top_symlinks: Vec<LinkPair>,
    /// One manifest entry per root: its name at `^{version}`.
    pub manifest_additions: Vec<(String, VersionRangeSpecifier)>,
}

/// The downloads a node list calls for.
pub open spec fn spec_downloads(nodes: Seq<ResolvedDependenciesView>) -> Seq<
    (Seq<char>, Seq<char>, Seq<char>),
> {
    nodes.map_values(
        |n: ResolvedDependenciesView| (n.name, n.version, n.record.dist.tarball),
    )
}

/// The hardlink pass a node list calls for.
pub open spec fn spec_hardlinks(nodes: Seq<ResolvedDependenciesView>) -> Seq<
    (Seq<Seq<char>>, Seq<Seq<char>>),
> {
    nodes.map_values(
        |n: ResolvedDependenciesView| (
            spec_store_package_dir(n.name, n.version),
            spec_local_store_package_dir(n.name, n.version),
        ),
    )
}

/// The symlinks one node's dependency edges call for.
pub open spec fn spec_node_dep_symlinks(n: ResolvedDependenciesView) -> Seq<
    (Seq<Seq<char>>, Seq<Seq<char>>),
> {
    n.dependencies.map_values(
        |d: (Seq<char>, Seq<char>)| (
            spec_dep_symlink_link(n.name, n.version, d.0),
            spec_dep_symlink_target(n.name, d.0, d.1),
        ),
    )
}

/// The symlinks all dependency edges call for, in node order.
pub open spec fn spec_dep_symlinks(nodes: Seq<ResolvedDependenciesView>) -> Seq<
    (Seq<Seq<char>>, Seq<Seq<char>>),
>
    decreases nodes.len(),
{
    if nodes.len() == 0 {
        Seq::empty()
    } else {
        spec_dep_symlinks(nodes.drop_last()) + spec_node_dep_symlinks(nodes.last())
    }
}

/// The top-level symlinks the roots call for.
pub open spec fn spec_top_symlinks(nodes: Seq<ResolvedDependenciesView>) -> Seq<
    (Seq<Seq<char>>, Seq<Seq<char>>),
>
    decreases nodes.len(),
{
    if nodes.len() == 0 {
        Seq::empty()
    } else {
        spec_top_symlinks(nodes.drop_last()) + (if nodes.last().is_root {
            seq![
                (
                    spec_top_symlink_link(nodes.last().name),
                    spec_top_symlink_target(nodes.last().name, nodes.last().version),
                ),
            ]
        } else {
            Seq::empty()
        })
    }
}

/// The manifest entries the roots call for.
pub open spec fn spec_manifest_additions(nodes: Seq<ResolvedDependenciesView>) -> Seq<
    (Seq<char>, Seq<char>),
>
    decreases nodes.len(),
{
    if nodes.len() == 0 {
        Seq::empty()
    } else {
        spec_manifest_additions(nodes.drop_last()) + (if nodes.last().is_root {
            seq![(nodes.last().name, "^"@ + nodes.last().version)]
        } else {
            Seq::empty()
        })
    }
}

/// Compute the full install plan of a resolved node list.
pub fn plan_install(resolved: &Vec<ResolvedDependencies>) -> (r: InstallPlan)
    ensures
        r.downloads@.map_values(
            |d: (String, Version, UrlString)| (d.0@, d.1@, d.2@),
        ) == spec_downloads(rd_view(resolved@)),
        link_pairs_view(r.hardlinks@) == spec_hardlinks(rd_view(resolved@)),
        link_pairs_view(r.dep_symlinks@) == spec_dep_symlinks(rd_view(resolved@)),
        link_pairs_view(r.top_symlinks@) == spec_top_symlinks(rd_view(resolved@)),
        view_dep_list(r.manifest_additions@) == spec_manifest_additions(rd_view(resolved@)),
{
    let ghost nodes = rd_view(resolved@);
    let mut downloads: Vec<(String, Version, UrlString)> = Vec::new();
    let mut hardlinks: Vec<LinkPair> = Vec::new();
    let mut dep_symlinks: Vec<LinkPair> = Vec::new();
    let mut top_symlinks: Vec<LinkPair> = Vec::new();
    let mut manifest_additions: Vec<(String, VersionRangeSpecifier)> = Vec::new();
    let mut i: usize = 0;
    while i < resolved.len()
        invariant
            i <= resolved@.len(),
            nodes == rd_view(resolved@),
            downloads@.map_values(|d: (String, Version, UrlString)| (d.0@, d.1@, d.2@))
                =~~= spec_downloads(nodes.take(i as int)),
            link_pairs_view(hardlinks@) =~~= spec_hardlinks(nodes.take(i as int)),
            link_pairs_view(dep_symlinks@) =~~= spec_dep_symlinks(nodes.take(i as int)),
            link_pairs_view(top_symlinks@) =~~= spec_top_symlinks(nodes.take(i as int)),
            view_dep_list(manifest_additions@) =~~= spec_manifest_additions(
                nodes.take(i as int),
            ),
        decreases resolved@.len() - i,
    {
        let ghost n = nodes[i as int];
        proof {
            assert(n == resolved@[i as int]@);
            assert(nodes.take(i + 1).drop_last() =~= nodes.take(i as int));
            assert(nodes.take(i + 1).last() == n);
        }
        let node = &resolved[i];
        downloads.push((node.name.clone(), node.version.duplicate(), node.record.dist.tarball.duplicate()));
        proof {
            let dl = downloads@.map_values(
                |d: (String, Version, UrlString)| (d.0@, d.1@, d.2@),
            );
            assert(dl.last() == (n.name, n.version, n.record.dist.tarball));
            assert(dl.len() == i + 1);
            assert(spec_downloads(nodes.take(i + 1)).len() == i + 1);
            assert(forall|k: int|
                0 <= k < i ==> #[trigger] dl[k] == spec_downloads(nodes.take(i as int))[k]);
            assert(forall|k: int|
                0 <= k < i ==> #[trigger] spec_downloads(nodes.take(i as int))[k]
                    == spec_downloads(nodes.take(i + 1))[k]);
            assert(dl[i as int] == spec_downloads(nodes.take(i + 1))[i as int]);
            assert(dl =~~= spec_downloads(nodes.take(i + 1)));
        }
        let hl_src = store_package_dir(&node.name, &node.version);
        let hl_dst = local_store_package_dir(&node.name, &node.version);
        let ghost hl_srcv = parts_view(hl_src@);
        let ghost hl_dstv = parts_view(hl_dst@);
        hardlinks.push((hl_src, hl_dst));
        proof {
            let hv = link_pairs_view(hardlinks@);
            assert(hv.last() == (hl_srcv, hl_dstv));
            assert(hv.len() == i + 1);
            assert(spec_hardlinks(nodes.take(i + 1)).len() == i + 1);
            assert(forall|k: int|
                0 <= k < i ==> #[trigger] hv[k] == spec_hardlinks(nodes.take(i as int))[k]);
            assert(forall|k: int|
                0 <= k < i ==> #[trigger] spec_hardlinks(nodes.take(i as int))[k]
                    == spec_hardlinks(nodes.take(i + 1))[k]);
            assert(hv[i as int] == spec_hardlinks(nodes.take(i + 1))[i as int]);
            assert(hv =~~= spec_hardlinks(nodes.take(i + 1)));
        }
        let ghost dep_before = link_pairs_view(dep_symlinks@);
        let mut j: usize = 0;
        while j < node.dependencies.len()
            invariant
                j <= node.dependencies@.len(),
                n == resolved@[i as int]@,
                0 <= i < resolved@.len(),
                link_pairs_view(dep_symlinks@) =~~= dep_before + spec_node_dep_symlinks(
                    n,
                ).take(j as int),
            decreases node.dependencies@.len() - j,
        {
            let ghost d = n.dependencies[j as int];
            proof {
                assert(d == (node.dependencies@[j as int].0@, node.dependencies@[j as int].1@));
                assert(spec_node_dep_symlinks(n).take(j + 1).drop_last()
                    =~~= spec_node_dep_symlinks(n).take(j as int));
                assert(spec_node_dep_symlinks(n)[j as int] == (
                    spec_dep_symlink_link(n.name, n.version, d.0),
                    spec_dep_symlink_target(n.name, d.0, d.1),
                ));
            }
            let (dn, dv) = &node.dependencies[j];
            let link_at = dep_symlink_link(&node.name, &node.version, dn);
            let target = dep_symlink_target(&node.name, dn, dv);
            let ghost linkv = parts_view(link_at@);
            let ghost targetv = parts_view(target@);
            dep_symlinks.push((link_at, target));
            proof {
                let dv2 = link_pairs_view(dep_symlinks@);
                let target2 = dep_before + spec_node_dep_symlinks(n).take(j + 1);
                assert(dv2.last() == (linkv, targetv));
                assert((linkv, targetv) == spec_node_dep_symlinks(n)[j as int]);
                assert(dv2.len() == dep_before.len() + j + 1);
                assert(target2.len() == dep_before.len() + j + 1);
                assert(forall|k: int|
                    0 <= k < dep_before.len() + j ==> #[trigger] dv2[k] == (dep_before
                        + spec_node_dep_symlinks(n).take(j as int))[k]);
                assert(forall|k: int|
                    0 <= k < dep_before.len() + j ==> (dep_before + spec_node_dep_symlinks(
                        n,
                    ).take(j as int))[k] == #[trigger] target2[k]);
                assert(dv2[dep_before.len() + j] == target2[dep_before.len() + j]);
                assert(dv2 =~~= target2);
            }
            j = j + 1;
        }
        proof {
            assert(spec_node_dep_symlinks(n).take(node.dependencies@.len() as int)
                =~~= spec_node_dep_symlinks(n));
        }
        if node.is_root {
            let tl = top_symlink_link(&node.name);
            let tt = top_symlink_target(&node.name, &node.version);
            let ghost tlv = parts_view(tl@);
            let ghost ttv = parts_view(tt@);
            top_symlinks.push((tl, tt));
            manifest_additions.push((node.name.clone(), caret_range_for(&node.version)));
            proof {
                assert(link_pairs_view(top_symlinks@).last() == (tlv, ttv));
                assert(view_dep_list(manifest_additions@).last() == (n.name, "^"@ + n.version));
            }
        }
        proof {
            assert(link_pairs_view(dep_symlinks@) =~~= spec_dep_symlinks(nodes.take(i + 1)));
            assert(link_pairs_view(top_symlinks@) =~~= spec_top_symlinks(nodes.take(i + 1)));
            assert(view_dep_list(manifest_additions@) =~~= spec_manifest_additions(
                nodes.take(i + 1),
            ));
        }
        i = i + 1;
    }
    proof {
        assert(nodes.take(resolved@.len() as int) =~= nodes);
    }
    InstallPlan { downloads, hardlinks, dep_symlinks, top_symlinks, manifest_additions }
}


/// Law (idempotent install, decision side): a second install with the
/// same roots against the same registry state resolves to the same
/// node list and therefore calls for exactly the same downloads,
/// hardlinks, symlinks and manifest entries. The filesystem side is
/// idempotent in the driver: store directories are written only if
/// absent, and `AlreadyExists` from link creation is absorbed.
pub proof fn lemma_idempotent_install_plan(
    roots: Seq<ReqPair>,
    reg: Seq<(Seq<char>, NpmResolvedPackageView)>,
    r1: Seq<ResolvedDependenciesView>,
    r2: Seq<ResolvedDependenciesView>,
)
    requires
        spec_resolve(roots, reg) == Some(Ok::<Seq<ResolvedDependenciesView>, ErrorView>(r1)),
        spec_resolve(roots, reg) == Some(Ok::<Seq<ResolvedDependenciesView>, ErrorView>(r2)),
    ensures
        r1 == r2,
        spec_downloads(r1) == spec_downloads(r2),
        spec_hardlinks(r1) == spec_hardlinks(r2),
        spec_dep_symlinks(r1) == spec_dep_symlinks(r2),
        spec_top_symlinks(r1) == spec_top_symlinks(r2),
        spec_manifest_additions(r1) == spec_manifest_additions(r2),
{
}

} // verus!
