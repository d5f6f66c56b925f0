//! On-disk layout of the store and the symlink web: path components for
//! the content-addressed store, the project-local store, dependency
//! symlinks and top-level symlinks.
//!
//! Paths are built as component lists (no separator inside a
//! component); `join_components` renders them as a `/`-separated
//! string. A scoped package name `@scope/pkg` contributes two
//! components wherever a name appears in a path.

use vstd::prelude::*;

use crate::assoc::{find_from, lemma_find_from_properties};
use crate::npm::Version;

verus! {

/// The global content-addressed store directory, relative to the
/// project root.
pub open spec fn store_folder_name() -> Seq<char> {
    ".fpm"@
}

/// The dependencies directory name used throughout the layout.
pub open spec fn deps_folder_name() -> Seq<char> {
    "node_modules"@
}

pub fn store_folder() -> (r: &'static str)
    ensures
        r@ == store_folder_name(),
{
    ".fpm"
}

pub fn deps_folder() -> (r: &'static str)
    ensures
        r@ == deps_folder_name(),
{
    "node_modules"
}

/// View of a component list.
pub open spec fn parts_view(parts: Seq<String>) -> Seq<Seq<char>> {
    parts.map_values(|s: String| s@)
}

/// A `/`-separated rendering of a component list.
pub open spec fn spec_join(parts: Seq<Seq<char>>) -> Seq<char>
    decreases parts.len(),
{
    if parts.len() == 0 {
        Seq::empty()
    } else if parts.len() == 1 {
        parts[0]
    } else {
        spec_join(parts.drop_last()) + "/"@ + parts.last()
    }
}

/// Render a component list as a `/`-separated path string.
pub fn join_components(parts: &Vec<String>) -> (r: String)
    ensures
        r@ == spec_join(parts_view(parts@)),
{
    let mut out = String::new();
    let mut i: usize = 0;
    while i < parts.len()
        invariant
            i <= parts@.len(),
            out@ == spec_join(parts_view(parts@).subrange(0, i as int)),
        decreases parts@.len() - i,
    {
        if i > 0 {
            out.append("/");
        }
        out.append(parts[i].as_str());
        proof {
            let pv = parts_view(parts@);
            assert(pv.subrange(0, i + 1 as int).drop_last() =~= pv.subrange(0, i as int));
            assert(pv.subrange(0, i + 1 as int).last() == pv[i as int]);
        }
        i = i + 1;
    }
    proof {
        assert(parts_view(parts@).subrange(0, parts@.len() as int) =~= parts_view(parts@));
    }
    out
}

/// Position of the first `/` in a name, if any.
pub open spec fn slash_index(n: Seq<char>) -> Option<int> {
    find_from(n, 0, |c: char| c == '/')
}

/// Whether a package name is scoped (`@scope/pkg`).
pub open spec fn spec_is_scoped(n: Seq<char>) -> bool {
    n.len() > 0 && n[0] == '@'
}

/// The path components a package name contributes: a scoped name
/// splits at its first `/` into the scope directory and the base name.
pub open spec fn spec_name_parts(n: Seq<char>) -> Seq<Seq<char>> {
    if spec_is_scoped(n) {
        match slash_index(n) {
            Some(i) => seq![n.subrange(0, i), n.subrange(i + 1, n.len() as int)],
            None => seq![n],
        }
    } else {
        seq![n]
    }
}

pub fn is_scoped(name: &String) -> (r: bool)
    ensures
        r == spec_is_scoped(name@),
{
    let s = name.as_str();
    if s.unicode_len() == 0 {
        false
    } else {
        s.get_char(0) == '@'
    }
}

/// Split a package name into its path components.
pub fn name_components(name: &String) -> (r: Vec<String>)
    ensures
        parts_view(r@) == spec_name_parts(name@),
{
    let s = name.as_str();
    let n = s.unicode_len();
    let ghost p = |c: char| c == '/';
    proof {
        lemma_find_from_properties(name@, 0, p);
    }
    if n == 0 || s.get_char(0) != '@' {
        let mut out: Vec<String> = Vec::new();
        out.push(name.clone());
        proof {
            assert(parts_view(out@) =~= spec_name_parts(name@));
        }
        return out;
    }
    let mut i: usize = 0;
    while i < n
        invariant
            i <= name@.len(),
            n == name@.len(),
            forall|k: int| 0 <= k < i ==> !p(#[trigger] name@[k]),
        decreases n - i,
    {
        if s.get_char(i) == '/' {
            let scope = String::from_str(s.substring_char(0, i));
            let base = String::from_str(s.substring_char(i + 1, n));
            let mut out: Vec<String> = Vec::new();
            out.push(scope);
            out.push(base);
            proof {
                assert(slash_index(name@) == Some(i as int));
                assert(parts_view(out@) =~= spec_name_parts(name@));
            }
            return out;
        }
        i = i + 1;
    }
    let mut out: Vec<String> = Vec::new();
    out.push(name.clone());
    proof {
        assert(slash_index(name@) is None);
        assert(parts_view(out@) =~= spec_name_parts(name@));
    }
    out
}

/// Name components with `@{version}` attached to the last one: the
/// content-address directory of a concrete package version.
pub open spec fn spec_pkg_at_version(name_parts: Seq<Seq<char>>, version: Seq<char>) -> Seq<
    Seq<char>,
>
    recommends
        name_parts.len() > 0,
{
    name_parts.update(
        name_parts.len() - 1,
        name_parts.last() + "@"@ + version,
    )
}

fn pkg_at_version(name: &String, version: &Version) -> (r: Vec<String>)
    ensures
        parts_view(r@) == spec_pkg_at_version(spec_name_parts(name@), version@),
{
    let mut parts = name_components(name);
    let last = parts.pop().unwrap();
    let tagged = last.concat("@").concat(version.as_str());
    parts.push(tagged);
    proof {
        let np = spec_name_parts(name@);
        assert(parts_view(parts@) =~= spec_pkg_at_version(np, version@));
    }
    parts
}

/// Components of the global store directory holding the files of
/// `(name, version)`: `.fpm/{name}@{version}/node_modules/{name}`.
pub open spec fn spec_store_package_dir(name: Seq<char>, version: Seq<char>) -> Seq<Seq<char>> {
    seq![store_folder_name()] + spec_pkg_at_version(spec_name_parts(name), version) + seq![
        deps_folder_name(),
    ] + spec_name_parts(name)
}

pub fn store_package_dir(name: &String, version: &Version) -> (r: Vec<String>)
    ensures
        parts_view(r@) == spec_store_package_dir(name@, version@),
{
    let mut parts: Vec<String> = Vec::new();
    parts.push(String::from_str(store_folder()));
    let mut nv = pkg_at_version(name, version);
    parts.append(&mut nv);
    parts.push(String::from_str(deps_folder()));
    let mut nc = name_components(name);
    parts.append(&mut nc);
    proof {
        assert(parts_view(parts@) =~= spec_store_package_dir(name@, version@));
    }
    parts
}

/// Components of the project-local store directory for `(name,
/// version)`: `node_modules/.fpm/{name}@{version}/node_modules/{name}`.
pub open spec fn spec_local_store_package_dir(name: Seq<char>, version: Seq<char>) -> Seq<
    Seq<char>,
> {
    seq![deps_folder_name(), store_folder_name()] + spec_pkg_at_version(
        spec_name_parts(name),
        version,
    ) + seq![deps_folder_name()] + spec_name_parts(name)
}

pub fn local_store_package_dir(name: &String, version: &Version) -> (r: Vec<String>)
    ensures
        parts_view(r@) == spec_local_store_package_dir(name@, version@),
{
    let mut parts: Vec<String> = Vec::new();
    parts.push(String::from_str(deps_folder()));
    parts.push(String::from_str(store_folder()));
    let mut nv = pkg_at_version(name, version);
    parts.append(&mut nv);
    parts.push(String::from_str(deps_folder()));
    let mut nc = name_components(name);
    parts.append(&mut nc);
    proof {
        assert(parts_view(parts@) =~= spec_local_store_package_dir(name@, version@));
    }
    parts
}

/// Where the symlink for dependency `dep` of installed package
/// `(parent_name, parent_version)` is created:
/// `node_modules/.fpm/{parent}@{pv}/node_modules/{dep}`.
pub open spec fn spec_dep_symlink_link(
    parent_name: Seq<char>,
    parent_version: Seq<char>,
    dep_name: Seq<char>,
) -> Seq<Seq<char>> {
    seq![deps_folder_name(), store_folder_name()] + spec_pkg_at_version(
        spec_name_parts(parent_name),
        parent_version,
    ) + seq![deps_folder_name()] + spec_name_parts(dep_name)
}

pub fn dep_symlink_link(parent_name: &String, parent_version: &Version, dep_name: &String) -> (r:
    Vec<String>)
    ensures
        parts_view(r@) == spec_dep_symlink_link(parent_name@, parent_version@, dep_name@),
{
    let mut parts: Vec<String> = Vec::new();
    parts.push(String::from_str(deps_folder()));
    parts.push(String::from_str(store_folder()));
    let mut nv = pkg_at_version(parent_name, parent_version);
    parts.append(&mut nv);
    parts.push(String::from_str(deps_folder()));
    let mut nc = name_components(dep_name);
    parts.append(&mut nc);
    proof {
        assert(parts_view(parts@) =~= spec_dep_symlink_link(
            parent_name@,
            parent_version@,
            dep_name@,
        ));
    }
    parts
}

/// A run of `..` components.
pub open spec fn updirs(k: nat) -> Seq<Seq<char>> {
    Seq::new(k, |i: int| ".."@)
}

/// Append `k` `..` components.
fn push_updirs(parts: &mut Vec<String>, k: usize)
    ensures
        parts_view(final(parts)@) == parts_view(old(parts)@) + updirs(k as nat),
{
    let ghost base = parts@;
    let mut i: usize = 0;
    while i < k
        invariant
            i <= k,
            parts@.len() == base.len() + i,
            forall|j: int| 0 <= j < base.len() ==> parts@[j] == base[j],
            forall|j: int| base.len() <= j < parts@.len() ==> (#[trigger] parts@[j])@ == ".."@,
        decreases k - i,
    {
        parts.push(String::from_str(".."));
        i = i + 1;
    }
    proof {
        assert(parts_view(parts@) =~= parts_view(base) + updirs(k as nat));
    }
}

/// The relative target of a dependency symlink, seen from the link's
/// containing directory. The link sits at depth
/// `|parent content address| + 1 + (|dep name components| - 1)` below
/// the local store root, so that many `..` components climb back out.
pub open spec fn spec_dep_symlink_target(
    parent_name: Seq<char>,
    dep_name: Seq<char>,
    dep_version: Seq<char>,
) -> Seq<Seq<char>> {
    updirs(spec_name_parts(parent_name).len() + spec_name_parts(dep_name).len())
        + spec_pkg_at_version(spec_name_parts(dep_name), dep_version) + seq![deps_folder_name()]
        + spec_name_parts(dep_name)
}

pub fn dep_symlink_target(parent_name: &String, dep_name: &String, dep_version: &Version) -> (r:
    Vec<String>)
    ensures
        parts_view(r@) == spec_dep_symlink_target(parent_name@, dep_name@, dep_version@),
{
    let parent_parts = name_components(parent_name);
    let dep_parts = name_components(dep_name);
    let mut parts: Vec<String> = Vec::new();
    push_updirs(&mut parts, parent_parts.len());
    push_updirs(&mut parts, dep_parts.len());
    let mut nv = pkg_at_version(dep_name, dep_version);
    parts.append(&mut nv);
    parts.push(String::from_str(deps_folder()));
    let mut nc = name_components(dep_name);
    parts.append(&mut nc);
    proof {
        assert(updirs(spec_name_parts(parent_name@).len() + spec_name_parts(dep_name@).len())
            =~= updirs(spec_name_parts(parent_name@).len()) + updirs(
            spec_name_parts(dep_name@).len(),
        ));
        assert(parts_view(parts@) =~= spec_dep_symlink_target(
            parent_name@,
            dep_name@,
            dep_version@,
        ));
    }
    parts
}

/// Where the top-level symlink for a root package is created:
/// `node_modules/{name}`.
pub open spec fn spec_top_symlink_link(name: Seq<char>) -> Seq<Seq<char>> {
    seq![deps_folder_name()] + spec_name_parts(name)
}

pub fn top_symlink_link(name: &String) -> (r: Vec<String>)
    ensures
        parts_view(r@) == spec_top_symlink_link(name@),
{
    let mut parts: Vec<String> = Vec::new();
    parts.push(String::from_str(deps_folder()));
    let mut nc = name_components(name);
    parts.append(&mut nc);
    proof {
        assert(parts_view(parts@) =~= spec_top_symlink_link(name@));
    }
    parts
}

/// The relative target of a top-level symlink, seen from the link's
/// containing directory: into the project-local store, climbing out of
/// the scope directory first for a scoped root.
pub open spec fn spec_top_symlink_target(name: Seq<char>, version: Seq<char>) -> Seq<Seq<char>> {
    (if spec_name_parts(name).len() == 2 {
        seq![".."@]
    } else {
        seq!["."@]
    }) + seq![store_folder_name()] + spec_pkg_at_version(spec_name_parts(name), version) + seq![
        deps_folder_name(),
    ] + spec_name_parts(name)
}

pub fn top_symlink_target(name: &String, version: &Version) -> (r: Vec<String>)
    ensures
        parts_view(r@) == spec_top_symlink_target(name@, version@),
{
    let nc0 = name_components(name);
    let mut parts: Vec<String> = Vec::new();
    if nc0.len() == 2 {
        parts.push(String::from_str(".."));
    } else {
        parts.push(String::from_str("."));
    }
    parts.push(String::from_str(store_folder()));
    let mut nv = pkg_at_version(name, version);
    parts.append(&mut nv);
    parts.push(String::from_str(deps_folder()));
    let mut nc = name_components(name);
    parts.append(&mut nc);
    proof {
        assert(parts_view(parts@) =~= spec_top_symlink_target(name@, version@));
    }
    parts
}

/// The relative dependency symlink target as a path string, for an
/// unscoped parent: `../../{name}@{version}/node_modules/{name}`, with
/// one more `..` in front for a scoped dependency.
pub fn get_dep_symlink_path(name: &String, version: &Version) -> (r: String)
    ensures
        r@ == spec_join(
            updirs(1 + spec_name_parts(name@).len()) + spec_pkg_at_version(
                spec_name_parts(name@),
                version@,
            ) + seq![deps_folder_name()] + spec_name_parts(name@),
        ),
{
    let nc0 = name_components(name);
    let mut parts: Vec<String> = Vec::new();
    push_updirs(&mut parts, 1);
    push_updirs(&mut parts, nc0.len());
    let mut nv = pkg_at_version(name, version);
    parts.append(&mut nv);
    parts.push(String::from_str(deps_folder()));
    let mut nc = name_components(name);
    parts.append(&mut nc);
    proof {
        assert(updirs(1 + spec_name_parts(name@).len()) =~= updirs(1) + updirs(
            spec_name_parts(name@).len(),
        ));
        assert(parts_view(parts@) =~= updirs(1 + spec_name_parts(name@).len())
            + spec_pkg_at_version(spec_name_parts(name@), version@) + seq![deps_folder_name()]
            + spec_name_parts(name@));
    }
    join_components(&parts)
}

/// The hardlink pass mirrors a package's stored files, but never
/// descends into a nested `node_modules` directory: that slot is
/// populated by the symlink pass instead.
pub fn hardlink_descends_into(dir_name: &String) -> (r: bool)
    ensures
        r == (dir_name@ != deps_folder_name()),
{
    let nm = String::from_str(deps_folder());
    !dir_name.eq(&nm)
}

/// Strip the leading `package/` that the registry prepends to every
/// tarball entry; entries without it are rejected.
pub fn strip_package_prefix(path: &str) -> (r: Option<String>)
    ensures
        match r {
            Some(rest) => path@.len() >= 8 && path@.subrange(0, 8) == "package/"@ && rest@
                == path@.subrange(8, path@.len() as int),
            None => !(path@.len() >= 8 && path@.subrange(0, 8) == "package/"@),
        },
{
    let n = path.unicode_len();
    if n < 8 {
        return None;
    }
    let head = String::from_str(path.substring_char(0, 8));
    let expected = String::from_str("package/");
    if head.eq(&expected) {
        Some(String::from_str(path.substring_char(8, n)))
    } else {
        None
    }
}


/// Resolve relative path components against a directory, as the
/// filesystem does: `..` pops a component, `.` stays put, anything
/// else descends.
pub open spec fn norm(stack: Seq<Seq<char>>, rest: Seq<Seq<char>>) -> Seq<Seq<char>>
    decreases rest.len(),
{
    if rest.len() == 0 {
        stack
    } else if rest.first() == ".."@ {
        norm(stack.drop_last(), rest.drop_first())
    } else if rest.first() == "."@ {
        norm(stack, rest.drop_first())
    } else {
        norm(stack.push(rest.first()), rest.drop_first())
    }
}

/// A run of `..` components pops exactly as many components as it has.
proof fn lemma_norm_updirs(stack: Seq<Seq<char>>, extra: Seq<Seq<char>>, rest: Seq<Seq<char>>)
    ensures
        norm(stack + extra, updirs(extra.len()) + rest) == norm(stack, rest),
    decreases extra.len(),
{
    reveal_strlit("..");
    if extra.len() == 0 {
        assert(stack + extra =~= stack);
        assert(updirs(0) + rest =~= rest);
    } else {
        let whole = updirs(extra.len()) + rest;
        assert(whole.first() == ".."@);
        assert((stack + extra).drop_last() =~= stack + extra.drop_last());
        assert(whole.drop_first() =~= updirs(extra.drop_last().len()) + rest);
        lemma_norm_updirs(stack, extra.drop_last(), rest);
    }
}

/// Components that are neither `..` nor `.` simply append.
proof fn lemma_norm_append(stack: Seq<Seq<char>>, rest: Seq<Seq<char>>)
    requires
        forall|i: int| 0 <= i < rest.len() ==> rest[i] != ".."@ && rest[i] != "."@,
    ensures
        norm(stack, rest) == stack + rest,
    decreases rest.len(),
{
    if rest.len() == 0 {
        assert(stack + rest =~= stack);
    } else {
        assert(rest[0] != ".."@ && rest[0] != "."@);
        lemma_norm_append(stack.push(rest.first()), rest.drop_first());
        assert(stack.push(rest.first()) + rest.drop_first() =~= stack + rest);
    }
}

/// A component holding an `@` separator is neither `..` nor `.`.
proof fn lemma_tagged_not_dots(last: Seq<char>, version: Seq<char>)
    ensures
        last + "@"@ + version != ".."@,
        last + "@"@ + version != "."@,
{
    reveal_strlit("..");
    reveal_strlit(".");
    reveal_strlit("@");
    let t = last + "@"@ + version;
    assert(t[last.len() as int] == '@');
    if t == ".."@ {
        assert(t.len() == 2);
        assert(t[last.len() as int] == '.');
        assert(false);
    }
    if t == "."@ {
        assert(t.len() == 1);
        assert(t[last.len() as int] == '.');
        assert(false);
    }
}

/// Law (scope path correctness): the relative dependency symlink
/// target, resolved from the directory that contains the link,
/// reaches exactly the dependency's project-local store directory.
/// This holds for scoped and unscoped parents and dependencies alike,
/// as long as no component of the dependency's name is `.` or `..`.
pub proof fn lemma_dep_symlink_resolves(
    parent_name: Seq<char>,
    parent_version: Seq<char>,
    dep_name: Seq<char>,
    dep_version: Seq<char>,
)
    requires
        forall|i: int|
            0 <= i < spec_name_parts(dep_name).len() ==> spec_name_parts(dep_name)[i] != ".."@
                && spec_name_parts(dep_name)[i] != "."@,
    ensures
        norm(
            spec_dep_symlink_link(parent_name, parent_version, dep_name).drop_last(),
            spec_dep_symlink_target(parent_name, dep_name, dep_version),
        ) == spec_local_store_package_dir(dep_name, dep_version),
{
    reveal_strlit("..");
    reveal_strlit(".");
    reveal_strlit("node_modules");
    reveal_strlit(".fpm");
    let pp = spec_name_parts(parent_name);
    let dp = spec_name_parts(dep_name);
    let pv = spec_pkg_at_version(pp, parent_version);
    let dv = spec_pkg_at_version(dp, dep_version);
    let base = seq![deps_folder_name(), store_folder_name()];
    let link = spec_dep_symlink_link(parent_name, parent_version, dep_name);
    let target = spec_dep_symlink_target(parent_name, dep_name, dep_version);
    assert(dp.len() >= 1);
    assert(pp.len() >= 1);
    let extra = pv + seq![deps_folder_name()] + dp.drop_last();
    assert(pv.len() == pp.len());
    assert(extra.len() == pp.len() + dp.len());
    assert(link.drop_last() =~= base + extra);
    let tail = dv + seq![deps_folder_name()] + dp;
    assert(target =~= updirs(extra.len()) + tail);
    lemma_norm_updirs(base, extra, tail);
    assert(norm(link.drop_last(), target) == norm(base, tail));
    assert forall|i: int| 0 <= i < tail.len() implies tail[i] != ".."@ && tail[i]
        != "."@ by {
        if i < dv.len() {
            if i == dv.len() - 1 {
                lemma_tagged_not_dots(dp.last(), dep_version);
                assert(tail[i] == dp.last() + "@"@ + dep_version);
            } else {
                assert(tail[i] == dp[i]);
            }
        } else if i == dv.len() {
            assert(tail[i] == deps_folder_name());
        } else {
            assert(tail[i] == dp[i - dv.len() - 1]);
        }
    }
    lemma_norm_append(base, tail);
    assert(base + tail =~= spec_local_store_package_dir(dep_name, dep_version));
}

} // verus!
