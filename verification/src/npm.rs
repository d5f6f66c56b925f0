//! Data model for registry documents: versions, range specifiers,
//! tarball URLs, per-version records and whole package documents.
//!
//! Each executable type has a mathematical view; contracts elsewhere in
//! the crate are stated over these views.

use vstd::prelude::*;

verus! {

/// A semver-compatible version identifier, kept as an opaque string;
/// ordering questions are delegated to the semver bridge.
#[derive(Debug, Clone, PartialEq, Eq, Hash)]
pub struct Version(pub String);

impl View for Version {
    type V = Seq<char>;

    open spec fn view(&self) -> Seq<char> {
        self.0@
    }
}

impl Version {
    pub fn new(value: String) -> (r: Version)
        ensures
            r.0 == value,
    {
        Version(value)
    }

    pub fn as_str(&self) -> (r: &str)
        ensures
            r@ == self@,
    {
        self.0.as_str()
    }

    pub fn duplicate(&self) -> (r: Version)
        ensures
            r == *self,
    {
        Version(self.0.clone())
    }
}

#[derive(Debug, PartialEq)]
pub enum VersionParseError {
    InvalidFormat,
}

/// A semver-compatible version range.
/// Can be either a range - ">3.0.0", "1.2.4" - or a tag - "latest".
#[derive(Debug, Clone, PartialEq, Eq, Hash)]
pub struct VersionRangeSpecifier(pub String);

impl View for VersionRangeSpecifier {
    type V = Seq<char>;

    open spec fn view(&self) -> Seq<char> {
        self.0@
    }
}

impl VersionRangeSpecifier {
    pub fn new(value: String) -> (r: VersionRangeSpecifier)
        ensures
            r.0 == value,
    {
        VersionRangeSpecifier(value)
    }

    pub fn as_str(&self) -> (r: &str)
        ensures
            r@ == self@,
    {
        self.0.as_str()
    }

    pub fn duplicate(&self) -> (r: VersionRangeSpecifier)
        ensures
            r == *self,
    {
        VersionRangeSpecifier(self.0.clone())
    }
}

#[derive(Debug, PartialEq)]
pub enum VersionRangeSpecifierParseError {
    InvalidFormat,
}

/// A string containing a fully-formed URL.
#[derive(Debug, Clone, PartialEq, Eq, Hash)]
pub struct UrlString(pub String);

impl View for UrlString {
    type V = Seq<char>;

    open spec fn view(&self) -> Seq<char> {
        self.0@
    }
}

impl UrlString {
    pub fn new(value: String) -> (r: UrlString)
        ensures
            r.0 == value,
    {
        UrlString(value)
    }

    pub fn as_str(&self) -> (r: &str)
        ensures
            r@ == self@,
    {
        self.0.as_str()
    }

    pub fn duplicate(&self) -> (r: UrlString)
        ensures
            r == *self,
    {
        UrlString(self.0.clone())
    }
}

#[derive(Debug, PartialEq)]
pub enum UrlStringParseError {
    InvalidFormat,
}

/// View of a distribution signature: both fields as character sequences.
#[verifier::ext_equal]
pub struct NpmVersionDistSignatureView {
    pub keyid: Seq<char>,
    pub sig: Seq<char>,
}

#[derive(Debug, Clone, PartialEq, Eq)]
pub struct NpmVersionDistSignature {
    pub keyid: String,
    pub sig: String,
}

impl View for NpmVersionDistSignature {
    type V = NpmVersionDistSignatureView;

    open spec fn view(&self) -> NpmVersionDistSignatureView {
        NpmVersionDistSignatureView { keyid: self.keyid@, sig: self.sig@ }
    }
}

impl NpmVersionDistSignature {
    pub fn duplicate(&self) -> (r: Self)
        ensures
            r@ == self@,
    {
        NpmVersionDistSignature { keyid: self.keyid.clone(), sig: self.sig.clone() }
    }
}

/// View of the `dist` object of a published version.
#[verifier::ext_equal]
pub struct NpmVersionDistView {
    pub shasum: Seq<char>,
    pub tarball: Seq<char>,
    pub integrity: Option<Seq<char>>,
    pub file_count: Option<i32>,
    pub unpacked_size: Option<i32>,
    pub npm_signatures: Option<Seq<char>>,
    pub signatures: Option<Seq<NpmVersionDistSignatureView>>,
}

#[derive(Debug, Clone, PartialEq, Eq)]
pub struct NpmVersionDist {
    pub shasum: String,
    pub tarball: UrlString,
    pub integrity: Option<String>,
    pub file_count: Option<i32>,
    pub unpacked_size: Option<i32>,
    pub npm_signatures: Option<String>,
    pub signatures: Option<Vec<NpmVersionDistSignature>>,
}

pub open spec fn view_opt_string(s: Option<String>) -> Option<Seq<char>> {
    match s {
        Some(v) => Some(v@),
        None => None,
    }
}

impl View for NpmVersionDist {
    type V = NpmVersionDistView;

    open spec fn view(&self) -> NpmVersionDistView {
        NpmVersionDistView {
            shasum: self.shasum@,
            tarball: self.tarball@,
            integrity: view_opt_string(self.integrity),
            file_count: self.file_count,
            unpacked_size: self.unpacked_size,
            npm_signatures: view_opt_string(self.npm_signatures),
            signatures: match self.signatures {
                Some(sigs) => Some(
                    sigs@.map_values(|s: NpmVersionDistSignature| s@),
                ),
                None => None,
            },
        }
    }
}

impl NpmVersionDist {
    pub fn duplicate(&self) -> (r: Self)
        ensures
            r@ == self@,
    {
        let signatures: Option<Vec<NpmVersionDistSignature>> = match &self.signatures {
            Some(sigs) => {
                let mut out: Vec<NpmVersionDistSignature> = Vec::new();
                let mut i: usize = 0;
                while i < sigs.len()
                    invariant
                        i <= sigs@.len(),
                        out@.len() == i,
                        forall|k: int| 0 <= k < i ==> #[trigger] out@[k]@ == sigs@[k]@,
                    decreases sigs@.len() - i,
                {
                    out.push(sigs[i].duplicate());
                    i = i + 1;
                }
                assert(out@.map_values(|s: NpmVersionDistSignature| s@) =~= sigs@.map_values(
                    |s: NpmVersionDistSignature| s@,
                ));
                Some(out)
            },
            None => None,
        };
        let r = NpmVersionDist {
            shasum: self.shasum.clone(),
            tarball: self.tarball.duplicate(),
            integrity: duplicate_opt_string(&self.integrity),
            file_count: self.file_count,
            unpacked_size: self.unpacked_size,
            npm_signatures: duplicate_opt_string(&self.npm_signatures),
            signatures,
        };
        assert(r@ =~= self@);
        r
    }
}

pub fn duplicate_opt_string(s: &Option<String>) -> (r: Option<String>)
    ensures
        r == *s,
{
    match s {
        Some(v) => Some(v.clone()),
        None => None,
    }
}

/// View of a dependency table entry: `(package name, range)`.
pub open spec fn view_dep_list(deps: Seq<(String, VersionRangeSpecifier)>) -> Seq<
    (Seq<char>, Seq<char>),
> {
    deps.map_values(|p: (String, VersionRangeSpecifier)| (p.0@, p.1@))
}

pub open spec fn view_opt_dep_list(deps: Option<Vec<(String, VersionRangeSpecifier)>>) -> Option<
    Seq<(Seq<char>, Seq<char>)>,
> {
    match deps {
        Some(d) => Some(view_dep_list(d@)),
        None => None,
    }
}

/// Copy of a dependency table: pairs of package name and range.
pub fn duplicate_dep_list(deps: &Vec<(String, VersionRangeSpecifier)>) -> (r: Vec<
    (String, VersionRangeSpecifier),
>)
    ensures
        r@ =~= deps@,
{
    let mut out: Vec<(String, VersionRangeSpecifier)> = Vec::new();
    let mut i: usize = 0;
    while i < deps.len()
        invariant
            i <= deps@.len(),
            out@ =~= deps@.subrange(0, i as int),
        decreases deps@.len() - i,
    {
        let (n, rg) = &deps[i];
        out.push((n.clone(), rg.duplicate()));
        i = i + 1;
    }
    out
}

/// View of one published version of a package.
#[verifier::ext_equal]
pub struct NpmPackageVersionView {
    pub name: Seq<char>,
    pub version: Seq<char>,
    pub dependencies: Option<Seq<(Seq<char>, Seq<char>)>>,
    pub dist: NpmVersionDistView,
    pub engines: Option<Seq<(Seq<char>, Seq<char>)>>,
}

impl NpmPackageVersionView {
    /// The declared dependency edges, in declaration order; an absent
    /// table counts as empty.
    pub open spec fn deps(self) -> Seq<(Seq<char>, Seq<char>)> {
        match self.dependencies {
            Some(d) => d,
            None => Seq::empty(),
        }
    }
}

/// One published version of a package, as the registry document lists it.
#[derive(Debug, Clone, PartialEq, Eq)]
pub struct NpmPackageVersion {
    pub name: String,
    pub version: Version,
    pub dependencies: Option<Vec<(String, VersionRangeSpecifier)>>,
    pub dist: NpmVersionDist,
    pub engines: Option<Vec<(String, VersionRangeSpecifier)>>,
}

impl View for NpmPackageVersion {
    type V = NpmPackageVersionView;

    open spec fn view(&self) -> NpmPackageVersionView {
        NpmPackageVersionView {
            name: self.name@,
            version: self.version@,
            dependencies: view_opt_dep_list(self.dependencies),
            dist: self.dist@,
            engines: view_opt_dep_list(self.engines),
        }
    }
}

impl NpmPackageVersion {
    pub fn duplicate(&self) -> (r: Self)
        ensures
            r@ == self@,
    {
        let dependencies: Option<Vec<(String, VersionRangeSpecifier)>> = match &self.dependencies {
            Some(deps) => Some(duplicate_dep_list(deps)),
            None => None,
        };
        let engines: Option<Vec<(String, VersionRangeSpecifier)>> = match &self.engines {
            Some(deps) => Some(duplicate_dep_list(deps)),
            None => None,
        };
        let r = NpmPackageVersion {
            name: self.name.clone(),
            version: self.version.duplicate(),
            dependencies,
            dist: self.dist.duplicate(),
            engines,
        };
        assert(r@ =~= self@);
        r
    }
}

/// View of a whole registry document.
#[verifier::ext_equal]
pub struct NpmResolvedPackageView {
    pub name: Seq<char>,
    pub dist_tags: Seq<(Seq<char>, Seq<char>)>,
    pub versions: Seq<(Seq<char>, NpmPackageVersionView)>,
    pub modified: Seq<char>,
}

impl NpmResolvedPackageView {
    /// Index of the first distribution tag named `tag`, if any.
    pub open spec fn tag_index(self, tag: Seq<char>) -> Option<int> {
        crate::assoc::find_from(self.dist_tags, 0, |e: (Seq<char>, Seq<char>)| e.0 == tag)
    }

    /// Index of the first version table entry keyed `v`, if any.
    pub open spec fn version_index(self, v: Seq<char>) -> Option<int> {
        crate::assoc::find_from(
            self.versions,
            0,
            |e: (Seq<char>, NpmPackageVersionView)| e.0 == v,
        )
    }
}

/// A whole registry document for one package: distribution tags and the
/// table of published versions, in the order the document lists them.
/// The version table models an insertion-ordered map: keys are expected
/// to be unique, and lookups take the first matching entry.
#[derive(Debug, Clone, PartialEq, Eq)]
pub struct NpmResolvedPackage {
    pub name: String,
    pub dist_tags: Vec<(String, Version)>,
    pub versions: Vec<(Version, NpmPackageVersion)>,
    pub modified: String,
}

impl View for NpmResolvedPackage {
    type V = NpmResolvedPackageView;

    open spec fn view(&self) -> NpmResolvedPackageView {
        NpmResolvedPackageView {
            name: self.name@,
            dist_tags: self.dist_tags@.map_values(|e: (String, Version)| (e.0@, e.1@)),
            versions: self.versions@.map_values(
                |e: (Version, NpmPackageVersion)| (e.0@, e.1@),
            ),
            modified: self.modified@,
        }
    }
}

impl NpmResolvedPackage {
    pub fn duplicate(&self) -> (r: Self)
        ensures
            r@ == self@,
    {
        let mut dist_tags: Vec<(String, Version)> = Vec::new();
        let mut i: usize = 0;
        while i < self.dist_tags.len()
            invariant
                i <= self.dist_tags@.len(),
                dist_tags@.len() == i,
                forall|k: int|
                    0 <= k < i ==> #[trigger] dist_tags@[k] == self.dist_tags@[k],
            decreases self.dist_tags@.len() - i,
        {
            let (t, v) = &self.dist_tags[i];
            dist_tags.push((t.clone(), v.duplicate()));
            i = i + 1;
        }
        let mut versions: Vec<(Version, NpmPackageVersion)> = Vec::new();
        let mut j: usize = 0;
        while j < self.versions.len()
            invariant
                j <= self.versions@.len(),
                versions@.len() == j,
                forall|k: int|
                    0 <= k < j ==> (#[trigger] versions@[k]).0 == self.versions@[k].0
                        && versions@[k].1@ == self.versions@[k].1@,
            decreases self.versions@.len() - j,
        {
            let (v, rec) = &self.versions[j];
            versions.push((v.duplicate(), rec.duplicate()));
            j = j + 1;
        }
        let r = NpmResolvedPackage {
            name: self.name.clone(),
            dist_tags,
            versions,
            modified: self.modified.clone(),
        };
        assert(r@ =~= self@);
        r
    }

    /// Look up a distribution tag's target version identifier.
    pub fn tag_target(&self, tag: &String) -> (r: Option<&Version>)
        ensures
            match self@.tag_index(tag@) {
                Some(i) => r is Some && r->0@ == self@.dist_tags[i].1,
                None => r is None,
            },
    {
        let ghost p = |e: (Seq<char>, Seq<char>)| e.0 == tag@;
        proof {
            crate::assoc::lemma_find_from_properties(self@.dist_tags, 0, p);
        }
        let mut i: usize = 0;
        while i < self.dist_tags.len()
            invariant
                i <= self@.dist_tags.len(),
                self@.dist_tags.len() == self.dist_tags@.len(),
                forall|k: int| 0 <= k < i ==> !p(#[trigger] self@.dist_tags[k]),
                match crate::assoc::find_from(self@.dist_tags, 0, p) {
                    Some(j) => 0 <= j < self@.dist_tags.len() && p(self@.dist_tags[j])
                        && forall|k: int| 0 <= k < j ==> !p(#[trigger] self@.dist_tags[k]),
                    None => forall|k: int|
                        0 <= k < self@.dist_tags.len() ==> !p(#[trigger] self@.dist_tags[k]),
                },
            decreases self.dist_tags@.len() - i,
        {
            let hit = self.dist_tags[i].0.eq(tag);
            assert(self@.dist_tags[i as int]
                == (self.dist_tags@[i as int].0@, self.dist_tags@[i as int].1@));
            if hit {
                return Some(&self.dist_tags[i].1);
            }
            i = i + 1;
        }
        None
    }

    /// Look up a published version record by version identifier.
    pub fn version_record(&self, v: &Version) -> (r: Option<&NpmPackageVersion>)
        ensures
            match self@.version_index(v@) {
                Some(i) => r is Some && r->0@ == self@.versions[i].1,
                None => r is None,
            },
    {
        let ghost p = |e: (Seq<char>, NpmPackageVersionView)| e.0 == v@;
        proof {
            crate::assoc::lemma_find_from_properties(self@.versions, 0, p);
        }
        let mut i: usize = 0;
        while i < self.versions.len()
            invariant
                i <= self@.versions.len(),
                self@.versions.len() == self.versions@.len(),
                forall|k: int| 0 <= k < i ==> !p(#[trigger] self@.versions[k]),
                match crate::assoc::find_from(self@.versions, 0, p) {
                    Some(j) => 0 <= j < self@.versions.len() && p(self@.versions[j])
                        && forall|k: int| 0 <= k < j ==> !p(#[trigger] self@.versions[k]),
                    None => forall|k: int|
                        0 <= k < self@.versions.len() ==> !p(#[trigger] self@.versions[k]),
                },
            decreases self.versions@.len() - i,
        {
            let hit = self.versions[i].0.0.eq(&v.0);
            assert(self@.versions[i as int]
                == (self.versions@[i as int].0@, self.versions@[i as int].1@));
            if hit {
                return Some(&self.versions[i].1);
            }
            i = i + 1;
        }
        None
    }
}


/// View of a resolved dependency tree.
#[verifier::ext_equal]
pub struct ResolvedDependencyTreeView {
    pub name: Seq<char>,
    pub version: NpmPackageVersionView,
    pub dependencies: Seq<ResolvedDependencyTreeView>,
}

/// A dependency tree that represents the concrete versions that
/// packages depend on and that should be downloaded.
#[derive(Debug, PartialEq, Eq)]
pub struct ResolvedDependencyTree {
    pub name: String,
    pub version: NpmPackageVersion,
    pub dependencies: Vec<ResolvedDependencyTree>,
}

/// The mathematical content of a dependency tree.
pub open spec fn tree_view(t: ResolvedDependencyTree) -> ResolvedDependencyTreeView
    decreases t,
{
    ResolvedDependencyTreeView {
        name: t.name@,
        version: t.version@,
        dependencies: Seq::new(
            t.dependencies@.len(),
            |i: int| if 0 <= i < t.dependencies@.len() {
                tree_view(t.dependencies@[i])
            } else {
                arbitrary()
            },
        ),
    }
}

impl ResolvedDependencyTree {
    pub fn new(
        name: String,
        version: NpmPackageVersion,
        dependencies: Vec<ResolvedDependencyTree>,
    ) -> (r: Self)
        ensures
            r == (ResolvedDependencyTree { name, version, dependencies }),
    {
        Self { name, version, dependencies }
    }
}

} // verus!
